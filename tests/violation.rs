use obsidian_tidy::violation::Error;
use obsidian_tidy::Violation;

#[test]
fn violation_new() {
    let violation = Violation::new("Super error", 43..50).unwrap();

    assert_eq!(violation.message(), "Super error");
    assert_eq!(violation.location(), 43..50);
}

#[test]
fn new_with_inclusive() {
    let violation = Violation::new("Super error", 43..=50).unwrap();
    let violation1 = Violation::new("Super error", 43..=43).unwrap();

    assert_eq!(violation.message(), "Super error");
    assert_eq!(violation.location(), 43..51);

    assert_eq!(violation1.message(), "Super error");
    assert_eq!(violation1.location(), 43..44);
}

#[test]
fn new_with_unbounded_start() {
    let result = Violation::new("Super error", ..50);
    assert_eq!(result, Err(Error::UnboundedStart));
}

#[test]
fn new_with_unbounded_end() {
    let result = Violation::new("Super error", 20..);
    assert_eq!(result, Err(Error::UnboundedEnd));
}

#[test]
fn new_with_invalid_range() {
    let result = Violation::new("Super error", 50..20);
    assert_eq!(result, Err(Error::InvalidRange { start: 50, end: 20 }));
}

#[test]
fn empty_location_is_accepted() {
    let violation = Violation::new("msg", 7..7).unwrap();
    assert_eq!(violation.location(), 7..7);
}

#[test]
fn inclusive_range_that_ends_before_it_starts() {
    let result = Violation::new("msg", 50..=20);
    assert_eq!(result, Err(Error::InvalidRange { start: 50, end: 21 }));
}

#[test]
fn endpoint_past_the_largest_offset_is_an_error() {
    assert_eq!(Violation::new("msg", 0..=usize::MAX), Err(Error::OffsetOverflow));
    assert_eq!(Violation::new("msg", 5..usize::MAX).unwrap().location(), 5..usize::MAX);
}

#[test]
fn exhausted_inclusive_range_excludes_its_end() {
    let mut range = 3..=3;
    assert_eq!(range.next(), Some(3));
    assert_eq!(Violation::new("msg", range).unwrap().location(), 3..3);
}
