//! A single diagnostic: a message and the byte range it points at.

use std::ops::{Bound, Range, RangeBounds, RangeFrom, RangeInclusive, RangeTo};
use vstd::prelude::*;

verus! {

/// std's `a..` range, whose public `start` field Verus reads.
#[verifier::external_type_specification]
#[verifier::reject_recursive_types(Idx)]
pub struct ExRangeFrom<Idx>(RangeFrom<Idx>);

/// std's `..b` range, whose public `end` field Verus reads.
#[verifier::external_type_specification]
#[verifier::reject_recursive_types(Idx)]
pub struct ExRangeTo<Idx>(RangeTo<Idx>);

/// Relies on `RangeInclusive::start`: the first index of the range.
pub assume_specification<Idx>[ RangeInclusive::<Idx>::start ](r: &RangeInclusive<Idx>) -> (s: &Idx)
    ensures
        *s == r@.start,
;

/// One end of a location, as a range expression writes it.
#[derive(Debug, Clone, Copy, PartialEq, Eq, Structural)]
pub enum Endpoint {
    Included(usize),
    Excluded(usize),
    Unbounded,
}

/// A range expression that can locate a violation.
pub trait Location {
    spec fn start_spec(&self) -> Endpoint;

    spec fn end_spec(&self) -> Endpoint;

    fn start_endpoint(&self) -> (r: Endpoint)
        ensures
            r == self.start_spec(),
    ;

    fn end_endpoint(&self) -> (r: Endpoint)
        ensures
            r == self.end_spec(),
    ;
}

impl Location for Range<usize> {
    open spec fn start_spec(&self) -> Endpoint {
        Endpoint::Included(self.start)
    }

    open spec fn end_spec(&self) -> Endpoint {
        Endpoint::Excluded(self.end)
    }

    fn start_endpoint(&self) -> (r: Endpoint) {
        Endpoint::Included(self.start)
    }

    fn end_endpoint(&self) -> (r: Endpoint) {
        Endpoint::Excluded(self.end)
    }
}

/// Relies on `RangeInclusive`'s `RangeBounds::end_bound`: the end is
/// excluded once the range has been exhausted by iteration, included
/// otherwise.
#[verifier::external_body]
fn inclusive_end(r: &RangeInclusive<usize>) -> (e: Endpoint)
    ensures
        e == if r@.exhausted {
            Endpoint::Excluded(r@.end)
        } else {
            Endpoint::Included(r@.end)
        },
{
    match RangeBounds::end_bound(r) {
        Bound::Included(&e) => Endpoint::Included(e),
        Bound::Excluded(&e) => Endpoint::Excluded(e),
        Bound::Unbounded => Endpoint::Unbounded,
    }
}

/// An inclusive range `a..=b`: its last index belongs to the location,
/// unless the range has been exhausted by iteration.
impl Location for RangeInclusive<usize> {
    open spec fn start_spec(&self) -> Endpoint {
        Endpoint::Included(self@.start)
    }

    open spec fn end_spec(&self) -> Endpoint {
        if self@.exhausted {
            Endpoint::Excluded(self@.end)
        } else {
            Endpoint::Included(self@.end)
        }
    }

    fn start_endpoint(&self) -> (r: Endpoint) {
        Endpoint::Included(*self.start())
    }

    fn end_endpoint(&self) -> (r: Endpoint) {
        inclusive_end(self)
    }
}

impl Location for RangeFrom<usize> {
    open spec fn start_spec(&self) -> Endpoint {
        Endpoint::Included(self.start)
    }

    open spec fn end_spec(&self) -> Endpoint {
        Endpoint::Unbounded
    }

    fn start_endpoint(&self) -> (r: Endpoint) {
        Endpoint::Included(self.start)
    }

    fn end_endpoint(&self) -> (r: Endpoint) {
        Endpoint::Unbounded
    }
}

impl Location for RangeTo<usize> {
    open spec fn start_spec(&self) -> Endpoint {
        Endpoint::Unbounded
    }

    open spec fn end_spec(&self) -> Endpoint {
        Endpoint::Excluded(self.end)
    }

    fn start_endpoint(&self) -> (r: Endpoint) {
        Endpoint::Unbounded
    }

    fn end_endpoint(&self) -> (r: Endpoint) {
        Endpoint::Excluded(self.end)
    }
}

/// Why a location could not become a violation.
#[derive(Debug, Clone, Copy, PartialEq, Eq, Structural)]
pub enum Error {
    /// The location has no start bound.
    UnboundedStart,
    /// The location has no end bound.
    UnboundedEnd,
    /// The location starts after it ends.
    InvalidRange { start: usize, end: usize },
    /// An exclusive start or an inclusive end of `usize::MAX`: the offset
    /// past it does not fit in `usize`.
    OffsetOverflow,
}

/// The first byte offset that a start endpoint covers, if it is bounded.
pub open spec fn start_offset(e: Endpoint) -> Option<int> {
    match e {
        Endpoint::Included(s) => Some(s as int),
        Endpoint::Excluded(s) => Some(s + 1),
        Endpoint::Unbounded => None,
    }
}

/// The first byte offset past a location that ends at this endpoint, if it is bounded.
pub open spec fn end_offset(e: Endpoint) -> Option<int> {
    match e {
        Endpoint::Included(e) => Some(e + 1),
        Endpoint::Excluded(e) => Some(e as int),
        Endpoint::Unbounded => None,
    }
}

/// A message located at the half-open byte range `start..end`.
#[derive(Debug, Clone, PartialEq, Eq)]
pub struct Violation {
    message: String,
    start: usize,
    end: usize,
}

impl Violation {
    pub closed spec fn message_spec(&self) -> Seq<char> {
        self.message@
    }

    pub closed spec fn start_spec(&self) -> nat {
        self.start as nat
    }

    pub closed spec fn end_spec(&self) -> nat {
        self.end as nat
    }

    /// A location always starts at or before its end.
    pub closed spec fn wf(&self) -> bool {
        self.start <= self.end
    }

    /// Builds a violation from a message and a range expression.
    ///
    /// An inclusive end is turned into the exclusive end one past it, an
    /// exclusive start into the included start one past it. A location
    /// without a start or an end, one whose offset past an endpoint does
    /// not fit in `usize`, or one that starts after it ends, is an error.
    pub fn new<L: Location>(message: &str, location: L) -> (r: Result<Violation, Error>)
        ensures
            ({
                let s = start_offset(location.start_spec());
                let e = end_offset(location.end_spec());
                if s is None {
                    r == Err::<Violation, Error>(Error::UnboundedStart)
                } else if s->0 > usize::MAX {
                    r == Err::<Violation, Error>(Error::OffsetOverflow)
                } else if e is None {
                    r == Err::<Violation, Error>(Error::UnboundedEnd)
                } else if e->0 > usize::MAX {
                    r == Err::<Violation, Error>(Error::OffsetOverflow)
                } else if s->0 > e->0 {
                    r == Err::<Violation, Error>(
                        Error::InvalidRange { start: s->0 as usize, end: e->0 as usize },
                    )
                } else {
                    &&& r is Ok
                    &&& r->Ok_0.wf()
                    &&& r->Ok_0.message_spec() == message@
                    &&& r->Ok_0.start_spec() == s->0
                    &&& r->Ok_0.end_spec() == e->0
                }
            }),
    {
        let start = match location.start_endpoint() {
            Endpoint::Included(s) => s,
            Endpoint::Excluded(s) => {
                if s == usize::MAX {
                    return Err(Error::OffsetOverflow);
                }
                s + 1
            },
            Endpoint::Unbounded => return Err(Error::UnboundedStart),
        };
        let end = match location.end_endpoint() {
            Endpoint::Included(e) => {
                if e == usize::MAX {
                    return Err(Error::OffsetOverflow);
                }
                e + 1
            },
            Endpoint::Excluded(e) => e,
            Endpoint::Unbounded => return Err(Error::UnboundedEnd),
        };
        if start > end {
            return Err(Error::InvalidRange { start, end });
        }
        Ok(Violation { message: message.to_string(), start, end })
    }

    /// The message of the violation.
    pub fn message(&self) -> (r: &str)
        ensures
            r@ == self.message_spec(),
    {
        self.message.as_str()
    }

    /// The half-open byte range of the violation.
    pub fn location(&self) -> (r: Range<usize>)
        ensures
            r.start == self.start_spec(),
            r.end == self.end_spec(),
    {
        self.start..self.end
    }
}

} // verus!
