use obsidian_tidy::{
    aggregate, check_note, check_unit, run, Category, Check, Content, CustomRule, Note, Outcome, Rules,
    ToggleableRule, Violation,
};
use obsidian_parser::prelude::{NoteDefault, NoteFromString};
use std::sync::Arc;

#[derive(Debug, Clone, PartialEq, Eq)]
struct Broken;

/// One violation for every note, or an error, as it is made.
struct Stub {
    fails: bool,
}

impl Check for Stub {
    type Error = Broken;

    fn check(&self, _content: &Content, _note: &Note) -> Result<Vec<Violation>, Self::Error> {
        if self.fails {
            Err(Broken)
        } else {
            Ok(vec![Violation::new("found", 3..=4).unwrap()])
        }
    }
}

type StubRule = CustomRule<Stub>;

fn stub(name: &str, fails: bool) -> StubRule {
    CustomRule::new(name, "", Category::Other, Stub { fails })
}

fn content_with_notes(texts: &[&str]) -> Content {
    let mut content = Content::default();
    for text in texts {
        content.vault.mut_notes().push(Note::from_string_default(text).unwrap());
    }
    content
}

fn registry(enabled_good: bool) -> Rules<Arc<StubRule>> {
    Rules::new(vec![
        ToggleableRule::new(Arc::new(stub("good", false)), enabled_good),
        ToggleableRule::new(Arc::new(stub("bad", true)), true),
    ])
    .unwrap()
}

#[test]
fn one_violation_and_one_failure() {
    let content = content_with_notes(&["a note"]);
    let report = run(&registry(true), &content);

    assert_eq!(report.violations.len(), 1);
    assert_eq!(report.violations[0].location(), 3..5);
    assert_eq!(report.failures.len(), 1);
    assert_eq!(report.failures[0].rule, "bad");
    assert_eq!(report.failures[0].error, Broken);
}

#[test]
fn arrival_order_does_not_matter() {
    let found = || Outcome::<Broken> {
        rule: "good".to_string(),
        result: Ok(vec![Violation::new("found", 1..2).unwrap()]),
    };
    let failed = || Outcome::<Broken> { rule: "bad".to_string(), result: Err(Broken) };

    let first = aggregate(vec![found(), failed()]);
    let second = aggregate(vec![failed(), found()]);
    assert_eq!(first.violations, second.violations);
    assert_eq!(first.failures.len(), 1);
    assert_eq!(second.failures.len(), 1);
    assert_eq!(first.failures[0].rule, second.failures[0].rule);
}

#[test]
fn every_rule_runs_on_every_note() {
    let content = content_with_notes(&["one", "two", "three"]);
    let report = run(&registry(true), &content);
    assert_eq!(report.violations.len(), 3);
    assert_eq!(report.failures.len(), 3);
}

#[test]
fn disabled_rule_contributes_nothing() {
    let content = content_with_notes(&["one", "two"]);
    let report = run(&registry(false), &content);
    assert!(report.violations.is_empty());
    assert_eq!(report.failures.len(), 2);
}

#[test]
fn no_notes_no_outcomes() {
    let report = run(&registry(true), &Content::default());
    assert!(report.violations.is_empty());
    assert!(report.failures.is_empty());
}

#[test]
fn aggregate_keeps_order_of_outcomes() {
    let outcomes = vec![
        Outcome::<Broken> {
            rule: "x".to_string(),
            result: Ok(vec![
                Violation::new("first", 0..1).unwrap(),
                Violation::new("second", 2..3).unwrap(),
            ]),
        },
        Outcome::<Broken> { rule: "y".to_string(), result: Err(Broken) },
        Outcome::<Broken> { rule: "z".to_string(), result: Ok(Vec::new()) },
        Outcome::<Broken> {
            rule: "w".to_string(),
            result: Ok(vec![Violation::new("third", 4..5).unwrap()]),
        },
    ];
    let report = aggregate(outcomes);
    let messages: Vec<&str> = report.violations.iter().map(|v| v.message()).collect();
    assert_eq!(messages, vec!["first", "second", "third"]);
    assert_eq!(report.failures.len(), 1);
    assert_eq!(report.failures[0].rule, "y");
}

#[test]
fn check_unit_names_the_rule() {
    let rule = ToggleableRule::new(stub("bad", true), false);
    let outcome = check_unit(&rule, &Content::default(), &Note::default());
    assert_eq!(outcome.rule, "bad");
    assert_eq!(outcome.result, Ok(Vec::new()));

    let rule = ToggleableRule::new(stub("bad", true), true);
    let outcome = check_unit(&rule, &Content::default(), &Note::default());
    assert_eq!(outcome.result, Err(Broken));
}

#[test]
fn one_violation_and_one_failure_per_note() {
    let content = content_with_notes(&["one", "two", "three", "four"]);
    let report = run(&registry(true), &content);
    assert_eq!(report.violations.len(), 4);
    assert!(report.violations.iter().all(|v| v.location() == (3..5)));
    assert_eq!(report.failures.len(), 4);
    assert!(report.failures.iter().all(|f| f.rule == "bad" && f.error == Broken));
}

#[test]
fn one_round_per_note() {
    let rules = registry(true);
    let note = Note::from_string_default("text").unwrap();
    let round = check_note(&rules, &Content::default(), &note);
    assert_eq!(round.len(), 2);
    assert_eq!(round[0].rule, "good");
    assert_eq!(round[0].result.as_ref().unwrap().len(), 1);
    assert_eq!(round[1].rule, "bad");
    assert_eq!(round[1].result, Err(Broken));
}
