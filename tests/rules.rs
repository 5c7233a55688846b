use obsidian_tidy::rules::Error;
use obsidian_tidy::{Category, Check, Content, CustomRule, Note, Rule, Rules, ToggleableRule, Violation};
use std::convert::Infallible;
use std::sync::Arc;

/// Finds nothing.
#[derive(Debug)]
struct Nothing;

impl Check for Nothing {
    type Error = Infallible;

    fn check(&self, _content: &Content, _note: &Note) -> Result<Vec<Violation>, Self::Error> {
        Ok(Vec::new())
    }
}

type NamedRule = CustomRule<Nothing>;

fn named(name: &str, category: Category) -> NamedRule {
    CustomRule::new(name, "", category, Nothing)
}

fn toggled(name: &str, enabled: bool) -> ToggleableRule<Arc<NamedRule>> {
    ToggleableRule::new(Arc::new(named(name, Category::Other)), enabled)
}

#[test]
fn mod_duplicate_name() {
    let name = "DuplicateName";
    let rule1 = ToggleableRule::new(Arc::new(named(name, Category::Other)), true);
    let rule2 = ToggleableRule::new(Arc::new(named(name, Category::Other)), true);

    let rules = Rules::new(vec![rule1, rule2]);

    assert_eq!(rules.err(), Some(Error::DuplicateName(name.to_string())))
}

#[test]
fn mod_new() {
    let rule1 = ToggleableRule::new(Arc::new(named("Rule1", Category::Content)), true);
    let rule2 = ToggleableRule::new(Arc::new(named("Rule2", Category::Content)), true);

    let rules = Rules::new(vec![rule1, rule2]).unwrap();
    assert_eq!(rules.len(), 2);
}

#[test]
fn distinct_names_keep_their_order() {
    let rules = Rules::new(vec![toggled("c", true), toggled("a", false), toggled("b", true)]).unwrap();
    let names: Vec<&str> = rules.rules().iter().map(|r| r.name()).collect();
    assert_eq!(names, vec!["c", "a", "b"]);
    assert!(!rules.is_empty());
}

#[test]
fn empty_registry_is_valid() {
    let rules = Rules::<Arc<NamedRule>>::new(Vec::new()).unwrap();
    assert_eq!(rules.len(), 0);
    assert!(rules.is_empty());
}

#[test]
fn first_repeated_name_is_reported() {
    let rules = Rules::new(vec![
        toggled("a", true),
        toggled("b", true),
        toggled("c", true),
        toggled("b", false),
        toggled("a", false),
    ]);
    assert_eq!(rules.err(), Some(Error::DuplicateName("b".to_string())));
}

#[test]
fn lookup_by_name() {
    let mut rules = Rules::new(vec![toggled("a", true), toggled("b", false)]).unwrap();
    assert!(rules.get_by_name("b").unwrap().is_disabled());
    assert!(rules.get_by_name("missing").is_none());
    assert_eq!(rules.by_name("a").name(), "a");

    assert!(rules.set_enabled_by_name("b", true));
    assert!(rules.get_by_name("b").unwrap().is_enabled());
    assert!(!rules.set_enabled_by_name("missing", true));

    assert!(rules.set_enabled_by_name("a", false));
    assert!(rules.by_name("a").is_disabled());
    assert!(rules.by_name("b").is_enabled());
    assert_eq!(rules.into_rules().len(), 2);
}

#[test]
fn lint_duplicate_name() {
    let name = "DuplicateName";
    let lint1 = ToggleableRule::new(Arc::new(named(name, Category::Other)), true);
    let lint2 = ToggleableRule::new(Arc::new(named(name, Category::Other)), true);

    let lints = Rules::new(vec![lint1, lint2]);

    assert_eq!(lints.err(), Some(Error::DuplicateName(name.to_string())))
}

#[test]
fn lint_new() {
    let lint1 = ToggleableRule::new(Arc::new(named("Lint1", Category::Content)), true);
    let lint2 = ToggleableRule::new(Arc::new(named("Lint2", Category::Content)), true);

    let lints = Rules::new(vec![lint1, lint2]).unwrap();
    assert_eq!(lints.len(), 2);
}

#[test]
fn lints_duplicate_name() {
    let name = "DuplicateName";
    let lint1 = ToggleableRule::new(Arc::new(named(name, Category::Other)), true);
    let lint2 = ToggleableRule::new(Arc::new(named(name, Category::Other)), false);

    let lints = Rules::new(vec![lint1, lint2]);

    assert_eq!(lints.err(), Some(Error::DuplicateName(name.to_string())))
}

#[test]
fn lints_new() {
    let lint1 = ToggleableRule::new(Arc::new(named("Lint1", Category::Content)), true);
    let lint2 = ToggleableRule::new(Arc::new(named("Lint2", Category::Content)), false);

    let lints = Rules::new(vec![lint1, lint2]).unwrap();
    assert_eq!(lints.len(), 2);
}

#[test]
fn toggleable_lint_new() {
    let lint = Arc::new(named("TestLint", Category::Content));
    let lint_enabled = ToggleableRule::new(lint.clone(), true);
    let lint_disabled = ToggleableRule::new(lint, false);

    assert!(lint_enabled.is_enabled());
    assert!(lint_disabled.is_disabled());
}

#[test]
fn toggleable_lint_enable() {
    let lint = Arc::new(named("TestLint", Category::Content));
    let mut lint = ToggleableRule::new(lint, false);

    assert!(lint.is_disabled());
    lint.enable();
    assert!(lint.is_enabled());
}

#[test]
fn toggleable_lint_disable() {
    let lint = Arc::new(named("TestLint", Category::Content));
    let mut lint = ToggleableRule::new(lint, true);

    assert!(lint.is_enabled());
    lint.disable();
    assert!(lint.is_disabled());
}
