use obsidian_tidy::config::Error;
use obsidian_tidy::{
    Category, Check, Content, CustomRule, InnerRules, Note, Rule, RuleConfig, Rules, RulesSeed,
    ToggleableRule, Violation,
};
use std::convert::Infallible;
use std::sync::Arc;

/// Finds nothing.
#[derive(Debug)]
struct Nothing;

impl Check for Nothing {
    type Error = Infallible;

    fn check(&self, _content: &Content, _note: &Note) -> Result<Vec<Violation>, Self::Error> {
        Ok(Vec::new())
    }
}

type TestRule = CustomRule<Nothing>;

fn test_rule(name: &str, description: &str, category: Category) -> TestRule {
    CustomRule::new(name, description, category, Nothing)
}

/// The persisted form as TOML text, as the program writes it.
fn to_toml(inner: &InnerRules) -> String {
    let mut top = toml::Table::new();
    for category in Category::all() {
        let entries = inner.entries(category);
        if entries.is_empty() {
            continue;
        }
        let mut table = toml::Table::new();
        for entry in entries {
            let mut config = toml::Table::new();
            config.insert("enable".to_string(), toml::Value::Boolean(entry.config.enable));
            table.insert(entry.name.clone(), toml::Value::Table(config));
        }
        top.insert(category.key().to_string(), toml::Value::Table(table));
    }
    toml::to_string(&top).unwrap()
}

#[test]
fn serde_serialize() {
    let rule1 = ToggleableRule::new(Arc::new(test_rule("rule1", "", Category::Content)), true);
    let rule2 = ToggleableRule::new(Arc::new(test_rule("rule2", "", Category::Spacing)), false);

    let rules = Rules::new(vec![rule1, rule2]).unwrap();
    let inner = InnerRules::from_rules(&rules);
    let toml = to_toml(&inner);

    assert_eq!(
        toml,
        r"[content.rule1]
enable = true

[spacing.rule2]
enable = false
"
    );
}

#[test]
fn serde_deserialize() {
    let rule1 = Arc::new(test_rule("rule1", "", Category::Content));
    let rule2 = Arc::new(test_rule("rule2", "", Category::Spacing));

    let toggleable_rule1 = ToggleableRule::new(rule1.clone(), true);
    let toggleable_rule2 = ToggleableRule::new(rule2.clone(), false);

    let rules = Rules::new(vec![toggleable_rule1, toggleable_rule2]).unwrap();
    let inner = InnerRules::from_rules(&rules);

    let available_rules = vec![rule1, rule2];
    let rules_deserialized = RulesSeed::new(&available_rules).deserialize(&inner).unwrap();

    assert_eq!(rules, rules_deserialized);
}

#[test]
fn deserialize_with_not_found_rule() {
    let rule1 = Arc::new(test_rule("rule1", "", Category::Content));
    let rule2 = Arc::new(test_rule("rule2", "", Category::Spacing));

    let toggleable_rule1 = ToggleableRule::new(rule1.clone(), true);
    let toggleable_rule2 = ToggleableRule::new(rule2.clone(), false);

    let rules = Rules::new(vec![toggleable_rule1, toggleable_rule2]).unwrap();
    let inner = InnerRules::from_rules(&rules);

    let available_rules = vec![rule1]; // Without rule2
    let result = RulesSeed::new(&available_rules).deserialize(&inner);

    assert_eq!(result.err(), Some(Error::MissingRule("rule2".to_string())));
}

#[test]
fn round_trip_keeps_names_and_flags() {
    let catalog = vec![
        Arc::new(test_rule("b", "", Category::Other)),
        Arc::new(test_rule("a", "", Category::Yaml)),
        Arc::new(test_rule("c", "", Category::Content)),
        Arc::new(test_rule("d", "", Category::Yaml)),
    ];
    let rules = Rules::new(vec![
        ToggleableRule::new(catalog[0].clone(), true),
        ToggleableRule::new(catalog[1].clone(), false),
        ToggleableRule::new(catalog[3].clone(), true),
    ])
    .unwrap();
    let inner = InnerRules::from_rules(&rules);
    let back = RulesSeed::new(&catalog).deserialize(&inner).unwrap();

    assert_eq!(back.len(), 3);
    for name in ["a", "b", "d"] {
        assert_eq!(
            back.get_by_name(name).unwrap().is_enabled(),
            rules.get_by_name(name).unwrap().is_enabled()
        );
    }
    assert!(back.get_by_name("c").is_none());
    // The persisted form is laid out category by category.
    let order: Vec<&str> = back.rules().iter().map(|r| r.name()).collect();
    assert_eq!(order, vec!["a", "d", "b"]);
}

#[test]
fn first_unknown_name_is_reported() {
    let catalog = vec![Arc::new(test_rule("known", "", Category::Other))];
    let mut inner = InnerRules::new();
    inner.add_rule("known".to_string(), Category::Other, true);
    inner.add_rule("later".to_string(), Category::Other, true);
    inner.add_rule("first".to_string(), Category::Heading, false);
    let result = RulesSeed::new(&catalog).deserialize(&inner);
    assert_eq!(result.err(), Some(Error::MissingRule("first".to_string())));
}

#[test]
fn name_under_two_categories_is_a_duplicate() {
    let catalog = vec![Arc::new(test_rule("twice", "", Category::Other))];
    let mut inner = InnerRules::new();
    inner.add_rule("twice".to_string(), Category::Yaml, true);
    inner.add_rule("twice".to_string(), Category::Other, false);
    let result = RulesSeed::new(&catalog).deserialize(&inner);
    assert_eq!(result.err(), Some(Error::DuplicateName("twice".to_string())));
}

#[test]
fn add_rule_replaces_an_entry_of_the_same_name() {
    let mut inner = InnerRules::new();
    inner.add_rule("x".to_string(), Category::Spacing, true);
    inner.add_rule("y".to_string(), Category::Spacing, true);
    inner.add_rule("x".to_string(), Category::Spacing, false);
    let entries = inner.entries(Category::Spacing);
    assert_eq!(entries.len(), 2);
    assert_eq!(entries[0].name, "x");
    assert_eq!(entries[0].config, RuleConfig { enable: false });
    assert_eq!(entries[1].name, "y");
    assert!(inner.entries(Category::Yaml).is_empty());
    assert_eq!(inner.flatten().len(), 2);
}

#[test]
fn empty_configuration_gives_empty_registry() {
    let catalog: Vec<Arc<TestRule>> = Vec::new();
    let back = RulesSeed::new(&catalog).deserialize(&InnerRules::new()).unwrap();
    assert!(back.is_empty());
}
