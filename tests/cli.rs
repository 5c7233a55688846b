use obsidian_tidy::category::Category;
use obsidian_tidy::{
    Check, Cli, Command, Content, CustomRule, Directories, InitStep, LogLevel, Note, RuleGroup, Rules,
    RunnerInit, RunnerListRules, Template, ToggleableRule, Violation,
};
use std::convert::Infallible;
use tracing_subscriber::filter::LevelFilter;

/// Finds nothing.
#[derive(Debug)]
struct Nothing;

impl Check for Nothing {
    type Error = Infallible;

    fn check(&self, _content: &Content, _note: &Note) -> Result<Vec<Violation>, Self::Error> {
        Ok(Vec::new())
    }
}

fn grouped(name: &str, category: Category) -> CustomRule<Nothing> {
    CustomRule::new(name, "", category, Nothing)
}

#[test]
fn from_tracing_level() {
    let log_level = LogLevel::Debug;
    let tracing_level: tracing::Level = log_level.into();

    assert_eq!(tracing_level, tracing::Level::DEBUG);
}

#[test]
fn every_log_level_converts() {
    let pairs = [
        (LogLevel::Error, tracing::Level::ERROR),
        (LogLevel::Warn, tracing::Level::WARN),
        (LogLevel::Info, tracing::Level::INFO),
        (LogLevel::Debug, tracing::Level::DEBUG),
        (LogLevel::Trace, tracing::Level::TRACE),
    ];
    for (level, expected) in pairs {
        assert_eq!(tracing::Level::from(level), expected);
    }
}

#[test]
fn directories_new() {
    Directories::new();
}

#[test]
fn logs_dir_is_inside_local_data() {
    if let Some(directories) = Directories::new() {
        let logs = directories.logs_dir();
        assert!(logs.starts_with(directories.data_local_dir()));
        assert!(logs.ends_with("logs"));
        assert!(logs.len() > directories.data_local_dir().len());
        assert!(!directories.config_dir().is_empty());
    }
}

#[test]
fn config_file_is_in_the_vault() {
    let cli = Cli {
        path: "/home/user/vault".to_string(),
        quiet: false,
        logs: "/tmp/logs".to_string(),
        disable_logger: false,
        command: Command::Check,
    };
    let config = cli.config();
    assert!(config.starts_with("/home/user/vault"));
    assert!(config.ends_with(".obsidian-tidy.toml"));
    assert_eq!(config.len(), "/home/user/vault".len() + 1 + ".obsidian-tidy.toml".len());
}

#[test]
fn init_plan() {
    let keep = RunnerInit::new(false, Template::Standard);
    let replace = RunnerInit::new(true, Template::All);
    assert_eq!(keep.plan(false), InitStep::Create);
    assert_eq!(keep.plan(true), InitStep::Refuse);
    assert_eq!(replace.plan(false), InitStep::Create);
    assert_eq!(replace.plan(true), InitStep::Replace);
    assert_eq!(keep.template(), Template::Standard);
    assert_eq!(replace.template(), Template::All);
}

#[test]
fn rules_listed_by_category() {
    let rules = Rules::new(vec![
        ToggleableRule::new(grouped("o1", Category::Other), true),
        ToggleableRule::new(grouped("y1", Category::Yaml), false),
        ToggleableRule::new(grouped("o2", Category::Other), true),
        ToggleableRule::new(grouped("c1", Category::Content), true),
    ])
    .unwrap();
    let groups = RunnerListRules::groups(&rules);
    assert_eq!(
        groups,
        vec![
            RuleGroup { category: Category::Yaml, members: vec![1] },
            RuleGroup { category: Category::Content, members: vec![3] },
            RuleGroup { category: Category::Other, members: vec![0, 2] },
        ]
    );
    assert_eq!(RunnerListRules::new(Template::All).template(), Template::All);
}

#[test]
fn category_order_and_names() {
    let all = Category::all();
    assert_eq!(all.len(), 5);
    for (i, c) in all.iter().enumerate() {
        assert_eq!(c.index(), i);
    }
    assert!(Category::Yaml < Category::Other);
    assert_eq!(Category::Content.key(), "content");
    assert_eq!(Category::Spacing.key(), "spacing");
    assert_eq!(Category::Heading.title(), "Heading");
    assert_eq!(Category::Yaml.title(), "Yaml");
    assert_eq!(Category::Other.key(), "other");
}

#[test]
fn from_tracing_level_filter() {
    let log_level = LogLevel::Debug;
    let tracing_level: LevelFilter = log_level.into();

    assert_eq!(tracing_level, LevelFilter::DEBUG);
}
