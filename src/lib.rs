//! A pluggable content-linting engine: rules, their registry, the
//! configuration protocol that enables or disables them by name, and the
//! engine that runs them over a collection of notes.

pub mod builtin;
pub mod category;
pub mod check;
pub mod cli;
pub mod config;
pub mod directories;
pub mod rule;
pub mod rules;
pub mod template;
pub mod toggleable_rule;
pub mod violation;

pub use builtin::{EmptyContent, Test, Test1};
pub use category::Category;
pub use check::{aggregate, check_note, check_unit, run, Outcome, Report, RuleFailure};
pub use cli::{Cli, Command, InitStep, LogLevel, LoggerConfig, RuleGroup, RunnerInit, RunnerListRules};
pub use config::{InnerRules, RuleConfig, RuleEntry, RulesSeed};
pub use directories::Directories;
pub use rule::{Check, Content, CustomRule, Note, NoteError, Rule};
pub use rules::Rules;
pub use template::Template;
pub use toggleable_rule::ToggleableRule;
pub use violation::{Endpoint, Location, Violation};
