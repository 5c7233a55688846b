//! What the command line asks for, and the decisions its commands take.

use crate::category::{all_categories, Category};
use crate::directories::{has_verbatim_prefix, join_path, joined};
use crate::rule::Rule;
use crate::rules::Rules;
use crate::template::Template;
use crate::toggleable_rule::ToggleableRule;
use vstd::prelude::*;

verus! {

/// The name of the configuration file inside a vault.
pub const CONFIG_FILE_NAME: &'static str = ".obsidian-tidy.toml";

/// A command of the program.
#[derive(Debug, Clone, Copy, PartialEq, Eq, Structural)]
pub enum Command {
    /// Run the enabled rules over the vault.
    Check,
    /// Write a configuration file from a template.
    Init { override_config: bool, template: Template },
    /// List the rules of a template.
    ListRules { from_template: Template },
}

/// The parsed command line.
#[derive(Debug, Clone, PartialEq, Eq)]
pub struct Cli {
    /// The vault directory.
    pub path: String,
    /// Nothing is written to standard output.
    pub quiet: bool,
    /// The directory that logs go to.
    pub logs: String,
    /// No log is written.
    pub disable_logger: bool,
    /// What to do.
    pub command: Command,
}

impl Cli {
    /// The configuration file of the vault.
    pub fn config(&self) -> (r: String)
        ensures
            !has_verbatim_prefix(self.path@) ==> joined(r@, self.path@, CONFIG_FILE_NAME@),
    {
        proof {
            reveal_strlit(".obsidian-tidy.toml");
        }
        join_path(self.path.as_str(), CONFIG_FILE_NAME)
    }
}

/// How much is logged.
#[derive(Debug, Clone, Copy, PartialEq, Eq, Structural)]
pub enum LogLevel {
    Error,
    Warn,
    Info,
    Debug,
    Trace,
}

/// tracing's log level, the target of a conversion.
#[verifier::external_type_specification]
#[verifier::external_body]
pub struct ExLevel(tracing::Level);

impl From<LogLevel> for tracing::Level {
    /// Relies on tracing's level constants: each log level becomes the
    /// tracing level of the same name.
    #[verifier::external_body]
    fn from(level: LogLevel) -> Self {
        match level {
            LogLevel::Error => tracing::Level::ERROR,
            LogLevel::Warn => tracing::Level::WARN,
            LogLevel::Info => tracing::Level::INFO,
            LogLevel::Debug => tracing::Level::DEBUG,
            LogLevel::Trace => tracing::Level::TRACE,
        }
    }
}

/// tracing-subscriber's level filter, the target of a conversion.
#[verifier::external_type_specification]
#[verifier::external_body]
pub struct ExLevelFilter(tracing_subscriber::filter::LevelFilter);

impl From<LogLevel> for tracing_subscriber::filter::LevelFilter {
    /// Relies on tracing-subscriber's filter constants: each log level
    /// becomes the filter of the same name.
    #[verifier::external_body]
    fn from(level: LogLevel) -> Self {
        match level {
            LogLevel::Error => tracing_subscriber::filter::LevelFilter::ERROR,
            LogLevel::Warn => tracing_subscriber::filter::LevelFilter::WARN,
            LogLevel::Info => tracing_subscriber::filter::LevelFilter::INFO,
            LogLevel::Debug => tracing_subscriber::filter::LevelFilter::DEBUG,
            LogLevel::Trace => tracing_subscriber::filter::LevelFilter::TRACE,
        }
    }
}

/// How the program logs.
#[derive(Debug, Clone, PartialEq, Eq)]
pub struct LoggerConfig {
    /// Logging is on.
    pub enable_logger: bool,
    /// The directory that logs go to.
    pub path_log: String,
    /// How much is logged.
    pub log_level: LogLevel,
    /// Logs go to standard output.
    pub enable_logger_stdout: bool,
    /// Logs go to a file.
    pub enable_logger_file: bool,
}

/// What `init` does with the configuration file.
#[derive(Debug, Clone, Copy, PartialEq, Eq, Structural)]
pub enum InitStep {
    /// No file is there: write one.
    Create,
    /// A file is there and may be overridden: remove it, then write one.
    Replace,
    /// A file is there and may not be overridden: stop with an error.
    Refuse,
}

/// The `init` command: writes the configuration of a template.
#[derive(Debug, Clone, Copy, PartialEq, Eq, Structural)]
pub struct RunnerInit {
    override_config: bool,
    template: Template,
}

impl RunnerInit {
    pub closed spec fn override_spec(&self) -> bool {
        self.override_config
    }

    pub closed spec fn template_spec(&self) -> Template {
        self.template
    }

    /// Writes the configuration of `template`, replacing an existing file
    /// only when `override_config` is set.
    pub fn new(override_config: bool, template: Template) -> (r: Self)
        ensures
            r.override_spec() == override_config,
            r.template_spec() == template,
    {
        RunnerInit { override_config, template }
    }

    /// The template to write.
    pub fn template(&self) -> (r: Template)
        ensures
            r == self.template_spec(),
    {
        self.template
    }

    /// What to do, given whether a configuration file is already there.
    pub fn plan(&self, config_exists: bool) -> (r: InitStep)
        ensures
            !config_exists ==> r == InitStep::Create,
            config_exists && self.override_spec() ==> r == InitStep::Replace,
            config_exists && !self.override_spec() ==> r == InitStep::Refuse,
    {
        if !config_exists {
            InitStep::Create
        } else if self.override_config {
            InitStep::Replace
        } else {
            InitStep::Refuse
        }
    }
}

/// The positions, in order, of the first `n` rules of `s` that belong to `c`.
pub open spec fn members_of<R: Rule>(s: Seq<ToggleableRule<R>>, c: Category, n: int) -> Seq<usize>
    decreases n,
{
    if n <= 0 {
        Seq::empty()
    } else if s[n - 1].category_spec() == c {
        members_of(s, c, n - 1).push((n - 1) as usize)
    } else {
        members_of(s, c, n - 1)
    }
}

/// The rules of `s` grouped by the categories `cats`, in that order; a
/// category without rules has no group.
pub open spec fn groups_of<R: Rule>(s: Seq<ToggleableRule<R>>, cats: Seq<Category>) -> Seq<
    (Category, Seq<usize>),
>
    decreases cats.len(),
{
    if cats.len() == 0 {
        Seq::empty()
    } else {
        let prev = groups_of(s, cats.drop_last());
        let m = members_of(s, cats.last(), s.len() as int);
        if m.len() > 0 {
            prev.push((cats.last(), m))
        } else {
            prev
        }
    }
}

/// The rules of one category, by their positions in the registry.
#[derive(Debug, Clone, PartialEq, Eq)]
pub struct RuleGroup {
    pub category: Category,
    pub members: Vec<usize>,
}

/// A group as its category and the positions of its rules.
pub open spec fn group_view(g: RuleGroup) -> (Category, Seq<usize>) {
    (g.category, g.members@)
}

/// The `list-rules` command: shows the rules of a template by category.
#[derive(Debug, Clone, Copy, PartialEq, Eq, Structural)]
pub struct RunnerListRules {
    from_template: Template,
}

impl RunnerListRules {
    pub closed spec fn template_spec(&self) -> Template {
        self.from_template
    }

    /// Lists the rules of `from_template`.
    pub fn new(from_template: Template) -> (r: Self)
        ensures
            r.template_spec() == from_template,
    {
        RunnerListRules { from_template }
    }

    /// The template whose rules are listed.
    pub fn template(&self) -> (r: Template)
        ensures
            r == self.template_spec(),
    {
        self.from_template
    }

    /// The rules grouped by category, categories in their order and rules
    /// in registry order within each; categories without rules are left out.
    pub fn groups<R: Rule>(rules: &Rules<R>) -> (r: Vec<RuleGroup>)
        ensures
            r@.map_values(|g: RuleGroup| group_view(g)) == groups_of(rules@, all_categories()),
    {
        let cats = Category::all();
        let list = rules.rules();
        let mut r: Vec<RuleGroup> = Vec::new();
        let mut ci: usize = 0;
        while ci < cats.len()
            invariant
                ci <= cats.len(),
                cats@ == all_categories(),
                list@ == rules@,
                r@.map_values(|g: RuleGroup| group_view(g)) == groups_of(
                    rules@,
                    all_categories().take(ci as int),
                ),
            decreases cats.len() - ci,
        {
            let c = cats[ci];
            let mut members: Vec<usize> = Vec::new();
            let mut i: usize = 0;
            while i < list.len()
                invariant
                    i <= list.len(),
                    list@ == rules@,
                    members@ == members_of(rules@, c, i as int),
                decreases list.len() - i,
            {
                if list[i].category().index() == c.index() {
                    members.push(i);
                }
                i += 1;
            }
            let ghost prev = r@;
            let ghost cs = all_categories().take(ci as int + 1);
            assert(cs.drop_last() =~= all_categories().take(ci as int));
            assert(cs.last() == c);
            if members.len() > 0 {
                r.push(RuleGroup { category: c, members });
                assert(r@.map_values(|g: RuleGroup| group_view(g)) =~= prev.map_values(
                    |g: RuleGroup| group_view(g),
                ).push((c, members_of(rules@, c, rules@.len() as int))));
            }
            ci += 1;
        }
        assert(all_categories().take(5) =~= all_categories());
        r
    }
}

} // verus!
