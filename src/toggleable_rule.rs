//! A rule with a switch that decides whether it runs.

use crate::category::Category;
use crate::rule::{Content, Note, Rule};
use crate::violation::Violation;
use vstd::prelude::*;

verus! {

/// A rule together with a flag; a disabled rule never runs and reports nothing.
#[derive(Debug, Clone, PartialEq, Eq)]
pub struct ToggleableRule<R> {
    rule: R,
    enabled: bool,
}

impl<R: Rule> ToggleableRule<R> {
    /// The wrapped rule.
    pub closed spec fn inner(&self) -> R {
        self.rule
    }

    /// Whether the rule runs.
    pub closed spec fn enabled_spec(&self) -> bool {
        self.enabled
    }

    /// Wraps `rule`, enabled or not.
    pub fn new(rule: R, enabled: bool) -> (r: Self)
        ensures
            r.inner() == rule,
            r.enabled_spec() == enabled,
    {
        ToggleableRule { rule, enabled }
    }

    /// Whether the rule runs.
    pub fn is_enabled(&self) -> (r: bool)
        ensures
            r == self.enabled_spec(),
    {
        self.enabled
    }

    /// Whether the rule is switched off.
    pub fn is_disabled(&self) -> (r: bool)
        ensures
            r == !self.enabled_spec(),
    {
        !self.enabled
    }

    /// Switches the rule on.
    pub fn enable(&mut self)
        ensures
            final(self).enabled_spec(),
            final(self).inner() == old(self).inner(),
    {
        self.enabled = true;
    }

    /// Switches the rule off.
    pub fn disable(&mut self)
        ensures
            !final(self).enabled_spec(),
            final(self).inner() == old(self).inner(),
    {
        self.enabled = false;
    }

    /// The wrapped rule.
    pub fn rule(&self) -> (r: &R)
        ensures
            *r == self.inner(),
    {
        &self.rule
    }

    /// Runs the wrapped rule only when it is enabled; a disabled rule
    /// reports no violation and its own check is not run.
    pub fn check(&self, content: &Content, note: &Note) -> (r: Result<Vec<Violation>, R::Error>)
        ensures
            !self.enabled_spec() ==> (r matches Ok(v) && v@.len() == 0),
            self.enabled_spec() ==> call_ensures(R::check, (&self.inner(), content, note), r),
    {
        if self.enabled {
            self.rule.check(content, note)
        } else {
            Ok(Vec::new())
        }
    }
}

/// The name, description and category are always those of the wrapped rule.
impl<R: Rule> Rule for ToggleableRule<R> {
    type Error = R::Error;

    open spec fn name_spec(&self) -> Seq<char> {
        self.inner().name_spec()
    }

    open spec fn description_spec(&self) -> Seq<char> {
        self.inner().description_spec()
    }

    open spec fn category_spec(&self) -> Category {
        self.inner().category_spec()
    }

    fn name(&self) -> (r: &str) {
        self.rule.name()
    }

    fn description(&self) -> (r: &str) {
        self.rule.description()
    }

    fn category(&self) -> (r: Category) {
        self.rule.category()
    }

    fn check(&self, content: &Content, note: &Note) -> Result<Vec<Violation>, Self::Error> {
        ToggleableRule::check(self, content, note)
    }
}

} // verus!
