//! The capability every rule offers, and what a rule inspects.

use crate::category::Category;
use crate::violation::Violation;
use obsidian_parser::note::note_in_memory::{Error as ParserNoteError, NoteInMemory};
use obsidian_parser::vault::Vault as VaultOf;
use std::sync::Arc;
use vstd::prelude::*;

verus! {

/// The YAML value of note properties, which the parser's default note
/// type names; carried, never read.
#[verifier::external_type_specification]
#[verifier::external_body]
pub struct ExYamlValue(serde_yml::Value);

/// The parser's in-memory note; handed to rules, never read here.
#[verifier::external_type_specification]
#[verifier::external_body]
#[verifier::reject_recursive_types(T)]
pub struct ExNoteInMemory<T: Clone>(NoteInMemory<T>);

/// The parser's error for a note it cannot read; carried, never read.
#[verifier::external_type_specification]
#[verifier::external_body]
pub struct ExNoteError(ParserNoteError);

/// One parsed note of a vault.
pub type Note = NoteInMemory;

/// How the parser fails to read a note.
pub type NoteError = ParserNoteError;

/// The parsed notes of a vault.
pub type Vault = VaultOf<Note>;

/// The document collection that rules inspect; rules only read it.
///
/// Verus refuses a declaration of the parser's vault type, whose
/// parameter is bound by the parser's note trait, so the collection is
/// held here out of Verus's sight and handed to rules as it is.
#[verifier::external_body]
#[derive(Debug)]
pub struct Content {
    pub vault: Vault,
}

impl Default for Content {
    /// Relies on the parser's `Vault::default`: a vault without notes.
    #[verifier::external_body]
    fn default() -> Self {
        Content { vault: Vault::default() }
    }
}

/// Relies on `Arc::clone`: the new handle points at the same rule, which
/// is not copied.
#[verifier::external_body]
pub(crate) fn share<R>(a: &Arc<R>) -> (r: Arc<R>)
    ensures
        r == *a,
{
    Arc::clone(a)
}

/// Relies on `str`'s `==`: two strings are equal exactly when they hold
/// the same characters.
#[verifier::external_body]
pub(crate) fn same_text(a: &str, b: &str) -> (r: bool)
    ensures
        r == (a@ == b@),
{
    a == b
}

/// A named check over notes, written independently of every other rule.
///
/// A rule fails with its own error type; its name identifies it within a
/// registry, and its category groups it for presentation.
pub trait Rule {
    /// What the rule fails with.
    type Error;

    /// The rule's name, which identifies it.
    spec fn name_spec(&self) -> Seq<char>;

    /// What the rule looks for.
    spec fn description_spec(&self) -> Seq<char>;

    /// The rule's category.
    spec fn category_spec(&self) -> Category;

    /// The unique name of the rule.
    fn name(&self) -> (r: &str)
        ensures
            r@ == self.name_spec(),
    ;

    /// What the rule looks for.
    fn description(&self) -> (r: &str)
        ensures
            r@ == self.description_spec(),
    ;

    /// The concern the rule polices.
    fn category(&self) -> (r: Category)
        ensures
            r == self.category_spec(),
    ;

    /// Runs the rule on one note of the content.
    fn check(&self, content: &Content, note: &Note) -> Result<Vec<Violation>, Self::Error>;
}

/// What the author of a rule writes: the check itself.
pub trait Check {
    /// What the check fails with.
    type Error;

    /// Looks at one note of the content.
    fn check(&self, content: &Content, note: &Note) -> Result<Vec<Violation>, Self::Error>;
}

/// A rule made of a name, a description, a category and a check.
///
/// Two such rules are equal when their names are.
#[derive(Debug, Clone)]
pub struct CustomRule<C> {
    name: String,
    description: String,
    category: Category,
    check: C,
}

impl<C: Check> CustomRule<C> {
    /// The check the rule runs.
    pub closed spec fn check_spec(&self) -> C {
        self.check
    }

    /// A rule named `name` that runs `check`.
    pub fn new(name: &str, description: &str, category: Category, check: C) -> (r: Self)
        ensures
            r.name_spec() == name@,
            r.description_spec() == description@,
            r.category_spec() == category,
            r.check_spec() == check,
    {
        CustomRule {
            name: name.to_string(),
            description: description.to_string(),
            category,
            check,
        }
    }

    /// The check the rule runs.
    pub fn checker(&self) -> (r: &C)
        ensures
            *r == self.check_spec(),
    {
        &self.check
    }
}

impl<C: Check> Rule for CustomRule<C> {
    type Error = C::Error;

    closed spec fn name_spec(&self) -> Seq<char> {
        self.name@
    }

    closed spec fn description_spec(&self) -> Seq<char> {
        self.description@
    }

    closed spec fn category_spec(&self) -> Category {
        self.category
    }

    fn name(&self) -> (r: &str) {
        self.name.as_str()
    }

    fn description(&self) -> (r: &str) {
        self.description.as_str()
    }

    fn category(&self) -> (r: Category) {
        self.category
    }

    fn check(&self, content: &Content, note: &Note) -> Result<Vec<Violation>, Self::Error> {
        self.check.check(content, note)
    }
}

impl<C: Check> PartialEq for CustomRule<C> {
    fn eq(&self, other: &Self) -> (r: bool) {
        same_text(self.name.as_str(), other.name.as_str())
    }
}

impl<C: Check> vstd::std_specs::cmp::PartialEqSpecImpl for CustomRule<C> {
    open spec fn obeys_eq_spec() -> bool {
        true
    }

    open spec fn eq_spec(&self, other: &Self) -> bool {
        self.name_spec() == other.name_spec()
    }
}

impl<C: Check> Eq for CustomRule<C> {}

/// A shared rule is the rule it points at.
impl<R: Rule> Rule for Arc<R> {
    type Error = R::Error;

    open spec fn name_spec(&self) -> Seq<char> {
        (**self).name_spec()
    }

    open spec fn description_spec(&self) -> Seq<char> {
        (**self).description_spec()
    }

    open spec fn category_spec(&self) -> Category {
        (**self).category_spec()
    }

    fn name(&self) -> (r: &str) {
        (**self).name()
    }

    fn description(&self) -> (r: &str) {
        (**self).description()
    }

    fn category(&self) -> (r: Category) {
        (**self).category()
    }

    fn check(&self, content: &Content, note: &Note) -> Result<Vec<Violation>, Self::Error> {
        (**self).check(content, note)
    }
}

/// A boxed rule is the rule it holds.
impl<R: Rule> Rule for Box<R> {
    type Error = R::Error;

    open spec fn name_spec(&self) -> Seq<char> {
        (**self).name_spec()
    }

    open spec fn description_spec(&self) -> Seq<char> {
        (**self).description_spec()
    }

    open spec fn category_spec(&self) -> Category {
        (**self).category_spec()
    }

    fn name(&self) -> (r: &str) {
        (**self).name()
    }

    fn description(&self) -> (r: &str) {
        (**self).description()
    }

    fn category(&self) -> (r: Category) {
        (**self).category()
    }

    fn check(&self, content: &Content, note: &Note) -> Result<Vec<Violation>, Self::Error> {
        (**self).check(content, note)
    }
}

} // verus!
