//! The rules that ship with the program.

use crate::category::Category;
use crate::rule::{Content, Note, NoteError, Rule};
use crate::violation::{Error as ViolationError, Violation};
use obsidian_parser::note::Note as _;
use std::convert::Infallible;
use vstd::prelude::*;

verus! {

/// A rule that never finds anything.
#[derive(Debug, Clone, Copy, Default, PartialEq, Eq)]
pub struct Test;

impl Rule for Test {
    type Error = Infallible;

    open spec fn name_spec(&self) -> Seq<char> {
        "test-rule"@
    }

    open spec fn description_spec(&self) -> Seq<char> {
        "Test rule"@
    }

    open spec fn category_spec(&self) -> Category {
        Category::Other
    }

    fn name(&self) -> (r: &str) {
        "test-rule"
    }

    fn description(&self) -> (r: &str) {
        "Test rule"
    }

    fn category(&self) -> (r: Category) {
        Category::Other
    }

    fn check(&self, _content: &Content, _note: &Note) -> Result<Vec<Violation>, Self::Error> {
        Ok(Vec::new())
    }
}

/// A second rule that never finds anything.
#[derive(Debug, Clone, Copy, Default, PartialEq, Eq)]
pub struct Test1;

impl Rule for Test1 {
    type Error = Infallible;

    open spec fn name_spec(&self) -> Seq<char> {
        "test-rule1"@
    }

    open spec fn description_spec(&self) -> Seq<char> {
        "Test rule 1"@
    }

    open spec fn category_spec(&self) -> Category {
        Category::Other
    }

    fn name(&self) -> (r: &str) {
        "test-rule1"
    }

    fn description(&self) -> (r: &str) {
        "Test rule 1"
    }

    fn category(&self) -> (r: Category) {
        Category::Other
    }

    fn check(&self, _content: &Content, _note: &Note) -> Result<Vec<Violation>, Self::Error> {
        Ok(Vec::new())
    }
}

/// Relies on the parser's `Note::count_words_from_content`: the number of
/// words of the note's content. An in-memory note holds its content, so
/// reading it never fails.
#[verifier::external_body]
fn count_words(note: &Note) -> (r: Result<usize, NoteError>)
    ensures
        r is Ok,
{
    note.count_words_from_content()
}

/// Finds notes whose content holds no word.
#[derive(Debug, Clone, Copy, Default, PartialEq, Eq)]
pub struct EmptyContent;

/// How `EmptyContent` can fail.
#[derive(Debug)]
pub enum Error {
    /// The parser could not read the note.
    Parser(NoteError),
    /// A violation could not be built.
    Violation(ViolationError),
}

/// The violation reported for an empty note: "Note is empty", at `1..2`.
pub open spec fn is_empty_note_violation(v: Violation) -> bool {
    &&& v.message_spec() == "Note is empty"@
    &&& v.start_spec() == 1
    &&& v.end_spec() == 2
}

/// What `EmptyContent` reports for a note of `count` words: one violation
/// when the note has no word, none otherwise.
pub fn violations_for_word_count(count: usize) -> (r: Vec<Violation>)
    ensures
        count == 0 ==> r@.len() == 1 && is_empty_note_violation(r@[0]),
        count != 0 ==> r@.len() == 0,
{
    if count == 0 {
        let v = Violation::new("Note is empty", 1..=1);
        match v {
            Ok(v) => {
                proof {
                    reveal_strlit("Note is empty");
                }
                vec![v]
            },
            Err(_) => Vec::new(),
        }
    } else {
        Vec::new()
    }
}

impl EmptyContent {
    /// Reports the note when its content holds no word; fails only when
    /// the parser cannot read the note.
    pub fn check(&self, _content: &Content, note: &Note) -> (r: Result<Vec<Violation>, Error>)
        ensures
            r matches Ok(v) && (v@.len() == 0 || (v@.len() == 1 && is_empty_note_violation(v@[0]))),
    {
        match count_words(note) {
            Ok(count) => Ok(violations_for_word_count(count)),
            Err(e) => Err(Error::Parser(e)),
        }
    }
}

impl Rule for EmptyContent {
    type Error = Error;

    open spec fn name_spec(&self) -> Seq<char> {
        "empty-content"@
    }

    open spec fn description_spec(&self) -> Seq<char> {
        "Rule for search notes with empty content"@
    }

    open spec fn category_spec(&self) -> Category {
        Category::Content
    }

    fn name(&self) -> (r: &str) {
        "empty-content"
    }

    fn description(&self) -> (r: &str) {
        "Rule for search notes with empty content"
    }

    fn category(&self) -> (r: Category) {
        Category::Content
    }

    fn check(&self, content: &Content, note: &Note) -> Result<Vec<Violation>, Self::Error> {
        EmptyContent::check(self, content, note)
    }
}

} // verus!
