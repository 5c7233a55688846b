use lipsum::lipsum_words;
use obsidian_parser::prelude::{IteratorVaultBuilder, NoteDefault, NoteFromString, VaultBuilder, VaultOptions};
use obsidian_tidy::builtin::violations_for_word_count;
use obsidian_tidy::{Category, Content, EmptyContent, Note, Rule, Test, Test1, Violation};
use rand::Rng;
use std::io::Write;
use tempfile::TempDir;

/// Writes the text of one note.
trait NoteGenerator {
    fn generate(&mut self, file: &mut dyn Write) -> std::io::Result<()>;
}

/// Notes of 100 to 150 random words.
#[derive(Default)]
struct DefaultNoteGenerator;

impl NoteGenerator for DefaultNoteGenerator {
    fn generate(&mut self, file: &mut dyn Write) -> std::io::Result<()> {
        let count_words = rand::rng().random_range(100..150);
        file.write_all(lipsum_words(count_words).as_bytes())
    }
}

/// An empty first note, then default notes.
#[derive(Default)]
struct MyGenerator {
    have_empty_note: bool,
    default_generator: DefaultNoteGenerator,
}

impl NoteGenerator for MyGenerator {
    fn generate(&mut self, file: &mut dyn Write) -> std::io::Result<()> {
        if !self.have_empty_note {
            self.have_empty_note = true;
            return Ok(());
        }

        self.default_generator.generate(file)
    }
}

/// A vault of generated notes in a temporary directory.
struct MockVault {
    _temp_dir: TempDir,
    content: Content,
}

impl MockVault {
    fn build(count_notes: usize, generator: &mut impl NoteGenerator) -> MockVault {
        let temp_dir = TempDir::new().unwrap();
        let root = temp_dir.path();

        for i in 1..=count_notes {
            let note = tempfile::Builder::new()
                .prefix(&format!("note_{i}_"))
                .suffix(".md")
                .tempfile_in(root)
                .unwrap();
            let (mut file, _path) = note.keep().unwrap();
            generator.generate(&mut file).unwrap();
        }

        let options = VaultOptions::new(root);
        let vault = VaultBuilder::new(&options)
            .include_hidden(true)
            .into_iter()
            .map(|note| note.unwrap())
            .build_vault(&options);

        MockVault { _temp_dir: temp_dir, content: Content { vault } }
    }

    fn run_rule<R: Rule>(&self, rule: &R) -> Vec<Violation>
    where
        R::Error: std::fmt::Debug,
    {
        self.content
            .vault
            .notes()
            .iter()
            .flat_map(|note| rule.check(&self.content, note).unwrap())
            .collect()
    }
}

#[test]
fn empty_note() {
    let rule = EmptyContent::default();

    let note = Note::from_string_default("").unwrap();
    let violation = rule.check(&Content::default(), &note).unwrap();

    assert_eq!(violation.len(), 1);
    assert_eq!(violation[0].message(), "Note is empty");
    assert_eq!(violation[0].location(), 1..2);
}

#[test]
fn not_empty_note() {
    let rule = EmptyContent::default();

    let note = Note::from_string_default("Super data").unwrap();
    let violation = rule.check(&Content::default(), &note).unwrap();

    assert!(violation.is_empty());
}

#[test]
fn not_empty_notes() {
    let rule = EmptyContent::default();

    let mock_vault = MockVault::build(100, &mut DefaultNoteGenerator);
    let violations = mock_vault.run_rule(&rule);
    assert!(violations.is_empty());
}

#[test]
fn with_empty_notes() {
    let rule = EmptyContent::default();

    let mock_vault = MockVault::build(10, &mut MyGenerator::default());
    let violations = mock_vault.run_rule(&rule);
    assert_eq!(violations.len(), 1);
}

#[test]
fn empty_vault() {
    let rule = EmptyContent::default();

    let mock_vault = MockVault::build(0, &mut DefaultNoteGenerator);
    let violations = mock_vault.run_rule(&rule);
    assert!(violations.is_empty());
}

#[test]
fn whitespace_only_note_is_empty() {
    let note = Note::from_string_default("  \n\t  \n").unwrap();
    let violations = EmptyContent.check(&Content::default(), &note).unwrap();
    assert_eq!(violations.len(), 1);
}

#[test]
fn frontmatter_alone_is_an_empty_note() {
    let note = Note::from_string_default("---\ntags:\n- a\n---\n").unwrap();
    let violations = EmptyContent.check(&Content::default(), &note).unwrap();
    assert_eq!(violations.len(), 1);
}

#[test]
fn word_count_decides() {
    let none = violations_for_word_count(0);
    assert_eq!(none.len(), 1);
    assert_eq!(none[0].message(), "Note is empty");
    assert_eq!(none[0].location(), 1..2);
    assert!(violations_for_word_count(1).is_empty());
    assert!(violations_for_word_count(usize::MAX).is_empty());
}

#[test]
fn built_in_rule_identities() {
    assert_eq!(EmptyContent.name(), "empty-content");
    assert_eq!(EmptyContent.category(), Category::Content);
    assert_eq!(EmptyContent.description(), "Rule for search notes with empty content");
    assert_eq!(Test.name(), "test-rule");
    assert_eq!(Test.description(), "Test rule");
    assert_eq!(Test.category(), Category::Other);
    assert_eq!(Test1.name(), "test-rule1");
    assert_eq!(Test1.description(), "Test rule 1");
    assert_eq!(Test1.category(), Category::Other);
    let note = Note::default();
    assert!(Test.check(&Content::default(), &note).unwrap().is_empty());
    assert!(Test1.check(&Content::default(), &note).unwrap().is_empty());
}
