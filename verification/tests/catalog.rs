use document_catalog::document::Document;
use document_catalog::document::DocumentType;
use document_catalog::manager::DocumentManager;
use document_catalog::processor::DocumentProcessor;
use document_catalog::processor::HtmlProcessor;
use document_catalog::processor::ProcessingStatus;
use document_catalog::processor::Processor;
use document_catalog::processor::TextProcessor;

fn doc(id: &str, title: &str, content: &str, doc_type: DocumentType, author: &str) -> Document {
    Document::new(
        id.to_string(),
        title.to_string(),
        content.to_string(),
        doc_type,
        author.to_string(),
    )
}

#[test]
fn word_count_at_construction() {
    let d = doc("1", "t", "hello world", DocumentType::Text, "a");
    assert_eq!(d.metadata.word_count, 2);
    let empty = doc("2", "t", "", DocumentType::Text, "a");
    assert_eq!(empty.metadata.word_count, 0);
    let spaced = doc("3", "t", "  one\t two  \n three ", DocumentType::Text, "a");
    assert_eq!(spaced.metadata.word_count, 3);
    let only_spaces = doc("4", "t", " \t \n ", DocumentType::Text, "a");
    assert_eq!(only_spaces.metadata.word_count, 0);
}

#[test]
fn new_defaults() {
    let d = doc("1", "title", "body", DocumentType::Markdown, "author");
    assert_eq!(d.id, "1");
    assert_eq!(d.title, "title");
    assert_eq!(d.content, "body");
    assert_eq!(d.metadata.language, "en");
    assert!(d.metadata.tags.is_empty());
    assert_eq!(d.metadata.author, "author");
}

#[test]
fn add_tag_is_idempotent_and_keeps_order() {
    let mut d = doc("1", "t", "c", DocumentType::Text, "a");
    d.add_tag("rust".to_string());
    d.add_tag("verus".to_string());
    d.add_tag("rust".to_string());
    assert_eq!(d.metadata.tags, vec!["rust".to_string(), "verus".to_string()]);
}

#[test]
fn add_tag_is_case_sensitive() {
    let mut d = doc("1", "t", "c", DocumentType::Text, "a");
    d.add_tag("Rust".to_string());
    d.add_tag("rust".to_string());
    assert_eq!(d.metadata.tags.len(), 2);
}

#[test]
fn remove_tag_absent_and_present() {
    let mut d = doc("1", "t", "c", DocumentType::Text, "a");
    d.add_tag("alpha".to_string());
    d.add_tag("beta".to_string());
    assert!(!d.remove_tag("gamma"));
    assert_eq!(d.metadata.tags, vec!["alpha".to_string(), "beta".to_string()]);
    assert!(d.remove_tag("alpha"));
    assert_eq!(d.metadata.tags, vec!["beta".to_string()]);
    assert!(!d.remove_tag("alpha"));
}

#[test]
fn summary_at_boundaries() {
    let c99: String = "x".repeat(99);
    let c100: String = "x".repeat(100);
    let c101: String = "x".repeat(101);
    let d99 = doc("1", "t", &c99, DocumentType::Text, "a");
    assert_eq!(d99.get_summary(), c99);
    let d100 = doc("2", "t", &c100, DocumentType::Text, "a");
    assert_eq!(d100.get_summary(), c100);
    let d101 = doc("3", "t", &c101, DocumentType::Text, "a");
    assert_eq!(d101.get_summary(), c100);
    assert_eq!(d101.get_summary().chars().count(), 100);
}

#[test]
fn summary_cuts_on_character_boundary() {
    let content: String = "\u{e9}".repeat(101);
    let d = doc("1", "t", &content, DocumentType::Text, "a");
    let summary = d.get_summary();
    assert_eq!(summary.chars().count(), 100);
    assert!(summary.chars().all(|c| c == '\u{e9}'));
}

#[test]
fn update_word_count_resyncs_and_only_then() {
    let mut d = doc("1", "t", "hello world", DocumentType::Text, "a");
    d.content = "one two three four".to_string();
    assert_eq!(d.metadata.word_count, 2);
    d.update_word_count();
    assert_eq!(d.metadata.word_count, 4);
}

#[test]
fn contains_is_case_insensitive() {
    let d = doc("1", "greeting", "hello world", DocumentType::Text, "a");
    assert!(d.contains("WORLD"));
    assert!(d.contains("Hello"));
    assert!(d.contains("GREETING"));
    assert!(!d.contains("absent"));
}

#[test]
fn text_processor_outcomes() {
    let p = TextProcessor;
    let empty = doc("1", "t", "", DocumentType::Text, "a");
    let r = p.process(&empty);
    assert!(matches!(r, Err(ref m) if m == "Document content is empty"));
    let filled = doc("2", "t", "hi", DocumentType::Text, "a");
    assert!(matches!(p.process(&filled), Ok(ProcessingStatus::Completed)));
}

#[test]
fn html_processor_outcomes() {
    let p = HtmlProcessor;
    let bad = doc("1", "t", "<p>no doctype</p>", DocumentType::Html, "a");
    assert!(matches!(p.process(&bad), Err(ref m) if m == "Invalid HTML structure"));
    let good = doc("2", "t", "<!DOCTYPE html><html></html>", DocumentType::Html, "a");
    assert!(matches!(p.process(&good), Ok(ProcessingStatus::Completed)));
    let tag_only = doc("3", "t", "x<html>y", DocumentType::Html, "a");
    assert!(matches!(p.process(&tag_only), Ok(ProcessingStatus::Completed)));
    let case_sensitive = doc("4", "t", "<HTML>", DocumentType::Html, "a");
    assert!(matches!(p.process(&case_sensitive), Err(_)));
}

#[test]
fn processor_names() {
    assert_eq!(TextProcessor.name(), "TextProcessor");
    assert_eq!(HtmlProcessor.name(), "HtmlProcessor");
    assert_eq!(Processor::Text(TextProcessor).name(), "TextProcessor");
    assert_eq!(Processor::Html(HtmlProcessor).name(), "HtmlProcessor");
}

#[test]
fn process_all_is_document_major() {
    let mut m = DocumentManager::new();
    // doc1 passes text validation and fails html; doc2 the other way round
    m.add_document(doc("1", "t1", "plain words", DocumentType::Text, "a"));
    m.add_document(doc("2", "t2", "", DocumentType::Html, "a"));
    m.add_processor(Processor::Text(TextProcessor));
    m.add_processor(Processor::Html(HtmlProcessor));
    let results = m.process_all_documents();
    assert_eq!(results.len(), 4);
    assert!(matches!(results[0], Ok(ProcessingStatus::Completed)));
    assert!(matches!(results[1], Err(ref e) if e == "Invalid HTML structure"));
    assert!(matches!(results[2], Err(ref e) if e == "Document content is empty"));
    assert!(matches!(results[3], Err(ref e) if e == "Invalid HTML structure"));
}

#[test]
fn process_all_with_no_processors_is_empty() {
    let mut m = DocumentManager::new();
    m.add_document(doc("1", "t", "c", DocumentType::Text, "a"));
    assert!(m.process_all_documents().is_empty());
}

#[test]
fn find_by_author_ignores_case() {
    let mut m = DocumentManager::new();
    m.add_document(doc("1", "t1", "c", DocumentType::Text, "alice"));
    m.add_document(doc("2", "t2", "c", DocumentType::Text, "bob"));
    m.add_document(doc("3", "t3", "c", DocumentType::Text, "ALICE"));
    let found = m.find_by_author("Alice");
    assert_eq!(found.len(), 2);
    assert_eq!(found[0].id, "1");
    assert_eq!(found[1].id, "3");
    assert!(m.find_by_author("carol").is_empty());
}

#[test]
fn find_by_tag_is_case_sensitive() {
    let mut m = DocumentManager::new();
    let mut d = doc("1", "t", "c", DocumentType::Text, "a");
    d.add_tag("Draft".to_string());
    m.add_document(d);
    assert_eq!(m.find_by_tag("Draft").len(), 1);
    assert!(m.find_by_tag("draft").is_empty());
}

#[test]
fn find_by_type_matches_exactly() {
    let mut m = DocumentManager::new();
    m.add_document(doc("1", "t1", "c", DocumentType::Text, "a"));
    m.add_document(doc("2", "t2", "c", DocumentType::Html, "a"));
    m.add_document(doc("3", "t3", "c", DocumentType::Text, "a"));
    let found = m.find_by_type(&DocumentType::Text);
    assert_eq!(found.len(), 2);
    assert_eq!(found[0].id, "1");
    assert_eq!(found[1].id, "3");
    assert!(m.find_by_type(&DocumentType::Pdf).is_empty());
}

#[test]
fn document_count_and_default() {
    let mut m = DocumentManager::default();
    assert_eq!(m.document_count(), 0);
    m.add_document(doc("1", "t", "c", DocumentType::Word, "a"));
    m.add_document(doc("2", "t", "c", DocumentType::Pdf, "a"));
    assert_eq!(m.document_count(), 2);
}

#[test]
fn unicode_whitespace_separates_words() {
    let d = doc("1", "t", "a\u{a0}b c", DocumentType::Text, "a");
    assert_eq!(d.metadata.word_count, 3);
}
