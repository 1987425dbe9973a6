//! Document processors: a capability that inspects a document and reports
//! a processing outcome, with a text and an HTML variant.
use vstd::prelude::*;

use crate::document::Document;
use crate::text::is_substring;
use crate::text::str_contains;

verus! {

/// Outcome of one processing attempt; a return value, never stored on the
/// document.
#[derive(Debug, Clone)]
pub enum ProcessingStatus {
    Pending,
    Processing,
    Completed,
    Failed(String),
}

/// The exec-level outcome `r` carries exactly the modelled outcome `m`,
/// with error messages compared character by character.
pub open spec fn outcome_matches(
    r: Result<ProcessingStatus, String>,
    m: Result<ProcessingStatus, Seq<char>>,
) -> bool {
    match (r, m) {
        (Ok(s), Ok(t)) => s == t,
        (Err(e), Err(t)) => e@ == t,
        _ => false,
    }
}

/// A polymorphic operation over documents: validate one and report an
/// outcome, without mutating it.
pub trait DocumentProcessor {
    /// The outcome this processor owes for `document`.
    spec fn process_spec(&self, document: Document) -> Result<ProcessingStatus, Seq<char>>;

    /// Processes `document` and returns exactly the owed outcome.
    fn process(&self, document: &Document) -> (r: Result<ProcessingStatus, String>)
        ensures
            outcome_matches(r, self.process_spec(*document)),
    ;

    /// The identifier this processor goes by.
    spec fn name_spec(&self) -> Seq<char>;

    /// A stable, human-readable identifier for the processor.
    fn name(&self) -> (r: &str)
        ensures
            r@ == self.name_spec(),
    ;
}

/// Validates plain text documents: any non-empty content passes.
pub struct TextProcessor;

/// Validates HTML documents: the content must carry an `<html>` tag or a
/// `<!DOCTYPE` marker.
pub struct HtmlProcessor;

impl DocumentProcessor for TextProcessor {
    open spec fn process_spec(&self, document: Document) -> Result<ProcessingStatus, Seq<char>> {
        if document.content@.len() == 0 {
            Err("Document content is empty"@)
        } else {
            Ok(ProcessingStatus::Completed)
        }
    }

    open spec fn name_spec(&self) -> Seq<char> {
        "TextProcessor"@
    }

    fn process(&self, document: &Document) -> (r: Result<ProcessingStatus, String>) {
        if document.content.as_str().is_empty() {
            return Err("Document content is empty".to_owned());
        }
        Ok(ProcessingStatus::Completed)
    }

    fn name(&self) -> (r: &str) {
        "TextProcessor"
    }
}

impl DocumentProcessor for HtmlProcessor {
    open spec fn process_spec(&self, document: Document) -> Result<ProcessingStatus, Seq<char>> {
        if is_substring(document.content@, "<html>"@) || is_substring(
            document.content@,
            "<!DOCTYPE"@,
        ) {
            Ok(ProcessingStatus::Completed)
        } else {
            Err("Invalid HTML structure"@)
        }
    }

    open spec fn name_spec(&self) -> Seq<char> {
        "HtmlProcessor"@
    }

    fn process(&self, document: &Document) -> (r: Result<ProcessingStatus, String>) {
        if str_contains(document.content.as_str(), "<html>") || str_contains(
            document.content.as_str(),
            "<!DOCTYPE",
        ) {
            Ok(ProcessingStatus::Completed)
        } else {
            Err("Invalid HTML structure".to_owned())
        }
    }

    fn name(&self) -> (r: &str) {
        "HtmlProcessor"
    }
}

/// A processor of either kind, so a manager can hold a mixed collection.
pub enum Processor {
    Text(TextProcessor),
    Html(HtmlProcessor),
}

impl DocumentProcessor for Processor {
    open spec fn process_spec(&self, document: Document) -> Result<ProcessingStatus, Seq<char>> {
        match self {
            Processor::Text(p) => p.process_spec(document),
            Processor::Html(p) => p.process_spec(document),
        }
    }

    open spec fn name_spec(&self) -> Seq<char> {
        match self {
            Processor::Text(p) => p.name_spec(),
            Processor::Html(p) => p.name_spec(),
        }
    }

    fn process(&self, document: &Document) -> (r: Result<ProcessingStatus, String>) {
        match self {
            Processor::Text(p) => p.process(document),
            Processor::Html(p) => p.process(document),
        }
    }

    fn name(&self) -> (r: &str) {
        match self {
            Processor::Text(p) => p.name(),
            Processor::Html(p) => p.name(),
        }
    }
}

} // verus!
