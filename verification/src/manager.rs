//! The document manager: owns documents and processors, answers filtered
//! lookups by linear scan, and runs every processor over every document.
use vstd::prelude::*;

use crate::document::Document;
use crate::document::DocumentType;
use crate::processor::DocumentProcessor;
use crate::processor::ProcessingStatus;
use crate::processor::Processor;
use crate::processor::outcome_matches;
use crate::text::lower_of;
use crate::text::lowercase;
use crate::text::str_eq;

verus! {

/// The document's author equals `author`, ignoring case.
pub open spec fn author_matches(d: Document, author: Seq<char>) -> bool {
    lower_of(d.metadata.author@) == lower_of(author)
}

/// The documents whose author equals `author`, ignoring case, in their
/// stored order.
pub open spec fn by_author(docs: Seq<Document>, author: Seq<char>) -> Seq<Document> {
    docs.filter(|d: Document| author_matches(d, author))
}

/// The documents of type `ty`, in their stored order.
pub open spec fn by_type(docs: Seq<Document>, ty: DocumentType) -> Seq<Document> {
    docs.filter(|d: Document| d.doc_type == ty)
}

/// The documents carrying `tag` (character-exact), in their stored order.
pub open spec fn by_tag(docs: Seq<Document>, tag: Seq<char>) -> Seq<Document> {
    docs.filter(|d: Document| d.has_tag(tag))
}

/// The documents a sequence of borrows points at.
pub open spec fn deref_all(s: Seq<&Document>) -> Seq<Document> {
    s.map_values(|d: &Document| *d)
}

/// Owns the catalog's documents and processors, both in insertion order.
pub struct DocumentManager {
    documents: Vec<Document>,
    processors: Vec<Processor>,
}

impl DocumentManager {
    /// The stored documents, in insertion order.
    pub closed spec fn docs(&self) -> Seq<Document> {
        self.documents@
    }

    /// The registered processors, in insertion order.
    pub closed spec fn procs(&self) -> Seq<Processor> {
        self.processors@
    }

    /// Creates an empty manager.
    pub fn new() -> (r: DocumentManager)
        ensures
            r.docs().len() == 0,
            r.procs().len() == 0,
    {
        DocumentManager { documents: Vec::new(), processors: Vec::new() }
    }

    /// Registers a processor; duplicates are kept.
    pub fn add_processor(&mut self, processor: Processor)
        ensures
            final(self).docs() == old(self).docs(),
            final(self).procs() == old(self).procs().push(processor),
    {
        self.processors.push(processor);
    }

    /// Takes ownership of a document and appends it to the catalog.
    pub fn add_document(&mut self, document: Document)
        ensures
            final(self).docs() == old(self).docs().push(document),
            final(self).procs() == old(self).procs(),
    {
        self.documents.push(document);
    }

    /// Number of stored documents.
    pub fn document_count(&self) -> (r: usize)
        ensures
            r == self.docs().len(),
    {
        self.documents.len()
    }

    /// Documents whose author equals `author`, ignoring case, in stored
    /// order.
    pub fn find_by_author(&self, author: &str) -> (r: Vec<&Document>)
        ensures
            deref_all(r@) == by_author(self.docs(), author@),
    {
        let needle = lowercase(author);
        let mut out: Vec<&Document> = Vec::new();
        let n = self.documents.len();
        let mut i: usize = 0;
        while i < n
            invariant
                n == self.documents@.len(),
                0 <= i <= n,
                needle@ == lower_of(author@),
                deref_all(out@) == by_author(self.documents@.take(i as int), author@),
            decreases n - i,
        {
            let d = &self.documents[i];
            let low = lowercase(d.metadata.author.as_str());
            let ghost prefix = self.documents@.take(i as int);
            proof {
                assert(self.documents@.take(i + 1) =~= prefix.push(self.documents@[i as int]));
                Seq::lemma_filter_push(
                    prefix,
                    self.documents@[i as int],
                    |x: Document| author_matches(x, author@),
                );
            }
            if str_eq(low.as_str(), needle.as_str()) {
                let ghost before = out@;
                out.push(d);
                proof {
                    assert(deref_all(out@) =~= deref_all(before).push(*d));
                }
            }
            i = i + 1;
        }
        proof {
            assert(self.documents@.take(n as int) =~= self.documents@);
        }
        out
    }

    /// Documents of type `doc_type`, in stored order.
    pub fn find_by_type(&self, doc_type: &DocumentType) -> (r: Vec<&Document>)
        ensures
            deref_all(r@) == by_type(self.docs(), *doc_type),
    {
        let mut out: Vec<&Document> = Vec::new();
        let n = self.documents.len();
        let mut i: usize = 0;
        while i < n
            invariant
                n == self.documents@.len(),
                0 <= i <= n,
                deref_all(out@) == by_type(self.documents@.take(i as int), *doc_type),
            decreases n - i,
        {
            let d = &self.documents[i];
            let ghost prefix = self.documents@.take(i as int);
            proof {
                assert(self.documents@.take(i + 1) =~= prefix.push(self.documents@[i as int]));
                Seq::lemma_filter_push(
                    prefix,
                    self.documents@[i as int],
                    |x: Document| x.doc_type == *doc_type,
                );
            }
            if d.doc_type == *doc_type {
                let ghost before = out@;
                out.push(d);
                proof {
                    assert(deref_all(out@) =~= deref_all(before).push(*d));
                }
            }
            i = i + 1;
        }
        proof {
            assert(self.documents@.take(n as int) =~= self.documents@);
        }
        out
    }

    /// Documents carrying `tag`, compared character-exactly, in stored
    /// order.
    pub fn find_by_tag(&self, tag: &str) -> (r: Vec<&Document>)
        ensures
            deref_all(r@) == by_tag(self.docs(), tag@),
    {
        let mut out: Vec<&Document> = Vec::new();
        let n = self.documents.len();
        let mut i: usize = 0;
        while i < n
            invariant
                n == self.documents@.len(),
                0 <= i <= n,
                deref_all(out@) == by_tag(self.documents@.take(i as int), tag@),
            decreases n - i,
        {
            let d = &self.documents[i];
            let ghost prefix = self.documents@.take(i as int);
            proof {
                assert(self.documents@.take(i + 1) =~= prefix.push(self.documents@[i as int]));
                Seq::lemma_filter_push(
                    prefix,
                    self.documents@[i as int],
                    |x: Document| x.has_tag(tag@),
                );
            }
            if has_tag_exec(d, tag) {
                let ghost before = out@;
                out.push(d);
                proof {
                    assert(deref_all(out@) =~= deref_all(before).push(*d));
                }
            }
            i = i + 1;
        }
        proof {
            assert(self.documents@.take(n as int) =~= self.documents@);
        }
        out
    }

    /// Runs every processor over every document, documents outermost, and
    /// collects one outcome per combination, never stopping on a failure.
    pub fn process_all_documents(&self) -> (r: Vec<Result<ProcessingStatus, String>>)
        ensures
            r@.len() == self.docs().len() * self.procs().len(),
            forall|i: int, j: int|
                0 <= i < self.docs().len() && 0 <= j < self.procs().len()
                    ==> outcome_matches(
                    #[trigger] r@[i * self.procs().len() + j],
                    self.procs()[j].process_spec(self.docs()[i]),
                ),
    {
        let ghost dseq = self.documents@;
        let ghost pseq = self.processors@;
        let ghost m = pseq.len() as int;
        let n = self.documents.len();
        let p = self.processors.len();
        let mut results: Vec<Result<ProcessingStatus, String>> = Vec::new();
        let mut i: usize = 0;
        while i < n
            invariant
                n == dseq.len(),
                m == pseq.len(),
                p == m,
                dseq == self.documents@,
                pseq == self.processors@,
                0 <= i <= n,
                results@.len() == i * m,
                forall|a: int, b: int|
                    0 <= a < i && 0 <= b < m ==> outcome_matches(
                        #[trigger] results@[a * m + b],
                        pseq[b].process_spec(dseq[a]),
                    ),
            decreases n - i,
        {
            let document = &self.documents[i];
            let mut j: usize = 0;
            while j < p
                invariant
                    n == dseq.len(),
                    m == pseq.len(),
                    p == m,
                    dseq == self.documents@,
                    pseq == self.processors@,
                    0 <= i < n,
                    0 <= j <= p,
                    document == &dseq[i as int],
                    results@.len() == i * m + j,
                    forall|a: int, b: int|
                        (0 <= a < i && 0 <= b < m) || (a == i && 0 <= b < j) ==> outcome_matches(
                            #[trigger] results@[a * m + b],
                            pseq[b].process_spec(dseq[a]),
                        ),
                decreases p - j,
            {
                let outcome = self.processors[j].process(document);
                let ghost before = results@;
                results.push(outcome);
                proof {
                    assert forall|a: int, b: int|
                        (0 <= a < i && 0 <= b < m) || (a == i && 0 <= b < j + 1) implies
                        outcome_matches(
                            #[trigger] results@[a * m + b],
                            pseq[b].process_spec(dseq[a]),
                        ) by {
                        if a == i && b == j {
                            assert(results@[a * m + b] == outcome);
                        } else if a == i {
                            assert(results@[a * m + b] == before[a * m + b]);
                        } else {
                            assert(a * m + b < i * m + j) by (nonlinear_arith)
                                requires
                                    0 <= a < i,
                                    0 <= b < m,
                                    0 <= j,
                            ;
                            assert(results@[a * m + b] == before[a * m + b]);
                        }
                    }
                }
                j = j + 1;
            }
            proof {
                assert(i * m + m == (i + 1) * m) by (nonlinear_arith);
            }
            i = i + 1;
        }
        results
    }
}

/// Scan the document's tags for `tag`.
fn has_tag_exec(d: &Document, tag: &str) -> (r: bool)
    ensures
        r == d.has_tag(tag@),
{
    let n = d.metadata.tags.len();
    let mut i: usize = 0;
    while i < n
        invariant
            n == d.metadata.tags@.len(),
            0 <= i <= n,
            forall|k: int| 0 <= k < i ==> d.spec_tags()[k] != tag@,
        decreases n - i,
    {
        if str_eq(d.metadata.tags[i].as_str(), tag) {
            proof {
                assert(d.spec_tags()[i as int] == tag@);
            }
            return true;
        }
        i = i + 1;
    }
    false
}

impl Default for DocumentManager {
    /// An empty manager, as `new` builds it.
    fn default() -> (r: DocumentManager)
        ensures
            r.docs().len() == 0,
            r.procs().len() == 0,
    {
        DocumentManager::new()
    }
}

} // verus!
