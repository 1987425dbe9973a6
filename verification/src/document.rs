//! The document model: a document's identity, content, type and metadata,
//! and the operations that construct and mutate it.
use vstd::prelude::*;

use crate::text::count_words;
use crate::text::is_substring;
use crate::text::lower_of;
use crate::text::lowercase;
use crate::text::str_contains;
use crate::text::str_eq;
use crate::text::word_count_of;

verus! {

/// Document types supported by the catalog.
#[derive(Debug, Clone, PartialEq, Eq, Structural)]
pub enum DocumentType {
    Text,
    Markdown,
    Html,
    Pdf,
    Word,
}

/// Metadata attached to a document.
#[derive(Debug, Clone)]
pub struct DocumentMetadata {
    pub author: String,
    pub word_count: usize,
    pub language: String,
    pub tags: Vec<String>,
}

/// A single document: identity, text body, type, creation time and metadata.
#[derive(Debug, Clone)]
pub struct Document {
    pub id: String,
    pub title: String,
    pub content: String,
    pub doc_type: DocumentType,
    pub created_at: u64,
    pub metadata: DocumentMetadata,
}

/// The tags of a document as character sequences.
pub open spec fn tag_views(tags: Seq<String>) -> Seq<Seq<char>> {
    tags.map_values(|t: String| t@)
}

/// No tag occurs twice.
pub open spec fn unique_tags(tags: Seq<Seq<char>>) -> bool {
    forall|i: int, j: int| 0 <= i < j < tags.len() ==> tags[i] != tags[j]
}

/// What adding a tag does: append it unless it is already present.
pub open spec fn add_tag_spec(tags: Seq<Seq<char>>, tag: Seq<char>) -> Seq<Seq<char>> {
    if tags.contains(tag) {
        tags
    } else {
        tags.push(tag)
    }
}

/// Index of the first occurrence of `tag`, or -1 when it is absent.
pub open spec fn first_index_of(tags: Seq<Seq<char>>, tag: Seq<char>) -> int
    decreases tags.len(),
{
    if tags.len() == 0 {
        -1
    } else if tags[0] == tag {
        0
    } else if first_index_of(tags.drop_first(), tag) == -1 {
        -1
    } else {
        first_index_of(tags.drop_first(), tag) + 1
    }
}

/// How many tags equal `tag`.
pub open spec fn occurrences(tags: Seq<Seq<char>>, tag: Seq<char>) -> nat
    decreases tags.len(),
{
    if tags.len() == 0 {
        0
    } else {
        (if tags[0] == tag {
            1nat
        } else {
            0nat
        }) + occurrences(tags.drop_first(), tag)
    }
}

/// What removing a tag does: drop its first occurrence, if any.
pub open spec fn remove_tag_spec(tags: Seq<Seq<char>>, tag: Seq<char>) -> Seq<Seq<char>> {
    if tags.contains(tag) {
        tags.remove(first_index_of(tags, tag))
    } else {
        tags
    }
}

/// The identity, body, type and creation time of `b` are those of `a`.
pub open spec fn same_core(a: Document, b: Document) -> bool {
    b.id == a.id && b.title == a.title && b.content == a.content && b.doc_type == a.doc_type
        && b.created_at == a.created_at
}

/// The summary of a text: the whole text when it has at most 100
/// characters, its first 100 characters otherwise.
pub open spec fn summary_of(s: Seq<char>) -> Seq<char> {
    if s.len() <= 100 {
        s
    } else {
        s.subrange(0, 100)
    }
}

impl Document {
    /// The document's tags as character sequences.
    pub open spec fn spec_tags(self) -> Seq<Seq<char>> {
        tag_views(self.metadata.tags@)
    }

    /// The document carries no duplicate tag.
    pub open spec fn tags_unique(self) -> bool {
        unique_tags(self.spec_tags())
    }

    /// The document carries `tag` (character-exact).
    pub open spec fn has_tag(self, tag: Seq<char>) -> bool {
        self.spec_tags().contains(tag)
    }

    /// `term` occurs, ignoring case, in the title or in the content.
    pub open spec fn matches_term(self, term: Seq<char>) -> bool {
        is_substring(lower_of(self.title@), lower_of(term)) || is_substring(
            lower_of(self.content@),
            lower_of(term),
        )
    }
}

/// Relies on `std::time::SystemTime::now` for the construction timestamp,
/// read as milliseconds since the Unix epoch; nothing is assumed of the
/// value.
#[verifier::external_body]
fn now_millis() -> u64 {
    match std::time::SystemTime::now().duration_since(std::time::UNIX_EPOCH) {
        Ok(d) => d.as_millis() as u64,
        Err(_) => 0,
    }
}

/// Index of the first tag equal to `tag`, scanning in order.
fn find_tag(tags: &Vec<String>, tag: &str) -> (r: Option<usize>)
    ensures
        match r {
            Some(i) => 0 <= i < tags@.len() && tag_views(tags@)[i as int] == tag@ && (forall|
                k: int,
            |
                0 <= k < i ==> tag_views(tags@)[k] != tag@) && i == first_index_of(
                tag_views(tags@),
                tag@,
            ),
            None => !tag_views(tags@).contains(tag@),
        },
{
    let n = tags.len();
    let mut i: usize = 0;
    while i < n
        invariant
            n == tags@.len(),
            0 <= i <= n,
            forall|k: int| 0 <= k < i ==> tag_views(tags@)[k] != tag@,
        decreases n - i,
    {
        if str_eq(tags[i].as_str(), tag) {
            proof {
                lemma_first_index_at(tag_views(tags@), tag@, i as int);
            }
            return Some(i);
        }
        i = i + 1;
    }
    proof {
        assert forall|k: int| 0 <= k < tags@.len() implies tag_views(tags@)[k] != tag@ by {}
    }
    None
}

/// The first index found by a left-to-right scan is `first_index_of`.
proof fn lemma_first_index_at(tags: Seq<Seq<char>>, tag: Seq<char>, i: int)
    requires
        0 <= i < tags.len(),
        tags[i] == tag,
        forall|k: int| 0 <= k < i ==> tags[k] != tag,
    ensures
        first_index_of(tags, tag) == i,
    decreases tags.len(),
{
    if i == 0 {
    } else {
        assert(tags[0] != tag);
        let rest = tags.drop_first();
        assert(rest[i - 1] == tags[i]);
        assert forall|k: int| 0 <= k < i - 1 implies rest[k] != tag by {
            assert(rest[k] == tags[k + 1]);
        }
        lemma_first_index_at(rest, tag, i - 1);
    }
}

impl Document {
    /// Creates a document: the word count is derived from `content`, the
    /// language defaults to `"en"`, the tag list starts empty, and the
    /// creation time is captured from the clock.
    pub fn new(id: String, title: String, content: String, doc_type: DocumentType, author: String) -> (r:
        Document)
        ensures
            r.id == id,
            r.title == title,
            r.content == content,
            r.doc_type == doc_type,
            r.metadata.author == author,
            r.metadata.word_count == word_count_of(content@),
            r.metadata.language@ == "en"@,
            r.metadata.tags@.len() == 0,
            r.tags_unique(),
    {
        let word_count = count_words(content.as_str());
        let metadata = DocumentMetadata {
            author,
            word_count,
            language: "en".to_owned(),
            tags: Vec::new(),
        };
        Document { id, title, content, doc_type, created_at: now_millis(), metadata }
    }

    /// Appends `tag` unless an equal tag is already present; otherwise a
    /// no-op. Distinct tags keep their insertion order.
    pub fn add_tag(&mut self, tag: String)
        ensures
            same_core(*old(self), *final(self)),
            final(self).metadata.author == old(self).metadata.author,
            final(self).metadata.word_count == old(self).metadata.word_count,
            final(self).metadata.language == old(self).metadata.language,
            final(self).spec_tags() == add_tag_spec(old(self).spec_tags(), tag@),
            old(self).tags_unique() ==> final(self).tags_unique(),
    {
        let found = find_tag(&self.metadata.tags, tag.as_str());
        match found {
            Some(_) => {
                proof {
                    assert(old(self).spec_tags().contains(tag@));
                }
            },
            None => {
                let ghost before = self.spec_tags();
                self.metadata.tags.push(tag);
                proof {
                    assert(self.spec_tags() =~= before.push(tag@));
                    if old(self).tags_unique() {
                        assert forall|i: int, j: int|
                            0 <= i < j < self.spec_tags().len() implies self.spec_tags()[i]
                            != self.spec_tags()[j] by {
                            if j == before.len() {
                                assert(before[i] != tag@);
                            }
                        }
                    }
                }
            },
        }
    }

    /// Removes the first tag equal to `tag`; returns whether a removal
    /// happened.
    pub fn remove_tag(&mut self, tag: &str) -> (r: bool)
        ensures
            same_core(*old(self), *final(self)),
            final(self).metadata.author == old(self).metadata.author,
            final(self).metadata.word_count == old(self).metadata.word_count,
            final(self).metadata.language == old(self).metadata.language,
            r == old(self).has_tag(tag@),
            final(self).spec_tags() == remove_tag_spec(old(self).spec_tags(), tag@),
            old(self).tags_unique() ==> final(self).tags_unique(),
    {
        let found = find_tag(&self.metadata.tags, tag);
        match found {
            Some(index) => {
                let ghost before = self.spec_tags();
                self.metadata.tags.remove(index);
                proof {
                    assert(before.contains(tag@)) by {
                        assert(before[index as int] == tag@);
                    }
                    assert(self.spec_tags() =~= before.remove(index as int));
                    if old(self).tags_unique() {
                        lemma_remove_keeps_unique(before, index as int);
                    }
                }
                true
            },
            None => false,
        }
    }

    /// The document's summary: the whole content when it has at most 100
    /// characters, its first 100 characters otherwise.
    pub fn get_summary(&self) -> (r: &str)
        ensures
            r@ == summary_of(self.content@),
    {
        let n = self.content.as_str().unicode_len();
        if n <= 100 {
            self.content.as_str()
        } else {
            self.content.as_str().substring_char(0, 100)
        }
    }

    /// Recomputes the word count from the current content; nothing keeps
    /// the two in sync between calls.
    pub fn update_word_count(&mut self)
        ensures
            same_core(*old(self), *final(self)),
            final(self).metadata.author == old(self).metadata.author,
            final(self).metadata.language == old(self).metadata.language,
            final(self).metadata.tags == old(self).metadata.tags,
            final(self).metadata.word_count == word_count_of(old(self).content@),
    {
        self.metadata.word_count = count_words(self.content.as_str());
    }

    /// Case-insensitive search for `search_term` in the title or content.
    pub fn contains(&self, search_term: &str) -> (r: bool)
        ensures
            r == self.matches_term(search_term@),
    {
        let needle = lowercase(search_term);
        let low_title = lowercase(self.title.as_str());
        if str_contains(low_title.as_str(), needle.as_str()) {
            return true;
        }
        let low_content = lowercase(self.content.as_str());
        str_contains(low_content.as_str(), needle.as_str())
    }
}

/// A sequence without `tag` counts zero occurrences of it.
proof fn lemma_occurrences_absent(tags: Seq<Seq<char>>, tag: Seq<char>)
    requires
        !tags.contains(tag),
    ensures
        occurrences(tags, tag) == 0,
    decreases tags.len(),
{
    if tags.len() > 0 {
        let rest = tags.drop_first();
        assert forall|k: int| 0 <= k < rest.len() implies rest[k] != tag by {
            assert(rest[k] == tags[k + 1]);
        }
        lemma_occurrences_absent(rest, tag);
    }
}

/// A duplicate-free sequence counts each tag it contains exactly once.
proof fn lemma_occurrences_unique(tags: Seq<Seq<char>>, tag: Seq<char>)
    requires
        unique_tags(tags),
        tags.contains(tag),
    ensures
        occurrences(tags, tag) == 1,
    decreases tags.len(),
{
    let rest = tags.drop_first();
    assert(unique_tags(rest)) by {
        assert forall|i: int, j: int| 0 <= i < j < rest.len() implies rest[i] != rest[j] by {
            assert(rest[i] == tags[i + 1] && rest[j] == tags[j + 1]);
        }
    }
    if tags[0] == tag {
        assert(!rest.contains(tag)) by {
            assert forall|k: int| 0 <= k < rest.len() implies rest[k] != tag by {
                assert(rest[k] == tags[k + 1]);
            }
        }
        lemma_occurrences_absent(rest, tag);
    } else {
        let w = choose|w: int| 0 <= w < tags.len() && tags[w] == tag;
        assert(rest[w - 1] == tag);
        assert(rest.contains(tag));
        lemma_occurrences_unique(rest, tag);
    }
}

/// Dropping the element at a position holding `tag` lowers its count by
/// exactly one.
proof fn lemma_occurrences_remove_at(tags: Seq<Seq<char>>, tag: Seq<char>, i: int)
    requires
        0 <= i < tags.len(),
        tags[i] == tag,
    ensures
        occurrences(tags.remove(i), tag) == occurrences(tags, tag) - 1,
    decreases i,
{
    let removed = tags.remove(i);
    if i == 0 {
        assert(removed =~= tags.drop_first());
    } else {
        assert(removed[0] == tags[0]);
        assert(removed.drop_first() =~= tags.drop_first().remove(i - 1));
        assert(tags.drop_first()[i - 1] == tags[i]);
        lemma_occurrences_remove_at(tags.drop_first(), tag, i - 1);
    }
}

/// Adding a tag is idempotent: the tag is present afterwards, a second
/// add of the same tag changes nothing, tags already present keep their
/// place and order, and a duplicate-free tag list stays duplicate-free
/// with exactly one occurrence of the added tag.
pub proof fn lemma_add_tag_idempotent(tags: Seq<Seq<char>>, tag: Seq<char>)
    ensures
        add_tag_spec(tags, tag).contains(tag),
        add_tag_spec(add_tag_spec(tags, tag), tag) == add_tag_spec(tags, tag),
        forall|i: int| 0 <= i < tags.len() ==> add_tag_spec(tags, tag)[i] == tags[i],
        unique_tags(tags) ==> unique_tags(add_tag_spec(tags, tag)),
        unique_tags(tags) ==> occurrences(add_tag_spec(tags, tag), tag) == 1,
{
    lemma_add_tag_base(tags, tag);
    if unique_tags(tags) {
        lemma_occurrences_unique(add_tag_spec(tags, tag), tag);
    }
}

/// The membership, identity and uniqueness parts of adding a tag.
proof fn lemma_add_tag_base(tags: Seq<Seq<char>>, tag: Seq<char>)
    ensures
        add_tag_spec(tags, tag).contains(tag),
        add_tag_spec(add_tag_spec(tags, tag), tag) == add_tag_spec(tags, tag),
        forall|i: int| 0 <= i < tags.len() ==> add_tag_spec(tags, tag)[i] == tags[i],
        unique_tags(tags) ==> unique_tags(add_tag_spec(tags, tag)),
{
    let once = add_tag_spec(tags, tag);
    if !tags.contains(tag) {
        assert(once[tags.len() as int] == tag);
        assert(once.contains(tag));
        if unique_tags(tags) {
            assert forall|i: int, j: int| 0 <= i < j < once.len() implies once[i] != once[j] by {
                if j == tags.len() {
                    assert(tags[i] != tag);
                }
            }
        }
    }
}

/// Removing an absent tag changes nothing; removing a present one drops
/// its first occurrence, exactly one occurrence, and nothing else.
pub proof fn lemma_remove_tag_first(tags: Seq<Seq<char>>, tag: Seq<char>)
    ensures
        !tags.contains(tag) ==> remove_tag_spec(tags, tag) == tags,
        tags.contains(tag) ==> {
            let i = first_index_of(tags, tag);
            &&& 0 <= i < tags.len()
            &&& tags[i] == tag
            &&& (forall|k: int| 0 <= k < i ==> tags[k] != tag)
            &&& remove_tag_spec(tags, tag) == tags.remove(i)
            &&& remove_tag_spec(tags, tag).len() == tags.len() - 1
            &&& occurrences(remove_tag_spec(tags, tag), tag) == occurrences(tags, tag) - 1
        },
{
    if tags.contains(tag) {
        lemma_first_index_props(tags, tag);
        lemma_occurrences_remove_at(tags, tag, first_index_of(tags, tag));
    }
}

/// A sequence that contains `tag` has a well-placed first occurrence.
proof fn lemma_first_index_props(tags: Seq<Seq<char>>, tag: Seq<char>)
    requires
        tags.contains(tag),
    ensures
        0 <= first_index_of(tags, tag) < tags.len(),
        tags[first_index_of(tags, tag)] == tag,
        forall|k: int| 0 <= k < first_index_of(tags, tag) ==> tags[k] != tag,
    decreases tags.len(),
{
    let w = choose|w: int| 0 <= w < tags.len() && tags[w] == tag;
    let first = first_witness(tags, tag, w);
    lemma_first_index_at(tags, tag, first);
}

/// The least index at or below `w` holding `tag`.
proof fn first_witness(tags: Seq<Seq<char>>, tag: Seq<char>, w: int) -> (r: int)
    requires
        0 <= w < tags.len(),
        tags[w] == tag,
    ensures
        0 <= r < tags.len(),
        tags[r] == tag,
        forall|k: int| 0 <= k < r ==> tags[k] != tag,
    decreases w,
{
    if exists|k: int| 0 <= k < w && tags[k] == tag {
        let k = choose|k: int| 0 <= k < w && tags[k] == tag;
        first_witness(tags, tag, k)
    } else {
        w
    }
}

/// Removing one element of a duplicate-free sequence leaves it
/// duplicate-free.
proof fn lemma_remove_keeps_unique(tags: Seq<Seq<char>>, i: int)
    requires
        unique_tags(tags),
        0 <= i < tags.len(),
    ensures
        unique_tags(tags.remove(i)),
{
    let r = tags.remove(i);
    assert forall|a: int, b: int| 0 <= a < b < r.len() implies r[a] != r[b] by {
        assert(r[a] == (if a < i {
            tags[a]
        } else {
            tags[a + 1]
        }));
        assert(r[b] == (if b < i {
            tags[b]
        } else {
            tags[b + 1]
        }));
    }
}

} // verus!
