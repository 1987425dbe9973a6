//! Text primitives for the catalog: whitespace tokenization, substring
//! search, character-exact string equality, and lower-casing.
use vstd::prelude::*;

verus! {

/// The Unicode `White_Space` characters, the separators that word counting
/// goes by.
pub open spec fn is_space_char(c: char) -> bool {
    c == ' ' || c == '\t' || c == '\n' || c == '\u{b}' || c == '\u{c}' || c == '\r' || c
        == '\u{85}' || c == '\u{a0}' || c == '\u{1680}' || ('\u{2000}' <= c && c <= '\u{200a}') || c
        == '\u{2028}' || c == '\u{2029}' || c == '\u{202f}' || c == '\u{205f}' || c == '\u{3000}'
}

/// Number of words in `s[i..]`, given whether position `i` is preceded by a
/// separator (or the start of the text): a word starts at each non-space
/// character that follows a space or the start.
pub open spec fn words_from(s: Seq<char>, i: int, after_space: bool) -> nat
    decreases s.len() - i,
{
    if i < 0 || i >= s.len() {
        0
    } else if is_space_char(s[i]) {
        words_from(s, i + 1, true)
    } else {
        (if after_space {
            1nat
        } else {
            0nat
        }) + words_from(s, i + 1, false)
    }
}

/// Number of whitespace-delimited words in `s`.
pub open spec fn word_count_of(s: Seq<char>) -> nat {
    words_from(s, 0, true)
}

/// `p` occurs in `t` starting at position `i`.
pub open spec fn matches_at(t: Seq<char>, p: Seq<char>, i: int) -> bool {
    0 <= i && i + p.len() <= t.len() && t.subrange(i, i + p.len()) == p
}

/// `p` occurs somewhere in `t` as a contiguous run of characters.
pub open spec fn is_substring(t: Seq<char>, p: Seq<char>) -> bool {
    exists|i: int| matches_at(t, p, i)
}

/// What `str::to_lowercase` returns: a function of the characters alone.
pub uninterp spec fn lower_of(s: Seq<char>) -> Seq<char>;

/// Relies on `str::to_lowercase`: the result depends only on the characters
/// of the input, so it is named rather than spelled out.
#[verifier::external_body]
pub fn lowercase(s: &str) -> (r: String)
    ensures
        r@ == lower_of(s@),
{
    s.to_lowercase()
}

/// Decide whether `c` is a whitespace separator.
pub fn is_space(c: char) -> (r: bool)
    ensures
        r == is_space_char(c),
{
    c == ' ' || c == '\t' || c == '\n' || c == '\u{b}' || c == '\u{c}' || c == '\r' || c
        == '\u{85}' || c == '\u{a0}' || c == '\u{1680}' || ('\u{2000}' <= c && c <= '\u{200a}') || c
        == '\u{2028}' || c == '\u{2029}' || c == '\u{202f}' || c == '\u{205f}' || c == '\u{3000}'
}

/// Count the whitespace-delimited words of `s`.
pub fn count_words(s: &str) -> (r: usize)
    ensures
        r == word_count_of(s@),
{
    let n = s.unicode_len();
    let mut i: usize = 0;
    let mut count: usize = 0;
    let mut after_space = true;
    while i < n
        invariant
            n == s@.len(),
            0 <= i <= n,
            count <= i,
            count + words_from(s@, i as int, after_space) == word_count_of(s@),
        decreases n - i,
    {
        let c = s.get_char(i);
        if is_space(c) {
            after_space = true;
        } else {
            if after_space {
                count = count + 1;
            }
            after_space = false;
        }
        i = i + 1;
    }
    count
}

/// Compare two string slices character by character.
pub fn str_eq(a: &str, b: &str) -> (r: bool)
    ensures
        r == (a@ == b@),
{
    let an = a.unicode_len();
    let bn = b.unicode_len();
    if an != bn {
        return false;
    }
    let mut i: usize = 0;
    while i < an
        invariant
            an == a@.len(),
            an == b@.len(),
            0 <= i <= an,
            forall|k: int| 0 <= k < i ==> a@[k] == b@[k],
        decreases an - i,
    {
        if a.get_char(i) != b.get_char(i) {
            return false;
        }
        i = i + 1;
    }
    proof {
        assert(a@ =~= b@);
    }
    true
}

/// Does `p` occur in `t` starting at position `i`?
fn matches_here(t: &str, p: &str, i: usize) -> (r: bool)
    requires
        i + p@.len() <= t@.len(),
        t@.len() <= usize::MAX,
    ensures
        r == matches_at(t@, p@, i as int),
{
    let pn = p.unicode_len();
    let mut j: usize = 0;
    while j < pn
        invariant
            pn == p@.len(),
            i + pn <= t@.len(),
            t@.len() <= usize::MAX,
            0 <= j <= pn,
            forall|k: int| 0 <= k < j ==> t@[i + k] == p@[k],
        decreases pn - j,
    {
        if t.get_char(i + j) != p.get_char(j) {
            proof {
                assert(t@.subrange(i as int, i + pn)[j as int] != p@[j as int]);
            }
            return false;
        }
        j = j + 1;
    }
    proof {
        assert(t@.subrange(i as int, i + pn) =~= p@);
    }
    true
}

/// Search `t` for an occurrence of `p`.
pub fn str_contains(t: &str, p: &str) -> (r: bool)
    ensures
        r == is_substring(t@, p@),
{
    let tn = t.unicode_len();
    let pn = p.unicode_len();
    if pn > tn {
        return false;
    }
    if pn == 0 {
        proof {
            assert(t@.subrange(0, 0) =~= p@);
            assert(matches_at(t@, p@, 0));
        }
        return true;
    }
    let mut i: usize = 0;
    while i <= tn - pn
        invariant
            tn == t@.len(),
            pn == p@.len(),
            0 < pn <= tn,
            0 <= i <= tn - pn + 1,
            forall|k: int| 0 <= k < i ==> !matches_at(t@, p@, k),
        decreases tn - pn + 1 - i,
    {
        if matches_here(t, p, i) {
            return true;
        }
        i = i + 1;
    }
    false
}

} // verus!
