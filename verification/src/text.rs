//! Case-insensitive substring matching over character sequences.
//!
//! The catalog's exact search is a case-insensitive substring match on the
//! word text. Case folding is ASCII folding: `'A'..='Z'` map to their
//! lowercase counterparts and every other character is left unchanged.

use vstd::prelude::*;

verus! {

/// ASCII case folding of one character.
pub open spec fn fold_char(c: char) -> char {
    if 'A' <= c && c <= 'Z' {
        ((c as u8 + 32) as u8) as char
    } else {
        c
    }
}

/// ASCII case folding of a character sequence, pointwise.
pub open spec fn fold_seq(s: Seq<char>) -> Seq<char> {
    s.map_values(|c: char| fold_char(c))
}

/// `needle` occurs in `hay` starting at position `i`.
pub open spec fn substring_match_at(hay: Seq<char>, needle: Seq<char>, i: int) -> bool {
    0 <= i && i + needle.len() <= hay.len() && hay.subrange(i, i + needle.len() as int)
        == needle
}

/// `needle` occurs somewhere in `hay`; the empty needle occurs in every hay.
pub open spec fn is_substring_of(needle: Seq<char>, hay: Seq<char>) -> bool {
    exists|i: int| substring_match_at(hay, needle, i)
}

/// A word text matches a query when the folded query is a substring of the
/// folded text. The empty query matches every text.
pub open spec fn word_matches(text: Seq<char>, query: Seq<char>) -> bool {
    is_substring_of(fold_seq(query), fold_seq(text))
}

/// Every sequence is a substring of itself, at position 0.
pub proof fn lemma_substring_refl(s: Seq<char>)
    ensures
        is_substring_of(s, s),
{
    assert(s.subrange(0, s.len() as int) =~= s);
    assert(substring_match_at(s, s, 0));
}

/// The empty sequence is a substring of every sequence.
pub proof fn lemma_empty_substring(hay: Seq<char>)
    ensures
        is_substring_of(Seq::<char>::empty(), hay),
{
    assert(hay.subrange(0, 0) =~= Seq::<char>::empty());
    assert(substring_match_at(hay, Seq::<char>::empty(), 0));
}

/// Every text matches the query equal to itself, and the empty query.
pub proof fn lemma_text_matches_itself(text: Seq<char>)
    ensures
        word_matches(text, text),
        word_matches(text, Seq::<char>::empty()),
{
    lemma_substring_refl(fold_seq(text));
    assert(fold_seq(Seq::<char>::empty()) =~= Seq::<char>::empty());
    lemma_empty_substring(fold_seq(text));
}

/// ASCII case folding of one character.
pub fn fold_char_exec(c: char) -> (r: char)
    ensures
        r == fold_char(c),
{
    if 'A' <= c && c <= 'Z' {
        ((c as u8) + 32) as char
    } else {
        c
    }
}

/// The folded characters of a string, as a vector.
pub fn fold_str(s: &str) -> (v: Vec<char>)
    ensures
        v@ == fold_seq(s@),
{
    let n = s.unicode_len();
    let mut v: Vec<char> = Vec::new();
    let mut i: usize = 0;
    while i < n
        invariant
            n == s@.len(),
            i <= n,
            v@.len() == i,
            forall|j: int| 0 <= j < i ==> v@[j] == fold_char(s@[j]),
        decreases n - i,
    {
        let c = s.get_char(i);
        v.push(fold_char_exec(c));
        i = i + 1;
    }
    assert(v@ =~= fold_seq(s@));
    v
}

/// Whether `needle` occurs in `hay` at position `i`.
fn match_at(hay: &Vec<char>, needle: &Vec<char>, i: usize) -> (b: bool)
    requires
        i + needle@.len() <= hay@.len(),
    ensures
        b == substring_match_at(hay@, needle@, i as int),
{
    let n = hay.len();
    let m = needle.len();
    let mut j: usize = 0;
    while j < m
        invariant
            n == hay@.len(),
            m == needle@.len(),
            i + m <= hay@.len(),
            j <= m,
            forall|q: int| 0 <= q < j ==> hay@[i + q] == needle@[q],
        decreases m - j,
    {
        if hay[i + j] != needle[j] {
            assert(!substring_match_at(hay@, needle@, i as int)) by {
                if substring_match_at(hay@, needle@, i as int) {
                    assert(hay@.subrange(i as int, i + needle@.len() as int)[j as int]
                        == needle@[j as int]);
                }
            }
            return false;
        }
        j = j + 1;
    }
    assert(hay@.subrange(i as int, i + needle@.len() as int) =~= needle@);
    true
}

/// Whether `needle` occurs somewhere in `hay`.
pub fn contains_subseq(hay: &Vec<char>, needle: &Vec<char>) -> (b: bool)
    ensures
        b == is_substring_of(needle@, hay@),
{
    let n = hay.len();
    let m = needle.len();
    if m > n {
        assert(forall|i: int| !substring_match_at(hay@, needle@, i));
        return false;
    }
    if m == 0 {
        proof {
            assert(needle@ =~= Seq::<char>::empty());
            lemma_empty_substring(hay@);
        }
        return true;
    }
    let mut i: usize = 0;
    while i <= n - m
        invariant
            n == hay@.len(),
            m == needle@.len(),
            1 <= m <= n,
            i <= n - m + 1,
            forall|p: int| 0 <= p < i ==> !substring_match_at(hay@, needle@, p),
        decreases n - m + 1 - i,
    {
        if match_at(hay, needle, i) {
            return true;
        }
        i = i + 1;
    }
    assert(forall|p: int| p >= i ==> !substring_match_at(hay@, needle@, p));
    false
}

/// Whether two strings hold the same characters.
pub fn str_eq(a: &str, b: &str) -> (r: bool)
    ensures
        r == (a@ == b@),
{
    let n = a.unicode_len();
    let m = b.unicode_len();
    if n != m {
        return false;
    }
    let mut i: usize = 0;
    while i < n
        invariant
            n == a@.len(),
            n == b@.len(),
            i <= n,
            forall|j: int| 0 <= j < i ==> a@[j] == b@[j],
        decreases n - i,
    {
        if a.get_char(i) != b.get_char(i) {
            return false;
        }
        i = i + 1;
    }
    assert(a@ =~= b@);
    true
}

/// Whether `text` matches `query`, case-insensitively: the folded query is a
/// substring of the folded text.
pub fn text_matches(text: &str, query: &str) -> (b: bool)
    ensures
        b == word_matches(text@, query@),
{
    let folded_text = fold_str(text);
    let folded_query = fold_str(query);
    contains_subseq(&folded_text, &folded_query)
}

} // verus!
