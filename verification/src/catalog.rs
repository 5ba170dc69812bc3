//! The word catalog: the authoritative row store for words.
//!
//! The catalog is the only writer of word ids: ids are assigned in
//! insertion order, starting at 1, and are unique and stable once
//! assigned. Word texts need not be unique (homographs are told apart by
//! id). Rows are kept in insertion order, which is the order the exact
//! search returns.

use vstd::prelude::*;
use crate::text::{word_matches, text_matches, lemma_text_matches_itself};
use crate::WordStoreError;

verus! {

/// One word row: surrogate id, text, grammatical class, definition,
/// optional example, and timestamps.
pub struct WordRow {
    pub id: i64,
    pub word: String,
    pub class: String,
    pub definition: String,
    pub example: Option<String>,
    pub created_at: String,
    pub updated_at: String,
}

/// The spec-level shape of one word row.
pub ghost struct WordRowView {
    pub id: int,
    pub word: Seq<char>,
    pub class: Seq<char>,
    pub definition: Seq<char>,
    pub example: Option<Seq<char>>,
    pub created_at: Seq<char>,
    pub updated_at: Seq<char>,
}

impl View for WordRow {
    type V = WordRowView;

    open spec fn view(&self) -> WordRowView {
        WordRowView {
            id: self.id as int,
            word: self.word@,
            class: self.class@,
            definition: self.definition@,
            example: match self.example {
                Option::Some(s) => Option::Some(s@),
                Option::None => Option::None,
            },
            created_at: self.created_at@,
            updated_at: self.updated_at@,
        }
    }
}

impl Clone for WordRow {
    /// A clone carries the same row.
    fn clone(&self) -> (r: Self)
        ensures
            r@ == self@,
    {
        WordRow {
            id: self.id,
            word: self.word.clone(),
            class: self.class.clone(),
            definition: self.definition.clone(),
            example: match &self.example {
                Option::Some(s) => Option::Some(s.clone()),
                Option::None => Option::None,
            },
            created_at: self.created_at.clone(),
            updated_at: self.updated_at.clone(),
        }
    }
}

/// A new word as submitted by a caller: the text, its grammatical class,
/// its definition, and an example sentence.
pub struct NewWord {
    pub word: String,
    pub class: String,
    pub definition: String,
    pub example: String,
}

/// The views of a sequence of rows, elementwise.
pub open spec fn views_of(s: Seq<WordRow>) -> Seq<WordRowView> {
    s.map_values(|r: WordRow| r@)
}

/// Taking views commutes with appending one row.
pub proof fn lemma_views_push(s: Seq<WordRow>, x: WordRow)
    ensures
        views_of(s.push(x)) == views_of(s).push(x@),
{
    assert(views_of(s.push(x))[s.len() as int] == x@);
    assert(views_of(s.push(x)) =~= views_of(s).push(x@));
}

/// Whether some row in `rows` has the given id.
pub open spec fn has_word_id(rows: Seq<WordRowView>, id: int) -> bool {
    exists|i: int| 0 <= i < rows.len() && (#[trigger] rows[i]).id == id
}

/// The rows whose text matches the query, in order.
pub open spec fn matching_rows(rows: Seq<WordRowView>, query: Seq<char>) -> Seq<WordRowView>
    decreases rows.len(),
{
    if rows.len() == 0 {
        Seq::<WordRowView>::empty()
    } else {
        let prefix = matching_rows(rows.drop_last(), query);
        if word_matches(rows.last().word, query) {
            prefix.push(rows.last())
        } else {
            prefix
        }
    }
}

/// The rows left after deleting an id, in order.
pub open spec fn rows_without_id(rows: Seq<WordRowView>, id: int) -> Seq<WordRowView>
    decreases rows.len(),
{
    if rows.len() == 0 {
        Seq::<WordRowView>::empty()
    } else {
        let prefix = rows_without_id(rows.drop_last(), id);
        if rows.last().id != id {
            prefix.push(rows.last())
        } else {
            prefix
        }
    }
}

/// One more row extends the matching rows exactly when it matches.
pub proof fn lemma_matching_extend(rows: Seq<WordRowView>, query: Seq<char>, i: int)
    requires
        0 <= i < rows.len(),
    ensures
        matching_rows(rows.subrange(0, i + 1), query) == if word_matches(rows[i].word, query) {
            matching_rows(rows.subrange(0, i), query).push(rows[i])
        } else {
            matching_rows(rows.subrange(0, i), query)
        },
{
    let t = rows.subrange(0, i + 1);
    assert(t.drop_last() =~= rows.subrange(0, i));
    assert(t.last() == rows[i]);
}

/// One more row extends the kept rows exactly when its id differs.
pub proof fn lemma_without_extend(rows: Seq<WordRowView>, id: int, i: int)
    requires
        0 <= i < rows.len(),
    ensures
        rows_without_id(rows.subrange(0, i + 1), id) == if rows[i].id != id {
            rows_without_id(rows.subrange(0, i), id).push(rows[i])
        } else {
            rows_without_id(rows.subrange(0, i), id)
        },
{
    let t = rows.subrange(0, i + 1);
    assert(t.drop_last() =~= rows.subrange(0, i));
    assert(t.last() == rows[i]);
}

/// Deleting removes rows: the rest keep their order, each is a row of the
/// original sequence, none has the deleted id, and every row with another
/// id is kept.
pub proof fn lemma_without_shape(rows: Seq<WordRowView>, id: int)
    ensures
        rows_without_id(rows, id).len() <= rows.len(),
        forall|i: int|
            0 <= i < rows_without_id(rows, id).len() ==> exists|k: int|
                0 <= k < rows.len() && #[trigger] rows_without_id(rows, id)[i] == rows[k],
        forall|i: int| 0 <= i < rows_without_id(rows, id).len() ==> (#[trigger] rows_without_id(
            rows,
            id,
        )[i]).id != id,
    decreases rows.len(),
{
    if rows.len() == 0 {
    } else {
        let d = rows.drop_last();
        lemma_without_shape(d, id);
        let fd = rows_without_id(d, id);
        assert forall|i: int| 0 <= i < fd.len() implies exists|k: int|
            0 <= k < rows.len() && #[trigger] fd[i] == rows[k] by {
            let k = choose|k: int| 0 <= k < d.len() && #[trigger] fd[i] == d[k];
            assert(rows[k] == d[k]);
        }
        if rows.last().id != id {
            assert(rows_without_id(rows, id)[fd.len() as int] == rows[rows.len() - 1]);
        }
    }
}

/// Deleting from rows with strictly increasing ids leaves strictly
/// increasing ids.
pub proof fn lemma_without_keeps_order(rows: Seq<WordRowView>, id: int)
    requires
        forall|i: int, j: int|
            0 <= i < j < rows.len() ==> (#[trigger] rows[i]).id < (#[trigger] rows[j]).id,
    ensures
        forall|i: int, j: int|
            0 <= i < j < rows_without_id(rows, id).len() ==> (#[trigger] rows_without_id(
                rows,
                id,
            )[i]).id < (#[trigger] rows_without_id(rows, id)[j]).id,
    decreases rows.len(),
{
    if rows.len() == 0 {
    } else {
        let d = rows.drop_last();
        lemma_without_keeps_order(d, id);
        lemma_without_shape(d, id);
        let fd = rows_without_id(d, id);
        if rows.last().id != id {
            assert forall|i: int| 0 <= i < fd.len() implies fd[i].id < rows.last().id by {
                let k = choose|k: int| 0 <= k < d.len() && #[trigger] fd[i] == d[k];
                assert(rows[k].id < rows[rows.len() - 1].id);
            }
        }
    }
}

/// If no row carries the id, deleting it keeps every row.
pub proof fn lemma_without_absent(rows: Seq<WordRowView>, id: int)
    requires
        !has_word_id(rows, id),
    ensures
        rows_without_id(rows, id) == rows,
    decreases rows.len(),
{
    if rows.len() == 0 {
        assert(rows_without_id(rows, id) =~= rows);
    } else {
        let d = rows.drop_last();
        assert(!has_word_id(d, id)) by {
            if has_word_id(d, id) {
                let i = choose|i: int| 0 <= i < d.len() && (#[trigger] d[i]).id == id;
                assert(rows[i].id == id);
            }
        }
        lemma_without_absent(d, id);
        assert(rows.last().id != id) by {
            if rows.last().id == id {
                assert(rows[rows.len() - 1].id == id);
            }
        }
        assert(rows_without_id(rows, id) == d.push(rows.last()));
        assert(d.push(rows.last()) =~= rows);
    }
}

/// A row whose text matches the query is among the matching rows.
pub proof fn lemma_matching_contains(rows: Seq<WordRowView>, query: Seq<char>, i: int)
    requires
        0 <= i < rows.len(),
        word_matches(rows[i].word, query),
    ensures
        matching_rows(rows, query).contains(rows[i]),
    decreases rows.len(),
{
    let d = rows.drop_last();
    if i == rows.len() - 1 {
        let m = matching_rows(rows, query);
        assert(m[m.len() - 1] == rows[i]);
    } else {
        assert(d[i] == rows[i]);
        lemma_matching_contains(d, query, i);
        let md = matching_rows(d, query);
        let j = choose|j: int| 0 <= j < md.len() && md[j] == rows[i];
        if word_matches(rows.last().word, query) {
            assert(matching_rows(rows, query)[j] == md[j]);
        }
    }
}

/// The matching rows keep their order: each is a row of the original
/// sequence, and strictly increasing ids stay strictly increasing.
pub proof fn lemma_matching_keeps_order(rows: Seq<WordRowView>, query: Seq<char>)
    requires
        forall|i: int, j: int|
            0 <= i < j < rows.len() ==> (#[trigger] rows[i]).id < (#[trigger] rows[j]).id,
    ensures
        forall|i: int|
            0 <= i < matching_rows(rows, query).len() ==> exists|k: int|
                0 <= k < rows.len() && #[trigger] matching_rows(rows, query)[i] == rows[k],
        forall|i: int, j: int|
            0 <= i < j < matching_rows(rows, query).len() ==> (#[trigger] matching_rows(
                rows,
                query,
            )[i]).id < (#[trigger] matching_rows(rows, query)[j]).id,
    decreases rows.len(),
{
    if rows.len() == 0 {
    } else {
        let d = rows.drop_last();
        lemma_matching_keeps_order(d, query);
        let fd = matching_rows(d, query);
        assert forall|i: int| 0 <= i < fd.len() implies exists|k: int|
            0 <= k < rows.len() && #[trigger] fd[i] == rows[k] by {
            let k = choose|k: int| 0 <= k < d.len() && #[trigger] fd[i] == d[k];
            assert(rows[k] == d[k]);
        }
        if word_matches(rows.last().word, query) {
            assert forall|i: int| 0 <= i < fd.len() implies fd[i].id < rows.last().id by {
                let k = choose|k: int| 0 <= k < d.len() && #[trigger] fd[i] == d[k];
                assert(rows[k].id < rows[rows.len() - 1].id);
            }
            assert(matching_rows(rows, query)[fd.len() as int] == rows[rows.len() - 1]);
        }
    }
}

/// Every row matches the empty query, so the empty query keeps all rows.
pub proof fn lemma_matching_all(rows: Seq<WordRowView>)
    ensures
        matching_rows(rows, Seq::<char>::empty()) == rows,
    decreases rows.len(),
{
    if rows.len() == 0 {
        assert(matching_rows(rows, Seq::<char>::empty()) =~= rows);
    } else {
        let d = rows.drop_last();
        lemma_matching_all(d);
        lemma_text_matches_itself(rows.last().word);
        assert(matching_rows(rows, Seq::<char>::empty()) == d.push(rows.last()));
        assert(d.push(rows.last()) =~= rows);
    }
}

/// The authoritative word store.
pub struct WordCatalog {
    pub rows: Vec<WordRow>,
    pub next_id: i64,
}

impl View for WordCatalog {
    type V = Seq<WordRowView>;

    open spec fn view(&self) -> Seq<WordRowView> {
        views_of(self.rows@)
    }
}

impl WordCatalog {
    /// Well-formed: ids start at 1, grow in insertion order, and stay
    /// below the next id to be assigned. In particular ids are unique.
    pub open spec fn wf(&self) -> bool {
        &&& 1 <= self.next_id
        &&& forall|i: int|
            0 <= i < self@.len() ==> 1 <= (#[trigger] self@[i]).id < self.next_id as int
        &&& forall|i: int, j: int|
            0 <= i < j < self@.len() ==> (#[trigger] self@[i]).id < (#[trigger] self@[j]).id
    }

    /// An empty catalog; the first id to be assigned is 1.
    pub fn new() -> (r: WordCatalog)
        ensures
            r.wf(),
            r@ =~= Seq::<WordRowView>::empty(),
            r.next_id == 1,
    {
        WordCatalog { rows: Vec::new(), next_id: 1 }
    }

    /// Inserts a new word and returns the assigned id. Fails with
    /// `ConstraintViolation`, leaving the catalog unchanged, exactly when
    /// the required word text is empty. Both timestamps are set to `now`.
    pub fn create(&mut self, new_word: NewWord, now: &str) -> (r: Result<i64, WordStoreError>)
        requires
            old(self).wf(),
            old(self).next_id < i64::MAX,
        ensures
            final(self).wf(),
            r is Ok <==> new_word.word@.len() > 0,
            r matches Ok(id) ==> ({
                &&& id == old(self).next_id
                &&& final(self).next_id == id + 1
                &&& final(self)@ == old(self)@.push(
                    WordRowView {
                        id: id as int,
                        word: new_word.word@,
                        class: new_word.class@,
                        definition: new_word.definition@,
                        example: Option::Some(new_word.example@),
                        created_at: now@,
                        updated_at: now@,
                    },
                )
            }),
            r is Err ==> *final(self) == *old(self) && r == Err::<i64, WordStoreError>(
                WordStoreError::ConstraintViolation,
            ),
    {
        if new_word.word.as_str().unicode_len() == 0 {
            return Err(WordStoreError::ConstraintViolation);
        }
        let id = self.next_id;
        let row = WordRow {
            id,
            word: new_word.word,
            class: new_word.class,
            definition: new_word.definition,
            example: Option::Some(new_word.example),
            created_at: now.to_owned(),
            updated_at: now.to_owned(),
        };
        proof {
            lemma_views_push(self.rows@, row);
        }
        self.rows.push(row);
        self.next_id = id + 1;
        Ok(id)
    }

    /// Case-insensitive substring search on the word text, in insertion
    /// order. The empty query matches every row.
    pub fn query_all(&self, search: &String) -> (r: Vec<WordRow>)
        ensures
            views_of(r@) == matching_rows(self@, search@),
    {
        let n = self.rows.len();
        let mut out: Vec<WordRow> = Vec::new();
        let mut i: usize = 0;
        while i < n
            invariant
                n == self.rows@.len(),
                i <= n,
                views_of(out@) == matching_rows(self@.subrange(0, i as int), search@),
            decreases n - i,
        {
            let row = &self.rows[i];
            proof {
                assert(self@[i as int] == row@);
                lemma_matching_extend(self@, search@, i as int);
            }
            if text_matches(row.word.as_str(), search.as_str()) {
                let c = row.clone();
                proof {
                    lemma_views_push(out@, c);
                }
                out.push(c);
            }
            assert(views_of(out@) == matching_rows(self@.subrange(0, i + 1), search@));
            i = i + 1;
        }
        assert(self@.subrange(0, n as int) =~= self@);
        out
    }

    /// All rows, in insertion order: the empty query's result.
    pub fn get_all(&self) -> (r: Vec<WordRow>)
        ensures
            views_of(r@) == self@,
    {
        let empty = String::new();
        let r = self.query_all(&empty);
        proof {
            lemma_matching_all(self@);
        }
        r
    }

    /// Deletes a word row by id and returns how many rows went away.
    /// `referencing` holds the word ids that dependent rows refer to: a
    /// delete of a present, referenced id fails with
    /// `ReferentialIntegrityError` and leaves the catalog unchanged.
    #[verifier::rlimit(100)]
    pub fn delete(&mut self, word_id: i64, referencing: &Vec<i64>) -> (r: Result<
        u64,
        WordStoreError,
    >)
        requires
            old(self).wf(),
        ensures
            final(self).wf(),
            final(self).next_id == old(self).next_id,
            (has_word_id(old(self)@, word_id as int) && referencing@.contains(word_id)) ==> (
            *final(self) == *old(self) && r == Err::<u64, WordStoreError>(
                WordStoreError::ReferentialIntegrityError,
            )),
            !(has_word_id(old(self)@, word_id as int) && referencing@.contains(word_id)) ==> ({
                &&& final(self)@ == rows_without_id(old(self)@, word_id as int)
                &&& r matches Ok(c) && c == old(self)@.len() - final(self)@.len()
            }),
    {
        let is_referenced = contains_id(referencing, word_id);
        let present = self.position_of(word_id).is_some();
        if present && is_referenced {
            return Err(WordStoreError::ReferentialIntegrityError);
        }
        let n = self.rows.len();
        let kept = rows_filtered(&self.rows, word_id);
        proof {
            lemma_without_shape(self@, word_id as int);
            lemma_without_keeps_order(self@, word_id as int);
        }
        let removed = (n - kept.len()) as u64;
        self.rows = kept;
        if !present {
            proof {
                lemma_without_absent(old(self)@, word_id as int);
            }
        }
        Ok(removed)
    }

    /// The position of the row with the given id, if present.
    fn position_of(&self, word_id: i64) -> (r: Option<usize>)
        ensures
            r matches Some(i) ==> i < self@.len() && self@[i as int].id == word_id as int,
            r is None ==> !has_word_id(self@, word_id as int),
    {
        let n = self.rows.len();
        let mut i: usize = 0;
        while i < n
            invariant
                n == self.rows@.len(),
                i <= n,
                forall|j: int| 0 <= j < i ==> (#[trigger] self@[j]).id != word_id as int,
            decreases n - i,
        {
            if self.rows[i].id == word_id {
                assert(self@[i as int].id == word_id as int);
                return Some(i);
            }
            proof {
                assert(self@[i as int] == self.rows@[i as int]@);
            }
            i = i + 1;
        }
        None
    }

    /// The row with the given id, if present.
    pub fn find_by_id(&self, word_id: i64) -> (r: Option<&WordRow>)
        ensures
            r matches Some(w) ==> has_word_id(self@, word_id as int) && w@.id == word_id as int
                && self@.contains(w@),
            r is None ==> !has_word_id(self@, word_id as int),
    {
        match self.position_of(word_id) {
            Some(i) => {
                let w = &self.rows[i];
                assert(self@[i as int] == w@);
                Some(w)
            },
            None => None,
        }
    }
}

/// The rows that do not carry the given id, in order.
fn rows_filtered(rows: &Vec<WordRow>, word_id: i64) -> (r: Vec<WordRow>)
    ensures
        views_of(r@) == rows_without_id(views_of(rows@), word_id as int),
        r@.len() <= rows@.len(),
{
    let ghost rv = views_of(rows@);
    let n = rows.len();
    let mut kept: Vec<WordRow> = Vec::new();
    let mut i: usize = 0;
    while i < n
        invariant
            n == rows@.len(),
            rv == views_of(rows@),
            i <= n,
            kept@.len() <= i,
            views_of(kept@) == rows_without_id(rv.subrange(0, i as int), word_id as int),
        decreases n - i,
    {
        let row = &rows[i];
        proof {
            assert(rv[i as int] == row@);
            lemma_without_extend(rv, word_id as int, i as int);
        }
        if row.id != word_id {
            let c = row.clone();
            proof {
                lemma_views_push(kept@, c);
            }
            kept.push(c);
        }
        assert(views_of(kept@) == rows_without_id(rv.subrange(0, i + 1), word_id as int));
        i = i + 1;
    }
    assert(rv.subrange(0, n as int) =~= rv);
    kept
}

/// Whether a list of ids holds the given id.
pub fn contains_id(ids: &Vec<i64>, id: i64) -> (r: bool)
    ensures
        r == ids@.contains(id),
{
    let n = ids.len();
    let mut i: usize = 0;
    while i < n
        invariant
            n == ids@.len(),
            i <= n,
            forall|j: int| 0 <= j < i ==> ids@[j] != id,
        decreases n - i,
    {
        if ids[i] == id {
            return true;
        }
        i = i + 1;
    }
    false
}

} // verus!
