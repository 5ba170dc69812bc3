//! The search coordinator: one store gluing the word catalog, the vector
//! index and the challenge rows behind a single write and query surface.
//!
//! On write, the catalog insert is sequenced strictly before the vector
//! append, because vector rows are keyed by the id the catalog assigns.
//! A failed append leaves the word catalog-only — a recoverable, reported
//! inconsistency, not a rollback. On read, a query mode picks exact
//! substring results, nearest-neighbour results resolved back through the
//! catalog, or the fusion of both: deduplicated by word id, exact matches
//! ranked ahead of semantic-only matches.

use vstd::prelude::*;
use crate::catalog::{
    WordCatalog, WordRow, WordRowView, NewWord, has_word_id, matching_rows, rows_without_id,
    views_of, lemma_views_push,
};
use crate::challenge::{
    ChallengeRow, ChallengeRowView, Challenge, ChallengeView, crows_of, lemma_crows_push,
    references_word, has_challenge_id, cviews_of, lemma_cviews_push, challenges_without_id,
    lemma_challenges_without_extend, lemma_challenges_without_shape,
    lemma_challenges_without_keeps_order,
};
use crate::embedding::{EmbeddingSpace, EmbeddingVector, valid_components, check_components,
    copy_components};
use crate::index::{VectorIndex, NearestHit, HitView, hits_of, nearest_post, index_has_word};
use crate::WordStoreError;

verus! {

/// The three query modes of the search surface.
#[derive(Clone, Copy, PartialEq, Eq, Structural, Debug)]
pub enum SearchMode {
    Exact,
    Semantic,
    Fused,
}

/// The outcome of a word write: the assigned id, and `None` when the
/// vector append succeeded, or the recorded `ConsistencyError` when it
/// did not. An unindexed word is searchable by exact match only until a
/// reconciliation pass replays the append.
pub struct WordCreated {
    pub id: i64,
    pub index_error: Option<WordStoreError>,
}

impl WordCreated {
    /// Whether the word made it into the vector index.
    pub open spec fn indexed(&self) -> bool {
        self.index_error is None
    }
}

/// The catalog row carrying the given id (meaningful when ids are unique
/// and the id is present).
pub open spec fn row_for_id(cat: Seq<WordRowView>, id: int) -> WordRowView {
    cat[choose|i: int| 0 <= i < cat.len() && (#[trigger] cat[i]).id == id]
}

/// In a catalog with pairwise-distinct ids, the row for a contained row's
/// id is that row.
pub proof fn lemma_row_for_id_unique(cat: Seq<WordRowView>, w: WordRowView)
    requires
        forall|i: int, j: int|
            0 <= i < j < cat.len() ==> (#[trigger] cat[i]).id != (#[trigger] cat[j]).id,
        cat.contains(w),
    ensures
        has_word_id(cat, w.id),
        row_for_id(cat, w.id) == w,
{
    let a = choose|a: int| 0 <= a < cat.len() && cat[a] == w;
    assert(cat[a].id == w.id);
    let b = choose|i: int| 0 <= i < cat.len() && (#[trigger] cat[i]).id == w.id;
    if a != b {
        assert(cat[a].id != cat[b].id);
    }
}

/// Fusing one hit into an accumulated result: a hit whose word id is
/// already present is dropped, one whose id resolves in the catalog
/// appends that catalog row, one whose id no longer resolves is dropped.
pub open spec fn fuse_step(
    cat: Seq<WordRowView>,
    acc: Seq<WordRowView>,
    h: HitView,
) -> Seq<WordRowView> {
    if has_word_id(acc, h.row.word_id) {
        acc
    } else if has_word_id(cat, h.row.word_id) {
        acc.push(row_for_id(cat, h.row.word_id))
    } else {
        acc
    }
}

/// Fusing a hit sequence into an accumulated result, in hit order.
pub open spec fn fuse_hits(
    cat: Seq<WordRowView>,
    acc0: Seq<WordRowView>,
    hits: Seq<HitView>,
) -> Seq<WordRowView>
    decreases hits.len(),
{
    if hits.len() == 0 {
        acc0
    } else {
        fuse_step(cat, fuse_hits(cat, acc0, hits.drop_last()), hits.last())
    }
}

/// One more hit fuses by one step.
pub proof fn lemma_fuse_extend(
    cat: Seq<WordRowView>,
    acc0: Seq<WordRowView>,
    hits: Seq<HitView>,
    i: int,
)
    requires
        0 <= i < hits.len(),
    ensures
        fuse_hits(cat, acc0, hits.subrange(0, i + 1)) == fuse_step(
            cat,
            fuse_hits(cat, acc0, hits.subrange(0, i)),
            hits[i],
        ),
{
    let t = hits.subrange(0, i + 1);
    assert(t.drop_last() =~= hits.subrange(0, i));
    assert(t.last() == hits[i]);
}

/// Fusing only ever appends: the accumulated rows stay a prefix.
pub proof fn lemma_fuse_keeps_prefix(
    cat: Seq<WordRowView>,
    acc0: Seq<WordRowView>,
    hits: Seq<HitView>,
)
    ensures
        acc0.len() <= fuse_hits(cat, acc0, hits).len(),
        forall|i: int|
            0 <= i < acc0.len() ==> #[trigger] fuse_hits(cat, acc0, hits)[i] == acc0[i],
    decreases hits.len(),
{
    if hits.len() == 0 {
    } else {
        lemma_fuse_keeps_prefix(cat, acc0, hits.drop_last());
    }
}

/// Fusing preserves pairwise-distinct word ids.
pub proof fn lemma_fuse_distinct_ids(
    cat: Seq<WordRowView>,
    acc0: Seq<WordRowView>,
    hits: Seq<HitView>,
)
    requires
        forall|i: int, j: int|
            0 <= i < j < acc0.len() ==> (#[trigger] acc0[i]).id != (#[trigger] acc0[j]).id,
    ensures
        forall|i: int, j: int|
            0 <= i < j < fuse_hits(cat, acc0, hits).len() ==> (#[trigger] fuse_hits(
                cat,
                acc0,
                hits,
            )[i]).id != (#[trigger] fuse_hits(cat, acc0, hits)[j]).id,
    decreases hits.len(),
{
    if hits.len() == 0 {
    } else {
        lemma_fuse_distinct_ids(cat, acc0, hits.drop_last());
        let prev = fuse_hits(cat, acc0, hits.drop_last());
        let h = hits.last();
        if !has_word_id(prev, h.row.word_id) && has_word_id(cat, h.row.word_id) {
            let w = row_for_id(cat, h.row.word_id);
            assert(w.id == h.row.word_id);
            assert forall|i: int| 0 <= i < prev.len() implies (#[trigger] prev[i]).id != w.id by {
                if prev[i].id == w.id {
                    assert(has_word_id(prev, h.row.word_id));
                }
            }
        }
    }
}

/// Whether the rows hold the given word id.
pub fn contains_word_id(rows: &Vec<WordRow>, id: i64) -> (r: bool)
    ensures
        r == has_word_id(views_of(rows@), id as int),
{
    let n = rows.len();
    let mut i: usize = 0;
    while i < n
        invariant
            n == rows@.len(),
            i <= n,
            forall|j: int| 0 <= j < i ==> (#[trigger] views_of(rows@)[j]).id != id as int,
        decreases n - i,
    {
        if rows[i].id == id {
            assert(views_of(rows@)[i as int].id == id as int);
            return true;
        }
        proof {
            assert(views_of(rows@)[i as int] == rows@[i as int]@);
        }
        i = i + 1;
    }
    false
}

/// Resolves nearest-neighbour hits against the catalog, appending each
/// hit's word row to the accumulated results unless its id is already
/// there, in hit order.
fn resolve_hits(catalog: &WordCatalog, acc: Vec<WordRow>, hits: &Vec<NearestHit>) -> (r: Vec<
    WordRow,
>)
    requires
        catalog.wf(),
    ensures
        views_of(r@) == fuse_hits(catalog@, views_of(acc@), hits_of(hits@)),
{
    let ghost acc0 = views_of(acc@);
    let n = hits.len();
    let mut out = acc;
    let mut i: usize = 0;
    while i < n
        invariant
            catalog.wf(),
            n == hits@.len(),
            i <= n,
            views_of(out@) == fuse_hits(catalog@, acc0, hits_of(hits@).subrange(0, i as int)),
        decreases n - i,
    {
        proof {
            lemma_fuse_extend(catalog@, acc0, hits_of(hits@), i as int);
            assert(hits_of(hits@)[i as int] == hits@[i as int]@);
        }
        let hit = &hits[i];
        let id = hit.row.word_id;
        if !contains_word_id(&out, id) {
            match catalog.find_by_id(id) {
                Option::Some(w) => {
                    proof {
                        lemma_row_for_id_unique(catalog@, w@);
                    }
                    let c = w.clone();
                    proof {
                        lemma_views_push(out@, c);
                    }
                    out.push(c);
                },
                Option::None => {
                },
            }
        }
        assert(views_of(out@) == fuse_hits(catalog@, acc0, hits_of(hits@).subrange(0, i + 1)));
        i = i + 1;
    }
    assert(hits_of(hits@).subrange(0, n as int) =~= hits_of(hits@));
    out
}

/// Whether a meaning-space query embedding is usable: present and of the
/// declared width with components in range.
pub open spec fn semantic_usable(query_meaning: Option<Vec<i64>>) -> bool {
    match query_meaning {
        Option::Some(m) => valid_components(EmbeddingSpace::Meaning, m@),
        Option::None => false,
    }
}

/// The store: the word catalog (source of truth), the vector index
/// (derived, append-only), and the challenge rows that reference words.
pub struct WordStore {
    pub catalog: WordCatalog,
    pub index: VectorIndex,
    pub challenges: Vec<ChallengeRow>,
    pub next_challenge_id: i64,
}

impl WordStore {
    /// The challenge rows, as views.
    pub open spec fn challenges_view(&self) -> Seq<ChallengeRowView> {
        crows_of(self.challenges@)
    }

    /// Well-formed: both stores are well-formed, challenge ids start at 1
    /// and grow in insertion order, and every challenge references a word
    /// that is in the catalog.
    pub open spec fn wf(&self) -> bool {
        &&& self.catalog.wf()
        &&& self.index.wf()
        &&& 1 <= self.next_challenge_id
        &&& forall|i: int|
            0 <= i < self.challenges_view().len() ==> 1 <= (
            #[trigger] self.challenges_view()[i]).id < self.next_challenge_id as int
        &&& forall|i: int, j: int|
            0 <= i < j < self.challenges_view().len() ==> (#[trigger] self.challenges_view()[i]).id
                < (#[trigger] self.challenges_view()[j]).id
        &&& forall|i: int|
            0 <= i < self.challenges_view().len() ==> has_word_id(
                self.catalog@,
                (#[trigger] self.challenges_view()[i]).word_id,
            )
    }

    /// An empty store.
    pub fn new() -> (r: WordStore)
        ensures
            r.wf(),
            r.catalog@ =~= Seq::<WordRowView>::empty(),
            r.index@ =~= Seq::<crate::index::VectorRowView>::empty(),
            r.challenges_view() =~= Seq::<ChallengeRowView>::empty(),
    {
        WordStore {
            catalog: WordCatalog::new(),
            index: VectorIndex::new(),
            challenges: Vec::new(),
            next_challenge_id: 1,
        }
    }

    /// Creates a word: the catalog insert runs first and assigns the id;
    /// the vector append follows, keyed by that id, with the external
    /// model's meaning response for the text. The word is in the catalog
    /// whether or not the append succeeds: a missing or malformed
    /// response leaves the word unindexed, to be reconciled later.
    pub fn create_word(&mut self, new_word: NewWord, now: &str, meaning_response: Option<
        &Vec<i64>,
    >) -> (r: Result<WordCreated, WordStoreError>)
        requires
            old(self).wf(),
            old(self).catalog.next_id < i64::MAX,
        ensures
            final(self).wf(),
            r is Ok <==> new_word.word@.len() > 0,
            r is Err ==> *final(self) == *old(self) && r == Err::<WordCreated, WordStoreError>(
                WordStoreError::ConstraintViolation,
            ),
            r matches Ok(out) ==> ({
                &&& out.id == old(self).catalog.next_id
                &&& final(self).catalog@ == old(self).catalog@.push(
                    WordRowView {
                        id: out.id as int,
                        word: new_word.word@,
                        class: new_word.class@,
                        definition: new_word.definition@,
                        example: Option::Some(new_word.example@),
                        created_at: now@,
                        updated_at: now@,
                    },
                )
                &&& final(self).catalog.next_id == out.id + 1
                &&& (out.indexed() <==> (meaning_response matches Some(m) && valid_components(
                    EmbeddingSpace::Meaning,
                    m@,
                )))
                &&& !out.indexed() ==> out.index_error == Option::Some(
                    WordStoreError::ConsistencyError,
                )
                &&& out.indexed() ==> final(self).index@ == old(self).index@.push(
                    crate::index::VectorRowView {
                        word_id: out.id as int,
                        word: new_word.word@,
                        meaning: meaning_response.unwrap()@,
                        ngram: crate::embedding::ngram_embedding(
                            crate::text::fold_seq(new_word.word@),
                        ),
                    },
                )
                &&& !out.indexed() ==> final(self).index@ == old(self).index@
                &&& final(self).challenges@ == old(self).challenges@
                &&& final(self).next_challenge_id == old(self).next_challenge_id
            }),
    {
        let text = new_word.word.clone();
        let id = match self.catalog.create(new_word, now) {
            Result::Err(e) => {
                return Result::Err(e);
            },
            Result::Ok(id) => id,
        };
        let index_error = match meaning_response {
            Option::Some(resp) => match self.index.append(id, &text, resp) {
                Result::Ok(()) => Option::None,
                Result::Err(_) => Option::Some(WordStoreError::ConsistencyError),
            },
            Option::None => Option::Some(WordStoreError::ConsistencyError),
        };
        proof {
            assert forall|i: int| 0 <= i < self.challenges_view().len() implies has_word_id(
                self.catalog@,
                (#[trigger] self.challenges_view()[i]).word_id,
            ) by {
                let wid = self.challenges_view()[i].word_id;
                let t = choose|t: int|
                    0 <= t < old(self).catalog@.len() && (#[trigger] old(self).catalog@[t]).id
                        == wid;
                assert(self.catalog@[t].id == wid);
            }
        }
        Result::Ok(WordCreated { id, index_error })
    }

    /// Answers a search. `Exact` returns the case-insensitive substring
    /// matches, in insertion order. `Semantic` resolves the nearest
    /// meaning-space neighbours of the query embedding back through the
    /// catalog. `Fused` runs both and deduplicates by word id, exact
    /// matches ranked ahead of semantic-only matches. A missing or
    /// malformed query embedding degrades `Semantic` and `Fused` to the
    /// exact results rather than failing.
    pub fn search_words(
        &self,
        query: &String,
        mode: SearchMode,
        query_meaning: Option<Vec<i64>>,
        k: usize,
    ) -> (r: Vec<WordRow>)
        requires
            self.wf(),
        ensures
            mode == SearchMode::Exact ==> views_of(r@) == matching_rows(self.catalog@, query@),
            !semantic_usable(query_meaning) ==> views_of(r@) == matching_rows(
                self.catalog@,
                query@,
            ),
            (mode == SearchMode::Semantic && semantic_usable(query_meaning)) ==> (exists|
                hits: Seq<HitView>,
            |
                {
                    &&& #[trigger] nearest_post(
                        self.index@,
                        EmbeddingSpace::Meaning,
                        query_meaning.unwrap()@,
                        k as int,
                        hits,
                    )
                    &&& views_of(r@) == fuse_hits(self.catalog@, Seq::<WordRowView>::empty(), hits)
                }),
            (mode == SearchMode::Fused && semantic_usable(query_meaning)) ==> (exists|
                hits: Seq<HitView>,
            |
                {
                    &&& #[trigger] nearest_post(
                        self.index@,
                        EmbeddingSpace::Meaning,
                        query_meaning.unwrap()@,
                        k as int,
                        hits,
                    )
                    &&& views_of(r@) == fuse_hits(
                        self.catalog@,
                        matching_rows(self.catalog@, query@),
                        hits,
                    )
                }),
    {
        match mode {
            SearchMode::Exact => self.catalog.query_all(query),
            SearchMode::Semantic => {
                match query_meaning {
                    Option::Some(m) => {
                        if check_components(EmbeddingSpace::Meaning, &m) {
                            let qv = EmbeddingVector {
                                space: EmbeddingSpace::Meaning,
                                components: copy_components(&m),
                            };
                            let hits = self.index.nearest(&qv, k);
                            let r = resolve_hits(&self.catalog, Vec::new(), &hits);
                            proof {
                                assert(views_of(Seq::<WordRow>::empty())
                                    =~= Seq::<WordRowView>::empty());
                            }
                            r
                        } else {
                            self.catalog.query_all(query)
                        }
                    },
                    Option::None => self.catalog.query_all(query),
                }
            },
            SearchMode::Fused => {
                match query_meaning {
                    Option::Some(m) => {
                        if check_components(EmbeddingSpace::Meaning, &m) {
                            let qv = EmbeddingVector {
                                space: EmbeddingSpace::Meaning,
                                components: copy_components(&m),
                            };
                            let exact = self.catalog.query_all(query);
                            let hits = self.index.nearest(&qv, k);
                            let r = resolve_hits(&self.catalog, exact, &hits);
                            r
                        } else {
                            self.catalog.query_all(query)
                        }
                    },
                    Option::None => self.catalog.query_all(query),
                }
            },
        }
    }

    /// Deletes a word by id. A word referenced by a challenge cannot be
    /// deleted: the delete fails with `ReferentialIntegrityError` and the
    /// whole store — word row and vector row included — is untouched.
    /// A successful delete removes the catalog row only; a stale vector
    /// row, like a missing one, is the reconciliation pass's business.
    pub fn delete_word(&mut self, word_id: i64) -> (r: Result<u64, WordStoreError>)
        requires
            old(self).wf(),
        ensures
            final(self).wf(),
            (has_word_id(old(self).catalog@, word_id as int) && references_word(
                old(self).challenges_view(),
                word_id as int,
            )) ==> (*final(self) == *old(self) && r == Err::<u64, WordStoreError>(
                WordStoreError::ReferentialIntegrityError,
            )),
            !(has_word_id(old(self).catalog@, word_id as int) && references_word(
                old(self).challenges_view(),
                word_id as int,
            )) ==> ({
                &&& final(self).catalog@ == rows_without_id(old(self).catalog@, word_id as int)
                &&& r matches Ok(c) && c == old(self).catalog@.len() - final(self).catalog@.len()
            }),
            final(self).index@ == old(self).index@,
            final(self).challenges@ == old(self).challenges@,
            final(self).next_challenge_id == old(self).next_challenge_id,
            final(self).catalog.next_id == old(self).catalog.next_id,
    {
        let refs = self.referenced_word_ids();
        let r = self.catalog.delete(word_id, &refs);
        proof {
            if r is Ok {
                crate::catalog::lemma_without_shape(old(self).catalog@, word_id as int);
                assert forall|i: int| 0 <= i < self.challenges_view().len() implies has_word_id(
                    self.catalog@,
                    (#[trigger] self.challenges_view()[i]).word_id,
                ) by {
                    let wid = self.challenges_view()[i].word_id;
                    assert(refs@[i] == wid);
                    assert(refs@.contains(wid as i64));
                    assert(wid != word_id as int);
                    lemma_without_keeps_other(old(self).catalog@, word_id as int, wid);
                }
            }
        }
        r
    }

    /// The word ids the challenges reference, in challenge order.
    fn referenced_word_ids(&self) -> (r: Vec<i64>)
        ensures
            r@.len() == self.challenges_view().len(),
            forall|i: int|
                0 <= i < r@.len() ==> r@[i] as int == (#[trigger] self.challenges_view()[i]).word_id,
            forall|id: i64|
                r@.contains(id) <==> references_word(self.challenges_view(), id as int),
    {
        let n = self.challenges.len();
        let mut out: Vec<i64> = Vec::new();
        let mut i: usize = 0;
        while i < n
            invariant
                n == self.challenges@.len(),
                i <= n,
                out@.len() == i,
                forall|j: int|
                    0 <= j < i ==> out@[j] as int == (#[trigger] self.challenges_view()[j]).word_id,
            decreases n - i,
        {
            proof {
                assert(self.challenges_view()[i as int] == self.challenges@[i as int]@);
            }
            out.push(self.challenges[i].word_id);
            i = i + 1;
        }
        proof {
            assert forall|id: i64|
                out@.contains(id) <==> references_word(self.challenges_view(), id as int) by {
                if out@.contains(id) {
                    let j = choose|j: int| 0 <= j < out@.len() && out@[j] == id;
                    assert(self.challenges_view()[j].word_id == id as int);
                }
                if references_word(self.challenges_view(), id as int) {
                    let j = choose|j: int|
                        0 <= j < self.challenges_view().len() && (
                        #[trigger] self.challenges_view()[j]).word_id == id as int;
                    assert(out@[j] == id);
                }
            }
        }
        out
    }
}

/// A challenge joined with a word row: the word's text, class and
/// definition beside the challenge's own fields.
pub open spec fn joined_view(ch: ChallengeRowView, w: WordRowView) -> ChallengeView {
    ChallengeView {
        id: ch.id,
        word: w.word,
        class: w.class,
        definition: w.definition,
        answer: ch.answer,
        corrected_answer: ch.corrected_answer,
        score: ch.score,
        created_at: ch.created_at,
        updated_at: ch.updated_at,
    }
}

/// The challenges joined with their words, in challenge order; one whose
/// word id no longer resolves is left out.
pub open spec fn joined_challenges(
    cat: Seq<WordRowView>,
    chs: Seq<ChallengeRowView>,
) -> Seq<ChallengeView>
    decreases chs.len(),
{
    if chs.len() == 0 {
        Seq::<ChallengeView>::empty()
    } else {
        let prefix = joined_challenges(cat, chs.drop_last());
        let ch = chs.last();
        if has_word_id(cat, ch.word_id) {
            prefix.push(joined_view(ch, row_for_id(cat, ch.word_id)))
        } else {
            prefix
        }
    }
}

/// One more challenge joins by one step.
pub proof fn lemma_joined_extend(cat: Seq<WordRowView>, chs: Seq<ChallengeRowView>, i: int)
    requires
        0 <= i < chs.len(),
    ensures
        joined_challenges(cat, chs.subrange(0, i + 1)) == if has_word_id(cat, chs[i].word_id) {
            joined_challenges(cat, chs.subrange(0, i)).push(
                joined_view(chs[i], row_for_id(cat, chs[i].word_id)),
            )
        } else {
            joined_challenges(cat, chs.subrange(0, i))
        },
{
    let t = chs.subrange(0, i + 1);
    assert(t.drop_last() =~= chs.subrange(0, i));
    assert(t.last() == chs[i]);
}

/// Joins one challenge row with its word row from the catalog.
fn join_challenge(catalog: &WordCatalog, ch: &ChallengeRow) -> (r: Challenge)
    requires
        catalog.wf(),
        has_word_id(catalog@, ch@.word_id),
    ensures
        r@ == joined_view(ch@, row_for_id(catalog@, ch@.word_id)),
{
    match catalog.find_by_id(ch.word_id) {
        Option::Some(w) => {
            proof {
                lemma_row_for_id_unique(catalog@, w@);
            }
            Challenge {
                id: ch.id,
                word: w.word.clone(),
                class: w.class.clone(),
                definition: w.definition.clone(),
                answer: match &ch.answer {
                    Option::Some(s) => Option::Some(s.clone()),
                    Option::None => Option::None,
                },
                corrected_answer: match &ch.corrected_answer {
                    Option::Some(s) => Option::Some(s.clone()),
                    Option::None => Option::None,
                },
                score: ch.score,
                created_at: ch.created_at.clone(),
                updated_at: ch.updated_at.clone(),
            }
        },
        Option::None => {
            proof {
                assert(false);
            }
            Challenge {
                id: ch.id,
                word: String::new(),
                class: String::new(),
                definition: String::new(),
                answer: Option::None,
                corrected_answer: Option::None,
                score: Option::None,
                created_at: String::new(),
                updated_at: String::new(),
            }
        },
    }
}

impl WordStore {
    /// Creates a challenge for a word. Fails with `ConstraintViolation`,
    /// leaving the store unchanged, exactly when no word has the id.
    pub fn create_challenge(&mut self, word_id: i64, now: &str) -> (r: Result<
        i64,
        WordStoreError,
    >)
        requires
            old(self).wf(),
            old(self).next_challenge_id < i64::MAX,
        ensures
            final(self).wf(),
            r is Ok <==> has_word_id(old(self).catalog@, word_id as int),
            r is Err ==> *final(self) == *old(self) && r == Err::<i64, WordStoreError>(
                WordStoreError::ConstraintViolation,
            ),
            r matches Ok(id) ==> ({
                &&& id == old(self).next_challenge_id
                &&& final(self).next_challenge_id == id + 1
                &&& final(self).challenges_view() == old(self).challenges_view().push(
                    ChallengeRowView {
                        id: id as int,
                        word_id: word_id as int,
                        answer: Option::None,
                        corrected_answer: Option::None,
                        score: Option::None,
                        created_at: now@,
                        updated_at: now@,
                    },
                )
                &&& final(self).catalog == old(self).catalog
                &&& final(self).index == old(self).index
            }),
    {
        if self.catalog.find_by_id(word_id).is_none() {
            return Result::Err(WordStoreError::ConstraintViolation);
        }
        let id = self.next_challenge_id;
        let row = ChallengeRow {
            id,
            word_id,
            answer: Option::None,
            corrected_answer: Option::None,
            score: Option::None,
            created_at: now.to_owned(),
            updated_at: now.to_owned(),
        };
        proof {
            lemma_crows_push(self.challenges@, row);
        }
        self.challenges.push(row);
        self.next_challenge_id = id + 1;
        Result::Ok(id)
    }

    /// The challenge with the given id, joined with its word.
    pub fn query_challenge(&self, challenge_id: i64) -> (r: Option<Challenge>)
        requires
            self.wf(),
        ensures
            r is Some <==> has_challenge_id(self.challenges_view(), challenge_id as int),
            r matches Some(c) ==> exists|i: int|
                0 <= i < self.challenges_view().len() && (#[trigger] self.challenges_view()[i]).id
                    == challenge_id as int && c@ == joined_view(
                    self.challenges_view()[i],
                    row_for_id(self.catalog@, self.challenges_view()[i].word_id),
                ),
    {
        let n = self.challenges.len();
        let mut i: usize = 0;
        while i < n
            invariant
                self.wf(),
                n == self.challenges@.len(),
                i <= n,
                forall|j: int|
                    0 <= j < i ==> (#[trigger] self.challenges_view()[j]).id != challenge_id as int,
            decreases n - i,
        {
            proof {
                assert(self.challenges_view()[i as int] == self.challenges@[i as int]@);
            }
            if self.challenges[i].id == challenge_id {
                let c = join_challenge(&self.catalog, &self.challenges[i]);
                return Option::Some(c);
            }
            i = i + 1;
        }
        Option::None
    }

    /// All challenges joined with their words, in challenge order.
    pub fn query_all_challenges(&self) -> (r: Vec<Challenge>)
        requires
            self.wf(),
        ensures
            cviews_of(r@) == joined_challenges(self.catalog@, self.challenges_view()),
    {
        let ghost chs = self.challenges_view();
        let n = self.challenges.len();
        let mut out: Vec<Challenge> = Vec::new();
        let mut i: usize = 0;
        while i < n
            invariant
                self.wf(),
                chs == self.challenges_view(),
                n == self.challenges@.len(),
                i <= n,
                cviews_of(out@) == joined_challenges(self.catalog@, chs.subrange(0, i as int)),
            decreases n - i,
        {
            proof {
                assert(chs[i as int] == self.challenges@[i as int]@);
                lemma_joined_extend(self.catalog@, chs, i as int);
            }
            let c = join_challenge(&self.catalog, &self.challenges[i]);
            proof {
                lemma_cviews_push(out@, c);
            }
            out.push(c);
            assert(cviews_of(out@) == joined_challenges(self.catalog@, chs.subrange(0, i + 1)));
            i = i + 1;
        }
        assert(chs.subrange(0, n as int) =~= chs);
        out
    }

    /// Deletes a challenge by id and returns how many rows went away.
    pub fn delete_challenge(&mut self, challenge_id: i64) -> (r: u64)
        requires
            old(self).wf(),
        ensures
            final(self).wf(),
            final(self).challenges_view() == challenges_without_id(
                old(self).challenges_view(),
                challenge_id as int,
            ),
            r == old(self).challenges_view().len() - final(self).challenges_view().len(),
            final(self).catalog == old(self).catalog,
            final(self).index == old(self).index,
            final(self).next_challenge_id == old(self).next_challenge_id,
    {
        let ghost chs = self.challenges_view();
        let n = self.challenges.len();
        let mut kept: Vec<ChallengeRow> = Vec::new();
        let mut i: usize = 0;
        while i < n
            invariant
                chs == self.challenges_view(),
                n == self.challenges@.len(),
                i <= n,
                kept@.len() <= i,
                crows_of(kept@) == challenges_without_id(chs.subrange(0, i as int), challenge_id as int),
            decreases n - i,
        {
            let row = &self.challenges[i];
            proof {
                assert(chs[i as int] == row@);
                lemma_challenges_without_extend(chs, challenge_id as int, i as int);
            }
            if row.id != challenge_id {
                let c = row.clone();
                proof {
                    lemma_crows_push(kept@, c);
                }
                kept.push(c);
            }
            assert(crows_of(kept@) == challenges_without_id(
                chs.subrange(0, i + 1),
                challenge_id as int,
            ));
            i = i + 1;
        }
        proof {
            assert(chs.subrange(0, n as int) =~= chs);
            lemma_challenges_without_shape(chs, challenge_id as int);
            lemma_challenges_without_keeps_order(chs, challenge_id as int);
        }
        let removed = (n - kept.len()) as u64;
        self.challenges = kept;
        removed
    }
}

/// The ids of catalog rows lacking a vector row, in insertion order: what
/// a reconciliation pass has to replay.
pub open spec fn unindexed_ids(
    cat: Seq<WordRowView>,
    index: Seq<crate::index::VectorRowView>,
) -> Seq<int>
    decreases cat.len(),
{
    if cat.len() == 0 {
        Seq::<int>::empty()
    } else {
        let prefix = unindexed_ids(cat.drop_last(), index);
        if !index_has_word(index, cat.last().id) {
            prefix.push(cat.last().id)
        } else {
            prefix
        }
    }
}

/// One more catalog row extends the unindexed ids exactly when the index
/// lacks it.
proof fn lemma_unindexed_extend(
    cat: Seq<WordRowView>,
    index: Seq<crate::index::VectorRowView>,
    i: int,
)
    requires
        0 <= i < cat.len(),
    ensures
        unindexed_ids(cat.subrange(0, i + 1), index) == if !index_has_word(index, cat[i].id) {
            unindexed_ids(cat.subrange(0, i), index).push(cat[i].id)
        } else {
            unindexed_ids(cat.subrange(0, i), index)
        },
{
    let t = cat.subrange(0, i + 1);
    assert(t.drop_last() =~= cat.subrange(0, i));
    assert(t.last() == cat[i]);
}

impl WordStore {
    /// The catalog ids whose vector row is missing, in insertion order:
    /// the work list of a reconciliation pass.
    pub fn unindexed_word_ids(&self) -> (r: Vec<i64>)
        ensures
            r@.map_values(|x: i64| x as int) == unindexed_ids(self.catalog@, self.index@),
    {
        let ghost cat = self.catalog@;
        let n = self.catalog.rows.len();
        let mut out: Vec<i64> = Vec::new();
        let mut i: usize = 0;
        while i < n
            invariant
                cat == self.catalog@,
                n == self.catalog.rows@.len(),
                i <= n,
                out@.map_values(|x: i64| x as int) == unindexed_ids(
                    cat.subrange(0, i as int),
                    self.index@,
                ),
            decreases n - i,
        {
            let row = &self.catalog.rows[i];
            proof {
                assert(cat[i as int] == row@);
                lemma_unindexed_extend(cat, self.index@, i as int);
            }
            if !self.index.has_row_for(row.id) {
                let ghost prev = out@;
                out.push(row.id);
                proof {
                    assert(out@.map_values(|x: i64| x as int) =~= prev.map_values(
                        |x: i64| x as int,
                    ).push(row.id as int));
                }
            }
            i = i + 1;
        }
        assert(cat.subrange(0, n as int) =~= cat);
        out
    }

    /// Replays the vector append for one catalog word — the second,
    /// idempotent phase of the two-phase write. A word whose vector row
    /// exists is left alone; a missing word fails with
    /// `ConstraintViolation`; a malformed response fails with
    /// `ComputeError` and writes nothing.
    pub fn reconcile_word(&mut self, word_id: i64, meaning_response: &Vec<i64>) -> (r: Result<
        bool,
        WordStoreError,
    >)
        requires
            old(self).wf(),
        ensures
            final(self).wf(),
            !has_word_id(old(self).catalog@, word_id as int) ==> (*final(self) == *old(self) && r
                == Err::<bool, WordStoreError>(WordStoreError::ConstraintViolation)),
            (has_word_id(old(self).catalog@, word_id as int) && index_has_word(
                old(self).index@,
                word_id as int,
            )) ==> (*final(self) == *old(self) && r == Ok::<bool, WordStoreError>(false)),
            (has_word_id(old(self).catalog@, word_id as int) && !index_has_word(
                old(self).index@,
                word_id as int,
            ) && !valid_components(EmbeddingSpace::Meaning, meaning_response@)) ==> (*final(self)
                == *old(self) && r == Err::<bool, WordStoreError>(WordStoreError::ComputeError)),
            (has_word_id(old(self).catalog@, word_id as int) && !index_has_word(
                old(self).index@,
                word_id as int,
            ) && valid_components(EmbeddingSpace::Meaning, meaning_response@)) ==> ({
                &&& r == Ok::<bool, WordStoreError>(true)
                &&& final(self).index@ == old(self).index@.push(
                    crate::index::VectorRowView {
                        word_id: word_id as int,
                        word: row_for_id(old(self).catalog@, word_id as int).word,
                        meaning: meaning_response@,
                        ngram: crate::embedding::ngram_embedding(
                            crate::text::fold_seq(
                                row_for_id(old(self).catalog@, word_id as int).word,
                            ),
                        ),
                    },
                )
                &&& final(self).catalog == old(self).catalog
                &&& final(self).challenges == old(self).challenges
                &&& final(self).next_challenge_id == old(self).next_challenge_id
            }),
    {
        let text = match self.catalog.find_by_id(word_id) {
            Option::None => {
                return Result::Err(WordStoreError::ConstraintViolation);
            },
            Option::Some(w) => {
                proof {
                    lemma_row_for_id_unique(self.catalog@, w@);
                }
                w.word.clone()
            },
        };
        if self.index.has_row_for(word_id) {
            return Result::Ok(false);
        }
        match self.index.append(word_id, &text, meaning_response) {
            Result::Ok(()) => Result::Ok(true),
            Result::Err(e) => Result::Err(e),
        }
    }
}

/// Any word in the catalog is returned by an exact search for its own
/// text, whatever its case: the matching rows for that text contain it.
pub proof fn lemma_word_found_by_own_text(cat: Seq<WordRowView>, w: WordRowView)
    requires
        cat.contains(w),
    ensures
        matching_rows(cat, w.word).contains(w),
{
    let i = choose|i: int| 0 <= i < cat.len() && cat[i] == w;
    crate::text::lemma_text_matches_itself(w.word);
    crate::catalog::lemma_matching_contains(cat, w.word, i);
}

/// A catalog word's id appears in a fused search for its own text: the
/// fusion of the exact matches with any nearest-neighbour hits holds it.
pub proof fn lemma_fused_finds_word(cat: Seq<WordRowView>, w: WordRowView, hits: Seq<HitView>)
    requires
        cat.contains(w),
    ensures
        has_word_id(fuse_hits(cat, matching_rows(cat, w.word), hits), w.id),
{
    lemma_word_found_by_own_text(cat, w);
    let acc0 = matching_rows(cat, w.word);
    let i = choose|i: int| 0 <= i < acc0.len() && acc0[i] == w;
    lemma_fuse_keeps_prefix(cat, acc0, hits);
    assert(fuse_hits(cat, acc0, hits)[i] == w);
}

/// A fused search returns each word id at most once: fusing any hit
/// sequence into the exact matches of a catalog with pairwise-distinct
/// ids yields pairwise-distinct ids.
pub proof fn lemma_fused_unique_ids(cat: Seq<WordRowView>, query: Seq<char>, hits: Seq<HitView>)
    requires
        forall|i: int, j: int|
            0 <= i < j < cat.len() ==> (#[trigger] cat[i]).id < (#[trigger] cat[j]).id,
    ensures
        forall|i: int, j: int|
            0 <= i < j < fuse_hits(cat, matching_rows(cat, query), hits).len() ==> (
            #[trigger] fuse_hits(cat, matching_rows(cat, query), hits)[i]).id != (
            #[trigger] fuse_hits(cat, matching_rows(cat, query), hits)[j]).id,
{
    crate::catalog::lemma_matching_keeps_order(cat, query);
    lemma_fuse_distinct_ids(cat, matching_rows(cat, query), hits);
}

/// Deleting one id keeps every other present id present.
pub proof fn lemma_without_keeps_other(rows: Seq<WordRowView>, id: int, other: int)
    requires
        other != id,
        has_word_id(rows, other),
    ensures
        has_word_id(rows_without_id(rows, id), other),
    decreases rows.len(),
{
    if rows.len() == 0 {
    } else {
        let d = rows.drop_last();
        let f = rows_without_id(rows, id);
        let fd = rows_without_id(d, id);
        if rows.last().id == other {
            assert(f[f.len() - 1] == rows.last());
        } else {
            assert(has_word_id(d, other)) by {
                let j = choose|j: int| 0 <= j < rows.len() && (#[trigger] rows[j]).id == other;
                assert(d[j] == rows[j]);
            }
            lemma_without_keeps_other(d, id, other);
            let j = choose|j: int| 0 <= j < fd.len() && (#[trigger] fd[j]).id == other;
            if rows.last().id != id {
                assert(f[j] == fd[j]);
            }
        }
    }
}

} // verus!
