//! The vector index: an append-only table of one row per word, holding the
//! word's id and text together with one fixed-width vector per embedding
//! space, and answering nearest-neighbour queries.
//!
//! The distance metric is squared Euclidean distance over the integer
//! components; the same metric serves at append time and at query time.

use vstd::prelude::*;
use crate::embedding::{
    EmbeddingSpace, EmbeddingVector, valid_components, ngram_embedding, check_components,
    ngram_embed_text, COMPONENT_BOUND,
};
use crate::text::fold_seq;
use crate::WordStoreError;

verus! {

/// One row of the vector table: the word's id and text, plus one vector
/// per embedding space. Rows are written once and never patched.
pub struct VectorTableRow {
    pub word_id: i64,
    pub word: String,
    pub meaning: EmbeddingVector,
    pub ngram: EmbeddingVector,
}

/// The spec-level shape of one vector table row.
pub ghost struct VectorRowView {
    pub word_id: int,
    pub word: Seq<char>,
    pub meaning: Seq<i64>,
    pub ngram: Seq<i64>,
}

impl View for VectorTableRow {
    type V = VectorRowView;

    open spec fn view(&self) -> VectorRowView {
        VectorRowView {
            word_id: self.word_id as int,
            word: self.word@,
            meaning: self.meaning.components@,
            ngram: self.ngram.components@,
        }
    }
}

impl Clone for VectorTableRow {
    /// A clone carries the same row.
    fn clone(&self) -> (r: Self)
        ensures
            r@ == self@,
    {
        VectorTableRow {
            word_id: self.word_id,
            word: self.word.clone(),
            meaning: EmbeddingVector {
                space: self.meaning.space,
                components: self.meaning.components.clone(),
            },
            ngram: EmbeddingVector {
                space: self.ngram.space,
                components: self.ngram.components.clone(),
            },
        }
    }
}

/// Well-formed row: each vector has its space's width with components in
/// range.
pub open spec fn row_wf(v: VectorRowView) -> bool {
    &&& valid_components(EmbeddingSpace::Meaning, v.meaning)
    &&& valid_components(EmbeddingSpace::Ngram, v.ngram)
}

/// The vector a row holds for a space.
pub open spec fn row_components(v: VectorRowView, space: EmbeddingSpace) -> Seq<i64> {
    match space {
        EmbeddingSpace::Meaning => v.meaning,
        EmbeddingSpace::Ngram => v.ngram,
    }
}

/// The views of a sequence of rows, elementwise.
pub open spec fn vrows_of(s: Seq<VectorTableRow>) -> Seq<VectorRowView> {
    s.map_values(|r: VectorTableRow| r@)
}

/// Taking views commutes with appending one row.
pub proof fn lemma_vrows_push(s: Seq<VectorTableRow>, x: VectorTableRow)
    ensures
        vrows_of(s.push(x)) == vrows_of(s).push(x@),
{
    assert(vrows_of(s.push(x))[s.len() as int] == x@);
    assert(vrows_of(s.push(x)) =~= vrows_of(s).push(x@));
}

/// Squared Euclidean distance between two component sequences.
pub open spec fn sq_dist(a: Seq<i64>, b: Seq<i64>) -> int
    decreases a.len(),
{
    if a.len() == 0 || b.len() == 0 {
        0
    } else {
        let d = a.last() - b.last();
        d * d + sq_dist(a.drop_last(), b.drop_last())
    }
}

/// One more component pair adds its squared difference to the distance.
proof fn lemma_sq_dist_extend(a: Seq<i64>, b: Seq<i64>, i: int)
    requires
        0 <= i < a.len(),
        i < b.len(),
    ensures
        sq_dist(a.subrange(0, i + 1), b.subrange(0, i + 1)) == sq_dist(
            a.subrange(0, i),
            b.subrange(0, i),
        ) + (a[i] - b[i]) * (a[i] - b[i]),
{
    let ta = a.subrange(0, i + 1);
    let tb = b.subrange(0, i + 1);
    assert(ta.drop_last() =~= a.subrange(0, i));
    assert(tb.drop_last() =~= b.subrange(0, i));
    assert(ta.last() == a[i] && tb.last() == b[i]);
}

/// Computes the squared Euclidean distance of two equally long, bounded
/// component sequences.
pub fn sq_dist_exec(a: &Vec<i64>, b: &Vec<i64>) -> (d: u64)
    requires
        a@.len() == b@.len() <= 768,
        forall|i: int|
            0 <= i < a@.len() ==> -(COMPONENT_BOUND as int) <= #[trigger] a@[i]
                <= COMPONENT_BOUND as int,
        forall|i: int|
            0 <= i < b@.len() ==> -(COMPONENT_BOUND as int) <= #[trigger] b@[i]
                <= COMPONENT_BOUND as int,
    ensures
        d as int == sq_dist(a@, b@),
{
    let n = a.len();
    let mut acc: u64 = 0;
    let mut i: usize = 0;
    while i < n
        invariant
            n == a@.len() == b@.len(),
            n <= 768,
            i <= n,
            forall|j: int|
                0 <= j < n ==> -(COMPONENT_BOUND as int) <= #[trigger] a@[j]
                    <= COMPONENT_BOUND as int,
            forall|j: int|
                0 <= j < n ==> -(COMPONENT_BOUND as int) <= #[trigger] b@[j]
                    <= COMPONENT_BOUND as int,
            acc as int == sq_dist(a@.subrange(0, i as int), b@.subrange(0, i as int)),
            acc <= (i as u64) * 0x40000000000u64,
        decreases n - i,
    {
        let diff = a[i] - b[i];
        proof {
            assert(diff * diff <= 0x40000000000 && diff * diff >= 0) by (nonlinear_arith)
                requires
                    -2097152 <= diff <= 2097152,
            ;
            lemma_sq_dist_extend(a@, b@, i as int);
        }
        let term = diff * diff;
        acc = acc + (term as u64);
        i = i + 1;
    }
    assert(a@.subrange(0, n as int) =~= a@);
    assert(b@.subrange(0, n as int) =~= b@);
    acc
}

/// One nearest-neighbour hit: a row and its distance to the query.
pub struct NearestHit {
    pub distance: u64,
    pub row: VectorTableRow,
}

/// The spec-level shape of one hit.
pub ghost struct HitView {
    pub distance: int,
    pub row: VectorRowView,
}

impl View for NearestHit {
    type V = HitView;

    open spec fn view(&self) -> HitView {
        HitView { distance: self.distance as int, row: self.row@ }
    }
}

/// The views of a sequence of hits, elementwise.
pub open spec fn hits_of(s: Seq<NearestHit>) -> Seq<HitView> {
    s.map_values(|h: NearestHit| h@)
}

/// Taking views commutes with appending one hit.
pub proof fn lemma_hits_push(s: Seq<NearestHit>, x: NearestHit)
    ensures
        hits_of(s.push(x)) == hits_of(s).push(x@),
{
    assert(hits_of(s.push(x))[s.len() as int] == x@);
    assert(hits_of(s.push(x)) =~= hits_of(s).push(x@));
}

/// The distance from the query to a row of the index, for a space.
pub open spec fn dist_to(
    index: Seq<VectorRowView>,
    space: EmbeddingSpace,
    q: Seq<i64>,
    t: int,
) -> int {
    sq_dist(row_components(index[t], space), q)
}

/// A hit reports row `t` of the index, with its true distance.
pub open spec fn hit_matches(
    index: Seq<VectorRowView>,
    space: EmbeddingSpace,
    q: Seq<i64>,
    h: HitView,
    t: int,
) -> bool {
    h.row == index[t] && h.distance == dist_to(index, space, q, t)
}

/// The hit reports some row of the index, with its true distance.
pub open spec fn reports_row(
    index: Seq<VectorRowView>,
    space: EmbeddingSpace,
    q: Seq<i64>,
    h: HitView,
) -> bool {
    exists|t: int| 0 <= t < index.len() && #[trigger] hit_matches(index, space, q, h, t)
}

/// Some hit reports row `t`.
pub open spec fn hit_reported(
    index: Seq<VectorRowView>,
    space: EmbeddingSpace,
    q: Seq<i64>,
    hits: Seq<HitView>,
    t: int,
) -> bool {
    exists|i: int| 0 <= i < hits.len() && hit_matches(index, space, q, #[trigger] hits[i], t)
}

/// Row `t` is accounted for by the hits: either some hit reports it, or
/// it is at least as far from the query as every hit.
pub open spec fn row_accounted(
    index: Seq<VectorRowView>,
    space: EmbeddingSpace,
    q: Seq<i64>,
    hits: Seq<HitView>,
    t: int,
) -> bool {
    hit_reported(index, space, q, hits, t) || (forall|i: int|
        0 <= i < hits.len() ==> (#[trigger] hits[i]).distance <= dist_to(index, space, q, t))
}

/// What a nearest-neighbour query returns: one hit per index row up to
/// `k`, each a row of the index with its true distance, in non-decreasing
/// distance order; and no unreported row is nearer than a reported one.
pub open spec fn nearest_post(
    index: Seq<VectorRowView>,
    space: EmbeddingSpace,
    q: Seq<i64>,
    k: int,
    hits: Seq<HitView>,
) -> bool {
    &&& hits.len() == if k < index.len() {
        k
    } else {
        index.len() as int
    }
    &&& forall|i: int, j: int|
        0 <= i < j < hits.len() ==> (#[trigger] hits[i]).distance <= (#[trigger] hits[j]).distance
    &&& forall|i: int| 0 <= i < hits.len() ==> reports_row(index, space, q, #[trigger] hits[i])
    &&& forall|t: int| 0 <= t < index.len() ==> #[trigger] row_accounted(index, space, q, hits, t)
}

/// A nearest-neighbour answer has at most `k` hits, and is empty exactly
/// when the index is empty or `k` is zero — never an error.
pub proof fn lemma_nearest_post_size(
    index: Seq<VectorRowView>,
    space: EmbeddingSpace,
    q: Seq<i64>,
    k: int,
    hits: Seq<HitView>,
)
    requires
        k >= 0,
        nearest_post(index, space, q, k, hits),
    ensures
        hits.len() <= k,
        hits.len() == 0 <==> (index.len() == 0 || k == 0),
{
}

/// Whether the index holds a row for the given word id.
pub open spec fn index_has_word(index: Seq<VectorRowView>, id: int) -> bool {
    exists|i: int| 0 <= i < index.len() && (#[trigger] index[i]).word_id == id
}

/// Some pending work entry points at row `t`.
pub open spec fn in_work(work: Seq<(u64, usize)>, t: int) -> bool {
    exists|j: int| 0 <= j < work.len() && (#[trigger] work[j]).1 == t
}

/// The vector index.
pub struct VectorIndex {
    pub rows: Vec<VectorTableRow>,
}

impl View for VectorIndex {
    type V = Seq<VectorRowView>;

    open spec fn view(&self) -> Seq<VectorRowView> {
        vrows_of(self.rows@)
    }
}

impl VectorIndex {
    /// Well-formed: every row is well-formed.
    pub open spec fn wf(&self) -> bool {
        forall|i: int| 0 <= i < self@.len() ==> row_wf(#[trigger] self@[i])
    }

    /// An empty index.
    pub fn new() -> (r: VectorIndex)
        ensures
            r.wf(),
            r@ =~= Seq::<VectorRowView>::empty(),
    {
        VectorIndex { rows: Vec::new() }
    }

    /// How many rows the index holds.
    pub fn len(&self) -> (n: usize)
        ensures
            n == self@.len(),
    {
        self.rows.len()
    }

    /// Whether the index holds a row for the given word id.
    pub fn has_row_for(&self, word_id: i64) -> (r: bool)
        ensures
            r == index_has_word(self@, word_id as int),
    {
        let n = self.rows.len();
        let mut i: usize = 0;
        while i < n
            invariant
                n == self.rows@.len(),
                i <= n,
                forall|j: int| 0 <= j < i ==> (#[trigger] self@[j]).word_id != word_id as int,
            decreases n - i,
        {
            if self.rows[i].word_id == word_id {
                assert(self@[i as int].word_id == word_id as int);
                return true;
            }
            proof {
                assert(self@[i as int] == self.rows@[i as int]@);
            }
            i = i + 1;
        }
        false
    }

    /// Appends one row for a word: the ngram vector is computed here from
    /// the text, the meaning vector is the external model's response for
    /// the text, validated against the meaning width. A malformed response
    /// fails with `ComputeError` and leaves no partial row behind.
    pub fn append(&mut self, word_id: i64, word: &String, meaning_response: &Vec<i64>) -> (r:
        Result<(), WordStoreError>)
        requires
            old(self).wf(),
        ensures
            final(self).wf(),
            r is Ok <==> valid_components(EmbeddingSpace::Meaning, meaning_response@),
            r is Ok ==> final(self)@ == old(self)@.push(
                VectorRowView {
                    word_id: word_id as int,
                    word: word@,
                    meaning: meaning_response@,
                    ngram: ngram_embedding(fold_seq(word@)),
                },
            ),
            r is Err ==> *final(self) == *old(self) && r == Err::<(), WordStoreError>(
                WordStoreError::ComputeError,
            ),
    {
        if !check_components(EmbeddingSpace::Meaning, meaning_response) {
            return Err(WordStoreError::ComputeError);
        }
        let ngram = ngram_embed_text(word.as_str());
        let meaning = EmbeddingVector {
            space: EmbeddingSpace::Meaning,
            components: crate::embedding::copy_components(meaning_response),
        };
        let row = VectorTableRow { word_id, word: word.clone(), meaning, ngram };
        proof {
            lemma_vrows_push(self.rows@, row);
            assert(row_wf(row@));
        }
        self.rows.push(row);
        proof {
            assert forall|i: int| 0 <= i < self@.len() implies row_wf(#[trigger] self@[i]) by {
                if i < old(self)@.len() {
                    assert(self@[i] == old(self)@[i]);
                } else {
                    assert(self@[i] == self@.last());
                }
            }
        }
        Ok(())
    }

    /// The `k` index rows nearest to the query vector, by squared
    /// Euclidean distance in the query's space, nearest first. With fewer
    /// than `k` rows every row is returned; an empty index yields the
    /// empty sequence, never an error.
    pub fn nearest(&self, query: &EmbeddingVector, k: usize) -> (r: Vec<NearestHit>)
        requires
            self.wf(),
            query.wf(),
        ensures
            nearest_post(self@, query.space, query.components@, k as int, hits_of(r@)),
    {
        let ghost space = query.space;
        let ghost q = query.components@;
        let n = self.rows.len();
        let mut work: Vec<(u64, usize)> = Vec::new();
        let mut t: usize = 0;
        while t < n
            invariant
                n == self.rows@.len(),
                self.wf(),
                query.wf(),
                space == query.space,
                q == query.components@,
                t <= n,
                work@.len() == t,
                forall|j: int| 0 <= j < t ==> (#[trigger] work@[j]).1 == j,
                forall|j: int|
                    0 <= j < t ==> (#[trigger] work@[j]).0 as int == dist_to(self@, space, q, j),
            decreases n - t,
        {
            let row = &self.rows[t];
            proof {
                assert(self@[t as int] == row@);
                assert(row_wf(self@[t as int]));
            }
            let comps = match query.space {
                EmbeddingSpace::Meaning => &row.meaning.components,
                EmbeddingSpace::Ngram => &row.ngram.components,
            };
            let d = sq_dist_exec(comps, &query.components);
            work.push((d, t));
            t = t + 1;
        }
        let k2 = if k < n {
            k
        } else {
            n
        };
        proof {
            assert forall|w: int| 0 <= w < n implies in_work(work@, w) by {
                assert((work@[w]).1 == w);
            }
        }
        let mut hits: Vec<NearestHit> = Vec::new();
        let mut round: usize = 0;
        while round < k2
            invariant
                k2 <= n,
                n == self.rows@.len(),
                self.wf(),
                query.wf(),
                space == query.space,
                q == query.components@,
                round <= k2,
                hits@.len() == round,
                work@.len() == n - round,
                forall|j: int| 0 <= j < work@.len() ==> (#[trigger] work@[j]).1 < n,
                forall|j: int|
                    0 <= j < work@.len() ==> (#[trigger] work@[j]).0 as int == dist_to(
                        self@,
                        space,
                        q,
                        work@[j].1 as int,
                    ),
                forall|i: int|
                    0 <= i < round ==> reports_row(self@, space, q, #[trigger] hits_of(hits@)[i]),
                forall|i: int, j: int|
                    0 <= i < j < round ==> (#[trigger] hits_of(hits@)[i]).distance <= (
                    #[trigger] hits_of(hits@)[j]).distance,
                forall|i: int, j: int|
                    0 <= i < round && 0 <= j < work@.len() ==> (#[trigger] hits_of(
                        hits@,
                    )[i]).distance <= (#[trigger] work@[j]).0 as int,
                forall|w: int|
                    0 <= w < n ==> #[trigger] hit_reported(self@, space, q, hits_of(hits@), w)
                        || in_work(work@, w),
            decreases k2 - round,
        {
            let mut m: usize = 0;
            let mut j: usize = 1;
            while j < work.len()
                invariant
                    work@.len() >= 1,
                    m < j,
                    j <= work@.len(),
                    forall|j2: int| 0 <= j2 < j ==> (#[trigger] work@[m as int]).0 <= work@[j2].0,
                decreases work@.len() - j,
            {
                if work[j].0 < work[m].0 {
                    m = j;
                }
                j = j + 1;
            }
            let (d, ti) = work[m];
            let row = &self.rows[ti];
            proof {
                assert(self@[ti as int] == row@);
            }
            let hit = NearestHit { distance: d, row: row.clone() };
            let ghost prev_hits = hits@;
            let ghost prev_work = work@;
            proof {
                lemma_hits_push(hits@, hit);
            }
            hits.push(hit);
            work.swap_remove(m);
            proof {
                let hv = hits_of(hits@);
                let last = round as int;
                assert(hv[last].row == self@[ti as int] && hv[last].distance == d as int);
                assert(hit_matches(self@, space, q, hv[last], ti as int));
                assert(reports_row(self@, space, q, hv[last]));
                assert(forall|i: int| 0 <= i < last ==> hv[i] == hits_of(prev_hits)[i]);
                // every remaining work entry is one of the old entries
                assert forall|j2: int| 0 <= j2 < work@.len() implies exists|j3: int|
                    0 <= j3 < prev_work.len() && #[trigger] work@[j2] == prev_work[j3] by {
                    if j2 == m {
                        assert(work@[j2] == prev_work[prev_work.len() - 1]);
                    } else {
                        assert(work@[j2] == prev_work[j2]);
                    }
                }
                // the selected distance is a lower bound on what remains
                assert forall|j2: int| 0 <= j2 < work@.len() implies d as int <= (
                #[trigger] work@[j2]).0 as int by {
                    let j3 = choose|j3: int|
                        0 <= j3 < prev_work.len() && #[trigger] work@[j2] == prev_work[j3];
                    assert(prev_work[m as int].0 <= prev_work[j3].0);
                }
                // coverage carries over to the shrunk work list
                assert forall|w: int| 0 <= w < n implies #[trigger] hit_reported(
                    self@,
                    space,
                    q,
                    hv,
                    w,
                ) || in_work(work@, w) by {
                    if hit_reported(self@, space, q, hits_of(prev_hits), w) {
                        let i = choose|i: int|
                            0 <= i < hits_of(prev_hits).len() && hit_matches(
                                self@,
                                space,
                                q,
                                #[trigger] hits_of(prev_hits)[i],
                                w,
                            );
                        assert(hit_matches(self@, space, q, hv[i], w));
                    } else {
                        let j0 = choose|j0: int|
                            0 <= j0 < prev_work.len() && (#[trigger] prev_work[j0]).1 == w;
                        if j0 == m {
                            assert(hit_matches(self@, space, q, hv[last], w));
                        } else if j0 == prev_work.len() - 1 {
                            if m < prev_work.len() - 1 {
                                assert(work@[m as int] == prev_work[j0]);
                                assert(in_work(work@, w));
                            } else {
                                assert(hit_matches(self@, space, q, hv[last], w));
                            }
                        } else {
                            assert(work@[j0] == prev_work[j0]);
                            assert(in_work(work@, w));
                        }
                    }
                }
            }
            round = round + 1;
        }
        proof {
            assert forall|w: int| 0 <= w < n implies #[trigger] row_accounted(
                self@,
                space,
                q,
                hits_of(hits@),
                w,
            ) by {
                if !hit_reported(self@, space, q, hits_of(hits@), w) {
                    let j0 = choose|j0: int|
                        0 <= j0 < work@.len() && (#[trigger] work@[j0]).1 == w;
                    assert(work@[j0].0 as int == dist_to(self@, space, q, w));
                }
            }
        }
        hits
    }
}

} // verus!
