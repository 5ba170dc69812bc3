//! Embedding spaces, fixed-width vectors, and the two embedding functions.
//!
//! A vector's components are integers in fixed-point form: the store keeps
//! 32-bit floats, and the unverified front end converts between the two
//! representations at the boundary. Every component is kept within
//! `COMPONENT_BOUND`, which lets distance computations stay within `u64`.
//!
//! The *meaning* space is populated by an external text-embedding model;
//! the model call is made by the caller, and `compute_source_embeddings`
//! validates the response batch (count, width, range) and rejects a
//! malformed batch whole — it is never truncated or padded. The *ngram*
//! space is computed here, deterministically, from character trigram
//! counts of the case-folded text.

use vstd::prelude::*;
use crate::text::{fold_seq, fold_str};
use crate::WordStoreError;

verus! {

/// Width of a meaning-space vector.
pub const MEANING_WIDTH: usize = 768;

/// Width of an ngram-space vector.
pub const NGRAM_WIDTH: usize = 150;

/// Largest absolute value a vector component may take. With widths at most
/// 768, squared distances then fit comfortably in `u64`.
pub const COMPONENT_BOUND: i64 = 1048576;

/// The declared type of a table column: the source text column is `Utf8`,
/// each embedding column is a fixed-size list of the space's width.
#[derive(Clone, Copy, PartialEq, Eq, Structural, Debug)]
pub enum ColumnKind {
    Utf8,
    FixedSizeList(usize),
}

/// The two embedding spaces of the index.
#[derive(Clone, Copy, PartialEq, Eq, Structural, Debug)]
pub enum EmbeddingSpace {
    Meaning,
    Ngram,
}

/// The declared vector width of an embedding space.
pub open spec fn spec_width_of(space: EmbeddingSpace) -> int {
    match space {
        EmbeddingSpace::Meaning => 768,
        EmbeddingSpace::Ngram => 150,
    }
}

/// The declared vector width of an embedding space.
pub fn width_of(space: EmbeddingSpace) -> (w: usize)
    ensures
        w == spec_width_of(space),
{
    match space {
        EmbeddingSpace::Meaning => MEANING_WIDTH,
        EmbeddingSpace::Ngram => NGRAM_WIDTH,
    }
}

/// A sequence of components is valid for a space: the declared width,
/// every component within the bound.
pub open spec fn valid_components(space: EmbeddingSpace, s: Seq<i64>) -> bool {
    &&& s.len() == spec_width_of(space)
    &&& forall|i: int|
        0 <= i < s.len() ==> -(COMPONENT_BOUND as int) <= #[trigger] s[i] <= COMPONENT_BOUND as int
}

/// A fixed-width embedding vector, tagged with its space.
pub struct EmbeddingVector {
    pub space: EmbeddingSpace,
    pub components: Vec<i64>,
}

impl EmbeddingVector {
    /// Well-formed: the component sequence is valid for the tagged space.
    pub open spec fn wf(&self) -> bool {
        valid_components(self.space, self.components@)
    }
}

/// Checks one response row against a space's width and component bound.
pub fn check_components(space: EmbeddingSpace, row: &Vec<i64>) -> (ok: bool)
    ensures
        ok == valid_components(space, row@),
{
    let w = width_of(space);
    if row.len() != w {
        return false;
    }
    let mut i: usize = 0;
    while i < w
        invariant
            w == spec_width_of(space),
            row@.len() == w,
            i <= w,
            forall|j: int|
                0 <= j < i ==> -(COMPONENT_BOUND as int) <= #[trigger] row@[j]
                    <= COMPONENT_BOUND as int,
        decreases w - i,
    {
        let c = row[i];
        if c < -COMPONENT_BOUND || c > COMPONENT_BOUND {
            return false;
        }
        i = i + 1;
    }
    true
}

/// The bucket a character trigram is counted in.
pub open spec fn trigram_bucket(c0: char, c1: char, c2: char) -> int {
    (((c0 as u32) as int) * 961 + ((c1 as u32) as int) * 31 + ((c2 as u32) as int)) % 150
}

/// All 150 counts at zero.
pub open spec fn zero_counts() -> Seq<i64> {
    Seq::new(150, |i: int| 0i64)
}

/// One trigram observed: its bucket's count goes up by one, saturating at
/// the component bound.
pub open spec fn bump(counts: Seq<i64>, b: int) -> Seq<i64> {
    counts.update(
        b,
        if counts[b] < COMPONENT_BOUND {
            (counts[b] + 1) as i64
        } else {
            counts[b]
        },
    )
}

/// The counts after the first `k` trigrams of `s` have been observed.
pub open spec fn ngram_counts_prefix(s: Seq<char>, k: int) -> Seq<i64>
    decreases k,
{
    if k <= 0 {
        zero_counts()
    } else {
        bump(
            ngram_counts_prefix(s, k - 1),
            trigram_bucket(s[k - 1], s[k], s[k + 1]),
        )
    }
}

/// How many trigrams a text of the given length has.
pub open spec fn trigram_count(len: nat) -> int {
    if len >= 3 {
        len - 2
    } else {
        0
    }
}

/// The ngram embedding of a (folded) character sequence: trigram counts
/// over 150 buckets, saturating at the component bound.
pub open spec fn ngram_embedding(s: Seq<char>) -> Seq<i64> {
    ngram_counts_prefix(s, trigram_count(s.len()))
}

/// Prefix counts have width 150 with every count in `[0, COMPONENT_BOUND]`.
pub proof fn lemma_ngram_counts_wf(s: Seq<char>, k: int)
    ensures
        ngram_counts_prefix(s, k).len() == 150,
        forall|i: int|
            0 <= i < 150 ==> 0 <= #[trigger] ngram_counts_prefix(s, k)[i] <= COMPONENT_BOUND as int,
    decreases k,
{
    if k <= 0 {
    } else {
        lemma_ngram_counts_wf(s, k - 1);
    }
}

/// The ngram embedding is a valid ngram-space component sequence.
pub proof fn lemma_ngram_embedding_valid(s: Seq<char>)
    ensures
        valid_components(EmbeddingSpace::Ngram, ngram_embedding(s)),
{
    lemma_ngram_counts_wf(s, trigram_count(s.len()));
}

/// Computes the ngram embedding of one text: fold the text, then count
/// character trigrams into 150 buckets.
pub fn ngram_embed_text(text: &str) -> (v: EmbeddingVector)
    ensures
        v.space == EmbeddingSpace::Ngram,
        v.wf(),
        v.components@ == ngram_embedding(fold_seq(text@)),
{
    let folded = fold_str(text);
    let ghost f = folded@;
    let mut counts: Vec<i64> = vec![0i64; 150];
    assert(counts@ =~= zero_counts());
    let n = folded.len();
    if n >= 3 {
        let mut p: usize = 0;
        while p < n - 2
            invariant
                n == f.len(),
                n >= 3,
                folded@ == f,
                p <= n - 2,
                counts@ == ngram_counts_prefix(f, p as int),
            decreases n - 2 - p,
        {
            proof {
                lemma_ngram_counts_wf(f, p as int);
            }
            let c0 = folded[p] as u32;
            let c1 = folded[p + 1] as u32;
            let c2 = folded[p + 2] as u32;
            let b = (((c0 as u64) * 961 + (c1 as u64) * 31 + (c2 as u64)) % 150) as usize;
            assert(b == trigram_bucket(f[p as int], f[p + 1], f[p + 2]));
            let old_count = counts[b];
            if old_count < COMPONENT_BOUND {
                counts.set(b, old_count + 1);
            }
            assert(counts@ =~= bump(ngram_counts_prefix(f, p as int), b as int));
            p = p + 1;
        }
        proof {
            lemma_ngram_counts_wf(f, n - 2);
        }
        assert(counts@ == ngram_embedding(f));
    } else {
        assert(counts@ == ngram_embedding(f));
    }
    EmbeddingVector { space: EmbeddingSpace::Ngram, components: counts }
}

/// A batch of responses is valid for a space: one row per source value,
/// each row of the declared width with components in range.
pub open spec fn valid_batch(space: EmbeddingSpace, sources: Seq<Seq<char>>, rows: Seq<Seq<i64>>) -> bool {
    &&& rows.len() == sources.len()
    &&& forall|i: int| 0 <= i < rows.len() ==> valid_components(space, #[trigger] rows[i])
}

/// A result batch carries the given component rows in order, tagged with
/// the given space, each well-formed.
pub open spec fn batch_carries(space: EmbeddingSpace, rows: Seq<Seq<i64>>, out: Seq<EmbeddingVector>) -> bool {
    &&& out.len() == rows.len()
    &&& forall|i: int| 0 <= i < out.len() ==> (#[trigger] out[i]).space == space
    &&& forall|i: int| 0 <= i < out.len() ==> (#[trigger] out[i]).components@ == rows[i]
}

/// The semantic embedding function: source texts go to an external
/// text-embedding model identified by `model`; the caller makes the model
/// call and hands the response batch in, and this function admits it only
/// if it is exactly one 768-wide row per source text. A malformed batch is
/// rejected whole with `ComputeError`, never truncated or padded.
#[derive(Debug)]
pub struct MeaningEmbeddingFunction {
    pub model: String,
}

impl MeaningEmbeddingFunction {
    /// A meaning embedding function backed by the named external model.
    pub fn new(name: &str) -> (r: MeaningEmbeddingFunction)
        ensures
            r.model@ == name@,
    {
        MeaningEmbeddingFunction { model: name.to_owned() }
    }

    /// The registry name of this embedding function.
    pub fn name(&self) -> (r: &'static str)
        ensures
            r@ == "meaning"@,
    {
        "meaning"
    }

    /// The declared source column type.
    pub fn source_type(&self) -> (r: ColumnKind)
        ensures
            r == ColumnKind::Utf8,
    {
        ColumnKind::Utf8
    }

    /// The declared destination column type: a fixed-size list of width 768.
    pub fn dest_type(&self) -> (r: ColumnKind)
        ensures
            r == ColumnKind::FixedSizeList(768),
    {
        ColumnKind::FixedSizeList(MEANING_WIDTH)
    }

    /// Admits a model response batch for the source texts: succeeds exactly
    /// when the batch has one valid 768-wide row per text, and then yields
    /// the rows as meaning-space vectors in source order.
    pub fn compute_source_embeddings(&self, source: &Vec<String>, response: &Vec<Vec<i64>>) -> (r:
        Result<Vec<EmbeddingVector>, WordStoreError>)
        ensures
            r is Ok <==> valid_batch(
                EmbeddingSpace::Meaning,
                source.deep_view(),
                response.deep_view(),
            ),
            r matches Ok(out) ==> batch_carries(
                EmbeddingSpace::Meaning,
                response.deep_view(),
                out@,
            ) && forall|i: int| 0 <= i < out@.len() ==> (#[trigger] out@[i]).wf(),
            r is Err ==> r == Err::<Vec<EmbeddingVector>, WordStoreError>(
                WordStoreError::ComputeError,
            ),
    {
        accept_batch(EmbeddingSpace::Meaning, source, response)
    }

    /// Query-time embedding admission: the same contract as indexing-time
    /// admission; the same model must serve both, or nearest-neighbour
    /// search is meaningless.
    pub fn compute_query_embeddings(&self, input: &Vec<String>, response: &Vec<Vec<i64>>) -> (r:
        Result<Vec<EmbeddingVector>, WordStoreError>)
        ensures
            r is Ok <==> valid_batch(
                EmbeddingSpace::Meaning,
                input.deep_view(),
                response.deep_view(),
            ),
            r matches Ok(out) ==> batch_carries(
                EmbeddingSpace::Meaning,
                response.deep_view(),
                out@,
            ) && forall|i: int| 0 <= i < out@.len() ==> (#[trigger] out@[i]).wf(),
            r is Err ==> r == Err::<Vec<EmbeddingVector>, WordStoreError>(
                WordStoreError::ComputeError,
            ),
    {
        accept_batch(EmbeddingSpace::Meaning, input, response)
    }
}

/// Admits a response batch for a space; shared by indexing and querying.
fn accept_batch(space: EmbeddingSpace, source: &Vec<String>, response: &Vec<Vec<i64>>) -> (r:
    Result<Vec<EmbeddingVector>, WordStoreError>)
    ensures
        r is Ok <==> valid_batch(space, source.deep_view(), response.deep_view()),
        r matches Ok(out) ==> batch_carries(space, response.deep_view(), out@) && forall|i: int|
            0 <= i < out@.len() ==> (#[trigger] out@[i]).wf(),
        r is Err ==> r == Err::<Vec<EmbeddingVector>, WordStoreError>(WordStoreError::ComputeError),
{
    if response.len() != source.len() {
        return Err(WordStoreError::ComputeError);
    }
    let n = response.len();
    let mut out: Vec<EmbeddingVector> = Vec::new();
    let mut i: usize = 0;
    while i < n
        invariant
            n == response@.len(),
            n == source@.len(),
            i <= n,
            out@.len() == i,
            forall|j: int| 0 <= j < i ==> valid_components(space, response.deep_view()[j]),
            forall|j: int| 0 <= j < i ==> (#[trigger] out@[j]).space == space,
            forall|j: int| 0 <= j < i ==> (#[trigger] out@[j]).components@ == response.deep_view()[j],
        decreases n - i,
    {
        let row = &response[i];
        proof {
            assert(response.deep_view()[i as int] =~= response@[i as int]@);
        }
        if !check_components(space, row) {
            return Err(WordStoreError::ComputeError);
        }
        let copied = copy_components(row);
        out.push(EmbeddingVector { space, components: copied });
        i = i + 1;
    }
    Ok(out)
}

/// Copies one component row.
pub fn copy_components(row: &Vec<i64>) -> (r: Vec<i64>)
    ensures
        r@ == row@,
{
    let mut r: Vec<i64> = Vec::new();
    let n = row.len();
    let mut i: usize = 0;
    while i < n
        invariant
            n == row@.len(),
            i <= n,
            r@ =~= row@.subrange(0, i as int),
        decreases n - i,
    {
        r.push(row[i]);
        i = i + 1;
    }
    assert(r@ =~= row@);
    r
}

/// The lexical embedding function: a deterministic, local mapping from a
/// text to its 150-wide trigram-count vector. It has no external
/// dependency and never fails.
#[derive(Debug)]
pub struct NgramEmbeddingFunction {}

impl NgramEmbeddingFunction {
    /// The ngram embedding function.
    pub fn new() -> (r: NgramEmbeddingFunction) {
        NgramEmbeddingFunction {  }
    }

    /// The registry name of this embedding function.
    pub fn name(&self) -> (r: &'static str)
        ensures
            r@ == "ngram"@,
    {
        "ngram"
    }

    /// The declared source column type.
    pub fn source_type(&self) -> (r: ColumnKind)
        ensures
            r == ColumnKind::Utf8,
    {
        ColumnKind::Utf8
    }

    /// The declared destination column type: a fixed-size list of width 150.
    pub fn dest_type(&self) -> (r: ColumnKind)
        ensures
            r == ColumnKind::FixedSizeList(150),
    {
        ColumnKind::FixedSizeList(NGRAM_WIDTH)
    }

    /// Embeds a batch of source texts: one ngram vector per text, in order.
    /// A batch of N texts always yields exactly N vectors of width 150.
    pub fn compute_source_embeddings(&self, source: &Vec<String>) -> (r: Vec<EmbeddingVector>)
        ensures
            r@.len() == source@.len(),
            forall|i: int| 0 <= i < r@.len() ==> (#[trigger] r@[i]).space == EmbeddingSpace::Ngram,
            forall|i: int| 0 <= i < r@.len() ==> (#[trigger] r@[i]).wf(),
            forall|i: int|
                0 <= i < r@.len() ==> (#[trigger] r@[i]).components@ == ngram_embedding(
                    fold_seq(source.deep_view()[i]),
                ),
    {
        let n = source.len();
        let mut out: Vec<EmbeddingVector> = Vec::new();
        let mut i: usize = 0;
        while i < n
            invariant
                n == source@.len(),
                i <= n,
                out@.len() == i,
                forall|j: int| 0 <= j < i ==> (#[trigger] out@[j]).space == EmbeddingSpace::Ngram,
                forall|j: int| 0 <= j < i ==> (#[trigger] out@[j]).wf(),
                forall|j: int|
                    0 <= j < i ==> (#[trigger] out@[j]).components@ == ngram_embedding(
                        fold_seq(source.deep_view()[j]),
                    ),
            decreases n - i,
        {
            out.push(ngram_embed_text(source[i].as_str()));
            i = i + 1;
        }
        out
    }

    /// Query-time embedding: the same deterministic mapping as indexing.
    pub fn compute_query_embeddings(&self, input: &Vec<String>) -> (r: Vec<EmbeddingVector>)
        ensures
            r@.len() == input@.len(),
            forall|i: int| 0 <= i < r@.len() ==> (#[trigger] r@[i]).space == EmbeddingSpace::Ngram,
            forall|i: int| 0 <= i < r@.len() ==> (#[trigger] r@[i]).wf(),
            forall|i: int|
                0 <= i < r@.len() ==> (#[trigger] r@[i]).components@ == ngram_embedding(
                    fold_seq(input.deep_view()[i]),
                ),
    {
        self.compute_source_embeddings(input)
    }
}

} // verus!
