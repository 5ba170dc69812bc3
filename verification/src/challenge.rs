//! Challenge rows: quiz attempts that reference word rows by id.
//!
//! Challenges are the dependent rows that block a word delete: a word a
//! challenge refers to cannot be removed. A challenge presented to a
//! caller is the join of the challenge row with its word row.

use vstd::prelude::*;

verus! {

/// One challenge row: its id, the referenced word id, the answer fields,
/// and timestamps.
pub struct ChallengeRow {
    pub id: i64,
    pub word_id: i64,
    pub answer: Option<String>,
    pub corrected_answer: Option<String>,
    pub score: Option<u8>,
    pub created_at: String,
    pub updated_at: String,
}

/// The spec-level shape of one challenge row.
pub ghost struct ChallengeRowView {
    pub id: int,
    pub word_id: int,
    pub answer: Option<Seq<char>>,
    pub corrected_answer: Option<Seq<char>>,
    pub score: Option<u8>,
    pub created_at: Seq<char>,
    pub updated_at: Seq<char>,
}

impl View for ChallengeRow {
    type V = ChallengeRowView;

    open spec fn view(&self) -> ChallengeRowView {
        ChallengeRowView {
            id: self.id as int,
            word_id: self.word_id as int,
            answer: match self.answer {
                Option::Some(s) => Option::Some(s@),
                Option::None => Option::None,
            },
            corrected_answer: match self.corrected_answer {
                Option::Some(s) => Option::Some(s@),
                Option::None => Option::None,
            },
            score: self.score,
            created_at: self.created_at@,
            updated_at: self.updated_at@,
        }
    }
}

impl Clone for ChallengeRow {
    /// A clone carries the same row.
    fn clone(&self) -> (r: Self)
        ensures
            r@ == self@,
    {
        ChallengeRow {
            id: self.id,
            word_id: self.word_id,
            answer: match &self.answer {
                Option::Some(s) => Option::Some(s.clone()),
                Option::None => Option::None,
            },
            corrected_answer: match &self.corrected_answer {
                Option::Some(s) => Option::Some(s.clone()),
                Option::None => Option::None,
            },
            score: self.score,
            created_at: self.created_at.clone(),
            updated_at: self.updated_at.clone(),
        }
    }
}

/// A challenge joined with its word: the word's text, class and
/// definition beside the challenge's own fields.
pub struct Challenge {
    pub id: i64,
    pub word: String,
    pub class: String,
    pub definition: String,
    pub answer: Option<String>,
    pub corrected_answer: Option<String>,
    pub score: Option<u8>,
    pub created_at: String,
    pub updated_at: String,
}

/// The spec-level shape of one joined challenge.
pub ghost struct ChallengeView {
    pub id: int,
    pub word: Seq<char>,
    pub class: Seq<char>,
    pub definition: Seq<char>,
    pub answer: Option<Seq<char>>,
    pub corrected_answer: Option<Seq<char>>,
    pub score: Option<u8>,
    pub created_at: Seq<char>,
    pub updated_at: Seq<char>,
}

impl View for Challenge {
    type V = ChallengeView;

    open spec fn view(&self) -> ChallengeView {
        ChallengeView {
            id: self.id as int,
            word: self.word@,
            class: self.class@,
            definition: self.definition@,
            answer: match self.answer {
                Option::Some(s) => Option::Some(s@),
                Option::None => Option::None,
            },
            corrected_answer: match self.corrected_answer {
                Option::Some(s) => Option::Some(s@),
                Option::None => Option::None,
            },
            score: self.score,
            created_at: self.created_at@,
            updated_at: self.updated_at@,
        }
    }
}

/// The views of a sequence of challenge rows, elementwise.
pub open spec fn crows_of(s: Seq<ChallengeRow>) -> Seq<ChallengeRowView> {
    s.map_values(|r: ChallengeRow| r@)
}

/// Taking views commutes with appending one row.
pub proof fn lemma_crows_push(s: Seq<ChallengeRow>, x: ChallengeRow)
    ensures
        crows_of(s.push(x)) == crows_of(s).push(x@),
{
    assert(crows_of(s.push(x))[s.len() as int] == x@);
    assert(crows_of(s.push(x)) =~= crows_of(s).push(x@));
}

/// The views of a sequence of joined challenges, elementwise.
pub open spec fn cviews_of(s: Seq<Challenge>) -> Seq<ChallengeView> {
    s.map_values(|c: Challenge| c@)
}

/// Taking views commutes with appending one joined challenge.
pub proof fn lemma_cviews_push(s: Seq<Challenge>, x: Challenge)
    ensures
        cviews_of(s.push(x)) == cviews_of(s).push(x@),
{
    assert(cviews_of(s.push(x))[s.len() as int] == x@);
    assert(cviews_of(s.push(x)) =~= cviews_of(s).push(x@));
}

/// The challenge rows left after deleting an id, in order.
pub open spec fn challenges_without_id(chs: Seq<ChallengeRowView>, id: int) -> Seq<
    ChallengeRowView,
>
    decreases chs.len(),
{
    if chs.len() == 0 {
        Seq::<ChallengeRowView>::empty()
    } else {
        let prefix = challenges_without_id(chs.drop_last(), id);
        if chs.last().id != id {
            prefix.push(chs.last())
        } else {
            prefix
        }
    }
}

/// One more row extends the kept rows exactly when its id differs.
pub proof fn lemma_challenges_without_extend(chs: Seq<ChallengeRowView>, id: int, i: int)
    requires
        0 <= i < chs.len(),
    ensures
        challenges_without_id(chs.subrange(0, i + 1), id) == if chs[i].id != id {
            challenges_without_id(chs.subrange(0, i), id).push(chs[i])
        } else {
            challenges_without_id(chs.subrange(0, i), id)
        },
{
    let t = chs.subrange(0, i + 1);
    assert(t.drop_last() =~= chs.subrange(0, i));
    assert(t.last() == chs[i]);
}

/// Deleting removes rows: the rest keep their order, each is a row of the
/// original sequence, and none has the deleted id.
pub proof fn lemma_challenges_without_shape(chs: Seq<ChallengeRowView>, id: int)
    ensures
        challenges_without_id(chs, id).len() <= chs.len(),
        forall|i: int|
            0 <= i < challenges_without_id(chs, id).len() ==> exists|k: int|
                0 <= k < chs.len() && #[trigger] challenges_without_id(chs, id)[i] == chs[k],
        forall|i: int|
            0 <= i < challenges_without_id(chs, id).len() ==> (#[trigger] challenges_without_id(
                chs,
                id,
            )[i]).id != id,
    decreases chs.len(),
{
    if chs.len() == 0 {
    } else {
        let d = chs.drop_last();
        lemma_challenges_without_shape(d, id);
        let fd = challenges_without_id(d, id);
        assert forall|i: int| 0 <= i < fd.len() implies exists|k: int|
            0 <= k < chs.len() && #[trigger] fd[i] == chs[k] by {
            let k = choose|k: int| 0 <= k < d.len() && #[trigger] fd[i] == d[k];
            assert(chs[k] == d[k]);
        }
        if chs.last().id != id {
            assert(challenges_without_id(chs, id)[fd.len() as int] == chs[chs.len() - 1]);
        }
    }
}

/// Deleting from rows with strictly increasing ids leaves strictly
/// increasing ids.
pub proof fn lemma_challenges_without_keeps_order(chs: Seq<ChallengeRowView>, id: int)
    requires
        forall|i: int, j: int|
            0 <= i < j < chs.len() ==> (#[trigger] chs[i]).id < (#[trigger] chs[j]).id,
    ensures
        forall|i: int, j: int|
            0 <= i < j < challenges_without_id(chs, id).len() ==> (
            #[trigger] challenges_without_id(chs, id)[i]).id < (#[trigger] challenges_without_id(
                chs,
                id,
            )[j]).id,
    decreases chs.len(),
{
    if chs.len() == 0 {
    } else {
        let d = chs.drop_last();
        lemma_challenges_without_keeps_order(d, id);
        lemma_challenges_without_shape(d, id);
        let fd = challenges_without_id(d, id);
        if chs.last().id != id {
            assert forall|i: int| 0 <= i < fd.len() implies fd[i].id < chs.last().id by {
                let k = choose|k: int| 0 <= k < d.len() && #[trigger] fd[i] == d[k];
                assert(chs[k].id < chs[chs.len() - 1].id);
            }
        }
    }
}

/// Whether some challenge references the given word id.
pub open spec fn references_word(chs: Seq<ChallengeRowView>, word_id: int) -> bool {
    exists|i: int| 0 <= i < chs.len() && (#[trigger] chs[i]).word_id == word_id
}

/// Whether some challenge has the given id.
pub open spec fn has_challenge_id(chs: Seq<ChallengeRowView>, id: int) -> bool {
    exists|i: int| 0 <= i < chs.len() && (#[trigger] chs[i]).id == id
}

} // verus!
