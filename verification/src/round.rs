//! Round outcome computation and score keeping.
//!
//! The elimination rule: a value submitted by more than one competitor is
//! eliminated for all of them; among the uniquely submitted values the
//! smallest wins.  The outcome lists the surviving competitor indices in
//! ascending order of their value; index 0 of that list, when present, is
//! the sole scored winner of the round.

use vstd::prelude::*;

verus! {

/// Number of occurrences of `v` among the submissions `s`.
pub open spec fn count_val(s: Seq<u32>, v: u32) -> nat
    decreases s.len(),
{
    if s.len() == 0 {
        0
    } else {
        count_val(s.drop_last(), v) + if s.last() == v {
            1nat
        } else {
            0nat
        }
    }
}

/// `v` was submitted by exactly one competitor.
pub open spec fn is_unique(s: Seq<u32>, v: u32) -> bool {
    count_val(s, v) == 1
}

pub proof fn lemma_count_ge_one(s: Seq<u32>, i: int)
    requires
        0 <= i < s.len(),
    ensures
        count_val(s, s[i]) >= 1,
    decreases s.len(),
{
    if i == s.len() - 1 {
    } else {
        lemma_count_ge_one(s.drop_last(), i);
        assert(s.drop_last()[i] == s[i]);
    }
}

pub proof fn lemma_count_two(s: Seq<u32>, i: int, j: int)
    requires
        0 <= i < j < s.len(),
        s[i] == s[j],
    ensures
        count_val(s, s[i]) >= 2,
    decreases s.len(),
{
    if j == s.len() - 1 {
        lemma_count_ge_one(s.drop_last(), i);
        assert(s.drop_last()[i] == s[i]);
    } else {
        lemma_count_two(s.drop_last(), i, j);
        assert(s.drop_last()[i] == s[i]);
    }
}

pub proof fn lemma_count_le_one_distinct(s: Seq<u32>, v: u32)
    requires
        forall|i: int, j: int| 0 <= i < j < s.len() ==> s[i] != s[j],
    ensures
        count_val(s, v) <= 1,
    decreases s.len(),
{
    if s.len() == 0 {
    } else {
        let d = s.drop_last();
        assert(forall|i: int, j: int| 0 <= i < j < d.len() ==> d[i] == s[i] && d[j] == s[j]);
        lemma_count_le_one_distinct(d, v);
        if s.last() == v {
            assert forall|i: int| 0 <= i < d.len() implies d[i] != v by {
                assert(s[i] != s[s.len() - 1]);
                assert(d[i] == s[i]);
            }
            lemma_count_none(d, v);
        }
    }
}

pub proof fn lemma_count_none(s: Seq<u32>, v: u32)
    requires
        forall|i: int| 0 <= i < s.len() ==> s[i] != v,
    ensures
        count_val(s, v) == 0,
    decreases s.len(),
{
    if s.len() == 0 {
    } else {
        let d = s.drop_last();
        assert(forall|i: int| 0 <= i < d.len() ==> d[i] == s[i]);
        lemma_count_none(d, v);
    }
}

/// The ascending-by-value list of surviving competitor indices for the
/// submissions `nums`: exactly the uniquely submitted values' submitters,
/// ordered by their value.
pub open spec fn outcome_matches(nums: Seq<u32>, winners: Seq<usize>) -> bool {
    &&& forall|k: int|
        0 <= k < winners.len() ==> (#[trigger] winners[k] as int) < nums.len() && is_unique(
            nums,
            nums[winners[k] as int],
        )
    &&& forall|j: int|
        0 <= j < nums.len() && is_unique(nums, #[trigger] nums[j]) ==> winners.contains(j as usize)
    &&& forall|k1: int, k2: int|
        0 <= k1 < k2 < winners.len() ==> nums[#[trigger] winners[k1] as int]
            < nums[#[trigger] winners[k2] as int]
}

/// Result of one round over the submitted value vector.
pub struct RoundOutcome {
    /// Surviving competitor indices, ascending by submitted value.
    pub winners: Vec<usize>,
}

/// Occurrences of `v` in `nums`.
fn count_occurrences(nums: &Vec<u32>, v: u32) -> (c: usize)
    ensures
        c as nat == count_val(nums@, v),
{
    let mut c: usize = 0;
    let mut j: usize = 0;
    while j < nums.len()
        invariant
            j <= nums@.len(),
            c <= j,
            c as nat == count_val(nums@.take(j as int), v),
        decreases nums@.len() - j,
    {
        proof {
            assert(nums@.take(j + 1 as int).drop_last() =~= nums@.take(j as int));
            assert(nums@.take(j + 1 as int).last() == nums@[j as int]);
        }
        if nums[j] == v {
            c = c + 1;
        }
        j = j + 1;
    }
    proof {
        assert(nums@.take(nums@.len() as int) =~= nums@);
    }
    c
}

/// Applies the elimination rule to one round's submissions.
pub fn compute_outcome(nums: &Vec<u32>) -> (o: RoundOutcome)
    ensures
        outcome_matches(nums@, o.winners@),
{
    let mut winners: Vec<usize> = Vec::new();
    let mut i: usize = 0;
    while i < nums.len()
        invariant
            i <= nums@.len(),
            forall|k: int|
                0 <= k < winners@.len() ==> (#[trigger] winners@[k] as int) < i && is_unique(
                    nums@,
                    nums@[winners@[k] as int],
                ),
            forall|j: int|
                0 <= j < i && is_unique(nums@, #[trigger] nums@[j]) ==> winners@.contains(
                    j as usize,
                ),
            forall|k1: int, k2: int|
                0 <= k1 < k2 < winners@.len() ==> nums@[#[trigger] winners@[k1] as int]
                    < nums@[#[trigger] winners@[k2] as int],
        decreases nums@.len() - i,
    {
        let v = nums[i];
        let c = count_occurrences(nums, v);
        if c == 1 {
            let mut p: usize = 0;
            while p < winners.len() && nums[winners[p]] < v
                invariant
                    p <= winners@.len(),
                    forall|k: int|
                        0 <= k < winners@.len() ==> (#[trigger] winners@[k] as int) < nums@.len(),
                    forall|k: int| 0 <= k < p ==> nums@[#[trigger] winners@[k] as int] < v,
                decreases winners@.len() - p,
            {
                p = p + 1;
            }
            proof {
                // every kept index holds a value other than v: two distinct
                // submitters of the same unique value would contradict
                // uniqueness
                assert forall|k: int| 0 <= k < winners@.len() implies nums@[winners@[k] as int] != v by {
                    if nums@[winners@[k] as int] == v {
                        if (winners@[k] as int) < i as int {
                            lemma_count_two(nums@, winners@[k] as int, i as int);
                        }
                    }
                }
                assert forall|k: int| p <= k < winners@.len() implies nums@[winners@[k] as int] > v by {
                    if p < winners@.len() {
                        assert(nums@[winners@[p as int] as int] >= v);
                        if k > p {
                            assert(nums@[winners@[p as int] as int] < nums@[winners@[k] as int]);
                        }
                    }
                }
            }
            let ghost old_winners = winners@;
            winners.insert(p, i);
            proof {
                old_winners.insert_ensures(p as int, i);
                assert forall|j: int|
                    0 <= j < i + 1 && is_unique(nums@, #[trigger] nums@[j]) implies winners@
                    .contains(j as usize) by {
                    if j == i {
                        assert(winners@[p as int] == i as usize);
                    } else {
                        assert(old_winners.contains(j as usize));
                        let idx = choose|idx: int|
                            0 <= idx < old_winners.len() && old_winners[idx] == j as usize;
                        if idx < p {
                            assert(winners@[idx] == j as usize);
                        } else {
                            assert(winners@[idx + 1] == j as usize);
                        }
                    }
                }
                assert forall|k1: int, k2: int| 0 <= k1 < k2 < winners@.len() implies nums@[winners@[k1] as int] < nums@[winners@[k2] as int] by {
                    if k2 < p {
                    } else if k1 == p {
                        assert(winners@[k1] == i as usize);
                        assert(winners@[k2] == old_winners[k2 - 1]);
                    } else if k2 == p {
                        assert(winners@[k1] == old_winners[k1]);
                    } else if k1 < p {
                        assert(winners@[k1] == old_winners[k1]);
                        assert(winners@[k2] == old_winners[k2 - 1]);
                    } else {
                        assert(winners@[k1] == old_winners[k1 - 1]);
                        assert(winners@[k2] == old_winners[k2 - 1]);
                    }
                }
            }
        } else {
            proof {
                assert forall|j: int|
                    0 <= j < i + 1 && is_unique(nums@, #[trigger] nums@[j]) implies winners@
                    .contains(j as usize) by {
                    if j == i {
                        assert(count_val(nums@, nums@[j]) != 1);
                    }
                }
            }
        }
        i = i + 1;
    }
    RoundOutcome { winners }
}

/// Per-competitor score list and round counter for one match.
pub struct Scoreboard {
    /// One entry per competitor, aligned with the client list.
    pub scores: Vec<u64>,
    /// Rounds recorded so far.
    pub rounds_played: u64,
}

impl Scoreboard {
    /// No score can exceed the number of rounds recorded.
    pub open spec fn wf(self) -> bool {
        forall|k: int| 0 <= k < self.scores@.len() ==> #[trigger] self.scores@[k] <= self.rounds_played
    }

    /// A fresh board for `n` competitors, all scores zero.
    pub fn new(n: usize) -> (s: Scoreboard)
        ensures
            s.wf(),
            s.scores@.len() == n,
            s.rounds_played == 0,
            forall|k: int| 0 <= k < n ==> #[trigger] s.scores@[k] == 0,
    {
        Scoreboard { scores: vec![0u64; n], rounds_played: 0 }
    }

    /// Credits the sole scored winner of a round, if any: exactly the first
    /// listed survivor gains one point, every other score is unchanged.
    pub fn record(&mut self, outcome: &RoundOutcome)
        requires
            old(self).wf(),
            old(self).rounds_played < u64::MAX,
            forall|k: int|
                0 <= k < outcome.winners@.len() ==> (#[trigger] outcome.winners@[k] as int) < old(
                    self,
                ).scores@.len(),
        ensures
            final(self).wf(),
            final(self).scores@.len() == old(self).scores@.len(),
            final(self).rounds_played == old(self).rounds_played + 1,
            outcome.winners@.len() == 0 ==> final(self).scores@ == old(self).scores@,
            outcome.winners@.len() > 0 ==> final(self).scores@ == old(self).scores@.update(
                outcome.winners@[0] as int,
                (old(self).scores@[outcome.winners@[0] as int] + 1) as u64,
            ),
    {
        self.rounds_played = self.rounds_played + 1;
        if outcome.winners.len() > 0 {
            let w = outcome.winners[0];
            let cur = self.scores[w];
            self.scores.set(w, cur + 1);
        }
    }
}

/// One round's scoring step: computes the outcome of the round's
/// submitted values and credits the sole scored winner, if any.
pub fn score_round(nums: &Vec<u32>, board: &mut Scoreboard) -> (o: RoundOutcome)
    requires
        old(board).wf(),
        old(board).rounds_played < u64::MAX,
        nums@.len() == old(board).scores@.len(),
    ensures
        outcome_matches(nums@, o.winners@),
        final(board).wf(),
        final(board).scores@.len() == old(board).scores@.len(),
        final(board).rounds_played == old(board).rounds_played + 1,
        o.winners@.len() == 0 ==> final(board).scores@ == old(board).scores@,
        o.winners@.len() > 0 ==> final(board).scores@ == old(board).scores@.update(
            o.winners@[0] as int,
            (old(board).scores@[o.winners@[0] as int] + 1) as u64,
        ),
{
    let o = compute_outcome(nums);
    board.record(&o);
    o
}

/// In any round at most one competitor's score changes, and a change is
/// exactly one point for the first listed survivor.
pub proof fn lemma_at_most_one_scored(before: Seq<u64>, after: Seq<u64>, winners: Seq<usize>)
    requires
        forall|k: int| 0 <= k < winners.len() ==> (#[trigger] winners[k] as int) < before.len(),
        winners.len() == 0 ==> after == before,
        winners.len() > 0 ==> after == before.update(
            winners[0] as int,
            (before[winners[0] as int] + 1) as u64,
        ),
        winners.len() > 0 ==> before[winners[0] as int] < u64::MAX,
    ensures
        forall|i: int, j: int|
            0 <= i < before.len() && 0 <= j < before.len() && #[trigger] after[i] != before[i]
                && #[trigger] after[j] != before[j] ==> i == j,
        forall|i: int|
            0 <= i < before.len() && #[trigger] after[i] != before[i] ==> winners.len() > 0 && i
                == winners[0] as int && after[i] == before[i] + 1,
{
}

/// With pairwise-distinct submissions every competitor survives and the
/// scored winner is the competitor holding the minimum value.
pub proof fn lemma_distinct_min_wins(nums: Seq<u32>, winners: Seq<usize>)
    requires
        outcome_matches(nums, winners),
        0 < nums.len() <= usize::MAX,
        forall|i: int, j: int| 0 <= i < j < nums.len() ==> nums[i] != nums[j],
    ensures
        winners.len() > 0,
        forall|i: int| 0 <= i < nums.len() ==> nums[winners[0] as int] <= #[trigger] nums[i],
{
    assert forall|i: int| 0 <= i < nums.len() implies is_unique(nums, #[trigger] nums[i]) by {
        lemma_count_ge_one(nums, i);
        lemma_count_le_one_distinct(nums, nums[i]);
    }
    assert(is_unique(nums, nums[0]));
    assert(winners.contains(0usize));
    assert forall|i: int| 0 <= i < nums.len() implies nums[winners[0] as int] <= #[trigger] nums[i] by {
        assert(is_unique(nums, nums[i]));
        assert(winners.contains(i as usize));
        let k = choose|k: int| 0 <= k < winners.len() && winners[k] == i as usize;
        if k > 0 {
            assert(nums[winners[0] as int] < nums[winners[k] as int]);
        }
    }
}

/// With every submitted value duplicated by another competitor, the round
/// has no winner.
pub proof fn lemma_all_duplicated_no_winner(nums: Seq<u32>, winners: Seq<usize>)
    requires
        outcome_matches(nums, winners),
        forall|i: int| 0 <= i < nums.len() ==> !is_unique(nums, #[trigger] nums[i]),
    ensures
        winners.len() == 0,
{
    if winners.len() > 0 {
        assert(is_unique(nums, nums[winners[0] as int]));
    }
}

/// An errored competitor submits the sentinel (the maximum representable
/// value).  It is never the scored winner of a round in which some other
/// competitor's real value is itself unique, nor of one in which the
/// sentinel appears more than once.  (When every real value is duplicated
/// and the sentinel is unique, the sentinel wins by the ordinary rule; such
/// rounds are excluded here.)
pub proof fn lemma_sentinel_never_beats_real(nums: Seq<u32>, winners: Seq<usize>, e: int)
    requires
        outcome_matches(nums, winners),
        nums.len() <= usize::MAX,
        0 <= e < nums.len(),
        nums[e] == u32::MAX,
        exists|j: int| 0 <= j < nums.len() && j != e && #[trigger] nums[j] != u32::MAX,
        count_val(nums, u32::MAX) != 1 || exists|j: int|
            0 <= j < nums.len() && #[trigger] nums[j] != u32::MAX && is_unique(nums, nums[j]),
    ensures
        winners.len() > 0 ==> winners[0] as int != e,
{
    if count_val(nums, u32::MAX) != 1 {
        if winners.len() > 0 && winners[0] as int == e {
            assert(is_unique(nums, nums[e]));
        }
    } else {
        let j = choose|j: int|
            0 <= j < nums.len() && #[trigger] nums[j] != u32::MAX && is_unique(nums, nums[j]);
        assert(winners.contains(j as usize));
        if winners.len() > 0 && winners[0] as int == e {
            let k = choose|k: int| 0 <= k < winners.len() && winners[k] == j as usize;
            assert(nums[winners[k] as int] == nums[j]);
            assert(k != 0);
            assert(nums[winners[0] as int] < nums[winners[k] as int]);
        }
    }
}

} // verus!
