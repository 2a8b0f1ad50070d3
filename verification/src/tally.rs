//! Vote records and the tally sums over them.

use vstd::prelude::*;
use crate::types::Direction;

verus! {

/// One account's active vote on one post.
#[derive(Debug, PartialEq, Eq, Structural, Clone, Copy)]
pub struct VoteRec {
    pub voter: u64,
    pub amount: u64,
    pub direction: Direction,
}

/// The sum of the amounts of the votes cast in direction `d`.
pub open spec fn sum_dir(s: Seq<VoteRec>, d: Direction) -> int
    decreases s.len(),
{
    if s.len() == 0 {
        0
    } else {
        sum_dir(s.drop_last(), d) + if s.last().direction == d {
            s.last().amount as int
        } else {
            0
        }
    }
}

/// Tally sums are never negative.
pub proof fn lemma_sum_dir_nonneg(s: Seq<VoteRec>, d: Direction)
    ensures
        sum_dir(s, d) >= 0,
    decreases s.len(),
{
    if s.len() > 0 {
        lemma_sum_dir_nonneg(s.drop_last(), d);
    }
}

/// A vote's amount is at most the tally of its direction.
pub proof fn lemma_sum_dir_element(s: Seq<VoteRec>, d: Direction, i: int)
    requires
        0 <= i < s.len(),
        s[i].direction == d,
    ensures
        s[i].amount as int <= sum_dir(s, d),
    decreases s.len(),
{
    lemma_sum_dir_nonneg(s, d);
    if i == s.len() - 1 {
        lemma_sum_dir_nonneg(s.drop_last(), d);
    } else {
        lemma_sum_dir_element(s.drop_last(), d, i);
    }
}

/// Appending a vote adds its amount to the tally of its direction.
pub proof fn lemma_sum_dir_push(s: Seq<VoteRec>, d: Direction, r: VoteRec)
    ensures
        sum_dir(s.push(r), d) == sum_dir(s, d) + if r.direction == d {
            r.amount as int
        } else {
            0
        },
{
    assert(s.push(r).drop_last() =~= s);
}

/// Replacing the vote at `i` adjusts the tally by the contribution
/// difference.
pub proof fn lemma_sum_dir_update(s: Seq<VoteRec>, d: Direction, i: int, r: VoteRec)
    requires
        0 <= i < s.len(),
    ensures
        sum_dir(s.update(i, r), d) == sum_dir(s, d) - (if s[i].direction == d {
            s[i].amount as int
        } else {
            0
        }) + (if r.direction == d {
            r.amount as int
        } else {
            0
        }),
    decreases s.len(),
{
    if i == s.len() - 1 {
        assert(s.update(i, r).drop_last() =~= s.drop_last());
        assert(s.update(i, r).last() == r);
    } else {
        lemma_sum_dir_update(s.drop_last(), d, i, r);
        assert(s.update(i, r).drop_last() =~= s.drop_last().update(i, r));
        assert(s.update(i, r).last() == s.last());
    }
}

/// The tally of a prefix is at most the tally of the whole list.
pub proof fn lemma_sum_dir_prefix(s: Seq<VoteRec>, d: Direction, m: int)
    requires
        0 <= m <= s.len(),
    ensures
        sum_dir(s.subrange(0, m), d) <= sum_dir(s, d),
    decreases s.len() - m,
{
    if m == s.len() {
        assert(s.subrange(0, m) =~= s);
    } else {
        lemma_sum_dir_prefix(s, d, m + 1);
        assert(s.subrange(0, m) =~= s.subrange(0, m + 1).drop_last());
        assert(s.subrange(0, m + 1).len() > 0);
    }
}

} // verus!
