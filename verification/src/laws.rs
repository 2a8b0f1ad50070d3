//! The laws the state machine obeys, stated over the operation
//! classifications and transition relations and proved once and for all.

use vstd::prelude::*;
use crate::hashing::content_address;
use crate::pallet::Pallet;
use crate::pallet::end_check;
use crate::pallet::end_transition;
use crate::pallet::resolve_check;
use crate::pallet::resolve_is_full;
use crate::pallet::resolve_pop_count;
use crate::pallet::resolve_transition;
use crate::pallet::sat_add_u64;
use crate::pallet::submit_check;
use crate::pallet::submit_transition;
use crate::pallet::update_transition;
use crate::pallet::vote_check;
use crate::pallet::vote_transition;
use crate::tally::sum_dir;
use crate::types::Direction;
use crate::types::Error;
use crate::types::Post;

verus! {

/// A successful Submit stores the post immediately: both tallies are zero,
/// the voting window is the submission height plus the voting period, and
/// the post is open.
pub proof fn lemma_submit_creates_fresh_post(
    pre: Pallet,
    post: Pallet,
    who: u64,
    url: Seq<u8>,
    bond: u64,
)
    requires
        submit_transition(pre, post, who, url, bond),
        pre.now() + pre.cfg().voting_period <= u64::MAX,
    ensures
        post.post_at(content_address(url)) == Some(
            Post {
                submitter: who,
                bond,
                bull_votes: 0,
                bear_votes: 0,
                voting_until: (pre.now() + pre.cfg().voting_period) as u64,
                ended: false,
            },
        ),
{
    assert(sat_add_u64(pre.now(), pre.cfg().voting_period) == (pre.now()
        + pre.cfg().voting_period) as u64);
}

/// Submit is idempotent-rejecting: while a post with the same content
/// exists, a second Submit of it, with any valid bond, is classified
/// `PostAlreadyExists`.
pub proof fn lemma_submit_rejects_duplicate(p: Pallet, who: u64, url: Seq<u8>, bond: u64)
    requires
        url.len() > 0,
        url.len() <= p.cfg().max_url_length as int,
        bond as int >= p.cfg().bond_minimum as int,
        p.post_at(content_address(url)) is Some,
    ensures
        submit_check(p, who, url, bond) == Some(Error::PostAlreadyExists),
{
}

/// The two lemmas above chained: right after a successful Submit, a second
/// Submit of the same content always fails with `PostAlreadyExists`.
pub proof fn lemma_submit_idempotent_rejecting(
    pre: Pallet,
    mid: Pallet,
    who1: u64,
    who2: u64,
    url: Seq<u8>,
    bond1: u64,
    bond2: u64,
)
    requires
        submit_check(pre, who1, url, bond1) is None,
        submit_transition(pre, mid, who1, url, bond1),
        mid.cfg() == pre.cfg(),
        bond2 as int >= pre.cfg().bond_minimum as int,
    ensures
        submit_check(mid, who2, url, bond2) == Some(Error::PostAlreadyExists),
{
}

/// After a successful first-time vote, the post's tallies equal the sums
/// of the active votes in each direction.
pub proof fn lemma_vote_preserves_tally_invariant(
    pre: Pallet,
    post: Pallet,
    who: u64,
    url: Seq<u8>,
    amount: u64,
    direction: Direction,
)
    requires
        vote_transition(pre, post, who, url, amount, direction),
    ensures
        post.post_at(content_address(url)).unwrap().bull_votes as int == sum_dir(
            post.votes_of(content_address(url)),
            Direction::Bullish,
        ),
        post.post_at(content_address(url)).unwrap().bear_votes as int == sum_dir(
            post.votes_of(content_address(url)),
            Direction::Bearish,
        ),
{
}

/// After a successful vote update, the post's tallies equal the sums of
/// the active votes in each direction.
pub proof fn lemma_update_preserves_tally_invariant(
    pre: Pallet,
    post: Pallet,
    who: u64,
    url: Seq<u8>,
    amount: u64,
    direction: Direction,
)
    requires
        update_transition(pre, post, who, url, amount, direction),
    ensures
        post.post_at(content_address(url)).unwrap().bull_votes as int == sum_dir(
            post.votes_of(content_address(url)),
            Direction::Bullish,
        ),
        post.post_at(content_address(url)).unwrap().bear_votes as int == sum_dir(
            post.votes_of(content_address(url)),
            Direction::Bearish,
        ),
{
}

/// Voting on an existing post after its window has closed, with otherwise
/// valid inputs, is always classified `VotingEnded`.
pub proof fn lemma_vote_after_deadline_fails(
    p: Pallet,
    who: u64,
    url: Seq<u8>,
    amount: u64,
    direction: Direction,
)
    requires
        url.len() > 0,
        url.len() <= p.cfg().max_url_length as int,
        amount as int >= p.cfg().vote_minimum as int,
        p.post_at(content_address(url)) is Some,
        p.now() >= p.post_at(content_address(url)).unwrap().voting_until,
    ensures
        vote_check(p, who, url, amount, direction) == Some(Error::VotingEnded),
{
}

/// Ending an existing post before its window has closed, with otherwise
/// valid inputs, is always classified `VotingStillOngoing`.
pub proof fn lemma_end_before_deadline_fails(p: Pallet, url: Seq<u8>)
    requires
        url.len() > 0,
        url.len() <= p.cfg().max_url_length as int,
        p.post_at(content_address(url)) is Some,
        p.now() < p.post_at(content_address(url)).unwrap().voting_until,
    ensures
        end_check(p, url) == Some(Error::VotingStillOngoing),
{
}

/// End is exactly-once: right after a successful End, at an unchanged
/// clock, a second End of the same post fails with `PostAlreadyEnded`.
pub proof fn lemma_end_exactly_once(pre: Pallet, mid: Pallet, url: Seq<u8>)
    requires
        end_check(pre, url) is None,
        end_transition(pre, mid, url),
        mid.cfg() == pre.cfg(),
        mid.now() == pre.now(),
    ensures
        end_check(mid, url) == Some(Error::PostAlreadyEnded),
{
}

/// Resolving an existing post that has not been ended, with otherwise
/// valid inputs, is always classified `PostUnended`.
pub proof fn lemma_resolve_before_end_fails(p: Pallet, url: Seq<u8>)
    requires
        url.len() > 0,
        url.len() <= p.cfg().max_url_length as int,
        p.post_at(content_address(url)) is Some,
        !p.post_at(content_address(url)).unwrap().ended,
    ensures
        resolve_check(p, url) == Some(Error::PostUnended),
{
}

/// Resolve does bounded work and deletes the post exactly on a full
/// drain: one call unfreezes at most the configured limit of votes, the
/// post disappears if and only if the call drained everything, and
/// otherwise exactly one limit's worth of votes has left the list.
pub proof fn lemma_resolve_drains_boundedly(pre: Pallet, post: Pallet, url: Seq<u8>)
    requires
        resolve_check(pre, url) is None,
        resolve_transition(pre, post, url),
    ensures
        resolve_pop_count(pre, content_address(url)) <= pre.cfg().unfreeze_limit as int,
        post.post_at(content_address(url)) is None <==> resolve_is_full(pre, content_address(url)),
        !resolve_is_full(pre, content_address(url)) ==> post.votes_of(content_address(url)).len()
            == pre.votes_of(content_address(url)).len() - pre.cfg().unfreeze_limit as int,
        pre.cfg().unfreeze_limit >= 1 && pre.votes_of(content_address(url)).len() > 0 ==> (
        post.post_at(content_address(url)) is None || post.votes_of(content_address(url)).len()
            < pre.votes_of(content_address(url)).len()),
{
    let id = content_address(url);
    if !resolve_is_full(pre, id) {
        assert(post.votes_entry(id) == Some(
            pre.votes_of(id).subrange(
                0,
                pre.votes_of(id).len() - resolve_pop_count(pre, id),
            ),
        ));
    }
}

/// A run of successful Resolve calls on one post: each step passes the
/// classification, moves the state by the transition relation, and keeps
/// the configuration.
pub open spec fn resolve_chain(states: Seq<Pallet>, url: Seq<u8>) -> bool
    decreases states.len(),
{
    states.len() <= 1 || (resolve_check(states[0], url) is None && resolve_transition(
        states[0],
        states[1],
        url,
    ) && states[1].cfg() == states[0].cfg() && resolve_chain(states.drop_first(), url))
}

/// Repeated Resolve calls drain any ended post: a run of successful calls
/// whose length covers the voter backlog (calls times `UnfreezeLimit` at
/// least the number of active votes) ends with the post deleted.
pub proof fn lemma_resolve_repeated_calls_drain(states: Seq<Pallet>, url: Seq<u8>)
    requires
        states.len() >= 2,
        resolve_chain(states, url),
        (states.len() - 1) * states[0].cfg().unfreeze_limit as int >= states[0].votes_of(
            content_address(url),
        ).len(),
    ensures
        states.last().post_at(content_address(url)) is None,
    decreases states.len(),
{
    let id = content_address(url);
    let m = states.len() as int;
    let s0 = states[0];
    let s1 = states[1];
    let limit = s0.cfg().unfreeze_limit as int;
    let n0 = s0.votes_of(id).len() as int;
    let rest = states.drop_first();
    assert(rest[0] == s1);
    if m == 2 {
        assert(1 * limit == limit) by (nonlinear_arith);
        assert(resolve_is_full(s0, id));
        assert(states.last() == s1);
    } else if resolve_is_full(s0, id) {
        // The first call already deleted the post and its votes; the rest
        // of the run keeps it that way.
        assert(s1.post_at(id) is None && s1.votes_entry(id) is None);
        assert(s1.votes_of(id).len() == 0);
        assert((rest.len() - 1) * limit >= 0) by (nonlinear_arith)
            requires
                rest.len() >= 2,
                limit >= 0,
        ;
        lemma_resolve_repeated_calls_drain(rest, url);
        assert(rest.last() == states.last());
    } else {
        assert(resolve_pop_count(s0, id) == limit);
        assert(s1.votes_entry(id) == Some(s0.votes_of(id).subrange(0, n0 - limit)));
        assert(s1.votes_of(id).len() == n0 - limit);
        assert((m - 2) * limit == (m - 1) * limit - limit) by (nonlinear_arith);
        lemma_resolve_repeated_calls_drain(rest, url);
        assert(rest.last() == states.last());
    }
}

} // verus!
