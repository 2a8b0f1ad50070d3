//! The lifecycle state machine: Submit, Vote, UpdateVote, End and Resolve,
//! over the post registry, the vote ledger and the model ledger.
//!
//! Every operation classifies its inputs first and mutates only once the
//! whole call is known to succeed, so a rejected call leaves the state
//! untouched. The `*_check` functions give that classification, and the
//! `*_transition` relations say exactly how a successful call moves the
//! state.

use vstd::prelude::*;
use crate::hashing::blake2_256;
use crate::hashing::content_address;
use crate::ledger::Account;
use crate::ledger::Ledger;
use crate::ledger::burn_applied;
use crate::ledger::freeze_applied;
use crate::ledger::freeze_reconciled;
use crate::ledger::hold_applied;
use crate::ledger::min_int;
use crate::ledger::mint_applied;
use crate::ledger::reducible_of;
use crate::ledger::release_applied;
use crate::ledger::sat_sub_int;
use crate::ledger::set_balance_applied;
use crate::ledger::thaw_applied;
use crate::ledger::total_of;
use crate::store::IdMap;
use crate::tally::VoteRec;
use crate::tally::sum_dir;
use crate::types::Config;
use crate::types::Direction;
use crate::types::Error;
use crate::types::Event;
use crate::types::FreezeReason;
use crate::types::HoldReason;
use crate::types::Post;
use crate::types::PostId;

verus! {

/// Saturating addition on the balance/height type.
pub open spec fn sat_add_u64(a: u64, b: u64) -> u64 {
    if a + b <= u64::MAX {
        (a + b) as u64
    } else {
        u64::MAX
    }
}

/// Some vote in `vs` belongs to `who`.
pub open spec fn has_voter(vs: Seq<VoteRec>, who: u64) -> bool {
    exists|i: int| 0 <= i < vs.len() && vs[i].voter == who
}

/// The index of `who`'s vote in `vs` (unique when voters are distinct).
pub open spec fn vote_index(vs: Seq<VoteRec>, who: u64) -> int {
    choose|i: int| 0 <= i < vs.len() && vs[i].voter == who
}

/// The vote of `who` in `vs`.
pub open spec fn vote_rec_of(vs: Seq<VoteRec>, who: u64) -> VoteRec {
    vs[vote_index(vs, who)]
}

/// No two votes belong to the same account.
pub open spec fn distinct_voters(vs: Seq<VoteRec>) -> bool {
    forall|i: int, j: int| 0 <= i < j < vs.len() ==> vs[i].voter != vs[j].voter
}

/// The consistency a post keeps with its votes: the tallies dominate the
/// sums of the active votes, and equal them exactly while the post is
/// open; the voter set is bounded and free of duplicates.
pub open spec fn post_votes_ok(p: Post, vs: Seq<VoteRec>, c: Config) -> bool {
    &&& sum_dir(vs, Direction::Bullish) <= p.bull_votes as int
    &&& sum_dir(vs, Direction::Bearish) <= p.bear_votes as int
    &&& !p.ended ==> sum_dir(vs, Direction::Bullish) == p.bull_votes as int && sum_dir(
        vs,
        Direction::Bearish,
    ) == p.bear_votes as int
    &&& vs.len() <= c.max_voters as int
    &&& distinct_voters(vs)
}

/// The state: configuration, the model ledger, the post registry, the vote
/// ledger, the current block height and the events emitted so far.
pub struct Pallet {
    config: Config,
    ledger: Ledger,
    posts: IdMap<Post>,
    votes: IdMap<Vec<VoteRec>>,
    block_number: u64,
    events: Vec<Event>,
}

impl Pallet {
    /// The configuration the state was built with.
    pub closed spec fn cfg(&self) -> Config {
        self.config
    }

    /// The current block height.
    pub closed spec fn now(&self) -> u64 {
        self.block_number
    }

    /// The ledger's existential deposit.
    pub closed spec fn ed(&self) -> u64 {
        self.ledger.ed()
    }

    /// The balances of `who`.
    pub closed spec fn acct(&self, who: u64) -> Account {
        self.ledger.acct(who)
    }

    /// The post stored under content address `k`, if any.
    pub closed spec fn post_at(&self, k: Seq<u8>) -> Option<Post> {
        if self.posts.as_map().contains_key(k) {
            Some(self.posts.as_map()[k])
        } else {
            None
        }
    }

    /// The vote list stored under content address `k`, if any.
    pub closed spec fn votes_entry(&self, k: Seq<u8>) -> Option<Seq<VoteRec>> {
        if self.votes.as_map().contains_key(k) {
            Some(self.votes.as_map()[k]@)
        } else {
            None
        }
    }

    /// The active votes on post `k`; empty when no entry exists.
    pub open spec fn votes_of(&self, k: Seq<u8>) -> Seq<VoteRec> {
        match self.votes_entry(k) {
            Some(vs) => vs,
            None => Seq::empty(),
        }
    }

    /// The events emitted so far.
    pub closed spec fn events_seq(&self) -> Seq<Event> {
        self.events@
    }

    /// Well-formedness: the stores and the ledger are sound, vote entries
    /// only exist for stored posts, and every post is consistent with its
    /// votes.
    pub closed spec fn wf(&self) -> bool {
        &&& self.ledger.wf()
        &&& self.posts.wf()
        &&& self.votes.wf()
        &&& forall|k: Seq<u8>|
            #[trigger] self.votes.as_map().contains_key(k)
                ==> self.posts.as_map().contains_key(k)
        &&& forall|k: Seq<u8>|
            #[trigger] self.posts.as_map().contains_key(k) ==> post_votes_ok(
                self.posts.as_map()[k],
                self.votes_of(k),
                self.config,
            )
    }

    /// A fresh state at block zero with no posts, no votes and no events.
    pub fn new(config: Config, ledger: Ledger) -> (r: Pallet)
        requires
            ledger.wf(),
        ensures
            r.wf(),
            r.cfg() == config,
            r.now() == 0,
            r.ed() == ledger.ed(),
            forall|w: u64| r.acct(w) == ledger.acct(w),
            forall|k: Seq<u8>| r.post_at(k) is None && r.votes_entry(k) is None,
            r.events_seq() == Seq::<Event>::empty(),
    {
        Pallet {
            config,
            ledger,
            posts: IdMap::new(),
            votes: IdMap::new(),
            block_number: 0,
            events: Vec::new(),
        }
    }

    /// Moves the clock to block `n`.
    pub fn set_block_number(&mut self, n: u64)
        requires
            old(self).wf(),
        ensures
            final(self).wf(),
            final(self).now() == n,
            final(self).cfg() == old(self).cfg(),
            final(self).ed() == old(self).ed(),
            forall|w: u64| final(self).acct(w) == old(self).acct(w),
            forall|k: Seq<u8>|
                final(self).post_at(k) == old(self).post_at(k) && final(self).votes_entry(k)
                    == old(self).votes_entry(k),
            final(self).events_seq() == old(self).events_seq(),
    {
        self.block_number = n;
    }

    /// The current block height.
    pub fn block_number(&self) -> (r: u64)
        ensures
            r == self.now(),
    {
        self.block_number
    }

    /// Forces the free balance of `who`, as the genesis of a test chain
    /// does.
    pub fn set_balance(&mut self, who: u64, amount: u64)
        requires
            old(self).wf(),
        ensures
            final(self).wf(),
            final(self).cfg() == old(self).cfg(),
            final(self).now() == old(self).now(),
            final(self).ed() == old(self).ed(),
            final(self).acct(who) == set_balance_applied(old(self).acct(who), amount),
            forall|w: u64| w != who ==> final(self).acct(w) == old(self).acct(w),
            forall|k: Seq<u8>|
                final(self).post_at(k) == old(self).post_at(k) && final(self).votes_entry(k)
                    == old(self).votes_entry(k),
            final(self).events_seq() == old(self).events_seq(),
    {
        self.ledger.set_balance(who, amount);
    }

    /// The free balance of `who`.
    pub fn free_balance(&self, who: u64) -> (r: u64)
        requires
            self.wf(),
        ensures
            r == self.acct(who).free,
    {
        self.ledger.free_balance(who)
    }

    /// The spendable balance of `who`.
    pub fn reducible_balance(&self, who: u64) -> (r: u64)
        requires
            self.wf(),
        ensures
            r as int == reducible_of(self.acct(who), self.ed()),
    {
        self.ledger.reducible_balance(who)
    }

    /// The total balance of `who`: free plus held.
    pub fn total_balance(&self, who: u64) -> (r: u64)
        requires
            self.wf(),
        ensures
            r as int == total_of(self.acct(who)),
    {
        self.ledger.total_balance(who)
    }

    /// What `who` has on hold under both reasons together.
    pub fn total_balance_on_hold(&self, who: u64) -> (r: u64)
        requires
            self.wf(),
        ensures
            r as int == self.acct(who).held_bond + self.acct(who).held_rent,
    {
        self.ledger.total_balance_on_hold(who)
    }

    /// What `who` has frozen behind votes.
    pub fn balance_frozen(&self, who: u64) -> (r: u64)
        requires
            self.wf(),
        ensures
            r == self.acct(who).frozen,
    {
        self.ledger.balance_frozen(who)
    }

    /// The post stored under `id`, if any.
    pub fn post(&self, id: &PostId) -> (r: Option<Post>)
        requires
            self.wf(),
        ensures
            r == self.post_at(id@),
    {
        match self.posts.get(id) {
            Some(p) => Some(*p),
            None => None,
        }
    }

    /// Whether `who` has an active vote on post `id`.
    pub fn has_vote(&self, who: u64, id: &PostId) -> (r: bool)
        requires
            self.wf(),
        ensures
            r == has_voter(self.votes_of(id@), who),
    {
        match self.votes.get(id) {
            Some(v) => find_voter(v, who).is_some(),
            None => {
                proof {
                    assert(self.votes_of(id@) =~= Seq::<VoteRec>::empty());
                }
                false
            },
        }
    }

    /// The stake and direction of `who`'s vote on post `id`, or the zero
    /// default when no such vote exists.
    pub fn vote(&self, who: u64, id: &PostId) -> (r: (u64, Direction))
        requires
            self.wf(),
        ensures
            has_voter(self.votes_of(id@), who) ==> r == (
                vote_rec_of(self.votes_of(id@), who).amount,
                vote_rec_of(self.votes_of(id@), who).direction,
            ),
            !has_voter(self.votes_of(id@), who) ==> r == (0u64, Direction::Bullish),
    {
        match self.votes.get(id) {
            Some(v) => {
                match find_voter(v, who) {
                    Some(i) => {
                        proof {
                            assert(self.votes.as_map().contains_key(id@));
                            assert(self.posts.as_map().contains_key(id@));
                            assert(distinct_voters(self.votes_of(id@)));
                            lemma_vote_index_at(self.votes_of(id@), who, i as int);
                        }
                        let rec = v[i];
                        (rec.amount, rec.direction)
                    },
                    None => (0, Direction::Bullish),
                }
            },
            None => {
                proof {
                    assert(self.votes_of(id@) =~= Seq::<VoteRec>::empty());
                }
                (0, Direction::Bullish)
            },
        }
    }

    /// The voters of post `id`, in insertion order, if a vote entry
    /// exists.
    pub fn voters(&self, id: &PostId) -> (r: Option<Vec<u64>>)
        requires
            self.wf(),
        ensures
            match r {
                Some(v) => self.votes_entry(id@) is Some && v@ == Seq::new(
                    self.votes_of(id@).len(),
                    |i: int| self.votes_of(id@)[i].voter,
                ),
                None => self.votes_entry(id@) is None,
            },
    {
        match self.votes.get(id) {
            Some(vs) => {
                let mut out: Vec<u64> = Vec::new();
                let mut i: usize = 0;
                while i < vs.len()
                    invariant
                        0 <= i <= vs@.len(),
                        out@.len() == i,
                        forall|j: int| 0 <= j < i ==> out@[j] == vs@[j].voter,
                    decreases vs@.len() - i,
                {
                    out.push(vs[i].voter);
                    i = i + 1;
                }
                proof {
                    assert(out@ =~= Seq::new(vs@.len(), |j: int| vs@[j].voter));
                }
                Some(out)
            },
            None => None,
        }
    }

    /// How many accounts have voted on post `id`; `None` when there are
    /// none.
    pub fn vote_count(&self, id: &PostId) -> (r: Option<u32>)
        requires
            self.wf(),
        ensures
            match r {
                Some(c) => self.votes_of(id@).len() == c as int && c > 0,
                None => self.votes_of(id@).len() == 0,
            },
    {
        match self.votes.get(id) {
            Some(v) => {
                proof {
                    assert(self.votes.as_map().contains_key(id@));
                    assert(self.posts.as_map().contains_key(id@));
                    assert(self.votes_of(id@).len() <= self.config.max_voters as int);
                }
                if v.len() > 0 {
                    Some(v.len() as u32)
                } else {
                    None
                }
            },
            None => {
                proof {
                    assert(self.votes_of(id@) =~= Seq::<VoteRec>::empty());
                }
                None
            },
        }
    }

    /// The most recently emitted event, if any.
    pub fn last_event(&self) -> (r: Option<Event>)
        ensures
            self.events_seq().len() == 0 ==> r is None,
            self.events_seq().len() > 0 ==> r == Some(self.events_seq().last()),
    {
        if self.events.len() == 0 {
            None
        } else {
            Some(self.events[self.events.len() - 1])
        }
    }
}

/// The submitter can cover bond and storage rent together out of the
/// spendable balance.
pub open spec fn submit_funds_ok(a: Account, ed: u64, bond: u64, rent: u64) -> bool {
    reducible_of(a, ed) >= bond + rent
}

/// Why a Submit would be rejected, or `None` when it succeeds; conditions
/// are tested in this order.
pub open spec fn submit_check(p: Pallet, who: u64, url: Seq<u8>, bond: u64) -> Option<Error> {
    let c = p.cfg();
    if url.len() == 0 {
        Some(Error::Empty)
    } else if (bond as int) < c.bond_minimum as int {
        Some(Error::BondTooLow)
    } else if url.len() > c.max_url_length as int {
        Some(Error::InputTooLong)
    } else if p.post_at(content_address(url)) is Some {
        Some(Error::PostAlreadyExists)
    } else if !submit_funds_ok(p.acct(who), p.ed(), bond, c.storage_rent as u64) {
        Some(Error::InsufficientFreeBalance)
    } else {
        None
    }
}

/// How a successful Submit moves the state: the new post is stored open
/// with zero tallies and a full voting window, bond and rent are held, and
/// a `PostSubmitted` event is emitted.
pub open spec fn submit_transition(
    pre: Pallet,
    post: Pallet,
    who: u64,
    url: Seq<u8>,
    bond: u64,
) -> bool {
    let id = content_address(url);
    let c = pre.cfg();
    let rent = c.storage_rent as u64;
    let new_post = Post {
        submitter: who,
        bond,
        bull_votes: 0,
        bear_votes: 0,
        voting_until: sat_add_u64(pre.now(), c.voting_period),
        ended: false,
    };
    &&& post.post_at(id) == Some(new_post)
    &&& forall|k: Seq<u8>| k != id ==> post.post_at(k) == pre.post_at(k)
    &&& forall|k: Seq<u8>| post.votes_entry(k) == pre.votes_entry(k)
    &&& post.acct(who) == hold_applied(
        hold_applied(pre.acct(who), HoldReason::PostBond, bond),
        HoldReason::StorageRent,
        rent,
    )
    &&& forall|w: u64| w != who ==> post.acct(w) == pre.acct(w)
    &&& post.events_seq() == pre.events_seq().push(post.events_seq().last())
    &&& (post.events_seq().last() matches Event::PostSubmitted {
        id: eid,
        submitter,
        bond: b,
        voting_until,
    } && eid@ == id && submitter == who && b == bond && voting_until == new_post.voting_until)
}

/// The voter can cover the stake: a vote may take up to the total
/// balance.
pub open spec fn vote_funds_ok(a: Account, amount: u64) -> bool {
    amount as int <= total_of(a)
}

/// The post's tallies after adding a first-time vote.
pub open spec fn tally_bumped(p: Post, amount: u64, d: Direction) -> Post {
    match d {
        Direction::Bullish => Post { bull_votes: (p.bull_votes + amount) as u64, ..p },
        Direction::Bearish => Post { bear_votes: (p.bear_votes + amount) as u64, ..p },
        Direction::Tie => p,
    }
}

/// Adding the vote keeps the tally within the balance type.
pub open spec fn tally_fits(p: Post, amount: u64, d: Direction) -> bool {
    match d {
        Direction::Bullish => p.bull_votes + amount <= u64::MAX,
        Direction::Bearish => p.bear_votes + amount <= u64::MAX,
        Direction::Tie => true,
    }
}

/// Why a first-time vote would be rejected, or `None` when it succeeds;
/// conditions are tested in this order.
pub open spec fn vote_check(
    p: Pallet,
    who: u64,
    url: Seq<u8>,
    amount: u64,
    direction: Direction,
) -> Option<Error> {
    let c = p.cfg();
    let id = content_address(url);
    if url.len() == 0 {
        Some(Error::Empty)
    } else if (amount as int) < c.vote_minimum as int {
        Some(Error::VoteTooLow)
    } else if url.len() > c.max_url_length as int {
        Some(Error::InputTooLong)
    } else if p.post_at(id) is None {
        Some(Error::PostDoesNotExist)
    } else if p.now() >= p.post_at(id).unwrap().voting_until || p.post_at(id).unwrap().ended {
        Some(Error::VotingEnded)
    } else if p.votes_of(id).len() >= c.max_voters as int {
        Some(Error::VotersMaxed)
    } else if has_voter(p.votes_of(id), who) {
        Some(Error::AlreadyVoted)
    } else if !vote_funds_ok(p.acct(who), amount) || !tally_fits(
        p.post_at(id).unwrap(),
        amount,
        direction,
    ) {
        Some(Error::InsufficientFreeBalance)
    } else {
        None
    }
}

/// How a successful first-time vote moves the state: the stake is frozen,
/// the vote is recorded, the tally of its direction grows by the stake,
/// and after the call the tallies equal the sums of the active votes.
pub open spec fn vote_transition(
    pre: Pallet,
    post: Pallet,
    who: u64,
    url: Seq<u8>,
    amount: u64,
    direction: Direction,
) -> bool {
    let id = content_address(url);
    let p0 = pre.post_at(id).unwrap();
    let rec = VoteRec { voter: who, amount, direction };
    &&& post.post_at(id) == Some(tally_bumped(p0, amount, direction))
    &&& forall|k: Seq<u8>| k != id ==> post.post_at(k) == pre.post_at(k)
    &&& post.votes_entry(id) == Some(pre.votes_of(id).push(rec))
    &&& forall|k: Seq<u8>| k != id ==> post.votes_entry(k) == pre.votes_entry(k)
    &&& post.acct(who) == freeze_applied(pre.acct(who), amount)
    &&& forall|w: u64| w != who ==> post.acct(w) == pre.acct(w)
    &&& post.events_seq() == pre.events_seq().push(post.events_seq().last())
    &&& (post.events_seq().last() matches Event::VoteSubmitted {
        id: eid,
        voter,
        vote_amount,
        direction: d,
    } && eid@ == id && voter == who && vote_amount == amount && d == direction)
    &&& post.post_at(id).unwrap().bull_votes as int == sum_dir(
        post.votes_of(id),
        Direction::Bullish,
    )
    &&& post.post_at(id).unwrap().bear_votes as int == sum_dir(
        post.votes_of(id),
        Direction::Bearish,
    )
}

/// The post's tallies after replacing `prev` by a vote of `amount` in
/// direction `d`: the old contribution leaves its direction's tally, the
/// new one joins its own.
pub open spec fn tallies_after_update(p: Post, prev: VoteRec, amount: u64, d: Direction) -> (
    int,
    int,
) {
    (
        p.bull_votes - (if prev.direction == Direction::Bullish {
            prev.amount as int
        } else {
            0
        }) + (if d == Direction::Bullish {
            amount as int
        } else {
            0
        }),
        p.bear_votes - (if prev.direction == Direction::Bearish {
            prev.amount as int
        } else {
            0
        }) + (if d == Direction::Bearish {
            amount as int
        } else {
            0
        }),
    )
}

/// Replacing the vote keeps both tallies within the balance type.
pub open spec fn update_fits(p: Post, prev: VoteRec, amount: u64, d: Direction) -> bool {
    tallies_after_update(p, prev, amount, d).0 <= u64::MAX && tallies_after_update(
        p,
        prev,
        amount,
        d,
    ).1 <= u64::MAX
}

/// Why an update of an existing vote would be rejected, or `None` when it
/// succeeds; conditions are tested in this order.
pub open spec fn update_check(
    p: Pallet,
    who: u64,
    url: Seq<u8>,
    amount: u64,
    direction: Direction,
) -> Option<Error> {
    let c = p.cfg();
    let id = content_address(url);
    if url.len() == 0 {
        Some(Error::Empty)
    } else if (amount as int) < c.vote_minimum as int {
        Some(Error::VoteTooLow)
    } else if url.len() > c.max_url_length as int {
        Some(Error::InputTooLong)
    } else if p.post_at(id) is None {
        Some(Error::PostDoesNotExist)
    } else if p.now() >= p.post_at(id).unwrap().voting_until || p.post_at(id).unwrap().ended {
        Some(Error::VotingEnded)
    } else if !has_voter(p.votes_of(id), who) {
        Some(Error::VoteDoesNotExist)
    } else if !vote_funds_ok(p.acct(who), amount) || !update_fits(
        p.post_at(id).unwrap(),
        vote_rec_of(p.votes_of(id), who),
        amount,
        direction,
    ) {
        Some(Error::InsufficientFreeBalance)
    } else {
        None
    }
}

/// How a successful vote update moves the state: the freeze moves by the
/// net difference between the new and the old stake, the vote record is
/// replaced in place, the tallies are adjusted, and after the call they
/// equal the sums of the active votes.
pub open spec fn update_transition(
    pre: Pallet,
    post: Pallet,
    who: u64,
    url: Seq<u8>,
    amount: u64,
    direction: Direction,
) -> bool {
    let id = content_address(url);
    let p0 = pre.post_at(id).unwrap();
    let vs = pre.votes_of(id);
    let prev = vote_rec_of(vs, who);
    let rec = VoteRec { voter: who, amount, direction };
    let tallies = tallies_after_update(p0, prev, amount, direction);
    &&& post.post_at(id) == Some(
        Post { bull_votes: tallies.0 as u64, bear_votes: tallies.1 as u64, ..p0 },
    )
    &&& forall|k: Seq<u8>| k != id ==> post.post_at(k) == pre.post_at(k)
    &&& post.votes_entry(id) == Some(vs.update(vote_index(vs, who), rec))
    &&& forall|k: Seq<u8>| k != id ==> post.votes_entry(k) == pre.votes_entry(k)
    &&& post.acct(who) == freeze_reconciled(pre.acct(who), prev.amount, amount)
    &&& forall|w: u64| w != who ==> post.acct(w) == pre.acct(w)
    &&& post.events_seq() == pre.events_seq().push(post.events_seq().last())
    &&& (post.events_seq().last() matches Event::VoteUpdated {
        id: eid,
        voter,
        vote_amount,
        direction: d,
    } && eid@ == id && voter == who && vote_amount == amount && d == direction)
    &&& post.post_at(id).unwrap().bull_votes as int == sum_dir(
        post.votes_of(id),
        Direction::Bullish,
    )
    &&& post.post_at(id).unwrap().bear_votes as int == sum_dir(
        post.votes_of(id),
        Direction::Bearish,
    )
}

/// Why an End would be rejected, or `None` when it succeeds; conditions
/// are tested in this order.
pub open spec fn end_check(p: Pallet, url: Seq<u8>) -> Option<Error> {
    let c = p.cfg();
    let id = content_address(url);
    if url.len() == 0 {
        Some(Error::Empty)
    } else if url.len() > c.max_url_length as int {
        Some(Error::InputTooLong)
    } else if p.post_at(id) is None {
        Some(Error::PostDoesNotExist)
    } else if p.now() < p.post_at(id).unwrap().voting_until {
        Some(Error::VotingStillOngoing)
    } else if p.post_at(id).unwrap().ended {
        Some(Error::PostAlreadyEnded)
    } else {
        None
    }
}

/// The outcome of a post: the direction with the larger tally, or a tie.
pub open spec fn end_result(p: Post) -> Direction {
    if p.bull_votes > p.bear_votes {
        Direction::Bullish
    } else if p.bull_votes < p.bear_votes {
        Direction::Bearish
    } else {
        Direction::Tie
    }
}

/// `bond * coeff / 100`, rounded down and saturated to the balance type.
pub open spec fn coef_amount(bond: u64, coeff: int) -> u64 {
    if bond * coeff / 100 <= u64::MAX {
        (bond * coeff / 100) as u64
    } else {
        u64::MAX
    }
}

/// The reward minted to the submitter of a bullish post: a flat amount,
/// or a percentage of the bond.
pub open spec fn reward_of(c: Config, bond: u64) -> u64 {
    if !c.reward_style {
        c.flat_reward as u64
    } else {
        coef_amount(bond, c.reward_coefficient as int)
    }
}

/// The slash burned from the submitter of a bearish post: a flat amount,
/// or a percentage of the bond capped at 100.
pub open spec fn slash_of(c: Config, bond: u64) -> u64 {
    if !c.slash_style {
        c.flat_slash as u64
    } else {
        coef_amount(bond, min_int(c.slash_coefficient as int, 100))
    }
}

/// The submitter's account after End: the bond is released, then the
/// outcome mints the reward, burns the slash, or does nothing on a tie.
pub open spec fn end_acct(a: Account, ed: u64, c: Config, bond: u64, result: Direction) -> Account {
    let a1 = release_applied(a, HoldReason::PostBond, bond);
    match result {
        Direction::Bullish => mint_applied(a1, reward_of(c, bond)),
        Direction::Bearish => burn_applied(a1, ed, slash_of(c, bond)),
        Direction::Tie => a1,
    }
}

/// How a successful End moves the state: the post is marked ended, the
/// bond released, the submitter rewarded or slashed by the outcome, and a
/// `PostEnded` event reports the outcome with one of `rewarded` and
/// `slashed` always zero.
pub open spec fn end_transition(pre: Pallet, post: Pallet, url: Seq<u8>) -> bool {
    let id = content_address(url);
    let c = pre.cfg();
    let p0 = pre.post_at(id).unwrap();
    let result = end_result(p0);
    &&& post.post_at(id) == Some(Post { ended: true, ..p0 })
    &&& forall|k: Seq<u8>| k != id ==> post.post_at(k) == pre.post_at(k)
    &&& forall|k: Seq<u8>| post.votes_entry(k) == pre.votes_entry(k)
    &&& post.acct(p0.submitter) == end_acct(pre.acct(p0.submitter), pre.ed(), c, p0.bond, result)
    &&& forall|w: u64| w != p0.submitter ==> post.acct(w) == pre.acct(w)
    &&& post.events_seq() == pre.events_seq().push(post.events_seq().last())
    &&& (post.events_seq().last() matches Event::PostEnded {
        id: eid,
        submitter,
        result: res,
        rewarded,
        slashed,
    } && eid@ == id && submitter == p0.submitter && res == result && rewarded == (
    if result == Direction::Bullish {
        reward_of(c, p0.bond)
    } else {
        0u64
    }) && slashed == (if result == Direction::Bearish {
        slash_of(c, p0.bond)
    } else {
        0u64
    }))
}

/// Why a Resolve would be rejected, or `None` when it succeeds;
/// conditions are tested in this order.
pub open spec fn resolve_check(p: Pallet, url: Seq<u8>) -> Option<Error> {
    let c = p.cfg();
    let id = content_address(url);
    if url.len() == 0 {
        Some(Error::Empty)
    } else if url.len() > c.max_url_length as int {
        Some(Error::InputTooLong)
    } else if p.post_at(id) is None {
        Some(Error::PostDoesNotExist)
    } else if !p.post_at(id).unwrap().ended {
        Some(Error::PostUnended)
    } else {
        None
    }
}

/// Whether one Resolve call drains the post completely: there is no vote
/// entry at all, or at most the unfreeze limit of votes remains.
pub open spec fn resolve_is_full(p: Pallet, id: Seq<u8>) -> bool {
    p.votes_entry(id) is None || p.votes_of(id).len() <= p.cfg().unfreeze_limit as int
}

/// How many votes one Resolve call unfreezes.
pub open spec fn resolve_pop_count(p: Pallet, id: Seq<u8>) -> int {
    min_int(p.cfg().unfreeze_limit as int, p.votes_of(id).len() as int)
}

/// The votes one Resolve call unfreezes: the tail of the list, popped in
/// reverse order.
pub open spec fn resolve_popped(p: Pallet, id: Seq<u8>) -> Seq<VoteRec> {
    let vs = p.votes_of(id);
    vs.subrange(vs.len() - resolve_pop_count(p, id), vs.len() as int)
}

/// `w`'s account after one Resolve call: its popped vote, if any, is
/// thawed, and on a full drain the submitter gets the storage rent
/// released.
pub open spec fn resolve_acct(pre: Pallet, id: Seq<u8>, w: u64) -> Account {
    let popped = resolve_popped(pre, id);
    let base = if has_voter(popped, w) {
        thaw_applied(pre.acct(w), vote_rec_of(popped, w).amount)
    } else {
        pre.acct(w)
    };
    if resolve_is_full(pre, id) && w == pre.post_at(id).unwrap().submitter {
        release_applied(base, HoldReason::StorageRent, pre.cfg().storage_rent as u64)
    } else {
        base
    }
}

/// How a successful Resolve moves the state: up to the unfreeze limit of
/// votes are popped and thawed, each with a `VoteUnfrozen` event; on a
/// full drain the rent is released and the post removed with a
/// `PostResolved` event, otherwise the remaining votes persist under a
/// `PartiallyResolved` event.
pub open spec fn resolve_transition(pre: Pallet, post: Pallet, url: Seq<u8>) -> bool {
    let id = content_address(url);
    let vs = pre.votes_of(id);
    let n = vs.len() as int;
    let k = resolve_pop_count(pre, id);
    let full = resolve_is_full(pre, id);
    let e0 = pre.events_seq().len() as int;
    &&& if full {
        post.post_at(id) is None && post.votes_entry(id) is None
    } else {
        post.post_at(id) == pre.post_at(id) && post.votes_entry(id) == Some(
            vs.subrange(0, n - k),
        )
    }
    &&& forall|k2: Seq<u8>| k2 != id ==> post.post_at(k2) == pre.post_at(k2)
    &&& forall|k2: Seq<u8>| k2 != id ==> post.votes_entry(k2) == pre.votes_entry(k2)
    &&& forall|w: u64| post.acct(w) == resolve_acct(pre, id, w)
    &&& post.events_seq().len() == e0 + k + 1
    &&& post.events_seq().subrange(0, e0) == pre.events_seq()
    &&& forall|j: int|
        0 <= j < k ==> (#[trigger] post.events_seq()[e0 + j] matches Event::VoteUnfrozen {
            id: eid,
            account,
            amount,
        } && eid@ == id && account == vs[n - 1 - j].voter && amount == vs[n - 1 - j].amount)
    &&& if full {
        post.events_seq().last() matches Event::PostResolved { id: eid } && eid@ == id
    } else {
        post.events_seq().last() matches Event::PartiallyResolved { id: eid } && eid@ == id
    }
}

/// With distinct voters, an index holding `who`'s vote is the unique one.
pub proof fn lemma_vote_index_at(vs: Seq<VoteRec>, who: u64, i: int)
    requires
        distinct_voters(vs),
        0 <= i < vs.len(),
        vs[i].voter == who,
    ensures
        has_voter(vs, who),
        vote_index(vs, who) == i,
        vote_rec_of(vs, who) == vs[i],
{
    assert(has_voter(vs, who));
    let j = vote_index(vs, who);
    assert(0 <= j < vs.len() && vs[j].voter == who);
    if i != j {
        assert(vs[i].voter != vs[j].voter);
    }
}

/// `bond * coeff / 100`, rounded down, saturated to the balance type.
fn coef_mul(bond: u64, coeff: u32) -> (r: u64)
    ensures
        r == coef_amount(bond, coeff as int),
{
    proof {
        assert(bond as int * coeff as int <= u64::MAX as int * u32::MAX as int)
            by (nonlinear_arith)
            requires
                0 <= bond as int <= u64::MAX as int,
                0 <= coeff as int <= u32::MAX as int,
        ;
    }
    let wide: u128 = (bond as u128) * (coeff as u128);
    let q = wide / 100;
    if q > u64::MAX as u128 {
        u64::MAX
    } else {
        q as u64
    }
}

/// Finds the index of `who`'s vote in `vs`.
fn find_voter(vs: &Vec<VoteRec>, who: u64) -> (r: Option<usize>)
    ensures
        match r {
            Some(i) => i < vs@.len() && vs@[i as int].voter == who,
            None => !has_voter(vs@, who),
        },
{
    let mut i: usize = 0;
    while i < vs.len()
        invariant
            0 <= i <= vs@.len(),
            forall|j: int| 0 <= j < i ==> vs@[j].voter != who,
        decreases vs@.len() - i,
    {
        if vs[i].voter == who {
            return Some(i);
        }
        i = i + 1;
    }
    None
}

impl Pallet {
    /// Submits a post: holds the caller's bond and the storage rent and
    /// opens the voting window.
    pub fn try_submit_post(&mut self, who: u64, post_url: Vec<u8>, bond: u64) -> (r: Result<
        (),
        Error,
    >)
        requires
            old(self).wf(),
        ensures
            final(self).wf(),
            final(self).cfg() == old(self).cfg(),
            final(self).now() == old(self).now(),
            final(self).ed() == old(self).ed(),
            r is Ok <==> submit_check(*old(self), who, post_url@, bond) is None,
            r is Ok ==> submit_transition(*old(self), *final(self), who, post_url@, bond),
            r matches Err(e) ==> submit_check(*old(self), who, post_url@, bond) == Some(e)
                && *final(self) == *old(self),
    {
        if post_url.len() == 0 {
            return Err(Error::Empty);
        }
        if bond < self.config.bond_minimum as u64 {
            return Err(Error::BondTooLow);
        }
        if post_url.len() > self.config.max_url_length as usize {
            return Err(Error::InputTooLong);
        }
        let id = blake2_256(&post_url);
        if self.posts.contains(&id) {
            return Err(Error::PostAlreadyExists);
        }
        let rent = self.config.storage_rent as u64;
        let reduc = self.ledger.reducible_balance(who);
        if bond > u64::MAX - rent || reduc < bond + rent {
            return Err(Error::InsufficientFreeBalance);
        }
        let r1 = self.ledger.hold(HoldReason::PostBond, who, bond);
        match r1 {
            Ok(()) => {},
            Err(e) => {
                proof {
                    assert(false);
                }
                return Err(e);
            },
        }
        let r2 = self.ledger.hold(HoldReason::StorageRent, who, rent);
        match r2 {
            Ok(()) => {},
            Err(e) => {
                proof {
                    assert(false);
                }
                return Err(e);
            },
        }
        let voting_until = if self.block_number <= u64::MAX - self.config.voting_period {
            self.block_number + self.config.voting_period
        } else {
            u64::MAX
        };
        let new_post = Post {
            submitter: who,
            bond,
            bull_votes: 0,
            bear_votes: 0,
            voting_until,
            ended: false,
        };
        self.posts.insert(id, new_post);
        self.events.push(
            Event::PostSubmitted { id, submitter: who, bond, voting_until },
        );
        proof {
            let id_s = content_address(post_url@);
            assert(!old(self).votes.as_map().contains_key(id_s));
            assert(self.votes_of(id_s) =~= Seq::<VoteRec>::empty());
            assert forall|k: Seq<u8>| #[trigger]
                self.posts.as_map().contains_key(k) implies post_votes_ok(
                self.posts.as_map()[k],
                self.votes_of(k),
                self.config,
            ) by {
                if k != id_s {
                    assert(old(self).posts.as_map().contains_key(k));
                    assert(self.votes_of(k) == old(self).votes_of(k));
                }
            }
        }
        Ok(())
    }

    /// Casts a first-time vote on a post: freezes the stake, records the
    /// vote and adds it to the tally of its direction.
    pub fn try_submit_vote(
        &mut self,
        who: u64,
        post_url: Vec<u8>,
        vote_amount: u64,
        direction: Direction,
    ) -> (r: Result<(), Error>)
        requires
            old(self).wf(),
        ensures
            final(self).wf(),
            final(self).cfg() == old(self).cfg(),
            final(self).now() == old(self).now(),
            final(self).ed() == old(self).ed(),
            r is Ok <==> vote_check(*old(self), who, post_url@, vote_amount, direction) is None,
            r is Ok ==> vote_transition(
                *old(self),
                *final(self),
                who,
                post_url@,
                vote_amount,
                direction,
            ),
            r matches Err(e) ==> vote_check(*old(self), who, post_url@, vote_amount, direction)
                == Some(e) && *final(self) == *old(self),
    {
        if post_url.len() == 0 {
            return Err(Error::Empty);
        }
        if vote_amount < self.config.vote_minimum as u64 {
            return Err(Error::VoteTooLow);
        }
        if post_url.len() > self.config.max_url_length as usize {
            return Err(Error::InputTooLong);
        }
        let id = blake2_256(&post_url);
        let post = match self.posts.get(&id) {
            Some(p) => *p,
            None => {
                return Err(Error::PostDoesNotExist);
            },
        };
        if self.block_number >= post.voting_until || post.ended {
            return Err(Error::VotingEnded);
        }
        let vote_len = match self.votes.get(&id) {
            Some(v) => v.len(),
            None => 0,
        };
        proof {
            if self.votes.as_map().contains_key(id@) {
            } else {
                assert(self.votes_of(id@) =~= Seq::<VoteRec>::empty());
            }
        }
        if vote_len >= self.config.max_voters as usize {
            return Err(Error::VotersMaxed);
        }
        let already = match self.votes.get(&id) {
            Some(v) => find_voter(v, who).is_some(),
            None => false,
        };
        if already {
            return Err(Error::AlreadyVoted);
        }
        let total = self.ledger.total_balance(who);
        if vote_amount > total {
            return Err(Error::InsufficientFreeBalance);
        }
        let new_post = match direction {
            Direction::Bullish => {
                if vote_amount > u64::MAX - post.bull_votes {
                    return Err(Error::InsufficientFreeBalance);
                }
                Post { bull_votes: post.bull_votes + vote_amount, ..post }
            },
            Direction::Bearish => {
                if vote_amount > u64::MAX - post.bear_votes {
                    return Err(Error::InsufficientFreeBalance);
                }
                Post { bear_votes: post.bear_votes + vote_amount, ..post }
            },
            Direction::Tie => post,
        };
        let ghost vs0 = self.votes_of(id@);
        self.ledger.extend_freeze(FreezeReason::Vote, who, vote_amount);
        let mut vs = match self.votes.remove(&id) {
            Some(v) => v,
            None => Vec::new(),
        };
        let rec = VoteRec { voter: who, amount: vote_amount, direction };
        vs.push(rec);
        self.votes.insert(id, vs);
        self.posts.insert(id, new_post);
        self.events.push(
            Event::VoteSubmitted { id, voter: who, vote_amount, direction },
        );
        proof {
            let id_s = id@;
            let c = self.config;
            crate::tally::lemma_sum_dir_push(vs0, Direction::Bullish, rec);
            crate::tally::lemma_sum_dir_push(vs0, Direction::Bearish, rec);
            assert(self.votes_of(id_s) == vs0.push(rec));
            assert forall|k: Seq<u8>| #[trigger]
                self.votes.as_map().contains_key(k) implies self.posts.as_map().contains_key(
                k,
            ) by {
                if k != id_s {
                    assert(old(self).votes.as_map().contains_key(k));
                }
            }
            assert forall|k: Seq<u8>| #[trigger]
                self.posts.as_map().contains_key(k) implies post_votes_ok(
                self.posts.as_map()[k],
                self.votes_of(k),
                c,
            ) by {
                if k == id_s {
                    assert(distinct_voters(vs0.push(rec))) by {
                        assert forall|i: int, j: int|
                            0 <= i < j < vs0.push(rec).len() implies vs0.push(rec)[i].voter
                            != vs0.push(rec)[j].voter by {
                            if j < vs0.len() {
                            } else {
                                assert(vs0.push(rec)[j] == rec);
                                assert(!has_voter(vs0, who));
                                assert(vs0.push(rec)[i] == vs0[i]);
                            }
                        }
                    }
                } else {
                    assert(old(self).posts.as_map().contains_key(k));
                    assert(self.votes_of(k) == old(self).votes_of(k));
                }
            }
        }
        Ok(())
    }

    /// Replaces the caller's existing vote on a post: extends the freeze
    /// to the new stake and moves the contribution between tallies.
    pub fn try_update_vote(
        &mut self,
        who: u64,
        post_url: Vec<u8>,
        new_vote: u64,
        direction: Direction,
    ) -> (r: Result<(), Error>)
        requires
            old(self).wf(),
        ensures
            final(self).wf(),
            final(self).cfg() == old(self).cfg(),
            final(self).now() == old(self).now(),
            final(self).ed() == old(self).ed(),
            r is Ok <==> update_check(*old(self), who, post_url@, new_vote, direction) is None,
            r is Ok ==> update_transition(
                *old(self),
                *final(self),
                who,
                post_url@,
                new_vote,
                direction,
            ),
            r matches Err(e) ==> update_check(*old(self), who, post_url@, new_vote, direction)
                == Some(e) && *final(self) == *old(self),
    {
        if post_url.len() == 0 {
            return Err(Error::Empty);
        }
        if new_vote < self.config.vote_minimum as u64 {
            return Err(Error::VoteTooLow);
        }
        if post_url.len() > self.config.max_url_length as usize {
            return Err(Error::InputTooLong);
        }
        let id = blake2_256(&post_url);
        let post = match self.posts.get(&id) {
            Some(p) => *p,
            None => {
                return Err(Error::PostDoesNotExist);
            },
        };
        if self.block_number >= post.voting_until || post.ended {
            return Err(Error::VotingEnded);
        }
        let idx = {
            let found = match self.votes.get(&id) {
                Some(v) => find_voter(v, who),
                None => None,
            };
            match found {
                Some(i) => i,
                None => {
                    proof {
                        if self.votes.as_map().contains_key(id@) {
                        } else {
                            assert(self.votes_of(id@) =~= Seq::<VoteRec>::empty());
                        }
                    }
                    return Err(Error::VoteDoesNotExist);
                },
            }
        };
        let ghost vs0 = self.votes_of(id@);
        let prev = match self.votes.get(&id) {
            Some(v) => v[idx],
            None => {
                proof {
                    assert(false);
                }
                return Err(Error::VoteDoesNotExist);
            },
        };
        proof {
            assert(self.posts.as_map().contains_key(id@));
            assert(post_votes_ok(post, vs0, self.config));
            lemma_vote_index_at(vs0, who, idx as int);
        }
        let total = self.ledger.total_balance(who);
        if new_vote > total {
            return Err(Error::InsufficientFreeBalance);
        }
        proof {
            crate::tally::lemma_sum_dir_element(vs0, prev.direction, idx as int);
            crate::tally::lemma_sum_dir_nonneg(vs0, Direction::Bullish);
            crate::tally::lemma_sum_dir_nonneg(vs0, Direction::Bearish);
        }
        let (bull_less, bear_less) = match prev.direction {
            Direction::Bullish => (post.bull_votes - prev.amount, post.bear_votes),
            Direction::Bearish => (post.bull_votes, post.bear_votes - prev.amount),
            Direction::Tie => (post.bull_votes, post.bear_votes),
        };
        let (bull_new, bear_new) = match direction {
            Direction::Bullish => {
                if new_vote > u64::MAX - bull_less {
                    return Err(Error::InsufficientFreeBalance);
                }
                (bull_less + new_vote, bear_less)
            },
            Direction::Bearish => {
                if new_vote > u64::MAX - bear_less {
                    return Err(Error::InsufficientFreeBalance);
                }
                (bull_less, bear_less + new_vote)
            },
            Direction::Tie => (bull_less, bear_less),
        };
        let new_post = Post { bull_votes: bull_new, bear_votes: bear_new, ..post };
        if new_vote >= prev.amount {
            self.ledger.increase_frozen(FreezeReason::Vote, who, new_vote - prev.amount);
        } else {
            self.ledger.decrease_frozen(FreezeReason::Vote, who, prev.amount - new_vote);
        }
        let mut vs = match self.votes.remove(&id) {
            Some(v) => v,
            None => {
                proof {
                    assert(false);
                }
                return Err(Error::VoteDoesNotExist);
            },
        };
        let rec = VoteRec { voter: who, amount: new_vote, direction };
        let _old_rec = vs.remove(idx);
        vs.insert(idx, rec);
        proof {
            assert(vs@ =~= vs0.update(idx as int, rec));
        }
        self.votes.insert(id, vs);
        self.posts.insert(id, new_post);
        self.events.push(
            Event::VoteUpdated { id, voter: who, vote_amount: new_vote, direction },
        );
        proof {
            let id_s = id@;
            let c = self.config;
            let vs1 = vs0.update(idx as int, rec);
            crate::tally::lemma_sum_dir_update(vs0, Direction::Bullish, idx as int, rec);
            crate::tally::lemma_sum_dir_update(vs0, Direction::Bearish, idx as int, rec);
            assert(self.votes_of(id_s) == vs1);
            assert forall|k: Seq<u8>| #[trigger]
                self.votes.as_map().contains_key(k) implies self.posts.as_map().contains_key(
                k,
            ) by {
                if k != id_s {
                    assert(old(self).votes.as_map().contains_key(k));
                }
            }
            assert forall|k: Seq<u8>| #[trigger]
                self.posts.as_map().contains_key(k) implies post_votes_ok(
                self.posts.as_map()[k],
                self.votes_of(k),
                c,
            ) by {
                if k == id_s {
                    assert(distinct_voters(vs1)) by {
                        assert forall|i: int, j: int|
                            0 <= i < j < vs1.len() implies vs1[i].voter != vs1[j].voter by {
                            assert(vs0[i].voter != vs0[j].voter);
                            if i == idx as int {
                                assert(vs1[i].voter == vs0[i].voter);
                            }
                            if j == idx as int {
                                assert(vs1[j].voter == vs0[j].voter);
                            }
                        }
                    }
                } else {
                    assert(old(self).posts.as_map().contains_key(k));
                    assert(self.votes_of(k) == old(self).votes_of(k));
                }
            }
        }
        Ok(())
    }

    /// Ends a post whose voting window has closed: releases the bond and
    /// rewards or slashes the submitter by the outcome. Callable by
    /// anyone.
    pub fn try_end_post(&mut self, _who: u64, post_url: Vec<u8>) -> (r: Result<(), Error>)
        requires
            old(self).wf(),
        ensures
            final(self).wf(),
            final(self).cfg() == old(self).cfg(),
            final(self).now() == old(self).now(),
            final(self).ed() == old(self).ed(),
            r is Ok <==> end_check(*old(self), post_url@) is None,
            r is Ok ==> end_transition(*old(self), *final(self), post_url@),
            r matches Err(e) ==> end_check(*old(self), post_url@) == Some(e) && *final(self)
                == *old(self),
    {
        if post_url.len() == 0 {
            return Err(Error::Empty);
        }
        if post_url.len() > self.config.max_url_length as usize {
            return Err(Error::InputTooLong);
        }
        let id = blake2_256(&post_url);
        let post = match self.posts.get(&id) {
            Some(p) => *p,
            None => {
                return Err(Error::PostDoesNotExist);
            },
        };
        if self.block_number < post.voting_until {
            return Err(Error::VotingStillOngoing);
        }
        if post.ended {
            return Err(Error::PostAlreadyEnded);
        }
        let submitter = post.submitter;
        let bond = post.bond;
        let new_post = Post { ended: true, ..post };
        self.posts.insert(id, new_post);
        let _released = self.ledger.release(HoldReason::PostBond, submitter, bond);
        let result = if post.bull_votes > post.bear_votes {
            Direction::Bullish
        } else if post.bull_votes < post.bear_votes {
            Direction::Bearish
        } else {
            Direction::Tie
        };
        let (rewarded, slashed) = match result {
            Direction::Bullish => {
                let reward = if !self.config.reward_style {
                    self.config.flat_reward as u64
                } else {
                    coef_mul(bond, self.config.reward_coefficient)
                };
                self.ledger.mint_into(submitter, reward);
                (reward, 0u64)
            },
            Direction::Bearish => {
                let percent: u8 = if self.config.slash_coefficient <= 100 {
                    self.config.slash_coefficient
                } else {
                    100
                };
                let slash = if !self.config.slash_style {
                    self.config.flat_slash as u64
                } else {
                    coef_mul(bond, percent as u32)
                };
                let _burned = self.ledger.burn_from(submitter, slash);
                (0u64, slash)
            },
            Direction::Tie => (0u64, 0u64),
        };
        self.events.push(
            Event::PostEnded { id, submitter, result, rewarded, slashed },
        );
        proof {
            let id_s = id@;
            let c = self.config;
            assert forall|k: Seq<u8>| #[trigger]
                self.posts.as_map().contains_key(k) implies post_votes_ok(
                self.posts.as_map()[k],
                self.votes_of(k),
                c,
            ) by {
                if k == id_s {
                    assert(post_votes_ok(post, old(self).votes_of(id_s), c));
                    assert(self.votes_of(k) == old(self).votes_of(k));
                } else {
                    assert(old(self).posts.as_map().contains_key(k));
                    assert(self.votes_of(k) == old(self).votes_of(k));
                }
            }
            assert forall|k: Seq<u8>| #[trigger]
                self.votes.as_map().contains_key(k) implies self.posts.as_map().contains_key(
                k,
            ) by {
                assert(old(self).votes.as_map().contains_key(k));
            }
        }
        Ok(())
    }

    /// Resolves an ended post: unfreezes up to the configured limit of
    /// votes; on a full drain, releases the storage rent and removes the
    /// post. Callable by anyone, repeatedly, until the post is gone.
    #[verifier::loop_isolation(false)]
    #[verifier::rlimit(100)]
    pub fn try_resolve_post(&mut self, _who: u64, post_url: Vec<u8>) -> (r: Result<(), Error>)
        requires
            old(self).wf(),
        ensures
            final(self).wf(),
            final(self).cfg() == old(self).cfg(),
            final(self).now() == old(self).now(),
            final(self).ed() == old(self).ed(),
            r is Ok <==> resolve_check(*old(self), post_url@) is None,
            r is Ok ==> resolve_transition(*old(self), *final(self), post_url@),
            r matches Err(e) ==> resolve_check(*old(self), post_url@) == Some(e) && *final(self)
                == *old(self),
    {
        if post_url.len() == 0 {
            return Err(Error::Empty);
        }
        if post_url.len() > self.config.max_url_length as usize {
            return Err(Error::InputTooLong);
        }
        let id = blake2_256(&post_url);
        let post = match self.posts.get(&id) {
            Some(p) => *p,
            None => {
                return Err(Error::PostDoesNotExist);
            },
        };
        if !post.ended {
            return Err(Error::PostUnended);
        }
        let submitter = post.submitter;
        let rent = self.config.storage_rent as u64;
        let taken = self.votes.remove(&id);
        match taken {
            None => {
                let _rel = self.ledger.release(HoldReason::StorageRent, submitter, rent);
                let _removed = self.posts.remove(&id);
                self.events.push(Event::PostResolved { id });
                proof {
                    let id_s = id@;
                    let pre = *old(self);
                    assert(pre.votes_entry(id_s) is None);
                    assert(pre.votes_of(id_s) =~= Seq::<VoteRec>::empty());
                    assert(resolve_pop_count(pre, id_s) == 0);
                    assert(self.events@.subrange(0, pre.events_seq().len() as int)
                        =~= pre.events_seq());
                    assert forall|w: u64| #[trigger]
                        self.ledger.acct(w) == resolve_acct(pre, id_s, w) by {
                        assert(!has_voter(resolve_popped(pre, id_s), w));
                    }
                    assert forall|k2: Seq<u8>| #[trigger]
                        self.votes.as_map().contains_key(
                            k2,
                        ) implies self.posts.as_map().contains_key(k2) by {
                        assert(old(self).votes.as_map().contains_key(k2));
                        assert(k2 != id_s);
                    }
                    assert forall|k2: Seq<u8>| #[trigger]
                        self.posts.as_map().contains_key(k2) implies post_votes_ok(
                        self.posts.as_map()[k2],
                        self.votes_of(k2),
                        self.config,
                    ) by {
                        assert(old(self).posts.as_map().contains_key(k2));
                        assert(self.votes_of(k2) == old(self).votes_of(k2));
                    }
                }
                Ok(())
            },
            Some(mut vs) => {
                let limit = self.config.unfreeze_limit as usize;
                let n = vs.len();
                let k = if limit <= n {
                    limit
                } else {
                    n
                };
                let ghost vsg = old(self).votes_of(id@);
                let ghost e0 = old(self).events@.len() as int;
                proof {
                    assert(vs@ == vsg);
                    assert(vs@ =~= vsg.subrange(0, n as int - 0));
                    assert(old(self).posts.as_map().contains_key(id@));
                    assert(distinct_voters(vsg));
                }
                let mut t: usize = 0;
                while t < k
                    invariant
                        t <= k,
                        k <= n,
                        k <= limit,
                        n == vsg.len(),
                        k as int == min_int(limit as int, n as int),
                        distinct_voters(vsg),
                        vs@ == vsg.subrange(0, n as int - t as int),
                        self.config == old(self).config,
                        self.block_number == old(self).block_number,
                        self.posts == old(self).posts,
                        self.votes.wf(),
                        self.votes.as_map() == old(self).votes.as_map().remove(id@),
                        self.ledger.wf(),
                        self.ledger.ed() == old(self).ledger.ed(),
                        forall|w: u64| #[trigger]
                            self.ledger.acct(w) == (if has_voter(
                                vsg.subrange(n as int - t as int, n as int),
                                w,
                            ) {
                                thaw_applied(
                                    old(self).ledger.acct(w),
                                    vote_rec_of(
                                        vsg.subrange(n as int - t as int, n as int),
                                        w,
                                    ).amount,
                                )
                            } else {
                                old(self).ledger.acct(w)
                            }),
                        self.events@.len() == e0 + t,
                        self.events@.subrange(0, e0) == old(self).events@,
                        forall|j: int|
                            0 <= j < t ==> (#[trigger] self.events@[e0 + j]
                                matches Event::VoteUnfrozen { id: eid, account, amount } && eid@
                                == id@ && account == vsg[n - 1 - j].voter && amount == vsg[n - 1
                                - j].amount),
                    decreases k - t,
                {
                    let ghost told = t as int;
                    let ghost po = vsg.subrange(n as int - told, n as int);
                    let rec = match vs.pop() {
                        Some(rc) => rc,
                        None => {
                            proof {
                                assert(false);
                            }
                            return Err(Error::PostUnended);
                        },
                    };
                    proof {
                        assert(rec == vsg[n as int - told - 1]);
                        assert(vs@ =~= vsg.subrange(0, n as int - told - 1));
                    }
                    self.ledger.decrease_frozen(FreezeReason::Vote, rec.voter, rec.amount);
                    let ghost evs_before = self.events@;
                    self.events.push(
                        Event::VoteUnfrozen { id, account: rec.voter, amount: rec.amount },
                    );
                    t = t + 1;
                    proof {
                        let pn = vsg.subrange(n as int - told - 1, n as int);
                        assert(pn[0] == rec);
                        assert(distinct_voters(pn)) by {
                            assert forall|i: int, j: int|
                                0 <= i < j < pn.len() implies pn[i].voter != pn[j].voter by {
                                assert(pn[i] == vsg[n - told - 1 + i]);
                                assert(pn[j] == vsg[n - told - 1 + j]);
                            }
                        }
                        assert(distinct_voters(po)) by {
                            assert forall|i: int, j: int|
                                0 <= i < j < po.len() implies po[i].voter != po[j].voter by {
                                assert(po[i] == vsg[n - told + i]);
                                assert(po[j] == vsg[n - told + j]);
                            }
                        }
                        assert(!has_voter(po, rec.voter)) by {
                            if has_voter(po, rec.voter) {
                                let i = choose|i: int|
                                    0 <= i < po.len() && po[i].voter == rec.voter;
                                assert(po[i] == vsg[n - told + i]);
                                assert(vsg[n - told - 1].voter == vsg[n - told + i].voter);
                            }
                        }
                        assert forall|w: u64| #[trigger]
                            self.ledger.acct(w) == (if has_voter(pn, w) {
                                thaw_applied(old(self).ledger.acct(w), vote_rec_of(pn, w).amount)
                            } else {
                                old(self).ledger.acct(w)
                            }) by {
                            if w == rec.voter {
                                lemma_vote_index_at(pn, w, 0);
                            } else {
                                if has_voter(po, w) {
                                    let i = choose|i: int| 0 <= i < po.len() && po[i].voter == w;
                                    lemma_vote_index_at(po, w, i);
                                    assert(pn[i + 1] == po[i]);
                                    lemma_vote_index_at(pn, w, i + 1);
                                } else {
                                    assert(!has_voter(pn, w)) by {
                                        if has_voter(pn, w) {
                                            let j = choose|j: int|
                                                0 <= j < pn.len() && pn[j].voter == w;
                                            assert(j != 0);
                                            assert(pn[j] == po[j - 1]);
                                        }
                                    }
                                }
                            }
                        }
                        assert forall|x: int| 0 <= x < e0 implies self.events@[x] == old(
                            self,
                        ).events@[x] by {
                            assert(self.events@[x] == evs_before[x]);
                            assert(evs_before[x] == evs_before.subrange(0, e0)[x]);
                        }
                        assert(self.events@.subrange(0, e0) =~= old(self).events@);
                        assert forall|j: int|
                            0 <= j < t implies (#[trigger] self.events@[e0 + j]
                                matches Event::VoteUnfrozen { id: eid, account, amount } && eid@
                                == id@ && account == vsg[n - 1 - j].voter && amount == vsg[n - 1
                                - j].amount) by {
                            if j < told {
                                assert(self.events@[e0 + j] == evs_before[e0 + j]);
                            } else {
                                assert(self.events@[e0 + j] == self.events@.last());
                                assert(rec == vsg[n - 1 - j]);
                            }
                        }
                    }
                }
                let ghost pre = *old(self);
                let ghost id_s = id@;
                proof {
                    assert(vsg.subrange(n as int - k as int, n as int) == resolve_popped(
                        pre,
                        id_s,
                    ));
                    assert(resolve_pop_count(pre, id_s) == k as int);
                }
                if vs.len() == 0 {
                    proof {
                        assert(k == n);
                        assert(resolve_is_full(pre, id_s));
                    }
                    let _rel = self.ledger.release(HoldReason::StorageRent, submitter, rent);
                    let _removed = self.posts.remove(&id);
                    let ghost evs_loop = self.events@;
                    self.events.push(Event::PostResolved { id });
                    proof {
                        assert forall|w: u64| #[trigger]
                            self.ledger.acct(w) == resolve_acct(pre, id_s, w) by {}
                        assert forall|x: int| 0 <= x < e0 implies self.events@[x]
                            == pre.events_seq()[x] by {
                            assert(self.events@[x] == evs_loop[x]);
                            assert(evs_loop[x] == evs_loop.subrange(0, e0)[x]);
                        }
                        assert(self.events@.subrange(0, e0) =~= pre.events_seq());
                        assert forall|j: int|
                            0 <= j < k as int implies (#[trigger] self.events@[e0 + j]
                                matches Event::VoteUnfrozen { id: eid, account, amount } && eid@
                                == id_s && account == vsg[n - 1 - j].voter && amount == vsg[n - 1
                                - j].amount) by {
                            assert(self.events@[e0 + j] == evs_loop[e0 + j]);
                        }
                        assert forall|k2: Seq<u8>| #[trigger]
                            self.votes.as_map().contains_key(
                                k2,
                            ) implies self.posts.as_map().contains_key(k2) by {
                            assert(pre.votes.as_map().contains_key(k2));
                            assert(k2 != id_s);
                        }
                        assert forall|k2: Seq<u8>| #[trigger]
                            self.posts.as_map().contains_key(k2) implies post_votes_ok(
                            self.posts.as_map()[k2],
                            self.votes_of(k2),
                            self.config,
                        ) by {
                            assert(pre.posts.as_map().contains_key(k2));
                            assert(self.votes_of(k2) == pre.votes_of(k2));
                        }
                    }
                    Ok(())
                } else {
                    self.votes.insert(id, vs);
                    let ghost evs_loop = self.events@;
                    self.events.push(Event::PartiallyResolved { id });
                    proof {
                        assert(!resolve_is_full(pre, id_s));
                        assert forall|w: u64| #[trigger]
                            self.ledger.acct(w) == resolve_acct(pre, id_s, w) by {}
                        assert forall|x: int| 0 <= x < e0 implies self.events@[x]
                            == pre.events_seq()[x] by {
                            assert(self.events@[x] == evs_loop[x]);
                            assert(evs_loop[x] == evs_loop.subrange(0, e0)[x]);
                        }
                        assert(self.events@.subrange(0, e0) =~= pre.events_seq());
                        assert forall|j: int|
                            0 <= j < k as int implies (#[trigger] self.events@[e0 + j]
                                matches Event::VoteUnfrozen { id: eid, account, amount } && eid@
                                == id_s && account == vsg[n - 1 - j].voter && amount == vsg[n - 1
                                - j].amount) by {
                            assert(self.events@[e0 + j] == evs_loop[e0 + j]);
                        }
                        assert forall|k2: Seq<u8>| #[trigger]
                            self.votes.as_map().contains_key(
                                k2,
                            ) implies self.posts.as_map().contains_key(k2) by {
                            if k2 != id_s {
                                assert(pre.votes.as_map().contains_key(k2));
                            } else {
                                assert(pre.posts.as_map().contains_key(id_s));
                            }
                        }
                        crate::tally::lemma_sum_dir_prefix(
                            vsg,
                            Direction::Bullish,
                            n as int - k as int,
                        );
                        crate::tally::lemma_sum_dir_prefix(
                            vsg,
                            Direction::Bearish,
                            n as int - k as int,
                        );
                        assert forall|k2: Seq<u8>| #[trigger]
                            self.posts.as_map().contains_key(k2) implies post_votes_ok(
                            self.posts.as_map()[k2],
                            self.votes_of(k2),
                            self.config,
                        ) by {
                            assert(pre.posts.as_map().contains_key(k2));
                            if k2 == id_s {
                                assert(self.votes_of(id_s) == vsg.subrange(
                                    0,
                                    n as int - k as int,
                                ));
                                assert(post_votes_ok(pre.posts.as_map()[id_s], vsg, self.config));
                                let rem = vsg.subrange(0, n as int - k as int);
                                assert(distinct_voters(rem)) by {
                                    assert forall|i: int, j: int|
                                        0 <= i < j < rem.len() implies rem[i].voter
                                        != rem[j].voter by {
                                        assert(rem[i] == vsg[i]);
                                        assert(rem[j] == vsg[j]);
                                    }
                                }
                            } else {
                                assert(self.votes_of(k2) == pre.votes_of(k2));
                            }
                        }
                    }
                    Ok(())
                }
            },
        }
    }
}

} // verus!
