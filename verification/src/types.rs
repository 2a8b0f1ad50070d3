//! Plain data: directions, escrow reasons, posts, configuration, events and
//! the error taxonomy.

use vstd::prelude::*;

verus! {

/// A post is identified by the 32-byte content address of its bytes.
pub type PostId = [u8; 32];

/// Direction of a vote, and the outcome of a concluded post.
#[derive(Debug, PartialEq, Eq, Structural, Clone, Copy, Default)]
pub enum Direction {
    #[default]
    Bullish,
    Bearish,
    Tie,
}

/// A reason for placing a hold on an account's funds.
#[derive(Debug, PartialEq, Eq, Structural, Clone, Copy)]
pub enum HoldReason {
    /// Bond of a post.
    PostBond,
    /// Locked to cover the cost of keeping the post in storage, released
    /// when the post is fully resolved.
    StorageRent,
}

/// A reason for freezing an account's funds.
#[derive(Debug, PartialEq, Eq, Structural, Clone, Copy)]
pub enum FreezeReason {
    /// Stake locked behind a vote.
    Vote,
}

/// A submitted post: its submitter, bond, running vote tallies, the end of
/// its voting window and whether it has been ended.
#[derive(Debug, PartialEq, Eq, Structural, Clone, Copy)]
pub struct Post {
    pub submitter: u64,
    pub bond: u64,
    pub bull_votes: u64,
    pub bear_votes: u64,
    pub voting_until: u64,
    pub ended: bool,
}

/// Runtime configuration of the system.
#[derive(Debug, PartialEq, Eq, Structural, Clone, Copy)]
pub struct Config {
    /// False: bullish posts are rewarded a flat amount. True: a coefficient
    /// of the bond.
    pub reward_style: bool,
    /// The reward for a bullish post when `reward_style` is false.
    pub flat_reward: u32,
    /// Percentage of the bond minted as reward when `reward_style` is true.
    pub reward_coefficient: u32,
    /// False: bearish posts are slashed a flat amount. True: a coefficient
    /// of the bond.
    pub slash_style: bool,
    /// The slash for a bearish post when `slash_style` is false.
    pub flat_slash: u32,
    /// Percentage of the bond burned when `slash_style` is true, capped
    /// at 100.
    pub slash_coefficient: u8,
    /// The number of blocks a post's voting window stays open.
    pub voting_period: u64,
    /// Bonds below this amount are rejected.
    pub bond_minimum: u32,
    /// Votes below this amount are rejected.
    pub vote_minimum: u32,
    /// The maximum number of accounts that can vote on one post.
    pub max_voters: u32,
    /// The amount held to cover a post's storage until cleanup.
    pub storage_rent: u32,
    /// The maximum accepted length of submitted content.
    pub max_url_length: u32,
    /// The maximum number of votes unfrozen per resolve call.
    pub unfreeze_limit: u32,
}

/// Events the operations emit.
#[derive(Debug, PartialEq, Eq, Clone, Copy)]
pub enum Event {
    /// A post was submitted and its bond and storage rent were held.
    PostSubmitted { id: PostId, submitter: u64, bond: u64, voting_until: u64 },
    /// A vote was submitted and its stake frozen.
    VoteSubmitted { id: PostId, voter: u64, vote_amount: u64, direction: Direction },
    /// An existing vote was replaced.
    VoteUpdated { id: PostId, voter: u64, vote_amount: u64, direction: Direction },
    /// A post's voting window was closed and its submitter rewarded or
    /// slashed; one of `rewarded` and `slashed` is always zero.
    PostEnded { id: PostId, submitter: u64, result: Direction, rewarded: u64, slashed: u64 },
    /// A single vote's stake was unfrozen during resolution.
    VoteUnfrozen { id: PostId, account: u64, amount: u64 },
    /// A resolve call hit its unfreeze limit; more calls are needed.
    PartiallyResolved { id: PostId },
    /// The post was fully resolved and removed from storage.
    PostResolved { id: PostId },
}

/// Why a call was rejected. Every rejection is detected before any state
/// change, so a failed call leaves the system untouched.
#[derive(Debug, PartialEq, Eq, Structural, Clone, Copy)]
pub enum Error {
    /// Submitted content was longer than the configured maximum.
    InputTooLong,
    /// Submitted content was empty.
    Empty,
    /// The attempted bond was below the configured minimum.
    BondTooLow,
    /// The attempted vote was below the configured minimum.
    VoteTooLow,
    /// A post with the same content already exists.
    PostAlreadyExists,
    /// The caller's balance cannot cover the requested hold or stake, or the
    /// stake cannot be accounted.
    InsufficientFreeBalance,
    /// No post with this content exists.
    PostDoesNotExist,
    /// The post already has the maximum number of voters.
    VotersMaxed,
    /// The caller already voted on this post.
    AlreadyVoted,
    /// The caller has no vote on this post to update.
    VoteDoesNotExist,
    /// The voting window is still open, so the post cannot be ended.
    VotingStillOngoing,
    /// The post's voting window has closed but nobody has ended it yet.
    PostUnended,
    /// The post was already ended.
    PostAlreadyEnded,
    /// The voting window for this post has closed.
    VotingEnded,
}

} // verus!
