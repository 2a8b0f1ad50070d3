use bullposting::Config;
use bullposting::Direction;
use bullposting::Error;
use bullposting::Event;
use bullposting::Ledger;
use bullposting::Pallet;
use bullposting::Post;

fn test_config() -> Config {
    Config {
        voting_period: 1000,
        bond_minimum: 50,
        vote_minimum: 50,
        max_url_length: 2000,
        // false = flat reward, true = coefficient of the bond
        reward_style: true,
        flat_reward: 500,
        reward_coefficient: 100,
        // false = flat slash, true = coefficient of the bond
        slash_style: true,
        flat_slash: 500,
        slash_coefficient: 100,
        max_voters: 1500,
        storage_rent: 100,
        unfreeze_limit: 1000,
    }
}

// Genesis: accounts 0..=3 hold 1001 each; the existential deposit is 1.
fn new_test_ext() -> Pallet {
    let mut pallet = Pallet::new(test_config(), Ledger::new(1));
    pallet.set_balance(0, 1001);
    pallet.set_balance(1, 1001);
    pallet.set_balance(2, 1001);
    pallet.set_balance(3, 1001);
    pallet
}

#[test]
fn test_try_submit_post() {
    let mut pallet = new_test_ext();
    let alice = 0;
    let bob = 1;
    let bond = 300;
    // Existential deposit is 1
    let balance = 1001;
    let voting_period = 1000;
    let post_url: Vec<u8> =
        "https://paritytech.github.io/polkadot-sdk/master/sp_test_primitives/type.BlockNumber.html"
            .into();
    let post_id = sp_io::hashing::blake2_256(&post_url);
    let empty_post: Vec<u8> = "".into();
    let strange_post: Vec<u8> = "1234234asd!#%2lvliasdè÷ĳˇԦץڷॷ✗㈧倨".into();
    let too_long: Vec<u8> = [5; 2001].into();

    // Go past genesis block so events get deposited
    pallet.set_block_number(1);

    assert_eq!(pallet.free_balance(alice), balance);
    assert_eq!(pallet.reducible_balance(alice), balance - 1);

    // Cannot submit an empty post
    assert_eq!(pallet.try_submit_post(alice, empty_post, bond), Err(Error::Empty));

    // Cannot submit a post with a bond lower than `BondMinimum`
    assert_eq!(pallet.try_submit_post(alice, post_url.clone(), 25), Err(Error::BondTooLow));

    // Cannot submit a post longer than `MaxUrlLength`
    assert_eq!(pallet.try_submit_post(alice, too_long, bond), Err(Error::InputTooLong));

    // Cannot bond more tokens than you have available
    assert_eq!(
        pallet.try_submit_post(alice, post_url.clone(), 1500),
        Err(Error::InsufficientFreeBalance)
    );

    // Call success with storage and event
    assert_eq!(pallet.try_submit_post(alice, post_url.clone(), bond), Ok(()));
    let testpost = Post {
        submitter: alice,
        bond,
        bull_votes: 0,
        bear_votes: 0,
        voting_until: pallet.block_number() + voting_period,
        ended: false,
    };
    assert_eq!(pallet.post(&post_id), Some(testpost));
    assert_eq!(
        pallet.last_event(),
        Some(Event::PostSubmitted {
            id: post_id,
            submitter: alice,
            bond,
            voting_until: pallet.block_number() + voting_period,
        })
    );

    // Tokens bonded (the 100 is the StorageRent)
    assert_eq!(pallet.total_balance_on_hold(alice), bond + 100);

    // Cannot resubmit an existing post
    assert_eq!(pallet.free_balance(bob), balance);
    assert_eq!(pallet.reducible_balance(bob), balance - 1);
    assert_eq!(pallet.try_submit_post(bob, post_url, bond), Err(Error::PostAlreadyExists));

    // Can submit post with a weird input
    assert_eq!(pallet.try_submit_post(bob, strange_post, bond), Ok(()));
}

#[test]
fn test_try_submit_vote() {
    let mut pallet = new_test_ext();
    let alice = 0;
    let bob = 1;
    let charlie = 2;
    let david = 10000;
    let bond = 300;
    let vote_amount = 500;
    let voting_period = 1000;
    let post_url: Vec<u8> =
        "https://paritytech.github.io/polkadot-sdk/master/sp_test_primitives/type.BlockNumber.html"
            .into();
    let post_id = sp_io::hashing::blake2_256(&post_url);
    let empty_vote: Vec<u8> = "".into();
    let fake_post_url: Vec<u8> = "get rekt kid".into();
    let too_long: Vec<u8> = [5; 2001].into();

    // Go past genesis block so events get deposited
    pallet.set_block_number(1);

    // Call success with storage and event
    assert_eq!(pallet.try_submit_post(alice, post_url.clone(), bond), Ok(()));

    // Can't submit an empty post info with your vote
    assert_eq!(
        pallet.try_submit_vote(bob, empty_vote, vote_amount, Direction::Bullish),
        Err(Error::Empty)
    );

    // Cannot submit a vote lower than `VoteMinimum`
    assert_eq!(
        pallet.try_submit_vote(bob, post_url.clone(), 25, Direction::Bullish),
        Err(Error::VoteTooLow)
    );

    // Can't vote on a post that's longer than `MaxUrlLength`
    assert_eq!(
        pallet.try_submit_vote(bob, too_long, vote_amount, Direction::Bullish),
        Err(Error::InputTooLong)
    );

    // Can't vote on a non-existant post
    assert_eq!(
        pallet.try_submit_vote(bob, fake_post_url, vote_amount, Direction::Bullish),
        Err(Error::PostDoesNotExist)
    );

    // Can't vote with more than your balance
    assert_eq!(
        pallet.try_submit_vote(bob, post_url.clone(), 1500, Direction::Bullish),
        Err(Error::InsufficientFreeBalance)
    );

    // Bob votes Bullish
    assert_eq!(
        pallet.try_submit_vote(bob, post_url.clone(), vote_amount, Direction::Bullish),
        Ok(())
    );
    // Event
    assert_eq!(
        pallet.last_event(),
        Some(Event::VoteSubmitted {
            id: post_id,
            voter: bob,
            vote_amount,
            direction: Direction::Bullish,
        })
    );
    // Check that storage was updated
    assert_eq!(pallet.has_vote(bob, &post_id), true);

    // Charlie votes Bearish
    assert_eq!(
        pallet.try_submit_vote(charlie, post_url.clone(), vote_amount, Direction::Bearish),
        Ok(())
    );
    // Event
    assert_eq!(
        pallet.last_event(),
        Some(Event::VoteSubmitted {
            id: post_id,
            voter: charlie,
            vote_amount,
            direction: Direction::Bearish,
        })
    );

    // Can't cast an initial vote if you've already voted
    // Tries to change amount
    assert_eq!(
        pallet.try_submit_vote(bob, post_url.clone(), vote_amount + 50, Direction::Bullish),
        Err(Error::AlreadyVoted)
    );
    // Tries to change direction
    assert_eq!(
        pallet.try_submit_vote(bob, post_url.clone(), vote_amount, Direction::Bearish),
        Err(Error::AlreadyVoted)
    );

    // Alice votes Bullish
    assert_eq!(
        pallet.try_submit_vote(alice, post_url.clone(), vote_amount, Direction::Bullish),
        Ok(())
    );

    // Vote on post (starts at 2 because alice and bob are 0 and 1)
    for i in 2..2000u64 {
        pallet.set_balance(i, vote_amount + 50);
        let _ = pallet.try_submit_vote(i, post_url.clone(), vote_amount, Direction::Bullish);
    }

    // Can't vote if the maximum number of voters have already voted on this post
    assert_eq!(
        pallet.try_submit_vote(david, post_url.clone(), vote_amount, Direction::Bearish),
        Err(Error::VotersMaxed)
    );

    // Can't vote if the voting period has ended
    pallet.set_block_number(voting_period + 1);
    assert_eq!(
        pallet.try_submit_vote(david, post_url, vote_amount, Direction::Bullish),
        Err(Error::VotingEnded)
    );
}

#[test]
fn test_try_update_vote() {
    let mut pallet = new_test_ext();
    let alice = 0;
    let bob = 1;
    let charlie = 2;
    let bond = 300;
    let vote_amount = 500;
    let new_vote_amount = 505;
    let voting_period = 1000;
    let post_url: Vec<u8> =
        "https://paritytech.github.io/polkadot-sdk/master/sp_test_primitives/type.BlockNumber.html"
            .into();
    let post_id = sp_io::hashing::blake2_256(&post_url);
    let empty_vote: Vec<u8> = "".into();
    let fake_post_url: Vec<u8> = "get rekt kid".into();
    let too_long: Vec<u8> = [5; 2001].into();

    // Go past genesis block so events get deposited
    pallet.set_block_number(1);

    // Submit post
    assert_eq!(pallet.try_submit_post(alice, post_url.clone(), bond), Ok(()));

    // Cannot update a vote for a post that is too long
    assert_eq!(
        pallet.try_update_vote(bob, too_long, vote_amount, Direction::Bullish),
        Err(Error::InputTooLong)
    );

    // Cannot update a vote without an initial vote
    assert_eq!(
        pallet.try_update_vote(bob, post_url.clone(), vote_amount, Direction::Bullish),
        Err(Error::VoteDoesNotExist)
    );

    // Vote Bullish
    assert_eq!(
        pallet.try_submit_vote(bob, post_url.clone(), vote_amount, Direction::Bullish),
        Ok(())
    );
    // Event
    assert_eq!(
        pallet.last_event(),
        Some(Event::VoteSubmitted {
            id: post_id,
            voter: bob,
            vote_amount,
            direction: Direction::Bullish,
        })
    );
    // Check that storage was updated
    assert_eq!(pallet.has_vote(bob, &post_id), true);
    let initial = pallet.vote(bob, &post_id);

    // Can't submit an empty post info with your vote
    assert_eq!(
        pallet.try_update_vote(bob, empty_vote, vote_amount, Direction::Bullish),
        Err(Error::Empty)
    );

    // Can't update vote to be below the vote minimum
    assert_eq!(
        pallet.try_update_vote(bob, post_url.clone(), 25, Direction::Bullish),
        Err(Error::VoteTooLow)
    );

    // Can't vote on a non-existant post
    assert_eq!(
        pallet.try_update_vote(bob, fake_post_url, vote_amount, Direction::Bullish),
        Err(Error::PostDoesNotExist)
    );

    // Can't vote with more than your balance
    assert_eq!(
        pallet.try_update_vote(bob, post_url.clone(), 1500, Direction::Bullish),
        Err(Error::InsufficientFreeBalance)
    );

    // Someone else cannot update your vote
    assert_eq!(
        pallet.try_update_vote(charlie, post_url.clone(), vote_amount, Direction::Bullish),
        Err(Error::VoteDoesNotExist)
    );

    // Successful vote update to Bearish with higher vote
    assert_eq!(
        pallet.try_update_vote(bob, post_url.clone(), new_vote_amount, Direction::Bearish),
        Ok(())
    );
    // Event
    assert_eq!(
        pallet.last_event(),
        Some(Event::VoteUpdated {
            id: post_id,
            voter: bob,
            vote_amount: new_vote_amount,
            direction: Direction::Bearish,
        })
    );
    // Check that storage was updated
    let new = pallet.vote(bob, &post_id);
    assert_ne!(initial, new);

    // Successful vote update to Bearish with higher vote
    assert_eq!(
        pallet.try_update_vote(bob, post_url.clone(), new_vote_amount - 100, Direction::Bullish),
        Ok(())
    );
    // Event
    assert_eq!(
        pallet.last_event(),
        Some(Event::VoteUpdated {
            id: post_id,
            voter: bob,
            vote_amount: new_vote_amount - 100,
            direction: Direction::Bullish,
        })
    );
    // Check that storage was updated
    let new2 = pallet.vote(bob, &post_id);
    assert_ne!(new, new2);

    // Can't vote is the voting period has ended
    pallet.set_block_number(voting_period + 1);
    assert_eq!(
        pallet.try_update_vote(bob, post_url, vote_amount, Direction::Bullish),
        Err(Error::VotingEnded)
    );
}

#[test]
fn test_try_end_post() {
    let mut pallet = new_test_ext();
    let alice = 0;
    let bob = 1;
    let charlie = 2;
    let bond = 300;
    let vote_amount = 500;
    let voting_period = 1000;
    let post_url: Vec<u8> =
        "https://paritytech.github.io/polkadot-sdk/master/sp_test_primitives/type.BlockNumber.html"
            .into();
    let post_id = sp_io::hashing::blake2_256(&post_url);
    let post_2_url: Vec<u8> = "testingtestingblahblah".into();
    let post_2_id = sp_io::hashing::blake2_256(&post_2_url);
    let empty_post: Vec<u8> = "".into();
    let fake_post_url: Vec<u8> = "get rekt kid".into();
    let too_long: Vec<u8> = [5; 2001].into();

    // Go past genesis block so events get deposited
    pallet.set_block_number(1);

    // Submit post
    assert_eq!(pallet.try_submit_post(alice, post_url.clone(), bond), Ok(()));
    assert_eq!(pallet.try_submit_post(alice, post_2_url.clone(), bond), Ok(()));

    // Vote
    assert_eq!(
        pallet.try_submit_vote(bob, post_url.clone(), vote_amount, Direction::Bullish),
        Ok(())
    );
    assert_eq!(
        pallet.try_submit_vote(charlie, post_2_url.clone(), vote_amount, Direction::Bearish),
        Ok(())
    );

    // Cannot end during the voting period
    assert_eq!(pallet.try_end_post(alice, post_url.clone()), Err(Error::VotingStillOngoing));

    // End voting period
    pallet.set_block_number(voting_period + 1);

    // Error if submit an empty input for the post
    assert_eq!(pallet.try_end_post(alice, empty_post), Err(Error::Empty));

    // Error if you submit a post that is longer than `MaxUrlLength`
    assert_eq!(pallet.try_end_post(alice, too_long), Err(Error::InputTooLong));

    // Error if submit an empty (or otherwise incorrect) input for the post
    assert_eq!(pallet.try_end_post(alice, fake_post_url), Err(Error::PostDoesNotExist));

    // Resolve the post
    assert_eq!(pallet.try_end_post(alice, post_url.clone()), Ok(()));
    // Rewarded event with RewardStyle = true (RewardCoefficient)
    assert_eq!(
        pallet.last_event(),
        Some(Event::PostEnded {
            id: post_id,
            submitter: alice,
            result: Direction::Bullish,
            rewarded: bond,
            slashed: 0,
        })
    );

    // Error if the post has already been resolved
    assert_eq!(pallet.try_end_post(bob, post_url), Err(Error::PostAlreadyEnded));

    // Post can be resolved by someone who is not the submitter
    assert_eq!(pallet.try_end_post(bob, post_2_url.clone()), Ok(()));
    // Slashed event with SlashStyle = true (SlashCoefficient)
    assert_eq!(
        pallet.last_event(),
        Some(Event::PostEnded {
            id: post_2_id,
            submitter: alice,
            result: Direction::Bearish,
            rewarded: 0,
            slashed: bond,
        })
    );
}

#[test]
fn test_try_resolve_post() {
    let mut pallet = new_test_ext();
    let alice = 0;
    let bob = 1;
    let charlie = 2;
    let bond = 300;
    let vote_amount = 500;
    let voting_period = 1000;
    let post_url: Vec<u8> =
        "https://paritytech.github.io/polkadot-sdk/master/sp_test_primitives/type.BlockNumber.html"
            .into();
    let post_id = sp_io::hashing::blake2_256(&post_url);
    let empty_post: Vec<u8> = "".into();
    let fake_post_url: Vec<u8> = "get rekt kid".into();
    let too_long: Vec<u8> = [5; 2001].into();

    // Go past genesis block so events get deposited
    pallet.set_block_number(1);

    // Submit post
    assert_eq!(pallet.try_submit_post(alice, post_url.clone(), bond), Ok(()));
    // Vote on post
    assert_eq!(
        pallet.try_submit_vote(bob, post_url.clone(), vote_amount, Direction::Bullish),
        Ok(())
    );
    assert_eq!(
        pallet.try_submit_vote(charlie, post_url.clone(), vote_amount, Direction::Bearish),
        Ok(())
    );

    // Error if the post is not yet ended
    assert_eq!(pallet.try_resolve_post(bob, post_url.clone()), Err(Error::PostUnended));

    // End voting
    pallet.set_block_number(voting_period + 1);
    assert_eq!(pallet.try_end_post(bob, post_url.clone()), Ok(()));

    // Error on empty post input
    assert_eq!(pallet.try_resolve_post(bob, empty_post.clone()), Err(Error::Empty));

    // Error if the post input is longer than `MaxUrlLength`
    assert_eq!(pallet.try_resolve_post(bob, too_long), Err(Error::InputTooLong));

    // Error if the post does not exist
    assert_eq!(pallet.try_resolve_post(bob, fake_post_url), Err(Error::PostDoesNotExist));

    // Successfully unfreeze a vote
    assert_eq!(pallet.try_resolve_post(bob, post_url.clone()), Ok(()));
    // Event
    assert_eq!(pallet.last_event(), Some(Event::PostResolved { id: post_id }));

    // Check everything was removed from storage
    assert!(pallet.voters(&post_id).is_none());
    assert!(!pallet.has_vote(charlie, &post_id));
    assert!(pallet.post(&post_id).is_none());
    assert!(pallet.vote_count(&post_id).is_none());
}

#[test]
fn test_try_resolve_post_big() {
    let mut pallet = new_test_ext();
    let alice = 0;
    let bob = 1;
    let charlie = 2;
    let bond = 300;
    let vote_amount = 500;
    let voting_period = 1000;
    let post_url: Vec<u8> =
        "https://paritytech.github.io/polkadot-sdk/master/sp_test_primitives/type.BlockNumber.html"
            .into();
    let post_id = sp_io::hashing::blake2_256(&post_url);
    let empty_post: Vec<u8> = "".into();
    let fake_post_url: Vec<u8> = "get rekt kid".into();
    let too_long: Vec<u8> = [5; 2001].into();

    // Go past genesis block so events get deposited
    pallet.set_block_number(1);

    // Submit post
    assert_eq!(pallet.try_submit_post(alice, post_url.clone(), bond), Ok(()));
    // Vote on post
    for i in 10..1500u64 {
        pallet.set_balance(i, vote_amount + 50);
        let _ = pallet.try_submit_vote(i, post_url.clone(), vote_amount, Direction::Bullish);
    }
    assert_eq!(
        pallet.try_submit_vote(bob, post_url.clone(), vote_amount, Direction::Bullish),
        Ok(())
    );
    assert_eq!(
        pallet.try_submit_vote(charlie, post_url.clone(), vote_amount, Direction::Bearish),
        Ok(())
    );

    // Error if the post is not yet ended
    assert_eq!(pallet.try_resolve_post(bob, post_url.clone()), Err(Error::PostUnended));

    // End voting
    pallet.set_block_number(voting_period + 1);
    assert_eq!(pallet.try_end_post(bob, post_url.clone()), Ok(()));

    // Error on empty post input
    assert_eq!(pallet.try_resolve_post(bob, empty_post.clone()), Err(Error::Empty));

    // Error if the post input is longer than `MaxUrlLength`
    assert_eq!(pallet.try_resolve_post(bob, too_long), Err(Error::InputTooLong));

    // Error if the post does not exist
    assert_eq!(pallet.try_resolve_post(bob, fake_post_url), Err(Error::PostDoesNotExist));

    // Successfully unfreeze some votes
    assert_eq!(pallet.try_resolve_post(bob, post_url.clone()), Ok(()));
    // Event
    assert_eq!(pallet.last_event(), Some(Event::PartiallyResolved { id: post_id }));

    // Finish unfreezing
    assert_eq!(pallet.try_resolve_post(bob, post_url.clone()), Ok(()));
    // Event
    assert_eq!(pallet.last_event(), Some(Event::PostResolved { id: post_id }));

    // Check everything was removed from storage
    assert!(pallet.voters(&post_id).is_none());
    assert!(!pallet.has_vote(charlie, &post_id));
    assert!(pallet.post(&post_id).is_none());
    assert!(pallet.vote_count(&post_id).is_none());
}
