use bullposting::Config;
use bullposting::Direction;
use bullposting::Error;
use bullposting::Event;
use bullposting::Ledger;
use bullposting::Pallet;

fn base_config() -> Config {
    Config {
        voting_period: 1000,
        bond_minimum: 50,
        vote_minimum: 50,
        max_url_length: 2000,
        reward_style: true,
        flat_reward: 500,
        reward_coefficient: 100,
        slash_style: true,
        flat_slash: 500,
        slash_coefficient: 100,
        max_voters: 1500,
        storage_rent: 100,
        unfreeze_limit: 1000,
    }
}

fn chain_with(config: Config, balances: &[(u64, u64)]) -> Pallet {
    let mut pallet = Pallet::new(config, Ledger::new(1));
    for (who, amount) in balances {
        pallet.set_balance(*who, *amount);
    }
    pallet.set_block_number(1);
    pallet
}

// A balance of existential deposit + bond suffices, and the bond is then
// fully held.
#[test]
fn scenario_bond_fully_held() {
    let config = Config { storage_rent: 0, ..base_config() };
    let mut pallet = chain_with(config, &[(0, 1001)]);
    let url: Vec<u8> = "a post worth exactly everything".into();

    assert_eq!(pallet.reducible_balance(0), 1000);
    assert_eq!(pallet.try_submit_post(0, url, 1000), Ok(()));
    // The bond is fully held: only the existential deposit stays free.
    assert_eq!(pallet.free_balance(0), 1);
    assert_eq!(pallet.total_balance_on_hold(0), 1000);
    assert_eq!(pallet.reducible_balance(0), 0);
}

// Equal bullish and bearish stake ends in a tie: nothing is minted and
// nothing is burned.
#[test]
fn scenario_tie_yields_no_reward_or_slash() {
    let mut pallet = chain_with(base_config(), &[(0, 1001), (1, 1001), (2, 1001)]);
    let url: Vec<u8> = "an evenly contested claim".into();
    let id = sp_io::hashing::blake2_256(&url);

    assert_eq!(pallet.try_submit_post(0, url.clone(), 300), Ok(()));
    assert_eq!(pallet.try_submit_vote(1, url.clone(), 500, Direction::Bullish), Ok(()));
    assert_eq!(pallet.try_submit_vote(2, url.clone(), 500, Direction::Bearish), Ok(()));
    let free_before = pallet.free_balance(0);

    pallet.set_block_number(1001);
    assert_eq!(pallet.try_end_post(1, url), Ok(()));
    assert_eq!(
        pallet.last_event(),
        Some(Event::PostEnded {
            id,
            submitter: 0,
            result: Direction::Tie,
            rewarded: 0,
            slashed: 0,
        })
    );
    // Only the bond came back; nothing else moved.
    assert_eq!(pallet.free_balance(0), free_before + 300);
}

// With a 100% reward coefficient, a bullish outcome mints the full bond.
#[test]
fn scenario_coefficient_reward_full_bond() {
    let mut pallet = chain_with(base_config(), &[(0, 1001), (1, 1001)]);
    let url: Vec<u8> = "a post the crowd loves".into();
    let id = sp_io::hashing::blake2_256(&url);

    assert_eq!(pallet.try_submit_post(0, url.clone(), 300), Ok(()));
    assert_eq!(pallet.try_submit_vote(1, url.clone(), 500, Direction::Bullish), Ok(()));
    let free_before = pallet.free_balance(0);

    pallet.set_block_number(1001);
    assert_eq!(pallet.try_end_post(1, url), Ok(()));
    assert_eq!(
        pallet.last_event(),
        Some(Event::PostEnded {
            id,
            submitter: 0,
            result: Direction::Bullish,
            rewarded: 300,
            slashed: 0,
        })
    );
    // Bond released plus the minted reward.
    assert_eq!(pallet.free_balance(0), free_before + 300 + 300);
}

// Overlong content is rejected by every operation, whatever the other
// parameters are.
#[test]
fn scenario_overlong_content_always_rejected() {
    let mut pallet = chain_with(base_config(), &[(0, 1001), (1, 1001)]);
    let too_long: Vec<u8> = vec![7; 2001];

    assert_eq!(pallet.try_submit_post(0, too_long.clone(), 300), Err(Error::InputTooLong));
    assert_eq!(pallet.try_submit_post(0, too_long.clone(), u64::MAX), Err(Error::InputTooLong));
    assert_eq!(
        pallet.try_submit_vote(1, too_long.clone(), 500, Direction::Bullish),
        Err(Error::InputTooLong)
    );
    assert_eq!(
        pallet.try_update_vote(1, too_long.clone(), 500, Direction::Bearish),
        Err(Error::InputTooLong)
    );
    assert_eq!(pallet.try_end_post(1, too_long.clone()), Err(Error::InputTooLong));
    assert_eq!(pallet.try_resolve_post(1, too_long), Err(Error::InputTooLong));
}

// Content of exactly the maximum length is accepted.
#[test]
fn max_length_content_accepted() {
    let mut pallet = chain_with(base_config(), &[(0, 1001)]);
    let at_limit: Vec<u8> = vec![7; 2000];
    assert_eq!(pallet.try_submit_post(0, at_limit, 300), Ok(()));
}

// With the flat styles configured, reward and slash are the flat amounts.
#[test]
fn flat_reward_and_flat_slash() {
    let config = Config {
        reward_style: false,
        flat_reward: 450,
        slash_style: false,
        flat_slash: 120,
        ..base_config()
    };
    let mut pallet = chain_with(config, &[(0, 1001), (1, 1001), (2, 1001)]);
    let bull_url: Vec<u8> = "praised".into();
    let bear_url: Vec<u8> = "panned".into();

    assert_eq!(pallet.try_submit_post(0, bull_url.clone(), 300), Ok(()));
    assert_eq!(pallet.try_submit_post(0, bear_url.clone(), 300), Ok(()));
    assert_eq!(pallet.try_submit_vote(1, bull_url.clone(), 500, Direction::Bullish), Ok(()));
    assert_eq!(pallet.try_submit_vote(2, bear_url.clone(), 500, Direction::Bearish), Ok(()));

    pallet.set_block_number(1001);
    assert_eq!(pallet.try_end_post(1, bull_url.clone()), Ok(()));
    assert_eq!(
        pallet.last_event(),
        Some(Event::PostEnded {
            id: sp_io::hashing::blake2_256(&bull_url),
            submitter: 0,
            result: Direction::Bullish,
            rewarded: 450,
            slashed: 0,
        })
    );
    assert_eq!(pallet.try_end_post(1, bear_url.clone()), Ok(()));
    assert_eq!(
        pallet.last_event(),
        Some(Event::PostEnded {
            id: sp_io::hashing::blake2_256(&bear_url),
            submitter: 0,
            result: Direction::Bearish,
            rewarded: 0,
            slashed: 120,
        })
    );
}

// A slash coefficient above 100 is capped: at most the whole bond is
// slashed.
#[test]
fn coefficient_slash_capped_at_hundred() {
    let config = Config { slash_coefficient: 250, ..base_config() };
    let mut pallet = chain_with(config, &[(0, 1001), (1, 1001)]);
    let url: Vec<u8> = "a post the crowd hates".into();

    assert_eq!(pallet.try_submit_post(0, url.clone(), 300), Ok(()));
    assert_eq!(pallet.try_submit_vote(1, url.clone(), 500, Direction::Bearish), Ok(()));
    pallet.set_block_number(1001);
    assert_eq!(pallet.try_end_post(1, url.clone()), Ok(()));
    assert_eq!(
        pallet.last_event(),
        Some(Event::PostEnded {
            id: sp_io::hashing::blake2_256(&url),
            submitter: 0,
            result: Direction::Bearish,
            rewarded: 0,
            slashed: 300,
        })
    );
}

// Coefficient amounts are integer percentages of the bond, rounded down.
#[test]
fn coefficient_amounts_round_down() {
    let config = Config {
        bond_minimum: 1,
        reward_coefficient: 25,
        ..base_config()
    };
    let mut pallet = chain_with(config, &[(0, 1001), (1, 1001)]);
    let url: Vec<u8> = "a modest post".into();

    // 25% of 10, rounded down, is 2.
    assert_eq!(pallet.try_submit_post(0, url.clone(), 10), Ok(()));
    assert_eq!(pallet.try_submit_vote(1, url.clone(), 500, Direction::Bullish), Ok(()));
    pallet.set_block_number(1001);
    assert_eq!(pallet.try_end_post(1, url.clone()), Ok(()));
    assert_eq!(
        pallet.last_event(),
        Some(Event::PostEnded {
            id: sp_io::hashing::blake2_256(&url),
            submitter: 0,
            result: Direction::Bullish,
            rewarded: 2,
            slashed: 0,
        })
    );
}

// Posts are stored under the Blake2 digest of their content: the host's
// hash finds them, distinct contents get distinct ids, and an arbitrary id
// finds nothing.
#[test]
fn content_addressing_matches_host_hash() {
    let mut pallet = chain_with(base_config(), &[(0, 1001)]);
    let first: Vec<u8> = "alpha".into();
    let second: Vec<u8> = "beta".into();
    let first_id = sp_io::hashing::blake2_256(&first);
    let second_id = sp_io::hashing::blake2_256(&second);

    assert_eq!(pallet.try_submit_post(0, first, 100), Ok(()));
    assert_eq!(pallet.try_submit_post(0, second, 100), Ok(()));

    assert_ne!(first_id, second_id);
    assert!(pallet.post(&first_id).is_some());
    assert!(pallet.post(&second_id).is_some());
    assert!(pallet.post(&[0u8; 32]).is_none());
}

// A voter set of exactly the unfreeze limit is a full drain: one call
// unfreezes everything, releases the rent and deletes the post.
#[test]
fn resolve_with_exact_limit_completes_in_one_call() {
    let config = Config { unfreeze_limit: 2, ..base_config() };
    let mut pallet = chain_with(config, &[(0, 1001), (1, 1001), (2, 1001)]);
    let url: Vec<u8> = "drained and closed in one batch".into();
    let id = sp_io::hashing::blake2_256(&url);

    assert_eq!(pallet.try_submit_post(0, url.clone(), 300), Ok(()));
    assert_eq!(pallet.try_submit_vote(1, url.clone(), 500, Direction::Bullish), Ok(()));
    assert_eq!(pallet.try_submit_vote(2, url.clone(), 500, Direction::Bearish), Ok(()));
    pallet.set_block_number(1001);
    let free_before = pallet.free_balance(0);
    assert_eq!(pallet.try_end_post(1, url.clone()), Ok(()));

    assert_eq!(pallet.try_resolve_post(1, url.clone()), Ok(()));
    assert_eq!(pallet.last_event(), Some(Event::PostResolved { id }));
    assert!(pallet.post(&id).is_none());
    assert!(pallet.voters(&id).is_none());
    assert!(pallet.vote_count(&id).is_none());
    assert_eq!(pallet.balance_frozen(1), 0);
    assert_eq!(pallet.balance_frozen(2), 0);
    // Bond and storage rent are both back with the submitter.
    assert_eq!(pallet.free_balance(0), free_before + 300 + 100);
    assert_eq!(pallet.total_balance_on_hold(0), 0);
}

// Tie votes are recorded but count toward neither tally, and leaving a
// tie vote moves the stake into the new direction only.
#[test]
fn tie_direction_counts_toward_neither_tally() {
    let mut pallet = chain_with(base_config(), &[(0, 1001), (1, 1001)]);
    let url: Vec<u8> = "undecided".into();
    let id = sp_io::hashing::blake2_256(&url);

    assert_eq!(pallet.try_submit_post(0, url.clone(), 300), Ok(()));
    assert_eq!(pallet.try_submit_vote(1, url.clone(), 500, Direction::Tie), Ok(()));
    let post = pallet.post(&id).unwrap();
    assert_eq!(post.bull_votes, 0);
    assert_eq!(post.bear_votes, 0);
    assert_eq!(pallet.vote(1, &id), (500, Direction::Tie));

    assert_eq!(pallet.try_update_vote(1, url.clone(), 400, Direction::Bullish), Ok(()));
    let post = pallet.post(&id).unwrap();
    assert_eq!(post.bull_votes, 400);
    assert_eq!(post.bear_votes, 0);
}

// The vote freeze follows the stake through the lifecycle: updates move
// it by the net difference in either direction, and resolution returns
// it all.
#[test]
fn vote_freeze_follows_lifecycle() {
    let mut pallet = chain_with(base_config(), &[(0, 1001), (1, 1001)]);
    let url: Vec<u8> = "stake in motion".into();

    assert_eq!(pallet.try_submit_post(0, url.clone(), 300), Ok(()));
    assert_eq!(pallet.try_submit_vote(1, url.clone(), 500, Direction::Bullish), Ok(()));
    assert_eq!(pallet.balance_frozen(1), 500);

    // Lowering the vote thaws the difference.
    assert_eq!(pallet.try_update_vote(1, url.clone(), 400, Direction::Bullish), Ok(()));
    assert_eq!(pallet.balance_frozen(1), 400);

    // Raising it freezes the difference again.
    assert_eq!(pallet.try_update_vote(1, url.clone(), 450, Direction::Bearish), Ok(()));
    assert_eq!(pallet.balance_frozen(1), 450);

    pallet.set_block_number(1001);
    assert_eq!(pallet.try_end_post(1, url.clone()), Ok(()));
    assert_eq!(pallet.try_resolve_post(1, url), Ok(()));
    // The whole recorded stake was unfrozen.
    assert_eq!(pallet.balance_frozen(1), 0);
}

// The voting window boundary: at the closing block voting fails and
// ending succeeds; one block earlier it is the other way round.
#[test]
fn voting_window_boundary() {
    let mut pallet = chain_with(base_config(), &[(0, 1001), (1, 1001), (2, 1001)]);
    let url: Vec<u8> = "timing is everything".into();

    assert_eq!(pallet.try_submit_post(0, url.clone(), 300), Ok(()));
    // voting_until is submission height 1 plus the period of 1000.
    pallet.set_block_number(1000);
    assert_eq!(pallet.try_end_post(1, url.clone()), Err(Error::VotingStillOngoing));
    assert_eq!(pallet.try_submit_vote(1, url.clone(), 500, Direction::Bullish), Ok(()));

    pallet.set_block_number(1001);
    assert_eq!(
        pallet.try_submit_vote(2, url.clone(), 500, Direction::Bearish),
        Err(Error::VotingEnded)
    );
    assert_eq!(
        pallet.try_update_vote(1, url.clone(), 400, Direction::Bullish),
        Err(Error::VotingEnded)
    );
    assert_eq!(pallet.try_end_post(2, url), Ok(()));
}

// A stake of exactly the voter's total balance is accepted, for first
// votes and for updates alike; one token more is not.
#[test]
fn vote_with_entire_balance_accepted() {
    let mut pallet = chain_with(base_config(), &[(0, 1001), (1, 1001), (2, 1001)]);
    let url: Vec<u8> = "all in".into();
    let id = sp_io::hashing::blake2_256(&url);

    assert_eq!(pallet.try_submit_post(0, url.clone(), 300), Ok(()));
    assert_eq!(
        pallet.try_submit_vote(1, url.clone(), 1002, Direction::Bullish),
        Err(Error::InsufficientFreeBalance)
    );
    assert_eq!(pallet.try_submit_vote(1, url.clone(), 1001, Direction::Bullish), Ok(()));
    assert_eq!(pallet.vote(1, &id), (1001, Direction::Bullish));
    assert_eq!(pallet.balance_frozen(1), 1001);

    assert_eq!(pallet.try_submit_vote(2, url.clone(), 500, Direction::Bearish), Ok(()));
    assert_eq!(
        pallet.try_update_vote(2, url.clone(), 1002, Direction::Bearish),
        Err(Error::InsufficientFreeBalance)
    );
    assert_eq!(pallet.try_update_vote(2, url.clone(), 1001, Direction::Bearish), Ok(()));
    assert_eq!(pallet.vote(2, &id), (1001, Direction::Bearish));
}

// A post with no votes at all still ends and resolves cleanly.
#[test]
fn empty_post_lifecycle() {
    let mut pallet = chain_with(base_config(), &[(0, 1001)]);
    let url: Vec<u8> = "nobody cared".into();
    let id = sp_io::hashing::blake2_256(&url);
    let free_start = pallet.free_balance(0);

    assert_eq!(pallet.try_submit_post(0, url.clone(), 300), Ok(()));
    assert_eq!(pallet.free_balance(0), free_start - 400);
    pallet.set_block_number(1001);
    // No votes: a tie, with nothing minted or burned.
    assert_eq!(pallet.try_end_post(0, url.clone()), Ok(()));
    assert_eq!(
        pallet.last_event(),
        Some(Event::PostEnded {
            id,
            submitter: 0,
            result: Direction::Tie,
            rewarded: 0,
            slashed: 0,
        })
    );
    assert_eq!(pallet.try_resolve_post(0, url), Ok(()));
    assert_eq!(pallet.last_event(), Some(Event::PostResolved { id }));
    // Bond and storage rent both made it back.
    assert_eq!(pallet.free_balance(0), free_start);
}
