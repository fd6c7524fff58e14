//! Edge cases of the operations of an election.

use nominees_election::election::Election;
use nominees_election::primitives::{Config, Error, LockUpdate};
use nominees_election::unlock_queue::UnlockChunk;

const WHO: u64 = 42;
const OTHER: u64 = 43;

fn config() -> Config {
    Config {
        min_bond_threshold: 5,
        unbonding_duration: 4,
        max_unlock_chunks: 3,
        max_nominations: 5,
        nominee_count: 5,
    }
}

fn chunk(amount: u128, era: u32) -> UnlockChunk {
    UnlockChunk { amount, era }
}

#[test]
fn a_new_election_is_empty() {
    let election = Election::new(config());
    assert_eq!(election.config(), config());
    assert_eq!(election.current_era(), 0);
    assert!(election.ledger(WHO).is_none());
    assert_eq!(election.nominations(WHO), Vec::<u64>::new());
    assert_eq!(election.votes(1), 0);
    assert_eq!(*election.nominees(), Vec::<u64>::new());
    assert_eq!(election.total_locked(), 0);
}

#[test]
fn bond_of_exactly_the_minimum_is_accepted() {
    let mut election = Election::new(config());
    assert_eq!(election.bond(WHO, 5, 1000), Ok(LockUpdate::Lock(5)));
    assert_eq!(election.ledger(WHO).unwrap().active(), 5);
}

#[test]
fn bond_is_capped_at_the_free_balance_not_yet_locked() {
    let mut election = Election::new(config());
    assert_eq!(election.bond_extra(WHO, 2000, 1000), 1000);
    assert_eq!(election.bond(WHO, 600, 1000), Ok(LockUpdate::Lock(600)));
    assert_eq!(election.bond_extra(WHO, 600, 1000), 400);
    assert_eq!(election.bond_extra(WHO, 300, 1000), 300);
    assert_eq!(election.bond_extra(WHO, 300, 500), 0);
    assert_eq!(election.bond(WHO, 600, 1000), Ok(LockUpdate::Lock(1000)));
    assert_eq!(election.ledger(WHO).unwrap().total(), 1000);
    assert_eq!(election.ledger(WHO).unwrap().active(), 1000);
    // Nothing is left to bond: the ledger stays and the lock is confirmed.
    assert_eq!(election.bond(WHO, 1, 1000), Ok(LockUpdate::Lock(1000)));
    assert_eq!(election.bond(WHO, 1, 900), Ok(LockUpdate::Lock(1000)));
    assert_eq!(election.ledger(WHO).unwrap().total(), 1000);
}

#[test]
fn bond_that_is_capped_below_the_minimum_is_rejected() {
    let mut election = Election::new(config());
    assert_eq!(election.bond(WHO, 100, 4), Err(Error::BelowMinBondThreshold));
    assert_eq!(election.bond(WHO, 100, 0), Err(Error::BelowMinBondThreshold));
    assert_eq!(election.bond(WHO, 0, 100), Err(Error::BelowMinBondThreshold));
    assert!(election.ledger(WHO).is_none());
    assert_eq!(election.total_locked(), 0);
}

#[test]
fn a_fully_unbonded_ledger_must_bond_at_least_the_minimum_again() {
    let mut election = Election::new(config());
    assert_eq!(election.bond(WHO, 100, 1000), Ok(LockUpdate::Lock(100)));
    assert_eq!(election.unbond(WHO, 100), Ok(()));
    assert_eq!(election.bond(WHO, 4, 1000), Err(Error::BelowMinBondThreshold));
    assert_eq!(election.ledger(WHO).unwrap().active(), 0);
    assert_eq!(election.bond(WHO, 5, 1000), Ok(LockUpdate::Lock(105)));
    assert_eq!(election.ledger(WHO).unwrap().active(), 5);
    assert_eq!(election.ledger(WHO).unwrap().total(), 105);
}

#[test]
fn bond_raises_the_votes_of_every_nominated_candidate() {
    let mut election = Election::new(config());
    assert_eq!(election.bond(WHO, 100, 1000), Ok(LockUpdate::Lock(100)));
    assert_eq!(election.nominate(WHO, vec![3, 9]), Ok(()));
    assert_eq!(election.bond(WHO, 25, 1000), Ok(LockUpdate::Lock(125)));
    assert_eq!(election.votes(3), 125);
    assert_eq!(election.votes(9), 125);
    assert_eq!(election.votes(4), 0);
}

#[test]
fn unbond_matures_the_unbonding_duration_after_the_current_era() {
    let mut election = Election::new(config());
    assert_eq!(election.bond(WHO, 100, 1000), Ok(LockUpdate::Lock(100)));
    election.on_new_era(7);
    assert_eq!(election.unbond(WHO, 10), Ok(()));
    assert_eq!(*election.ledger(WHO).unwrap().unlocking(), vec![chunk(10, 11)]);
}

#[test]
fn unbond_near_the_last_era_matures_at_the_last_era() {
    let mut election = Election::new(config());
    assert_eq!(election.bond(WHO, 100, 1000), Ok(LockUpdate::Lock(100)));
    election.on_new_era(u32::MAX - 2);
    assert_eq!(election.unbond(WHO, 10), Ok(()));
    election.on_new_era(u32::MAX - 1);
    assert_eq!(election.unbond(WHO, 10), Ok(()));
    assert_eq!(*election.ledger(WHO).unwrap().unlocking(), vec![chunk(20, u32::MAX)]);
    assert_eq!(election.withdraw_unbonded(WHO), LockUpdate::Keep);
    election.on_new_era(u32::MAX);
    assert_eq!(election.withdraw_unbonded(WHO), LockUpdate::Lock(80));
}

#[test]
fn unbond_in_the_same_era_merges_even_when_the_queue_is_full() {
    let mut election = Election::new(config());
    assert_eq!(election.bond(WHO, 1000, 1000), Ok(LockUpdate::Lock(1000)));
    assert_eq!(election.unbond(WHO, 100), Ok(()));
    election.on_new_era(1);
    assert_eq!(election.unbond(WHO, 100), Ok(()));
    election.on_new_era(2);
    assert_eq!(election.unbond(WHO, 100), Ok(()));
    assert_eq!(election.unbond(WHO, 100), Ok(()));
    assert_eq!(
        *election.ledger(WHO).unwrap().unlocking(),
        vec![chunk(100, 4), chunk(100, 5), chunk(200, 6)]
    );
    assert_eq!(election.ledger(WHO).unwrap().active(), 600);
    election.on_new_era(3);
    assert_eq!(election.unbond(WHO, 100), Err(Error::MaxUnlockChunksExceeded));
}

#[test]
fn a_full_queue_is_reported_before_a_remainder_below_the_minimum() {
    let mut election = Election::new(config());
    assert_eq!(election.bond(WHO, 1000, 1000), Ok(LockUpdate::Lock(1000)));
    for era in 0..3 {
        election.on_new_era(era);
        assert_eq!(election.unbond(WHO, 100), Ok(()));
    }
    election.on_new_era(3);
    assert_eq!(election.unbond(WHO, 698), Err(Error::MaxUnlockChunksExceeded));
}

#[test]
fn unbond_of_nothing_changes_nothing() {
    let mut election = Election::new(config());
    assert_eq!(election.bond(WHO, 1000, 1000), Ok(LockUpdate::Lock(1000)));
    assert_eq!(election.unbond(WHO, 0), Ok(()));
    assert_eq!(election.ledger(WHO).unwrap().unlocking_len(), 0);
    assert_eq!(election.unbond(WHO, 1000), Ok(()));
    // Nothing is active any more, so nothing moves, full queue or not.
    election.on_new_era(1);
    assert_eq!(election.unbond(WHO, 10), Ok(()));
    assert_eq!(*election.ledger(WHO).unwrap().unlocking(), vec![chunk(1000, 4)]);
}

#[test]
fn unbond_of_everything_is_accepted_whatever_the_minimum() {
    let mut election = Election::new(config());
    assert_eq!(election.bond(WHO, 6, 1000), Ok(LockUpdate::Lock(6)));
    assert_eq!(election.unbond(WHO, 2), Err(Error::BelowMinBondThreshold));
    assert_eq!(election.unbond(WHO, 1), Ok(()));
    assert_eq!(election.unbond(WHO, 5), Ok(()));
    assert_eq!(election.ledger(WHO).unwrap().active(), 0);
    assert_eq!(election.ledger(WHO).unwrap().total(), 6);
}

#[test]
fn unbond_lowers_the_votes_by_what_was_moved() {
    let mut election = Election::new(config());
    assert_eq!(election.bond(WHO, 500, 1000), Ok(LockUpdate::Lock(500)));
    assert_eq!(election.bond(OTHER, 200, 1000), Ok(LockUpdate::Lock(200)));
    assert_eq!(election.nominate(WHO, vec![1, 2]), Ok(()));
    assert_eq!(election.nominate(OTHER, vec![2, 3]), Ok(()));
    assert_eq!(election.unbond(WHO, 800), Ok(()));
    assert_eq!(election.votes(1), 0);
    assert_eq!(election.votes(2), 200);
    assert_eq!(election.votes(3), 200);
}

#[test]
fn rebond_restores_the_most_recent_unbond_first() {
    let mut election = Election::new(config());
    assert_eq!(election.bond(WHO, 1000, 1000), Ok(LockUpdate::Lock(1000)));
    for era in 0..3 {
        election.on_new_era(era);
        assert_eq!(election.unbond(WHO, 100), Ok(()));
    }
    assert_eq!(election.ledger(WHO).unwrap().active(), 700);
    assert_eq!(election.rebond(WHO, 150), Ok(150));
    assert_eq!(election.ledger(WHO).unwrap().active(), 850);
    assert_eq!(election.ledger(WHO).unwrap().total(), 1000);
    assert_eq!(
        *election.ledger(WHO).unwrap().unlocking(),
        vec![chunk(100, 4), chunk(50, 5)]
    );
    // A fourth chunk fits again.
    election.on_new_era(3);
    assert_eq!(election.unbond(WHO, 100), Ok(()));
    assert_eq!(election.ledger(WHO).unwrap().unlocking_len(), 3);
}

#[test]
fn rebond_of_nothing_or_from_an_empty_queue_moves_nothing() {
    let mut election = Election::new(config());
    assert_eq!(election.bond(WHO, 1000, 1000), Ok(LockUpdate::Lock(1000)));
    assert_eq!(election.rebond(WHO, 100), Ok(0));
    assert_eq!(election.unbond(WHO, 100), Ok(()));
    assert_eq!(election.rebond(WHO, 0), Ok(0));
    assert_eq!(election.ledger(WHO).unwrap().active(), 900);
    assert_eq!(*election.ledger(WHO).unwrap().unlocking(), vec![chunk(100, 4)]);
}

#[test]
fn rebond_raises_the_votes_by_what_was_moved() {
    let mut election = Election::new(config());
    assert_eq!(election.bond(WHO, 500, 1000), Ok(LockUpdate::Lock(500)));
    assert_eq!(election.nominate(WHO, vec![1, 2]), Ok(()));
    assert_eq!(election.unbond(WHO, 300), Ok(()));
    assert_eq!(election.votes(1), 200);
    assert_eq!(election.rebond(WHO, 1000), Ok(300));
    assert_eq!(election.votes(1), 500);
    assert_eq!(election.votes(2), 500);
}

#[test]
fn withdraw_without_a_ledger_does_nothing() {
    let mut election = Election::new(config());
    assert_eq!(election.withdraw_unbonded(WHO), LockUpdate::Keep);
    assert!(election.ledger(WHO).is_none());
}

#[test]
fn withdraw_releases_exactly_the_matured_chunks() {
    let mut election = Election::new(config());
    assert_eq!(election.bond(WHO, 1000, 1000), Ok(LockUpdate::Lock(1000)));
    for era in 0..3 {
        election.on_new_era(era);
        assert_eq!(election.unbond(WHO, 100 + era as u128), Ok(()));
    }
    election.on_new_era(5);
    assert_eq!(election.withdraw_unbonded(WHO), LockUpdate::Lock(799));
    assert_eq!(*election.ledger(WHO).unwrap().unlocking(), vec![chunk(102, 6)]);
    assert_eq!(election.ledger(WHO).unwrap().active(), 697);
    assert_eq!(election.total_locked(), 799);
}

#[test]
fn withdraw_leaves_the_votes_alone() {
    let mut election = Election::new(config());
    assert_eq!(election.bond(WHO, 500, 1000), Ok(LockUpdate::Lock(500)));
    assert_eq!(election.nominate(WHO, vec![1]), Ok(()));
    assert_eq!(election.unbond(WHO, 100), Ok(()));
    election.on_new_era(4);
    assert_eq!(election.withdraw_unbonded(WHO), LockUpdate::Lock(400));
    assert_eq!(election.votes(1), 400);
}

#[test]
fn nominate_rejects_a_candidate_named_twice() {
    let mut election = Election::new(config());
    assert_eq!(election.bond(WHO, 500, 1000), Ok(LockUpdate::Lock(500)));
    assert_eq!(election.nominate(WHO, vec![1, 2, 1]), Err(Error::InvalidTargetsLength));
    assert_eq!(election.nominations(WHO), Vec::<u64>::new());
    assert_eq!(election.votes(1), 0);
}

#[test]
fn nominate_without_a_ledger_is_reported_before_a_bad_list() {
    let mut election = Election::new(config());
    assert_eq!(election.nominate(WHO, vec![]), Err(Error::NotBonded));
}

#[test]
fn nominate_keeps_the_order_given() {
    let mut election = Election::new(config());
    assert_eq!(election.bond(WHO, 500, 1000), Ok(LockUpdate::Lock(500)));
    assert_eq!(election.nominate(WHO, vec![5, 1, 3]), Ok(()));
    assert_eq!(election.nominations(WHO), vec![5, 1, 3]);
}

#[test]
fn nominate_moves_the_votes_by_the_net_change() {
    let mut election = Election::new(config());
    assert_eq!(election.bond(WHO, 500, 1000), Ok(LockUpdate::Lock(500)));
    assert_eq!(election.nominate(WHO, vec![1, 2, 3, 4, 5]), Ok(()));
    for candidate in 1..=5 {
        assert_eq!(election.votes(candidate), 500);
    }
    assert_eq!(election.nominate(WHO, vec![2, 3, 4, 5, 6]), Ok(()));
    assert_eq!(election.votes(1), 0);
    for candidate in 2..=5 {
        assert_eq!(election.votes(candidate), 500);
    }
    assert_eq!(election.votes(6), 500);
}

#[test]
fn chill_without_nominations_changes_nothing() {
    let mut election = Election::new(config());
    assert_eq!(election.bond(WHO, 500, 1000), Ok(LockUpdate::Lock(500)));
    assert_eq!(election.bond(OTHER, 300, 1000), Ok(LockUpdate::Lock(300)));
    assert_eq!(election.nominate(OTHER, vec![1]), Ok(()));
    election.chill(WHO);
    election.chill(7);
    assert_eq!(election.votes(1), 300);
    assert_eq!(election.nominations(OTHER), vec![1]);
    assert_eq!(election.ledger(WHO).unwrap().active(), 500);
}

#[test]
fn chill_takes_only_the_own_stake_away() {
    let mut election = Election::new(config());
    assert_eq!(election.bond(WHO, 500, 1000), Ok(LockUpdate::Lock(500)));
    assert_eq!(election.bond(OTHER, 300, 1000), Ok(LockUpdate::Lock(300)));
    assert_eq!(election.nominate(WHO, vec![1, 2]), Ok(()));
    assert_eq!(election.nominate(OTHER, vec![2, 3]), Ok(()));
    election.chill(WHO);
    assert_eq!(election.votes(1), 0);
    assert_eq!(election.votes(2), 300);
    assert_eq!(election.votes(3), 300);
    assert_eq!(election.nominations(WHO), Vec::<u64>::new());
}

#[test]
fn on_new_era_only_moves_the_clock() {
    let mut election = Election::new(config());
    assert_eq!(election.bond(WHO, 500, 1000), Ok(LockUpdate::Lock(500)));
    assert_eq!(election.unbond(WHO, 100), Ok(()));
    election.on_new_era(9);
    assert_eq!(election.current_era(), 9);
    election.on_new_era(9);
    assert_eq!(election.current_era(), 9);
    assert_eq!(election.ledger(WHO).unwrap().total(), 500);
    assert_eq!(election.ledger(WHO).unwrap().unlocking_len(), 1);
    assert_eq!(*election.nominees(), Vec::<u64>::new());
}

#[test]
fn rebalance_elects_the_heaviest_and_breaks_ties_by_identity() {
    let mut election = Election::new(Config { nominee_count: 2, ..config() });
    assert_eq!(election.bond(WHO, 500, 1000), Ok(LockUpdate::Lock(500)));
    assert_eq!(election.bond(OTHER, 300, 1000), Ok(LockUpdate::Lock(300)));
    assert_eq!(election.nominate(WHO, vec![8, 3, 5]), Ok(()));
    assert_eq!(election.nominate(OTHER, vec![5, 1]), Ok(()));
    election.rebalance();
    assert_eq!(*election.nominees(), vec![5, 3]);
}

#[test]
fn check_unbond_decides_without_changing_the_ledger() {
    let mut election = Election::new(config());
    assert_eq!(election.bond(WHO, 100, 1000), Ok(LockUpdate::Lock(100)));
    assert_eq!(election.unbond(WHO, 10), Ok(()));
    let ledger = election.ledger(WHO).unwrap();
    assert!(!ledger.is_empty());
    assert_eq!(ledger.check_unbond(30, 9, 5, 3), Ok(30));
    assert_eq!(ledger.check_unbond(500, 9, 5, 3), Ok(90));
    assert_eq!(ledger.check_unbond(0, 9, 5, 0), Ok(0));
    assert_eq!(ledger.check_unbond(87, 9, 5, 3), Err(Error::BelowMinBondThreshold));
    assert_eq!(ledger.check_unbond(30, 9, 5, 1), Err(Error::MaxUnlockChunksExceeded));
    assert_eq!(ledger.check_unbond(30, 4, 5, 1), Ok(30));
    assert_eq!(ledger.check_unbond(87, 9, 5, 1), Err(Error::MaxUnlockChunksExceeded));
    assert_eq!(ledger.active(), 90);
    assert_eq!(ledger.total(), 100);
    assert_eq!(ledger.unlocking_len(), 1);
}
