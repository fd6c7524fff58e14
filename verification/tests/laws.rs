//! What holds of every election, observed on particular ones.

use nominees_election::election::Election;
use nominees_election::primitives::{Config, Error, LockUpdate};

const ALICE: u64 = 10;
const BOB: u64 = 11;
const CAROL: u64 = 12;
const FREE: u128 = 10_000;

fn config() -> Config {
    Config {
        min_bond_threshold: 5,
        unbonding_duration: 4,
        max_unlock_chunks: 3,
        max_nominations: 5,
        nominee_count: 3,
    }
}

fn assert_balanced(election: &Election, who: u64) {
    if let Some(ledger) = election.ledger(who) {
        let pending: u128 = ledger.unlocking().iter().map(|chunk| chunk.amount).sum();
        assert_eq!(ledger.total(), ledger.active() + pending);
        assert!(ledger.unlocking().windows(2).all(|pair| pair[0].era < pair[1].era));
        assert!(ledger.unlocking_len() <= election.config().max_unlock_chunks);
    }
}

fn assert_votes_match(election: &Election) {
    for candidate in 0..10 {
        let mut expected = 0;
        for who in [ALICE, BOB, CAROL] {
            if election.nominations(who).contains(&candidate) {
                expected += election.ledger(who).map_or(0, |ledger| ledger.active());
            }
        }
        assert_eq!(election.votes(candidate), expected);
    }
}

fn assert_consistent(election: &Election) {
    let mut locked = 0;
    for who in [ALICE, BOB, CAROL] {
        assert_balanced(election, who);
        locked += election.ledger(who).map_or(0, |ledger| ledger.total());
    }
    assert_eq!(election.total_locked(), locked);
    assert_votes_match(election);
}

#[test]
fn totals_and_votes_stay_consistent_through_every_operation() {
    let mut election = Election::new(config());
    assert_consistent(&election);
    assert_eq!(election.bond(ALICE, 1000, FREE), Ok(LockUpdate::Lock(1000)));
    assert_consistent(&election);
    assert_eq!(election.bond(BOB, 600, FREE), Ok(LockUpdate::Lock(600)));
    assert_consistent(&election);
    assert_eq!(election.nominate(ALICE, vec![1, 2, 3]), Ok(()));
    assert_consistent(&election);
    assert_eq!(election.nominate(BOB, vec![3, 4]), Ok(()));
    assert_consistent(&election);
    assert_eq!(election.votes(3), 1600);
    assert_eq!(election.unbond(ALICE, 300), Ok(()));
    assert_consistent(&election);
    assert_eq!(election.votes(3), 1300);
    election.on_new_era(2);
    assert_eq!(election.unbond(ALICE, 200), Ok(()));
    assert_consistent(&election);
    assert_eq!(election.rebond(ALICE, 250), Ok(250));
    assert_consistent(&election);
    assert_eq!(election.votes(1), 750);
    assert_eq!(election.bond(ALICE, 50, FREE), Ok(LockUpdate::Lock(1050)));
    assert_consistent(&election);
    assert_eq!(election.votes(1), 800);
    election.on_new_era(4);
    assert_eq!(election.withdraw_unbonded(ALICE), LockUpdate::Lock(800));
    assert_consistent(&election);
    assert_eq!(election.nominate(ALICE, vec![2, 5]), Ok(()));
    assert_consistent(&election);
    election.chill(BOB);
    assert_consistent(&election);
    election.rebalance();
    assert_consistent(&election);
    assert_eq!(election.unbond(BOB, 600), Ok(()));
    election.on_new_era(8);
    assert_eq!(election.withdraw_unbonded(BOB), LockUpdate::Release);
    assert_consistent(&election);
    assert!(election.ledger(BOB).is_none());
}

#[test]
fn rejected_operations_keep_totals_and_votes_consistent() {
    let mut election = Election::new(config());
    assert_eq!(election.bond(ALICE, 100, FREE), Ok(LockUpdate::Lock(100)));
    assert_eq!(election.nominate(ALICE, vec![1, 2]), Ok(()));
    assert_eq!(election.bond(BOB, 4, FREE), Err(Error::BelowMinBondThreshold));
    assert_eq!(election.unbond(ALICE, 97), Err(Error::BelowMinBondThreshold));
    assert_eq!(election.unbond(CAROL, 1), Err(Error::NotBonded));
    assert_eq!(election.rebond(CAROL, 1), Err(Error::NotBonded));
    assert_eq!(election.nominate(CAROL, vec![1]), Err(Error::NotBonded));
    assert_eq!(election.nominate(ALICE, vec![1, 1]), Err(Error::InvalidTargetsLength));
    assert_consistent(&election);
    assert_eq!(election.nominations(ALICE), vec![1, 2]);
    assert_eq!(election.votes(1), 100);
    assert_eq!(election.ledger(ALICE).unwrap().active(), 100);
}

#[test]
fn rebalancing_twice_elects_the_same_set() {
    let mut election = Election::new(config());
    assert_eq!(election.bond(ALICE, 500, FREE), Ok(LockUpdate::Lock(500)));
    assert_eq!(election.bond(BOB, 500, FREE), Ok(LockUpdate::Lock(500)));
    assert_eq!(election.bond(CAROL, 700, FREE), Ok(LockUpdate::Lock(700)));
    assert_eq!(election.nominate(ALICE, vec![1, 2, 3, 4, 5]), Ok(()));
    assert_eq!(election.nominate(BOB, vec![4, 5, 6]), Ok(()));
    assert_eq!(election.nominate(CAROL, vec![6]), Ok(()));
    election.rebalance();
    let once = election.nominees().clone();
    assert_eq!(once, vec![6, 4, 5]);
    election.rebalance();
    assert_eq!(*election.nominees(), once);
    // Operations that leave the votes alone leave the outcome alone.
    election.on_new_era(9);
    assert_eq!(election.withdraw_unbonded(ALICE), LockUpdate::Keep);
    election.rebalance();
    assert_eq!(*election.nominees(), once);
}

#[test]
fn rebalance_is_a_snapshot_that_later_votes_do_not_touch() {
    let mut election = Election::new(config());
    assert_eq!(election.bond(ALICE, 500, FREE), Ok(LockUpdate::Lock(500)));
    assert_eq!(election.nominate(ALICE, vec![1, 2]), Ok(()));
    election.rebalance();
    assert_eq!(*election.nominees(), vec![1, 2]);
    election.chill(ALICE);
    assert_eq!(*election.nominees(), vec![1, 2]);
    election.rebalance();
    assert_eq!(*election.nominees(), Vec::<u64>::new());
}

#[test]
fn bond_unbond_withdraw_returns_to_the_state_before_the_bond() {
    let mut election = Election::new(config());
    assert_eq!(election.bond(BOB, 40, FREE), Ok(LockUpdate::Lock(40)));
    assert_eq!(election.nominate(BOB, vec![1, 2]), Ok(()));
    assert!(election.ledger(ALICE).is_none());
    assert_eq!(election.bond(ALICE, 300, FREE), Ok(LockUpdate::Lock(300)));
    assert_eq!(election.unbond(ALICE, 300), Ok(()));
    election.on_new_era(4);
    assert_eq!(election.withdraw_unbonded(ALICE), LockUpdate::Release);
    assert!(election.ledger(ALICE).is_none());
    assert_eq!(election.total_locked(), 40);
    assert_eq!(election.votes(1), 40);
    assert_eq!(election.votes(2), 40);
    assert_eq!(election.ledger(BOB).unwrap().total(), 40);
}

#[test]
fn the_round_trip_also_restores_the_votes_of_a_nominating_account() {
    let mut election = Election::new(config());
    assert_eq!(election.bond(ALICE, 100, FREE), Ok(LockUpdate::Lock(100)));
    assert_eq!(election.nominate(ALICE, vec![7, 8]), Ok(()));
    assert_eq!(election.unbond(ALICE, 100), Ok(()));
    election.on_new_era(4);
    assert_eq!(election.withdraw_unbonded(ALICE), LockUpdate::Release);
    // The ledger is gone, the nominations stay and weigh nothing.
    assert_eq!(election.nominations(ALICE), vec![7, 8]);
    assert_eq!(election.votes(7), 0);
    assert_eq!(election.bond(ALICE, 60, FREE), Ok(LockUpdate::Lock(60)));
    assert_eq!(election.votes(7), 60);
    assert_eq!(election.unbond(ALICE, 60), Ok(()));
    assert_eq!(election.votes(7), 0);
    election.on_new_era(8);
    assert_eq!(election.withdraw_unbonded(ALICE), LockUpdate::Release);
    assert!(election.ledger(ALICE).is_none());
    assert_eq!(election.votes(7), 0);
    assert_eq!(election.votes(8), 0);
    assert_eq!(election.total_locked(), 0);
}

#[test]
fn rebond_undoes_the_unbond_before_it() {
    let mut election = Election::new(config());
    assert_eq!(election.bond(ALICE, 1000, FREE), Ok(LockUpdate::Lock(1000)));
    assert_eq!(election.nominate(ALICE, vec![1]), Ok(()));
    assert_eq!(election.unbond(ALICE, 100), Ok(()));
    // Merged into the chunk of the same era, then taken back out of it.
    assert_eq!(election.unbond(ALICE, 70), Ok(()));
    assert_eq!(election.ledger(ALICE).unwrap().unlocking_len(), 1);
    assert_eq!(election.ledger(ALICE).unwrap().unlocking()[0].amount, 170);
    assert_eq!(election.votes(1), 830);
    assert_eq!(election.rebond(ALICE, 70), Ok(70));
    assert_eq!(election.ledger(ALICE).unwrap().unlocking()[0].amount, 100);
    assert_eq!(election.ledger(ALICE).unwrap().active(), 900);
    assert_eq!(election.votes(1), 900);
    election.on_new_era(1);
    assert_eq!(election.unbond(ALICE, 50), Ok(()));
    assert_eq!(election.ledger(ALICE).unwrap().unlocking_len(), 2);
    assert_eq!(election.rebond(ALICE, 50), Ok(50));
    assert_eq!(election.ledger(ALICE).unwrap().unlocking_len(), 1);
    assert_eq!(election.ledger(ALICE).unwrap().active(), 900);
    assert_eq!(election.votes(1), 900);
}

#[test]
fn withdrawing_twice_is_withdrawing_once() {
    let mut election = Election::new(config());
    assert_eq!(election.bond(ALICE, 1000, FREE), Ok(LockUpdate::Lock(1000)));
    assert_eq!(election.unbond(ALICE, 100), Ok(()));
    election.on_new_era(4);
    assert_eq!(election.withdraw_unbonded(ALICE), LockUpdate::Lock(900));
    assert_eq!(election.withdraw_unbonded(ALICE), LockUpdate::Keep);
    assert_eq!(election.ledger(ALICE).unwrap().total(), 900);
    assert_eq!(election.ledger(ALICE).unwrap().unlocking_len(), 0);
}
