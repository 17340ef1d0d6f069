use nois_drand::allowlist::Allowlist;
use nois_drand::beacons::{BeaconLedger, QueriedBeacon, VerifiedBeacon};
use nois_drand::bots::{Bot, BotRegistry, QueriedBot};
use nois_drand::config::Config;
use nois_drand::errors::LedgerError;
use nois_drand::ledger::DrandLedger;
use nois_drand::submissions::{StoredSubmission, SubmissionTracker};
use nois_drand::time::Timestamp;

fn test_config(min_round: u64) -> Config {
    Config {
        manager: String::from("manager"),
        gateway: Some(String::from("gateway")),
        min_round,
        incentive_point_price: 20_000,
        incentive_denom: String::from("unois"),
    }
}

fn digest(fill: u8) -> Vec<u8> {
    vec![fill; 32]
}

#[test]
fn beacon_put_then_get_round_trips() {
    let mut ledger = BeaconLedger::new(1);
    let verified_at = Timestamp::from_seconds(1677685206);
    let stored = ledger.put(2, &digest(0xaa), verified_at).unwrap();
    assert_eq!(stored.round, 2);
    assert_eq!(stored.published, Timestamp::from_seconds(1677685203));
    assert_eq!(stored.verified, verified_at);
    assert_eq!(stored.randomness, digest(0xaa));

    let read = ledger.get(2).unwrap();
    assert_eq!(read, stored);
}

#[test]
fn beacon_get_unknown_round_is_not_found() {
    let ledger = BeaconLedger::new(1);
    assert_eq!(ledger.get(7), Err(LedgerError::NotFound));
}

#[test]
fn beacon_put_is_idempotent() {
    let mut ledger = BeaconLedger::new(1);
    let verified_at = Timestamp::from_seconds(1677685206);
    let first = ledger.put(30, &digest(0x11), verified_at).unwrap();
    let second = ledger.put(30, &digest(0x11), verified_at).unwrap();
    assert_eq!(first, second);
    assert_eq!(ledger.get(30).unwrap(), first);
}

#[test]
fn beacon_put_reports_conflicting_data() {
    let mut ledger = BeaconLedger::new(1);
    let verified_at = Timestamp::from_seconds(1677685206);
    let first = ledger.put(30, &digest(0x11), verified_at).unwrap();
    let conflict = ledger.put(30, &digest(0x22), verified_at);
    assert_eq!(conflict, Err(LedgerError::ConflictingData));
    // the canonical record survives unchanged
    assert_eq!(ledger.get(30).unwrap(), first);
}

#[test]
fn beacon_put_rejects_rounds_below_minimum() {
    let mut ledger = BeaconLedger::new(100);
    let verified_at = Timestamp::from_seconds(1677685206);
    let rejected = ledger.put(99, &digest(0x11), verified_at);
    assert_eq!(rejected, Err(LedgerError::RoundTooOld));
    assert_eq!(ledger.get(99), Err(LedgerError::NotFound));
    assert!(ledger.put(100, &digest(0x11), verified_at).is_ok());
}

#[test]
fn queried_beacon_make_enriches_with_publish_time() {
    let beacon = VerifiedBeacon {
        verified: Timestamp::from_seconds(1677685209),
        randomness: digest(0x33),
    };
    let queried = QueriedBeacon::make(beacon, 3);
    assert_eq!(queried.round, 3);
    assert_eq!(queried.published, Timestamp::from_seconds(1677685206));
    assert_eq!(queried.verified, Timestamp::from_seconds(1677685209));
    assert_eq!(queried.randomness, digest(0x33));
}

#[test]
fn submission_order_follows_call_order() {
    let mut tracker = SubmissionTracker::new();
    let a = String::from("bot_a");
    let b = String::from("bot_b");
    let c = String::from("bot_c");
    // receipt times deliberately out of order: only call order counts
    let ra = tracker.record_submission(8, &a, Timestamp::from_seconds(300));
    let rb = tracker.record_submission(8, &b, Timestamp::from_seconds(100));
    let rc = tracker.record_submission(8, &c, Timestamp::from_seconds(200));
    assert_eq!((ra.rank, ra.is_new), (0, true));
    assert_eq!((rb.rank, rb.is_new), (1, true));
    assert_eq!((rc.rank, rc.is_new), (2, true));
    assert_eq!(tracker.submissions_for(8), vec![a, b, c]);
}

#[test]
fn resubmission_keeps_rank_and_is_not_new() {
    let mut tracker = SubmissionTracker::new();
    let a = String::from("bot_a");
    let b = String::from("bot_b");
    tracker.record_submission(8, &a, Timestamp::from_seconds(100));
    tracker.record_submission(8, &b, Timestamp::from_seconds(101));
    let again = tracker.record_submission(8, &a, Timestamp::from_seconds(999));
    assert_eq!((again.rank, again.is_new), (0, false));
    // the stored receipt time is the first one
    assert_eq!(
        tracker.get_submission(8, &a),
        Some(StoredSubmission {
            time: Timestamp::from_seconds(100)
        })
    );
    assert_eq!(tracker.submissions_for(8), vec![a, b]);
}

#[test]
fn rank_of_looks_up_without_mutation() {
    let mut tracker = SubmissionTracker::new();
    let a = String::from("bot_a");
    let b = String::from("bot_b");
    tracker.record_submission(5, &a, Timestamp::from_seconds(100));
    tracker.record_submission(5, &b, Timestamp::from_seconds(101));
    assert_eq!(tracker.rank_of(5, &a), Ok(0));
    assert_eq!(tracker.rank_of(5, &b), Ok(1));
    assert_eq!(tracker.rank_of(6, &a), Err(LedgerError::NotFound));
    assert_eq!(
        tracker.rank_of(5, &String::from("bot_x")),
        Err(LedgerError::NotFound)
    );
}

#[test]
fn submissions_of_different_rounds_are_independent() {
    let mut tracker = SubmissionTracker::new();
    let a = String::from("bot_a");
    let b = String::from("bot_b");
    tracker.record_submission(1, &a, Timestamp::from_seconds(100));
    let r = tracker.record_submission(2, &b, Timestamp::from_seconds(101));
    assert_eq!((r.rank, r.is_new), (0, true));
    assert_eq!(tracker.submissions_for(1), vec![a]);
    assert_eq!(tracker.submissions_for(2), vec![b]);
    assert_eq!(tracker.submissions_for(3), Vec::<String>::new());
}

#[test]
fn registry_counts_one_per_contributed_round() {
    let mut registry = BotRegistry::new();
    let x = String::from("bot_x");
    let moniker = String::from("Monty");
    let first = registry.note_contribution(&x, &moniker);
    assert_eq!(first.rounds_added, 1);
    assert_eq!(first.moniker, moniker);
    let second = registry.note_contribution(&x, &String::from("ignored"));
    assert_eq!(second.rounds_added, 2);
    // the moniker given at creation is kept
    assert_eq!(second.moniker, moniker);

    let queried = registry.get(&x).unwrap();
    assert_eq!(
        queried,
        QueriedBot {
            moniker,
            address: x,
            rounds_added: 2
        }
    );
}

#[test]
fn registry_get_unknown_bot_is_not_found() {
    let registry = BotRegistry::new();
    assert_eq!(
        registry.get(&String::from("bot_x")),
        Err(LedgerError::NotFound)
    );
}

#[test]
fn queried_bot_make_enriches_with_address() {
    let bot = Bot {
        moniker: String::from("Monty"),
        rounds_added: 7,
    };
    let queried = QueriedBot::make(bot, String::from("bot_x"));
    assert_eq!(queried.moniker, "Monty");
    assert_eq!(queried.address, "bot_x");
    assert_eq!(queried.rounds_added, 7);
}

#[test]
fn allowlist_membership_changes() {
    let mut allowlist = Allowlist::new();
    let a = String::from("bot_a");
    let b = String::from("bot_b");
    assert!(!allowlist.is_allowed(&a));
    allowlist.add(&a);
    allowlist.add(&a);
    assert!(allowlist.is_allowed(&a));
    assert!(!allowlist.is_allowed(&b));
    allowlist.remove(&a);
    assert!(!allowlist.is_allowed(&a));
    allowlist.remove(&b);
    assert!(!allowlist.is_allowed(&b));
}

#[test]
fn ledger_rejects_bots_outside_the_allowlist() {
    let mut ledger = DrandLedger::new(&test_config(1));
    let x = String::from("bot_x");
    let moniker = String::from("Monty");
    let outcome = ledger.handle_submission(
        10,
        &x,
        &moniker,
        &digest(0x11),
        Timestamp::from_seconds(1677685230),
    );
    assert_eq!(outcome, Err(LedgerError::NotAllowlisted));
    assert_eq!(ledger.beacons.get(10), Err(LedgerError::NotFound));
    assert_eq!(ledger.bots.get(&x), Err(LedgerError::NotFound));
}

#[test]
fn ledger_counts_rounds_once_per_round() {
    let mut ledger = DrandLedger::new(&test_config(1));
    let x = String::from("bot_x");
    let moniker = String::from("Monty");
    ledger.allowlist.add(&x);
    let now = Timestamp::from_seconds(1677685290);

    let r10 = ledger
        .handle_submission(10, &x, &moniker, &digest(0x10), now)
        .unwrap();
    assert_eq!((r10.rank, r10.is_new, r10.incentivised), (0, true, true));
    let r20 = ledger
        .handle_submission(20, &x, &moniker, &digest(0x20), now)
        .unwrap();
    assert_eq!((r20.rank, r20.is_new), (0, true));
    // duplicate submission of round 20: no new record, no extra count
    let dup = ledger
        .handle_submission(20, &x, &moniker, &digest(0x20), now)
        .unwrap();
    assert_eq!((dup.rank, dup.is_new), (0, false));
    let r30 = ledger
        .handle_submission(30, &x, &moniker, &digest(0x30), now)
        .unwrap();
    assert_eq!((r30.rank, r30.is_new), (0, true));

    assert_eq!(ledger.bots.get(&x).unwrap().rounds_added, 3);
}

#[test]
fn ledger_receipt_reports_incentive_eligibility() {
    let mut ledger = DrandLedger::new(&test_config(1));
    let x = String::from("bot_x");
    let moniker = String::from("Monty");
    ledger.allowlist.add(&x);
    let now = Timestamp::from_seconds(1677685290);

    let r11 = ledger
        .handle_submission(11, &x, &moniker, &digest(0x11), now)
        .unwrap();
    assert!(!r11.incentivised);
    let r20 = ledger
        .handle_submission(20, &x, &moniker, &digest(0x20), now)
        .unwrap();
    assert!(r20.incentivised);
    assert_eq!(r20.beacon.published, Timestamp::from_seconds(1677685257));
}

#[test]
fn ledger_races_between_bots_keep_first_submission() {
    let mut ledger = DrandLedger::new(&test_config(1));
    let a = String::from("bot_a");
    let b = String::from("bot_b");
    let moniker_a = String::from("Anna");
    let moniker_b = String::from("Bert");
    ledger.allowlist.add(&a);
    ledger.allowlist.add(&b);
    let now = Timestamp::from_seconds(1677685290);

    let ra = ledger
        .handle_submission(10, &a, &moniker_a, &digest(0x10), now)
        .unwrap();
    // b relays the same verified randomness a moment later
    let rb = ledger
        .handle_submission(10, &b, &moniker_b, &digest(0x10), now)
        .unwrap();
    assert_eq!((ra.rank, ra.is_new), (0, true));
    assert_eq!((rb.rank, rb.is_new), (1, true));
    assert_eq!(ra.beacon, rb.beacon);
    // a divergent digest for the verified round is reported, not stored
    let conflict = ledger.handle_submission(10, &b, &moniker_b, &digest(0x99), now);
    assert_eq!(conflict, Err(LedgerError::ConflictingData));
    assert_eq!(ledger.submissions.submissions_for(10), vec![a, b]);
}
