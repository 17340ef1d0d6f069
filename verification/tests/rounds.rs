use nois_drand::errors::LedgerError;
use nois_drand::rounds::{is_incentivised, round_after, time_of_round};
use nois_drand::time::Timestamp;

fn drand_genesis() -> Timestamp {
    Timestamp::from_seconds(1677685200)
}

#[test]
fn time_of_round_works() {
    assert_eq!(time_of_round(1).unwrap(), drand_genesis());
    assert_eq!(time_of_round(2).unwrap(), drand_genesis().plus_seconds(3));
    assert_eq!(
        time_of_round(111765).unwrap(),
        Timestamp::from_seconds(1678020492)
    );
}

#[test]
fn time_of_round_fails_for_round_0() {
    assert_eq!(time_of_round(0), Err(LedgerError::Underflow));
}

#[test]
fn round_after_works() {
    // UNIX epoch
    let round = round_after(Timestamp::from_seconds(0));
    assert_eq!(round, 1);

    // Before the beacon chain's genesis
    let round = round_after(Timestamp::from_seconds(1677685200).minus_nanos(1));
    assert_eq!(round, 1);

    // At genesis
    let round = round_after(Timestamp::from_seconds(1677685200));
    assert_eq!(round, 2);

    // After genesis
    let round = round_after(Timestamp::from_seconds(1677685200).plus_nanos(1));
    assert_eq!(round, 2);

    // Genesis +2s/3s/4s
    let round = round_after(Timestamp::from_seconds(1677685200).plus_seconds(2));
    assert_eq!(round, 2);
    let round = round_after(Timestamp::from_seconds(1677685200).plus_seconds(3));
    assert_eq!(round, 3);
    let round = round_after(Timestamp::from_seconds(1677685200).plus_seconds(4));
    assert_eq!(round, 3);
}

#[test]
fn is_incentivised_works() {
    assert!(!is_incentivised(0)); // no 0 round exists in the beacon chain
    assert!(!is_incentivised(1));
    assert!(!is_incentivised(2));
    assert!(!is_incentivised(3));
    assert!(!is_incentivised(4));
    assert!(!is_incentivised(5));
    assert!(!is_incentivised(6));
    assert!(!is_incentivised(7));
    assert!(!is_incentivised(8));
    assert!(!is_incentivised(9));
    assert!(is_incentivised(10));
    assert!(!is_incentivised(11));
    assert!(!is_incentivised(12));
    assert!(!is_incentivised(13));
    assert!(!is_incentivised(14));
    assert!(!is_incentivised(15));
    assert!(!is_incentivised(16));
    assert!(!is_incentivised(17));
    assert!(!is_incentivised(18));
    assert!(!is_incentivised(19));
    assert!(is_incentivised(20));
    assert!(!is_incentivised(21));
    assert!(!is_incentivised(22));
    assert!(!is_incentivised(23));
    assert!(!is_incentivised(24));
    assert!(!is_incentivised(25));
    assert!(!is_incentivised(26));
    assert!(!is_incentivised(27));
    assert!(!is_incentivised(28));
    assert!(!is_incentivised(29));
    assert!(is_incentivised(30));
    assert!(!is_incentivised(31));
}
