use vstd::prelude::*;

verus! {

/// Process-wide configuration: externally owned and read-only to the
/// ledger. Of these values only `min_round` is consumed by the core
/// itself; the rest is carried for the surrounding access-control and
/// payout machinery.
#[derive(Debug, PartialEq, Eq)]
pub struct Config {
    /// Manager allowed to change the bot allowlist.
    pub manager: String,
    /// The address of the gateway contract, if one is configured.
    pub gateway: Option<String>,
    /// The lowest round the ledger accepts for verification and
    /// storage. Rounds are 1-based, so a meaningful minimum is at
    /// least 1.
    pub min_round: u64,
    /// How much is paid per incentive point.
    pub incentive_point_price: u128,
    /// Denomination of the bot incentive payout.
    pub incentive_denom: String,
}

} // verus!
