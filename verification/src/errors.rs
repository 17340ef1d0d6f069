use vstd::prelude::*;

verus! {

/// The failure conditions of the ledger's operations.
#[derive(Clone, Copy, Debug, PartialEq, Eq, Structural)]
pub enum LedgerError {
    /// Round number 0 was passed where a 1-based round is required.
    Underflow,
    /// A lookup found no record for the given round or bot.
    NotFound,
    /// The round is below the configured minimum round.
    RoundTooOld,
    /// A round that is already verified was re-submitted with a
    /// different randomness digest.
    ConflictingData,
    /// The submitting bot is not a member of the allowlist.
    NotAllowlisted,
}

} // verus!
