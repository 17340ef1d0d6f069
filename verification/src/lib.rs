//! Verification ledger of a decentralized randomness oracle.
//!
//! A network of independent bots observes an external randomness beacon
//! that publishes a new signed random value at a fixed cadence, and relays
//! verified rounds into this ledger. The ledger
//! - converts between a round number and its genesis-relative publication
//!   time, independently of any bot's clock ([`rounds`]),
//! - decides, purely from the round number, whether a round is eligible
//!   for incentive payout ([`rounds::is_incentivised`]),
//! - stores one canonical verified random value per round, write-once
//!   ([`beacons`]),
//! - records, per round, the relative arrival order of every bot that
//!   submitted it ([`submissions`]),
//! - keeps each bot's display name and lifetime count of contributed
//!   rounds ([`bots`]).
//!
//! [`ledger::DrandLedger`] ties the stores together and processes one
//! inbound submission as a single state transition.
//!
//! Cryptographic signature verification, access-control policy, payout
//! arithmetic and message encoding are outside this crate: callers hand
//! in rounds whose randomness has already been verified.

pub mod allowlist;
pub mod beacons;
pub mod bots;
pub mod config;
pub mod errors;
pub mod ledger;
pub mod rounds;
pub mod submissions;
pub mod time;
