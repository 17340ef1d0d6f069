use vstd::prelude::*;

use crate::allowlist::Allowlist;
use crate::beacons::{put_result, put_state, BeaconData, BeaconLedger, QueriedBeacon};
use crate::bots::{contribution_state, BotData, BotRegistry};
use crate::config::Config;
use crate::errors::LedgerError;
use crate::rounds::{is_incentivised, round_fits, spec_is_incentivised, spec_time_of_round};
use crate::submissions::{
    record_is_new, record_rank, record_state, round_bots, SubmissionTracker, SubmissionView,
};
use crate::time::Timestamp;

verus! {

/// What the ledger answers for one accepted submission: the canonical
/// beacon of the round, the submitting bot's arrival rank, whether
/// this submission created the bot's record for the round, and
/// whether the round is forwarded to incentive accounting.
#[derive(Debug, PartialEq, Eq)]
pub struct SubmissionReceipt {
    pub beacon: QueriedBeacon,
    /// 0-based arrival rank of the bot for this round.
    pub rank: usize,
    /// True iff this call created the bot's submission record.
    pub is_new: bool,
    /// True iff the round participates in incentive accounting.
    pub incentivised: bool,
}

/// The whole verification ledger: allowlist gate, canonical beacon
/// store, per-round arrival order, and per-bot lifetime counters.
///
/// [`DrandLedger::handle_submission`] processes one inbound submission
/// as a single atomic state transition across all four stores.
pub struct DrandLedger {
    pub allowlist: Allowlist,
    pub beacons: BeaconLedger,
    pub submissions: SubmissionTracker,
    pub bots: BotRegistry,
}

impl DrandLedger {
    /// Well-formedness of all four stores.
    pub open spec fn wf(self) -> bool {
        &&& self.allowlist.wf()
        &&& self.beacons.wf()
        &&& self.submissions.wf()
        &&& self.bots.wf()
    }

    /// A fresh, empty ledger that accepts rounds from
    /// `config.min_round` upward. Round 0 never exists, so the
    /// configured minimum must be at least 1.
    pub fn new(config: &Config) -> (l: Self)
        requires
            1 <= config.min_round,
        ensures
            l.wf(),
            l.allowlist@ == Set::<Seq<char>>::empty(),
            l.beacons@ == Map::<u64, BeaconData>::empty(),
            l.beacons.spec_min_round() == config.min_round,
            l.submissions@ == Seq::<SubmissionView>::empty(),
            l.bots@ == Map::<Seq<char>, BotData>::empty(),
    {
        DrandLedger {
            allowlist: Allowlist::new(),
            beacons: BeaconLedger::new(config.min_round),
            submissions: SubmissionTracker::new(),
            bots: BotRegistry::new(),
        }
    }

    /// Process one inbound submission of `round` by the bot at
    /// `address`, received at `now`, as a single state transition.
    ///
    /// A bot outside the allowlist is rejected with `NotAllowlisted`
    /// before any state is touched. The beacon store then accepts the
    /// round ([`crate::beacons::BeaconLedger::put`]): a rejection
    /// there (`RoundTooOld`, `ConflictingData`) also touches nothing
    /// else. On acceptance the arrival is recorded and ranked, and iff
    /// that created a new record, the bot's lifetime counter is
    /// bumped, creating the bot under `moniker` if it was unknown.
    pub fn handle_submission(
        &mut self,
        round: u64,
        address: &String,
        moniker: &String,
        randomness: &Vec<u8>,
        now: Timestamp,
    ) -> (r: Result<SubmissionReceipt, LedgerError>)
        requires
            old(self).wf(),
            round_fits(round),
            old(self).bots@.contains_key(address@) ==> old(self).bots@[address@].rounds_added
                < u64::MAX,
        ensures
            final(self).wf(),
            final(self).allowlist@ == old(self).allowlist@,
            final(self).beacons.spec_min_round() == old(self).beacons.spec_min_round(),
            ({
                let min_round = old(self).beacons.spec_min_round();
                let pres = put_result(old(self).beacons@, min_round, round, randomness@, now);
                if !old(self).allowlist@.contains(address@) {
                    &&& r == Err::<SubmissionReceipt, LedgerError>(LedgerError::NotAllowlisted)
                    &&& final(self).beacons@ == old(self).beacons@
                    &&& final(self).submissions@ == old(self).submissions@
                    &&& final(self).bots@ == old(self).bots@
                } else {
                    match pres {
                        Err(e) => {
                            &&& r == Err::<SubmissionReceipt, LedgerError>(e)
                            &&& final(self).beacons@ == old(self).beacons@
                            &&& final(self).submissions@ == old(self).submissions@
                            &&& final(self).bots@ == old(self).bots@
                        },
                        Ok(bd) => {
                            &&& final(self).beacons@ == put_state(
                                old(self).beacons@,
                                min_round,
                                round,
                                randomness@,
                                now,
                            )
                            &&& final(self).submissions@ == record_state(
                                old(self).submissions@,
                                round,
                                address@,
                                now,
                            )
                            &&& match r {
                                Ok(rec) => {
                                    &&& rec.is_new == record_is_new(
                                        old(self).submissions@,
                                        round,
                                        address@,
                                    )
                                    &&& rec.rank as int == record_rank(
                                        old(self).submissions@,
                                        round,
                                        address@,
                                    )
                                    &&& rec.rank < round_bots(
                                        final(self).submissions@,
                                        round,
                                    ).len()
                                    &&& round_bots(final(self).submissions@, round)[rec.rank as int]
                                        == address@
                                    &&& rec.incentivised == spec_is_incentivised(round)
                                    &&& rec.beacon.round == round
                                    &&& rec.beacon.published.spec_nanos() == spec_time_of_round(
                                        round as int,
                                    )
                                    &&& rec.beacon.verified == bd.verified
                                    &&& rec.beacon.randomness@ == bd.randomness
                                    &&& (rec.is_new ==> final(self).bots@ == contribution_state(
                                        old(self).bots@,
                                        address@,
                                        moniker@,
                                    ))
                                    &&& (!rec.is_new ==> final(self).bots@ == old(self).bots@)
                                },
                                Err(_) => false,
                            }
                        },
                    }
                }
            }),
    {
        if !self.allowlist.is_allowed(address) {
            return Err(LedgerError::NotAllowlisted);
        }
        let beacon = match self.beacons.put(round, randomness, now) {
            Ok(q) => q,
            Err(e) => {
                return Err(e);
            },
        };
        let outcome = self.submissions.record_submission(round, address, now);
        if outcome.is_new {
            let _ = self.bots.note_contribution(address, moniker);
        }
        Ok(
            SubmissionReceipt {
                beacon,
                rank: outcome.rank,
                is_new: outcome.is_new,
                incentivised: is_incentivised(round),
            },
        )
    }
}

} // verus!
