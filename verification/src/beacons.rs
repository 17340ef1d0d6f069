use vstd::prelude::*;
use vstd::std_specs::cmp::PartialEqSpec;

use crate::errors::LedgerError;
use crate::rounds::{round_fits, spec_time_of_round, time_of_round};
use crate::time::Timestamp;

verus! {

/// A canonical verified random value, as stored: keyed by its round
/// number in [`BeaconLedger`], so the round is not repeated here.
#[derive(Debug, PartialEq, Eq)]
pub struct VerifiedBeacon {
    /// The ledger's local acceptance time, distinct from the round's
    /// genesis-derived publication time.
    pub verified: Timestamp,
    /// The verified randomness digest of the round.
    pub randomness: Vec<u8>,
}

/// The mathematical value of a stored beacon: its acceptance time and
/// the digest as a byte sequence.
pub ghost struct BeaconData {
    pub verified: Timestamp,
    pub randomness: Seq<u8>,
}

impl View for VerifiedBeacon {
    type V = BeaconData;

    open spec fn view(&self) -> BeaconData {
        BeaconData { verified: self.verified, randomness: self.randomness@ }
    }
}

/// A stored beacon enriched for a read-side response with its round
/// number and the round's genesis-derived publication time. Computed
/// on read, never persisted.
#[derive(Debug, PartialEq, Eq)]
pub struct QueriedBeacon {
    pub round: u64,
    /// When the beacon chain published this round: derived from the
    /// round number alone, independent of any bot's clock.
    pub published: Timestamp,
    /// When this ledger accepted the round.
    pub verified: Timestamp,
    /// The verified randomness digest of the round.
    pub randomness: Vec<u8>,
}

impl QueriedBeacon {
    /// Enrich a stored beacon with its round number and the round's
    /// publication time.
    pub fn make(beacon: VerifiedBeacon, round: u64) -> (q: Self)
        requires
            1 <= round,
            round_fits(round),
        ensures
            q.round == round,
            q.published.spec_nanos() == spec_time_of_round(round as int),
            q.verified == beacon.verified,
            q.randomness@ == beacon.randomness@,
    {
        QueriedBeacon {
            round,
            published: time_of_round(round).unwrap(),
            verified: beacon.verified,
            randomness: beacon.randomness,
        }
    }
}

struct BeaconEntry {
    round: u64,
    beacon: VerifiedBeacon,
}

spec fn has_round(s: Seq<BeaconEntry>, r: u64) -> bool {
    exists|i: int| 0 <= i < s.len() && s[i].round == r
}

spec fn beacon_at(s: Seq<BeaconEntry>, r: u64) -> BeaconData {
    let i = choose|i: int| 0 <= i < s.len() && s[i].round == r;
    s[i].beacon@
}

spec fn entries_map(s: Seq<BeaconEntry>) -> Map<u64, BeaconData> {
    Map::new(|r: u64| has_round(s, r), |r: u64| beacon_at(s, r))
}

spec fn rounds_distinct(s: Seq<BeaconEntry>) -> bool {
    forall|i: int, j: int| 0 <= i < j < s.len() ==> s[i].round != s[j].round
}

/// Append-only store of one canonical verified random value per round.
///
/// Its view is the map from round number to the stored record. A round,
/// once written, is never overwritten or deleted; rounds below the
/// configured minimum round are rejected outright.
pub struct BeaconLedger {
    min_round: u64,
    entries: Vec<BeaconEntry>,
}

impl View for BeaconLedger {
    type V = Map<u64, BeaconData>;

    closed spec fn view(&self) -> Map<u64, BeaconData> {
        entries_map(self.entries@)
    }
}

/// The beacon store after `put(round, d, t)` against minimum round
/// `min_round`: a record is added only for a not-yet-verified round at
/// or above the minimum; every other call leaves the store unchanged.
pub open spec fn put_state(
    m: Map<u64, BeaconData>,
    min_round: u64,
    round: u64,
    d: Seq<u8>,
    t: Timestamp,
) -> Map<u64, BeaconData> {
    if min_round <= round && !m.contains_key(round) {
        m.insert(round, BeaconData { verified: t, randomness: d })
    } else {
        m
    }
}

/// The record that `put(round, d, t)` answers with, or its error:
/// rounds below the minimum are too old; a round already verified with
/// the same digest is answered with the existing record unchanged; one
/// already verified with a different digest is conflicting data; a new
/// round is stored as handed in.
pub open spec fn put_result(
    m: Map<u64, BeaconData>,
    min_round: u64,
    round: u64,
    d: Seq<u8>,
    t: Timestamp,
) -> Result<BeaconData, LedgerError> {
    if round < min_round {
        Err(LedgerError::RoundTooOld)
    } else if m.contains_key(round) {
        if m[round].randomness == d {
            Ok(m[round])
        } else {
            Err(LedgerError::ConflictingData)
        }
    } else {
        Ok(BeaconData { verified: t, randomness: d })
    }
}

/// At a valid index, the map view holds exactly that entry's record.
proof fn lemma_entries_map_at(s: Seq<BeaconEntry>, i: int)
    requires
        rounds_distinct(s),
        0 <= i < s.len(),
    ensures
        entries_map(s).contains_key(s[i].round),
        entries_map(s)[s[i].round] == s[i].beacon@,
{
    assert(has_round(s, s[i].round));
    let k = choose|k: int| 0 <= k < s.len() && s[k].round == s[i].round;
    if k < i {
        assert(s[k].round != s[i].round);
    } else if i < k {
        assert(s[i].round != s[k].round);
    }
}

/// Appending an entry for a fresh round inserts exactly that record
/// into the map view.
proof fn lemma_entries_map_push(s: Seq<BeaconEntry>, e: BeaconEntry)
    requires
        rounds_distinct(s),
        !has_round(s, e.round),
    ensures
        entries_map(s.push(e)) == entries_map(s).insert(e.round, e.beacon@),
{
    let s2 = s.push(e);
    assert forall|r: u64| has_round(s2, r) <==> (has_round(s, r) || r == e.round) by {
        if has_round(s, r) {
            let i = choose|i: int| 0 <= i < s.len() && s[i].round == r;
            assert(s2[i].round == r);
        }
        if r == e.round {
            assert(s2[s.len() as int].round == r);
        }
        if has_round(s2, r) {
            let i = choose|i: int| 0 <= i < s2.len() && s2[i].round == r;
            if i < s.len() {
                assert(s[i].round == r);
            }
        }
    }
    assert forall|r: u64| has_round(s, r) && r != e.round implies beacon_at(s2, r) == beacon_at(
        s,
        r,
    ) by {
        let i = choose|i: int| 0 <= i < s2.len() && s2[i].round == r;
        assert(s2[i].round == r);
        assert(i < s.len());
        assert(s[i].round == r);
        let k = choose|k: int| 0 <= k < s.len() && s[k].round == r;
        if i < k {
            assert(s[i].round != s[k].round);
        } else if k < i {
            assert(s[k].round != s[i].round);
        }
        assert(i == k);
    }
    assert(beacon_at(s2, e.round) == e.beacon@) by {
        let i = choose|i: int| 0 <= i < s2.len() && s2[i].round == e.round;
        assert(s2[s.len() as int].round == e.round);
        if i < s.len() {
            assert(s[i].round == e.round);
        }
    }
    assert(entries_map(s2) =~= entries_map(s).insert(e.round, e.beacon@));
}

impl BeaconLedger {
    /// The configured minimum round, for use in specifications.
    pub closed spec fn spec_min_round(self) -> u64 {
        self.min_round
    }

    /// Internal consistency: rounds are unique, and every stored round
    /// is at or above the (1-based) minimum and has a representable
    /// publication time.
    pub closed spec fn wf(self) -> bool {
        &&& 1 <= self.min_round
        &&& rounds_distinct(self.entries@)
        &&& forall|i: int|
            0 <= i < self.entries@.len() ==> self.min_round <= #[trigger] self.entries@[i].round
                && round_fits(self.entries@[i].round)
    }

    /// An empty ledger that accepts rounds from `min_round` upward.
    /// Round 0 never exists, so the minimum is at least 1.
    pub fn new(min_round: u64) -> (l: Self)
        requires
            1 <= min_round,
        ensures
            l.wf(),
            l@ == Map::<u64, BeaconData>::empty(),
            l.spec_min_round() == min_round,
    {
        let l = BeaconLedger { min_round, entries: Vec::new() };
        proof {
            assert(l@ =~= Map::<u64, BeaconData>::empty());
        }
        l
    }

    /// The lowest round this ledger accepts for verification and
    /// storage.
    pub fn min_round(&self) -> (m: u64)
        ensures
            m == self.spec_min_round(),
    {
        self.min_round
    }

    /// Every stored round lies at or above the minimum round and has a
    /// representable publication time.
    pub proof fn lemma_stored_rounds_valid(self)
        requires
            self.wf(),
        ensures
            1 <= self.spec_min_round(),
            forall|r: u64|
                self@.contains_key(r) ==> self.spec_min_round() <= r && #[trigger] round_fits(r),
    {
        assert forall|r: u64| self@.contains_key(r) implies self.spec_min_round() <= r
            && #[trigger] round_fits(r) by {
            let i = choose|i: int|
                0 <= i < self.entries@.len() && self.entries@[i].round == r;
            assert(self.min_round <= self.entries@[i].round);
        }
    }

    /// Look a round up: the stored record enriched with the round and
    /// its publication time, or `NotFound` if the round has no
    /// verified beacon yet.
    pub fn get(&self, round: u64) -> (r: Result<QueriedBeacon, LedgerError>)
        requires
            self.wf(),
        ensures
            match r {
                Ok(q) => {
                    &&& self@.contains_key(round)
                    &&& q.round == round
                    &&& q.published.spec_nanos() == spec_time_of_round(round as int)
                    &&& q.verified == self@[round].verified
                    &&& q.randomness@ == self@[round].randomness
                },
                Err(e) => !self@.contains_key(round) && e == LedgerError::NotFound,
            },
    {
        let n = self.entries.len();
        let mut i: usize = 0;
        while i < n
            invariant
                self.wf(),
                n == self.entries@.len(),
                i <= n,
                forall|j: int| 0 <= j < i ==> self.entries@[j].round != round,
            decreases n - i,
        {
            if self.entries[i].round == round {
                proof {
                    lemma_entries_map_at(self.entries@, i as int);
                }
                let beacon = &self.entries[i].beacon;
                let randomness = beacon.randomness.clone();
                proof {
                    assert(randomness@ =~= beacon.randomness@);
                }
                return Ok(
                    QueriedBeacon {
                        round,
                        published: time_of_round(round).unwrap(),
                        verified: beacon.verified,
                        randomness,
                    },
                );
            }
            i += 1;
        }
        proof {
            assert(!has_round(self.entries@, round));
        }
        Err(LedgerError::NotFound)
    }

    /// Accept the first verified submission of a round as canonical.
    ///
    /// A round below the minimum round is rejected with `RoundTooOld`
    /// before any storage access. A round already verified with the
    /// same digest is an idempotent no-op answered with the existing
    /// record; one re-submitted with a different digest is reported as
    /// `ConflictingData` and never overwritten. A new round at or
    /// above the minimum is stored and answered as stored.
    pub fn put(&mut self, round: u64, randomness: &Vec<u8>, verified_at: Timestamp) -> (r:
        Result<QueriedBeacon, LedgerError>)
        requires
            old(self).wf(),
            round_fits(round),
        ensures
            final(self).wf(),
            final(self).spec_min_round() == old(self).spec_min_round(),
            final(self)@ == put_state(
                old(self)@,
                old(self).spec_min_round(),
                round,
                randomness@,
                verified_at,
            ),
            match r {
                Ok(q) => {
                    &&& put_result(
                        old(self)@,
                        old(self).spec_min_round(),
                        round,
                        randomness@,
                        verified_at,
                    ) matches Ok(bd)
                    &&& q.round == round
                    &&& q.published.spec_nanos() == spec_time_of_round(round as int)
                    &&& q.verified == bd.verified
                    &&& q.randomness@ == bd.randomness
                },
                Err(e) => put_result(
                    old(self)@,
                    old(self).spec_min_round(),
                    round,
                    randomness@,
                    verified_at,
                ) == Err::<BeaconData, LedgerError>(e),
            },
    {
        if round < self.min_round {
            return Err(LedgerError::RoundTooOld);
        }
        let n = self.entries.len();
        let mut i: usize = 0;
        while i < n
            invariant
                self.wf(),
                n == self.entries@.len(),
                i <= n,
                forall|j: int| 0 <= j < i ==> self.entries@[j].round != round,
            decreases n - i,
        {
            if self.entries[i].round == round {
                proof {
                    lemma_entries_map_at(self.entries@, i as int);
                }
                let beacon = &self.entries[i].beacon;
                if randomness == &beacon.randomness {
                    proof {
                        assert(randomness@ =~= beacon.randomness@);
                    }
                    let stored = beacon.randomness.clone();
                    proof {
                        assert(stored@ =~= beacon.randomness@);
                    }
                    return Ok(
                        QueriedBeacon {
                            round,
                            published: time_of_round(round).unwrap(),
                            verified: beacon.verified,
                            randomness: stored,
                        },
                    );
                } else {
                    proof {
                        if randomness@ == beacon.randomness@ {
                            assert(randomness.eq_spec(&beacon.randomness));
                        }
                    }
                    return Err(LedgerError::ConflictingData);
                }
            }
            i += 1;
        }
        proof {
            assert(!has_round(self.entries@, round));
        }
        let digest = randomness.clone();
        proof {
            assert(digest@ =~= randomness@);
        }
        let entry = BeaconEntry {
            round,
            beacon: VerifiedBeacon { verified: verified_at, randomness: digest },
        };
        proof {
            lemma_entries_map_push(self.entries@, entry);
        }
        self.entries.push(entry);
        let answer = randomness.clone();
        proof {
            assert(answer@ =~= randomness@);
        }
        Ok(
            QueriedBeacon {
                round,
                published: time_of_round(round).unwrap(),
                verified: verified_at,
                randomness: answer,
            },
        )
    }
}

/// Idempotence law of the beacon store. After a successful
/// `put(round, d, t)`, a second `put` for the same round writes
/// nothing, whatever it hands in: with the same digest it is answered
/// with the stored record; with a different digest it is answered with
/// `ConflictingData`, and the canonical record survives unchanged.
pub proof fn lemma_put_idempotent(
    m: Map<u64, BeaconData>,
    min_round: u64,
    round: u64,
    d: Seq<u8>,
    d2: Seq<u8>,
    t: Timestamp,
    t2: Timestamp,
)
    ensures
        put_state(put_state(m, min_round, round, d, t), min_round, round, d2, t2) == put_state(
            m,
            min_round,
            round,
            d,
            t,
        ),
        put_result(m, min_round, round, d, t) is Ok ==> put_result(
            put_state(m, min_round, round, d, t),
            min_round,
            round,
            d,
            t2,
        ) == Ok::<BeaconData, LedgerError>(put_state(m, min_round, round, d, t)[round]),
        put_result(m, min_round, round, d, t) is Ok && d2 != d ==> put_result(
            put_state(m, min_round, round, d, t),
            min_round,
            round,
            d2,
            t2,
        ) == Err::<BeaconData, LedgerError>(LedgerError::ConflictingData),
        put_result(m, min_round, round, d, t) matches Ok(bd) ==> put_state(
            m,
            min_round,
            round,
            d,
            t,
        )[round] == bd,
{
}

} // verus!
