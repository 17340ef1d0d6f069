use vstd::prelude::*;
use vstd::arithmetic::div_mod::lemma_fundamental_div_mod_converse;

use crate::errors::LedgerError;
use crate::time::Timestamp;

verus! {

/// Genesis instant of the beacon chain (drand mainnet), in nanoseconds
/// since the UNIX epoch: 2023-03-01 15:40:00 UTC.
pub const DRAND_GENESIS_NANOS: u64 = 1_677_685_200_000_000_000;

/// Fixed cadence of the beacon chain (drand mainnet): one round every
/// three seconds, in nanoseconds.
pub const DRAND_ROUND_LENGTH_NANOS: u64 = 3_000_000_000;

/// Publication time of `round`, in nanoseconds since the UNIX epoch:
/// the genesis instant plus `round - 1` whole round lengths. Only
/// meaningful for `round >= 1`; round 1 maps exactly to genesis.
pub open spec fn spec_time_of_round(round: int) -> int {
    DRAND_GENESIS_NANOS + (round - 1) * DRAND_ROUND_LENGTH_NANOS
}

/// True iff the publication time of `round` fits in the 64-bit
/// nanosecond counter, so that [`time_of_round`] can return it.
pub open spec fn round_fits(round: u64) -> bool {
    spec_time_of_round(round as int) <= u64::MAX
}

/// The smallest round whose publication time lies strictly after
/// `base_nanos`, except that every pre-genesis instant maps to round 1
/// (round 1's publication time equals genesis, not strictly after it).
pub open spec fn spec_round_after(base_nanos: int) -> int {
    if base_nanos < DRAND_GENESIS_NANOS {
        1
    } else {
        (base_nanos - DRAND_GENESIS_NANOS) / (DRAND_ROUND_LENGTH_NANOS as int) + 2
    }
}

/// True iff `round` participates in incentive accounting: every tenth
/// round, and never the non-existent round 0.
pub open spec fn spec_is_incentivised(round: u64) -> bool {
    round != 0 && round % 10 == 0
}

/// Publication time of a round: genesis plus `round - 1` whole round
/// lengths. Fails with [`LedgerError::Underflow`] for round 0, which
/// does not exist; rounds are 1-based, and round 1 maps to genesis.
pub fn time_of_round(round: u64) -> (r: Result<Timestamp, LedgerError>)
    requires
        round >= 1 ==> round_fits(round),
    ensures
        match r {
            Ok(t) => round >= 1 && t.spec_nanos() == spec_time_of_round(round as int),
            Err(e) => round == 0 && e == LedgerError::Underflow,
        },
{
    if round == 0 {
        return Err(LedgerError::Underflow);
    }
    let elapsed = (round - 1) * DRAND_ROUND_LENGTH_NANOS;
    Ok(Timestamp::from_nanos(DRAND_GENESIS_NANOS + elapsed))
}

/// The smallest round `R >= 1` whose publication time lies strictly
/// after `base`; for any pre-genesis `base` this is round 1, even
/// though round 1 is published exactly at genesis.
pub fn round_after(base: Timestamp) -> (r: u64)
    ensures
        r == spec_round_after(base.spec_nanos() as int),
{
    let base_nanos = base.nanos();
    if base_nanos < DRAND_GENESIS_NANOS {
        1
    } else {
        let from_genesis = base_nanos - DRAND_GENESIS_NANOS;
        let periods_since_genesis = from_genesis / DRAND_ROUND_LENGTH_NANOS;
        proof {
            lemma_div_reduces(from_genesis as int, DRAND_ROUND_LENGTH_NANOS as int);
        }
        periods_since_genesis + 2
    }
}

/// True iff the round number is incentivised: every tenth round is
/// eligible for incentive payout. Round 0 does not exist and is never
/// incentivised. Purely a function of the round number; it never gates
/// verification or storage of the round itself.
#[verifier::when_used_as_spec(spec_is_incentivised)]
pub fn is_incentivised(round: u64) -> (r: bool)
    ensures
        r == spec_is_incentivised(round),
{
    round != 0 && round % 10 == 0
}

/// Dividing a non-negative number by a positive divisor never
/// increases it.
proof fn lemma_div_reduces(x: int, d: int)
    requires
        0 <= x,
        1 <= d,
    ensures
        0 <= x / d <= x,
{
    lemma_fundamental_div_mod_converse(x, 1, x, 0);
    vstd::arithmetic::div_mod::lemma_div_is_ordered_by_denominator(x, 1, d);
}

/// Round-trip law between the two clock directions. The publication
/// time of round `r` is followed next by round `r + 1`; and for
/// `r > 1`, the last instant before `r`'s publication time is still
/// answered with `r` itself. Querying exactly at a round's publication
/// time thus yields the next round, because "after" is strict.
pub proof fn lemma_round_after_time_of_round(r: u64)
    requires
        1 <= r,
        round_fits(r),
    ensures
        spec_round_after(spec_time_of_round(r as int)) == r + 1,
        r > 1 ==> spec_round_after(spec_time_of_round(r as int) - 1) == r,
{
    let g = DRAND_GENESIS_NANOS as int;
    let l = DRAND_ROUND_LENGTH_NANOS as int;
    let t = spec_time_of_round(r as int);
    assert(t - g == (r - 1) * l);
    lemma_fundamental_div_mod_converse(t - g, l, r as int - 1, 0);
    assert((t - g) / l == r - 1);
    if r > 1 {
        assert(t - 1 - g == (r - 2) * l + (l - 1)) by (nonlinear_arith)
            requires
                t - g == (r as int - 1) * l,
                l == DRAND_ROUND_LENGTH_NANOS as int,
        ;
        lemma_fundamental_div_mod_converse(t - 1 - g, l, r as int - 2, l - 1);
        assert((t - 1 - g) / l == r - 2);
    }
}

/// Boundary law of [`spec_round_after`]: the answered round is always
/// published strictly after the queried instant, and the round before
/// it (when one exists) is published at or before that instant.
pub proof fn lemma_round_after_bounds(base_nanos: int)
    requires
        0 <= base_nanos <= u64::MAX,
    ensures
        spec_round_after(base_nanos) >= 1,
        spec_time_of_round(spec_round_after(base_nanos)) > base_nanos,
        spec_round_after(base_nanos) >= 2 ==> spec_time_of_round(
            spec_round_after(base_nanos) - 1,
        ) <= base_nanos,
{
    let g = DRAND_GENESIS_NANOS as int;
    let l = DRAND_ROUND_LENGTH_NANOS as int;
    if base_nanos < g {
        assert(spec_time_of_round(1) == g);
    } else {
        let p = (base_nanos - g) / l;
        vstd::arithmetic::div_mod::lemma_fundamental_div_mod(base_nanos - g, l);
        vstd::arithmetic::div_mod::lemma_mod_bound(base_nanos - g, l);
        assert(base_nanos - g == l * p + (base_nanos - g) % l);
        assert(spec_time_of_round(p + 2) == g + (p + 1) * l);
        assert((p + 1) * l == p * l + l) by (nonlinear_arith);
        assert(l * p == p * l) by (nonlinear_arith);
        assert(spec_time_of_round(p + 1) == g + p * l);
    }
}

} // verus!
