//! The vested amount of a schedule at a reference time.

use vstd::prelude::*;
use vstd::arithmetic::div_mod::lemma_div_is_ordered;
use vstd::arithmetic::mul::{lemma_mul_inequality, lemma_mul_is_commutative};
use crate::manager::TokenVestingManager;
use crate::vesting::{lemma_counted_le, lemma_share_bounds, Schedule, Vesting};

verus! {

impl TokenVestingManager {
    /// The amount of `vesting` that has vested at `reference_timestamp`:
    /// cliff, initial unlock and the linear share of the whole release
    /// intervals that have passed, held back by a revocation.
    pub fn calculate_vested_amount(vesting: &Vesting, reference_timestamp: u64) -> (amount: i128)
        requires
            vesting@.computable(),
        ensures
            amount == vesting@.vested_at(reference_timestamp),
            0 <= amount <= vesting@.total(),
    {
        let mut reached: u64 = reference_timestamp;
        if vesting.deactivation_timestamp != 0 && reached > vesting.deactivation_timestamp {
            reached = vesting.deactivation_timestamp;
        }
        if reached >= vesting.end_timestamp {
            reached = vesting.end_timestamp;
        }
        assert(reached == vesting@.effective_time(reference_timestamp));
        let cliff: i128 = if reached >= vesting.cliff_release_timestamp {
            vesting.cliff_amount
        } else {
            0
        };
        let initial: i128 = if vesting.initial_unlock > 0 && reference_timestamp
            >= vesting.start_timestamp {
            vesting.initial_unlock
        } else {
            0
        };
        let origin: u64 = if vesting.cliff_release_timestamp != 0 {
            vesting.cliff_release_timestamp
        } else {
            vesting.start_timestamp
        };
        let linear: i128 = if reached > origin {
            let elapsed: u64 = reached - origin;
            proof {
                lemma_counted_le(elapsed as int, vesting.release_interval_secs as int);
            }
            let counted: u64 = (elapsed / vesting.release_interval_secs)
                * vesting.release_interval_secs;
            let period: u64 = vesting.end_timestamp - origin;
            proof {
                lemma_share_bounds(
                    vesting.linear_vest_amount as int,
                    counted as int,
                    period as int,
                );
            }
            (vesting.linear_vest_amount * (counted as i128)) / (period as i128)
        } else {
            0
        };
        cliff + initial + linear
    }
}


/// The vested amount of a valid schedule never decreases as the reference
/// time advances.
pub proof fn lemma_vested_monotonic(s: Schedule, t1: u64, t2: u64)
    requires
        s.valid(),
        t1 <= t2,
    ensures
        s.vested_at(t1) <= s.vested_at(t2),
{
    let origin = s.linear_origin();
    let interval = s.release_interval_secs as int;
    let r1 = s.effective_time(t1);
    let r2 = s.effective_time(t2);
    assert(r1 <= r2 <= s.end_timestamp);
    if r2 > origin {
        let period = s.end_timestamp - origin;
        let c2 = ((r2 - origin) / interval) * interval;
        lemma_counted_le(r2 - origin, interval);
        lemma_share_bounds(s.linear_vest_amount as int, c2, period);
        if r1 > origin {
            let c1 = ((r1 - origin) / interval) * interval;
            lemma_counted_le(r1 - origin, interval);
            lemma_div_is_ordered(r1 - origin, r2 - origin, interval);
            lemma_mul_inequality((r1 - origin) / interval, (r2 - origin) / interval, interval);
            lemma_mul_inequality(c1, c2, s.linear_vest_amount as int);
            lemma_mul_is_commutative(c1, s.linear_vest_amount as int);
            lemma_mul_is_commutative(c2, s.linear_vest_amount as int);
            lemma_div_is_ordered(s.linear_vest_amount * c1, s.linear_vest_amount * c2, period);
        }
    }
}

/// Once a schedule is revoked, the vested amount at any later reference
/// time is the one at the revocation, so it is constant from there on. This
/// holds where the revocation is not before the start or there is no
/// initial unlock: an initial unlock is released at the start even after an
/// earlier revocation.
pub proof fn lemma_vested_pinned_by_revocation(s: Schedule, t: u64)
    requires
        s.valid(),
        s.revoked(),
        s.deactivation_timestamp <= t,
        s.initial_unlock == 0 || s.start_timestamp <= s.deactivation_timestamp,
    ensures
        s.vested_at(t) == s.vested_at(s.deactivation_timestamp),
{
}

/// At its end a valid schedule that was not revoked before the end has
/// vested its total: initial unlock, cliff and linear amount; without a
/// cliff that is initial unlock and linear amount.
pub proof fn lemma_fully_vested_at_end(s: Schedule)
    requires
        s.valid(),
        !s.revoked() || s.end_timestamp <= s.deactivation_timestamp,
    ensures
        s.vested_at(s.end_timestamp) == s.total(),
        s.cliff_release_timestamp == 0 ==> s.vested_at(s.end_timestamp) == s.initial_unlock
            + s.linear_vest_amount,
{
    let origin = s.linear_origin();
    let period = s.end_timestamp - origin;
    assert(s.effective_time(s.end_timestamp) == s.end_timestamp);
    lemma_counted_le(period, s.release_interval_secs as int);
    lemma_share_bounds(s.linear_vest_amount as int, period, period);
}

/// From its end on, a valid schedule that was not revoked before the end
/// stays fully vested.
pub proof fn lemma_fully_vested_after_end(s: Schedule, t: u64)
    requires
        s.valid(),
        !s.revoked() || s.end_timestamp <= s.deactivation_timestamp,
        s.end_timestamp <= t,
    ensures
        s.vested_at(t) == s.total(),
{
    lemma_fully_vested_at_end(s);
    assert(s.effective_time(t) == s.end_timestamp);
}

/// A valid schedule never vests more than its total, nor less than nothing.
pub proof fn lemma_vested_bounds(s: Schedule, t: u64)
    requires
        s.valid(),
    ensures
        0 <= s.vested_at(t) <= s.total(),
{
    let origin = s.linear_origin();
    let reached = s.effective_time(t);
    if reached > origin {
        let interval = s.release_interval_secs as int;
        let counted = ((reached - origin) / interval) * interval;
        lemma_counted_le(reached - origin, interval);
        lemma_share_bounds(s.linear_vest_amount as int, counted, s.end_timestamp - origin);
    }
}

/// Exactly at its start, a valid schedule with an initial unlock that was
/// not revoked before the start has vested the initial unlock, and the
/// cliff amount where the cliff release is the start.
pub proof fn lemma_vested_at_start(s: Schedule)
    requires
        s.valid(),
        s.initial_unlock > 0,
        !s.revoked() || s.start_timestamp <= s.deactivation_timestamp,
    ensures
        s.vested_at(s.start_timestamp) == s.initial_unlock + (if s.cliff_release_timestamp
            <= s.start_timestamp {
            s.cliff_amount as int
        } else {
            0
        }),
{
}

} // verus!
