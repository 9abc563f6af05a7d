//! A property of the calculator, decided on given terms.

use vstd::prelude::*;
use crate::address::Address;
use crate::manager::TokenVestingManager;
use crate::vesting::{lemma_counted_le, lemma_share_bounds, Vesting};

verus! {

/// Properties of the manager that a property tester decides on terms of its
/// choice.
pub struct TestManagerContract;

impl TestManagerContract {
    /// Whether a schedule with the linear amount `linear_amt` from `start_t`
    /// to `end_t` in steps of `interval`, without cliff and initial unlock,
    /// has vested all of `linear_amt` at `end_t`. Terms that make no
    /// schedule, or whose amount times the period does not fit 128 bits,
    /// count as vested. So the answer is yes on all terms.
    pub fn test_all_vested_at_the_end(start_t: u64, end_t: u64, linear_amt: i128, interval: u64) -> (r:
        bool)
        ensures
            r,
    {
        if end_t <= start_t || linear_amt <= 0 || interval == 0 {
            return true;
        }
        let duration: u64 = end_t - start_t;
        if duration % interval != 0 {
            return true;
        }
        if linear_amt.checked_mul(duration as i128).is_none() {
            return true;
        }
        let vesting = Vesting {
            recipient: Address::new(Vec::new()),
            start_timestamp: start_t,
            end_timestamp: end_t,
            release_interval_secs: interval,
            linear_vest_amount: linear_amt,
            deactivation_timestamp: 0,
            timelock: 0,
            cliff_release_timestamp: 0,
            initial_unlock: 0,
            cliff_amount: 0,
            claimed_amount: 0,
        };
        let vested_amt: i128 = TokenVestingManager::calculate_vested_amount(&vesting, end_t);
        proof {
            lemma_counted_le(duration as int, interval as int);
            lemma_share_bounds(linear_amt as int, duration as int, duration as int);
        }
        linear_amt == vested_amt
    }
}

} // verus!
