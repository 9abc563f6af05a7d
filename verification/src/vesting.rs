//! Vesting schedules and the amount that has vested at a point in time.

use vstd::prelude::*;
use vstd::arithmetic::div_mod::*;
use vstd::arithmetic::mul::*;
use crate::address::Address;
use crate::error::Error;

verus! {

/// A vesting schedule, as the engine stores it.
///
/// A schedule releases `initial_unlock` at `start_timestamp`, `cliff_amount`
/// at `cliff_release_timestamp` and `linear_vest_amount` in steps of
/// `release_interval_secs` up to `end_timestamp`. Only `claimed_amount` and
/// `deactivation_timestamp` change after creation.
#[derive(Debug)]
pub struct Vesting {
    pub recipient: Address,
    pub start_timestamp: u64,
    pub end_timestamp: u64,
    pub deactivation_timestamp: u64,
    pub timelock: u64,
    pub release_interval_secs: u64,
    pub cliff_release_timestamp: u64,
    pub initial_unlock: i128,
    pub cliff_amount: i128,
    pub linear_vest_amount: i128,
    pub claimed_amount: i128,
}

/// The mathematical value of a [`Vesting`]: the same record, with the
/// recipient as the bytes of its key.
pub struct Schedule {
    pub recipient: Seq<u8>,
    pub start_timestamp: u64,
    pub end_timestamp: u64,
    pub deactivation_timestamp: u64,
    pub timelock: u64,
    pub release_interval_secs: u64,
    pub cliff_release_timestamp: u64,
    pub initial_unlock: i128,
    pub cliff_amount: i128,
    pub linear_vest_amount: i128,
    pub claimed_amount: i128,
}

impl View for Vesting {
    type V = Schedule;

    open spec fn view(&self) -> Schedule {
        Schedule {
            recipient: self.recipient@,
            start_timestamp: self.start_timestamp,
            end_timestamp: self.end_timestamp,
            deactivation_timestamp: self.deactivation_timestamp,
            timelock: self.timelock,
            release_interval_secs: self.release_interval_secs,
            cliff_release_timestamp: self.cliff_release_timestamp,
            initial_unlock: self.initial_unlock,
            cliff_amount: self.cliff_amount,
            linear_vest_amount: self.linear_vest_amount,
            claimed_amount: self.claimed_amount,
        }
    }
}

impl Schedule {
    /// Everything the schedule commits: initial unlock, cliff and linear amount.
    pub open spec fn total(self) -> int {
        self.initial_unlock + self.cliff_amount + self.linear_vest_amount
    }

    /// Whether the schedule has been revoked.
    pub open spec fn revoked(self) -> bool {
        self.deactivation_timestamp != 0
    }

    /// Where linear vesting starts: at the cliff release, or at the start
    /// where there is no cliff.
    pub open spec fn linear_origin(self) -> u64 {
        if self.cliff_release_timestamp != 0 {
            self.cliff_release_timestamp
        } else {
            self.start_timestamp
        }
    }

    /// The reference time `t`, held back to the revocation and to the end.
    pub open spec fn effective_time(self, t: u64) -> u64 {
        let pinned = if self.revoked() && t > self.deactivation_timestamp {
            self.deactivation_timestamp
        } else {
            t
        };
        if pinned >= self.end_timestamp {
            self.end_timestamp
        } else {
            pinned
        }
    }

    /// The cliff amount, once the effective time has reached the cliff release.
    pub open spec fn cliff_part(self, t: u64) -> int {
        if self.effective_time(t) >= self.cliff_release_timestamp {
            self.cliff_amount as int
        } else {
            0
        }
    }

    /// The initial unlock, once `t` itself has reached the start. A
    /// revocation does not hold this part back.
    pub open spec fn initial_part(self, t: u64) -> int {
        if self.initial_unlock > 0 && t >= self.start_timestamp {
            self.initial_unlock as int
        } else {
            0
        }
    }

    /// The share of the linear amount that the whole release intervals
    /// between the linear origin and the effective time have released.
    pub open spec fn linear_part(self, t: u64) -> int {
        let origin = self.linear_origin();
        let reached = self.effective_time(t);
        if reached > origin {
            let elapsed = reached - origin;
            let counted = (elapsed / self.release_interval_secs as int)
                * self.release_interval_secs;
            (self.linear_vest_amount * counted) / (self.end_timestamp - origin)
        } else {
            0
        }
    }

    /// The amount that has vested at reference time `t`.
    pub open spec fn vested_at(self, t: u64) -> int {
        self.cliff_part(t) + self.initial_part(t) + self.linear_part(t)
    }

    /// Whether the schedule is one that can be created: the start is not
    /// zero and lies before the end, no amount is negative, cliff and linear
    /// amount are not both zero, the interval is not zero, a cliff has both
    /// an amount and a release in `[start, end)` or neither, and the linear
    /// period is a whole number of intervals.
    pub open spec fn valid(self) -> bool {
        &&& self.start_timestamp > 0
        &&& self.start_timestamp < self.end_timestamp
        &&& self.initial_unlock >= 0
        &&& self.cliff_amount >= 0
        &&& self.linear_vest_amount >= 0
        &&& self.cliff_amount + self.linear_vest_amount > 0
        &&& self.release_interval_secs > 0
        &&& self.cliff_release_timestamp == 0 ==> self.cliff_amount == 0
        &&& self.cliff_release_timestamp != 0 ==> {
            &&& self.cliff_amount > 0
            &&& self.start_timestamp <= self.cliff_release_timestamp
            &&& self.cliff_release_timestamp < self.end_timestamp
        }
        &&& (self.end_timestamp - self.linear_origin()) % (self.release_interval_secs as int) == 0
    }

    /// The first rule of [`Schedule::valid`] that the schedule breaks, in
    /// the order in which a creation tests them; `Overflow` for a valid
    /// schedule that is not [`Schedule::computable`].
    pub open spec fn creation_error(self) -> Option<Error> {
        if self.initial_unlock < 0 || self.cliff_amount < 0 || self.linear_vest_amount < 0 {
            Some(Error::InvalidAmount)
        } else if self.cliff_amount + self.linear_vest_amount == 0 {
            Some(Error::InvalidAmount)
        } else if self.start_timestamp == 0 || self.start_timestamp >= self.end_timestamp {
            Some(Error::InvalidStart)
        } else if self.release_interval_secs == 0 {
            Some(Error::InvalidInterval)
        } else if self.cliff_release_timestamp == 0 && self.cliff_amount != 0 {
            Some(Error::InvalidCliffAmount)
        } else if self.cliff_release_timestamp != 0 && self.cliff_amount == 0 {
            Some(Error::InvalidCliffAmount)
        } else if self.cliff_release_timestamp != 0 && !(self.start_timestamp
            <= self.cliff_release_timestamp && self.cliff_release_timestamp
            < self.end_timestamp) {
            Some(Error::InvalidCliffRelease)
        } else if (self.end_timestamp - self.linear_origin()) % (
        self.release_interval_secs as int) != 0 {
            Some(Error::InvalidIntervalLength)
        } else if !self.computable() {
            Some(Error::Overflow)
        } else {
            None
        }
    }

    /// Whether the schedule can stand in a store: it is valid and
    /// computable, and what was claimed lies between zero and the total.
    pub open spec fn wf(self) -> bool {
        &&& self.valid()
        &&& self.computable()
        &&& 0 <= self.claimed_amount <= self.total()
    }

    /// Whether the vested amount can be computed in 128-bit integers: no
    /// amount is negative, the interval is not zero, and neither the total
    /// nor the linear amount times the linear period leaves the range.
    pub open spec fn computable(self) -> bool {
        &&& self.initial_unlock >= 0
        &&& self.cliff_amount >= 0
        &&& self.linear_vest_amount >= 0
        &&& self.release_interval_secs > 0
        &&& self.total() <= i128::MAX
        &&& self.linear_origin() < self.end_timestamp ==> self.linear_vest_amount * (
        self.end_timestamp - self.linear_origin()) <= i128::MAX
    }
}

/// The whole intervals in `elapsed` cover at most `elapsed`.
pub proof fn lemma_counted_le(elapsed: int, interval: int)
    requires
        0 <= elapsed,
        0 < interval,
    ensures
        0 <= (elapsed / interval) * interval <= elapsed,
        elapsed % interval == 0 ==> (elapsed / interval) * interval == elapsed,
{
    lemma_fundamental_div_mod(elapsed, interval);
    lemma_mod_bound(elapsed, interval);
    lemma_div_pos_is_pos(elapsed, interval);
    lemma_mul_is_commutative(elapsed / interval, interval);
    lemma_mul_nonnegative(elapsed / interval, interval);
}

/// A share `amount * counted / period` with `0 <= counted <= period` lies
/// between zero and `amount`, and is all of `amount` for the whole period.
pub proof fn lemma_share_bounds(amount: int, counted: int, period: int)
    requires
        0 <= amount,
        0 <= counted <= period,
        0 < period,
    ensures
        0 <= amount * counted <= amount * period,
        0 <= (amount * counted) / period <= amount,
        counted == period ==> (amount * counted) / period == amount,
{
    lemma_mul_nonnegative(amount, counted);
    lemma_mul_inequality(counted, period, amount);
    lemma_mul_is_commutative(amount, counted);
    lemma_mul_is_commutative(amount, period);
    lemma_div_pos_is_pos(amount * counted, period);
    lemma_div_is_ordered(amount * counted, amount * period, period);
    lemma_div_multiples_vanish(amount, period);
}


/// A schedule has no creation error exactly when it is valid and computable.
pub proof fn lemma_creation_error_none(s: Schedule)
    ensures
        s.creation_error() is None <==> s.valid() && s.computable(),
{
}

impl Vesting {
    /// The schedule with the given terms, not revoked and with nothing
    /// claimed, or the first rule that the terms break.
    pub fn new(
        recipient: Address,
        start_timestamp: u64,
        end_timestamp: u64,
        timelock: u64,
        initial_unlock: i128,
        cliff_release_timestamp: u64,
        cliff_amount: i128,
        release_interval_secs: u64,
        linear_vest_amount: i128,
    ) -> (r: Result<Vesting, Error>)
        ensures
            match r {
                Ok(v) => {
                    &&& v@ == Vesting::terms(
                        recipient@,
                        start_timestamp,
                        end_timestamp,
                        timelock,
                        initial_unlock,
                        cliff_release_timestamp,
                        cliff_amount,
                        release_interval_secs,
                        linear_vest_amount,
                    )
                    &&& v@.creation_error() is None
                    &&& v@.wf()
                },
                Err(e) => Vesting::terms(
                    recipient@,
                    start_timestamp,
                    end_timestamp,
                    timelock,
                    initial_unlock,
                    cliff_release_timestamp,
                    cliff_amount,
                    release_interval_secs,
                    linear_vest_amount,
                ).creation_error() == Some(e),
            },
    {
        if initial_unlock < 0 || cliff_amount < 0 || linear_vest_amount < 0 {
            return Err(Error::InvalidAmount);
        }
        if linear_vest_amount == 0 && cliff_amount == 0 {
            return Err(Error::InvalidAmount);
        }
        if start_timestamp == 0 || start_timestamp >= end_timestamp {
            return Err(Error::InvalidStart);
        }
        if release_interval_secs == 0 {
            return Err(Error::InvalidInterval);
        }
        let origin: u64 = if cliff_release_timestamp == 0 {
            if cliff_amount != 0 {
                return Err(Error::InvalidCliffAmount);
            }
            start_timestamp
        } else {
            if cliff_amount == 0 {
                return Err(Error::InvalidCliffAmount);
            }
            if !(start_timestamp <= cliff_release_timestamp && cliff_release_timestamp
                < end_timestamp) {
                return Err(Error::InvalidCliffRelease);
            }
            cliff_release_timestamp
        };
        let period: u64 = end_timestamp - origin;
        if period % release_interval_secs != 0 {
            return Err(Error::InvalidIntervalLength);
        }
        let committed: Option<i128> = match initial_unlock.checked_add(cliff_amount) {
            Some(part) => part.checked_add(linear_vest_amount),
            None => None,
        };
        if committed.is_none() {
            return Err(Error::Overflow);
        }
        if linear_vest_amount.checked_mul(period as i128).is_none() {
            return Err(Error::Overflow);
        }
        Ok(
            Vesting {
                recipient,
                start_timestamp,
                end_timestamp,
                deactivation_timestamp: 0,
                timelock,
                release_interval_secs,
                cliff_release_timestamp,
                initial_unlock,
                cliff_amount,
                linear_vest_amount,
                claimed_amount: 0,
            },
        )
    }

    /// Whether the vested amount of the schedule can be computed.
    pub fn is_computable(&self) -> (r: bool)
        ensures
            r == self@.computable(),
    {
        if self.initial_unlock < 0 || self.cliff_amount < 0 || self.linear_vest_amount < 0
            || self.release_interval_secs == 0 {
            return false;
        }
        let committed: Option<i128> = match self.initial_unlock.checked_add(self.cliff_amount) {
            Some(part) => part.checked_add(self.linear_vest_amount),
            None => None,
        };
        if committed.is_none() {
            return false;
        }
        let origin: u64 = if self.cliff_release_timestamp != 0 {
            self.cliff_release_timestamp
        } else {
            self.start_timestamp
        };
        if origin < self.end_timestamp {
            let period: u64 = self.end_timestamp - origin;
            self.linear_vest_amount.checked_mul(period as i128).is_some()
        } else {
            true
        }
    }

    /// Whether the schedule can stand in a store.
    pub fn is_wf(&self) -> (r: bool)
        ensures
            r == self@.wf(),
    {
        let terms = Vesting::new(
            self.recipient.clone(),
            self.start_timestamp,
            self.end_timestamp,
            self.timelock,
            self.initial_unlock,
            self.cliff_release_timestamp,
            self.cliff_amount,
            self.release_interval_secs,
            self.linear_vest_amount,
        );
        proof {
            let fresh = Vesting::terms(
                self.recipient@,
                self.start_timestamp,
                self.end_timestamp,
                self.timelock,
                self.initial_unlock,
                self.cliff_release_timestamp,
                self.cliff_amount,
                self.release_interval_secs,
                self.linear_vest_amount,
            );
            lemma_creation_error_none(fresh);
            assert(fresh.valid() == self@.valid());
            assert(fresh.computable() == self@.computable());
        }
        match terms {
            Ok(_) => 0 <= self.claimed_amount && self.claimed_amount <= self.initial_unlock
                + self.cliff_amount + self.linear_vest_amount,
            Err(_) => false,
        }
    }

    /// The schedule that a creation with the given terms stores.
    pub open spec fn terms(
        recipient: Seq<u8>,
        start_timestamp: u64,
        end_timestamp: u64,
        timelock: u64,
        initial_unlock: i128,
        cliff_release_timestamp: u64,
        cliff_amount: i128,
        release_interval_secs: u64,
        linear_vest_amount: i128,
    ) -> Schedule {
        Schedule {
            recipient,
            start_timestamp,
            end_timestamp,
            deactivation_timestamp: 0,
            timelock,
            release_interval_secs,
            cliff_release_timestamp,
            initial_unlock,
            cliff_amount,
            linear_vest_amount,
            claimed_amount: 0,
        }
    }
}

impl Clone for Vesting {
    fn clone(&self) -> (v: Vesting)
        ensures
            v@ == self@,
    {
        Vesting {
            recipient: self.recipient.clone(),
            start_timestamp: self.start_timestamp,
            end_timestamp: self.end_timestamp,
            deactivation_timestamp: self.deactivation_timestamp,
            timelock: self.timelock,
            release_interval_secs: self.release_interval_secs,
            cliff_release_timestamp: self.cliff_release_timestamp,
            initial_unlock: self.initial_unlock,
            cliff_amount: self.cliff_amount,
            linear_vest_amount: self.linear_vest_amount,
            claimed_amount: self.claimed_amount,
        }
    }
}

impl PartialEq for Vesting {
    fn eq(&self, other: &Vesting) -> (r: bool) {
        self.recipient.same(&other.recipient) && self.start_timestamp == other.start_timestamp
            && self.end_timestamp == other.end_timestamp && self.deactivation_timestamp
            == other.deactivation_timestamp && self.timelock == other.timelock
            && self.release_interval_secs == other.release_interval_secs
            && self.cliff_release_timestamp == other.cliff_release_timestamp
            && self.initial_unlock == other.initial_unlock && self.cliff_amount
            == other.cliff_amount && self.linear_vest_amount == other.linear_vest_amount
            && self.claimed_amount == other.claimed_amount
    }
}

impl Eq for Vesting {}

impl vstd::std_specs::cmp::PartialEqSpecImpl for Vesting {
    open spec fn obeys_eq_spec() -> bool {
        true
    }

    open spec fn eq_spec(&self, other: &Vesting) -> bool {
        self@ == other@
    }
}

} // verus!
