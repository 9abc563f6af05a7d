//! The manager as a state machine: its state as a mathematical value, and
//! each operation as a function from a state and the operation's inputs to
//! the next state and the actions of the host, or to the reason for which
//! the operation is refused.

use vstd::prelude::*;
use crate::admin::set_admin_error;
use crate::calculator::{lemma_fully_vested_at_end, lemma_vested_bounds};
use crate::effects::{ActionView, EventView};
use crate::error::Error;
use crate::vesting::Schedule;

verus! {

impl Schedule {
    /// What the schedule will have vested in all: its total, or, once it is
    /// revoked, what had vested at the revocation.
    pub open spec fn committed(self) -> int {
        if self.revoked() {
            self.vested_at(self.deactivation_timestamp)
        } else {
            self.total()
        }
    }

    /// What the manager still holds for the schedule: what it will have
    /// vested in all, less what was claimed.
    pub open spec fn outstanding(self) -> int {
        self.committed() - self.claimed_amount
    }
}

/// The sum of what the manager still holds for each of the schedules.
pub open spec fn outstanding_sum(schedules: Seq<Schedule>) -> int
    decreases schedules.len(),
{
    if schedules.len() == 0 {
        0
    } else {
        outstanding_sum(schedules.drop_last()) + schedules.last().outstanding()
    }
}

/// The state of a manager.
pub struct State {
    /// The keys of the administrators.
    pub admins: Set<Seq<u8>>,
    /// The key of the managed token, once the manager is initialized.
    pub token: Option<Seq<u8>>,
    /// The amount of the managed token that is reserved for vesting.
    pub reserved: int,
    /// The schedules; the id of a schedule is its place.
    pub schedules: Seq<Schedule>,
}

/// The outcome of an operation that succeeded.
pub struct Step {
    /// The state after the operation.
    pub next: State,
    /// What the host does, in this order.
    pub actions: Seq<ActionView>,
}

impl State {
    /// The state of a manager that has not been initialized.
    pub open spec fn fresh() -> State {
        State { admins: Set::empty(), token: None, reserved: 0, schedules: Seq::empty() }
    }

    /// Whether the manager has been initialized.
    pub open spec fn initialized(self) -> bool {
        self.token is Some
    }

    /// The key of the managed token.
    pub open spec fn managed_token(self) -> Seq<u8> {
        match self.token {
            Some(token) => token,
            None => Seq::empty(),
        }
    }

    /// The invariant of the state. There are finitely many administrators,
    /// at least one once the manager is initialized and none before; the
    /// counts fit 32 bits and the reserved amount 128 bits; every schedule
    /// is well-formed; before the initialization there is no schedule and
    /// nothing is reserved.
    pub open spec fn wf(self) -> bool {
        &&& self.admins.finite()
        &&& self.admins.len() <= u32::MAX
        &&& self.initialized() ==> self.admins.len() >= 1
        &&& !self.initialized() ==> self == State::fresh()
        &&& i128::MIN <= self.reserved <= i128::MAX
        &&& self.schedules.len() <= u32::MAX
        &&& forall|j: int| 0 <= j < self.schedules.len() ==> (#[trigger] self.schedules[j]).wf()
    }

    /// Whether the reserved amount is what the manager still holds for the
    /// schedules: for each, what was committed at its creation, less what
    /// was claimed and what a revocation forfeited.
    pub open spec fn conserved(self) -> bool {
        self.reserved == outstanding_sum(self.schedules)
    }

    /// Initializes the manager with its first administrator and its token.
    pub open spec fn init(self, factory_caller: Seq<u8>, token: Seq<u8>) -> Result<Step, Error> {
        if self.initialized() {
            Err(Error::AlreadyInitialized)
        } else {
            Ok(
                Step {
                    next: State {
                        admins: Set::empty().insert(factory_caller),
                        token: Some(token),
                        ..self
                    },
                    actions: seq![
                        ActionView::Emit(
                            EventView::AdminAccessSet { admin: factory_caller, enabled: true },
                        ),
                    ],
                },
            )
        }
    }

    /// Gives `target` the administrator status `enable` on behalf of `caller`.
    pub open spec fn set_admin(self, caller: Seq<u8>, target: Seq<u8>, enable: bool) -> Result<
        Step,
        Error,
    > {
        match set_admin_error(self.admins, caller, target, enable) {
            Some(e) => Err(e),
            None => Ok(
                Step {
                    next: State {
                        admins: if enable {
                            self.admins.insert(target)
                        } else {
                            self.admins.remove(target)
                        },
                        ..self
                    },
                    actions: seq![
                        ActionView::Emit(
                            EventView::AdminAccessSet { admin: target, enabled: enable },
                        ),
                    ],
                },
            ),
        }
    }

    /// Why the schedule `terms` cannot be stored, if anything forbids it:
    /// the first rule that the terms break, or `Overflow` where the reserved
    /// amount or the number of schedules would leave its range.
    pub open spec fn store_error(self, terms: Schedule) -> Option<Error> {
        if terms.creation_error() is Some {
            terms.creation_error()
        } else if self.reserved + terms.total() > i128::MAX || self.schedules.len() >= u32::MAX {
            Some(Error::Overflow)
        } else {
            None
        }
    }

    /// Stores the schedule `terms` under the next id, reserves its total,
    /// and has the total pulled from `caller`. The caller's rights are not
    /// looked at.
    pub open spec fn store(self, caller: Seq<u8>, terms: Schedule) -> Result<Step, Error> {
        match self.store_error(terms) {
            Some(e) => Err(e),
            None => Ok(
                Step {
                    next: State {
                        reserved: self.reserved + terms.total(),
                        schedules: self.schedules.push(terms),
                        ..self
                    },
                    actions: seq![
                        ActionView::Emit(
                            EventView::VestingCreated {
                                id: self.schedules.len() as u64,
                                recipient: terms.recipient,
                                vesting: terms,
                            },
                        ),
                        ActionView::Pull { from: caller, amount: terms.total() as i128 },
                    ],
                },
            ),
        }
    }

    /// Creates the schedule `terms` on behalf of the administrator `caller`.
    pub open spec fn create(self, caller: Seq<u8>, terms: Schedule) -> Result<Step, Error> {
        if !self.admins.contains(caller) {
            Err(Error::NotAdmin)
        } else {
            self.store(caller, terms)
        }
    }

    /// Stores the schedules `items` one after the other. The first one that
    /// cannot be stored refuses them all.
    pub open spec fn store_all(self, caller: Seq<u8>, items: Seq<Schedule>) -> Result<Step, Error>
        decreases items.len(),
    {
        if items.len() == 0 {
            Ok(Step { next: self, actions: Seq::empty() })
        } else {
            match self.store_all(caller, items.drop_last()) {
                Err(e) => Err(e),
                Ok(before) => match before.next.store(caller, items.last()) {
                    Err(e) => Err(e),
                    Ok(last) => Ok(
                        Step { next: last.next, actions: before.actions + last.actions },
                    ),
                },
            }
        }
    }

    /// Creates the schedules `items` on behalf of the administrator
    /// `caller`, all or none; `lengths_match` says whether the sequences
    /// that the items were given in have one length.
    pub open spec fn create_batch(
        self,
        caller: Seq<u8>,
        lengths_match: bool,
        items: Seq<Schedule>,
    ) -> Result<Step, Error> {
        if !self.admins.contains(caller) {
            Err(Error::NotAdmin)
        } else if !lengths_match {
            Err(Error::LengthMismatch)
        } else {
            self.store_all(caller, items)
        }
    }

    /// Why `caller` cannot claim of the schedule `id` at the time `now`, if
    /// anything forbids it.
    pub open spec fn claim_error(self, caller: Seq<u8>, id: u64, now: u64) -> Option<Error> {
        if id >= self.schedules.len() {
            Some(Error::UnknownSchedule)
        } else {
            let v = self.schedules[id as int];
            if v.recipient != caller {
                Some(Error::NotOwner)
            } else if now < v.timelock {
                Some(Error::TimelockActive)
            } else if v.vested_at(now) <= v.claimed_amount {
                Some(Error::NothingToClaim)
            } else if self.reserved - (v.vested_at(now) - v.claimed_amount) < i128::MIN {
                Some(Error::Overflow)
            } else {
                None
            }
        }
    }

    /// The recipient `caller` claims, at the time `now`, what has vested of
    /// the schedule `id` beyond what was claimed before.
    pub open spec fn claim(self, caller: Seq<u8>, id: u64, now: u64) -> Result<Step, Error> {
        match self.claim_error(caller, id, now) {
            Some(e) => Err(e),
            None => {
                let v = self.schedules[id as int];
                let claimable = v.vested_at(now) - v.claimed_amount;
                Ok(
                    Step {
                        next: State {
                            reserved: self.reserved - claimable,
                            schedules: self.schedules.update(
                                id as int,
                                (Schedule { claimed_amount: v.vested_at(now) as i128, ..v }),
                            ),
                            ..self
                        },
                        actions: seq![
                            ActionView::Emit(
                                EventView::Claimed { id, caller, amount: claimable as i128 },
                            ),
                            ActionView::Pay {
                                token: self.managed_token(),
                                to: caller,
                                amount: claimable as i128,
                            },
                        ],
                    },
                )
            },
        }
    }

    /// What a revocation of `v` at the time `now` forfeits: what `v` would
    /// have vested at its end, less what has vested at `now`.
    pub open spec fn forfeit(v: Schedule, now: u64) -> int {
        v.vested_at(v.end_timestamp) - (Schedule { deactivation_timestamp: now, ..v }).vested_at(
            now,
        )
    }

    /// Why `caller` cannot revoke the schedule `id` at the time `now`, if
    /// anything forbids it.
    pub open spec fn revoke_error(self, caller: Seq<u8>, id: u64, now: u64) -> Option<Error> {
        if !self.admins.contains(caller) {
            Some(Error::NotAdmin)
        } else if id >= self.schedules.len() {
            Some(Error::UnknownSchedule)
        } else {
            let v = self.schedules[id as int];
            if v.revoked() {
                Some(Error::AlreadyRevoked)
            } else if v.vested_at(v.end_timestamp) == v.claimed_amount {
                Some(Error::FullyClaimed)
            } else if self.reserved - State::forfeit(v, now) < i128::MIN {
                Some(Error::Overflow)
            } else {
                None
            }
        }
    }

    /// The administrator `caller` revokes the schedule `id` at the time
    /// `now`: nothing more vests, and what is forfeited is no longer reserved.
    pub open spec fn revoke(self, caller: Seq<u8>, id: u64, now: u64) -> Result<Step, Error> {
        match self.revoke_error(caller, id, now) {
            Some(e) => Err(e),
            None => {
                let v = self.schedules[id as int];
                let revoked = Schedule { deactivation_timestamp: now, ..v };
                Ok(
                    Step {
                        next: State {
                            reserved: self.reserved - State::forfeit(v, now),
                            schedules: self.schedules.update(id as int, revoked),
                            ..self
                        },
                        actions: seq![
                            ActionView::Emit(
                                EventView::VestingRevoked {
                                    id,
                                    recipient: v.recipient,
                                    forfeited: State::forfeit(v, now) as i128,
                                    vesting: revoked,
                                },
                            ),
                        ],
                    },
                )
            },
        }
    }

    /// What an administrator can withdraw of the managed token, of which
    /// the manager holds `balance`: what is not reserved.
    pub open spec fn withdrawable(self, balance: i128) -> int {
        balance - self.reserved
    }

    /// The administrator `caller` withdraws `amount` of the managed token,
    /// of which the manager holds `balance`.
    pub open spec fn withdraw_admin(self, caller: Seq<u8>, amount: i128, balance: i128) -> Result<
        Step,
        Error,
    > {
        if !self.admins.contains(caller) {
            Err(Error::NotAdmin)
        } else if self.withdrawable(balance) < amount {
            Err(Error::InsufficientUnreserved)
        } else {
            Ok(
                Step {
                    next: self,
                    actions: seq![
                        ActionView::Pay { token: self.managed_token(), to: caller, amount },
                        ActionView::Emit(EventView::AdminWithdrawn { caller, amount }),
                    ],
                },
            )
        }
    }

    /// The administrator `caller` withdraws all of the token `other`, of
    /// which the manager holds `balance`; `other` is not the managed token.
    pub open spec fn withdraw_other_token(self, caller: Seq<u8>, other: Seq<u8>, balance: i128) -> Result<
        Step,
        Error,
    > {
        if !self.admins.contains(caller) {
            Err(Error::NotAdmin)
        } else if other == self.managed_token() {
            Err(Error::InvalidOtherToken)
        } else {
            Ok(
                Step {
                    next: self,
                    actions: seq![
                        ActionView::Pay { token: other, to: caller, amount: balance },
                        ActionView::Emit(EventView::AdminWithdrawnOther { caller, amount: balance }),
                    ],
                },
            )
        }
    }
}


/// A revocation of a valid schedule that is not revoked forfeits its total
/// less what has vested at the time of the revocation: never less than
/// nothing, never more than the total.
pub proof fn lemma_forfeit(v: Schedule, now: u64)
    requires
        v.valid(),
        !v.revoked(),
    ensures
        State::forfeit(v, now) == v.total() - v.vested_at(now),
        0 <= State::forfeit(v, now) <= v.total(),
{
    let revoked = Schedule { deactivation_timestamp: now, ..v };
    assert(revoked.effective_time(now) == v.effective_time(now));
    assert(revoked.vested_at(now) == v.vested_at(now));
    lemma_fully_vested_at_end(v);
    lemma_vested_bounds(v, now);
}

} // verus!
