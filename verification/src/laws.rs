//! What holds of every state that a manager can reach.

use vstd::prelude::*;
use crate::calculator::{
    lemma_fully_vested_at_end, lemma_vested_bounds, lemma_vested_monotonic,
    lemma_vested_pinned_by_revocation,
};
use crate::error::Error;
use crate::model::{lemma_forfeit, outstanding_sum, State, Step};
use crate::vesting::Schedule;

verus! {

/// An operation of the manager that can change its state or ask the host
/// for an action, with its inputs.
pub enum Operation {
    Init { factory_caller: Seq<u8>, token: Seq<u8> },
    SetAdmin { caller: Seq<u8>, target: Seq<u8>, enable: bool },
    Create { caller: Seq<u8>, terms: Schedule },
    CreateBatch { caller: Seq<u8>, lengths_match: bool, items: Seq<Schedule> },
    Claim { caller: Seq<u8>, id: u64, now: u64 },
    Revoke { caller: Seq<u8>, id: u64, now: u64 },
    WithdrawAdmin { caller: Seq<u8>, amount: i128, balance: i128 },
    WithdrawOtherToken { caller: Seq<u8>, other: Seq<u8>, balance: i128 },
}

impl Schedule {
    /// Whether the schedule is as a creation makes it: not revoked, and
    /// with nothing claimed.
    pub open spec fn untouched(self) -> bool {
        self.deactivation_timestamp == 0 && self.claimed_amount == 0
    }
}

impl Operation {
    /// Whether the schedules that the operation asks to create are as a
    /// creation makes them.
    pub open spec fn creates_untouched(self) -> bool {
        match self {
            Operation::Create { terms, .. } => terms.untouched(),
            Operation::CreateBatch { items, .. } => forall|i: int|
                0 <= i < items.len() ==> (#[trigger] items[i]).untouched(),
            _ => true,
        }
    }

    /// The time that the operation takes from the clock, if it takes one.
    pub open spec fn time(self) -> Option<u64> {
        match self {
            Operation::Claim { now, .. } => Some(now),
            Operation::Revoke { now, .. } => Some(now),
            _ => None,
        }
    }

    /// Whether the operation is a revocation at the time zero. Such a
    /// revocation releases the reserve of a schedule and leaves the
    /// schedule as it was, since zero is the mark of a schedule that is
    /// not revoked.
    pub open spec fn revokes_at_zero(self) -> bool {
        self matches Operation::Revoke { now, .. } && now == 0
    }
}

impl State {
    /// What the operation `op` does in this state.
    pub open spec fn apply(self, op: Operation) -> Result<Step, Error> {
        match op {
            Operation::Init { factory_caller, token } => self.init(factory_caller, token),
            Operation::SetAdmin { caller, target, enable } => self.set_admin(
                caller,
                target,
                enable,
            ),
            Operation::Create { caller, terms } => self.create(caller, terms),
            Operation::CreateBatch { caller, lengths_match, items } => self.create_batch(
                caller,
                lengths_match,
                items,
            ),
            Operation::Claim { caller, id, now } => self.claim(caller, id, now),
            Operation::Revoke { caller, id, now } => self.revoke(caller, id, now),
            Operation::WithdrawAdmin { caller, amount, balance } => self.withdraw_admin(
                caller,
                amount,
                balance,
            ),
            Operation::WithdrawOtherToken { caller, other, balance } => self.withdraw_other_token(
                caller,
                other,
                balance,
            ),
        }
    }

    /// The state after the operation `op`: a refused operation leaves the
    /// state as it is.
    pub open spec fn after(self, op: Operation) -> State {
        match self.apply(op) {
            Ok(step) => step.next,
            Err(_) => self,
        }
    }

    /// Whether no schedule has claimed more than it has vested at the
    /// time `t`.
    pub open spec fn claims_covered(self, t: u64) -> bool {
        forall|j: int|
            0 <= j < self.schedules.len() ==> (#[trigger] self.schedules[j]).claimed_amount
                <= self.schedules[j].vested_at(t)
    }

    /// Whether every revocation was at or before the time `t`, and none
    /// was before the start of a schedule with an initial unlock.
    pub open spec fn revocations_settled(self, t: u64) -> bool {
        forall|j: int|
            0 <= j < self.schedules.len() && (#[trigger] self.schedules[j]).revoked() ==> {
                &&& self.schedules[j].deactivation_timestamp <= t
                &&& self.schedules[j].initial_unlock == 0 || self.schedules[j].start_timestamp
                    <= self.schedules[j].deactivation_timestamp
            }
    }

    /// The state after the operations `ops`, one after the other.
    pub open spec fn run(self, ops: Seq<Operation>) -> State
        decreases ops.len(),
    {
        if ops.len() == 0 {
            self
        } else {
            self.run(ops.drop_last()).after(ops.last())
        }
    }
}

/// One more schedule adds what the manager holds for it to the sum.
pub proof fn lemma_outstanding_push(schedules: Seq<Schedule>, v: Schedule)
    ensures
        outstanding_sum(schedules.push(v)) == outstanding_sum(schedules) + v.outstanding(),
{
    assert(schedules.push(v).drop_last() =~= schedules);
}

/// A change of one schedule changes the sum by the change of what the
/// manager holds for that schedule.
pub proof fn lemma_outstanding_update(schedules: Seq<Schedule>, i: int, v: Schedule)
    requires
        0 <= i < schedules.len(),
    ensures
        outstanding_sum(schedules.update(i, v)) == outstanding_sum(schedules)
            - schedules[i].outstanding() + v.outstanding(),
    decreases schedules.len(),
{
    let changed = schedules.update(i, v);
    if i == schedules.len() - 1 {
        assert(changed.drop_last() =~= schedules.drop_last());
    } else {
        assert(changed.drop_last() =~= schedules.drop_last().update(i, v));
        lemma_outstanding_update(schedules.drop_last(), i, v);
    }
}

/// Storing schedules keeps the invariant of an initialized state, and
/// keeps the reserved amount equal to what the manager holds.
pub proof fn lemma_store_all_keeps(s: State, caller: Seq<u8>, items: Seq<Schedule>)
    requires
        s.wf(),
        s.initialized(),
        forall|i: int| 0 <= i < items.len() ==> (#[trigger] items[i]).untouched(),
    ensures
        s.store_all(caller, items) matches Ok(step) ==> {
            &&& step.next.wf()
            &&& step.next.admins == s.admins
            &&& step.next.token == s.token
            &&& step.next.schedules == s.schedules + items
            &&& s.conserved() ==> step.next.conserved()
        },
    decreases items.len(),
{
    if items.len() == 0 {
        assert(s.schedules + items =~= s.schedules);
    } else {
        lemma_store_all_keeps(s, caller, items.drop_last());
        if let Ok(before) = s.store_all(caller, items.drop_last()) {
            let mid = before.next;
            if let Ok(last) = mid.store(caller, items.last()) {
                lemma_outstanding_push(mid.schedules, items.last());
                assert(last.next.schedules =~= s.schedules + items);
            }
        }
    }
}

/// Every operation keeps the invariant of the state. So a manager that has
/// been initialized stays so, and always has at least one administrator.
pub proof fn lemma_operation_keeps_wf(s: State, op: Operation)
    requires
        s.wf(),
        op.creates_untouched(),
    ensures
        s.after(op).wf(),
        s.initialized() ==> s.after(op).initialized() && s.after(op).admins.len() >= 1,
{
    match op {
        Operation::Init { .. } => {},
        Operation::SetAdmin { .. } => {},
        Operation::Create { caller, terms } => {
            if let Ok(step) = s.create(caller, terms) {
                assert forall|j: int| 0 <= j < step.next.schedules.len() implies (
                #[trigger] step.next.schedules[j]).wf() by {
                    if j < s.schedules.len() {
                        assert(s.schedules[j].wf());
                    }
                }
            }
        },
        Operation::CreateBatch { caller, lengths_match, items } => {
            if s.admins.contains(caller) {
                lemma_store_all_keeps(s, caller, items);
            }
        },
        Operation::Claim { caller, id, now } => {
            if let Ok(step) = s.claim(caller, id, now) {
                let v = s.schedules[id as int];
                lemma_vested_bounds(v, now);
                assert forall|j: int| 0 <= j < step.next.schedules.len() implies (
                #[trigger] step.next.schedules[j]).wf() by {
                    if j != id {
                        assert(s.schedules[j].wf());
                    }
                }
            }
        },
        Operation::Revoke { caller, id, now } => {
            if let Ok(step) = s.revoke(caller, id, now) {
                let v = s.schedules[id as int];
                lemma_forfeit(v, now);
                assert forall|j: int| 0 <= j < step.next.schedules.len() implies (
                #[trigger] step.next.schedules[j]).wf() by {
                    if j != id {
                        assert(s.schedules[j].wf());
                    }
                }
            }
        },
        Operation::WithdrawAdmin { .. } => {},
        Operation::WithdrawOtherToken { .. } => {},
    }
}

/// Conservation, for one operation: where the reserved amount is the sum
/// over the schedules of what was committed at the creation, less what was
/// claimed and what a revocation forfeited, it is so after the operation.
/// A revocation at the time zero is left out.
pub proof fn lemma_operation_conserves(s: State, op: Operation)
    requires
        s.wf(),
        s.conserved(),
        op.creates_untouched(),
        !op.revokes_at_zero(),
    ensures
        s.after(op).conserved(),
{
    match op {
        Operation::Create { caller, terms } => {
            lemma_outstanding_push(s.schedules, terms);
        },
        Operation::CreateBatch { caller, lengths_match, items } => {
            if s.admins.contains(caller) {
                lemma_store_all_keeps(s, caller, items);
            }
        },
        Operation::Claim { caller, id, now } => {
            if let Ok(step) = s.claim(caller, id, now) {
                let v = s.schedules[id as int];
                lemma_vested_bounds(v, now);
                lemma_outstanding_update(s.schedules, id as int, step.next.schedules[id as int]);
            }
        },
        Operation::Revoke { caller, id, now } => {
            if let Ok(step) = s.revoke(caller, id, now) {
                let v = s.schedules[id as int];
                lemma_fully_vested_at_end(v);
                lemma_outstanding_update(s.schedules, id as int, step.next.schedules[id as int]);
            }
        },
        _ => {},
    }
}

/// After every history of operations on a manager that has not been
/// initialized, the state is well-formed: once the manager is initialized,
/// it has at least one administrator.
pub proof fn lemma_history_keeps_wf(ops: Seq<Operation>)
    requires
        forall|i: int| 0 <= i < ops.len() ==> (#[trigger] ops[i]).creates_untouched(),
    ensures
        State::fresh().run(ops).wf(),
        State::fresh().run(ops).initialized() ==> State::fresh().run(ops).admins.len() >= 1,
    decreases ops.len(),
{
    if ops.len() > 0 {
        lemma_history_keeps_wf(ops.drop_last());
        lemma_operation_keeps_wf(State::fresh().run(ops.drop_last()), ops.last());
    }
}

/// Conservation: after every history of operations on a manager that has
/// not been initialized, the reserved amount is the sum over the schedules
/// of what was committed at the creation, less what was claimed and what a
/// revocation forfeited. Histories with a revocation at the time zero are
/// left out.
pub proof fn lemma_history_conserves(ops: Seq<Operation>)
    requires
        forall|i: int| 0 <= i < ops.len() ==> (#[trigger] ops[i]).creates_untouched(),
        forall|i: int| 0 <= i < ops.len() ==> !(#[trigger] ops[i]).revokes_at_zero(),
    ensures
        State::fresh().run(ops).conserved(),
    decreases ops.len(),
{
    if ops.len() > 0 {
        lemma_history_conserves(ops.drop_last());
        lemma_history_keeps_wf(ops.drop_last());
        lemma_operation_conserves(State::fresh().run(ops.drop_last()), ops.last());
    }
}

/// No double claim: a claim that succeeds at the time `now` leaves the
/// claimed amount of the schedule at what the schedule has vested at `now`.
pub proof fn lemma_claim_takes_vested(s: State, caller: Seq<u8>, id: u64, now: u64)
    requires
        s.wf(),
        s.claim(caller, id, now) is Ok,
    ensures
        ({
            let after = s.claim(caller, id, now)->Ok_0.next.schedules[id as int];
            &&& after.claimed_amount == after.vested_at(now)
            &&& after.claimed_amount > s.schedules[id as int].claimed_amount
        }),
{
    lemma_vested_bounds(s.schedules[id as int], now);
}

/// A revocation at the time `now` does not change what the schedule had
/// vested at any time up to `now`. So what was claimed up to `now` stays
/// within what has vested.
pub proof fn lemma_revocation_keeps_vested(v: Schedule, t: u64, now: u64)
    requires
        !v.revoked(),
        t <= now,
    ensures
        (Schedule { deactivation_timestamp: now, ..v }).vested_at(t) == v.vested_at(t),
{
    let revoked = Schedule { deactivation_timestamp: now, ..v };
    assert(revoked.effective_time(t) == v.effective_time(t));
}


/// The last time that the operations `ops` took from the clock; zero
/// where none took one.
pub open spec fn last_time(ops: Seq<Operation>) -> u64
    decreases ops.len(),
{
    if ops.len() == 0 {
        0
    } else {
        match ops.last().time() {
            Some(now) => now,
            None => last_time(ops.drop_last()),
        }
    }
}

/// Whether the clock never went back between the operations `ops`.
pub open spec fn clock_monotonic(ops: Seq<Operation>) -> bool
    decreases ops.len(),
{
    if ops.len() == 0 {
        true
    } else {
        &&& clock_monotonic(ops.drop_last())
        &&& ops.last().time() matches Some(now) ==> last_time(ops.drop_last()) <= now
    }
}

/// No double claim, for one operation: where no schedule has claimed more
/// than it had vested at the time `t`, and the clock has not gone back
/// since, no schedule has claimed more than it has vested at the time
/// `later` after the operation.
pub proof fn lemma_operation_keeps_claims_covered(s: State, op: Operation, t: u64, later: u64)
    requires
        s.wf(),
        s.claims_covered(t),
        op.creates_untouched(),
        t <= later,
        op.time() matches Some(now) ==> now == later,
    ensures
        s.after(op).claims_covered(later),
{
    let next = s.after(op);
    lemma_operation_keeps_wf(s, op);
    assert forall|j: int| 0 <= j < next.schedules.len() implies (
    #[trigger] next.schedules[j]).claimed_amount <= next.schedules[j].vested_at(later) by {
        let after = next.schedules[j];
        lemma_vested_bounds(after, later);
        match op {
            Operation::Create { caller, terms } => {
                if j < s.schedules.len() && s.create(caller, terms) is Ok {
                    assert(after == s.schedules[j]);
                }
            },
            Operation::CreateBatch { caller, lengths_match, items } => {
                if s.create_batch(caller, lengths_match, items) is Ok {
                    lemma_store_all_keeps(s, caller, items);
                    if j >= s.schedules.len() {
                        assert(after == items[j - s.schedules.len()]);
                    } else {
                        assert(after == s.schedules[j]);
                    }
                }
            },
            Operation::Revoke { caller, id, now } => {
                if s.revoke(caller, id, now) is Ok && j == id {
                    let before = s.schedules[j];
                    lemma_revocation_keeps_vested(before, t, now);
                    lemma_vested_monotonic(after, t, later);
                }
            },
            _ => {},
        }
        if j < s.schedules.len() && after == s.schedules[j] {
            lemma_vested_monotonic(after, t, later);
        }
    }
}

/// No double claim: after every history of operations between which the
/// clock never went back, no schedule has claimed more than it has vested
/// at the last time taken from the clock.
pub proof fn lemma_history_keeps_claims_covered(ops: Seq<Operation>)
    requires
        forall|i: int| 0 <= i < ops.len() ==> (#[trigger] ops[i]).creates_untouched(),
        clock_monotonic(ops),
    ensures
        State::fresh().run(ops).claims_covered(last_time(ops)),
    decreases ops.len(),
{
    if ops.len() > 0 {
        lemma_history_keeps_claims_covered(ops.drop_last());
        lemma_history_keeps_wf(ops.drop_last());
        lemma_operation_keeps_claims_covered(
            State::fresh().run(ops.drop_last()),
            ops.last(),
            last_time(ops.drop_last()),
            last_time(ops),
        );
    }
}

/// A sum of amounts that are not negative is not negative.
pub proof fn lemma_outstanding_sum_nonnegative(schedules: Seq<Schedule>)
    requires
        forall|j: int| 0 <= j < schedules.len() ==> (#[trigger] schedules[j]).outstanding() >= 0,
    ensures
        outstanding_sum(schedules) >= 0,
    decreases schedules.len(),
{
    if schedules.len() > 0 {
        assert forall|j: int| 0 <= j < schedules.drop_last().len() implies (
        #[trigger] schedules.drop_last()[j]).outstanding() >= 0 by {
            assert(schedules.drop_last()[j] == schedules[j]);
        }
        lemma_outstanding_sum_nonnegative(schedules.drop_last());
    }
}

/// The reserved amount is not negative, and the manager holds for no
/// schedule less than nothing, where the reserved amount is what the
/// manager holds for the schedules, no schedule has claimed more than it
/// has vested at the time `t`, and every revocation was at or before `t`
/// and not before the start of a schedule with an initial unlock.
pub proof fn lemma_reserved_nonnegative(s: State, t: u64)
    requires
        s.wf(),
        s.conserved(),
        s.claims_covered(t),
        s.revocations_settled(t),
    ensures
        s.reserved >= 0,
        forall|j: int| 0 <= j < s.schedules.len() ==> (#[trigger] s.schedules[j]).outstanding() >= 0,
{
    assert forall|j: int| 0 <= j < s.schedules.len() implies (
    #[trigger] s.schedules[j]).outstanding() >= 0 by {
        let v = s.schedules[j];
        assert(v.wf());
        if v.revoked() {
            lemma_vested_pinned_by_revocation(v, t);
        }
    }
    lemma_outstanding_sum_nonnegative(s.schedules);
}


/// How many schedules the operation `op` creates in the state `s`: one for
/// a creation that succeeds, all of a batch that succeeds, none otherwise.
pub open spec fn created_by(s: State, op: Operation) -> nat {
    match op {
        Operation::Create { caller, terms } => if s.create(caller, terms) is Ok {
            1
        } else {
            0
        },
        Operation::CreateBatch { caller, lengths_match, items } => if s.create_batch(
            caller,
            lengths_match,
            items,
        ) is Ok {
            items.len()
        } else {
            0
        },
        _ => 0,
    }
}

/// How many schedules the operations `ops` create on a manager that has
/// not been initialized.
pub open spec fn created(ops: Seq<Operation>) -> nat
    decreases ops.len(),
{
    if ops.len() == 0 {
        0
    } else {
        created(ops.drop_last()) + created_by(State::fresh().run(ops.drop_last()), ops.last())
    }
}

/// Ids are dense, for one operation: the schedules that the operation
/// creates get the ids from the number of schedules on, one after the
/// other, and every schedule keeps its id, its recipient and its terms.
pub proof fn lemma_operation_keeps_ids(s: State, op: Operation)
    requires
        s.wf(),
        op.creates_untouched(),
    ensures
        s.after(op).schedules.len() == s.schedules.len() + created_by(s, op),
        forall|id: int|
            0 <= id < s.schedules.len() ==> (#[trigger] s.after(op).schedules[id])
                == (Schedule {
                deactivation_timestamp: s.after(op).schedules[id].deactivation_timestamp,
                claimed_amount: s.after(op).schedules[id].claimed_amount,
                ..s.schedules[id]
            }),
{
    match op {
        Operation::CreateBatch { caller, lengths_match, items } => {
            if s.admins.contains(caller) {
                lemma_store_all_keeps(s, caller, items);
            }
        },
        _ => {},
    }
}

/// Ids are dense: after every history of operations on a manager that has
/// not been initialized, there are as many schedules as the history
/// created, so the ids from zero up to that number are those of the
/// schedules.
pub proof fn lemma_history_keeps_ids(ops: Seq<Operation>)
    requires
        forall|i: int| 0 <= i < ops.len() ==> (#[trigger] ops[i]).creates_untouched(),
    ensures
        State::fresh().run(ops).schedules.len() == created(ops),
    decreases ops.len(),
{
    if ops.len() > 0 {
        lemma_history_keeps_ids(ops.drop_last());
        lemma_history_keeps_wf(ops.drop_last());
        lemma_operation_keeps_ids(State::fresh().run(ops.drop_last()), ops.last());
    }
}

/// Whether the operation `op` revokes, in the state `s`, a schedule with
/// an initial unlock before its start. Such a schedule releases its
/// initial unlock at the start all the same, out of a reserve that the
/// revocation has released.
pub open spec fn revokes_early(s: State, op: Operation) -> bool {
    op matches Operation::Revoke { id, now, .. } && id < s.schedules.len()
        && s.schedules[id as int].initial_unlock > 0 && now
        < s.schedules[id as int].start_timestamp
}

/// Whether none of the operations `ops`, run on a manager that has not
/// been initialized, revokes at the time zero or revokes a schedule with
/// an initial unlock before its start.
pub open spec fn revokes_in_time(ops: Seq<Operation>) -> bool
    decreases ops.len(),
{
    if ops.len() == 0 {
        true
    } else {
        &&& revokes_in_time(ops.drop_last())
        &&& !ops.last().revokes_at_zero()
        &&& !revokes_early(State::fresh().run(ops.drop_last()), ops.last())
    }
}

/// Where every revocation was at or before the time `t` and not before
/// the start of a schedule with an initial unlock, this holds at the time
/// `later` after an operation that does not revoke too early, if the
/// clock has not gone back.
pub proof fn lemma_operation_keeps_revocations_settled(
    s: State,
    op: Operation,
    t: u64,
    later: u64,
)
    requires
        s.wf(),
        s.revocations_settled(t),
        op.creates_untouched(),
        !revokes_early(s, op),
        t <= later,
        op.time() matches Some(now) ==> now == later,
    ensures
        s.after(op).revocations_settled(later),
{
    let next = s.after(op);
    assert forall|j: int|
        0 <= j < next.schedules.len() && (#[trigger] next.schedules[j]).revoked() implies {
        &&& next.schedules[j].deactivation_timestamp <= later
        &&& next.schedules[j].initial_unlock == 0 || next.schedules[j].start_timestamp
            <= next.schedules[j].deactivation_timestamp
    } by {
        let after = next.schedules[j];
        match op {
            Operation::Create { caller, terms } => {
                if j < s.schedules.len() && s.create(caller, terms) is Ok {
                    assert(after == s.schedules[j]);
                }
            },
            Operation::CreateBatch { caller, lengths_match, items } => {
                if s.create_batch(caller, lengths_match, items) is Ok {
                    lemma_store_all_keeps(s, caller, items);
                    if j >= s.schedules.len() {
                        assert(after == items[j - s.schedules.len()]);
                    } else {
                        assert(after == s.schedules[j]);
                    }
                }
            },
            Operation::Claim { caller, id, now } => {
                if s.claim(caller, id, now) is Ok && j != id {
                    assert(after == s.schedules[j]);
                }
                assert(s.schedules[j].revoked() == after.revoked());
            },
            Operation::Revoke { caller, id, now } => {
                if s.revoke(caller, id, now) is Ok && j != id {
                    assert(after == s.schedules[j]);
                }
            },
            _ => {},
        }
    }
}

/// The reserved amount is never negative: not after any history of
/// operations on a manager that has not been initialized, if the clock
/// never went back and no revocation was at the time zero or before the
/// start of a schedule with an initial unlock.
pub proof fn lemma_history_reserved_nonnegative(ops: Seq<Operation>)
    requires
        forall|i: int| 0 <= i < ops.len() ==> (#[trigger] ops[i]).creates_untouched(),
        clock_monotonic(ops),
        revokes_in_time(ops),
    ensures
        State::fresh().run(ops).revocations_settled(last_time(ops)),
        State::fresh().run(ops).reserved >= 0,
    decreases ops.len(),
{
    lemma_history_keeps_wf(ops);
    lemma_history_keeps_claims_covered(ops);
    assert forall|i: int| 0 <= i < ops.len() implies !(#[trigger] ops[i]).revokes_at_zero() by {
        lemma_revokes_in_time_not_at_zero(ops, i);
    }
    lemma_history_conserves(ops);
    if ops.len() > 0 {
        lemma_history_reserved_nonnegative(ops.drop_last());
        lemma_history_keeps_wf(ops.drop_last());
        lemma_operation_keeps_revocations_settled(
            State::fresh().run(ops.drop_last()),
            ops.last(),
            last_time(ops.drop_last()),
            last_time(ops),
        );
    }
    lemma_reserved_nonnegative(State::fresh().run(ops), last_time(ops));
}

/// None of the operations of a history that revokes in time revokes at
/// the time zero.
pub proof fn lemma_revokes_in_time_not_at_zero(ops: Seq<Operation>, i: int)
    requires
        revokes_in_time(ops),
        0 <= i < ops.len(),
    ensures
        !ops[i].revokes_at_zero(),
    decreases ops.len(),
{
    if i < ops.len() - 1 {
        lemma_revokes_in_time_not_at_zero(ops.drop_last(), i);
    }
}

} // verus!
