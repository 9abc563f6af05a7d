//! Creating several schedules in one operation, all or none.

use vstd::prelude::*;
use crate::address::Address;
use crate::effects::{actions_of, Action};
use crate::error::Error;
use crate::manager::TokenVestingManager;
use crate::model::{State, Step};
use crate::vesting::{Schedule, Vesting};

verus! {

/// The terms of the schedules of a batch: nine sequences of one length,
/// which hold at each place the terms of one schedule.
#[derive(Debug, PartialEq, Eq)]
pub struct CreateVestingBatchParams {
    pub recipients: Vec<Address>,
    pub start_timestamps: Vec<u64>,
    pub end_timestamps: Vec<u64>,
    pub timelocks: Vec<u64>,
    pub initial_unlocks: Vec<i128>,
    pub cliff_release_timestamps: Vec<u64>,
    pub cliff_amounts: Vec<i128>,
    pub release_interval_secs: Vec<u64>,
    pub linear_vest_amounts: Vec<i128>,
}

impl CreateVestingBatchParams {
    /// Whether the nine sequences have one length.
    pub open spec fn lengths_match(&self) -> bool {
        let n = self.recipients@.len();
        &&& self.start_timestamps@.len() == n
        &&& self.end_timestamps@.len() == n
        &&& self.timelocks@.len() == n
        &&& self.initial_unlocks@.len() == n
        &&& self.cliff_release_timestamps@.len() == n
        &&& self.cliff_amounts@.len() == n
        &&& self.release_interval_secs@.len() == n
        &&& self.linear_vest_amounts@.len() == n
    }

    /// The schedule that the terms at place `i` ask for.
    pub open spec fn item(&self, i: int) -> Schedule {
        Vesting::terms(
            self.recipients@[i]@,
            self.start_timestamps@[i],
            self.end_timestamps@[i],
            self.timelocks@[i],
            self.initial_unlocks@[i],
            self.cliff_release_timestamps@[i],
            self.cliff_amounts@[i],
            self.release_interval_secs@[i],
            self.linear_vest_amounts@[i],
        )
    }

    /// The schedules that the batch asks for, in its order.
    pub open spec fn items(&self) -> Seq<Schedule> {
        Seq::new(self.recipients@.len(), |i: int| self.item(i))
    }

    /// Whether the nine sequences have one length.
    fn check_lengths(&self) -> (r: bool)
        ensures
            r == self.lengths_match(),
    {
        let n = self.recipients.len();
        self.start_timestamps.len() == n && self.end_timestamps.len() == n
            && self.timelocks.len() == n && self.initial_unlocks.len() == n
            && self.cliff_release_timestamps.len() == n && self.cliff_amounts.len() == n
            && self.release_interval_secs.len() == n && self.linear_vest_amounts.len() == n
    }
}

/// The ids that `n` schedules get when `count` schedules are there before.
pub open spec fn next_ids(count: nat, n: nat) -> Seq<u64> {
    Seq::new(n, |i: int| (count + i) as u64)
}

/// Storing `items` fails as soon as storing the first `k` of them fails,
/// and with the same error; so where all can be stored, so can the first `k`.
pub proof fn lemma_store_all_prefix(s: State, caller: Seq<u8>, items: Seq<Schedule>, k: int)
    requires
        0 <= k <= items.len(),
    ensures
        s.store_all(caller, items.take(k)) is Err ==> s.store_all(caller, items) == s.store_all(
            caller,
            items.take(k),
        ),
        s.store_all(caller, items) is Ok ==> s.store_all(caller, items.take(k)) is Ok,
    decreases items.len() - k,
{
    if k == items.len() {
        assert(items.take(k) =~= items);
    } else {
        assert(items.take(k + 1).drop_last() =~= items.take(k));
        lemma_store_all_prefix(s, caller, items, k + 1);
    }
}

/// Storing the first `k + 1` of `items` is storing the first `k` and then
/// the one at place `k`.
pub proof fn lemma_store_all_next(s: State, caller: Seq<u8>, items: Seq<Schedule>, k: int)
    requires
        0 <= k < items.len(),
    ensures
        s.store_all(caller, items.take(k + 1)) == match s.store_all(caller, items.take(k)) {
            Err(e) => Err::<Step, Error>(e),
            Ok(before) => match before.next.store(caller, items[k]) {
                Err(e) => Err(e),
                Ok(last) => Ok(Step { next: last.next, actions: before.actions + last.actions }),
            },
        },
{
    assert(items.take(k + 1).drop_last() =~= items.take(k));
    assert(items.take(k + 1).last() == items[k]);
}

impl TokenVestingManager {
    /// Creates the schedules of `params` on behalf of the administrator
    /// `caller`, in their order, and returns their ids. If one of them
    /// cannot be created, none is, and the error is that of the first one
    /// that cannot.
    pub fn create_vesting_batch(&mut self, caller: &Address, params: &CreateVestingBatchParams) -> (r:
        Result<(Vec<u64>, Vec<Action>), Error>)
        requires
            old(self).wf(),
        ensures
            final(self).wf(),
            match r {
                Ok((ids, actions)) => {
                    &&& old(self)@.create_batch(caller@, params.lengths_match(), params.items())
                        == Ok::<Step, Error>(
                        Step { next: final(self)@, actions: actions_of(actions@) },
                    )
                    &&& ids@ == next_ids(old(self)@.schedules.len(), params.items().len())
                },
                Err(e) => {
                    &&& old(self)@.create_batch(caller@, params.lengths_match(), params.items())
                        == Err::<Step, Error>(e)
                    &&& final(self)@ == old(self)@
                },
            },
    {
        if !self.is_admin(caller) {
            return Err(Error::NotAdmin);
        }
        if !params.check_lengths() {
            return Err(Error::LengthMismatch);
        }
        proof {
            self.lemma_wf();
        }
        let ghost start = self@;
        let ghost items = params.items();
        let n: usize = params.recipients.len();
        let count: u64 = self.schedule_count();
        let mut built: Vec<Vesting> = Vec::new();
        let mut running: i128 = self.get_tokens_reserved_for_vesting();
        let mut i: usize = 0;
        while i < n
            invariant
                0 <= i <= n,
                n == params.recipients@.len(),
                params.lengths_match(),
                items == params.items(),
                self.wf(),
                self@ == start,
                start == old(self)@,
                start.admins.contains(caller@),
                start.wf(),
                count == start.schedules.len(),
                built@.len() == i,
                forall|k: int| 0 <= k < i ==> (#[trigger] built@[k])@ == items[k] && built@[k]@.wf(),
                start.store_all(caller@, items.take(i as int)) is Ok,
                start.store_all(caller@, items.take(i as int))->Ok_0.next.reserved == running,
                start.store_all(caller@, items.take(i as int))->Ok_0.next.schedules.len() == count
                    + i,
            decreases n - i,
        {
            proof {
                lemma_store_all_next(start, caller@, items, i as int);
                lemma_store_all_prefix(start, caller@, items, i + 1);
            }
            let vesting = match Vesting::new(
                params.recipients[i].clone(),
                params.start_timestamps[i],
                params.end_timestamps[i],
                params.timelocks[i],
                params.initial_unlocks[i],
                params.cliff_release_timestamps[i],
                params.cliff_amounts[i],
                params.release_interval_secs[i],
                params.linear_vest_amounts[i],
            ) {
                Ok(vesting) => vesting,
                Err(e) => {
                    return Err(e);
                },
            };
            let total: i128 = vesting.initial_unlock + vesting.cliff_amount
                + vesting.linear_vest_amount;
            running = match running.checked_add(total) {
                Some(sum) => sum,
                None => {
                    return Err(Error::Overflow);
                },
            };
            if i as u64 >= u32::MAX as u64 - count {
                return Err(Error::Overflow);
            }
            built.push(vesting);
            i += 1;
        }
        let mut ids: Vec<u64> = Vec::new();
        let mut actions: Vec<Action> = Vec::new();
        let mut j: usize = 0;
        proof {
            assert(items.take(n as int) =~= items);
            assert(items.take(0).len() == 0);
            assert(actions_of(actions@) =~= Seq::empty());
            assert(ids@ =~= next_ids(count as nat, 0));
        }
        while j < n
            invariant
                0 <= j <= n,
                n == items.len(),
                built@.len() == n,
                forall|k: int| 0 <= k < n ==> (#[trigger] built@[k])@ == items[k] && built@[k]@.wf(),
                self.wf(),
                self@.initialized(),
                count == start.schedules.len(),
                start == old(self)@,
                start.admins.contains(caller@),
                params.lengths_match(),
                items == params.items(),
                start.store_all(caller@, items) is Ok,
                start.store_all(caller@, items.take(j as int)) == Ok::<Step, Error>(
                    Step { next: self@, actions: actions_of(actions@) },
                ),
                self@.schedules.len() == count + j,
                ids@ == next_ids(count as nat, j as nat),
            decreases n - j,
        {
            proof {
                lemma_store_all_next(start, caller@, items, j as int);
                lemma_store_all_prefix(start, caller@, items, j + 1);
            }
            let ghost before = actions@;
            let (id, mut more) = self.commit_vesting(caller, built[j].clone());
            let ghost added = more@;
            ids.push(id);
            actions.append(&mut more);
            proof {
                assert(actions_of(actions@) =~= actions_of(before) + actions_of(added));
                assert(ids@ =~= next_ids(count as nat, (j + 1) as nat));
            }
            j += 1;
        }
        assert(items.take(n as int) =~= items);
        Ok((ids, actions))
    }
}

} // verus!
