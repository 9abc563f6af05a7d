//! The vesting manager: administrators, schedules and the reserved balance.

use vstd::prelude::*;
use crate::address::{copy_range, key_of, keys_of, Address};
use crate::admin::AdminSet;
use crate::effects::{actions_of, Action, Event};
use crate::error::Error;
use crate::model::{lemma_forfeit, State, Step};
use crate::store::{
    copy_ids, ids_of, lemma_recipients_of, recipients_of, schedules_of, ScheduleStore,
};
use crate::vesting::{Schedule, Vesting};

verus! {

/// The vesting manager of one token. Its value is a [`State`]; every
/// operation is the function of that name on the state.
///
/// The host authenticates the caller before it hands an operation the
/// caller's address, reads the clock and the token balances that an
/// operation takes, and performs the actions that the operation returns.
pub struct TokenVestingManager {
    admins: AdminSet,
    token: Option<Address>,
    reserved: i128,
    store: ScheduleStore,
}

impl View for TokenVestingManager {
    type V = State;

    closed spec fn view(&self) -> State {
        State {
            admins: self.admins@,
            token: key_of(self.token),
            reserved: self.reserved as int,
            schedules: self.store@,
        }
    }
}

impl TokenVestingManager {
    /// The invariant of the manager, which every operation keeps.
    pub closed spec fn wf(&self) -> bool {
        &&& self.admins.wf()
        &&& self.store.wf()
        &&& self@.wf()
    }

    /// The state of a well-formed manager is well-formed.
    pub proof fn lemma_wf(&self)
        requires
            self.wf(),
        ensures
            self@.wf(),
    {
    }

    /// A manager that has not been initialized.
    pub fn new() -> (m: TokenVestingManager)
        ensures
            m.wf(),
            m@ == State::fresh(),
    {
        let m = TokenVestingManager {
            admins: AdminSet::new(),
            token: None,
            reserved: 0,
            store: ScheduleStore::new(),
        };
        proof {
            m.admins.lemma_count_fits();
        }
        m
    }

    /// Whether the manager has been initialized.
    pub fn is_initialized(&self) -> (r: bool)
        ensures
            r == self@.initialized(),
    {
        self.token.is_some()
    }

    /// Initializes the manager: `factory_caller` becomes its one
    /// administrator and `token_address` its token. This succeeds once.
    pub fn init(&mut self, factory_caller: Address, token_address: Address) -> (r: Result<
        Vec<Action>,
        Error,
    >)
        requires
            old(self).wf(),
        ensures
            final(self).wf(),
            match r {
                Ok(actions) => old(self)@.init(factory_caller@, token_address@) == Ok::<Step, Error>(
                    Step { next: final(self)@, actions: actions_of(actions@) },
                ),
                Err(e) => old(self)@.init(factory_caller@, token_address@) == Err::<Step, Error>(e)
                    && final(self)@ == old(self)@,
            },
    {
        if self.token.is_some() {
            return Err(Error::AlreadyInitialized);
        }
        self.admins = AdminSet::seeded(factory_caller.clone());
        self.token = Some(token_address);
        let mut actions: Vec<Action> = Vec::new();
        actions.push(Action::Emit(Event::AdminAccessSet { admin: factory_caller, enabled: true }));
        proof {
            let step = old(self)@.init(factory_caller@, token_address@)->Ok_0;
            assert(actions_of(actions@) =~= step.actions);
            self.admins.lemma_count_fits();
        }
        Ok(actions)
    }

    /// Gives `admin` the administrator status `is_enabled` on behalf of the
    /// administrator `caller`.
    pub fn set_admin(&mut self, caller: &Address, admin: &Address, is_enabled: bool) -> (r: Result<
        Vec<Action>,
        Error,
    >)
        requires
            old(self).wf(),
        ensures
            final(self).wf(),
            match r {
                Ok(actions) => old(self)@.set_admin(caller@, admin@, is_enabled) == Ok::<
                    Step,
                    Error,
                >(Step { next: final(self)@, actions: actions_of(actions@) }),
                Err(e) => old(self)@.set_admin(caller@, admin@, is_enabled) == Err::<Step, Error>(e)
                    && final(self)@ == old(self)@,
            },
    {
        match self.admins.set_admin(caller, admin, is_enabled) {
            Err(e) => Err(e),
            Ok(()) => {
                let mut actions: Vec<Action> = Vec::new();
                actions.push(
                    Action::Emit(
                        Event::AdminAccessSet { admin: admin.clone(), enabled: is_enabled },
                    ),
                );
                proof {
                    let step = old(self)@.set_admin(caller@, admin@, is_enabled)->Ok_0;
                    assert(actions_of(actions@) =~= step.actions);
                    self.admins.lemma_count_fits();
                    old(self).admins.lemma_count_fits();
                }
                Ok(actions)
            },
        }
    }

    /// The number of administrators: at least one once the manager is
    /// initialized, none before.
    pub fn get_admins_count(&self) -> (n: u32)
        requires
            self.wf(),
        ensures
            n == self@.admins.len(),
            self@.initialized() ==> n >= 1,
            !self@.initialized() ==> n == 0,
    {
        self.admins.count()
    }

    /// Whether `address` is an administrator.
    pub fn is_admin(&self, address: &Address) -> (r: bool)
        ensures
            r == self@.admins.contains(address@),
    {
        self.admins.is_admin(address)
    }

    /// Refuses a caller that is not an administrator.
    fn admin_check(&self, caller: &Address) -> (r: Result<(), Error>)
        ensures
            match r {
                Ok(()) => self@.admins.contains(caller@),
                Err(e) => e == Error::NotAdmin && !self@.admins.contains(caller@),
            },
    {
        if self.admins.is_admin(caller) {
            Ok(())
        } else {
            Err(Error::NotAdmin)
        }
    }

    /// The address of the managed token.
    pub fn get_token_address(&self) -> (token: Address)
        requires
            self@.initialized(),
        ensures
            Some(token@) == self@.token,
    {
        match &self.token {
            Some(token) => token.clone(),
            None => unreached(),
        }
    }

    /// The amount of the managed token that is reserved for vesting.
    pub fn get_tokens_reserved_for_vesting(&self) -> (reserved: i128)
        ensures
            reserved == self@.reserved,
    {
        self.reserved
    }

    /// Stores a schedule that can be stored, reserves its total, and asks
    /// for the event and for the total to be pulled from `caller`.
    pub(crate) fn commit_vesting(&mut self, caller: &Address, vesting: Vesting) -> (r: (u64, Vec<Action>))
        requires
            old(self).wf(),
            old(self)@.initialized(),
            vesting@.wf(),
            old(self)@.store_error(vesting@) is None,
        ensures
            final(self).wf(),
            old(self)@.store(caller@, vesting@) == Ok::<Step, Error>(
                Step { next: final(self)@, actions: actions_of(r.1@) },
            ),
            r.0 == old(self)@.schedules.len(),
    {
        proof {
            self.store.lemma_wf();
        }
        let total: i128 = vesting.initial_unlock + vesting.cliff_amount
            + vesting.linear_vest_amount;
        self.reserved = self.reserved + total;
        let id = self.store.insert(vesting.clone());
        let mut actions: Vec<Action> = Vec::new();
        actions.push(
            Action::Emit(
                Event::VestingCreated { id, recipient: vesting.recipient.clone(), vesting },
            ),
        );
        actions.push(Action::Pull { from: caller.clone(), amount: total });
        proof {
            let step = old(self)@.store(caller@, vesting@)->Ok_0;
            assert(actions_of(actions@) =~= step.actions);
            self.store.lemma_wf();
            assert(self@ == step.next);
        }
        (id, actions)
    }

    /// Creates a schedule without looking at the caller's rights: tests
    /// the terms, stores the schedule under the next id and reserves its
    /// total.
    fn create_vesting_internal(
        &mut self,
        caller: &Address,
        recipient: Address,
        start_timestamp: u64,
        end_timestamp: u64,
        timelock: u64,
        initial_unlock: i128,
        cliff_release_timestamp: u64,
        cliff_amount: i128,
        release_interval_secs: u64,
        linear_vest_amount: i128,
    ) -> (r: Result<(u64, Vec<Action>), Error>)
        requires
            old(self).wf(),
            old(self)@.initialized(),
        ensures
            final(self).wf(),
            match r {
                Ok((id, actions)) => {
                    &&& old(self)@.store(
                        caller@,
                        Vesting::terms(
                            recipient@,
                            start_timestamp,
                            end_timestamp,
                            timelock,
                            initial_unlock,
                            cliff_release_timestamp,
                            cliff_amount,
                            release_interval_secs,
                            linear_vest_amount,
                        ),
                    ) == Ok::<Step, Error>(
                        Step { next: final(self)@, actions: actions_of(actions@) },
                    )
                    &&& id == old(self)@.schedules.len()
                },
                Err(e) => {
                    &&& old(self)@.store(
                        caller@,
                        Vesting::terms(
                            recipient@,
                            start_timestamp,
                            end_timestamp,
                            timelock,
                            initial_unlock,
                            cliff_release_timestamp,
                            cliff_amount,
                            release_interval_secs,
                            linear_vest_amount,
                        ),
                    ) == Err::<Step, Error>(e)
                    &&& final(self)@ == old(self)@
                },
            },
    {
        let vesting = match Vesting::new(
            recipient,
            start_timestamp,
            end_timestamp,
            timelock,
            initial_unlock,
            cliff_release_timestamp,
            cliff_amount,
            release_interval_secs,
            linear_vest_amount,
        ) {
            Ok(vesting) => vesting,
            Err(e) => {
                return Err(e);
            },
        };
        let total: i128 = vesting.initial_unlock + vesting.cliff_amount
            + vesting.linear_vest_amount;
        if self.reserved.checked_add(total).is_none() {
            return Err(Error::Overflow);
        }
        if self.store.len() >= u32::MAX as u64 {
            return Err(Error::Overflow);
        }
        Ok(self.commit_vesting(caller, vesting))
    }

    /// Creates a schedule for `recipient` on behalf of the administrator
    /// `caller` and returns its id: the number of schedules before. The
    /// total of the schedule is reserved, and the host pulls it from
    /// `caller`.
    pub fn create_vesting(
        &mut self,
        caller: &Address,
        recipient: Address,
        start_timestamp: u64,
        end_timestamp: u64,
        timelock: u64,
        initial_unlock: i128,
        cliff_release_timestamp: u64,
        cliff_amount: i128,
        release_interval_secs: u64,
        linear_vest_amount: i128,
    ) -> (r: Result<(u64, Vec<Action>), Error>)
        requires
            old(self).wf(),
        ensures
            final(self).wf(),
            match r {
                Ok((id, actions)) => {
                    &&& old(self)@.create(
                        caller@,
                        Vesting::terms(
                            recipient@,
                            start_timestamp,
                            end_timestamp,
                            timelock,
                            initial_unlock,
                            cliff_release_timestamp,
                            cliff_amount,
                            release_interval_secs,
                            linear_vest_amount,
                        ),
                    ) == Ok::<Step, Error>(
                        Step { next: final(self)@, actions: actions_of(actions@) },
                    )
                    &&& id == old(self)@.schedules.len()
                    &&& final(self)@.schedules.len() == id + 1
                },
                Err(e) => {
                    &&& old(self)@.create(
                        caller@,
                        Vesting::terms(
                            recipient@,
                            start_timestamp,
                            end_timestamp,
                            timelock,
                            initial_unlock,
                            cliff_release_timestamp,
                            cliff_amount,
                            release_interval_secs,
                            linear_vest_amount,
                        ),
                    ) == Err::<Step, Error>(e)
                    &&& final(self)@ == old(self)@
                },
            },
    {
        match self.admin_check(caller) {
            Err(e) => {
                return Err(e);
            },
            Ok(()) => {},
        }
        self.create_vesting_internal(
            caller,
            recipient,
            start_timestamp,
            end_timestamp,
            timelock,
            initial_unlock,
            cliff_release_timestamp,
            cliff_amount,
            release_interval_secs,
            linear_vest_amount,
        )
    }

    /// The recipient `caller` claims what has vested of the schedule
    /// `vesting_id` at the time `now` beyond what it claimed before. The
    /// amount is no longer reserved, and the host pays it to `caller`.
    pub fn claim(&mut self, caller: &Address, vesting_id: u64, now: u64) -> (r: Result<
        Vec<Action>,
        Error,
    >)
        requires
            old(self).wf(),
        ensures
            final(self).wf(),
            match r {
                Ok(actions) => old(self)@.claim(caller@, vesting_id, now) == Ok::<Step, Error>(
                    Step { next: final(self)@, actions: actions_of(actions@) },
                ),
                Err(e) => old(self)@.claim(caller@, vesting_id, now) == Err::<Step, Error>(e)
                    && final(self)@ == old(self)@,
            },
    {
        proof {
            self.store.lemma_wf();
        }
        let vesting = match self.store.get(vesting_id) {
            Some(vesting) => vesting,
            None => {
                return Err(Error::UnknownSchedule);
            },
        };
        if !vesting.recipient.same(caller) {
            return Err(Error::NotOwner);
        }
        if now < vesting.timelock {
            return Err(Error::TimelockActive);
        }
        let vested: i128 = Self::calculate_vested_amount(vesting, now);
        if vested <= vesting.claimed_amount {
            return Err(Error::NothingToClaim);
        }
        let claimable: i128 = vested - vesting.claimed_amount;
        let reserved: i128 = match self.reserved.checked_sub(claimable) {
            Some(reserved) => reserved,
            None => {
                return Err(Error::Overflow);
            },
        };
        let token = self.get_token_address();
        self.store.set_claimed(vesting_id, vested);
        self.reserved = reserved;
        let mut actions: Vec<Action> = Vec::new();
        actions.push(
            Action::Emit(Event::Claimed { id: vesting_id, caller: caller.clone(), amount: claimable }),
        );
        actions.push(Action::Pay { token, to: caller.clone(), amount: claimable });
        proof {
            let step = old(self)@.claim(caller@, vesting_id, now)->Ok_0;
            assert(actions_of(actions@) =~= step.actions);
            self.store.lemma_wf();
            assert(self@ == step.next);
        }
        Ok(actions)
    }

    /// The administrator `caller` revokes the schedule `vesting_id` at the
    /// time `now`. Nothing more vests; what would have vested after `now`
    /// is forfeited and no longer reserved. No token moves.
    pub fn revoke_vesting(&mut self, caller: &Address, vesting_id: u64, now: u64) -> (r: Result<
        Vec<Action>,
        Error,
    >)
        requires
            old(self).wf(),
        ensures
            final(self).wf(),
            match r {
                Ok(actions) => old(self)@.revoke(caller@, vesting_id, now) == Ok::<Step, Error>(
                    Step { next: final(self)@, actions: actions_of(actions@) },
                ),
                Err(e) => old(self)@.revoke(caller@, vesting_id, now) == Err::<Step, Error>(e)
                    && final(self)@ == old(self)@,
            },
    {
        proof {
            self.store.lemma_wf();
        }
        match self.admin_check(caller) {
            Err(e) => {
                return Err(e);
            },
            Ok(()) => {},
        }
        let vesting = match self.store.get(vesting_id) {
            Some(vesting) => vesting,
            None => {
                return Err(Error::UnknownSchedule);
            },
        };
        if vesting.deactivation_timestamp != 0 {
            return Err(Error::AlreadyRevoked);
        }
        let final_vest_amount: i128 = Self::calculate_vested_amount(
            vesting,
            vesting.end_timestamp,
        );
        if final_vest_amount == vesting.claimed_amount {
            return Err(Error::FullyClaimed);
        }
        let mut revoked = vesting.clone();
        revoked.deactivation_timestamp = now;
        let vested_amount_now: i128 = Self::calculate_vested_amount(&revoked, now);
        proof {
            lemma_forfeit(vesting@, now);
        }
        let amount_remaining: i128 = final_vest_amount - vested_amount_now;
        let reserved: i128 = match self.reserved.checked_sub(amount_remaining) {
            Some(reserved) => reserved,
            None => {
                return Err(Error::Overflow);
            },
        };
        self.store.set_deactivation(vesting_id, now);
        self.reserved = reserved;
        let mut actions: Vec<Action> = Vec::new();
        actions.push(
            Action::Emit(
                Event::VestingRevoked {
                    id: vesting_id,
                    recipient: revoked.recipient.clone(),
                    forfeited: amount_remaining,
                    vesting: revoked,
                },
            ),
        );
        proof {
            let step = old(self)@.revoke(caller@, vesting_id, now)->Ok_0;
            assert(actions_of(actions@) =~= step.actions);
            self.store.lemma_wf();
            assert(self@ == step.next);
        }
        Ok(actions)
    }

    /// What an administrator can withdraw of the managed token, of which
    /// the manager holds `balance`: what is not reserved for vesting.
    pub fn amount_to_withdraw_by_admin(&self, balance: i128) -> (r: Result<i128, Error>)
        ensures
            match r {
                Ok(amount) => amount == self@.withdrawable(balance),
                Err(e) => e == Error::Overflow && !(i128::MIN <= self@.withdrawable(balance)
                    <= i128::MAX),
            },
    {
        match balance.checked_sub(self.reserved) {
            Some(amount) => Ok(amount),
            None => Err(Error::Overflow),
        }
    }

    /// The administrator `caller` withdraws `amount_requested` of the
    /// managed token, of which the manager holds `balance`. The request
    /// must not exceed what is not reserved. Nothing changes in the
    /// manager; the host pays the amount to `caller`.
    pub fn withdraw_admin(&self, caller: &Address, amount_requested: i128, balance: i128) -> (r:
        Result<Vec<Action>, Error>)
        requires
            self.wf(),
        ensures
            match r {
                Ok(actions) => self@.withdraw_admin(caller@, amount_requested, balance) == Ok::<
                    Step,
                    Error,
                >(Step { next: self@, actions: actions_of(actions@) }),
                Err(e) => self@.withdraw_admin(caller@, amount_requested, balance) == Err::<
                    Step,
                    Error,
                >(e),
            },
    {
        match self.admin_check(caller) {
            Err(e) => {
                return Err(e);
            },
            Ok(()) => {},
        }
        let sufficient: bool = match balance.checked_sub(self.reserved) {
            Some(amount_remaining) => amount_remaining >= amount_requested,
            None => self.reserved < 0,
        };
        if !sufficient {
            return Err(Error::InsufficientUnreserved);
        }
        let token = self.get_token_address();
        let mut actions: Vec<Action> = Vec::new();
        actions.push(Action::Pay { token, to: caller.clone(), amount: amount_requested });
        actions.push(
            Action::Emit(Event::AdminWithdrawn { caller: caller.clone(), amount: amount_requested }),
        );
        proof {
            let step = self@.withdraw_admin(caller@, amount_requested, balance)->Ok_0;
            assert(actions_of(actions@) =~= step.actions);
        }
        Ok(actions)
    }

    /// The administrator `caller` withdraws all of the token
    /// `other_token_address`, of which the manager holds `balance`. The
    /// token must not be the managed one. Nothing changes in the manager;
    /// the host pays the balance to `caller`.
    pub fn withdraw_other_token(
        &self,
        caller: &Address,
        other_token_address: &Address,
        balance: i128,
    ) -> (r: Result<Vec<Action>, Error>)
        requires
            self.wf(),
        ensures
            match r {
                Ok(actions) => self@.withdraw_other_token(caller@, other_token_address@, balance)
                    == Ok::<Step, Error>(Step { next: self@, actions: actions_of(actions@) }),
                Err(e) => self@.withdraw_other_token(caller@, other_token_address@, balance)
                    == Err::<Step, Error>(e),
            },
    {
        match self.admin_check(caller) {
            Err(e) => {
                return Err(e);
            },
            Ok(()) => {},
        }
        let token = self.get_token_address();
        if other_token_address.same(&token) {
            return Err(Error::InvalidOtherToken);
        }
        let mut actions: Vec<Action> = Vec::new();
        actions.push(
            Action::Pay { token: other_token_address.clone(), to: caller.clone(), amount: balance },
        );
        actions.push(
            Action::Emit(Event::AdminWithdrawnOther { caller: caller.clone(), amount: balance }),
        );
        proof {
            let step = self@.withdraw_other_token(caller@, other_token_address@, balance)->Ok_0;
            assert(actions_of(actions@) =~= step.actions);
        }
        Ok(actions)
    }

    /// The schedule with the id `vesting_id`.
    pub fn get_vesting_info(&self, vesting_id: u64) -> (r: Result<Vesting, Error>)
        requires
            self.wf(),
        ensures
            match r {
                Ok(vesting) => vesting_id < self@.schedules.len() && vesting@
                    == self@.schedules[vesting_id as int],
                Err(e) => e == Error::UnknownSchedule && vesting_id >= self@.schedules.len(),
            },
    {
        match self.store.get(vesting_id) {
            Some(vesting) => Ok(vesting.clone()),
            None => Err(Error::UnknownSchedule),
        }
    }

    /// The recipients, each once, in the order of their first schedule.
    pub fn get_all_recipients(&self) -> (list: Vec<Address>)
        requires
            self.wf(),
        ensures
            keys_of(list@) == recipients_of(self@.schedules),
    {
        let all = self.store.recipients();
        let list = copy_range(all, 0, all.len());
        assert(keys_of(all@).subrange(0, all@.len() as int) =~= keys_of(all@));
        list
    }

    /// The recipients from place `from` up to, not including, place `to`.
    pub fn get_all_recipients_sliced(&self, from: u32, to: u32) -> (r: Result<Vec<Address>, Error>)
        requires
            self.wf(),
        ensures
            match r {
                Ok(list) => from <= to <= recipients_of(self@.schedules).len() && keys_of(list@)
                    == recipients_of(self@.schedules).subrange(from as int, to as int),
                Err(e) => e == Error::OutOfRange && !(from <= to <= recipients_of(
                    self@.schedules,
                ).len()),
            },
    {
        let all = self.store.recipients();
        if from <= to && to as usize <= all.len() {
            Ok(copy_range(all, from as usize, to as usize))
        } else {
            Err(Error::OutOfRange)
        }
    }

    /// The number of recipients.
    pub fn get_all_recipients_len(&self) -> (n: u32)
        requires
            self.wf(),
        ensures
            n == recipients_of(self@.schedules).len(),
    {
        self.store.recipients().len() as u32
    }

    /// The ids of the schedules of `recipient`, in rising order.
    pub fn get_all_recipient_vestings(&self, recipient: &Address) -> (list: Vec<u64>)
        requires
            self.wf(),
        ensures
            list@ == ids_of(self@.schedules, recipient@),
    {
        match self.store.ids(recipient) {
            Some(all) => {
                let list = copy_ids(all, 0, all.len());
                assert(all@.subrange(0, all@.len() as int) =~= all@);
                list
            },
            None => {
                let list: Vec<u64> = Vec::new();
                assert(list@ =~= ids_of(self@.schedules, recipient@));
                list
            },
        }
    }

    /// The ids of the schedules of `recipient` from place `from` up to, not
    /// including, place `to`.
    pub fn get_all_recipient_vesting_sliced(&self, from: u32, to: u32, recipient: &Address) -> (r:
        Result<Vec<u64>, Error>)
        requires
            self.wf(),
        ensures
            match r {
                Ok(list) => from <= to <= ids_of(self@.schedules, recipient@).len() && list@
                    == ids_of(self@.schedules, recipient@).subrange(from as int, to as int),
                Err(e) => e == Error::OutOfRange && !(from <= to <= ids_of(
                    self@.schedules,
                    recipient@,
                ).len()),
            },
    {
        match self.store.ids(recipient) {
            Some(all) => {
                if from <= to && to as usize <= all.len() {
                    Ok(copy_ids(all, from as usize, to as usize))
                } else {
                    Err(Error::OutOfRange)
                }
            },
            None => {
                if from == 0 && to == 0 {
                    let list: Vec<u64> = Vec::new();
                    assert(list@ =~= ids_of(self@.schedules, recipient@).subrange(0, 0));
                    Ok(list)
                } else {
                    Err(Error::OutOfRange)
                }
            },
        }
    }

    /// The number of schedules of `recipient`.
    pub fn get_all_recipient_vestings_len(&self, recipient: &Address) -> (n: u32)
        requires
            self.wf(),
        ensures
            n == ids_of(self@.schedules, recipient@).len(),
    {
        match self.store.ids(recipient) {
            Some(all) => all.len() as u32,
            None => 0,
        }
    }

    /// Whether `recipient` has a schedule.
    pub fn is_recipient(&self, recipient: &Address) -> (r: bool)
        requires
            self.wf(),
        ensures
            r == (ids_of(self@.schedules, recipient@).len() != 0),
            r == recipients_of(self@.schedules).contains(recipient@),
    {
        proof {
            lemma_recipients_of(self@.schedules);
        }
        self.store.ids(recipient).is_some()
    }

    /// The number of schedules, which is the id that the next one gets.
    pub fn schedule_count(&self) -> (n: u64)
        requires
            self.wf(),
        ensures
            n == self@.schedules.len(),
            n <= u32::MAX,
    {
        proof {
            self.store.lemma_wf();
        }
        self.store.len()
    }

    /// The administrators, each once.
    pub fn get_admins(&self) -> (list: Vec<Address>)
        requires
            self.wf(),
        ensures
            keys_of(list@).to_set() == self@.admins,
            keys_of(list@).no_duplicates(),
    {
        self.admins.list()
    }

    /// The state that the given parts make: the administrators in `admins`,
    /// the token, the reserved amount and the schedules in the order of
    /// their ids.
    pub open spec fn parts(
        admins: Seq<Seq<u8>>,
        token: Option<Seq<u8>>,
        reserved: i128,
        schedules: Seq<Schedule>,
    ) -> State {
        State { admins: admins.to_set(), token, reserved: reserved as int, schedules }
    }

    /// The manager with the state that the given parts make, as a host
    /// that keeps the parts between operations hands them back. There is
    /// one where no administrator occurs twice and the state is well-formed.
    pub fn restore(
        admins: Vec<Address>,
        token: Option<Address>,
        reserved: i128,
        schedules: &Vec<Vesting>,
    ) -> (r: Option<TokenVestingManager>)
        ensures
            match r {
                Some(m) => {
                    &&& m.wf()
                    &&& m@ == Self::parts(
                        keys_of(admins@),
                        key_of(token),
                        reserved,
                        schedules_of(schedules@),
                    )
                    &&& keys_of(admins@).no_duplicates()
                },
                None => !keys_of(admins@).no_duplicates() || !Self::parts(
                    keys_of(admins@),
                    key_of(token),
                    reserved,
                    schedules_of(schedules@),
                ).wf(),
            },
    {
        let ghost keys = keys_of(admins@);
        let ghost state = Self::parts(
            keys,
            key_of(token),
            reserved,
            schedules_of(schedules@),
        );
        let count = admins.len();
        if token.is_none() && (count != 0 || reserved != 0 || schedules.len() != 0) {
            proof {
                if count != 0 {
                    assert(keys.to_set().contains(keys[0]));
                }
            }
            return None;
        }
        if token.is_some() && count == 0 {
            assert(keys.to_set() =~= Set::<Seq<u8>>::empty());
            return None;
        }
        let set = match AdminSet::from_list(admins) {
            Some(set) => set,
            None => {
                proof {
                    if keys.no_duplicates() {
                        keys.unique_seq_to_set();
                    }
                }
                return None;
            },
        };
        let store = match ScheduleStore::from_list(schedules) {
            Some(store) => store,
            None => {
                return None;
            },
        };
        let m = TokenVestingManager { admins: set, token, reserved, store };
        proof {
            m.admins.lemma_count_fits();
            m.store.lemma_wf();
            if token is None {
                assert(keys.to_set() =~= Set::<Seq<u8>>::empty());
                assert(m@.schedules =~= Seq::<Schedule>::empty());
            }
            assert(m@ == state);
        }
        Some(m)
    }
}

} // verus!
