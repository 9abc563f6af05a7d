use token_vesting::{
    Action, Address, CreateVestingBatchParams, Error, Event, TokenVestingManager, Vesting,
};

fn named(name: &str) -> Address {
    Address::new(name.as_bytes().to_vec())
}

fn admin() -> Address {
    named("A")
}

fn recipient() -> Address {
    named("R")
}

fn token() -> Address {
    named("token")
}

fn manager() -> TokenVestingManager {
    let mut m = TokenVestingManager::new();
    m.init(admin(), token()).unwrap();
    m
}

/// Creates the schedule start = 1000, end = 2000, interval = 10 without
/// cliff for the recipient `R`.
fn create(m: &mut TokenVestingManager, initial_unlock: i128, linear_vest_amount: i128) -> u64 {
    let (id, _) = m
        .create_vesting(&admin(), recipient(), 1000, 2000, 0, initial_unlock, 0, 0, 10, linear_vest_amount)
        .unwrap();
    id
}

/// What the manager still holds for a schedule: what it will have vested
/// in all, less what was claimed.
fn outstanding(v: &Vesting) -> i128 {
    let committed = if v.deactivation_timestamp != 0 {
        TokenVestingManager::calculate_vested_amount(v, v.deactivation_timestamp)
    } else {
        v.initial_unlock + v.cliff_amount + v.linear_vest_amount
    };
    committed - v.claimed_amount
}

fn outstanding_sum(m: &TokenVestingManager) -> i128 {
    let mut sum = 0;
    for id in 0..m.schedule_count() {
        sum += outstanding(&m.get_vesting_info(id).unwrap());
    }
    sum
}

fn pay(to: Address, amount: i128) -> Action {
    Action::Pay { token: token(), to, amount }
}

#[test]
fn new_manager_is_empty_until_initialized() {
    let mut m = TokenVestingManager::new();
    assert!(!m.is_initialized());
    assert_eq!(m.get_admins_count(), 0);
    assert!(!m.is_admin(&admin()));
    assert_eq!(m.get_tokens_reserved_for_vesting(), 0);
    assert_eq!(m.schedule_count(), 0);
    assert_eq!(m.get_all_recipients_len(), 0);
    assert_eq!(m.get_admins(), Vec::<Address>::new());
    // Nobody is an administrator yet.
    assert_eq!(
        m.create_vesting(&admin(), recipient(), 1000, 2000, 0, 0, 0, 0, 10, 1000),
        Err(Error::NotAdmin)
    );
    assert_eq!(m.set_admin(&admin(), &recipient(), true), Err(Error::NotAdmin));
    assert_eq!(m.claim(&recipient(), 0, 1500), Err(Error::UnknownSchedule));

    let actions = m.init(admin(), token()).unwrap();
    assert_eq!(
        actions,
        vec![Action::Emit(Event::AdminAccessSet { admin: admin(), enabled: true })]
    );
    assert!(m.is_initialized());
    assert_eq!(m.get_admins_count(), 1);
    assert!(m.is_admin(&admin()));
    assert_eq!(m.get_admins(), vec![admin()]);
    assert_eq!(m.get_token_address(), token());

    assert_eq!(m.init(recipient(), named("other")), Err(Error::AlreadyInitialized));
    assert_eq!(m.get_admins(), vec![admin()]);
    assert_eq!(m.get_token_address(), token());
}

#[test]
fn full_linear_without_cliff_and_initial_unlock() {
    let mut m = manager();
    let (id, actions) =
        m.create_vesting(&admin(), recipient(), 1000, 2000, 0, 0, 0, 0, 10, 1000).unwrap();
    assert_eq!(id, 0);
    let stored = m.get_vesting_info(0).unwrap();
    assert_eq!(
        actions,
        vec![
            Action::Emit(Event::VestingCreated {
                id: 0,
                recipient: recipient(),
                vesting: stored.clone()
            }),
            Action::Pull { from: admin(), amount: 1000 },
        ]
    );
    assert_eq!(m.get_tokens_reserved_for_vesting(), 1000);
    assert_eq!(TokenVestingManager::calculate_vested_amount(&stored, 2000), 1000);

    let actions = m.claim(&recipient(), 0, 2000).unwrap();
    assert_eq!(
        actions,
        vec![
            Action::Emit(Event::Claimed { id: 0, caller: recipient(), amount: 1000 }),
            pay(recipient(), 1000),
        ]
    );
    assert_eq!(m.get_tokens_reserved_for_vesting(), 0);
    assert_eq!(m.get_vesting_info(0).unwrap().claimed_amount, 1000);
}

#[test]
fn initial_unlock_and_linear() {
    let mut m = manager();
    let id = create(&mut m, 1000, 1000);
    assert_eq!(m.get_tokens_reserved_for_vesting(), 2000);

    let actions = m.claim(&recipient(), id, 1500).unwrap();
    assert_eq!(
        actions,
        vec![
            Action::Emit(Event::Claimed { id, caller: recipient(), amount: 1500 }),
            pay(recipient(), 1500),
        ]
    );
    assert_eq!(m.get_tokens_reserved_for_vesting(), 500);

    let actions = m.claim(&recipient(), id, 2000).unwrap();
    assert_eq!(
        actions,
        vec![
            Action::Emit(Event::Claimed { id, caller: recipient(), amount: 500 }),
            pay(recipient(), 500),
        ]
    );
    assert_eq!(m.get_tokens_reserved_for_vesting(), 0);
    assert_eq!(m.get_vesting_info(id).unwrap().claimed_amount, 2000);
}

#[test]
fn cliff_and_linear_schedule_in_the_manager() {
    let mut m = manager();
    let (id, _) =
        m.create_vesting(&admin(), recipient(), 1000, 3000, 0, 0, 2000, 1000, 10, 1000).unwrap();
    let v = m.get_vesting_info(id).unwrap();
    assert_eq!(TokenVestingManager::calculate_vested_amount(&v, 2000), 1000);
    assert_eq!(TokenVestingManager::calculate_vested_amount(&v, 3000), 2000);
    assert_eq!(m.claim(&recipient(), id, 1999), Err(Error::NothingToClaim));
    m.claim(&recipient(), id, 2000).unwrap();
    assert_eq!(m.get_tokens_reserved_for_vesting(), 1000);
}

#[test]
fn revocation_mid_way() {
    let mut m = manager();
    let id = create(&mut m, 0, 1000);
    let balance: i128 = 1000;
    assert_eq!(m.amount_to_withdraw_by_admin(balance), Ok(0));

    let actions = m.revoke_vesting(&admin(), id, 1500).unwrap();
    let revoked = m.get_vesting_info(id).unwrap();
    assert_eq!(revoked.deactivation_timestamp, 1500);
    assert_eq!(
        actions,
        vec![Action::Emit(Event::VestingRevoked {
            id,
            recipient: recipient(),
            forfeited: 500,
            vesting: revoked.clone()
        })]
    );
    assert_eq!(m.get_tokens_reserved_for_vesting(), 500);
    assert_eq!(m.amount_to_withdraw_by_admin(balance), Ok(500));

    // A later claim gets what had vested at the revocation.
    let actions = m.claim(&recipient(), id, 1900).unwrap();
    assert_eq!(
        actions,
        vec![
            Action::Emit(Event::Claimed { id, caller: recipient(), amount: 500 }),
            pay(recipient(), 500),
        ]
    );
    assert_eq!(m.get_tokens_reserved_for_vesting(), 0);
    assert_eq!(m.amount_to_withdraw_by_admin(balance - 500), Ok(500));
    assert_eq!(m.claim(&recipient(), id, 2000), Err(Error::NothingToClaim));
}

fn batch_of_three() -> CreateVestingBatchParams {
    CreateVestingBatchParams {
        recipients: vec![named("R1"), named("R2"), named("R3")],
        start_timestamps: vec![1000, 2000, 3000],
        end_timestamps: vec![2000, 3000, 4000],
        timelocks: vec![0, 5, 6],
        initial_unlocks: vec![1, 2, 3],
        cliff_release_timestamps: vec![0, 2000, 3500],
        cliff_amounts: vec![0, 20, 30],
        release_interval_secs: vec![10, 100, 50],
        linear_vest_amounts: vec![100, 200, 300],
    }
}

#[test]
fn batch_creates_all_in_order() {
    let mut m = manager();
    let params = batch_of_three();
    let (ids, actions) = m.create_vesting_batch(&admin(), &params).unwrap();
    assert_eq!(ids, vec![0, 1, 2]);
    assert_eq!(m.get_all_recipients(), vec![named("R1"), named("R2"), named("R3")]);
    assert_eq!(m.get_all_recipients_len(), 3);
    for (i, r) in params.recipients.iter().enumerate() {
        assert_eq!(m.get_all_recipient_vestings_len(r), 1);
        assert_eq!(m.get_all_recipient_vestings(r), vec![i as u64]);
    }
    assert_eq!(m.get_tokens_reserved_for_vesting(), 101 + 222 + 333);
    let second = Vesting {
        recipient: named("R2"),
        start_timestamp: 2000,
        end_timestamp: 3000,
        deactivation_timestamp: 0,
        timelock: 5,
        release_interval_secs: 100,
        cliff_release_timestamp: 2000,
        initial_unlock: 2,
        cliff_amount: 20,
        linear_vest_amount: 200,
        claimed_amount: 0,
    };
    assert_eq!(m.get_vesting_info(1).unwrap(), second);
    assert_eq!(actions.len(), 6);
    assert_eq!(
        actions[2],
        Action::Emit(Event::VestingCreated { id: 1, recipient: named("R2"), vesting: second })
    );
    assert_eq!(actions[1], Action::Pull { from: admin(), amount: 101 });
    assert_eq!(actions[3], Action::Pull { from: admin(), amount: 222 });
    assert_eq!(actions[5], Action::Pull { from: admin(), amount: 333 });
}

#[test]
fn batch_creates_none_if_one_cannot_be_created() {
    let mut m = manager();
    create(&mut m, 0, 1000);

    let mut params = batch_of_three();
    params.release_interval_secs[2] = 0;
    assert_eq!(m.create_vesting_batch(&admin(), &params), Err(Error::InvalidInterval));
    assert_eq!(m.schedule_count(), 1);
    assert_eq!(m.get_tokens_reserved_for_vesting(), 1000);
    assert_eq!(m.get_all_recipients(), vec![recipient()]);

    // The first schedule that cannot be created gives the error.
    params.start_timestamps[1] = 0;
    assert_eq!(m.create_vesting_batch(&admin(), &params), Err(Error::InvalidStart));

    // The reserved amount must hold the whole batch.
    let mut params = batch_of_three();
    params.start_timestamps[2] = 1;
    params.end_timestamps[2] = 2;
    params.cliff_release_timestamps[2] = 0;
    params.cliff_amounts[2] = 0;
    params.initial_unlocks[2] = 0;
    params.release_interval_secs[2] = 1;
    params.linear_vest_amounts[2] = i128::MAX - 1000 - 101 - 222 + 1;
    assert_eq!(m.create_vesting_batch(&admin(), &params), Err(Error::Overflow));
    assert_eq!(m.schedule_count(), 1);
    params.linear_vest_amounts[2] -= 1;
    assert!(m.create_vesting_batch(&admin(), &params).is_ok());
    assert_eq!(m.get_tokens_reserved_for_vesting(), i128::MAX);
    assert_eq!(m.schedule_count(), 4);
}

#[test]
fn batch_needs_an_administrator_and_sequences_of_one_length() {
    let mut m = manager();
    let mut params = batch_of_three();
    params.timelocks.pop();
    assert_eq!(m.create_vesting_batch(&recipient(), &params), Err(Error::NotAdmin));
    assert_eq!(m.create_vesting_batch(&admin(), &params), Err(Error::LengthMismatch));
    let mut params = batch_of_three();
    params.recipients.push(named("R4"));
    assert_eq!(m.create_vesting_batch(&admin(), &params), Err(Error::LengthMismatch));
    assert_eq!(m.schedule_count(), 0);

    let empty = CreateVestingBatchParams {
        recipients: vec![],
        start_timestamps: vec![],
        end_timestamps: vec![],
        timelocks: vec![],
        initial_unlocks: vec![],
        cliff_release_timestamps: vec![],
        cliff_amounts: vec![],
        release_interval_secs: vec![],
        linear_vest_amounts: vec![],
    };
    assert_eq!(m.create_vesting_batch(&admin(), &empty), Ok((vec![], vec![])));
    assert_eq!(m.create_vesting_batch(&recipient(), &empty), Err(Error::NotAdmin));
}

#[test]
fn creation_by_a_stranger_changes_nothing() {
    let mut m = manager();
    create(&mut m, 0, 1000);
    let stranger = named("S");
    assert_eq!(
        m.create_vesting(&stranger, recipient(), 1000, 2000, 0, 0, 0, 0, 10, 1000),
        Err(Error::NotAdmin)
    );
    // The caller is looked at before the terms.
    assert_eq!(
        m.create_vesting(&stranger, recipient(), 0, 0, 0, -1, 0, 0, 0, 0),
        Err(Error::NotAdmin)
    );
    assert_eq!(m.schedule_count(), 1);
    assert_eq!(m.get_tokens_reserved_for_vesting(), 1000);
    assert_eq!(m.get_all_recipient_vestings(&recipient()), vec![0]);
    assert_eq!(m.get_admins_count(), 1);
}

#[test]
fn creation_refuses_terms_and_amounts_out_of_range() {
    let mut m = manager();
    let a = admin();
    let r = recipient();
    assert_eq!(m.create_vesting(&a, r.clone(), 1000, 2000, 0, -5, 0, 0, 10, 1), Err(Error::InvalidAmount));
    assert_eq!(m.create_vesting(&a, r.clone(), 1000, 2000, 0, 5, 0, 0, 10, 0), Err(Error::InvalidAmount));
    assert_eq!(m.create_vesting(&a, r.clone(), 0, 2000, 0, 0, 0, 0, 10, 1), Err(Error::InvalidStart));
    assert_eq!(m.create_vesting(&a, r.clone(), 1000, 500, 0, 0, 0, 0, 10, 1), Err(Error::InvalidStart));
    assert_eq!(m.create_vesting(&a, r.clone(), 1000, 2000, 0, 0, 0, 0, 0, 1), Err(Error::InvalidInterval));
    assert_eq!(m.create_vesting(&a, r.clone(), 1000, 2000, 0, 0, 200, 10, 10, 1), Err(Error::InvalidCliffRelease));
    assert_eq!(m.create_vesting(&a, r.clone(), 1000, 2000, 0, 0, 1500, 0, 10, 1), Err(Error::InvalidCliffAmount));
    assert_eq!(m.create_vesting(&a, r.clone(), 1000, 2000, 0, 0, 0, 10, 10, 1), Err(Error::InvalidCliffAmount));
    assert_eq!(m.create_vesting(&a, r.clone(), 1000, 2000, 0, 0, 1500, 10, 57, 1), Err(Error::InvalidIntervalLength));
    assert_eq!(m.create_vesting(&a, r.clone(), 1000, 2000, 0, 0, 0, 0, 57, 1), Err(Error::InvalidIntervalLength));
    assert_eq!(m.create_vesting(&a, r.clone(), 1000, 2000, 0, 0, 0, 0, 10, i128::MAX), Err(Error::Overflow));
    assert_eq!(m.schedule_count(), 0);
    assert_eq!(m.get_tokens_reserved_for_vesting(), 0);
    assert!(!m.is_recipient(&r));

    // The reserved amount stays in its range.
    assert!(m.create_vesting(&a, r.clone(), 1, 2, 0, 0, 0, 0, 1, i128::MAX).is_ok());
    assert_eq!(m.get_tokens_reserved_for_vesting(), i128::MAX);
    assert_eq!(m.create_vesting(&a, r.clone(), 1000, 2000, 0, 0, 0, 0, 10, 1), Err(Error::Overflow));
    assert_eq!(m.schedule_count(), 1);
    assert_eq!(m.get_tokens_reserved_for_vesting(), i128::MAX);
}

#[test]
fn ids_are_dense_from_zero() {
    let mut m = manager();
    for n in 0..20u64 {
        assert_eq!(m.schedule_count(), n);
        let who = named(if n % 3 == 0 { "R" } else { "Q" });
        let (id, _) = m.create_vesting(&admin(), who, 1000, 2000, 0, 0, 0, 0, 10, 1000).unwrap();
        assert_eq!(id, n);
        // A refused creation takes no id.
        assert!(m.create_vesting(&admin(), recipient(), 0, 2000, 0, 0, 0, 0, 10, 1000).is_err());
    }
    for id in 0..20u64 {
        assert!(m.get_vesting_info(id).is_ok());
    }
    assert_eq!(m.get_vesting_info(20), Err(Error::UnknownSchedule));
    assert_eq!(m.get_vesting_info(u64::MAX), Err(Error::UnknownSchedule));
    assert_eq!(m.get_all_recipient_vestings(&recipient()), vec![0, 3, 6, 9, 12, 15, 18]);
    assert_eq!(m.get_all_recipient_vestings_len(&named("Q")), 13);
    assert_eq!(m.get_all_recipients(), vec![recipient(), named("Q")]);
}

#[test]
fn there_is_always_an_administrator() {
    let mut m = manager();
    let a = admin();
    let b = named("B");
    assert_eq!(m.set_admin(&a, &a, false), Err(Error::LastAdmin));
    assert_eq!(m.get_admins_count(), 1);
    assert_eq!(m.set_admin(&a, &a, true), Err(Error::AlreadyInState));
    assert_eq!(m.set_admin(&a, &b, false), Err(Error::AlreadyInState));
    assert_eq!(m.set_admin(&b, &b, true), Err(Error::NotAdmin));
    assert_eq!(m.get_admins_count(), 1);

    assert_eq!(
        m.set_admin(&a, &b, true),
        Ok(vec![Action::Emit(Event::AdminAccessSet { admin: b.clone(), enabled: true })])
    );
    assert_eq!(m.get_admins_count(), 2);
    // An administrator may remove itself while another one stays.
    assert_eq!(
        m.set_admin(&a, &a, false),
        Ok(vec![Action::Emit(Event::AdminAccessSet { admin: a.clone(), enabled: false })])
    );
    assert_eq!(m.get_admins_count(), 1);
    assert!(!m.is_admin(&a));
    assert!(m.is_admin(&b));
    assert_eq!(m.set_admin(&a, &a, true), Err(Error::NotAdmin));
    assert_eq!(m.set_admin(&b, &b, false), Err(Error::LastAdmin));
    assert_eq!(m.get_admins(), vec![b]);
}

#[test]
fn claim_takes_what_has_vested_and_no_more() {
    let mut m = manager();
    let id = create(&mut m, 0, 1000);
    for now in [1000u64, 1005, 1010, 1250, 1255, 1999, 2000, 9000] {
        let before = m.get_vesting_info(id).unwrap();
        let vested = TokenVestingManager::calculate_vested_amount(&before, now);
        match m.claim(&recipient(), id, now) {
            Ok(actions) => {
                assert!(vested > before.claimed_amount);
                assert_eq!(actions[1], pay(recipient(), vested - before.claimed_amount));
            },
            Err(e) => {
                assert_eq!(e, Error::NothingToClaim);
                assert_eq!(vested, before.claimed_amount);
            },
        }
        let after = m.get_vesting_info(id).unwrap();
        assert_eq!(after.claimed_amount, vested);
        assert_eq!(m.claim(&recipient(), id, now), Err(Error::NothingToClaim));
        assert_eq!(m.get_tokens_reserved_for_vesting(), 1000 - vested);
    }
    // A clock that goes back finds nothing to claim.
    assert_eq!(m.claim(&recipient(), id, 1500), Err(Error::NothingToClaim));
    assert_eq!(m.get_vesting_info(id).unwrap().claimed_amount, 1000);
}

#[test]
fn claim_waits_for_the_timelock() {
    let mut m = manager();
    let (id, _) =
        m.create_vesting(&admin(), recipient(), 1000, 2000, 1500, 1000, 0, 0, 10, 1000).unwrap();
    assert_eq!(m.claim(&recipient(), id, 1499), Err(Error::TimelockActive));
    assert_eq!(m.get_tokens_reserved_for_vesting(), 2000);
    assert_eq!(m.get_vesting_info(id).unwrap().claimed_amount, 0);
    let actions = m.claim(&recipient(), id, 1500).unwrap();
    assert_eq!(actions[1], pay(recipient(), 1500));
}

#[test]
fn claim_is_for_the_recipient_of_a_known_schedule() {
    let mut m = manager();
    let id = create(&mut m, 0, 1000);
    assert_eq!(m.claim(&recipient(), id + 1, 1500), Err(Error::UnknownSchedule));
    // An administrator is not the recipient.
    assert_eq!(m.claim(&admin(), id, 1500), Err(Error::NotOwner));
    assert_eq!(m.claim(&named("S"), id, 1500), Err(Error::NotOwner));
    assert_eq!(m.get_tokens_reserved_for_vesting(), 1000);
    // The recipient needs no rights of an administrator.
    assert!(m.claim(&recipient(), id, 1500).is_ok());
}

#[test]
fn revocation_is_refused() {
    let mut m = manager();
    let id = create(&mut m, 0, 1000);
    assert_eq!(m.revoke_vesting(&recipient(), id, 1500), Err(Error::NotAdmin));
    assert_eq!(m.revoke_vesting(&recipient(), id + 1, 1500), Err(Error::NotAdmin));
    assert_eq!(m.revoke_vesting(&admin(), id + 1, 1500), Err(Error::UnknownSchedule));
    assert_eq!(m.get_vesting_info(id).unwrap().deactivation_timestamp, 0);

    m.revoke_vesting(&admin(), id, 1500).unwrap();
    assert_eq!(m.revoke_vesting(&admin(), id, 1600), Err(Error::AlreadyRevoked));
    assert_eq!(m.get_vesting_info(id).unwrap().deactivation_timestamp, 1500);
    assert_eq!(m.get_tokens_reserved_for_vesting(), 500);

    let other = create(&mut m, 1000, 1000);
    m.claim(&recipient(), other, 2000).unwrap();
    assert_eq!(m.revoke_vesting(&admin(), other, 2001), Err(Error::FullyClaimed));
    assert_eq!(m.get_vesting_info(other).unwrap().deactivation_timestamp, 0);
}

#[test]
fn revocation_after_the_end_forfeits_nothing() {
    let mut m = manager();
    let id = create(&mut m, 1000, 1000);
    let actions = m.revoke_vesting(&admin(), id, 2001).unwrap();
    match &actions[0] {
        Action::Emit(Event::VestingRevoked { forfeited, .. }) => assert_eq!(*forfeited, 0),
        other => panic!("unexpected action {:?}", other),
    }
    assert_eq!(m.get_tokens_reserved_for_vesting(), 2000);
    assert_eq!(m.claim(&recipient(), id, 2001).unwrap()[1], pay(recipient(), 2000));
}

#[test]
fn revocation_at_time_zero_releases_the_reserve_and_leaves_the_schedule() {
    let mut m = manager();
    let id = create(&mut m, 1000, 1000);
    let actions = m.revoke_vesting(&admin(), id, 0).unwrap();
    match &actions[0] {
        Action::Emit(Event::VestingRevoked { forfeited, .. }) => assert_eq!(*forfeited, 2000),
        other => panic!("unexpected action {:?}", other),
    }
    assert_eq!(m.get_vesting_info(id).unwrap().deactivation_timestamp, 0);
    assert_eq!(m.get_tokens_reserved_for_vesting(), 0);
}

#[test]
fn reserved_amount_is_what_is_held_for_the_schedules() {
    let mut m = manager();
    assert_eq!(m.get_tokens_reserved_for_vesting(), outstanding_sum(&m));
    let a = create(&mut m, 1000, 1000);
    assert_eq!(m.get_tokens_reserved_for_vesting(), outstanding_sum(&m));
    let (b, _) =
        m.create_vesting(&admin(), named("Q"), 1000, 3000, 0, 7, 2000, 500, 100, 900).unwrap();
    assert_eq!(m.get_tokens_reserved_for_vesting(), 3407);
    assert_eq!(m.get_tokens_reserved_for_vesting(), outstanding_sum(&m));
    m.create_vesting_batch(&admin(), &batch_of_three()).unwrap();
    assert_eq!(m.get_tokens_reserved_for_vesting(), outstanding_sum(&m));
    m.claim(&recipient(), a, 1230).unwrap();
    assert_eq!(m.get_tokens_reserved_for_vesting(), 3407 + 656 - 1230);
    assert_eq!(m.get_tokens_reserved_for_vesting(), outstanding_sum(&m));
    m.revoke_vesting(&admin(), a, 1400).unwrap();
    assert_eq!(m.get_tokens_reserved_for_vesting(), 3407 + 656 - 1230 - 600);
    assert_eq!(m.get_tokens_reserved_for_vesting(), outstanding_sum(&m));
    m.claim(&named("Q"), b, 2250).unwrap();
    assert_eq!(m.get_tokens_reserved_for_vesting(), outstanding_sum(&m));
    m.claim(&recipient(), a, 5000).unwrap();
    assert_eq!(m.get_tokens_reserved_for_vesting(), outstanding_sum(&m));
    m.revoke_vesting(&admin(), b, 2300).unwrap();
    assert_eq!(m.get_tokens_reserved_for_vesting(), outstanding_sum(&m));
    m.set_admin(&admin(), &named("B"), true).unwrap();
    m.withdraw_admin(&admin(), 1, 100_000).unwrap();
    assert_eq!(m.get_tokens_reserved_for_vesting(), outstanding_sum(&m));
}

#[test]
fn administrator_withdraws_what_is_not_reserved() {
    let mut m = manager();
    create(&mut m, 0, 1000);
    assert_eq!(m.amount_to_withdraw_by_admin(1000), Ok(0));
    assert_eq!(m.amount_to_withdraw_by_admin(1700), Ok(700));
    assert_eq!(m.amount_to_withdraw_by_admin(400), Ok(-600));
    assert_eq!(m.amount_to_withdraw_by_admin(i128::MIN), Err(Error::Overflow));
    assert_eq!(m.amount_to_withdraw_by_admin(i128::MIN + 1000), Ok(i128::MIN));

    assert_eq!(m.withdraw_admin(&recipient(), 1, 1700), Err(Error::NotAdmin));
    assert_eq!(m.withdraw_admin(&admin(), 701, 1700), Err(Error::InsufficientUnreserved));
    assert_eq!(m.withdraw_admin(&admin(), 1, i128::MIN), Err(Error::InsufficientUnreserved));
    assert_eq!(
        m.withdraw_admin(&admin(), 700, 1700),
        Ok(vec![
            pay(admin(), 700),
            Action::Emit(Event::AdminWithdrawn { caller: admin(), amount: 700 }),
        ])
    );
    assert_eq!(m.get_tokens_reserved_for_vesting(), 1000);
}

#[test]
fn administrator_sweeps_another_token() {
    let m = manager();
    let other = named("other");
    assert_eq!(m.withdraw_other_token(&recipient(), &other, 5), Err(Error::NotAdmin));
    assert_eq!(m.withdraw_other_token(&recipient(), &token(), 5), Err(Error::NotAdmin));
    assert_eq!(m.withdraw_other_token(&admin(), &token(), 5), Err(Error::InvalidOtherToken));
    assert_eq!(
        m.withdraw_other_token(&admin(), &other, 5),
        Ok(vec![
            Action::Pay { token: other.clone(), to: admin(), amount: 5 },
            Action::Emit(Event::AdminWithdrawnOther { caller: admin(), amount: 5 }),
        ])
    );
}

#[test]
fn lists_are_read_whole_and_in_slices() {
    let mut m = manager();
    let names = ["R", "Q", "R", "P", "Q", "R"];
    for name in names {
        m.create_vesting(&admin(), named(name), 1000, 2000, 0, 0, 0, 0, 10, 1000).unwrap();
    }
    assert_eq!(m.get_all_recipients(), vec![named("R"), named("Q"), named("P")]);
    assert_eq!(m.get_all_recipients_len(), 3);
    assert_eq!(m.get_all_recipients_sliced(0, 3), Ok(vec![named("R"), named("Q"), named("P")]));
    assert_eq!(m.get_all_recipients_sliced(1, 2), Ok(vec![named("Q")]));
    assert_eq!(m.get_all_recipients_sliced(3, 3), Ok(vec![]));
    assert_eq!(m.get_all_recipients_sliced(0, 4), Err(Error::OutOfRange));
    assert_eq!(m.get_all_recipients_sliced(2, 1), Err(Error::OutOfRange));
    assert_eq!(m.get_all_recipients_sliced(4, 4), Err(Error::OutOfRange));

    let r = named("R");
    assert_eq!(m.get_all_recipient_vestings(&r), vec![0, 2, 5]);
    assert_eq!(m.get_all_recipient_vestings_len(&r), 3);
    assert_eq!(m.get_all_recipient_vesting_sliced(0, 3, &r), Ok(vec![0, 2, 5]));
    assert_eq!(m.get_all_recipient_vesting_sliced(1, 3, &r), Ok(vec![2, 5]));
    assert_eq!(m.get_all_recipient_vesting_sliced(2, 2, &r), Ok(vec![]));
    assert_eq!(m.get_all_recipient_vesting_sliced(0, 4, &r), Err(Error::OutOfRange));
    assert_eq!(m.get_all_recipient_vesting_sliced(3, 2, &r), Err(Error::OutOfRange));
    assert!(m.is_recipient(&r));

    let nobody = named("N");
    assert!(!m.is_recipient(&nobody));
    assert_eq!(m.get_all_recipient_vestings(&nobody), Vec::<u64>::new());
    assert_eq!(m.get_all_recipient_vestings_len(&nobody), 0);
    assert_eq!(m.get_all_recipient_vesting_sliced(0, 0, &nobody), Ok(vec![]));
    assert_eq!(m.get_all_recipient_vesting_sliced(0, 1, &nobody), Err(Error::OutOfRange));
}

#[test]
fn manager_is_restored_from_its_parts() {
    let mut m = manager();
    m.set_admin(&admin(), &named("B"), true).unwrap();
    let a = create(&mut m, 1000, 1000);
    m.create_vesting(&admin(), named("Q"), 1000, 3000, 0, 7, 2000, 500, 100, 900).unwrap();
    m.claim(&recipient(), a, 1230).unwrap();
    m.revoke_vesting(&admin(), a, 1400).unwrap();

    let mut schedules = Vec::new();
    for id in 0..m.schedule_count() {
        schedules.push(m.get_vesting_info(id).unwrap());
    }
    let restored = TokenVestingManager::restore(
        m.get_admins(),
        Some(m.get_token_address()),
        m.get_tokens_reserved_for_vesting(),
        &schedules,
    )
    .unwrap();
    assert_eq!(restored.get_admins(), vec![admin(), named("B")]);
    assert_eq!(restored.get_admins_count(), 2);
    assert_eq!(restored.get_token_address(), token());
    assert_eq!(restored.get_tokens_reserved_for_vesting(), m.get_tokens_reserved_for_vesting());
    assert_eq!(restored.schedule_count(), 2);
    assert_eq!(restored.get_vesting_info(0), m.get_vesting_info(0));
    assert_eq!(restored.get_vesting_info(1), m.get_vesting_info(1));
    assert_eq!(restored.get_all_recipients(), vec![recipient(), named("Q")]);
    assert_eq!(restored.get_all_recipient_vestings(&named("Q")), vec![1]);

    let fresh = TokenVestingManager::restore(vec![], None, 0, &vec![]).unwrap();
    assert!(!fresh.is_initialized());
    assert_eq!(fresh.get_admins_count(), 0);
}

#[test]
fn parts_that_make_no_manager_are_refused() {
    let good = Vesting::new(recipient(), 1000, 2000, 0, 0, 0, 0, 10, 1000).unwrap();
    let ok = |admins: Vec<Address>, token: Option<Address>, reserved: i128, s: Vec<Vesting>| {
        TokenVestingManager::restore(admins, token, reserved, &s).is_some()
    };
    assert!(ok(vec![admin()], Some(token()), 1000, vec![good.clone()]));
    // An administrator twice, or none for an initialized manager.
    assert!(!ok(vec![admin(), named("B"), admin()], Some(token()), 1000, vec![good.clone()]));
    assert!(!ok(vec![], Some(token()), 1000, vec![good.clone()]));
    // Anything without a token.
    assert!(!ok(vec![admin()], None, 0, vec![]));
    assert!(!ok(vec![], None, 1, vec![]));
    assert!(!ok(vec![], None, 0, vec![good.clone()]));
    // A schedule that could not have been created, or that claimed too much.
    let bad = Vesting { release_interval_secs: 3, ..good.clone() };
    assert!(!ok(vec![admin()], Some(token()), 1000, vec![good.clone(), bad]));
    let bad = Vesting { claimed_amount: 1001, ..good.clone() };
    assert!(!ok(vec![admin()], Some(token()), 1000, vec![bad]));
}

#[test]
fn reserved_amount_stays_in_its_range() {
    // A schedule revoked before its start still releases its initial unlock
    // at the start, out of a reserve that the revocation has emptied.
    let mut m = manager();
    let big = i128::MAX / 2;
    let drain = |m: &mut TokenVestingManager, initial_unlock: i128| -> (u64, Result<Vec<Action>, Error>) {
        let (id, _) = m
            .create_vesting(&admin(), recipient(), 1000, 2000, 0, initial_unlock, 0, 0, 1000, 1)
            .unwrap();
        m.revoke_vesting(&admin(), id, 500).unwrap();
        (id, m.claim(&recipient(), id, 1000))
    };
    assert!(drain(&mut m, big).1.is_ok());
    assert_eq!(m.get_tokens_reserved_for_vesting(), -big);
    assert!(drain(&mut m, big).1.is_ok());
    assert_eq!(m.get_tokens_reserved_for_vesting(), i128::MIN + 2);

    let (id, claimed) = drain(&mut m, big);
    assert_eq!(claimed, Err(Error::Overflow));
    assert_eq!(m.get_vesting_info(id).unwrap().claimed_amount, 0);
    assert_eq!(m.get_tokens_reserved_for_vesting(), i128::MIN + 2);

    let (kept, _) =
        m.create_vesting(&admin(), recipient(), 1000, 2000, 0, 0, 0, 0, 1000, 3).unwrap();
    assert_eq!(m.get_tokens_reserved_for_vesting(), i128::MIN + 5);
    assert!(drain(&mut m, 5).1.is_ok());
    assert_eq!(m.get_tokens_reserved_for_vesting(), i128::MIN);
    assert_eq!(m.revoke_vesting(&admin(), kept, 1000), Err(Error::Overflow));
    assert_eq!(m.get_vesting_info(kept).unwrap().deactivation_timestamp, 0);
    assert_eq!(m.get_tokens_reserved_for_vesting(), i128::MIN);
    assert_eq!(m.amount_to_withdraw_by_admin(0), Err(Error::Overflow));
    assert_eq!(m.withdraw_admin(&admin(), i128::MAX, 0).unwrap()[0], pay(admin(), i128::MAX));
}
