use group_escrow::engine::{
    cancel, cancel_refunds, check_join, create_escrow, join_escrow, withdraw, withdrawal_amount,
    Refund, Registry,
};
use group_escrow::types::{
    generate_escrow_code, EscrowCode, EscrowError, EscrowEvent, EscrowStatus, Identity,
};

fn id(k: u8) -> Identity {
    let mut bytes = [k; 32];
    bytes[1] = k.wrapping_add(1);
    Identity { bytes }
}

/// Runs both steps of a join, converting principal one for one.
fn join(reg: &mut Registry, who: Identity, code: EscrowCode, amount: u64) -> Result<u8, EscrowError> {
    check_join(reg, &who, code, amount)?;
    join_escrow(reg, who, code, amount, amount)
}

#[test]
fn scenario_four_joins_complete_escrow() {
    let mut reg = Registry::new();
    let creator = id(1);
    let code = create_escrow(&mut reg, creator, 1000, 4, 77).unwrap();
    let e = reg.escrow_info(code).unwrap();
    assert_eq!(e.split_amount, 250);
    assert_eq!(e.status, EscrowStatus::Open);
    for k in 0..4u8 {
        let n = join(&mut reg, id(10 + k), code, 250).unwrap();
        assert_eq!(n, k + 1);
        let e = reg.escrow_info(code).unwrap();
        if k < 3 {
            assert_eq!(e.status, EscrowStatus::Open);
            assert_eq!(e.yield_baseline, 0);
        }
    }
    let e = reg.escrow_info(code).unwrap();
    assert_eq!(e.status, EscrowStatus::Complete);
    assert_eq!(e.joined_count, 4);
    assert_eq!(e.accumulated_receipts, 1000);
    assert_eq!(e.yield_baseline, 1000);
    let events = reg.take_events();
    assert_eq!(events.len(), 6);
    assert_eq!(events[5], EscrowEvent::EscrowCompleted { code, yield_baseline: 1000 });
    assert_eq!(reg.take_events().len(), 0);
}

#[test]
fn scenario_wrong_amount_leaves_escrow_unchanged() {
    let mut reg = Registry::new();
    let code = create_escrow(&mut reg, id(1), 1000, 4, 0).unwrap();
    let before = reg.escrow_info(code).unwrap();
    assert_eq!(check_join(&reg, &id(10), code, 200), Err(EscrowError::IncorrectAmount));
    assert_eq!(join_escrow(&mut reg, id(10), code, 200, 200), Err(EscrowError::IncorrectAmount));
    assert_eq!(reg.escrow_info(code).unwrap(), before);
    assert_eq!(reg.participant_status(code, &id(10)), None);
}

#[test]
fn scenario_cancel_refunds_three_of_five() {
    let mut reg = Registry::new();
    let creator = id(1);
    let code = create_escrow(&mut reg, creator, 500, 5, 0).unwrap();
    for k in 0..3u8 {
        join_escrow(&mut reg, id(10 + k), code, 100, 90 + k as u64).unwrap();
    }
    let refunds = cancel_refunds(&reg, &creator, code).unwrap();
    assert_eq!(
        refunds,
        vec![
            Refund { participant: id(10), receipts: 90 },
            Refund { participant: id(11), receipts: 91 },
            Refund { participant: id(12), receipts: 92 },
        ]
    );
    assert_eq!(cancel(&mut reg, creator, code), Ok(3));
    assert_eq!(reg.escrow_info(code).unwrap().status, EscrowStatus::Cancelled);
    assert_eq!(join(&mut reg, id(13), code, 100), Err(EscrowError::EscrowAlreadyFinalized));
    assert_eq!(join(&mut reg, id(14), code, 100), Err(EscrowError::EscrowAlreadyFinalized));
    assert_eq!(withdraw(&mut reg, id(10), code, 1000), Err(EscrowError::EscrowNotComplete));
    assert_eq!(cancel(&mut reg, creator, code), Err(EscrowError::CannotCancel));
}

#[test]
fn scenario_proportional_yield_withdrawals() {
    let mut reg = Registry::new();
    let (a, b) = (id(20), id(21));
    let code = create_escrow(&mut reg, id(1), 1000, 2, 0).unwrap();
    join_escrow(&mut reg, a, code, 500, 400).unwrap();
    join_escrow(&mut reg, b, code, 500, 600).unwrap();
    assert_eq!(reg.escrow_info(code).unwrap().yield_baseline, 1000);
    assert_eq!(withdrawal_amount(&reg, &a, code, 1050), Ok(420));
    assert_eq!(withdrawal_amount(&reg, &b, code, 1050), Ok(630));
    assert_eq!(withdraw(&mut reg, a, code, 1050), Ok(420));
    assert_eq!(withdraw(&mut reg, b, code, 1050), Ok(630));
    assert_eq!(withdraw(&mut reg, a, code, 1050), Err(EscrowError::AlreadyWithdrawn));
    assert_eq!(withdrawal_amount(&reg, &b, code, 1050), Err(EscrowError::AlreadyWithdrawn));
    assert!(reg.participant_status(code, &a).unwrap().withdrawn);
}

#[test]
fn create_needs_two_participants() {
    let mut reg = Registry::new();
    assert_eq!(create_escrow(&mut reg, id(1), 1000, 1, 0), Err(EscrowError::InsufficientParticipants));
    assert_eq!(create_escrow(&mut reg, id(1), 1000, 0, 0), Err(EscrowError::InsufficientParticipants));
    assert_eq!(reg.counter(), 0);
}

#[test]
fn create_floors_share_and_codes_stay_unique() {
    let mut reg = Registry::new();
    let c1 = create_escrow(&mut reg, id(1), 1001, 3, 5).unwrap();
    let c2 = create_escrow(&mut reg, id(1), 1001, 3, 5).unwrap();
    assert_ne!(c1, c2);
    assert_eq!(c1.serial, 1);
    assert_eq!(c2.serial, 2);
    assert_eq!(reg.escrow_info(c1).unwrap().split_amount, 333);
    assert_eq!(c1, generate_escrow_code(1, &id(1)));
    assert_eq!(c1.tag, 0x0102_0101);
}

#[test]
fn join_validation_order() {
    let mut reg = Registry::new();
    let missing = EscrowCode { serial: 9, tag: 0 };
    assert_eq!(check_join(&reg, &id(2), missing, 10), Err(EscrowError::EscrowNotFound));
    let code = create_escrow(&mut reg, id(1), 20, 2, 0).unwrap();
    let wrong_tag = EscrowCode { serial: code.serial, tag: code.tag ^ 1 };
    assert_eq!(check_join(&reg, &id(2), wrong_tag, 10), Err(EscrowError::EscrowNotFound));
    assert_eq!(join(&mut reg, id(2), code, 10), Ok(1));
    assert_eq!(join(&mut reg, id(2), code, 10), Err(EscrowError::AlreadyJoined));
    assert_eq!(join(&mut reg, id(2), code, 11), Err(EscrowError::AlreadyJoined));
    assert_eq!(join(&mut reg, id(3), code, 10), Ok(2));
    assert_eq!(join(&mut reg, id(4), code, 10), Err(EscrowError::EscrowAlreadyFinalized));
    assert_eq!(join(&mut reg, id(2), code, 10), Err(EscrowError::EscrowAlreadyFinalized));
}

#[test]
fn join_rejects_receipt_overflow() {
    let mut reg = Registry::new();
    let code = create_escrow(&mut reg, id(1), 20, 3, 0).unwrap();
    join_escrow(&mut reg, id(2), code, 6, u64::MAX).unwrap();
    assert_eq!(join_escrow(&mut reg, id(3), code, 6, 1), Err(EscrowError::CapacityExceeded));
    assert_eq!(reg.escrow_info(code).unwrap().joined_count, 1);
}

#[test]
fn withdraw_errors() {
    let mut reg = Registry::new();
    let code = create_escrow(&mut reg, id(1), 20, 2, 0).unwrap();
    join_escrow(&mut reg, id(2), code, 10, 10).unwrap();
    assert_eq!(withdraw(&mut reg, id(2), code, 10), Err(EscrowError::EscrowNotComplete));
    join_escrow(&mut reg, id(3), code, 10, 10).unwrap();
    assert_eq!(withdraw(&mut reg, id(4), code, 10), Err(EscrowError::ParticipantNotFound));
    let missing = EscrowCode { serial: 5, tag: 0 };
    assert_eq!(withdraw(&mut reg, id(2), missing, 10), Err(EscrowError::EscrowNotFound));
    // A fall in the receipt balance yields nothing but the receipts.
    assert_eq!(withdraw(&mut reg, id(2), code, 5), Ok(10));
}

#[test]
fn cancel_only_by_creator_while_open() {
    let mut reg = Registry::new();
    let creator = id(1);
    let code = create_escrow(&mut reg, creator, 20, 2, 0).unwrap();
    assert_eq!(cancel(&mut reg, id(2), code), Err(EscrowError::NotCreator));
    assert_eq!(cancel_refunds(&reg, &id(2), code), Err(EscrowError::NotCreator));
    assert_eq!(cancel(&mut reg, creator, EscrowCode { serial: 3, tag: 0 }), Err(EscrowError::EscrowNotFound));
    join_escrow(&mut reg, id(2), code, 10, 10).unwrap();
    join_escrow(&mut reg, id(3), code, 10, 10).unwrap();
    assert_eq!(cancel(&mut reg, creator, code), Err(EscrowError::CannotCancel));
    assert_eq!(reg.escrow_info(code).unwrap().status, EscrowStatus::Complete);
}

#[test]
fn cancel_with_nobody_joined() {
    let mut reg = Registry::new();
    let creator = id(1);
    let code = create_escrow(&mut reg, creator, 20, 2, 0).unwrap();
    assert_eq!(cancel_refunds(&reg, &creator, code), Ok(vec![]));
    assert_eq!(cancel(&mut reg, creator, code), Ok(0));
}

#[test]
fn user_escrows_lists_joined_codes() {
    let mut reg = Registry::new();
    let c1 = create_escrow(&mut reg, id(1), 20, 2, 0).unwrap();
    let c2 = create_escrow(&mut reg, id(1), 30, 3, 0).unwrap();
    let c3 = create_escrow(&mut reg, id(5), 40, 2, 0).unwrap();
    join_escrow(&mut reg, id(7), c1, 10, 10).unwrap();
    join_escrow(&mut reg, id(7), c3, 20, 20).unwrap();
    join_escrow(&mut reg, id(8), c2, 10, 10).unwrap();
    assert_eq!(reg.user_escrows(&id(7)), vec![c1, c3]);
    assert_eq!(reg.user_escrows(&id(8)), vec![c2]);
    assert_eq!(reg.user_escrows(&id(9)), vec![]);
}
