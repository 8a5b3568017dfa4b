use group_escrow::code_text::escrow_code_text;
use group_escrow::codec::{
    deserialize_contribution, deserialize_escrow, serialize_contribution, serialize_escrow,
    CONTRIBUTION_RECORD_LEN, ESCROW_RECORD_LEN,
};
use group_escrow::engine::{create_escrow, Registry};
use group_escrow::types::{Contribution, Escrow, EscrowCode, EscrowStatus, Identity};
use group_escrow::yield_split::{participant_yield, total_yield, withdrawal_total};

fn sample_escrow() -> Escrow {
    let mut bytes = [0u8; 32];
    for (i, b) in bytes.iter_mut().enumerate() {
        *b = i as u8 * 7;
    }
    Escrow {
        creator: Identity { bytes },
        total_amount: 0x0102_0304_0506_0708,
        split_amount: 250,
        num_friends: 4,
        joined_count: 3,
        status: EscrowStatus::Cancelled,
        accumulated_receipts: u64::MAX,
        yield_baseline: 0,
        created_at: 1_700_000_000,
    }
}

#[test]
fn escrow_record_layout() {
    let e = sample_escrow();
    let b = serialize_escrow(&e);
    assert_eq!(b.len(), ESCROW_RECORD_LEN);
    assert_eq!(b[0], 1);
    assert_eq!(b[1..33], e.creator.bytes);
    assert_eq!(b[33..41], [8, 7, 6, 5, 4, 3, 2, 1]);
    assert_eq!(b[41..49], [250, 0, 0, 0, 0, 0, 0, 0]);
    assert_eq!(b[49..52], [4, 3, 2]);
    assert_eq!(b[52..60], [0xff; 8]);
    assert_eq!(deserialize_escrow(&b), Some(e));
}

#[test]
fn escrow_record_rejects_bad_input() {
    let b = serialize_escrow(&sample_escrow());
    assert_eq!(deserialize_escrow(&b[..75]), None);
    let mut bad_status = b.clone();
    bad_status[51] = 3;
    assert_eq!(deserialize_escrow(&bad_status), None);
    let mut bad_version = b.clone();
    bad_version[0] = 2;
    assert_eq!(deserialize_escrow(&bad_version), None);
    assert_eq!(deserialize_escrow(&[]), None);
}

#[test]
fn contribution_record_round_trip() {
    let c = Contribution {
        participant: Identity { bytes: [9; 32] },
        principal: 250,
        receipts: 0x1_0000,
        withdrawn: true,
    };
    let b = serialize_contribution(&c);
    assert_eq!(b.len(), CONTRIBUTION_RECORD_LEN);
    assert_eq!(b[41..44], [0, 0, 1]);
    assert_eq!(b[49], 1);
    assert_eq!(deserialize_contribution(&b), Some(c));
    let mut bad = b.clone();
    bad[49] = 2;
    assert_eq!(deserialize_contribution(&bad), None);
}

#[test]
fn code_text_format() {
    let code = EscrowCode { serial: 42, tag: 0x0AB1_00FF };
    assert_eq!(escrow_code_text(code), b"ESCROW-42-0AB100FF".to_vec());
    let zero = EscrowCode { serial: 0, tag: 0 };
    assert_eq!(escrow_code_text(zero), b"ESCROW-0-00000000".to_vec());
    let big = EscrowCode { serial: u64::MAX, tag: u32::MAX };
    assert_eq!(escrow_code_text(big), b"ESCROW-18446744073709551615-FFFFFFFF".to_vec());
}

#[test]
fn code_lookup_by_text() {
    let mut reg = Registry::new();
    let mut bytes = [0u8; 32];
    bytes[0] = 0xde;
    bytes[1] = 0xad;
    bytes[2] = 0xbe;
    bytes[3] = 0xef;
    let creator = Identity { bytes };
    let c1 = create_escrow(&mut reg, creator, 20, 2, 0).unwrap();
    let c2 = create_escrow(&mut reg, creator, 20, 2, 0).unwrap();
    assert_eq!(reg.code_for_text(b"ESCROW-2-DEADBEEF"), Some(c2));
    assert_eq!(reg.code_for_text(b"ESCROW-1-DEADBEEF"), Some(c1));
    assert_eq!(reg.code_for_text(b"ESCROW-3-DEADBEEF"), None);
    assert_eq!(reg.code_for_text(b"ESCROW-1-deadbeef"), None);
}

#[test]
fn yield_formulas() {
    assert_eq!(total_yield(1050, 1000), 50);
    assert_eq!(total_yield(900, 1000), 0);
    assert_eq!(participant_yield(50, 400, 1000), 20);
    assert_eq!(participant_yield(50, 600, 1000), 30);
    assert_eq!(participant_yield(10, 1, 3), 3);
    assert_eq!(participant_yield(50, 0, 0), 0);
    assert_eq!(participant_yield(u64::MAX, u64::MAX, u64::MAX), u64::MAX);
    assert_eq!(withdrawal_total(1050, 400, 1000), 420);
    assert_eq!(withdrawal_total(u64::MAX, 1, 2), 1 + (u64::MAX - 2) / 2);
}

#[test]
fn yield_shares_leave_rounding_residual() {
    let shares: u64 = [1u64, 1, 1].iter().map(|r| participant_yield(10, *r, 3)).sum();
    assert_eq!(shares, 9);
    assert!(shares <= total_yield(13, 3));
}
