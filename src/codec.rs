//! Fixed-layout binary records for the persistence store.
//!
//! The store keeps byte strings and has no schema, so the layout below is the
//! only contract between writer and reader. Multi-byte integers are
//! little-endian; flags and enums take one byte.
//!
//! Escrow record, 76 bytes:
//!
//! | offset | width | field                  |
//! |--------|-------|------------------------|
//! | 0      | 1     | layout version (1)     |
//! | 1      | 32    | creator identity       |
//! | 33     | 8     | total amount           |
//! | 41     | 8     | split amount           |
//! | 49     | 1     | participants required  |
//! | 50     | 1     | participants joined    |
//! | 51     | 1     | status (0 open, 1 complete, 2 cancelled) |
//! | 52     | 8     | accumulated receipts   |
//! | 60     | 8     | yield baseline         |
//! | 68     | 8     | creation time          |
//!
//! Contribution record, 50 bytes:
//!
//! | offset | width | field                  |
//! |--------|-------|------------------------|
//! | 0      | 1     | layout version (1)     |
//! | 1      | 32    | participant identity   |
//! | 33     | 8     | principal              |
//! | 41     | 8     | receipts               |
//! | 49     | 1     | withdrawn (0 or 1)     |
use vstd::prelude::*;
use crate::types::{Contribution, Escrow, EscrowStatus, Identity};

verus! {

/// Version byte that starts every record of this layout.
pub const LAYOUT_VERSION: u8 = 1;

/// Length of an escrow record.
pub const ESCROW_RECORD_LEN: usize = 76;

/// Length of a contribution record.
pub const CONTRIBUTION_RECORD_LEN: usize = 50;

/// `256` to the power `w`.
pub open spec fn pow256(w: nat) -> nat
    decreases w,
{
    if w == 0 {
        1
    } else {
        256 * pow256((w - 1) as nat)
    }
}

/// The lowest `w` bytes of `v`, least significant first.
pub open spec fn le_bytes(v: nat, w: nat) -> Seq<u8>
    decreases w,
{
    if w == 0 {
        seq![]
    } else {
        seq![(v % 256) as u8] + le_bytes(v / 256, (w - 1) as nat)
    }
}

/// The number whose little-endian bytes are `s`.
pub open spec fn le_value(s: Seq<u8>) -> nat
    decreases s.len(),
{
    if s.len() == 0 {
        0
    } else {
        (s[0] + 256 * le_value(s.drop_first())) as nat
    }
}

/// One byte for a status.
pub open spec fn status_byte(s: EscrowStatus) -> u8 {
    match s {
        EscrowStatus::Open => 0,
        EscrowStatus::Complete => 1,
        EscrowStatus::Cancelled => 2,
    }
}

/// The record of an escrow.
pub open spec fn escrow_bytes(e: Escrow) -> Seq<u8> {
    seq![LAYOUT_VERSION] + e.creator.bytes@ + le_bytes(e.total_amount as nat, 8) + le_bytes(
        e.split_amount as nat,
        8,
    ) + seq![e.num_friends, e.joined_count, status_byte(e.status)] + le_bytes(
        e.accumulated_receipts as nat,
        8,
    ) + le_bytes(e.yield_baseline as nat, 8) + le_bytes(e.created_at as nat, 8)
}

/// The record of a contribution.
pub open spec fn contribution_bytes(c: Contribution) -> Seq<u8> {
    seq![LAYOUT_VERSION] + c.participant.bytes@ + le_bytes(c.principal as nat, 8) + le_bytes(
        c.receipts as nat,
        8,
    ) + seq![if c.withdrawn { 1u8 } else { 0u8 }]
}

/// Whether `b` has the shape of an escrow record.
pub open spec fn valid_escrow_bytes(b: Seq<u8>) -> bool {
    &&& b.len() == ESCROW_RECORD_LEN
    &&& b[0] == LAYOUT_VERSION
    &&& b[51] <= 2
}

/// Whether `b` has the shape of a contribution record.
pub open spec fn valid_contribution_bytes(b: Seq<u8>) -> bool {
    &&& b.len() == CONTRIBUTION_RECORD_LEN
    &&& b[0] == LAYOUT_VERSION
    &&& b[49] <= 1
}

proof fn lemma_le_bytes_len(v: nat, w: nat)
    ensures
        le_bytes(v, w).len() == w,
    decreases w,
{
    if w > 0 {
        lemma_le_bytes_len(v / 256, (w - 1) as nat);
    }
}

proof fn lemma_le_value_of_bytes(v: nat, w: nat)
    requires
        v < pow256(w),
    ensures
        le_value(le_bytes(v, w)) == v,
    decreases w,
{
    if w > 0 {
        let rest = le_bytes(v / 256, (w - 1) as nat);
        let p = pow256((w - 1) as nat);
        assert(v / 256 < p) by (nonlinear_arith)
            requires
                v < 256 * p,
        ;
        lemma_le_value_of_bytes(v / 256, (w - 1) as nat);
        let s = le_bytes(v, w);
        assert(s.drop_first() =~= rest);
        assert(s[0] == v % 256);
        assert(v % 256 + 256 * (v / 256) == v) by (nonlinear_arith);
    }
}

/// Eight little-endian bytes determine a 64-bit number.
proof fn lemma_le_bytes_injective(a: u64, b: u64)
    requires
        le_bytes(a as nat, 8) == le_bytes(b as nat, 8),
    ensures
        a == b,
{
    reveal_with_fuel(pow256, 9);
    assert(pow256(8) == 0x1_0000_0000_0000_0000nat);
    lemma_le_value_of_bytes(a as nat, 8);
    lemma_le_value_of_bytes(b as nat, 8);
}

/// Appends the eight little-endian bytes of `v` to `out`.
fn push_u64_le(out: &mut Vec<u8>, v: u64)
    ensures
        final(out)@ == old(out)@ + le_bytes(v as nat, 8),
{
    let mut x: u64 = v;
    let mut i: usize = 0;
    while i < 8
        invariant
            0 <= i <= 8,
            old(out)@ + le_bytes(v as nat, 8) == out@ + le_bytes(x as nat, (8 - i) as nat),
        decreases 8 - i,
    {
        let ghost prev = out@;
        let ghost x0 = x;
        out.push((x % 256) as u8);
        x = x / 256;
        assert(le_bytes(x0 as nat, (8 - i) as nat) == seq![(x0 % 256) as u8] + le_bytes(
            x as nat,
            (8 - i - 1) as nat,
        ));
        assert(out@ + le_bytes(x as nat, (8 - i - 1) as nat) =~= prev + le_bytes(
            x0 as nat,
            (8 - i) as nat,
        ));
        i = i + 1;
    }
    assert(out@ + le_bytes(x as nat, 0) =~= out@);
}

/// The 64-bit number stored little-endian in `b` at `at .. at + 8`.
fn read_u64_le(b: &[u8], at: usize) -> (r: u64)
    requires
        at + 8 <= b@.len(),
    ensures
        le_bytes(r as nat, 8) == b@.subrange(at as int, at + 8),
{
    let len = b.len();
    let mut acc: u64 = 0;
    let mut i: usize = 0;
    while i < 8
        invariant
            0 <= i <= 8,
            at + 8 <= b@.len(),
            len == b@.len(),
            acc < pow256(i as nat),
            le_bytes(acc as nat, i as nat) == b@.subrange(at + 8 - i, at + 8),
        decreases 8 - i,
    {
        let byte = b[at + (7 - i)];
        let ghost acc0 = acc;
        let ghost p = pow256(i as nat);
        assert(p <= 0x100_0000_0000_0000nat) by {
            reveal_with_fuel(pow256, 8);
            lemma_pow256_monotone(i as nat, 7);
        }
        assert(acc0 * 256 + byte < 256 * p) by (nonlinear_arith)
            requires
                acc0 < p,
                byte < 256,
        ;
        acc = acc * 256 + byte as u64;
        assert(acc as nat % 256 == byte as nat && acc as nat / 256 == acc0 as nat) by (nonlinear_arith)
            requires
                acc == acc0 * 256 + byte,
                byte < 256,
        ;
        assert(le_bytes(acc as nat, (i + 1) as nat) =~= b@.subrange(at + 8 - (i + 1), at + 8));
        i = i + 1;
    }
    acc
}

proof fn lemma_pow256_monotone(a: nat, b: nat)
    requires
        a <= b,
    ensures
        pow256(a) <= pow256(b),
    decreases b,
{
    if a < b {
        lemma_pow256_monotone(a, (b - 1) as nat);
    }
}


/// Appends the 32 bytes of `id` to `out`.
fn push_identity(out: &mut Vec<u8>, id: &Identity)
    ensures
        final(out)@ == old(out)@ + id.bytes@,
{
    let mut i: usize = 0;
    while i < 32
        invariant
            0 <= i <= 32,
            out@ == old(out)@ + id.bytes@.take(i as int),
        decreases 32 - i,
    {
        out.push(id.bytes[i]);
        i = i + 1;
        assert(out@ =~= old(out)@ + id.bytes@.take(i as int));
    }
    assert(id.bytes@.take(32) =~= id.bytes@);
}

/// The identity stored in `b` at `at .. at + 32`.
fn read_identity(b: &[u8], at: usize) -> (r: Identity)
    requires
        at + 32 <= b@.len(),
    ensures
        r.bytes@ == b@.subrange(at as int, at + 32),
{
    let len = b.len();
    let mut bytes: [u8; 32] = [0u8; 32];
    let mut i: usize = 0;
    while i < 32
        invariant
            0 <= i <= 32,
            at + 32 <= b@.len(),
            len == b@.len(),
            forall|j: int| 0 <= j < i ==> bytes@[j] == b@[at + j],
        decreases 32 - i,
    {
        bytes[i] = b[at + i];
        i = i + 1;
    }
    assert(bytes@ =~= b@.subrange(at as int, at + 32));
    Identity { bytes }
}

fn status_to_byte(s: EscrowStatus) -> (r: u8)
    ensures
        r == status_byte(s),
{
    match s {
        EscrowStatus::Open => 0,
        EscrowStatus::Complete => 1,
        EscrowStatus::Cancelled => 2,
    }
}

/// The record of `escrow`.
pub fn serialize_escrow(escrow: &Escrow) -> (r: Vec<u8>)
    ensures
        r@ == escrow_bytes(*escrow),
{
    let mut out: Vec<u8> = Vec::new();
    out.push(LAYOUT_VERSION);
    push_identity(&mut out, &escrow.creator);
    push_u64_le(&mut out, escrow.total_amount);
    push_u64_le(&mut out, escrow.split_amount);
    out.push(escrow.num_friends);
    out.push(escrow.joined_count);
    out.push(status_to_byte(escrow.status));
    push_u64_le(&mut out, escrow.accumulated_receipts);
    push_u64_le(&mut out, escrow.yield_baseline);
    push_u64_le(&mut out, escrow.created_at);
    assert(out@ =~= escrow_bytes(*escrow));
    out
}

/// The escrow stored in `bytes`, or `None` when `bytes` is no escrow record.
pub fn deserialize_escrow(bytes: &[u8]) -> (r: Option<Escrow>)
    ensures
        r is Some == valid_escrow_bytes(bytes@),
        r is Some ==> escrow_bytes(r.unwrap()) == bytes@,
{
    if bytes.len() != ESCROW_RECORD_LEN || bytes[0] != LAYOUT_VERSION || bytes[51] > 2 {
        return None;
    }
    let creator = read_identity(bytes, 1);
    let total_amount = read_u64_le(bytes, 33);
    let split_amount = read_u64_le(bytes, 41);
    let status = if bytes[51] == 0 {
        EscrowStatus::Open
    } else if bytes[51] == 1 {
        EscrowStatus::Complete
    } else {
        EscrowStatus::Cancelled
    };
    let accumulated_receipts = read_u64_le(bytes, 52);
    let yield_baseline = read_u64_le(bytes, 60);
    let created_at = read_u64_le(bytes, 68);
    let e = Escrow {
        creator,
        total_amount,
        split_amount,
        num_friends: bytes[49],
        joined_count: bytes[50],
        status,
        accumulated_receipts,
        yield_baseline,
        created_at,
    };
    assert(escrow_bytes(e) =~= bytes@);
    Some(e)
}

/// The record of `c`.
pub fn serialize_contribution(c: &Contribution) -> (r: Vec<u8>)
    ensures
        r@ == contribution_bytes(*c),
{
    let mut out: Vec<u8> = Vec::new();
    out.push(LAYOUT_VERSION);
    push_identity(&mut out, &c.participant);
    push_u64_le(&mut out, c.principal);
    push_u64_le(&mut out, c.receipts);
    out.push(if c.withdrawn { 1u8 } else { 0u8 });
    assert(out@ =~= contribution_bytes(*c));
    out
}

/// The contribution stored in `bytes`, or `None` when `bytes` is no
/// contribution record.
pub fn deserialize_contribution(bytes: &[u8]) -> (r: Option<Contribution>)
    ensures
        r is Some == valid_contribution_bytes(bytes@),
        r is Some ==> contribution_bytes(r.unwrap()) == bytes@,
{
    if bytes.len() != CONTRIBUTION_RECORD_LEN || bytes[0] != LAYOUT_VERSION || bytes[49] > 1 {
        return None;
    }
    let participant = read_identity(bytes, 1);
    let principal = read_u64_le(bytes, 33);
    let receipts = read_u64_le(bytes, 41);
    let c = Contribution { participant, principal, receipts, withdrawn: bytes[49] == 1 };
    assert(contribution_bytes(c) =~= bytes@);
    Some(c)
}


proof fn lemma_identity_from_bytes(a: Identity, b: Identity)
    requires
        a.bytes@ == b.bytes@,
    ensures
        a == b,
{
    assert(a.bytes =~= b.bytes);
}

/// Every escrow record has the shape `deserialize_escrow` accepts, and no two
/// escrows share a record: reading back the record of an escrow gives that
/// escrow.
pub proof fn lemma_escrow_record_round_trip(e: Escrow, other: Escrow)
    ensures
        valid_escrow_bytes(escrow_bytes(e)),
        escrow_bytes(other) == escrow_bytes(e) ==> other == e,
{
    let b = escrow_bytes(e);
    lemma_le_bytes_len(e.total_amount as nat, 8);
    lemma_le_bytes_len(e.split_amount as nat, 8);
    lemma_le_bytes_len(e.accumulated_receipts as nat, 8);
    lemma_le_bytes_len(e.yield_baseline as nat, 8);
    lemma_le_bytes_len(e.created_at as nat, 8);
    assert(b[51] == status_byte(e.status));
    if escrow_bytes(other) == b {
        let o = escrow_bytes(other);
        lemma_le_bytes_len(other.total_amount as nat, 8);
        lemma_le_bytes_len(other.split_amount as nat, 8);
        lemma_le_bytes_len(other.accumulated_receipts as nat, 8);
        lemma_le_bytes_len(other.yield_baseline as nat, 8);
        lemma_le_bytes_len(other.created_at as nat, 8);
        assert(o.subrange(1, 33) =~= other.creator.bytes@);
        assert(b.subrange(1, 33) =~= e.creator.bytes@);
        lemma_identity_from_bytes(other.creator, e.creator);
        assert(o.subrange(33, 41) =~= le_bytes(other.total_amount as nat, 8));
        assert(b.subrange(33, 41) =~= le_bytes(e.total_amount as nat, 8));
        lemma_le_bytes_injective(other.total_amount, e.total_amount);
        assert(o.subrange(41, 49) =~= le_bytes(other.split_amount as nat, 8));
        assert(b.subrange(41, 49) =~= le_bytes(e.split_amount as nat, 8));
        lemma_le_bytes_injective(other.split_amount, e.split_amount);
        assert(o[49] == other.num_friends && b[49] == e.num_friends);
        assert(o[50] == other.joined_count && b[50] == e.joined_count);
        assert(o[51] == status_byte(other.status));
        assert(o.subrange(52, 60) =~= le_bytes(other.accumulated_receipts as nat, 8));
        assert(b.subrange(52, 60) =~= le_bytes(e.accumulated_receipts as nat, 8));
        lemma_le_bytes_injective(other.accumulated_receipts, e.accumulated_receipts);
        assert(o.subrange(60, 68) =~= le_bytes(other.yield_baseline as nat, 8));
        assert(b.subrange(60, 68) =~= le_bytes(e.yield_baseline as nat, 8));
        lemma_le_bytes_injective(other.yield_baseline, e.yield_baseline);
        assert(o.subrange(68, 76) =~= le_bytes(other.created_at as nat, 8));
        assert(b.subrange(68, 76) =~= le_bytes(e.created_at as nat, 8));
        lemma_le_bytes_injective(other.created_at, e.created_at);
    }
}

/// Every contribution record has the shape `deserialize_contribution`
/// accepts, and reading back the record of a contribution gives that
/// contribution.
pub proof fn lemma_contribution_record_round_trip(c: Contribution, other: Contribution)
    ensures
        valid_contribution_bytes(contribution_bytes(c)),
        contribution_bytes(other) == contribution_bytes(c) ==> other == c,
{
    let b = contribution_bytes(c);
    lemma_le_bytes_len(c.principal as nat, 8);
    lemma_le_bytes_len(c.receipts as nat, 8);
    if contribution_bytes(other) == b {
        let o = contribution_bytes(other);
        lemma_le_bytes_len(other.principal as nat, 8);
        lemma_le_bytes_len(other.receipts as nat, 8);
        assert(o.subrange(1, 33) =~= other.participant.bytes@);
        assert(b.subrange(1, 33) =~= c.participant.bytes@);
        lemma_identity_from_bytes(other.participant, c.participant);
        assert(o.subrange(33, 41) =~= le_bytes(other.principal as nat, 8));
        assert(b.subrange(33, 41) =~= le_bytes(c.principal as nat, 8));
        lemma_le_bytes_injective(other.principal, c.principal);
        assert(o.subrange(41, 49) =~= le_bytes(other.receipts as nat, 8));
        assert(b.subrange(41, 49) =~= le_bytes(c.receipts as nat, 8));
        lemma_le_bytes_injective(other.receipts, c.receipts);
        assert(o[49] == b[49]);
    }
}

} // verus!
