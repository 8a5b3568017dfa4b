//! Text form of escrow codes: `ESCROW-<serial>-<tag>`, with the serial in
//! decimal and the creator fingerprint as eight upper-case hex digits.
use vstd::prelude::*;
use crate::types::EscrowCode;

verus! {

/// The text that starts every escrow code.
pub open spec fn code_prefix() -> Seq<u8> {
    seq![69u8, 83, 67, 82, 79, 87, 45]
}

/// The ASCII digit for `d < 10`.
pub open spec fn decimal_char(d: nat) -> u8 {
    (48 + d) as u8
}

/// The upper-case ASCII hex digit for `d < 16`.
pub open spec fn hex_char(d: nat) -> u8 {
    if d < 10 {
        (48 + d) as u8
    } else {
        (55 + d) as u8
    }
}

/// Decimal digits of `n`, most significant first, without leading zeros.
pub open spec fn decimal_text(n: nat) -> Seq<u8>
    decreases n,
{
    if n < 10 {
        seq![decimal_char(n)]
    } else {
        decimal_text(n / 10).push(decimal_char(n % 10))
    }
}

/// The lowest `w` hex digits of `n`, most significant first.
pub open spec fn hex_text(n: nat, w: nat) -> Seq<u8>
    decreases w,
{
    if w == 0 {
        seq![]
    } else {
        hex_text(n / 16, (w - 1) as nat).push(hex_char(n % 16))
    }
}

/// The text of `code`.
pub open spec fn code_text(code: EscrowCode) -> Seq<u8> {
    code_prefix() + decimal_text(code.serial as nat) + seq![45u8] + hex_text(code.tag as nat, 8)
}

fn push_decimal(out: &mut Vec<u8>, n: u64)
    ensures
        final(out)@ == old(out)@ + decimal_text(n as nat),
    decreases n,
{
    if n >= 10 {
        push_decimal(out, n / 10);
    }
    out.push(48u8 + (n % 10) as u8);
    assert(out@ =~= old(out)@ + decimal_text(n as nat));
}

fn push_hex(out: &mut Vec<u8>, n: u32, w: u32)
    ensures
        final(out)@ == old(out)@ + hex_text(n as nat, w as nat),
    decreases w,
{
    if w == 0 {
        assert(out@ =~= old(out)@ + hex_text(n as nat, 0));
        return;
    }
    push_hex(out, n / 16, w - 1);
    let d = (n % 16) as u8;
    out.push(if d < 10 { 48u8 + d } else { 55u8 + d });
    assert(out@ =~= old(out)@ + hex_text(n as nat, w as nat));
}

/// The text of `code`, as ASCII bytes: `ESCROW-`, the serial in decimal, `-`,
/// and the tag as eight upper-case hex digits.
pub fn escrow_code_text(code: EscrowCode) -> (r: Vec<u8>)
    ensures
        r@ == code_text(code),
{
    let mut out: Vec<u8> = vec![69u8, 83, 67, 82, 79, 87, 45];
    assert(out@ =~= code_prefix());
    push_decimal(&mut out, code.serial);
    out.push(45u8);
    push_hex(&mut out, code.tag, 8);
    assert(out@ =~= code_text(code));
    out
}

} // verus!
