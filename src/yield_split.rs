//! Proportional split of accrued yield among the participants of an escrow.
//!
//! Yield is split by receipts, not by principal: receipts already carry each
//! contribution's entry price. Division always rounds down, so the shares never
//! add up to more than the yield; the remainder stays unclaimed.
use vstd::prelude::*;

verus! {

/// Growth of the receipt balance over the baseline; a fall counts as zero.
pub open spec fn total_yield_of(balance: nat, baseline: nat) -> nat {
    if balance > baseline {
        (balance - baseline) as nat
    } else {
        0
    }
}

/// A participant's share of `total_yield`: in proportion to their receipts
/// against the baseline, rounded down; zero when the baseline is zero.
pub open spec fn participant_yield_of(total_yield: nat, receipts: nat, baseline: nat) -> nat {
    if baseline > 0 {
        total_yield * receipts / baseline
    } else {
        0
    }
}

/// Sum of the receipts in `rs`.
pub open spec fn receipts_sum(rs: Seq<u64>) -> nat
    decreases rs.len(),
{
    if rs.len() == 0 {
        0
    } else {
        (receipts_sum(rs.drop_last()) + rs.last()) as nat
    }
}

/// Sum of the shares of `total_yield` for the receipts in `rs`.
pub open spec fn shares_sum(total_yield: nat, rs: Seq<u64>, baseline: nat) -> nat
    decreases rs.len(),
{
    if rs.len() == 0 {
        0
    } else {
        shares_sum(total_yield, rs.drop_last(), baseline) + participant_yield_of(
            total_yield,
            rs.last() as nat,
            baseline,
        )
    }
}

/// The yield accrued on `baseline` receipts that are now worth `balance`.
pub fn total_yield(balance: u64, baseline: u64) -> (r: u64)
    ensures
        r == total_yield_of(balance as nat, baseline as nat),
{
    balance.saturating_sub(baseline)
}

/// A participant's share of `total_yield`, for `receipts` out of `baseline`.
pub fn participant_yield(total_yield: u64, receipts: u64, baseline: u64) -> (r: u64)
    requires
        receipts <= baseline,
    ensures
        r == participant_yield_of(total_yield as nat, receipts as nat, baseline as nat),
        r <= total_yield,
{
    if baseline == 0 {
        return 0;
    }
    let y = total_yield as u128;
    let rc = receipts as u128;
    let b = baseline as u128;
    assert(y * rc <= y * b) by (nonlinear_arith)
        requires
            rc <= b,
    ;
    assert(y * b <= 0xffff_ffff_ffff_ffffu128 * 0xffff_ffff_ffff_ffffu128) by (nonlinear_arith)
        requires
            y <= 0xffff_ffff_ffff_ffffu128,
            b <= 0xffff_ffff_ffff_ffffu128,
    ;
    let q = y * rc / b;
    assert(q <= y) by (nonlinear_arith)
        requires
            q as int == (y * rc) / (b as int),
            y * rc <= y * b,
            b > 0,
    ;
    q as u64
}

/// What a participant with `receipts` out of `baseline` takes out when the
/// escrow's receipt balance is `balance`: the receipts plus their yield share.
pub fn withdrawal_total(balance: u64, receipts: u64, baseline: u64) -> (r: u64)
    requires
        receipts <= baseline,
    ensures
        r == receipts + participant_yield_of(
            total_yield_of(balance as nat, baseline as nat),
            receipts as nat,
            baseline as nat,
        ),
{
    let ty = total_yield(balance, baseline);
    let py = participant_yield(ty, receipts, baseline);
    receipts + py
}

proof fn lemma_share_times_baseline(total_yield: nat, receipts: nat, baseline: nat)
    requires
        baseline > 0,
    ensures
        participant_yield_of(total_yield, receipts, baseline) * baseline <= total_yield * receipts,
{
    let p = total_yield * receipts;
    vstd::arithmetic::div_mod::lemma_fundamental_div_mod(p as int, baseline as int);
    assert((p / baseline) * baseline <= p) by (nonlinear_arith)
        requires
            p == baseline * (p / baseline) + p % baseline,
            p % baseline >= 0,
    ;
}

proof fn lemma_shares_scaled(total_yield: nat, rs: Seq<u64>, baseline: nat)
    requires
        baseline > 0,
    ensures
        shares_sum(total_yield, rs, baseline) * baseline <= total_yield * receipts_sum(rs),
    decreases rs.len(),
{
    if rs.len() > 0 {
        let init = rs.drop_last();
        lemma_shares_scaled(total_yield, init, baseline);
        lemma_share_times_baseline(total_yield, rs.last() as nat, baseline);
        let a = shares_sum(total_yield, init, baseline);
        let s = participant_yield_of(total_yield, rs.last() as nat, baseline);
        let ri = receipts_sum(init);
        let r: nat = rs.last() as nat;
        assert((a + s) * baseline <= total_yield * (ri + r)) by (nonlinear_arith)
            requires
                a * baseline <= total_yield * ri,
                s * baseline <= total_yield * r,
        ;
        assert(shares_sum(total_yield, rs, baseline) == a + s);
        assert(receipts_sum(rs) == ri + r);
    } else {
        assert(shares_sum(total_yield, rs, baseline) * baseline == 0) by (nonlinear_arith)
            requires
                shares_sum(total_yield, rs, baseline) == 0,
        ;
    }
}

/// Rounding down never over-distributes: when the receipts of all participants
/// add up to at most the baseline, their yield shares add up to at most the
/// total yield.
pub proof fn lemma_shares_within_yield(total_yield: nat, rs: Seq<u64>, baseline: nat)
    requires
        receipts_sum(rs) <= baseline,
    ensures
        shares_sum(total_yield, rs, baseline) <= total_yield,
    decreases rs.len(),
{
    if baseline == 0 {
        lemma_zero_shares(total_yield, rs, baseline);
    } else {
        lemma_shares_scaled(total_yield, rs, baseline);
        let s = shares_sum(total_yield, rs, baseline);
        let sum = receipts_sum(rs);
        assert(s <= total_yield) by (nonlinear_arith)
            requires
                s * baseline <= total_yield * sum,
                sum <= baseline,
                baseline > 0,
        ;
    }
}

proof fn lemma_zero_shares(total_yield: nat, rs: Seq<u64>, baseline: nat)
    requires
        baseline == 0,
    ensures
        shares_sum(total_yield, rs, baseline) == 0,
    decreases rs.len(),
{
    if rs.len() > 0 {
        lemma_zero_shares(total_yield, rs.drop_last(), baseline);
    }
}

} // verus!
