//! Properties of the engine that relate several operations or hold of every
//! state, proved over the transition functions of [`crate::engine`].
use vstd::prelude::*;
use crate::engine::{
    cancel_check, cancel_result, create_result, escrow_wf, has_joined, join_result, position_of,
    receipts_of, refunds_of, withdraw_check, withdraw_result, RegistryState, Refund,
};
use crate::types::{EscrowCode, EscrowError, EscrowStatus, Identity};
use crate::yield_split::{lemma_shares_within_yield, shares_sum, total_yield_of};

verus! {

/// A successful `create_escrow` sets the share to `total_amount / num_friends`
/// rounded down, and hands out a code that names no earlier escrow.
pub proof fn lemma_create_share_and_fresh_code(
    m: RegistryState,
    creator: Identity,
    total_amount: u64,
    num_friends: u8,
    created_at: u64,
)
    requires
        m.wf(),
        create_result(m, creator, total_amount, num_friends, created_at).1 is Ok,
    ensures
        ({
            let (next, r) = create_result(m, creator, total_amount, num_friends, created_at);
            let code = r.unwrap();
            &&& num_friends >= 2
            &&& !m.has_escrow(code)
            &&& next.has_escrow(code)
            &&& next.state_of(code).escrow.split_amount == total_amount / (num_friends as u64)
            &&& next.state_of(code).escrow.joined_count == 0
            &&& next.state_of(code).escrow.status == EscrowStatus::Open
        }),
{
}

/// Two successful `create_escrow` calls in a row with identical arguments hand
/// out different codes.
pub proof fn lemma_create_twice_distinct_codes(
    m: RegistryState,
    creator: Identity,
    total_amount: u64,
    num_friends: u8,
    created_at: u64,
)
    requires
        m.wf(),
        create_result(m, creator, total_amount, num_friends, created_at).1 is Ok,
        create_result(
            create_result(m, creator, total_amount, num_friends, created_at).0,
            creator,
            total_amount,
            num_friends,
            created_at,
        ).1 is Ok,
    ensures
        ({
            let (m1, r1) = create_result(m, creator, total_amount, num_friends, created_at);
            let (m2, r2) = create_result(m1, creator, total_amount, num_friends, created_at);
            r1.unwrap() != r2.unwrap()
        }),
{
}

/// In every well-formed registry, distinct escrows carry distinct codes, and an
/// escrow is complete exactly when all its participants have joined.
pub proof fn lemma_codes_unique_and_completion(m: RegistryState, i: int, j: int)
    requires
        m.wf(),
        0 <= i < m.escrows.len(),
        0 <= j < m.escrows.len(),
    ensures
        i != j ==> m.escrows[i].code != m.escrows[j].code,
        (m.escrows[i].escrow.status == EscrowStatus::Complete) == (m.escrows[i].escrow.joined_count
            == m.escrows[i].escrow.num_friends),
        m.escrows[i].escrow.joined_count <= m.escrows[i].escrow.num_friends,
{
    assert(escrow_wf(m.escrows[i]));
    assert(m.escrows[j].code.serial == j + 1);
}

/// A successful `join_escrow` raises the joined count by exactly one, on an
/// escrow that was open, and leaves it complete exactly when the count reaches
/// the number of participants required.
pub proof fn lemma_join_counts_one(
    m: RegistryState,
    caller: Identity,
    code: EscrowCode,
    amount: u64,
    receipts: u64,
)
    requires
        m.wf(),
        join_result(m, caller, code, amount, receipts).1 is Ok,
    ensures
        ({
            let (next, r) = join_result(m, caller, code, amount, receipts);
            let before = m.state_of(code).escrow;
            let after = next.state_of(code).escrow;
            &&& next.has_escrow(code)
            &&& before.status == EscrowStatus::Open
            &&& after.joined_count == before.joined_count + 1
            &&& r == Ok::<u8, EscrowError>(after.joined_count)
            &&& (after.status == EscrowStatus::Complete) == (after.joined_count == after.num_friends)
            &&& after.status != EscrowStatus::Cancelled
        }),
{
    assert(escrow_wf(m.state_of(code)));
}

/// Nobody joins an escrow twice, and nobody joins one that is complete or
/// cancelled: after `caller` joined, a second join by them fails, with
/// `AlreadyJoined` while the escrow is still open.
pub proof fn lemma_no_double_join(
    m: RegistryState,
    caller: Identity,
    code: EscrowCode,
    amount: u64,
    receipts: u64,
    amount2: u64,
    receipts2: u64,
)
    requires
        m.wf(),
        join_result(m, caller, code, amount, receipts).1 is Ok,
    ensures
        ({
            let next = join_result(m, caller, code, amount, receipts).0;
            let (after, r) = join_result(next, caller, code, amount2, receipts2);
            &&& r is Err
            &&& after == next
            &&& next.state_of(code).escrow.status == EscrowStatus::Open ==> r == Err::<u8, EscrowError>(
                EscrowError::AlreadyJoined,
            )
        }),
{
    let next = join_result(m, caller, code, amount, receipts).0;
    let cs = next.state_of(code).contributions;
    assert(cs[cs.len() - 1].participant == caller);
    assert(has_joined(cs, caller));
}

/// No join succeeds on an escrow that is complete or cancelled.
pub proof fn lemma_no_join_when_final(
    m: RegistryState,
    caller: Identity,
    code: EscrowCode,
    amount: u64,
    receipts: u64,
)
    requires
        m.wf(),
        m.has_escrow(code),
        m.state_of(code).escrow.status != EscrowStatus::Open,
    ensures
        join_result(m, caller, code, amount, receipts) == (m, Err::<u8, EscrowError>(
            EscrowError::EscrowAlreadyFinalized,
        )),
{
}

/// `withdraw` succeeds at most once per participant: once it succeeded, the
/// next attempt fails with `AlreadyWithdrawn`, before any amount is owed, and
/// changes nothing.
pub proof fn lemma_withdraw_once(
    m: RegistryState,
    caller: Identity,
    code: EscrowCode,
    balance: u64,
    balance2: u64,
)
    requires
        m.wf(),
        withdraw_result(m, caller, code, balance).1 is Ok,
    ensures
        ({
            let next = withdraw_result(m, caller, code, balance).0;
            &&& withdraw_check(next, caller, code) == Some(EscrowError::AlreadyWithdrawn)
            &&& withdraw_result(next, caller, code, balance2) == (next, Err::<u64, EscrowError>(
                EscrowError::AlreadyWithdrawn,
            ))
        }),
{
    let s = m.state_of(code);
    let next = withdraw_result(m, caller, code, balance).0;
    let cs = s.contributions;
    let p = position_of(cs, caller);
    let cs2 = next.state_of(code).contributions;
    assert(cs2[p].participant == caller);
    assert(has_joined(cs2, caller));
    let p2 = position_of(cs2, caller);
    assert(escrow_wf(s));
    if p2 != p {
        assert(cs2[p2].participant == cs[p2].participant);
        if p2 < p {
            assert(cs[p2].participant != cs[p].participant);
        } else {
            assert(cs[p].participant != cs[p2].participant);
        }
    }
}

/// The yield shares of all participants of a complete escrow add up to at
/// most the total yield, whatever the current receipt balance.
pub proof fn lemma_shares_never_exceed_yield(m: RegistryState, code: EscrowCode, balance: u64)
    requires
        m.wf(),
        m.has_escrow(code),
        m.state_of(code).escrow.status == EscrowStatus::Complete,
    ensures
        ({
            let s = m.state_of(code);
            let baseline = s.escrow.yield_baseline as nat;
            let total = total_yield_of(balance as nat, baseline);
            shares_sum(total, receipts_of(s.contributions), baseline) <= total
        }),
{
    let s = m.state_of(code);
    assert(escrow_wf(s));
    let baseline = s.escrow.yield_baseline as nat;
    let total = total_yield_of(balance as nat, baseline);
    lemma_shares_within_yield(total, receipts_of(s.contributions), baseline);
}

/// `cancel` succeeds only for the creator of an open escrow; the refunds it
/// owes give every participant who joined back exactly the receipts their
/// principal was converted into; and afterwards no join and no withdrawal
/// succeeds on that escrow.
pub proof fn lemma_cancel_refunds_all_and_closes(
    m: RegistryState,
    caller: Identity,
    code: EscrowCode,
    other: Identity,
    amount: u64,
    receipts: u64,
    balance: u64,
)
    requires
        m.wf(),
        cancel_result(m, caller, code).1 is Ok,
    ensures
        ({
            let s = m.state_of(code);
            let next = cancel_result(m, caller, code).0;
            &&& cancel_check(m, caller, code) is None
            &&& caller == s.escrow.creator
            &&& s.escrow.status == EscrowStatus::Open
            &&& refunds_of(s.contributions).len() == s.escrow.joined_count
            &&& forall|k: int|
                0 <= k < s.contributions.len() ==> #[trigger] refunds_of(s.contributions)[k] == (Refund {
                participant: s.contributions[k].participant,
                receipts: s.contributions[k].receipts,
            })
            &&& next.state_of(code).escrow.status == EscrowStatus::Cancelled
            &&& join_result(next, other, code, amount, receipts) == (next, Err::<u8, EscrowError>(
                EscrowError::EscrowAlreadyFinalized,
            ))
            &&& withdraw_result(next, other, code, balance) == (next, Err::<u64, EscrowError>(
                EscrowError::EscrowNotComplete,
            ))
            &&& cancel_result(next, caller, code) == (next, Err::<u8, EscrowError>(
                EscrowError::CannotCancel,
            ))
        }),
{
    assert(escrow_wf(m.state_of(code)));
}

/// A complete escrow can never be cancelled.
pub proof fn lemma_complete_never_cancelled(m: RegistryState, caller: Identity, code: EscrowCode)
    requires
        m.wf(),
        m.has_escrow(code),
        m.state_of(code).escrow.status == EscrowStatus::Complete,
    ensures
        cancel_result(m, caller, code).1 is Err,
        cancel_result(m, caller, code).0 == m,
{
}


/// Complete and cancelled are terminal: no join, withdrawal or cancellation
/// moves an escrow out of either status, and each operation leaves every other
/// escrow as it was.
pub proof fn lemma_terminal_status_kept(
    m: RegistryState,
    caller: Identity,
    code: EscrowCode,
    other: EscrowCode,
    amount: u64,
    receipts: u64,
    balance: u64,
)
    requires
        m.wf(),
        m.has_escrow(code),
        m.has_escrow(other),
        other != code,
    ensures
        ({
            let status = m.state_of(code).escrow.status;
            let joined = join_result(m, caller, code, amount, receipts).0;
            let withdrawn = withdraw_result(m, caller, code, balance).0;
            let cancelled = cancel_result(m, caller, code).0;
            &&& status != EscrowStatus::Open ==> joined.state_of(code).escrow.status == status
            &&& status != EscrowStatus::Open ==> withdrawn.state_of(code).escrow.status == status
            &&& status != EscrowStatus::Open ==> cancelled.state_of(code).escrow.status == status
            &&& joined.state_of(other) == m.state_of(other)
            &&& withdrawn.state_of(other) == m.state_of(other)
            &&& cancelled.state_of(other) == m.state_of(other)
        }),
{
}

} // verus!
