//! The escrow registry and the engine's operations on it.
//!
//! Every operation is a step from one registry state to the next, stated as a
//! spec function over [`RegistryState`]. Work outside the engine (moving value,
//! converting it to receipts and back, reading a receipt balance) is done by the
//! caller between steps: a `check_*` or planning step says whether and what to
//! move, and the recording step takes the outside result as an argument.
use vstd::prelude::*;
use crate::code_text::{code_text, escrow_code_text};
use crate::types::{
    fingerprint, generate_escrow_code, Contribution, Escrow, EscrowCode, EscrowError, EscrowEvent,
    EscrowStatus, Identity,
};
use crate::yield_split::{
    participant_yield_of, receipts_sum, total_yield_of, withdrawal_total,
};

verus! {

/// Model of one escrow: its code, its record, and its contributions in the
/// order in which participants joined.
pub struct EscrowState {
    pub code: EscrowCode,
    pub escrow: Escrow,
    pub contributions: Seq<Contribution>,
}

/// Model of the whole registry.
pub struct RegistryState {
    /// Number of escrows created so far; the last code handed out carries it.
    pub counter: u64,
    /// Escrows in order of creation: the one with serial `k` is at `k - 1`.
    pub escrows: Seq<EscrowState>,
    /// Event log, oldest first.
    pub events: Seq<EscrowEvent>,
}

/// A refund owed on cancellation: the participant's receipts are converted
/// back to principal and paid to the participant's account.
#[derive(Clone, Copy, Debug, PartialEq, Eq)]
pub struct Refund {
    pub participant: Identity,
    pub receipts: u64,
}

/// Receipts of each contribution, in order.
pub open spec fn receipts_of(cs: Seq<Contribution>) -> Seq<u64> {
    cs.map_values(|c: Contribution| c.receipts)
}

/// Refunds owed to each contributor, in join order.
pub open spec fn refunds_of(cs: Seq<Contribution>) -> Seq<Refund> {
    cs.map_values(|c: Contribution| Refund { participant: c.participant, receipts: c.receipts })
}

/// Whether `p` has a contribution in `cs`.
pub open spec fn has_joined(cs: Seq<Contribution>, p: Identity) -> bool {
    exists|i: int| 0 <= i < cs.len() && #[trigger] cs[i].participant == p
}

/// Position of `p`'s contribution in `cs` (meaningful when `has_joined`).
pub open spec fn position_of(cs: Seq<Contribution>, p: Identity) -> int {
    choose|i: int| 0 <= i < cs.len() && #[trigger] cs[i].participant == p
}

/// Invariant of a single escrow.
pub open spec fn escrow_wf(s: EscrowState) -> bool {
    let e = s.escrow;
    let cs = s.contributions;
    &&& e.num_friends >= 2
    &&& e.split_amount == e.total_amount / (e.num_friends as u64)
    &&& e.joined_count == cs.len()
    &&& e.joined_count <= e.num_friends
    &&& (e.status == EscrowStatus::Complete) == (e.joined_count == e.num_friends)
    &&& e.accumulated_receipts == receipts_sum(receipts_of(cs))
    &&& e.yield_baseline == (if e.status == EscrowStatus::Complete {
        e.accumulated_receipts
    } else {
        0
    })
    &&& forall|i: int| 0 <= i < cs.len() ==> (#[trigger] cs[i]).principal == e.split_amount
    &&& forall|i: int|
        0 <= i < cs.len() && (#[trigger] cs[i]).withdrawn ==> e.status == EscrowStatus::Complete
    &&& forall|i: int, j: int|
        0 <= i < j < cs.len() ==> (#[trigger] cs[i]).participant != (#[trigger] cs[j]).participant
}

impl RegistryState {
    /// Invariant of the registry: escrow `k - 1` carries serial `k` and its
    /// creator's fingerprint, and each escrow is well formed.
    pub open spec fn wf(self) -> bool {
        &&& self.escrows.len() == self.counter
        &&& forall|i: int|
            0 <= i < self.escrows.len() ==> (#[trigger] self.escrows[i]).code == (EscrowCode {
                serial: (i + 1) as u64,
                tag: fingerprint(self.escrows[i].escrow.creator),
            }) && escrow_wf(self.escrows[i])
    }

    /// Whether `code` names an escrow of this registry.
    pub open spec fn has_escrow(self, code: EscrowCode) -> bool {
        &&& 1 <= code.serial <= self.escrows.len()
        &&& self.escrows[code.serial - 1].code == code
    }

    /// The escrow that `code` names (meaningful when `has_escrow`).
    pub open spec fn state_of(self, code: EscrowCode) -> EscrowState {
        self.escrows[code.serial - 1]
    }

    /// The registry with the escrow that `code` names replaced by `s`, and `evs`
    /// appended to the log.
    pub open spec fn with_escrow(
        self,
        code: EscrowCode,
        s: EscrowState,
        evs: Seq<EscrowEvent>,
    ) -> RegistryState {
        RegistryState {
            counter: self.counter,
            escrows: self.escrows.update(code.serial - 1, s),
            events: self.events + evs,
        }
    }
}


/// Outcome of `create_escrow`: the next registry state and the result.
pub open spec fn create_result(
    m: RegistryState,
    creator: Identity,
    total_amount: u64,
    num_friends: u8,
    created_at: u64,
) -> (RegistryState, Result<EscrowCode, EscrowError>) {
    if num_friends < 2 {
        (m, Err(EscrowError::InsufficientParticipants))
    } else if m.counter == u64::MAX {
        (m, Err(EscrowError::CapacityExceeded))
    } else {
        let code = EscrowCode { serial: (m.counter + 1) as u64, tag: fingerprint(creator) };
        let escrow = Escrow {
            creator,
            total_amount,
            split_amount: total_amount / (num_friends as u64),
            num_friends,
            joined_count: 0,
            status: EscrowStatus::Open,
            accumulated_receipts: 0,
            yield_baseline: 0,
            created_at,
        };
        let next = RegistryState {
            counter: (m.counter + 1) as u64,
            escrows: m.escrows.push(EscrowState { code, escrow, contributions: seq![] }),
            events: m.events.push(
                EscrowEvent::EscrowCreated { code, creator, total_amount, num_friends },
            ),
        };
        (next, Ok(code))
    }
}

/// The first validation failure of `join_escrow`, if any, in order: the escrow
/// exists, it is open, the caller has not joined it, and the amount is the share.
pub open spec fn join_check(
    m: RegistryState,
    caller: Identity,
    code: EscrowCode,
    amount: u64,
) -> Option<EscrowError> {
    if !m.has_escrow(code) {
        Some(EscrowError::EscrowNotFound)
    } else if m.state_of(code).escrow.status != EscrowStatus::Open {
        Some(EscrowError::EscrowAlreadyFinalized)
    } else if has_joined(m.state_of(code).contributions, caller) {
        Some(EscrowError::AlreadyJoined)
    } else if amount != m.state_of(code).escrow.split_amount {
        Some(EscrowError::IncorrectAmount)
    } else {
        None
    }
}

/// The escrow `s` after `caller` joined it paying `amount` converted into
/// `receipts`; the last share due completes it and fixes its yield baseline.
pub open spec fn joined_state(s: EscrowState, caller: Identity, amount: u64, receipts: u64) -> EscrowState {
    let e = s.escrow;
    let joined = (e.joined_count + 1) as u8;
    let accumulated = (e.accumulated_receipts + receipts) as u64;
    let full = joined == e.num_friends;
    EscrowState {
        code: s.code,
        escrow: Escrow {
            joined_count: joined,
            accumulated_receipts: accumulated,
            status: if full { EscrowStatus::Complete } else { EscrowStatus::Open },
            yield_baseline: if full { accumulated } else { 0 },
            ..e
        },
        contributions: s.contributions.push(
            Contribution { participant: caller, principal: amount, receipts, withdrawn: false },
        ),
    }
}

/// Events logged when `caller` joins the escrow `s`, which becomes `next`.
pub open spec fn join_events(next: EscrowState, caller: Identity) -> Seq<EscrowEvent> {
    let joined = EscrowEvent::ParticipantJoined {
        code: next.code,
        participant: caller,
        joined_count: next.escrow.joined_count,
    };
    if next.escrow.status == EscrowStatus::Complete {
        let completed = EscrowEvent::EscrowCompleted {
            code: next.code,
            yield_baseline: next.escrow.yield_baseline,
        };
        seq![joined, completed]
    } else {
        seq![joined]
    }
}

/// Outcome of `join_escrow`: the next registry state and the result.
pub open spec fn join_result(
    m: RegistryState,
    caller: Identity,
    code: EscrowCode,
    amount: u64,
    receipts: u64,
) -> (RegistryState, Result<u8, EscrowError>) {
    match join_check(m, caller, code, amount) {
        Some(err) => (m, Err(err)),
        None => if m.state_of(code).escrow.accumulated_receipts + receipts > u64::MAX {
            (m, Err(EscrowError::CapacityExceeded))
        } else {
            let next = joined_state(m.state_of(code), caller, amount, receipts);
            (m.with_escrow(code, next, join_events(next, caller)), Ok(next.escrow.joined_count))
        },
    }
}

/// The first validation failure of `withdraw`, if any, in order: the escrow
/// exists, it is complete, the caller contributed, and has not withdrawn yet.
pub open spec fn withdraw_check(
    m: RegistryState,
    caller: Identity,
    code: EscrowCode,
) -> Option<EscrowError> {
    if !m.has_escrow(code) {
        Some(EscrowError::EscrowNotFound)
    } else if m.state_of(code).escrow.status != EscrowStatus::Complete {
        Some(EscrowError::EscrowNotComplete)
    } else if !has_joined(m.state_of(code).contributions, caller) {
        Some(EscrowError::ParticipantNotFound)
    } else if contribution_of(m.state_of(code), caller).withdrawn {
        Some(EscrowError::AlreadyWithdrawn)
    } else {
        None
    }
}

/// `caller`'s contribution to the escrow `s` (meaningful when they joined it).
pub open spec fn contribution_of(s: EscrowState, caller: Identity) -> Contribution {
    s.contributions[position_of(s.contributions, caller)]
}

/// What `caller` takes out of the escrow `s` when its receipt balance is
/// `balance`: their receipts plus their share of the yield over the baseline.
pub open spec fn withdrawal_of(s: EscrowState, caller: Identity, balance: u64) -> nat {
    let c = contribution_of(s, caller);
    let baseline = s.escrow.yield_baseline as nat;
    let total = total_yield_of(balance as nat, baseline);
    (c.receipts + participant_yield_of(total, c.receipts as nat, baseline)) as nat
}

/// The escrow `s` once `caller` has withdrawn.
pub open spec fn withdrawn_state(s: EscrowState, caller: Identity) -> EscrowState {
    EscrowState {
        contributions: s.contributions.update(
            position_of(s.contributions, caller),
            Contribution { withdrawn: true, ..contribution_of(s, caller) },
        ),
        ..s
    }
}

/// Outcome of `withdraw`: the next registry state and the amount paid out.
pub open spec fn withdraw_result(
    m: RegistryState,
    caller: Identity,
    code: EscrowCode,
    balance: u64,
) -> (RegistryState, Result<u64, EscrowError>) {
    match withdraw_check(m, caller, code) {
        Some(err) => (m, Err(err)),
        None => {
            let amount = withdrawal_of(m.state_of(code), caller, balance) as u64;
            let ev = EscrowEvent::WithdrawalMade { code, participant: caller, amount };
            (m.with_escrow(code, withdrawn_state(m.state_of(code), caller), seq![ev]), Ok(amount))
        },
    }
}

/// The first validation failure of `cancel`, if any, in order: the escrow
/// exists, the caller created it, and it is still open.
pub open spec fn cancel_check(m: RegistryState, caller: Identity, code: EscrowCode) -> Option<EscrowError> {
    if !m.has_escrow(code) {
        Some(EscrowError::EscrowNotFound)
    } else if m.state_of(code).escrow.creator != caller {
        Some(EscrowError::NotCreator)
    } else if m.state_of(code).escrow.status != EscrowStatus::Open {
        Some(EscrowError::CannotCancel)
    } else {
        None
    }
}

/// Outcome of `cancel`: the next registry state and the number refunded.
pub open spec fn cancel_result(
    m: RegistryState,
    caller: Identity,
    code: EscrowCode,
) -> (RegistryState, Result<u8, EscrowError>) {
    match cancel_check(m, caller, code) {
        Some(err) => (m, Err(err)),
        None => {
            let s = m.state_of(code);
            let next = EscrowState { escrow: Escrow { status: EscrowStatus::Cancelled, ..s.escrow }, ..s };
            let ev = EscrowEvent::EscrowCancelled { code, refunded: s.escrow.joined_count };
            (m.with_escrow(code, next, seq![ev]), Ok(s.escrow.joined_count))
        },
    }
}

struct EscrowEntry {
    code: EscrowCode,
    escrow: Escrow,
    contributions: Vec<Contribution>,
}

impl View for EscrowEntry {
    type V = EscrowState;

    closed spec fn view(&self) -> EscrowState {
        EscrowState { code: self.code, escrow: self.escrow, contributions: self.contributions@ }
    }
}

/// All escrows of one deployment, their contributions and the event log.
pub struct Registry {
    counter: u64,
    entries: Vec<EscrowEntry>,
    events: Vec<EscrowEvent>,
}

impl View for Registry {
    type V = RegistryState;

    closed spec fn view(&self) -> RegistryState {
        RegistryState {
            counter: self.counter,
            escrows: self.entries@.map_values(|e: EscrowEntry| e@),
            events: self.events@,
        }
    }
}

impl Registry {
    /// An empty registry.
    pub fn new() -> (r: Registry)
        ensures
            r@.wf(),
            r@.counter == 0,
            r@.escrows.len() == 0,
            r@.events.len() == 0,
    {
        let r = Registry { counter: 0, entries: Vec::new(), events: Vec::new() };
        assert(r@.escrows =~= Seq::<EscrowState>::empty());
        r
    }

    /// Removes and returns the logged events, oldest first.
    pub fn take_events(&mut self) -> (r: Vec<EscrowEvent>)
        requires
            old(self)@.wf(),
        ensures
            r@ == old(self)@.events,
            final(self)@ == (RegistryState { events: seq![], ..old(self)@ }),
            final(self)@.wf(),
    {
        let mut taken: Vec<EscrowEvent> = Vec::new();
        std::mem::swap(&mut taken, &mut self.events);
        assert(self@.escrows == old(self)@.escrows);
        assert(self@.events =~= Seq::<EscrowEvent>::empty());
        taken
    }

    /// Position of the escrow that `code` names, if any.
    fn locate(&self, code: EscrowCode) -> (r: Option<usize>)
        requires
            self@.wf(),
        ensures
            r.is_some() == self@.has_escrow(code),
            r.is_some() ==> r.unwrap() == code.serial - 1 && r.unwrap() < self.entries@.len(),
    {
        let len = self.entries.len();
        assert(self@.escrows.len() == len);
        if code.serial == 0 || code.serial > len as u64 {
            return None;
        }
        let i = (code.serial - 1) as usize;
        assert(self@.escrows[i as int] == self.entries@[i as int]@);
        if self.entries[i].code == code {
            Some(i)
        } else {
            None
        }
    }
}

/// Opens a new escrow for `creator`, owed `total_amount` in equal shares by
/// `num_friends` participants, and returns its code.
pub fn create_escrow(
    reg: &mut Registry,
    creator: Identity,
    total_amount: u64,
    num_friends: u8,
    created_at: u64,
) -> (r: Result<EscrowCode, EscrowError>)
    requires
        old(reg)@.wf(),
    ensures
        final(reg)@.wf(),
        (final(reg)@, r) == create_result(old(reg)@, creator, total_amount, num_friends, created_at),
{
    if num_friends < 2 {
        return Err(EscrowError::InsufficientParticipants);
    }
    if reg.counter == u64::MAX {
        return Err(EscrowError::CapacityExceeded);
    }
    let serial = reg.counter + 1;
    let code = generate_escrow_code(serial, &creator);
    let escrow = Escrow {
        creator,
        total_amount,
        split_amount: total_amount / (num_friends as u64),
        num_friends,
        joined_count: 0,
        status: EscrowStatus::Open,
        accumulated_receipts: 0,
        yield_baseline: 0,
        created_at,
    };
    let entry = EscrowEntry { code, escrow, contributions: Vec::new() };
    proof {
        assert(receipts_of(entry@.contributions) =~= Seq::<u64>::empty());
    }
    reg.entries.push(entry);
    reg.counter = serial;
    reg.events.push(EscrowEvent::EscrowCreated { code, creator, total_amount, num_friends });
    proof {
        let m0 = old(reg)@;
        let expected = create_result(m0, creator, total_amount, num_friends, created_at).0;
        assert(reg@.escrows =~= expected.escrows);
        assert(reg@.events =~= expected.events);
    }
    Ok(code)
}


/// Position of `p`'s contribution in `cs`, if any.
fn find_contribution(cs: &Vec<Contribution>, p: &Identity) -> (r: Option<usize>)
    ensures
        r.is_some() == has_joined(cs@, *p),
        r.is_some() ==> r.unwrap() < cs@.len() && cs@[r.unwrap() as int].participant == *p,
{
    let mut i: usize = 0;
    while i < cs.len()
        invariant
            0 <= i <= cs@.len(),
            forall|j: int| 0 <= j < i ==> (#[trigger] cs@[j]).participant != *p,
        decreases cs@.len() - i,
    {
        if cs[i].participant.same_as(p) {
            return Some(i);
        }
        i = i + 1;
    }
    None
}

/// Checks whether `caller` may join the escrow `code` paying `amount`, before
/// any value is moved. The first failing condition wins.
pub fn check_join(
    reg: &Registry,
    caller: &Identity,
    code: EscrowCode,
    amount: u64,
) -> (r: Result<(), EscrowError>)
    requires
        reg@.wf(),
    ensures
        r == (match join_check(reg@, *caller, code, amount) {
            Some(err) => Err(err),
            None => Ok(()),
        }),
{
    let i = match reg.locate(code) {
        Some(i) => i,
        None => return Err(EscrowError::EscrowNotFound),
    };
    let entry = &reg.entries[i];
    assert(reg@.state_of(code) == entry@);
    if entry.escrow.status != EscrowStatus::Open {
        return Err(EscrowError::EscrowAlreadyFinalized);
    }
    if find_contribution(&entry.contributions, caller).is_some() {
        return Err(EscrowError::AlreadyJoined);
    }
    if amount != entry.escrow.split_amount {
        return Err(EscrowError::IncorrectAmount);
    }
    Ok(())
}

proof fn lemma_receipts_push(cs: Seq<Contribution>, c: Contribution)
    ensures
        receipts_sum(receipts_of(cs.push(c))) == receipts_sum(receipts_of(cs)) + c.receipts,
{
    assert(receipts_of(cs.push(c)).drop_last() =~= receipts_of(cs));
}

/// Records that `caller` joined the escrow `code`, having paid `amount`, which
/// was converted into `receipts`. Returns the number of participants joined so
/// far; the last share due completes the escrow.
pub fn join_escrow(
    reg: &mut Registry,
    caller: Identity,
    code: EscrowCode,
    amount: u64,
    receipts: u64,
) -> (r: Result<u8, EscrowError>)
    requires
        old(reg)@.wf(),
    ensures
        final(reg)@.wf(),
        (final(reg)@, r) == join_result(old(reg)@, caller, code, amount, receipts),
{
    let ghost m0 = reg@;
    match check_join(reg, &caller, code, amount) {
        Err(err) => return Err(err),
        Ok(()) => {},
    }
    let i = reg.locate(code).unwrap();
    let ghost s0 = reg.entries@[i as int]@;
    assert(m0.state_of(code) == s0);
    if receipts > u64::MAX - reg.entries[i].escrow.accumulated_receipts {
        return Err(EscrowError::CapacityExceeded);
    }
    let ghost next = joined_state(s0, caller, amount, receipts);
    let contribution = Contribution { participant: caller, principal: amount, receipts, withdrawn: false };
    proof {
        lemma_receipts_push(s0.contributions, contribution);
    }
    let entry = &mut reg.entries[i];
    entry.contributions.push(contribution);
    entry.escrow.joined_count = entry.escrow.joined_count + 1;
    entry.escrow.accumulated_receipts = entry.escrow.accumulated_receipts + receipts;
    let joined = entry.escrow.joined_count;
    let code_here = entry.code;
    reg.events.push(
        EscrowEvent::ParticipantJoined { code: code_here, participant: caller, joined_count: joined },
    );
    let entry = &mut reg.entries[i];
    if entry.escrow.joined_count == entry.escrow.num_friends {
        entry.escrow.status = EscrowStatus::Complete;
        entry.escrow.yield_baseline = entry.escrow.accumulated_receipts;
        let baseline = entry.escrow.yield_baseline;
        reg.events.push(EscrowEvent::EscrowCompleted { code: code_here, yield_baseline: baseline });
    }
    proof {
        let expected = join_result(m0, caller, code, amount, receipts).0;
        assert(reg.entries@[i as int]@ == next);
        assert(reg@.escrows =~= expected.escrows);
        assert(reg@.events =~= expected.events);
        assert forall|k: int| 0 <= k < reg@.escrows.len() implies
            (#[trigger] reg@.escrows[k]).code == (EscrowCode {
            serial: (k + 1) as u64,
            tag: fingerprint(reg@.escrows[k].escrow.creator),
        }) && escrow_wf(reg@.escrows[k]) by {
            if k == i {
                let cs = next.contributions;
                assert forall|a: int, b: int| 0 <= a < b < cs.len() implies
                    (#[trigger] cs[a]).participant != (#[trigger] cs[b]).participant by {
                    if b == cs.len() - 1 {
                        assert(s0.contributions[a] == cs[a]);
                    } else {
                        assert(s0.contributions[a] == cs[a]);
                        assert(s0.contributions[b] == cs[b]);
                    }
                }
                assert forall|a: int| 0 <= a < cs.len() implies
                    (#[trigger] cs[a]).principal == next.escrow.split_amount by {
                    if a < cs.len() - 1 {
                        assert(s0.contributions[a] == cs[a]);
                    }
                }
                assert forall|a: int| 0 <= a < cs.len() && (#[trigger] cs[a]).withdrawn implies
                    next.escrow.status == EscrowStatus::Complete by {
                    if a < cs.len() - 1 {
                        assert(s0.contributions[a] == cs[a]);
                    }
                }
            }
        }
    }
    Ok(joined)
}


proof fn lemma_receipt_within_sum(rs: Seq<u64>, k: int)
    requires
        0 <= k < rs.len(),
    ensures
        rs[k] <= receipts_sum(rs),
    decreases rs.len(),
{
    if k < rs.len() - 1 {
        lemma_receipt_within_sum(rs.drop_last(), k);
    }
}

/// Position of `caller`'s contribution, which is the only one of theirs.
proof fn lemma_position_unique(s: EscrowState, caller: Identity, k: int)
    requires
        escrow_wf(s),
        0 <= k < s.contributions.len(),
        s.contributions[k].participant == caller,
    ensures
        position_of(s.contributions, caller) == k,
{
    let p = position_of(s.contributions, caller);
    assert(has_joined(s.contributions, caller));
    if p < k {
        assert(s.contributions[p].participant != s.contributions[k].participant);
    } else if k < p {
        assert(s.contributions[k].participant != s.contributions[p].participant);
    }
}

/// Checks whether `caller` may withdraw from the escrow `code`, and computes
/// what they are owed when the escrow's receipt balance is `balance`.
pub fn withdrawal_amount(
    reg: &Registry,
    caller: &Identity,
    code: EscrowCode,
    balance: u64,
) -> (r: Result<u64, EscrowError>)
    requires
        reg@.wf(),
    ensures
        r == (match withdraw_check(reg@, *caller, code) {
            Some(err) => Err(err),
            None => Ok(withdrawal_of(reg@.state_of(code), *caller, balance) as u64),
        }),
        r is Ok ==> r.unwrap() as nat == withdrawal_of(reg@.state_of(code), *caller, balance),
{
    let i = match reg.locate(code) {
        Some(i) => i,
        None => return Err(EscrowError::EscrowNotFound),
    };
    let entry = &reg.entries[i];
    assert(reg@.state_of(code) == entry@);
    if entry.escrow.status != EscrowStatus::Complete {
        return Err(EscrowError::EscrowNotComplete);
    }
    let k = match find_contribution(&entry.contributions, caller) {
        Some(k) => k,
        None => return Err(EscrowError::ParticipantNotFound),
    };
    proof {
        lemma_position_unique(entry@, *caller, k as int);
    }
    let c = entry.contributions[k];
    if c.withdrawn {
        return Err(EscrowError::AlreadyWithdrawn);
    }
    proof {
        lemma_receipt_within_sum(receipts_of(entry@.contributions), k as int);
    }
    Ok(withdrawal_total(balance, c.receipts, entry.escrow.yield_baseline))
}

/// Records that `caller` withdrew from the escrow `code`, after their payout
/// was transferred, and returns the amount paid. It succeeds at most once per
/// participant.
pub fn withdraw(
    reg: &mut Registry,
    caller: Identity,
    code: EscrowCode,
    balance: u64,
) -> (r: Result<u64, EscrowError>)
    requires
        old(reg)@.wf(),
    ensures
        final(reg)@.wf(),
        (final(reg)@, r) == withdraw_result(old(reg)@, caller, code, balance),
{
    let ghost m0 = reg@;
    let amount = match withdrawal_amount(reg, &caller, code, balance) {
        Err(err) => return Err(err),
        Ok(amount) => amount,
    };
    let i = reg.locate(code).unwrap();
    let ghost s0 = reg.entries@[i as int]@;
    assert(m0.state_of(code) == s0);
    let k = find_contribution(&reg.entries[i].contributions, &caller).unwrap();
    proof {
        lemma_position_unique(s0, caller, k as int);
    }
    let mut c = reg.entries[i].contributions[k];
    c.withdrawn = true;
    let entry = &mut reg.entries[i];
    entry.contributions.set(k, c);
    reg.events.push(EscrowEvent::WithdrawalMade { code, participant: caller, amount });
    proof {
        let next = withdrawn_state(s0, caller);
        let expected = withdraw_result(m0, caller, code, balance).0;
        assert(reg.entries@[i as int]@ == next);
        assert(reg@.escrows =~= expected.escrows);
        assert(reg@.events =~= expected.events);
        assert(receipts_of(next.contributions) =~= receipts_of(s0.contributions));
        assert forall|j: int| 0 <= j < reg@.escrows.len() implies
            (#[trigger] reg@.escrows[j]).code == (EscrowCode {
            serial: (j + 1) as u64,
            tag: fingerprint(reg@.escrows[j].escrow.creator),
        }) && escrow_wf(reg@.escrows[j]) by {
            if j == i {
                let cs = next.contributions;
                assert forall|a: int, b: int| 0 <= a < b < cs.len() implies
                    (#[trigger] cs[a]).participant != (#[trigger] cs[b]).participant by {
                    assert(cs[a].participant == s0.contributions[a].participant);
                    assert(cs[b].participant == s0.contributions[b].participant);
                }
                assert forall|a: int| 0 <= a < cs.len() implies
                    (#[trigger] cs[a]).principal == next.escrow.split_amount by {
                    assert(cs[a].principal == s0.contributions[a].principal);
                }
            }
        }
    }
    Ok(amount)
}

/// Checks whether `caller` may cancel the escrow `code`, and lists the refunds
/// owed, one per participant who joined, in join order.
pub fn cancel_refunds(
    reg: &Registry,
    caller: &Identity,
    code: EscrowCode,
) -> (r: Result<Vec<Refund>, EscrowError>)
    requires
        reg@.wf(),
    ensures
        match cancel_check(reg@, *caller, code) {
            Some(err) => r == Err::<Vec<Refund>, EscrowError>(err),
            None => r is Ok && r.unwrap()@ == refunds_of(reg@.state_of(code).contributions),
        },
{
    let i = match reg.locate(code) {
        Some(i) => i,
        None => return Err(EscrowError::EscrowNotFound),
    };
    let entry = &reg.entries[i];
    assert(reg@.state_of(code) == entry@);
    if !entry.escrow.creator.same_as(caller) {
        return Err(EscrowError::NotCreator);
    }
    if entry.escrow.status != EscrowStatus::Open {
        return Err(EscrowError::CannotCancel);
    }
    let cs = &entry.contributions;
    let mut refunds: Vec<Refund> = Vec::new();
    let mut k: usize = 0;
    while k < cs.len()
        invariant
            0 <= k <= cs@.len(),
            refunds@ =~= refunds_of(cs@).take(k as int),
        decreases cs@.len() - k,
    {
        refunds.push(Refund { participant: cs[k].participant, receipts: cs[k].receipts });
        k = k + 1;
        assert(refunds@ =~= refunds_of(cs@).take(k as int));
    }
    assert(refunds@ =~= refunds_of(cs@));
    Ok(refunds)
}

/// Marks the escrow `code` cancelled, after every refund was paid, and returns
/// the number of participants refunded.
pub fn cancel(reg: &mut Registry, caller: Identity, code: EscrowCode) -> (r: Result<u8, EscrowError>)
    requires
        old(reg)@.wf(),
    ensures
        final(reg)@.wf(),
        (final(reg)@, r) == cancel_result(old(reg)@, caller, code),
{
    let ghost m0 = reg@;
    let i = match reg.locate(code) {
        Some(i) => i,
        None => return Err(EscrowError::EscrowNotFound),
    };
    let ghost s0 = reg.entries@[i as int]@;
    assert(m0.state_of(code) == s0);
    if !reg.entries[i].escrow.creator.same_as(&caller) {
        return Err(EscrowError::NotCreator);
    }
    if reg.entries[i].escrow.status != EscrowStatus::Open {
        return Err(EscrowError::CannotCancel);
    }
    let entry = &mut reg.entries[i];
    entry.escrow.status = EscrowStatus::Cancelled;
    let refunded = entry.escrow.joined_count;
    reg.events.push(EscrowEvent::EscrowCancelled { code, refunded });
    proof {
        let expected = cancel_result(m0, caller, code).0;
        assert(reg@.escrows =~= expected.escrows);
        assert(reg@.events =~= expected.events);
    }
    Ok(refunded)
}


/// Codes of the escrows that `p` has joined, oldest first.
pub open spec fn joined_codes(escrows: Seq<EscrowState>, p: Identity) -> Seq<EscrowCode>
    decreases escrows.len(),
{
    if escrows.len() == 0 {
        seq![]
    } else {
        let rest = joined_codes(escrows.drop_last(), p);
        if has_joined(escrows.last().contributions, p) {
            rest.push(escrows.last().code)
        } else {
            rest
        }
    }
}

fn bytes_equal(a: &Vec<u8>, b: &[u8]) -> (r: bool)
    ensures
        r == (a@ == b@),
{
    if a.len() != b.len() {
        return false;
    }
    let mut i: usize = 0;
    while i < a.len()
        invariant
            0 <= i <= a@.len(),
            a@.len() == b@.len(),
            forall|j: int| 0 <= j < i ==> a@[j] == b@[j],
        decreases a@.len() - i,
    {
        if a[i] != b[i] {
            return false;
        }
        i = i + 1;
    }
    assert(a@ =~= b@);
    true
}

impl Registry {
    /// Number of escrows created so far.
    pub fn counter(&self) -> (r: u64)
        ensures
            r == self@.counter,
    {
        self.counter
    }

    /// The record of the escrow `code`, if it exists.
    pub fn escrow_info(&self, code: EscrowCode) -> (r: Option<Escrow>)
        requires
            self@.wf(),
        ensures
            r is Some == self@.has_escrow(code),
            r is Some ==> r.unwrap() == self@.state_of(code).escrow,
    {
        match self.locate(code) {
            Some(i) => {
                assert(self@.state_of(code) == self.entries@[i as int]@);
                Some(self.entries[i].escrow)
            },
            None => None,
        }
    }

    /// `participant`'s contribution to the escrow `code`, if both exist.
    pub fn participant_status(&self, code: EscrowCode, participant: &Identity) -> (r: Option<Contribution>)
        requires
            self@.wf(),
        ensures
            r is Some == (self@.has_escrow(code) && has_joined(
                self@.state_of(code).contributions,
                *participant,
            )),
            r is Some ==> r.unwrap() == contribution_of(self@.state_of(code), *participant),
    {
        let i = match self.locate(code) {
            Some(i) => i,
            None => return None,
        };
        let entry = &self.entries[i];
        assert(self@.state_of(code) == entry@);
        match find_contribution(&entry.contributions, participant) {
            Some(k) => {
                proof {
                    lemma_position_unique(entry@, *participant, k as int);
                }
                Some(entry.contributions[k])
            },
            None => None,
        }
    }

    /// Codes of the escrows that `participant` has joined, oldest first.
    pub fn user_escrows(&self, participant: &Identity) -> (r: Vec<EscrowCode>)
        requires
            self@.wf(),
        ensures
            r@ == joined_codes(self@.escrows, *participant),
    {
        let mut out: Vec<EscrowCode> = Vec::new();
        let mut i: usize = 0;
        while i < self.entries.len()
            invariant
                0 <= i <= self.entries@.len(),
                self@.escrows.len() == self.entries@.len(),
                out@ == joined_codes(self@.escrows.take(i as int), *participant),
            decreases self.entries@.len() - i,
        {
            let entry = &self.entries[i];
            assert(self@.escrows.take(i + 1).drop_last() =~= self@.escrows.take(i as int));
            assert(self@.escrows.take(i + 1).last() == entry@);
            if find_contribution(&entry.contributions, participant).is_some() {
                out.push(entry.code);
            }
            i = i + 1;
        }
        assert(self@.escrows.take(i as int) =~= self@.escrows);
        out
    }

    /// The code whose text is `text`, among the escrows of this registry.
    pub fn code_for_text(&self, text: &[u8]) -> (r: Option<EscrowCode>)
        requires
            self@.wf(),
        ensures
            r is Some ==> self@.has_escrow(r.unwrap()) && code_text(r.unwrap()) == text@,
            r is None ==> forall|k: int|
                0 <= k < self@.escrows.len() ==> code_text(#[trigger] self@.escrows[k].code) != text@,
    {
        let mut i: usize = 0;
        while i < self.entries.len()
            invariant
                0 <= i <= self.entries@.len(),
                self@.escrows.len() == self.entries@.len(),
                self@.wf(),
                forall|k: int| 0 <= k < i ==> code_text(#[trigger] self@.escrows[k].code) != text@,
            decreases self.entries@.len() - i,
        {
            let code = self.entries[i].code;
            assert(self@.escrows[i as int] == self.entries@[i as int]@);
            let t = escrow_code_text(code);
            if bytes_equal(&t, text) {
                assert(self@.escrows[i as int].code.serial == i + 1);
                return Some(code);
            }
            i = i + 1;
        }
        None
    }
}


/// Whether `escrow` with `cs` as its contributions satisfies `escrow_wf`.
fn escrow_is_wf(code: EscrowCode, escrow: &Escrow, cs: &Vec<Contribution>) -> (r: bool)
    ensures
        r == escrow_wf(EscrowState { code, escrow: *escrow, contributions: cs@ }),
{
    if escrow.num_friends < 2 || escrow.split_amount != escrow.total_amount / (escrow.num_friends as u64) {
        return false;
    }
    if escrow.joined_count as usize != cs.len() || escrow.joined_count > escrow.num_friends {
        return false;
    }
    let complete = escrow.status == EscrowStatus::Complete;
    if complete != (escrow.joined_count == escrow.num_friends) {
        return false;
    }
    let mut sum: u128 = 0;
    let mut i: usize = 0;
    while i < cs.len()
        invariant
            0 <= i <= cs@.len(),
            cs@.len() <= 255,
            complete == (escrow.status == EscrowStatus::Complete),
            sum == receipts_sum(receipts_of(cs@.take(i as int))),
            sum <= i * 0xffff_ffff_ffff_ffffu128,
            forall|a: int| 0 <= a < i ==> (#[trigger] cs@[a]).principal == escrow.split_amount,
            forall|a: int| 0 <= a < i && (#[trigger] cs@[a]).withdrawn ==> complete,
        decreases cs@.len() - i,
    {
        let c = cs[i];
        if c.principal != escrow.split_amount || (c.withdrawn && !complete) {
            assert(cs@[i as int] == c);
            return false;
        }
        proof {
            assert(receipts_of(cs@.take(i + 1)).drop_last() =~= receipts_of(cs@.take(i as int)));
        }
        sum = sum + c.receipts as u128;
        i = i + 1;
    }
    assert(cs@.take(i as int) =~= cs@);
    if sum != escrow.accumulated_receipts as u128 {
        return false;
    }
    let expected_baseline = if complete { escrow.accumulated_receipts } else { 0 };
    if escrow.yield_baseline != expected_baseline {
        return false;
    }
    let mut j: usize = 0;
    while j < cs.len()
        invariant
            0 <= j <= cs@.len(),
            escrow.num_friends >= 2,
            escrow.split_amount == escrow.total_amount / (escrow.num_friends as u64),
            escrow.joined_count == cs@.len(),
            escrow.joined_count <= escrow.num_friends,
            (escrow.status == EscrowStatus::Complete) == (escrow.joined_count == escrow.num_friends),
            escrow.accumulated_receipts == receipts_sum(receipts_of(cs@)),
            escrow.yield_baseline == (if escrow.status == EscrowStatus::Complete {
                escrow.accumulated_receipts
            } else {
                0
            }),
            forall|a: int| 0 <= a < cs@.len() ==> (#[trigger] cs@[a]).principal == escrow.split_amount,
            forall|a: int|
                0 <= a < cs@.len() && (#[trigger] cs@[a]).withdrawn ==> escrow.status
                    == EscrowStatus::Complete,
            forall|a: int, b: int|
                0 <= a < b < j ==> (#[trigger] cs@[a]).participant != (#[trigger] cs@[b]).participant,
        decreases cs@.len() - j,
    {
        let mut k: usize = 0;
        while k < j
            invariant
                0 <= k <= j < cs@.len(),
                forall|a: int| 0 <= a < k ==> (#[trigger] cs@[a]).participant != cs@[j as int].participant,
            decreases j - k,
        {
            if cs[k].participant.same_as(&cs[j].participant) {
                assert(cs@[k as int].participant == cs@[j as int].participant);
                return false;
            }
            k = k + 1;
        }
        j = j + 1;
    }
    true
}

impl Registry {
    /// Appends an escrow read back from the store, with its contributions in
    /// join order, as the next serial. Returns its code, or `None` when the
    /// records are not those of a well-formed escrow or the counter is spent.
    pub fn restore_escrow(
        &mut self,
        escrow: Escrow,
        contributions: Vec<Contribution>,
    ) -> (r: Option<EscrowCode>)
        requires
            old(self)@.wf(),
        ensures
            final(self)@.wf(),
            ({
                let m = old(self)@;
                let code = EscrowCode { serial: (m.counter + 1) as u64, tag: fingerprint(escrow.creator) };
                let s = EscrowState { code, escrow, contributions: contributions@ };
                if m.counter < u64::MAX && escrow_wf(s) {
                    &&& r == Some(code)
                    &&& final(self)@ == (RegistryState {
                        counter: code.serial,
                        escrows: m.escrows.push(s),
                        events: m.events,
                    })
                } else {
                    &&& r is None
                    &&& final(self)@ == m
                }
            }),
    {
        if self.counter == u64::MAX {
            return None;
        }
        let code = generate_escrow_code(self.counter + 1, &escrow.creator);
        let ghost s = EscrowState { code, escrow, contributions: contributions@ };
        if !escrow_is_wf(code, &escrow, &contributions) {
            assert(!escrow_wf(s));
            return None;
        }
        let ghost m = self@;
        let entry = EscrowEntry { code, escrow, contributions };
        assert(entry@ == s);
        self.entries.push(entry);
        self.counter = code.serial;
        assert(self@.escrows =~= m.escrows.push(s));
        Some(code)
    }

    /// The contributions to the escrow `code` in join order, if it exists.
    pub fn contributions(&self, code: EscrowCode) -> (r: Option<Vec<Contribution>>)
        requires
            self@.wf(),
        ensures
            r is Some == self@.has_escrow(code),
            r is Some ==> r.unwrap()@ == self@.state_of(code).contributions,
    {
        let i = match self.locate(code) {
            Some(i) => i,
            None => return None,
        };
        let cs = &self.entries[i].contributions;
        assert(self@.state_of(code).contributions == cs@);
        let mut out: Vec<Contribution> = Vec::new();
        let mut k: usize = 0;
        while k < cs.len()
            invariant
                0 <= k <= cs@.len(),
                out@ == cs@.take(k as int),
            decreases cs@.len() - k,
        {
            out.push(cs[k]);
            k = k + 1;
            assert(out@ =~= cs@.take(k as int));
        }
        assert(cs@.take(k as int) =~= cs@);
        Some(out)
    }
}

} // verus!
