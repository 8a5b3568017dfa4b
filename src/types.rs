use vstd::prelude::*;

verus! {

/// Width in bytes of an account identity.
pub const IDENTITY_LEN: usize = 32;

/// Identity of an account: a fixed-width 32-byte hash.
#[derive(Clone, Copy, Debug, PartialEq, Eq)]
pub struct Identity {
    pub bytes: [u8; 32],
}

impl Identity {
    /// Compares two identities byte by byte.
    pub fn same_as(&self, other: &Identity) -> (r: bool)
        ensures
            r == (*self == *other),
    {
        let mut i: usize = 0;
        while i < IDENTITY_LEN
            invariant
                0 <= i <= IDENTITY_LEN,
                forall|j: int| 0 <= j < i ==> self.bytes@[j] == other.bytes@[j],
            decreases IDENTITY_LEN - i,
        {
            if self.bytes[i] != other.bytes[i] {
                return false;
            }
            i = i + 1;
        }
        assert(self.bytes =~= other.bytes);
        true
    }
}


/// Lifecycle status of an escrow. `Complete` and `Cancelled` are terminal.
#[derive(Clone, Copy, Debug, PartialEq, Eq, Structural)]
pub enum EscrowStatus {
    Open,
    Complete,
    Cancelled,
}

/// Per-escrow registry record. Amounts and receipts are counted in the
/// currency's smallest unit and fit in 64 bits.
#[derive(Clone, Copy, Debug, PartialEq, Eq)]
pub struct Escrow {
    /// Account that opened the escrow; the only one allowed to cancel it.
    pub creator: Identity,
    /// Total principal required.
    pub total_amount: u64,
    /// Share each participant pays: `total_amount / num_friends`, remainder dropped.
    pub split_amount: u64,
    /// Number of participants required (at least two).
    pub num_friends: u8,
    /// Number of distinct participants that have joined so far.
    pub joined_count: u8,
    pub status: EscrowStatus,
    /// Yield-bearing receipts obtained from all contributions so far.
    pub accumulated_receipts: u64,
    /// Receipt balance recorded when the escrow became complete; zero before.
    pub yield_baseline: u64,
    /// Creation timestamp, informational only.
    pub created_at: u64,
}

/// One participant's contribution to one escrow.
#[derive(Clone, Copy, Debug, PartialEq, Eq)]
pub struct Contribution {
    pub participant: Identity,
    /// Principal paid in; always the escrow's share amount.
    pub principal: u64,
    /// Receipts obtained when this principal was converted.
    pub receipts: u64,
    /// Set once the participant has withdrawn; never reset.
    pub withdrawn: bool,
}

/// Code of an escrow: the creation counter together with a fingerprint of the
/// creator's identity. The counter alone makes codes unique.
#[derive(Clone, Copy, Debug, PartialEq, Eq, Structural)]
pub struct EscrowCode {
    pub serial: u64,
    pub tag: u32,
}

/// Why an operation was refused. Every error leaves the registry unchanged.
#[derive(Clone, Copy, Debug, PartialEq, Eq, Structural)]
pub enum EscrowError {
    InsufficientParticipants,
    EscrowNotFound,
    AlreadyJoined,
    IncorrectAmount,
    EscrowAlreadyFinalized,
    NotCreator,
    CannotCancel,
    ParticipantNotFound,
    AlreadyWithdrawn,
    EscrowNotComplete,
    TransferFailed,
    StakingFailed,
    UnstakingFailed,
    BalanceQueryFailed,
    /// A counter or a receipt total would no longer fit in 64 bits.
    CapacityExceeded,
}

/// Notification record appended on each lifecycle transition.
#[derive(Clone, Copy, Debug, PartialEq, Eq)]
pub enum EscrowEvent {
    EscrowCreated { code: EscrowCode, creator: Identity, total_amount: u64, num_friends: u8 },
    ParticipantJoined { code: EscrowCode, participant: Identity, joined_count: u8 },
    EscrowCompleted { code: EscrowCode, yield_baseline: u64 },
    WithdrawalMade { code: EscrowCode, participant: Identity, amount: u64 },
    EscrowCancelled { code: EscrowCode, refunded: u8 },
}

/// The first four bytes of an identity read as a big-endian number.
pub open spec fn fingerprint(id: Identity) -> u32 {
    (id.bytes@[0] * 0x100_0000 + id.bytes@[1] * 0x1_0000 + id.bytes@[2] * 0x100
        + id.bytes@[3]) as u32
}

/// The code of the escrow created as number `counter` by `creator`.
pub fn generate_escrow_code(counter: u64, creator: &Identity) -> (r: EscrowCode)
    ensures
        r == (EscrowCode { serial: counter, tag: fingerprint(*creator) }),
{
    let b = &creator.bytes;
    let tag: u32 = (b[0] as u32) * 0x100_0000 + (b[1] as u32) * 0x1_0000 + (b[2] as u32)
        * 0x100 + (b[3] as u32);
    EscrowCode { serial: counter, tag }
}

} // verus!
