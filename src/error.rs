//! The ways an operation can be refused.

use vstd::prelude::*;

verus! {

/// Why an operation was refused. A refused operation leaves the state as it
/// was.
#[derive(Clone, Copy, Debug, PartialEq, Eq, Structural)]
pub enum VestingError {
    /// No vault has the given id.
    MissingVault,
    /// The caller is not the principal the operation must be authorized by.
    Unauthorized,
    /// `end_time < start_time`, the window exceeds the maximum duration, or a
    /// duration is zero where one is needed.
    InvalidDuration,
    /// A zero or negative amount, or an amount outside what the operation
    /// allows.
    InvalidAmount,
    /// A milestone set that is empty, has a zero or oversized percentage, a
    /// repeated id, or percentages summing past 100.
    InvalidMilestones,
    /// Batch columns of different lengths.
    InvalidBatch,
    /// Not enough admin, unlocked, liquid or unallocated balance.
    InsufficientBalance,
    /// The flag or value is already what the operation would set.
    AlreadyInTargetState,
    /// A required setting (token, staking contract, milestones, delegate,
    /// proposed admin) is absent.
    NotConfigured,
    /// The vault's deferred registry write has not happened yet.
    NotInitialized,
    /// The contract is paused or the vault is frozen.
    PausedOrFrozen,
    /// The vault was marked irrevocable.
    Irrevocable,
    /// The contract was retired by a migration.
    Deprecated,
    /// The clawback grace period has passed, or tokens were already released.
    ClawbackClosed,
    /// The vault may not be transferred by its owner.
    NotTransferable,
    /// A value would not fit in its integer type.
    Overflow,
    /// The token or contract named may not be used here.
    InvalidTarget,
}

} // verus!
