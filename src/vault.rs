//! Vault records, milestones, and the amounts they unlock.

use crate::math::{linear_vested, mul_add_div, time_vested};
use vstd::prelude::*;

verus! {

/// Accounts and contracts are identified by number.
pub type AccountId = u64;

/// Longest vesting window: ten years, in seconds.
pub const MAX_DURATION: u64 = 315_360_000;

/// One beneficiary's grant.
#[derive(Clone, Copy, Debug, PartialEq, Eq, Structural)]
pub struct Vault {
    /// Principal assigned to the vault.
    pub total_amount: i128,
    /// Claimed, revoked and clawed back so far; never decreases.
    pub released_amount: i128,
    /// Paid to whoever triggers an automatic claim.
    pub keeper_fee: i128,
    /// Currently delegated to the external staking contract.
    pub staked_amount: i128,
    pub owner: AccountId,
    /// A second account that may claim on the owner's behalf.
    pub delegate: Option<AccountId>,
    pub start_time: u64,
    pub end_time: u64,
    pub creation_time: u64,
    /// 0 for continuous vesting, otherwise the length of each step.
    pub step_duration: u64,
    /// Whether the owner index lists this vault yet.
    pub is_initialized: bool,
    pub is_irrevocable: bool,
    pub is_transferable: bool,
    pub is_frozen: bool,
}

/// A milestone of a milestone-based vault.
#[derive(Clone, Copy, Debug, PartialEq, Eq, Structural)]
pub struct Milestone {
    pub id: u64,
    /// Share of the principal, in percent, that unlocking releases.
    pub percentage: u32,
    pub is_unlocked: bool,
}

/// The vault's record is consistent.
pub open spec fn vault_wf(v: Vault) -> bool {
    &&& v.total_amount > 0
    &&& v.released_amount >= 0
    &&& v.staked_amount >= 0
    &&& v.released_amount + v.staked_amount <= v.total_amount
    &&& v.keeper_fee >= 0
    &&& v.start_time <= v.end_time
    &&& v.end_time - v.start_time <= MAX_DURATION
}

/// Principal not yet released.
pub open spec fn unreleased(v: Vault) -> int {
    v.total_amount - v.released_amount
}

/// Principal neither released nor staked.
pub open spec fn liquid(v: Vault) -> int {
    v.total_amount - v.released_amount - v.staked_amount
}

/// Sum of the percentages of the unlocked milestones.
pub open spec fn unlocked_sum(ms: Seq<Milestone>) -> int
    decreases ms.len(),
{
    if ms.len() == 0 {
        0
    } else {
        unlocked_sum(ms.drop_last()) + if ms.last().is_unlocked {
            ms.last().percentage as int
        } else {
            0
        }
    }
}

/// Unlocked percentage, capped at 100.
pub open spec fn unlocked_pct(ms: Seq<Milestone>) -> int {
    if unlocked_sum(ms) > 100 {
        100
    } else {
        unlocked_sum(ms)
    }
}

/// Amount released by unlocking `pct` percent of `total`.
pub open spec fn pct_of(total: int, pct: int) -> int {
    total * pct / 100
}

/// Time-based amount unlocked in vault `v` at `now`.
pub open spec fn vault_time_vested(v: Vault, now: u64) -> int {
    time_vested(
        v.total_amount as int,
        v.start_time as int,
        v.end_time as int,
        now as int,
        v.step_duration as int,
    )
}

proof fn lemma_unlocked_sum_nonneg(ms: Seq<Milestone>)
    ensures
        unlocked_sum(ms) >= 0,
    decreases ms.len(),
{
    if ms.len() > 0 {
        lemma_unlocked_sum_nonneg(ms.drop_last());
    }
}

/// Percentage of the principal that the unlocked milestones release: the
/// saturating sum of their percentages, capped at 100.
pub fn unlocked_percentage(milestones: &Vec<Milestone>) -> (r: u32)
    ensures
        r == unlocked_pct(milestones@),
{
    let mut pct: u32 = 0;
    let mut i: usize = 0;
    while i < milestones.len()
        invariant
            i <= milestones.len(),
            pct as int == if unlocked_sum(milestones@.subrange(0, i as int)) > u32::MAX {
                u32::MAX as int
            } else {
                unlocked_sum(milestones@.subrange(0, i as int))
            },
        decreases milestones.len() - i,
    {
        let m = milestones[i];
        proof {
            let pre = milestones@.subrange(0, i as int);
            let next = milestones@.subrange(0, i + 1);
            assert(next.drop_last() =~= pre);
            lemma_unlocked_sum_nonneg(pre);
        }
        if m.is_unlocked {
            pct = pct.saturating_add(m.percentage);
        }
        i = i + 1;
    }
    proof {
        assert(milestones@.subrange(0, milestones@.len() as int) =~= milestones@);
    }
    if pct > 100 {
        100
    } else {
        pct
    }
}

/// `total * pct / 100`, for a percentage of at most 100.
pub fn percentage_of(total_amount: i128, unlocked_percentage: u32) -> (r: i128)
    requires
        total_amount >= 0,
        unlocked_percentage <= 100,
    ensures
        r == pct_of(total_amount as int, unlocked_percentage as int),
        0 <= r <= total_amount,
{
    mul_add_div(total_amount as u128, unlocked_percentage as u128, 0, 100) as i128
}

/// Time-based amount unlocked in `vault` at `now`.
pub fn calculate_time_vested_amount(vault: &Vault, now: u64) -> (r: i128)
    requires
        vault_wf(*vault),
    ensures
        r == vault_time_vested(*vault, now),
        0 <= r <= vault.total_amount,
{
    let r = linear_vested(vault.total_amount, vault.start_time, vault.end_time, now, vault.step_duration);
    proof {
        crate::math::lemma_time_vested_within_total(
            vault.total_amount as int,
            vault.start_time as int,
            vault.end_time as int,
            now as int,
            vault.step_duration as int,
        );
    }
    r
}

} // verus!
