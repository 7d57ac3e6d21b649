//! The vesting contract: vault creation, the owner index with its deferred
//! writes, claims, revocation, transfers, staking and administration.
//!
//! Every operation takes the principal that authorized the invocation
//! (`caller`) and, where it needs them, the ledger time and the token balance
//! held by the contract. An operation that pays out or calls another
//! contract returns what to transfer or invoke; a refused operation leaves
//! the state untouched.

use crate::error::VestingError;
use crate::registry::{
    lemma_locked_sum_ge, lemma_sums_bounds, lemma_sums_push, lemma_sums_update, locked_sum,
    released_sum, releases_grow, staked_sum, state_wf, ContractState,
};
use crate::vault::{
    calculate_time_vested_amount, liquid, percentage_of, pct_of, unlocked_pct, unlocked_percentage,
    unreleased, vault_time_vested, vault_wf, AccountId, Milestone, Vault, MAX_DURATION,
};
use std::collections::HashMap;
use vstd::prelude::*;

verus! {

broadcast use vstd::std_specs::hash::group_hash_axioms;

/// Seconds after creation during which a vault may be clawed back.
pub const CLAWBACK_GRACE_PERIOD: u64 = 3600;

/// The owner index as a map of sequences.
pub open spec fn index_view(m: Map<AccountId, Vec<u64>>) -> Map<AccountId, Seq<u64>> {
    Map::new(|k: AccountId| m.contains_key(k), |k: AccountId| m[k]@)
}

pub open spec fn milestones_view(m: Map<u64, Vec<Milestone>>) -> Map<u64, Seq<Milestone>> {
    Map::new(|k: u64| m.contains_key(k), |k: u64| m[k]@)
}

/// Ids listed for `user` (none if the index has no entry).
pub open spec fn index_of(s: ContractState, user: AccountId) -> Seq<u64> {
    if s.user_vaults.contains_key(user) {
        s.user_vaults[user]
    } else {
        Seq::empty()
    }
}

pub open spec fn has_vault(s: ContractState, vault_id: u64) -> bool {
    1 <= vault_id <= s.vaults.len()
}

pub open spec fn vault_of(s: ContractState, vault_id: u64) -> Vault {
    s.vaults[vault_id - 1]
}

/// Why an admin-only operation is refused before it looks at its arguments.
pub open spec fn admin_gate(s: ContractState, caller: AccountId) -> Option<VestingError> {
    if s.is_deprecated {
        Some(VestingError::Deprecated)
    } else if caller != s.admin {
        Some(VestingError::Unauthorized)
    } else {
        None
    }
}

pub open spec fn valid_window(start_time: u64, end_time: u64) -> bool {
    start_time <= end_time && end_time - start_time <= MAX_DURATION
}

/// The record a creation writes.
pub open spec fn fresh_vault(
    owner: AccountId,
    amount: i128,
    start_time: u64,
    end_time: u64,
    keeper_fee: i128,
    is_revocable: bool,
    is_transferable: bool,
    step_duration: u64,
    now: u64,
    initialized: bool,
) -> Vault {
    Vault {
        total_amount: amount,
        released_amount: 0,
        keeper_fee,
        staked_amount: 0,
        owner,
        delegate: None,
        start_time,
        end_time,
        creation_time: now,
        step_duration,
        is_initialized: initialized,
        is_irrevocable: !is_revocable,
        is_transferable,
        is_frozen: false,
    }
}

pub open spec fn create_error(
    s: ContractState,
    caller: AccountId,
    amount: i128,
    start_time: u64,
    end_time: u64,
    keeper_fee: i128,
) -> Option<VestingError> {
    if admin_gate(s, caller).is_some() {
        admin_gate(s, caller)
    } else if !valid_window(start_time, end_time) {
        Some(VestingError::InvalidDuration)
    } else if amount <= 0 || keeper_fee < 0 {
        Some(VestingError::InvalidAmount)
    } else if s.admin_balance < amount {
        Some(VestingError::InsufficientBalance)
    } else if s.vaults.len() + 1 >= u64::MAX {
        Some(VestingError::Overflow)
    } else {
        None
    }
}

/// `ids` with `vault_id` appended to `user`'s entry.
pub open spec fn index_append(s: ContractState, user: AccountId, vault_id: u64) -> Map<AccountId, Seq<u64>> {
    s.user_vaults.insert(user, index_of(s, user).push(vault_id))
}

/// The state after writing vault `v` under the next id; the owner index is
/// written at once when `v` is created initialized.
pub open spec fn after_create(s: ContractState, v: Vault) -> ContractState {
    ContractState {
        admin_balance: s.admin_balance - v.total_amount,
        vaults: s.vaults.push(v),
        total_shares: s.total_shares + v.total_amount,
        user_vaults: if v.is_initialized {
            index_append(s, v.owner, (s.vaults.len() + 1) as u64)
        } else {
            s.user_vaults
        },
        ..s
    }
}

/// The deferred index write of vault `vault_id`: a no-op for a vault already
/// materialized, and while the contract is deprecated.
pub open spec fn materialize(s: ContractState, vault_id: u64) -> ContractState {
    if s.is_deprecated || !has_vault(s, vault_id) || vault_of(s, vault_id).is_initialized {
        s
    } else {
        let v = vault_of(s, vault_id);
        ContractState {
            vaults: s.vaults.update(vault_id - 1, Vault { is_initialized: true, ..v }),
            user_vaults: index_append(s, v.owner, vault_id),
            ..s
        }
    }
}

/// What a claim asks the token contract to do.
#[derive(Clone, Copy, Debug, PartialEq, Eq, Structural)]
pub struct Transfer {
    pub token: AccountId,
    pub to: AccountId,
    pub amount: i128,
}

/// A call into the staking contract for vault `vault_id`.
#[derive(Clone, Copy, Debug, PartialEq, Eq, Structural)]
pub struct StakingCall {
    pub contract: AccountId,
    pub vault_id: u64,
    pub amount: i128,
    /// The validator to stake with; `None` for an unstake.
    pub validator: Option<AccountId>,
}

/// The effects of a successful claim outside the contract's own state: an
/// unstake that must happen first when the vault's liquid balance falls
/// short, then the payout.
#[derive(Clone, Copy, Debug, PartialEq, Eq, Structural)]
pub struct ClaimOutcome {
    pub unstake: Option<StakingCall>,
    pub payout: Transfer,
}

/// The effects of a successful keeper-triggered claim.
#[derive(Clone, Copy, Debug, PartialEq, Eq, Structural)]
pub struct AutoClaimOutcome {
    pub to_beneficiary: Transfer,
    pub to_keeper: Transfer,
}

/// Amount unlocked in vault `vault_id` at `now`: by its milestones when a
/// milestone set is configured, by its time schedule otherwise.
pub open spec fn vault_unlocked(s: ContractState, vault_id: u64, now: u64) -> int {
    let v = vault_of(s, vault_id);
    if s.milestones.contains_key(vault_id) {
        pct_of(v.total_amount as int, unlocked_pct(s.milestones[vault_id]))
    } else {
        vault_time_vested(v, now)
    }
}

/// Share of the contract's token balance owed for `amount` principal: the
/// balance beyond the unallocated principal is split pro rata over the
/// liquid shares, so accrued yield travels with each claim. `None` when the
/// product does not fit in 128 bits.
pub open spec fn yield_share(amount: int, balance: int, admin_balance: int, liquid_shares: int) -> Option<int> {
    let portion = if balance > admin_balance {
        balance - admin_balance
    } else {
        0
    };
    if liquid_shares > 0 {
        if amount * portion > i128::MAX {
            None
        } else {
            Some(amount * portion / liquid_shares)
        }
    } else {
        Some(amount)
    }
}

/// Part of a claim of `amount` that must first be unstaked.
pub open spec fn unstake_deficit(v: Vault, amount: int) -> int {
    if amount > liquid(v) {
        amount - liquid(v)
    } else {
        0
    }
}

/// Liquid shares once the deficit of a claim is unstaked.
pub open spec fn liquid_shares_after(s: ContractState, v: Vault, amount: int) -> int {
    s.total_shares - (s.total_staked - unstake_deficit(v, amount))
}

/// Why a claim of `amount` from vault `vault_id` by `caller` (as the owner,
/// or as the delegate when `by_delegate`) is refused.
pub open spec fn claim_error(
    s: ContractState,
    caller: AccountId,
    vault_id: u64,
    amount: i128,
    now: u64,
    token_balance: i128,
    by_delegate: bool,
) -> Option<VestingError> {
    let v = vault_of(s, vault_id);
    let claimant = if by_delegate {
        v.delegate
    } else {
        Some(v.owner)
    };
    if !has_vault(s, vault_id) {
        Some(VestingError::MissingVault)
    } else if s.is_paused || v.is_frozen {
        Some(VestingError::PausedOrFrozen)
    } else if !v.is_initialized {
        Some(VestingError::NotInitialized)
    } else if amount <= 0 {
        Some(VestingError::InvalidAmount)
    } else if claimant is None {
        Some(VestingError::NotConfigured)
    } else if claimant != Some(caller) {
        Some(VestingError::Unauthorized)
    } else if s.milestones.contains_key(vault_id) && s.milestones[vault_id].len() == 0 {
        Some(VestingError::NotConfigured)
    } else if amount > vault_unlocked(s, vault_id, now) - v.released_amount {
        Some(VestingError::InsufficientBalance)
    } else if unstake_deficit(v, amount as int) > 0 && s.staking_contract is None {
        Some(VestingError::NotConfigured)
    } else if s.token is None {
        Some(VestingError::NotConfigured)
    } else if yield_share(amount as int, token_balance as int, s.admin_balance, liquid_shares_after(s, v, amount as int)) is None {
        Some(VestingError::Overflow)
    } else {
        None
    }
}

/// The state after a successful claim of `amount` from vault `vault_id`.
pub open spec fn after_claim(s: ContractState, vault_id: u64, amount: int) -> ContractState {
    let v = vault_of(s, vault_id);
    let deficit = unstake_deficit(v, amount);
    ContractState {
        vaults: s.vaults.update(
            vault_id - 1,
            Vault {
                released_amount: (v.released_amount + amount) as i128,
                staked_amount: (v.staked_amount - deficit) as i128,
                ..v
            },
        ),
        total_shares: s.total_shares - amount,
        total_staked: s.total_staked - deficit,
        paid_out: s.paid_out + amount,
        ..s
    }
}

/// What a successful claim hands to the token and staking contracts.
pub open spec fn claim_outcome(
    s: ContractState,
    vault_id: u64,
    amount: int,
    token_balance: i128,
) -> ClaimOutcome {
    let v = vault_of(s, vault_id);
    let deficit = unstake_deficit(v, amount);
    ClaimOutcome {
        unstake: if deficit > 0 {
            Some(
                StakingCall {
                    contract: s.staking_contract->Some_0,
                    vault_id,
                    amount: deficit as i128,
                    validator: None,
                },
            )
        } else {
            None
        },
        payout: Transfer {
            token: s.token->Some_0,
            to: v.owner,
            amount: yield_share(amount, token_balance as int, s.admin_balance, liquid_shares_after(s, v, amount))->Some_0 as i128,
        },
    }
}

/// `s` with vault `vault_id` replaced by `v`.
pub open spec fn with_vault(s: ContractState, vault_id: u64, v: Vault) -> ContractState {
    ContractState { vaults: s.vaults.update(vault_id - 1, v), ..s }
}

/// Why an admin operation on vault `vault_id` is refused before its own
/// checks.
pub open spec fn admin_vault_gate(s: ContractState, caller: AccountId, vault_id: u64) -> Option<VestingError> {
    if admin_gate(s, caller).is_some() {
        admin_gate(s, caller)
    } else if !has_vault(s, vault_id) {
        Some(VestingError::MissingVault)
    } else {
        None
    }
}

/// The state after `amount` of vault `vault_id`'s principal returns to the
/// admin.
pub open spec fn after_revoke(s: ContractState, vault_id: u64, amount: int) -> ContractState {
    let v = vault_of(s, vault_id);
    ContractState {
        vaults: s.vaults.update(vault_id - 1, Vault { released_amount: (v.released_amount + amount) as i128, ..v }),
        admin_balance: s.admin_balance + amount,
        total_shares: s.total_shares - amount,
        ..s
    }
}

pub open spec fn revoke_error(s: ContractState, caller: AccountId, vault_id: u64) -> Option<VestingError> {
    if admin_vault_gate(s, caller, vault_id).is_some() {
        admin_vault_gate(s, caller, vault_id)
    } else if vault_of(s, vault_id).is_irrevocable {
        Some(VestingError::Irrevocable)
    } else {
        None
    }
}

/// The first refusal met when revoking `ids` in order.
pub open spec fn batch_revoke_error(s: ContractState, ids: Seq<u64>) -> Option<VestingError>
    decreases ids.len(),
{
    if ids.len() == 0 {
        None
    } else if batch_revoke_error(s, ids.drop_last()).is_some() {
        batch_revoke_error(s, ids.drop_last())
    } else if !has_vault(s, ids.last()) {
        Some(VestingError::MissingVault)
    } else if vault_of(s, ids.last()).is_irrevocable {
        Some(VestingError::Irrevocable)
    } else {
        None
    }
}

/// Revokes the whole liquid balance of vault `vault_id`.
pub open spec fn revoke_all(s: ContractState, vault_id: u64) -> ContractState {
    after_revoke(s, vault_id, liquid(vault_of(s, vault_id)))
}

/// The state after revoking each of `ids` in order.
pub open spec fn after_batch_revoke(s: ContractState, ids: Seq<u64>) -> ContractState
    decreases ids.len(),
{
    if ids.len() == 0 {
        s
    } else {
        revoke_all(after_batch_revoke(s, ids.drop_last()), ids.last())
    }
}

pub open spec fn clawback_error(s: ContractState, caller: AccountId, vault_id: u64, now: u64) -> Option<VestingError> {
    let v = vault_of(s, vault_id);
    if admin_vault_gate(s, caller, vault_id).is_some() {
        admin_vault_gate(s, caller, vault_id)
    } else if now > v.creation_time + CLAWBACK_GRACE_PERIOD || v.released_amount > 0 {
        Some(VestingError::ClawbackClosed)
    } else if v.staked_amount > 0 {
        Some(VestingError::InsufficientBalance)
    } else {
        None
    }
}

/// Why setting a vault flag to `target` is refused.
pub open spec fn flag_error(s: ContractState, caller: AccountId, vault_id: u64, current: bool, target: bool) -> Option<VestingError> {
    if admin_vault_gate(s, caller, vault_id).is_some() {
        admin_vault_gate(s, caller, vault_id)
    } else if current == target {
        Some(VestingError::AlreadyInTargetState)
    } else {
        None
    }
}

/// Why a keeper-triggered claim on vault `vault_id` is refused.
pub open spec fn auto_claim_error(
    s: ContractState,
    keeper: AccountId,
    vault_id: u64,
    now: u64,
    token_balance: i128,
) -> Option<VestingError> {
    let v = vault_of(s, vault_id);
    let claimable = vault_unlocked(s, vault_id, now) - v.released_amount;
    let liquid_shares = s.total_shares - s.total_staked;
    if s.is_paused {
        Some(VestingError::PausedOrFrozen)
    } else if !has_vault(s, vault_id) {
        Some(VestingError::MissingVault)
    } else if v.is_frozen {
        Some(VestingError::PausedOrFrozen)
    } else if !v.is_initialized {
        Some(VestingError::NotInitialized)
    } else if s.milestones.contains_key(vault_id) && s.milestones[vault_id].len() == 0 {
        Some(VestingError::NotConfigured)
    } else if claimable <= v.keeper_fee || claimable > liquid(v) {
        Some(VestingError::InsufficientBalance)
    } else if s.token is None {
        Some(VestingError::NotConfigured)
    } else if yield_share(claimable - v.keeper_fee, token_balance as int, s.admin_balance, liquid_shares) is None
        || yield_share(v.keeper_fee as int, token_balance as int, s.admin_balance, liquid_shares) is None {
        Some(VestingError::Overflow)
    } else if keeper_fee_of(s, keeper) + v.keeper_fee > i128::MAX {
        Some(VestingError::Overflow)
    } else {
        None
    }
}

/// Fees accumulated by `keeper`.
pub open spec fn keeper_fee_of(s: ContractState, keeper: AccountId) -> int {
    if s.keeper_fees.contains_key(keeper) {
        s.keeper_fees[keeper] as int
    } else {
        0
    }
}

/// Amount a keeper-triggered claim releases: everything unlocked and not yet
/// released.
pub open spec fn auto_claimable(s: ContractState, vault_id: u64, now: u64) -> int {
    vault_unlocked(s, vault_id, now) - vault_of(s, vault_id).released_amount
}

pub open spec fn after_auto_claim(s: ContractState, keeper: AccountId, vault_id: u64, now: u64) -> ContractState {
    let v = vault_of(s, vault_id);
    let claimable = auto_claimable(s, vault_id, now);
    ContractState {
        vaults: s.vaults.update(vault_id - 1, Vault { released_amount: (v.released_amount + claimable) as i128, ..v }),
        total_shares: s.total_shares - claimable,
        paid_out: s.paid_out + claimable,
        keeper_fees: s.keeper_fees.insert(keeper, (keeper_fee_of(s, keeper) + v.keeper_fee) as i128),
        ..s
    }
}

pub open spec fn auto_claim_outcome(
    s: ContractState,
    keeper: AccountId,
    vault_id: u64,
    now: u64,
    token_balance: i128,
) -> AutoClaimOutcome {
    let v = vault_of(s, vault_id);
    let claimable = auto_claimable(s, vault_id, now);
    let liquid_shares = s.total_shares - s.total_staked;
    AutoClaimOutcome {
        to_beneficiary: Transfer {
            token: s.token->Some_0,
            to: v.owner,
            amount: yield_share(claimable - v.keeper_fee, token_balance as int, s.admin_balance, liquid_shares)->Some_0 as i128,
        },
        to_keeper: Transfer {
            token: s.token->Some_0,
            to: keeper,
            amount: yield_share(v.keeper_fee as int, token_balance as int, s.admin_balance, liquid_shares)->Some_0 as i128,
        },
    }
}

/// Why staking `amount` of vault `vault_id` is refused.
pub open spec fn stake_error(s: ContractState, caller: AccountId, vault_id: u64, amount: i128) -> Option<VestingError> {
    let v = vault_of(s, vault_id);
    if s.is_deprecated {
        Some(VestingError::Deprecated)
    } else if !has_vault(s, vault_id) {
        Some(VestingError::MissingVault)
    } else if !v.is_initialized {
        Some(VestingError::NotInitialized)
    } else if caller != v.owner {
        Some(VestingError::Unauthorized)
    } else if amount <= 0 {
        Some(VestingError::InvalidAmount)
    } else if amount > liquid(v) {
        Some(VestingError::InsufficientBalance)
    } else if s.staking_contract is None {
        Some(VestingError::NotConfigured)
    } else {
        None
    }
}

pub open spec fn after_stake(s: ContractState, vault_id: u64, amount: int) -> ContractState {
    let v = vault_of(s, vault_id);
    ContractState {
        vaults: s.vaults.update(vault_id - 1, Vault { staked_amount: (v.staked_amount + amount) as i128, ..v }),
        total_staked: s.total_staked + amount,
        ..s
    }
}

/// Why an owner operation on a materialized vault is refused.
pub open spec fn owner_gate(s: ContractState, caller: AccountId, vault_id: u64) -> Option<VestingError> {
    if !has_vault(s, vault_id) {
        Some(VestingError::MissingVault)
    } else if !vault_of(s, vault_id).is_initialized {
        Some(VestingError::NotInitialized)
    } else if caller != vault_of(s, vault_id).owner {
        Some(VestingError::Unauthorized)
    } else {
        None
    }
}

/// `ids` without any occurrence of `vault_id`, order kept.
pub open spec fn without(ids: Seq<u64>, vault_id: u64) -> Seq<u64>
    decreases ids.len(),
{
    if ids.len() == 0 {
        ids
    } else if ids.last() == vault_id {
        without(ids.drop_last(), vault_id)
    } else {
        without(ids.drop_last(), vault_id).push(ids.last())
    }
}

/// The owner index after vault `vault_id` moves from `from` to `to`.
pub open spec fn index_moved(s: ContractState, vault_id: u64, from: AccountId, to: AccountId) -> Map<AccountId, Seq<u64>> {
    let removed = ContractState { user_vaults: s.user_vaults.insert(from, without(index_of(s, from), vault_id)), ..s };
    index_append(removed, to, vault_id)
}

/// The state after vault `vault_id` passes to `new_owner`: its delegate is
/// cleared, and a materialized vault moves in the owner index.
pub open spec fn after_owner_change(s: ContractState, vault_id: u64, new_owner: AccountId) -> ContractState {
    let v = vault_of(s, vault_id);
    ContractState {
        vaults: s.vaults.update(vault_id - 1, Vault { owner: new_owner, delegate: None, ..v }),
        user_vaults: if v.is_initialized {
            index_moved(s, vault_id, v.owner, new_owner)
        } else {
            s.user_vaults
        },
        ..s
    }
}

/// Sum of all percentages of a milestone set.
pub open spec fn pct_total(ms: Seq<Milestone>) -> int
    decreases ms.len(),
{
    if ms.len() == 0 {
        0
    } else {
        pct_total(ms.drop_last()) + ms.last().percentage
    }
}

/// A milestone set that may be configured: non-empty, every percentage in
/// 1..=100, ids distinct, and at most 100 percent in all.
pub open spec fn milestones_valid(ms: Seq<Milestone>) -> bool {
    &&& ms.len() > 0
    &&& forall|i: int| 0 <= i < ms.len() ==> 0 < (#[trigger] ms[i]).percentage <= 100
    &&& forall|i: int, j: int| 0 <= i < j < ms.len() ==> (#[trigger] ms[i]).id != (#[trigger] ms[j]).id
    &&& pct_total(ms) <= 100
}

pub open spec fn set_milestones_error(s: ContractState, caller: AccountId, vault_id: u64, ms: Seq<Milestone>) -> Option<VestingError> {
    if admin_vault_gate(s, caller, vault_id).is_some() {
        admin_vault_gate(s, caller, vault_id)
    } else if !vault_of(s, vault_id).is_initialized {
        Some(VestingError::NotInitialized)
    } else if s.milestones.contains_key(vault_id) {
        Some(VestingError::AlreadyInTargetState)
    } else if !milestones_valid(ms) {
        Some(VestingError::InvalidMilestones)
    } else {
        None
    }
}

/// Milestone `m`, unlocked if its id is `milestone_id`.
pub open spec fn unlock_if(m: Milestone, milestone_id: u64) -> Milestone {
    if m.id == milestone_id {
        Milestone { is_unlocked: true, ..m }
    } else {
        m
    }
}

pub open spec fn unlock_error(s: ContractState, caller: AccountId, vault_id: u64, milestone_id: u64) -> Option<VestingError> {
    let ms = s.milestones[vault_id];
    if admin_vault_gate(s, caller, vault_id).is_some() {
        admin_vault_gate(s, caller, vault_id)
    } else if !s.milestones.contains_key(vault_id) || ms.len() == 0 {
        Some(VestingError::NotConfigured)
    } else if !(exists|i: int| 0 <= i < ms.len() && (#[trigger] ms[i]).id == milestone_id) {
        Some(VestingError::InvalidMilestones)
    } else if exists|i: int| 0 <= i < ms.len() && (#[trigger] ms[i]).id == milestone_id && ms[i].is_unlocked {
        Some(VestingError::AlreadyInTargetState)
    } else {
        None
    }
}

/// Columns describing many vaults at once; entry `i` of each column belongs
/// to the `i`-th vault. A missing step duration means continuous vesting.
pub struct BatchCreateData {
    pub recipients: Vec<AccountId>,
    pub amounts: Vec<i128>,
    pub start_times: Vec<u64>,
    pub end_times: Vec<u64>,
    pub keeper_fees: Vec<i128>,
    pub step_durations: Vec<u64>,
}

pub open spec fn amounts_sum(xs: Seq<i128>) -> int
    decreases xs.len(),
{
    if xs.len() == 0 {
        0
    } else {
        amounts_sum(xs.drop_last()) + xs.last()
    }
}

pub open spec fn batch_shape_ok(b: &BatchCreateData) -> bool {
    let n = b.recipients@.len();
    &&& b.amounts@.len() == n
    &&& b.start_times@.len() == n
    &&& b.end_times@.len() == n
    &&& b.keeper_fees@.len() == n
    &&& b.step_durations@.len() <= n
}

/// The `i`-th vault of a batch: revocable, not transferable.
pub open spec fn batch_vault(b: &BatchCreateData, i: int, now: u64, initialized: bool) -> Vault {
    fresh_vault(
        b.recipients@[i],
        b.amounts@[i],
        b.start_times@[i],
        b.end_times@[i],
        b.keeper_fees@[i],
        true,
        false,
        if i < b.step_durations@.len() {
            b.step_durations@[i]
        } else {
            0
        },
        now,
        initialized,
    )
}

pub open spec fn batch_error(s: ContractState, caller: AccountId, b: &BatchCreateData) -> Option<VestingError> {
    let n = b.recipients@.len();
    if admin_gate(s, caller).is_some() {
        admin_gate(s, caller)
    } else if !batch_shape_ok(b) {
        Some(VestingError::InvalidBatch)
    } else if exists|i: int| 0 <= i < n && !valid_window(#[trigger] b.start_times@[i], b.end_times@[i]) {
        Some(VestingError::InvalidDuration)
    } else if exists|i: int| 0 <= i < n && (#[trigger] b.amounts@[i] <= 0 || b.keeper_fees@[i] < 0) {
        Some(VestingError::InvalidAmount)
    } else if amounts_sum(b.amounts@) > s.admin_balance {
        Some(VestingError::InsufficientBalance)
    } else if s.vaults.len() + n >= u64::MAX {
        Some(VestingError::Overflow)
    } else {
        None
    }
}

/// The state after creating the first `k` vaults of a batch in order.
pub open spec fn after_batch_create(s: ContractState, b: &BatchCreateData, now: u64, initialized: bool, k: nat) -> ContractState
    decreases k,
{
    if k == 0 {
        s
    } else {
        after_create(after_batch_create(s, b, now, initialized, (k - 1) as nat), batch_vault(b, k - 1, now, initialized))
    }
}

/// Ids a batch of `n` vaults receives.
pub open spec fn batch_ids(s: ContractState, n: int) -> Seq<u64> {
    Seq::new(n as nat, |i: int| (s.vaults.len() + 1 + i) as u64)
}

/// State of the vesting contract.
#[derive(Clone)]
pub struct VestingContract {
    admin: AccountId,
    proposed_admin: Option<AccountId>,
    initial_supply: i128,
    admin_balance: i128,
    vaults: Vec<Vault>,
    user_vaults: HashMap<AccountId, Vec<u64>>,
    milestones: HashMap<u64, Vec<Milestone>>,
    keeper_fees: HashMap<AccountId, i128>,
    whitelist: Vec<AccountId>,
    is_paused: bool,
    is_deprecated: bool,
    migration_target: Option<AccountId>,
    token: Option<AccountId>,
    staking_contract: Option<AccountId>,
    total_shares: i128,
    total_staked: i128,
    paid_out: Ghost<int>,
}

impl View for VestingContract {
    type V = ContractState;

    closed spec fn view(&self) -> ContractState {
        ContractState {
            admin: self.admin,
            proposed_admin: self.proposed_admin,
            initial_supply: self.initial_supply as int,
            admin_balance: self.admin_balance as int,
            vaults: self.vaults@,
            user_vaults: index_view(self.user_vaults@),
            milestones: milestones_view(self.milestones@),
            keeper_fees: self.keeper_fees@,
            whitelist: self.whitelist@,
            is_paused: self.is_paused,
            is_deprecated: self.is_deprecated,
            migration_target: self.migration_target,
            token: self.token,
            staking_contract: self.staking_contract,
            total_shares: self.total_shares as int,
            total_staked: self.total_staked as int,
            paid_out: self.paid_out@,
        }
    }
}

impl VestingContract {
    pub open spec fn wf(&self) -> bool {
        state_wf(self@)
    }

    /// A contract whose admin holds the whole `initial_supply`.
    pub fn initialize(admin: AccountId, initial_supply: i128) -> (r: Result<VestingContract, VestingError>)
        ensures
            initial_supply < 0 ==> r is Err && r->Err_0 == VestingError::InvalidAmount,
            initial_supply >= 0 ==> r is Ok && r->Ok_0.wf() && r->Ok_0@ == (ContractState {
                admin,
                proposed_admin: None,
                initial_supply: initial_supply as int,
                admin_balance: initial_supply as int,
                vaults: Seq::empty(),
                user_vaults: Map::empty(),
                milestones: Map::empty(),
                keeper_fees: Map::empty(),
                whitelist: Seq::empty(),
                is_paused: false,
                is_deprecated: false,
                migration_target: None,
                token: None,
                staking_contract: None,
                total_shares: 0,
                total_staked: 0,
                paid_out: 0,
            }),
    {
        if initial_supply < 0 {
            return Err(VestingError::InvalidAmount);
        }
        let c = VestingContract {
            admin,
            proposed_admin: None,
            initial_supply,
            admin_balance: initial_supply,
            vaults: Vec::new(),
            user_vaults: HashMap::new(),
            milestones: HashMap::new(),
            keeper_fees: HashMap::new(),
            whitelist: Vec::new(),
            is_paused: false,
            is_deprecated: false,
            migration_target: None,
            token: None,
            staking_contract: None,
            total_shares: 0,
            total_staked: 0,
            paid_out: Ghost(0),
        };
        proof {
            assert(index_view(c.user_vaults@) =~= Map::empty());
            assert(milestones_view(c.milestones@) =~= Map::empty());
        }
        Ok(c)
    }

    /// Refuses unless the contract is live and `caller` is its admin.
    fn require_admin(&self, caller: AccountId) -> (r: Result<(), VestingError>)
        ensures
            match admin_gate(self@, caller) {
                Some(e) => r == Err::<(), VestingError>(e),
                None => r is Ok,
            },
    {
        if self.is_deprecated {
            return Err(VestingError::Deprecated);
        }
        if caller != self.admin {
            return Err(VestingError::Unauthorized);
        }
        Ok(())
    }

    /// Accepts a window that does not run backwards and lasts at most
    /// [`MAX_DURATION`].
    pub fn require_valid_duration(start_time: u64, end_time: u64) -> (r: Result<(), VestingError>)
        ensures
            valid_window(start_time, end_time) ==> r is Ok,
            !valid_window(start_time, end_time) ==> r == Err::<(), VestingError>(VestingError::InvalidDuration),
    {
        if end_time < start_time {
            return Err(VestingError::InvalidDuration);
        }
        if end_time - start_time > MAX_DURATION {
            return Err(VestingError::InvalidDuration);
        }
        Ok(())
    }

    /// Position of vault `vault_id` in the vault list, if it exists.
    fn vault_index(&self, vault_id: u64) -> (r: Option<usize>)
        requires
            self.wf(),
        ensures
            has_vault(self@, vault_id) ==> r is Some && r->Some_0 as int == vault_id - 1,
            !has_vault(self@, vault_id) ==> r is None,
    {
        if vault_id == 0 || vault_id > self.vaults.len() as u64 {
            None
        } else {
            Some((vault_id - 1) as usize)
        }
    }

    proof fn lemma_index_insert(m: Map<AccountId, Vec<u64>>, k: AccountId, v: Vec<u64>)
        ensures
            index_view(m.insert(k, v)) == index_view(m).insert(k, v@),
    {
        assert(index_view(m.insert(k, v)) =~= index_view(m).insert(k, v@));
    }

    /// Appends `vault_id` to `user`'s entry of the owner index.
    fn index_push(&mut self, user: AccountId, vault_id: u64)
        ensures
            final(self)@ == (ContractState { user_vaults: index_append(old(self)@, user, vault_id), ..old(self)@ }),
    {
        let mut ids: Vec<u64> = match self.user_vaults.get(&user) {
            Some(v) => v.clone(),
            None => Vec::new(),
        };
        proof {
            assert(ids@ == index_of(old(self)@, user));
        }
        ids.push(vault_id);
        let ghost before = self.user_vaults@;
        self.user_vaults.insert(user, ids);
        proof {
            Self::lemma_index_insert(before, user, ids);
        }
    }

    /// Writes a new vault and debits the admin balance.
    fn create_vault(
        &mut self,
        caller: AccountId,
        owner: AccountId,
        amount: i128,
        start_time: u64,
        end_time: u64,
        keeper_fee: i128,
        is_revocable: bool,
        is_transferable: bool,
        step_duration: u64,
        now: u64,
        initialized: bool,
    ) -> (r: Result<u64, VestingError>)
        requires
            old(self).wf(),
        ensures
            final(self).wf(),
            match create_error(old(self)@, caller, amount, start_time, end_time, keeper_fee) {
                Some(e) => r == Err::<u64, VestingError>(e) && final(self)@ == old(self)@,
                None => r == Ok::<u64, VestingError>((old(self)@.vaults.len() + 1) as u64) && final(self)@
                    == after_create(
                    old(self)@,
                    fresh_vault(
                        owner,
                        amount,
                        start_time,
                        end_time,
                        keeper_fee,
                        is_revocable,
                        is_transferable,
                        step_duration,
                        now,
                        initialized,
                    ),
                ),
            },
    {
        self.require_admin(caller)?;
        Self::require_valid_duration(start_time, end_time)?;
        if amount <= 0 || keeper_fee < 0 {
            return Err(VestingError::InvalidAmount);
        }
        if self.admin_balance < amount {
            return Err(VestingError::InsufficientBalance);
        }
        if self.vaults.len() as u64 >= u64::MAX - 1 {
            return Err(VestingError::Overflow);
        }
        let vault = Vault {
            total_amount: amount,
            released_amount: 0,
            keeper_fee,
            staked_amount: 0,
            owner,
            delegate: None,
            start_time,
            end_time,
            creation_time: now,
            step_duration,
            is_initialized: initialized,
            is_irrevocable: !is_revocable,
            is_transferable,
            is_frozen: false,
        };
        Ok(self.push_vault(vault))
    }

    /// Creates a vault and lists it under its owner at once. Returns its id.
    pub fn create_vault_full(
        &mut self,
        caller: AccountId,
        owner: AccountId,
        amount: i128,
        start_time: u64,
        end_time: u64,
        keeper_fee: i128,
        is_revocable: bool,
        is_transferable: bool,
        step_duration: u64,
        now: u64,
    ) -> (r: Result<u64, VestingError>)
        requires
            old(self).wf(),
        ensures
            final(self).wf(),
            match create_error(old(self)@, caller, amount, start_time, end_time, keeper_fee) {
                Some(e) => r == Err::<u64, VestingError>(e) && final(self)@ == old(self)@,
                None => r == Ok::<u64, VestingError>((old(self)@.vaults.len() + 1) as u64) && final(self)@
                    == after_create(
                    old(self)@,
                    fresh_vault(
                        owner,
                        amount,
                        start_time,
                        end_time,
                        keeper_fee,
                        is_revocable,
                        is_transferable,
                        step_duration,
                        now,
                        true,
                    ),
                ),
            },
    {
        self.create_vault(
            caller,
            owner,
            amount,
            start_time,
            end_time,
            keeper_fee,
            is_revocable,
            is_transferable,
            step_duration,
            now,
            true,
        )
    }

    /// Creates a vault and defers listing it under its owner until it is
    /// first read. Returns its id.
    pub fn create_vault_lazy(
        &mut self,
        caller: AccountId,
        owner: AccountId,
        amount: i128,
        start_time: u64,
        end_time: u64,
        keeper_fee: i128,
        is_revocable: bool,
        is_transferable: bool,
        step_duration: u64,
        now: u64,
    ) -> (r: Result<u64, VestingError>)
        requires
            old(self).wf(),
        ensures
            final(self).wf(),
            match create_error(old(self)@, caller, amount, start_time, end_time, keeper_fee) {
                Some(e) => r == Err::<u64, VestingError>(e) && final(self)@ == old(self)@,
                None => r == Ok::<u64, VestingError>((old(self)@.vaults.len() + 1) as u64) && final(self)@
                    == after_create(
                    old(self)@,
                    fresh_vault(
                        owner,
                        amount,
                        start_time,
                        end_time,
                        keeper_fee,
                        is_revocable,
                        is_transferable,
                        step_duration,
                        now,
                        false,
                    ),
                ),
            },
    {
        self.create_vault(
            caller,
            owner,
            amount,
            start_time,
            end_time,
            keeper_fee,
            is_revocable,
            is_transferable,
            step_duration,
            now,
            false,
        )
    }

    /// Performs the deferred index write of a lazily created vault. Returns
    /// whether it wrote anything: `true` exactly once per vault (never while
    /// the contract is deprecated).
    pub fn initialize_vault_metadata(&mut self, vault_id: u64) -> (r: Result<bool, VestingError>)
        requires
            old(self).wf(),
        ensures
            final(self).wf(),
            releases_grow(old(self)@, final(self)@),
            final(self)@ == materialize(old(self)@, vault_id),
            !old(self)@.is_deprecated && !has_vault(old(self)@, vault_id)
                ==> r == Err::<bool, VestingError>(VestingError::MissingVault),
            old(self)@.is_deprecated ==> r == Ok::<bool, VestingError>(false),
            !old(self)@.is_deprecated && has_vault(old(self)@, vault_id) ==> r == Ok::<bool, VestingError>(
                !vault_of(old(self)@, vault_id).is_initialized,
            ),
    {
        if self.is_deprecated {
            return Ok(false);
        }
        let idx = match self.vault_index(vault_id) {
            Some(i) => i,
            None => return Err(VestingError::MissingVault),
        };
        let vault = self.vaults[idx];
        if vault.is_initialized {
            return Ok(false);
        }
        let ghost s0 = self@;
        let updated = Vault { is_initialized: true, ..vault };
        proof {
            lemma_sums_update(s0.vaults, idx as int, updated);
            assert(vault_wf(updated));
        }
        self.vaults.set(idx, updated);
        self.index_push(vault.owner, vault_id);
        proof {
            assert(self@ == materialize(s0, vault_id));
        }
        Ok(true)
    }

    /// The vault's record, materializing it first if it was created lazily.
    pub fn get_vault(&mut self, vault_id: u64) -> (r: Result<Vault, VestingError>)
        requires
            old(self).wf(),
        ensures
            final(self).wf(),
            releases_grow(old(self)@, final(self)@),
            !has_vault(old(self)@, vault_id) ==> r == Err::<Vault, VestingError>(VestingError::MissingVault)
                && final(self)@ == old(self)@,
            has_vault(old(self)@, vault_id) ==> final(self)@ == materialize(old(self)@, vault_id) && r
                == Ok::<Vault, VestingError>(vault_of(final(self)@, vault_id)),
    {
        let idx = match self.vault_index(vault_id) {
            Some(i) => i,
            None => return Err(VestingError::MissingVault),
        };
        if !self.vaults[idx].is_initialized {
            let _ = self.initialize_vault_metadata(vault_id);
        }
        Ok(self.vaults[idx])
    }

    /// Compares the supply with what is allocated: true when the unallocated
    /// balance and the principal locked in vaults do not exceed it.
    pub fn check_invariant(&self) -> (r: bool)
        requires
            self.wf(),
        ensures
            r == (self@.initial_supply - locked_sum(self@.vaults) - self@.admin_balance >= 0),
            r,
    {
        let (total_locked, _total_claimed, admin_balance) = self.get_contract_state();
        proof {
            lemma_sums_bounds(self@.vaults);
        }
        self.initial_supply - total_locked >= admin_balance
    }

    /// `(locked, released, admin balance)`: the principal not yet released
    /// over all vaults, the principal released over all vaults (saturating at
    /// `i128::MAX`), and the unallocated balance.
    pub fn get_contract_state(&self) -> (r: (i128, i128, i128))
        requires
            self.wf(),
        ensures
            r.0 == locked_sum(self@.vaults),
            r.1 == if released_sum(self@.vaults) > i128::MAX {
                i128::MAX as int
            } else {
                released_sum(self@.vaults)
            },
            r.2 == self@.admin_balance,
    {
        let mut total_locked: i128 = 0;
        let mut total_claimed: i128 = 0;
        let mut i: usize = 0;
        proof {
            lemma_sums_bounds(self@.vaults);
        }
        while i < self.vaults.len()
            invariant
                self.wf(),
                i <= self.vaults.len(),
                total_locked == locked_sum(self.vaults@.subrange(0, i as int)),
                total_claimed == if released_sum(self.vaults@.subrange(0, i as int)) > i128::MAX {
                    i128::MAX as int
                } else {
                    released_sum(self.vaults@.subrange(0, i as int))
                },
            decreases self.vaults.len() - i,
        {
            let v = self.vaults[i];
            proof {
                let pre = self.vaults@.subrange(0, i as int);
                let next = self.vaults@.subrange(0, i + 1);
                assert(next =~= pre.push(v));
                lemma_sums_push(pre, v);
                lemma_sums_bounds(next);
                lemma_sums_bounds(pre);
                lemma_prefix_locked_le(self.vaults@, i as int + 1);
            }
            total_locked = total_locked + (v.total_amount - v.released_amount);
            total_claimed = if total_claimed > i128::MAX - v.released_amount {
                i128::MAX
            } else {
                total_claimed + v.released_amount
            };
            i = i + 1;
        }
        proof {
            assert(self.vaults@.subrange(0, self.vaults@.len() as int) =~= self.vaults@);
        }
        (total_locked, total_claimed, self.admin_balance)
    }

    /// Amount unlocked by `unlocked_percentage` percent of `total_amount`.
    pub fn unlocked_amount(total_amount: i128, unlocked_percentage: u32) -> (r: i128)
        requires
            total_amount >= 0,
            unlocked_percentage <= 100,
        ensures
            r == pct_of(total_amount as int, unlocked_percentage as int),
            0 <= r <= total_amount,
    {
        percentage_of(total_amount, unlocked_percentage)
    }

    /// The vault's unlocked amount, refused when an empty milestone set is
    /// configured.
    fn unlocked_of(&self, idx: usize, vault_id: u64, now: u64) -> (r: Result<i128, VestingError>)
        requires
            self.wf(),
            has_vault(self@, vault_id),
            idx == vault_id - 1,
        ensures
            self@.milestones.contains_key(vault_id) && self@.milestones[vault_id].len() == 0
                ==> r == Err::<i128, VestingError>(VestingError::NotConfigured),
            !(self@.milestones.contains_key(vault_id) && self@.milestones[vault_id].len() == 0) ==> r is Ok
                && r->Ok_0 == vault_unlocked(self@, vault_id, now),
            r is Ok ==> 0 <= r->Ok_0 <= vault_of(self@, vault_id).total_amount,
    {
        let vault = self.vaults[idx];
        proof {
            assert(vault_wf(self@.vaults[idx as int]));
        }
        match self.milestones.get(&vault_id) {
            Some(ms) => {
                if ms.len() == 0 {
                    return Err(VestingError::NotConfigured);
                }
                let pct = unlocked_percentage(ms);
                Ok(Self::unlocked_amount(vault.total_amount, pct))
            },
            None => Ok(calculate_time_vested_amount(&vault, now)),
        }
    }

    /// `amount`'s share of the yield-bearing balance; see [`yield_share`].
    fn yield_amount(amount: i128, token_balance: i128, admin_balance: i128, liquid_shares: i128) -> (r: Option<i128>)
        requires
            amount >= 0,
            admin_balance >= 0,
            liquid_shares >= 0,
        ensures
            r matches Some(x) ==> yield_share(amount as int, token_balance as int, admin_balance as int, liquid_shares as int) == Some(x as int),
            r is None ==> yield_share(amount as int, token_balance as int, admin_balance as int, liquid_shares as int) is None,
    {
        let portion: i128 = if token_balance > admin_balance {
            token_balance - admin_balance
        } else {
            0
        };
        if liquid_shares > 0 {
            match amount.checked_mul(portion) {
                Some(product) => {
                    proof {
                        vstd::arithmetic::mul::lemma_mul_nonnegative(amount as int, portion as int);
                        vstd::arithmetic::div_mod::lemma_div_pos_is_pos(product as int, liquid_shares as int);
                        vstd::arithmetic::div_mod::lemma_div_is_ordered_by_denominator(product as int, 1, liquid_shares as int);
                    }
                    Some(((product as u128) / (liquid_shares as u128)) as i128)
                },
                None => None,
            }
        } else {
            Some(amount)
        }
    }

    fn claim_core(
        &mut self,
        caller: AccountId,
        vault_id: u64,
        claim_amount: i128,
        now: u64,
        token_balance: i128,
        by_delegate: bool,
    ) -> (r: Result<ClaimOutcome, VestingError>)
        requires
            old(self).wf(),
        ensures
            final(self).wf(),
            releases_grow(old(self)@, final(self)@),
            match claim_error(old(self)@, caller, vault_id, claim_amount, now, token_balance, by_delegate) {
                Some(e) => r == Err::<ClaimOutcome, VestingError>(e) && final(self)@ == old(self)@,
                None => r == Ok::<ClaimOutcome, VestingError>(claim_outcome(old(self)@, vault_id, claim_amount as int, token_balance))
                    && final(self)@ == after_claim(old(self)@, vault_id, claim_amount as int),
            },
    {
        let idx = match self.vault_index(vault_id) {
            Some(i) => i,
            None => return Err(VestingError::MissingVault),
        };
        let vault = self.vaults[idx];
        if self.is_paused || vault.is_frozen {
            return Err(VestingError::PausedOrFrozen);
        }
        if !vault.is_initialized {
            return Err(VestingError::NotInitialized);
        }
        if claim_amount <= 0 {
            return Err(VestingError::InvalidAmount);
        }
        let claimant = if by_delegate {
            vault.delegate
        } else {
            Some(vault.owner)
        };
        match claimant {
            None => return Err(VestingError::NotConfigured),
            Some(c) => {
                if c != caller {
                    return Err(VestingError::Unauthorized);
                }
            },
        }
        let unlocked = self.unlocked_of(idx, vault_id, now)?;
        proof {
            assert(vault_wf(self@.vaults[idx as int]));
            lemma_sums_bounds(self@.vaults);
            lemma_locked_sum_ge(self@.vaults, idx as int);
        }
        if claim_amount > unlocked - vault.released_amount {
            return Err(VestingError::InsufficientBalance);
        }
        let liquid_balance = vault.total_amount - vault.released_amount - vault.staked_amount;
        let deficit: i128 = if claim_amount > liquid_balance {
            claim_amount - liquid_balance
        } else {
            0
        };
        let unstake = if deficit > 0 {
            match self.staking_contract {
                Some(contract) => Some(StakingCall { contract, vault_id, amount: deficit, validator: None }),
                None => return Err(VestingError::NotConfigured),
            }
        } else {
            None
        };
        let token = match self.token {
            Some(t) => t,
            None => return Err(VestingError::NotConfigured),
        };
        let liquid_shares = self.total_shares - (self.total_staked - deficit);
        let transfer_amount = match Self::yield_amount(claim_amount, token_balance, self.admin_balance, liquid_shares) {
            Some(a) => a,
            None => return Err(VestingError::Overflow),
        };
        let ghost s0 = self@;
        let updated = Vault {
            released_amount: vault.released_amount + claim_amount,
            staked_amount: vault.staked_amount - deficit,
            ..vault
        };
        proof {
            lemma_sums_update(s0.vaults, idx as int, updated);
            assert(vault_wf(updated));
        }
        self.vaults.set(idx, updated);
        self.total_shares = self.total_shares - claim_amount;
        self.total_staked = self.total_staked - deficit;
        self.paid_out = Ghost(self.paid_out@ + claim_amount);
        proof {
            assert(self@ == after_claim(s0, vault_id, claim_amount as int));
            lemma_sums_bounds(self@.vaults);
        }
        Ok(ClaimOutcome { unstake, payout: Transfer { token, to: vault.owner, amount: transfer_amount } })
    }

    /// The owner claims `claim_amount` of the vault's unlocked, unreleased
    /// principal. Unstakes what the liquid balance lacks, and pays the owner
    /// the claim's share of the token balance.
    pub fn claim_tokens(
        &mut self,
        caller: AccountId,
        vault_id: u64,
        claim_amount: i128,
        now: u64,
        token_balance: i128,
    ) -> (r: Result<ClaimOutcome, VestingError>)
        requires
            old(self).wf(),
        ensures
            final(self).wf(),
            releases_grow(old(self)@, final(self)@),
            match claim_error(old(self)@, caller, vault_id, claim_amount, now, token_balance, false) {
                Some(e) => r == Err::<ClaimOutcome, VestingError>(e) && final(self)@ == old(self)@,
                None => r == Ok::<ClaimOutcome, VestingError>(claim_outcome(old(self)@, vault_id, claim_amount as int, token_balance))
                    && final(self)@ == after_claim(old(self)@, vault_id, claim_amount as int),
            },
    {
        self.claim_core(caller, vault_id, claim_amount, now, token_balance, false)
    }

    /// The vault's delegate claims on the owner's behalf; the payout still
    /// goes to the owner.
    pub fn claim_as_delegate(
        &mut self,
        caller: AccountId,
        vault_id: u64,
        claim_amount: i128,
        now: u64,
        token_balance: i128,
    ) -> (r: Result<ClaimOutcome, VestingError>)
        requires
            old(self).wf(),
        ensures
            final(self).wf(),
            releases_grow(old(self)@, final(self)@),
            match claim_error(old(self)@, caller, vault_id, claim_amount, now, token_balance, true) {
                Some(e) => r == Err::<ClaimOutcome, VestingError>(e) && final(self)@ == old(self)@,
                None => r == Ok::<ClaimOutcome, VestingError>(claim_outcome(old(self)@, vault_id, claim_amount as int, token_balance))
                    && final(self)@ == after_claim(old(self)@, vault_id, claim_amount as int),
            },
    {
        self.claim_core(caller, vault_id, claim_amount, now, token_balance, true)
    }

    /// Returns `amount` of a vault's liquid principal to the admin.
    fn release_to_admin(&mut self, idx: usize, vault_id: u64, amount: i128)
        requires
            old(self).wf(),
            has_vault(old(self)@, vault_id),
            idx == vault_id - 1,
            0 <= amount <= liquid(vault_of(old(self)@, vault_id)),
        ensures
            final(self).wf(),
            releases_grow(old(self)@, final(self)@),
            final(self)@ == after_revoke(old(self)@, vault_id, amount as int),
    {
        let vault = self.vaults[idx];
        let ghost s0 = self@;
        let updated = Vault { released_amount: vault.released_amount + amount, ..vault };
        proof {
            assert(vault_wf(s0.vaults[idx as int]));
            lemma_sums_update(s0.vaults, idx as int, updated);
            lemma_sums_bounds(s0.vaults);
            lemma_locked_sum_ge(s0.vaults, idx as int);
        }
        self.vaults.set(idx, updated);
        self.admin_balance = self.admin_balance + amount;
        self.total_shares = self.total_shares - amount;
        proof {
            assert(self@ == after_revoke(s0, vault_id, amount as int));
            crate::registry::lemma_index_wf_kept(s0, self@);
        }
    }

    /// Returns the vault's whole liquid principal to the admin. Returns the
    /// amount.
    pub fn revoke_tokens(&mut self, caller: AccountId, vault_id: u64) -> (r: Result<i128, VestingError>)
        requires
            old(self).wf(),
        ensures
            final(self).wf(),
            releases_grow(old(self)@, final(self)@),
            match revoke_error(old(self)@, caller, vault_id) {
                Some(e) => r == Err::<i128, VestingError>(e) && final(self)@ == old(self)@,
                None => if liquid(vault_of(old(self)@, vault_id)) <= 0 {
                    r == Err::<i128, VestingError>(VestingError::InsufficientBalance) && final(self)@ == old(self)@
                } else {
                    r == Ok::<i128, VestingError>(liquid(vault_of(old(self)@, vault_id)) as i128)
                        && final(self)@ == revoke_all(old(self)@, vault_id)
                },
            },
    {
        self.require_admin(caller)?;
        let idx = match self.vault_index(vault_id) {
            Some(i) => i,
            None => return Err(VestingError::MissingVault),
        };
        let vault = self.vaults[idx];
        if vault.is_irrevocable {
            return Err(VestingError::Irrevocable);
        }
        proof {
            assert(vault_wf(self@.vaults[idx as int]));
        }
        let returned = vault.total_amount - vault.released_amount - vault.staked_amount;
        if returned <= 0 {
            return Err(VestingError::InsufficientBalance);
        }
        self.release_to_admin(idx, vault_id, returned);
        Ok(returned)
    }

    /// Returns `amount` of the vault's liquid principal to the admin.
    pub fn revoke_partial(&mut self, caller: AccountId, vault_id: u64, amount: i128) -> (r: Result<i128, VestingError>)
        requires
            old(self).wf(),
        ensures
            final(self).wf(),
            releases_grow(old(self)@, final(self)@),
            match revoke_error(old(self)@, caller, vault_id) {
                Some(e) => r == Err::<i128, VestingError>(e) && final(self)@ == old(self)@,
                None => if amount <= 0 {
                    r == Err::<i128, VestingError>(VestingError::InvalidAmount) && final(self)@ == old(self)@
                } else if amount > liquid(vault_of(old(self)@, vault_id)) {
                    r == Err::<i128, VestingError>(VestingError::InsufficientBalance) && final(self)@ == old(self)@
                } else {
                    r == Ok::<i128, VestingError>(amount) && final(self)@ == after_revoke(old(self)@, vault_id, amount as int)
                },
            },
    {
        self.require_admin(caller)?;
        let idx = match self.vault_index(vault_id) {
            Some(i) => i,
            None => return Err(VestingError::MissingVault),
        };
        let vault = self.vaults[idx];
        if vault.is_irrevocable {
            return Err(VestingError::Irrevocable);
        }
        proof {
            assert(vault_wf(self@.vaults[idx as int]));
        }
        if amount <= 0 {
            return Err(VestingError::InvalidAmount);
        }
        if amount > vault.total_amount - vault.released_amount - vault.staked_amount {
            return Err(VestingError::InsufficientBalance);
        }
        self.release_to_admin(idx, vault_id, amount);
        Ok(amount)
    }

    /// Revokes the liquid principal of every vault in `vault_ids`, in order,
    /// crediting the admin once. Returns the total returned.
    pub fn batch_revoke(&mut self, caller: AccountId, vault_ids: &Vec<u64>) -> (r: Result<i128, VestingError>)
        requires
            old(self).wf(),
        ensures
            final(self).wf(),
            releases_grow(old(self)@, final(self)@),
            admin_gate(old(self)@, caller) is Some ==> r == Err::<i128, VestingError>(
                admin_gate(old(self)@, caller)->Some_0,
            ) && final(self)@ == old(self)@,
            admin_gate(old(self)@, caller) is None ==> match batch_revoke_error(old(self)@, vault_ids@) {
                Some(e) => r == Err::<i128, VestingError>(e) && final(self)@ == old(self)@,
                None => final(self)@ == after_batch_revoke(old(self)@, vault_ids@) && r == Ok::<i128, VestingError>(
                    (final(self)@.admin_balance - old(self)@.admin_balance) as i128,
                ),
            },
    {
        self.require_admin(caller)?;
        let mut i: usize = 0;
        while i < vault_ids.len()
            invariant
                self.wf(),
                self@ == old(self)@,
                admin_gate(old(self)@, caller) is None,
                i <= vault_ids.len(),
                batch_revoke_error(self@, vault_ids@.subrange(0, i as int)) is None,
            decreases vault_ids.len() - i,
        {
            let vault_id = vault_ids[i];
            proof {
                assert(vault_ids@.subrange(0, i + 1).drop_last() =~= vault_ids@.subrange(0, i as int));
            }
            let idx = match self.vault_index(vault_id) {
                Some(j) => j,
                None => {
                    proof {
                        lemma_batch_error_extends(self@, vault_ids@, i as int + 1);
                    }
                    return Err(VestingError::MissingVault);
                },
            };
            if self.vaults[idx].is_irrevocable {
                proof {
                    lemma_batch_error_extends(self@, vault_ids@, i as int + 1);
                }
                return Err(VestingError::Irrevocable);
            }
            i = i + 1;
        }
        proof {
            assert(vault_ids@.subrange(0, vault_ids@.len() as int) =~= vault_ids@);
        }
        let ghost s0 = self@;
        let mut total_returned: i128 = 0;
        let mut k: usize = 0;
        while k < vault_ids.len()
            invariant
                self.wf(),
                k <= vault_ids.len(),
                batch_revoke_error(s0, vault_ids@) is None,
                state_wf(s0),
                s0.vaults.len() == self@.vaults.len(),
                forall|j: int| 0 <= j < s0.vaults.len() ==> (#[trigger] self@.vaults[j]).is_irrevocable == s0.vaults[j].is_irrevocable,
                self@ == after_batch_revoke(s0, vault_ids@.subrange(0, k as int)),
                releases_grow(s0, self@),
                total_returned == self@.admin_balance - s0.admin_balance,
            decreases vault_ids.len() - k,
        {
            let vault_id = vault_ids[k];
            proof {
                lemma_batch_ok_member(s0, vault_ids@, k as int);
                assert(vault_ids@.subrange(0, k + 1).drop_last() =~= vault_ids@.subrange(0, k as int));
            }
            let idx = match self.vault_index(vault_id) {
                Some(j) => j,
                None => return Err(VestingError::MissingVault),
            };
            let vault = self.vaults[idx];
            proof {
                assert(vault_wf(self@.vaults[idx as int]));
                lemma_sums_bounds(self@.vaults);
            }
            let returned = vault.total_amount - vault.released_amount - vault.staked_amount;
            let ghost before = self@;
            if returned > 0 {
                self.release_to_admin(idx, vault_id, returned);
                proof {
                    lemma_sums_bounds(self@.vaults);
                }
                total_returned = total_returned + returned;
            } else {
                proof {
                    assert(vault_of(before, vault_id) == vault);
                    assert(before.vaults.update(vault_id - 1, vault) =~= before.vaults);
                    assert(revoke_all(before, vault_id) == before);
                }
            }
            k = k + 1;
        }
        proof {
            assert(vault_ids@.subrange(0, vault_ids@.len() as int) =~= vault_ids@);
        }
        Ok(total_returned)
    }

    /// Undoes a vault created by mistake: within the grace period after
    /// creation, and only while nothing has been released or staked, the
    /// whole principal returns to the admin. Returns the amount.
    pub fn clawback_vault(&mut self, caller: AccountId, vault_id: u64, now: u64) -> (r: Result<i128, VestingError>)
        requires
            old(self).wf(),
        ensures
            final(self).wf(),
            releases_grow(old(self)@, final(self)@),
            match clawback_error(old(self)@, caller, vault_id, now) {
                Some(e) => r == Err::<i128, VestingError>(e) && final(self)@ == old(self)@,
                None => r == Ok::<i128, VestingError>(vault_of(old(self)@, vault_id).total_amount)
                    && final(self)@ == after_revoke(old(self)@, vault_id, vault_of(old(self)@, vault_id).total_amount as int),
            },
    {
        self.require_admin(caller)?;
        let idx = match self.vault_index(vault_id) {
            Some(i) => i,
            None => return Err(VestingError::MissingVault),
        };
        let vault = self.vaults[idx];
        if now > vault.creation_time && now - vault.creation_time > CLAWBACK_GRACE_PERIOD {
            return Err(VestingError::ClawbackClosed);
        }
        if vault.released_amount > 0 {
            return Err(VestingError::ClawbackClosed);
        }
        if vault.staked_amount > 0 {
            return Err(VestingError::InsufficientBalance);
        }
        proof {
            assert(vault_wf(self@.vaults[idx as int]));
        }
        self.release_to_admin(idx, vault_id, vault.total_amount);
        Ok(vault.total_amount)
    }

    /// Replaces a vault's record by one with the same principal, releases,
    /// stake, owner and materialization.
    fn put_vault_flags(&mut self, idx: usize, vault_id: u64, v: Vault)
        requires
            old(self).wf(),
            has_vault(old(self)@, vault_id),
            idx == vault_id - 1,
            v.total_amount == vault_of(old(self)@, vault_id).total_amount,
            v.released_amount == vault_of(old(self)@, vault_id).released_amount,
            v.staked_amount == vault_of(old(self)@, vault_id).staked_amount,
            v.keeper_fee == vault_of(old(self)@, vault_id).keeper_fee,
            v.start_time == vault_of(old(self)@, vault_id).start_time,
            v.end_time == vault_of(old(self)@, vault_id).end_time,
            v.owner == vault_of(old(self)@, vault_id).owner,
            v.is_initialized == vault_of(old(self)@, vault_id).is_initialized,
        ensures
            final(self).wf(),
            releases_grow(old(self)@, final(self)@),
            final(self)@ == with_vault(old(self)@, vault_id, v),
    {
        let ghost s0 = self@;
        proof {
            assert(vault_wf(s0.vaults[idx as int]));
            lemma_sums_update(s0.vaults, idx as int, v);
        }
        self.vaults.set(idx, v);
        proof {
            assert(self@ == with_vault(s0, vault_id, v));
            crate::registry::lemma_index_wf_kept(s0, self@);
        }
    }

    /// Stops claims on one vault.
    pub fn freeze_vault(&mut self, caller: AccountId, vault_id: u64) -> (r: Result<(), VestingError>)
        requires
            old(self).wf(),
        ensures
            final(self).wf(),
            releases_grow(old(self)@, final(self)@),
            match flag_error(old(self)@, caller, vault_id, vault_of(old(self)@, vault_id).is_frozen, true) {
                Some(e) => r == Err::<(), VestingError>(e) && final(self)@ == old(self)@,
                None => r is Ok && final(self)@ == with_vault(
                    old(self)@,
                    vault_id,
                    Vault { is_frozen: true, ..vault_of(old(self)@, vault_id) },
                ),
            },
    {
        self.require_admin(caller)?;
        let idx = match self.vault_index(vault_id) {
            Some(i) => i,
            None => return Err(VestingError::MissingVault),
        };
        let vault = self.vaults[idx];
        if vault.is_frozen {
            return Err(VestingError::AlreadyInTargetState);
        }
        self.put_vault_flags(idx, vault_id, Vault { is_frozen: true, ..vault });
        Ok(())
    }

    /// Allows claims on a frozen vault again.
    pub fn unfreeze_vault(&mut self, caller: AccountId, vault_id: u64) -> (r: Result<(), VestingError>)
        requires
            old(self).wf(),
        ensures
            final(self).wf(),
            releases_grow(old(self)@, final(self)@),
            match flag_error(old(self)@, caller, vault_id, vault_of(old(self)@, vault_id).is_frozen, false) {
                Some(e) => r == Err::<(), VestingError>(e) && final(self)@ == old(self)@,
                None => r is Ok && final(self)@ == with_vault(
                    old(self)@,
                    vault_id,
                    Vault { is_frozen: false, ..vault_of(old(self)@, vault_id) },
                ),
            },
    {
        self.require_admin(caller)?;
        let idx = match self.vault_index(vault_id) {
            Some(i) => i,
            None => return Err(VestingError::MissingVault),
        };
        let vault = self.vaults[idx];
        if !vault.is_frozen {
            return Err(VestingError::AlreadyInTargetState);
        }
        self.put_vault_flags(idx, vault_id, Vault { is_frozen: false, ..vault });
        Ok(())
    }

    /// Forbids revocation of the vault from now on.
    pub fn mark_irrevocable(&mut self, caller: AccountId, vault_id: u64) -> (r: Result<(), VestingError>)
        requires
            old(self).wf(),
        ensures
            final(self).wf(),
            releases_grow(old(self)@, final(self)@),
            match flag_error(old(self)@, caller, vault_id, vault_of(old(self)@, vault_id).is_irrevocable, true) {
                Some(e) => r == Err::<(), VestingError>(e) && final(self)@ == old(self)@,
                None => r is Ok && final(self)@ == with_vault(
                    old(self)@,
                    vault_id,
                    Vault { is_irrevocable: true, ..vault_of(old(self)@, vault_id) },
                ),
            },
    {
        self.require_admin(caller)?;
        let idx = match self.vault_index(vault_id) {
            Some(i) => i,
            None => return Err(VestingError::MissingVault),
        };
        let vault = self.vaults[idx];
        if vault.is_irrevocable {
            return Err(VestingError::AlreadyInTargetState);
        }
        self.put_vault_flags(idx, vault_id, Vault { is_irrevocable: true, ..vault });
        Ok(())
    }

    pub fn is_vault_frozen(&self, vault_id: u64) -> (r: Result<bool, VestingError>)
        requires
            self.wf(),
        ensures
            has_vault(self@, vault_id) ==> r == Ok::<bool, VestingError>(vault_of(self@, vault_id).is_frozen),
            !has_vault(self@, vault_id) ==> r == Err::<bool, VestingError>(VestingError::MissingVault),
    {
        match self.vault_index(vault_id) {
            Some(i) => Ok(self.vaults[i].is_frozen),
            None => Err(VestingError::MissingVault),
        }
    }

    pub fn is_vault_irrevocable(&self, vault_id: u64) -> (r: Result<bool, VestingError>)
        requires
            self.wf(),
        ensures
            has_vault(self@, vault_id) ==> r == Ok::<bool, VestingError>(vault_of(self@, vault_id).is_irrevocable),
            !has_vault(self@, vault_id) ==> r == Err::<bool, VestingError>(VestingError::MissingVault),
    {
        match self.vault_index(vault_id) {
            Some(i) => Ok(self.vaults[i].is_irrevocable),
            None => Err(VestingError::MissingVault),
        }
    }

    /// The owner (or nobody, with `None`) names a delegate who may claim on
    /// their behalf.
    pub fn set_delegate(&mut self, caller: AccountId, vault_id: u64, delegate: Option<AccountId>) -> (r: Result<(), VestingError>)
        requires
            old(self).wf(),
        ensures
            final(self).wf(),
            releases_grow(old(self)@, final(self)@),
            old(self)@.is_deprecated ==> r == Err::<(), VestingError>(VestingError::Deprecated) && final(self)@ == old(self)@,
            !old(self)@.is_deprecated ==> match owner_gate(old(self)@, caller, vault_id) {
                Some(e) => r == Err::<(), VestingError>(e) && final(self)@ == old(self)@,
                None => r is Ok && final(self)@ == with_vault(
                    old(self)@,
                    vault_id,
                    Vault { delegate, ..vault_of(old(self)@, vault_id) },
                ),
            },
    {
        if self.is_deprecated {
            return Err(VestingError::Deprecated);
        }
        let idx = match self.vault_index(vault_id) {
            Some(i) => i,
            None => return Err(VestingError::MissingVault),
        };
        let vault = self.vaults[idx];
        if !vault.is_initialized {
            return Err(VestingError::NotInitialized);
        }
        if caller != vault.owner {
            return Err(VestingError::Unauthorized);
        }
        self.put_vault_flags(idx, vault_id, Vault { delegate, ..vault });
        Ok(())
    }

    /// The owner moves `amount` of the vault's liquid principal to the
    /// staking contract. Returns the call to make.
    pub fn stake_tokens(
        &mut self,
        caller: AccountId,
        vault_id: u64,
        amount: i128,
        validator: AccountId,
    ) -> (r: Result<StakingCall, VestingError>)
        requires
            old(self).wf(),
        ensures
            final(self).wf(),
            releases_grow(old(self)@, final(self)@),
            match stake_error(old(self)@, caller, vault_id, amount) {
                Some(e) => r == Err::<StakingCall, VestingError>(e) && final(self)@ == old(self)@,
                None => r == Ok::<StakingCall, VestingError>(
                    StakingCall {
                        contract: old(self)@.staking_contract->Some_0,
                        vault_id,
                        amount,
                        validator: Some(validator),
                    },
                ) && final(self)@ == after_stake(old(self)@, vault_id, amount as int),
            },
    {
        if self.is_deprecated {
            return Err(VestingError::Deprecated);
        }
        let idx = match self.vault_index(vault_id) {
            Some(i) => i,
            None => return Err(VestingError::MissingVault),
        };
        let vault = self.vaults[idx];
        if !vault.is_initialized {
            return Err(VestingError::NotInitialized);
        }
        if caller != vault.owner {
            return Err(VestingError::Unauthorized);
        }
        proof {
            assert(vault_wf(self@.vaults[idx as int]));
        }
        if amount <= 0 {
            return Err(VestingError::InvalidAmount);
        }
        if amount > vault.total_amount - vault.released_amount - vault.staked_amount {
            return Err(VestingError::InsufficientBalance);
        }
        let contract = match self.staking_contract {
            Some(c) => c,
            None => return Err(VestingError::NotConfigured),
        };
        let ghost s0 = self@;
        let updated = Vault { staked_amount: vault.staked_amount + amount, ..vault };
        proof {
            lemma_sums_update(s0.vaults, idx as int, updated);
            lemma_sums_bounds(s0.vaults);
            lemma_locked_sum_ge(s0.vaults, idx as int);
        }
        self.vaults.set(idx, updated);
        proof {
            lemma_sums_bounds(self@.vaults);
        }
        self.total_staked = self.total_staked + amount;
        proof {
            assert(self@ == after_stake(s0, vault_id, amount as int));
            crate::registry::lemma_index_wf_kept(s0, self@);
        }
        Ok(StakingCall { contract, vault_id, amount, validator: Some(validator) })
    }

    /// Unlocked principal of the vault not yet released (zero if none).
    pub fn get_claimable_amount(&self, vault_id: u64, now: u64) -> (r: Result<i128, VestingError>)
        requires
            self.wf(),
        ensures
            !has_vault(self@, vault_id) ==> r == Err::<i128, VestingError>(VestingError::MissingVault),
            has_vault(self@, vault_id) && self@.milestones.contains_key(vault_id) && self@.milestones[vault_id].len() == 0
                ==> r == Err::<i128, VestingError>(VestingError::NotConfigured),
            has_vault(self@, vault_id) && !(self@.milestones.contains_key(vault_id) && self@.milestones[vault_id].len() == 0)
                ==> r is Ok && r->Ok_0 == if auto_claimable(self@, vault_id, now) > 0 {
                auto_claimable(self@, vault_id, now)
            } else {
                0
            },
    {
        let idx = match self.vault_index(vault_id) {
            Some(i) => i,
            None => return Err(VestingError::MissingVault),
        };
        let unlocked = self.unlocked_of(idx, vault_id, now)?;
        let released = self.vaults[idx].released_amount;
        proof {
            assert(vault_wf(self@.vaults[idx as int]));
        }
        if unlocked > released {
            Ok(unlocked - released)
        } else {
            Ok(0)
        }
    }

    /// Anyone may trigger the claim of everything a vault has unlocked; the
    /// keeper earns the vault's fee out of it and the rest goes to the owner.
    pub fn auto_claim(
        &mut self,
        keeper: AccountId,
        vault_id: u64,
        now: u64,
        token_balance: i128,
    ) -> (r: Result<AutoClaimOutcome, VestingError>)
        requires
            old(self).wf(),
        ensures
            final(self).wf(),
            releases_grow(old(self)@, final(self)@),
            match auto_claim_error(old(self)@, keeper, vault_id, now, token_balance) {
                Some(e) => r == Err::<AutoClaimOutcome, VestingError>(e) && final(self)@ == old(self)@,
                None => r == Ok::<AutoClaimOutcome, VestingError>(auto_claim_outcome(old(self)@, keeper, vault_id, now, token_balance))
                    && final(self)@ == after_auto_claim(old(self)@, keeper, vault_id, now),
            },
    {
        if self.is_paused {
            return Err(VestingError::PausedOrFrozen);
        }
        let idx = match self.vault_index(vault_id) {
            Some(i) => i,
            None => return Err(VestingError::MissingVault),
        };
        let vault = self.vaults[idx];
        if vault.is_frozen {
            return Err(VestingError::PausedOrFrozen);
        }
        if !vault.is_initialized {
            return Err(VestingError::NotInitialized);
        }
        let unlocked = self.unlocked_of(idx, vault_id, now)?;
        proof {
            assert(vault_wf(self@.vaults[idx as int]));
            lemma_sums_bounds(self@.vaults);
            lemma_locked_sum_ge(self@.vaults, idx as int);
        }
        let claimable = unlocked - vault.released_amount;
        if claimable <= vault.keeper_fee || claimable > vault.total_amount - vault.released_amount - vault.staked_amount {
            return Err(VestingError::InsufficientBalance);
        }
        let token = match self.token {
            Some(t) => t,
            None => return Err(VestingError::NotConfigured),
        };
        let keeper_fee = vault.keeper_fee;
        let beneficiary_amount = claimable - keeper_fee;
        let liquid_shares = self.total_shares - self.total_staked;
        let beneficiary_tokens = match Self::yield_amount(beneficiary_amount, token_balance, self.admin_balance, liquid_shares) {
            Some(a) => a,
            None => return Err(VestingError::Overflow),
        };
        let keeper_tokens = match Self::yield_amount(keeper_fee, token_balance, self.admin_balance, liquid_shares) {
            Some(a) => a,
            None => return Err(VestingError::Overflow),
        };
        let current_fees: i128 = match self.keeper_fees.get(&keeper) {
            Some(f) => *f,
            None => 0,
        };
        if current_fees > i128::MAX - keeper_fee {
            return Err(VestingError::Overflow);
        }
        let ghost s0 = self@;
        let updated = Vault { released_amount: vault.released_amount + claimable, ..vault };
        proof {
            lemma_sums_update(s0.vaults, idx as int, updated);
        }
        self.vaults.set(idx, updated);
        self.total_shares = self.total_shares - claimable;
        self.paid_out = Ghost(self.paid_out@ + claimable);
        self.keeper_fees.insert(keeper, current_fees + keeper_fee);
        proof {
            assert(self@ == after_auto_claim(s0, keeper, vault_id, now));
            crate::registry::lemma_index_wf_kept(s0, self@);
        }
        Ok(AutoClaimOutcome {
            to_beneficiary: Transfer { token, to: vault.owner, amount: beneficiary_tokens },
            to_keeper: Transfer { token, to: keeper, amount: keeper_tokens },
        })
    }

    /// Fees `keeper` has earned from automatic claims.
    pub fn get_keeper_fee(&self, keeper: AccountId) -> (r: i128)
        ensures
            r == keeper_fee_of(self@, keeper),
    {
        match self.keeper_fees.get(&keeper) {
            Some(f) => *f,
            None => 0,
        }
    }

    /// Moves vault `vault_id` to `new_owner`, clearing its delegate and
    /// keeping the owner index consistent.
    fn change_owner(&mut self, idx: usize, vault_id: u64, new_owner: AccountId)
        requires
            old(self).wf(),
            has_vault(old(self)@, vault_id),
            idx == vault_id - 1,
        ensures
            final(self).wf(),
            releases_grow(old(self)@, final(self)@),
            final(self)@ == after_owner_change(old(self)@, vault_id, new_owner),
    {
        let vault = self.vaults[idx];
        let ghost s0 = self@;
        let updated = Vault { owner: new_owner, delegate: None, ..vault };
        proof {
            assert(vault_wf(s0.vaults[idx as int]));
            lemma_sums_update(s0.vaults, idx as int, updated);
        }
        if vault.is_initialized {
            let old_ids: Vec<u64> = match self.user_vaults.get(&vault.owner) {
                Some(v) => v.clone(),
                None => Vec::new(),
            };
            proof {
                assert(old_ids@ == index_of(s0, vault.owner));
            }
            let mut kept: Vec<u64> = Vec::new();
            let mut i: usize = 0;
            while i < old_ids.len()
                invariant
                    i <= old_ids.len(),
                    kept@ == without(old_ids@.subrange(0, i as int), vault_id),
                decreases old_ids.len() - i,
            {
                proof {
                    assert(old_ids@.subrange(0, i + 1).drop_last() =~= old_ids@.subrange(0, i as int));
                }
                if old_ids[i] != vault_id {
                    kept.push(old_ids[i]);
                }
                i = i + 1;
            }
            proof {
                assert(old_ids@.subrange(0, old_ids@.len() as int) =~= old_ids@);
                lemma_without_members(index_of(s0, vault.owner), vault_id);
            }
            let ghost m0 = self.user_vaults@;
            self.user_vaults.insert(vault.owner, kept);
            proof {
                Self::lemma_index_insert(m0, vault.owner, kept);
            }
            self.vaults.set(idx, updated);
            self.index_push(new_owner, vault_id);
            proof {
                assert(self@.user_vaults == index_moved(s0, vault_id, vault.owner, new_owner));
                assert(self@ == after_owner_change(s0, vault_id, new_owner));
                lemma_index_after_move(s0, vault_id, new_owner);
            }
        } else {
            self.vaults.set(idx, updated);
            proof {
                assert(self@ == after_owner_change(s0, vault_id, new_owner));
                lemma_index_unlisted_owner_change(s0, vault_id, new_owner);
            }
        }
    }

    /// The admin hands vault `vault_id` to `new_address`.
    pub fn transfer_beneficiary(&mut self, caller: AccountId, vault_id: u64, new_address: AccountId) -> (r: Result<(), VestingError>)
        requires
            old(self).wf(),
        ensures
            final(self).wf(),
            releases_grow(old(self)@, final(self)@),
            match admin_vault_gate(old(self)@, caller, vault_id) {
                Some(e) => r == Err::<(), VestingError>(e) && final(self)@ == old(self)@,
                None => r is Ok && final(self)@ == after_owner_change(old(self)@, vault_id, new_address),
            },
    {
        self.require_admin(caller)?;
        let idx = match self.vault_index(vault_id) {
            Some(i) => i,
            None => return Err(VestingError::MissingVault),
        };
        self.change_owner(idx, vault_id, new_address);
        Ok(())
    }

    /// The owner of a transferable vault hands it to `new_beneficiary`.
    pub fn transfer_vault(&mut self, caller: AccountId, vault_id: u64, new_beneficiary: AccountId) -> (r: Result<(), VestingError>)
        requires
            old(self).wf(),
        ensures
            final(self).wf(),
            releases_grow(old(self)@, final(self)@),
            owner_gate(old(self)@, caller, vault_id) is Some && !(has_vault(old(self)@, vault_id) && vault_of(old(self)@, vault_id).is_initialized && !vault_of(old(self)@, vault_id).is_transferable)
                ==> r == Err::<(), VestingError>(owner_gate(old(self)@, caller, vault_id)->Some_0) && final(self)@ == old(self)@,
            has_vault(old(self)@, vault_id) && vault_of(old(self)@, vault_id).is_initialized && !vault_of(old(self)@, vault_id).is_transferable
                ==> r == Err::<(), VestingError>(VestingError::NotTransferable) && final(self)@ == old(self)@,
            owner_gate(old(self)@, caller, vault_id) is None && vault_of(old(self)@, vault_id).is_transferable
                ==> r is Ok && final(self)@ == after_owner_change(old(self)@, vault_id, new_beneficiary),
    {
        let idx = match self.vault_index(vault_id) {
            Some(i) => i,
            None => return Err(VestingError::MissingVault),
        };
        let vault = self.vaults[idx];
        if !vault.is_initialized {
            return Err(VestingError::NotInitialized);
        }
        if !vault.is_transferable {
            return Err(VestingError::NotTransferable);
        }
        if caller != vault.owner {
            return Err(VestingError::Unauthorized);
        }
        self.change_owner(idx, vault_id, new_beneficiary);
        Ok(())
    }

    /// The owner moves the vault to a new key, transferable or not.
    pub fn rotate_beneficiary_key(&mut self, caller: AccountId, vault_id: u64, new_address: AccountId) -> (r: Result<(), VestingError>)
        requires
            old(self).wf(),
        ensures
            final(self).wf(),
            releases_grow(old(self)@, final(self)@),
            match owner_gate(old(self)@, caller, vault_id) {
                Some(e) => r == Err::<(), VestingError>(e) && final(self)@ == old(self)@,
                None => r is Ok && final(self)@ == after_owner_change(old(self)@, vault_id, new_address),
            },
    {
        let idx = match self.vault_index(vault_id) {
            Some(i) => i,
            None => return Err(VestingError::MissingVault),
        };
        let vault = self.vaults[idx];
        if !vault.is_initialized {
            return Err(VestingError::NotInitialized);
        }
        if caller != vault.owner {
            return Err(VestingError::Unauthorized);
        }
        self.change_owner(idx, vault_id, new_address);
        Ok(())
    }

    proof fn lemma_milestones_insert(m: Map<u64, Vec<Milestone>>, k: u64, v: Vec<Milestone>)
        ensures
            milestones_view(m.insert(k, v)) == milestones_view(m).insert(k, v@),
    {
        assert(milestones_view(m.insert(k, v)) =~= milestones_view(m).insert(k, v@));
    }

    /// Whether `ms` is a valid milestone set; see [`milestones_valid`].
    fn validate_milestones(ms: &Vec<Milestone>) -> (r: bool)
        ensures
            r == milestones_valid(ms@),
    {
        if ms.len() == 0 {
            return false;
        }
        let mut total: u64 = 0;
        let mut i: usize = 0;
        while i < ms.len()
            invariant
                0 < ms.len(),
                i <= ms.len(),
                total == pct_total(ms@.subrange(0, i as int)),
                total <= 100,
                forall|a: int| 0 <= a < i ==> 0 < (#[trigger] ms@[a]).percentage <= 100,
                forall|a: int, b: int| 0 <= a < b < i ==> (#[trigger] ms@[a]).id != (#[trigger] ms@[b]).id,
            decreases ms.len() - i,
        {
            let m = ms[i];
            proof {
                assert(ms@.subrange(0, i + 1).drop_last() =~= ms@.subrange(0, i as int));
            }
            if m.percentage == 0 || m.percentage > 100 {
                return false;
            }
            let mut j: usize = 0;
            while j < i
                invariant
                    i < ms.len(),
                    j <= i,
                    m == ms@[i as int],
                    forall|a: int| 0 <= a < j ==> (#[trigger] ms@[a]).id != m.id,
                decreases i - j,
            {
                if ms[j].id == m.id {
                    return false;
                }
                j = j + 1;
            }
            total = total + m.percentage as u64;
            if total > 100 {
                proof {
                    lemma_pct_total_prefix(ms@, i as int + 1);
                }
                return false;
            }
            i = i + 1;
        }
        proof {
            assert(ms@.subrange(0, ms@.len() as int) =~= ms@);
        }
        true
    }

    /// Configures the vault's milestones, switching it to milestone-based
    /// vesting. A vault's set is configured once.
    pub fn set_milestones(&mut self, caller: AccountId, vault_id: u64, milestones: Vec<Milestone>) -> (r: Result<(), VestingError>)
        requires
            old(self).wf(),
        ensures
            final(self).wf(),
            releases_grow(old(self)@, final(self)@),
            match set_milestones_error(old(self)@, caller, vault_id, milestones@) {
                Some(e) => r == Err::<(), VestingError>(e) && final(self)@ == old(self)@,
                None => r is Ok && final(self)@ == (ContractState {
                    milestones: old(self)@.milestones.insert(vault_id, milestones@),
                    ..old(self)@
                }),
            },
    {
        self.require_admin(caller)?;
        let idx = match self.vault_index(vault_id) {
            Some(i) => i,
            None => return Err(VestingError::MissingVault),
        };
        if !self.vaults[idx].is_initialized {
            return Err(VestingError::NotInitialized);
        }
        if self.milestones.contains_key(&vault_id) {
            return Err(VestingError::AlreadyInTargetState);
        }
        if !Self::validate_milestones(&milestones) {
            return Err(VestingError::InvalidMilestones);
        }
        let ghost m0 = self.milestones@;
        self.milestones.insert(vault_id, milestones);
        proof {
            Self::lemma_milestones_insert(m0, vault_id, milestones);
        }
        Ok(())
    }

    /// The vault's milestone set (empty if none is configured).
    pub fn get_milestones(&self, vault_id: u64) -> (r: Vec<Milestone>)
        ensures
            self@.milestones.contains_key(vault_id) ==> r@ == self@.milestones[vault_id],
            !self@.milestones.contains_key(vault_id) ==> r@.len() == 0,
    {
        match self.milestones.get(&vault_id) {
            Some(ms) => {
                let mut out: Vec<Milestone> = Vec::new();
                let mut i: usize = 0;
                while i < ms.len()
                    invariant
                        i <= ms.len(),
                        out@ == ms@.subrange(0, i as int),
                    decreases ms.len() - i,
                {
                    out.push(ms[i]);
                    proof {
                        assert(out@ =~= ms@.subrange(0, i + 1));
                    }
                    i = i + 1;
                }
                proof {
                    assert(ms@.subrange(0, ms@.len() as int) =~= ms@);
                }
                out
            },
            None => Vec::new(),
        }
    }

    /// Unlocks milestone `milestone_id` of the vault; unlocking is one-way.
    pub fn unlock_milestone(&mut self, caller: AccountId, vault_id: u64, milestone_id: u64) -> (r: Result<(), VestingError>)
        requires
            old(self).wf(),
        ensures
            final(self).wf(),
            releases_grow(old(self)@, final(self)@),
            match unlock_error(old(self)@, caller, vault_id, milestone_id) {
                Some(e) => r == Err::<(), VestingError>(e) && final(self)@ == old(self)@,
                None => r is Ok && final(self)@ == (ContractState {
                    milestones: old(self)@.milestones.insert(
                        vault_id,
                        old(self)@.milestones[vault_id].map_values(|m: Milestone| unlock_if(m, milestone_id)),
                    ),
                    ..old(self)@
                }),
            },
    {
        self.require_admin(caller)?;
        match self.vault_index(vault_id) {
            Some(_) => {},
            None => return Err(VestingError::MissingVault),
        }
        let ms: &Vec<Milestone> = match self.milestones.get(&vault_id) {
            Some(ms) => ms,
            None => return Err(VestingError::NotConfigured),
        };
        if ms.len() == 0 {
            return Err(VestingError::NotConfigured);
        }
        let mut found = false;
        let mut updated: Vec<Milestone> = Vec::new();
        let mut i: usize = 0;
        while i < ms.len()
            invariant
                self.wf(),
                self@ == old(self)@,
                admin_vault_gate(old(self)@, caller, vault_id) is None,
                old(self)@.milestones.contains_key(vault_id),
                ms@ == old(self)@.milestones[vault_id],
                ms@.len() > 0,
                i <= ms.len(),
                updated@ == ms@.subrange(0, i as int).map_values(|m: Milestone| unlock_if(m, milestone_id)),
                found == exists|a: int| 0 <= a < i && (#[trigger] ms@[a]).id == milestone_id,
                forall|a: int| 0 <= a < i && (#[trigger] ms@[a]).id == milestone_id ==> !ms@[a].is_unlocked,
            decreases ms.len() - i,
        {
            let m = ms[i];
            if m.id == milestone_id {
                if m.is_unlocked {
                    return Err(VestingError::AlreadyInTargetState);
                }
                found = true;
                updated.push(Milestone { id: m.id, percentage: m.percentage, is_unlocked: true });
            } else {
                updated.push(m);
            }
            proof {
                assert(updated@ =~= ms@.subrange(0, i + 1).map_values(|m: Milestone| unlock_if(m, milestone_id)));
            }
            i = i + 1;
        }
        proof {
            assert(ms@.subrange(0, ms@.len() as int) =~= ms@);
        }
        if !found {
            return Err(VestingError::InvalidMilestones);
        }
        let ghost m0 = self.milestones@;
        self.milestones.insert(vault_id, updated);
        proof {
            Self::lemma_milestones_insert(m0, vault_id, updated);
        }
        Ok(())
    }

    /// Sets the yield-bearing token, once.
    pub fn set_token(&mut self, caller: AccountId, token: AccountId) -> (r: Result<(), VestingError>)
        requires
            old(self).wf(),
        ensures
            final(self).wf(),
            admin_gate(old(self)@, caller) is Some ==> r == Err::<(), VestingError>(admin_gate(old(self)@, caller)->Some_0)
                && final(self)@ == old(self)@,
            admin_gate(old(self)@, caller) is None && old(self)@.token is Some ==> r == Err::<(), VestingError>(
                VestingError::AlreadyInTargetState,
            ) && final(self)@ == old(self)@,
            admin_gate(old(self)@, caller) is None && old(self)@.token is None ==> r is Ok && final(self)@ == (ContractState {
                token: Some(token),
                ..old(self)@
            }),
    {
        self.require_admin(caller)?;
        if self.token.is_some() {
            return Err(VestingError::AlreadyInTargetState);
        }
        self.token = Some(token);
        Ok(())
    }

    /// Sets the contract that unvested principal is staked with.
    pub fn set_staking_contract(&mut self, caller: AccountId, contract: AccountId) -> (r: Result<(), VestingError>)
        requires
            old(self).wf(),
        ensures
            final(self).wf(),
            admin_gate(old(self)@, caller) is Some ==> r == Err::<(), VestingError>(admin_gate(old(self)@, caller)->Some_0)
                && final(self)@ == old(self)@,
            admin_gate(old(self)@, caller) is None ==> r is Ok && final(self)@ == (ContractState {
                staking_contract: Some(contract),
                ..old(self)@
            }),
    {
        self.require_admin(caller)?;
        self.staking_contract = Some(contract);
        Ok(())
    }

    /// Whether `token` is on the whitelist.
    fn is_token_whitelisted(&self, token: AccountId) -> (r: bool)
        ensures
            r == self@.whitelist.contains(token),
    {
        let mut i: usize = 0;
        while i < self.whitelist.len()
            invariant
                i <= self.whitelist.len(),
                forall|j: int| 0 <= j < i ==> self.whitelist@[j] != token,
            decreases self.whitelist.len() - i,
        {
            if self.whitelist[i] == token {
                return true;
            }
            i = i + 1;
        }
        false
    }

    /// Adds `token` to the whitelist (a no-op if it is already there).
    pub fn add_to_whitelist(&mut self, caller: AccountId, token: AccountId) -> (r: Result<(), VestingError>)
        requires
            old(self).wf(),
        ensures
            final(self).wf(),
            admin_gate(old(self)@, caller) is Some ==> r == Err::<(), VestingError>(admin_gate(old(self)@, caller)->Some_0)
                && final(self)@ == old(self)@,
            admin_gate(old(self)@, caller) is None ==> r is Ok && final(self)@ == (ContractState {
                whitelist: if old(self)@.whitelist.contains(token) {
                    old(self)@.whitelist
                } else {
                    old(self)@.whitelist.push(token)
                },
                ..old(self)@
            }),
    {
        self.require_admin(caller)?;
        if !self.is_token_whitelisted(token) {
            let ghost w = self.whitelist@;
            self.whitelist.push(token);
            proof {
                assert forall|a: int, b: int| 0 <= a < b < self.whitelist@.len() implies self.whitelist@[a] != self.whitelist@[b] by {
                    if b == w.len() {
                        assert(w[a] == self.whitelist@[a]);
                    }
                }
            }
        }
        Ok(())
    }

    /// First step of an admin handover: the admin names a successor.
    pub fn propose_new_admin(&mut self, caller: AccountId, new_admin: AccountId) -> (r: Result<(), VestingError>)
        requires
            old(self).wf(),
        ensures
            final(self).wf(),
            admin_gate(old(self)@, caller) is Some ==> r == Err::<(), VestingError>(admin_gate(old(self)@, caller)->Some_0)
                && final(self)@ == old(self)@,
            admin_gate(old(self)@, caller) is None ==> r is Ok && final(self)@ == (ContractState {
                proposed_admin: Some(new_admin),
                ..old(self)@
            }),
    {
        self.require_admin(caller)?;
        self.proposed_admin = Some(new_admin);
        Ok(())
    }

    /// Second step of an admin handover: the proposed admin takes over.
    pub fn accept_ownership(&mut self, caller: AccountId) -> (r: Result<(), VestingError>)
        requires
            old(self).wf(),
        ensures
            final(self).wf(),
            old(self)@.is_deprecated ==> r == Err::<(), VestingError>(VestingError::Deprecated) && final(self)@ == old(self)@,
            !old(self)@.is_deprecated && old(self)@.proposed_admin is None ==> r == Err::<(), VestingError>(
                VestingError::NotConfigured,
            ) && final(self)@ == old(self)@,
            !old(self)@.is_deprecated && old(self)@.proposed_admin is Some && old(self)@.proposed_admin != Some(caller)
                ==> r == Err::<(), VestingError>(VestingError::Unauthorized) && final(self)@ == old(self)@,
            !old(self)@.is_deprecated && old(self)@.proposed_admin == Some(caller) ==> r is Ok && final(self)@ == (ContractState {
                admin: caller,
                proposed_admin: None,
                ..old(self)@
            }),
    {
        if self.is_deprecated {
            return Err(VestingError::Deprecated);
        }
        match self.proposed_admin {
            None => Err(VestingError::NotConfigured),
            Some(p) => {
                if p != caller {
                    return Err(VestingError::Unauthorized);
                }
                self.admin = p;
                self.proposed_admin = None;
                Ok(())
            },
        }
    }

    pub fn get_admin(&self) -> (r: AccountId)
        ensures
            r == self@.admin,
    {
        self.admin
    }

    /// The yield-bearing token, once set.
    pub fn get_token(&self) -> (r: Option<AccountId>)
        ensures
            r == self@.token,
    {
        self.token
    }

    pub fn get_staking_contract(&self) -> (r: Option<AccountId>)
        ensures
            r == self@.staking_contract,
    {
        self.staking_contract
    }

    pub fn get_proposed_admin(&self) -> (r: Option<AccountId>)
        ensures
            r == self@.proposed_admin,
    {
        self.proposed_admin
    }

    /// Flips the global pause, which stops every claim path.
    pub fn toggle_pause(&mut self, caller: AccountId) -> (r: Result<(), VestingError>)
        requires
            old(self).wf(),
        ensures
            final(self).wf(),
            admin_gate(old(self)@, caller) is Some ==> r == Err::<(), VestingError>(admin_gate(old(self)@, caller)->Some_0)
                && final(self)@ == old(self)@,
            admin_gate(old(self)@, caller) is None ==> r is Ok && final(self)@ == (ContractState {
                is_paused: !old(self)@.is_paused,
                ..old(self)@
            }),
    {
        self.require_admin(caller)?;
        self.is_paused = !self.is_paused;
        Ok(())
    }

    pub fn is_paused(&self) -> (r: bool)
        ensures
            r == self@.is_paused,
    {
        self.is_paused
    }

    pub fn is_deprecated(&self) -> (r: bool)
        ensures
            r == self@.is_deprecated,
    {
        self.is_deprecated
    }

    pub fn get_migration_target(&self) -> (r: Option<AccountId>)
        ensures
            r == self@.migration_target,
    {
        self.migration_target
    }

    /// Retires the contract for good in favour of `v2_contract_address`: it
    /// is deprecated and paused, and the returned whitelisted tokens are to
    /// be swept to the successor. `this_contract` is this contract's own
    /// address.
    pub fn migrate_liquidity(
        &mut self,
        caller: AccountId,
        v2_contract_address: AccountId,
        this_contract: AccountId,
    ) -> (r: Result<Vec<AccountId>, VestingError>)
        requires
            old(self).wf(),
        ensures
            final(self).wf(),
            admin_gate(old(self)@, caller) is Some ==> r == Err::<Vec<AccountId>, VestingError>(
                admin_gate(old(self)@, caller)->Some_0,
            ) && final(self)@ == old(self)@,
            admin_gate(old(self)@, caller) is None && v2_contract_address == this_contract ==> r == Err::<
                Vec<AccountId>,
                VestingError,
            >(VestingError::InvalidTarget) && final(self)@ == old(self)@,
            admin_gate(old(self)@, caller) is None && v2_contract_address != this_contract ==> r is Ok && r->Ok_0@
                == old(self)@.whitelist && final(self)@ == (ContractState {
                is_deprecated: true,
                is_paused: true,
                migration_target: Some(v2_contract_address),
                ..old(self)@
            }),
    {
        self.require_admin(caller)?;
        if v2_contract_address == this_contract {
            return Err(VestingError::InvalidTarget);
        }
        self.is_deprecated = true;
        self.is_paused = true;
        self.migration_target = Some(v2_contract_address);
        let mut tokens: Vec<AccountId> = Vec::new();
        let mut i: usize = 0;
        while i < self.whitelist.len()
            invariant
                i <= self.whitelist.len(),
                tokens@ == self.whitelist@.subrange(0, i as int),
            decreases self.whitelist.len() - i,
        {
            tokens.push(self.whitelist[i]);
            proof {
                assert(tokens@ =~= self.whitelist@.subrange(0, i + 1));
            }
            i = i + 1;
        }
        proof {
            assert(self.whitelist@.subrange(0, self.whitelist@.len() as int) =~= self.whitelist@);
        }
        Ok(tokens)
    }

    /// Returns to the admin a whitelisted token's balance beyond what the
    /// vaults still owe. `contract_balance` is the contract's balance of
    /// `token_address`. Returns the transfer to make.
    pub fn rescue_unallocated_tokens(
        &self,
        caller: AccountId,
        token_address: AccountId,
        contract_balance: i128,
    ) -> (r: Result<Transfer, VestingError>)
        requires
            self.wf(),
        ensures
            admin_gate(self@, caller) is Some ==> r == Err::<Transfer, VestingError>(admin_gate(self@, caller)->Some_0),
            admin_gate(self@, caller) is None && !self@.whitelist.contains(token_address) ==> r == Err::<
                Transfer,
                VestingError,
            >(VestingError::NotConfigured),
            admin_gate(self@, caller) is None && self@.whitelist.contains(token_address) && self@.token == Some(
                token_address,
            ) ==> r == Err::<Transfer, VestingError>(VestingError::InvalidTarget),
            admin_gate(self@, caller) is None && self@.whitelist.contains(token_address) && self@.token != Some(
                token_address,
            ) ==> if contract_balance <= locked_sum(self@.vaults) {
                r == Err::<Transfer, VestingError>(VestingError::InsufficientBalance)
            } else {
                r == Ok::<Transfer, VestingError>(
                    Transfer {
                        token: token_address,
                        to: self@.admin,
                        amount: (contract_balance - locked_sum(self@.vaults)) as i128,
                    },
                )
            },
    {
        self.require_admin(caller)?;
        if !self.is_token_whitelisted(token_address) {
            return Err(VestingError::NotConfigured);
        }
        if self.token == Some(token_address) {
            return Err(VestingError::InvalidTarget);
        }
        let (total_liabilities, _, _) = self.get_contract_state();
        proof {
            lemma_sums_bounds(self@.vaults);
        }
        if contract_balance <= total_liabilities {
            return Err(VestingError::InsufficientBalance);
        }
        Ok(Transfer { token: token_address, to: self.admin, amount: contract_balance - total_liabilities })
    }

    /// Writes vault `v` under the next id, debiting its principal.
    fn push_vault(&mut self, v: Vault) -> (r: u64)
        requires
            old(self).wf(),
            vault_wf(v),
            v.released_amount == 0,
            v.staked_amount == 0,
            v.total_amount <= old(self)@.admin_balance,
            old(self)@.vaults.len() + 1 < u64::MAX,
        ensures
            final(self).wf(),
            releases_grow(old(self)@, final(self)@),
            r == old(self)@.vaults.len() + 1,
            final(self)@ == after_create(old(self)@, v),
    {
        let vault_id = self.vaults.len() as u64 + 1;
        let ghost s0 = self@;
        proof {
            lemma_sums_push(s0.vaults, v);
        }
        self.admin_balance = self.admin_balance - v.total_amount;
        self.total_shares = self.total_shares + v.total_amount;
        self.vaults.push(v);
        if v.is_initialized {
            self.index_push(v.owner, vault_id);
        }
        proof {
            assert(self@ == after_create(s0, v));
        }
        vault_id
    }

    fn batch_create(&mut self, caller: AccountId, batch_data: &BatchCreateData, now: u64, initialized: bool) -> (r: Result<Vec<u64>, VestingError>)
        requires
            old(self).wf(),
        ensures
            final(self).wf(),
            releases_grow(old(self)@, final(self)@),
            match batch_error(old(self)@, caller, batch_data) {
                Some(e) => r == Err::<Vec<u64>, VestingError>(e) && final(self)@ == old(self)@,
                None => r is Ok && r->Ok_0@ == batch_ids(old(self)@, batch_data.recipients@.len() as int) && final(self)@
                    == after_batch_create(old(self)@, batch_data, now, initialized, batch_data.recipients@.len()),
            },
    {
        self.require_admin(caller)?;
        let n = batch_data.recipients.len();
        if batch_data.amounts.len() != n || batch_data.start_times.len() != n || batch_data.end_times.len() != n
            || batch_data.keeper_fees.len() != n || batch_data.step_durations.len() > n {
            return Err(VestingError::InvalidBatch);
        }
        let mut i: usize = 0;
        while i < n
            invariant
                self.wf(),
                self@ == old(self)@,
                admin_gate(old(self)@, caller) is None,
                i <= n,
                n == batch_data.recipients@.len(),
                batch_shape_ok(batch_data),
                forall|j: int| 0 <= j < i ==> valid_window(#[trigger] batch_data.start_times@[j], batch_data.end_times@[j]),
            decreases n - i,
        {
            if Self::require_valid_duration(batch_data.start_times[i], batch_data.end_times[i]).is_err() {
                proof {
                    assert(!valid_window(batch_data.start_times@[i as int], batch_data.end_times@[i as int]));
                }
                return Err(VestingError::InvalidDuration);
            }
            i = i + 1;
        }
        let mut i: usize = 0;
        while i < n
            invariant
                self.wf(),
                self@ == old(self)@,
                admin_gate(old(self)@, caller) is None,
                i <= n,
                n == batch_data.recipients@.len(),
                batch_shape_ok(batch_data),
                forall|j: int| 0 <= j < n ==> valid_window(#[trigger] batch_data.start_times@[j], batch_data.end_times@[j]),
                forall|j: int| 0 <= j < i ==> !(#[trigger] batch_data.amounts@[j] <= 0 || batch_data.keeper_fees@[j] < 0),
            decreases n - i,
        {
            if batch_data.amounts[i] <= 0 || batch_data.keeper_fees[i] < 0 {
                proof {
                    assert(batch_data.amounts@[i as int] <= 0 || batch_data.keeper_fees@[i as int] < 0);
                }
                return Err(VestingError::InvalidAmount);
            }
            i = i + 1;
        }
        let mut total: i128 = 0;
        let mut i: usize = 0;
        while i < n
            invariant
                self.wf(),
                self@ == old(self)@,
                admin_gate(old(self)@, caller) is None,
                i <= n,
                n == batch_data.amounts@.len(),
                n == batch_data.recipients@.len(),
                batch_shape_ok(batch_data),
                forall|j: int| 0 <= j < n ==> valid_window(#[trigger] batch_data.start_times@[j], batch_data.end_times@[j]),
                forall|j: int| 0 <= j < n ==> !(#[trigger] batch_data.amounts@[j] <= 0 || batch_data.keeper_fees@[j] < 0),
                forall|j: int| 0 <= j < n ==> (#[trigger] batch_data.amounts@[j]) > 0,
                total == amounts_sum(batch_data.amounts@.subrange(0, i as int)),
                0 <= total <= self.admin_balance,
            decreases n - i,
        {
            let a = batch_data.amounts[i];
            proof {
                assert(batch_data.amounts@.subrange(0, i + 1).drop_last() =~= batch_data.amounts@.subrange(0, i as int));
                lemma_amounts_prefix_le(batch_data.amounts@, i as int + 1);
            }
            if a > self.admin_balance - total {
                proof {
                    assert(amounts_sum(batch_data.amounts@.subrange(0, i + 1)) > self.admin_balance);
                }
                return Err(VestingError::InsufficientBalance);
            }
            total = total + a;
            i = i + 1;
        }
        proof {
            assert(batch_data.amounts@.subrange(0, n as int) =~= batch_data.amounts@);
        }
        if self.vaults.len() as u64 >= u64::MAX - n as u64 {
            return Err(VestingError::Overflow);
        }
        let ghost s0 = self@;
        let mut ids: Vec<u64> = Vec::new();
        let mut k: usize = 0;
        while k < n
            invariant
                self.wf(),
                state_wf(s0),
                batch_error(s0, caller, batch_data) is None,
                k <= n,
                n == batch_data.recipients@.len(),
                batch_shape_ok(batch_data),
                forall|j: int| 0 <= j < n ==> (#[trigger] batch_data.amounts@[j]) > 0,
                self@ == after_batch_create(s0, batch_data, now, initialized, k as nat),
                self@.vaults.len() == s0.vaults.len() + k,
                self@.admin_balance == s0.admin_balance - amounts_sum(batch_data.amounts@.subrange(0, k as int)),
                ids@ == batch_ids(s0, k as int),
                releases_grow(s0, self@),
            decreases n - k,
        {
            let step = if k < batch_data.step_durations.len() {
                batch_data.step_durations[k]
            } else {
                0
            };
            let v = Vault {
                total_amount: batch_data.amounts[k],
                released_amount: 0,
                keeper_fee: batch_data.keeper_fees[k],
                staked_amount: 0,
                owner: batch_data.recipients[k],
                delegate: None,
                start_time: batch_data.start_times[k],
                end_time: batch_data.end_times[k],
                creation_time: now,
                step_duration: step,
                is_initialized: initialized,
                is_irrevocable: false,
                is_transferable: false,
                is_frozen: false,
            };
            proof {
                assert(v == batch_vault(batch_data, k as int, now, initialized));
                assert(batch_data.amounts@.subrange(0, k + 1).drop_last() =~= batch_data.amounts@.subrange(0, k as int));
                lemma_amounts_prefix_le(batch_data.amounts@, k as int + 1);
                assert(batch_data.amounts@.subrange(0, n as int) =~= batch_data.amounts@);
                assert(valid_window(batch_data.start_times@[k as int], batch_data.end_times@[k as int]));
                assert(!(batch_data.amounts@[k as int] <= 0 || batch_data.keeper_fees@[k as int] < 0));
            }
            let id = self.push_vault(v);
            ids.push(id);
            proof {
                assert(ids@ =~= batch_ids(s0, k as int + 1));
                assert(self@ == after_batch_create(s0, batch_data, now, initialized, (k + 1) as nat));
            }
            k = k + 1;
        }
        Ok(ids)
    }

    /// Creates one vault per batch entry, deferring the owner-index writes.
    /// The admin balance is debited once for the whole batch. Returns the
    /// new ids in order.
    pub fn batch_create_vaults_lazy(&mut self, caller: AccountId, batch_data: &BatchCreateData, now: u64) -> (r: Result<Vec<u64>, VestingError>)
        requires
            old(self).wf(),
        ensures
            final(self).wf(),
            releases_grow(old(self)@, final(self)@),
            match batch_error(old(self)@, caller, batch_data) {
                Some(e) => r == Err::<Vec<u64>, VestingError>(e) && final(self)@ == old(self)@,
                None => r is Ok && r->Ok_0@ == batch_ids(old(self)@, batch_data.recipients@.len() as int) && final(self)@
                    == after_batch_create(old(self)@, batch_data, now, false, batch_data.recipients@.len()),
            },
    {
        self.batch_create(caller, batch_data, now, false)
    }

    /// Creates one vault per batch entry, each listed under its owner at
    /// once. Returns the new ids in order.
    pub fn batch_create_vaults_full(&mut self, caller: AccountId, batch_data: &BatchCreateData, now: u64) -> (r: Result<Vec<u64>, VestingError>)
        requires
            old(self).wf(),
        ensures
            final(self).wf(),
            releases_grow(old(self)@, final(self)@),
            match batch_error(old(self)@, caller, batch_data) {
                Some(e) => r == Err::<Vec<u64>, VestingError>(e) && final(self)@ == old(self)@,
                None => r is Ok && r->Ok_0@ == batch_ids(old(self)@, batch_data.recipients@.len() as int) && final(self)@
                    == after_batch_create(old(self)@, batch_data, now, true, batch_data.recipients@.len()),
            },
    {
        self.batch_create(caller, batch_data, now, true)
    }

    /// Ids of `user`'s materialized vaults. Vaults created lazily appear once
    /// they have been read through [`Self::get_vault`].
    pub fn get_user_vaults(&self, user: AccountId) -> (r: Vec<u64>)
        requires
            self.wf(),
        ensures
            r@ == index_of(self@, user),
            forall|k: int| 0 <= k < r@.len() ==> has_vault(self@, #[trigger] r@[k]) && vault_of(self@, r@[k]).is_initialized,
    {
        let ids = match self.user_vaults.get(&user) {
            Some(v) => v.clone(),
            None => Vec::new(),
        };
        proof {
            assert(ids@ == index_of(self@, user));
            assert forall|k: int| 0 <= k < ids@.len() implies has_vault(self@, #[trigger] ids@[k]) && vault_of(self@, ids@[k]).is_initialized by {
                assert(self@.user_vaults[user][k] == ids@[k]);
            }
        }
        ids
    }
}

proof fn lemma_prefix_locked_le(vs: Seq<Vault>, n: int)
    requires
        crate::registry::all_vaults_wf(vs),
        0 <= n <= vs.len(),
    ensures
        crate::registry::all_vaults_wf(vs.subrange(0, n)),
        locked_sum(vs.subrange(0, n)) <= locked_sum(vs),
    decreases vs.len() - n,
{
    assert forall|i: int| 0 <= i < n implies vault_wf(#[trigger] vs.subrange(0, n)[i]) by {
        assert(vs.subrange(0, n)[i] == vs[i]);
    }
    if n < vs.len() {
        lemma_prefix_locked_le(vs, n + 1);
        let p = vs.subrange(0, n);
        assert(vs.subrange(0, n + 1) =~= p.push(vs[n]));
        lemma_sums_push(p, vs[n]);
        assert(vault_wf(vs[n]));
    } else {
        assert(vs.subrange(0, n) =~= vs);
    }
}


proof fn lemma_batch_error_extends(s: ContractState, ids: Seq<u64>, n: int)
    requires
        0 < n <= ids.len(),
        batch_revoke_error(s, ids.subrange(0, n - 1)) is None,
        !has_vault(s, ids[n - 1]) || vault_of(s, ids[n - 1]).is_irrevocable,
    ensures
        batch_revoke_error(s, ids) == batch_revoke_error(s, ids.subrange(0, n)),
        batch_revoke_error(s, ids.subrange(0, n)) is Some,
    decreases ids.len() - n,
{
    assert(ids.subrange(0, n).drop_last() =~= ids.subrange(0, n - 1));
    if n < ids.len() {
        assert(ids.subrange(0, n + 1).drop_last() =~= ids.subrange(0, n));
        lemma_batch_error_prefix(s, ids, n);
    }
}

proof fn lemma_batch_error_prefix(s: ContractState, ids: Seq<u64>, n: int)
    requires
        0 < n <= ids.len(),
        batch_revoke_error(s, ids.subrange(0, n)) is Some,
    ensures
        batch_revoke_error(s, ids) == batch_revoke_error(s, ids.subrange(0, n)),
    decreases ids.len() - n,
{
    if n == ids.len() {
        assert(ids.subrange(0, n) =~= ids);
    } else {
        assert(ids.subrange(0, n + 1).drop_last() =~= ids.subrange(0, n));
        lemma_batch_error_prefix(s, ids, n + 1);
    }
}

proof fn lemma_batch_ok_member(s: ContractState, ids: Seq<u64>, k: int)
    requires
        0 <= k < ids.len(),
        batch_revoke_error(s, ids) is None,
    ensures
        has_vault(s, ids[k]),
        !vault_of(s, ids[k]).is_irrevocable,
        batch_revoke_error(s, ids.subrange(0, k + 1)) is None,
    decreases ids.len(),
{
    if k == ids.len() - 1 {
        assert(ids.subrange(0, k + 1) =~= ids);
    } else {
        lemma_batch_ok_member(s, ids.drop_last(), k);
        assert(ids.drop_last().subrange(0, k + 1) =~= ids.subrange(0, k + 1));
    }
}


proof fn lemma_without_members(ids: Seq<u64>, vault_id: u64)
    ensures
        forall|x: u64| #[trigger] without(ids, vault_id).contains(x) <==> (ids.contains(x) && x != vault_id),
    decreases ids.len(),
{
    if ids.len() > 0 {
        let p = ids.drop_last();
        let last = ids.last();
        lemma_without_members(p, vault_id);
        assert(ids =~= p.push(last));
        let w = without(p, vault_id);
        assert forall|x: u64| #[trigger] without(ids, vault_id).contains(x) <==> (ids.contains(x) && x != vault_id) by {
            lemma_push_contains(p, last, x);
            lemma_push_contains(w, last, x);
        }
    }
}

proof fn lemma_push_contains(s: Seq<u64>, y: u64, x: u64)
    ensures
        s.push(y).contains(x) <==> (s.contains(x) || x == y),
{
    if s.push(y).contains(x) {
        let k = choose|k: int| 0 <= k < s.push(y).len() && s.push(y)[k] == x;
        if k < s.len() {
            assert(s[k] == x);
        }
    }
    if s.contains(x) {
        let k = choose|k: int| 0 <= k < s.len() && s[k] == x;
        assert(s.push(y)[k] == x);
    }
    if x == y {
        assert(s.push(y)[s.len() as int] == x);
    }
}

proof fn lemma_index_unlisted_owner_change(s: ContractState, vault_id: u64, new_owner: AccountId)
    requires
        state_wf(s),
        has_vault(s, vault_id),
        !vault_of(s, vault_id).is_initialized,
    ensures
        crate::registry::index_wf(after_owner_change(s, vault_id, new_owner)),
{
    let t = after_owner_change(s, vault_id, new_owner);
    assert forall|user: AccountId, k: int|
        t.user_vaults.contains_key(user) && 0 <= k < t.user_vaults[user].len() implies {
            let id = #[trigger] t.user_vaults[user][k];
            &&& 1 <= id <= t.vaults.len()
            &&& t.vaults[id - 1].is_initialized
            &&& t.vaults[id - 1].owner == user
        } by {
        let id = s.user_vaults[user][k];
        assert(s.vaults[id - 1].is_initialized);
    }
}

proof fn lemma_index_after_move(s: ContractState, vault_id: u64, new_owner: AccountId)
    requires
        state_wf(s),
        has_vault(s, vault_id),
        vault_of(s, vault_id).is_initialized,
    ensures
        crate::registry::index_wf(after_owner_change(s, vault_id, new_owner)),
{
    let t = after_owner_change(s, vault_id, new_owner);
    let from = vault_of(s, vault_id).owner;
    lemma_without_members(index_of(s, from), vault_id);
    assert forall|user: AccountId, k: int|
        t.user_vaults.contains_key(user) && 0 <= k < t.user_vaults[user].len() implies {
            let id = #[trigger] t.user_vaults[user][k];
            &&& 1 <= id <= t.vaults.len()
            &&& t.vaults[id - 1].is_initialized
            &&& t.vaults[id - 1].owner == user
        } by {
        let id = t.user_vaults[user][k];
        let removed = s.user_vaults.insert(from, without(index_of(s, from), vault_id));
        let list = if removed.contains_key(new_owner) { removed[new_owner] } else { Seq::<u64>::empty() };
        if user == new_owner && k == list.len() {
            assert(id == vault_id);
        } else {
            // `id` was listed under `user` before the move
            assert(removed.contains_key(user) && k < removed[user].len() && removed[user][k] == id);
            if user == from {
                let w = without(index_of(s, from), vault_id);
                assert(removed[from] == w);
                assert(w[k] == id);
                assert(w.contains(id));
                assert(id != vault_id);
                assert(index_of(s, from).contains(id));
                assert(s.user_vaults.contains_key(from));
                let j = choose|j: int| 0 <= j < index_of(s, from).len() && index_of(s, from)[j] == id;
                assert(s.user_vaults[from][j] == id);
            } else {
                assert(s.user_vaults[user][k] == id);
                if id == vault_id {
                    assert(s.vaults[id - 1].owner == user);
                }
            }
        }
    }
}


proof fn lemma_pct_total_prefix(ms: Seq<Milestone>, n: int)
    requires
        0 <= n <= ms.len(),
    ensures
        pct_total(ms.subrange(0, n)) <= pct_total(ms),
    decreases ms.len() - n,
{
    if n < ms.len() {
        lemma_pct_total_prefix(ms, n + 1);
        assert(ms.subrange(0, n + 1).drop_last() =~= ms.subrange(0, n));
    } else {
        assert(ms.subrange(0, n) =~= ms);
    }
}


proof fn lemma_amounts_prefix_le(xs: Seq<i128>, n: int)
    requires
        0 <= n <= xs.len(),
        forall|j: int| 0 <= j < xs.len() ==> (#[trigger] xs[j]) > 0,
    ensures
        amounts_sum(xs.subrange(0, n)) <= amounts_sum(xs),
        amounts_sum(xs.subrange(0, n)) >= 0,
    decreases xs.len() - n,
{
    assert forall|j: int| 0 <= j < xs.subrange(0, n).len() implies (#[trigger] xs.subrange(0, n)[j]) > 0 by {
        assert(xs.subrange(0, n)[j] == xs[j]);
    }
    lemma_amounts_nonneg(xs.subrange(0, n));
    if n < xs.len() {
        lemma_amounts_prefix_le(xs, n + 1);
        assert(xs.subrange(0, n + 1).drop_last() =~= xs.subrange(0, n));
    } else {
        assert(xs.subrange(0, n) =~= xs);
    }
}

proof fn lemma_amounts_nonneg(xs: Seq<i128>)
    requires
        forall|j: int| 0 <= j < xs.len() ==> (#[trigger] xs[j]) > 0,
    ensures
        amounts_sum(xs) >= 0,
    decreases xs.len(),
{
    if xs.len() > 0 {
        assert forall|j: int| 0 <= j < xs.drop_last().len() implies (#[trigger] xs.drop_last()[j]) > 0 by {
            assert(xs.drop_last()[j] == xs[j]);
        }
        lemma_amounts_nonneg(xs.drop_last());
    }
}

/// Materializing a vault a second time changes nothing: the state is the
/// one a single materialization left, and the vault is then marked
/// materialized, so the second call reports no write.
pub proof fn lemma_materialize_idempotent(s: ContractState, vault_id: u64)
    ensures
        materialize(materialize(s, vault_id), vault_id) == materialize(s, vault_id),
        !s.is_deprecated && has_vault(s, vault_id) ==> vault_of(materialize(s, vault_id), vault_id).is_initialized,
{
}


/// A claim of more than the vault's unlocked, unreleased principal is always
/// refused.
pub proof fn lemma_no_over_claim(
    s: ContractState,
    caller: AccountId,
    vault_id: u64,
    amount: i128,
    now: u64,
    token_balance: i128,
    by_delegate: bool,
)
    requires
        has_vault(s, vault_id),
        amount > vault_unlocked(s, vault_id, now) - vault_of(s, vault_id).released_amount,
    ensures
        claim_error(s, caller, vault_id, amount, now, token_balance, by_delegate) is Some,
{
}

/// When a claim of exactly the available amount passes every check, a claim
/// of one unit more is refused for lack of unlocked balance.
pub proof fn lemma_claim_boundary(
    s: ContractState,
    caller: AccountId,
    vault_id: u64,
    now: u64,
    token_balance: i128,
    by_delegate: bool,
)
    requires
        has_vault(s, vault_id),
        vault_unlocked(s, vault_id, now) - vault_of(s, vault_id).released_amount < i128::MAX,
        claim_error(
            s,
            caller,
            vault_id,
            (vault_unlocked(s, vault_id, now) - vault_of(s, vault_id).released_amount) as i128,
            now,
            token_balance,
            by_delegate,
        ) is None,
    ensures
        claim_error(
            s,
            caller,
            vault_id,
            (vault_unlocked(s, vault_id, now) - vault_of(s, vault_id).released_amount + 1) as i128,
            now,
            token_balance,
            by_delegate,
        ) == Some(VestingError::InsufficientBalance),
{
}

} // verus!
