//! The contract's whole state, its consistency conditions, and the sums over
//! vaults that the global invariant is stated with.

use crate::vault::{unreleased, vault_wf, AccountId, Milestone, Vault};
use vstd::prelude::*;

verus! {

/// Mathematical picture of the contract's state.
pub struct ContractState {
    pub admin: AccountId,
    pub proposed_admin: Option<AccountId>,
    pub initial_supply: int,
    /// Principal not yet allocated to any vault.
    pub admin_balance: int,
    /// Vault `id` is at position `id - 1`.
    pub vaults: Seq<Vault>,
    /// Owner index: ids of the owner's vaults that have been materialized.
    pub user_vaults: Map<AccountId, Seq<u64>>,
    pub milestones: Map<u64, Seq<Milestone>>,
    /// Accumulated automatic-claim fees per keeper.
    pub keeper_fees: Map<AccountId, i128>,
    /// Tokens that a migration sweeps and a rescue may return.
    pub whitelist: Seq<AccountId>,
    pub is_paused: bool,
    pub is_deprecated: bool,
    pub migration_target: Option<AccountId>,
    /// The yield-bearing token the vaults are paid in.
    pub token: Option<AccountId>,
    pub staking_contract: Option<AccountId>,
    /// Shares not yet released, over all vaults.
    pub total_shares: int,
    /// Shares currently staked, over all vaults.
    pub total_staked: int,
    /// Principal paid out to beneficiaries and keepers so far.
    pub paid_out: int,
}

/// Sum over vaults of the principal not yet released.
pub open spec fn locked_sum(vs: Seq<Vault>) -> int
    decreases vs.len(),
{
    if vs.len() == 0 {
        0
    } else {
        locked_sum(vs.drop_last()) + unreleased(vs.last())
    }
}

/// Sum over vaults of the staked amounts.
pub open spec fn staked_sum(vs: Seq<Vault>) -> int
    decreases vs.len(),
{
    if vs.len() == 0 {
        0
    } else {
        staked_sum(vs.drop_last()) + vs.last().staked_amount
    }
}

/// Sum over vaults of the released amounts.
pub open spec fn released_sum(vs: Seq<Vault>) -> int
    decreases vs.len(),
{
    if vs.len() == 0 {
        0
    } else {
        released_sum(vs.drop_last()) + vs.last().released_amount
    }
}

pub open spec fn all_vaults_wf(vs: Seq<Vault>) -> bool {
    forall|i: int| 0 <= i < vs.len() ==> vault_wf(#[trigger] vs[i])
}

/// The consistency conditions every operation preserves. The third line is
/// the global invariant: nothing is created or lost.
pub open spec fn state_wf(s: ContractState) -> bool {
    &&& s.vaults.len() < u64::MAX
    &&& all_vaults_wf(s.vaults)
    &&& s.admin_balance >= 0
    &&& s.paid_out >= 0
    &&& s.initial_supply == s.admin_balance + locked_sum(s.vaults) + s.paid_out
    &&& s.initial_supply <= i128::MAX
    &&& s.total_shares == locked_sum(s.vaults)
    &&& s.total_staked == staked_sum(s.vaults)
    &&& s.whitelist.no_duplicates()
    &&& index_wf(s)
}

/// Every id listed in the owner index names an existing, materialized vault
/// of that owner.
pub open spec fn index_wf(s: ContractState) -> bool {
    forall|user: AccountId, k: int|
        s.user_vaults.contains_key(user) && 0 <= k < s.user_vaults[user].len() ==> {
            let id = #[trigger] s.user_vaults[user][k];
            &&& 1 <= id <= s.vaults.len()
            &&& s.vaults[id - 1].is_initialized
            &&& s.vaults[id - 1].owner == user
        }
}

/// Changing vault records without touching owners, materialization or the
/// index keeps the index consistent.
pub proof fn lemma_index_wf_kept(s: ContractState, t: ContractState)
    requires
        index_wf(s),
        t.user_vaults == s.user_vaults,
        s.vaults.len() <= t.vaults.len(),
        forall|i: int|
            0 <= i < s.vaults.len() ==> (#[trigger] t.vaults[i]).owner == s.vaults[i].owner
                && t.vaults[i].is_initialized == s.vaults[i].is_initialized,
    ensures
        index_wf(t),
{
    assert forall|user: AccountId, k: int|
        t.user_vaults.contains_key(user) && 0 <= k < t.user_vaults[user].len() implies {
            let id = #[trigger] t.user_vaults[user][k];
            &&& 1 <= id <= t.vaults.len()
            &&& t.vaults[id - 1].is_initialized
            &&& t.vaults[id - 1].owner == user
        } by {
        let id = s.user_vaults[user][k];
        assert(t.vaults[id - 1].owner == s.vaults[id - 1].owner);
    }
}

/// No vault's released amount went down, and no vault disappeared.
pub open spec fn releases_grow(a: ContractState, b: ContractState) -> bool {
    &&& a.vaults.len() <= b.vaults.len()
    &&& forall|i: int|
        0 <= i < a.vaults.len() ==> (#[trigger] a.vaults[i]).released_amount <= b.vaults[i].released_amount
}

pub proof fn lemma_sums_push(vs: Seq<Vault>, v: Vault)
    ensures
        locked_sum(vs.push(v)) == locked_sum(vs) + unreleased(v),
        staked_sum(vs.push(v)) == staked_sum(vs) + v.staked_amount,
        released_sum(vs.push(v)) == released_sum(vs) + v.released_amount,
{
    assert(vs.push(v).drop_last() =~= vs);
}

pub proof fn lemma_sums_update(vs: Seq<Vault>, i: int, v: Vault)
    requires
        0 <= i < vs.len(),
    ensures
        locked_sum(vs.update(i, v)) == locked_sum(vs) - unreleased(vs[i]) + unreleased(v),
        staked_sum(vs.update(i, v)) == staked_sum(vs) - vs[i].staked_amount + v.staked_amount,
        released_sum(vs.update(i, v)) == released_sum(vs) - vs[i].released_amount + v.released_amount,
    decreases vs.len(),
{
    let u = vs.update(i, v);
    if i == vs.len() - 1 {
        assert(u.drop_last() =~= vs.drop_last());
    } else {
        assert(u.drop_last() =~= vs.drop_last().update(i, v));
        lemma_sums_update(vs.drop_last(), i, v);
    }
}

pub proof fn lemma_sums_bounds(vs: Seq<Vault>)
    requires
        all_vaults_wf(vs),
    ensures
        0 <= staked_sum(vs) <= locked_sum(vs),
        0 <= released_sum(vs),
    decreases vs.len(),
{
    if vs.len() > 0 {
        assert(all_vaults_wf(vs.drop_last())) by {
            assert forall|i: int| 0 <= i < vs.drop_last().len() implies vault_wf(#[trigger] vs.drop_last()[i]) by {
                assert(vs.drop_last()[i] == vs[i]);
            }
        }
        lemma_sums_bounds(vs.drop_last());
        assert(vault_wf(vs[vs.len() - 1]));
    }
}

/// Unreleased principal of one vault never exceeds the sum over all vaults.
pub proof fn lemma_locked_sum_ge(vs: Seq<Vault>, i: int)
    requires
        all_vaults_wf(vs),
        0 <= i < vs.len(),
    ensures
        unreleased(vs[i]) <= locked_sum(vs),
        vs[i].staked_amount <= staked_sum(vs),
    decreases vs.len(),
{
    assert(all_vaults_wf(vs.drop_last())) by {
        assert forall|j: int| 0 <= j < vs.drop_last().len() implies vault_wf(#[trigger] vs.drop_last()[j]) by {
            assert(vs.drop_last()[j] == vs[j]);
        }
    }
    assert(vault_wf(vs[vs.len() - 1]));
    lemma_sums_bounds(vs.drop_last());
    if i < vs.len() - 1 {
        lemma_locked_sum_ge(vs.drop_last(), i);
        assert(vs.drop_last()[i] == vs[i]);
    }
}

/// Global invariant: in every consistent state the unallocated balance and
/// the principal still locked in vaults together never exceed the initial
/// supply, and the gap is exactly what was paid out.
pub proof fn lemma_supply_conserved(s: ContractState)
    requires
        state_wf(s),
    ensures
        s.admin_balance + locked_sum(s.vaults) <= s.initial_supply,
        s.initial_supply - s.admin_balance - locked_sum(s.vaults) == s.paid_out,
{
}

} // verus!
