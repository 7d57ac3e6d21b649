use vesting_vault::contract::{BatchCreateData, StakingCall, Transfer, VestingContract};
use vesting_vault::error::VestingError;
use vesting_vault::vault::{Milestone, MAX_DURATION};

const ADMIN: u64 = 100;
const ALICE: u64 = 1;
const BOB: u64 = 2;
const KEEPER: u64 = 3;
const TOKEN: u64 = 50;
const STAKING: u64 = 60;
const NOW: u64 = 1_000;

fn setup(supply: i128) -> VestingContract {
    let mut c = VestingContract::initialize(ADMIN, supply).unwrap();
    c.set_token(ADMIN, TOKEN).unwrap();
    c
}

fn full_vault(c: &mut VestingContract, owner: u64, amount: i128, start: u64, end: u64, step: u64) -> u64 {
    c.create_vault_full(ADMIN, owner, amount, start, end, 0, true, false, step, NOW).unwrap()
}

#[test]
fn create_vault_full_allows_max_duration() {
    let mut c = setup(1_000_000);
    let start = NOW;
    let end = start + MAX_DURATION;
    c.create_vault_full(ADMIN, ALICE, 1_000, start, end, 0, true, false, 0, NOW).unwrap();
}

#[test]
fn create_vault_full_rejects_over_max_duration() {
    let mut c = setup(1_000_000);
    let r = c.create_vault_full(ADMIN, ALICE, 1_000, NOW, NOW + MAX_DURATION + 1, 0, true, false, 0, NOW);
    assert_eq!(r, Err(VestingError::InvalidDuration));
    let r = c.create_vault_lazy(ADMIN, ALICE, 1_000, NOW, NOW + MAX_DURATION + 1, 0, true, false, 0, NOW);
    assert_eq!(r, Err(VestingError::InvalidDuration));
    let r = c.create_vault_full(ADMIN, ALICE, 1_000, NOW, NOW - 1, 0, true, false, 0, NOW);
    assert_eq!(r, Err(VestingError::InvalidDuration));
    assert_eq!(c.get_contract_state(), (0, 0, 1_000_000));
}

#[test]
fn batch_create_vaults_rejects_over_max_duration() {
    let mut c = setup(1_000_000);
    let batch = BatchCreateData {
        recipients: vec![ALICE, BOB],
        amounts: vec![100, 1_000],
        start_times: vec![NOW, NOW],
        end_times: vec![NOW + 10, NOW + MAX_DURATION + 1],
        keeper_fees: vec![0, 0],
        step_durations: vec![],
    };
    assert_eq!(c.batch_create_vaults_lazy(ADMIN, &batch, NOW), Err(VestingError::InvalidDuration));
    assert_eq!(c.batch_create_vaults_full(ADMIN, &batch, NOW), Err(VestingError::InvalidDuration));
    assert_eq!(c.get_contract_state(), (0, 0, 1_000_000));
}

#[test]
fn create_vault_succeeds_with_multisig_admin_threshold_met() {
    let multisig_admin: u64 = 900;
    let mut c = VestingContract::initialize(multisig_admin, 1_000_000).unwrap();
    let now = 1_000;
    let vault_id = c.create_vault_full(multisig_admin, ALICE, 1_000, now, now + 1_000, 0, true, false, 0, now).unwrap();
    assert_eq!(vault_id, 1u64);
}

#[test]
fn create_vault_by_non_admin_is_refused() {
    let mut c = setup(1_000_000);
    let r = c.create_vault_full(ALICE, ALICE, 1_000, NOW, NOW + 10, 0, true, false, 0, NOW);
    assert_eq!(r, Err(VestingError::Unauthorized));
}

#[test]
fn create_vault_checks_amounts_and_balance() {
    let mut c = setup(1_000);
    assert_eq!(c.create_vault_full(ADMIN, ALICE, 0, NOW, NOW + 10, 0, true, false, 0, NOW), Err(VestingError::InvalidAmount));
    assert_eq!(c.create_vault_full(ADMIN, ALICE, 10, NOW, NOW + 10, -1, true, false, 0, NOW), Err(VestingError::InvalidAmount));
    assert_eq!(c.create_vault_full(ADMIN, ALICE, 1_001, NOW, NOW + 10, 0, true, false, 0, NOW), Err(VestingError::InsufficientBalance));
    assert_eq!(c.create_vault_full(ADMIN, ALICE, 1_000, NOW, NOW + 10, 0, true, false, 0, NOW), Ok(1));
    assert_eq!(c.get_contract_state(), (1_000, 0, 0));
    assert!(VestingContract::initialize(ADMIN, -1).is_err());
}

#[test]
fn claim_one_percent_after_one_second() {
    let mut c = setup(1_000);
    let id = full_vault(&mut c, ALICE, 1000, NOW, NOW + 100, 0);
    assert_eq!(c.get_claimable_amount(id, NOW + 1), Ok(10));
    let out = c.claim_tokens(ALICE, id, 10, NOW + 1, 1000).unwrap();
    assert_eq!(out.payout, Transfer { token: TOKEN, to: ALICE, amount: 10 });
    assert_eq!(out.unstake, None);
    assert!(c.check_invariant());
}

#[test]
fn stepped_schedule_vests_everything_at_the_end() {
    let mut c = setup(1009);
    let id = full_vault(&mut c, ALICE, 1009, NOW, NOW + 101, 17);
    assert_eq!(c.get_claimable_amount(id, NOW + 16), Ok(0));
    assert_eq!(c.get_claimable_amount(id, NOW + 17), Ok(1009 * 17 / 101));
    assert_eq!(c.get_claimable_amount(id, NOW + 33), Ok(1009 * 17 / 101));
    assert_eq!(c.get_claimable_amount(id, NOW + 101 + 1), Ok(1009));
    let out = c.claim_tokens(ALICE, id, 1009, NOW + 102, 1009).unwrap();
    assert_eq!(out.payout.amount, 1009);
}

#[test]
fn milestones_gate_claims() {
    let mut c = setup(1000);
    let id = full_vault(&mut c, ALICE, 1000, NOW, NOW + 100, 0);
    let ms = vec![
        Milestone { id: 1, percentage: 50, is_unlocked: false },
        Milestone { id: 2, percentage: 50, is_unlocked: false },
    ];
    c.set_milestones(ADMIN, id, ms.clone()).unwrap();
    assert_eq!(c.get_milestones(id), ms);
    // time alone no longer unlocks anything
    assert_eq!(c.claim_tokens(ALICE, id, 500, NOW + 1_000, 1000), Err(VestingError::InsufficientBalance));
    c.unlock_milestone(ADMIN, id, 1).unwrap();
    assert_eq!(c.unlock_milestone(ADMIN, id, 1), Err(VestingError::AlreadyInTargetState));
    assert_eq!(c.claim_tokens(ALICE, id, 500, NOW, 1000).unwrap().payout.amount, 500);
    c.unlock_milestone(ADMIN, id, 2).unwrap();
    assert_eq!(c.get_claimable_amount(id, NOW), Ok(500));
    assert_eq!(c.claim_tokens(ALICE, id, 500, NOW, 500).unwrap().payout.amount, 500);
    assert_eq!(c.get_vault(id).unwrap().released_amount, 1000);
    assert!(c.check_invariant());
}

#[test]
fn milestone_sets_are_validated() {
    let mut c = setup(1000);
    let id = full_vault(&mut c, ALICE, 1000, NOW, NOW + 100, 0);
    let m = |id: u64, percentage: u32| Milestone { id, percentage, is_unlocked: false };
    assert_eq!(c.set_milestones(ADMIN, id, vec![]), Err(VestingError::InvalidMilestones));
    assert_eq!(c.set_milestones(ADMIN, id, vec![m(1, 0)]), Err(VestingError::InvalidMilestones));
    assert_eq!(c.set_milestones(ADMIN, id, vec![m(1, 101)]), Err(VestingError::InvalidMilestones));
    assert_eq!(c.set_milestones(ADMIN, id, vec![m(1, 10), m(1, 10)]), Err(VestingError::InvalidMilestones));
    assert_eq!(c.set_milestones(ADMIN, id, vec![m(1, 60), m(2, 41)]), Err(VestingError::InvalidMilestones));
    assert_eq!(c.unlock_milestone(ADMIN, id, 1), Err(VestingError::NotConfigured));
    c.set_milestones(ADMIN, id, vec![m(1, 60), m(2, 40)]).unwrap();
    assert_eq!(c.set_milestones(ADMIN, id, vec![m(3, 10)]), Err(VestingError::AlreadyInTargetState));
    assert_eq!(c.unlock_milestone(ADMIN, id, 9), Err(VestingError::InvalidMilestones));
    assert!(c.get_milestones(99).is_empty());
}

#[test]
fn exact_boundary_claim_succeeds_and_one_more_fails() {
    let mut c = setup(1000);
    let id = full_vault(&mut c, ALICE, 1000, NOW, NOW + 100, 0);
    let t = NOW + 50;
    assert_eq!(c.claim_tokens(ALICE, id, 501, t, 1000), Err(VestingError::InsufficientBalance));
    assert_eq!(c.claim_tokens(ALICE, id, 500, t, 1000).unwrap().payout.amount, 500);
    assert_eq!(c.claim_tokens(ALICE, id, 1, t, 500), Err(VestingError::InsufficientBalance));
    assert_eq!(c.claim_tokens(ALICE, id, 0, t, 500), Err(VestingError::InvalidAmount));
}

#[test]
fn duration_at_max_is_accepted_and_beyond_refused() {
    let mut c = setup(10_000);
    assert!(c.create_vault_full(ADMIN, ALICE, 1_000, NOW, NOW + MAX_DURATION, 0, true, false, 0, NOW).is_ok());
    assert_eq!(
        c.create_vault_full(ADMIN, ALICE, 1_000, NOW, NOW + MAX_DURATION + 1, 0, true, false, 0, NOW),
        Err(VestingError::InvalidDuration)
    );
}

#[test]
fn clawback_only_within_grace_period() {
    let mut c = setup(2_000);
    let a = full_vault(&mut c, ALICE, 1_000, NOW, NOW + 100, 0);
    let b = full_vault(&mut c, BOB, 1_000, NOW, NOW + 100, 0);
    assert_eq!(c.clawback_vault(ADMIN, a, NOW + 3599), Ok(1_000));
    assert_eq!(c.clawback_vault(ADMIN, b, NOW + 3601), Err(VestingError::ClawbackClosed));
    assert_eq!(c.get_contract_state(), (1_000, 1_000, 1_000));
    assert!(c.check_invariant());
}

#[test]
fn clawback_after_a_claim_is_refused() {
    let mut c = setup(1_000);
    let a = full_vault(&mut c, ALICE, 1_000, NOW, NOW + 100, 0);
    c.claim_tokens(ALICE, a, 10, NOW + 1, 1_000).unwrap();
    assert_eq!(c.clawback_vault(ADMIN, a, NOW + 2), Err(VestingError::ClawbackClosed));
}

#[test]
fn claim_distributes_accrued_yield() {
    let mut c = setup(10_000);
    let id = full_vault(&mut c, ALICE, 10_000, NOW, NOW + 100, 0);
    // the contract holds the principal plus 2_000 of yield
    let out = c.claim_tokens(ALICE, id, 10_000, NOW + 100, 12_000).unwrap();
    assert_eq!(out.payout, Transfer { token: TOKEN, to: ALICE, amount: 12_000 });
}

#[test]
fn revoke_returns_unreleased_principal_to_admin() {
    let mut c = setup(3_000);
    let a = full_vault(&mut c, ALICE, 1_000, NOW, NOW + 100, 0);
    let b = full_vault(&mut c, BOB, 1_000, NOW, NOW + 100, 0);
    let d = full_vault(&mut c, BOB, 1_000, NOW, NOW + 100, 0);
    c.claim_tokens(ALICE, a, 300, NOW + 30, 3_000).unwrap();
    assert_eq!(c.revoke_tokens(ADMIN, a), Ok(700));
    assert_eq!(c.revoke_tokens(ADMIN, a), Err(VestingError::InsufficientBalance));
    assert_eq!(c.revoke_partial(ADMIN, b, 0), Err(VestingError::InvalidAmount));
    assert_eq!(c.revoke_partial(ADMIN, b, 1_001), Err(VestingError::InsufficientBalance));
    assert_eq!(c.revoke_partial(ADMIN, b, 400), Ok(400));
    c.mark_irrevocable(ADMIN, d).unwrap();
    assert_eq!(c.is_vault_irrevocable(d), Ok(true));
    assert_eq!(c.revoke_tokens(ADMIN, d), Err(VestingError::Irrevocable));
    assert_eq!(c.batch_revoke(ADMIN, &vec![b, d]), Err(VestingError::Irrevocable));
    assert_eq!(c.batch_revoke(ADMIN, &vec![a, b, b]), Ok(600));
    assert_eq!(c.batch_revoke(ADMIN, &vec![b, 77]), Err(VestingError::MissingVault));
    assert_eq!(c.get_contract_state(), (1_000, 2_000, 1_700));
    assert!(c.check_invariant());
}

#[test]
fn lazy_vault_is_indexed_once_on_first_read() {
    let mut c = setup(2_000);
    let lazy = c.create_vault_lazy(ADMIN, ALICE, 1_000, NOW, NOW + 100, 0, true, false, 0, NOW).unwrap();
    assert!(c.get_user_vaults(ALICE).is_empty());
    assert_eq!(c.claim_tokens(ALICE, lazy, 1, NOW + 50, 2_000), Err(VestingError::NotInitialized));
    let v = c.get_vault(lazy).unwrap();
    assert!(v.is_initialized);
    assert_eq!(c.get_user_vaults(ALICE), vec![lazy]);
    c.get_vault(lazy).unwrap();
    assert_eq!(c.get_user_vaults(ALICE), vec![lazy]);
    assert_eq!(c.initialize_vault_metadata(lazy), Ok(false));
    let other = c.create_vault_lazy(ADMIN, ALICE, 1_000, NOW, NOW + 100, 0, true, false, 0, NOW).unwrap();
    assert_eq!(c.initialize_vault_metadata(other), Ok(true));
    assert_eq!(c.initialize_vault_metadata(other), Ok(false));
    assert_eq!(c.get_user_vaults(ALICE), vec![lazy, other]);
    assert_eq!(c.get_vault(42), Err(VestingError::MissingVault));
}

#[test]
fn lazy_and_full_creation_agree_after_materialization() {
    let mut full = setup(1_000);
    let mut lazy = setup(1_000);
    let a = full_vault(&mut full, ALICE, 1_000, NOW, NOW + 100, 0);
    let b = lazy.create_vault_lazy(ADMIN, ALICE, 1_000, NOW, NOW + 100, 0, true, false, 0, NOW).unwrap();
    assert_eq!(full.get_vault(a).unwrap(), lazy.get_vault(b).unwrap());
    assert_eq!(full.get_user_vaults(ALICE), lazy.get_user_vaults(ALICE));
}

#[test]
fn batch_creation_debits_once_and_numbers_in_order() {
    let mut c = setup(1_000);
    let batch = BatchCreateData {
        recipients: vec![ALICE, BOB, ALICE],
        amounts: vec![100, 200, 300],
        start_times: vec![NOW, NOW, NOW],
        end_times: vec![NOW + 10, NOW + 20, NOW + 30],
        keeper_fees: vec![0, 1, 2],
        step_durations: vec![5],
    };
    assert_eq!(c.batch_create_vaults_full(ADMIN, &batch, NOW), Ok(vec![1, 2, 3]));
    assert_eq!(c.get_user_vaults(ALICE), vec![1, 3]);
    assert_eq!(c.get_contract_state(), (600, 0, 400));
    assert_eq!(c.get_vault(1).unwrap().step_duration, 5);
    assert_eq!(c.get_vault(2).unwrap().step_duration, 0);
    assert_eq!(c.batch_create_vaults_lazy(ADMIN, &batch, NOW), Err(VestingError::InsufficientBalance));
    let bad = BatchCreateData { amounts: vec![1], ..batch };
    assert_eq!(c.batch_create_vaults_lazy(ADMIN, &bad, NOW), Err(VestingError::InvalidBatch));
}

#[test]
fn lazy_batch_defers_index() {
    let mut c = setup(1_000);
    let batch = BatchCreateData {
        recipients: vec![ALICE, BOB],
        amounts: vec![100, 200],
        start_times: vec![NOW, NOW],
        end_times: vec![NOW + 10, NOW + 20],
        keeper_fees: vec![0, 0],
        step_durations: vec![],
    };
    assert_eq!(c.batch_create_vaults_lazy(ADMIN, &batch, NOW), Ok(vec![1, 2]));
    assert!(c.get_user_vaults(BOB).is_empty());
    c.get_vault(2).unwrap();
    assert_eq!(c.get_user_vaults(BOB), vec![2]);
}

#[test]
fn pause_and_freeze_stop_claims() {
    let mut c = setup(1_000);
    let id = full_vault(&mut c, ALICE, 1_000, NOW, NOW + 100, 0);
    c.toggle_pause(ADMIN).unwrap();
    assert!(c.is_paused());
    assert_eq!(c.claim_tokens(ALICE, id, 10, NOW + 50, 1_000), Err(VestingError::PausedOrFrozen));
    assert_eq!(c.auto_claim(KEEPER, id, NOW + 50, 1_000), Err(VestingError::PausedOrFrozen));
    c.toggle_pause(ADMIN).unwrap();
    c.freeze_vault(ADMIN, id).unwrap();
    assert_eq!(c.freeze_vault(ADMIN, id), Err(VestingError::AlreadyInTargetState));
    assert_eq!(c.is_vault_frozen(id), Ok(true));
    assert_eq!(c.claim_tokens(ALICE, id, 10, NOW + 50, 1_000), Err(VestingError::PausedOrFrozen));
    c.unfreeze_vault(ADMIN, id).unwrap();
    assert_eq!(c.unfreeze_vault(ADMIN, id), Err(VestingError::AlreadyInTargetState));
    assert!(c.claim_tokens(ALICE, id, 10, NOW + 50, 1_000).is_ok());
}

#[test]
fn delegate_claims_for_owner() {
    let mut c = setup(1_000);
    let id = full_vault(&mut c, ALICE, 1_000, NOW, NOW + 100, 0);
    assert_eq!(c.claim_as_delegate(BOB, id, 10, NOW + 50, 1_000), Err(VestingError::NotConfigured));
    assert_eq!(c.set_delegate(BOB, id, Some(BOB)), Err(VestingError::Unauthorized));
    c.set_delegate(ALICE, id, Some(BOB)).unwrap();
    assert_eq!(c.claim_as_delegate(KEEPER, id, 10, NOW + 50, 1_000), Err(VestingError::Unauthorized));
    let out = c.claim_as_delegate(BOB, id, 10, NOW + 50, 1_000).unwrap();
    assert_eq!(out.payout.to, ALICE);
}

#[test]
fn keeper_claim_splits_fee() {
    let mut c = setup(1_000);
    let id = c.create_vault_full(ADMIN, ALICE, 1_000, NOW, NOW + 100, 5, true, false, 0, NOW).unwrap();
    assert_eq!(c.auto_claim(KEEPER, id, NOW, 1_000), Err(VestingError::InsufficientBalance));
    let out = c.auto_claim(KEEPER, id, NOW + 50, 1_000).unwrap();
    assert_eq!(out.to_beneficiary, Transfer { token: TOKEN, to: ALICE, amount: 495 });
    assert_eq!(out.to_keeper, Transfer { token: TOKEN, to: KEEPER, amount: 5 });
    assert_eq!(c.get_keeper_fee(KEEPER), 5);
    assert_eq!(c.get_keeper_fee(ALICE), 0);
    assert_eq!(c.get_vault(id).unwrap().released_amount, 500);
    assert!(c.check_invariant());
}

#[test]
fn transfers_move_the_owner_index() {
    let mut c = setup(3_000);
    let a = full_vault(&mut c, ALICE, 1_000, NOW, NOW + 100, 0);
    let t = c.create_vault_full(ADMIN, ALICE, 1_000, NOW, NOW + 100, 0, true, true, 0, NOW).unwrap();
    c.set_delegate(ALICE, t, Some(KEEPER)).unwrap();
    assert_eq!(c.transfer_vault(ALICE, a, BOB), Err(VestingError::NotTransferable));
    assert_eq!(c.transfer_vault(BOB, t, BOB), Err(VestingError::Unauthorized));
    c.transfer_vault(ALICE, t, BOB).unwrap();
    assert_eq!(c.get_user_vaults(ALICE), vec![a]);
    assert_eq!(c.get_user_vaults(BOB), vec![t]);
    assert_eq!(c.get_vault(t).unwrap().delegate, None);
    c.rotate_beneficiary_key(ALICE, a, KEEPER).unwrap();
    assert!(c.get_user_vaults(ALICE).is_empty());
    c.transfer_beneficiary(ADMIN, a, ALICE).unwrap();
    assert_eq!(c.get_user_vaults(ALICE), vec![a]);
    assert!(c.get_user_vaults(KEEPER).is_empty());
    assert_eq!(c.transfer_beneficiary(BOB, a, BOB), Err(VestingError::Unauthorized));
}

#[test]
fn staking_and_auto_unstake_on_claim() {
    let mut c = setup(1_000);
    let id = full_vault(&mut c, ALICE, 1_000, NOW, NOW + 100, 0);
    assert_eq!(c.stake_tokens(ALICE, id, 600, 9), Err(VestingError::NotConfigured));
    c.set_staking_contract(ADMIN, STAKING).unwrap();
    assert_eq!(c.stake_tokens(ALICE, id, 1_001, 9), Err(VestingError::InsufficientBalance));
    let call = c.stake_tokens(ALICE, id, 600, 9).unwrap();
    assert_eq!(call, StakingCall { contract: STAKING, vault_id: id, amount: 600, validator: Some(9) });
    assert_eq!(c.revoke_tokens(ADMIN, id), Ok(400));
    let mut c2 = setup(1_000);
    let id2 = full_vault(&mut c2, ALICE, 1_000, NOW, NOW + 100, 0);
    c2.set_staking_contract(ADMIN, STAKING).unwrap();
    c2.stake_tokens(ALICE, id2, 600, 9).unwrap();
    let out = c2.claim_tokens(ALICE, id2, 700, NOW + 80, 1_000).unwrap();
    assert_eq!(out.unstake, Some(StakingCall { contract: STAKING, vault_id: id2, amount: 300, validator: None }));
    assert_eq!(c2.get_vault(id2).unwrap().staked_amount, 300);
    assert!(c2.check_invariant());
}

#[test]
fn admin_handover_takes_two_steps() {
    let mut c = setup(1_000);
    assert_eq!(c.accept_ownership(BOB), Err(VestingError::NotConfigured));
    assert_eq!(c.propose_new_admin(BOB, BOB), Err(VestingError::Unauthorized));
    c.propose_new_admin(ADMIN, BOB).unwrap();
    assert_eq!(c.get_proposed_admin(), Some(BOB));
    assert_eq!(c.accept_ownership(ALICE), Err(VestingError::Unauthorized));
    c.accept_ownership(BOB).unwrap();
    assert_eq!(c.get_admin(), BOB);
    assert_eq!(c.get_proposed_admin(), None);
    assert_eq!(c.toggle_pause(ADMIN), Err(VestingError::Unauthorized));
}

#[test]
fn token_is_set_once() {
    let mut c = VestingContract::initialize(ADMIN, 1_000).unwrap();
    let id = full_vault(&mut c, ALICE, 1_000, NOW, NOW + 100, 0);
    assert_eq!(c.claim_tokens(ALICE, id, 10, NOW + 50, 1_000), Err(VestingError::NotConfigured));
    c.set_token(ADMIN, TOKEN).unwrap();
    assert_eq!(c.set_token(ADMIN, TOKEN + 1), Err(VestingError::AlreadyInTargetState));
}

#[test]
fn migration_deprecates_for_good() {
    let mut c = setup(1_000);
    c.add_to_whitelist(ADMIN, 70).unwrap();
    c.add_to_whitelist(ADMIN, 71).unwrap();
    c.add_to_whitelist(ADMIN, 70).unwrap();
    let me: u64 = 500;
    assert_eq!(c.migrate_liquidity(ADMIN, me, me), Err(VestingError::InvalidTarget));
    assert_eq!(c.migrate_liquidity(ADMIN, 600, me), Ok(vec![70, 71]));
    assert!(c.is_deprecated());
    assert!(c.is_paused());
    assert_eq!(c.get_migration_target(), Some(600));
    assert_eq!(c.migrate_liquidity(ADMIN, 601, me), Err(VestingError::Deprecated));
    assert_eq!(c.toggle_pause(ADMIN), Err(VestingError::Deprecated));
}

#[test]
fn rescue_returns_only_unallocated_tokens() {
    let mut c = setup(1_000);
    full_vault(&mut c, ALICE, 600, NOW, NOW + 100, 0);
    assert_eq!(c.rescue_unallocated_tokens(ADMIN, 70, 1_000), Err(VestingError::NotConfigured));
    c.add_to_whitelist(ADMIN, 70).unwrap();
    c.add_to_whitelist(ADMIN, TOKEN).unwrap();
    assert_eq!(c.rescue_unallocated_tokens(ADMIN, TOKEN, 1_000), Err(VestingError::InvalidTarget));
    assert_eq!(c.rescue_unallocated_tokens(ADMIN, 70, 600), Err(VestingError::InsufficientBalance));
    assert_eq!(c.rescue_unallocated_tokens(ADMIN, 70, 650), Ok(Transfer { token: 70, to: ADMIN, amount: 50 }));
}

#[test]
fn invariant_holds_after_a_mixed_sequence() {
    let mut c = setup(10_000);
    let a = full_vault(&mut c, ALICE, 3_000, NOW, NOW + 100, 0);
    let b = c.create_vault_lazy(ADMIN, BOB, 2_000, NOW, NOW + 100, 0, true, false, 10, NOW).unwrap();
    assert!(c.check_invariant());
    c.claim_tokens(ALICE, a, 1_500, NOW + 50, 10_000).unwrap();
    assert!(c.check_invariant());
    c.get_vault(b).unwrap();
    c.claim_tokens(BOB, b, 1_000, NOW + 55, 8_500).unwrap();
    c.revoke_partial(ADMIN, b, 500).unwrap();
    c.clawback_vault(ADMIN, a, NOW + 10).unwrap_err();
    assert!(c.check_invariant());
    let (locked, released, admin) = c.get_contract_state();
    assert_eq!(locked, 1_500 + 500);
    assert_eq!(released, 1_500 + 1_500);
    assert_eq!(admin, 5_000 + 500);
    assert!(10_000 - locked - admin == 2_500);
}

#[test]
fn unlocked_amount_is_a_percentage_of_the_total() {
    assert_eq!(VestingContract::unlocked_amount(1_000, 50), 500);
    assert_eq!(VestingContract::unlocked_amount(999, 33), 329);
    assert_eq!(VestingContract::unlocked_amount(i128::MAX, 100), i128::MAX);
    assert!(VestingContract::require_valid_duration(10, 9).is_err());
    assert!(VestingContract::require_valid_duration(10, 10).is_ok());
}

#[test]
fn yield_product_overflow_is_refused() {
    let mut c = setup(1_000);
    let id = full_vault(&mut c, ALICE, 1_000, NOW, NOW + 100, 0);
    assert_eq!(c.claim_tokens(ALICE, id, 10, NOW + 50, i128::MAX), Err(VestingError::Overflow));
    assert_eq!(c.get_vault(id).unwrap().released_amount, 0);
}

#[test]
fn released_amounts_only_grow() {
    let mut c = setup(2_000);
    let a = full_vault(&mut c, ALICE, 1_000, NOW, NOW + 100, 0);
    let b = full_vault(&mut c, BOB, 1_000, NOW, NOW + 100, 0);
    let mut seen = (0, 0);
    let mut check = |c: &mut VestingContract| {
        let ra = c.get_vault(a).unwrap().released_amount;
        let rb = c.get_vault(b).unwrap().released_amount;
        assert!(ra >= seen.0 && rb >= seen.1);
        seen = (ra, rb);
    };
    c.claim_tokens(ALICE, a, 100, NOW + 20, 2_000).unwrap();
    check(&mut c);
    c.revoke_partial(ADMIN, b, 300).unwrap();
    check(&mut c);
    c.auto_claim(KEEPER, a, NOW + 40, 1_900).unwrap();
    check(&mut c);
    c.revoke_tokens(ADMIN, a).unwrap();
    check(&mut c);
    assert_eq!(seen, (1_000, 300));
}
