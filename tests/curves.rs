use vesting_vault::curves::{VestingCurve, VestingVault};
use vesting_vault::error::VestingError;

const TOTAL: i128 = 1_000_000_000_i128;
const START: u64 = 1_000_000_u64;
const DURATION: u64 = 1_000_u64;

const ADMIN: u64 = 1;
const BENEFICIARY: u64 = 2;
const TOKEN: u64 = 3;

fn create_setup(curve: VestingCurve) -> VestingVault {
    VestingVault::initialize(ADMIN, BENEFICIARY, TOKEN, TOTAL, START, DURATION, curve).unwrap()
}

fn vested_at(vault: &VestingVault, ts: u64) -> i128 {
    vault.vested_amount(ts)
}

#[test]
fn l1_linear_at_start_is_zero() {
    let s = create_setup(VestingCurve::Linear);
    assert_eq!(vested_at(&s, START), 0);
}

#[test]
fn l2_linear_at_half_is_fifty_percent() {
    let s = create_setup(VestingCurve::Linear);
    let expected = TOTAL / 2;
    let actual = vested_at(&s, START + DURATION / 2);
    assert_eq!(actual, expected, "linear 50% failed: got {actual}");
}

#[test]
fn l3_linear_at_end_is_full() {
    let s = create_setup(VestingCurve::Linear);
    assert_eq!(vested_at(&s, START + DURATION), TOTAL);
}

#[test]
fn l4_linear_after_end_capped_at_full() {
    let s = create_setup(VestingCurve::Linear);
    assert_eq!(vested_at(&s, START + DURATION + 9999), TOTAL);
}

#[test]
fn e1_expo_at_start_is_zero() {
    let s = create_setup(VestingCurve::Exponential);
    assert_eq!(vested_at(&s, START), 0);
}

#[test]
fn e2_expo_at_quarter_is_6_25_percent() {
    let s = create_setup(VestingCurve::Exponential);
    let elapsed = DURATION / 4;
    let expected = TOTAL * (elapsed as i128 * elapsed as i128) / (DURATION as i128 * DURATION as i128);
    let actual = vested_at(&s, START + elapsed);
    assert_eq!(actual, expected, "expo 25% elapsed failed: got {actual}");
}

#[test]
fn e3_expo_at_half_is_twenty_five_percent() {
    let s = create_setup(VestingCurve::Exponential);
    let expected = TOTAL / 4;
    let actual = vested_at(&s, START + DURATION / 2);
    assert_eq!(actual, expected, "expo 50% elapsed failed: got {actual}");
}

#[test]
fn e4_expo_at_three_quarters_is_56_25_percent() {
    let s = create_setup(VestingCurve::Exponential);
    let elapsed = (DURATION * 3) / 4;
    let expected = TOTAL * (elapsed as i128 * elapsed as i128) / (DURATION as i128 * DURATION as i128);
    let actual = vested_at(&s, START + elapsed);
    assert_eq!(actual, expected, "expo 75% elapsed failed: got {actual}");
}

#[test]
fn e5_expo_at_end_is_full() {
    let s = create_setup(VestingCurve::Exponential);
    assert_eq!(vested_at(&s, START + DURATION), TOTAL);
}

#[test]
fn e6_expo_after_end_capped_at_full() {
    let s = create_setup(VestingCurve::Exponential);
    assert_eq!(vested_at(&s, START + DURATION + 5000), TOTAL);
}

#[test]
fn c1_at_midpoint_exponential_less_than_linear() {
    let sl = create_setup(VestingCurve::Linear);
    let se = create_setup(VestingCurve::Exponential);
    let mid = START + DURATION / 2;
    let linear_mid = vested_at(&sl, mid);
    let expo_mid = vested_at(&se, mid);
    assert!(expo_mid < linear_mid, "Expected expo ({expo_mid}) < linear ({linear_mid}) at midpoint");
}

#[test]
fn i1_linear_claim_at_halfway() {
    let mut s = create_setup(VestingCurve::Linear);
    let claimed = s.claim(BENEFICIARY, START + DURATION / 2).unwrap();
    assert_eq!(claimed, TOTAL / 2, "linear claim at 50%: got {claimed}");
    assert_eq!(s.claimed, TOTAL / 2);
}

#[test]
fn i2_exponential_claim_at_three_quarters() {
    let mut s = create_setup(VestingCurve::Exponential);
    let elapsed = (DURATION * 3) / 4;
    let expected = TOTAL * (elapsed as i128 * elapsed as i128) / (DURATION as i128 * DURATION as i128);
    let claimed = s.claim(BENEFICIARY, START + elapsed).unwrap();
    assert_eq!(claimed, expected, "expo claim at 75%: got {claimed}");
    assert_eq!(s.claimed, expected);
}

#[test]
fn i3_get_curve_returns_correct_variant() {
    let sl = create_setup(VestingCurve::Linear);
    let se = create_setup(VestingCurve::Exponential);
    assert_eq!(sl.get_curve(), VestingCurve::Linear);
    assert_eq!(se.get_curve(), VestingCurve::Exponential);
}

#[test]
fn claim_before_any_vesting_is_refused() {
    let mut s = create_setup(VestingCurve::Linear);
    assert_eq!(s.claim(BENEFICIARY, START), Err(VestingError::InsufficientBalance));
}

#[test]
fn i5_status_helper_is_consistent() {
    let mut s = create_setup(VestingCurve::Linear);
    let now = START + DURATION / 4;
    let (total, claimed, vested, claimable) = s.status(now);
    assert_eq!(total, TOTAL);
    assert_eq!(claimed, 0);
    assert_eq!(vested, TOTAL / 4);
    assert_eq!(claimable, TOTAL / 4);
    s.claim(BENEFICIARY, now).unwrap();
    let (_, claimed2, vested2, claimable2) = s.status(now);
    assert_eq!(claimed2, TOTAL / 4);
    assert_eq!(vested2, TOTAL / 4);
    assert_eq!(claimable2, 0);
}

#[test]
fn i6_double_claim_only_yields_incremental_amount() {
    let mut s = create_setup(VestingCurve::Exponential);
    let first_claim = s.claim(BENEFICIARY, START + DURATION / 2).unwrap();
    assert_eq!(first_claim, TOTAL / 4);
    let second_claim = s.claim(BENEFICIARY, START + DURATION).unwrap();
    assert_eq!(second_claim, TOTAL - TOTAL / 4);
    assert_eq!(first_claim + second_claim, TOTAL);
}

#[test]
fn zero_duration_is_refused() {
    let r = VestingVault::initialize(ADMIN, BENEFICIARY, TOKEN, TOTAL, START, 0, VestingCurve::Linear);
    assert_eq!(r.unwrap_err(), VestingError::InvalidDuration);
    let r = VestingVault::initialize(ADMIN, BENEFICIARY, TOKEN, TOTAL, START, 0, VestingCurve::Exponential);
    assert_eq!(r.unwrap_err(), VestingError::InvalidDuration);
}

#[test]
fn zero_amount_is_refused() {
    let r = VestingVault::initialize(ADMIN, BENEFICIARY, TOKEN, 0, START, DURATION, VestingCurve::Linear);
    assert_eq!(r.unwrap_err(), VestingError::InvalidAmount);
}

#[test]
fn claim_by_stranger_is_refused() {
    let mut s = create_setup(VestingCurve::Linear);
    assert_eq!(s.claim(ADMIN, START + DURATION), Err(VestingError::Unauthorized));
    assert_eq!(s.claimed, 0);
}

#[test]
fn exponential_exact_for_huge_totals() {
    // total * elapsed^2 exceeds 128 bits here; the result is still exact.
    let total: i128 = i128::MAX;
    let duration: u64 = u64::MAX - 1;
    let elapsed: u64 = duration / 2;
    let r = VestingVault::compute_vested(total, 0, duration, elapsed, &VestingCurve::Exponential);
    // elapsed is exactly half the duration, so a quarter has vested
    assert_eq!(r, total / 4);
    let lin = VestingVault::compute_vested(total, 0, duration, elapsed, &VestingCurve::Linear);
    assert_eq!(lin, total / 2);
}
