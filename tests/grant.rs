use vesting_vault::error::VestingError;
use vesting_vault::grant::GrantContract;
use vesting_vault::vault::MAX_DURATION;

const RECIPIENT: u64 = 7;
const START: u64 = 1_000;

#[test]
fn test_basic_grant_functionality() {
    let total_amount: u128 = 1000000;
    let duration = 86400;
    let grant = GrantContract::initialize_grant(RECIPIENT, total_amount, duration, START).unwrap();
    assert_eq!(grant.claimable_balance(START), 0);
    let claimable = grant.claimable_balance(START + 43200);
    assert!(claimable > 0);
    assert_eq!(claimable, 500000);
}

#[test]
fn test_long_duration_simulation_10_years() {
    let total_amount: u128 = 100000000;
    let duration_10_years = 315360000;
    let start_time = START;
    let grant = GrantContract::initialize_grant(RECIPIENT, total_amount, duration_10_years, start_time).unwrap();
    let end_time = grant.end_time;
    assert_eq!(end_time, start_time + duration_10_years);
    assert_eq!(grant.claimable_balance(start_time), 0);
    let five_years_seconds = 157680000;
    let claimable_year_5 = grant.claimable_balance(start_time + five_years_seconds);
    let expected_year_5 = total_amount * five_years_seconds as u128 / duration_10_years as u128;
    assert!(claimable_year_5.abs_diff(expected_year_5) <= 1, "Claimable at year 5: {}, Expected: {}", claimable_year_5, expected_year_5);
    assert!(claimable_year_5.abs_diff(total_amount / 2) <= 1, "Should be approximately 50% at year 5");
    let claimable_year_10 = grant.claimable_balance(end_time);
    assert!(claimable_year_10.abs_diff(total_amount) <= 1, "Claimable at year 10: {}, Expected: {}", claimable_year_10, total_amount);
    assert_eq!(grant.claimable_balance(end_time + 1000000), total_amount);
}

#[test]
fn test_claim_functionality_during_long_duration() {
    let total_amount: u128 = 1000000;
    let duration_10_years = 315360000;
    let start_time = START;
    let mut grant = GrantContract::initialize_grant(RECIPIENT, total_amount, duration_10_years, start_time).unwrap();
    let five_years_seconds = 157680000;
    let now = start_time + five_years_seconds;
    let claimable_before = grant.claimable_balance(now);
    let claimed_amount = grant.claim(RECIPIENT, now).unwrap();
    assert_eq!(claimed_amount, claimable_before);
    assert_eq!(grant.claimable_balance(now), 0);
    let end = start_time + duration_10_years;
    let claimable_end = grant.claimable_balance(end);
    let claimed_end = grant.claim(RECIPIENT, end).unwrap();
    assert_eq!(claimed_end, claimable_end);
    let total_claimed = claimed_amount + claimed_end;
    assert!(total_claimed.abs_diff(total_amount) <= 1, "Total claimed: {}, Expected: {}", total_claimed, total_amount);
}

#[test]
fn test_timestamp_math_no_overflow() {
    let total_amount: u128 = (u64::MAX / 2) as u128;
    let duration_10_years = 315360000;
    let high_timestamp = u64::MAX - duration_10_years - 1000000;
    let grant = GrantContract::initialize_grant(RECIPIENT, total_amount, duration_10_years, high_timestamp).unwrap();
    let end_time = grant.end_time;
    assert!(end_time > high_timestamp);
    assert!(end_time <= u64::MAX);
    assert!(grant.claimable_balance(high_timestamp + duration_10_years / 2) > 0);
    assert!(grant.claimable_balance(end_time) > 0);
}

#[test]
fn test_cliff_one_second_before() {
    let grant = GrantContract::initialize_grant(RECIPIENT, 1000, 100u64, START).unwrap();
    assert_eq!(grant.claimable_balance(START - 1), 0);
}

#[test]
fn test_cliff_exact_second() {
    let grant = GrantContract::initialize_grant(RECIPIENT, 1000, 100u64, START).unwrap();
    assert_eq!(grant.claimable_balance(START), 0);
}

#[test]
fn test_cliff_one_second_after() {
    let total_amount: u128 = 1000;
    let duration = 100u64;
    let grant = GrantContract::initialize_grant(RECIPIENT, total_amount, duration, START).unwrap();
    let claimable = grant.claimable_balance(START + 1);
    let expected = total_amount * 1 / duration as u128;
    assert_eq!(claimable, expected);
    assert!(claimable > 0);
}

#[test]
fn test_grant_info_function() {
    let total_amount: u128 = 5000000;
    let duration = 86400 * 365;
    let grant = GrantContract::initialize_grant(RECIPIENT, total_amount, duration, START).unwrap();
    let (stored_amount, stored_start, stored_end, claimed) = grant.get_grant_info();
    assert_eq!(stored_amount, total_amount);
    assert_eq!(stored_start, START);
    assert_eq!(stored_end, grant.end_time);
    assert_eq!(claimed, 0);
}

#[test]
fn grant_rejects_duration_over_max() {
    let r = GrantContract::initialize_grant(RECIPIENT, 1000, MAX_DURATION + 1, START);
    assert_eq!(r.unwrap_err(), VestingError::InvalidDuration);
    assert!(GrantContract::initialize_grant(RECIPIENT, 1000, MAX_DURATION, START).is_ok());
}

#[test]
fn grant_claim_by_stranger_or_with_nothing_vested_is_refused() {
    let mut grant = GrantContract::initialize_grant(RECIPIENT, 1000, 100, START).unwrap();
    assert_eq!(grant.claim(RECIPIENT + 1, START + 50), Err(VestingError::Unauthorized));
    assert_eq!(grant.claim(RECIPIENT, START), Err(VestingError::InsufficientBalance));
    assert_eq!(grant.claim(RECIPIENT, START + 50), Ok(500));
    assert_eq!(grant.claimed, 500);
}

#[test]
fn grant_end_time_overflow_is_refused() {
    let r = GrantContract::initialize_grant(RECIPIENT, 1000, 10, u64::MAX - 5);
    assert_eq!(r.unwrap_err(), VestingError::Overflow);
}
