use vesting_vault::math::{linear_vested, mul_add_div, quadratic_fraction};
use vesting_vault::vault::{percentage_of, unlocked_percentage, Milestone};

#[test]
fn linear_boundaries() {
    assert_eq!(linear_vested(1_000, 100, 200, 100, 0), 0);
    assert_eq!(linear_vested(1_000, 100, 200, 50, 0), 0);
    assert_eq!(linear_vested(1_000, 100, 200, 200, 0), 1_000);
    assert_eq!(linear_vested(1_000, 100, 200, u64::MAX, 0), 1_000);
    assert_eq!(linear_vested(1_000, 100, 200, 101, 0), 10);
}

#[test]
fn stepped_schedule_changes_only_at_step_multiples() {
    let v = |now: u64| linear_vested(1_000, 100, 200, now, 25);
    assert_eq!(v(124), 0);
    assert_eq!(v(125), 250);
    assert_eq!(v(149), 250);
    assert_eq!(v(150), 500);
    assert_eq!(v(199), 750);
    assert_eq!(v(200), 1_000);
}

#[test]
fn linear_vesting_never_decreases() {
    let mut last = 0;
    for now in 0..400u64 {
        let v = linear_vested(1_009, 100, 201, now, 17);
        assert!(v >= last);
        last = v;
    }
    assert_eq!(last, 1_009);
}

#[test]
fn wide_products_are_exact() {
    assert_eq!(mul_add_div(u128::MAX, 3, 1, 4), u128::MAX / 4 * 3 + (u128::MAX % 4 * 3 + 1) / 4);
    assert_eq!(mul_add_div(10, 7, 3, 9), 8);
    assert_eq!(quadratic_fraction(1_000_000_000, 250, 1_000), 62_500_000);
    assert_eq!(quadratic_fraction(u128::MAX, 1, 2), u128::MAX / 4);
}

#[test]
fn milestone_percentages_saturate_at_100() {
    let m = |id: u64, percentage: u32, is_unlocked: bool| Milestone { id, percentage, is_unlocked };
    assert_eq!(unlocked_percentage(&vec![]), 0);
    assert_eq!(unlocked_percentage(&vec![m(1, 30, true), m(2, 50, false), m(3, 20, true)]), 50);
    assert_eq!(unlocked_percentage(&vec![m(1, u32::MAX, true), m(2, 5, true)]), 100);
    assert_eq!(percentage_of(1_000, 50), 500);
    assert_eq!(percentage_of(1_009, 33), 332);
}
