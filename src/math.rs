//! Fixed-point vesting arithmetic.
//!
//! Every amount here is computed exactly: products that could exceed 128 bits
//! are split with a quotient/remainder decomposition instead of being formed.

use vstd::arithmetic::div_mod::*;
use vstd::arithmetic::mul::*;
use vstd::prelude::*;

verus! {

/// Elapsed time rounded down to a whole number of steps (`step == 0` means
/// continuous vesting).
pub open spec fn effective_elapsed(elapsed: int, step: int) -> int {
    if step > 0 {
        (elapsed / step) * step
    } else {
        elapsed
    }
}

/// Amount unlocked at `now` by a linear (optionally stepped) schedule over
/// `[start, end]`.
pub open spec fn time_vested(total: int, start: int, end: int, now: int, step: int) -> int {
    if now <= start {
        0
    } else if now >= end {
        total
    } else {
        total * effective_elapsed(now - start, step) / (end - start)
    }
}

proof fn lemma_mul_add_div(x: int, y: int, t: int, d: int)
    requires
        0 <= x,
        0 <= y,
        0 <= t,
        0 < d,
    ensures
        (x * y + t) / d == (x / d) * y + ((x % d) * y + t) / d,
{
    lemma_fundamental_div_mod(x, d);
    let q = x / d;
    let r = x % d;
    assert(x * y + t == (r * y + t) + (q * y) * d) by (nonlinear_arith)
        requires
            x == d * q + r,
    ;
    lemma_hoist_over_denominator(r * y + t, q * y, d as nat);
}

/// `(x * y + t) / d`, exact, for `y <= d` and `t < d`: no intermediate value
/// exceeds 128 bits although `x * y` may.
pub fn mul_add_div(x: u128, y: u128, t: u128, d: u128) -> (r: u128)
    requires
        0 < d <= u64::MAX,
        y <= d,
        t < d,
    ensures
        r == (x * y + t) / (d as int),
        r <= x,
{
    let q = x / d;
    let rem = x % d;
    proof {
        let (xi, yi, ti, di) = (x as int, y as int, t as int, d as int);
        lemma_mul_add_div(xi, yi, ti, di);
        lemma_fundamental_div_mod(xi, di);
        assert(rem * yi + ti < di * di) by (nonlinear_arith)
            requires
                rem < di,
                yi <= di,
                ti < di,
                rem >= 0,
        ;
        assert(di * di <= u64::MAX * u64::MAX) by (nonlinear_arith)
            requires
                0 < di <= u64::MAX,
        ;
        assert(xi * yi + ti < di * (xi + 1)) by (nonlinear_arith)
            requires
                yi <= di,
                ti < di,
                xi >= 0,
        ;
        lemma_multiply_divide_lt(xi * yi + ti, di, xi + 1);
        lemma_div_pos_is_pos(rem * yi + ti, di);
        lemma_mul_nonnegative(q as int, yi);
    }
    let lo = rem * y + t;
    q * y + lo / d
}

/// `total * elapsed² / duration²`, exact, for `elapsed < duration`.
pub fn quadratic_fraction(total: u128, elapsed: u64, duration: u64) -> (r: u128)
    requires
        elapsed < duration,
    ensures
        r == total * (elapsed * elapsed) / ((duration * duration) as int),
{
    let e = elapsed as u128;
    let d = duration as u128;
    let a = mul_add_div(total, e, 0, d);
    let rem = total % d;
    proof {
        assert(rem * e < d * d) by (nonlinear_arith)
            requires
                rem < d,
                e < d,
        ;
        assert(d * d <= u64::MAX * u64::MAX) by (nonlinear_arith)
            requires
                0 < d <= u64::MAX,
        ;
    }
    let s = (rem * e) % d;
    let t = mul_add_div(s, e, 0, d);
    proof {
        let (ti, ei, di) = (total as int, e as int, d as int);
        lemma_mul_add_div(ti, ei, 0, di);
        lemma_fundamental_div_mod(rem * ei, di);
        lemma_fundamental_div_mod(ti, di);
        // total * e == a * d + s
        assert(ti * ei == a * di + s) by (nonlinear_arith)
            requires
                ti == di * (ti / di) + rem,
                rem * ei == di * ((rem * ei) / di) + s,
                a == (ti / di) * ei + (rem * ei) / di,
        ;
        assert(t <= s) by {
            assert(s * ei + 0 < di * (s + 1)) by (nonlinear_arith)
                requires
                    0 <= ei < di,
                    s >= 0,
            ;
            lemma_multiply_divide_lt(s * ei, di, s + 1);
        }
        lemma_div_denominator(ti * (ei * ei), di, di);
        assert(ti * (ei * ei) == s * ei + (a * ei) * di) by (nonlinear_arith)
            requires
                ti * ei == a * di + s,
        ;
        lemma_hoist_over_denominator(s * ei, a * ei, di as nat);
        assert(ti * (ei * ei) / di == a * ei + t);
        lemma_mul_add_div(a as int, ei, t as int, di);
    }
    mul_add_div(a, e, t, d)
}

/// Linear (optionally stepped) vesting: see [`time_vested`].
pub fn linear_vested(total: i128, start: u64, end: u64, now: u64, step: u64) -> (r: i128)
    requires
        total >= 0,
    ensures
        r == time_vested(total as int, start as int, end as int, now as int, step as int),
{
    if now <= start {
        return 0;
    }
    if now >= end {
        return total;
    }
    let duration = end - start;
    let elapsed = now - start;
    proof {
        lemma_effective_elapsed_bounds(elapsed as int, step as int);
    }
    let effective = if step > 0 {
        (elapsed / step) * step
    } else {
        elapsed
    };
    mul_add_div(total as u128, effective as u128, 0, duration as u128) as i128
}

// ---------------------------------------------------------------------------
// Laws of the linear schedule
// ---------------------------------------------------------------------------

proof fn lemma_effective_elapsed_bounds(elapsed: int, step: int)
    requires
        elapsed >= 0,
        step >= 0,
    ensures
        0 <= effective_elapsed(elapsed, step) <= elapsed,
{
    if step > 0 {
        lemma_fundamental_div_mod(elapsed, step);
        lemma_div_pos_is_pos(elapsed, step);
        lemma_mul_nonnegative(elapsed / step, step);
        lemma_mod_bound(elapsed, step);
    }
}

proof fn lemma_mod_bound(x: int, d: int)
    requires
        x >= 0,
        d > 0,
    ensures
        0 <= x % d < d,
{
    lemma_mod_pos_bound(x, d);
}

/// Linear vesting never decreases as time advances.
pub proof fn lemma_time_vested_monotonic(total: int, start: int, end: int, step: int, t1: int, t2: int)
    requires
        total >= 0,
        start <= end,
        step >= 0,
        t1 <= t2,
    ensures
        time_vested(total, start, end, t1, step) <= time_vested(total, start, end, t2, step),
{
    if t1 <= start || t2 >= end {
        if t1 > start && t1 < end {
            // t2 >= end: a fraction of the total never exceeds the total
            lemma_effective_elapsed_bounds(t1 - start, step);
            let e = effective_elapsed(t1 - start, step);
            lemma_mul_inequality(e, end - start, total);
            lemma_div_is_ordered(total * e, total * (end - start), end - start);
            lemma_mul_is_commutative(total, end - start);
            lemma_div_by_multiple(total, end - start);
        } else if t1 <= start && t2 > start && t2 < end {
            lemma_effective_elapsed_bounds(t2 - start, step);
            lemma_mul_nonnegative(total, effective_elapsed(t2 - start, step));
            lemma_div_pos_is_pos(total * effective_elapsed(t2 - start, step), end - start);
        }
    } else {
        let (e1, e2) = (effective_elapsed(t1 - start, step), effective_elapsed(t2 - start, step));
        assert(e1 <= e2) by {
            if step > 0 {
                lemma_div_is_ordered(t1 - start, t2 - start, step);
                lemma_mul_inequality((t1 - start) / step, (t2 - start) / step, step);
            }
        }
        lemma_mul_inequality(e1, e2, total);
        lemma_mul_is_commutative(total, e1);
        lemma_mul_is_commutative(total, e2);
        lemma_div_is_ordered(total * e1, total * e2, end - start);
    }
}

/// A linear schedule never unlocks less than nothing nor more than the total.
pub proof fn lemma_time_vested_within_total(total: int, start: int, end: int, now: int, step: int)
    requires
        total >= 0,
        start <= end,
        step >= 0,
    ensures
        0 <= time_vested(total, start, end, now, step) <= total,
{
    if start < now < end {
        lemma_time_vested_monotonic(total, start, end, step, now, end);
        lemma_time_vested_monotonic(total, start, end, step, start, now);
    }
}

/// Nothing is vested at the start, everything from the end onwards.
pub proof fn lemma_time_vested_boundaries(total: int, start: int, end: int, step: int, later: int)
    requires
        start < end,
        later >= end,
    ensures
        time_vested(total, start, end, start, step) == 0,
        time_vested(total, start, end, end, step) == total,
        time_vested(total, start, end, later, step) == total,
{
}

/// With a step, the vested amount only changes when a further whole step has
/// elapsed since the start.
pub proof fn lemma_time_vested_stepwise(total: int, start: int, end: int, step: int, t1: int, t2: int)
    requires
        step > 0,
        start < t1 <= t2 < end,
        (t1 - start) / step == (t2 - start) / step,
    ensures
        time_vested(total, start, end, t1, step) == time_vested(total, start, end, t2, step),
{
}

} // verus!
