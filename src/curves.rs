//! A single-grant vault whose schedule follows a chosen curve.

use crate::error::VestingError;
use crate::math::{mul_add_div, quadratic_fraction};
use vstd::prelude::*;

verus! {

/// The shape of a single-grant schedule.
#[derive(Clone, Copy, Debug, PartialEq, Eq, Structural)]
pub enum VestingCurve {
    /// `total * elapsed / duration`.
    Linear,
    /// `total * elapsed² / duration²`: back-loaded.
    Exponential,
}

/// Amount vested at `now` by a grant of `total` starting at `start` and
/// lasting `duration`.
pub open spec fn curve_vested(total: int, start: int, duration: int, now: int, curve: VestingCurve) -> int {
    if now <= start {
        0
    } else if now - start >= duration {
        total
    } else {
        match curve {
            VestingCurve::Linear => total * (now - start) / duration,
            VestingCurve::Exponential => total * ((now - start) * (now - start)) / (duration * duration),
        }
    }
}

/// One grant: `total` tokens for `beneficiary`, vesting from `start` over
/// `duration` seconds along `curve`; `claimed` is what has been paid out.
#[derive(Clone, Copy, Debug)]
pub struct VestingVault {
    pub admin: u64,
    pub beneficiary: u64,
    pub token: u64,
    pub total: i128,
    pub claimed: i128,
    pub start: u64,
    pub duration: u64,
    pub curve: VestingCurve,
}

impl VestingVault {
    pub open spec fn wf(&self) -> bool {
        &&& self.total > 0
        &&& self.duration > 0
        &&& 0 <= self.claimed <= self.total
    }

    pub open spec fn spec_vested(&self, now: u64) -> int {
        curve_vested(self.total as int, self.start as int, self.duration as int, now as int, self.curve)
    }

    /// Sets up a grant with nothing claimed yet.
    pub fn initialize(
        admin: u64,
        beneficiary: u64,
        token: u64,
        total_amount: i128,
        start: u64,
        duration: u64,
        curve: VestingCurve,
    ) -> (r: Result<VestingVault, VestingError>)
        ensures
            total_amount <= 0 ==> r == Err::<VestingVault, VestingError>(VestingError::InvalidAmount),
            total_amount > 0 && duration == 0 ==> r == Err::<VestingVault, VestingError>(VestingError::InvalidDuration),
            total_amount > 0 && duration > 0 ==> r == Ok::<VestingVault, VestingError>(VestingVault {
                admin,
                beneficiary,
                token,
                total: total_amount,
                claimed: 0,
                start,
                duration,
                curve,
            }),
    {
        if total_amount <= 0 {
            return Err(VestingError::InvalidAmount);
        }
        if duration == 0 {
            return Err(VestingError::InvalidDuration);
        }
        Ok(VestingVault { admin, beneficiary, token, total: total_amount, claimed: 0, start, duration, curve })
    }

    /// The vested amount of a grant, by the rules of [`curve_vested`].
    pub fn compute_vested(total: i128, start: u64, duration: u64, now: u64, curve: &VestingCurve) -> (r: i128)
        requires
            total >= 0,
        ensures
            r == curve_vested(total as int, start as int, duration as int, now as int, *curve),
            0 <= r <= total,
    {
        if now <= start {
            return 0;
        }
        let elapsed = now - start;
        if elapsed >= duration {
            return total;
        }
        match curve {
            VestingCurve::Linear => mul_add_div(total as u128, elapsed as u128, 0, duration as u128) as i128,
            VestingCurve::Exponential => {
                let r = quadratic_fraction(total as u128, elapsed, duration);
                proof {
                    let (t, e, d) = (total as int, elapsed as int, duration as int);
                    assert(t * (e * e) <= t * (d * d)) by (nonlinear_arith)
                        requires
                            0 <= e < d,
                            t >= 0,
                    ;
                    assert(d * d > 0) by (nonlinear_arith)
                        requires
                            d > 0,
                    ;
                    vstd::arithmetic::div_mod::lemma_div_is_ordered(t * (e * e), t * (d * d), d * d);
                    vstd::arithmetic::div_mod::lemma_div_multiples_vanish(t, d * d);
                    vstd::arithmetic::mul::lemma_mul_is_commutative(t, d * d);
                }
                r as i128
            },
        }
    }

    /// Amount vested at `now`.
    pub fn vested_amount(&self, now: u64) -> (r: i128)
        requires
            self.wf(),
        ensures
            r == self.spec_vested(now),
            0 <= r <= self.total,
    {
        Self::compute_vested(self.total, self.start, self.duration, now, &self.curve)
    }

    /// Pays the beneficiary what vested since the last claim. Returns the
    /// amount to transfer from the vault to the beneficiary.
    pub fn claim(&mut self, caller: u64, now: u64) -> (r: Result<i128, VestingError>)
        requires
            old(self).wf(),
        ensures
            final(self).wf(),
            caller != old(self).beneficiary ==> r == Err::<i128, VestingError>(VestingError::Unauthorized),
            caller == old(self).beneficiary && old(self).spec_vested(now) <= old(self).claimed
                ==> r == Err::<i128, VestingError>(VestingError::InsufficientBalance),
            r.is_err() ==> *final(self) == *old(self),
            caller == old(self).beneficiary && old(self).spec_vested(now) > old(self).claimed ==> {
                &&& r == Ok::<i128, VestingError>((old(self).spec_vested(now) - old(self).claimed) as i128)
                &&& *final(self) == VestingVault { claimed: old(self).spec_vested(now) as i128, ..*old(self) }
            },
    {
        if caller != self.beneficiary {
            return Err(VestingError::Unauthorized);
        }
        let vested = self.vested_amount(now);
        if vested <= self.claimed {
            return Err(VestingError::InsufficientBalance);
        }
        let claimable = vested - self.claimed;
        self.claimed = vested;
        Ok(claimable)
    }

    pub fn get_curve(&self) -> (r: VestingCurve)
        ensures
            r == self.curve,
    {
        self.curve
    }

    /// `(total, claimed, vested, vested - claimed)` at `now`.
    pub fn status(&self, now: u64) -> (r: (i128, i128, i128, i128))
        requires
            self.wf(),
        ensures
            r == (self.total, self.claimed, self.spec_vested(now) as i128, (self.spec_vested(now) - self.claimed) as i128),
    {
        let vested = self.vested_amount(now);
        (self.total, self.claimed, vested, vested - self.claimed)
    }
}

/// A curve never vests less at a later time.
pub proof fn lemma_curve_vested_monotonic(total: int, start: int, duration: int, curve: VestingCurve, t1: int, t2: int)
    requires
        total >= 0,
        duration > 0,
        t1 <= t2,
    ensures
        curve_vested(total, start, duration, t1, curve) <= curve_vested(total, start, duration, t2, curve),
{
    let d = duration;
    let (e1, e2) = (t1 - start, t2 - start);
    // within the window, the vested amount is a fraction of the total
    assert forall|e: int| 0 < e < d implies {
        &&& 0 <= #[trigger] (total * e) / d <= total
        &&& 0 <= (total * (e * e)) / (d * d) <= total
    } by {
        assert(0 <= total * e <= total * d) by (nonlinear_arith)
            requires
                0 < e < d,
                total >= 0,
        ;
        assert(0 <= total * (e * e) <= total * (d * d) && d * d > 0) by (nonlinear_arith)
            requires
                0 < e < d,
                total >= 0,
        ;
        vstd::arithmetic::div_mod::lemma_div_is_ordered(0, total * e, d);
        vstd::arithmetic::div_mod::lemma_div_is_ordered(total * e, total * d, d);
        vstd::arithmetic::div_mod::lemma_div_multiples_vanish(total, d);
        vstd::arithmetic::mul::lemma_mul_is_commutative(total, d);
        vstd::arithmetic::div_mod::lemma_div_is_ordered(0, total * (e * e), d * d);
        vstd::arithmetic::div_mod::lemma_div_is_ordered(total * (e * e), total * (d * d), d * d);
        vstd::arithmetic::div_mod::lemma_div_multiples_vanish(total, d * d);
        vstd::arithmetic::mul::lemma_mul_is_commutative(total, d * d);
    }
    if t1 > start && e2 < d {
        assert(total * e1 <= total * e2 && total * (e1 * e1) <= total * (e2 * e2)) by (nonlinear_arith)
            requires
                0 < e1 <= e2,
                total >= 0,
        ;
        assert(d * d > 0) by (nonlinear_arith)
            requires
                d > 0,
        ;
        vstd::arithmetic::div_mod::lemma_div_is_ordered(total * e1, total * e2, d);
        vstd::arithmetic::div_mod::lemma_div_is_ordered(total * (e1 * e1), total * (e2 * e2), d * d);
    }
}

} // verus!
