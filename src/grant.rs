//! A single linear grant to one recipient, starting when it is set up.

use crate::error::VestingError;
use crate::math::mul_add_div;
use crate::vault::{AccountId, MAX_DURATION};
use vstd::prelude::*;

verus! {

/// Amount of a grant of `total` over `[start, end]` vested at `now`.
pub open spec fn grant_vested(total: int, start: int, end: int, now: int) -> int {
    if now <= start || end <= start {
        0
    } else {
        let elapsed = if now >= end {
            end - start
        } else {
            now - start
        };
        total * elapsed / (end - start)
    }
}

/// `total_amount` tokens for `recipient`, vesting linearly over
/// `[start_time, end_time]`; `claimed` is what has been paid out.
#[derive(Clone, Copy, Debug)]
pub struct GrantContract {
    pub recipient: AccountId,
    pub total_amount: u128,
    pub start_time: u64,
    pub end_time: u64,
    pub claimed: u128,
}

impl GrantContract {
    pub open spec fn wf(&self) -> bool {
        &&& self.start_time <= self.end_time
        &&& self.claimed <= self.total_amount
    }

    pub open spec fn spec_claimable(&self, now: u64) -> int {
        let vested = grant_vested(self.total_amount as int, self.start_time as int, self.end_time as int, now as int);
        if vested > self.claimed {
            vested - self.claimed
        } else {
            0
        }
    }

    /// Sets up a grant starting at `now` and lasting `duration_seconds`, at
    /// most [`MAX_DURATION`]. Returns the grant, whose end time is
    /// `now + duration_seconds`.
    pub fn initialize_grant(
        recipient: AccountId,
        total_amount: u128,
        duration_seconds: u64,
        now: u64,
    ) -> (r: Result<GrantContract, VestingError>)
        ensures
            duration_seconds > MAX_DURATION ==> r == Err::<GrantContract, VestingError>(VestingError::InvalidDuration),
            duration_seconds <= MAX_DURATION && now + duration_seconds > u64::MAX ==> r == Err::<GrantContract, VestingError>(
                VestingError::Overflow,
            ),
            duration_seconds <= MAX_DURATION && now + duration_seconds <= u64::MAX ==> r == Ok::<GrantContract, VestingError>(
                GrantContract {
                    recipient,
                    total_amount,
                    start_time: now,
                    end_time: (now + duration_seconds) as u64,
                    claimed: 0,
                },
            ),
    {
        if duration_seconds > MAX_DURATION {
            return Err(VestingError::InvalidDuration);
        }
        if now > u64::MAX - duration_seconds {
            return Err(VestingError::Overflow);
        }
        Ok(GrantContract { recipient, total_amount, start_time: now, end_time: now + duration_seconds, claimed: 0 })
    }

    /// What vested by `now` and has not been claimed.
    pub fn claimable_balance(&self, now: u64) -> (r: u128)
        requires
            self.wf(),
        ensures
            r == self.spec_claimable(now),
            self.claimed + r <= self.total_amount,
    {
        if now <= self.start_time || self.end_time <= self.start_time {
            return 0;
        }
        let elapsed = if now >= self.end_time {
            self.end_time - self.start_time
        } else {
            now - self.start_time
        };
        let duration = self.end_time - self.start_time;
        let vested = mul_add_div(self.total_amount, elapsed as u128, 0, duration as u128);
        if vested > self.claimed {
            vested - self.claimed
        } else {
            0
        }
    }

    /// The recipient collects what is claimable. Returns the amount.
    pub fn claim(&mut self, caller: AccountId, now: u64) -> (r: Result<u128, VestingError>)
        requires
            old(self).wf(),
        ensures
            final(self).wf(),
            caller != old(self).recipient ==> r == Err::<u128, VestingError>(VestingError::Unauthorized)
                && *final(self) == *old(self),
            caller == old(self).recipient && old(self).spec_claimable(now) == 0 ==> r == Err::<u128, VestingError>(
                VestingError::InsufficientBalance,
            ) && *final(self) == *old(self),
            caller == old(self).recipient && old(self).spec_claimable(now) > 0 ==> r == Ok::<u128, VestingError>(
                old(self).spec_claimable(now) as u128,
            ) && *final(self) == (GrantContract {
                claimed: (old(self).claimed + old(self).spec_claimable(now)) as u128,
                ..*old(self)
            }),
    {
        if caller != self.recipient {
            return Err(VestingError::Unauthorized);
        }
        let claimable = self.claimable_balance(now);
        if claimable == 0 {
            return Err(VestingError::InsufficientBalance);
        }
        self.claimed = self.claimed + claimable;
        Ok(claimable)
    }

    /// `(total, start, end, claimed)`.
    pub fn get_grant_info(&self) -> (r: (u128, u64, u64, u128))
        ensures
            r == (self.total_amount, self.start_time, self.end_time, self.claimed),
    {
        (self.total_amount, self.start_time, self.end_time, self.claimed)
    }
}

} // verus!
