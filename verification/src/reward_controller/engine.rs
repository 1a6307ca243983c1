//! The arithmetic of the reward controller on single records: lock bonus,
//! rate adjustment, accumulator advance, settlement and commission.

use vstd::prelude::*;
use crate::math::{
    checked_mul_floor, checked_multiply_ratio, scaled, Decimal, RatioError, DECIMAL_FRACTIONAL,
};
use crate::reward_controller::error::ContractError;
use crate::reward_controller::state::{DynamicAPRConfig, RewardPool, UserReward, UserStake};

verus! {

/// Seconds in the year of 365 days by which yearly rates are spread.
pub const YEAR_SECONDS: u128 = 31_536_000;

/// Seconds in a day.
pub const DAY_SECONDS: u64 = 86_400;

/// The multiplier that a lock of `duration` seconds earns: 2.5 from 365
/// days, 2.0 from 181, 1.5 from 91, 1.2 from 31, else 1.
pub open spec fn bonus_multiplier(duration: u64) -> Decimal {
    if duration >= 365 * DAY_SECONDS {
        Decimal { atomics: 2_500_000_000_000_000_000 }
    } else if duration >= 181 * DAY_SECONDS {
        Decimal { atomics: 2_000_000_000_000_000_000 }
    } else if duration >= 91 * DAY_SECONDS {
        Decimal { atomics: 1_500_000_000_000_000_000 }
    } else if duration >= 31 * DAY_SECONDS {
        Decimal { atomics: 1_200_000_000_000_000_000 }
    } else {
        Decimal { atomics: 1_000_000_000_000_000_000 }
    }
}

/// The whole duration of a lock, from its start to its end.
pub open spec fn lock_duration(locked_at: u64, unlock_time: u64) -> u64 {
    if unlock_time >= locked_at {
        (unlock_time - locked_at) as u64
    } else {
        0
    }
}

/// Computes the multiplier that a lock of `duration` seconds earns.
pub fn calculate_bonus_multiplier(duration: u64) -> (m: Decimal)
    ensures
        m == bonus_multiplier(duration),
{
    if duration >= 365 * DAY_SECONDS {
        Decimal::percent(250)
    } else if duration >= 181 * DAY_SECONDS {
        Decimal::percent(200)
    } else if duration >= 91 * DAY_SECONDS {
        Decimal::percent(150)
    } else if duration >= 31 * DAY_SECONDS {
        Decimal::percent(120)
    } else {
        Decimal::one()
    }
}

/// The rate in effect under a dynamic configuration at the total weight
/// `total_weight` of the positions in the pool's collateral: raised by the
/// adjustment below the low threshold, lowered by it, but not below zero,
/// above the high one, the base rate between them. No rate where the raised
/// one leaves the range.
pub open spec fn adjusted_apr(config: DynamicAPRConfig, total_weight: u128) -> Option<Decimal> {
    if total_weight < config.tvl_threshold_low {
        if config.base_apr.atomics + config.adjustment_factor.atomics <= u128::MAX {
            Some(
                Decimal {
                    atomics: (config.base_apr.atomics + config.adjustment_factor.atomics) as u128,
                },
            )
        } else {
            None
        }
    } else if total_weight > config.tvl_threshold_high {
        if config.adjustment_factor.atomics <= config.base_apr.atomics {
            Some(
                Decimal {
                    atomics: (config.base_apr.atomics - config.adjustment_factor.atomics) as u128,
                },
            )
        } else {
            Some(Decimal { atomics: 0 })
        }
    } else {
        Some(config.base_apr)
    }
}

/// The rate with which a pool accrues at the total weight `total_weight` of
/// the positions in its collateral: the adjusted one where the pool has a
/// dynamic configuration, else the stored one.
pub open spec fn active_apr(pool: RewardPool, total_weight: u128) -> Option<Decimal> {
    match pool.dynamic_config {
        Some(config) => adjusted_apr(config, total_weight),
        None => Some(pool.apr),
    }
}

/// Computes the rate in effect under `config` at the total weight
/// `total_weight`.
pub fn adjust_apr(config: &DynamicAPRConfig, total_weight: u128) -> (r: Result<Decimal, ContractError>)
    ensures
        match r {
            Ok(apr) => adjusted_apr(*config, total_weight) == Some(apr),
            Err(e) => e == ContractError::Overflow && adjusted_apr(*config, total_weight) is None,
        },
{
    if total_weight < config.tvl_threshold_low {
        match config.base_apr.checked_add(config.adjustment_factor) {
            Some(apr) => Ok(apr),
            None => Err(ContractError::Overflow),
        }
    } else if total_weight > config.tvl_threshold_high {
        Ok(config.base_apr.saturating_sub(config.adjustment_factor))
    } else {
        Ok(config.base_apr)
    }
}

/// The part of a year that `elapsed` seconds are, in atomic units of a
/// decimal, rounded down.
pub open spec fn year_fraction(elapsed: u64) -> int {
    elapsed * (DECIMAL_FRACTIONAL as int) / (YEAR_SECONDS as int)
}

/// What one unit of weight earns in `elapsed` seconds at the yearly rate
/// `apr`, in atomic units: the rate times the part of the year, rounded down.
pub open spec fn accrual(apr: Decimal, elapsed: u64) -> int {
    scaled(apr.atomics as int, year_fraction(elapsed))
}

/// A pool brought up to the time `now` while the positions in its
/// collateral weigh `total_weight` together. The rate is recomputed first.
/// Time that has not advanced changes nothing else. Otherwise the update time
/// moves to `now`, and the accumulator grows by the accrual of the elapsed
/// time unless the pool is disabled or the total weight is zero.
pub open spec fn updated_pool(pool: RewardPool, total_weight: u128, now: u64) -> Result<
    RewardPool,
    ContractError,
> {
    match active_apr(pool, total_weight) {
        None => Err(ContractError::Overflow),
        Some(apr) => {
            if pool.last_update >= now {
                Ok(RewardPool { apr, ..pool })
            } else if !pool.enabled || total_weight == 0 {
                Ok(RewardPool { apr, last_update: now, ..pool })
            } else {
                let grown = pool.reward_per_token_stored.atomics + accrual(
                    apr,
                    (now - pool.last_update) as u64,
                );
                if grown > u128::MAX {
                    Err(ContractError::Overflow)
                } else {
                    Ok(
                        RewardPool {
                            apr,
                            last_update: now,
                            reward_per_token_stored: Decimal { atomics: grown as u128 },
                            ..pool
                        },
                    )
                }
            }
        },
    }
}

proof fn lemma_year_fraction_fits(elapsed: u64)
    ensures
        0 <= year_fraction(elapsed) <= u128::MAX,
        crate::math::ratio(elapsed as int, DECIMAL_FRACTIONAL as int, YEAR_SECONDS as int) == Ok::<
            u128,
            RatioError,
        >(year_fraction(elapsed) as u128),
{
    assert(0 <= elapsed * 1_000_000_000_000_000_000 <= 0xffff_ffff_ffff_ffff
        * 1_000_000_000_000_000_000);
    assert(0 <= (elapsed * 1_000_000_000_000_000_000) / 31_536_000 <= elapsed
        * 1_000_000_000_000_000_000);
}

impl RewardPool {
    /// What the pool can still pay: funded less claimed.
    pub open spec fn available(self) -> int {
        if self.total_claimed <= self.total_deposited {
            self.total_deposited - self.total_claimed
        } else {
            0
        }
    }

    /// The pool was never asked to pay more than it was funded with.
    pub open spec fn solvent(self) -> bool {
        self.total_claimed <= self.total_deposited
    }

    /// Brings the pool up to `now` while the positions in its collateral
    /// weigh `total_weight` together.
    pub fn advance(&mut self, total_weight: u128, now: u64) -> (r: Result<(), ContractError>)
        ensures
            match r {
                Ok(()) => updated_pool(*old(self), total_weight, now) == Ok::<RewardPool, ContractError>(
                    *final(self),
                ),
                Err(e) => updated_pool(*old(self), total_weight, now) == Err::<RewardPool, ContractError>(e)
                    && *final(self) == *old(self),
            },
    {
        let apr = match &self.dynamic_config {
            Some(config) => match adjust_apr(config, total_weight) {
                Ok(apr) => apr,
                Err(e) => {
                    return Err(e);
                },
            },
            None => self.apr,
        };
        if self.last_update >= now {
            self.apr = apr;
            return Ok(());
        }
        let elapsed: u64 = now - self.last_update;
        if self.enabled && total_weight != 0 {
            proof {
                lemma_year_fraction_fits(elapsed);
            }
            let part = match Decimal::checked_from_ratio(elapsed as u128, YEAR_SECONDS) {
                Ok(part) => part,
                Err(_) => {
                    return Err(ContractError::Overflow);
                },
            };
            let increase = match apr.checked_mul(part) {
                Some(increase) => increase,
                None => {
                    return Err(ContractError::Overflow);
                },
            };
            let grown = match self.reward_per_token_stored.checked_add(increase) {
                Some(grown) => grown,
                None => {
                    return Err(ContractError::Overflow);
                },
            };
            self.reward_per_token_stored = grown;
        }
        self.apr = apr;
        self.last_update = now;
        Ok(())
    }
}

/// The weight of a position: its amount times its multiplier, rounded down.
pub open spec fn effective_amount(stake: UserStake) -> int {
    scaled(stake.lp_amount as int, stake.bonus_multiplier.atomics as int)
}

/// The weight of a position as a number of 128 bits; an overflow where it
/// does not fit.
pub open spec fn weighed(stake: UserStake) -> Result<u128, ContractError> {
    if effective_amount(stake) > u128::MAX {
        Err(ContractError::Overflow)
    } else {
        Ok(effective_amount(stake) as u128)
    }
}

/// Computes the weight of a position.
pub fn weigh(stake: &UserStake) -> (r: Result<u128, ContractError>)
    ensures
        r == weighed(*stake),
        0 <= effective_amount(*stake),
{
    assert(0 <= effective_amount(*stake)) by (nonlinear_arith)
        requires
            effective_amount(*stake) == (stake.lp_amount as int) * (
            stake.bonus_multiplier.atomics as int) / 1_000_000_000_000_000_000,
    ;
    match checked_mul_floor(stake.lp_amount, stake.bonus_multiplier) {
        Some(weight) => Ok(weight),
        None => Err(ContractError::Overflow),
    }
}

/// What a position has earned in a pool since its checkpoint: its weight
/// times the growth of the accumulator, rounded down. An accumulator behind
/// the checkpoint, and a weight or a product beyond 128 bits, are overflows.
pub open spec fn pending_for(stake: UserStake, pool: RewardPool, reward: UserReward) -> Result<
    u128,
    ContractError,
> {
    let growth = pool.reward_per_token_stored.atomics - reward.reward_per_token_paid.atomics;
    if growth < 0 {
        Err(ContractError::Overflow)
    } else if growth == 0 {
        Ok(0)
    } else if effective_amount(stake) > u128::MAX {
        Err(ContractError::Overflow)
    } else if scaled(effective_amount(stake), growth) > u128::MAX {
        Err(ContractError::Overflow)
    } else {
        Ok(scaled(effective_amount(stake), growth) as u128)
    }
}

/// Computes what a position has earned in a pool since its checkpoint.
pub fn calculate_pending_for_user(stake: &UserStake, pool: &RewardPool, user_reward: &UserReward) -> (r:
    Result<u128, ContractError>)
    ensures
        r == pending_for(*stake, *pool, *user_reward),
{
    let growth = match pool.reward_per_token_stored.checked_sub(user_reward.reward_per_token_paid) {
        Some(growth) => growth,
        None => {
            return Err(ContractError::Overflow);
        },
    };
    if growth.is_zero() {
        return Ok(0);
    }
    let effective = match checked_mul_floor(stake.lp_amount, stake.bonus_multiplier) {
        Some(effective) => effective,
        None => {
            return Err(ContractError::Overflow);
        },
    };
    match checked_mul_floor(effective, growth) {
        Some(pending) => Ok(pending),
        None => Err(ContractError::Overflow),
    }
}

/// A checkpoint settled against a pool: what the position earned since the
/// checkpoint is added to its accrued balance, and the checkpoint moves to the
/// pool's accumulator.
pub open spec fn settled(stake: UserStake, pool: RewardPool, reward: UserReward) -> Result<
    UserReward,
    ContractError,
> {
    match pending_for(stake, pool, reward) {
        Err(e) => Err(e),
        Ok(pending) => if reward.rewards_accrued + pending > u128::MAX {
            Err(ContractError::Overflow)
        } else {
            Ok(
                UserReward {
                    rewards_accrued: (reward.rewards_accrued + pending) as u128,
                    reward_per_token_paid: pool.reward_per_token_stored,
                    ..reward
                },
            )
        },
    }
}

/// Settles a checkpoint against a pool that is up to date.
pub fn settle(stake: &UserStake, pool: &RewardPool, user_reward: &UserReward) -> (r: Result<
    UserReward,
    ContractError,
>)
    ensures
        r == settled(*stake, *pool, *user_reward),
{
    let pending = match calculate_pending_for_user(stake, pool, user_reward) {
        Ok(pending) => pending,
        Err(e) => {
            return Err(e);
        },
    };
    match user_reward.rewards_accrued.checked_add(pending) {
        Some(accrued) => Ok(
            UserReward {
                locker_id: user_reward.locker_id,
                pool_id: user_reward.pool_id,
                reward_per_token_paid: pool.reward_per_token_stored,
                rewards_accrued: accrued,
                last_claim_time: user_reward.last_claim_time,
            },
        ),
        None => Err(ContractError::Overflow),
    }
}

/// The referrer's share of a payout of `amount` at `bps` hundredths of a
/// percent, rounded down.
pub open spec fn commission_of(amount: u128, bps: u16) -> int {
    amount * bps / 10000
}

/// A payout of `amount` split between a referrer, where there is one, and
/// the owner: the commission and what is left of the amount. A commission of
/// zero leaves the whole amount to the owner. A commission beyond the amount
/// or beyond 128 bits is an overflow.
pub open spec fn split_payout(amount: u128, bps: u16, referred: bool) -> Result<
    (u128, u128),
    ContractError,
> {
    if !referred || commission_of(amount, bps) == 0 {
        Ok((0u128, amount))
    } else if commission_of(amount, bps) > amount {
        Err(ContractError::Overflow)
    } else {
        Ok((commission_of(amount, bps) as u128, (amount - commission_of(amount, bps)) as u128))
    }
}

/// Splits a payout into the referrer's commission and the owner's net amount.
pub fn split_commission(amount: u128, bps: u16, referred: bool) -> (r: Result<
    (u128, u128),
    ContractError,
>)
    ensures
        r == split_payout(amount, bps, referred),
{
    if !referred {
        return Ok((0, amount));
    }
    let commission = match checked_multiply_ratio(amount, bps as u128, 10000) {
        Ok(commission) => commission,
        Err(_) => {
            return Err(ContractError::Overflow);
        },
    };
    if commission == 0 {
        return Ok((0, amount));
    }
    match amount.checked_sub(commission) {
        Some(net) => Ok((commission, net)),
        None => Err(ContractError::Overflow),
    }
}

} // verus!
