//! Bringing a pool up to date and settling a position against it, on the
//! controller's state.

use vstd::prelude::*;
use crate::host::Env;
use crate::reward_controller::engine::{settle, settled, updated_pool};
use crate::reward_controller::error::ContractError;
use crate::reward_controller::state::{
    find_pool, find_reward, find_stake, pool_slot, reward_slot, stake_slot, staked_weight,
    total_weight_in, RewardPool, State, StateView, UserReward,
};
use crate::table::{put, put_at};

verus! {

/// The state after the pool `pool_id` was brought up to `now`, with nothing
/// else changed. An unknown pool is an error.
pub open spec fn pool_updated(s: StateView, now: u64, pool_id: u64) -> Result<
    StateView,
    ContractError,
> {
    match pool_slot(s.pools, pool_id) {
        None => Err(ContractError::PoolNotFound),
        Some(i) => match updated_pool(
            s.pools[i],
            staked_weight(s.total_staked, s.pools[i].lp_token@),
            now,
        ) {
            Err(e) => Err(e),
            Ok(pool) => Ok(StateView { pools: s.pools.update(i, pool), ..s }),
        },
    }
}

/// Brings the pool `pool_id` up to the block time and returns its place
/// among the pools.
pub fn update_pool(state: &mut State, env: &Env, pool_id: u64) -> (r: Result<usize, ContractError>)
    ensures
        match r {
            Ok(i) => i < final(state).pools.len() && pool_slot(old(state).pools@, pool_id) == Some(
                i as int,
            ) && pool_updated(old(state)@, env.block_time, pool_id) == Ok::<
                StateView,
                ContractError,
            >(final(state)@),
            Err(e) => pool_updated(old(state)@, env.block_time, pool_id) == Err::<
                StateView,
                ContractError,
            >(e) && final(state)@ == old(state)@,
        },
{
    let i = match find_pool(&state.pools, pool_id) {
        Some(i) => i,
        None => {
            return Err(ContractError::PoolNotFound);
        },
    };
    let total_weight = total_weight_in(&state.total_staked, &state.pools[i].lp_token);
    let mut pool = state.pools[i].clone();
    match pool.advance(total_weight, env.block_time) {
        Ok(()) => {},
        Err(e) => {
            return Err(e);
        },
    }
    state.pools.set(i, pool);
    Ok(i)
}

/// The checkpoint of a position that touches a pool for the first time: at
/// the pool's accumulator, with nothing accrued.
pub open spec fn fresh_reward(locker_id: u64, pool_id: u64, pool: RewardPool, now: u64) -> UserReward {
    UserReward {
        locker_id,
        pool_id,
        reward_per_token_paid: pool.reward_per_token_stored,
        rewards_accrued: 0,
        last_claim_time: now,
    }
}

/// The state after the position `locker_id` was settled against the pool
/// `pool_id` at the time `now`: the pool is brought up to date, then what the
/// position earned since its checkpoint is added to the checkpoint. Without
/// such a position only the pool changes. A position in another collateral
/// than the pool's is refused.
pub open spec fn user_reward_updated(s: StateView, now: u64, locker_id: u64, pool_id: u64) -> Result<
    StateView,
    ContractError,
> {
    match pool_updated(s, now, pool_id) {
        Err(e) => Err(e),
        Ok(s1) => match (pool_slot(s.pools, pool_id), stake_slot(s.user_stakes, locker_id)) {
            (Some(i), Some(k)) => {
                let pool = s1.pools[i];
                let stake = s.user_stakes[k];
                let slot = reward_slot(s.user_rewards, locker_id, pool_id);
                let current = match slot {
                    Some(j) => s.user_rewards[j],
                    None => fresh_reward(locker_id, pool_id, pool, now),
                };
                if stake.lp_token@ != pool.lp_token@ {
                    Err(ContractError::Unauthorized)
                } else {
                    match settled(stake, pool, current) {
                        Err(e) => Err(e),
                        Ok(reward) => Ok(
                            StateView { user_rewards: put_at(s.user_rewards, slot, reward), ..s1 },
                        ),
                    }
                }
            },
            _ => Ok(s1),
        },
    }
}

/// Settles the position `locker_id` against the pool `pool_id`.
pub fn update_user_reward(state: &mut State, env: &Env, locker_id: u64, pool_id: u64) -> (r: Result<
    (),
    ContractError,
>)
    ensures
        match r {
            Ok(()) => user_reward_updated(old(state)@, env.block_time, locker_id, pool_id) == Ok::<
                StateView,
                ContractError,
            >(final(state)@),
            Err(e) => user_reward_updated(old(state)@, env.block_time, locker_id, pool_id) == Err::<
                StateView,
                ContractError,
            >(e) && final(state)@ == old(state)@,
        },
{
    let before = match find_pool(&state.pools, pool_id) {
        Some(i) => state.pools[i].clone(),
        None => {
            return Err(ContractError::PoolNotFound);
        },
    };
    let i = match update_pool(state, env, pool_id) {
        Ok(i) => i,
        Err(e) => {
            return Err(e);
        },
    };
    let k = match find_stake(&state.user_stakes, locker_id) {
        Some(k) => k,
        None => {
            return Ok(());
        },
    };
    if state.user_stakes[k].lp_token != state.pools[i].lp_token {
        state.pools.set(i, before);
        assert(state.pools@ =~= old(state).pools@);
        return Err(ContractError::Unauthorized);
    }
    let slot = find_reward(&state.user_rewards, locker_id, pool_id);
    let current = match slot {
        Some(j) => state.user_rewards[j],
        None => UserReward {
            locker_id,
            pool_id,
            reward_per_token_paid: state.pools[i].reward_per_token_stored,
            rewards_accrued: 0,
            last_claim_time: env.block_time,
        },
    };
    let reward = match settle(&state.user_stakes[k], &state.pools[i], &current) {
        Ok(reward) => reward,
        Err(e) => {
            state.pools.set(i, before);
            assert(state.pools@ =~= old(state).pools@);
            return Err(e);
        },
    };
    put(&mut state.user_rewards, slot, reward);
    Ok(())
}

} // verus!
