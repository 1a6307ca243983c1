//! The life of a lock as the lock registry reports it: opened, extended,
//! closed.

use vstd::prelude::*;
use crate::host::{CosmosMsg, Env, MessageInfo, Response, ResponseView};
use crate::reward_controller::claim::{load_referrer, paid_out, pay_out};
use crate::reward_controller::engine::{
    bonus_multiplier, calculate_bonus_multiplier, lock_duration, weigh, weighed,
};
use crate::reward_controller::error::ContractError;
use crate::reward_controller::msg::LockerHookMsg;
use crate::reward_controller::settlement::{
    fresh_reward, pool_updated, update_pool, update_user_reward, user_reward_updated,
};
use crate::reward_controller::state::{
    find_pool, find_reward, find_stake, locker_hit, lower_totals, move_weight, pool_slot,
    pools_for_lp, raise_totals, referrer_of, remove_rewards, remove_stake, reward_slot,
    stake_hit, stake_slot, totals_lowered, totals_raised, weight_moved, StakedTotal, State,
    StateView, UserReward, UserStake,
};
use crate::table::{lemma_first_match, put, put_at, without};

verus! {

/// The state after the position `locker_id` got its checkpoint in the pool
/// `pool_id`: the pool is brought up to date and the checkpoint stands at the
/// pool's accumulator with nothing accrued.
pub open spec fn checkpoint_opened(s: StateView, now: u64, locker_id: u64, pool_id: u64) -> Result<
    StateView,
    ContractError,
> {
    match pool_updated(s, now, pool_id) {
        Err(e) => Err(e),
        Ok(s1) => match pool_slot(s.pools, pool_id) {
            Some(i) => Ok(
                StateView {
                    user_rewards: put_at(
                        s.user_rewards,
                        reward_slot(s.user_rewards, locker_id, pool_id),
                        fresh_reward(locker_id, pool_id, s1.pools[i], now),
                    ),
                    ..s1
                },
            ),
            None => Ok(s1),
        },
    }
}

/// Checkpoints opened in the pools `pool_ids` from index `from` on.
pub open spec fn checkpoints_opened(
    s: StateView,
    now: u64,
    locker_id: u64,
    pool_ids: Seq<u64>,
    from: int,
) -> Result<StateView, ContractError>
    decreases pool_ids.len() - from,
{
    if from < 0 || from >= pool_ids.len() {
        Ok(s)
    } else {
        match checkpoint_opened(s, now, locker_id, pool_ids[from]) {
            Err(e) => Err(e),
            Ok(next) => checkpoints_opened(next, now, locker_id, pool_ids, from + 1),
        }
    }
}

/// The position settled against the pools `pool_ids` from index `from` on.
pub open spec fn settled_all(
    s: StateView,
    now: u64,
    locker_id: u64,
    pool_ids: Seq<u64>,
    from: int,
) -> Result<StateView, ContractError>
    decreases pool_ids.len() - from,
{
    if from < 0 || from >= pool_ids.len() {
        Ok(s)
    } else {
        match user_reward_updated(s, now, locker_id, pool_ids[from]) {
            Err(e) => Err(e),
            Ok(next) => settled_all(next, now, locker_id, pool_ids, from + 1),
        }
    }
}

/// The totals once the lock `locker_id` has no position any more: where it
/// has one, the amount and the weight of that position leave the totals of
/// its collateral.
pub open spec fn vacated(s: StateView, locker_id: u64) -> Result<Seq<StakedTotal>, ContractError> {
    match stake_slot(s.user_stakes, locker_id) {
        None => Ok(s.total_staked),
        Some(k) => match weighed(s.user_stakes[k]) {
            Err(e) => Err(e),
            Ok(weight) => match totals_lowered(
                s.total_staked,
                s.user_stakes[k].lp_token,
                s.user_stakes[k].lp_amount,
                weight,
            ) {
                None => Err(ContractError::Overflow),
                Some(total_staked) => Ok(total_staked),
            },
        },
    }
}

/// The state once the position `stake` is recorded for its lock: it takes
/// the place of the position that the lock had, if it had one, and what that
/// one counted for leaves the totals.
pub open spec fn lock_begun(s: StateView, stake: UserStake) -> Result<StateView, ContractError> {
    match vacated(s, stake.locker_id) {
        Err(e) => Err(e),
        Ok(total_staked) => Ok(
            StateView {
                user_stakes: put_at(
                    s.user_stakes,
                    stake_slot(s.user_stakes, stake.locker_id),
                    stake,
                ),
                total_staked,
                ..s
            },
        ),
    }
}

/// A lock was opened: the position is recorded with the multiplier of its
/// whole duration, in the place of the position that the lock had if it had
/// one; it gets a checkpoint in every pool of its collateral, and its amount
/// and its weight are added to the totals of that collateral.
pub open spec fn on_lock(
    s: StateView,
    now: u64,
    locker_id: u64,
    owner: String,
    lp_token: String,
    amount: u128,
    locked_at: u64,
    unlock_time: u64,
) -> Result<StateView, ContractError> {
    let stake = UserStake {
        user: owner,
        locker_id,
        lp_token,
        lp_amount: amount,
        locked_at,
        bonus_multiplier: bonus_multiplier(lock_duration(locked_at, unlock_time)),
    };
    match lock_begun(s, stake) {
        Err(e) => Err(e),
        Ok(s1) => lock_finished(
            checkpoints_opened(s1, now, locker_id, pools_for_lp(s1.pools, lp_token@), 0),
            stake,
        ),
    }
}

/// How the opening of a lock ends once its checkpoints are opened: the
/// position's amount and weight come to the totals of its collateral.
pub open spec fn lock_finished(r: Result<StateView, ContractError>, stake: UserStake) -> Result<
    StateView,
    ContractError,
> {
    match (r, weighed(stake)) {
        (Err(e), _) => Err(e),
        (_, Err(e)) => Err(e),
        (Ok(s2), Ok(weight)) => match totals_raised(
            s2.total_staked,
            stake.lp_token,
            stake.lp_amount,
            weight,
        ) {
            None => Err(ContractError::Overflow),
            Some(total_staked) => Ok(StateView { total_staked, ..s2 }),
        },
    }
}

/// A position with the multiplier of a lock that ends at `new_unlock_time`.
pub open spec fn extended(stake: UserStake, new_unlock_time: u64) -> UserStake {
    UserStake {
        bonus_multiplier: bonus_multiplier(lock_duration(stake.locked_at, new_unlock_time)),
        ..stake
    }
}

/// How the extension of the position at `k` ends once it is settled: the
/// position gets its new multiplier, and the total weight of its collateral
/// moves by what the position's weight has moved.
pub open spec fn extend_finished(
    r: Result<StateView, ContractError>,
    k: int,
    stake: UserStake,
    new_unlock_time: u64,
) -> Result<StateView, ContractError> {
    match (r, weighed(stake), weighed(extended(stake, new_unlock_time))) {
        (Err(e), _, _) => Err(e),
        (_, Err(e), _) => Err(e),
        (_, _, Err(e)) => Err(e),
        (Ok(s1), Ok(old_weight), Ok(new_weight)) => match weight_moved(
            s1.total_staked,
            stake.lp_token,
            old_weight,
            new_weight,
        ) {
            None => Err(ContractError::Overflow),
            Some(total_staked) => Ok(
                StateView {
                    user_stakes: s1.user_stakes.update(k, extended(stake, new_unlock_time)),
                    total_staked,
                    ..s1
                },
            ),
        },
    }
}

/// A lock was extended: the position is settled against every pool of its
/// collateral with the weight it had, then gets the multiplier of its whole
/// duration, from the start of the lock to its new end, and the total weight
/// of its collateral moves by the new weight less the old one.
pub open spec fn on_extend(s: StateView, now: u64, locker_id: u64, new_unlock_time: u64) -> Result<
    StateView,
    ContractError,
> {
    match stake_slot(s.user_stakes, locker_id) {
        None => Err(ContractError::StakeNotFound),
        Some(k) => {
            let stake = s.user_stakes[k];
            extend_finished(
                settled_all(s, now, locker_id, pools_for_lp(s.pools, stake.lp_token@), 0),
                k,
                stake,
                new_unlock_time,
            )
        },
    }
}

/// How far the closing of a position has come.
pub struct CloseProgress {
    pub state: StateView,
    pub messages: Seq<CosmosMsg>,
}

/// One pool's part in the closing of a position: the position is settled,
/// and what it has accrued is paid out if the pool can pay it. A payout that
/// the pool cannot fund, or that fails, is passed over.
pub open spec fn close_pool(
    p: CloseProgress,
    now: u64,
    stake: UserStake,
    referrer: Option<String>,
    pool_id: u64,
) -> Result<CloseProgress, ContractError> {
    match user_reward_updated(p.state, now, stake.locker_id, pool_id) {
        Err(e) => Err(e),
        Ok(s) => match (
            reward_slot(s.user_rewards, stake.locker_id, pool_id),
            pool_slot(s.pools, pool_id),
        ) {
            (Some(j), Some(i)) => {
                if s.user_rewards[j].rewards_accrued == 0 {
                    Ok(CloseProgress { state: s, ..p })
                } else {
                    match paid_out(s, now, stake.user, referrer, i, j) {
                        Err(_) => Ok(CloseProgress { state: s, ..p }),
                        Ok((after, msg, _)) => Ok(
                            CloseProgress { state: after, messages: p.messages.push(msg) },
                        ),
                    }
                }
            },
            (None, _) => Err(ContractError::StakeNotFound),
            (_, None) => Err(ContractError::PoolNotFound),
        },
    }
}

/// The closing of a position carried through the pools `pool_ids` from index
/// `from` on.
pub open spec fn close_pools(
    p: CloseProgress,
    now: u64,
    stake: UserStake,
    referrer: Option<String>,
    pool_ids: Seq<u64>,
    from: int,
) -> Result<CloseProgress, ContractError>
    decreases pool_ids.len() - from,
{
    if from < 0 || from >= pool_ids.len() {
        Ok(p)
    } else {
        match close_pool(p, now, stake, referrer, pool_ids[from]) {
            Err(e) => Err(e),
            Ok(next) => close_pools(next, now, stake, referrer, pool_ids, from + 1),
        }
    }
}

/// How the closing of a position ends once its pools are gone through: the
/// position and its checkpoints are removed, and its amount and its weight
/// leave the totals of its collateral.
pub open spec fn close_finished(
    r: Result<CloseProgress, ContractError>,
    stake: UserStake,
) -> Result<(StateView, Seq<CosmosMsg>), ContractError> {
    match (r, weighed(stake)) {
        (Err(e), _) => Err(e),
        (_, Err(e)) => Err(e),
        (Ok(p), Ok(weight)) => match totals_lowered(
            p.state.total_staked,
            stake.lp_token,
            stake.lp_amount,
            weight,
        ) {
            None => Err(ContractError::Overflow),
            Some(total_staked) => Ok(
                (
                    StateView {
                        user_stakes: without(p.state.user_stakes, stake_hit(stake.locker_id)),
                        user_rewards: without(p.state.user_rewards, locker_hit(stake.locker_id)),
                        total_staked,
                        ..p.state
                    },
                    p.messages,
                ),
            )
        },
    }
}

/// A lock was closed: the position is settled against every pool of its
/// collateral and paid what the pools can pay, then it is removed.
pub open spec fn on_unlock(s: StateView, now: u64, locker_id: u64) -> Result<
    (StateView, Seq<CosmosMsg>),
    ContractError,
> {
    match stake_slot(s.user_stakes, locker_id) {
        None => Err(ContractError::StakeNotFound),
        Some(k) => {
            let stake = s.user_stakes[k];
            close_finished(
                close_pools(
                    CloseProgress { state: s, messages: Seq::empty() },
                    now,
                    stake,
                    referrer_of(s.referrals, stake.user@),
                    pools_for_lp(s.pools, stake.lp_token@),
                    0,
                ),
                stake,
            )
        },
    }
}

/// What a notification of the lock registry does. Only the registry may
/// send one.
pub open spec fn locker_hook_handled(s: StateView, now: u64, sender: String, msg: LockerHookMsg) -> Result<
    (StateView, ResponseView),
    ContractError,
> {
    if sender@ != s.config.lp_locker_contract@ {
        Err(ContractError::Unauthorized)
    } else {
        match msg {
            LockerHookMsg::OnLock { locker_id, owner, lp_token, amount, locked_at, unlock_time } => {
                match on_lock(s, now, locker_id, owner, lp_token, amount, locked_at, unlock_time) {
                    Err(e) => Err(e),
                    Ok(after) => Ok(
                        (
                            after,
                            ResponseView {
                                messages: Seq::empty(),
                                attributes: seq![("action"@, "locker_hook"@)],
                            },
                        ),
                    ),
                }
            },
            LockerHookMsg::OnExtend { locker_id, new_unlock_time } => {
                match on_extend(s, now, locker_id, new_unlock_time) {
                    Err(e) => Err(e),
                    Ok(after) => Ok(
                        (
                            after,
                            ResponseView {
                                messages: Seq::empty(),
                                attributes: seq![("action"@, "locker_hook"@)],
                            },
                        ),
                    ),
                }
            },
            LockerHookMsg::OnUnlock { locker_id, owner } => {
                match on_unlock(s, now, locker_id) {
                    Err(e) => Err(e),
                    Ok((after, messages)) => Ok(
                        (
                            after,
                            ResponseView {
                                messages,
                                attributes: seq![
                                    ("action"@, "locker_hook"@),
                                    ("sub_action"@, "on_unlock_auto_claim"@),
                                ],
                            },
                        ),
                    ),
                }
            },
        }
    }
}

/// The ids of the pools that reward the collateral `lp_token`.
pub fn get_pools_for_lp(state: &State, lp_token: &String) -> (ids: Vec<u64>)
    ensures
        ids@ == pools_for_lp(state.pools@, lp_token@),
{
    let mut ids: Vec<u64> = Vec::new();
    let mut i: usize = 0;
    while i < state.pools.len()
        invariant
            i <= state.pools.len(),
            ids@ == pools_for_lp(state.pools@.take(i as int), lp_token@),
        decreases state.pools.len() - i,
    {
        assert(state.pools@.take(i + 1).drop_last() =~= state.pools@.take(i as int));
        if state.pools[i].lp_token == *lp_token {
            ids.push(state.pools[i].pool_id);
        }
        i = i + 1;
    }
    assert(state.pools@.take(state.pools.len() as int) =~= state.pools@);
    ids
}

/// Opens the checkpoint of the position `locker_id` in the pool `pool_id`.
pub(crate) fn open_checkpoint(state: &mut State, env: &Env, locker_id: u64, pool_id: u64) -> (r: Result<
    (),
    ContractError,
>)
    ensures
        match r {
            Ok(()) => checkpoint_opened(old(state)@, env.block_time, locker_id, pool_id) == Ok::<
                StateView,
                ContractError,
            >(final(state)@),
            Err(e) => checkpoint_opened(old(state)@, env.block_time, locker_id, pool_id) == Err::<
                StateView,
                ContractError,
            >(e),
        },
{
    let i = match update_pool(state, env, pool_id) {
        Ok(i) => i,
        Err(e) => {
            return Err(e);
        },
    };
    let slot = find_reward(&state.user_rewards, locker_id, pool_id);
    let reward = UserReward {
        locker_id,
        pool_id,
        reward_per_token_paid: state.pools[i].reward_per_token_stored,
        rewards_accrued: 0,
        last_claim_time: env.block_time,
    };
    put(&mut state.user_rewards, slot, reward);
    Ok(())
}

/// Handles the opening of a lock.
pub(crate) fn handle_on_lock(
    state: &mut State,
    env: &Env,
    locker_id: u64,
    owner: String,
    lp_token: String,
    amount: u128,
    locked_at: u64,
    unlock_time: u64,
) -> (r: Result<(), ContractError>)
    ensures
        match r {
            Ok(()) => on_lock(
                old(state)@,
                env.block_time,
                locker_id,
                owner,
                lp_token,
                amount,
                locked_at,
                unlock_time,
            ) == Ok::<StateView, ContractError>(final(state)@),
            Err(e) => on_lock(
                old(state)@,
                env.block_time,
                locker_id,
                owner,
                lp_token,
                amount,
                locked_at,
                unlock_time,
            ) == Err::<StateView, ContractError>(e),
        },
{
    let duration: u64 = if unlock_time >= locked_at {
        unlock_time - locked_at
    } else {
        0
    };
    let stake = UserStake {
        user: owner,
        locker_id,
        lp_token: lp_token.clone(),
        lp_amount: amount,
        locked_at,
        bonus_multiplier: calculate_bonus_multiplier(duration),
    };
    let ghost lock = stake;
    let weight = weigh(&stake);
    let slot = find_stake(&state.user_stakes, locker_id);
    match slot {
        Some(k) => {
            let replaced = state.user_stakes[k].clone();
            let old_weight = match weigh(&replaced) {
                Ok(weight) => weight,
                Err(e) => {
                    return Err(e);
                },
            };
            if !lower_totals(
                &mut state.total_staked,
                &replaced.lp_token,
                replaced.lp_amount,
                old_weight,
            ) {
                return Err(ContractError::Overflow);
            }
        },
        None => {},
    }
    put(&mut state.user_stakes, slot, stake);
    let pool_ids = get_pools_for_lp(state, &lp_token);
    let ghost begun = state@;
    let mut n: usize = 0;
    while n < pool_ids.len()
        invariant
            n <= pool_ids.len(),
            checkpoints_opened(begun, env.block_time, locker_id, pool_ids@, 0)
                == checkpoints_opened(state@, env.block_time, locker_id, pool_ids@, n as int),
            on_lock(
                old(state)@,
                env.block_time,
                locker_id,
                owner,
                lp_token,
                amount,
                locked_at,
                unlock_time,
            ) == lock_finished(
                checkpoints_opened(begun, env.block_time, locker_id, pool_ids@, 0),
                lock,
            ),
        decreases pool_ids.len() - n,
    {
        match open_checkpoint(state, env, locker_id, pool_ids[n]) {
            Ok(()) => {},
            Err(e) => {
                return Err(e);
            },
        }
        n = n + 1;
    }
    let weight = match weight {
        Ok(weight) => weight,
        Err(e) => {
            return Err(e);
        },
    };
    if !raise_totals(&mut state.total_staked, &lp_token, amount, weight) {
        return Err(ContractError::Overflow);
    }
    Ok(())
}

/// Handles the extension of a lock.
pub(crate) fn handle_on_extend(state: &mut State, env: &Env, locker_id: u64, new_unlock_time: u64) -> (r:
    Result<(), ContractError>)
    ensures
        match r {
            Ok(()) => on_extend(old(state)@, env.block_time, locker_id, new_unlock_time) == Ok::<
                StateView,
                ContractError,
            >(final(state)@),
            Err(e) => on_extend(old(state)@, env.block_time, locker_id, new_unlock_time) == Err::<
                StateView,
                ContractError,
            >(e),
        },
{
    let k = match find_stake(&state.user_stakes, locker_id) {
        Some(k) => k,
        None => {
            return Err(ContractError::StakeNotFound);
        },
    };
    let mut stake = state.user_stakes[k].clone();
    let total_duration: u64 = if new_unlock_time >= stake.locked_at {
        new_unlock_time - stake.locked_at
    } else {
        0
    };
    let pool_ids = get_pools_for_lp(state, &stake.lp_token);
    let ghost begun = state@;
    let mut n: usize = 0;
    while n < pool_ids.len()
        invariant
            n <= pool_ids.len(),
            k < state.user_stakes.len(),
            state@.user_stakes == begun.user_stakes,
            begun == old(state)@,
            stake_slot(begun.user_stakes, locker_id) == Some(k as int),
            stake == begun.user_stakes[k as int],
            pool_ids@ == pools_for_lp(begun.pools, stake.lp_token@),
            settled_all(begun, env.block_time, locker_id, pool_ids@, 0) == settled_all(
                state@,
                env.block_time,
                locker_id,
                pool_ids@,
                n as int,
            ),
        decreases pool_ids.len() - n,
    {
        match update_user_reward(state, env, locker_id, pool_ids[n]) {
            Ok(()) => {},
            Err(e) => {
                return Err(e);
            },
        }
        n = n + 1;
    }
    let old_weight = match weigh(&stake) {
        Ok(weight) => weight,
        Err(e) => {
            return Err(e);
        },
    };
    stake.bonus_multiplier = calculate_bonus_multiplier(total_duration);
    let new_weight = match weigh(&stake) {
        Ok(weight) => weight,
        Err(e) => {
            return Err(e);
        },
    };
    if !move_weight(&mut state.total_staked, &stake.lp_token, old_weight, new_weight) {
        return Err(ContractError::Overflow);
    }
    state.user_stakes.set(k, stake);
    Ok(())
}

/// Settles a position that is being closed against one pool and pays out
/// what the pool can pay.
pub(crate) fn close_in_pool(
    state: &mut State,
    env: &Env,
    stake: &UserStake,
    referrer: &Option<String>,
    pool_id: u64,
    messages: &mut Vec<CosmosMsg>,
) -> (r: Result<(), ContractError>)
    ensures
        match r {
            Ok(()) => close_pool(
                CloseProgress { state: old(state)@, messages: old(messages)@ },
                env.block_time,
                *stake,
                *referrer,
                pool_id,
            ) == Ok::<CloseProgress, ContractError>(
                CloseProgress { state: final(state)@, messages: final(messages)@ },
            ),
            Err(e) => close_pool(
                CloseProgress { state: old(state)@, messages: old(messages)@ },
                env.block_time,
                *stake,
                *referrer,
                pool_id,
            ) == Err::<CloseProgress, ContractError>(e),
        },
{
    match update_user_reward(state, env, stake.locker_id, pool_id) {
        Ok(()) => {},
        Err(e) => {
            return Err(e);
        },
    }
    let j = match find_reward(&state.user_rewards, stake.locker_id, pool_id) {
        Some(j) => j,
        None => {
            return Err(ContractError::StakeNotFound);
        },
    };
    let i = match find_pool(&state.pools, pool_id) {
        Some(i) => i,
        None => {
            return Err(ContractError::PoolNotFound);
        },
    };
    if state.user_rewards[j].rewards_accrued == 0 {
        return Ok(());
    }
    match pay_out(state, env, &stake.user, referrer, i, j) {
        Ok((msg, _)) => {
            messages.push(msg);
        },
        Err(_) => {},
    }
    Ok(())
}

/// Handles the closing of a lock and returns the transfers it requests.
pub(crate) fn handle_on_unlock(state: &mut State, env: &Env, locker_id: u64) -> (r: Result<
    Vec<CosmosMsg>,
    ContractError,
>)
    ensures
        match r {
            Ok(messages) => on_unlock(old(state)@, env.block_time, locker_id) == Ok::<
                (StateView, Seq<CosmosMsg>),
                ContractError,
            >((final(state)@, messages@)),
            Err(e) => on_unlock(old(state)@, env.block_time, locker_id) == Err::<
                (StateView, Seq<CosmosMsg>),
                ContractError,
            >(e),
        },
{
    let k = match find_stake(&state.user_stakes, locker_id) {
        Some(k) => k,
        None => {
            return Err(ContractError::StakeNotFound);
        },
    };
    let stake = state.user_stakes[k].clone();
    proof {
        lemma_first_match(state.user_stakes@, stake_hit(locker_id));
    }
    let pool_ids = get_pools_for_lp(state, &stake.lp_token);
    let referrer = load_referrer(state, &stake.user);
    let mut messages: Vec<CosmosMsg> = Vec::new();
    let ghost begun = CloseProgress { state: state@, messages: Seq::empty() };
    let mut n: usize = 0;
    while n < pool_ids.len()
        invariant
            n <= pool_ids.len(),
            stake.locker_id == locker_id,
            on_unlock(old(state)@, env.block_time, locker_id) == close_finished(
                close_pools(begun, env.block_time, stake, referrer, pool_ids@, 0),
                stake,
            ),
            close_pools(begun, env.block_time, stake, referrer, pool_ids@, 0) == close_pools(
                CloseProgress { state: state@, messages: messages@ },
                env.block_time,
                stake,
                referrer,
                pool_ids@,
                n as int,
            ),
        decreases pool_ids.len() - n,
    {
        match close_in_pool(state, env, &stake, &referrer, pool_ids[n], &mut messages) {
            Ok(()) => {},
            Err(e) => {
                return Err(e);
            },
        }
        n = n + 1;
    }
    let weight = match weigh(&stake) {
        Ok(weight) => weight,
        Err(e) => {
            return Err(e);
        },
    };
    if !lower_totals(&mut state.total_staked, &stake.lp_token, stake.lp_amount, weight) {
        return Err(ContractError::Overflow);
    }
    remove_stake(&mut state.user_stakes, locker_id);
    remove_rewards(&mut state.user_rewards, locker_id);
    Ok(messages)
}

/// Handles a notification of the lock registry. A rejected notification
/// changes nothing.
pub fn execute_locker_hook(state: &mut State, env: &Env, info: &MessageInfo, msg: LockerHookMsg) -> (r:
    Result<Response, ContractError>)
    ensures
        match r {
            Ok(response) => locker_hook_handled(old(state)@, env.block_time, info.sender, msg)
                == Ok::<(StateView, ResponseView), ContractError>((final(state)@, response@)),
            Err(e) => locker_hook_handled(old(state)@, env.block_time, info.sender, msg) == Err::<
                (StateView, ResponseView),
                ContractError,
            >(e) && final(state)@ == old(state)@,
        },
{
    let snapshot = state.clone();
    let r = handle_locker_hook(state, env, info, msg);
    if r.is_err() {
        *state = snapshot;
    }
    r
}

/// Handles a notification of the lock registry on the state in place.
pub(crate) fn handle_locker_hook(
    state: &mut State,
    env: &Env,
    info: &MessageInfo,
    msg: LockerHookMsg,
) -> (r: Result<Response, ContractError>)
    ensures
        match r {
            Ok(response) => locker_hook_handled(old(state)@, env.block_time, info.sender, msg)
                == Ok::<(StateView, ResponseView), ContractError>((final(state)@, response@)),
            Err(e) => locker_hook_handled(old(state)@, env.block_time, info.sender, msg) == Err::<
                (StateView, ResponseView),
                ContractError,
            >(e),
        },
{
    if info.sender != state.config.lp_locker_contract {
        return Err(ContractError::Unauthorized);
    }
    match msg {
        LockerHookMsg::OnLock { locker_id, owner, lp_token, amount, locked_at, unlock_time } => {
            match handle_on_lock(
                state,
                env,
                locker_id,
                owner,
                lp_token,
                amount,
                locked_at,
                unlock_time,
            ) {
                Ok(()) => {},
                Err(e) => {
                    return Err(e);
                },
            }
        },
        LockerHookMsg::OnExtend { locker_id, new_unlock_time } => {
            match handle_on_extend(state, env, locker_id, new_unlock_time) {
                Ok(()) => {},
                Err(e) => {
                    return Err(e);
                },
            }
        },
        LockerHookMsg::OnUnlock { locker_id, owner: _ } => {
            let messages = match handle_on_unlock(state, env, locker_id) {
                Ok(messages) => messages,
                Err(e) => {
                    return Err(e);
                },
            };
            let response = Response::new().add_messages(messages).add_attribute_str(
                "action",
                "locker_hook",
            ).add_attribute_str("sub_action", "on_unlock_auto_claim");
            assert(response@.attributes =~= seq![
                ("action"@, "locker_hook"@),
                ("sub_action"@, "on_unlock_auto_claim"@),
            ]);
            assert(response@.messages =~= messages@);
            return Ok(response);
        },
    }
    let response = Response::new().add_attribute_str("action", "locker_hook");
    assert(response@.attributes =~= seq![("action"@, "locker_hook"@)]);
    Ok(response)
}

} // verus!
