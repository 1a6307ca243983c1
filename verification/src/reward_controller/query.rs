//! Read-only questions about the controller's state. Pending rewards are
//! projected with the arithmetic of a settlement, and nothing is written.

use vstd::prelude::*;
use crate::asset::same_asset;
use crate::host::Env;
use crate::reward_controller::settlement::fresh_reward;
use crate::reward_controller::engine::{settle, settled, updated_pool};
use crate::reward_controller::error::ContractError;
use crate::reward_controller::msg::{
    ConfigResponse, PendingRewardsResponse, ReferrerBalanceInfo, ReferrerBalancesResponse,
    RewardPoolResponse, UserStakeResponse,
};
use crate::reward_controller::state::{
    find_pool, find_reward, find_stake, pool_slot, reward_slot, stake_slot, staked_weight,
    total_weight_in, AssetInfo, ReferrerBalance, RewardPool, State, StateView, UserReward,
    UserStake,
};

verus! {

/// The most entries that one page holds.
pub const MAX_LIMIT: u32 = 30;

/// The entries that a page holds where the caller names no limit.
pub const DEFAULT_LIMIT: u32 = 10;

/// The size of a page: what was asked for, ten by default, thirty at most.
pub open spec fn page_size(limit: Option<u32>) -> nat {
    match limit {
        Some(n) => if n < MAX_LIMIT {
            n as nat
        } else {
            MAX_LIMIT as nat
        },
        None => DEFAULT_LIMIT as nat,
    }
}

/// The size of a page for the limit that a caller asked for.
pub fn page_limit(limit: Option<u32>) -> (n: usize)
    ensures
        n == page_size(limit),
{
    match limit {
        Some(n) => if n < MAX_LIMIT {
            n as usize
        } else {
            MAX_LIMIT as usize
        },
        None => DEFAULT_LIMIT as usize,
    }
}

/// The first `size` entries of `s`, or all where there are fewer.
pub open spec fn first_page<T>(s: Seq<T>, size: nat) -> Seq<T> {
    if s.len() <= size {
        s
    } else {
        s.take(size as int)
    }
}

/// A page that has room takes one more entry; a full page does not.
pub proof fn lemma_first_page_push<T>(s: Seq<T>, size: nat, x: T)
    ensures
        first_page(s.push(x), size) == if s.len() < size {
            first_page(s, size).push(x)
        } else {
            first_page(s, size)
        },
{
    if s.len() < size {
        assert(first_page(s.push(x), size) =~= first_page(s, size).push(x));
    } else {
        assert(first_page(s.push(x), size) =~= first_page(s, size));
    }
}

/// The configuration as it is answered.
pub open spec fn config_response(s: StateView) -> ConfigResponse {
    ConfigResponse {
        admin: s.config.admin,
        lp_locker_contract: s.config.lp_locker_contract,
        paused: s.config.paused,
        claim_interval: s.config.claim_interval,
        next_pool_id: s.config.next_pool_id,
        referral_commission_bps: s.config.referral_commission_bps,
        batch_limit: s.config.batch_limit,
    }
}

/// The configuration.
pub fn query_config(state: &State) -> (r: ConfigResponse)
    ensures
        r == config_response(state@),
{
    ConfigResponse {
        admin: state.config.admin.clone(),
        lp_locker_contract: state.config.lp_locker_contract.clone(),
        paused: state.config.paused,
        claim_interval: state.config.claim_interval,
        next_pool_id: state.config.next_pool_id,
        referral_commission_bps: state.config.referral_commission_bps,
        batch_limit: state.config.batch_limit,
    }
}

/// A pool as it is answered.
pub open spec fn pool_response(pool: RewardPool) -> RewardPoolResponse {
    RewardPoolResponse {
        pool_id: pool.pool_id,
        lp_token: pool.lp_token,
        reward_token: pool.reward_token,
        total_deposited: pool.total_deposited,
        total_claimed: pool.total_claimed,
        apr: pool.apr,
        dynamic_config: pool.dynamic_config,
        enabled: pool.enabled,
    }
}

fn describe_pool(pool: &RewardPool) -> (r: RewardPoolResponse)
    ensures
        r == pool_response(*pool),
{
    RewardPoolResponse {
        pool_id: pool.pool_id,
        lp_token: pool.lp_token.clone(),
        reward_token: pool.reward_token.clone(),
        total_deposited: pool.total_deposited,
        total_claimed: pool.total_claimed,
        apr: pool.apr,
        dynamic_config: pool.dynamic_config,
        enabled: pool.enabled,
    }
}

/// The pool `pool_id` as it is stored.
pub open spec fn pool_queried(s: StateView, pool_id: u64) -> Result<
    RewardPoolResponse,
    ContractError,
> {
    match pool_slot(s.pools, pool_id) {
        Some(i) => Ok(pool_response(s.pools[i])),
        None => Err(ContractError::PoolNotFound),
    }
}

/// The pool `pool_id`.
pub fn query_pool(state: &State, pool_id: u64) -> (r: Result<RewardPoolResponse, ContractError>)
    ensures
        r == pool_queried(state@, pool_id),
{
    match find_pool(&state.pools, pool_id) {
        Some(i) => Ok(describe_pool(&state.pools[i])),
        None => Err(ContractError::PoolNotFound),
    }
}

/// Whether a pool comes after the cursor `start_after`.
pub open spec fn listed(pool: RewardPool, start_after: Option<u64>) -> bool {
    match start_after {
        Some(id) => pool.pool_id > id,
        None => true,
    }
}

/// The pools after the cursor, in their order.
pub open spec fn pools_after(pools: Seq<RewardPool>, start_after: Option<u64>) -> Seq<
    RewardPoolResponse,
>
    decreases pools.len(),
{
    if pools.len() == 0 {
        Seq::empty()
    } else if listed(pools.last(), start_after) {
        pools_after(pools.drop_last(), start_after).push(pool_response(pools.last()))
    } else {
        pools_after(pools.drop_last(), start_after)
    }
}

/// One page of the pools after the cursor `start_after`, in the order of
/// their creation.
pub fn query_all_pools(state: &State, start_after: Option<u64>, limit: Option<u32>) -> (r: Vec<
    RewardPoolResponse,
>)
    ensures
        r@ == first_page(pools_after(state.pools@, start_after), page_size(limit)),
{
    let size = page_limit(limit);
    let mut page: Vec<RewardPoolResponse> = Vec::new();
    let mut i: usize = 0;
    while i < state.pools.len()
        invariant
            i <= state.pools.len(),
            size == page_size(limit),
            page@ == first_page(pools_after(state.pools@.take(i as int), start_after), size as nat),
        decreases state.pools.len() - i,
    {
        let pool = &state.pools[i];
        let after = match start_after {
            Some(id) => pool.pool_id > id,
            None => true,
        };
        proof {
            assert(state.pools@.take(i + 1).drop_last() =~= state.pools@.take(i as int));
            lemma_first_page_push(
                pools_after(state.pools@.take(i as int), start_after),
                size as nat,
                pool_response(*pool),
            );
        }
        if after && page.len() < size {
            page.push(describe_pool(pool));
        }
        i = i + 1;
    }
    assert(state.pools@.take(state.pools.len() as int) =~= state.pools@);
    page
}

/// A position as it is answered.
pub open spec fn stake_response(stake: UserStake) -> UserStakeResponse {
    UserStakeResponse {
        user: stake.user,
        locker_id: stake.locker_id,
        lp_token: stake.lp_token,
        lp_amount: stake.lp_amount,
        bonus_multiplier: stake.bonus_multiplier,
    }
}

/// The position of `locker_id` as it is stored.
pub open spec fn stake_queried(s: StateView, locker_id: u64) -> Result<
    UserStakeResponse,
    ContractError,
> {
    match stake_slot(s.user_stakes, locker_id) {
        Some(k) => Ok(stake_response(s.user_stakes[k])),
        None => Err(ContractError::StakeNotFound),
    }
}

/// The position of `locker_id`.
pub fn query_user_stake(state: &State, user: &String, locker_id: u64) -> (r: Result<
    UserStakeResponse,
    ContractError,
>)
    ensures
        r == stake_queried(state@, locker_id),
{
    match find_stake(&state.user_stakes, locker_id) {
        Some(k) => {
            let stake = &state.user_stakes[k];
            Ok(
                UserStakeResponse {
                    user: stake.user.clone(),
                    locker_id: stake.locker_id,
                    lp_token: stake.lp_token.clone(),
                    lp_amount: stake.lp_amount,
                    bonus_multiplier: stake.bonus_multiplier,
                },
            )
        },
        None => Err(ContractError::StakeNotFound),
    }
}

/// What the position `locker_id` would have accrued in the pool `pool_id`
/// after a settlement at the time `now`.
pub open spec fn pending_projection(s: StateView, now: u64, locker_id: u64, pool_id: u64) -> Result<
    u128,
    ContractError,
> {
    match (pool_slot(s.pools, pool_id), stake_slot(s.user_stakes, locker_id)) {
        (None, _) => Err(ContractError::PoolNotFound),
        (_, None) => Err(ContractError::StakeNotFound),
        (Some(i), Some(k)) => match updated_pool(
            s.pools[i],
            staked_weight(s.total_staked, s.pools[i].lp_token@),
            now,
        ) {
            Err(e) => Err(e),
            Ok(pool) => {
                let stake = s.user_stakes[k];
                let current = match reward_slot(s.user_rewards, locker_id, pool_id) {
                    Some(j) => s.user_rewards[j],
                    None => fresh_reward(locker_id, pool_id, pool, now),
                };
                if stake.lp_token@ != pool.lp_token@ {
                    Err(ContractError::Unauthorized)
                } else {
                    match settled(stake, pool, current) {
                        Err(e) => Err(e),
                        Ok(reward) => Ok(reward.rewards_accrued),
                    }
                }
            },
        },
    }
}

/// Projects what the position `locker_id` would have accrued in the pool
/// `pool_id` after a settlement at the block time.
pub fn calculate_pending_rewards_for_locker(state: &State, env: &Env, locker_id: u64, pool_id: u64) -> (r:
    Result<u128, ContractError>)
    ensures
        r == pending_projection(state@, env.block_time, locker_id, pool_id),
{
    let i = match find_pool(&state.pools, pool_id) {
        Some(i) => i,
        None => {
            return Err(ContractError::PoolNotFound);
        },
    };
    let k = match find_stake(&state.user_stakes, locker_id) {
        Some(k) => k,
        None => {
            return Err(ContractError::StakeNotFound);
        },
    };
    let total_weight = total_weight_in(&state.total_staked, &state.pools[i].lp_token);
    let mut pool = state.pools[i].clone();
    match pool.advance(total_weight, env.block_time) {
        Ok(()) => {},
        Err(e) => {
            return Err(e);
        },
    }
    let stake = &state.user_stakes[k];
    if stake.lp_token != pool.lp_token {
        return Err(ContractError::Unauthorized);
    }
    let current = match find_reward(&state.user_rewards, locker_id, pool_id) {
        Some(j) => state.user_rewards[j],
        None => UserReward {
            locker_id,
            pool_id,
            reward_per_token_paid: pool.reward_per_token_stored,
            rewards_accrued: 0,
            last_claim_time: env.block_time,
        },
    };
    match settle(stake, &pool, &current) {
        Ok(reward) => Ok(reward.rewards_accrued),
        Err(e) => Err(e),
    }
}

/// The sum of what the positions of `user` among `stakes` would have accrued
/// in the pool `pool_id` at the time `now`. A position whose projection fails
/// is passed over. Nothing where the sum leaves the 128-bit range.
pub open spec fn pending_sum(
    s: StateView,
    now: u64,
    user: Seq<char>,
    pool_id: u64,
    stakes: Seq<UserStake>,
) -> Option<u128>
    decreases stakes.len(),
{
    if stakes.len() == 0 {
        Some(0)
    } else {
        match pending_sum(s, now, user, pool_id, stakes.drop_last()) {
            None => None,
            Some(total) => if stakes.last().user@ == user {
                match pending_projection(s, now, stakes.last().locker_id, pool_id) {
                    Ok(pending) => if total + pending > u128::MAX {
                        None
                    } else {
                        Some((total + pending) as u128)
                    },
                    Err(_) => Some(total),
                }
            } else {
                Some(total)
            },
        }
    }
}

/// What `user` would have accrued in the pool `pool_id` over all their
/// positions at the time `now`.
pub open spec fn pending_queried(s: StateView, now: u64, user: Seq<char>, pool_id: u64) -> Result<
    PendingRewardsResponse,
    ContractError,
> {
    match pending_sum(s, now, user, pool_id, s.user_stakes) {
        Some(total) => Ok(PendingRewardsResponse { pool_id, pending_amount: total }),
        None => Err(ContractError::Overflow),
    }
}

/// Projects what `user` would have accrued in the pool `pool_id` over all
/// their positions.
pub fn query_pending_rewards(state: &State, env: &Env, user: &String, pool_id: u64) -> (r: Result<
    PendingRewardsResponse,
    ContractError,
>)
    ensures
        r == pending_queried(state@, env.block_time, user@, pool_id),
{
    let mut total: u128 = 0;
    let mut i: usize = 0;
    while i < state.user_stakes.len()
        invariant
            i <= state.user_stakes.len(),
            pending_sum(state@, env.block_time, user@, pool_id, state.user_stakes@.take(i as int))
                == Some(total),
        decreases state.user_stakes.len() - i,
    {
        assert(state.user_stakes@.take(i + 1).drop_last() =~= state.user_stakes@.take(i as int));
        if state.user_stakes[i].user == *user {
            match calculate_pending_rewards_for_locker(
                state,
                env,
                state.user_stakes[i].locker_id,
                pool_id,
            ) {
                Ok(pending) => {
                    match total.checked_add(pending) {
                        Some(sum) => {
                            total = sum;
                        },
                        None => {
                            proof {
                                lemma_pending_sum_stays_none(
                                    state@,
                                    env.block_time,
                                    user@,
                                    pool_id,
                                    state.user_stakes@,
                                    i + 1,
                                );
                            }
                            return Err(ContractError::Overflow);
                        },
                    }
                },
                Err(_) => {},
            }
        }
        i = i + 1;
    }
    assert(state.user_stakes@.take(state.user_stakes.len() as int) =~= state.user_stakes@);
    Ok(PendingRewardsResponse { pool_id, pending_amount: total })
}

proof fn lemma_pending_sum_stays_none(
    s: StateView,
    now: u64,
    user: Seq<char>,
    pool_id: u64,
    stakes: Seq<UserStake>,
    n: int,
)
    requires
        0 <= n <= stakes.len(),
        pending_sum(s, now, user, pool_id, stakes.take(n)) is None,
    ensures
        pending_sum(s, now, user, pool_id, stakes) is None,
    decreases stakes.len() - n,
{
    if n < stakes.len() {
        assert(stakes.take(n + 1).drop_last() =~= stakes.take(n));
        lemma_pending_sum_stays_none(s, now, user, pool_id, stakes, n + 1);
    } else {
        assert(stakes.take(n) =~= stakes);
    }
}

/// The balances of `referrer`, in their order.
pub open spec fn balances_of(balances: Seq<ReferrerBalance>, referrer: Seq<char>) -> Seq<
    ReferrerBalance,
>
    decreases balances.len(),
{
    if balances.len() == 0 {
        Seq::empty()
    } else if balances.last().referrer@ == referrer {
        balances_of(balances.drop_last(), referrer).push(balances.last())
    } else {
        balances_of(balances.drop_last(), referrer)
    }
}

/// Where a page of `mine` begins: behind the first balance in the asset of
/// the cursor, at the start without a cursor, and at the end where no
/// balance is in the cursor's asset.
pub open spec fn page_start(mine: Seq<ReferrerBalance>, start_after: Option<AssetInfo>, from: int) -> int
    decreases mine.len() - from,
{
    match start_after {
        None => 0,
        Some(asset) => if from < 0 || from >= mine.len() {
            mine.len() as int
        } else if same_asset(mine[from].asset, asset) {
            from + 1
        } else {
            page_start(mine, start_after, from + 1)
        },
    }
}

/// A balance as it is answered.
pub open spec fn balance_info(balance: ReferrerBalance) -> ReferrerBalanceInfo {
    ReferrerBalanceInfo { asset: balance.asset, amount: balance.amount }
}

/// One page of the commission owed to `referrer`: their balances in the
/// order in which they were first credited, from behind the cursor on.
pub open spec fn referrer_balances_page(
    s: StateView,
    referrer: Seq<char>,
    start_after: Option<AssetInfo>,
    limit: Option<u32>,
) -> Seq<ReferrerBalanceInfo> {
    let mine = balances_of(s.referrer_balances, referrer);
    first_page(mine.skip(page_start(mine, start_after, 0)), page_size(limit)).map_values(
        |b: ReferrerBalance| balance_info(b),
    )
}

/// The balances of `referrer`, in their order.
fn collect_balances(state: &State, referrer: &String) -> (mine: Vec<ReferrerBalance>)
    ensures
        mine@ == balances_of(state.referrer_balances@, referrer@),
{
    let mut mine: Vec<ReferrerBalance> = Vec::new();
    let mut i: usize = 0;
    while i < state.referrer_balances.len()
        invariant
            i <= state.referrer_balances.len(),
            mine@ == balances_of(state.referrer_balances@.take(i as int), referrer@),
        decreases state.referrer_balances.len() - i,
    {
        assert(state.referrer_balances@.take(i + 1).drop_last()
            =~= state.referrer_balances@.take(i as int));
        if state.referrer_balances[i].referrer == *referrer {
            mine.push(state.referrer_balances[i].clone());
        }
        i = i + 1;
    }
    assert(state.referrer_balances@.take(state.referrer_balances.len() as int)
        =~= state.referrer_balances@);
    mine
}

/// Where a page of `mine` begins for the cursor `start_after`.
fn find_page_start(mine: &Vec<ReferrerBalance>, start_after: &Option<AssetInfo>) -> (start: usize)
    ensures
        start == page_start(mine@, *start_after, 0),
        start <= mine.len(),
{
    match start_after {
        None => 0,
        Some(asset) => {
            let mut i: usize = 0;
            while i < mine.len()
                invariant
                    i <= mine.len(),
                    *start_after == Some(*asset),
                    page_start(mine@, *start_after, 0) == page_start(mine@, *start_after, i as int),
                decreases mine.len() - i,
            {
                if mine[i].asset.same(asset) {
                    return i + 1;
                }
                i = i + 1;
            }
            mine.len()
        },
    }
}

/// One page of the commission owed to `referrer`.
pub fn query_referrer_balances(
    state: &State,
    referrer: String,
    start_after: Option<AssetInfo>,
    limit: Option<u32>,
) -> (r: ReferrerBalancesResponse)
    ensures
        r.referrer == referrer,
        r.balances@ == referrer_balances_page(state@, referrer@, start_after, limit),
{
    let size = page_limit(limit);
    let mine = collect_balances(state, &referrer);
    let start = find_page_start(&mine, &start_after);
    let mut balances: Vec<ReferrerBalanceInfo> = Vec::new();
    let ghost rest = mine@.skip(start as int);
    let mut i: usize = start;
    while i < mine.len() && balances.len() < size
        invariant
            start <= i <= mine.len(),
            balances.len() == i - start,
            balances.len() <= size,
            forall|k: int| 0 <= k < balances.len() ==> balances@[k] == balance_info(mine@[start + k]),
        decreases mine.len() - i,
    {
        balances.push(
            ReferrerBalanceInfo { asset: mine[i].asset.clone(), amount: mine[i].amount },
        );
        i = i + 1;
    }
    assert(balances@ =~= first_page(rest, size as nat).map_values(
        |b: ReferrerBalance| balance_info(b),
    ));
    ReferrerBalancesResponse { referrer, balances }
}

} // verus!
