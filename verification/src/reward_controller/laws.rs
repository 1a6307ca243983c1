//! What holds of the reward controller whatever it is asked to do.

use vstd::prelude::*;
use crate::host::{Env, MessageInfo, ResponseView};
use crate::math::{scaled, Decimal};
use crate::reward_controller::admin::rewards_deposited;
use crate::reward_controller::admin::reward_pool_updated;
use crate::reward_controller::claim::{
    batch_claimed, claim_pool, claim_pools, paid_out, rewards_claimed, ClaimProgress,
};
use crate::reward_controller::contract::{executed, initial_state};
use crate::reward_controller::engine::{
    active_apr, adjusted_apr, bonus_multiplier, commission_of, lock_duration, pending_for,
    settled, split_payout, updated_pool,
};
use crate::reward_controller::error::ContractError;
use crate::reward_controller::hooks::{
    checkpoint_opened, checkpoints_opened, close_pool, close_pools, locker_hook_handled,
    on_extend, on_unlock, settled_all, CloseProgress,
};
use crate::reward_controller::msg::{Cw20HookMsg, ExecuteMsg, InstantiateMsg, LockerHookMsg};
use crate::reward_controller::settlement::{pool_updated, user_reward_updated};
use crate::reward_controller::state::{
    locker_hit, pool_hit, pool_slot, pools_for_lp, referral_hit, referral_slot, referrer_of,
    reward_hit, reward_slot, stake_hit,
    stake_slot, DynamicAPRConfig, RewardPool, StateView, UserReward, UserStake,
};
use crate::table::{
    lemma_first_match, lemma_first_match_none, lemma_put_found, lemma_update_keeps_match,
    lemma_without_clears, put_at,
};

verus! {

/// No pool was asked to pay more than it was funded with.
pub open spec fn pools_solvent(s: StateView) -> bool {
    forall|i: int| 0 <= i < s.pools.len() ==> (#[trigger] s.pools[i]).solvent()
}

/// `after` is the pool `before` at a later time: it is the same pool, its
/// accumulator has not gone back, and if it had not paid more than it was
/// funded with, it still has not.
pub open spec fn pool_follows(before: RewardPool, after: RewardPool) -> bool {
    &&& after.pool_id == before.pool_id
    &&& after.reward_per_token_stored.atomics >= before.reward_per_token_stored.atomics
    &&& before.solvent() ==> after.solvent()
}

/// Every pool of `before` is still in its place in `after` and follows what
/// it was.
pub open spec fn pools_follow(before: StateView, after: StateView) -> bool {
    &&& before.pools.len() <= after.pools.len()
    &&& forall|i: int|
        0 <= i < before.pools.len() ==> pool_follows(before.pools[i], #[trigger] after.pools[i])
}

/// `after` may come after `before`: every pool follows what it was, so
/// solvency is kept, pool by pool and as a whole, and no accumulator has gone
/// back.
pub open spec fn follows(before: StateView, after: StateView) -> bool {
    &&& pools_solvent(before) ==> pools_solvent(after)
    &&& pools_follow(before, after)
}

/// `after` follows `before`, and neither the settings nor the referrals nor
/// the number of pools have changed.
pub open spec fn steady(before: StateView, after: StateView) -> bool {
    &&& follows(before, after)
    &&& after.config == before.config
    &&& after.referrals == before.referrals
    &&& after.pools.len() == before.pools.len()
}

/// No pool of `before` has another funding in `after`, and none has paid
/// less.
pub open spec fn funding_kept(before: StateView, after: StateView) -> bool {
    forall|i: int|
        0 <= i < before.pools.len() && i < after.pools.len() ==> (
        #[trigger] after.pools[i]).total_deposited == before.pools[i].total_deposited
            && after.pools[i].total_claimed >= before.pools[i].total_claimed
}

/// `after` is steady after `before` and keeps the funding of every pool:
/// what claims and the notifications of the lock registry leave behind.
pub open spec fn calm(before: StateView, after: StateView) -> bool {
    steady(before, after) && funding_kept(before, after)
}

/// The state is well formed: the pools are numbered in the order of their
/// creation, none has paid more than it was funded with, the commission is
/// no more than the whole payout, and nobody has referred themself or has two
/// referrers.
pub open spec fn well_formed(s: StateView) -> bool {
    &&& pools_solvent(s)
    &&& s.pools.len() == s.config.next_pool_id
    &&& forall|i: int| 0 <= i < s.pools.len() ==> (#[trigger] s.pools[i]).pool_id == i
    &&& s.config.referral_commission_bps <= 10000
    &&& forall|i: int|
        0 <= i < s.referrals.len() ==> (#[trigger] s.referrals[i]).referee@
            != s.referrals[i].referrer@
    &&& forall|i: int, j: int|
        0 <= i < j < s.referrals.len() ==> (#[trigger] s.referrals[i]).referee@ != (
        #[trigger] s.referrals[j]).referee@
}

/// Bringing a pool up to date leaves its identity and its funding ledger
/// alone and never lowers its accumulator; the accumulator stands still
/// while the pool is disabled, while nothing is locked, and while no time
/// has passed.
pub proof fn lemma_accumulator_monotonic(pool: RewardPool, total_weight: u128, now: u64)
    ensures
        match updated_pool(pool, total_weight, now) {
            Ok(after) => {
                &&& after.pool_id == pool.pool_id
                &&& after.lp_token == pool.lp_token
                &&& after.reward_token == pool.reward_token
                &&& after.total_deposited == pool.total_deposited
                &&& after.total_claimed == pool.total_claimed
                &&& after.enabled == pool.enabled
                &&& after.dynamic_config == pool.dynamic_config
                &&& after.reward_per_token_stored.atomics >= pool.reward_per_token_stored.atomics
                &&& (!pool.enabled || total_weight == 0 || now <= pool.last_update)
                    ==> after.reward_per_token_stored == pool.reward_per_token_stored
                &&& after.last_update >= pool.last_update
                &&& after.last_update >= now
            },
            Err(_) => true,
        },
{
    match active_apr(pool, total_weight) {
        Some(apr) => {
            if pool.last_update < now && pool.enabled && total_weight != 0 {
                let elapsed = (now - pool.last_update) as u64;
                let part = elapsed * 1_000_000_000_000_000_000 / 31_536_000;
                assert(part >= 0);
                assert(apr.atomics * part >= 0) by (nonlinear_arith)
                    requires
                        apr.atomics >= 0,
                        part >= 0,
                ;
                assert(scaled(apr.atomics as int, part) >= 0);
            }
        },
        None => {},
    }
}

/// Bringing a pool up to date twice at the same time changes nothing the
/// second time.
pub proof fn lemma_update_idempotent(pool: RewardPool, total_weight: u128, now: u64)
    requires
        updated_pool(pool, total_weight, now) is Ok,
    ensures
        updated_pool(updated_pool(pool, total_weight, now).unwrap(), total_weight, now) == updated_pool(
            pool,
            total_weight,
            now,
        ),
{
    lemma_accumulator_monotonic(pool, total_weight, now);
}

/// Settling twice against the same pool, with nothing changed in between,
/// credits nothing the second time.
pub proof fn lemma_settlement_idempotent(stake: UserStake, pool: RewardPool, reward: UserReward)
    requires
        settled(stake, pool, reward) is Ok,
    ensures
        pending_for(stake, pool, settled(stake, pool, reward).unwrap()) == Ok::<
            u128,
            ContractError,
        >(0),
        settled(stake, pool, settled(stake, pool, reward).unwrap()) == settled(stake, pool, reward),
{
}

/// Settling a position against a pool twice at the same time, with nothing
/// changed in between, leaves the state of the first settlement as it is.
pub proof fn lemma_settlement_idempotent_in_state(
    s: StateView,
    now: u64,
    locker_id: u64,
    pool_id: u64,
)
    requires
        user_reward_updated(s, now, locker_id, pool_id) is Ok,
    ensures
        user_reward_updated(
            user_reward_updated(s, now, locker_id, pool_id).unwrap(),
            now,
            locker_id,
            pool_id,
        ) == user_reward_updated(s, now, locker_id, pool_id),
{
    let s1 = user_reward_updated(s, now, locker_id, pool_id).unwrap();
    lemma_first_match(s.pools, pool_hit(pool_id));
    let i = pool_slot(s.pools, pool_id).unwrap();
    let total_weight = crate::reward_controller::state::staked_weight(s.total_staked, s.pools[i].lp_token@);
    let pool = updated_pool(s.pools[i], total_weight, now).unwrap();
    lemma_accumulator_monotonic(s.pools[i], total_weight, now);
    lemma_update_idempotent(s.pools[i], total_weight, now);
    lemma_update_keeps_match(s.pools, i, pool, pool_hit(pool_id));
    assert(s1.pools == s.pools.update(i, pool));
    assert(s1.pools.update(i, pool) =~= s1.pools);
    assert(pool_updated(s1, now, pool_id) == Ok::<StateView, ContractError>(s1));
    match stake_slot(s.user_stakes, locker_id) {
        Some(k) => {
            let stake = s.user_stakes[k];
            let slot = reward_slot(s.user_rewards, locker_id, pool_id);
            let current = match slot {
                Some(j) => s.user_rewards[j],
                None => crate::reward_controller::settlement::fresh_reward(
                    locker_id,
                    pool_id,
                    pool,
                    now,
                ),
            };
            lemma_first_match(s.user_rewards, reward_hit(locker_id, pool_id));
            let reward = settled(stake, pool, current).unwrap();
            lemma_put_found(s.user_rewards, reward_hit(locker_id, pool_id), reward);
            lemma_settlement_idempotent(stake, pool, current);
            let j = match slot {
                Some(j) => j,
                None => s.user_rewards.len() as int,
            };
            assert(s1.user_rewards == put_at(s.user_rewards, slot, reward));
            assert(s1.user_rewards[j] == reward);
            assert(s1.user_rewards.update(j, reward) =~= s1.user_rewards);
        },
        None => {},
    }
}

/// The active rate under a dynamic configuration whose low threshold is not
/// above its high one: base plus adjustment below the low threshold, where
/// that sum is in range; the base from the low to the high threshold; and
/// base less adjustment, but not below zero, above the high threshold.
pub proof fn lemma_dynamic_rate_thresholds(config: DynamicAPRConfig, total_weight: u128)
    requires
        config.tvl_threshold_low <= config.tvl_threshold_high,
    ensures
        total_weight < config.tvl_threshold_low && config.base_apr.atomics
            + config.adjustment_factor.atomics <= u128::MAX ==> adjusted_apr(config, total_weight) == Some(
            Decimal {
                atomics: (config.base_apr.atomics + config.adjustment_factor.atomics) as u128,
            },
        ),
        config.tvl_threshold_low <= total_weight <= config.tvl_threshold_high ==> adjusted_apr(config, total_weight)
            == Some(config.base_apr),
        total_weight > config.tvl_threshold_high ==> adjusted_apr(config, total_weight) == Some(
            Decimal {
                atomics: if config.base_apr.atomics >= config.adjustment_factor.atomics {
                    (config.base_apr.atomics - config.adjustment_factor.atomics) as u128
                } else {
                    0
                },
            },
        ),
{
}

/// A payout is split without loss: commission and net amount add up to the
/// amount, the commission is the configured share rounded down, and nobody
/// but a referrer gets one.
pub proof fn lemma_commission_split(amount: u128, bps: u16, referred: bool)
    ensures
        match split_payout(amount, bps, referred) {
            Ok((commission, net)) => {
                &&& commission + net == amount
                &&& referred ==> commission == commission_of(amount, bps)
                &&& !referred ==> commission == 0
            },
            Err(_) => referred && bps > 10000,
        },
{
    if referred && commission_of(amount, bps) > amount {
        assert(bps > 10000) by (nonlinear_arith)
            requires
                amount * bps / 10000 > amount,
                amount >= 0,
                bps >= 0,
        ;
    }
}

/// An extension gives the position the multiplier of its whole duration,
/// from the start of the lock to its new end, whenever the extension comes.
pub proof fn lemma_extend_uses_whole_duration(
    s: StateView,
    now: u64,
    locker_id: u64,
    new_unlock_time: u64,
)
    requires
        on_extend(s, now, locker_id, new_unlock_time) is Ok,
    ensures
        stake_slot(s.user_stakes, locker_id) is Some,
        ({
            let k = stake_slot(s.user_stakes, locker_id).unwrap();
            let after = on_extend(s, now, locker_id, new_unlock_time).unwrap();
            &&& 0 <= k < after.user_stakes.len()
            &&& after.user_stakes[k].bonus_multiplier == bonus_multiplier(
                lock_duration(s.user_stakes[k].locked_at, new_unlock_time),
            )
            &&& after.user_stakes[k].lp_amount == s.user_stakes[k].lp_amount
            &&& after.user_stakes[k].locked_at == s.user_stakes[k].locked_at
        }),
{
    lemma_first_match(s.user_stakes, stake_hit(locker_id));
    let k = stake_slot(s.user_stakes, locker_id).unwrap();
    let stake = s.user_stakes[k];
    let ids = pools_for_lp(s.pools, stake.lp_token@);
    lemma_settled_all_keeps_stakes(s, now, locker_id, ids, 0);
}

/// What a position has accrued never shrinks by a settlement, and the
/// checkpoint ends at the pool's accumulator.
pub proof fn lemma_accrual_only_grows(stake: UserStake, pool: RewardPool, reward: UserReward)
    requires
        settled(stake, pool, reward) is Ok,
    ensures
        settled(stake, pool, reward).unwrap().rewards_accrued >= reward.rewards_accrued,
        settled(stake, pool, reward).unwrap().reward_per_token_paid
            == pool.reward_per_token_stored,
{
}

/// An extension touches no entitlement: the checkpoints and the pools are
/// those of a settlement under the old multiplier, so what was earned before
/// the extension is kept as it was.
pub proof fn lemma_extend_keeps_entitlement(
    s: StateView,
    now: u64,
    locker_id: u64,
    new_unlock_time: u64,
)
    requires
        on_extend(s, now, locker_id, new_unlock_time) is Ok,
    ensures
        stake_slot(s.user_stakes, locker_id) is Some,
        ({
            let k = stake_slot(s.user_stakes, locker_id).unwrap();
            let settled_state = settled_all(
                s,
                now,
                locker_id,
                pools_for_lp(s.pools, s.user_stakes[k].lp_token@),
                0,
            );
            let after = on_extend(s, now, locker_id, new_unlock_time).unwrap();
            &&& settled_state is Ok
            &&& after.user_rewards == settled_state.unwrap().user_rewards
            &&& after.pools == settled_state.unwrap().pools
        }),
{
    let k = stake_slot(s.user_stakes, locker_id).unwrap();
    lemma_settled_all(s, now, locker_id, pools_for_lp(s.pools, s.user_stakes[k].lp_token@), 0);
    lemma_settled_all_keeps_totals(
        s,
        now,
        locker_id,
        pools_for_lp(s.pools, s.user_stakes[k].lp_token@),
        0,
    );
}

proof fn lemma_settled_all_keeps_totals(
    s: StateView,
    now: u64,
    locker_id: u64,
    pool_ids: Seq<u64>,
    from: int,
)
    requires
        0 <= from,
    ensures
        match settled_all(s, now, locker_id, pool_ids, from) {
            Ok(after) => after.total_staked == s.total_staked,
            Err(_) => true,
        },
    decreases pool_ids.len() - from,
{
    if from < pool_ids.len() {
        match user_reward_updated(s, now, locker_id, pool_ids[from]) {
            Ok(next) => {
                lemma_settled_all_keeps_totals(next, now, locker_id, pool_ids, from + 1);
            },
            Err(_) => {},
        }
    }
}

/// A change of a pool's rate is not retroactive: the time up to the change
/// is credited at the rate that was in effect, and the change itself moves no
/// accumulator.
pub proof fn lemma_rate_change_is_not_retroactive(
    s: StateView,
    now: u64,
    sender: String,
    pool_id: u64,
    apr: Option<Decimal>,
    dynamic_config: Option<Option<DynamicAPRConfig>>,
    enabled: Option<bool>,
)
    requires
        reward_pool_updated(s, now, sender, pool_id, apr, dynamic_config, enabled) is Ok,
    ensures
        pool_slot(s.pools, pool_id) is Some,
        ({
            let i = pool_slot(s.pools, pool_id).unwrap();
            let after = reward_pool_updated(
                s,
                now,
                sender,
                pool_id,
                apr,
                dynamic_config,
                enabled,
            ).unwrap().0;
            let credited = updated_pool(
                s.pools[i],
                crate::reward_controller::state::staked_weight(
                    s.total_staked,
                    s.pools[i].lp_token@,
                ),
                now,
            );
            &&& 0 <= i < after.pools.len()
            &&& credited is Ok
            &&& after.pools[i].reward_per_token_stored == credited.unwrap().reward_per_token_stored
            &&& after.pools[i].last_update == credited.unwrap().last_update
            &&& after.user_rewards == s.user_rewards
        }),
{
    lemma_first_match(s.pools, pool_hit(pool_id));
}

/// A closed lock leaves nothing behind: its position and all of its
/// checkpoints are gone.
pub proof fn lemma_unlock_removes_position(s: StateView, now: u64, locker_id: u64)
    requires
        on_unlock(s, now, locker_id) is Ok,
    ensures
        ({
            let after = on_unlock(s, now, locker_id).unwrap().0;
            &&& stake_slot(after.user_stakes, locker_id) is None
            &&& forall|pool_id: u64| reward_slot(after.user_rewards, locker_id, pool_id) is None
        }),
{
    lemma_first_match(s.user_stakes, stake_hit(locker_id));
    let k = stake_slot(s.user_stakes, locker_id).unwrap();
    let stake = s.user_stakes[k];
    let closed = close_pools(
        CloseProgress { state: s, messages: Seq::empty() },
        now,
        stake,
        referrer_of(s.referrals, stake.user@),
        pools_for_lp(s.pools, stake.lp_token@),
        0,
    ).unwrap();
    let after = on_unlock(s, now, locker_id).unwrap().0;
    lemma_without_clears(closed.state.user_stakes, stake_hit(locker_id));
    lemma_first_match_none(after.user_stakes, stake_hit(locker_id));
    lemma_without_clears(closed.state.user_rewards, locker_hit(locker_id));
    assert forall|pool_id: u64| reward_slot(after.user_rewards, locker_id, pool_id) is None by {
        assert forall|j: int| 0 <= j < after.user_rewards.len() implies !reward_hit(
            locker_id,
            pool_id,
        )(#[trigger] after.user_rewards[j]) by {
            assert(!locker_hit(locker_id)(after.user_rewards[j]));
        }
        lemma_first_match_none(after.user_rewards, reward_hit(locker_id, pool_id));
    }
}

proof fn lemma_settled_all_keeps_stakes(
    s: StateView,
    now: u64,
    locker_id: u64,
    pool_ids: Seq<u64>,
    from: int,
)
    requires
        0 <= from,
    ensures
        match settled_all(s, now, locker_id, pool_ids, from) {
            Ok(after) => after.user_stakes == s.user_stakes,
            Err(_) => true,
        },
    decreases pool_ids.len() - from,
{
    if from < pool_ids.len() {
        match user_reward_updated(s, now, locker_id, pool_ids[from]) {
            Ok(next) => {
                lemma_settled_all_keeps_stakes(next, now, locker_id, pool_ids, from + 1);
            },
            Err(_) => {},
        }
    }
}

proof fn lemma_follows_transitive(a: StateView, b: StateView, c: StateView)
    requires
        follows(a, b),
        follows(b, c),
    ensures
        follows(a, c),
{
    assert forall|i: int| 0 <= i < a.pools.len() implies pool_follows(
        a.pools[i],
        #[trigger] c.pools[i],
    ) by {
        assert(pool_follows(a.pools[i], b.pools[i]));
        assert(pool_follows(b.pools[i], c.pools[i]));
    }
}

proof fn lemma_steady_transitive(a: StateView, b: StateView, c: StateView)
    requires
        calm(a, b),
        calm(b, c),
    ensures
        calm(a, c),
{
    lemma_follows_transitive(a, b, c);
    assert forall|i: int| 0 <= i < a.pools.len() && i < c.pools.len() implies (
    #[trigger] c.pools[i]).total_deposited == a.pools[i].total_deposited
        && c.pools[i].total_claimed >= a.pools[i].total_claimed by {
        assert(b.pools[i].total_deposited == a.pools[i].total_deposited);
    }
}

proof fn lemma_pool_updated(s: StateView, now: u64, pool_id: u64)
    ensures
        match pool_updated(s, now, pool_id) {
            Ok(after) => calm(s, after) && after.pools.len() == s.pools.len(),
            Err(_) => true,
        },
{
    lemma_first_match(s.pools, pool_hit(pool_id));
    match pool_slot(s.pools, pool_id) {
        Some(i) => {
            let total_weight = crate::reward_controller::state::staked_weight(
                s.total_staked,
                s.pools[i].lp_token@,
            );
            lemma_accumulator_monotonic(s.pools[i], total_weight, now);
            match pool_updated(s, now, pool_id) {
                Ok(after) => {
                    assert forall|k: int| 0 <= k < s.pools.len() implies pool_follows(
                        s.pools[k],
                        #[trigger] after.pools[k],
                    ) by {}
                    if pools_solvent(s) {
                        assert forall|k: int| 0 <= k < after.pools.len() implies (
                        #[trigger] after.pools[k]).solvent() by {
                            assert(s.pools[k].solvent());
                        }
                    }
                },
                Err(_) => {},
            }
        },
        None => {},
    }
}

proof fn lemma_user_reward_updated(s: StateView, now: u64, locker_id: u64, pool_id: u64)
    ensures
        match user_reward_updated(s, now, locker_id, pool_id) {
            Ok(after) => calm(s, after) && after.pools.len() == s.pools.len(),
            Err(_) => true,
        },
{
    lemma_pool_updated(s, now, pool_id);
}

proof fn lemma_paid_out(
    s: StateView,
    now: u64,
    recipient: String,
    referrer: Option<String>,
    i: int,
    j: int,
)
    requires
        0 <= i < s.pools.len(),
    ensures
        match paid_out(s, now, recipient, referrer, i, j) {
            Ok((after, _, _)) => calm(s, after) && after.pools.len() == s.pools.len(),
            Err(_) => true,
        },
{
    match paid_out(s, now, recipient, referrer, i, j) {
        Ok((after, _, _)) => {
            assert forall|k: int| 0 <= k < s.pools.len() implies pool_follows(
                s.pools[k],
                #[trigger] after.pools[k],
            ) by {}
            if pools_solvent(s) {
                assert forall|k: int| 0 <= k < after.pools.len() implies (
                #[trigger] after.pools[k]).solvent() by {
                    assert(s.pools[k].solvent());
                }
            }
        },
        Err(_) => {},
    }
}

proof fn lemma_claim_pool(
    p: ClaimProgress,
    now: u64,
    sender: String,
    referrer: Option<String>,
    locker_id: u64,
    pool_id: u64,
)
    ensures
        match claim_pool(p, now, sender, referrer, locker_id, pool_id) {
            Ok(after) => calm(p.state, after.state),
            Err(_) => true,
        },
{
    lemma_user_reward_updated(p.state, now, locker_id, pool_id);
    match user_reward_updated(p.state, now, locker_id, pool_id) {
        Ok(s) => {
            lemma_first_match(s.pools, pool_hit(pool_id));
            match (reward_slot(s.user_rewards, locker_id, pool_id), pool_slot(s.pools, pool_id)) {
                (Some(j), Some(i)) => {
                    lemma_paid_out(s, now, sender, referrer, i, j);
                    match paid_out(s, now, sender, referrer, i, j) {
                        Ok((after, _, _)) => {
                            lemma_steady_transitive(p.state, s, after);
                        },
                        Err(_) => {},
                    }
                },
                _ => {},
            }
        },
        Err(_) => {},
    }
}

proof fn lemma_claim_pools(
    p: ClaimProgress,
    now: u64,
    sender: String,
    referrer: Option<String>,
    locker_id: u64,
    pool_ids: Seq<u64>,
    from: int,
)
    requires
        0 <= from,
    ensures
        match claim_pools(p, now, sender, referrer, locker_id, pool_ids, from) {
            Ok(after) => calm(p.state, after.state),
            Err(_) => true,
        },
    decreases pool_ids.len() - from,
{
    if from < pool_ids.len() {
        lemma_claim_pool(p, now, sender, referrer, locker_id, pool_ids[from]);
        match claim_pool(p, now, sender, referrer, locker_id, pool_ids[from]) {
            Ok(next) => {
                lemma_claim_pools(next, now, sender, referrer, locker_id, pool_ids, from + 1);
                match claim_pools(next, now, sender, referrer, locker_id, pool_ids, from + 1) {
                    Ok(after) => {
                        lemma_steady_transitive(p.state, next.state, after.state);
                    },
                    Err(_) => {},
                }
            },
            Err(_) => {},
        }
    }
}

proof fn lemma_rewards_claimed(
    s: StateView,
    now: u64,
    sender: String,
    locker_id: u64,
    pool_ids: Seq<u64>,
)
    ensures
        match rewards_claimed(s, now, sender, locker_id, pool_ids) {
            Ok((after, _)) => calm(s, after),
            Err(_) => true,
        },
{
    lemma_claim_pools(
        ClaimProgress { state: s, messages: Seq::empty(), total_claimed: 0 },
        now,
        sender,
        referrer_of(s.referrals, sender@),
        locker_id,
        pool_ids,
        0,
    );
}

proof fn lemma_batch_claimed(
    s: StateView,
    now: u64,
    sender: String,
    locker_ids: Seq<u64>,
    pool_ids: Seq<u64>,
    from: int,
    response: ResponseView,
)
    requires
        0 <= from,
    ensures
        match batch_claimed(s, now, sender, locker_ids, pool_ids, from, response) {
            Ok((after, _)) => calm(s, after),
            Err(_) => true,
        },
    decreases locker_ids.len() - from,
{
    if from < locker_ids.len() {
        lemma_rewards_claimed(s, now, sender, locker_ids[from], pool_ids);
        match rewards_claimed(s, now, sender, locker_ids[from], pool_ids) {
            Ok((next, part)) => {
                let joined = ResponseView {
                    messages: response.messages + part.messages,
                    attributes: response.attributes + part.attributes,
                };
                lemma_batch_claimed(next, now, sender, locker_ids, pool_ids, from + 1, joined);
                match batch_claimed(next, now, sender, locker_ids, pool_ids, from + 1, joined) {
                    Ok((after, _)) => {
                        lemma_steady_transitive(s, next, after);
                    },
                    Err(_) => {},
                }
            },
            Err(_) => {},
        }
    }
}

proof fn lemma_checkpoints_opened(
    s: StateView,
    now: u64,
    locker_id: u64,
    pool_ids: Seq<u64>,
    from: int,
)
    requires
        0 <= from,
    ensures
        match checkpoints_opened(s, now, locker_id, pool_ids, from) {
            Ok(after) => calm(s, after),
            Err(_) => true,
        },
    decreases pool_ids.len() - from,
{
    if from < pool_ids.len() {
        lemma_pool_updated(s, now, pool_ids[from]);
        match checkpoint_opened(s, now, locker_id, pool_ids[from]) {
            Ok(next) => {
                lemma_checkpoints_opened(next, now, locker_id, pool_ids, from + 1);
                match checkpoints_opened(next, now, locker_id, pool_ids, from + 1) {
                    Ok(after) => {
                        lemma_steady_transitive(s, next, after);
                    },
                    Err(_) => {},
                }
            },
            Err(_) => {},
        }
    }
}

proof fn lemma_settled_all(s: StateView, now: u64, locker_id: u64, pool_ids: Seq<u64>, from: int)
    requires
        0 <= from,
    ensures
        match settled_all(s, now, locker_id, pool_ids, from) {
            Ok(after) => calm(s, after),
            Err(_) => true,
        },
    decreases pool_ids.len() - from,
{
    if from < pool_ids.len() {
        lemma_user_reward_updated(s, now, locker_id, pool_ids[from]);
        match user_reward_updated(s, now, locker_id, pool_ids[from]) {
            Ok(next) => {
                lemma_settled_all(next, now, locker_id, pool_ids, from + 1);
                match settled_all(next, now, locker_id, pool_ids, from + 1) {
                    Ok(after) => {
                        lemma_steady_transitive(s, next, after);
                    },
                    Err(_) => {},
                }
            },
            Err(_) => {},
        }
    }
}

proof fn lemma_close_pool(
    p: CloseProgress,
    now: u64,
    stake: UserStake,
    referrer: Option<String>,
    pool_id: u64,
)
    ensures
        match close_pool(p, now, stake, referrer, pool_id) {
            Ok(after) => calm(p.state, after.state),
            Err(_) => true,
        },
{
    lemma_user_reward_updated(p.state, now, stake.locker_id, pool_id);
    match user_reward_updated(p.state, now, stake.locker_id, pool_id) {
        Ok(s) => {
            lemma_first_match(s.pools, pool_hit(pool_id));
            match (
                reward_slot(s.user_rewards, stake.locker_id, pool_id),
                pool_slot(s.pools, pool_id),
            ) {
                (Some(j), Some(i)) => {
                    lemma_paid_out(s, now, stake.user, referrer, i, j);
                    match paid_out(s, now, stake.user, referrer, i, j) {
                        Ok((after, _, _)) => {
                            lemma_steady_transitive(p.state, s, after);
                        },
                        Err(_) => {},
                    }
                },
                _ => {},
            }
        },
        Err(_) => {},
    }
}

proof fn lemma_close_pools(
    p: CloseProgress,
    now: u64,
    stake: UserStake,
    referrer: Option<String>,
    pool_ids: Seq<u64>,
    from: int,
)
    requires
        0 <= from,
    ensures
        match close_pools(p, now, stake, referrer, pool_ids, from) {
            Ok(after) => calm(p.state, after.state),
            Err(_) => true,
        },
    decreases pool_ids.len() - from,
{
    if from < pool_ids.len() {
        lemma_close_pool(p, now, stake, referrer, pool_ids[from]);
        match close_pool(p, now, stake, referrer, pool_ids[from]) {
            Ok(next) => {
                lemma_close_pools(next, now, stake, referrer, pool_ids, from + 1);
                match close_pools(next, now, stake, referrer, pool_ids, from + 1) {
                    Ok(after) => {
                        lemma_steady_transitive(p.state, next.state, after.state);
                    },
                    Err(_) => {},
                }
            },
            Err(_) => {},
        }
    }
}

proof fn lemma_locker_hook(s: StateView, now: u64, sender: String, msg: LockerHookMsg)
    ensures
        match locker_hook_handled(s, now, sender, msg) {
            Ok((after, _)) => calm(s, after),
            Err(_) => true,
        },
{
    match msg {
        LockerHookMsg::OnLock { locker_id, owner, lp_token, amount, locked_at, unlock_time } => {
            let stake = UserStake {
                user: owner,
                locker_id,
                lp_token,
                lp_amount: amount,
                locked_at,
                bonus_multiplier: bonus_multiplier(lock_duration(locked_at, unlock_time)),
            };
            match crate::reward_controller::hooks::lock_begun(s, stake) {
                Ok(s1) => {
                    assert(calm(s, s1));
                    lemma_checkpoints_opened(
                        s1,
                        now,
                        locker_id,
                        pools_for_lp(s1.pools, lp_token@),
                        0,
                    );
                    match checkpoints_opened(
                        s1,
                        now,
                        locker_id,
                        pools_for_lp(s1.pools, lp_token@),
                        0,
                    ) {
                        Ok(s2) => {
                            lemma_steady_transitive(s, s1, s2);
                        },
                        Err(_) => {},
                    }
                },
                Err(_) => {},
            }
        },
        LockerHookMsg::OnExtend { locker_id, new_unlock_time } => {
            match stake_slot(s.user_stakes, locker_id) {
                Some(k) => {
                    lemma_settled_all(
                        s,
                        now,
                        locker_id,
                        pools_for_lp(s.pools, s.user_stakes[k].lp_token@),
                        0,
                    );
                },
                None => {},
            }
        },
        LockerHookMsg::OnUnlock { locker_id, owner } => {
            match stake_slot(s.user_stakes, locker_id) {
                Some(k) => {
                    let stake = s.user_stakes[k];
                    lemma_close_pools(
                        CloseProgress { state: s, messages: Seq::empty() },
                        now,
                        stake,
                        referrer_of(s.referrals, stake.user@),
                        pools_for_lp(s.pools, stake.lp_token@),
                        0,
                    );
                },
                None => {},
            }
        },
    }
}

proof fn lemma_rewards_deposited(s: StateView, depositor: String, pool_id: u64, amount: u128)
    ensures
        match rewards_deposited(s, depositor, pool_id, amount) {
            Ok((after, _)) => steady(s, after),
            Err(_) => true,
        },
{
    lemma_first_match(s.pools, pool_hit(pool_id));
    match rewards_deposited(s, depositor, pool_id, amount) {
        Ok((after, _)) => {
            if pools_solvent(s) {
                assert forall|k: int| 0 <= k < after.pools.len() implies (
                #[trigger] after.pools[k]).solvent() by {
                    assert(s.pools[k].solvent());
                }
            }
        },
        Err(_) => {},
    }
}

/// A new controller is well formed.
pub proof fn lemma_initial_state_well_formed(msg: InstantiateMsg)
    ensures
        well_formed(initial_state(msg)),
{
}

/// A state that is steady after a well-formed one is well formed.
proof fn lemma_steady_keeps_well_formed(before: StateView, after: StateView)
    requires
        well_formed(before),
        steady(before, after),
    ensures
        well_formed(after),
{
    assert forall|i: int| 0 <= i < after.pools.len() implies (#[trigger] after.pools[i]).pool_id
        == i by {
        assert(before.pools[i].pool_id == i);
    }
}

/// Whatever call is carried out on a well-formed state leaves it well
/// formed.
pub proof fn lemma_execute_keeps_well_formed(
    s: StateView,
    env: Env,
    info: MessageInfo,
    msg: ExecuteMsg,
)
    requires
        well_formed(s),
    ensures
        match executed(s, env, info, msg) {
            Ok((after, _)) => well_formed(after),
            Err(_) => true,
        },
{
    lemma_execute_keeps_pools_sound(s, env, info, msg);
    match executed(s, env, info, msg) {
        Ok((after, _)) => {
            match msg {
                ExecuteMsg::Receive(wrapper) => {
                    match wrapper.msg {
                        Cw20HookMsg::DepositRewards { pool_id } => {
                            lemma_rewards_deposited(s, wrapper.sender, pool_id, wrapper.amount);
                            lemma_steady_keeps_well_formed(s, after);
                        },
                    }
                },
                ExecuteMsg::LockerHook(hook) => {
                    lemma_locker_hook(s, env.block_time, info.sender, hook);
                    lemma_steady_keeps_well_formed(s, after);
                },
                ExecuteMsg::ClaimRewards { locker_id, pool_ids } => {
                    lemma_rewards_claimed(s, env.block_time, info.sender, locker_id, pool_ids@);
                    lemma_steady_keeps_well_formed(s, after);
                },
                ExecuteMsg::BatchClaimRewards { locker_ids, pool_ids } => {
                    lemma_batch_claimed(
                        s,
                        env.block_time,
                        info.sender,
                        locker_ids@,
                        pool_ids@,
                        0,
                        ResponseView {
                            messages: Seq::empty(),
                            attributes: seq![("action"@, "batch_claim_rewards"@)],
                        },
                    );
                    lemma_steady_keeps_well_formed(s, after);
                },
                ExecuteMsg::RegisterReferral { referrer } => {
                    lemma_first_match(s.referrals, referral_hit(info.sender@));
                    let n = s.referrals.len() as int;
                    assert forall|i: int, j: int| 0 <= i < j < after.referrals.len() implies (
                    #[trigger] after.referrals[i]).referee@ != (
                    #[trigger] after.referrals[j]).referee@ by {
                        if j == n {
                            assert(!referral_hit(info.sender@)(s.referrals[i]));
                        } else {
                            assert(s.referrals[i].referee@ != s.referrals[j].referee@);
                        }
                    }
                    assert forall|i: int| 0 <= i < after.referrals.len() implies (
                    #[trigger] after.referrals[i]).referee@ != after.referrals[i].referrer@ by {
                        if i < n {
                            assert(s.referrals[i].referee@ != s.referrals[i].referrer@);
                        }
                    }
                },
                ExecuteMsg::ClaimReferralRewards {  } => {},
                ExecuteMsg::CreateRewardPool { lp_token, reward_token, apr, dynamic_config } => {
                    assert forall|i: int| 0 <= i < after.pools.len() implies (
                    #[trigger] after.pools[i]).pool_id == i by {
                        if i < s.pools.len() {
                            assert(s.pools[i].pool_id == i);
                        }
                    }
                },
                ExecuteMsg::UpdateRewardPool { pool_id, apr, dynamic_config, enabled } => {
                    lemma_first_match(s.pools, pool_hit(pool_id));
                    lemma_pool_updated(s, env.block_time, pool_id);
                    assert forall|i: int| 0 <= i < after.pools.len() implies (
                    #[trigger] after.pools[i]).pool_id == i by {
                        assert(s.pools[i].pool_id == i);
                    }
                },
                ExecuteMsg::DepositRewards { pool_id } => {
                    lemma_rewards_deposited(
                        s,
                        info.sender,
                        pool_id,
                        crate::reward_controller::admin::first_fund(info),
                    );
                    lemma_steady_keeps_well_formed(s, after);
                },
                ExecuteMsg::WithdrawRewards { pool_id, amount } => {
                    lemma_first_match(s.pools, pool_hit(pool_id));
                    assert forall|i: int| 0 <= i < after.pools.len() implies (
                    #[trigger] after.pools[i]).pool_id == i by {
                        assert(s.pools[i].pool_id == i);
                    }
                },
                ExecuteMsg::UpdateConfig {
                    admin,
                    lp_locker_contract,
                    claim_interval,
                    referral_commission_bps,
                    batch_limit,
                } => {},
                ExecuteMsg::Pause {  } => {},
                ExecuteMsg::Resume {  } => {},
            }
        },
        Err(_) => {},
    }
}

/// On a well-formed state no payout fails over its commission: the split
/// of any amount exists.
pub proof fn lemma_well_formed_splits(s: StateView, amount: u128, referred: bool)
    requires
        well_formed(s),
    ensures
        split_payout(amount, s.config.referral_commission_bps, referred) is Ok,
{
    lemma_commission_split(amount, s.config.referral_commission_bps, referred);
}

/// A referral, once registered, stays as it is whatever call is carried
/// out.
pub proof fn lemma_referral_is_permanent(
    s: StateView,
    env: Env,
    info: MessageInfo,
    msg: ExecuteMsg,
    referee: Seq<char>,
)
    requires
        referrer_of(s.referrals, referee) is Some,
    ensures
        match executed(s, env, info, msg) {
            Ok((after, _)) => referrer_of(after.referrals, referee) == referrer_of(
                s.referrals,
                referee,
            ),
            Err(_) => true,
        },
{
    match executed(s, env, info, msg) {
        Ok((after, _)) => {
            match msg {
                ExecuteMsg::Receive(wrapper) => {
                    match wrapper.msg {
                        Cw20HookMsg::DepositRewards { pool_id } => {
                            lemma_rewards_deposited(s, wrapper.sender, pool_id, wrapper.amount);
                        },
                    }
                },
                ExecuteMsg::LockerHook(hook) => {
                    lemma_locker_hook(s, env.block_time, info.sender, hook);
                },
                ExecuteMsg::ClaimRewards { locker_id, pool_ids } => {
                    lemma_rewards_claimed(s, env.block_time, info.sender, locker_id, pool_ids@);
                },
                ExecuteMsg::BatchClaimRewards { locker_ids, pool_ids } => {
                    lemma_batch_claimed(
                        s,
                        env.block_time,
                        info.sender,
                        locker_ids@,
                        pool_ids@,
                        0,
                        ResponseView {
                            messages: Seq::empty(),
                            attributes: seq![("action"@, "batch_claim_rewards"@)],
                        },
                    );
                },
                ExecuteMsg::RegisterReferral { referrer } => {
                    lemma_first_match(s.referrals, referral_hit(referee));
                    let k = referral_slot(s.referrals, referee).unwrap();
                    assert forall|j: int| 0 <= j < k implies !referral_hit(referee)(
                        #[trigger] after.referrals[j],
                    ) by {
                        assert(after.referrals[j] == s.referrals[j]);
                    }
                    assert(after.referrals[k] == s.referrals[k]);
                    crate::table::lemma_first_match_is(after.referrals, referral_hit(referee), k);
                },
                ExecuteMsg::DepositRewards { pool_id } => {
                    lemma_rewards_deposited(
                        s,
                        info.sender,
                        pool_id,
                        crate::reward_controller::admin::first_fund(info),
                    );
                },
                _ => {},
            }
        },
        Err(_) => {},
    }
}

/// A claim, a batch of claims and a notification of the lock registry
/// leave the funding of every pool as it was and lower no claimed total; a
/// pool that had not paid more than it was funded with still has not,
/// whatever holds of the other pools.
pub proof fn lemma_claims_and_hooks_keep_funding(
    s: StateView,
    env: Env,
    info: MessageInfo,
    msg: ExecuteMsg,
)
    requires
        msg is ClaimRewards || msg is BatchClaimRewards || msg is LockerHook,
    ensures
        match executed(s, env, info, msg) {
            Ok((after, _)) => calm(s, after),
            Err(_) => true,
        },
{
    match msg {
        ExecuteMsg::LockerHook(hook) => {
            lemma_locker_hook(s, env.block_time, info.sender, hook);
        },
        ExecuteMsg::ClaimRewards { locker_id, pool_ids } => {
            lemma_rewards_claimed(s, env.block_time, info.sender, locker_id, pool_ids@);
        },
        ExecuteMsg::BatchClaimRewards { locker_ids, pool_ids } => {
            lemma_batch_claimed(
                s,
                env.block_time,
                info.sender,
                locker_ids@,
                pool_ids@,
                0,
                ResponseView {
                    messages: Seq::empty(),
                    attributes: seq![("action"@, "batch_claim_rewards"@)],
                },
            );
        },
        _ => {},
    }
}

/// What one payout does to the books: the checkpoint is emptied and
/// stamped, the pool's claimed total rises by the accrued amount and stays
/// within the funding, the funding stays, the transfer pays the owner the net
/// amount, the referrer is credited the rest, and net amount and credit add
/// up to what was accrued.
pub proof fn lemma_payout_accounts(
    s: StateView,
    now: u64,
    recipient: String,
    referrer: Option<String>,
    i: int,
    j: int,
)
    requires
        0 <= i < s.pools.len(),
        0 <= j < s.user_rewards.len(),
        paid_out(s, now, recipient, referrer, i, j) is Ok,
    ensures
        ({
            let (after, msg, net) = paid_out(s, now, recipient, referrer, i, j).unwrap();
            let amount = s.user_rewards[j].rewards_accrued;
            let commission = amount - net;
            &&& 0 <= commission <= amount
            &&& referrer is None ==> commission == 0
            &&& after.user_rewards[j].rewards_accrued == 0
            &&& after.user_rewards[j].last_claim_time == now
            &&& after.pools[i].total_claimed == s.pools[i].total_claimed + amount
            &&& after.pools[i].total_deposited == s.pools[i].total_deposited
            &&& amount > 0 ==> after.pools[i].total_claimed <= after.pools[i].total_deposited
            &&& msg == crate::host::transfer_of(s.pools[i].reward_token, recipient, net)
            &&& after.referrer_balances == if commission > 0 {
                crate::reward_controller::claim::credited(
                    s.referrer_balances,
                    referrer.unwrap(),
                    s.pools[i].reward_token,
                    commission as u128,
                ).unwrap()
            } else {
                s.referrer_balances
            }
            &&& forall|k: int|
                0 <= k < s.pools.len() && k != i ==> #[trigger] after.pools[k] == s.pools[k]
        }),
{
    lemma_commission_split(
        s.user_rewards[j].rewards_accrued,
        s.config.referral_commission_bps,
        referrer is Some,
    );
}

/// The position `locker_id` is settled with the pool `pool_id` as of `now`
/// and has nothing accrued in it.
pub open spec fn emptied(s: StateView, now: u64, locker_id: u64, pool_id: u64) -> bool {
    match (pool_slot(s.pools, pool_id), reward_slot(s.user_rewards, locker_id, pool_id)) {
        (Some(i), Some(j)) => {
            &&& 0 <= i < s.pools.len()
            &&& 0 <= j < s.user_rewards.len()
            &&& s.pools[i].last_update >= now
            &&& s.user_rewards[j].rewards_accrued == 0
            &&& s.user_rewards[j].reward_per_token_paid == s.pools[i].reward_per_token_stored
        },
        _ => false,
    }
}

proof fn lemma_claim_pool_empties(
    p: ClaimProgress,
    now: u64,
    sender: String,
    referrer: Option<String>,
    locker_id: u64,
    pool_id: u64,
)
    requires
        stake_slot(p.state.user_stakes, locker_id) is Some,
    ensures
        match claim_pool(p, now, sender, referrer, locker_id, pool_id) {
            Ok(next) => emptied(next.state, now, locker_id, pool_id) && next.state.user_stakes
                == p.state.user_stakes,
            Err(_) => true,
        },
{
    let s0 = p.state;
    match claim_pool(p, now, sender, referrer, locker_id, pool_id) {
        Ok(next) => {
            lemma_first_match(s0.pools, pool_hit(pool_id));
            lemma_first_match(s0.user_rewards, reward_hit(locker_id, pool_id));
            let i = pool_slot(s0.pools, pool_id).unwrap();
            let k = stake_slot(s0.user_stakes, locker_id).unwrap();
            let total_weight = crate::reward_controller::state::staked_weight(
                s0.total_staked,
                s0.pools[i].lp_token@,
            );
            let pool = updated_pool(s0.pools[i], total_weight, now).unwrap();
            lemma_accumulator_monotonic(s0.pools[i], total_weight, now);
            lemma_update_keeps_match(s0.pools, i, pool, pool_hit(pool_id));
            let slot = reward_slot(s0.user_rewards, locker_id, pool_id);
            let current = match slot {
                Some(j) => s0.user_rewards[j],
                None => crate::reward_controller::settlement::fresh_reward(
                    locker_id,
                    pool_id,
                    pool,
                    now,
                ),
            };
            let reward = settled(s0.user_stakes[k], pool, current).unwrap();
            lemma_put_found(s0.user_rewards, reward_hit(locker_id, pool_id), reward);
            let s = user_reward_updated(s0, now, locker_id, pool_id).unwrap();
            let j = reward_slot(s.user_rewards, locker_id, pool_id).unwrap();
            assert(s.user_rewards[j] == reward);
            assert(s.pools[i] == pool);
            if reward.rewards_accrued != 0 {
                let paid = UserReward { rewards_accrued: 0, last_claim_time: now, ..reward };
                let charged = RewardPool {
                    total_claimed: (pool.total_claimed + reward.rewards_accrued) as u128,
                    ..pool
                };
                lemma_update_keeps_match(s.user_rewards, j, paid, reward_hit(locker_id, pool_id));
                lemma_update_keeps_match(s.pools, i, charged, pool_hit(pool_id));
                assert(next.state.user_rewards == s.user_rewards.update(j, paid));
                assert(next.state.pools == s.pools.update(i, charged));
            }
        },
        Err(_) => {},
    }
}

proof fn lemma_claim_pool_keeps_emptied(
    p: ClaimProgress,
    now: u64,
    sender: String,
    referrer: Option<String>,
    locker_id: u64,
    pool_id: u64,
    other: u64,
)
    requires
        stake_slot(p.state.user_stakes, locker_id) is Some,
        emptied(p.state, now, locker_id, other),
    ensures
        match claim_pool(p, now, sender, referrer, locker_id, pool_id) {
            Ok(next) => emptied(next.state, now, locker_id, other),
            Err(_) => true,
        },
{
    if pool_id == other {
        lemma_claim_pool_empties(p, now, sender, referrer, locker_id, pool_id);
    } else {
        let s0 = p.state;
        match claim_pool(p, now, sender, referrer, locker_id, pool_id) {
            Ok(next) => {
                lemma_first_match(s0.pools, pool_hit(pool_id));
                lemma_first_match(s0.pools, pool_hit(other));
                lemma_first_match(s0.user_rewards, reward_hit(locker_id, pool_id));
                lemma_first_match(s0.user_rewards, reward_hit(locker_id, other));
                let i = pool_slot(s0.pools, pool_id).unwrap();
                let i0 = pool_slot(s0.pools, other).unwrap();
                let j0 = reward_slot(s0.user_rewards, locker_id, other).unwrap();
                let k = stake_slot(s0.user_stakes, locker_id).unwrap();
                let total_weight = crate::reward_controller::state::staked_weight(
                    s0.total_staked,
                    s0.pools[i].lp_token@,
                );
                let pool = updated_pool(s0.pools[i], total_weight, now).unwrap();
                lemma_accumulator_monotonic(s0.pools[i], total_weight, now);
                lemma_update_keeps_match(s0.pools, i, pool, pool_hit(pool_id));
                lemma_update_keeps_match(s0.pools, i, pool, pool_hit(other));
                let slot = reward_slot(s0.user_rewards, locker_id, pool_id);
                let current = match slot {
                    Some(j) => s0.user_rewards[j],
                    None => crate::reward_controller::settlement::fresh_reward(
                        locker_id,
                        pool_id,
                        pool,
                        now,
                    ),
                };
                let reward = settled(s0.user_stakes[k], pool, current).unwrap();
                lemma_put_found(s0.user_rewards, reward_hit(locker_id, pool_id), reward);
                crate::table::lemma_put_keeps_others(
                    s0.user_rewards,
                    reward_hit(locker_id, pool_id),
                    reward,
                    reward_hit(locker_id, other),
                );
                let s = user_reward_updated(s0, now, locker_id, pool_id).unwrap();
                let j = reward_slot(s.user_rewards, locker_id, pool_id).unwrap();
                assert(s.user_rewards[j] == reward);
                assert(s.pools[i] == pool);
                assert(s.pools[i0] == s0.pools[i0]);
                assert(s.user_rewards[j0] == s0.user_rewards[j0]);
                assert(emptied(s, now, locker_id, other));
                if reward.rewards_accrued != 0 {
                    let paid = UserReward { rewards_accrued: 0, last_claim_time: now, ..reward };
                    let charged = RewardPool {
                        total_claimed: (pool.total_claimed + reward.rewards_accrued) as u128,
                        ..pool
                    };
                    lemma_update_keeps_match(
                        s.user_rewards,
                        j,
                        paid,
                        reward_hit(locker_id, other),
                    );
                    lemma_update_keeps_match(s.pools, i, charged, pool_hit(other));
                    assert(next.state.user_rewards == s.user_rewards.update(j, paid));
                    assert(next.state.pools == s.pools.update(i, charged));
                    assert(next.state.pools[i0] == s.pools[i0]);
                    assert(next.state.user_rewards[j0] == s.user_rewards[j0]);
                }
            },
            Err(_) => {},
        }
    }
}

proof fn lemma_claim_pools_empty(
    p: ClaimProgress,
    now: u64,
    sender: String,
    referrer: Option<String>,
    locker_id: u64,
    pool_ids: Seq<u64>,
    from: int,
    n: int,
)
    requires
        0 <= from,
        0 <= n < pool_ids.len(),
        stake_slot(p.state.user_stakes, locker_id) is Some,
        n < from ==> emptied(p.state, now, locker_id, pool_ids[n]),
    ensures
        match claim_pools(p, now, sender, referrer, locker_id, pool_ids, from) {
            Ok(after) => emptied(after.state, now, locker_id, pool_ids[n]),
            Err(_) => true,
        },
    decreases pool_ids.len() - from,
{
    if from < pool_ids.len() {
        lemma_claim_pool_empties(p, now, sender, referrer, locker_id, pool_ids[from]);
        if n < from {
            lemma_claim_pool_keeps_emptied(
                p,
                now,
                sender,
                referrer,
                locker_id,
                pool_ids[from],
                pool_ids[n],
            );
        }
        match claim_pool(p, now, sender, referrer, locker_id, pool_ids[from]) {
            Ok(next) => {
                lemma_claim_pools_empty(
                    next,
                    now,
                    sender,
                    referrer,
                    locker_id,
                    pool_ids,
                    from + 1,
                    n,
                );
            },
            Err(_) => {},
        }
    }
}

/// A claim that succeeds leaves nothing accrued in any of the pools it
/// named: in each of them the position is settled as of the time of the claim
/// and its checkpoint is empty, however many pools were named and however
/// often.
pub proof fn lemma_claim_empties_checkpoints(
    s: StateView,
    now: u64,
    sender: String,
    locker_id: u64,
    pool_ids: Seq<u64>,
    n: int,
)
    requires
        0 <= n < pool_ids.len(),
        rewards_claimed(s, now, sender, locker_id, pool_ids) is Ok,
    ensures
        emptied(
            rewards_claimed(s, now, sender, locker_id, pool_ids).unwrap().0,
            now,
            locker_id,
            pool_ids[n],
        ),
{
    lemma_claim_pools_empty(
        ClaimProgress { state: s, messages: Seq::empty(), total_claimed: 0 },
        now,
        sender,
        referrer_of(s.referrals, sender@),
        locker_id,
        pool_ids,
        0,
        n,
    );
}

/// Whatever call is carried out, no pool ends up having paid more than it
/// was funded with, if none had before, and no pool's accumulator goes back.
pub proof fn lemma_execute_keeps_pools_sound(
    s: StateView,
    env: Env,
    info: MessageInfo,
    msg: ExecuteMsg,
)
    ensures
        match executed(s, env, info, msg) {
            Ok((after, _)) => follows(s, after),
            Err(_) => true,
        },
{
    match msg {
        ExecuteMsg::Receive(wrapper) => {
            match wrapper.msg {
                Cw20HookMsg::DepositRewards { pool_id } => {
                    lemma_rewards_deposited(s, wrapper.sender, pool_id, wrapper.amount);
                },
            }
        },
        ExecuteMsg::LockerHook(hook) => {
            lemma_locker_hook(s, env.block_time, info.sender, hook);
        },
        ExecuteMsg::ClaimRewards { locker_id, pool_ids } => {
            lemma_rewards_claimed(s, env.block_time, info.sender, locker_id, pool_ids@);
        },
        ExecuteMsg::BatchClaimRewards { locker_ids, pool_ids } => {
            lemma_batch_claimed(
                s,
                env.block_time,
                info.sender,
                locker_ids@,
                pool_ids@,
                0,
                ResponseView {
                    messages: Seq::empty(),
                    attributes: seq![("action"@, "batch_claim_rewards"@)],
                },
            );
        },
        ExecuteMsg::RegisterReferral { referrer } => {},
        ExecuteMsg::ClaimReferralRewards {  } => {},
        ExecuteMsg::CreateRewardPool { lp_token, reward_token, apr, dynamic_config } => {
            match executed(s, env, info, msg) {
                Ok((after, _)) => {
                    if pools_solvent(s) {
                        assert forall|k: int| 0 <= k < after.pools.len() implies (
                        #[trigger] after.pools[k]).solvent() by {
                            if k < s.pools.len() {
                                assert(s.pools[k].solvent());
                            }
                        }
                    }
                },
                Err(_) => {},
            }
        },
        ExecuteMsg::UpdateRewardPool { pool_id, apr, dynamic_config, enabled } => {
            lemma_pool_updated(s, env.block_time, pool_id);
            lemma_first_match(s.pools, pool_hit(pool_id));
            match (executed(s, env, info, msg), pool_updated(s, env.block_time, pool_id)) {
                (Ok((after, _)), Ok(s1)) => {
                    if pools_solvent(s1) {
                        assert forall|k: int| 0 <= k < after.pools.len() implies (
                        #[trigger] after.pools[k]).solvent() by {
                            assert(s1.pools[k].solvent());
                        }
                    }
                    assert(follows(s1, after));
                    lemma_follows_transitive(s, s1, after);
                },
                _ => {},
            }
        },
        ExecuteMsg::DepositRewards { pool_id } => {
            lemma_rewards_deposited(
                s,
                info.sender,
                pool_id,
                crate::reward_controller::admin::first_fund(info),
            );
        },
        ExecuteMsg::WithdrawRewards { pool_id, amount } => {
            lemma_first_match(s.pools, pool_hit(pool_id));
            match executed(s, env, info, msg) {
                Ok((after, _)) => {
                    if pools_solvent(s) {
                        assert forall|k: int| 0 <= k < after.pools.len() implies (
                        #[trigger] after.pools[k]).solvent() by {
                            assert(s.pools[k].solvent());
                        }
                    }
                },
                Err(_) => {},
            }
        },
        ExecuteMsg::UpdateConfig {
            admin,
            lp_locker_contract,
            claim_interval,
            referral_commission_bps,
            batch_limit,
        } => {},
        ExecuteMsg::Pause {  } => {},
        ExecuteMsg::Resume {  } => {},
    }
}

} // verus!
