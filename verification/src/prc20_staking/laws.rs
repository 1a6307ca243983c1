//! What holds of the staking rooms whatever they are asked to do.

use vstd::prelude::*;
use crate::math::{scaled, Decimal, DECIMAL_FRACTIONAL};
use crate::prc20_staking::engine::{
    advanced_config, all_staked, capped_reward, rewards_updated, share_increase, staked_of,
    user_weight,
};
use crate::host::{Env, MessageInfo};
use crate::prc20_staking::contract::{executed, initial_state, new_position};
use crate::prc20_staking::error::ContractError;
use crate::prc20_staking::msg::{Cw20HookMsg, ExecuteMsg, InstantiateMsg};
use crate::prc20_staking::position::{
    claim_asset, claim_assets, claimed, config_hit, settled_position, staked, unstaked,
    ClaimProgress,
};
use crate::prc20_staking::rooms::{emission_changed, funded, reward_pool_added};
use crate::prc20_staking::state::{
    position_slot, room_hit, room_slot, AssetInfo, RewardConfig, RoomView, StateView,
    UserPositionView,
};
use crate::asset::same_asset;
use crate::prc20_staking::engine::{
    checkpoint_hit, checkpoint_moved, earned, last_paid, pending_added, pending_hit,
    reward_settled, rewards_settled,
};
use crate::table::{
    first_match, lemma_first_match, lemma_first_match_alike, lemma_put_found,
    lemma_put_keeps_others, put_at,
};

verus! {

/// Advancing a reward asset leaves its identity, its emission and its
/// funding ledger alone and never lowers its accumulator.
pub proof fn lemma_accumulator_monotonic(config: RewardConfig, weight: u128, duration: u64)
    ensures
        match advanced_config(config, weight, duration) {
            Ok(after) => {
                &&& after.reward_token == config.reward_token
                &&& after.emission_per_second == config.emission_per_second
                &&& after.total_deposited == config.total_deposited
                &&& after.total_claimed == config.total_claimed
                &&& after.acc_reward_per_share.atomics >= config.acc_reward_per_share.atomics
            },
            Err(_) => true,
        },
{
    let reward = capped_reward(config, duration);
    assert(config.emission_per_second * duration >= 0) by (nonlinear_arith)
        requires
            config.emission_per_second >= 0,
            duration >= 0,
    ;
    assert(reward >= 0);
    if weight != 0 {
        assert(share_increase(reward, weight) >= 0) by (nonlinear_arith)
            requires
                reward >= 0,
                weight > 0,
                share_increase(reward, weight) == reward * 1_000_000_000_000_000_000 / (
                weight as int),
        ;
    }
}

/// While a room has no weight, and while no time passes, bringing it up to
/// date moves no accumulator: only the update time is set.
pub proof fn lemma_accumulator_frozen(room: RoomView, now: u64)
    requires
        room.total_staked_weight == 0 || now <= room.last_update_time,
    ensures
        rewards_updated(room, now) == Ok::<RoomView, ContractError>(
            RoomView { last_update_time: now, ..room },
        ),
{
}

/// Under the all-of rule a position that holds less than the minimum in one
/// of the room's tokens weighs nothing, whatever it holds in the others.
pub proof fn lemma_all_of_rule_zero_weight(pos: UserPositionView, room: RoomView, k: int)
    requires
        room.stake_config.is_and_rule,
        0 <= k < room.stake_config.stake_tokens.len(),
        staked_of(pos.staked_amounts, room.stake_config.stake_tokens[k]@)
            < room.stake_config.min_stake_amount,
    ensures
        user_weight(pos, room) == Ok::<u128, ContractError>(0),
{
    assert(!all_staked(
        pos.staked_amounts,
        room.stake_config.stake_tokens,
        room.stake_config.min_stake_amount,
    ));
}

/// What a weight of `weight` earns from a growth of `growth` atomic units of
/// the accumulator.
pub open spec fn earned_from(weight: int, growth: int) -> int {
    scaled(weight, growth)
}

proof fn lemma_share_times_weight(reward: int, total: int, weight: int)
    requires
        reward >= 0,
        total > 0,
        0 <= weight <= total,
    ensures
        0 <= scaled(weight, reward * (DECIMAL_FRACTIONAL as int) / total) <= reward,
{
    let d = DECIMAL_FRACTIONAL as int;
    let share = reward * d / total;
    assert(reward * d >= 0) by (nonlinear_arith)
        requires
            reward >= 0,
            d > 0,
    ;
    assert(0 <= share && total * share <= reward * d) by (nonlinear_arith)
        requires
            reward * d >= 0,
            total > 0,
            share == reward * d / total,
    ;
    assert(0 <= weight * share <= total * share) by (nonlinear_arith)
        requires
            0 <= weight <= total,
            share >= 0,
    ;
    assert(weight * share / d <= reward) by (nonlinear_arith)
        requires
            0 <= weight * share <= reward * d,
            d > 0,
            reward >= 0,
    ;
    assert(weight * share / d >= 0) by (nonlinear_arith)
        requires
            0 <= weight * share,
            d > 0,
    ;
}

/// The solvency cap: an advance moves the accumulator by the capped
/// emission per unit of weight, and what any position within the room's
/// total weight earns from it is no more than the asset could still pay
/// before the advance, however much the emission would imply.
pub proof fn lemma_solvency_cap(config: RewardConfig, total_weight: u128, duration: u64, weight: u128)
    requires
        total_weight != 0,
        weight <= total_weight,
        advanced_config(config, total_weight, duration) is Ok,
    ensures
        ({
            let after = advanced_config(config, total_weight, duration).unwrap();
            let growth = after.acc_reward_per_share.atomics - config.acc_reward_per_share.atomics;
            &&& growth == share_increase(capped_reward(config, duration), total_weight)
            &&& 0 <= earned_from(weight as int, growth) <= capped_reward(config, duration)
                <= config.available()
        }),
{
    let reward = capped_reward(config, duration);
    assert(share_increase(0, total_weight) == 0) by (nonlinear_arith)
        requires
            total_weight > 0,
            share_increase(0, total_weight) == 0int * 1_000_000_000_000_000_000int / (
            total_weight as int),
    ;
    assert(config.emission_per_second * duration >= 0) by (nonlinear_arith)
        requires
            config.emission_per_second >= 0,
            duration >= 0,
    ;
    lemma_share_times_weight(reward, total_weight as int, weight as int);
    lemma_share_times_weight(0, total_weight as int, weight as int);
    assert(scaled(weight as int, 0) == 0) by (nonlinear_arith)
        requires
            scaled(weight as int, 0) == (weight as int) * 0 / 1_000_000_000_000_000_000,
    ;
    let after = advanced_config(config, total_weight, duration).unwrap();
    let growth = after.acc_reward_per_share.atomics - config.acc_reward_per_share.atomics;
    assert(growth == 0 || growth == share_increase(reward, total_weight));
}

/// The sum of the weights.
pub open spec fn weights_total(weights: Seq<u128>) -> int
    decreases weights.len(),
{
    if weights.len() == 0 {
        0
    } else {
        weights_total(weights.drop_last()) + weights.last()
    }
}

/// What the weights earn together from a growth of `growth`, each rounded
/// down by itself.
pub open spec fn earned_total(weights: Seq<u128>, growth: int) -> int
    decreases weights.len(),
{
    if weights.len() == 0 {
        0
    } else {
        earned_total(weights.drop_last(), growth) + earned_from(weights.last() as int, growth)
    }
}

proof fn lemma_earned_total_bounded(weights: Seq<u128>, growth: int)
    requires
        growth >= 0,
    ensures
        0 <= weights_total(weights),
        0 <= earned_total(weights, growth) <= scaled(weights_total(weights), growth),
    decreases weights.len(),
{
    let d = DECIMAL_FRACTIONAL as int;
    if weights.len() == 0 {
        assert(scaled(0, growth) == 0) by (nonlinear_arith)
            requires
                scaled(0, growth) == 0 * growth / 1_000_000_000_000_000_000,
        ;
    } else {
        lemma_earned_total_bounded(weights.drop_last(), growth);
        let a = weights_total(weights.drop_last());
        let b = weights.last() as int;
        assert((a * growth) / d + (b * growth) / d <= ((a + b) * growth) / d && (b * growth) / d
            >= 0) by (nonlinear_arith)
            requires
                a >= 0,
                b >= 0,
                growth >= 0,
                d == 1_000_000_000_000_000_000,
        ;
    }
}

/// Conservation over one advance: what all positions of a room earn
/// together from one advance of a reward asset is no more than the asset
/// could still pay before the advance, provided their weights add up to no
/// more than the room's total weight.
pub proof fn lemma_advance_is_funded(
    config: RewardConfig,
    total_weight: u128,
    duration: u64,
    weights: Seq<u128>,
)
    requires
        total_weight != 0,
        weights_total(weights) <= total_weight,
        advanced_config(config, total_weight, duration) is Ok,
    ensures
        ({
            let after = advanced_config(config, total_weight, duration).unwrap();
            let growth = after.acc_reward_per_share.atomics - config.acc_reward_per_share.atomics;
            0 <= earned_total(weights, growth) <= config.available()
        }),
{
    let reward = capped_reward(config, duration);
    assert(config.emission_per_second * duration >= 0) by (nonlinear_arith)
        requires
            config.emission_per_second >= 0,
            duration >= 0,
    ;
    let after = advanced_config(config, total_weight, duration).unwrap();
    let growth = after.acc_reward_per_share.atomics - config.acc_reward_per_share.atomics;
    lemma_accumulator_monotonic(config, total_weight, duration);
    lemma_earned_total_bounded(weights, growth);
    assert(growth == 0 || growth == share_increase(reward, total_weight));
    if growth == 0 {
        assert(scaled(weights_total(weights), 0) == 0) by (nonlinear_arith)
            requires
                scaled(weights_total(weights), 0) == weights_total(weights) * 0
                    / 1_000_000_000_000_000_000,
        ;
    } else {
        lemma_share_times_weight(reward, total_weight as int, weights_total(weights));
    }
}

/// A change of stake does not touch what was earned before it: what is
/// pending after a stake is added, and where the checkpoints stand, is what a
/// settlement under the old weight leaves.
pub proof fn lemma_stake_keeps_entitlement(
    room: RoomView,
    pos: UserPositionView,
    now: u64,
    token: String,
    amount: u128,
    holding: Option<bool>,
)
    requires
        staked(room, pos, now, token, amount, holding) is Ok,
    ensures
        settled_position(room, pos, now, holding) is Ok,
        ({
            let settled = settled_position(room, pos, now, holding).unwrap();
            let after = staked(room, pos, now, token, amount, holding).unwrap();
            &&& after.1.pending_rewards == settled.1.pending_rewards
            &&& after.1.last_reward_per_share == settled.1.last_reward_per_share
            &&& after.0.reward_configs == settled.0.reward_configs
        }),
{
}

/// A withdrawal does not touch what was earned before it either.
pub proof fn lemma_unstake_keeps_entitlement(
    room: RoomView,
    pos: UserPositionView,
    now: u64,
    token: String,
    amount: u128,
    holding: Option<bool>,
)
    requires
        unstaked(room, pos, now, token, amount, holding) is Ok,
    ensures
        settled_position(room, pos, now, holding) is Ok,
        ({
            let settled = settled_position(room, pos, now, holding).unwrap();
            let after = unstaked(room, pos, now, token, amount, holding).unwrap();
            &&& after.1.pending_rewards == settled.1.pending_rewards
            &&& after.1.last_reward_per_share == settled.1.last_reward_per_share
            &&& after.0.reward_configs == settled.0.reward_configs
            &&& after.2 + after.3 == amount
        }),
{
}

/// No two reward assets of `configs` are the same.
pub open spec fn distinct_assets(configs: Seq<RewardConfig>) -> bool {
    forall|a: int, b: int|
        0 <= a < b < configs.len() ==> !same_asset(
            (#[trigger] configs[a]).reward_token,
            (#[trigger] configs[b]).reward_token,
        )
}

/// The position has met the reward asset and its checkpoint stands at the
/// asset's accumulator.
pub open spec fn settled_for(pos: UserPositionView, config: RewardConfig) -> bool {
    &&& first_match(pos.last_reward_per_share, checkpoint_hit(config.reward_token)) is Some
    &&& first_match(pos.pending_rewards, pending_hit(config.reward_token)) is Some
    &&& last_paid(pos.last_reward_per_share, config.reward_token) == config.acc_reward_per_share
}

proof fn lemma_settled_stays(pos: UserPositionView, config: RewardConfig, weight: u128)
    requires
        settled_for(pos, config),
    ensures
        reward_settled(pos, config, weight) == Ok::<UserPositionView, ContractError>(pos),
{
    lemma_first_match(pos.last_reward_per_share, checkpoint_hit(config.reward_token));
    lemma_first_match(pos.pending_rewards, pending_hit(config.reward_token));
    assert(scaled(weight as int, 0) == 0) by (nonlinear_arith)
        requires
            scaled(weight as int, 0) == (weight as int) * 0 / 1_000_000_000_000_000_000,
    ;
    let i = first_match(pos.pending_rewards, pending_hit(config.reward_token)).unwrap();
    let k = first_match(pos.last_reward_per_share, checkpoint_hit(config.reward_token)).unwrap();
    assert(pos.pending_rewards.update(i, (pos.pending_rewards[i].0, pos.pending_rewards[i].1))
        =~= pos.pending_rewards);
    assert(pos.last_reward_per_share.update(
        k,
        (pos.last_reward_per_share[k].0, config.acc_reward_per_share),
    ) =~= pos.last_reward_per_share);
    assert(earned(pos.last_reward_per_share, config, weight) == Ok::<u128, ContractError>(0));
    assert(pending_added(pos.pending_rewards, config.reward_token, 0) == Some(
        pos.pending_rewards,
    ));
}

proof fn lemma_settling_settles(pos: UserPositionView, config: RewardConfig, weight: u128)
    requires
        reward_settled(pos, config, weight) is Ok,
    ensures
        settled_for(reward_settled(pos, config, weight).unwrap(), config),
{
    let asset = config.reward_token;
    let amount = earned(pos.last_reward_per_share, config, weight).unwrap();
    lemma_first_match(pos.pending_rewards, pending_hit(asset));
    lemma_first_match(pos.last_reward_per_share, checkpoint_hit(asset));
    let pending_entry = match first_match(pos.pending_rewards, pending_hit(asset)) {
        Some(i) => (pos.pending_rewards[i].0, (pos.pending_rewards[i].1 + amount) as u128),
        None => (asset, amount),
    };
    let checkpoint_entry = match first_match(pos.last_reward_per_share, checkpoint_hit(asset)) {
        Some(i) => (pos.last_reward_per_share[i].0, config.acc_reward_per_share),
        None => (asset, config.acc_reward_per_share),
    };
    lemma_put_found(pos.pending_rewards, pending_hit(asset), pending_entry);
    lemma_put_found(pos.last_reward_per_share, checkpoint_hit(asset), checkpoint_entry);
    assert(pending_added(pos.pending_rewards, asset, amount) == Some(
        put_at(
            pos.pending_rewards,
            first_match(pos.pending_rewards, pending_hit(asset)),
            pending_entry,
        ),
    ));
    assert(checkpoint_moved(pos.last_reward_per_share, asset, config.acc_reward_per_share)
        == put_at(
        pos.last_reward_per_share,
        first_match(pos.last_reward_per_share, checkpoint_hit(asset)),
        checkpoint_entry,
    ));
}

proof fn lemma_settling_keeps_others(
    pos: UserPositionView,
    config: RewardConfig,
    weight: u128,
    other: RewardConfig,
)
    requires
        reward_settled(pos, config, weight) is Ok,
        settled_for(pos, other),
        !same_asset(config.reward_token, other.reward_token),
    ensures
        settled_for(reward_settled(pos, config, weight).unwrap(), other),
{
    let asset = config.reward_token;
    let amount = earned(pos.last_reward_per_share, config, weight).unwrap();
    lemma_first_match(pos.pending_rewards, pending_hit(asset));
    lemma_first_match(pos.last_reward_per_share, checkpoint_hit(asset));
    let pending_entry = match first_match(pos.pending_rewards, pending_hit(asset)) {
        Some(i) => (pos.pending_rewards[i].0, (pos.pending_rewards[i].1 + amount) as u128),
        None => (asset, amount),
    };
    let checkpoint_entry = match first_match(pos.last_reward_per_share, checkpoint_hit(asset)) {
        Some(i) => (pos.last_reward_per_share[i].0, config.acc_reward_per_share),
        None => (asset, config.acc_reward_per_share),
    };
    lemma_put_keeps_others(
        pos.pending_rewards,
        pending_hit(asset),
        pending_entry,
        pending_hit(other.reward_token),
    );
    lemma_put_keeps_others(
        pos.last_reward_per_share,
        checkpoint_hit(asset),
        checkpoint_entry,
        checkpoint_hit(other.reward_token),
    );
    assert(pending_added(pos.pending_rewards, asset, amount) == Some(
        put_at(
            pos.pending_rewards,
            first_match(pos.pending_rewards, pending_hit(asset)),
            pending_entry,
        ),
    ));
    assert(checkpoint_moved(pos.last_reward_per_share, asset, config.acc_reward_per_share)
        == put_at(
        pos.last_reward_per_share,
        first_match(pos.last_reward_per_share, checkpoint_hit(asset)),
        checkpoint_entry,
    ));
}

proof fn lemma_all_settled(
    pos: UserPositionView,
    configs: Seq<RewardConfig>,
    weight: u128,
    from: int,
)
    requires
        0 <= from <= configs.len(),
        distinct_assets(configs),
        rewards_settled(pos, configs, weight, from) is Ok,
        forall|j: int| 0 <= j < from ==> settled_for(pos, #[trigger] configs[j]),
    ensures
        forall|j: int|
            0 <= j < configs.len() ==> settled_for(
                rewards_settled(pos, configs, weight, from).unwrap(),
                #[trigger] configs[j],
            ),
    decreases configs.len() - from,
{
    if from < configs.len() {
        let next = reward_settled(pos, configs[from], weight).unwrap();
        lemma_settling_settles(pos, configs[from], weight);
        assert forall|j: int| 0 <= j < from + 1 implies settled_for(next, #[trigger] configs[j]) by {
            if j < from {
                assert(!same_asset(configs[j].reward_token, configs[from].reward_token));
                lemma_settling_keeps_others(pos, configs[from], weight, configs[j]);
            }
        }
        lemma_all_settled(next, configs, weight, from + 1);
    }
}

proof fn lemma_settled_fold_stays(
    pos: UserPositionView,
    configs: Seq<RewardConfig>,
    weight: u128,
    from: int,
)
    requires
        0 <= from,
        forall|j: int| 0 <= j < configs.len() ==> settled_for(pos, #[trigger] configs[j]),
    ensures
        rewards_settled(pos, configs, weight, from) == Ok::<UserPositionView, ContractError>(pos),
    decreases configs.len() - from,
{
    if from < configs.len() {
        lemma_settled_stays(pos, configs[from], weight);
        lemma_settled_fold_stays(pos, configs, weight, from + 1);
    }
}

/// The position has met the reward asset, and its checkpoint stands at the
/// asset's accumulator or beyond.
pub open spec fn caught_up(pos: UserPositionView, config: RewardConfig) -> bool {
    &&& first_match(pos.last_reward_per_share, checkpoint_hit(config.reward_token)) is Some
    &&& first_match(pos.pending_rewards, pending_hit(config.reward_token)) is Some
    &&& last_paid(pos.last_reward_per_share, config.reward_token).atomics
        >= config.acc_reward_per_share.atomics
}

proof fn lemma_caught_up_stays(pos: UserPositionView, config: RewardConfig, weight: u128)
    requires
        caught_up(pos, config),
    ensures
        match reward_settled(pos, config, weight) {
            Ok(after) => after == pos,
            Err(_) => true,
        },
{
    if last_paid(pos.last_reward_per_share, config.reward_token) == config.acc_reward_per_share {
        lemma_settled_stays(pos, config, weight);
    }
}

proof fn lemma_same_asset_asks_alike(a: AssetInfo, b: AssetInfo)
    requires
        same_asset(a, b),
    ensures
        forall|e: (AssetInfo, Decimal)| #[trigger] checkpoint_hit(a)(e) == checkpoint_hit(b)(e),
        forall|e: (AssetInfo, u128)| #[trigger] pending_hit(a)(e) == pending_hit(b)(e),
{
}

proof fn lemma_settling_keeps_caught_up(
    pos: UserPositionView,
    config: RewardConfig,
    weight: u128,
    other: RewardConfig,
)
    requires
        reward_settled(pos, config, weight) is Ok,
        caught_up(pos, other),
    ensures
        caught_up(reward_settled(pos, config, weight).unwrap(), other),
{
    let after = reward_settled(pos, config, weight).unwrap();
    let asset = config.reward_token;
    let amount = earned(pos.last_reward_per_share, config, weight).unwrap();
    lemma_first_match(pos.pending_rewards, pending_hit(asset));
    lemma_first_match(pos.last_reward_per_share, checkpoint_hit(asset));
    let pending_entry = match first_match(pos.pending_rewards, pending_hit(asset)) {
        Some(i) => (pos.pending_rewards[i].0, (pos.pending_rewards[i].1 + amount) as u128),
        None => (asset, amount),
    };
    let checkpoint_entry = match first_match(pos.last_reward_per_share, checkpoint_hit(asset)) {
        Some(i) => (pos.last_reward_per_share[i].0, config.acc_reward_per_share),
        None => (asset, config.acc_reward_per_share),
    };
    assert(pending_added(pos.pending_rewards, asset, amount) == Some(
        put_at(
            pos.pending_rewards,
            first_match(pos.pending_rewards, pending_hit(asset)),
            pending_entry,
        ),
    ));
    assert(checkpoint_moved(pos.last_reward_per_share, asset, config.acc_reward_per_share)
        == put_at(
        pos.last_reward_per_share,
        first_match(pos.last_reward_per_share, checkpoint_hit(asset)),
        checkpoint_entry,
    ));
    if same_asset(asset, other.reward_token) {
        lemma_same_asset_asks_alike(asset, other.reward_token);
        lemma_settling_settles(pos, config, weight);
        lemma_first_match_alike(
            pos.last_reward_per_share,
            checkpoint_hit(asset),
            checkpoint_hit(other.reward_token),
        );
        lemma_first_match_alike(
            after.last_reward_per_share,
            checkpoint_hit(asset),
            checkpoint_hit(other.reward_token),
        );
        lemma_first_match_alike(
            after.pending_rewards,
            pending_hit(asset),
            pending_hit(other.reward_token),
        );
    } else {
        lemma_put_keeps_others(
            pos.pending_rewards,
            pending_hit(asset),
            pending_entry,
            pending_hit(other.reward_token),
        );
        lemma_put_keeps_others(
            pos.last_reward_per_share,
            checkpoint_hit(asset),
            checkpoint_entry,
            checkpoint_hit(other.reward_token),
        );
    }
}

proof fn lemma_all_caught_up(
    pos: UserPositionView,
    configs: Seq<RewardConfig>,
    weight: u128,
    from: int,
)
    requires
        0 <= from <= configs.len(),
        rewards_settled(pos, configs, weight, from) is Ok,
        forall|j: int| 0 <= j < from ==> caught_up(pos, #[trigger] configs[j]),
    ensures
        forall|j: int|
            0 <= j < configs.len() ==> caught_up(
                rewards_settled(pos, configs, weight, from).unwrap(),
                #[trigger] configs[j],
            ),
    decreases configs.len() - from,
{
    if from < configs.len() {
        let next = reward_settled(pos, configs[from], weight).unwrap();
        lemma_settling_settles(pos, configs[from], weight);
        assert forall|j: int| 0 <= j < from + 1 implies caught_up(next, #[trigger] configs[j]) by {
            if j < from {
                lemma_settling_keeps_caught_up(pos, configs[from], weight, configs[j]);
            }
        }
        lemma_all_caught_up(next, configs, weight, from + 1);
    }
}

proof fn lemma_caught_up_fold_stays(
    pos: UserPositionView,
    configs: Seq<RewardConfig>,
    weight: u128,
    from: int,
)
    requires
        0 <= from,
        forall|j: int| 0 <= j < configs.len() ==> caught_up(pos, #[trigger] configs[j]),
    ensures
        match rewards_settled(pos, configs, weight, from) {
            Ok(after) => after == pos,
            Err(_) => true,
        },
    decreases configs.len() - from,
{
    if from < configs.len() {
        lemma_caught_up_stays(pos, configs[from], weight);
        match reward_settled(pos, configs[from], weight) {
            Ok(next) => {
                lemma_caught_up_fold_stays(pos, configs, weight, from + 1);
            },
            Err(_) => {},
        }
    }
}

/// Settling a position against the reward assets of a room twice, with no
/// accumulator moved in between, credits nothing the second time, whatever
/// the room's reward assets are and whatever the weight of the position is
/// by then: a second settlement that succeeds leaves the position as the
/// first one left it, and one that fails changes nothing. Where the reward
/// assets are distinct, as the rooms keep them, the second settlement
/// succeeds.
pub proof fn lemma_settlement_idempotent(
    pos: UserPositionView,
    configs: Seq<RewardConfig>,
    weight: u128,
    weight_then: u128,
)
    requires
        rewards_settled(pos, configs, weight, 0) is Ok,
    ensures
        match rewards_settled(
            rewards_settled(pos, configs, weight, 0).unwrap(),
            configs,
            weight_then,
            0,
        ) {
            Ok(after) => after == rewards_settled(pos, configs, weight, 0).unwrap(),
            Err(_) => !distinct_assets(configs),
        },
{
    let once = rewards_settled(pos, configs, weight, 0).unwrap();
    lemma_all_caught_up(pos, configs, weight, 0);
    lemma_caught_up_fold_stays(once, configs, weight_then, 0);
    if distinct_assets(configs) {
        lemma_all_settled(pos, configs, weight, 0);
        lemma_settled_fold_stays(once, configs, weight_then, 0);
    }
}

/// No reward asset of `configs` was asked to pay more than it was funded
/// with.
pub open spec fn configs_solvent(configs: Seq<RewardConfig>) -> bool {
    forall|j: int| 0 <= j < configs.len() ==> (#[trigger] configs[j]).solvent()
}

/// No reward asset of any room was asked to pay more than it was funded
/// with.
pub open spec fn rooms_solvent(s: StateView) -> bool {
    forall|i: int| 0 <= i < s.rooms.len() ==> configs_solvent((#[trigger] s.rooms[i]).reward_configs)
}

/// `after` is the reward asset `before` at a later time: its accumulator
/// has not gone back, and if it had not paid more than it was funded with, it
/// still has not.
pub open spec fn config_follows(before: RewardConfig, after: RewardConfig) -> bool {
    &&& after.acc_reward_per_share.atomics >= before.acc_reward_per_share.atomics
    &&& before.solvent() ==> after.solvent()
}

/// `after` is the room `before` at a later time: every reward asset is
/// still in its place and follows what it was, so solvency is kept, asset by
/// asset and as a whole.
pub open spec fn room_follows(before: RoomView, after: RoomView) -> bool {
    &&& after.id == before.id
    &&& before.reward_configs.len() <= after.reward_configs.len()
    &&& forall|j: int|
        0 <= j < before.reward_configs.len() ==> config_follows(
            before.reward_configs[j],
            #[trigger] after.reward_configs[j],
        )
    &&& configs_solvent(before.reward_configs) ==> configs_solvent(after.reward_configs)
    &&& distinct_assets(before.reward_configs) ==> distinct_assets(after.reward_configs)
}

/// `after` holds the reward tokens of `before` in the same places.
pub open spec fn same_tokens(before: Seq<RewardConfig>, after: Seq<RewardConfig>) -> bool {
    &&& after.len() == before.len()
    &&& forall|j: int|
        0 <= j < before.len() ==> (#[trigger] after[j]).reward_token == before[j].reward_token
}

proof fn lemma_same_tokens_stay_distinct(before: Seq<RewardConfig>, after: Seq<RewardConfig>)
    requires
        same_tokens(before, after),
        distinct_assets(before),
    ensures
        distinct_assets(after),
{
    assert forall|a: int, b: int| 0 <= a < b < after.len() implies !same_asset(
        (#[trigger] after[a]).reward_token,
        (#[trigger] after[b]).reward_token,
    ) by {
        assert(!same_asset(before[a].reward_token, before[b].reward_token));
    }
}

/// `after` may come after `before`: every room is still in its place and
/// follows what it was, every new room is solvent, and the id that the next
/// room will get has grown by the number of new rooms.
pub open spec fn follows(before: StateView, after: StateView) -> bool {
    &&& before.rooms.len() <= after.rooms.len()
    &&& after.config.next_room_id - before.config.next_room_id == after.rooms.len()
        - before.rooms.len()
    &&& forall|i: int|
        0 <= i < before.rooms.len() ==> room_follows(before.rooms[i], #[trigger] after.rooms[i])
    &&& forall|i: int|
        before.rooms.len() <= i < after.rooms.len() ==> configs_solvent(
            (#[trigger] after.rooms[i]).reward_configs,
        )
}

proof fn lemma_room_follows_transitive(a: RoomView, b: RoomView, c: RoomView)
    requires
        room_follows(a, b),
        room_follows(b, c),
    ensures
        room_follows(a, c),
{
    assert forall|j: int| 0 <= j < a.reward_configs.len() implies config_follows(
        a.reward_configs[j],
        #[trigger] c.reward_configs[j],
    ) by {
        assert(config_follows(a.reward_configs[j], b.reward_configs[j]));
        assert(config_follows(b.reward_configs[j], c.reward_configs[j]));
    }
}

proof fn lemma_rewards_updated(room: RoomView, now: u64)
    ensures
        match rewards_updated(room, now) {
            Ok(after) => room_follows(room, after) && same_tokens(
                room.reward_configs,
                after.reward_configs,
            ),
            Err(_) => true,
        },
{
    match rewards_updated(room, now) {
        Ok(after) => {
            if distinct_assets(room.reward_configs) && room.total_staked_weight != 0 && now
                > room.last_update_time {
                let duration = (now - room.last_update_time) as u64;
                assert forall|j: int| 0 <= j < room.reward_configs.len() implies (
                #[trigger] after.reward_configs[j]).reward_token
                    == room.reward_configs[j].reward_token by {
                    assert(advanced_config(
                        room.reward_configs[j],
                        room.total_staked_weight,
                        duration,
                    ) is Ok);
                    lemma_accumulator_monotonic(
                        room.reward_configs[j],
                        room.total_staked_weight,
                        duration,
                    );
                }
                lemma_same_tokens_stay_distinct(room.reward_configs, after.reward_configs);
            }
            if room.total_staked_weight != 0 && now > room.last_update_time {
                let duration = (now - room.last_update_time) as u64;
                assert forall|j: int| 0 <= j < room.reward_configs.len() implies config_follows(
                    room.reward_configs[j],
                    #[trigger] after.reward_configs[j],
                ) by {
                    assert(advanced_config(
                        room.reward_configs[j],
                        room.total_staked_weight,
                        duration,
                    ) is Ok);
                    lemma_accumulator_monotonic(
                        room.reward_configs[j],
                        room.total_staked_weight,
                        duration,
                    );
                }
                if configs_solvent(room.reward_configs) {
                    assert forall|j: int| 0 <= j < after.reward_configs.len() implies (
                    #[trigger] after.reward_configs[j]).solvent() by {
                        assert(room.reward_configs[j].solvent());
                    }
                }
            }
        },
        Err(_) => {},
    }
}

proof fn lemma_settled_position(
    room: RoomView,
    pos: UserPositionView,
    now: u64,
    holding: Option<bool>,
)
    ensures
        match settled_position(room, pos, now, holding) {
            Ok((after, _, _)) => room_follows(room, after),
            Err(_) => true,
        },
{
    lemma_rewards_updated(room, now);
}

proof fn lemma_claim_assets(p: ClaimProgress, user: String, from: int)
    requires
        0 <= from,
    ensures
        match claim_assets(p, user, from) {
            Ok(after) => {
                &&& after.configs.len() == p.configs.len()
                &&& forall|j: int|
                    0 <= j < p.configs.len() ==> (
                    #[trigger] after.configs[j]).acc_reward_per_share
                        == p.configs[j].acc_reward_per_share && after.configs[j].reward_token
                        == p.configs[j].reward_token && after.configs[j].total_deposited
                        == p.configs[j].total_deposited && after.configs[j].total_claimed
                        >= p.configs[j].total_claimed && (p.configs[j].solvent()
                        ==> after.configs[j].solvent())
                &&& configs_solvent(p.configs) ==> configs_solvent(after.configs)
            },
            Err(_) => true,
        },
    decreases p.pending.len() - from,
{
    if from < p.pending.len() {
        match claim_asset(p, user, from) {
            Ok(next) => {
                lemma_first_match(p.configs, config_hit(p.pending[from].0));
                if configs_solvent(p.configs) {
                    assert forall|j: int| 0 <= j < next.configs.len() implies (
                    #[trigger] next.configs[j]).solvent() by {
                        assert(p.configs[j].solvent());
                    }
                }
                if next.pending.len() == p.pending.len() {
                    lemma_claim_assets(next, user, from + 1);
                    match claim_assets(next, user, from + 1) {
                        Ok(after) => {
                            assert forall|j: int| 0 <= j < p.configs.len() implies (
                            #[trigger] after.configs[j]).acc_reward_per_share
                                == p.configs[j].acc_reward_per_share
                                && after.configs[j].reward_token
                                == p.configs[j].reward_token
                                && after.configs[j].total_deposited
                                == p.configs[j].total_deposited
                                && after.configs[j].total_claimed
                                >= p.configs[j].total_claimed && (p.configs[j].solvent()
                                ==> after.configs[j].solvent()) by {
                                assert(next.configs[j].acc_reward_per_share
                                    == p.configs[j].acc_reward_per_share);
                                assert(next.configs[j].reward_token == p.configs[j].reward_token);
                                assert(next.configs[j].total_deposited
                                    == p.configs[j].total_deposited);
                                assert(p.configs[j].solvent() ==> next.configs[j].solvent());
                            }
                        },
                        Err(_) => {},
                    }
                }
            },
            Err(_) => {},
        }
    }
}

proof fn lemma_claim_assets_empties(p: ClaimProgress, user: String, from: int)
    requires
        0 <= from,
    ensures
        match claim_assets(p, user, from) {
            Ok(after) => {
                &&& after.pending.len() == p.pending.len()
                &&& forall|k: int|
                    0 <= k < from && k < p.pending.len() ==> #[trigger] after.pending[k]
                        == p.pending[k]
                &&& forall|k: int|
                    from <= k < p.pending.len() ==> (#[trigger] after.pending[k]).1 == 0
            },
            Err(_) => true,
        },
    decreases p.pending.len() - from,
{
    if from < p.pending.len() {
        match claim_asset(p, user, from) {
            Ok(next) => {
                lemma_first_match(p.configs, config_hit(p.pending[from].0));
                lemma_claim_assets_empties(next, user, from + 1);
                match claim_assets(next, user, from + 1) {
                    Ok(after) => {
                        assert forall|k: int| 0 <= k < from && k < p.pending.len() implies (
                        #[trigger] after.pending[k]) == p.pending[k] by {
                            assert(next.pending[k] == p.pending[k]);
                        }
                        assert forall|k: int| from <= k < p.pending.len() implies (
                        #[trigger] after.pending[k]).1 == 0 by {
                            if k == from {
                                assert(after.pending[k] == next.pending[k]);
                            }
                        }
                    },
                    Err(_) => {},
                }
            },
            Err(_) => {},
        }
    }
}

/// What a claim does to the books of a room: nothing is left pending for
/// the position, no reward asset has another funding or a lower claimed
/// total than the settlement left it, and every asset that had not paid more
/// than it was funded with still has not.
pub proof fn lemma_claim_accounts(
    room: RoomView,
    pos: UserPositionView,
    now: u64,
    holding: Option<bool>,
)
    requires
        claimed(room, pos, now, holding) is Ok,
    ensures
        ({
            let (after, paid, _) = claimed(room, pos, now, holding).unwrap();
            &&& forall|k: int|
                0 <= k < paid.pending_rewards.len() ==> (#[trigger] paid.pending_rewards[k]).1
                    == 0
            &&& after.reward_configs.len() == room.reward_configs.len()
            &&& forall|j: int|
                0 <= j < room.reward_configs.len() ==> (
                #[trigger] after.reward_configs[j]).total_deposited
                    == room.reward_configs[j].total_deposited
                    && after.reward_configs[j].total_claimed
                    >= room.reward_configs[j].total_claimed && (room.reward_configs[j].solvent()
                    ==> after.reward_configs[j].solvent())
        }),
{
    lemma_settled_position(room, pos, now, holding);
    lemma_rewards_updated(room, now);
    match (settled_position(room, pos, now, holding), rewards_updated(room, now)) {
        (Ok((room1, pos1, _)), Ok(updated)) => {
            let start = ClaimProgress {
                configs: room1.reward_configs,
                pending: pos1.pending_rewards,
                messages: Seq::empty(),
            };
            lemma_claim_assets(start, pos1.user, 0);
            lemma_claim_assets_empties(start, pos1.user, 0);
            lemma_updated_keeps_funding(room, now);
            let (after, paid, _) = claimed(room, pos, now, holding).unwrap();
            let done = claim_assets(start, pos1.user, 0).unwrap();
            assert(after.reward_configs == done.configs);
            assert forall|j: int| 0 <= j < room.reward_configs.len() implies (
            #[trigger] after.reward_configs[j]).total_deposited
                == room.reward_configs[j].total_deposited && after.reward_configs[j].total_claimed
                >= room.reward_configs[j].total_claimed && (room.reward_configs[j].solvent()
                ==> after.reward_configs[j].solvent()) by {
                assert(room1.reward_configs[j].total_deposited
                    == room.reward_configs[j].total_deposited);
                assert(done.configs[j].total_deposited == room1.reward_configs[j].total_deposited);
            }
        },
        _ => {},
    }
}

proof fn lemma_updated_keeps_funding(room: RoomView, now: u64)
    ensures
        match rewards_updated(room, now) {
            Ok(after) => after.reward_configs.len() == room.reward_configs.len() && forall|j: int|
                0 <= j < room.reward_configs.len() ==> (
                #[trigger] after.reward_configs[j]).total_deposited
                    == room.reward_configs[j].total_deposited
                    && after.reward_configs[j].total_claimed
                    == room.reward_configs[j].total_claimed,
            Err(_) => true,
        },
{
    match rewards_updated(room, now) {
        Ok(after) => {
            if room.total_staked_weight != 0 && now > room.last_update_time {
                let duration = (now - room.last_update_time) as u64;
                assert forall|j: int| 0 <= j < room.reward_configs.len() implies (
                #[trigger] after.reward_configs[j]).total_deposited
                    == room.reward_configs[j].total_deposited
                    && after.reward_configs[j].total_claimed
                    == room.reward_configs[j].total_claimed by {
                    assert(advanced_config(
                        room.reward_configs[j],
                        room.total_staked_weight,
                        duration,
                    ) is Ok);
                    lemma_accumulator_monotonic(
                        room.reward_configs[j],
                        room.total_staked_weight,
                        duration,
                    );
                }
            }
        },
        Err(_) => {},
    }
}

proof fn lemma_claimed(room: RoomView, pos: UserPositionView, now: u64, holding: Option<bool>)
    ensures
        match claimed(room, pos, now, holding) {
            Ok((after, _, _)) => room_follows(room, after),
            Err(_) => true,
        },
{
    lemma_settled_position(room, pos, now, holding);
    match settled_position(room, pos, now, holding) {
        Ok((room1, pos1, _)) => {
            let start = ClaimProgress {
                configs: room1.reward_configs,
                pending: pos1.pending_rewards,
                messages: Seq::empty(),
            };
            lemma_claim_assets(start, pos1.user, 0);
            match claimed(room, pos, now, holding) {
                Ok((after, _, _)) => {
                    if distinct_assets(room1.reward_configs) {
                        lemma_same_tokens_stay_distinct(
                            room1.reward_configs,
                            after.reward_configs,
                        );
                    }
                    assert(room_follows(room1, after));
                    lemma_room_follows_transitive(room, room1, after);
                },
                Err(_) => {},
            }
        },
        Err(_) => {},
    }
}

proof fn lemma_room_managed(room: RoomView, now: u64, asset: AssetInfo, amount: u128)
    ensures
        match reward_pool_added(room, now, asset, amount) {
            Ok(after) => room_follows(room, after),
            Err(_) => true,
        },
        match emission_changed(room, now, asset, amount) {
            Ok(after) => room_follows(room, after),
            Err(_) => true,
        },
        match funded(room, asset, amount) {
            Ok(after) => room_follows(room, after),
            Err(_) => true,
        },
{
    lemma_rewards_updated(room, now);
    lemma_first_match(room.reward_configs, config_hit(asset));
    match rewards_updated(room, now) {
        Ok(room1) => {
            match reward_pool_added(room, now, asset, amount) {
                Ok(after) => {
                    if distinct_assets(room1.reward_configs) {
                        let n = room1.reward_configs.len() as int;
                        assert forall|a: int, b: int|
                            0 <= a < b < after.reward_configs.len() implies !same_asset(
                            (#[trigger] after.reward_configs[a]).reward_token,
                            (#[trigger] after.reward_configs[b]).reward_token,
                        ) by {
                            if b == n {
                                assert(!config_hit(asset)(room.reward_configs[a]));
                                assert(room1.reward_configs[a].reward_token
                                    == room.reward_configs[a].reward_token);
                            } else {
                                assert(!same_asset(
                                    room1.reward_configs[a].reward_token,
                                    room1.reward_configs[b].reward_token,
                                ));
                            }
                        }
                    }
                    if configs_solvent(room1.reward_configs) {
                        assert forall|j: int| 0 <= j < after.reward_configs.len() implies (
                        #[trigger] after.reward_configs[j]).solvent() by {
                            if j < room1.reward_configs.len() {
                                assert(room1.reward_configs[j].solvent());
                            }
                        }
                    }
                    assert(room_follows(room1, after));
                    lemma_room_follows_transitive(room, room1, after);
                },
                Err(_) => {},
            }
            match emission_changed(room, now, asset, amount) {
                Ok(after) => {
                    if distinct_assets(room1.reward_configs) {
                        lemma_same_tokens_stay_distinct(
                            room1.reward_configs,
                            after.reward_configs,
                        );
                    }
                    if configs_solvent(room1.reward_configs) {
                        assert forall|j: int| 0 <= j < after.reward_configs.len() implies (
                        #[trigger] after.reward_configs[j]).solvent() by {
                            assert(room1.reward_configs[j].solvent());
                        }
                    }
                    assert(room_follows(room1, after));
                    lemma_room_follows_transitive(room, room1, after);
                },
                Err(_) => {},
            }
        },
        Err(_) => {},
    }
    match funded(room, asset, amount) {
        Ok(after) => {
            if distinct_assets(room.reward_configs) {
                lemma_same_tokens_stay_distinct(room.reward_configs, after.reward_configs);
            }
            if configs_solvent(room.reward_configs) {
                assert forall|j: int| 0 <= j < after.reward_configs.len() implies (
                #[trigger] after.reward_configs[j]).solvent() by {
                    assert(room.reward_configs[j].solvent());
                }
            }
        },
        Err(_) => {},
    }
}

proof fn lemma_room_replaced(s: StateView, i: int, room: RoomView, after: StateView)
    requires
        0 <= i < s.rooms.len(),
        room_follows(s.rooms[i], room),
        after.rooms == s.rooms.update(i, room),
        after.config.next_room_id == s.config.next_room_id,
    ensures
        follows(s, after),
{
    assert forall|k: int| 0 <= k < s.rooms.len() implies room_follows(
        s.rooms[k],
        #[trigger] after.rooms[k],
    ) by {}
}

/// The state is well formed: the rooms are numbered from one in the order
/// of their creation, no reward asset has paid more than it was funded with,
/// and no room rewards the same asset twice.
pub open spec fn well_formed(s: StateView) -> bool {
    &&& rooms_solvent(s)
    &&& s.rooms.len() + 1 == s.config.next_room_id
    &&& forall|i: int| 0 <= i < s.rooms.len() ==> (#[trigger] s.rooms[i]).id == i + 1
    &&& forall|i: int|
        0 <= i < s.rooms.len() ==> distinct_assets((#[trigger] s.rooms[i]).reward_configs)
}

/// Staking that was just set up is well formed.
pub proof fn lemma_initial_state_well_formed(msg: InstantiateMsg)
    ensures
        well_formed(initial_state(msg)),
{
}

/// Whatever call is carried out on a well-formed state leaves it well
/// formed.
pub proof fn lemma_execute_keeps_well_formed(
    s: StateView,
    env: Env,
    info: MessageInfo,
    msg: ExecuteMsg,
    holding: Option<bool>,
)
    requires
        well_formed(s),
    ensures
        match executed(s, env, info, msg, holding) {
            Ok((after, _)) => well_formed(after),
            Err(_) => true,
        },
{
    lemma_execute_keeps_rooms_sound(s, env, info, msg, holding);
    match executed(s, env, info, msg, holding) {
        Ok((after, _)) => {
            lemma_follows_keeps_solvency(s, after);
            assert forall|i: int| 0 <= i < after.rooms.len() implies (#[trigger] after.rooms[i]).id
                == i + 1 && distinct_assets(after.rooms[i].reward_configs) by {
                if i < s.rooms.len() {
                    assert(room_follows(s.rooms[i], after.rooms[i]));
                    assert(s.rooms[i].id == i + 1);
                    assert(distinct_assets(s.rooms[i].reward_configs));
                } else {
                    match msg {
                        ExecuteMsg::CreateRoom {
                            name,
                            stake_config,
                            nft_config,
                            auto_compound_config,
                            early_withdraw_penalty,
                            cooldown_period,
                        } => {
                            assert(after.rooms.len() == s.rooms.len() + 1);
                            assert(after.rooms[i].id == s.config.next_room_id);
                            assert(after.rooms[i].reward_configs.len() == 0);
                        },
                        _ => {},
                    }
                }
            }
        },
        Err(_) => {},
    }
}

/// A state that follows a solvent one is solvent.
pub proof fn lemma_follows_keeps_solvency(before: StateView, after: StateView)
    requires
        follows(before, after),
        rooms_solvent(before),
    ensures
        rooms_solvent(after),
{
    assert forall|i: int| 0 <= i < after.rooms.len() implies configs_solvent(
        (#[trigger] after.rooms[i]).reward_configs,
    ) by {
        if i < before.rooms.len() {
            assert(room_follows(before.rooms[i], after.rooms[i]));
            assert(configs_solvent(before.rooms[i].reward_configs));
        }
    }
}

/// Whatever call is carried out, every room stays in its place, no reward
/// asset ends up having paid more than it was funded with, if none had
/// before, and no accumulator goes back.
pub proof fn lemma_execute_keeps_rooms_sound(
    s: StateView,
    env: Env,
    info: MessageInfo,
    msg: ExecuteMsg,
    holding: Option<bool>,
)
    ensures
        match executed(s, env, info, msg, holding) {
            Ok((after, _)) => follows(s, after),
            Err(_) => true,
        },
{
    let now = env.block_time;
    match executed(s, env, info, msg, holding) {
        Ok((after, _)) => {
            match msg {
                ExecuteMsg::Receive(wrapper) => {
                    match wrapper.msg {
                        Cw20HookMsg::Stake { room_id } => {
                            lemma_first_match(s.rooms, room_hit(room_id));
                            let i = room_slot(s.rooms, room_id).unwrap();
                            let slot = position_slot(s.user_positions, wrapper.sender@, room_id);
                            let pos = match slot {
                                Some(k) => s.user_positions[k],
                                None => new_position(room_id, wrapper.sender, now),
                            };
                            lemma_settled_position(s.rooms[i], pos, now, holding);
                            lemma_room_replaced(s, i, after.rooms[i], after);
                        },
                        Cw20HookMsg::FundPool { room_id } => {
                            lemma_first_match(s.rooms, room_hit(room_id));
                            let i = room_slot(s.rooms, room_id).unwrap();
                            lemma_room_managed(
                                s.rooms[i],
                                now,
                                AssetInfo::Cw20(info.sender),
                                wrapper.amount,
                            );
                            lemma_room_replaced(s, i, after.rooms[i], after);
                        },
                    }
                },
                ExecuteMsg::Unstake { room_id, amount, token_address } => {
                    lemma_first_match(s.rooms, room_hit(room_id));
                    let i = room_slot(s.rooms, room_id).unwrap();
                    let k = position_slot(s.user_positions, info.sender@, room_id).unwrap();
                    lemma_settled_position(s.rooms[i], s.user_positions[k], now, holding);
                    lemma_room_replaced(s, i, after.rooms[i], after);
                },
                ExecuteMsg::ClaimRewards { room_id } => {
                    lemma_first_match(s.rooms, room_hit(room_id));
                    let i = room_slot(s.rooms, room_id).unwrap();
                    let k = position_slot(s.user_positions, info.sender@, room_id).unwrap();
                    lemma_claimed(s.rooms[i], s.user_positions[k], now, holding);
                    lemma_room_replaced(s, i, after.rooms[i], after);
                },
                ExecuteMsg::ToggleAutoCompound { room_id, enabled } => {},
                ExecuteMsg::Compound { room_id } => {
                    lemma_first_match(s.rooms, room_hit(room_id));
                    let i = room_slot(s.rooms, room_id).unwrap();
                    let k = position_slot(s.user_positions, info.sender@, room_id).unwrap();
                    lemma_settled_position(s.rooms[i], s.user_positions[k], now, holding);
                    lemma_room_replaced(s, i, after.rooms[i], after);
                },
                ExecuteMsg::CreateRoom {
                    name,
                    stake_config,
                    nft_config,
                    auto_compound_config,
                    early_withdraw_penalty,
                    cooldown_period,
                } => {},
                ExecuteMsg::UpdateRoom {
                    room_id,
                    paused,
                    early_withdraw_penalty,
                    cooldown_period,
                } => {
                    lemma_first_match(s.rooms, room_hit(room_id));
                    let i = room_slot(s.rooms, room_id).unwrap();
                    lemma_room_replaced(s, i, after.rooms[i], after);
                },
                ExecuteMsg::AddRewardPool { room_id, reward_token, emission_per_second } => {
                    lemma_first_match(s.rooms, room_hit(room_id));
                    let i = room_slot(s.rooms, room_id).unwrap();
                    lemma_room_managed(s.rooms[i], now, reward_token, emission_per_second);
                    lemma_room_replaced(s, i, after.rooms[i], after);
                },
                ExecuteMsg::UpdateRewardPool { room_id, reward_token, emission_per_second } => {
                    lemma_first_match(s.rooms, room_hit(room_id));
                    let i = room_slot(s.rooms, room_id).unwrap();
                    lemma_room_managed(s.rooms[i], now, reward_token, emission_per_second);
                    lemma_room_replaced(s, i, after.rooms[i], after);
                },
                ExecuteMsg::FundRewardPool { room_id } => {
                    lemma_first_match(s.rooms, room_hit(room_id));
                    let i = room_slot(s.rooms, room_id).unwrap();
                    lemma_room_managed(
                        s.rooms[i],
                        now,
                        AssetInfo::Native(info.funds@[0].denom),
                        info.funds@[0].amount,
                    );
                    lemma_room_replaced(s, i, after.rooms[i], after);
                },
                ExecuteMsg::UpdateConfig { admin, paused } => {},
            }
        },
        Err(_) => {},
    }
}

} // verus!
