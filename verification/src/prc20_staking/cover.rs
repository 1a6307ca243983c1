//! What a room owes in a reward asset, all its positions together, and by
//! how much an advance of the asset raises it.

use vstd::prelude::*;
use crate::math::{scaled, DECIMAL_FRACTIONAL};
use crate::prc20_staking::engine::{
    advanced_config, capped_reward, checkpoint_hit, checkpoint_moved, earned, last_paid,
    pending_added, pending_hit, reward_settled, rewards_updated, share_increase, user_weight,
};
use crate::prc20_staking::laws::lemma_accumulator_monotonic;
use crate::prc20_staking::state::{AssetInfo, RewardConfig, RoomView, StateView, UserPositionView};
use crate::prc20_staking::weights::{room_weight, weight_in, weights_balanced};
use crate::table::{first_match, lemma_first_match, lemma_put_found, put_at};

verus! {

/// What is pending for a position in `asset`; nothing in an asset that it
/// never earned.
pub open spec fn pending_in(pending: Seq<(AssetInfo, u128)>, asset: AssetInfo) -> u128 {
    match first_match(pending, pending_hit(asset)) {
        Some(i) => pending[i].1,
        None => 0,
    }
}

/// What a position is owed in a reward asset, in atomic units of the
/// accumulator: what is pending for it, and its weight times the growth of
/// the accumulator since its checkpoint, which is not rounded here.
pub open spec fn owed_to(pos: UserPositionView, room: RoomView, config: RewardConfig) -> int {
    pending_in(pos.pending_rewards, config.reward_token) * (DECIMAL_FRACTIONAL as int) + weight_in(
        pos,
        room,
    ) * (config.acc_reward_per_share.atomics - last_paid(
        pos.last_reward_per_share,
        config.reward_token,
    ).atomics)
}

/// What the positions of a room are owed together in a reward asset, in
/// atomic units of the accumulator.
pub open spec fn owed_in(positions: Seq<UserPositionView>, room: RoomView, config: RewardConfig) -> int
    decreases positions.len(),
{
    if positions.len() == 0 {
        0
    } else if positions.last().room_id == room.id {
        owed_in(positions.drop_last(), room, config) + owed_to(positions.last(), room, config)
    } else {
        owed_in(positions.drop_last(), room, config)
    }
}

/// What the asset can still pay, in atomic units of the accumulator.
pub open spec fn cover_of(config: RewardConfig) -> int {
    config.available() * (DECIMAL_FRACTIONAL as int)
}

/// What a position would be paid now, what is pending and what it earned
/// since its checkpoint, rounded down, is what it is owed, rounded down.
pub proof fn lemma_pending_is_owed_rounded(pos: UserPositionView, room: RoomView, config: RewardConfig)
    requires
        user_weight(pos, room) is Ok,
        earned(pos.last_reward_per_share, config, user_weight(pos, room).unwrap()) is Ok,
    ensures
        ({
            let earned = earned(
                pos.last_reward_per_share,
                config,
                user_weight(pos, room).unwrap(),
            ).unwrap();
            let pending = pending_in(pos.pending_rewards, config.reward_token) + earned;
            pending * (DECIMAL_FRACTIONAL as int) <= owed_to(pos, room, config) < (pending + 1) * (
            DECIMAL_FRACTIONAL as int)
        }),
{
    let d = DECIMAL_FRACTIONAL as int;
    let weight = user_weight(pos, room).unwrap() as int;
    let growth = config.acc_reward_per_share.atomics - last_paid(
        pos.last_reward_per_share,
        config.reward_token,
    ).atomics;
    let stored = pending_in(pos.pending_rewards, config.reward_token) as int;
    let product = weight * growth;
    assert(scaled(weight, growth) == product / d);
    assert((product / d) * d <= product < (product / d + 1) * d) by (nonlinear_arith)
        requires
            d == 1_000_000_000_000_000_000,
    ;
    assert((stored + product / d) * d == stored * d + (product / d) * d) by (nonlinear_arith);
    assert((stored + product / d + 1) * d == stored * d + (product / d + 1) * d)
        by (nonlinear_arith);
}

/// A settlement of a position against a reward asset raises nothing that
/// the position is owed in it: what it earned since its checkpoint becomes
/// pending, rounded down, and the checkpoint moves to the accumulator.
pub proof fn lemma_settlement_rounds_down(pos: UserPositionView, room: RoomView, config: RewardConfig)
    requires
        user_weight(pos, room) is Ok,
        reward_settled(pos, config, user_weight(pos, room).unwrap()) is Ok,
    ensures
        ({
            let after = reward_settled(pos, config, user_weight(pos, room).unwrap()).unwrap();
            let d = DECIMAL_FRACTIONAL as int;
            &&& owed_to(after, room, config) == pending_in(
                after.pending_rewards,
                config.reward_token,
            ) * d
            &&& owed_to(after, room, config) <= owed_to(pos, room, config) < owed_to(
                after,
                room,
                config,
            ) + d
        }),
{
    let weight = user_weight(pos, room).unwrap();
    let asset = config.reward_token;
    let amount = earned(pos.last_reward_per_share, config, weight).unwrap();
    let after = reward_settled(pos, config, weight).unwrap();
    lemma_first_match(pos.pending_rewards, pending_hit(asset));
    lemma_first_match(pos.last_reward_per_share, checkpoint_hit(asset));
    let pending_entry = match first_match(pos.pending_rewards, pending_hit(asset)) {
        Some(i) => (pos.pending_rewards[i].0, (pos.pending_rewards[i].1 + amount) as u128),
        None => (asset, amount),
    };
    let checkpoint_entry = match first_match(pos.last_reward_per_share, checkpoint_hit(asset)) {
        Some(i) => (pos.last_reward_per_share[i].0, config.acc_reward_per_share),
        None => (asset, config.acc_reward_per_share),
    };
    lemma_put_found(pos.pending_rewards, pending_hit(asset), pending_entry);
    lemma_put_found(pos.last_reward_per_share, checkpoint_hit(asset), checkpoint_entry);
    assert(pending_added(pos.pending_rewards, asset, amount) == Some(
        put_at(
            pos.pending_rewards,
            first_match(pos.pending_rewards, pending_hit(asset)),
            pending_entry,
        ),
    ));
    assert(checkpoint_moved(pos.last_reward_per_share, asset, config.acc_reward_per_share)
        == put_at(
        pos.last_reward_per_share,
        first_match(pos.last_reward_per_share, checkpoint_hit(asset)),
        checkpoint_entry,
    ));
    assert(pending_in(after.pending_rewards, asset) == pending_in(pos.pending_rewards, asset)
        + amount);
    assert(last_paid(after.last_reward_per_share, asset) == config.acc_reward_per_share);
    assert(user_weight(after, room) == user_weight(pos, room));
    assert(weight_in(after, room) * 0 == 0);
    lemma_pending_is_owed_rounded(pos, room, config);
    let d = DECIMAL_FRACTIONAL as int;
    let stored = pending_in(pos.pending_rewards, asset) as int;
    assert((stored + amount + 1) * d == (stored + amount) * d + d) by (nonlinear_arith);
}

proof fn lemma_owed_grows(
    positions: Seq<UserPositionView>,
    room: RoomView,
    after: RoomView,
    config: RewardConfig,
    advanced: RewardConfig,
    growth: int,
)
    requires
        after.id == room.id,
        after.stake_config == room.stake_config,
        advanced.reward_token == config.reward_token,
        advanced.acc_reward_per_share.atomics == config.acc_reward_per_share.atomics + growth,
    ensures
        owed_in(positions, after, advanced) == owed_in(positions, room, config) + room_weight(
            positions,
            room,
        ) * growth,
    decreases positions.len(),
{
    if positions.len() > 0 {
        let front = positions.drop_last();
        let pos = positions.last();
        lemma_owed_grows(front, room, after, config, advanced, growth);
        let sum = room_weight(front, room);
        if pos.room_id == room.id {
            let w = weight_in(pos, room);
            assert(weight_in(pos, after) == w);
            let since = config.acc_reward_per_share.atomics - last_paid(
                pos.last_reward_per_share,
                config.reward_token,
            ).atomics;
            assert(w * (since + growth) == w * since + w * growth) by (nonlinear_arith);
            assert((sum + w) * growth == sum * growth + w * growth) by (nonlinear_arith);
        }
    } else {
        assert(0 * growth == 0);
    }
}

/// Conservation over one advance of a room whose weights are balanced:
/// the advance of a reward asset raises what the positions of the room are
/// owed in it, all together, by the room's total weight times the growth of
/// the accumulator and by nothing else, and that is no more than the asset
/// could still pay before the advance. So what is owed stays within what the
/// asset can pay exactly where what was owed before leaves room for the
/// advance.
pub proof fn lemma_advance_raises_what_is_owed(s: StateView, i: int, j: int, now: u64)
    requires
        weights_balanced(s),
        0 <= i < s.rooms.len(),
        0 <= j < s.rooms[i].reward_configs.len(),
        rewards_updated(s.rooms[i], now) is Ok,
    ensures
        ({
            let room = s.rooms[i];
            let after = rewards_updated(room, now).unwrap();
            let config = room.reward_configs[j];
            let advanced = after.reward_configs[j];
            let raised = room.total_staked_weight * (advanced.acc_reward_per_share.atomics
                - config.acc_reward_per_share.atomics);
            &&& after.reward_configs.len() == room.reward_configs.len()
            &&& advanced.total_deposited == config.total_deposited
            &&& advanced.total_claimed == config.total_claimed
            &&& owed_in(s.user_positions, after, advanced) == owed_in(s.user_positions, room, config)
                + raised
            &&& 0 <= raised <= cover_of(config)
            &&& owed_in(s.user_positions, room, config) + raised <= cover_of(config) <==> owed_in(
                s.user_positions,
                after,
                advanced,
            ) <= cover_of(advanced)
        }),
{
    let room = s.rooms[i];
    let after = rewards_updated(room, now).unwrap();
    let config = room.reward_configs[j];
    let advanced = after.reward_configs[j];
    let growth = advanced.acc_reward_per_share.atomics - config.acc_reward_per_share.atomics;
    let d = DECIMAL_FRACTIONAL as int;
    let total = room.total_staked_weight as int;
    if room.total_staked_weight == 0 || now <= room.last_update_time {
        assert(growth == 0);
        assert(total * 0 == 0);
    } else {
        let duration = (now - room.last_update_time) as u64;
        assert(advanced_config(config, room.total_staked_weight, duration) is Ok);
        assert(advanced == advanced_config(config, room.total_staked_weight, duration).unwrap());
        lemma_accumulator_monotonic(config, room.total_staked_weight, duration);
        let reward = capped_reward(config, duration);
        assert(config.emission_per_second * duration >= 0) by (nonlinear_arith)
            requires
                config.emission_per_second >= 0,
                duration >= 0,
        ;
        assert(0 <= reward <= config.available());
        assert(growth == 0 || growth == share_increase(reward, room.total_staked_weight));
        if growth == 0 {
            assert(total * 0 == 0);
        } else {
            let share = reward * d / total;
            assert(reward * d >= 0) by (nonlinear_arith)
                requires
                    reward >= 0,
                    d > 0,
            ;
            assert(0 <= total * share <= reward * d) by (nonlinear_arith)
                requires
                    reward * d >= 0,
                    total > 0,
                    share == reward * d / total,
            ;
            assert(reward * d <= config.available() * d) by (nonlinear_arith)
                requires
                    reward <= config.available(),
                    d > 0,
            ;
        }
    }
    assert(0 <= config.available() * d) by (nonlinear_arith)
        requires
            0 <= config.available(),
            d > 0,
    ;
    lemma_owed_grows(s.user_positions, room, after, config, advanced, growth);
}

} // verus!
