//! Changes to a room that its administrator and its funders make: reward
//! assets added, their emission changed, their funding raised.

use vstd::prelude::*;
use crate::math::Decimal;
use crate::prc20_staking::engine::{rewards_updated, update_room_rewards};
use crate::prc20_staking::error::ContractError;
use crate::prc20_staking::position::{config_hit, find_config};
use crate::prc20_staking::state::{AssetInfo, RewardConfig, Room, RoomView};
use crate::table::first_match;

verus! {

/// A reward asset as it is added to a room: unfunded, with its accumulator
/// at zero.
pub open spec fn new_reward_config(reward_token: AssetInfo, emission_per_second: u128) -> RewardConfig {
    RewardConfig {
        reward_token,
        emission_per_second,
        total_deposited: 0,
        total_claimed: 0,
        acc_reward_per_share: Decimal { atomics: 0 },
    }
}

/// A room with one more reward asset. An asset that the room already
/// rewards is refused. The room is brought up to `now` before the asset is
/// added.
pub open spec fn reward_pool_added(
    room: RoomView,
    now: u64,
    reward_token: AssetInfo,
    emission_per_second: u128,
) -> Result<RoomView, ContractError> {
    if first_match(room.reward_configs, config_hit(reward_token)) is Some {
        Err(ContractError::InvalidRewardToken)
    } else {
        match rewards_updated(room, now) {
            Err(e) => Err(e),
            Ok(room1) => Ok(
                RoomView {
                    reward_configs: room1.reward_configs.push(
                        new_reward_config(reward_token, emission_per_second),
                    ),
                    ..room1
                },
            ),
        }
    }
}

/// Adds a reward asset to a room.
pub fn add_reward_pool(room: &mut Room, now: u64, reward_token: AssetInfo, emission_per_second: u128) -> (r:
    Result<(), ContractError>)
    ensures
        match r {
            Ok(()) => reward_pool_added(old(room)@, now, reward_token, emission_per_second) == Ok::<
                RoomView,
                ContractError,
            >(final(room)@),
            Err(e) => reward_pool_added(old(room)@, now, reward_token, emission_per_second) == Err::<
                RoomView,
                ContractError,
            >(e) && final(room)@ == old(room)@,
        },
{
    if find_config(&room.reward_configs, &reward_token).is_some() {
        return Err(ContractError::InvalidRewardToken);
    }
    match update_room_rewards(room, now) {
        Ok(()) => {},
        Err(e) => {
            return Err(e);
        },
    }
    room.reward_configs.push(
        RewardConfig {
            reward_token,
            emission_per_second,
            total_deposited: 0,
            total_claimed: 0,
            acc_reward_per_share: Decimal::zero(),
        },
    );
    Ok(())
}

/// A room with the emission of one reward asset changed. An asset that the
/// room does not reward is refused. The room is brought up to `now` under the
/// old emission before the new one is set.
pub open spec fn emission_changed(
    room: RoomView,
    now: u64,
    reward_token: AssetInfo,
    emission_per_second: u128,
) -> Result<RoomView, ContractError> {
    match first_match(room.reward_configs, config_hit(reward_token)) {
        None => Err(ContractError::InvalidRewardToken),
        Some(i) => match rewards_updated(room, now) {
            Err(e) => Err(e),
            Ok(room1) => Ok(
                RoomView {
                    reward_configs: room1.reward_configs.update(
                        i,
                        RewardConfig { emission_per_second, ..room1.reward_configs[i] },
                    ),
                    ..room1
                },
            ),
        },
    }
}

/// Changes the emission of a reward asset of a room.
pub fn change_emission(
    room: &mut Room,
    now: u64,
    reward_token: &AssetInfo,
    emission_per_second: u128,
) -> (r: Result<(), ContractError>)
    ensures
        match r {
            Ok(()) => emission_changed(old(room)@, now, *reward_token, emission_per_second) == Ok::<
                RoomView,
                ContractError,
            >(final(room)@),
            Err(e) => emission_changed(old(room)@, now, *reward_token, emission_per_second) == Err::<
                RoomView,
                ContractError,
            >(e) && final(room)@ == old(room)@,
        },
{
    let i = match find_config(&room.reward_configs, reward_token) {
        Some(i) => i,
        None => {
            return Err(ContractError::InvalidRewardToken);
        },
    };
    match update_room_rewards(room, now) {
        Ok(()) => {},
        Err(e) => {
            return Err(e);
        },
    }
    let mut config = room.reward_configs[i].clone();
    config.emission_per_second = emission_per_second;
    room.reward_configs.set(i, config);
    Ok(())
}

/// A room with the funding of one reward asset raised by `amount`. An asset
/// that the room does not reward is refused.
pub open spec fn funded(room: RoomView, asset: AssetInfo, amount: u128) -> Result<
    RoomView,
    ContractError,
> {
    match first_match(room.reward_configs, config_hit(asset)) {
        None => Err(ContractError::InvalidRewardToken),
        Some(i) => if room.reward_configs[i].total_deposited + amount > u128::MAX {
            Err(ContractError::Overflow)
        } else {
            Ok(
                RoomView {
                    reward_configs: room.reward_configs.update(
                        i,
                        RewardConfig {
                            total_deposited: (room.reward_configs[i].total_deposited
                                + amount) as u128,
                            ..room.reward_configs[i]
                        },
                    ),
                    ..room
                },
            )
        },
    }
}

/// Raises the funding of a reward asset of a room.
pub fn fund(room: &mut Room, asset: &AssetInfo, amount: u128) -> (r: Result<(), ContractError>)
    ensures
        match r {
            Ok(()) => funded(old(room)@, *asset, amount) == Ok::<RoomView, ContractError>(
                final(room)@,
            ),
            Err(e) => funded(old(room)@, *asset, amount) == Err::<RoomView, ContractError>(e)
                && final(room)@ == old(room)@,
        },
{
    let i = match find_config(&room.reward_configs, asset) {
        Some(i) => i,
        None => {
            return Err(ContractError::InvalidRewardToken);
        },
    };
    let total = match room.reward_configs[i].total_deposited.checked_add(amount) {
        Some(total) => total,
        None => {
            return Err(ContractError::Overflow);
        },
    };
    let mut config = room.reward_configs[i].clone();
    config.total_deposited = total;
    room.reward_configs.set(i, config);
    Ok(())
}

} // verus!
