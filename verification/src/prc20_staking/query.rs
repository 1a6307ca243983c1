//! Read-only questions about rooms and positions. Pending rewards are
//! projected with the arithmetic of a settlement, and nothing is written.

use vstd::prelude::*;
use crate::host::Env;
use crate::math::Decimal;
use crate::prc20_staking::engine::{
    calculate_user_weight, nft_multiplier, query_nft_multiplier, rewards_settled,
    rewards_updated, staked_total, total_stake, update_room_rewards, update_user_rewards,
    user_weight,
};
use crate::prc20_staking::error::ContractError;
use crate::prc20_staking::msg::{
    APREstimateResponse, ConfigResponse, EligibilityResponse, PendingRewardsResponse,
    RoomResponse, UserPositionResponse,
};
use crate::prc20_staking::position::{can_auto_compound, may_auto_compound};
use crate::prc20_staking::state::{
    find_position, find_room, position_slot, room_slot, AssetInfo, RewardConfig, RoomView,
    State, StateView, UserPositionView,
};

verus! {

/// The most entries that one page holds.
pub const MAX_LIMIT: u32 = 30;

/// The entries that a page holds where the caller names no limit.
pub const DEFAULT_LIMIT: u32 = 10;

/// Seconds in the year of 365 days over which an emission is projected.
pub const YEAR_SECONDS: u128 = 31_536_000;

/// The global settings.
pub fn query_config(state: &State) -> (r: ConfigResponse)
    ensures
        r.admin == state.config.admin,
        r.paused == state.config.paused,
{
    ConfigResponse { admin: state.config.admin.clone(), paused: state.config.paused }
}

/// The room `room_id` as it is stored.
pub fn query_room(state: &State, room_id: u64) -> (r: Result<RoomResponse, ContractError>)
    ensures
        match r {
            Ok(response) => room_slot(state@.rooms, room_id) is Some && response.room@
                == state@.rooms[room_slot(state@.rooms, room_id).unwrap()],
            Err(e) => e == ContractError::RoomNotFound && room_slot(state@.rooms, room_id) is None,
        },
{
    match find_room(&state.rooms, room_id) {
        Some(i) => Ok(RoomResponse { room: state.rooms[i].clone() }),
        None => Err(ContractError::RoomNotFound),
    }
}

/// The size of a page: what was asked for, ten by default, thirty at most.
pub open spec fn page_size(limit: Option<u32>) -> nat {
    match limit {
        Some(n) => if n < MAX_LIMIT {
            n as nat
        } else {
            MAX_LIMIT as nat
        },
        None => DEFAULT_LIMIT as nat,
    }
}

/// Whether a room comes after the cursor `start_after`.
pub open spec fn listed(room: RoomView, start_after: Option<u64>) -> bool {
    match start_after {
        Some(id) => room.id > id,
        None => true,
    }
}

/// The rooms after the cursor, in their order.
pub open spec fn rooms_after(rooms: Seq<RoomView>, start_after: Option<u64>) -> Seq<RoomView>
    decreases rooms.len(),
{
    if rooms.len() == 0 {
        Seq::empty()
    } else if listed(rooms.last(), start_after) {
        rooms_after(rooms.drop_last(), start_after).push(rooms.last())
    } else {
        rooms_after(rooms.drop_last(), start_after)
    }
}

/// The first `size` entries of `s`, or all where there are fewer.
pub open spec fn first_page<T>(s: Seq<T>, size: nat) -> Seq<T> {
    if s.len() <= size {
        s
    } else {
        s.take(size as int)
    }
}

/// The rooms that a list of answers shows.
pub open spec fn rooms_shown(responses: Seq<RoomResponse>) -> Seq<RoomView> {
    responses.map_values(|r: RoomResponse| r.room@)
}

/// One page of the rooms after the cursor `start_after`, in the order of
/// their creation.
pub fn query_rooms(state: &State, start_after: Option<u64>, limit: Option<u32>) -> (r: Vec<
    RoomResponse,
>)
    ensures
        rooms_shown(r@) == first_page(rooms_after(state@.rooms, start_after), page_size(limit)),
{
    let size: usize = match limit {
        Some(n) => if n < MAX_LIMIT {
            n as usize
        } else {
            MAX_LIMIT as usize
        },
        None => DEFAULT_LIMIT as usize,
    };
    let mut page: Vec<RoomResponse> = Vec::new();
    let ghost rooms = state@.rooms;
    let mut i: usize = 0;
    while i < state.rooms.len()
        invariant
            i <= state.rooms.len(),
            size == page_size(limit),
            rooms == state@.rooms,
            rooms.len() == state.rooms.len(),
            rooms_shown(page@) == first_page(rooms_after(rooms.take(i as int), start_after), size as nat),
        decreases state.rooms.len() - i,
    {
        let room = &state.rooms[i];
        let after = match start_after {
            Some(id) => room.id > id,
            None => true,
        };
        let ghost before = rooms_after(rooms.take(i as int), start_after);
        let ghost shown = rooms_shown(page@);
        proof {
            assert(rooms.take(i + 1).drop_last() =~= rooms.take(i as int));
            assert(rooms.take(i + 1).last() == room@);
        }
        if after && page.len() < size {
            page.push(RoomResponse { room: room.clone() });
            assert(rooms_shown(page@) =~= shown.push(room@));
            assert(first_page(before.push(room@), size as nat) =~= first_page(
                before,
                size as nat,
            ).push(room@));
        } else if after {
            assert(shown.len() == size);
            assert(first_page(before.push(room@), size as nat) =~= first_page(before, size as nat));
        }
        i = i + 1;
    }
    assert(rooms.take(state.rooms.len() as int) =~= rooms);
    page
}

/// The position of `user` in the room `room_id`, if there is one.
pub fn query_user_position(state: &State, room_id: u64, user: &String) -> (r: UserPositionResponse)
    ensures
        match position_slot(state@.user_positions, user@, room_id) {
            Some(k) => r.position is Some && r.position.unwrap()@ == state@.user_positions[k],
            None => r.position is None,
        },
{
    match find_position(&state.user_positions, user, room_id) {
        Some(k) => UserPositionResponse { position: Some(state.user_positions[k].clone()) },
        None => UserPositionResponse { position: None },
    }
}

/// What is pending for a position after a settlement at the time `now`
/// under the multiplier that the position has.
pub open spec fn pending_projection(room: RoomView, pos: UserPositionView, now: u64) -> Result<
    Seq<(AssetInfo, u128)>,
    ContractError,
> {
    match rewards_updated(room, now) {
        Err(e) => Err(e),
        Ok(room1) => match user_weight(pos, room1) {
            Err(e) => Err(e),
            Ok(weight) => match rewards_settled(pos, room1.reward_configs, weight, 0) {
                Err(e) => Err(e),
                Ok(pos1) => Ok(pos1.pending_rewards),
            },
        },
    }
}

/// What is pending for `user` in the room `room_id` at the time `now`;
/// nothing for a participant without a position.
pub open spec fn pending_queried(s: StateView, now: u64, room_id: u64, user: Seq<char>) -> Result<
    Seq<(AssetInfo, u128)>,
    ContractError,
> {
    match room_slot(s.rooms, room_id) {
        None => Err(ContractError::RoomNotFound),
        Some(i) => match position_slot(s.user_positions, user, room_id) {
            None => Ok(Seq::empty()),
            Some(k) => pending_projection(s.rooms[i], s.user_positions[k], now),
        },
    }
}

/// Projects what is pending for `user` in the room `room_id` at the block
/// time.
pub fn query_pending_rewards(state: &State, env: &Env, room_id: u64, user: &String) -> (r: Result<
    PendingRewardsResponse,
    ContractError,
>)
    ensures
        match r {
            Ok(response) => pending_queried(state@, env.block_time, room_id, user@) == Ok::<
                Seq<(AssetInfo, u128)>,
                ContractError,
            >(response.rewards@),
            Err(e) => pending_queried(state@, env.block_time, room_id, user@) == Err::<
                Seq<(AssetInfo, u128)>,
                ContractError,
            >(e),
        },
{
    let i = match find_room(&state.rooms, room_id) {
        Some(i) => i,
        None => {
            return Err(ContractError::RoomNotFound);
        },
    };
    let k = match find_position(&state.user_positions, user, room_id) {
        Some(k) => k,
        None => {
            return Ok(PendingRewardsResponse { rewards: Vec::new() });
        },
    };
    let mut room = state.rooms[i].clone();
    let mut pos = state.user_positions[k].clone();
    match update_room_rewards(&mut room, env.block_time) {
        Ok(()) => {},
        Err(e) => {
            return Err(e);
        },
    }
    let weight = match calculate_user_weight(&pos, &room) {
        Ok(weight) => weight,
        Err(e) => {
            return Err(e);
        },
    };
    match update_user_rewards(&mut pos, &room, weight) {
        Ok(()) => {},
        Err(e) => {
            return Err(e);
        },
    }
    Ok(PendingRewardsResponse { rewards: pos.pending_rewards })
}

/// The yearly return of one reward asset per unit of weight in a room of
/// the total weight `weight`: zero without weight or without funds left,
/// else a year's emission divided by the weight.
pub open spec fn apr_estimate(config: RewardConfig, weight: u128) -> Result<Decimal, ContractError> {
    if weight == 0 || config.available() == 0 {
        Ok(Decimal { atomics: 0 })
    } else if config.emission_per_second * YEAR_SECONDS > u128::MAX {
        Err(ContractError::Overflow)
    } else {
        match Decimal::spec_from_ratio(
            config.emission_per_second * YEAR_SECONDS,
            weight as int,
        ) {
            Ok(apr) => Ok(apr),
            Err(_) => Err(ContractError::Overflow),
        }
    }
}

/// Estimates the yearly return of one reward asset.
pub fn estimate_apr(config: &RewardConfig, weight: u128) -> (r: Result<Decimal, ContractError>)
    ensures
        r == apr_estimate(*config, weight),
{
    if weight == 0 || config.total_deposited <= config.total_claimed {
        return Ok(Decimal::zero());
    }
    let annual = match config.emission_per_second.checked_mul(YEAR_SECONDS) {
        Some(annual) => annual,
        None => {
            return Err(ContractError::Overflow);
        },
    };
    match Decimal::checked_from_ratio(annual, weight) {
        Ok(apr) => Ok(apr),
        Err(_) => Err(ContractError::Overflow),
    }
}

/// Whether the return of every asset of `configs` can be estimated.
pub open spec fn aprs_exist(configs: Seq<RewardConfig>, weight: u128) -> bool {
    forall|i: int| 0 <= i < configs.len() ==> apr_estimate(#[trigger] configs[i], weight) is Ok
}

/// The estimated return of every asset of `configs`.
pub open spec fn apr_estimates(configs: Seq<RewardConfig>, weight: u128) -> Seq<(AssetInfo, Decimal)> {
    Seq::new(
        configs.len(),
        |i: int| (configs[i].reward_token, apr_estimate(configs[i], weight).unwrap()),
    )
}

/// The estimated yearly returns of the room `room_id`, one for each reward
/// asset.
pub open spec fn apr_queried(s: StateView, room_id: u64) -> Result<
    Seq<(AssetInfo, Decimal)>,
    ContractError,
> {
    match room_slot(s.rooms, room_id) {
        None => Err(ContractError::RoomNotFound),
        Some(i) => if aprs_exist(s.rooms[i].reward_configs, s.rooms[i].total_staked_weight) {
            Ok(apr_estimates(s.rooms[i].reward_configs, s.rooms[i].total_staked_weight))
        } else {
            Err(ContractError::Overflow)
        },
    }
}

/// Estimates the yearly returns of the room `room_id`.
pub fn query_apr_estimate(state: &State, room_id: u64) -> (r: Result<
    APREstimateResponse,
    ContractError,
>)
    ensures
        match r {
            Ok(response) => apr_queried(state@, room_id) == Ok::<
                Seq<(AssetInfo, Decimal)>,
                ContractError,
            >(response.aprs@),
            Err(e) => apr_queried(state@, room_id) == Err::<
                Seq<(AssetInfo, Decimal)>,
                ContractError,
            >(e),
        },
{
    let i = match find_room(&state.rooms, room_id) {
        Some(i) => i,
        None => {
            return Err(ContractError::RoomNotFound);
        },
    };
    let room = &state.rooms[i];
    let mut aprs: Vec<(AssetInfo, Decimal)> = Vec::new();
    let mut k: usize = 0;
    while k < room.reward_configs.len()
        invariant
            k <= room.reward_configs.len(),
            aprs.len() == k,
            room_slot(state@.rooms, room_id) == Some(i as int),
            state@.rooms[i as int] == room@,
            forall|j: int|
                0 <= j < k ==> apr_estimate(
                    #[trigger] room.reward_configs@[j],
                    room.total_staked_weight,
                ) is Ok && aprs@[j] == (
                    room.reward_configs@[j].reward_token,
                    apr_estimate(room.reward_configs@[j], room.total_staked_weight).unwrap(),
                ),
        decreases room.reward_configs.len() - k,
    {
        match estimate_apr(&room.reward_configs[k], room.total_staked_weight) {
            Ok(apr) => {
                aprs.push((room.reward_configs[k].reward_token.clone(), apr));
            },
            Err(_) => {
                assert(apr_estimate(room.reward_configs@[k as int], room.total_staked_weight) is Err);
                return Err(ContractError::Overflow);
            },
        }
        k = k + 1;
    }
    assert(aprs@ =~= apr_estimates(room.reward_configs@, room.total_staked_weight));
    Ok(APREstimateResponse { aprs })
}

/// Whether a participant may stake in a room and may opt in to
/// compounding, and the multiplier that their credential earns.
pub open spec fn eligibility(room: RoomView, staked: int, holding: Option<bool>) -> EligibilityResponse {
    let multiplier = nft_multiplier(room.nft_config, holding);
    EligibilityResponse {
        can_stake: match room.nft_config {
            Some(config) => !config.required_for_staking || multiplier.atomics > 0,
            None => true,
        },
        can_auto_compound: room.auto_compound_config.enabled && may_auto_compound(
            room.auto_compound_config,
            staked,
            multiplier,
        ),
        nft_multiplier: multiplier,
    }
}

/// What `user` has staked in the room `room_id` in all tokens together;
/// zero without a position.
pub open spec fn staked_by(s: StateView, room_id: u64, user: Seq<char>) -> int {
    match position_slot(s.user_positions, user, room_id) {
        Some(k) => staked_total(s.user_positions[k].staked_amounts),
        None => 0,
    }
}

/// The eligibility of `user` in the room `room_id`.
pub open spec fn eligibility_queried(
    s: StateView,
    room_id: u64,
    user: Seq<char>,
    holding: Option<bool>,
) -> Result<EligibilityResponse, ContractError> {
    match room_slot(s.rooms, room_id) {
        None => Err(ContractError::RoomNotFound),
        Some(i) => if s.rooms[i].auto_compound_config.enabled && staked_by(s, room_id, user)
            > u128::MAX {
            Err(ContractError::Overflow)
        } else {
            Ok(eligibility(s.rooms[i], staked_by(s, room_id, user), holding))
        },
    }
}

/// Says whether `user` may stake and may compound in the room `room_id`.
pub fn query_eligibility(state: &State, room_id: u64, user: &String, holding: Option<bool>) -> (r:
    Result<EligibilityResponse, ContractError>)
    ensures
        r == eligibility_queried(state@, room_id, user@, holding),
{
    let i = match find_room(&state.rooms, room_id) {
        Some(i) => i,
        None => {
            return Err(ContractError::RoomNotFound);
        },
    };
    let room = &state.rooms[i];
    let multiplier = query_nft_multiplier(room, holding);
    let can_stake = match &room.nft_config {
        Some(config) => !config.required_for_staking || multiplier.atomics > 0,
        None => true,
    };
    let can_auto_compound = if room.auto_compound_config.enabled {
        let staked = match find_position(&state.user_positions, user, room_id) {
            Some(k) => match total_stake(&state.user_positions[k].staked_amounts) {
                Some(total) => total,
                None => {
                    return Err(ContractError::Overflow);
                },
            },
            None => 0,
        };
        can_auto_compound(&room.auto_compound_config, staked, multiplier)
    } else {
        false
    };
    Ok(EligibilityResponse { can_stake, can_auto_compound, nft_multiplier: multiplier })
}

} // verus!
