//! The total weight of a room is the sum of the weights of its positions,
//! whatever is called.

use vstd::prelude::*;
use crate::host::{Env, MessageInfo};
use crate::prc20_staking::contract::{executed, initial_state, new_position};
use crate::prc20_staking::engine::{advanced_config, rewards_updated, user_weight};
use crate::prc20_staking::laws::{earned_total, lemma_advance_is_funded, well_formed, weights_total};
use crate::prc20_staking::msg::{Cw20HookMsg, ExecuteMsg, InstantiateMsg};
use crate::prc20_staking::position::{
    claimed, compounded, lemma_settlement_keeps_stakes, settled_position, staked, unstaked,
};
use crate::prc20_staking::state::{
    position_hit, position_slot, room_hit, room_slot, RoomView, StateView, UserPositionView,
};
use crate::table::lemma_first_match;

verus! {

/// The weight with which a position counts in a room; nothing where the
/// weight leaves the 128-bit range.
pub open spec fn weight_in(pos: UserPositionView, room: RoomView) -> int {
    match user_weight(pos, room) {
        Ok(weight) => weight as int,
        Err(_) => 0,
    }
}

/// The sum of the weights of the positions that are in the room.
pub open spec fn room_weight(positions: Seq<UserPositionView>, room: RoomView) -> int
    decreases positions.len(),
{
    if positions.len() == 0 {
        0
    } else if positions.last().room_id == room.id {
        room_weight(positions.drop_last(), room) + weight_in(positions.last(), room)
    } else {
        room_weight(positions.drop_last(), room)
    }
}

/// Every position is in a room that exists, and the total weight of every
/// room is the sum of the weights of its positions.
pub open spec fn weights_balanced(s: StateView) -> bool {
    &&& forall|k: int|
        0 <= k < s.user_positions.len() ==> 1 <= (#[trigger] s.user_positions[k]).room_id
            <= s.rooms.len()
    &&& forall|i: int|
        0 <= i < s.rooms.len() ==> (#[trigger] s.rooms[i]).total_staked_weight == room_weight(
            s.user_positions,
            s.rooms[i],
        )
}

proof fn lemma_weight_frame(pos: UserPositionView, pos2: UserPositionView, room: RoomView, room2: RoomView)
    requires
        pos2.staked_amounts == pos.staked_amounts,
        pos2.nft_multiplier == pos.nft_multiplier,
        room2.stake_config == room.stake_config,
    ensures
        user_weight(pos2, room2) == user_weight(pos, room),
{
}

proof fn lemma_room_weight_frame(positions: Seq<UserPositionView>, room: RoomView, room2: RoomView)
    requires
        room2.id == room.id,
        room2.stake_config == room.stake_config,
    ensures
        room_weight(positions, room2) == room_weight(positions, room),
    decreases positions.len(),
{
    if positions.len() > 0 {
        lemma_room_weight_frame(positions.drop_last(), room, room2);
        lemma_weight_frame(positions.last(), positions.last(), room, room2);
    }
}

proof fn lemma_room_weight_update(
    positions: Seq<UserPositionView>,
    k: int,
    pos: UserPositionView,
    room: RoomView,
)
    requires
        0 <= k < positions.len(),
        pos.room_id == positions[k].room_id,
    ensures
        room_weight(positions.update(k, pos), room) == room_weight(positions, room) + if pos.room_id
            == room.id {
            weight_in(pos, room) - weight_in(positions[k], room)
        } else {
            0
        },
    decreases positions.len(),
{
    let after = positions.update(k, pos);
    if k == positions.len() - 1 {
        assert(after.drop_last() =~= positions.drop_last());
    } else {
        assert(after.drop_last() =~= positions.drop_last().update(k, pos));
        lemma_room_weight_update(positions.drop_last(), k, pos, room);
    }
}

proof fn lemma_room_weight_push(positions: Seq<UserPositionView>, pos: UserPositionView, room: RoomView)
    ensures
        room_weight(positions.push(pos), room) == room_weight(positions, room) + if pos.room_id
            == room.id {
            weight_in(pos, room)
        } else {
            0
        },
{
    assert(positions.push(pos).drop_last() =~= positions);
}

proof fn lemma_room_weight_unhoused(positions: Seq<UserPositionView>, room: RoomView)
    requires
        forall|k: int| 0 <= k < positions.len() ==> (#[trigger] positions[k]).room_id != room.id,
    ensures
        room_weight(positions, room) == 0,
    decreases positions.len(),
{
    if positions.len() > 0 {
        assert(positions.last() == positions[positions.len() - 1]);
        assert forall|k: int| 0 <= k < positions.drop_last().len() implies (
        #[trigger] positions.drop_last()[k]).room_id != room.id by {
            assert(positions.drop_last()[k] == positions[k]);
        }
        lemma_room_weight_unhoused(positions.drop_last(), room);
    }
}

/// What a change of one position does to the weights: the room keeps its
/// id and its staking rule, the position stays where it is, and the room's
/// total weight has moved by what the position's weight has moved.
pub open spec fn in_step(room: RoomView, pos: UserPositionView, room2: RoomView, pos2: UserPositionView) -> bool {
    &&& room2.id == room.id
    &&& room2.stake_config == room.stake_config
    &&& pos2.room_id == pos.room_id
    &&& pos2.user == pos.user
    &&& room2.total_staked_weight == room.total_staked_weight - weight_in(pos, room) + weight_in(
        pos2,
        room2,
    )
}

proof fn lemma_settled_in_step(
    room: RoomView,
    pos: UserPositionView,
    now: u64,
    holding: Option<bool>,
)
    ensures
        match settled_position(room, pos, now, holding) {
            Ok((room1, pos1, old_weight)) => {
                &&& room1.id == room.id
                &&& room1.stake_config == room.stake_config
                &&& room1.total_staked_weight == room.total_staked_weight
                &&& pos1.room_id == pos.room_id
                &&& pos1.user == pos.user
                &&& pos1.staked_amounts == pos.staked_amounts
                &&& old_weight == weight_in(pos, room)
            },
            Err(_) => true,
        },
{
    match rewards_updated(room, now) {
        Ok(room1) => {
            lemma_weight_frame(pos, pos, room, room1);
            match user_weight(pos, room1) {
                Ok(weight) => {
                    lemma_settlement_keeps_stakes(pos, room1.reward_configs, weight, 0);
                },
                Err(_) => {},
            }
        },
        Err(_) => {},
    }
}

proof fn lemma_changes_in_step(
    room: RoomView,
    pos: UserPositionView,
    now: u64,
    token: String,
    amount: u128,
    holding: Option<bool>,
)
    ensures
        match staked(room, pos, now, token, amount, holding) {
            Ok((room2, pos2)) => in_step(room, pos, room2, pos2),
            Err(_) => true,
        },
        match unstaked(room, pos, now, token, amount, holding) {
            Ok((room2, pos2, _, _)) => in_step(room, pos, room2, pos2),
            Err(_) => true,
        },
        match claimed(room, pos, now, holding) {
            Ok((room2, pos2, _)) => in_step(room, pos, room2, pos2),
            Err(_) => true,
        },
        match compounded(room, pos, now, holding) {
            Ok((room2, pos2, _)) => in_step(room, pos, room2, pos2),
            Err(_) => true,
        },
{
    lemma_settled_in_step(room, pos, now, holding);
    match settled_position(room, pos, now, holding) {
        Ok((room1, pos1, old_weight)) => {
            match staked(room, pos, now, token, amount, holding) {
                Ok((room2, pos2)) => {
                    let changed = UserPositionView { last_interaction: pos.last_interaction, ..pos2 };
                    lemma_weight_frame(changed, pos2, room1, room2);
                },
                Err(_) => {},
            }
            match unstaked(room, pos, now, token, amount, holding) {
                Ok((room2, pos2, _, _)) => {
                    let changed = UserPositionView { last_interaction: pos.last_interaction, ..pos2 };
                    lemma_weight_frame(changed, pos2, room1, room2);
                },
                Err(_) => {},
            }
            match claimed(room, pos, now, holding) {
                Ok((room2, pos2, _)) => {
                    lemma_weight_frame(pos2, pos2, room1, room2);
                    lemma_weight_frame(
                        pos2,
                        pos2,
                        RoomView { reward_configs: room2.reward_configs, ..room1 },
                        room2,
                    );
                },
                Err(_) => {},
            }
            match compounded(room, pos, now, holding) {
                Ok((room2, pos2, _)) => {
                    let changed = UserPositionView { last_interaction: pos.last_interaction, ..pos2 };
                    lemma_weight_frame(changed, pos2, room1, room2);
                },
                Err(_) => {},
            }
        },
        Err(_) => {},
    }
}

proof fn lemma_position_changed(
    s: StateView,
    i: int,
    k: int,
    room2: RoomView,
    pos2: UserPositionView,
    after: StateView,
)
    requires
        well_formed(s),
        weights_balanced(s),
        0 <= i < s.rooms.len(),
        0 <= k < s.user_positions.len(),
        s.user_positions[k].room_id == s.rooms[i].id,
        in_step(s.rooms[i], s.user_positions[k], room2, pos2),
        after.rooms == s.rooms.update(i, room2),
        after.user_positions == s.user_positions.update(k, pos2),
    ensures
        weights_balanced(after),
{
    assert forall|j: int| 0 <= j < after.rooms.len() implies (
    #[trigger] after.rooms[j]).total_staked_weight == room_weight(
        after.user_positions,
        after.rooms[j],
    ) by {
        assert(s.rooms[j].total_staked_weight == room_weight(s.user_positions, s.rooms[j]));
        assert(s.rooms[j].id == j + 1 && s.rooms[i].id == i + 1);
        if j == i {
            lemma_room_weight_frame(s.user_positions, s.rooms[i], room2);
            lemma_room_weight_update(s.user_positions, k, pos2, room2);
            lemma_weight_frame(s.user_positions[k], s.user_positions[k], s.rooms[i], room2);
        } else {
            lemma_room_weight_update(s.user_positions, k, pos2, s.rooms[j]);
        }
    }
    assert forall|n: int| 0 <= n < after.user_positions.len() implies 1 <= (
    #[trigger] after.user_positions[n]).room_id <= after.rooms.len() by {
        assert(1 <= s.user_positions[n].room_id <= s.rooms.len());
    }
}

proof fn lemma_room_changed(s: StateView, i: int, room2: RoomView, after: StateView)
    requires
        weights_balanced(s),
        0 <= i < s.rooms.len(),
        room2.id == s.rooms[i].id,
        room2.stake_config == s.rooms[i].stake_config,
        room2.total_staked_weight == s.rooms[i].total_staked_weight,
        after.rooms == s.rooms.update(i, room2),
        after.user_positions == s.user_positions,
    ensures
        weights_balanced(after),
{
    assert forall|j: int| 0 <= j < after.rooms.len() implies (
    #[trigger] after.rooms[j]).total_staked_weight == room_weight(
        after.user_positions,
        after.rooms[j],
    ) by {
        assert(s.rooms[j].total_staked_weight == room_weight(s.user_positions, s.rooms[j]));
        if j == i {
            lemma_room_weight_frame(s.user_positions, s.rooms[i], room2);
        }
    }
    assert forall|n: int| 0 <= n < after.user_positions.len() implies 1 <= (
    #[trigger] after.user_positions[n]).room_id <= after.rooms.len() by {
        assert(1 <= s.user_positions[n].room_id <= s.rooms.len());
    }
}

/// Staking that was just set up has no weight to account for.
pub proof fn lemma_initial_state_balanced(msg: InstantiateMsg)
    ensures
        weights_balanced(initial_state(msg)),
{
}

/// Whatever call is carried out on a well-formed state, the total weight of
/// every room stays the sum of the weights of its positions.
pub proof fn lemma_execute_keeps_weights_balanced(
    s: StateView,
    env: Env,
    info: MessageInfo,
    msg: ExecuteMsg,
    holding: Option<bool>,
)
    requires
        well_formed(s),
        weights_balanced(s),
    ensures
        match executed(s, env, info, msg, holding) {
            Ok((after, _)) => weights_balanced(after),
            Err(_) => true,
        },
{
    let now = env.block_time;
    match executed(s, env, info, msg, holding) {
        Ok((after, _)) => {
            match msg {
                ExecuteMsg::Receive(wrapper) => {
                    match wrapper.msg {
                        Cw20HookMsg::Stake { room_id } => {
                            lemma_first_match(s.rooms, room_hit(room_id));
                            lemma_first_match(
                                s.user_positions,
                                position_hit(wrapper.sender@, room_id),
                            );
                            let i = room_slot(s.rooms, room_id).unwrap();
                            let slot = position_slot(s.user_positions, wrapper.sender@, room_id);
                            let pos = match slot {
                                Some(k) => s.user_positions[k],
                                None => new_position(room_id, wrapper.sender, now),
                            };
                            lemma_changes_in_step(
                                s.rooms[i],
                                pos,
                                now,
                                info.sender,
                                wrapper.amount,
                                holding,
                            );
                            let (room2, pos2) = staked(
                                s.rooms[i],
                                pos,
                                now,
                                info.sender,
                                wrapper.amount,
                                holding,
                            ).unwrap();
                            match slot {
                                Some(k) => {
                                    lemma_position_changed(s, i, k, room2, pos2, after);
                                },
                                None => {
                                    lemma_new_position_weighs_nothing(
                                        room_id,
                                        wrapper.sender,
                                        now,
                                        s.rooms[i],
                                    );
                                    assert forall|j: int| 0 <= j < after.rooms.len() implies (
                                    #[trigger] after.rooms[j]).total_staked_weight == room_weight(
                                        after.user_positions,
                                        after.rooms[j],
                                    ) by {
                                        assert(s.rooms[j].total_staked_weight == room_weight(
                                            s.user_positions,
                                            s.rooms[j],
                                        ));
                                        assert(s.rooms[j].id == j + 1 && s.rooms[i].id == i + 1);
                                        if j == i {
                                            lemma_room_weight_frame(
                                                s.user_positions,
                                                s.rooms[i],
                                                room2,
                                            );
                                            lemma_room_weight_push(s.user_positions, pos2, room2);
                                        } else {
                                            lemma_room_weight_push(
                                                s.user_positions,
                                                pos2,
                                                s.rooms[j],
                                            );
                                        }
                                    }
                                    assert forall|n: int|
                                        0 <= n < after.user_positions.len() implies 1 <= (
                                    #[trigger] after.user_positions[n]).room_id
                                        <= after.rooms.len() by {
                                        if n < s.user_positions.len() {
                                            assert(1 <= s.user_positions[n].room_id
                                                <= s.rooms.len());
                                        }
                                    }
                                },
                            }
                        },
                        Cw20HookMsg::FundPool { room_id } => {
                            lemma_first_match(s.rooms, room_hit(room_id));
                            let i = room_slot(s.rooms, room_id).unwrap();
                            lemma_room_changed(s, i, after.rooms[i], after);
                        },
                    }
                },
                ExecuteMsg::Unstake { room_id, amount, token_address } => {
                    lemma_first_match(s.rooms, room_hit(room_id));
                    lemma_first_match(s.user_positions, position_hit(info.sender@, room_id));
                    let i = room_slot(s.rooms, room_id).unwrap();
                    let k = position_slot(s.user_positions, info.sender@, room_id).unwrap();
                    lemma_changes_in_step(
                        s.rooms[i],
                        s.user_positions[k],
                        now,
                        token_address,
                        amount,
                        holding,
                    );
                    lemma_position_changed(s, i, k, after.rooms[i], after.user_positions[k], after);
                },
                ExecuteMsg::ClaimRewards { room_id } => {
                    lemma_first_match(s.rooms, room_hit(room_id));
                    lemma_first_match(s.user_positions, position_hit(info.sender@, room_id));
                    let i = room_slot(s.rooms, room_id).unwrap();
                    let k = position_slot(s.user_positions, info.sender@, room_id).unwrap();
                    lemma_changes_in_step(
                        s.rooms[i],
                        s.user_positions[k],
                        now,
                        info.sender,
                        0,
                        holding,
                    );
                    lemma_position_changed(s, i, k, after.rooms[i], after.user_positions[k], after);
                },
                ExecuteMsg::ToggleAutoCompound { room_id, enabled } => {
                    lemma_first_match(s.rooms, room_hit(room_id));
                    lemma_first_match(s.user_positions, position_hit(info.sender@, room_id));
                    let i = room_slot(s.rooms, room_id).unwrap();
                    let k = position_slot(s.user_positions, info.sender@, room_id).unwrap();
                    lemma_weight_frame(
                        s.user_positions[k],
                        after.user_positions[k],
                        s.rooms[i],
                        s.rooms[i],
                    );
                    assert(after.rooms =~= s.rooms.update(i, s.rooms[i]));
                    lemma_position_changed(s, i, k, s.rooms[i], after.user_positions[k], after);
                },
                ExecuteMsg::Compound { room_id } => {
                    lemma_first_match(s.rooms, room_hit(room_id));
                    lemma_first_match(s.user_positions, position_hit(info.sender@, room_id));
                    let i = room_slot(s.rooms, room_id).unwrap();
                    let k = position_slot(s.user_positions, info.sender@, room_id).unwrap();
                    lemma_changes_in_step(
                        s.rooms[i],
                        s.user_positions[k],
                        now,
                        info.sender,
                        0,
                        holding,
                    );
                    lemma_position_changed(s, i, k, after.rooms[i], after.user_positions[k], after);
                },
                ExecuteMsg::CreateRoom {
                    name,
                    stake_config,
                    nft_config,
                    auto_compound_config,
                    early_withdraw_penalty,
                    cooldown_period,
                } => {
                    let n = s.rooms.len() as int;
                    assert forall|j: int| 0 <= j < after.rooms.len() implies (
                    #[trigger] after.rooms[j]).total_staked_weight == room_weight(
                        after.user_positions,
                        after.rooms[j],
                    ) by {
                        if j < n {
                            assert(s.rooms[j].total_staked_weight == room_weight(
                                s.user_positions,
                                s.rooms[j],
                            ));
                        } else {
                            assert forall|k: int| 0 <= k < s.user_positions.len() implies (
                            #[trigger] s.user_positions[k]).room_id != after.rooms[j].id by {
                                assert(1 <= s.user_positions[k].room_id <= n);
                            }
                            lemma_room_weight_unhoused(s.user_positions, after.rooms[j]);
                        }
                    }
                    assert forall|k: int| 0 <= k < after.user_positions.len() implies 1 <= (
                    #[trigger] after.user_positions[k]).room_id <= after.rooms.len() by {
                        assert(1 <= s.user_positions[k].room_id <= n);
                    }
                },
                ExecuteMsg::UpdateRoom {
                    room_id,
                    paused,
                    early_withdraw_penalty,
                    cooldown_period,
                } => {
                    lemma_first_match(s.rooms, room_hit(room_id));
                    let i = room_slot(s.rooms, room_id).unwrap();
                    lemma_room_changed(s, i, after.rooms[i], after);
                },
                ExecuteMsg::AddRewardPool { room_id, reward_token, emission_per_second } => {
                    lemma_first_match(s.rooms, room_hit(room_id));
                    let i = room_slot(s.rooms, room_id).unwrap();
                    lemma_room_changed(s, i, after.rooms[i], after);
                },
                ExecuteMsg::UpdateRewardPool { room_id, reward_token, emission_per_second } => {
                    lemma_first_match(s.rooms, room_hit(room_id));
                    let i = room_slot(s.rooms, room_id).unwrap();
                    lemma_room_changed(s, i, after.rooms[i], after);
                },
                ExecuteMsg::FundRewardPool { room_id } => {
                    lemma_first_match(s.rooms, room_hit(room_id));
                    let i = room_slot(s.rooms, room_id).unwrap();
                    lemma_room_changed(s, i, after.rooms[i], after);
                },
                ExecuteMsg::UpdateConfig { admin, paused } => {
                    assert(after.rooms == s.rooms && after.user_positions == s.user_positions);
                },
            }
        },
        Err(_) => {},
    }
}

/// The weights of the positions that are in the room, in their order.
pub open spec fn room_weights(positions: Seq<UserPositionView>, room: RoomView) -> Seq<u128>
    decreases positions.len(),
{
    if positions.len() == 0 {
        Seq::empty()
    } else if positions.last().room_id == room.id {
        room_weights(positions.drop_last(), room).push(weight_in(positions.last(), room) as u128)
    } else {
        room_weights(positions.drop_last(), room)
    }
}

proof fn lemma_room_weights_total(positions: Seq<UserPositionView>, room: RoomView)
    ensures
        weights_total(room_weights(positions, room)) == room_weight(positions, room),
    decreases positions.len(),
{
    if positions.len() > 0 {
        lemma_room_weights_total(positions.drop_last(), room);
        if positions.last().room_id == room.id {
            let front = room_weights(positions.drop_last(), room);
            let last = weight_in(positions.last(), room) as u128;
            assert(front.push(last).drop_last() =~= front);
        }
    }
}

/// Conservation over one advance of a room whose weights are balanced: what
/// the positions of the room earn together from the advance of a reward
/// asset is no more than the asset could still pay before the advance.
pub proof fn lemma_room_advance_is_funded(s: StateView, i: int, j: int, now: u64)
    requires
        weights_balanced(s),
        0 <= i < s.rooms.len(),
        0 <= j < s.rooms[i].reward_configs.len(),
        s.rooms[i].total_staked_weight != 0,
        now > s.rooms[i].last_update_time,
        rewards_updated(s.rooms[i], now) is Ok,
    ensures
        ({
            let room = s.rooms[i];
            let after = rewards_updated(room, now).unwrap();
            let growth = after.reward_configs[j].acc_reward_per_share.atomics
                - room.reward_configs[j].acc_reward_per_share.atomics;
            &&& after.reward_configs.len() == room.reward_configs.len()
            &&& 0 <= earned_total(room_weights(s.user_positions, room), growth)
                <= room.reward_configs[j].available()
        }),
{
    let room = s.rooms[i];
    let duration = (now - room.last_update_time) as u64;
    lemma_room_weights_total(s.user_positions, room);
    assert(advanced_config(room.reward_configs[j], room.total_staked_weight, duration) is Ok);
    lemma_advance_is_funded(
        room.reward_configs[j],
        room.total_staked_weight,
        duration,
        room_weights(s.user_positions, room),
    );
}

proof fn lemma_new_position_weighs_nothing(room_id: u64, user: String, now: u64, room: RoomView)
    ensures
        weight_in(new_position(room_id, user, now), room) == 0,
{
    let pos = new_position(room_id, user, now);
    assert(crate::prc20_staking::engine::staked_total(pos.staked_amounts) == 0);
    assert(crate::math::scaled(0, pos.nft_multiplier.atomics as int) == 0) by (nonlinear_arith)
        requires
            crate::math::scaled(0, pos.nft_multiplier.atomics as int) == 0 * (
            pos.nft_multiplier.atomics as int) / 1_000_000_000_000_000_000,
    ;
}

} // verus!
