//! Every table of the staking rooms holds each key once, whatever is
//! called.

use vstd::prelude::*;
use crate::asset::{same_asset, AssetInfo};
use crate::host::{Env, MessageInfo};
use crate::math::Decimal;
use crate::prc20_staking::contract::{executed, initial_state, new_position};
use crate::prc20_staking::engine::{
    checkpoint_hit, checkpoint_moved, earned, pending_added, pending_hit, reward_settled,
    rewards_settled, rewards_updated, token_hit, user_weight,
};
use crate::prc20_staking::msg::{Cw20HookMsg, ExecuteMsg, InstantiateMsg};
use crate::prc20_staking::position::{
    claim_asset, claim_assets, claimed, compound_asset, compound_assets, compounded,
    lemma_settlement_keeps_stakes, settled_position, stake_added, staked, unstaked,
    ClaimProgress, CompoundProgress,
};
use crate::prc20_staking::state::{
    position_hit, position_slot, room_slot, RewardConfig, RoomView, StateView, UserPositionView,
};
use crate::table::{
    finds, first_match, is_sameness, keyed_once, lemma_first_match, lemma_put_keeps_once,
    lemma_update_keeps_once, put_at,
};

verus! {

/// Two positions are the same where they are held by the same participant
/// in the same room.
pub open spec fn same_position() -> spec_fn(UserPositionView, UserPositionView) -> bool {
    |a: UserPositionView, b: UserPositionView| a.user@ == b.user@ && a.room_id == b.room_id
}

/// Two stakes are the same where they are in the same token.
pub open spec fn same_token() -> spec_fn((String, u128), (String, u128)) -> bool {
    |a: (String, u128), b: (String, u128)| a.0@ == b.0@
}

/// Two pending rewards are the same where they are in the same asset.
pub open spec fn same_pending() -> spec_fn((AssetInfo, u128), (AssetInfo, u128)) -> bool {
    |a: (AssetInfo, u128), b: (AssetInfo, u128)| same_asset(a.0, b.0)
}

/// Two checkpoints are the same where they are for the same asset.
pub open spec fn same_checkpoint() -> spec_fn((AssetInfo, Decimal), (AssetInfo, Decimal)) -> bool {
    |a: (AssetInfo, Decimal), b: (AssetInfo, Decimal)| same_asset(a.0, b.0)
}

/// A position holds one stake in each token, and one pending reward and
/// one checkpoint for each asset.
pub open spec fn position_keys_once(pos: UserPositionView) -> bool {
    &&& keyed_once(pos.staked_amounts, same_token())
    &&& keyed_once(pos.pending_rewards, same_pending())
    &&& keyed_once(pos.last_reward_per_share, same_checkpoint())
}

/// Every participant has one position in each room, and every position
/// holds each of its keys once.
pub open spec fn keys_once(s: StateView) -> bool {
    &&& keyed_once(s.user_positions, same_position())
    &&& forall|k: int|
        0 <= k < s.user_positions.len() ==> position_keys_once(#[trigger] s.user_positions[k])
}

proof fn lemma_sameness()
    ensures
        is_sameness(same_position()),
        is_sameness(same_token()),
        is_sameness(same_pending()),
        is_sameness(same_checkpoint()),
{
}

proof fn lemma_reward_settled(pos: UserPositionView, config: RewardConfig, weight: u128)
    requires
        position_keys_once(pos),
    ensures
        match reward_settled(pos, config, weight) {
            Ok(after) => position_keys_once(after) && after.user == pos.user && after.room_id
                == pos.room_id,
            Err(_) => true,
        },
{
    lemma_sameness();
    let asset = config.reward_token;
    match reward_settled(pos, config, weight) {
        Ok(after) => {
            let amount = earned(pos.last_reward_per_share, config, weight).unwrap();
            lemma_first_match(pos.pending_rewards, pending_hit(asset));
            lemma_first_match(pos.last_reward_per_share, checkpoint_hit(asset));
            let pending_entry = match first_match(pos.pending_rewards, pending_hit(asset)) {
                Some(i) => (pos.pending_rewards[i].0, (pos.pending_rewards[i].1 + amount) as u128),
                None => (asset, amount),
            };
            let checkpoint_entry = match first_match(
                pos.last_reward_per_share,
                checkpoint_hit(asset),
            ) {
                Some(i) => (pos.last_reward_per_share[i].0, config.acc_reward_per_share),
                None => (asset, config.acc_reward_per_share),
            };
            assert(finds(pending_hit(asset), same_pending(), pending_entry));
            assert(finds(checkpoint_hit(asset), same_checkpoint(), checkpoint_entry));
            lemma_put_keeps_once(
                pos.pending_rewards,
                same_pending(),
                pending_hit(asset),
                pending_entry,
            );
            lemma_put_keeps_once(
                pos.last_reward_per_share,
                same_checkpoint(),
                checkpoint_hit(asset),
                checkpoint_entry,
            );
            assert(pending_added(pos.pending_rewards, asset, amount) == Some(
                put_at(
                    pos.pending_rewards,
                    first_match(pos.pending_rewards, pending_hit(asset)),
                    pending_entry,
                ),
            ));
            assert(checkpoint_moved(pos.last_reward_per_share, asset, config.acc_reward_per_share)
                == put_at(
                pos.last_reward_per_share,
                first_match(pos.last_reward_per_share, checkpoint_hit(asset)),
                checkpoint_entry,
            ));
        },
        Err(_) => {},
    }
}

proof fn lemma_rewards_settled(
    pos: UserPositionView,
    configs: Seq<RewardConfig>,
    weight: u128,
    from: int,
)
    requires
        0 <= from,
        position_keys_once(pos),
    ensures
        match rewards_settled(pos, configs, weight, from) {
            Ok(after) => position_keys_once(after) && after.user == pos.user && after.room_id
                == pos.room_id,
            Err(_) => true,
        },
    decreases configs.len() - from,
{
    if from < configs.len() {
        lemma_reward_settled(pos, configs[from], weight);
        match reward_settled(pos, configs[from], weight) {
            Ok(next) => {
                lemma_rewards_settled(next, configs, weight, from + 1);
            },
            Err(_) => {},
        }
    }
}

proof fn lemma_settled_position(
    room: RoomView,
    pos: UserPositionView,
    now: u64,
    holding: Option<bool>,
)
    requires
        position_keys_once(pos),
    ensures
        match settled_position(room, pos, now, holding) {
            Ok((_, after, _)) => position_keys_once(after) && after.user == pos.user
                && after.room_id == pos.room_id,
            Err(_) => true,
        },
{
    match rewards_updated(room, now) {
        Ok(room1) => {
            match user_weight(pos, room1) {
                Ok(weight) => {
                    lemma_rewards_settled(pos, room1.reward_configs, weight, 0);
                },
                Err(_) => {},
            }
        },
        Err(_) => {},
    }
}

proof fn lemma_staked(
    room: RoomView,
    pos: UserPositionView,
    now: u64,
    token: String,
    amount: u128,
    holding: Option<bool>,
)
    requires
        position_keys_once(pos),
    ensures
        match staked(room, pos, now, token, amount, holding) {
            Ok((_, after)) => position_keys_once(after) && after.user == pos.user && after.room_id
                == pos.room_id,
            Err(_) => true,
        },
{
    lemma_sameness();
    lemma_settled_position(room, pos, now, holding);
    match settled_position(room, pos, now, holding) {
        Ok((_, pos1, _)) => {
            lemma_first_match(pos1.staked_amounts, token_hit(token@));
            let entry = match first_match(pos1.staked_amounts, token_hit(token@)) {
                Some(i) => (pos1.staked_amounts[i].0, (pos1.staked_amounts[i].1 + amount) as u128),
                None => (token, amount),
            };
            assert(finds(token_hit(token@), same_token(), entry));
            lemma_put_keeps_once(pos1.staked_amounts, same_token(), token_hit(token@), entry);
            assert(stake_added(pos1.staked_amounts, token, amount) is Some ==> stake_added(
                pos1.staked_amounts,
                token,
                amount,
            ) == Some(
                put_at(
                    pos1.staked_amounts,
                    first_match(pos1.staked_amounts, token_hit(token@)),
                    entry,
                ),
            ));
        },
        Err(_) => {},
    }
}

proof fn lemma_unstaked(
    room: RoomView,
    pos: UserPositionView,
    now: u64,
    token: String,
    amount: u128,
    holding: Option<bool>,
)
    requires
        position_keys_once(pos),
    ensures
        match unstaked(room, pos, now, token, amount, holding) {
            Ok((_, after, _, _)) => position_keys_once(after) && after.user == pos.user
                && after.room_id == pos.room_id,
            Err(_) => true,
        },
{
    lemma_sameness();
    lemma_settled_position(room, pos, now, holding);
    lemma_first_match(pos.staked_amounts, token_hit(token@));
    match (
        unstaked(room, pos, now, token, amount, holding),
        settled_position(room, pos, now, holding),
        first_match(pos.staked_amounts, token_hit(token@)),
    ) {
        (Ok(_), Ok((room1, pos1, weight)), Some(i)) => {
            match rewards_updated(room, now) {
                Ok(updated) => {
                    lemma_settlement_keeps_stakes(pos, updated.reward_configs, weight, 0);
                },
                Err(_) => {},
            }
            lemma_update_keeps_once(
                pos1.staked_amounts,
                same_token(),
                i,
                (pos1.staked_amounts[i].0, (pos1.staked_amounts[i].1 - amount) as u128),
            );
        },
        _ => {},
    }
}

proof fn lemma_claim_assets(p: ClaimProgress, user: String, from: int)
    requires
        0 <= from,
        keyed_once(p.pending, same_pending()),
    ensures
        match claim_assets(p, user, from) {
            Ok(after) => keyed_once(after.pending, same_pending()),
            Err(_) => true,
        },
    decreases p.pending.len() - from,
{
    lemma_sameness();
    if from < p.pending.len() {
        match claim_asset(p, user, from) {
            Ok(next) => {
                if p.pending[from].1 != 0 {
                    lemma_update_keeps_once(
                        p.pending,
                        same_pending(),
                        from,
                        (p.pending[from].0, 0u128),
                    );
                }
                if next.pending.len() == p.pending.len() {
                    lemma_claim_assets(next, user, from + 1);
                }
            },
            Err(_) => {},
        }
    }
}

proof fn lemma_claimed(room: RoomView, pos: UserPositionView, now: u64, holding: Option<bool>)
    requires
        position_keys_once(pos),
    ensures
        match claimed(room, pos, now, holding) {
            Ok((_, after, _)) => position_keys_once(after) && after.user == pos.user
                && after.room_id == pos.room_id,
            Err(_) => true,
        },
{
    lemma_settled_position(room, pos, now, holding);
    match settled_position(room, pos, now, holding) {
        Ok((room1, pos1, _)) => {
            lemma_claim_assets(
                ClaimProgress {
                    configs: room1.reward_configs,
                    pending: pos1.pending_rewards,
                    messages: Seq::empty(),
                },
                pos1.user,
                0,
            );
        },
        Err(_) => {},
    }
}

proof fn lemma_compound_assets(p: CompoundProgress, from: int)
    requires
        0 <= from,
        keyed_once(p.pending, same_pending()),
        keyed_once(p.stakes, same_token()),
    ensures
        match compound_assets(p, from) {
            Ok(after) => keyed_once(after.pending, same_pending()) && keyed_once(
                after.stakes,
                same_token(),
            ),
            Err(_) => true,
        },
    decreases p.pending.len() - from,
{
    lemma_sameness();
    if from < p.pending.len() {
        match compound_asset(p, from) {
            Ok(next) => {
                match p.pending[from].0 {
                    AssetInfo::Cw20(token) => {
                        lemma_first_match(p.stakes, token_hit(token@));
                        match first_match(p.stakes, token_hit(token@)) {
                            Some(i) => {
                                if p.pending[from].1 != 0 {
                                    lemma_update_keeps_once(
                                        p.stakes,
                                        same_token(),
                                        i,
                                        (
                                            p.stakes[i].0,
                                            (p.stakes[i].1 + p.pending[from].1) as u128,
                                        ),
                                    );
                                    lemma_update_keeps_once(
                                        p.pending,
                                        same_pending(),
                                        from,
                                        (p.pending[from].0, 0u128),
                                    );
                                }
                            },
                            None => {},
                        }
                    },
                    AssetInfo::Native(_) => {},
                }
                if next.pending.len() == p.pending.len() {
                    lemma_compound_assets(next, from + 1);
                }
            },
            Err(_) => {},
        }
    }
}

proof fn lemma_compounded(room: RoomView, pos: UserPositionView, now: u64, holding: Option<bool>)
    requires
        position_keys_once(pos),
    ensures
        match compounded(room, pos, now, holding) {
            Ok((_, after, _)) => position_keys_once(after) && after.user == pos.user
                && after.room_id == pos.room_id,
            Err(_) => true,
        },
{
    lemma_settled_position(room, pos, now, holding);
    match settled_position(room, pos, now, holding) {
        Ok((_, pos1, _)) => {
            lemma_compound_assets(
                CompoundProgress {
                    stakes: pos1.staked_amounts,
                    pending: pos1.pending_rewards,
                    compounded: 0,
                },
                0,
            );
        },
        Err(_) => {},
    }
}

proof fn lemma_position_replaced(s: StateView, k: int, pos: UserPositionView, after: StateView)
    requires
        keys_once(s),
        0 <= k < s.user_positions.len(),
        position_keys_once(pos),
        pos.user == s.user_positions[k].user,
        pos.room_id == s.user_positions[k].room_id,
        after.user_positions == s.user_positions.update(k, pos),
    ensures
        keys_once(after),
{
    lemma_sameness();
    lemma_update_keeps_once(s.user_positions, same_position(), k, pos);
    assert forall|j: int| 0 <= j < after.user_positions.len() implies position_keys_once(
        #[trigger] after.user_positions[j],
    ) by {
        if j != k {
            assert(position_keys_once(s.user_positions[j]));
        }
    }
}

/// Staking that was just set up holds no key twice.
pub proof fn lemma_initial_state_keys_once(msg: InstantiateMsg)
    ensures
        keys_once(initial_state(msg)),
{
}

/// Whatever call is carried out, every table goes on holding each key
/// once: the record found for a key is the only one there is.
pub proof fn lemma_execute_keeps_keys_once(
    s: StateView,
    env: Env,
    info: MessageInfo,
    msg: ExecuteMsg,
    holding: Option<bool>,
)
    requires
        keys_once(s),
    ensures
        match executed(s, env, info, msg, holding) {
            Ok((after, _)) => keys_once(after),
            Err(_) => true,
        },
{
    lemma_sameness();
    let now = env.block_time;
    match executed(s, env, info, msg, holding) {
        Ok((after, _)) => {
            match msg {
                ExecuteMsg::Receive(wrapper) => {
                    match wrapper.msg {
                        Cw20HookMsg::Stake { room_id } => {
                            let i = room_slot(s.rooms, room_id).unwrap();
                            let slot = position_slot(s.user_positions, wrapper.sender@, room_id);
                            lemma_first_match(
                                s.user_positions,
                                position_hit(wrapper.sender@, room_id),
                            );
                            let pos = match slot {
                                Some(k) => s.user_positions[k],
                                None => new_position(room_id, wrapper.sender, now),
                            };
                            lemma_staked(
                                s.rooms[i],
                                pos,
                                now,
                                info.sender,
                                wrapper.amount,
                                holding,
                            );
                            let staked_pos = staked(
                                s.rooms[i],
                                pos,
                                now,
                                info.sender,
                                wrapper.amount,
                                holding,
                            ).unwrap().1;
                            assert(finds(
                                position_hit(wrapper.sender@, room_id),
                                same_position(),
                                staked_pos,
                            ));
                            lemma_put_keeps_once(
                                s.user_positions,
                                same_position(),
                                position_hit(wrapper.sender@, room_id),
                                staked_pos,
                            );
                            assert forall|j: int|
                                0 <= j < after.user_positions.len() implies position_keys_once(
                                #[trigger] after.user_positions[j],
                            ) by {
                                if j < s.user_positions.len() && slot != Some(j) {
                                    assert(position_keys_once(s.user_positions[j]));
                                }
                            }
                        },
                        Cw20HookMsg::FundPool { room_id } => {},
                    }
                },
                ExecuteMsg::Unstake { room_id, amount, token_address } => {
                    let i = room_slot(s.rooms, room_id).unwrap();
                    let k = position_slot(s.user_positions, info.sender@, room_id).unwrap();
                    lemma_first_match(s.user_positions, position_hit(info.sender@, room_id));
                    lemma_unstaked(
                        s.rooms[i],
                        s.user_positions[k],
                        now,
                        token_address,
                        amount,
                        holding,
                    );
                    lemma_position_replaced(s, k, after.user_positions[k], after);
                },
                ExecuteMsg::ClaimRewards { room_id } => {
                    let i = room_slot(s.rooms, room_id).unwrap();
                    let k = position_slot(s.user_positions, info.sender@, room_id).unwrap();
                    lemma_first_match(s.user_positions, position_hit(info.sender@, room_id));
                    lemma_claimed(s.rooms[i], s.user_positions[k], now, holding);
                    lemma_position_replaced(s, k, after.user_positions[k], after);
                },
                ExecuteMsg::ToggleAutoCompound { room_id, enabled } => {
                    let k = position_slot(s.user_positions, info.sender@, room_id).unwrap();
                    lemma_first_match(s.user_positions, position_hit(info.sender@, room_id));
                    lemma_position_replaced(s, k, after.user_positions[k], after);
                },
                ExecuteMsg::Compound { room_id } => {
                    let i = room_slot(s.rooms, room_id).unwrap();
                    let k = position_slot(s.user_positions, info.sender@, room_id).unwrap();
                    lemma_first_match(s.user_positions, position_hit(info.sender@, room_id));
                    lemma_compounded(s.rooms[i], s.user_positions[k], now, holding);
                    lemma_position_replaced(s, k, after.user_positions[k], after);
                },
                _ => {},
            }
        },
        Err(_) => {},
    }
}

} // verus!
