//! What a participant can do with a position in a room: stake, unstake,
//! claim, opt in to compounding, compound. Every change is preceded by a
//! settlement under the weight that the position had.

use vstd::prelude::*;
use crate::asset::same_asset;
use crate::host::{transfer_msg, transfer_of, CosmosMsg};
use crate::math::{checked_mul_floor, scaled, Decimal, DECIMAL_FRACTIONAL};
use crate::prc20_staking::engine::{
    calculate_user_weight, find_stake, nft_multiplier, query_nft_multiplier, rewards_settled,
    rewards_updated, staked_total, token_hit, total_stake, update_room_rewards,
    update_user_rewards, user_weight,
};
use crate::prc20_staking::error::ContractError;
use crate::prc20_staking::state::{
    AssetInfo, AutoCompoundConfig, RewardConfig, Room, RoomView, UserPosition, UserPositionView,
};
use crate::table::{first_match, lemma_first_match_is, lemma_first_match_none, slot_of};

verus! {

/// A room and a position after the settlement that precedes every change:
/// the room is brought up to `now`, the position is settled under the weight
/// it had, which is returned with them, and its multiplier is refreshed.
pub open spec fn settled_position(
    room: RoomView,
    pos: UserPositionView,
    now: u64,
    holding: Option<bool>,
) -> Result<(RoomView, UserPositionView, u128), ContractError> {
    match rewards_updated(room, now) {
        Err(e) => Err(e),
        Ok(room1) => match user_weight(pos, room1) {
            Err(e) => Err(e),
            Ok(old_weight) => match rewards_settled(pos, room1.reward_configs, old_weight, 0) {
                Err(e) => Err(e),
                Ok(pos1) => Ok(
                    (
                        room1,
                        UserPositionView {
                            nft_multiplier: nft_multiplier(room1.nft_config, holding),
                            ..pos1
                        },
                        old_weight,
                    ),
                ),
            },
        },
    }
}

/// Settles a position before a change and returns the weight it had.
pub(crate) fn settle_position(room: &mut Room, pos: &mut UserPosition, now: u64, holding: Option<bool>) -> (r:
    Result<u128, ContractError>)
    ensures
        match r {
            Ok(old_weight) => settled_position(old(room)@, old(pos)@, now, holding) == Ok::<
                (RoomView, UserPositionView, u128),
                ContractError,
            >((final(room)@, final(pos)@, old_weight)),
            Err(e) => settled_position(old(room)@, old(pos)@, now, holding) == Err::<
                (RoomView, UserPositionView, u128),
                ContractError,
            >(e) && final(pos)@ == old(pos)@,
        },
{
    match update_room_rewards(room, now) {
        Ok(()) => {},
        Err(e) => {
            return Err(e);
        },
    }
    let old_weight = match calculate_user_weight(pos, room) {
        Ok(weight) => weight,
        Err(e) => {
            return Err(e);
        },
    };
    match update_user_rewards(pos, room, old_weight) {
        Ok(()) => {},
        Err(e) => {
            return Err(e);
        },
    }
    pos.nft_multiplier = query_nft_multiplier(room, holding);
    Ok(old_weight)
}

/// A room after the weight of one of its positions was taken anew: the
/// room's total weight loses the weight that the position had and gains the
/// one it has.
pub open spec fn rebalanced(room: RoomView, pos: UserPositionView, old_weight: u128) -> Result<
    RoomView,
    ContractError,
> {
    match user_weight(pos, room) {
        Err(e) => Err(e),
        Ok(new_weight) => if room.total_staked_weight < old_weight {
            Err(ContractError::Overflow)
        } else if room.total_staked_weight - old_weight + new_weight > u128::MAX {
            Err(ContractError::Overflow)
        } else {
            Ok(
                RoomView {
                    total_staked_weight: (room.total_staked_weight - old_weight
                        + new_weight) as u128,
                    ..room
                },
            )
        },
    }
}

/// A room and a position after the position's weight was taken anew: the
/// room's total weight follows the position's weight, and the position is
/// stamped with `now`.
pub open spec fn reweighted(room: RoomView, pos: UserPositionView, old_weight: u128, now: u64) -> Result<
    (RoomView, UserPositionView),
    ContractError,
> {
    match rebalanced(room, pos, old_weight) {
        Err(e) => Err(e),
        Ok(room2) => Ok((room2, UserPositionView { last_interaction: now, ..pos })),
    }
}

/// Lets the total weight of a room follow the weight of one of its
/// positions, which weighed `old_weight` before.
pub fn rebalance(room: &mut Room, pos: &UserPosition, old_weight: u128) -> (r: Result<
    (),
    ContractError,
>)
    ensures
        match r {
            Ok(()) => rebalanced(old(room)@, pos@, old_weight) == Ok::<RoomView, ContractError>(
                final(room)@,
            ),
            Err(e) => rebalanced(old(room)@, pos@, old_weight) == Err::<RoomView, ContractError>(e)
                && final(room)@ == old(room)@,
        },
{
    let new_weight = match calculate_user_weight(pos, room) {
        Ok(weight) => weight,
        Err(e) => {
            return Err(e);
        },
    };
    let rest = match room.total_staked_weight.checked_sub(old_weight) {
        Some(rest) => rest,
        None => {
            return Err(ContractError::Overflow);
        },
    };
    let total = match rest.checked_add(new_weight) {
        Some(total) => total,
        None => {
            return Err(ContractError::Overflow);
        },
    };
    room.total_staked_weight = total;
    Ok(())
}

/// Takes the weight of a position anew and stamps the position.
pub fn reweigh(room: &mut Room, pos: &mut UserPosition, old_weight: u128, now: u64) -> (r: Result<
    (),
    ContractError,
>)
    ensures
        match r {
            Ok(()) => reweighted(old(room)@, old(pos)@, old_weight, now) == Ok::<
                (RoomView, UserPositionView),
                ContractError,
            >((final(room)@, final(pos)@)),
            Err(e) => reweighted(old(room)@, old(pos)@, old_weight, now) == Err::<
                (RoomView, UserPositionView),
                ContractError,
            >(e) && final(room)@ == old(room)@ && final(pos)@ == old(pos)@,
        },
{
    match rebalance(room, pos, old_weight) {
        Ok(()) => {
            pos.last_interaction = now;
            Ok(())
        },
        Err(e) => Err(e),
    }
}

/// The stakes with `amount` more of `token`.
pub open spec fn stake_added(stakes: Seq<(String, u128)>, token: String, amount: u128) -> Option<
    Seq<(String, u128)>,
> {
    match first_match(stakes, token_hit(token@)) {
        Some(i) => if stakes[i].1 + amount > u128::MAX {
            None
        } else {
            Some(stakes.update(i, (stakes[i].0, (stakes[i].1 + amount) as u128)))
        },
        None => Some(stakes.push((token, amount))),
    }
}

/// Adds `amount` of `token` to the stakes. Returns whether the stake stayed
/// in range; out of range nothing changes.
pub fn add_stake(stakes: &mut Vec<(String, u128)>, token: &String, amount: u128) -> (done: bool)
    ensures
        match stake_added(old(stakes)@, *token, amount) {
            Some(after) => done && final(stakes)@ == after,
            None => !done && final(stakes)@ == old(stakes)@,
        },
{
    match find_stake(stakes, token) {
        Some(i) => match stakes[i].1.checked_add(amount) {
            Some(sum) => {
                let entry = (stakes[i].0.clone(), sum);
                stakes.set(i, entry);
                true
            },
            None => false,
        },
        None => {
            stakes.push((token.clone(), amount));
            true
        },
    }
}

/// A stake of `amount` of `token` added to a position.
pub open spec fn staked(
    room: RoomView,
    pos: UserPositionView,
    now: u64,
    token: String,
    amount: u128,
    holding: Option<bool>,
) -> Result<(RoomView, UserPositionView), ContractError> {
    match settled_position(room, pos, now, holding) {
        Err(e) => Err(e),
        Ok((room1, pos1, old_weight)) => match stake_added(pos1.staked_amounts, token, amount) {
            None => Err(ContractError::Overflow),
            Some(staked_amounts) => reweighted(
                room1,
                UserPositionView { staked_amounts, ..pos1 },
                old_weight,
                now,
            ),
        },
    }
}

/// Adds a stake of `amount` of `token` to a position.
pub(crate) fn stake_in(
    room: &mut Room,
    pos: &mut UserPosition,
    now: u64,
    token: &String,
    amount: u128,
    holding: Option<bool>,
) -> (r: Result<(), ContractError>)
    ensures
        match r {
            Ok(()) => staked(old(room)@, old(pos)@, now, *token, amount, holding) == Ok::<
                (RoomView, UserPositionView),
                ContractError,
            >((final(room)@, final(pos)@)),
            Err(e) => staked(old(room)@, old(pos)@, now, *token, amount, holding) == Err::<
                (RoomView, UserPositionView),
                ContractError,
            >(e),
        },
{
    let old_weight = match settle_position(room, pos, now, holding) {
        Ok(weight) => weight,
        Err(e) => {
            return Err(e);
        },
    };
    if !add_stake(&mut pos.staked_amounts, token, amount) {
        return Err(ContractError::Overflow);
    }
    reweigh(room, pos, old_weight, now)
}

/// What is withheld from a withdrawal of `amount` at the penalty rate
/// `rate`, rounded down.
pub open spec fn penalty_of(amount: u128, rate: Decimal) -> int {
    scaled(amount as int, rate.atomics as int)
}

/// A withdrawal of `amount` of `token` from a position: the room and the
/// position after it, the penalty withheld, and the amount to transfer.
///
/// It is refused before the cooldown since the position's last interaction
/// has passed, for a token the position does not hold, and beyond what is
/// staked in the token.
pub open spec fn unstaked(
    room: RoomView,
    pos: UserPositionView,
    now: u64,
    token: String,
    amount: u128,
    holding: Option<bool>,
) -> Result<(RoomView, UserPositionView, u128, u128), ContractError> {
    if now < pos.last_interaction + room.cooldown_period {
        Err(ContractError::CooldownNotElapsed)
    } else {
        match first_match(pos.staked_amounts, token_hit(token@)) {
            None => Err(ContractError::InvalidStakeToken),
            Some(i) => if pos.staked_amounts[i].1 < amount {
                Err(ContractError::InsufficientStake)
            } else {
                match settled_position(room, pos, now, holding) {
                    Err(e) => Err(e),
                    Ok((room1, pos1, old_weight)) => if penalty_of(
                        amount,
                        room1.early_withdraw_penalty,
                    ) > amount {
                        Err(ContractError::Overflow)
                    } else {
                        match reweighted(
                            room1,
                            UserPositionView {
                                staked_amounts: pos1.staked_amounts.update(
                                    i,
                                    (
                                        pos1.staked_amounts[i].0,
                                        (pos1.staked_amounts[i].1 - amount) as u128,
                                    ),
                                ),
                                ..pos1
                            },
                            old_weight,
                            now,
                        ) {
                            Err(e) => Err(e),
                            Ok((room2, pos2)) => Ok(
                                (
                                    room2,
                                    pos2,
                                    penalty_of(amount, room1.early_withdraw_penalty) as u128,
                                    (amount - penalty_of(
                                        amount,
                                        room1.early_withdraw_penalty,
                                    )) as u128,
                                ),
                            ),
                        }
                    },
                }
            },
        }
    }
}

pub(crate) proof fn lemma_settlement_keeps_stakes(
    pos: UserPositionView,
    configs: Seq<RewardConfig>,
    weight: u128,
    from: int,
)
    requires
        0 <= from,
    ensures
        match rewards_settled(pos, configs, weight, from) {
            Ok(after) => after.staked_amounts == pos.staked_amounts && after.user == pos.user
                && after.room_id == pos.room_id && after.auto_compound_enabled
                == pos.auto_compound_enabled,
            Err(_) => true,
        },
    decreases configs.len() - from,
{
    if from < configs.len() {
        match crate::prc20_staking::engine::reward_settled(pos, configs[from], weight) {
            Ok(next) => {
                lemma_settlement_keeps_stakes(next, configs, weight, from + 1);
            },
            Err(_) => {},
        }
    }
}

/// Withdraws `amount` of `token` from a position and returns the penalty
/// withheld and the amount to transfer.
pub(crate) fn unstake_from(
    room: &mut Room,
    pos: &mut UserPosition,
    now: u64,
    token: &String,
    amount: u128,
    holding: Option<bool>,
) -> (r: Result<(u128, u128), ContractError>)
    ensures
        match r {
            Ok((penalty, transfer)) => unstaked(old(room)@, old(pos)@, now, *token, amount, holding)
                == Ok::<(RoomView, UserPositionView, u128, u128), ContractError>(
                (final(room)@, final(pos)@, penalty, transfer),
            ),
            Err(e) => unstaked(old(room)@, old(pos)@, now, *token, amount, holding) == Err::<
                (RoomView, UserPositionView, u128, u128),
                ContractError,
            >(e),
        },
{
    if (now as u128) < pos.last_interaction as u128 + room.cooldown_period as u128 {
        return Err(ContractError::CooldownNotElapsed);
    }
    let i = match find_stake(&pos.staked_amounts, token) {
        Some(i) => i,
        None => {
            return Err(ContractError::InvalidStakeToken);
        },
    };
    if pos.staked_amounts[i].1 < amount {
        return Err(ContractError::InsufficientStake);
    }
    let ghost before = pos@;
    let ghost room_before = room@;
    let old_weight = match settle_position(room, pos, now, holding) {
        Ok(weight) => weight,
        Err(e) => {
            return Err(e);
        },
    };
    proof {
        match rewards_updated(room_before, now) {
            Ok(room1) => {
                lemma_settlement_keeps_stakes(before, room1.reward_configs, old_weight, 0);
            },
            Err(_) => {},
        }
    }
    let penalty = match checked_mul_floor(amount, room.early_withdraw_penalty) {
        Some(penalty) => penalty,
        None => {
            return Err(ContractError::Overflow);
        },
    };
    if penalty > amount {
        return Err(ContractError::Overflow);
    }
    let entry = (pos.staked_amounts[i].0.clone(), pos.staked_amounts[i].1 - amount);
    pos.staked_amounts.set(i, entry);
    match reweigh(room, pos, old_weight, now) {
        Ok(()) => Ok((penalty, amount - penalty)),
        Err(e) => Err(e),
    }
}

/// The reward assets that are `asset`.
pub open spec fn config_hit(asset: AssetInfo) -> spec_fn(RewardConfig) -> bool {
    |c: RewardConfig| same_asset(c.reward_token, asset)
}

/// Where the reward asset `asset` stands among `configs`.
pub fn find_config(configs: &Vec<RewardConfig>, asset: &AssetInfo) -> (found: Option<usize>)
    ensures
        slot_of(found) == first_match(configs@, config_hit(*asset)),
        found is Some ==> found.unwrap() < configs.len(),
{
    let mut i: usize = 0;
    while i < configs.len()
        invariant
            i <= configs.len(),
            forall|j: int| 0 <= j < i ==> !config_hit(*asset)(#[trigger] configs@[j]),
        decreases configs.len() - i,
    {
        if configs[i].reward_token.same(asset) {
            proof {
                lemma_first_match_is(configs@, config_hit(*asset), i as int);
            }
            return Some(i);
        }
        i = i + 1;
    }
    proof {
        lemma_first_match_none(configs@, config_hit(*asset));
    }
    None
}

/// How far a claim has come: the reward assets and the pending rewards so
/// far, and the transfers requested so far.
pub struct ClaimProgress {
    pub configs: Seq<RewardConfig>,
    pub pending: Seq<(AssetInfo, u128)>,
    pub messages: Seq<CosmosMsg>,
}

/// The payout of the pending reward at index `k` to `user`. Nothing pending
/// leaves the claim as it is. A payout that the asset cannot fund out of what
/// it was funded with is refused. Else the pending amount is emptied, the
/// asset's claimed total grows by it, and its transfer is requested.
pub open spec fn claim_asset(p: ClaimProgress, user: String, k: int) -> Result<
    ClaimProgress,
    ContractError,
> {
    let asset = p.pending[k].0;
    let amount = p.pending[k].1;
    if amount == 0 {
        Ok(p)
    } else {
        match first_match(p.configs, config_hit(asset)) {
            None => Err(ContractError::InvalidRewardToken),
            Some(i) => if amount > p.configs[i].available() {
                Err(ContractError::InsufficientRewards)
            } else {
                Ok(
                    ClaimProgress {
                        configs: p.configs.update(
                            i,
                            RewardConfig {
                                total_claimed: (p.configs[i].total_claimed + amount) as u128,
                                ..p.configs[i]
                            },
                        ),
                        pending: p.pending.update(k, (asset, 0u128)),
                        messages: p.messages.push(transfer_of(asset, user, amount)),
                    },
                )
            },
        }
    }
}

/// A claim carried through the pending rewards from index `from` on.
pub open spec fn claim_assets(p: ClaimProgress, user: String, from: int) -> Result<
    ClaimProgress,
    ContractError,
>
    decreases p.pending.len() - from,
{
    if from < 0 || from >= p.pending.len() {
        Ok(p)
    } else {
        match claim_asset(p, user, from) {
            Err(e) => Err(e),
            Ok(next) => if next.pending.len() == p.pending.len() {
                claim_assets(next, user, from + 1)
            } else {
                Ok(next)
            },
        }
    }
}

/// How a claim that went through the pending rewards ends: refused where it
/// pays nothing; else the room's total weight follows the weight that the
/// position has under its refreshed multiplier.
pub open spec fn claim_concluded(
    r: Result<ClaimProgress, ContractError>,
    room: RoomView,
    pos: UserPositionView,
    old_weight: u128,
) -> Result<(RoomView, UserPositionView, Seq<CosmosMsg>), ContractError> {
    match r {
        Err(e) => Err(e),
        Ok(p) => if p.messages.len() == 0 {
            Err(ContractError::NoRewards)
        } else {
            let paid = UserPositionView { pending_rewards: p.pending, ..pos };
            match rebalanced(RoomView { reward_configs: p.configs, ..room }, paid, old_weight) {
                Err(e) => Err(e),
                Ok(room2) => Ok((room2, paid, p.messages)),
            }
        },
    }
}

/// A claim of everything that is pending for a position: the room and the
/// position after it and the transfers requested. The position is settled
/// first and its multiplier refreshed. A claim that pays nothing is refused.
pub open spec fn claimed(room: RoomView, pos: UserPositionView, now: u64, holding: Option<bool>) -> Result<
    (RoomView, UserPositionView, Seq<CosmosMsg>),
    ContractError,
> {
    match settled_position(room, pos, now, holding) {
        Err(e) => Err(e),
        Ok((room1, pos1, old_weight)) => claim_concluded(
            claim_assets(
                ClaimProgress {
                    configs: room1.reward_configs,
                    pending: pos1.pending_rewards,
                    messages: Seq::empty(),
                },
                pos1.user,
                0,
            ),
            room1,
            pos1,
            old_weight,
        ),
    }
}

/// Claims everything that is pending for a position.
pub(crate) fn claim_from(room: &mut Room, pos: &mut UserPosition, now: u64, holding: Option<bool>) -> (r: Result<
    Vec<CosmosMsg>,
    ContractError,
>)
    ensures
        match r {
            Ok(messages) => claimed(old(room)@, old(pos)@, now, holding) == Ok::<
                (RoomView, UserPositionView, Seq<CosmosMsg>),
                ContractError,
            >((final(room)@, final(pos)@, messages@)),
            Err(e) => claimed(old(room)@, old(pos)@, now, holding) == Err::<
                (RoomView, UserPositionView, Seq<CosmosMsg>),
                ContractError,
            >(e),
        },
{
    let old_weight = match settle_position(room, pos, now, holding) {
        Ok(weight) => weight,
        Err(e) => {
            return Err(e);
        },
    };
    let mut messages: Vec<CosmosMsg> = Vec::new();
    let ghost room1 = room@;
    let ghost pos1 = pos@;
    let ghost start = ClaimProgress {
        configs: room1.reward_configs,
        pending: pos1.pending_rewards,
        messages: Seq::empty(),
    };
    let n = pos.pending_rewards.len();
    let mut k: usize = 0;
    while k < n
        invariant
            k <= n,
            n == pos.pending_rewards.len(),
            room@ == (RoomView { reward_configs: room.reward_configs@, ..room1 }),
            pos@ == (UserPositionView { pending_rewards: pos.pending_rewards@, ..pos1 }),
            claimed(old(room)@, old(pos)@, now, holding) == claim_concluded(
                claim_assets(start, pos1.user, 0),
                room1,
                pos1,
                old_weight,
            ),
            claim_assets(start, pos1.user, 0) == claim_assets(
                ClaimProgress {
                    configs: room.reward_configs@,
                    pending: pos.pending_rewards@,
                    messages: messages@,
                },
                pos1.user,
                k as int,
            ),
        decreases n - k,
    {
        let amount = pos.pending_rewards[k].1;
        if amount != 0 {
            let i = match find_config(&room.reward_configs, &pos.pending_rewards[k].0) {
                Some(i) => i,
                None => {
                    return Err(ContractError::InvalidRewardToken);
                },
            };
            let available: u128 = if room.reward_configs[i].total_claimed
                <= room.reward_configs[i].total_deposited {
                room.reward_configs[i].total_deposited - room.reward_configs[i].total_claimed
            } else {
                0
            };
            if amount > available {
                return Err(ContractError::InsufficientRewards);
            }
            let mut config = room.reward_configs[i].clone();
            config.total_claimed = config.total_claimed + amount;
            room.reward_configs.set(i, config);
            let asset = pos.pending_rewards[k].0.clone();
            messages.push(transfer_msg(&asset, &pos.user, amount));
            pos.pending_rewards.set(k, (asset, 0));
        }
        k = k + 1;
    }
    if messages.len() == 0 {
        return Err(ContractError::NoRewards);
    }
    match rebalance(room, pos, old_weight) {
        Ok(()) => Ok(messages),
        Err(e) => Err(e),
    }
}

/// Whether a position may opt in to compounding: with a credential required
/// and a stake threshold set it needs both, with only a credential required
/// it needs a multiplier above one, else it needs the stake threshold.
pub open spec fn may_auto_compound(config: AutoCompoundConfig, total_stake: int, multiplier: Decimal) -> bool {
    let has_min_stake = total_stake >= config.min_stake_threshold;
    let has_nft = multiplier.atomics > DECIMAL_FRACTIONAL;
    if config.nft_required && config.min_stake_threshold > 0 {
        has_min_stake && has_nft
    } else if config.nft_required {
        has_nft
    } else {
        has_min_stake
    }
}

/// Whether a position with the stake `total_stake` and the multiplier
/// `multiplier` may opt in to compounding.
pub fn can_auto_compound(config: &AutoCompoundConfig, total_stake: u128, multiplier: Decimal) -> (b:
    bool)
    ensures
        b == may_auto_compound(*config, total_stake as int, multiplier),
{
    let has_min_stake = total_stake >= config.min_stake_threshold;
    let has_nft = multiplier.atomics > DECIMAL_FRACTIONAL;
    if config.nft_required && config.min_stake_threshold > 0 {
        has_min_stake && has_nft
    } else if config.nft_required {
        has_nft
    } else {
        has_min_stake
    }
}

/// A position after its owner has opted in to, or out of, compounding.
/// Opting in is refused for a position that may not compound.
pub open spec fn auto_compound_toggled(
    room: RoomView,
    pos: UserPositionView,
    now: u64,
    enabled: bool,
    holding: Option<bool>,
) -> Result<UserPositionView, ContractError> {
    if staked_total(pos.staked_amounts) > u128::MAX {
        Err(ContractError::Overflow)
    } else if enabled && !may_auto_compound(
        room.auto_compound_config,
        staked_total(pos.staked_amounts),
        nft_multiplier(room.nft_config, holding),
    ) {
        Err(ContractError::AutoCompoundNotAllowed)
    } else {
        Ok(UserPositionView { auto_compound_enabled: enabled, last_interaction: now, ..pos })
    }
}

/// Opts a position in to, or out of, compounding.
pub fn toggle_auto_compound(
    room: &Room,
    pos: &mut UserPosition,
    now: u64,
    enabled: bool,
    holding: Option<bool>,
) -> (r: Result<(), ContractError>)
    ensures
        match r {
            Ok(()) => auto_compound_toggled(room@, old(pos)@, now, enabled, holding) == Ok::<
                UserPositionView,
                ContractError,
            >(final(pos)@),
            Err(e) => auto_compound_toggled(room@, old(pos)@, now, enabled, holding) == Err::<
                UserPositionView,
                ContractError,
            >(e) && final(pos)@ == old(pos)@,
        },
{
    let total = match total_stake(&pos.staked_amounts) {
        Some(total) => total,
        None => {
            return Err(ContractError::Overflow);
        },
    };
    let multiplier = query_nft_multiplier(room, holding);
    if enabled && !can_auto_compound(&room.auto_compound_config, total, multiplier) {
        return Err(ContractError::AutoCompoundNotAllowed);
    }
    pos.auto_compound_enabled = enabled;
    pos.last_interaction = now;
    Ok(())
}

/// How far a compounding has come: the stakes and the pending rewards so
/// far, and the sum of what was moved from the one to the other.
pub struct CompoundProgress {
    pub stakes: Seq<(String, u128)>,
    pub pending: Seq<(AssetInfo, u128)>,
    pub compounded: u128,
}

/// The compounding of the pending reward at index `k`: a reward in a token
/// that the position has staked is added to that stake and emptied; any
/// other is left pending.
pub open spec fn compound_asset(p: CompoundProgress, k: int) -> Result<
    CompoundProgress,
    ContractError,
> {
    let amount = p.pending[k].1;
    match p.pending[k].0 {
        AssetInfo::Native(_) => Ok(p),
        AssetInfo::Cw20(token) => if amount == 0 {
            Ok(p)
        } else {
            match first_match(p.stakes, token_hit(token@)) {
                None => Ok(p),
                Some(i) => if p.stakes[i].1 + amount > u128::MAX || p.compounded + amount
                    > u128::MAX {
                    Err(ContractError::Overflow)
                } else {
                    Ok(
                        CompoundProgress {
                            stakes: p.stakes.update(
                                i,
                                (p.stakes[i].0, (p.stakes[i].1 + amount) as u128),
                            ),
                            pending: p.pending.update(k, (p.pending[k].0, 0u128)),
                            compounded: (p.compounded + amount) as u128,
                        },
                    )
                },
            }
        },
    }
}

/// A compounding carried through the pending rewards from index `from` on.
pub open spec fn compound_assets(p: CompoundProgress, from: int) -> Result<
    CompoundProgress,
    ContractError,
>
    decreases p.pending.len() - from,
{
    if from < 0 || from >= p.pending.len() {
        Ok(p)
    } else {
        match compound_asset(p, from) {
            Err(e) => Err(e),
            Ok(next) => if next.pending.len() == p.pending.len() {
                compound_assets(next, from + 1)
            } else {
                Ok(next)
            },
        }
    }
}

/// How a compounding that went through the pending rewards ends: refused
/// where nothing moved, else the position's weight is taken anew.
pub open spec fn compound_concluded(
    r: Result<CompoundProgress, ContractError>,
    room: RoomView,
    pos: UserPositionView,
    old_weight: u128,
    now: u64,
) -> Result<(RoomView, UserPositionView, u128), ContractError> {
    match r {
        Err(e) => Err(e),
        Ok(p) => if p.compounded == 0 {
            Err(ContractError::NoRewards)
        } else {
            match reweighted(
                room,
                UserPositionView { staked_amounts: p.stakes, pending_rewards: p.pending, ..pos },
                old_weight,
                now,
            ) {
                Err(e) => Err(e),
                Ok((room2, pos2)) => Ok((room2, pos2, p.compounded)),
            }
        },
    }
}

/// The compounding of a position that has opted in: the room and the
/// position after it and the amount that moved into the stake. A compounding
/// that moves nothing is refused.
pub open spec fn compounded(room: RoomView, pos: UserPositionView, now: u64, holding: Option<bool>) -> Result<
    (RoomView, UserPositionView, u128),
    ContractError,
> {
    if !pos.auto_compound_enabled {
        Err(ContractError::AutoCompoundNotAllowed)
    } else {
        match settled_position(room, pos, now, holding) {
            Err(e) => Err(e),
            Ok((room1, pos1, old_weight)) => compound_concluded(
                compound_assets(
                    CompoundProgress {
                        stakes: pos1.staked_amounts,
                        pending: pos1.pending_rewards,
                        compounded: 0,
                    },
                    0,
                ),
                room1,
                pos1,
                old_weight,
                now,
            ),
        }
    }
}

/// Compounds a position that has opted in and returns the amount that moved
/// into the stake.
pub(crate) fn compound_in(room: &mut Room, pos: &mut UserPosition, now: u64, holding: Option<bool>) -> (r:
    Result<u128, ContractError>)
    ensures
        match r {
            Ok(amount) => compounded(old(room)@, old(pos)@, now, holding) == Ok::<
                (RoomView, UserPositionView, u128),
                ContractError,
            >((final(room)@, final(pos)@, amount)),
            Err(e) => compounded(old(room)@, old(pos)@, now, holding) == Err::<
                (RoomView, UserPositionView, u128),
                ContractError,
            >(e),
        },
{
    if !pos.auto_compound_enabled {
        return Err(ContractError::AutoCompoundNotAllowed);
    }
    let old_weight = match settle_position(room, pos, now, holding) {
        Ok(weight) => weight,
        Err(e) => {
            return Err(e);
        },
    };
    let ghost pos1 = pos@;
    let ghost room1 = room@;
    let ghost start = CompoundProgress {
        stakes: pos1.staked_amounts,
        pending: pos1.pending_rewards,
        compounded: 0,
    };
    let mut total: u128 = 0;
    let n = pos.pending_rewards.len();
    let mut k: usize = 0;
    while k < n
        invariant
            k <= n,
            n == pos.pending_rewards.len(),
            pos@ == (UserPositionView {
                staked_amounts: pos.staked_amounts@,
                pending_rewards: pos.pending_rewards@,
                ..pos1
            }),
            room@ == room1,
            compounded(old(room)@, old(pos)@, now, holding) == compound_concluded(
                compound_assets(start, 0),
                room1,
                pos1,
                old_weight,
                now,
            ),
            compound_assets(start, 0) == compound_assets(
                CompoundProgress {
                    stakes: pos.staked_amounts@,
                    pending: pos.pending_rewards@,
                    compounded: total,
                },
                k as int,
            ),
        decreases n - k,
    {
        let amount = pos.pending_rewards[k].1;
        let target = match &pos.pending_rewards[k].0 {
            AssetInfo::Cw20(token) => if amount != 0 {
                find_stake(&pos.staked_amounts, token)
            } else {
                None
            },
            AssetInfo::Native(_) => None,
        };
        match target {
            Some(i) => {
                let stake = match pos.staked_amounts[i].1.checked_add(amount) {
                    Some(stake) => stake,
                    None => {
                        return Err(ContractError::Overflow);
                    },
                };
                let sum = match total.checked_add(amount) {
                    Some(sum) => sum,
                    None => {
                        return Err(ContractError::Overflow);
                    },
                };
                let entry = (pos.staked_amounts[i].0.clone(), stake);
                pos.staked_amounts.set(i, entry);
                let emptied = (pos.pending_rewards[k].0.clone(), 0u128);
                pos.pending_rewards.set(k, emptied);
                total = sum;
            },
            None => {},
        }
        k = k + 1;
    }
    if total == 0 {
        return Err(ContractError::NoRewards);
    }
    match reweigh(room, pos, old_weight, now) {
        Ok(()) => Ok(total),
        Err(e) => Err(e),
    }
}

} // verus!
