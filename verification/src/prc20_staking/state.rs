//! The records of the staking rooms and the tables that hold them.

use vstd::prelude::*;
use crate::math::Decimal;
use crate::table::{first_match, lemma_first_match_is, lemma_first_match_none, slot_of};

pub use crate::asset::AssetInfo;

verus! {

/// Global settings.
#[derive(Debug, PartialEq, Eq)]
pub struct Config {
    pub admin: String,
    pub paused: bool,
    pub next_room_id: u64,
}

/// Which tokens a room takes and what a position must hold to count.
#[derive(Debug, PartialEq, Eq)]
pub struct StakeConfig {
    pub stake_tokens: Vec<String>,
    /// Whether every token must be staked, each to the minimum, or the sum
    /// of all stakes must reach the minimum.
    pub is_and_rule: bool,
    pub min_stake_amount: u128,
}

/// One reward asset of a room: its emission, its funding ledger and its
/// accumulator.
#[derive(Debug, PartialEq, Eq)]
pub struct RewardConfig {
    pub reward_token: AssetInfo,
    pub emission_per_second: u128,
    pub total_deposited: u128,
    pub total_claimed: u128,
    /// Reward earned so far by one unit of weight.
    pub acc_reward_per_share: Decimal,
}

#[derive(Debug, PartialEq, Eq)]
pub struct NFTTierMultiplier {
    pub tier_name: String,
    pub multiplier: Decimal,
    pub auto_compound_unlocked: bool,
}

/// The credential that raises, or gates, the weight of a room's positions.
#[derive(Debug, PartialEq, Eq)]
pub struct NFTConfig {
    pub nft_address: String,
    pub required_for_staking: bool,
    pub tier_multipliers: Vec<NFTTierMultiplier>,
}

#[derive(Clone, Copy, Debug, PartialEq, Eq, Structural)]
pub struct AutoCompoundConfig {
    pub enabled: bool,
    pub min_stake_threshold: u128,
    pub nft_required: bool,
}

#[derive(Debug, PartialEq, Eq)]
pub struct Room {
    pub id: u64,
    pub name: String,
    pub stake_config: StakeConfig,
    pub reward_configs: Vec<RewardConfig>,
    pub nft_config: Option<NFTConfig>,
    pub auto_compound_config: AutoCompoundConfig,
    pub total_staked_weight: u128,
    pub last_update_time: u64,
    pub early_withdraw_penalty: Decimal,
    pub cooldown_period: u64,
    pub paused: bool,
}

#[derive(Debug, PartialEq, Eq)]
pub struct UserPosition {
    pub room_id: u64,
    pub user: String,
    /// Staked amount per token.
    pub staked_amounts: Vec<(String, u128)>,
    /// Per reward asset, the accumulator when the position was last settled.
    pub last_reward_per_share: Vec<(AssetInfo, Decimal)>,
    /// Per reward asset, what is accrued and not yet paid.
    pub pending_rewards: Vec<(AssetInfo, u128)>,
    pub staked_at: u64,
    pub last_interaction: u64,
    pub auto_compound_enabled: bool,
    pub nft_multiplier: Decimal,
}

/// Everything the staking rooms keep between calls.
#[derive(Debug, PartialEq, Eq)]
pub struct State {
    pub config: Config,
    pub rooms: Vec<Room>,
    pub user_positions: Vec<UserPosition>,
}

pub struct StakeConfigView {
    pub stake_tokens: Seq<String>,
    pub is_and_rule: bool,
    pub min_stake_amount: u128,
}

pub struct NFTConfigView {
    pub nft_address: String,
    pub required_for_staking: bool,
    pub tier_multipliers: Seq<NFTTierMultiplier>,
}

/// A room as a value.
pub struct RoomView {
    pub id: u64,
    pub name: String,
    pub stake_config: StakeConfigView,
    pub reward_configs: Seq<RewardConfig>,
    pub nft_config: Option<NFTConfigView>,
    pub auto_compound_config: AutoCompoundConfig,
    pub total_staked_weight: u128,
    pub last_update_time: u64,
    pub early_withdraw_penalty: Decimal,
    pub cooldown_period: u64,
    pub paused: bool,
}

/// A position as a value.
pub struct UserPositionView {
    pub room_id: u64,
    pub user: String,
    pub staked_amounts: Seq<(String, u128)>,
    pub last_reward_per_share: Seq<(AssetInfo, Decimal)>,
    pub pending_rewards: Seq<(AssetInfo, u128)>,
    pub staked_at: u64,
    pub last_interaction: u64,
    pub auto_compound_enabled: bool,
    pub nft_multiplier: Decimal,
}

/// The state as a value.
pub struct StateView {
    pub config: Config,
    pub rooms: Seq<RoomView>,
    pub user_positions: Seq<UserPositionView>,
}

impl View for StakeConfig {
    type V = StakeConfigView;

    open spec fn view(&self) -> StakeConfigView {
        StakeConfigView {
            stake_tokens: self.stake_tokens@,
            is_and_rule: self.is_and_rule,
            min_stake_amount: self.min_stake_amount,
        }
    }
}

impl View for NFTConfig {
    type V = NFTConfigView;

    open spec fn view(&self) -> NFTConfigView {
        NFTConfigView {
            nft_address: self.nft_address,
            required_for_staking: self.required_for_staking,
            tier_multipliers: self.tier_multipliers@,
        }
    }
}

/// A credential setting, where there is one, as a value.
pub open spec fn nft_config_view(config: Option<NFTConfig>) -> Option<NFTConfigView> {
    match config {
        Some(config) => Some(config@),
        None => None,
    }
}

impl View for Room {
    type V = RoomView;

    open spec fn view(&self) -> RoomView {
        RoomView {
            id: self.id,
            name: self.name,
            stake_config: self.stake_config@,
            reward_configs: self.reward_configs@,
            nft_config: nft_config_view(self.nft_config),
            auto_compound_config: self.auto_compound_config,
            total_staked_weight: self.total_staked_weight,
            last_update_time: self.last_update_time,
            early_withdraw_penalty: self.early_withdraw_penalty,
            cooldown_period: self.cooldown_period,
            paused: self.paused,
        }
    }
}

impl View for UserPosition {
    type V = UserPositionView;

    open spec fn view(&self) -> UserPositionView {
        UserPositionView {
            room_id: self.room_id,
            user: self.user,
            staked_amounts: self.staked_amounts@,
            last_reward_per_share: self.last_reward_per_share@,
            pending_rewards: self.pending_rewards@,
            staked_at: self.staked_at,
            last_interaction: self.last_interaction,
            auto_compound_enabled: self.auto_compound_enabled,
            nft_multiplier: self.nft_multiplier,
        }
    }
}

/// The rooms as values.
pub open spec fn room_views(rooms: Seq<Room>) -> Seq<RoomView> {
    rooms.map_values(|r: Room| r@)
}

/// The positions as values.
pub open spec fn position_views(positions: Seq<UserPosition>) -> Seq<UserPositionView> {
    positions.map_values(|p: UserPosition| p@)
}

impl View for State {
    type V = StateView;

    open spec fn view(&self) -> StateView {
        StateView {
            config: self.config,
            rooms: room_views(self.rooms@),
            user_positions: position_views(self.user_positions@),
        }
    }
}

impl Clone for Config {
    fn clone(&self) -> (r: Self)
        ensures
            r == *self,
    {
        Config { admin: self.admin.clone(), paused: self.paused, next_room_id: self.next_room_id }
    }
}

impl Clone for RewardConfig {
    fn clone(&self) -> (r: Self)
        ensures
            r == *self,
    {
        RewardConfig {
            reward_token: self.reward_token.clone(),
            emission_per_second: self.emission_per_second,
            total_deposited: self.total_deposited,
            total_claimed: self.total_claimed,
            acc_reward_per_share: self.acc_reward_per_share,
        }
    }
}

impl Clone for NFTTierMultiplier {
    fn clone(&self) -> (r: Self)
        ensures
            r == *self,
    {
        NFTTierMultiplier {
            tier_name: self.tier_name.clone(),
            multiplier: self.multiplier,
            auto_compound_unlocked: self.auto_compound_unlocked,
        }
    }
}

impl Clone for StakeConfig {
    fn clone(&self) -> (r: Self)
        ensures
            r@ == self@,
    {
        let stake_tokens = self.stake_tokens.clone();
        assert(stake_tokens@ =~= self.stake_tokens@);
        StakeConfig {
            stake_tokens,
            is_and_rule: self.is_and_rule,
            min_stake_amount: self.min_stake_amount,
        }
    }
}

impl Clone for NFTConfig {
    fn clone(&self) -> (r: Self)
        ensures
            r@ == self@,
    {
        let tier_multipliers = self.tier_multipliers.clone();
        assert(tier_multipliers@ =~= self.tier_multipliers@);
        NFTConfig {
            nft_address: self.nft_address.clone(),
            required_for_staking: self.required_for_staking,
            tier_multipliers,
        }
    }
}

impl Clone for Room {
    fn clone(&self) -> (r: Self)
        ensures
            r@ == self@,
    {
        let reward_configs = self.reward_configs.clone();
        assert(reward_configs@ =~= self.reward_configs@);
        let nft_config = match &self.nft_config {
            Some(config) => Some(config.clone()),
            None => None,
        };
        Room {
            id: self.id,
            name: self.name.clone(),
            stake_config: self.stake_config.clone(),
            reward_configs,
            nft_config,
            auto_compound_config: self.auto_compound_config,
            total_staked_weight: self.total_staked_weight,
            last_update_time: self.last_update_time,
            early_withdraw_penalty: self.early_withdraw_penalty,
            cooldown_period: self.cooldown_period,
            paused: self.paused,
        }
    }
}

pub(crate) fn clone_stakes(v: &Vec<(String, u128)>) -> (r: Vec<(String, u128)>)
    ensures
        r@ == v@,
{
    let mut r: Vec<(String, u128)> = Vec::new();
    let mut i: usize = 0;
    while i < v.len()
        invariant
            i <= v.len(),
            r@ == v@.take(i as int),
        decreases v.len() - i,
    {
        r.push((v[i].0.clone(), v[i].1));
        assert(r@ =~= v@.take(i + 1));
        i = i + 1;
    }
    assert(v@.take(v.len() as int) =~= v@);
    r
}

pub(crate) fn clone_checkpoints(v: &Vec<(AssetInfo, Decimal)>) -> (r: Vec<(AssetInfo, Decimal)>)
    ensures
        r@ == v@,
{
    let mut r: Vec<(AssetInfo, Decimal)> = Vec::new();
    let mut i: usize = 0;
    while i < v.len()
        invariant
            i <= v.len(),
            r@ == v@.take(i as int),
        decreases v.len() - i,
    {
        r.push((v[i].0.clone(), v[i].1));
        assert(r@ =~= v@.take(i + 1));
        i = i + 1;
    }
    assert(v@.take(v.len() as int) =~= v@);
    r
}

pub(crate) fn clone_pending(v: &Vec<(AssetInfo, u128)>) -> (r: Vec<(AssetInfo, u128)>)
    ensures
        r@ == v@,
{
    let mut r: Vec<(AssetInfo, u128)> = Vec::new();
    let mut i: usize = 0;
    while i < v.len()
        invariant
            i <= v.len(),
            r@ == v@.take(i as int),
        decreases v.len() - i,
    {
        r.push((v[i].0.clone(), v[i].1));
        assert(r@ =~= v@.take(i + 1));
        i = i + 1;
    }
    assert(v@.take(v.len() as int) =~= v@);
    r
}

impl Clone for UserPosition {
    fn clone(&self) -> (r: Self)
        ensures
            r@ == self@,
    {
        UserPosition {
            room_id: self.room_id,
            user: self.user.clone(),
            staked_amounts: clone_stakes(&self.staked_amounts),
            last_reward_per_share: clone_checkpoints(&self.last_reward_per_share),
            pending_rewards: clone_pending(&self.pending_rewards),
            staked_at: self.staked_at,
            last_interaction: self.last_interaction,
            auto_compound_enabled: self.auto_compound_enabled,
            nft_multiplier: self.nft_multiplier,
        }
    }
}

impl Clone for State {
    fn clone(&self) -> (r: Self)
        ensures
            r@ == self@,
    {
        let mut rooms: Vec<Room> = Vec::new();
        let mut i: usize = 0;
        while i < self.rooms.len()
            invariant
                i <= self.rooms.len(),
                rooms.len() == i,
                forall|j: int| 0 <= j < i ==> (#[trigger] rooms@[j])@ == self.rooms@[j]@,
            decreases self.rooms.len() - i,
        {
            rooms.push(self.rooms[i].clone());
            i = i + 1;
        }
        assert(room_views(rooms@) =~= room_views(self.rooms@));
        let mut user_positions: Vec<UserPosition> = Vec::new();
        let mut k: usize = 0;
        while k < self.user_positions.len()
            invariant
                k <= self.user_positions.len(),
                user_positions.len() == k,
                forall|j: int|
                    0 <= j < k ==> (#[trigger] user_positions@[j])@ == self.user_positions@[j]@,
            decreases self.user_positions.len() - k,
        {
            user_positions.push(self.user_positions[k].clone());
            k = k + 1;
        }
        assert(position_views(user_positions@) =~= position_views(self.user_positions@));
        State { config: self.config.clone(), rooms, user_positions }
    }
}

/// The rooms with the id `room_id`.
pub open spec fn room_hit(room_id: u64) -> spec_fn(RoomView) -> bool {
    |r: RoomView| r.id == room_id
}

/// The positions of `user` in the room `room_id`.
pub open spec fn position_hit(user: Seq<char>, room_id: u64) -> spec_fn(UserPositionView) -> bool {
    |p: UserPositionView| p.user@ == user && p.room_id == room_id
}

/// Where the room `room_id` stands.
pub open spec fn room_slot(rooms: Seq<RoomView>, room_id: u64) -> Option<int> {
    first_match(rooms, room_hit(room_id))
}

/// Where the position of `user` in the room `room_id` stands.
pub open spec fn position_slot(positions: Seq<UserPositionView>, user: Seq<char>, room_id: u64) -> Option<
    int,
> {
    first_match(positions, position_hit(user, room_id))
}

/// Where the room `room_id` stands.
pub fn find_room(rooms: &Vec<Room>, room_id: u64) -> (found: Option<usize>)
    ensures
        slot_of(found) == room_slot(room_views(rooms@), room_id),
        found is Some ==> found.unwrap() < rooms.len(),
{
    let ghost views = room_views(rooms@);
    let mut i: usize = 0;
    while i < rooms.len()
        invariant
            i <= rooms.len(),
            views == room_views(rooms@),
            forall|j: int| 0 <= j < i ==> !room_hit(room_id)(#[trigger] views[j]),
        decreases rooms.len() - i,
    {
        if rooms[i].id == room_id {
            proof {
                lemma_first_match_is(views, room_hit(room_id), i as int);
            }
            return Some(i);
        }
        i = i + 1;
    }
    proof {
        lemma_first_match_none(views, room_hit(room_id));
    }
    None
}

/// Where the position of `user` in the room `room_id` stands.
pub fn find_position(positions: &Vec<UserPosition>, user: &String, room_id: u64) -> (found: Option<
    usize,
>)
    ensures
        slot_of(found) == position_slot(position_views(positions@), user@, room_id),
        found is Some ==> found.unwrap() < positions.len(),
{
    let ghost views = position_views(positions@);
    let mut i: usize = 0;
    while i < positions.len()
        invariant
            i <= positions.len(),
            views == position_views(positions@),
            forall|j: int| 0 <= j < i ==> !position_hit(user@, room_id)(#[trigger] views[j]),
        decreases positions.len() - i,
    {
        if positions[i].room_id == room_id && positions[i].user == *user {
            proof {
                lemma_first_match_is(views, position_hit(user@, room_id), i as int);
            }
            return Some(i);
        }
        i = i + 1;
    }
    proof {
        lemma_first_match_none(views, position_hit(user@, room_id));
    }
    None
}

} // verus!
