//! The calls that the staking rooms accept and what they answer.

use vstd::prelude::*;
use crate::math::Decimal;
use crate::prc20_staking::state::{
    AssetInfo, AutoCompoundConfig, NFTConfig, Room, StakeConfig, UserPosition,
};

verus! {

#[derive(Debug, PartialEq, Eq)]
pub struct InstantiateMsg {
    pub admin: String,
}

/// What a token contract says when it has moved tokens to the rooms.
#[derive(Debug, PartialEq, Eq)]
pub struct Cw20ReceiveMsg {
    pub sender: String,
    pub amount: u128,
    pub msg: Cw20HookMsg,
}

#[derive(Clone, Copy, Debug, PartialEq, Eq, Structural)]
pub enum Cw20HookMsg {
    Stake { room_id: u64 },
    FundPool { room_id: u64 },
}

#[allow(inconsistent_fields)]
#[derive(Debug, PartialEq, Eq)]
pub enum ExecuteMsg {
    /// Tokens received, as a stake or as reward funding.
    Receive(Cw20ReceiveMsg),
    Unstake { room_id: u64, amount: u128, token_address: String },
    ClaimRewards { room_id: u64 },
    ToggleAutoCompound { room_id: u64, enabled: bool },
    Compound { room_id: u64 },
    CreateRoom {
        name: String,
        stake_config: StakeConfig,
        nft_config: Option<NFTConfig>,
        auto_compound_config: AutoCompoundConfig,
        early_withdraw_penalty: Decimal,
        cooldown_period: u64,
    },
    UpdateRoom {
        room_id: u64,
        paused: Option<bool>,
        early_withdraw_penalty: Option<Decimal>,
        cooldown_period: Option<u64>,
    },
    AddRewardPool { room_id: u64, reward_token: AssetInfo, emission_per_second: u128 },
    UpdateRewardPool { room_id: u64, reward_token: AssetInfo, emission_per_second: u128 },
    FundRewardPool { room_id: u64 },
    UpdateConfig { admin: Option<String>, paused: Option<bool> },
}

#[allow(inconsistent_fields)]
#[derive(Debug, PartialEq, Eq)]
pub enum QueryMsg {
    Config {  },
    Room { room_id: u64 },
    Rooms { start_after: Option<u64>, limit: Option<u32> },
    UserPosition { room_id: u64, user: String },
    PendingRewards { room_id: u64, user: String },
    APREstimate { room_id: u64 },
    Eligibility { room_id: u64, user: String },
}

#[derive(Debug, PartialEq, Eq)]
pub struct ConfigResponse {
    pub admin: String,
    pub paused: bool,
}

#[derive(Debug, PartialEq, Eq)]
pub struct RoomResponse {
    pub room: Room,
}

#[derive(Debug, PartialEq, Eq)]
pub struct UserPositionResponse {
    pub position: Option<UserPosition>,
}

#[derive(Debug, PartialEq, Eq)]
pub struct PendingRewardsResponse {
    pub rewards: Vec<(AssetInfo, u128)>,
}

#[derive(Debug, PartialEq, Eq)]
pub struct APREstimateResponse {
    pub aprs: Vec<(AssetInfo, Decimal)>,
}

#[derive(Clone, Copy, Debug, PartialEq, Eq, Structural)]
pub struct EligibilityResponse {
    pub can_stake: bool,
    pub can_auto_compound: bool,
    pub nft_multiplier: Decimal,
}

/// The answer to a query, one form for each question.
#[derive(Debug, PartialEq, Eq)]
pub enum QueryResponse {
    Config(ConfigResponse),
    Room(RoomResponse),
    Rooms(Vec<RoomResponse>),
    UserPosition(UserPositionResponse),
    PendingRewards(PendingRewardsResponse),
    APREstimate(APREstimateResponse),
    Eligibility(EligibilityResponse),
}

} // verus!
