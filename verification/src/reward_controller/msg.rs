//! The calls that the reward controller accepts and what it answers.

use vstd::prelude::*;
use crate::math::Decimal;
use crate::reward_controller::state::{AssetInfo, DynamicAPRConfig};

verus! {

#[derive(Debug, PartialEq, Eq)]
pub struct InstantiateMsg {
    pub admin: String,
    pub lp_locker_contract: String,
    /// Seconds between two payouts of one checkpoint; one hour if absent.
    pub claim_interval: Option<u64>,
}

/// What a token contract says when it has moved tokens to the controller.
#[derive(Debug, PartialEq, Eq)]
pub struct Cw20ReceiveMsg {
    pub sender: String,
    pub amount: u128,
    pub msg: Cw20HookMsg,
}

#[allow(inconsistent_fields)]
#[derive(Debug, PartialEq, Eq)]
pub enum Cw20HookMsg {
    DepositRewards { pool_id: u64 },
}

/// Notifications of the lock registry.
#[allow(inconsistent_fields)]
#[derive(Debug, PartialEq, Eq)]
pub enum LockerHookMsg {
    OnLock {
        locker_id: u64,
        owner: String,
        lp_token: String,
        amount: u128,
        locked_at: u64,
        unlock_time: u64,
    },
    OnExtend { locker_id: u64, new_unlock_time: u64 },
    OnUnlock { locker_id: u64, owner: String },
}

#[allow(inconsistent_fields)]
#[derive(Debug, PartialEq, Eq)]
pub enum ExecuteMsg {
    /// Tokens received as reward funding.
    Receive(Cw20ReceiveMsg),
    /// A notification of the lock registry.
    LockerHook(LockerHookMsg),
    ClaimRewards { locker_id: u64, pool_ids: Vec<u64> },
    BatchClaimRewards { locker_ids: Vec<u64>, pool_ids: Vec<u64> },
    RegisterReferral { referrer: String },
    ClaimReferralRewards {  },
    CreateRewardPool {
        lp_token: String,
        reward_token: AssetInfo,
        apr: Decimal,
        dynamic_config: Option<DynamicAPRConfig>,
    },
    UpdateRewardPool {
        pool_id: u64,
        apr: Option<Decimal>,
        dynamic_config: Option<Option<DynamicAPRConfig>>,
        enabled: Option<bool>,
    },
    DepositRewards { pool_id: u64 },
    WithdrawRewards { pool_id: u64, amount: u128 },
    UpdateConfig {
        admin: Option<String>,
        lp_locker_contract: Option<String>,
        claim_interval: Option<u64>,
        referral_commission_bps: Option<u16>,
        batch_limit: Option<u32>,
    },
    Pause {  },
    Resume {  },
}

#[allow(inconsistent_fields)]
#[derive(Debug, PartialEq, Eq)]
pub enum QueryMsg {
    Config {  },
    RewardPool { pool_id: u64 },
    AllRewardPools { start_after: Option<u64>, limit: Option<u32> },
    UserStake { user: String, locker_id: u64 },
    PendingRewards { user: String, pool_id: u64 },
    ReferrerBalances { referrer: String, start_after: Option<AssetInfo>, limit: Option<u32> },
}

#[derive(Clone, Copy, Debug, PartialEq, Eq, Structural)]
pub struct MigrateMsg {
}

#[derive(Debug, PartialEq, Eq)]
pub struct ConfigResponse {
    pub admin: String,
    pub lp_locker_contract: String,
    pub paused: bool,
    pub claim_interval: u64,
    pub next_pool_id: u64,
    pub referral_commission_bps: u16,
    pub batch_limit: u32,
}

#[derive(Debug, PartialEq, Eq)]
pub struct RewardPoolResponse {
    pub pool_id: u64,
    pub lp_token: String,
    pub reward_token: AssetInfo,
    pub total_deposited: u128,
    pub total_claimed: u128,
    pub apr: Decimal,
    pub dynamic_config: Option<DynamicAPRConfig>,
    pub enabled: bool,
}

#[derive(Debug, PartialEq, Eq)]
pub struct UserStakeResponse {
    pub user: String,
    pub locker_id: u64,
    pub lp_token: String,
    pub lp_amount: u128,
    pub bonus_multiplier: Decimal,
}

#[derive(Clone, Copy, Debug, PartialEq, Eq, Structural)]
pub struct PendingRewardsResponse {
    pub pool_id: u64,
    pub pending_amount: u128,
}

#[derive(Debug, PartialEq, Eq)]
pub struct ReferrerBalanceInfo {
    pub asset: AssetInfo,
    pub amount: u128,
}

#[derive(Debug, PartialEq, Eq)]
pub struct ReferrerBalancesResponse {
    pub referrer: String,
    pub balances: Vec<ReferrerBalanceInfo>,
}

/// The answer to a query, one form for each question.
#[allow(inconsistent_fields)]
#[derive(Debug, PartialEq, Eq)]
pub enum QueryResponse {
    Config(ConfigResponse),
    RewardPool(RewardPoolResponse),
    AllRewardPools(Vec<RewardPoolResponse>),
    UserStake(UserStakeResponse),
    PendingRewards(PendingRewardsResponse),
    ReferrerBalances(ReferrerBalancesResponse),
}

} // verus!
