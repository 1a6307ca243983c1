//! Why a call on the reward controller is rejected.

use vstd::prelude::*;
use vstd::string::*;

verus! {

/// Rejections that carry no kind of their own.
#[derive(Clone, Copy, Debug, PartialEq, Eq, Structural)]
pub enum StdError {
    /// More lockers in one batch than the configured limit.
    BatchLimitExceeded,
    /// A participant named themself as referrer.
    SelfReferral,
    /// The participant already has a referrer.
    ReferralAlreadyRegistered,
    /// A commission above 10000 basis points.
    InvalidCommissionBps,
}

#[derive(Clone, Copy, Debug, PartialEq, Eq, Structural)]
pub enum ContractError {
    Std(StdError),
    Unauthorized,
    Paused,
    PoolNotFound,
    StakeNotFound,
    InvalidLocker,
    ClaimTooSoon,
    NoRewards,
    InvalidEmissionRate,
    PoolDisabled,
    InsufficientRewards,
    Overflow,
}

impl StdError {
    /// The message shown to the caller.
    pub fn message(&self) -> (s: String)
        ensures
            s@ == (match *self {
                StdError::BatchLimitExceeded => "Batch limit exceeded"@,
                StdError::SelfReferral => "Cannot refer yourself"@,
                StdError::ReferralAlreadyRegistered => "Referral already registered"@,
                StdError::InvalidCommissionBps => "Invalid commission bps"@,
            }),
    {
        match self {
            StdError::BatchLimitExceeded => String::from_str("Batch limit exceeded"),
            StdError::SelfReferral => String::from_str("Cannot refer yourself"),
            StdError::ReferralAlreadyRegistered => String::from_str("Referral already registered"),
            StdError::InvalidCommissionBps => String::from_str("Invalid commission bps"),
        }
    }
}

impl ContractError {
    /// The message shown to the caller.
    pub fn message(&self) -> (s: String)
        ensures
            s@ == (match *self {
                ContractError::Std(e) => (match e {
                    StdError::BatchLimitExceeded => "Batch limit exceeded"@,
                    StdError::SelfReferral => "Cannot refer yourself"@,
                    StdError::ReferralAlreadyRegistered => "Referral already registered"@,
                    StdError::InvalidCommissionBps => "Invalid commission bps"@,
                }),
                ContractError::Unauthorized => "Unauthorized"@,
                ContractError::Paused => "Contract is paused"@,
                ContractError::PoolNotFound => "Pool not found"@,
                ContractError::StakeNotFound => "Stake not found"@,
                ContractError::InvalidLocker => "Locker not found or not locked"@,
                ContractError::ClaimTooSoon => "Claim interval not passed yet"@,
                ContractError::NoRewards => "No rewards to claim"@,
                ContractError::InvalidEmissionRate => "Invalid emission rate"@,
                ContractError::PoolDisabled => "Pool is disabled"@,
                ContractError::InsufficientRewards => "Insufficient reward balance"@,
                ContractError::Overflow => "Overflow"@,
            }),
    {
        match self {
            ContractError::Std(e) => e.message(),
            ContractError::Unauthorized => String::from_str("Unauthorized"),
            ContractError::Paused => String::from_str("Contract is paused"),
            ContractError::PoolNotFound => String::from_str("Pool not found"),
            ContractError::StakeNotFound => String::from_str("Stake not found"),
            ContractError::InvalidLocker => String::from_str("Locker not found or not locked"),
            ContractError::ClaimTooSoon => String::from_str("Claim interval not passed yet"),
            ContractError::NoRewards => String::from_str("No rewards to claim"),
            ContractError::InvalidEmissionRate => String::from_str("Invalid emission rate"),
            ContractError::PoolDisabled => String::from_str("Pool is disabled"),
            ContractError::InsufficientRewards => String::from_str("Insufficient reward balance"),
            ContractError::Overflow => String::from_str("Overflow"),
        }
    }
}

} // verus!
