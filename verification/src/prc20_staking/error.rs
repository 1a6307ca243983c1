//! Why a call on the staking rooms is rejected.

use vstd::prelude::*;
use vstd::string::*;

verus! {

/// Rejections that carry no kind of their own.
#[derive(Clone, Copy, Debug, PartialEq, Eq, Structural)]
pub enum StdError {
    /// The caller has no position in the room.
    PositionNotFound,
}

#[derive(Clone, Copy, Debug, PartialEq, Eq, Structural)]
pub enum ContractError {
    Std(StdError),
    Unauthorized,
    Paused,
    RoomNotFound,
    InvalidStakeToken,
    InsufficientStake,
    NFTRequirementNotMet,
    AutoCompoundNotAllowed,
    CooldownNotElapsed,
    InvalidRewardToken,
    NoRewards,
    InvalidRoomConfig,
    /// A payout would exceed what the reward asset was funded with.
    InsufficientRewards,
    Overflow,
}

impl ContractError {
    /// The message shown to the caller.
    pub fn message(&self) -> (s: String)
        ensures
            s@ == (match *self {
                ContractError::Std(_) => "Position not found"@,
                ContractError::Unauthorized => "Unauthorized"@,
                ContractError::Paused => "Contract is paused"@,
                ContractError::RoomNotFound => "Room not found"@,
                ContractError::InvalidStakeToken => "Invalid stake token"@,
                ContractError::InsufficientStake => "Insufficient stake amount"@,
                ContractError::NFTRequirementNotMet => "NFT requirement not met"@,
                ContractError::AutoCompoundNotAllowed => "Auto-compound not allowed for this user/room"@,
                ContractError::CooldownNotElapsed => "Cooldown period not elapsed"@,
                ContractError::InvalidRewardToken => "Invalid reward token"@,
                ContractError::NoRewards => "No rewards to claim"@,
                ContractError::InvalidRoomConfig => "Invalid room configuration"@,
                ContractError::InsufficientRewards => "Insufficient reward balance"@,
                ContractError::Overflow => "Overflow"@,
            }),
    {
        match self {
            ContractError::Std(_) => String::from_str("Position not found"),
            ContractError::Unauthorized => String::from_str("Unauthorized"),
            ContractError::Paused => String::from_str("Contract is paused"),
            ContractError::RoomNotFound => String::from_str("Room not found"),
            ContractError::InvalidStakeToken => String::from_str("Invalid stake token"),
            ContractError::InsufficientStake => String::from_str("Insufficient stake amount"),
            ContractError::NFTRequirementNotMet => String::from_str("NFT requirement not met"),
            ContractError::AutoCompoundNotAllowed => String::from_str(
                "Auto-compound not allowed for this user/room",
            ),
            ContractError::CooldownNotElapsed => String::from_str("Cooldown period not elapsed"),
            ContractError::InvalidRewardToken => String::from_str("Invalid reward token"),
            ContractError::NoRewards => String::from_str("No rewards to claim"),
            ContractError::InvalidRoomConfig => String::from_str("Invalid room configuration"),
            ContractError::InsufficientRewards => String::from_str("Insufficient reward balance"),
            ContractError::Overflow => String::from_str("Overflow"),
        }
    }
}

} // verus!
