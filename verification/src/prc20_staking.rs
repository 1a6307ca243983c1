//! Staking rooms: positions stake one or several tokens, and every reward
//! asset of a room is emitted at a flat rate, shared by weight and capped by
//! what the asset was funded with.

pub mod contract;
pub mod cover;
pub mod engine;
pub mod error;
pub mod keys;
pub mod laws;
pub mod msg;
pub mod position;
pub mod query;
pub mod rooms;
pub mod state;
pub mod weights;
