//! Pools that pay a yearly rate per unit of locked, multiplier-weighted
//! collateral, driven by the notifications of a lock registry.

pub mod admin;
pub mod claim;
pub mod contract;
pub mod engine;
pub mod error;
pub mod hooks;
pub mod keys;
pub mod laws;
pub mod msg;
pub mod payouts;
pub mod query;
pub mod settlement;
pub mod state;
pub mod totals;
