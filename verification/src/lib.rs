//! Accumulator-based reward distribution.
//!
//! Pools pay fungible rewards to weighted positions in proportion to time
//! and weight without walking over the positions on every tick: a pool keeps
//! the reward earned so far by one unit of weight, and a position is settled
//! against it whenever it is touched. No pool pays out more than it was
//! funded with.
//!
//! Two kinds of pool are offered:
//!
//! * [`reward_controller`]: pools that pay a yearly rate per unit of locked
//!   collateral, weighted by a bonus for the duration of the lock, with an
//!   optional rate that follows the total locked, and with referral
//!   commission on payouts;
//! * [`prc20_staking`]: rooms in which every reward asset is emitted at a
//!   flat rate, shared by weight under an all-of or any-of staking rule and
//!   capped by what the asset was funded with.
//!
//! Both keep their state in plain records ([`reward_controller::state::State`],
//! [`prc20_staking::state::State`]) and take the block time and the caller as
//! values ([`host`]). What a call does is given as a function on the state as
//! a value. The `laws` modules prove what holds of those functions whatever
//! is called: solvency, accumulators that never go back, settlement that
//! credits once, and the rest of what makes a state well formed. The `keys`
//! modules prove that every table holds each key once,
//! [`prc20_staking::weights`] and [`reward_controller::totals`] that the
//! totals by which rewards are shared are the sums they stand for,
//! [`reward_controller::payouts`] what a settlement, a claim and the closing
//! of a position do to the books of each pool, and [`prc20_staking::cover`]
//! by how much an advance raises what a room owes.
//!
//! [`math`] holds the fixed-point arithmetic, [`asset`] the reward assets and
//! [`table`] the keyed sequences in which the records are kept.

pub mod asset;
pub mod host;
pub mod math;
pub mod prc20_staking;
pub mod reward_controller;
pub mod table;
