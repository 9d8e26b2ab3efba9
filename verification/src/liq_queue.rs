//! The liquidation queue: bids of the debt token on each collateral, grouped
//! in premium slots, that buy liquidated collateral at a discount.
pub mod types;
pub mod sums;
pub mod arith;
pub mod distribution;
pub mod store;
pub mod bidding;
pub mod withdraw;
pub mod liquidation;
pub mod queue_ops;
pub mod contract;
pub mod query;
pub mod laws;
