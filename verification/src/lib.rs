//! Verified core logic of the Membrane CDP periphery contracts: the
//! liquidation queue, emissions voting, governance, the discount vault, the
//! liquidity check, system discounts and the launch sequence.
#![allow(non_snake_case)]

pub mod math;
pub mod decimal;
pub mod decimal256;
pub mod discount_vault;
pub mod discounts;
pub mod emissions_voting;
pub mod governance;
pub mod keys;
pub mod launch;
pub mod liq_queue;
pub mod liquidity_check;
