//! Governance: proposals submitted by stakers, aligned to become active,
//! voted on, ended by quorum and threshold, and executed after a delay.
pub mod state;
pub mod validation;
pub mod entries;
pub mod power;
pub mod proposals;
pub mod voting;
pub mod ending;
pub mod admin;
pub mod queries;
pub mod checks;
pub mod laws;
