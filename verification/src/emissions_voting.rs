//! Emissions voting: token holders vote on values of graphs, weighted by
//! their locked voting power; each period's weighted average is the result.
pub mod state;
pub mod graphs;
pub mod votes;
pub mod power;
pub mod queries;
pub mod laws;
