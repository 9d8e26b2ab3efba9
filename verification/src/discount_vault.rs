//! The discount vault: users vault LP shares of pools holding the debt
//! token, and the value vaulted earns them a discount.
pub mod state;
pub mod vault;
pub mod queries;
pub mod laws;
