//! Verified core of a liquid staking pool: exchange-rate arithmetic, pool
//! accounting, the withdrawal queue and the decisions taken by each contract
//! entry point and callback.

pub mod math;
pub mod stats;
pub mod requests;
pub mod messages;
pub mod pool;
pub mod staking;
pub mod unstaking;
pub mod withdrawal;
pub mod token;
pub mod laws;
