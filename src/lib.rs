//! Validation and summarization of settlement proposals: clearing-price
//! arithmetic for traded orders, and a simulation of the settlement
//! contract's token balances over an ordered execution plan.

pub mod amount;
pub mod token;
pub mod order;
pub mod settlement;
pub mod uniswap;
