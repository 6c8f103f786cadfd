//! A transaction ledger: deposits, withdrawals and the dispute life cycle,
//! folded row by row into per-client balances.

pub mod common;
pub mod decode;
pub mod engine;
pub mod ledger;
pub mod money;
pub mod process;
pub mod report;
pub mod text;
