//! A ledger engine: exact decimal amounts and the rules by which deposits,
//! withdrawals and disputes change client accounts.

pub mod bank;
pub mod fixedpoint;
pub mod ledger;
pub mod report;
pub mod transactions;
