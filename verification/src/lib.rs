//! A verified transaction-processing ledger: deposits, withdrawals and the
//! dispute lifecycle of withdrawn funds, folded over comma-separated input
//! into one account snapshot per client.
//!
//! Amounts are fixed-point integers scaled by 10^4; the codec between that
//! form and decimal text is proved to round-trip. The account state machine
//! is specified transition by transition and proved to keep every balance
//! in range, with the held balance always covering the ongoing disputes.
pub mod amount;
pub mod csvio;
pub mod digits;
pub mod driver;
pub mod ledger;
pub mod pipeline;
pub mod rows;
