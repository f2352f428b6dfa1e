//! Verified core of a personal-finance ledger: exact decimal money, calendar
//! dates, an in-memory ledger store with atomic postings and transfers, and
//! budget consumption figures recomputed from the transaction set.

pub mod auth;
pub mod budgets;
pub mod client;
pub mod dates;
pub mod errors;
pub mod laws;
pub mod ledger;
pub mod models;
pub mod money;
pub mod queries;
pub mod text;
