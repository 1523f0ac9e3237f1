//! Categorisation and monthly sums of bank transactions.
//!
//! Transactions come from a delimited export of a bank account. Each one gets a
//! spending category, looked up by its label in what earlier categorised files
//! taught, and the amounts are summed per category over a month.
pub mod amount;
pub mod balance;
pub mod category;
pub mod date;
pub mod error;
pub mod knowledge;
pub mod label;
pub mod records;
pub mod report;
pub mod text;
pub mod transaction;
