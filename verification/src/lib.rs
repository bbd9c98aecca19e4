//! An in-process banking ledger: customers, their single account each,
//! and the transaction history behind every balance change, with
//! operations to register customers, open accounts, deposit, withdraw and
//! transfer funds, and to encode the entire ledger for durable storage
//! and decode it back. Monetary amounts are integer cents.

pub mod account;
pub mod bank;
pub mod codec;
pub mod customer;
pub mod errors;
pub mod external;
pub mod persistence;
pub mod traits;
pub mod transaction;

pub use account::Account;
pub use bank::Bank;
pub use customer::Customer;
pub use errors::{BankError, BankResult};
pub use persistence::{decode_bank, encode_bank};
pub use traits::Summarizable;
pub use transaction::{Transaction, TransactionType};
