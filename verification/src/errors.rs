//! Error vocabulary shared by every ledger operation.

use vstd::prelude::*;

verus! {

/// Mathematical model of a `BankError`: payload strings as character
/// sequences, amounts as unbounded integers.
pub enum BankErrorView {
    CustomerNotFound(Seq<char>),
    AccountNotFound(Seq<char>),
    InsufficientFunds { available: int, requested: int },
    InvalidAmount(int),
    CustomerAlreadyExists(Seq<char>),
    IoError(Seq<char>),
    SerializationError(Seq<char>),
}

/// Everything that can go wrong in a ledger operation. All monetary
/// amounts are in cents.
#[derive(Debug, Clone, PartialEq)]
pub enum BankError {
    /// No customer with the given id is registered.
    CustomerNotFound(String),
    /// The customer exists but owns no account.
    AccountNotFound(String),
    /// A withdrawal or transfer asked for more than the account holds.
    InsufficientFunds { available: i64, requested: i64 },
    /// A non-positive (or, for an initial deposit, negative) amount, or
    /// one that the balance representation cannot hold.
    InvalidAmount(i64),
    /// A registration clashed with an existing customer.
    CustomerAlreadyExists(String),
    /// Reading or writing the durable store failed.
    IoError(String),
    /// The durable store's contents could not be decoded.
    SerializationError(String),
}

impl View for BankError {
    type V = BankErrorView;

    open spec fn view(&self) -> BankErrorView {
        match self {
            BankError::CustomerNotFound(s) => BankErrorView::CustomerNotFound(s@),
            BankError::AccountNotFound(s) => BankErrorView::AccountNotFound(s@),
            BankError::InsufficientFunds { available, requested } => {
                BankErrorView::InsufficientFunds {
                    available: *available as int,
                    requested: *requested as int,
                }
            },
            BankError::InvalidAmount(v) => BankErrorView::InvalidAmount(*v as int),
            BankError::CustomerAlreadyExists(s) => BankErrorView::CustomerAlreadyExists(s@),
            BankError::IoError(s) => BankErrorView::IoError(s@),
            BankError::SerializationError(s) => BankErrorView::SerializationError(s@),
        }
    }
}

/// Shorthand for results of ledger operations.
pub type BankResult<T> = Result<T, BankError>;

} // verus!
