//! Transaction records: immutable facts describing one balance-affecting
//! event each.

use vstd::prelude::*;
use crate::external::{current_time_millis, fresh_uuid};

verus! {

/// Mathematical model of a transaction kind.
pub enum TransactionTypeView {
    Deposit,
    Withdrawal,
    Transfer { to_account_id: Seq<char> },
}

/// The kind of a transaction. `Transfer` carries the destination account
/// id; it arises only by reclassifying the withdrawal leg of a transfer.
#[derive(Debug, Clone, PartialEq)]
pub enum TransactionType {
    Deposit,
    Withdrawal,
    Transfer { to_account_id: String },
}

impl View for TransactionType {
    type V = TransactionTypeView;

    open spec fn view(&self) -> TransactionTypeView {
        match self {
            TransactionType::Deposit => TransactionTypeView::Deposit,
            TransactionType::Withdrawal => TransactionTypeView::Withdrawal,
            TransactionType::Transfer { to_account_id } => {
                TransactionTypeView::Transfer { to_account_id: to_account_id@ }
            },
        }
    }
}

/// Mathematical model of a transaction record.
pub struct TransactionView {
    pub id: Seq<char>,
    pub transaction_type: TransactionTypeView,
    pub amount: int,
    pub timestamp: int,
    pub balance_after: int,
}

/// A record of a single balance-affecting event. Amounts are in cents.
#[derive(Debug, Clone, PartialEq)]
pub struct Transaction {
    /// Unique identifier (hyphenated UUID).
    pub id: String,
    /// What kind of event this records.
    pub transaction_type: TransactionType,
    /// The amount moved, in cents; always positive.
    pub amount: i64,
    /// When the event occurred, in milliseconds since the Unix epoch.
    pub timestamp: i64,
    /// The account balance, in cents, right after the event.
    pub balance_after: i64,
}

impl View for Transaction {
    type V = TransactionView;

    open spec fn view(&self) -> TransactionView {
        TransactionView {
            id: self.id@,
            transaction_type: self.transaction_type@,
            amount: self.amount as int,
            timestamp: self.timestamp as int,
            balance_after: self.balance_after as int,
        }
    }
}

/// A record is well formed when its amount is positive and the balance it
/// reports is not negative.
pub open spec fn transaction_wf(t: TransactionView) -> bool {
    &&& 0 < t.amount <= i64::MAX
    &&& 0 <= t.balance_after <= i64::MAX
    &&& i64::MIN <= t.timestamp <= i64::MAX
}

impl Transaction {
    /// Creates a record with a fresh identifier and the current time; the
    /// caller fixes everything the model cares about.
    pub fn new(transaction_type: TransactionType, amount: i64, balance_after: i64) -> (r:
        Transaction)
        ensures
            r@.transaction_type == transaction_type@,
            r@.amount == amount as int,
            r@.balance_after == balance_after as int,
    {
        Transaction {
            id: fresh_uuid(),
            transaction_type,
            amount,
            timestamp: current_time_millis(),
            balance_after,
        }
    }
}

} // verus!
