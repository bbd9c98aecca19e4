//! Accounts: a balance plus the append-ordered transaction log behind it.

use vstd::prelude::*;
use crate::errors::{BankError, BankErrorView, BankResult};
use crate::transaction::{
    transaction_wf,
    Transaction,
    TransactionType,
    TransactionTypeView,
    TransactionView,
};
use crate::external::{current_time_millis, fresh_uuid};

verus! {

/// Mathematical model of an account.
pub struct AccountView {
    pub id: Seq<char>,
    pub balance: int,
    pub transactions: Seq<TransactionView>,
    pub created_at: int,
}

/// A bank account. The balance is in cents and never negative; the
/// transaction log is append-only.
#[derive(Debug, Clone, PartialEq)]
pub struct Account {
    /// Unique account identifier (hyphenated UUID).
    pub id: String,
    /// Current balance, in cents.
    pub balance: i64,
    /// Every balance-affecting event, oldest first.
    pub transactions: Vec<Transaction>,
    /// Creation time, in milliseconds since the Unix epoch.
    pub created_at: i64,
}

impl View for Account {
    type V = AccountView;

    open spec fn view(&self) -> AccountView {
        AccountView {
            id: self.id@,
            balance: self.balance as int,
            transactions: self.transactions@.map_values(|t: Transaction| t@),
            created_at: self.created_at as int,
        }
    }
}

impl AccountView {
    /// The account invariant: the balance is representable and not
    /// negative, every logged record is well formed, and the balance
    /// agrees with the last record.
    pub open spec fn wf(self) -> bool {
        &&& 0 <= self.balance <= i64::MAX
        &&& i64::MIN <= self.created_at <= i64::MAX
        &&& forall|i: int|
            0 <= i < self.transactions.len() ==> transaction_wf(#[trigger] self.transactions[i])
        &&& self.transactions.len() > 0 ==> self.balance == self.transactions.last().balance_after
    }
}

/// What a freshly created account looks like: the balance is the initial
/// deposit, recorded as one deposit transaction when it is positive and
/// as none when it is zero.
pub open spec fn account_new_post(a: AccountView, initial_deposit: int) -> bool {
    &&& a.wf()
    &&& a.balance == initial_deposit
    &&& if initial_deposit > 0 {
        &&& a.transactions.len() == 1
        &&& a.transactions[0].transaction_type is Deposit
        &&& a.transactions[0].amount == initial_deposit
        &&& a.transactions[0].balance_after == initial_deposit
    } else {
        a.transactions.len() == 0
    }
}

/// How a successful deposit changes an account: the balance grows by the
/// amount and exactly one deposit record is appended.
pub open spec fn account_deposit_post(pre: AccountView, post: AccountView, amount: int) -> bool {
    &&& post.id == pre.id
    &&& post.created_at == pre.created_at
    &&& post.balance == pre.balance + amount
    &&& post.transactions.len() == pre.transactions.len() + 1
    &&& post.transactions.drop_last() == pre.transactions
    &&& post.transactions.last().transaction_type is Deposit
    &&& post.transactions.last().amount == amount
    &&& post.transactions.last().balance_after == post.balance
}

/// How a successful withdrawal changes an account: the balance shrinks by
/// the amount and exactly one withdrawal record is appended.
pub open spec fn account_withdraw_post(pre: AccountView, post: AccountView, amount: int) -> bool {
    &&& post.id == pre.id
    &&& post.created_at == pre.created_at
    &&& post.balance == pre.balance - amount
    &&& post.transactions.len() == pre.transactions.len() + 1
    &&& post.transactions.drop_last() == pre.transactions
    &&& post.transactions.last().transaction_type is Withdrawal
    &&& post.transactions.last().amount == amount
    &&& post.transactions.last().balance_after == post.balance
}

/// Sum of the amounts of all deposit records.
pub open spec fn sum_deposits(s: Seq<TransactionView>) -> int
    decreases s.len(),
{
    if s.len() == 0 {
        0
    } else {
        sum_deposits(s.drop_last()) + if s.last().transaction_type is Deposit {
            s.last().amount
        } else {
            0
        }
    }
}

/// Sum of the amounts of all withdrawal-like records; a `Transfer` is a
/// reclassified withdrawal and counts here.
pub open spec fn sum_withdrawals(s: Seq<TransactionView>) -> int
    decreases s.len(),
{
    if s.len() == 0 {
        0
    } else {
        sum_withdrawals(s.drop_last()) + if s.last().transaction_type is Withdrawal
            || s.last().transaction_type is Transfer {
            s.last().amount
        } else {
            0
        }
    }
}

/// Law: withdrawing an amount and then depositing the same amount brings
/// an account's balance back to where it started.
pub proof fn lemma_withdraw_then_deposit_restores_balance(
    a0: AccountView,
    a1: AccountView,
    a2: AccountView,
    amount: int,
)
    requires
        account_withdraw_post(a0, a1, amount),
        account_deposit_post(a1, a2, amount),
    ensures
        a2.balance == a0.balance,
{
}

impl Account {
    /// Opens an account holding `initial_deposit` cents; rejects a
    /// negative initial deposit without creating anything.
    pub fn new(initial_deposit: i64) -> (r: BankResult<Account>)
        ensures
            r is Ok <==> initial_deposit >= 0,
            (match r {
                Ok(a) => account_new_post(a@, initial_deposit as int),
                Err(e) => e@ == BankErrorView::InvalidAmount(initial_deposit as int),
            }),
    {
        if initial_deposit < 0 {
            return Err(BankError::InvalidAmount(initial_deposit));
        }
        let mut account = Account {
            id: fresh_uuid(),
            balance: initial_deposit,
            transactions: Vec::new(),
            created_at: current_time_millis(),
        };
        if initial_deposit > 0 {
            let transaction = Transaction::new(
                TransactionType::Deposit,
                initial_deposit,
                initial_deposit,
            );
            account.transactions.push(transaction);
        }
        proof {
            assert(account@.transactions =~= account.transactions@.map_values(
                |t: Transaction| t@,
            ));
        }
        Ok(account)
    }

    /// Adds `amount` cents to the balance and logs a deposit record;
    /// rejects a non-positive amount, or one the balance cannot hold,
    /// without mutating anything.
    pub fn deposit(&mut self, amount: i64) -> (r: BankResult<()>)
        requires
            old(self)@.wf(),
        ensures
            final(self)@.wf(),
            r is Ok <==> 0 < amount && old(self)@.balance + amount <= i64::MAX,
            (match r {
                Ok(_) => account_deposit_post(old(self)@, final(self)@, amount as int),
                Err(e) => *final(self) == *old(self) && e@ == BankErrorView::InvalidAmount(
                    amount as int,
                ),
            }),
    {
        if amount <= 0 {
            return Err(BankError::InvalidAmount(amount));
        }
        if amount > i64::MAX - self.balance {
            return Err(BankError::InvalidAmount(amount));
        }
        self.balance = self.balance + amount;
        let transaction = Transaction::new(TransactionType::Deposit, amount, self.balance);
        self.transactions.push(transaction);
        proof {
            assert(final(self)@.transactions =~= old(self)@.transactions.push(transaction@));
            assert(final(self)@.transactions.drop_last() =~= old(self)@.transactions);
        }
        Ok(())
    }

    /// Removes `amount` cents from the balance and logs a withdrawal
    /// record; rejects a non-positive amount or one beyond the balance
    /// without mutating anything.
    pub fn withdraw(&mut self, amount: i64) -> (r: BankResult<()>)
        requires
            old(self)@.wf(),
        ensures
            final(self)@.wf(),
            r is Ok <==> 0 < amount <= old(self)@.balance,
            (match r {
                Ok(_) => account_withdraw_post(old(self)@, final(self)@, amount as int),
                Err(e) => *final(self) == *old(self) && e@ == (if amount <= 0 {
                    BankErrorView::InvalidAmount(amount as int)
                } else {
                    BankErrorView::InsufficientFunds {
                        available: old(self)@.balance,
                        requested: amount as int,
                    }
                }),
            }),
    {
        if amount <= 0 {
            return Err(BankError::InvalidAmount(amount));
        }
        if self.balance < amount {
            return Err(
                BankError::InsufficientFunds { available: self.balance, requested: amount },
            );
        }
        self.balance = self.balance - amount;
        let transaction = Transaction::new(TransactionType::Withdrawal, amount, self.balance);
        self.transactions.push(transaction);
        proof {
            assert(final(self)@.transactions =~= old(self)@.transactions.push(transaction@));
            assert(final(self)@.transactions.drop_last() =~= old(self)@.transactions);
        }
        Ok(())
    }

    /// The full transaction history, oldest first.
    pub fn get_transaction_history(&self) -> (r: &Vec<Transaction>)
        ensures
            r@ == self.transactions@,
    {
        &self.transactions
    }

    /// Sum of the amounts of all deposits, in cents. Returned as a wider
    /// integer because a long history can outgrow a single balance.
    pub fn total_deposits(&self) -> (r: i128)
        requires
            self@.wf(),
        ensures
            r == sum_deposits(self@.transactions),
    {
        let ghost txs = self@.transactions;
        let mut total: i128 = 0;
        let mut i: usize = 0;
        while i < self.transactions.len()
            invariant
                0 <= i <= self.transactions.len(),
                self@.wf(),
                txs == self@.transactions,
                txs.len() == self.transactions.len(),
                total == sum_deposits(txs.subrange(0, i as int)),
                0 <= total <= (i as int) * (i64::MAX as int),
            decreases self.transactions.len() - i,
        {
            let t = &self.transactions[i];
            proof {
                assert(t@ == txs[i as int]);
                assert(transaction_wf(txs[i as int]));
                assert(txs.subrange(0, i + 1).drop_last() =~= txs.subrange(0, i as int));
                assert((i as int) * (i64::MAX as int) + (i64::MAX as int) == ((i + 1) as int) * (
                i64::MAX as int)) by (nonlinear_arith);
                assert(((i + 1) as int) * (i64::MAX as int) < i128::MAX) by (nonlinear_arith)
                    requires
                        0 <= i < usize::MAX,
                ;
            }
            if matches!(t.transaction_type, TransactionType::Deposit) {
                total = total + t.amount as i128;
            }
            i = i + 1;
        }
        proof {
            assert(txs.subrange(0, txs.len() as int) =~= txs);
        }
        total
    }

    /// Sum of the amounts of all withdrawals, in cents; a record
    /// reclassified to `Transfer` is a withdrawal and counts here.
    pub fn total_withdrawals(&self) -> (r: i128)
        requires
            self@.wf(),
        ensures
            r == sum_withdrawals(self@.transactions),
    {
        let ghost txs = self@.transactions;
        let mut total: i128 = 0;
        let mut i: usize = 0;
        while i < self.transactions.len()
            invariant
                0 <= i <= self.transactions.len(),
                self@.wf(),
                txs == self@.transactions,
                txs.len() == self.transactions.len(),
                total == sum_withdrawals(txs.subrange(0, i as int)),
                0 <= total <= (i as int) * (i64::MAX as int),
            decreases self.transactions.len() - i,
        {
            let t = &self.transactions[i];
            proof {
                assert(t@ == txs[i as int]);
                assert(transaction_wf(txs[i as int]));
                assert(txs.subrange(0, i + 1).drop_last() =~= txs.subrange(0, i as int));
                assert((i as int) * (i64::MAX as int) + (i64::MAX as int) == ((i + 1) as int) * (
                i64::MAX as int)) by (nonlinear_arith);
                assert(((i + 1) as int) * (i64::MAX as int) < i128::MAX) by (nonlinear_arith)
                    requires
                        0 <= i < usize::MAX,
                ;
            }
            if matches!(
                t.transaction_type,
                TransactionType::Withdrawal | TransactionType::Transfer { .. }
            ) {
                total = total + t.amount as i128;
            }
            i = i + 1;
        }
        proof {
            assert(txs.subrange(0, txs.len() as int) =~= txs);
        }
        total
    }

    /// Reclassifies the most recent record as the source leg of a
    /// transfer to `to_account_id`; does nothing on an empty log. Only the
    /// transfer protocol calls this, and only on the record it just
    /// created.
    pub fn mark_last_as_transfer(&mut self, to_account_id: String)
        requires
            old(self)@.wf(),
        ensures
            final(self)@.wf(),
            old(self)@.transactions.len() == 0 ==> *final(self) == *old(self),
            old(self)@.transactions.len() > 0 ==> {
                &&& final(self)@.id == old(self)@.id
                &&& final(self)@.balance == old(self)@.balance
                &&& final(self)@.created_at == old(self)@.created_at
                &&& final(self)@.transactions.len() == old(self)@.transactions.len()
                &&& final(self)@.transactions.drop_last() == old(self)@.transactions.drop_last()
                &&& final(self)@.transactions.last().id == old(self)@.transactions.last().id
                &&& final(self)@.transactions.last().amount == old(
                    self,
                )@.transactions.last().amount
                &&& final(self)@.transactions.last().timestamp == old(
                    self,
                )@.transactions.last().timestamp
                &&& final(self)@.transactions.last().balance_after == old(
                    self,
                )@.transactions.last().balance_after
                &&& final(self)@.transactions.last().transaction_type
                    == (TransactionTypeView::Transfer { to_account_id: to_account_id@ })
            },
    {
        let n = self.transactions.len();
        if n > 0 {
            let mut t = self.transactions.pop().unwrap();
            t.transaction_type = TransactionType::Transfer { to_account_id };
            let ghost tv = t@;
            self.transactions.push(t);
            proof {
                assert(self@.transactions =~= old(self)@.transactions.drop_last().push(tv));
                assert(self@.transactions.drop_last() =~= old(self)@.transactions.drop_last());
                assert forall|i: int|
                    0 <= i < self@.transactions.len() implies transaction_wf(
                    #[trigger] self@.transactions[i],
                ) by {
                    if i < self@.transactions.len() - 1 {
                        assert(self@.transactions[i] == old(self)@.transactions[i]);
                        assert(transaction_wf(old(self)@.transactions[i]));
                    } else {
                        assert(transaction_wf(old(self)@.transactions.last()));
                    }
                }
            }
        }
    }
}

} // verus!
