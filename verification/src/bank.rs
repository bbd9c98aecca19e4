//! The ledger aggregate: the customer registry, every mutation that can
//! touch a balance, and the global transaction counter.

use vstd::prelude::*;
use crate::account::{
    account_deposit_post,
    account_new_post,
    account_withdraw_post,
    AccountView,
};
use crate::customer::{Customer, CustomerView};
use crate::errors::{BankError, BankErrorView, BankResult};
use crate::external::{
    current_time_millis,
    fresh_uuid,
    is_substring_of,
    lower_of,
    lowercase,
    str_equal,
};
use crate::transaction::TransactionTypeView;

verus! {

/// Mathematical model of the whole ledger.
pub struct BankView {
    pub name: Seq<char>,
    pub customers: Seq<CustomerView>,
    pub total_transactions: int,
}

/// The ledger: every registered customer, keyed by id, plus a coarse
/// activity counter.
#[derive(Debug, Clone, PartialEq)]
pub struct Bank {
    /// The bank's display name.
    pub name: String,
    /// All registered customers, in registration order, with pairwise
    /// distinct ids.
    pub customers: Vec<Customer>,
    /// How many balance-affecting operations have been accepted; a
    /// transfer counts as two.
    pub total_transactions: u64,
}

impl View for Bank {
    type V = BankView;

    open spec fn view(&self) -> BankView {
        BankView {
            name: self.name@,
            customers: self.customers@.map_values(|c: Customer| c@),
            total_transactions: self.total_transactions as int,
        }
    }
}

/// Some customer in `s` has id `cid`.
pub open spec fn has_cust(s: Seq<CustomerView>, cid: Seq<char>) -> bool {
    exists|i: int| 0 <= i < s.len() && (#[trigger] s[i]).id == cid
}

/// The index of the customer with id `cid`; meaningful only when
/// `has_cust` holds and ids are distinct.
pub open spec fn customer_index(s: Seq<CustomerView>, cid: Seq<char>) -> int {
    choose|i: int| 0 <= i < s.len() && (#[trigger] s[i]).id == cid
}

/// No two customers share an id.
pub open spec fn ids_distinct(s: Seq<CustomerView>) -> bool {
    forall|i: int, j: int|
        0 <= i < j < s.len() ==> (#[trigger] s[i]).id != (#[trigger] s[j]).id
}

/// Some customer in `s` already uses `email`, compared case-insensitively.
pub open spec fn email_taken(s: Seq<CustomerView>, email: Seq<char>) -> bool {
    exists|i: int| 0 <= i < s.len() && lower_of((#[trigger] s[i]).email) == lower_of(email)
}

/// Sum of the balances of all accounts, in cents.
pub open spec fn total_balance(s: Seq<CustomerView>) -> int
    decreases s.len(),
{
    if s.len() == 0 {
        0
    } else {
        total_balance(s.drop_last()) + s.last().balance_or_zero()
    }
}

/// The customer of `pre` that an operation on id `cid` acts on.
pub open spec fn customer_at(pre: BankView, cid: Seq<char>) -> CustomerView {
    pre.customers[customer_index(pre.customers, cid)]
}

/// The counter after `k` more accepted operations; it sticks at the
/// largest representable value instead of wrapping.
pub open spec fn bump(n: int, k: int) -> int {
    if n + k <= u64::MAX {
        n + k
    } else {
        u64::MAX as int
    }
}

/// A customer's identity fields, untouched by account operations.
pub open spec fn customer_fields_kept(c0: CustomerView, c1: CustomerView) -> bool {
    &&& c1.id == c0.id
    &&& c1.name == c0.name
    &&& c1.email == c0.email
    &&& c1.registered_at == c0.registered_at
}

impl BankView {
    /// The ledger invariant: the counter is representable, every customer
    /// is well formed, and customer ids are pairwise distinct.
    pub open spec fn wf(self) -> bool {
        &&& 0 <= self.total_transactions <= u64::MAX
        &&& forall|i: int| 0 <= i < self.customers.len() ==> (#[trigger] self.customers[i]).wf()
        &&& ids_distinct(self.customers)
    }
}

/// How a successful registration changes the ledger: one new customer at
/// the end, nothing else.
pub open spec fn register_post(
    pre: BankView,
    post: BankView,
    name: Seq<char>,
    email: Seq<char>,
    id: Seq<char>,
) -> bool {
    &&& post.name == pre.name
    &&& post.total_transactions == pre.total_transactions
    &&& post.customers.len() == pre.customers.len() + 1
    &&& post.customers.drop_last() == pre.customers
    &&& post.customers.last().id == id
    &&& post.customers.last().name == name
    &&& post.customers.last().email == email
    &&& post.customers.last().account is None
}

/// When a deposit must succeed.
pub open spec fn can_deposit(pre: BankView, cid: Seq<char>, amount: int) -> bool {
    &&& has_cust(pre.customers, cid)
    &&& customer_at(pre, cid).account is Some
    &&& 0 < amount
    &&& customer_at(pre, cid).balance_or_zero() + amount <= i64::MAX
}

/// The error a failing deposit reports.
pub open spec fn deposit_err(pre: BankView, cid: Seq<char>, amount: int) -> BankErrorView {
    if !has_cust(pre.customers, cid) {
        BankErrorView::CustomerNotFound(cid)
    } else if customer_at(pre, cid).account is None {
        BankErrorView::AccountNotFound(cid)
    } else {
        BankErrorView::InvalidAmount(amount)
    }
}

/// How a successful deposit changes the ledger: the named customer's
/// account gains the amount and one record; everyone else is untouched;
/// the counter advances once.
pub open spec fn bank_deposit_post(
    pre: BankView,
    post: BankView,
    cid: Seq<char>,
    amount: int,
) -> bool {
    let i = customer_index(pre.customers, cid);
    &&& post.name == pre.name
    &&& post.total_transactions == bump(pre.total_transactions, 1)
    &&& post.customers.len() == pre.customers.len()
    &&& forall|j: int|
        0 <= j < pre.customers.len() && j != i ==> #[trigger] post.customers[j]
            == pre.customers[j]
    &&& customer_fields_kept(pre.customers[i], post.customers[i])
    &&& pre.customers[i].account matches Some(a0) && post.customers[i].account matches Some(a1)
        && account_deposit_post(a0, a1, amount)
}

/// When a withdrawal must succeed.
pub open spec fn can_withdraw(pre: BankView, cid: Seq<char>, amount: int) -> bool {
    &&& has_cust(pre.customers, cid)
    &&& customer_at(pre, cid).account is Some
    &&& 0 < amount <= customer_at(pre, cid).balance_or_zero()
}

/// The error a failing withdrawal reports.
pub open spec fn withdraw_err(pre: BankView, cid: Seq<char>, amount: int) -> BankErrorView {
    if !has_cust(pre.customers, cid) {
        BankErrorView::CustomerNotFound(cid)
    } else if customer_at(pre, cid).account is None {
        BankErrorView::AccountNotFound(cid)
    } else if amount <= 0 {
        BankErrorView::InvalidAmount(amount)
    } else {
        BankErrorView::InsufficientFunds {
            available: customer_at(pre, cid).balance_or_zero(),
            requested: amount,
        }
    }
}

/// How a successful withdrawal changes the ledger.
pub open spec fn bank_withdraw_post(
    pre: BankView,
    post: BankView,
    cid: Seq<char>,
    amount: int,
) -> bool {
    let i = customer_index(pre.customers, cid);
    &&& post.name == pre.name
    &&& post.total_transactions == bump(pre.total_transactions, 1)
    &&& post.customers.len() == pre.customers.len()
    &&& forall|j: int|
        0 <= j < pre.customers.len() && j != i ==> #[trigger] post.customers[j]
            == pre.customers[j]
    &&& customer_fields_kept(pre.customers[i], post.customers[i])
    &&& pre.customers[i].account matches Some(a0) && post.customers[i].account matches Some(a1)
        && account_withdraw_post(a0, a1, amount)
}

/// When opening an account must succeed: the customer exists, has no
/// account yet, and the initial deposit is not negative.
pub open spec fn can_create_account(pre: BankView, cid: Seq<char>, initial_deposit: int) -> bool {
    &&& has_cust(pre.customers, cid)
    &&& customer_at(pre, cid).account is None
    &&& initial_deposit >= 0
}

/// The error a failing account opening reports.
pub open spec fn create_account_err(
    pre: BankView,
    cid: Seq<char>,
    initial_deposit: int,
) -> BankErrorView {
    if !has_cust(pre.customers, cid) {
        BankErrorView::CustomerNotFound(cid)
    } else if customer_at(pre, cid).account is Some {
        BankErrorView::CustomerAlreadyExists("Customer already has an account"@)
    } else {
        BankErrorView::InvalidAmount(initial_deposit)
    }
}

/// How a successful account opening changes the ledger: the named
/// customer gains a fresh account holding the initial deposit; everyone
/// else is untouched; the counter advances once.
pub open spec fn create_account_post(
    pre: BankView,
    post: BankView,
    cid: Seq<char>,
    initial_deposit: int,
) -> bool {
    let i = customer_index(pre.customers, cid);
    &&& post.name == pre.name
    &&& post.total_transactions == bump(pre.total_transactions, 1)
    &&& post.customers.len() == pre.customers.len()
    &&& forall|j: int|
        0 <= j < pre.customers.len() && j != i ==> #[trigger] post.customers[j]
            == pre.customers[j]
    &&& customer_fields_kept(pre.customers[i], post.customers[i])
    &&& pre.customers[i].account is None
    &&& post.customers[i].account matches Some(a) && account_new_post(a, initial_deposit)
}

/// When a transfer must succeed: both customers exist and have accounts,
/// the amount is positive and covered by the source balance, and the
/// destination balance can hold it (a transfer to the same account puts
/// the money straight back and cannot overflow).
pub open spec fn can_transfer(pre: BankView, from: Seq<char>, to: Seq<char>, amount: int) -> bool {
    &&& has_cust(pre.customers, from)
    &&& has_cust(pre.customers, to)
    &&& customer_at(pre, from).account is Some
    &&& customer_at(pre, to).account is Some
    &&& 0 < amount <= customer_at(pre, from).balance_or_zero()
    &&& customer_index(pre.customers, from) == customer_index(pre.customers, to)
        || customer_at(pre, to).balance_or_zero() + amount <= i64::MAX
}

/// The error a failing transfer reports. Every check precedes every
/// mutation, so a failing transfer changes nothing.
pub open spec fn transfer_err(
    pre: BankView,
    from: Seq<char>,
    to: Seq<char>,
    amount: int,
) -> BankErrorView {
    if !has_cust(pre.customers, from) {
        BankErrorView::CustomerNotFound(from)
    } else if !has_cust(pre.customers, to) {
        BankErrorView::CustomerNotFound(to)
    } else if customer_at(pre, from).account is None {
        BankErrorView::AccountNotFound(from)
    } else if customer_at(pre, to).account is None {
        BankErrorView::AccountNotFound(to)
    } else if amount <= 0 {
        BankErrorView::InvalidAmount(amount)
    } else if amount > customer_at(pre, from).balance_or_zero() {
        BankErrorView::InsufficientFunds {
            available: customer_at(pre, from).balance_or_zero(),
            requested: amount,
        }
    } else {
        BankErrorView::InvalidAmount(amount)
    }
}

/// How the source account changes in a transfer between distinct
/// accounts: a withdrawal whose record is reclassified as the transfer's
/// source leg, naming the destination account.
pub open spec fn transfer_source_post(
    a0: AccountView,
    a1: AccountView,
    amount: int,
    to_account_id: Seq<char>,
) -> bool {
    &&& a1.id == a0.id
    &&& a1.created_at == a0.created_at
    &&& a1.balance == a0.balance - amount
    &&& a1.transactions.len() == a0.transactions.len() + 1
    &&& a1.transactions.drop_last() == a0.transactions
    &&& a1.transactions.last().transaction_type == (TransactionTypeView::Transfer {
        to_account_id,
    })
    &&& a1.transactions.last().amount == amount
    &&& a1.transactions.last().balance_after == a1.balance
}

/// How an account changes when a customer transfers to itself: the
/// balance is unchanged and the log gains the withdrawal record and, on
/// top of it, the deposit record reclassified as the transfer leg.
pub open spec fn self_transfer_post(a0: AccountView, a2: AccountView, amount: int) -> bool {
    &&& a2.id == a0.id
    &&& a2.created_at == a0.created_at
    &&& a2.balance == a0.balance
    &&& a2.transactions.len() == a0.transactions.len() + 2
    &&& a2.transactions.subrange(0, a0.transactions.len() as int) == a0.transactions
    &&& a2.transactions[a0.transactions.len() as int].transaction_type is Withdrawal
    &&& a2.transactions[a0.transactions.len() as int].amount == amount
    &&& a2.transactions[a0.transactions.len() as int].balance_after == a0.balance - amount
    &&& a2.transactions.last().transaction_type == (TransactionTypeView::Transfer {
        to_account_id: a0.id,
    })
    &&& a2.transactions.last().amount == amount
    &&& a2.transactions.last().balance_after == a0.balance
}

/// How a successful transfer changes the ledger: the amount moves from
/// the source account to the destination account, both logs record it,
/// everyone else is untouched, and the counter advances twice.
pub open spec fn transfer_post(
    pre: BankView,
    post: BankView,
    from: Seq<char>,
    to: Seq<char>,
    amount: int,
) -> bool {
    let i = customer_index(pre.customers, from);
    let j = customer_index(pre.customers, to);
    &&& post.name == pre.name
    &&& post.total_transactions == bump(pre.total_transactions, 2)
    &&& post.customers.len() == pre.customers.len()
    &&& forall|k: int|
        0 <= k < pre.customers.len() && k != i && k != j ==> #[trigger] post.customers[k]
            == pre.customers[k]
    &&& customer_fields_kept(pre.customers[i], post.customers[i])
    &&& customer_fields_kept(pre.customers[j], post.customers[j])
    &&& if i != j {
        &&& pre.customers[i].account matches Some(a0) && post.customers[i].account matches Some(
            a1,
        ) && transfer_source_post(a0, a1, amount, (pre.customers[j].account->0).id)
        &&& pre.customers[j].account matches Some(b0) && post.customers[j].account matches Some(
            b1,
        ) && account_deposit_post(b0, b1, amount)
    } else {
        pre.customers[i].account matches Some(a0) && post.customers[i].account matches Some(a2)
            && self_transfer_post(a0, a2, amount)
    }
}

/// A customer's name matches a query when the lowercased query occurs
/// inside the lowercased name.
pub open spec fn name_matches(c: CustomerView, query: Seq<char>) -> bool {
    is_substring_of(lower_of(query), lower_of(c.name))
}

/// The customers whose names match a query, in registration order.
pub open spec fn matching_customers(s: Seq<CustomerView>, query: Seq<char>) -> Seq<CustomerView>
    decreases s.len(),
{
    if s.len() == 0 {
        Seq::empty()
    } else if name_matches(s.last(), query) {
        matching_customers(s.drop_last(), query).push(s.last())
    } else {
        matching_customers(s.drop_last(), query)
    }
}

/// Replacing one customer changes the total balance by exactly the
/// difference that customer contributes.
pub proof fn lemma_total_balance_update(s: Seq<CustomerView>, i: int, c: CustomerView)
    requires
        0 <= i < s.len(),
    ensures
        total_balance(s.update(i, c)) == total_balance(s) - s[i].balance_or_zero()
            + c.balance_or_zero(),
    decreases s.len(),
{
    let su = s.update(i, c);
    if i == s.len() - 1 {
        assert(su.drop_last() =~= s.drop_last());
    } else {
        assert(su.drop_last() =~= s.drop_last().update(i, c));
        assert(su.last() == s.last());
        lemma_total_balance_update(s.drop_last(), i, c);
    }
}

/// When ids are distinct, the index of a customer holding a given id is
/// the one `customer_index` names.
pub proof fn lemma_customer_index_unique(s: Seq<CustomerView>, i: int, cid: Seq<char>)
    requires
        ids_distinct(s),
        0 <= i < s.len(),
        s[i].id == cid,
    ensures
        has_cust(s, cid),
        customer_index(s, cid) == i,
{
    assert(has_cust(s, cid));
    let k = customer_index(s, cid);
    if k != i {
        if k < i {
            assert(s[k].id != s[i].id);
        } else {
            assert(s[i].id != s[k].id);
        }
    }
}

/// Law: a transfer conserves money. Whenever a ledger state `post` is
/// the outcome of a successful transfer on `pre`, the sum of all account
/// balances in `post` equals the sum in `pre`.
pub proof fn lemma_transfer_conserves_total(
    pre: BankView,
    post: BankView,
    from: Seq<char>,
    to: Seq<char>,
    amount: int,
)
    requires
        pre.wf(),
        has_cust(pre.customers, from),
        has_cust(pre.customers, to),
        transfer_post(pre, post, from, to, amount),
    ensures
        total_balance(post.customers) == total_balance(pre.customers),
{
    let i = customer_index(pre.customers, from);
    let j = customer_index(pre.customers, to);
    assert(0 <= i < pre.customers.len() && pre.customers[i].id == from);
    assert(0 <= j < pre.customers.len() && pre.customers[j].id == to);
    if i != j {
        let mid = pre.customers.update(i, post.customers[i]);
        assert(post.customers =~= mid.update(j, post.customers[j]));
        lemma_total_balance_update(pre.customers, i, post.customers[i]);
        assert(mid[j] == pre.customers[j]);
        lemma_total_balance_update(mid, j, post.customers[j]);
        assert(post.customers[i].balance_or_zero() == pre.customers[i].balance_or_zero()
            - amount);
        assert(post.customers[j].balance_or_zero() == pre.customers[j].balance_or_zero()
            + amount);
    } else {
        assert(post.customers =~= pre.customers.update(i, post.customers[i]));
        lemma_total_balance_update(pre.customers, i, post.customers[i]);
        assert(post.customers[i].balance_or_zero() == pre.customers[i].balance_or_zero());
    }
}

/// Law: at the ledger level, withdrawing an amount from a customer and
/// then depositing the same amount back leaves that customer's balance
/// where it started.
pub proof fn lemma_withdraw_then_deposit_restores_balance(
    b0: BankView,
    b1: BankView,
    b2: BankView,
    cid: Seq<char>,
    amount: int,
)
    requires
        b0.wf(),
        has_cust(b0.customers, cid),
        bank_withdraw_post(b0, b1, cid, amount),
        bank_deposit_post(b1, b2, cid, amount),
    ensures
        customer_at(b2, cid).balance_or_zero() == customer_at(b0, cid).balance_or_zero(),
{
    let i = customer_index(b0.customers, cid);
    assert(0 <= i < b0.customers.len() && b0.customers[i].id == cid);
    assert forall|p: int, q: int|
        0 <= p < q < b1.customers.len() implies (#[trigger] b1.customers[p]).id != (
    #[trigger] b1.customers[q]).id by {
        assert(b1.customers[p].id == b0.customers[p].id);
        assert(b1.customers[q].id == b0.customers[q].id);
    }
    lemma_customer_index_unique(b1.customers, i, cid);
}

impl Bank {
    /// A fresh, empty ledger with the given display name.
    pub fn new(name: String) -> (r: Bank)
        ensures
            r@.wf(),
            r@.name == name@,
            r@.customers.len() == 0,
            r@.total_transactions == 0,
    {
        Bank { name, customers: Vec::new(), total_transactions: 0 }
    }

    /// The position of the customer with the given id, if any.
    fn find_index(&self, customer_id: &str) -> (r: Option<usize>)
        ensures
            (match r {
                Some(i) => i < self@.customers.len() && self@.customers[i as int].id
                    == customer_id@,
                None => !has_cust(self@.customers, customer_id@),
            }),
    {
        let mut k: usize = 0;
        while k < self.customers.len()
            invariant
                0 <= k <= self@.customers.len(),
                self@.customers.len() == self.customers.len(),
                forall|j: int| 0 <= j < k ==> (#[trigger] self@.customers[j]).id != customer_id@,
            decreases self.customers.len() - k,
        {
            if str_equal(self.customers[k].id.as_str(), customer_id) {
                return Some(k);
            }
            k = k + 1;
        }
        None
    }

    /// Registers a customer under a caller-chosen id and registration
    /// time: succeeds exactly when no existing customer uses the email
    /// (case-insensitively) and none holds the id, and then appends the
    /// new customer; otherwise changes nothing.
    pub fn register_customer_with_id(
        &mut self,
        name: String,
        email: String,
        id: String,
        registered_at: i64,
    ) -> (r: BankResult<String>)
        requires
            old(self)@.wf(),
        ensures
            final(self)@.wf(),
            r is Ok <==> !email_taken(old(self)@.customers, email@) && !has_cust(
                old(self)@.customers,
                id@,
            ),
            (match r {
                Ok(rid) => {
                    &&& rid@ == id@
                    &&& register_post(old(self)@, final(self)@, name@, email@, id@)
                    &&& final(self)@.customers.last().registered_at == registered_at as int
                },
                Err(e) => *final(self) == *old(self) && e@ == (if email_taken(
                    old(self)@.customers,
                    email@,
                ) {
                    BankErrorView::CustomerAlreadyExists(email@)
                } else {
                    BankErrorView::CustomerAlreadyExists(id@)
                }),
            }),
    {
        let email_lower = lowercase(email.as_str());
        let mut k: usize = 0;
        while k < self.customers.len()
            invariant
                *self == *old(self),
                old(self)@.wf(),
                0 <= k <= self@.customers.len(),
                self@.customers.len() == self.customers.len(),
                email_lower@ == lower_of(email@),
                forall|j: int|
                    0 <= j < k ==> lower_of((#[trigger] self@.customers[j]).email) != lower_of(
                        email@,
                    ),
            decreases self.customers.len() - k,
        {
            let other_lower = lowercase(self.customers[k].email.as_str());
            if other_lower.eq(&email_lower) {
                proof {
                    assert(lower_of(self@.customers[k as int].email) == lower_of(email@));
                    assert(email_taken(old(self)@.customers, email@));
                }
                return Err(BankError::CustomerAlreadyExists(email));
            }
            k = k + 1;
        }
        match self.find_index(id.as_str()) {
            Some(_) => {
                return Err(BankError::CustomerAlreadyExists(id));
            },
            None => {},
        }
        let customer = Customer {
            id,
            name,
            email,
            account: None,
            registered_at,
        };
        let ghost cv = customer@;
        self.customers.push(customer);
        proof {
            assert(self@.customers =~= old(self)@.customers.push(cv));
            assert(self@.customers.drop_last() =~= old(self)@.customers);
        }
        Ok(self.customers[self.customers.len() - 1].id.clone())
    }

    /// Registers a customer under a fresh random id: appends the new
    /// customer and returns its id, unless the email is already in use
    /// (case-insensitively), or the generated id collides with an
    /// existing one, in which case nothing changes.
    pub fn register_customer(&mut self, name: String, email: String) -> (r: BankResult<String>)
        requires
            old(self)@.wf(),
        ensures
            final(self)@.wf(),
            email_taken(old(self)@.customers, email@) ==> r is Err,
            (match r {
                Ok(rid) => {
                    &&& !email_taken(old(self)@.customers, email@)
                    &&& register_post(old(self)@, final(self)@, name@, email@, rid@)
                },
                Err(e) => {
                    &&& *final(self) == *old(self)
                    &&& e is CustomerAlreadyExists
                    &&& email_taken(old(self)@.customers, email@) ==> e@
                        == BankErrorView::CustomerAlreadyExists(email@)
                },
            }),
    {
        let id = fresh_uuid();
        let now = current_time_millis();
        self.register_customer_with_id(name, email, id, now)
    }

    /// Opens an account for an existing customer with the given initial
    /// deposit and returns the new account's id; on any failure the
    /// ledger is left untouched and the error names exactly what was
    /// wrong.
    pub fn create_account_for_customer(&mut self, customer_id: &str, initial_deposit: i64) -> (r:
        BankResult<String>)
        requires
            old(self)@.wf(),
        ensures
            final(self)@.wf(),
            r is Ok <==> can_create_account(old(self)@, customer_id@, initial_deposit as int),
            (match r {
                Ok(aid) => create_account_post(
                    old(self)@,
                    final(self)@,
                    customer_id@,
                    initial_deposit as int,
                ) && aid@ == (customer_at(final(self)@, customer_id@).account->0).id,
                Err(e) => final(self)@ == old(self)@ && e@ == create_account_err(
                    old(self)@,
                    customer_id@,
                    initial_deposit as int,
                ),
            }),
    {
        let i = match self.find_index(customer_id) {
            Some(i) => i,
            None => {
                return Err(BankError::CustomerNotFound(customer_id.to_owned()));
            },
        };
        proof {
            lemma_customer_index_unique(self@.customers, i as int, customer_id@);
        }
        let ghost pre = self@;
        let c = &mut self.customers[i];
        let account_id = match c.create_account(initial_deposit) {
            Ok(_) => {
                match &c.account {
                    Some(a) => a.id.clone(),
                    None => {
                        proof {
                            assert(false);
                        }
                        String::new()
                    },
                }
            },
            Err(e) => {
                proof {
                    assert(self@.customers =~= pre.customers.update(
                        i as int,
                        self.customers@[i as int]@,
                    ));
                    assert(self@.customers =~= pre.customers);
                }
                return Err(e);
            },
        };
        proof {
            assert(self@.customers =~= pre.customers.update(
                i as int,
                self.customers@[i as int]@,
            ));
            lemma_customer_index_unique(self@.customers, i as int, customer_id@);
        }
        if self.total_transactions < u64::MAX {
            self.total_transactions = self.total_transactions + 1;
        }
        Ok(account_id)
    }

    /// The customer with the given id, or `CustomerNotFound`.
    pub fn get_customer(&self, customer_id: &str) -> (r: BankResult<&Customer>)
        requires
            self@.wf(),
        ensures
            r is Ok <==> has_cust(self@.customers, customer_id@),
            (match r {
                Ok(c) => c@ == customer_at(self@, customer_id@),
                Err(e) => e@ == BankErrorView::CustomerNotFound(customer_id@),
            }),
    {
        match self.find_index(customer_id) {
            Some(i) => {
                proof {
                    lemma_customer_index_unique(
                        self@.customers,
                        i as int,
                        customer_id@,
                    );
                }
                Ok(&self.customers[i])
            },
            None => Err(BankError::CustomerNotFound(customer_id.to_owned())),
        }
    }

    /// All customers, in registration order.
    pub fn list_customers(&self) -> (r: Vec<&Customer>)
        ensures
            r@.len() == self@.customers.len(),
            forall|k: int| 0 <= k < r@.len() ==> (#[trigger] r@[k])@ == self@.customers[k],
    {
        let mut out: Vec<&Customer> = Vec::new();
        let mut k: usize = 0;
        while k < self.customers.len()
            invariant
                0 <= k <= self@.customers.len(),
                self@.customers.len() == self.customers.len(),
                out@.len() == k,
                forall|j: int| 0 <= j < k ==> (#[trigger] out@[j])@ == self@.customers[j],
            decreases self.customers.len() - k,
        {
            out.push(&self.customers[k]);
            k = k + 1;
        }
        out
    }

    /// The customers whose names contain the query, compared
    /// case-insensitively, in registration order.
    pub fn find_customers_by_name(&self, name_query: &str) -> (r: Vec<&Customer>)
        ensures
            r@.map_values(|c: &Customer| c@) == matching_customers(self@.customers, name_query@),
    {
        let query_lower = lowercase(name_query);
        let mut out: Vec<&Customer> = Vec::new();
        let mut k: usize = 0;
        proof {
            assert(out@.map_values(|c: &Customer| c@) =~= matching_customers(
                self@.customers.subrange(0, 0),
                name_query@,
            ));
        }
        while k < self.customers.len()
            invariant
                0 <= k <= self@.customers.len(),
                self@.customers.len() == self.customers.len(),
                query_lower@ == lower_of(name_query@),
                out@.map_values(|c: &Customer| c@) == matching_customers(
                    self@.customers.subrange(0, k as int),
                    name_query@,
                ),
            decreases self.customers.len() - k,
        {
            let c = &self.customers[k];
            let name_lower = lowercase(c.name.as_str());
            let ghost pre_out = out@;
            if crate::external::contains_str(name_lower.as_str(), query_lower.as_str()) {
                out.push(c);
            }
            proof {
                let sub1 = self@.customers.subrange(0, k + 1);
                assert(sub1.drop_last() =~= self@.customers.subrange(0, k as int));
                assert(sub1.last() == self@.customers[k as int]);
                if name_matches(self@.customers[k as int], name_query@) {
                    assert(out@.map_values(|cc: &Customer| cc@) =~= pre_out.map_values(
                        |cc: &Customer| cc@,
                    ).push(self@.customers[k as int]));
                } else {
                    assert(out@.map_values(|cc: &Customer| cc@) =~= pre_out.map_values(
                        |cc: &Customer| cc@,
                    ));
                }
            }
            k = k + 1;
        }
        proof {
            assert(self@.customers.subrange(0, self@.customers.len() as int) =~= self@.customers);
        }
        out
    }

    /// Adds `amount` cents to the named customer's account and returns
    /// the new balance; on any failure the ledger is left untouched and
    /// the error names exactly what was wrong.
    pub fn deposit(&mut self, customer_id: &str, amount: i64) -> (r: BankResult<i64>)
        requires
            old(self)@.wf(),
        ensures
            final(self)@.wf(),
            r is Ok <==> can_deposit(old(self)@, customer_id@, amount as int),
            (match r {
                Ok(bal) => bank_deposit_post(old(self)@, final(self)@, customer_id@, amount as int)
                    && bal as int == customer_at(old(self)@, customer_id@).balance_or_zero()
                    + amount,
                Err(e) => final(self)@ == old(self)@ && e@ == deposit_err(
                    old(self)@,
                    customer_id@,
                    amount as int,
                ),
            }),
    {
        let i = match self.find_index(customer_id) {
            Some(i) => i,
            None => {
                return Err(BankError::CustomerNotFound(customer_id.to_owned()));
            },
        };
        proof {
            lemma_customer_index_unique(self@.customers, i as int, customer_id@);
        }
        let ghost pre = self@;
        let c = &mut self.customers[i];
        let result = match &mut c.account {
            Some(a) => {
                match a.deposit(amount) {
                    Ok(_) => Ok(a.balance),
                    Err(e) => Err(e),
                }
            },
            None => Err(BankError::AccountNotFound(customer_id.to_owned())),
        };
        proof {
            assert(self@.customers =~= pre.customers.update(
                i as int,
                self.customers@[i as int]@,
            ));
        }
        match result {
            Ok(bal) => {
                if self.total_transactions < u64::MAX {
                    self.total_transactions = self.total_transactions + 1;
                }
                Ok(bal)
            },
            Err(e) => {
                proof {
                    assert(self@.customers =~= pre.customers);
                }
                Err(e)
            },
        }
    }

    /// Removes `amount` cents from the named customer's account and
    /// returns the new balance; on any failure the ledger is left
    /// untouched and the error names exactly what was wrong.
    pub fn withdraw(&mut self, customer_id: &str, amount: i64) -> (r: BankResult<i64>)
        requires
            old(self)@.wf(),
        ensures
            final(self)@.wf(),
            r is Ok <==> can_withdraw(old(self)@, customer_id@, amount as int),
            (match r {
                Ok(bal) => bank_withdraw_post(
                    old(self)@,
                    final(self)@,
                    customer_id@,
                    amount as int,
                ) && bal as int == customer_at(old(self)@, customer_id@).balance_or_zero()
                    - amount,
                Err(e) => final(self)@ == old(self)@ && e@ == withdraw_err(
                    old(self)@,
                    customer_id@,
                    amount as int,
                ),
            }),
    {
        let i = match self.find_index(customer_id) {
            Some(i) => i,
            None => {
                return Err(BankError::CustomerNotFound(customer_id.to_owned()));
            },
        };
        proof {
            lemma_customer_index_unique(self@.customers, i as int, customer_id@);
        }
        let ghost pre = self@;
        let c = &mut self.customers[i];
        let result = match &mut c.account {
            Some(a) => {
                match a.withdraw(amount) {
                    Ok(_) => Ok(a.balance),
                    Err(e) => Err(e),
                }
            },
            None => Err(BankError::AccountNotFound(customer_id.to_owned())),
        };
        proof {
            assert(self@.customers =~= pre.customers.update(
                i as int,
                self.customers@[i as int]@,
            ));
        }
        match result {
            Ok(bal) => {
                if self.total_transactions < u64::MAX {
                    self.total_transactions = self.total_transactions + 1;
                }
                Ok(bal)
            },
            Err(e) => {
                proof {
                    assert(self@.customers =~= pre.customers);
                }
                Err(e)
            },
        }
    }

    /// Moves `amount` cents from one customer's account to another's.
    /// Every check precedes every mutation, so on any failure the ledger
    /// is untouched; on success money is conserved: the total balance
    /// after the transfer equals the total before it.
    pub fn transfer(&mut self, from_customer_id: &str, to_customer_id: &str, amount: i64) -> (r:
        BankResult<()>)
        requires
            old(self)@.wf(),
        ensures
            final(self)@.wf(),
            r is Ok <==> can_transfer(old(self)@, from_customer_id@, to_customer_id@, amount as int),
            (match r {
                Ok(_) => transfer_post(
                    old(self)@,
                    final(self)@,
                    from_customer_id@,
                    to_customer_id@,
                    amount as int,
                ) && total_balance(final(self)@.customers) == total_balance(
                    old(self)@.customers,
                ),
                Err(e) => final(self)@ == old(self)@ && e@ == transfer_err(
                    old(self)@,
                    from_customer_id@,
                    to_customer_id@,
                    amount as int,
                ),
            }),
    {
        let i = match self.find_index(from_customer_id) {
            Some(i) => i,
            None => {
                return Err(BankError::CustomerNotFound(from_customer_id.to_owned()));
            },
        };
        let j = match self.find_index(to_customer_id) {
            Some(j) => j,
            None => {
                return Err(BankError::CustomerNotFound(to_customer_id.to_owned()));
            },
        };
        proof {
            lemma_customer_index_unique(self@.customers, i as int, from_customer_id@);
            lemma_customer_index_unique(self@.customers, j as int, to_customer_id@);
        }
        let from_balance = match &self.customers[i].account {
            Some(a) => a.balance,
            None => {
                return Err(BankError::AccountNotFound(from_customer_id.to_owned()));
            },
        };
        let (to_account_id, to_balance) = match &self.customers[j].account {
            Some(a) => (a.id.clone(), a.balance),
            None => {
                return Err(BankError::AccountNotFound(to_customer_id.to_owned()));
            },
        };
        if amount <= 0 {
            return Err(BankError::InvalidAmount(amount));
        }
        if from_balance < amount {
            return Err(
                BankError::InsufficientFunds { available: from_balance, requested: amount },
            );
        }
        if i != j && amount > i64::MAX - to_balance {
            return Err(BankError::InvalidAmount(amount));
        }
        let ghost pre = self@;
        {
            let c = &mut self.customers[i];
            match &mut c.account {
                Some(a) => {
                    let wr = a.withdraw(amount);
                    proof {
                        assert(wr is Ok);
                    }
                },
                None => {
                    proof {
                        assert(false);
                    }
                },
            }
        }
        let ghost mid1 = self@;
        proof {
            assert(mid1.customers =~= pre.customers.update(
                i as int,
                self.customers@[i as int]@,
            ));
        }
        {
            let c = &mut self.customers[j];
            match &mut c.account {
                Some(a) => {
                    let dr = a.deposit(amount);
                    proof {
                        assert(dr is Ok);
                    }
                },
                None => {
                    proof {
                        assert(false);
                    }
                },
            }
        }
        let ghost mid2 = self@;
        proof {
            assert(mid2.customers =~= mid1.customers.update(
                j as int,
                self.customers@[j as int]@,
            ));
        }
        {
            let c = &mut self.customers[i];
            match &mut c.account {
                Some(a) => {
                    a.mark_last_as_transfer(to_account_id);
                },
                None => {
                    proof {
                        assert(false);
                    }
                },
            }
        }
        proof {
            assert(self@.customers =~= mid2.customers.update(
                i as int,
                self.customers@[i as int]@,
            ));
        }
        if self.total_transactions <= u64::MAX - 2 {
            self.total_transactions = self.total_transactions + 2;
        } else {
            self.total_transactions = u64::MAX;
        }
        proof {
            let post = self@;
            let gi = i as int;
            let gj = j as int;
            assert(customer_index(pre.customers, from_customer_id@) == gi);
            assert(customer_index(pre.customers, to_customer_id@) == gj);
            assert(post.name == pre.name);
            assert(post.total_transactions == bump(pre.total_transactions, 2));
            assert(post.customers.len() == pre.customers.len());
            assert(forall|k: int|
                0 <= k < pre.customers.len() && k != gi && k != gj
                    ==> #[trigger] post.customers[k] == pre.customers[k]);
            assert(customer_fields_kept(pre.customers[gi], post.customers[gi]));
            assert(customer_fields_kept(pre.customers[gj], post.customers[gj]));
            if gi != gj {
                let a0 = pre.customers[gi].account->0;
                let a1 = post.customers[gi].account->0;
                let b0 = pre.customers[gj].account->0;
                let b1 = post.customers[gj].account->0;
                assert(a1.transactions.drop_last() == a0.transactions);
                assert(transfer_source_post(a0, a1, amount as int, b0.id));
                assert(account_deposit_post(b0, b1, amount as int));
            } else {
                let a0 = pre.customers[gi].account->0;
                let a2 = post.customers[gi].account->0;
                assert(a2.transactions.subrange(0, a0.transactions.len() as int)
                    =~= a0.transactions);
                assert(self_transfer_post(a0, a2, amount as int));
            }
            assert(transfer_post(pre, post, from_customer_id@, to_customer_id@, amount as int));
            lemma_transfer_conserves_total(
                pre,
                post,
                from_customer_id@,
                to_customer_id@,
                amount as int,
            );
        }
        Ok(())
    }

    /// Sum of all account balances, in cents. Returned as a wider integer
    /// because many accounts can together outgrow one balance.
    pub fn total_bank_balance(&self) -> (r: i128)
        requires
            self@.wf(),
        ensures
            r == total_balance(self@.customers),
    {
        let ghost cs = self@.customers;
        let mut total: i128 = 0;
        let mut k: usize = 0;
        while k < self.customers.len()
            invariant
                0 <= k <= self.customers.len(),
                self@.wf(),
                cs == self@.customers,
                cs.len() == self.customers.len(),
                total == total_balance(cs.subrange(0, k as int)),
                0 <= total <= (k as int) * (i64::MAX as int),
            decreases self.customers.len() - k,
        {
            proof {
                assert(cs.subrange(0, k + 1).drop_last() =~= cs.subrange(0, k as int));
                assert(cs[k as int].wf());
                assert((k as int) * (i64::MAX as int) + (i64::MAX as int) == ((k + 1) as int) * (
                i64::MAX as int)) by (nonlinear_arith);
                assert(((k + 1) as int) * (i64::MAX as int) < i128::MAX) by (nonlinear_arith)
                    requires
                        0 <= k < usize::MAX,
                ;
            }
            match &self.customers[k].account {
                Some(a) => {
                    total = total + a.balance as i128;
                },
                None => {},
            }
            k = k + 1;
        }
        proof {
            assert(cs.subrange(0, cs.len() as int) =~= cs);
        }
        total
    }
}

} // verus!
