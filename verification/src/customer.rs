//! Customers: identity, at most one account each.

use vstd::prelude::*;
use crate::account::{account_new_post, Account, AccountView};
use crate::errors::{BankError, BankErrorView, BankResult};
use crate::external::{current_time_millis, fresh_uuid};

verus! {

/// Mathematical model of a customer.
pub struct CustomerView {
    pub id: Seq<char>,
    pub name: Seq<char>,
    pub email: Seq<char>,
    pub account: Option<AccountView>,
    pub registered_at: int,
}

/// A registered customer, owning at most one account.
#[derive(Debug, Clone, PartialEq)]
pub struct Customer {
    /// Unique customer identifier (hyphenated UUID).
    pub id: String,
    /// Full name.
    pub name: String,
    /// Email address; unique across the ledger up to character case.
    pub email: String,
    /// The customer's account, if one has been opened.
    pub account: Option<Account>,
    /// Registration time, in milliseconds since the Unix epoch.
    pub registered_at: i64,
}

impl View for Customer {
    type V = CustomerView;

    open spec fn view(&self) -> CustomerView {
        CustomerView {
            id: self.id@,
            name: self.name@,
            email: self.email@,
            account: match &self.account {
                Some(a) => Some(a@),
                None => None,
            },
            registered_at: self.registered_at as int,
        }
    }
}

impl CustomerView {
    /// A customer is well formed when its account, if any, is.
    pub open spec fn wf(self) -> bool {
        &&& i64::MIN <= self.registered_at <= i64::MAX
        &&& match self.account {
            Some(a) => a.wf(),
            None => true,
        }
    }

    /// The balance this customer contributes to the bank's total: the
    /// account balance, or zero without an account.
    pub open spec fn balance_or_zero(self) -> int {
        match self.account {
            Some(a) => a.balance,
            None => 0,
        }
    }
}

impl Customer {
    /// Registers a customer with a fresh identifier, the current time and
    /// no account.
    pub fn new(name: String, email: String) -> (r: Customer)
        ensures
            r@.wf(),
            r@.name == name@,
            r@.email == email@,
            r@.account is None,
    {
        Customer {
            id: fresh_uuid(),
            name,
            email,
            account: None,
            registered_at: current_time_millis(),
        }
    }

    /// Opens this customer's single account with the given initial
    /// deposit; fails if one exists already, or if the deposit is
    /// negative, without mutating anything.
    pub fn create_account(&mut self, initial_deposit: i64) -> (r: BankResult<()>)
        requires
            old(self)@.wf(),
        ensures
            final(self)@.wf(),
            r is Ok <==> old(self)@.account is None && initial_deposit >= 0,
            (match r {
                Ok(_) => {
                    &&& final(self)@.id == old(self)@.id
                    &&& final(self)@.name == old(self)@.name
                    &&& final(self)@.email == old(self)@.email
                    &&& final(self)@.registered_at == old(self)@.registered_at
                    &&& final(self)@.account matches Some(a) && account_new_post(
                        a,
                        initial_deposit as int,
                    )
                },
                Err(e) => *final(self) == *old(self) && e@ == (if old(self)@.account is Some {
                    BankErrorView::CustomerAlreadyExists(
                        "Customer already has an account"@,
                    )
                } else {
                    BankErrorView::InvalidAmount(initial_deposit as int)
                }),
            }),
    {
        if self.account.is_some() {
            return Err(
                BankError::CustomerAlreadyExists(
                    String::from_str("Customer already has an account"),
                ),
            );
        }
        let account = match Account::new(initial_deposit) {
            Ok(a) => a,
            Err(e) => {
                return Err(e);
            },
        };
        self.account = Some(account);
        Ok(())
    }

    /// The customer's account, or `AccountNotFound` carrying the
    /// customer's id when none has been opened.
    pub fn get_account(&self) -> (r: BankResult<&Account>)
        ensures
            r is Ok <==> self@.account is Some,
            (match r {
                Ok(a) => self@.account == Some(a@),
                Err(e) => e@ == BankErrorView::AccountNotFound(self@.id),
            }),
    {
        match &self.account {
            Some(a) => Ok(a),
            None => Err(BankError::AccountNotFound(self.id.clone())),
        }
    }

    /// Mutable access to the customer's account, or `AccountNotFound`
    /// carrying the customer's id when none has been opened.
    pub fn get_account_mut(&mut self) -> (r: BankResult<&mut Account>)
        ensures
            r is Ok <==> old(self)@.account is Some,
            (match r {
                Ok(a) => {
                    &&& old(self)@.account == Some((*a)@)
                    &&& final(self)@.account == Some((*final(a))@)
                    &&& final(self)@.id == old(self)@.id
                    &&& final(self)@.name == old(self)@.name
                    &&& final(self)@.email == old(self)@.email
                    &&& final(self)@.registered_at == old(self)@.registered_at
                },
                Err(e) => *final(self) == *old(self) && e@ == BankErrorView::AccountNotFound(
                    old(self)@.id,
                ),
            }),
    {
        match &mut self.account {
            Some(a) => Ok(a),
            None => Err(BankError::AccountNotFound(self.id.clone())),
        }
    }

    /// Whether the customer has opened an account.
    pub fn has_account(&self) -> (r: bool)
        ensures
            r == (self@.account is Some),
    {
        self.account.is_some()
    }

    /// The account's id, if an account exists.
    pub fn get_account_id(&self) -> (r: Option<String>)
        ensures
            (match r {
                Some(id) => self@.account matches Some(a) && a.id == id@,
                None => self@.account is None,
            }),
    {
        match &self.account {
            Some(a) => Some(a.id.clone()),
            None => None,
        }
    }
}

} // verus!
