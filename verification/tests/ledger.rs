//! End-to-end tests of the ledger: registration, accounts, deposits,
//! withdrawals, transfers, and the error taxonomy.

use rust_banking_system::{Account, Bank, BankError, TransactionType};

#[test]
fn register_customer_returns_uuid_and_stores_customer() {
    let mut bank = Bank::new("Test Bank".to_string());
    let id = bank
        .register_customer("Alice".to_string(), "a@x.com".to_string())
        .unwrap();
    assert_eq!(id.chars().count(), 36);
    let c = bank.get_customer(&id).unwrap();
    assert_eq!(c.name, "Alice");
    assert_eq!(c.email, "a@x.com");
    assert!(!c.has_account());
}

#[test]
fn two_registrations_get_distinct_ids() {
    let mut bank = Bank::new("Test Bank".to_string());
    let id1 = bank
        .register_customer("Alice".to_string(), "a@x.com".to_string())
        .unwrap();
    let id2 = bank
        .register_customer("Bob".to_string(), "b@x.com".to_string())
        .unwrap();
    assert_ne!(id1, id2);
}

#[test]
fn duplicate_email_case_insensitive_is_rejected() {
    let mut bank = Bank::new("Test Bank".to_string());
    bank.register_customer("Upper".to_string(), "A@x.com".to_string())
        .unwrap();
    let second = bank.register_customer("Lower".to_string(), "a@x.com".to_string());
    match second {
        Err(BankError::CustomerAlreadyExists(email)) => assert_eq!(email, "a@x.com"),
        other => panic!("expected CustomerAlreadyExists, got {:?}", other),
    }
    assert_eq!(bank.list_customers().len(), 1);
}

#[test]
fn register_customer_with_id_is_deterministic() {
    let mut bank = Bank::new("Test Bank".to_string());
    let id = bank
        .register_customer_with_id(
            "Dana".to_string(),
            "d@x.com".to_string(),
            "fixed-id".to_string(),
            42,
        )
        .unwrap();
    assert_eq!(id, "fixed-id");
    let again = bank.register_customer_with_id(
        "Other".to_string(),
        "o@x.com".to_string(),
        "fixed-id".to_string(),
        43,
    );
    assert!(matches!(again, Err(BankError::CustomerAlreadyExists(_))));
}

#[test]
fn full_transfer_scenario() {
    let mut bank = Bank::new("Test Bank".to_string());
    let c1 = bank
        .register_customer("Alice".to_string(), "a@x.com".to_string())
        .unwrap();
    bank.create_account_for_customer(&c1, 10000).unwrap();
    {
        let alice = bank.get_customer(&c1).unwrap();
        let acc = alice.get_account().unwrap();
        assert_eq!(acc.balance, 10000);
        assert_eq!(acc.get_transaction_history().len(), 1);
        assert!(matches!(
            acc.get_transaction_history()[0].transaction_type,
            TransactionType::Deposit
        ));
    }
    let c2 = bank
        .register_customer("Bob".to_string(), "b@x.com".to_string())
        .unwrap();
    bank.create_account_for_customer(&c2, 0).unwrap();
    {
        let bob = bank.get_customer(&c2).unwrap();
        let acc = bob.get_account().unwrap();
        assert_eq!(acc.balance, 0);
        assert_eq!(acc.get_transaction_history().len(), 0);
    }
    let counter_before = bank.total_transactions;
    let total_before = bank.total_bank_balance();
    assert_eq!(total_before, 10000);

    bank.transfer(&c1, &c2, 4000).unwrap();

    let bob_account_id = bank
        .get_customer(&c2)
        .unwrap()
        .get_account_id()
        .unwrap();
    let alice = bank.get_customer(&c1).unwrap();
    let alice_acc = alice.get_account().unwrap();
    assert_eq!(alice_acc.balance, 6000);
    let last = alice_acc.get_transaction_history().last().unwrap();
    match &last.transaction_type {
        TransactionType::Transfer { to_account_id } => {
            assert_eq!(*to_account_id, bob_account_id)
        }
        other => panic!("expected Transfer, got {:?}", other),
    }
    let bob = bank.get_customer(&c2).unwrap();
    let bob_acc = bob.get_account().unwrap();
    assert_eq!(bob_acc.balance, 4000);
    assert_eq!(bob_acc.get_transaction_history().len(), 1);
    assert!(matches!(
        bob_acc.get_transaction_history()[0].transaction_type,
        TransactionType::Deposit
    ));
    assert_eq!(bank.total_transactions, counter_before + 2);
    assert_eq!(bank.total_bank_balance(), 10000);
}

#[test]
fn transfer_beyond_balance_changes_nothing() {
    let mut bank = Bank::new("Test Bank".to_string());
    let c1 = bank
        .register_customer("Alice".to_string(), "a@x.com".to_string())
        .unwrap();
    bank.create_account_for_customer(&c1, 500).unwrap();
    let c2 = bank
        .register_customer("Bob".to_string(), "b@x.com".to_string())
        .unwrap();
    bank.create_account_for_customer(&c2, 200).unwrap();
    let counter_before = bank.total_transactions;

    let r = bank.transfer(&c1, &c2, 900);
    match r {
        Err(BankError::InsufficientFunds {
            available,
            requested,
        }) => {
            assert_eq!(available, 500);
            assert_eq!(requested, 900);
        }
        other => panic!("expected InsufficientFunds, got {:?}", other),
    }
    assert_eq!(
        bank.get_customer(&c1).unwrap().get_account().unwrap().balance,
        500
    );
    assert_eq!(
        bank.get_customer(&c2).unwrap().get_account().unwrap().balance,
        200
    );
    assert_eq!(bank.total_transactions, counter_before);
}

#[test]
fn withdraw_before_any_deposit_fails_with_insufficient_funds() {
    let mut bank = Bank::new("Test Bank".to_string());
    let c2 = bank
        .register_customer("Bob".to_string(), "b@x.com".to_string())
        .unwrap();
    bank.create_account_for_customer(&c2, 0).unwrap();
    let r = bank.withdraw(&c2, 100000);
    match r {
        Err(BankError::InsufficientFunds {
            available,
            requested,
        }) => {
            assert_eq!(available, 0);
            assert_eq!(requested, 100000);
        }
        other => panic!("expected InsufficientFunds, got {:?}", other),
    }
    let acc = bank.get_customer(&c2).unwrap().get_account().unwrap();
    assert_eq!(acc.balance, 0);
    assert_eq!(acc.get_transaction_history().len(), 0);
}

#[test]
fn withdraw_then_deposit_restores_balance() {
    let mut account = Account::new(12345).unwrap();
    let original = account.balance;
    account.withdraw(678).unwrap();
    account.deposit(678).unwrap();
    assert_eq!(account.balance, original);
    assert!(account.balance >= 0);
}

#[test]
fn balance_stays_non_negative_through_operations() {
    let mut account = Account::new(100).unwrap();
    assert!(account.balance >= 0);
    account.deposit(50).unwrap();
    assert!(account.balance >= 0);
    account.withdraw(150).unwrap();
    assert_eq!(account.balance, 0);
    assert!(account.withdraw(1).is_err());
    assert!(account.balance >= 0);
}

#[test]
fn account_rejects_bad_amounts() {
    match Account::new(-5) {
        Err(BankError::InvalidAmount(v)) => assert_eq!(v, -5),
        other => panic!("expected InvalidAmount, got {:?}", other),
    }
    let mut account = Account::new(0).unwrap();
    assert!(matches!(
        account.deposit(0),
        Err(BankError::InvalidAmount(0))
    ));
    assert!(matches!(
        account.deposit(-3),
        Err(BankError::InvalidAmount(-3))
    ));
    assert!(matches!(
        account.withdraw(-1),
        Err(BankError::InvalidAmount(-1))
    ));
    assert_eq!(account.get_transaction_history().len(), 0);
}

#[test]
fn deposit_that_would_overflow_is_rejected() {
    let mut account = Account::new(1).unwrap();
    assert!(matches!(
        account.deposit(i64::MAX),
        Err(BankError::InvalidAmount(_))
    ));
    assert_eq!(account.balance, 1);
}

#[test]
fn unknown_customer_and_missing_account_errors() {
    let mut bank = Bank::new("Test Bank".to_string());
    assert!(matches!(
        bank.deposit("nobody", 100),
        Err(BankError::CustomerNotFound(_))
    ));
    assert!(matches!(
        bank.get_customer("nobody"),
        Err(BankError::CustomerNotFound(_))
    ));
    let c = bank
        .register_customer("Carol".to_string(), "c@x.com".to_string())
        .unwrap();
    assert!(matches!(
        bank.deposit(&c, 100),
        Err(BankError::AccountNotFound(_))
    ));
    assert!(matches!(
        bank.withdraw(&c, 100),
        Err(BankError::AccountNotFound(_))
    ));
}

#[test]
fn opening_a_second_account_is_rejected() {
    let mut bank = Bank::new("Test Bank".to_string());
    let c = bank
        .register_customer("Carol".to_string(), "c@x.com".to_string())
        .unwrap();
    bank.create_account_for_customer(&c, 100).unwrap();
    match bank.create_account_for_customer(&c, 100) {
        Err(BankError::CustomerAlreadyExists(reason)) => {
            assert_eq!(reason, "Customer already has an account")
        }
        other => panic!("expected CustomerAlreadyExists, got {:?}", other),
    }
}

#[test]
fn totals_track_deposits_and_withdrawals() {
    let mut account = Account::new(1000).unwrap();
    account.deposit(500).unwrap();
    account.withdraw(300).unwrap();
    assert_eq!(account.total_deposits(), 1500);
    assert_eq!(account.total_withdrawals(), 300);
}

#[test]
fn reclassified_transfer_still_counts_as_withdrawal() {
    let mut bank = Bank::new("Test Bank".to_string());
    let c1 = bank
        .register_customer("Alice".to_string(), "a@x.com".to_string())
        .unwrap();
    bank.create_account_for_customer(&c1, 1000).unwrap();
    let c2 = bank
        .register_customer("Bob".to_string(), "b@x.com".to_string())
        .unwrap();
    bank.create_account_for_customer(&c2, 0).unwrap();
    bank.transfer(&c1, &c2, 400).unwrap();
    let acc = bank.get_customer(&c1).unwrap().get_account().unwrap();
    assert_eq!(acc.total_withdrawals(), 400);
}

#[test]
fn mark_last_as_transfer_on_empty_log_is_a_no_op() {
    let mut account = Account::new(0).unwrap();
    account.mark_last_as_transfer("somewhere".to_string());
    assert_eq!(account.get_transaction_history().len(), 0);
    assert_eq!(account.balance, 0);
}

#[test]
fn find_customers_by_name_is_case_insensitive_substring_search() {
    let mut bank = Bank::new("Test Bank".to_string());
    bank.register_customer("Alice".to_string(), "a@x.com".to_string())
        .unwrap();
    bank.register_customer("bob".to_string(), "b@x.com".to_string())
        .unwrap();
    let hits = bank.find_customers_by_name("LIC");
    assert_eq!(hits.len(), 1);
    assert_eq!(hits[0].name, "Alice");
    let hits = bank.find_customers_by_name("B");
    assert_eq!(hits.len(), 1);
    assert_eq!(hits[0].name, "bob");
    let hits = bank.find_customers_by_name("zzz");
    assert_eq!(hits.len(), 0);
}
