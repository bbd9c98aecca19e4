//! Tests of the one-line summaries.

use rust_banking_system::{Account, Bank, Customer, Summarizable};

#[test]
fn customer_summary_without_account() {
    let customer = Customer {
        id: "cust-0001-aaaa".to_string(),
        name: "Alice".to_string(),
        email: "a@x.com".to_string(),
        account: None,
        registered_at: 0,
    };
    assert_eq!(customer.summary(), "Customer: Alice (cust-000), No account");
}

#[test]
fn customer_summary_with_account() {
    let customer = Customer {
        id: "cust-0001-aaaa".to_string(),
        name: "Alice".to_string(),
        email: "a@x.com".to_string(),
        account: Some(Account {
            id: "acct-0002-bbbb".to_string(),
            balance: 10000,
            transactions: Vec::new(),
            created_at: 0,
        }),
        registered_at: 0,
    };
    assert_eq!(
        customer.summary(),
        "Customer: Alice (cust-000), Account: acct-000, Balance: $100.00"
    );
}

#[test]
fn bank_summary_reports_counts_and_total() {
    let mut bank = Bank::new("Rust National Bank".to_string());
    let c1 = bank
        .register_customer("Alice".to_string(), "a@x.com".to_string())
        .unwrap();
    bank.create_account_for_customer(&c1, 12345).unwrap();
    bank.register_customer("Bob".to_string(), "b@x.com".to_string())
        .unwrap();
    assert_eq!(
        bank.summary(),
        "Bank: Rust National Bank, Customers: 2, Total Balance: $123.45, Transactions: 1"
    );
}
