//! Tests of the durable store's encoding: the save-then-load round trip
//! and the rejection of damaged documents.

use rust_banking_system::{decode_bank, encode_bank, Bank, BankError};

fn sample_bank() -> Bank {
    let mut bank = Bank::new("Round Trip Bank".to_string());
    let c1 = bank
        .register_customer("Alice".to_string(), "a@x.com".to_string())
        .unwrap();
    bank.create_account_for_customer(&c1, 10000).unwrap();
    bank.deposit(&c1, 2500).unwrap();
    bank.withdraw(&c1, 500).unwrap();
    let c2 = bank
        .register_customer("Bob".to_string(), "b@x.com".to_string())
        .unwrap();
    bank.create_account_for_customer(&c2, 0).unwrap();
    bank.transfer(&c1, &c2, 4000).unwrap();
    bank.register_customer("Carol".to_string(), "c@x.com".to_string())
        .unwrap();
    bank
}

#[test]
fn save_then_load_round_trip_is_identity() {
    let bank = sample_bank();
    let encoded = encode_bank(&bank);
    let decoded = decode_bank(&encoded).unwrap();
    assert_eq!(decoded, bank);
}

#[test]
fn empty_bank_round_trips() {
    let bank = Bank::new("Empty".to_string());
    let encoded = encode_bank(&bank);
    let decoded = decode_bank(&encoded).unwrap();
    assert_eq!(decoded, bank);
}

#[test]
fn encoding_names_its_top_level_fields() {
    let bank = Bank::new("Named".to_string());
    let encoded = encode_bank(&bank);
    assert!(encoded.starts_with("name="));
    assert!(encoded.contains("total_transactions="));
    assert!(encoded.contains("customers="));
}

#[test]
fn decode_rejects_garbage() {
    match decode_bank("not a ledger at all") {
        Err(BankError::SerializationError(_)) => {}
        other => panic!("expected SerializationError, got {:?}", other),
    }
}

#[test]
fn decode_rejects_truncated_document() {
    let bank = sample_bank();
    let encoded = encode_bank(&bank);
    let truncated: String = encoded.chars().take(encoded.chars().count() - 5).collect();
    assert!(matches!(
        decode_bank(&truncated),
        Err(BankError::SerializationError(_))
    ));
}

#[test]
fn decode_rejects_trailing_content() {
    let bank = sample_bank();
    let mut encoded = encode_bank(&bank);
    encoded.push_str("extra");
    assert!(matches!(
        decode_bank(&encoded),
        Err(BankError::SerializationError(_))
    ));
}
