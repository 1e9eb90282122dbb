use minichain::account::Account;
use minichain::numstr::u64_to_string;
use std::str::FromStr;

const SK1: &str = "0000000000000000000000000000000000000000000000000000000000000001";

fn addr(n: &str) -> String {
    String::from(n)
}

#[test]
fn initialize_and_get_balance() {
    let mut ledger = Account::new();
    let a = addr("alice");
    assert_eq!(ledger.get_balance(&a), None);
    ledger.initialize(&a);
    assert_eq!(ledger.get_balance(&a), Some(0));
    assert!(ledger.credit(&a, 100));
    assert_eq!(ledger.get_balance(&a), Some(100));
    // re-initializing never resets a nonzero balance
    ledger.initialize(&a);
    assert_eq!(ledger.get_balance(&a), Some(100));
}

#[test]
fn credit_unregistered_or_overflowing_is_refused() {
    let mut ledger = Account::new();
    let a = addr("alice");
    assert!(!ledger.credit(&a, 5));
    ledger.initialize(&a);
    assert!(ledger.credit(&a, u64::MAX));
    assert!(!ledger.credit(&a, 1));
    assert_eq!(ledger.get_balance(&a), Some(u64::MAX));
}

#[test]
fn transfer_round_trip_restores_balances() {
    let mut ledger = Account::new();
    let a = addr("alice");
    let b = addr("bob");
    ledger.initialize(&a);
    ledger.initialize(&b);
    assert!(ledger.credit(&a, 100));
    assert!(ledger.credit(&b, 5));
    ledger.transfer(&a, &b, 30);
    assert_eq!(ledger.get_balance(&a), Some(70));
    assert_eq!(ledger.get_balance(&b), Some(35));
    ledger.transfer(&b, &a, 30);
    assert_eq!(ledger.get_balance(&a), Some(100));
    assert_eq!(ledger.get_balance(&b), Some(5));
}

#[test]
fn transfer_to_self_moves_nothing() {
    let mut ledger = Account::new();
    let a = addr("alice");
    ledger.initialize(&a);
    assert!(ledger.credit(&a, 40));
    ledger.transfer(&a, &a, 10);
    assert_eq!(ledger.get_balance(&a), Some(40));
}

#[test]
fn address_validity_is_structural() {
    let ledger = Account::new();
    let sk = secp256k1::SecretKey::from_str(SK1).unwrap();
    let pk = secp256k1::PublicKey::from_secret_key(&sk).to_string();
    assert!(ledger.is_valid_address(&pk));
    assert!(!ledger.is_valid_address(&addr("not a key")));
    assert!(!ledger.is_valid_address(&addr("")));
}

#[test]
fn decimal_rendering_is_exact() {
    assert_eq!(u64_to_string(0), "0");
    assert_eq!(u64_to_string(7), "7");
    assert_eq!(u64_to_string(42), "42");
    assert_eq!(u64_to_string(1234567890), "1234567890");
    assert_eq!(u64_to_string(u64::MAX), "18446744073709551615");
}
