use minichain::account::Account;
use minichain::transaction::Transaction;
use minichain::transaction::TxStatus;
use std::str::FromStr;

const SK1: &str = "0000000000000000000000000000000000000000000000000000000000000001";
const SK2: &str = "0000000000000000000000000000000000000000000000000000000000000002";

fn pk_of(sk_hex: &str) -> String {
    let sk = secp256k1::SecretKey::from_str(sk_hex).unwrap();
    secp256k1::PublicKey::from_secret_key(&sk).to_string()
}

fn fresh_tx(seed: &str, amount: u64) -> Transaction {
    Transaction {
        from_address: pk_of(SK1),
        to_address: pk_of(SK2),
        msg: sha256::digest(seed),
        amount,
        pub_key: pk_of(SK1),
        signature: None,
        status: TxStatus::PENDING,
        nonce: 0,
    }
}

fn funded_ledger(balance: u64) -> Account {
    let mut ledger = Account::new();
    let a = pk_of(SK1);
    let b = pk_of(SK2);
    ledger.initialize(&a);
    ledger.initialize(&b);
    assert!(ledger.credit(&a, balance));
    ledger
}

fn flip_char(s: &str, i: usize) -> String {
    let mut chars: Vec<char> = s.chars().collect();
    chars[i] = if chars[i] == '3' { '4' } else { '3' };
    chars.into_iter().collect()
}

#[test]
fn signed_transaction_with_funds_is_valid() {
    let ledger = funded_ledger(100);
    let mut tx = fresh_tx("valid", 30);
    assert!(tx.sign_transaction(SK1));
    assert!(tx.signature.is_some());
    assert!(tx.is_valid(&ledger));
}

#[test]
fn tampered_signature_is_invalid() {
    let ledger = funded_ledger(100);
    let mut tx = fresh_tx("sig-tamper", 30);
    assert!(tx.sign_transaction(SK1));
    let sig = tx.signature.clone().unwrap();
    tx.signature = Some(flip_char(&sig, 10));
    assert!(!tx.is_valid(&ledger));
}

#[test]
fn tampered_message_is_invalid() {
    let ledger = funded_ledger(100);
    let mut tx = fresh_tx("msg-tamper", 30);
    assert!(tx.sign_transaction(SK1));
    tx.msg = flip_char(&tx.msg.clone(), 0);
    assert!(!tx.is_valid(&ledger));
}

#[test]
fn wrong_key_is_invalid() {
    let ledger = funded_ledger(100);
    let mut tx = fresh_tx("wrong-key", 30);
    // signed with a key that does not match the attached public key
    assert!(tx.sign_transaction(SK2));
    assert!(!tx.is_valid(&ledger));
}

#[test]
fn missing_signature_is_invalid() {
    let ledger = funded_ledger(100);
    let tx = fresh_tx("unsigned", 30);
    assert!(!tx.is_valid(&ledger));
}

#[test]
fn insufficient_funds_is_invalid() {
    let ledger = funded_ledger(10);
    let mut tx = fresh_tx("poor", 50);
    assert!(tx.sign_transaction(SK1));
    assert!(!tx.is_valid(&ledger));
}

#[test]
fn unregistered_sender_is_invalid() {
    let ledger = Account::new();
    let mut tx = fresh_tx("nobody", 0);
    assert!(tx.sign_transaction(SK1));
    assert!(!tx.is_valid(&ledger));
}

#[test]
fn signing_rejects_a_malformed_message() {
    let mut tx = fresh_tx("bad-msg", 1);
    tx.msg = String::from("not hex at all");
    assert!(!tx.sign_transaction(SK1));
    assert!(tx.signature.is_none());
    assert_eq!(tx.status, TxStatus::PENDING);
}

#[test]
fn data_string_renders_every_field() {
    let tx = Transaction {
        from_address: String::from("a"),
        to_address: String::from("b"),
        msg: String::from("m"),
        amount: 5,
        pub_key: String::from("k"),
        signature: None,
        status: TxStatus::PENDING,
        nonce: 7,
    };
    assert_eq!(tx.data_string(), "a|b|m|5|k||P|7;");
    let mut signed = tx.clone();
    signed.signature = Some(String::from("s"));
    signed.status = TxStatus::SUCCESS;
    assert_eq!(signed.data_string(), "a|b|m|5|k|s|S|7;");
}
