use minichain::account::Account;
use minichain::block::Block;
use minichain::blockchain::Blockchain;
use minichain::blockchain::ChainError;
use minichain::transaction::Transaction;
use minichain::transaction::TxStatus;
use std::str::FromStr;

const SK1: &str = "0000000000000000000000000000000000000000000000000000000000000001";
const SK2: &str = "0000000000000000000000000000000000000000000000000000000000000002";

fn pk_of(sk_hex: &str) -> String {
    let sk = secp256k1::SecretKey::from_str(sk_hex).unwrap();
    secp256k1::PublicKey::from_secret_key(&sk).to_string()
}

fn fresh_chain(difficulty: usize, block_capacity: usize) -> Blockchain {
    Blockchain {
        chain: vec![],
        difficulty,
        pending_transactions: vec![],
        mining_reward: 50,
        block_capacity,
        accounts: Account::new(),
    }
}

fn signed_tx(seed: &str, sk: &str, to: &str, amount: u64) -> Transaction {
    let mut tx = Transaction {
        from_address: pk_of(sk),
        to_address: String::from(to),
        msg: sha256::digest(seed),
        amount,
        pub_key: pk_of(sk),
        signature: None,
        status: TxStatus::PENDING,
        nonce: 0,
    };
    assert!(tx.sign_transaction(sk));
    tx
}

#[test]
fn transfer_settles_and_links_blocks() {
    // Ledger starts with A = 100, B = 0; capacity 1, difficulty 2.
    let mut chain = fresh_chain(2, 1);
    let a = pk_of(SK1);
    chain.accounts.initialize(&a);
    assert!(chain.accounts.credit(&a, 100));
    let b = pk_of(SK2);
    let msg = sha256::digest("settles");
    let result = chain.submit_transaction(SK1, b.clone(), 30, msg, 1_700_000_000);
    let tx = result.unwrap();
    assert_eq!(tx.status, TxStatus::SUCCESS);
    assert_eq!(chain.get_balance(&a), Some(70));
    assert_eq!(chain.get_balance(&b), Some(30));
    assert_eq!(chain.chain.len(), 2);
    let mined = &chain.chain[0];
    assert!(mined.mined);
    assert!(mined.hash.starts_with("00"));
    assert_eq!(chain.chain[1].previous_hash, mined.hash);
    assert!(!chain.chain[1].mined);
    assert!(chain.is_chain_valid());
}

#[test]
fn overdraft_resolves_to_failed_at_mining_time() {
    // A holds 10 and tries to send 50: admitted, but FAILED when mined.
    let mut chain = fresh_chain(1, 1);
    let a = pk_of(SK1);
    let b = pk_of(SK2);
    chain.accounts.initialize(&a);
    chain.accounts.initialize(&b);
    assert!(chain.accounts.credit(&a, 10));
    let tx = signed_tx("overdraft", SK1, &b, 50);
    let result = chain.add_transaction(tx, 1_700_000_000).unwrap();
    assert_eq!(result.status, TxStatus::FAILED);
    assert_eq!(chain.get_balance(&a), Some(10));
    assert_eq!(chain.get_balance(&b), Some(0));
}

#[test]
fn overdraft_is_rejected_before_admission() {
    let mut chain = fresh_chain(1, 1);
    let a = pk_of(SK1);
    chain.accounts.initialize(&a);
    assert!(chain.accounts.credit(&a, 10));
    let msg = sha256::digest("rejected");
    let before = chain.chain.len();
    let result = chain.submit_transaction(SK1, pk_of(SK2), 50, msg, 1_700_000_000);
    match result {
        Err(e) => assert_eq!(e, ChainError::InsufficientFunds),
        Ok(_) => panic!("expected a rejection"),
    }
    assert_eq!(chain.get_balance(&a), Some(10));
    assert_eq!(chain.chain.len(), before);
}

#[test]
fn submit_rejects_a_malformed_secret_key() {
    let mut chain = fresh_chain(1, 1);
    let msg = sha256::digest("bad-sk");
    let result = chain.submit_transaction("zz", pk_of(SK2), 1, msg, 0);
    match result {
        Err(e) => assert_eq!(e, ChainError::InvalidSecretKey),
        Ok(_) => panic!("expected a rejection"),
    }
}

#[test]
fn submit_rejects_a_malformed_address() {
    let mut chain = fresh_chain(1, 1);
    let msg = sha256::digest("bad-addr");
    let result = chain.submit_transaction(SK1, String::from("nowhere"), 0, msg, 0);
    match result {
        Err(e) => assert_eq!(e, ChainError::InvalidAddress),
        Ok(_) => panic!("expected a rejection"),
    }
}

#[test]
fn submit_rejects_a_malformed_message() {
    let mut chain = fresh_chain(1, 1);
    let result = chain.submit_transaction(SK1, pk_of(SK2), 0, String::from("not hex"), 0);
    match result {
        Err(e) => assert_eq!(e, ChainError::InvalidMessage),
        Ok(_) => panic!("expected a rejection"),
    }
}

#[test]
fn below_capacity_transaction_stays_pending() {
    let mut chain = fresh_chain(1, 10);
    let a = pk_of(SK1);
    chain.accounts.initialize(&a);
    assert!(chain.accounts.credit(&a, 100));
    let msg = sha256::digest("pending");
    let tx = chain.submit_transaction(SK1, pk_of(SK2), 5, msg, 7).unwrap();
    assert_eq!(tx.status, TxStatus::PENDING);
    assert_eq!(chain.chain.len(), 1);
    assert!(!chain.chain[0].mined);
    assert_eq!(chain.chain[0].transactions.len(), 1);
    assert_eq!(chain.get_balance(&a), Some(100));
    assert!(chain.is_chain_valid());
}

#[test]
fn mining_is_idempotent_on_a_mined_block() {
    let mut block = Block {
        timestamp: 11,
        transactions: vec![signed_tx("idem", SK1, "b", 3)],
        previous_hash: String::from("0"),
        hash: String::new(),
        nonce: 0,
        block_capacity: 10,
        mined: false,
    };
    let ledger = Account::new();
    block.mine_block_with_capacity(1, &ledger, true);
    assert!(block.mined);
    let hash = block.hash.clone();
    let nonce = block.nonce;
    let status = block.transactions[0].status;
    block.mine_block_with_capacity(1, &ledger, true);
    assert_eq!(block.hash, hash);
    assert_eq!(block.nonce, nonce);
    assert_eq!(block.transactions[0].status, status);
    assert!(block.mined);
}

#[test]
fn mined_hash_meets_difficulty_and_recomputes() {
    let mut block = Block {
        timestamp: 99,
        transactions: vec![signed_tx("pow", SK1, "b", 1)],
        previous_hash: String::from("0"),
        hash: String::new(),
        nonce: 0,
        block_capacity: 10,
        mined: false,
    };
    let ledger = Account::new();
    block.mine_block_with_capacity(2, &ledger, true);
    assert!(block.mined);
    assert!(block.hash.starts_with("00"));
    assert_eq!(block.calculate_hash(), block.hash);
}

#[test]
fn below_capacity_unforced_mining_does_not_fire() {
    // Below capacity and not forced: nothing fires.
    let mut block = Block {
        timestamp: 1,
        transactions: vec![signed_tx("calm", SK1, "b", 1)],
        previous_hash: String::from("0"),
        hash: String::new(),
        nonce: 0,
        block_capacity: 10,
        mined: false,
    };
    let ledger = Account::new();
    block.mine_block_with_capacity(1, &ledger, false);
    assert!(!block.mined);
    assert!(block.hash.is_empty());
    assert_eq!(block.transactions[0].status, TxStatus::PENDING);
}

#[test]
fn chain_of_mined_blocks_is_valid_and_tampering_is_detected() {
    let mut chain = fresh_chain(1, 1);
    let a = pk_of(SK1);
    let b = pk_of(SK2);
    chain.accounts.initialize(&a);
    assert!(chain.accounts.credit(&a, 100));
    for seed in ["one", "two", "three"] {
        let msg = sha256::digest(seed);
        let tx = chain.submit_transaction(SK1, b.clone(), 10, msg, 5).unwrap();
        assert_eq!(tx.status, TxStatus::SUCCESS);
    }
    assert_eq!(chain.chain.len(), 4);
    assert!(chain.is_chain_valid());
    assert_eq!(chain.get_balance(&a), Some(70));
    assert_eq!(chain.get_balance(&b), Some(30));

    let mut linked = chain.clone();
    linked.chain[2].previous_hash = String::from("forged");
    assert!(!linked.is_chain_valid());

    let mut edited = chain.clone();
    edited.chain[1].transactions[0].amount += 1;
    assert!(!edited.is_chain_valid());
}

#[test]
fn snapshots_and_lookup() {
    let mut chain = fresh_chain(1, 1);
    let a = pk_of(SK1);
    let b = pk_of(SK2);
    chain.accounts.initialize(&a);
    assert!(chain.accounts.credit(&a, 100));
    let msg_one = sha256::digest("lookup-one");
    let msg_two = sha256::digest("lookup-two");
    chain.submit_transaction(SK1, b.clone(), 1, msg_one.clone(), 5).unwrap();
    chain.submit_transaction(SK1, b.clone(), 2, msg_two.clone(), 6).unwrap();
    let blocks = chain.get_all_blocks();
    assert_eq!(blocks.len(), chain.chain.len());
    let txs = chain.get_all_tx();
    assert_eq!(txs.len(), 2);
    assert_eq!(txs[0].msg, msg_one);
    assert_eq!(txs[1].msg, msg_two);
    let holder = chain.chain[1].find_transaction_by_signature(&msg_two).unwrap();
    assert_eq!(holder.amount, 2);
    assert!(chain.chain[0].find_transaction_by_signature("absent").is_none());
    let latest = chain.get_latest_block().unwrap();
    assert!(!latest.mined);
    assert_eq!(chain.get_blockchain().difficulty, 1);
}

#[test]
fn block_data_string_and_hash_are_reproducible() {
    let block = Block {
        timestamp: 5,
        transactions: vec![],
        previous_hash: String::from("0"),
        hash: String::new(),
        nonce: 7,
        block_capacity: 10,
        mined: false,
    };
    assert_eq!(block.block_data_string(), "5##0#7");
    assert_eq!(block.calculate_hash(), sha256::digest("5##0#7"));
}

#[test]
fn settlement_applies_only_successful_transfers() {
    let a = pk_of(SK1);
    let b = pk_of(SK2);
    let mut chain = fresh_chain(1, 10);
    chain.accounts.initialize(&a);
    chain.accounts.initialize(&b);
    assert!(chain.accounts.credit(&a, 50));
    let mut ok_tx = signed_tx("settle-ok", SK1, &b, 20);
    ok_tx.status = TxStatus::SUCCESS;
    let mut failed_tx = signed_tx("settle-no", SK1, &b, 20);
    failed_tx.status = TxStatus::FAILED;
    let block = Block {
        timestamp: 3,
        transactions: vec![ok_tx, failed_tx],
        previous_hash: String::from("0"),
        hash: String::new(),
        nonce: 0,
        block_capacity: 10,
        mined: true,
    };
    chain.execute_txn(&block);
    assert_eq!(chain.get_balance(&a), Some(30));
    assert_eq!(chain.get_balance(&b), Some(20));
    // settling a whole chain of one block applies the same transfers again
    let blocks = vec![block];
    chain.execute_chain(&blocks);
    assert_eq!(chain.get_balance(&a), Some(10));
    assert_eq!(chain.get_balance(&b), Some(40));
}
