use minichain::accounts::Accounts;
use minichain::extrinsic::{Extrinsic, MemPool};
use minichain::hex::to_hex;
use minichain::ledger::{previous_hash_matches, Block, Ledger};
use minichain::network::{encode_network_message, handle_message, MessageOutcome, NetworkMessage};

fn tx(id: &str, from: &str, to: &str, amount: u64) -> Extrinsic {
    Extrinsic {
        id: id.to_string(),
        sender_public_key: from.to_string(),
        receiver_public_key: to.to_string(),
        amount,
        transaction_type: "transfer".to_string(),
        timestamp: 1_700_000_000,
        signature: "abcd".to_string(),
    }
}

fn tx_tuple(t: &Extrinsic, signature: &str) -> (String, String, String, u64, String, u64, String) {
    (
        t.id.clone(),
        t.sender_public_key.clone(),
        t.receiver_public_key.clone(),
        t.amount,
        t.transaction_type.clone(),
        t.timestamp,
        signature.to_string(),
    )
}

fn block(transactions: Vec<Extrinsic>, previous_hash: &str, block_count: u64) -> Block {
    Block {
        transactions,
        previous_hash: previous_hash.to_string(),
        signer: "signer".to_string(),
        block_count,
        timestamp: 42,
        signature: "sig".to_string(),
    }
}

#[test]
fn to_hex_writes_lowercase_pairs() {
    assert_eq!(to_hex(&[0xde, 0xad, 0x01, 0xff]), "dead01ff");
    assert_eq!(to_hex(&[]), "");
}

#[test]
fn extrinsic_hash_is_blake3_of_layout_without_signature() {
    let t = tx("id-1", "alice", "bob", 7);
    let bytes = bincode::serialize(&tx_tuple(&t, "")).unwrap();
    assert_eq!(t.hash_data(), *blake3::hash(&bytes).as_bytes());
}

#[test]
fn extrinsic_hash_ignores_signature() {
    let a = tx("id-1", "alice", "bob", 7);
    let mut b = a.clone();
    b.signature = "something else".to_string();
    assert_eq!(a.hash_data(), b.hash_data());
    let mut c = a.clone();
    c.amount = 8;
    assert_ne!(a.hash_data(), c.hash_data());
}

#[test]
fn block_hash_is_blake3_of_layout_without_signature() {
    let txs = vec![tx("1", "alice", "bob", 3), tx("2", "bob", "carol", 1)];
    let b = block(txs.clone(), "prev", 5);
    let tuples: Vec<_> = txs.iter().map(|t| tx_tuple(t, &t.signature)).collect();
    let bytes = bincode::serialize(&(tuples, "prev", "signer", 5u64, 42u64, "")).unwrap();
    assert_eq!(b.hash_data(), *blake3::hash(&bytes).as_bytes());
}

#[test]
fn network_message_layout_matches_bincode() {
    let t = tx("id-9", "alice", "bob", 11);
    let bytes = encode_network_message(&NetworkMessage::NewTransaction(t.clone()));
    let expected = bincode::serialize(&(0u32, tx_tuple(&t, "abcd"))).unwrap();
    assert_eq!(bytes, expected);

    let b = block(vec![t.clone()], "", 0);
    let bytes = encode_network_message(&NetworkMessage::NewBlock(b));
    let expected = bincode::serialize(&(1u32, (vec![tx_tuple(&t, "abcd")], "", "signer", 0u64, 42u64, "sig"))).unwrap();
    assert_eq!(bytes, expected);
}

#[test]
fn mempool_keeps_each_transaction_once() {
    let mut pool = MemPool::new();
    let a = tx("1", "alice", "bob", 1);
    pool.add_extrinsic(a.clone());
    pool.add_extrinsic(a.clone());
    assert_eq!(pool.len(), 1);
    assert!(pool.contains(&a));
    let mut changed = a.clone();
    changed.signature = "other".to_string();
    assert!(!pool.contains(&changed));
    pool.add_extrinsic(changed);
    assert_eq!(pool.len(), 2);
}

#[test]
fn mempool_pop_removes_block_transactions_only() {
    let mut pool = MemPool::default();
    let a = tx("1", "alice", "bob", 1);
    let b = tx("2", "alice", "bob", 2);
    let c = tx("3", "alice", "bob", 3);
    pool.add_extrinsic(a.clone());
    pool.add_extrinsic(b.clone());
    pool.add_extrinsic(c.clone());
    pool.pop_extrinsic(&[b.clone(), tx("4", "x", "y", 9)]);
    assert_eq!(pool.len(), 2);
    assert!(pool.contains(&a));
    assert!(!pool.contains(&b));
    assert!(pool.contains(&c));
    assert_eq!(pool.transaction_pool().len(), 2);
}

#[test]
fn accounts_open_with_zero_and_credit() {
    let mut accounts = Accounts::new();
    assert_eq!(accounts.get_balance("alice"), 0);
    accounts.add_balance("alice", 50);
    accounts.add_balance("alice", 25);
    assert_eq!(accounts.get_balance("alice"), 75);
    accounts.add_account("alice".to_string());
    assert_eq!(accounts.balance("alice"), 75);
    accounts.add_account("bob".to_string());
    assert_eq!(accounts.balance("bob"), 0);
}

#[test]
fn sub_balance_refuses_overdraft() {
    let mut accounts = Accounts::default();
    accounts.add_balance("alice", 10);
    assert_eq!(accounts.sub_balance("alice", 4), Ok(()));
    assert_eq!(accounts.balance("alice"), 6);
    assert_eq!(
        accounts.sub_balance("alice", 7),
        Err("Insufficient funds for account: alice".to_string())
    );
    assert_eq!(accounts.balance("alice"), 6);
    assert_eq!(accounts.sub_balance("alice", 6), Ok(()));
    assert_eq!(accounts.balance("alice"), 0);
}

#[test]
fn debit_then_credit_restores_balance() {
    let mut accounts = Accounts::new();
    accounts.add_balance("alice", 30);
    accounts.sub_balance("alice", 12).unwrap();
    accounts.add_balance("alice", 12);
    assert_eq!(accounts.balance("alice"), 30);
}

#[test]
fn push_extrinsics_settles_in_order_and_skips_uncovered() {
    let mut ledger = Ledger::new();
    ledger.accounts.add_balance("alice", 10);
    let txs = vec![
        tx("1", "alice", "bob", 6),
        tx("2", "alice", "carol", 6),
        tx("3", "bob", "carol", 5),
    ];
    ledger.push_extrinsics(&txs);
    assert_eq!(ledger.accounts.balance("alice"), 4);
    assert_eq!(ledger.accounts.balance("bob"), 1);
    assert_eq!(ledger.accounts.balance("carol"), 5);
    assert_eq!(ledger.blocks.len(), 0);
}

#[test]
fn settling_keeps_total_supply() {
    let mut ledger = Ledger::default();
    ledger.accounts.add_balance("alice", 100);
    ledger.accounts.add_balance("bob", 50);
    let txs = vec![
        tx("1", "alice", "bob", 30),
        tx("2", "bob", "carol", 70),
        tx("3", "carol", "alice", 500),
        tx("4", "carol", "carol", 10),
    ];
    assert!(ledger.accounts.can_settle(&txs));
    ledger.push_extrinsics(&txs);
    let total = ledger.accounts.balance("alice") + ledger.accounts.balance("bob") + ledger.accounts.balance("carol");
    assert_eq!(total, 150);
    assert_eq!(ledger.accounts.balance("carol"), 70);
}

#[test]
fn can_settle_detects_overflowing_credit() {
    let mut accounts = Accounts::new();
    accounts.add_balance("alice", 5);
    accounts.add_balance("bob", u64::MAX);
    assert!(!accounts.can_settle(&[tx("1", "alice", "bob", 5)]));
    assert!(accounts.can_settle(&[tx("1", "alice", "bob", 6)]));
    assert!(accounts.can_settle(&[tx("1", "bob", "alice", 5)]));
}

#[test]
fn covered_set_judges_each_on_current_balance() {
    let mut ledger = Ledger::new();
    ledger.accounts.add_balance("alice", 10);
    let txs = vec![
        tx("1", "alice", "bob", 10),
        tx("2", "alice", "bob", 10),
        tx("3", "dave", "bob", 1),
        tx("4", "dave", "bob", 0),
    ];
    let covered = ledger.extrinsic_set_covered(&txs);
    let ids: Vec<&str> = covered.iter().map(|t| t.id.as_str()).collect();
    assert_eq!(ids, vec!["1", "2", "4"]);
    assert_eq!(ledger.accounts.balance("alice"), 10);
    assert_eq!(ledger.accounts.balance("dave"), 0);
}

#[test]
fn block_count_validation() {
    let mut ledger = Ledger::new();
    assert!(ledger.validate_block_count(&block(vec![], "", 0)));
    assert!(!ledger.validate_block_count(&block(vec![], "", 1)));
    ledger.add_block(block(vec![], "", 0));
    assert!(ledger.validate_block_count(&block(vec![], "", 1)));
    assert!(!ledger.validate_block_count(&block(vec![], "", 2)));
}

#[test]
fn previous_hash_validation() {
    let mut ledger = Ledger::new();
    assert!(ledger.validate_previous_block_hash(&block(vec![], "", 0)));
    assert!(!ledger.validate_previous_block_hash(&block(vec![], "00", 0)));
    let genesis = block(vec![], "", 0);
    let genesis_hash = to_hex(&genesis.hash_data());
    assert_eq!(genesis_hash, blake3::hash(&bincode::serialize(&(Vec::<u8>::new(), "", "signer", 0u64, 42u64, "")).unwrap()).to_hex().to_string());
    ledger.add_block(genesis);
    assert!(ledger.validate_previous_block_hash(&block(vec![], &genesis_hash, 1)));
    assert!(!ledger.validate_previous_block_hash(&block(vec![], &genesis_hash.to_uppercase(), 1)));
    assert!(!ledger.validate_previous_block_hash(&block(vec![], "", 1)));
}

#[test]
fn previous_hash_matches_lowercase_hex_only() {
    let digest = [0xabu8; 32];
    assert!(previous_hash_matches(&digest, &"ab".repeat(32)));
    assert!(!previous_hash_matches(&digest, &"AB".repeat(32)));
    assert!(!previous_hash_matches(&digest, "ab"));
}

#[test]
fn add_block_settles_and_appends() {
    let mut ledger = Ledger::new();
    ledger.accounts.add_balance("alice", 9);
    ledger.add_block(block(vec![tx("1", "alice", "bob", 4)], "", 0));
    assert_eq!(ledger.blocks.len(), 1);
    assert_eq!(ledger.accounts.balance("alice"), 5);
    assert_eq!(ledger.accounts.balance("bob"), 4);
}

#[test]
fn handle_message_pools_transactions() {
    let mut pool = MemPool::new();
    let mut ledger = Ledger::new();
    let t = tx("1", "alice", "bob", 1);
    assert_eq!(handle_message(&mut pool, &mut ledger, NetworkMessage::NewTransaction(t.clone())), MessageOutcome::TransactionPooled);
    assert!(pool.contains(&t));
    assert_eq!(ledger.blocks.len(), 0);
}

#[test]
fn handle_message_appends_following_blocks() {
    let mut pool = MemPool::new();
    let mut ledger = Ledger::new();
    ledger.accounts.add_balance("alice", 10);
    let t = tx("1", "alice", "bob", 4);
    let other = tx("2", "alice", "bob", 1);
    pool.add_extrinsic(t.clone());
    pool.add_extrinsic(other.clone());

    assert_eq!(handle_message(&mut pool, &mut ledger, NetworkMessage::NewBlock(block(vec![], "", 1))), MessageOutcome::BlockRejected);
    assert_eq!(ledger.blocks.len(), 0);

    let genesis = block(vec![t.clone()], "", 0);
    let genesis_hash = to_hex(&genesis.hash_data());
    assert_eq!(handle_message(&mut pool, &mut ledger, NetworkMessage::NewBlock(genesis)), MessageOutcome::BlockAppended);
    assert_eq!(ledger.blocks.len(), 1);
    assert!(!pool.contains(&t));
    assert!(pool.contains(&other));
    assert_eq!(ledger.accounts.balance("bob"), 4);

    assert_eq!(handle_message(&mut pool, &mut ledger, NetworkMessage::NewBlock(block(vec![], "", 0))), MessageOutcome::CountUnderflow);
    assert_eq!(handle_message(&mut pool, &mut ledger, NetworkMessage::NewBlock(block(vec![], "beef", 1))), MessageOutcome::BlockRejected);
    assert_eq!(handle_message(&mut pool, &mut ledger, NetworkMessage::NewBlock(block(vec![other.clone()], &genesis_hash, 1))), MessageOutcome::BlockAppended);
    assert_eq!(ledger.blocks.len(), 2);
    assert_eq!(pool.len(), 0);
    assert_eq!(ledger.accounts.balance("alice"), 5);
}

#[test]
fn handle_message_reports_overflow_without_change() {
    let mut pool = MemPool::new();
    let mut ledger = Ledger::new();
    ledger.accounts.add_balance("alice", 5);
    ledger.accounts.add_balance("bob", u64::MAX);
    let t = tx("1", "alice", "bob", 5);
    pool.add_extrinsic(t.clone());
    assert_eq!(handle_message(&mut pool, &mut ledger, NetworkMessage::NewBlock(block(vec![t.clone()], "", 0))), MessageOutcome::BalanceOverflow);
    assert_eq!(ledger.blocks.len(), 0);
    assert_eq!(ledger.accounts.balance("alice"), 5);
    assert!(pool.contains(&t));
}
