use ed25519_dalek::Signer;
use minichain::crypto::current_timestamp;
use minichain::hex::to_hex;
use minichain::ledger::Ledger;
use minichain::wallet::Wallet;

fn is_lower_hex(s: &str) -> bool {
    s.chars().all(|c| c.is_ascii_digit() || ('a'..='f').contains(&c))
}

#[test]
fn public_key_is_64_lowercase_hex_digits() {
    let wallet = Wallet::new();
    let key = wallet.public_key_hex();
    assert_eq!(key.len(), 64);
    assert!(is_lower_hex(&key));
    assert_eq!(key, wallet.public_key_hex());
    assert_ne!(key, Wallet::new().public_key_hex());
}

#[test]
fn signed_hash_validates_under_own_key() {
    let wallet = Wallet::new();
    let hash = *blake3::hash(b"payload").as_bytes();
    let signature = wallet.sign_hash(&hash);
    assert_eq!(signature.len(), 128);
    assert!(is_lower_hex(&signature));
    assert_eq!(Wallet::validate_signature(&signature, &hash, &wallet.public_key_hex()), Ok(()));
    let other = *blake3::hash(b"other").as_bytes();
    assert!(Wallet::validate_signature(&signature, &other, &wallet.public_key_hex()).is_err());
    assert!(Wallet::validate_signature(&signature, &hash, &Wallet::new().public_key_hex()).is_err());
}

#[test]
fn validate_signature_accepts_signatures_of_the_key_crate() {
    let secret: [u8; 32] = [
        0x9d, 0x61, 0xb1, 0x9d, 0xef, 0xfd, 0x5a, 0x60, 0xba, 0x84, 0x4a, 0xf4, 0x92, 0xec, 0x2c, 0xc4,
        0x44, 0x49, 0xc5, 0x69, 0x7b, 0x32, 0x69, 0x19, 0x70, 0x3b, 0xac, 0x03, 0x1c, 0xae, 0x7f, 0x60,
    ];
    let key = ed25519_dalek::SigningKey::from_bytes(&secret);
    let public_hex = hex::encode(key.verifying_key().to_bytes());
    assert_eq!(public_hex, "d75a980182b10ab7d54bfed3c964073a0ee172f3daa62325af021a68f707511a");
    let hash = [7u8; 32];
    let signature_hex = hex::encode(key.sign(&hash).to_bytes());
    assert_eq!(Wallet::validate_signature(&signature_hex, &hash, &public_hex), Ok(()));
    assert_eq!(Wallet::validate_signature(&signature_hex.to_uppercase(), &hash, &public_hex.to_uppercase()), Ok(()));
}

#[test]
fn validate_signature_reports_each_failed_step() {
    let wallet = Wallet::new();
    let hash = [1u8; 32];
    let signature = wallet.sign_hash(&hash);
    let key = wallet.public_key_hex();
    assert_eq!(Wallet::validate_signature(&signature, &hash, "abc"), Err("Odd number of digits".to_string()));
    assert_eq!(Wallet::validate_signature(&signature, &hash, "zz"), Err("Invalid character 'z' at position 0".to_string()));
    assert_eq!(Wallet::validate_signature(&signature, &hash, "abcd"), Err("signature error".to_string()));
    assert_eq!(Wallet::validate_signature("0g", &hash, &key), Err("Invalid character 'g' at position 1".to_string()));
    assert_eq!(Wallet::validate_signature("abc", &hash, &key), Err("Odd number of digits".to_string()));
    assert_eq!(Wallet::validate_signature("abcd", &hash, &key), Err("signature error".to_string()));
    assert_eq!(Wallet::validate_signature(&signature[..126], &hash, &key), Err("signature error".to_string()));
    assert_eq!(Wallet::validate_signature(&signature, &[2u8; 32], &key), Err("signature error".to_string()));
    assert_eq!(Wallet::validate_signature("zz", &hash, "abc"), Err("Odd number of digits".to_string()));
}

#[test]
fn new_extrinsic_is_signed_by_sender() {
    let wallet = Wallet::new();
    let before = current_timestamp();
    let tx = wallet.new_extrinsic("receiver".to_string(), 25, "transfer".to_string());
    assert_eq!(tx.id.len(), 32);
    assert!(is_lower_hex(&tx.id));
    assert_eq!(&tx.id[12..13], "4");
    assert!("89ab".contains(&tx.id[16..17]));
    assert_eq!(tx.sender_public_key, wallet.public_key_hex());
    assert_eq!(tx.receiver_public_key, "receiver");
    assert_eq!(tx.amount, 25);
    assert_eq!(tx.transaction_type, "transfer");
    assert!(tx.timestamp >= before && tx.timestamp <= current_timestamp());
    assert_eq!(tx.signature, wallet.sign_hash(&tx.hash_data()));
    assert_eq!(Wallet::validate_signature(&tx.signature, &tx.hash_data(), &tx.sender_public_key), Ok(()));
    let other = wallet.new_extrinsic("receiver".to_string(), 25, "transfer".to_string());
    assert_ne!(tx.id, other.id);
}

#[test]
fn new_extrinsic_with_sets_given_fields() {
    let wallet = Wallet::new();
    let tx = wallet.new_extrinsic_with("fixed".to_string(), "r".to_string(), 3, "t".to_string(), 99);
    assert_eq!(tx.id, "fixed");
    assert_eq!(tx.timestamp, 99);
    assert_eq!(Wallet::validate_signature(&tx.signature, &tx.hash_data(), &tx.sender_public_key), Ok(()));
}

#[test]
fn created_blocks_extend_the_chain() {
    let wallet = Wallet::new();
    let mut ledger = Ledger::new();
    let genesis = wallet.create_block(vec![], String::new(), 0);
    assert_eq!(genesis.signer, wallet.public_key_hex());
    assert_eq!(Wallet::validate_signature(&genesis.signature, &genesis.hash_data(), &genesis.signer), Ok(()));
    assert!(ledger.validate_block_count(&genesis) && ledger.validate_previous_block_hash(&genesis));
    let genesis_hash = to_hex(&genesis.hash_data());
    ledger.add_block(genesis);

    let tx = wallet.new_extrinsic("bob".to_string(), 0, "transfer".to_string());
    let next = wallet.create_block_with(vec![tx], genesis_hash, 1, 1234);
    assert_eq!(next.timestamp, 1234);
    assert!(ledger.validate_block_count(&next) && ledger.validate_previous_block_hash(&next));
    assert_eq!(Wallet::validate_signature(&next.signature, &next.hash_data(), &next.signer), Ok(()));
}
