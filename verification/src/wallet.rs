//! A signing key, and the transactions and blocks it makes and signs.

use vstd::prelude::*;
use vstd::utf8::encode_utf8;
use crate::crypto::{
    signature_error_text, check_public_key, check_signature_length, current_timestamp, ed25519_key_accepted,
    ed25519_public_key, ed25519_signature, ed25519_verifies, generate_secret_key,
    is_lower_hex_char, new_transaction_id, public_key_of, sign, verify,
};
use crate::extrinsic::{Extrinsic, extrinsic_digest, unsigned};
use crate::hex::{decode_hex, hex_error_text, hex_decoded, hex_lower, lemma_hex_round_trip, to_hex};
use crate::ledger::{Block, BlockView, block_digest};

verus! {

/// Whether a signature, given as hexadecimal text, of `message` checks out
/// under a public key given as hexadecimal text: both texts decode, the key
/// is 32 bytes of an accepted point, the signature is 64 bytes, and the
/// signature verifies.
pub open spec fn signature_accepted(signature_hex: Seq<char>, message: Seq<u8>, public_key_hex: Seq<char>) -> bool {
    match (hex_decoded(encode_utf8(public_key_hex)), hex_decoded(encode_utf8(signature_hex))) {
        (Some(key), Some(signature)) => {
            &&& key.len() == 32
            &&& ed25519_key_accepted(key)
            &&& signature.len() == 64
            &&& ed25519_verifies(key, message, signature)
        },
        _ => false,
    }
}

/// The outcome of checking a hexadecimal signature of `message` against a
/// hexadecimal public key, step by step: decode the key, parse it, decode
/// the signature, check its length, verify. The first step that fails gives
/// its error message.
pub open spec fn signature_check(signature_hex: Seq<char>, message: Seq<u8>, public_key_hex: Seq<char>) -> Result<(), Seq<char>> {
    let key_text = encode_utf8(public_key_hex);
    let signature_text = encode_utf8(signature_hex);
    match hex_decoded(key_text) {
        None => Err(hex_error_text(key_text)),
        Some(key) => if !(key.len() == 32 && ed25519_key_accepted(key)) {
            Err(signature_error_text())
        } else {
            match hex_decoded(signature_text) {
                None => Err(hex_error_text(signature_text)),
                Some(signature) => if signature.len() != 64 {
                    Err(signature_error_text())
                } else if ed25519_verifies(key, message, signature) {
                    Ok(())
                } else {
                    Err(signature_error_text())
                },
            }
        },
    }
}

/// An Ed25519 key pair: the secret key and the public key that belongs to it.
pub struct Wallet {
    secret_key: [u8; 32],
    public_key: [u8; 32],
}

impl Wallet {
    #[verifier::type_invariant]
    spec fn key_pair_matches(&self) -> bool {
        &&& self.public_key@ == ed25519_public_key(self.secret_key@)
        &&& ed25519_key_accepted(self.public_key@)
    }

    /// The wallet's secret key.
    pub closed spec fn secret(&self) -> Seq<u8> {
        self.secret_key@
    }

    /// The wallet's public key as lowercase hexadecimal text.
    pub open spec fn public_key_text(&self) -> Seq<char> {
        hex_lower(ed25519_public_key(self.secret()))
    }

    /// The hexadecimal text of the wallet's signature of `message`.
    pub open spec fn signature_text(&self, message: Seq<u8>) -> Seq<char> {
        hex_lower(ed25519_signature(self.secret(), message))
    }

    /// A wallet with a fresh random key pair.
    pub fn new() -> (wallet: Self) {
        let secret_key = generate_secret_key();
        let public_key = public_key_of(&secret_key);
        Wallet { secret_key, public_key }
    }

    /// The public key as lowercase hexadecimal text.
    pub fn public_key_hex(&self) -> (text: String)
        ensures
            text@ == self.public_key_text(),
    {
        proof {
            use_type_invariant(self);
        }
        to_hex(self.public_key.as_slice())
    }

    /// The wallet's signature of a hash, as lowercase hexadecimal text; it is
    /// accepted by `validate_signature` under the wallet's public key.
    pub fn sign_hash(&self, hash: &[u8; 32]) -> (text: String)
        ensures
            text@ == self.signature_text(hash@),
            signature_accepted(text@, hash@, self.public_key_text()),
    {
        proof {
            use_type_invariant(self);
        }
        let signature = sign(&self.secret_key, hash.as_slice());
        proof {
            lemma_hex_round_trip(signature@);
            lemma_hex_round_trip(self.public_key@);
        }
        to_hex(signature.as_slice())
    }

    /// Checks a hexadecimal signature of a hash against a hexadecimal public
    /// key; the error is the message of the first step that failed.
    pub fn validate_signature(signature_hex: &str, hash: &[u8; 32], public_key_hex: &str) -> (result: Result<(), String>)
        ensures
            result is Ok <==> signature_accepted(signature_hex@, hash@, public_key_hex@),
            match result {
                Ok(()) => signature_check(signature_hex@, hash@, public_key_hex@) == Ok::<(), Seq<char>>(()),
                Err(e) => signature_check(signature_hex@, hash@, public_key_hex@) == Err::<(), Seq<char>>(e@),
            },
    {
        let key = match decode_hex(public_key_hex) {
            Ok(key) => key,
            Err(e) => return Err(e),
        };
        match check_public_key(key.as_slice()) {
            Ok(()) => {},
            Err(e) => return Err(e),
        }
        let signature = match decode_hex(signature_hex) {
            Ok(signature) => signature,
            Err(e) => return Err(e),
        };
        match check_signature_length(signature.as_slice()) {
            Ok(()) => {},
            Err(e) => return Err(e),
        }
        verify(key.as_slice(), hash.as_slice(), signature.as_slice())
    }

    /// A transaction from this wallet with the given identifier and time,
    /// signed over its hash.
    pub fn new_extrinsic_with(
        &self,
        id: String,
        receiver_public_key: String,
        amount: u64,
        transaction_type: String,
        timestamp: u64,
    ) -> (tx: Extrinsic)
        ensures
            tx.id@ == id@,
            tx.sender_public_key@ == self.public_key_text(),
            tx.receiver_public_key@ == receiver_public_key@,
            tx.amount == amount,
            tx.transaction_type@ == transaction_type@,
            tx.timestamp == timestamp,
            tx.signature@ == self.signature_text(extrinsic_digest(tx@)),
            signature_accepted(tx.signature@, extrinsic_digest(tx@), tx.sender_public_key@),
    {
        let mut tx = Extrinsic {
            id,
            sender_public_key: self.public_key_hex(),
            receiver_public_key,
            amount,
            transaction_type,
            timestamp,
            signature: String::new(),
        };
        let digest = tx.hash_data();
        let ghost before = tx@;
        tx.signature = self.sign_hash(&digest);
        assert(unsigned(tx@) =~= unsigned(before));
        tx
    }

    /// A transaction from this wallet with a fresh random identifier and the
    /// current time, signed over its hash.
    pub fn new_extrinsic(&self, receiver_public_key: String, amount: u64, transaction_type: String) -> (tx: Extrinsic)
        ensures
            tx.id@.len() == 32,
            forall|i: int| 0 <= i < 32 ==> is_lower_hex_char(#[trigger] tx.id@[i]),
            tx.id@[12] == '4',
            tx.id@[16] == '8' || tx.id@[16] == '9' || tx.id@[16] == 'a' || tx.id@[16] == 'b',
            tx.sender_public_key@ == self.public_key_text(),
            tx.receiver_public_key@ == receiver_public_key@,
            tx.amount == amount,
            tx.transaction_type@ == transaction_type@,
            tx.signature@ == self.signature_text(extrinsic_digest(tx@)),
            signature_accepted(tx.signature@, extrinsic_digest(tx@), tx.sender_public_key@),
    {
        let id = new_transaction_id();
        let timestamp = current_timestamp();
        self.new_extrinsic_with(id, receiver_public_key, amount, transaction_type, timestamp)
    }

    /// A block signed by this wallet, with the given time, over its hash.
    pub fn create_block_with(
        &self,
        transactions: Vec<Extrinsic>,
        previous_hash: String,
        block_count: u64,
        timestamp: u64,
    ) -> (block: Block)
        ensures
            block.transactions@ == transactions@,
            block.previous_hash@ == previous_hash@,
            block.signer@ == self.public_key_text(),
            block.block_count == block_count,
            block.timestamp == timestamp,
            block.signature@ == self.signature_text(block_digest(block@)),
            signature_accepted(block.signature@, block_digest(block@), block.signer@),
    {
        let mut block = Block {
            transactions,
            previous_hash,
            signer: self.public_key_hex(),
            block_count,
            timestamp,
            signature: String::new(),
        };
        let digest = block.hash_data();
        let ghost before = block@;
        block.signature = self.sign_hash(&digest);
        assert(BlockView { signature: Seq::empty(), ..block@ } =~= BlockView { signature: Seq::empty(), ..before });
        block
    }

    /// A block signed by this wallet, made now, over its hash.
    pub fn create_block(&self, transactions: Vec<Extrinsic>, previous_hash: String, block_count: u64) -> (block: Block)
        ensures
            block.transactions@ == transactions@,
            block.previous_hash@ == previous_hash@,
            block.signer@ == self.public_key_text(),
            block.block_count == block_count,
            block.signature@ == self.signature_text(block_digest(block@)),
            signature_accepted(block.signature@, block_digest(block@), block.signer@),
    {
        let timestamp = current_timestamp();
        self.create_block_with(transactions, previous_hash, block_count, timestamp)
    }
}

} // verus!
