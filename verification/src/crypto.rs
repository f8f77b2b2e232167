//! The calls into the hashing, signing, identifier and clock crates, with what
//! the library relies on of each.

use vstd::prelude::*;
use ed25519_dalek::Signer;
use ed25519_dalek::Verifier;

verus! {

/// The BLAKE3 digest (32 bytes) of a byte string.
pub uninterp spec fn blake3_digest(data: Seq<u8>) -> Seq<u8>;

/// The Ed25519 public key bytes that belong to a 32-byte secret key.
pub uninterp spec fn ed25519_public_key(secret: Seq<u8>) -> Seq<u8>;

/// The Ed25519 signature (64 bytes) that a 32-byte secret key makes of a message.
pub uninterp spec fn ed25519_signature(secret: Seq<u8>, message: Seq<u8>) -> Seq<u8>;

/// Whether 32 bytes are the encoding of a point that an Ed25519 public key accepts.
pub uninterp spec fn ed25519_key_accepted(key: Seq<u8>) -> bool;

/// Whether a 64-byte signature of a message checks out under a public key.
pub uninterp spec fn ed25519_verifies(key: Seq<u8>, message: Seq<u8>, signature: Seq<u8>) -> bool;

/// The text of every error of the Ed25519 crate: its error type displays
/// as this one fixed message, whatever went wrong.
pub open spec fn signature_error_text() -> Seq<char> {
    "signature error"@
}

/// Whether a character is a lowercase hexadecimal digit.
pub open spec fn is_lower_hex_char(c: char) -> bool {
    ('0' <= c <= '9') || ('a' <= c <= 'f')
}

/// `blake3::hash`: the digest of `data`, named by `blake3_digest`.
#[verifier::external_body]
pub(crate) fn blake3_hash(data: &[u8]) -> (digest: [u8; 32])
    ensures
        digest@ == blake3_digest(data@),
{
    *::blake3::hash(data).as_bytes()
}

/// `SigningKey::generate` with the operating system's random source; the
/// 32 secret bytes it returns are random, so nothing is said of them.
#[verifier::external_body]
pub(crate) fn generate_secret_key() -> (secret: [u8; 32]) {
    let mut rng = ::getrandom::rand_core::UnwrapErr(::getrandom::SysRng);
    ::ed25519_dalek::SigningKey::generate(&mut rng).to_bytes()
}

/// `SigningKey::verifying_key`, as bytes: the public key of a secret key.
/// Such a key is the compression of a curve point, so it is accepted when
/// parsed back.
#[verifier::external_body]
pub(crate) fn public_key_of(secret: &[u8; 32]) -> (key: [u8; 32])
    ensures
        key@ == ed25519_public_key(secret@),
        ed25519_key_accepted(key@),
{
    ::ed25519_dalek::SigningKey::from_bytes(secret).verifying_key().to_bytes()
}

/// `SigningKey::sign` (deterministic Ed25519): the signature of `message`,
/// which checks out under the key's own public key.
#[verifier::external_body]
pub(crate) fn sign(secret: &[u8; 32], message: &[u8]) -> (signature: [u8; 64])
    ensures
        signature@ == ed25519_signature(secret@, message@),
        ed25519_verifies(ed25519_public_key(secret@), message@, signature@),
{
    ::ed25519_dalek::SigningKey::from_bytes(secret).sign(message).to_bytes()
}

/// `VerifyingKey::try_from(&[u8])`: succeeds exactly on 32 bytes that encode
/// an accepted point; the error is the crate's message.
#[verifier::external_body]
pub(crate) fn check_public_key(bytes: &[u8]) -> (checked: Result<(), String>)
    ensures
        checked is Ok <==> (bytes@.len() == 32 && ed25519_key_accepted(bytes@)),
        checked matches Err(e) ==> e@ == signature_error_text(),
{
    ::ed25519_dalek::VerifyingKey::try_from(bytes).map(|_| ()).map_err(|e| e.to_string())
}

/// `Signature::from_slice`: succeeds exactly on 64 bytes; the error is the
/// crate's message.
#[verifier::external_body]
pub(crate) fn check_signature_length(bytes: &[u8]) -> (checked: Result<(), String>)
    ensures
        checked is Ok <==> bytes@.len() == 64,
        checked matches Err(e) ==> e@ == signature_error_text(),
{
    ::ed25519_dalek::Signature::from_slice(bytes).map(|_| ()).map_err(|e| e.to_string())
}

/// `VerifyingKey::verify` on an accepted 32-byte key and a 64-byte signature;
/// the error is the crate's message.
#[verifier::external_body]
pub(crate) fn verify(key: &[u8], message: &[u8], signature: &[u8]) -> (verified: Result<(), String>)
    requires
        key@.len() == 32,
        ed25519_key_accepted(key@),
        signature@.len() == 64,
    ensures
        verified is Ok <==> ed25519_verifies(key@, message@, signature@),
        verified matches Err(e) ==> e@ == signature_error_text(),
{
    let key = ::ed25519_dalek::VerifyingKey::try_from(key).map_err(|e| e.to_string())?;
    let signature = ::ed25519_dalek::Signature::from_slice(signature).map_err(|e| e.to_string())?;
    key.verify(message, &signature).map_err(|e| e.to_string())
}

/// `Uuid::new_v4().simple().to_string()`: a random version-4 identifier,
/// written as 32 lowercase hexadecimal digits, whose 13th digit is the
/// version `4` and whose 17th digit holds the variant bits `10`.
#[verifier::external_body]
pub(crate) fn new_transaction_id() -> (id: String)
    ensures
        id@.len() == 32,
        forall|i: int| 0 <= i < 32 ==> is_lower_hex_char(#[trigger] id@[i]),
        id@[12] == '4',
        id@[16] == '8' || id@[16] == '9' || id@[16] == 'a' || id@[16] == 'b',
{
    ::uuid::Uuid::new_v4().simple().to_string()
}

/// `SystemTime::now()` as whole seconds since the Unix epoch; `None` when the
/// clock reads a time before the epoch. The reading itself is not specified.
#[verifier::external_body]
pub(crate) fn seconds_since_epoch() -> (seconds: Option<u64>) {
    std::time::SystemTime::now().duration_since(std::time::UNIX_EPOCH).ok().map(|d| d.as_secs())
}

/// The current time in whole seconds since the Unix epoch, or 0 when the
/// clock reads a time before the epoch.
pub fn current_timestamp() -> u64 {
    match seconds_since_epoch() {
        Some(seconds) => seconds,
        None => 0,
    }
}

} // verus!
