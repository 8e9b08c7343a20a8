//! The boundary to the crates that encode and sign. Nothing in this file
//! is proved: each contract is what the library takes on trust.

use base64::Engine;
use ed25519_dalek::{Signer, Verifier};
use rand::RngCore;
use vstd::prelude::*;

verus! {

/// What `base64`'s standard engine makes of bytes.
pub uninterp spec fn base64_text(bytes: Seq<u8>) -> Seq<char>;

/// What `base64`'s standard engine reads from a text, where it reads it.
pub uninterp spec fn base64_bytes(text: Seq<char>) -> Option<Seq<u8>>;

/// The Ed25519 public key of a secret key: there is one exactly where the
/// secret key is 32 bytes long.
pub uninterp spec fn ed25519_public_key(secret: Seq<u8>) -> Option<Seq<u8>>;

/// The Ed25519 signature of a secret key on a message: there is one
/// exactly where the secret key is 32 bytes long.
pub uninterp spec fn ed25519_signature(secret: Seq<u8>, message: Seq<u8>) -> Option<Seq<u8>>;

/// Whether `ed25519-dalek` accepts a signature on a message under a public
/// key.
pub uninterp spec fn ed25519_verifies(
    public_key: Seq<u8>,
    message: Seq<u8>,
    signature: Seq<u8>,
) -> bool;

/// Calls `base64::Engine::encode` on the standard engine. The result is a
/// function of the bytes alone. The call fails only where the length of
/// the text would not fit the machine, which the bound leaves out.
#[verifier::external_body]
pub(crate) fn encode_base64(bytes: &Vec<u8>) -> (r: String)
    requires
        bytes@.len() < 0x3000_0000,
    ensures
        r@ == base64_text(bytes@),
{
    base64::engine::general_purpose::STANDARD.encode(bytes)
}

/// Calls `base64::Engine::decode` on the standard engine. The result is a
/// function of the text alone; a text that is no base64 gives nothing.
#[verifier::external_body]
pub(crate) fn decode_base64(text: &str) -> (r: Option<Vec<u8>>)
    ensures
        match base64_bytes(text@) {
            Some(bytes) => r matches Some(v) && v@ == bytes,
            None => r is None,
        },
{
    base64::engine::general_purpose::STANDARD.decode(text).ok()
}

/// Calls `ed25519_dalek::SigningKey::from_bytes` and `verifying_key`. The
/// result is a function of the secret key alone. There is one exactly
/// where the secret key is 32 bytes long, and it is 32 bytes long itself.
#[verifier::external_body]
pub(crate) fn public_key_for(secret: &Vec<u8>) -> (r: Option<Vec<u8>>)
    ensures
        match ed25519_public_key(secret@) {
            Some(key) => r matches Some(v) && v@ == key,
            None => r is None,
        },
        r is Some == (secret@.len() == 32),
        r matches Some(v) ==> v@.len() == 32,
{
    let seed = <[u8; 32]>::try_from(secret.as_slice()).ok()?;
    let key = ed25519_dalek::SigningKey::from_bytes(&seed);
    Some(key.verifying_key().to_bytes().to_vec())
}

/// Calls `ed25519_dalek::SigningKey::from_bytes` and `try_sign`. Signing is
/// deterministic: the result is a function of the secret key and the
/// message alone. There is one exactly where the secret key is 32 bytes
/// long, and it is 64 bytes long.
#[verifier::external_body]
pub(crate) fn sign_with(secret: &Vec<u8>, message: &Vec<u8>) -> (r: Option<Vec<u8>>)
    ensures
        match ed25519_signature(secret@, message@) {
            Some(signature) => r matches Some(v) && v@ == signature,
            None => r is None,
        },
        r is Some == (secret@.len() == 32),
        r matches Some(v) ==> v@.len() == 64,
{
    let seed = <[u8; 32]>::try_from(secret.as_slice()).ok()?;
    let key = ed25519_dalek::SigningKey::from_bytes(&seed);
    Some(key.try_sign(message).ok()?.to_bytes().to_vec())
}

/// Calls `ed25519_dalek::VerifyingKey::from_bytes`,
/// `ed25519_dalek::Signature::from_slice` and `VerifyingKey::verify`. The
/// result is a function of the three arguments alone. A key or a signature
/// of the wrong length, or one that the crate does not read, verifies
/// nothing.
#[verifier::external_body]
pub(crate) fn verifies(public_key: &Vec<u8>, message: &Vec<u8>, signature: &Vec<u8>) -> (r: bool)
    ensures
        r == ed25519_verifies(public_key@, message@, signature@),
{
    let Ok(bytes) = <[u8; 32]>::try_from(public_key.as_slice()) else {
        return false;
    };
    let Ok(key) = ed25519_dalek::VerifyingKey::from_bytes(&bytes) else {
        return false;
    };
    let Ok(signature) = ed25519_dalek::Signature::from_slice(signature) else {
        return false;
    };
    key.verify(message, &signature).is_ok()
}

/// Calls `rand::rngs::OsRng::try_fill_bytes` on 32 bytes. Where the
/// system gives them, there are 32; nothing else is known of them.
#[verifier::external_body]
pub(crate) fn random_seed() -> (r: Option<Vec<u8>>)
    ensures
        r matches Some(seed) ==> seed@.len() == 32,
{
    let mut seed = [0u8; 32];
    rand::rngs::OsRng.try_fill_bytes(&mut seed).ok()?;
    Some(seed.to_vec())
}

} // verus!
