//! Signatures over payloads, made and checked by the `secp256k1` crate.
//!
//! Keys and signatures cross this boundary as plain values: a secret key as
//! its 32 bytes, a public key and a signature as hexadecimal text. Nothing in
//! this file is proved; each contract says what is taken on trust.
use secp256k1::ecdsa::Signature;
use secp256k1::hashes::sha256;
use secp256k1::{Message, PublicKey, SecretKey};
use std::str::FromStr;
use vstd::prelude::*;

verus! {

/// Whether `secp256k1` accepts `sig`, read as a DER signature in hexadecimal,
/// as an ECDSA signature over the SHA-256 hash of `payload` under the public
/// key that `pk` spells in hexadecimal. False where `pk` or `sig` does not
/// parse.
pub uninterp spec fn ecdsa_accepts(payload: Seq<char>, pk: Seq<char>, sig: Seq<char>) -> bool;

/// The public key of the secret key with the bytes `secret`, in compressed
/// form and lower-case hexadecimal; `None` where the bytes are no secret key.
pub uninterp spec fn public_key_text(secret: Seq<u8>) -> Option<Seq<char>>;

/// Checks a signature: `PublicKey::from_str` and `Signature::from_str` read
/// the key and the signature, `Message::from_hashed_data` hashes the payload
/// with SHA-256, and `Signature::verify` decides. The contract only names the
/// answer; that the answer depends on the three texts alone is what is
/// trusted.
#[verifier::external_body]
pub(crate) fn verify_signature(payload: &str, pk: &str, sig: &str) -> (ok: bool)
    ensures
        ok == ecdsa_accepts(payload@, pk@, sig@),
{
    let key = match PublicKey::from_str(pk) {
        Ok(key) => key,
        Err(_) => return false,
    };
    let sig = match Signature::from_str(sig) {
        Ok(sig) => sig,
        Err(_) => return false,
    };
    sig.verify(&Message::from_hashed_data::<sha256::Hash>(payload.as_bytes()), &key).is_ok()
}

/// The public key that belongs to a secret key: `SecretKey::from_slice`
/// reads the secret key and `PublicKey::from_secret_key_global` derives the
/// public one, which is written with its `Display` form.
#[verifier::external_body]
pub(crate) fn derive_public_key(secret: &[u8]) -> (pk: Option<String>)
    ensures
        match pk {
            Some(text) => public_key_text(secret@) == Some(text@),
            None => public_key_text(secret@) is None,
        },
{
    match SecretKey::from_slice(secret) {
        Ok(key) => Some(PublicKey::from_secret_key_global(&key).to_string()),
        Err(_) => None,
    }
}

/// Signs a payload: `SecretKey::from_slice` reads the secret key,
/// `Message::from_hashed_data` hashes the payload with SHA-256 and
/// `SecretKey::sign_ecdsa` signs the hash; the signature is written with its
/// `Display` form. Trusted: a signature is made exactly when the bytes are a
/// secret key, and it is then accepted under the public key of that secret
/// key, as the crate's documentation of `verify_ecdsa` shows by example.
#[verifier::external_body]
pub(crate) fn sign_payload(payload: &str, secret: &[u8]) -> (sig: Option<String>)
    ensures
        match sig {
            Some(text) => public_key_text(secret@) is Some && ecdsa_accepts(
                payload@,
                public_key_text(secret@).unwrap(),
                text@,
            ),
            None => public_key_text(secret@) is None,
        },
{
    match SecretKey::from_slice(secret) {
        Ok(key) => {
            let hash = Message::from_hashed_data::<sha256::Hash>(payload.as_bytes());
            Some(key.sign_ecdsa(hash).to_string())
        },
        Err(_) => None,
    }
}

/// A fresh secret key: `secp256k1::generate_keypair` draws it from the
/// thread's random number generator. Of every outcome holds that the bytes
/// are a secret key.
#[verifier::external_body]
pub(crate) fn generate_secret() -> (secret: Vec<u8>)
    ensures
        public_key_text(secret@) is Some,
{
    let (key, _) = secp256k1::generate_keypair(&mut secp256k1::rand::thread_rng());
    key.secret_bytes().to_vec()
}

} // verus!
