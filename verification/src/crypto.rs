//! Trusted boundary to the cryptographic primitives: the SHA-512 digest used
//! by the address scheme and payload hashing, and deterministic ECDSA signing
//! over the secp256k1 curve used by transaction and batch headers.

use vstd::prelude::*;

use sha2::Digest;

use crate::errors::SigningError;

verus! {

/// What SHA-512 returns: a pure function of the input bytes alone.
pub uninterp spec fn sha512_of(data: Seq<u8>) -> Seq<u8>;

/// Whether 32 bytes are a canonical secp256k1 secret key: what
/// `SecretKey::from_secret_bytes` accepts.
pub uninterp spec fn is_valid_secret(key: Seq<u8>) -> bool;

/// What deterministic ECDSA signing returns for a 32-byte digest and a valid
/// secret key: with the RFC 6979 nonce it is a pure function of the two.
pub uninterp spec fn sig_of(digest: Seq<u8>, key: Seq<u8>) -> Seq<u8>;

/// What the compressed serialization of the public key derived from a valid
/// secret key is: a pure function of the key.
pub uninterp spec fn public_key_of(key: Seq<u8>) -> Seq<u8>;

/// Relies on sha2's `Sha512::digest`: SHA-512 is a deterministic function of
/// the input bytes and always produces a 64-byte digest.
#[verifier::external_body]
pub(crate) fn sha512(data: &Vec<u8>) -> (r: Vec<u8>)
    ensures
        r@ == sha512_of(data@),
        r@.len() == 64,
{
    sha2::Sha512::digest(data.as_slice()).to_vec()
}

/// Relies on secp256k1: `SecretKey::from_secret_bytes` succeeds exactly on
/// canonical 32-byte secret keys; `SecretKey::sign_ecdsa` signs with the
/// deterministic RFC 6979 nonce, so the 64-byte compact serialization
/// (`Signature::serialize_compact`) is a function of digest and key alone.
#[verifier::external_body]
pub(crate) fn ecdsa_sign(digest: &Vec<u8>, key: &Vec<u8>) -> (r: Result<Vec<u8>, SigningError>)
    requires
        digest@.len() == 32,
    ensures
        (r is Ok) <==> (key@.len() == 32 && is_valid_secret(key@)),
        r matches Ok(s) ==> s@ == sig_of(digest@, key@) && s@.len() == 64,
{
    let key_arr: [u8; 32] = match key.as_slice().try_into() {
        Ok(a) => a,
        Err(_) => return Err(SigningError::InvalidKey),
    };
    let sk = match secp256k1::SecretKey::from_secret_bytes(key_arr) {
        Ok(k) => k,
        Err(_) => return Err(SigningError::InvalidKey),
    };
    let digest_arr: [u8; 32] = digest.as_slice().try_into().unwrap();
    let msg = secp256k1::Message::from_digest(digest_arr);
    Ok(sk.sign_ecdsa(msg).serialize_compact().to_vec())
}

/// Relies on secp256k1: `SecretKey::from_secret_bytes` succeeds exactly on
/// canonical 32-byte secret keys; `PublicKey::from_secret_key` derives the
/// public point, whose compressed serialization (`PublicKey::serialize`) is
/// 33 bytes and a function of the key alone.
#[verifier::external_body]
pub(crate) fn ecdsa_public_key(key: &Vec<u8>) -> (r: Result<Vec<u8>, SigningError>)
    ensures
        (r is Ok) <==> (key@.len() == 32 && is_valid_secret(key@)),
        r matches Ok(p) ==> p@ == public_key_of(key@) && p@.len() == 33,
{
    let key_arr: [u8; 32] = match key.as_slice().try_into() {
        Ok(a) => a,
        Err(_) => return Err(SigningError::InvalidKey),
    };
    let sk = match secp256k1::SecretKey::from_secret_bytes(key_arr) {
        Ok(k) => k,
        Err(_) => return Err(SigningError::InvalidKey),
    };
    Ok(secp256k1::PublicKey::from_secret_key(&sk).serialize().to_vec())
}

} // verus!
