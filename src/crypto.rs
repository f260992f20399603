//! The outside primitives this core consumes: hashing, ECDSA signing, public
//! key derivation and address decoding, all from the bitcoin library that
//! bdk carries. Each is stated over plain bytes.

use vstd::prelude::*;
use bdk::bitcoin::hashes::sha256d;
use bdk::bitcoin::secp256k1::{Message, PublicKey, Secp256k1, SecretKey};
use bdk::bitcoin::Address;
use std::str::FromStr;

verus! {

/// SHA-256 applied twice.
pub uninterp spec fn sha256d_of(data: Seq<u8>) -> Seq<u8>;

/// Whether `key` is a valid secp256k1 secret key.
pub uninterp spec fn secret_key_ok(key: Seq<u8>) -> bool;

/// The DER-encoded ECDSA signature (deterministic nonce) of a 32-byte
/// digest under a secret key.
pub uninterp spec fn ecdsa_der_of(digest: Seq<u8>, key: Seq<u8>) -> Seq<u8>;

/// The compressed public key of a secret key.
pub uninterp spec fn pubkey_of(key: Seq<u8>) -> Seq<u8>;

/// The locking script that an address text stands for, if it decodes.
pub uninterp spec fn address_script_of(addr: Seq<char>) -> Option<Seq<u8>>;

/// Relies on bitcoin_hashes' `sha256d::Hash::hash`: the double SHA-256
/// digest of the data.
#[verifier::external_body]
pub(crate) fn double_sha256(data: &Vec<u8>) -> (r: [u8; 32])
    ensures
        r@ == sha256d_of(data@),
{
    let h = <sha256d::Hash as bdk::bitcoin::hashes::Hash>::hash(data.as_slice());
    bdk::bitcoin::hashes::Hash::to_byte_array(h)
}

/// Relies on secp256k1's `SecretKey::from_slice`: it accepts only 32-byte
/// strings that encode a valid secret key.
#[verifier::external_body]
pub(crate) fn is_valid_secret_key(key: &Vec<u8>) -> (r: bool)
    ensures
        r == secret_key_ok(key@),
        r ==> key@.len() == 32,
{
    SecretKey::from_slice(key.as_slice()).is_ok()
}

/// Relies on secp256k1's `Secp256k1::sign_ecdsa` (RFC 6979 nonces, so the
/// signature depends on digest and key alone) and `Signature::serialize_der`,
/// whose output holds at most 72 bytes.
#[verifier::external_body]
pub(crate) fn ecdsa_sign_der(digest: &[u8; 32], key: &Vec<u8>) -> (r: Vec<u8>)
    requires
        secret_key_ok(key@),
    ensures
        r@ == ecdsa_der_of(digest@, key@),
        r@.len() <= 72,
{
    let sk = SecretKey::from_slice(key.as_slice()).unwrap();
    let msg = Message::from_slice(digest).unwrap();
    Secp256k1::signing_only().sign_ecdsa(&msg, &sk).serialize_der().to_vec()
}

/// Relies on secp256k1's `PublicKey::from_secret_key` and
/// `PublicKey::serialize`: the 33-byte compressed public key.
#[verifier::external_body]
pub(crate) fn compressed_pubkey(key: &Vec<u8>) -> (r: [u8; 33])
    requires
        secret_key_ok(key@),
    ensures
        r@ == pubkey_of(key@),
{
    let sk = SecretKey::from_slice(key.as_slice()).unwrap();
    PublicKey::from_secret_key(&Secp256k1::signing_only(), &sk).serialize()
}

/// Relies on bitcoin's `Address::from_str` and `Address::script_pubkey`:
/// the locking script of a decodable address, none otherwise.
#[verifier::external_body]
pub(crate) fn address_script(addr: &str) -> (r: Option<Vec<u8>>)
    ensures
        match r {
            Some(s) => address_script_of(addr@) == Some(s@),
            None => address_script_of(addr@) is None,
        },
{
    match Address::from_str(addr) {
        Ok(a) => Some(a.assume_checked().script_pubkey().into_bytes()),
        Err(_) => None,
    }
}

} // verus!
