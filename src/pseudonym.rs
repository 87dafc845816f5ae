//! Beneficiary pseudonyms: a SHA-256 digest of the salt, the name and the pin.
use soroban_sdk::Env;
use vstd::prelude::*;

use crate::bytes::append_bytes;

verus! {

/// The host environment through which the digest is computed.
#[verifier::external_type_specification]
#[verifier::external_body]
pub struct ExEnv(Env);

/// The SHA-256 digest of a byte string.
pub uninterp spec fn sha256_of(data: Seq<u8>) -> Seq<u8>;

/// Relies on soroban_sdk's `Crypto::sha256`: the SHA-256 digest of the bytes,
/// which depends on the bytes alone and is 32 bytes long.
#[verifier::external_body]
fn sha256(env: &Env, data: &Vec<u8>) -> (r: [u8; 32])
    ensures
        r@ == sha256_of(data@),
{
    let bytes = soroban_sdk::Bytes::from_slice(env, data.as_slice());
    env.crypto().sha256(&bytes).to_array()
}

/// The byte string that is hashed into a pseudonym: salt, name and pin, in
/// that order.
pub open spec fn preimage(salt: Seq<u8>, name: Seq<u8>, pin: Seq<u8>) -> Seq<u8> {
    salt + name + pin
}

/// The pseudonym of the beneficiary with this name and pin under this salt.
pub open spec fn pseudonym_of(salt: Seq<u8>, name: Seq<u8>, pin: Seq<u8>) -> Seq<u8> {
    sha256_of(preimage(salt, name, pin))
}

/// Derives the pseudonymised beneficiary id from the salt, name and pin.
pub fn derive(env: &Env, salt: &[u8; 32], name: &[u8], pin: &[u8]) -> (r: [u8; 32])
    ensures
        r@ == pseudonym_of(salt@, name@, pin@),
{
    let mut data: Vec<u8> = Vec::new();
    append_bytes(&mut data, salt.as_slice());
    append_bytes(&mut data, name);
    append_bytes(&mut data, pin);
    sha256(env, &data)
}

/// Deriving is deterministic: equal salts, names and pins give equal ids.
pub proof fn lemma_derive_deterministic(
    salt1: Seq<u8>,
    name1: Seq<u8>,
    pin1: Seq<u8>,
    salt2: Seq<u8>,
    name2: Seq<u8>,
    pin2: Seq<u8>,
)
    requires
        salt1 == salt2,
        name1 == name2,
        pin1 == pin2,
    ensures
        pseudonym_of(salt1, name1, pin1) == pseudonym_of(salt2, name2, pin2),
{
}

} // verus!
