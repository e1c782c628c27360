//! Keyed hashing (HMAC) over a selectable hash function.
use hmac::{Hmac, Mac};
use sha1::Sha1;
use sha2::{Sha256, Sha512};
use vstd::prelude::*;

verus! {

/// The hash function used inside HMAC.
#[derive(Clone, Copy, Debug, PartialEq, Eq, Structural)]
pub enum Algorithm {
    Sha1,
    Sha256,
    Sha512,
}

/// The HMAC-SHA1 tag of a message under a key.
pub uninterp spec fn hmac_sha1_tag(key: Seq<u8>, msg: Seq<u8>) -> Seq<u8>;

/// The HMAC-SHA256 tag of a message under a key.
pub uninterp spec fn hmac_sha256_tag(key: Seq<u8>, msg: Seq<u8>) -> Seq<u8>;

/// The HMAC-SHA512 tag of a message under a key.
pub uninterp spec fn hmac_sha512_tag(key: Seq<u8>, msg: Seq<u8>) -> Seq<u8>;

/// Length in bytes of the tag that an algorithm produces.
pub open spec fn digest_len(alg: Algorithm) -> nat {
    match alg {
        Algorithm::Sha1 => 20,
        Algorithm::Sha256 => 32,
        Algorithm::Sha512 => 64,
    }
}

/// The HMAC tag of `msg` under `key` with the hash function that `alg` selects.
pub open spec fn hmac_tag(alg: Algorithm, key: Seq<u8>, msg: Seq<u8>) -> Seq<u8> {
    match alg {
        Algorithm::Sha1 => hmac_sha1_tag(key, msg),
        Algorithm::Sha256 => hmac_sha256_tag(key, msg),
        Algorithm::Sha512 => hmac_sha512_tag(key, msg),
    }
}

/// Relies on `Hmac<Sha1>` of the hmac and sha1 crates: a key of any length is
/// accepted (long keys are hashed first), and the tag is the 20-byte SHA-1 output.
#[verifier::external_body]
fn mac_sha1(key: &[u8], data: &[u8]) -> (r: Vec<u8>)
    ensures
        r@ == hmac_sha1_tag(key@, data@),
        r@.len() == 20,
{
    let mut mac = <Hmac<Sha1> as Mac>::new_from_slice(key).expect("HMAC takes keys of any length");
    mac.update(data);
    mac.finalize().into_bytes().to_vec()
}

/// Relies on `Hmac<Sha256>` of the hmac and sha2 crates: a key of any length is
/// accepted, and the tag is the 32-byte SHA-256 output.
#[verifier::external_body]
fn mac_sha256(key: &[u8], data: &[u8]) -> (r: Vec<u8>)
    ensures
        r@ == hmac_sha256_tag(key@, data@),
        r@.len() == 32,
{
    let mut mac = <Hmac<Sha256> as Mac>::new_from_slice(key).expect("HMAC takes keys of any length");
    mac.update(data);
    mac.finalize().into_bytes().to_vec()
}

/// Relies on `Hmac<Sha512>` of the hmac and sha2 crates: a key of any length is
/// accepted, and the tag is the 64-byte SHA-512 output.
#[verifier::external_body]
fn mac_sha512(key: &[u8], data: &[u8]) -> (r: Vec<u8>)
    ensures
        r@ == hmac_sha512_tag(key@, data@),
        r@.len() == 64,
{
    let mut mac = <Hmac<Sha512> as Mac>::new_from_slice(key).expect("HMAC takes keys of any length");
    mac.update(data);
    mac.finalize().into_bytes().to_vec()
}

impl Algorithm {
    /// Computes HMAC over `data` with `key`, using this algorithm's hash function.
    pub fn hmac(&self, key: Vec<u8>, data: &[u8]) -> (r: Vec<u8>)
        ensures
            r@ == hmac_tag(*self, key@, data@),
            r@.len() == digest_len(*self),
    {
        match self {
            Algorithm::Sha1 => mac_sha1(key.as_slice(), data),
            Algorithm::Sha256 => mac_sha256(key.as_slice(), data),
            Algorithm::Sha512 => mac_sha512(key.as_slice(), data),
        }
    }

    /// Length in bytes of the tag that this algorithm produces.
    pub fn digest_len(&self) -> (r: usize)
        ensures
            r == digest_len(*self),
    {
        match self {
            Algorithm::Sha1 => 20,
            Algorithm::Sha256 => 32,
            Algorithm::Sha512 => 64,
        }
    }
}

} // verus!
