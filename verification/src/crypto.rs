//! The signature engine's cryptographic primitives, called through trusted
//! wrappers: HMAC-SHA1 from ring and the standard base64 alphabet from the
//! base64 crate. Their results are named, not restated: `hmac_sha1_of` and
//! `base64_of` stand for whatever those functions compute, as functions of
//! the input bytes alone.
use vstd::prelude::*;
use base64::Engine;

verus! {

/// The HMAC-SHA1 tag of the data under the key.
pub uninterp spec fn hmac_sha1_of(key: Seq<u8>, data: Seq<u8>) -> Seq<u8>;

/// The base64 encoding (standard alphabet, padded) of a byte string.
pub uninterp spec fn base64_of(data: Seq<u8>) -> Seq<char>;

/// Relies on ring's hmac module: the tag is HMAC-SHA1 of the data under the
/// key, twenty bytes, a function of key and data alone.
#[verifier::external_body]
pub fn hmac_sha1(key: &[u8], data: &[u8]) -> (r: Vec<u8>)
    ensures
        r@ == hmac_sha1_of(key@, data@),
        r@.len() == 20,
{
    let k = ring::hmac::Key::new(ring::hmac::HMAC_SHA1_FOR_LEGACY_USE_ONLY, key);
    ring::hmac::sign(&k, data).as_ref().to_vec()
}

/// Relies on base64's standard engine with padding: the encoding is a
/// function of the input bytes alone, four output characters for every
/// three input bytes begun.
#[verifier::external_body]
pub fn base64_encode(data: &[u8]) -> (r: String)
    ensures
        r@ == base64_of(data@),
        r@.len() == 4 * ((data@.len() + 2) / 3),
{
    base64::engine::general_purpose::STANDARD.encode(data)
}

/// Sign raw bytes: base64 of the HMAC-SHA1 tag under the key, used verbatim
/// as the `oauth_signature` parameter value.
pub fn sign_bytes(key: &[u8], data: &[u8]) -> (r: String)
    ensures
        r@ == base64_of(hmac_sha1_of(key@, data@)),
        r@.len() == 28,
{
    let tag = hmac_sha1(key, data);
    base64_encode(tag.as_slice())
}

} // verus!
