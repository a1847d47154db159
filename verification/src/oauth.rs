//! The signing engine around the canonicalizer: fresh nonce and timestamp,
//! signing-key derivation, and the HMAC-SHA1/base64 signature over a base
//! string.
use vstd::prelude::*;
use vstd::string::StringSliceAdditionalSpecFns;
use crate::bytes::extend_bytes;
use crate::canonical::{base_string, base_string_spec};
use crate::crypto::{base64_of, hmac_sha1_of, sign_bytes};
use crate::encoding::{percent_encode, percent_encoded};
use crate::strings::{ascii_chars_of, dec_digits, u64_to_string};
use rand::distr::SampleString;

verus! {

/// The signing key derived from the two secrets: each percent-encoded, then
/// joined with `&`. An absent token secret counts as empty.
pub open spec fn signing_key_spec(client_secret: Seq<u8>, token_secret: Seq<u8>) -> Seq<u8> {
    percent_encoded(client_secret) + seq![('&' as u8)] + percent_encoded(token_secret)
}

/// The byte string a possibly absent token secret stands for.
pub open spec fn opt_secret_bytes(t: Option<&str>) -> Seq<u8> {
    match t {
        Some(s) => s.spec_bytes(),
        None => Seq::empty(),
    }
}

/// The signature over a base string under a signing key: base64 of the
/// HMAC-SHA1 tag.
pub open spec fn signature_spec(key: Seq<u8>, data: Seq<u8>) -> Seq<char> {
    base64_of(hmac_sha1_of(key, data))
}

pub open spec fn is_nonce_char(c: char) -> bool {
    ||| 'A' <= c <= 'Z'
    ||| 'a' <= c <= 'z'
    ||| '0' <= c <= '9'
}

/// Relies on rand's Alphanumeric distribution: eight characters drawn
/// uniformly from `A-Z a-z 0-9`. Nothing more is promised of a random value.
#[verifier::external_body]
fn random_alphanumeric8() -> (r: String)
    ensures
        r@.len() == 8,
        forall|i: int| 0 <= i < r@.len() ==> is_nonce_char(r@[i]),
{
    rand::distr::Alphanumeric.sample_string(&mut rand::rng(), 8)
}

/// Relies on std's SystemTime for the clock: seconds since the Unix epoch,
/// or zero on a clock set before the epoch. The value depends on the wall
/// clock, so nothing is promised of it.
#[verifier::external_body]
fn unix_now_secs() -> u64 {
    match std::time::SystemTime::now().duration_since(std::time::SystemTime::UNIX_EPOCH) {
        Ok(d) => d.as_secs(),
        Err(_) => 0,
    }
}

/// The signing engine. It holds no state: every request draws a fresh nonce
/// and timestamp and derives its key from the secrets at hand.
pub struct Oauth;

impl Oauth {
    /// A fresh request nonce: eight alphanumeric characters.
    pub fn nonce() -> (r: String)
        ensures
            r@.len() == 8,
            forall|i: int| 0 <= i < r@.len() ==> is_nonce_char(r@[i]),
    {
        random_alphanumeric8()
    }

    /// The current Unix time as a decimal string.
    pub fn timestamp() -> (r: String)
        ensures
            exists|n: u64| r@ == ascii_chars_of(dec_digits(n as nat)),
    {
        let n = unix_now_secs();
        let r = u64_to_string(n);
        proof {
            assert(r@ == ascii_chars_of(dec_digits(n as nat)));
        }
        r
    }

    /// Derive the signing key from the client secret and the token secret of
    /// the current stage (absent before a token is held).
    pub fn key(client_secret: &str, token_secret: Option<&str>) -> (r: Vec<u8>)
        ensures
            r@ == signing_key_spec(client_secret.spec_bytes(), opt_secret_bytes(token_secret)),
    {
        let mut out = percent_encode(client_secret.as_bytes());
        out.push('&' as u8);
        match token_secret {
            Some(t) => {
                let enc = percent_encode(t.as_bytes());
                extend_bytes(&mut out, enc.as_slice());
            },
            None => {
                proof {
                    assert(percent_encoded(Seq::<u8>::empty()) =~= Seq::<u8>::empty());
                }
            },
        }
        proof {
            assert(out@ =~= signing_key_spec(
                client_secret.spec_bytes(),
                opt_secret_bytes(token_secret),
            ));
        }
        out
    }

    /// Build the canonical base string for the request and sign it under the
    /// key: the signature is determined by the key, the method, the URL and
    /// the parameter multiset alone.
    pub fn create_signature(
        key: &[u8],
        method: &str,
        url: &str,
        params: Vec<(Vec<u8>, Vec<u8>)>,
    ) -> (r: String)
        ensures
            r@ == signature_spec(
                key@,
                base_string_spec(method.spec_bytes(), url.spec_bytes(), params.deep_view()),
            ),
    {
        let data = base_string(method.as_bytes(), url.as_bytes(), params);
        Oauth::sign(key, data.as_slice())
    }

    /// Sign raw bytes under a signing key: base64 of the HMAC-SHA1 tag,
    /// used verbatim as the `oauth_signature` value.
    pub fn sign(key: &[u8], data: &[u8]) -> (r: String)
        ensures
            r@ == signature_spec(key@, data@),
    {
        sign_bytes(key, data)
    }
}

} // verus!
