//! The static-credential destination's signing: its upload parameters are
//! hashed with SHA-1 and sent as a hex signature. The multipart transport
//! is the caller's I/O.
use vstd::prelude::*;
use vstd::string::StringSliceAdditionalSpecFns;
use vstd::string::StringExecFns;
use vstd::utf8::{decode_utf8, encode_utf8, valid_utf8};
use crate::strings::{ascii_chars_of, dec_digits, string_from_utf8, u64_to_string};

verus! {

/// The SHA-1 digest of a byte string, written as forty lowercase hex
/// digits.
pub uninterp spec fn sha1_hex_of(data: Seq<u8>) -> Seq<char>;

/// Relies on ring's digest module: the digest is SHA-1 of the input, a
/// function of the input bytes alone, rendered as hex.
#[verifier::external_body]
fn sha1_hex(data: &[u8]) -> (r: String)
    ensures
        r@ == sha1_hex_of(data@),
{
    let d = ring::digest::digest(&ring::digest::SHA1_FOR_LEGACY_USE_ONLY, data);
    format!("{:?}", d).replace("SHA1:", "")
}

/// A title's bytes with each space dashed.
pub open spec fn dashed(b: Seq<u8>) -> Seq<u8> {
    b.map(
        |i: int, x: u8|
            if x == 32 {
                45u8
            } else {
                x
            },
    )
}

/// The string the destination signs: the public id, the joined tags, the
/// timestamp and, directly appended, the API secret.
pub open spec fn params_to_sign(
    public_id: Seq<char>,
    tags: Seq<char>,
    timestamp: nat,
    api_secret: Seq<char>,
) -> Seq<char> {
    "public_id="@ + public_id + "&tags="@ + tags + "&timestamp="@ + ascii_chars_of(
        dec_digits(timestamp),
    ) + api_secret
}

/// The static-credential destination.
pub struct Cloudinary;

impl Cloudinary {
    /// The id the photo is published under: its title, spaces dashed.
    pub fn public_id(title: &str) -> (r: String)
        ensures
            valid_utf8(dashed(title.spec_bytes())) ==> r@ == decode_utf8(
                dashed(title.spec_bytes()),
            ),
            !valid_utf8(dashed(title.spec_bytes())) ==> r@.len() == 0,
    {
        let b = title.as_bytes();
        let mut out: Vec<u8> = Vec::new();
        let mut i: usize = 0;
        while i < b.len()
            invariant
                i <= b@.len(),
                out@ == dashed(b@.take(i as int)),
            decreases b@.len() - i,
        {
            if b[i] == 32 {
                out.push(45);
            } else {
                out.push(b[i]);
            }
            proof {
                assert(dashed(b@.take(i + 1 as int)) =~= dashed(b@.take(i as int)).push(
                    if b@[i as int] == 32 {
                        45u8
                    } else {
                        b@[i as int]
                    },
                ));
            }
            i = i + 1;
        }
        proof {
            assert(b@.take(b@.len() as int) =~= b@);
        }
        match string_from_utf8(out) {
            Some(s) => s,
            None => String::new(),
        }
    }

    /// Sign the upload parameters: SHA-1 of the parameter string, as hex.
    pub fn signature(public_id: &str, tags: &str, timestamp: u64, api_secret: &str) -> (r: String)
        ensures
            r@ == sha1_hex_of(
                encode_utf8(params_to_sign(public_id@, tags@, timestamp as nat, api_secret@)),
            ),
    {
        let mut s = String::from_str("public_id=");
        s.append(public_id);
        s.append("&tags=");
        s.append(tags);
        s.append("&timestamp=");
        let ts = u64_to_string(timestamp);
        s.append(ts.as_str());
        s.append(api_secret);
        proof {
            assert(s@ =~= params_to_sign(public_id@, tags@, timestamp as nat, api_secret@));
        }
        sha1_hex(s.as_str().as_bytes())
    }
}

} // verus!
