//! The single-shot callback listener's parsing half: given the first
//! request line of the one inbound connection (`GET /?query HTTP/1.1`), it
//! extracts the `oauth_verifier` value from the query string, and it builds
//! the fixed confirmation response. Binding the socket, reading the line
//! and writing the response are the caller's I/O.
use vstd::prelude::*;
use vstd::string::StringSliceAdditionalSpecFns;
use vstd::string::StringExecFns;
use vstd::utf8::{decode_utf8, valid_utf8};
use crate::OauthError;
use crate::encoding::{query_decode, query_decoded};
use crate::form::{find_byte_from, find_byte_spec, form_pairs, kv_split, kv_split_exec,
    lookup_first, split_bytes, split_on, bytes_range};
use crate::strings::{ascii_chars_of, dec_digits, string_from_utf8, u64_to_string};

verus! {

/// ASCII whitespace, all a request line can carry between its tokens.
pub open spec fn is_ws(b: u8) -> bool {
    b == 32 || b == 9 || b == 13 || b == 10
}

/// A byte string with its leading whitespace dropped.
pub open spec fn drop_ws(s: Seq<u8>) -> Seq<u8>
    decreases s.len(),
{
    if s.len() > 0 && is_ws(s[0]) {
        drop_ws(s.drop_first())
    } else {
        s
    }
}

/// A byte string with its leading non-whitespace token dropped.
pub open spec fn drop_tok(s: Seq<u8>) -> Seq<u8>
    decreases s.len(),
{
    if s.len() > 0 && !is_ws(s[0]) {
        drop_tok(s.drop_first())
    } else {
        s
    }
}

/// The leading non-whitespace token of a byte string.
pub open spec fn take_tok(s: Seq<u8>) -> Seq<u8>
    decreases s.len(),
{
    if s.len() > 0 && !is_ws(s[0]) {
        seq![s[0]] + take_tok(s.drop_first())
    } else {
        Seq::empty()
    }
}

/// The second whitespace-separated token: in a request line, the target.
pub open spec fn second_token(s: Seq<u8>) -> Seq<u8> {
    take_tok(drop_ws(drop_tok(drop_ws(s))))
}

/// The query string of a request target: what follows the first `?`.
pub open spec fn query_of_target(t: Seq<u8>) -> Option<Seq<u8>> {
    match find_byte_spec(t, ('?' as u8)) {
        Some(i) => Some(t.skip(i + 1)),
        None => None,
    }
}

/// The query string's pairs with keys and values decoded.
pub open spec fn query_pairs_decoded(q: Seq<u8>) -> Seq<(Seq<u8>, Seq<u8>)> {
    form_pairs(q).map(
        |i: int, p: (Seq<u8>, Seq<u8>)| (query_decoded(p.0), query_decoded(p.1)),
    )
}

/// The bytes of the query key the listener looks for: `oauth_verifier`.
pub open spec fn verifier_key() -> Seq<u8> {
    seq![
        ('o' as u8),
        ('a' as u8),
        ('u' as u8),
        ('t' as u8),
        ('h' as u8),
        ('_' as u8),
        ('v' as u8),
        ('e' as u8),
        ('r' as u8),
        ('i' as u8),
        ('f' as u8),
        ('i' as u8),
        ('e' as u8),
        ('r' as u8),
    ]
}

/// The verifier a captured request line carries: the decoded value of the
/// first `oauth_verifier` pair of the second token's query string, if the
/// line has a second token, that token has a query string, and the key is
/// there.
pub open spec fn verifier_of_request_line(line: Seq<u8>) -> Option<Seq<u8>> {
    let tok = second_token(line);
    if tok.len() == 0 {
        None
    } else {
        match query_of_target(tok) {
            Some(q) => lookup_first(query_pairs_decoded(q), verifier_key()),
            None => None,
        }
    }
}

fn is_ws_exec(b: u8) -> (r: bool)
    ensures
        r == is_ws(b),
{
    b == 32 || b == 9 || b == 13 || b == 10
}

/// Position after the whitespace run starting at `i`.
fn skip_ws(s: &[u8], i: usize) -> (r: usize)
    requires
        i <= s@.len(),
    ensures
        i <= r <= s@.len(),
        drop_ws(s@.skip(i as int)) == s@.skip(r as int),
    decreases s@.len() - i,
{
    proof {
        assert(s@.skip(i as int).len() == s@.len() - i);
        if i < s@.len() {
            assert(s@.skip(i as int)[0] == s@[i as int]);
            assert(s@.skip(i as int).drop_first() =~= s@.skip(i + 1 as int));
        }
    }
    if i < s.len() && is_ws_exec(s[i]) {
        skip_ws(s, i + 1)
    } else {
        i
    }
}

/// Position after the non-whitespace token starting at `i`; the token is
/// exactly the bytes between.
fn skip_tok(s: &[u8], i: usize) -> (r: usize)
    requires
        i <= s@.len(),
    ensures
        i <= r <= s@.len(),
        drop_tok(s@.skip(i as int)) == s@.skip(r as int),
        take_tok(s@.skip(i as int)) == s@.subrange(i as int, r as int),
    decreases s@.len() - i,
{
    proof {
        assert(s@.skip(i as int).len() == s@.len() - i);
        if i < s@.len() {
            assert(s@.skip(i as int)[0] == s@[i as int]);
            assert(s@.skip(i as int).drop_first() =~= s@.skip(i + 1 as int));
        }
    }
    if i < s.len() && !is_ws_exec(s[i]) {
        let r = skip_tok(s, i + 1);
        proof {
            assert(take_tok(s@.skip(i as int)) =~= seq![s@[i as int]] + s@.subrange(
                i + 1 as int,
                r as int,
            ));
            assert(take_tok(s@.skip(i as int)) =~= s@.subrange(i as int, r as int));
        }
        r
    } else {
        proof {
            assert(take_tok(s@.skip(i as int)) =~= s@.subrange(i as int, i as int));
        }
        i
    }
}

/// The `oauth_verifier` key as bytes.
fn verifier_key_exec() -> (r: Vec<u8>)
    ensures
        r@ == verifier_key(),
{
    let mut k: Vec<u8> = Vec::new();
    k.push('o' as u8);
    k.push('a' as u8);
    k.push('u' as u8);
    k.push('t' as u8);
    k.push('h' as u8);
    k.push('_' as u8);
    k.push('v' as u8);
    k.push('e' as u8);
    k.push('r' as u8);
    k.push('i' as u8);
    k.push('f' as u8);
    k.push('i' as u8);
    k.push('e' as u8);
    k.push('r' as u8);
    proof {
        assert(k@ =~= verifier_key());
    }
    k
}

proof fn lemma_lookup_first_skip(ps: Seq<(Seq<u8>, Seq<u8>)>, key: Seq<u8>, i: int)
    requires
        0 <= i <= ps.len(),
        forall|t: int| 0 <= t < i ==> (#[trigger] ps[t]).0 != key,
    ensures
        lookup_first(ps, key) == lookup_first(ps.skip(i), key),
    decreases i,
{
    if i > 0 {
        let tl = ps.drop_first();
        assert(ps.first() == ps[0]);
        assert(forall|t: int| 0 <= t < i - 1 ==> (#[trigger] tl[t]) == ps[t + 1]);
        lemma_lookup_first_skip(tl, key, i - 1);
        assert(tl.skip(i - 1) =~= ps.skip(i));
    } else {
        assert(ps.skip(0) =~= ps);
    }
}

/// The single-use local listener for the authorization redirect. The I/O
/// around it accepts one connection, hands the first request line here, and
/// writes back the confirmation response.
pub struct CallbackListener;

impl CallbackListener {
    /// Extract the verifier from a captured first request line. The request
    /// target is the line's second token; its query string must carry an
    /// `oauth_verifier` pair whose decoded value is the verifier. A line
    /// without such a pair, or a verifier that is not a well-formed string,
    /// is a malformed response.
    pub fn verifier_from_request_line(line: &str) -> (r: Result<String, OauthError>)
        ensures
            match r {
                Ok(v) => verifier_of_request_line(line.spec_bytes()) matches Some(b)
                    && valid_utf8(b) && v@ == decode_utf8(b),
                Err(e) => e is MalformedResponse && match verifier_of_request_line(
                    line.spec_bytes(),
                ) {
                    Some(b) => !valid_utf8(b),
                    None => true,
                },
            },
    {
        let s = line.as_bytes();
        let i1 = skip_ws(s, 0);
        let i2 = skip_tok(s, i1);
        let i3 = skip_ws(s, i2);
        let i4 = skip_tok(s, i3);
        proof {
            assert(s@.skip(0) =~= s@);
            assert(second_token(s@) == s@.subrange(i3 as int, i4 as int));
        }
        if i3 == i4 {
            return Err(
                OauthError::MalformedResponse(
                    Some(String::from_str("authorization redirect request line has no target")),
                ),
            );
        }
        let target = bytes_range(s, i3, i4);
        proof {
            assert(target@ =~= second_token(line.spec_bytes()));
            assert(target@.skip(0) =~= target@);
        }
        let qpos = match find_byte_from(target.as_slice(), '?' as u8, 0) {
            Some(p) => p,
            None => {
                return Err(
                    OauthError::MalformedResponse(
                        Some(String::from_str("authorization redirect carries no query string")),
                    ),
                );
            },
        };
        let query = bytes_range(target.as_slice(), qpos + 1, target.len());
        proof {
            assert(query@ =~= target@.skip(qpos + 1 as int));
            assert(query_of_target(second_token(line.spec_bytes())) == Some(query@));
        }
        let key = verifier_key_exec();
        let segs = split_bytes(query.as_slice(), '&' as u8);
        let ghost qpd = query_pairs_decoded(query@);
        proof {
            assert(segs.deep_view().len() == qpd.len());
        }
        let mut i: usize = 0;
        while i < segs.len()
            invariant
                i <= segs@.len(),
                segs@.len() == segs.deep_view().len(),
                segs.deep_view() == split_on(query@, ('&' as u8)),
                qpd == query_pairs_decoded(query@),
                qpd.len() == segs@.len(),
                forall|t: int| 0 <= t < i ==> (#[trigger] qpd[t]).0 != verifier_key(),
                key@ == verifier_key(),
                query_of_target(second_token(line.spec_bytes())) == Some(query@),
                second_token(line.spec_bytes()).len() > 0,
            decreases segs@.len() - i,
        {
            proof {
                assert(segs@[i as int]@ =~= segs.deep_view()[i as int]);
            }
            let (pk, pv, _has_eq) = kv_split_exec(segs[i].as_slice());
            let dk = query_decode(pk.as_slice());
            proof {
                assert(qpd[i as int] == (
                    query_decoded(kv_split(segs.deep_view()[i as int]).0),
                    query_decoded(kv_split(segs.deep_view()[i as int]).1),
                ));
                assert(dk@ == qpd[i as int].0);
            }
            if crate::bytes::bytes_eq(dk.as_slice(), key.as_slice()) {
                let dv = query_decode(pv.as_slice());
                proof {
                    assert(dv@ == qpd[i as int].1);
                    lemma_lookup_first_skip(qpd, verifier_key(), i as int);
                    assert(qpd.skip(i as int).first() == qpd[i as int]);
                    assert(lookup_first(qpd, verifier_key()) == Some(qpd[i as int].1));
                }
                return match string_from_utf8(dv) {
                    Some(v) => Ok(v),
                    None => Err(
                        OauthError::MalformedResponse(
                            Some(String::from_str("verifier is not well-formed text")),
                        ),
                    ),
                };
            }
            i = i + 1;
        }
        proof {
            lemma_lookup_first_skip(qpd, verifier_key(), qpd.len() as int);
            assert(qpd.skip(qpd.len() as int) =~= Seq::<(Seq<u8>, Seq<u8>)>::empty());
        }
        Err(
            OauthError::MalformedResponse(
                Some(String::from_str("authorization redirect carries no verifier")),
            ),
        )
    }

    /// The confirmation the listener answers the one redirect with: a
    /// success status line, the body's byte length, and a short
    /// human-readable body.
    pub fn http_ok_response(message: &str) -> (r: String)
        ensures
            r@ == "HTTP/1.1 200 OK\r\ncontent-length: "@ + ascii_chars_of(
                dec_digits(message.spec_bytes().len()),
            ) + "\r\n\r\n"@ + message@,
    {
        let mut out = String::from_str("HTTP/1.1 200 OK\r\ncontent-length: ");
        let mb = message.as_bytes();
        let len_str = u64_to_string(mb.len() as u64);
        out.append(len_str.as_str());
        out.append("\r\n\r\n");
        out.append(message);
        proof {
            assert(out@ =~= "HTTP/1.1 200 OK\r\ncontent-length: "@ + ascii_chars_of(
                dec_digits(message.spec_bytes().len()),
            ) + "\r\n\r\n"@ + message@);
        }
        out
    }
}

} // verus!
