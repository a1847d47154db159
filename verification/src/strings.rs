//! Bridging bytes and strings: decimal rendering of integers, and the two
//! trusted conversions from bytes back to `String`.
use vstd::prelude::*;
use vstd::string::StrSliceExecFns;
use vstd::string::StringExecFns;
use vstd::utf8::{decode_utf8, is_ascii_chars, valid_utf8};

verus! {

/// The bytes of an ASCII character string, one per character.
pub open spec fn char_bytes(cs: Seq<char>) -> Seq<u8> {
    cs.map(|i: int, c: char| c as u8)
}

/// The bytes of an ASCII string slice, one per character.
pub fn ascii_bytes(s: &str) -> (r: Vec<u8>)
    requires
        is_ascii_chars(s@),
    ensures
        r@ == char_bytes(s@),
{
    let r = s.as_bytes_vec();
    proof {
        vstd::utf8::is_ascii_chars_encode_utf8(s@);
        assert(r@ =~= char_bytes(s@));
    }
    r
}

/// The characters of an ASCII byte string, one char per byte.
pub open spec fn ascii_chars_of(b: Seq<u8>) -> Seq<char> {
    b.map(|i: int, x: u8| x as char)
}

/// The decimal digits of a number, most significant first, no sign and no
/// leading zero (a lone zero for zero).
pub open spec fn dec_digits(n: nat) -> Seq<u8>
    decreases n,
{
    if n < 10 {
        seq![(('0' as u8) + n) as u8]
    } else {
        dec_digits(n / 10) + seq![(('0' as u8) + n % 10) as u8]
    }
}

pub proof fn lemma_dec_digits_ascii(n: nat)
    ensures
        forall|i: int|
            0 <= i < dec_digits(n).len() ==> ('0' as u8) <= #[trigger] dec_digits(n)[i] <= ('9'
                as u8),
    decreases n,
{
    if n >= 10 {
        lemma_dec_digits_ascii(n / 10);
        let a = dec_digits(n / 10);
        assert forall|i: int| 0 <= i < dec_digits(n).len() implies ('0' as u8)
            <= #[trigger] dec_digits(n)[i] <= ('9' as u8) by {
            if i < a.len() {
                assert(dec_digits(n)[i] == a[i]);
            } else {
                assert(dec_digits(n)[i] == (('0' as u8) + n % 10) as u8);
            }
        }
    }
}

/// Append the decimal digits of a number to a byte string.
pub fn push_dec(n: u64, out: &mut Vec<u8>)
    ensures
        final(out)@ == old(out)@ + dec_digits(n as nat),
    decreases n,
{
    if n < 10 {
        out.push(('0' as u8) + (n as u8));
        proof {
            assert(out@ =~= old(out)@ + dec_digits(n as nat));
        }
    } else {
        assert(n / 10 < n && n / 10 >= 1) by (nonlinear_arith)
            requires
                n >= 10,
        ;
        push_dec(n / 10, out);
        out.push(('0' as u8) + ((n % 10) as u8));
        proof {
            assert(out@ =~= old(out)@ + dec_digits(n as nat));
        }
    }
}

/// Relies on std's String::from_utf8: bytes below 128 are valid UTF-8 and
/// decode to exactly those characters.
#[verifier::external_body]
pub fn string_from_ascii(v: Vec<u8>) -> (r: String)
    requires
        forall|i: int| 0 <= i < v@.len() ==> v@[i] < 128,
    ensures
        r@ == ascii_chars_of(v@),
{
    String::from_utf8(v).unwrap()
}

/// Relies on std's String::from_utf8: it returns a string exactly when the
/// bytes are valid UTF-8, and that string decodes them.
#[verifier::external_body]
pub fn string_from_utf8(v: Vec<u8>) -> (r: Option<String>)
    ensures
        r is Some <==> valid_utf8(v@),
        r is Some ==> r->0@ == decode_utf8(v@),
{
    String::from_utf8(v).ok()
}

/// The decimal string of a number.
pub fn u64_to_string(n: u64) -> (r: String)
    ensures
        r@ == ascii_chars_of(dec_digits(n as nat)),
{
    let mut digits: Vec<u8> = Vec::new();
    push_dec(n, &mut digits);
    proof {
        lemma_dec_digits_ascii(n as nat);
        assert(digits@ =~= dec_digits(n as nat));
    }
    string_from_ascii(digits)
}


/// Whether two strings hold the same characters.
pub fn str_eq(a: &str, b: &str) -> (r: bool)
    ensures
        r == (a@ == b@),
{
    let r = crate::bytes::bytes_eq(a.as_bytes(), b.as_bytes());
    proof {
        vstd::utf8::encode_utf8_decode_utf8(a@);
        vstd::utf8::encode_utf8_decode_utf8(b@);
    }
    r
}

/// Strings joined with a separator, in order, nothing at the ends.
pub open spec fn joined_strings(ss: Seq<Seq<char>>, sep: Seq<char>) -> Seq<char>
    decreases ss.len(),
{
    if ss.len() == 0 {
        Seq::empty()
    } else if ss.len() == 1 {
        ss[0]
    } else {
        ss[0] + sep + joined_strings(ss.drop_first(), sep)
    }
}

pub proof fn lemma_joined_strings_push(ss: Seq<Seq<char>>, sep: Seq<char>, l: Seq<char>)
    requires
        ss.len() >= 1,
    ensures
        joined_strings(ss.push(l), sep) == joined_strings(ss, sep) + sep + l,
    decreases ss.len(),
{
    if ss.len() == 1 {
        assert(ss.push(l)[0] == ss[0]);
        assert(ss.push(l).drop_first() =~= seq![l]);
        assert(joined_strings(seq![l], sep) == l);
    } else {
        assert(ss.push(l).drop_first() =~= ss.drop_first().push(l));
        lemma_joined_strings_push(ss.drop_first(), sep, l);
        assert(ss[0] + sep + (joined_strings(ss.drop_first(), sep) + sep + l) =~= (ss[0] + sep
            + joined_strings(ss.drop_first(), sep)) + sep + l);
    }
}

/// Join strings with a separator.
pub fn join_strings(ss: &Vec<String>, sep: &str) -> (r: String)
    ensures
        r@ == joined_strings(ss.deep_view(), sep@),
{
    let mut out = String::new();
    let mut i: usize = 0;
    while i < ss.len()
        invariant
            i <= ss@.len(),
            ss.deep_view().len() == ss@.len(),
            i == 0 ==> out@.len() == 0,
            i > 0 ==> out@ == joined_strings(ss.deep_view().take(i as int), sep@),
        decreases ss@.len() - i,
    {
        if i > 0 {
            out.append(sep);
        }
        out.append(ss[i].as_str());
        proof {
            let dv = ss.deep_view();
            assert(dv[i as int] == ss@[i as int]@);
            if i == 0 {
                assert(dv.take(1)[0] == dv[0]);
                assert(joined_strings(dv.take(1), sep@) == dv[0]);
                assert(out@ =~= dv[0]);
            } else {
                lemma_joined_strings_push(dv.take(i as int), sep@, dv[i as int]);
                assert(dv.take(i + 1 as int) =~= dv.take(i as int).push(dv[i as int]));
            }
        }
        i = i + 1;
    }
    proof {
        let dv = ss.deep_view();
        if ss@.len() == 0 {
            assert(dv =~= Seq::<Seq<char>>::empty());
            assert(out@ =~= joined_strings(dv, sep@));
        } else {
            assert(dv.take(dv.len() as int) =~= dv);
        }
    }
    out
}

} // verus!
