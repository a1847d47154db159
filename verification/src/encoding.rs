//! Percent-encoding of bytes as the signing protocol requires it: the
//! unreserved bytes `A-Z a-z 0-9 - . _ ~` stand for themselves, every other
//! byte becomes `%XX` with two uppercase hex digits. Decoding is the inverse
//! used on captured callback query strings, where `+` also stands for a
//! space and an ill-formed escape is passed through unchanged.
use vstd::prelude::*;

verus! {

/// A byte the encoding leaves unescaped.
pub open spec fn is_unreserved(b: u8) -> bool {
    ||| ('A' as u8) <= b <= ('Z' as u8)
    ||| ('a' as u8) <= b <= ('z' as u8)
    ||| ('0' as u8) <= b <= ('9' as u8)
    ||| b == ('-' as u8)
    ||| b == ('.' as u8)
    ||| b == ('_' as u8)
    ||| b == ('~' as u8)
}

/// The uppercase hex digit for a value below sixteen.
pub open spec fn hex_digit(n: u8) -> u8
    recommends
        n < 16,
{
    if n < 10 {
        (('0' as u8) + n) as u8
    } else {
        (('A' as u8) + (n - 10)) as u8
    }
}

pub open spec fn is_upper_hex_digit(b: u8) -> bool {
    ('0' as u8) <= b <= ('9' as u8) || ('A' as u8) <= b <= ('F' as u8)
}

/// The numeric value of a hex digit, upper or lower case.
pub open spec fn hex_value(b: u8) -> u8
    recommends
        is_hex_digit(b),
{
    if ('0' as u8) <= b <= ('9' as u8) {
        (b - ('0' as u8)) as u8
    } else if ('A' as u8) <= b <= ('F' as u8) {
        (b - ('A' as u8) + 10) as u8
    } else {
        (b - ('a' as u8) + 10) as u8
    }
}

pub open spec fn is_hex_digit(b: u8) -> bool {
    ||| ('0' as u8) <= b <= ('9' as u8)
    ||| ('A' as u8) <= b <= ('F' as u8)
    ||| ('a' as u8) <= b <= ('f' as u8)
}

/// What one byte of input contributes to the encoded output.
pub open spec fn encoded_byte(b: u8) -> Seq<u8> {
    if is_unreserved(b) {
        seq![b]
    } else {
        seq![('%' as u8), hex_digit(b / 16), hex_digit(b % 16)]
    }
}

/// The percent-encoding of a whole byte string.
pub open spec fn percent_encoded(s: Seq<u8>) -> Seq<u8>
    decreases s.len(),
{
    if s.len() == 0 {
        Seq::empty()
    } else {
        encoded_byte(s[0]) + percent_encoded(s.drop_first())
    }
}

pub proof fn lemma_percent_encoded_concat(a: Seq<u8>, b: Seq<u8>)
    ensures
        percent_encoded(a + b) =~= percent_encoded(a) + percent_encoded(b),
    decreases a.len(),
{
    if a.len() == 0 {
        assert(a + b =~= b);
        assert(percent_encoded(a) =~= Seq::<u8>::empty());
    } else {
        assert((a + b).drop_first() =~= a.drop_first() + b);
        lemma_percent_encoded_concat(a.drop_first(), b);
    }
}

/// Percent-encoding leaves the unreserved bytes `A-Z a-z 0-9 - . _ ~`
/// unescaped and turns every other byte into `%` followed by its two
/// uppercase hex digits.
pub proof fn lemma_percent_encoding_shape(b: u8)
    ensures
        is_unreserved(b) ==> percent_encoded(seq![b]) =~= seq![b],
        !is_unreserved(b) ==> percent_encoded(seq![b]) =~= seq![
            ('%' as u8),
            hex_digit(b / 16),
            hex_digit(b % 16),
        ],
        is_upper_hex_digit(hex_digit(b / 16)),
        is_upper_hex_digit(hex_digit(b % 16)),
        hex_value(hex_digit(b / 16)) == b / 16,
        hex_value(hex_digit(b % 16)) == b % 16,
{
    let s = seq![b];
    assert(s.len() == 1 && s[0] == b);
    assert(s.drop_first() =~= Seq::<u8>::empty());
    assert(percent_encoded(s) == encoded_byte(b) + percent_encoded(Seq::<u8>::empty()));
    assert(encoded_byte(b) + Seq::<u8>::empty() =~= encoded_byte(b));
}

/// Encode a byte string, escaping everything outside the unreserved set.
pub fn percent_encode(input: &[u8]) -> (r: Vec<u8>)
    ensures
        r@ == percent_encoded(input@),
{
    let mut out: Vec<u8> = Vec::new();
    let mut i: usize = 0;
    while i < input.len()
        invariant
            i <= input.len(),
            out@ == percent_encoded(input@.take(i as int)),
        decreases input.len() - i,
    {
        let b = input[i];
        proof {
            assert(input@.take(i + 1 as int) =~= input@.take(i as int) + seq![input@[i as int]]);
            lemma_percent_encoded_concat(input@.take(i as int), seq![input@[i as int]]);
            lemma_percent_encoding_shape(input@[i as int]);
        }
        if (('A' as u8) <= b && b <= ('Z' as u8)) || (('a' as u8) <= b && b <= ('z' as u8)) || (('0'
            as u8) <= b && b <= ('9' as u8)) || b == ('-' as u8) || b == ('.' as u8) || b == ('_'
            as u8) || b == ('~' as u8) {
            out.push(b);
        } else {
            out.push('%' as u8);
            let hi = b / 16;
            let lo = b % 16;
            out.push(if hi < 10 { ('0' as u8) + hi } else { ('A' as u8) + (hi - 10) });
            out.push(if lo < 10 { ('0' as u8) + lo } else { ('A' as u8) + (lo - 10) });
        }
        i = i + 1;
    }
    proof {
        assert(input@.take(input@.len() as int) =~= input@);
    }
    out
}

/// What a query-string decoder makes of its input, one step at a time: a
/// `%` followed by two hex digits becomes that byte, `+` becomes a space,
/// anything else (an ill-formed escape included) stands for itself.
pub open spec fn query_decoded(s: Seq<u8>) -> Seq<u8>
    decreases s.len(),
{
    if s.len() == 0 {
        Seq::empty()
    } else if s[0] == ('%' as u8) && s.len() >= 3 && is_hex_digit(s[1]) && is_hex_digit(s[2]) {
        seq![(16 * hex_value(s[1]) + hex_value(s[2])) as u8] + query_decoded(s.skip(3))
    } else if s[0] == ('+' as u8) {
        seq![(' ' as u8)] + query_decoded(s.drop_first())
    } else {
        seq![s[0]] + query_decoded(s.drop_first())
    }
}

/// Decode a query-string value: inverse of the encoding, with `+` read as a
/// space, as the authorization callback's query string uses it.
pub fn query_decode(input: &[u8]) -> (r: Vec<u8>)
    ensures
        r@ == query_decoded(input@),
{
    let mut out: Vec<u8> = Vec::new();
    let mut i: usize = 0;
    proof {
        assert(input@.skip(0) =~= input@);
    }
    while i < input.len()
        invariant
            i <= input.len(),
            out@ + query_decoded(input@.skip(i as int)) == query_decoded(input@),
        decreases input.len() - i,
    {
        let b = input[i];
        proof {
            assert(input@.skip(i as int).len() == input@.len() - i);
            assert(input@.skip(i as int)[0] == input@[i as int]);
        }
        if b == ('%' as u8) && input.len() - i >= 3 && hex_digit_value(input[i + 1]).is_some()
            && hex_digit_value(input[i + 2]).is_some() {
            let hi = hex_digit_value(input[i + 1]).unwrap();
            let lo = hex_digit_value(input[i + 2]).unwrap();
            proof {
                assert(input@.skip(i as int)[1] == input@[i + 1 as int]);
                assert(input@.skip(i as int)[2] == input@[i + 2 as int]);
                assert(input@.skip(i as int).skip(3) =~= input@.skip(i + 3 as int));
            }
            out.push(16 * hi + lo);
            i = i + 3;
        } else {
            proof {
                assert(input@.skip(i as int).drop_first() =~= input@.skip(i + 1 as int));
            }
            if b == ('+' as u8) {
                out.push(' ' as u8);
            } else {
                out.push(b);
            }
            i = i + 1;
        }
    }
    proof {
        assert(input@.skip(input@.len() as int) =~= Seq::<u8>::empty());
        assert(out@ + Seq::<u8>::empty() =~= out@);
    }
    out
}

/// The numeric value of a hex digit, or nothing for any other byte.
pub fn hex_digit_value(b: u8) -> (r: Option<u8>)
    ensures
        r is Some <==> is_hex_digit(b),
        r is Some ==> r->0 == hex_value(b) && r->0 < 16,
{
    if ('0' as u8) <= b && b <= ('9' as u8) {
        Some(b - ('0' as u8))
    } else if ('A' as u8) <= b && b <= ('F' as u8) {
        Some(b - ('A' as u8) + 10)
    } else if ('a' as u8) <= b && b <= ('f' as u8) {
        Some(b - ('a' as u8) + 10)
    } else {
        None
    }
}

} // verus!
