//! Small byte-string helpers the rest of the crate builds on: equality,
//! byte-wise lexicographic order (with the proofs that it is a total order,
//! which parameter sorting rests on), and ASCII case mapping.
use vstd::prelude::*;

verus! {

/// Byte-wise lexicographic "less than or equal" on byte strings, a prefix
/// ordering before the first differing byte.
pub open spec fn lex_leq(a: Seq<u8>, b: Seq<u8>) -> bool
    decreases a.len(),
{
    if a.len() == 0 {
        true
    } else if b.len() == 0 {
        false
    } else if a[0] < b[0] {
        true
    } else if a[0] > b[0] {
        false
    } else {
        lex_leq(a.drop_first(), b.drop_first())
    }
}

pub proof fn lemma_lex_leq_reflexive(a: Seq<u8>)
    ensures
        lex_leq(a, a),
    decreases a.len(),
{
    if a.len() > 0 {
        lemma_lex_leq_reflexive(a.drop_first());
    }
}

pub proof fn lemma_lex_leq_antisymmetric(a: Seq<u8>, b: Seq<u8>)
    requires
        lex_leq(a, b),
        lex_leq(b, a),
    ensures
        a == b,
    decreases a.len(),
{
    if a.len() == 0 {
        assert(b.len() == 0);
        assert(a =~= b);
    } else {
        let at = a.drop_first();
        let bt = b.drop_first();
        lemma_lex_leq_antisymmetric(at, bt);
        assert(b.len() > 0);
        assert(a.len() == b.len());
        assert forall|i: int| 0 <= i < a.len() implies a[i] == b[i] by {
            if i > 0 {
                assert(a[i] == at[i - 1]);
                assert(b[i] == bt[i - 1]);
            }
        }
        assert(a =~= b);
    }
}

pub proof fn lemma_lex_leq_transitive(a: Seq<u8>, b: Seq<u8>, c: Seq<u8>)
    requires
        lex_leq(a, b),
        lex_leq(b, c),
    ensures
        lex_leq(a, c),
    decreases a.len(),
{
    if a.len() > 0 && b.len() > 0 && c.len() > 0 {
        if a[0] == b[0] && b[0] == c[0] {
            lemma_lex_leq_transitive(a.drop_first(), b.drop_first(), c.drop_first());
        }
    }
}

pub proof fn lemma_lex_leq_connected(a: Seq<u8>, b: Seq<u8>)
    ensures
        lex_leq(a, b) || lex_leq(b, a),
    decreases a.len(),
{
    if a.len() > 0 && b.len() > 0 && a[0] == b[0] {
        lemma_lex_leq_connected(a.drop_first(), b.drop_first());
    }
}

/// Compare the suffixes of two byte strings from position `i` on.
fn lex_leq_from(a: &[u8], b: &[u8], i: usize) -> (r: bool)
    requires
        i <= a@.len(),
        i <= b@.len(),
    ensures
        r == lex_leq(a@.skip(i as int), b@.skip(i as int)),
    decreases a@.len() - i,
{
    proof {
        assert(a@.skip(i as int).len() == a@.len() - i);
        assert(b@.skip(i as int).len() == b@.len() - i);
    }
    if i == a.len() {
        true
    } else if i == b.len() {
        false
    } else {
        proof {
            assert(a@.skip(i as int)[0] == a@[i as int]);
            assert(b@.skip(i as int)[0] == b@[i as int]);
            assert(a@.skip(i as int).drop_first() =~= a@.skip(i + 1 as int));
            assert(b@.skip(i as int).drop_first() =~= b@.skip(i + 1 as int));
        }
        if a[i] < b[i] {
            true
        } else if a[i] > b[i] {
            false
        } else {
            lex_leq_from(a, b, i + 1)
        }
    }
}

/// Byte-wise lexicographic comparison of two byte strings.
pub fn lex_leq_bytes(a: &[u8], b: &[u8]) -> (r: bool)
    ensures
        r == lex_leq(a@, b@),
{
    proof {
        assert(a@.skip(0) =~= a@);
        assert(b@.skip(0) =~= b@);
    }
    lex_leq_from(a, b, 0)
}

/// Whether two byte strings hold the same bytes.
pub fn bytes_eq(a: &[u8], b: &[u8]) -> (r: bool)
    ensures
        r == (a@ == b@),
{
    if a.len() != b.len() {
        return false;
    }
    let mut i: usize = 0;
    while i < a.len()
        invariant
            i <= a@.len(),
            a@.len() == b@.len(),
            forall|k: int| 0 <= k < i ==> a@[k] == b@[k],
        decreases a@.len() - i,
    {
        if a[i] != b[i] {
            return false;
        }
        i = i + 1;
    }
    proof {
        assert(a@ =~= b@);
    }
    true
}

/// The ASCII upper-case image of a byte: letters `a-z` map to `A-Z`,
/// everything else stays itself.
pub open spec fn upper_byte(b: u8) -> u8 {
    if ('a' as u8) <= b <= ('z' as u8) {
        (b - 32) as u8
    } else {
        b
    }
}

/// Upper-case a byte string, ASCII letters only.
pub fn to_ascii_upper(input: &[u8]) -> (r: Vec<u8>)
    ensures
        r@ == input@.map(|i: int, b: u8| upper_byte(b)),
{
    let mut out: Vec<u8> = Vec::new();
    let mut i: usize = 0;
    while i < input.len()
        invariant
            i <= input@.len(),
            out@ == input@.take(i as int).map(|k: int, b: u8| upper_byte(b)),
        decreases input@.len() - i,
    {
        let b = input[i];
        if ('a' as u8) <= b && b <= ('z' as u8) {
            out.push(b - 32);
        } else {
            out.push(b);
        }
        proof {
            assert(input@.take(i + 1 as int).map(|k: int, b: u8| upper_byte(b)) =~= input@.take(
                i as int,
            ).map(|k: int, b: u8| upper_byte(b)).push(upper_byte(input@[i as int])));
        }
        i = i + 1;
    }
    proof {
        assert(input@.take(input@.len() as int) =~= input@);
    }
    out
}

/// Append one byte string to another.
pub fn extend_bytes(out: &mut Vec<u8>, piece: &[u8])
    ensures
        final(out)@ == old(out)@ + piece@,
{
    let mut i: usize = 0;
    while i < piece.len()
        invariant
            i <= piece@.len(),
            out@ == old(out)@ + piece@.take(i as int),
        decreases piece@.len() - i,
    {
        out.push(piece[i]);
        proof {
            assert(old(out)@ + piece@.take(i + 1 as int) =~= (old(out)@ + piece@.take(
                i as int,
            )).push(piece@[i as int]));
        }
        i = i + 1;
    }
    proof {
        assert(piece@.take(piece@.len() as int) =~= piece@);
    }
}

} // verus!
