//! Parsing of `key=value&key=value` byte strings: the shape of both the
//! token endpoints' response bodies and the callback's query string.
use vstd::prelude::*;

verus! {

/// The first position of a byte in a byte string, if any.
pub open spec fn find_byte_spec(s: Seq<u8>, b: u8) -> Option<int>
    decreases s.len(),
{
    if s.len() == 0 {
        None
    } else if s[0] == b {
        Some(0)
    } else {
        match find_byte_spec(s.drop_first(), b) {
            Some(i) => Some(i + 1),
            None => None,
        }
    }
}

pub proof fn lemma_find_byte_spec(s: Seq<u8>, b: u8)
    ensures
        match find_byte_spec(s, b) {
            Some(i) => 0 <= i < s.len() && s[i] == b && forall|k: int| 0 <= k < i ==> s[k] != b,
            None => forall|k: int| 0 <= k < s.len() ==> s[k] != b,
        },
    decreases s.len(),
{
    if s.len() > 0 && s[0] != b {
        let t = s.drop_first();
        lemma_find_byte_spec(t, b);
        match find_byte_spec(s, b) {
            Some(i) => {
                assert(s[i] == t[i - 1]);
                assert forall|k: int| 0 <= k < i implies s[k] != b by {
                    if k > 0 {
                        assert(s[k] == t[k - 1]);
                    }
                }
            },
            None => {
                assert forall|k: int| 0 <= k < s.len() implies s[k] != b by {
                    if k > 0 {
                        assert(s[k] == t[k - 1]);
                    }
                }
            },
        }
    }
}

/// Find a byte in a byte string from position `i` on.
pub fn find_byte_from(s: &[u8], b: u8, i: usize) -> (r: Option<usize>)
    requires
        i <= s@.len(),
    ensures
        match r {
            Some(j) => i <= j < s@.len() && find_byte_spec(s@.skip(i as int), b) == Some(
                j - i as int,
            ),
            None => find_byte_spec(s@.skip(i as int), b) is None,
        },
    decreases s@.len() - i,
{
    proof {
        assert(s@.skip(i as int).len() == s@.len() - i);
        if i < s@.len() {
            assert(s@.skip(i as int)[0] == s@[i as int]);
            assert(s@.skip(i as int).drop_first() =~= s@.skip(i + 1 as int));
        }
    }
    if i == s.len() {
        None
    } else if s[i] == b {
        Some(i)
    } else {
        find_byte_from(s, b, i + 1)
    }
}

/// Copy a range of a byte string.
pub fn bytes_range(s: &[u8], i: usize, j: usize) -> (r: Vec<u8>)
    requires
        i <= j <= s@.len(),
    ensures
        r@ == s@.subrange(i as int, j as int),
{
    let mut out: Vec<u8> = Vec::new();
    let mut k: usize = i;
    while k < j
        invariant
            i <= k <= j <= s@.len(),
            out@ == s@.subrange(i as int, k as int),
        decreases j - k,
    {
        out.push(s[k]);
        proof {
            assert(s@.subrange(i as int, k + 1 as int) =~= s@.subrange(i as int, k as int).push(
                s@[k as int],
            ));
        }
        k = k + 1;
    }
    out
}

/// The segments of a byte string split on a separator. A string without the
/// separator is one segment; every separator ends a segment, so `a&&b` has
/// an empty middle segment.
pub open spec fn split_on(s: Seq<u8>, sep: u8) -> Seq<Seq<u8>>
    decreases s.len(),
{
    match find_byte_spec(s, sep) {
        None => seq![s],
        Some(i) => if 0 <= i < s.len() {
            seq![s.take(i)] + split_on(s.skip(i + 1), sep)
        } else {
            seq![s]
        },
    }
}

/// Split a byte string on a separator from position `i` on, appending the
/// segments.
fn split_into(s: &[u8], sep: u8, i: usize, out: &mut Vec<Vec<u8>>)
    requires
        i <= s@.len(),
    ensures
        final(out).deep_view() == old(out).deep_view() + split_on(s@.skip(i as int), sep),
    decreases s@.len() - i,
{
    let n = s.len();
    let ghost tail = s@.skip(i as int);
    proof {
        lemma_find_byte_spec(tail, sep);
    }
    match find_byte_from(s, sep, i) {
        None => {
            let seg = bytes_range(s, i, n);
            let ghost out_dv = out.deep_view();
            out.push(seg);
            proof {
                assert(seg@ =~= tail);
                assert(out.deep_view() =~~= out_dv.push(tail));
                assert(out_dv.push(tail) =~= out_dv + seq![tail]);
            }
        },
        Some(j) => {
            proof {
                assert(find_byte_spec(tail, sep) == Some(j - i as int));
            }
            let seg = bytes_range(s, i, j);
            let ghost out_dv = out.deep_view();
            out.push(seg);
            proof {
                assert(seg@ =~= tail.take(j - i as int));
                assert(out.deep_view() =~~= out_dv.push(tail.take(j - i as int)));
            }
            split_into(s, sep, j + 1, out);
            proof {
                assert(tail.skip(j - i as int + 1) =~= s@.skip(j + 1 as int));
                assert(out.deep_view() =~= out_dv + (seq![tail.take(j - i as int)] + split_on(
                    tail.skip(j - i as int + 1),
                    sep,
                )));
            }
        },
    }
}

/// Split a byte string on a separator.
pub fn split_bytes(s: &[u8], sep: u8) -> (r: Vec<Vec<u8>>)
    ensures
        r.deep_view() == split_on(s@, sep),
{
    let mut out: Vec<Vec<u8>> = Vec::new();
    split_into(s, sep, 0, &mut out);
    proof {
        assert(s@.skip(0) =~= s@);
        assert(out.deep_view() =~= split_on(s@, sep));
    }
    out
}

/// A segment read as a pair: what stands before the first `=` and what
/// stands after it; a segment without `=` is a bare key with an empty value.
pub open spec fn kv_split(seg: Seq<u8>) -> (Seq<u8>, Seq<u8>) {
    match find_byte_spec(seg, ('=' as u8)) {
        Some(i) => (seg.take(i), seg.skip(i + 1)),
        None => (seg, Seq::empty()),
    }
}

/// Whether a segment carries an `=` at all.
pub open spec fn kv_wf(seg: Seq<u8>) -> bool {
    find_byte_spec(seg, ('=' as u8)) is Some
}

/// Split one segment into its key and value; the flag says whether the
/// segment carried an `=`.
pub fn kv_split_exec(seg: &[u8]) -> (r: (Vec<u8>, Vec<u8>, bool))
    ensures
        (r.0@, r.1@) == kv_split(seg@),
        r.2 == kv_wf(seg@),
{
    proof {
        assert(seg@.skip(0) =~= seg@);
    }
    let n = seg.len();
    match find_byte_from(seg, '=' as u8, 0) {
        Some(i) => {
            let k = bytes_range(seg, 0, i);
            let v = bytes_range(seg, i + 1, n);
            proof {
                assert(seg@.subrange(0, i as int) =~= seg@.take(i as int));
                assert(seg@.subrange(i + 1 as int, seg@.len() as int) =~= seg@.skip(i + 1 as int));
            }
            (k, v, true)
        },
        None => {
            let k = bytes_range(seg, 0, seg.len());
            proof {
                assert(seg@.subrange(0, seg@.len() as int) =~= seg@);
            }
            (k, Vec::new(), false)
        },
    }
}

/// The pairs of a form-encoded body, each segment read around its first `=`.
pub open spec fn form_pairs(s: Seq<u8>) -> Seq<(Seq<u8>, Seq<u8>)> {
    split_on(s, ('&' as u8)).map(|i: int, seg: Seq<u8>| kv_split(seg))
}

/// A form-encoded body is well-formed when every `&`-segment carries an `=`.
pub open spec fn form_wf(s: Seq<u8>) -> bool {
    forall|i: int|
        0 <= i < split_on(s, ('&' as u8)).len() ==> kv_wf(#[trigger] split_on(s, ('&' as u8))[i])
}

/// The value of the last pair with the given key, the way a read that
/// overwrites earlier duplicates sees it.
pub open spec fn lookup_last(ps: Seq<(Seq<u8>, Seq<u8>)>, key: Seq<u8>) -> Option<Seq<u8>>
    decreases ps.len(),
{
    if ps.len() == 0 {
        None
    } else if ps.last().0 == key {
        Some(ps.last().1)
    } else {
        lookup_last(ps.drop_last(), key)
    }
}

/// The value of the first pair with the given key, the way a search from
/// the front sees it.
pub open spec fn lookup_first(ps: Seq<(Seq<u8>, Seq<u8>)>, key: Seq<u8>) -> Option<Seq<u8>>
    decreases ps.len(),
{
    if ps.len() == 0 {
        None
    } else if ps.first().0 == key {
        Some(ps.first().1)
    } else {
        lookup_first(ps.drop_first(), key)
    }
}

/// Parse a form-encoded body into its pairs; a segment without `=` makes
/// the whole body malformed.
pub fn parse_form_pairs(body: &[u8]) -> (r: Option<Vec<(Vec<u8>, Vec<u8>)>>)
    ensures
        r is Some <==> form_wf(body@),
        r is Some ==> r->0.deep_view() == form_pairs(body@),
{
    let segs = split_bytes(body, '&' as u8);
    let mut out: Vec<(Vec<u8>, Vec<u8>)> = Vec::new();
    let mut i: usize = 0;
    let ghost segs_dv = segs.deep_view();
    proof {
        assert(out.deep_view() =~= segs_dv.take(0).map(|k: int, seg: Seq<u8>| kv_split(seg)));
    }
    while i < segs.len()
        invariant
            i <= segs@.len(),
            segs_dv == segs.deep_view(),
            segs_dv.len() == segs@.len(),
            segs_dv == split_on(body@, ('&' as u8)),
            out.deep_view() == segs_dv.take(i as int).map(|k: int, seg: Seq<u8>| kv_split(seg)),
            forall|k: int| 0 <= k < i ==> kv_wf(#[trigger] segs_dv[k]),
        decreases segs@.len() - i,
    {
        proof {
            assert(segs@[i as int]@ =~= segs_dv[i as int]);
        }
        let (k, v, ok) = kv_split_exec(segs[i].as_slice());
        if !ok {
            proof {
                assert(!kv_wf(segs_dv[i as int]));
            }
            return None;
        }
        let ghost out_dv = out.deep_view();
        out.push((k, v));
        proof {
            assert((k@, v@) == kv_split(segs_dv[i as int]));
            assert(out.deep_view() =~~= out_dv.push((k@, v@)));
            assert(segs_dv.take(i + 1 as int).map(|k: int, seg: Seq<u8>| kv_split(seg))
                =~= segs_dv.take(i as int).map(|k: int, seg: Seq<u8>| kv_split(seg)).push(
                kv_split(segs_dv[i as int]),
            ));
        }
        i = i + 1;
    }
    proof {
        assert(segs_dv.take(segs_dv.len() as int) =~= segs_dv);
    }
    Some(out)
}

/// Look a key up among parsed pairs, the last occurrence winning.
pub fn lookup_pair_last(ps: &Vec<(Vec<u8>, Vec<u8>)>, key: &[u8]) -> (r: Option<Vec<u8>>)
    ensures
        match r {
            Some(v) => lookup_last(ps.deep_view(), key@) == Some(v@),
            None => lookup_last(ps.deep_view(), key@) is None,
        },
{
    let mut i: usize = ps.len();
    proof {
        assert(ps.deep_view().len() == ps@.len());
        assert(ps.deep_view().take(ps@.len() as int) =~= ps.deep_view());
    }
    while i > 0
        invariant
            i <= ps@.len(),
            ps.deep_view().len() == ps@.len(),
            lookup_last(ps.deep_view(), key@) == lookup_last(ps.deep_view().take(i as int), key@),
        decreases i,
    {
        i = i - 1;
        proof {
            let dv = ps.deep_view();
            assert(dv.take(i + 1 as int).last() == dv[i as int]);
            assert(dv.take(i + 1 as int).drop_last() =~= dv.take(i as int));
            assert(dv[i as int].0 =~= ps@[i as int].0@);
            assert(dv[i as int].1 =~= ps@[i as int].1@);
        }
        if crate::bytes::bytes_eq(ps[i].0.as_slice(), key) {
            let v = bytes_range(ps[i].1.as_slice(), 0, ps[i].1.len());
            proof {
                assert(ps@[i as int].1@.subrange(0, ps@[i as int].1@.len() as int)
                    =~= ps@[i as int].1@);
                assert(lookup_last(ps.deep_view().take(i + 1 as int), key@) == Some(
                    ps.deep_view()[i as int].1,
                ));
            }
            return Some(v);
        }
    }
    proof {
        assert(ps.deep_view().take(0) =~= Seq::<(Seq<u8>, Seq<u8>)>::empty());
    }
    None
}

} // verus!
