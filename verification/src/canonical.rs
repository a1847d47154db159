//! The canonicalizer: it turns a request's method, URL and parameters into
//! the one deterministic signature base string. Parameters are sorted by
//! key (and by value between equal keys) in byte-wise ascending order, each
//! key and value is percent-encoded, the pairs are joined `k=v` with `&`
//! between them, and the method, the encoded URL and the once-more encoded
//! parameter string are joined with `&`.
use vstd::prelude::*;
use vstd::relations::{sorted_by, total_ordering};
use vstd::seq_lib::lemma_sorted_unique;
use crate::bytes::{lemma_lex_leq_antisymmetric, lemma_lex_leq_connected, lemma_lex_leq_reflexive,
    lemma_lex_leq_transitive, lex_leq, lex_leq_bytes, bytes_eq, to_ascii_upper, upper_byte,
    extend_bytes};
use crate::encoding::{percent_encoded, percent_encode};

verus! {

/// One request parameter as the canonicalizer models it: key bytes and
/// value bytes.
pub type ParamModel = (Seq<u8>, Seq<u8>);

/// Canonical parameter order: by key, and between equal keys by value,
/// byte-wise ascending.
pub open spec fn param_leq(x: ParamModel, y: ParamModel) -> bool {
    if x.0 == y.0 {
        lex_leq(x.1, y.1)
    } else {
        lex_leq(x.0, y.0)
    }
}

pub open spec fn param_order() -> spec_fn(ParamModel, ParamModel) -> bool {
    |x: ParamModel, y: ParamModel| param_leq(x, y)
}

/// The canonical parameter order is a total order, so sorting by it gives
/// one well-defined result.
pub proof fn lemma_param_order_total()
    ensures
        total_ordering(param_order()),
{
    let leq = param_order();
    assert forall|x: ParamModel| #[trigger] leq(x, x) by {
        lemma_lex_leq_reflexive(x.1);
    }
    assert forall|x: ParamModel, y: ParamModel| #[trigger] leq(x, y) && #[trigger] leq(y, x)
        implies x == y by {
        if x.0 == y.0 {
            lemma_lex_leq_antisymmetric(x.1, y.1);
        } else {
            lemma_lex_leq_antisymmetric(x.0, y.0);
        }
    }
    assert forall|x: ParamModel, y: ParamModel, z: ParamModel|
        #[trigger] leq(x, y) && #[trigger] leq(y, z) implies leq(x, z) by {
        if x.0 == y.0 && y.0 == z.0 {
            lemma_lex_leq_transitive(x.1, y.1, z.1);
        } else if x.0 == y.0 {
            assert(lex_leq(x.0, z.0));
        } else if y.0 == z.0 {
            assert(lex_leq(x.0, z.0));
        } else {
            lemma_lex_leq_transitive(x.0, y.0, z.0);
            if x.0 == z.0 {
                lemma_lex_leq_antisymmetric(x.0, y.0);
            }
        }
    }
    assert forall|x: ParamModel, y: ParamModel| !(#[trigger] leq(x, y)) implies leq(y, x) by {
        if x.0 == y.0 {
            lemma_lex_leq_connected(x.1, y.1);
        } else {
            lemma_lex_leq_connected(x.0, y.0);
        }
    }
}

/// Whether one parameter comes no later than another in canonical order.
pub fn param_leq_exec(x: &(Vec<u8>, Vec<u8>), y: &(Vec<u8>, Vec<u8>)) -> (r: bool)
    ensures
        r == param_leq(x.deep_view(), y.deep_view()),
{
    proof {
        assert(x.0.deep_view() =~= x.0@);
        assert(x.1.deep_view() =~= x.1@);
        assert(y.0.deep_view() =~= y.0@);
        assert(y.1.deep_view() =~= y.1@);
    }
    if bytes_eq(x.0.as_slice(), y.0.as_slice()) {
        lex_leq_bytes(x.1.as_slice(), y.1.as_slice())
    } else {
        lex_leq_bytes(x.0.as_slice(), y.0.as_slice())
    }
}

/// Sort parameters into canonical order. The result is the one sorted
/// arrangement of the input, whatever order it arrived in.
pub fn sort_params(params: Vec<(Vec<u8>, Vec<u8>)>) -> (r: Vec<(Vec<u8>, Vec<u8>)>)
    ensures
        r.deep_view() == params.deep_view().sort_by(param_order()),
{
    broadcast use vstd::seq_lib::group_to_multiset_ensures;

    proof {
        lemma_param_order_total();
    }
    let ghost input_dv = params.deep_view();
    let mut rest = params;
    let mut out: Vec<(Vec<u8>, Vec<u8>)> = Vec::new();
    proof {
        assert(out.deep_view() =~= Seq::<ParamModel>::empty());
        assert(out.deep_view().to_multiset().add(rest.deep_view().to_multiset())
            =~= input_dv.to_multiset());
    }
    while rest.len() > 0
        invariant
            total_ordering(param_order()),
            out.deep_view().to_multiset().add(rest.deep_view().to_multiset())
                == input_dv.to_multiset(),
            sorted_by(out.deep_view(), param_order()),
            forall|i: int, j: int|
                0 <= i < out.deep_view().len() && 0 <= j < rest.deep_view().len() ==> param_leq(
                    #[trigger] out.deep_view()[i],
                    #[trigger] rest.deep_view()[j],
                ),
        decreases rest.len(),
    {
        let ghost rest_dv = rest.deep_view();
        let mut m: usize = 0;
        let mut k: usize = 1;
        proof {
            lemma_lex_leq_reflexive(rest_dv[0].1);
        }
        while k < rest.len()
            invariant
                total_ordering(param_order()),
                rest_dv == rest.deep_view(),
                rest.len() == rest_dv.len(),
                m < k <= rest_dv.len(),
                forall|t: int| 0 <= t < k ==> param_leq(rest_dv[m as int], #[trigger] rest_dv[t]),
            decreases rest.len() - k,
        {
            if param_leq_exec(&rest[k], &rest[m]) {
                proof {
                    assert(rest_dv[k as int] == rest.deep_view()[k as int]);
                    assert forall|t: int| 0 <= t < k + 1 implies param_leq(
                        rest_dv[k as int],
                        #[trigger] rest_dv[t],
                    ) by {
                        if t < k {
                            assert(param_order()(rest_dv[k as int], rest_dv[m as int]));
                            assert(param_order()(rest_dv[m as int], rest_dv[t]));
                        } else {
                            lemma_lex_leq_reflexive(rest_dv[k as int].1);
                        }
                    }
                }
                m = k;
            } else {
                proof {
                    assert(!param_order()(rest_dv[k as int], rest_dv[m as int]));
                    assert(param_order()(rest_dv[m as int], rest_dv[k as int]));
                }
            }
            k = k + 1;
        }
        let ghost out_dv = out.deep_view();
        let ghost e_dv = rest_dv[m as int];
        let e = rest.remove(m);
        out.push(e);
        proof {
            assert(e.deep_view() == e_dv);
            assert(rest.deep_view() =~= rest_dv.remove(m as int));
            assert(out.deep_view() =~= out_dv.push(e_dv));
            out_dv.to_multiset_ensures();
            rest_dv.to_multiset_ensures();
            assert(rest_dv.contains(e_dv));
            assert(rest_dv.to_multiset().count(e_dv) > 0);
            assert(out.deep_view().to_multiset() =~= out_dv.push(e_dv).to_multiset());
            assert(out.deep_view().to_multiset() =~= out_dv.to_multiset().insert(e_dv));
            assert(rest.deep_view().to_multiset() =~= rest_dv.remove(m as int).to_multiset());
            assert(rest.deep_view().to_multiset() =~= rest_dv.to_multiset().remove(e_dv));
            assert(out.deep_view().to_multiset().add(rest.deep_view().to_multiset())
                =~= input_dv.to_multiset());
            assert forall|i: int, j: int|
                0 <= i < j < out.deep_view().len() implies param_leq(
                #[trigger] out.deep_view()[i],
                #[trigger] out.deep_view()[j],
            ) by {
                if j < out_dv.len() {
                    assert(param_order()(out_dv[i], out_dv[j]));
                } else {
                    assert(param_leq(out_dv[i], rest_dv[m as int]));
                }
            }
            assert forall|i: int, j: int|
                0 <= i < out.deep_view().len() && 0 <= j < rest.deep_view().len() implies param_leq(
                #[trigger] out.deep_view()[i],
                #[trigger] rest.deep_view()[j],
            ) by {
                let jj = if j < m { j } else { j + 1 };
                assert(rest.deep_view()[j] == rest_dv[jj]);
                if i < out_dv.len() {
                    assert(param_leq(out_dv[i], rest_dv[jj]));
                } else {
                    assert(out.deep_view()[i] == e_dv);
                    assert(param_leq(rest_dv[m as int], rest_dv[jj]));
                }
            }
        }
    }
    proof {
        assert(rest.deep_view().len() == 0);
        assert(rest.deep_view() =~= Seq::<ParamModel>::empty());
        assert(out.deep_view().to_multiset() =~= input_dv.to_multiset());
        input_dv.lemma_sort_by_ensures(param_order());
        lemma_sorted_unique(out.deep_view(), input_dv.sort_by(param_order()), param_order());
        assert(out.deep_view() =~= input_dv.sort_by(param_order()));
    }
    out
}

/// One parameter's contribution to the parameter string: encoded key,
/// `=`, encoded value.
pub open spec fn pair_encoded(p: ParamModel) -> Seq<u8> {
    percent_encoded(p.0) + seq![('=' as u8)] + percent_encoded(p.1)
}

/// Encoded pairs joined with `&`, in the order given.
pub open spec fn joined_pairs(ps: Seq<ParamModel>) -> Seq<u8>
    decreases ps.len(),
{
    if ps.len() == 0 {
        Seq::empty()
    } else if ps.len() == 1 {
        pair_encoded(ps[0])
    } else {
        joined_pairs(ps.drop_last()) + seq![('&' as u8)] + pair_encoded(ps.last())
    }
}

/// The canonical parameter string: pairs in canonical order, keys and
/// values percent-encoded, joined `k=v` with `&`.
pub open spec fn param_string(ps: Seq<ParamModel>) -> Seq<u8> {
    joined_pairs(ps.sort_by(param_order()))
}

/// The signature base string: upper-cased method, percent-encoded URL and
/// the percent-encoded canonical parameter string, joined with `&`.
pub open spec fn base_string_spec(method: Seq<u8>, url: Seq<u8>, ps: Seq<ParamModel>) -> Seq<u8> {
    method.map(|i: int, b: u8| upper_byte(b)) + seq![('&' as u8)] + percent_encoded(url) + seq![
        ('&' as u8),
    ] + percent_encoded(param_string(ps))
}

/// For a fixed method, URL and parameter multiset, the base string is one
/// value: it does not depend on the order the parameters were listed in.
pub proof fn lemma_base_string_insertion_order(
    method: Seq<u8>,
    url: Seq<u8>,
    p1: Seq<ParamModel>,
    p2: Seq<ParamModel>,
)
    requires
        p1.to_multiset() == p2.to_multiset(),
    ensures
        base_string_spec(method, url, p1) == base_string_spec(method, url, p2),
{
    lemma_param_order_total();
    p1.lemma_sort_by_ensures(param_order());
    p2.lemma_sort_by_ensures(param_order());
    lemma_sorted_unique(p1.sort_by(param_order()), p2.sort_by(param_order()), param_order());
}

/// Build the canonical parameter string of already-sorted parameters.
fn join_sorted_pairs(sorted: &Vec<(Vec<u8>, Vec<u8>)>) -> (r: Vec<u8>)
    ensures
        r@ == joined_pairs(sorted.deep_view()),
{
    let mut out: Vec<u8> = Vec::new();
    let mut i: usize = 0;
    proof {
        assert(sorted.deep_view().take(0) =~= Seq::<ParamModel>::empty());
    }
    while i < sorted.len()
        invariant
            i <= sorted.deep_view().len(),
            sorted.deep_view().len() == sorted@.len(),
            out@ == joined_pairs(sorted.deep_view().take(i as int)),
        decreases sorted@.len() - i,
    {
        if i > 0 {
            out.push('&' as u8);
        }
        let enc_key = percent_encode(sorted[i].0.as_slice());
        extend_bytes(&mut out, enc_key.as_slice());
        out.push('=' as u8);
        let enc_val = percent_encode(sorted[i].1.as_slice());
        extend_bytes(&mut out, enc_val.as_slice());
        proof {
            let dv = sorted.deep_view();
            let prefix = dv.take(i + 1 as int);
            assert(prefix.drop_last() =~= dv.take(i as int));
            assert(prefix.last() == dv[i as int]);
            assert(dv[i as int].0 =~= sorted@[i as int].0@);
            assert(dv[i as int].1 =~= sorted@[i as int].1@);
            if i == 0 {
                assert(joined_pairs(dv.take(0)) =~= Seq::<u8>::empty());
                assert(out@ =~= pair_encoded(dv[0]));
                assert(out@ =~= joined_pairs(prefix));
            } else {
                assert(out@ =~= joined_pairs(dv.take(i as int)) + seq![('&' as u8)]
                    + pair_encoded(dv[i as int]));
            }
        }
        i = i + 1;
    }
    proof {
        assert(sorted.deep_view().take(sorted.deep_view().len() as int) =~= sorted.deep_view());
    }
    out
}

/// Build the signature base string from a method, a URL (scheme, host and
/// path, with no query string) and the request parameters, in any order.
pub fn base_string(method: &[u8], url: &[u8], params: Vec<(Vec<u8>, Vec<u8>)>) -> (r: Vec<u8>)
    ensures
        r@ == base_string_spec(method@, url@, params.deep_view()),
{
    let ghost params_dv = params.deep_view();
    let mut out = to_ascii_upper(method);
    out.push('&' as u8);
    let enc_url = percent_encode(url);
    extend_bytes(&mut out, enc_url.as_slice());
    out.push('&' as u8);
    let sorted = sort_params(params);
    let joined = join_sorted_pairs(&sorted);
    let enc_params = percent_encode(joined.as_slice());
    extend_bytes(&mut out, enc_params.as_slice());
    proof {
        assert(out@ =~= base_string_spec(method@, url@, params_dv));
    }
    out
}

} // verus!
