//! The photo's metadata record, parsed out of the flat `Tag: value` lines
//! an external extractor prints. Lines that do not fit the shape are
//! skipped; for repeated tags the last line wins. Running the extractor is
//! the caller's I/O.
use vstd::prelude::*;
use vstd::string::StringSliceAdditionalSpecFns;
use vstd::string::StringExecFns;
use vstd::utf8::{decode_utf8, is_ascii_chars, valid_utf8};
use crate::bytes::bytes_eq;
use crate::form::{bytes_range, split_bytes, split_on};
use crate::strings::{ascii_bytes, char_bytes, str_eq, string_from_utf8};

verus! {

/// The metadata fields the uploads carry.
#[derive(Clone, Debug)]
pub struct Metadata {
    pub camera: String,
    pub focal_length: String,
    pub iso: String,
    pub aperture: String,
    pub shutter_speed: String,
    pub title: String,
    pub description: String,
    pub tags: Vec<String>,
    pub height_at_1200: i32,
    pub created_at: String,
}

/// The friendly name a camera model stands for; models without one stand
/// for themselves. The table is not comprehensive.
pub open spec fn model_name(m: Seq<char>) -> Seq<char> {
    if m == "ILCE-7RM2"@ {
        "a7r II"@
    } else if m == "ILCE-7RM3"@ {
        "a7r III"@
    } else if m == "ILCE-7RM4"@ {
        "a7r IV"@
    } else if m == "ILCE-7SM2"@ {
        "a7s II"@
    } else if m == "ILCE-7SM3"@ {
        "a7s III"@
    } else if m == "ILCE-7SM4"@ {
        "a7s IV"@
    } else {
        m
    }
}

/// Convert internal model names to friendly ones.
pub fn convert_model(model: &str) -> (r: String)
    ensures
        r@ == model_name(model@),
{
    if str_eq(model, "ILCE-7RM2") {
        String::from_str("a7r II")
    } else if str_eq(model, "ILCE-7RM3") {
        String::from_str("a7r III")
    } else if str_eq(model, "ILCE-7RM4") {
        String::from_str("a7r IV")
    } else if str_eq(model, "ILCE-7SM2") {
        String::from_str("a7s II")
    } else if str_eq(model, "ILCE-7SM3") {
        String::from_str("a7s III")
    } else if str_eq(model, "ILCE-7SM4") {
        String::from_str("a7s IV")
    } else {
        model.to_owned()
    }
}

/// The result a title-casing of the characters has.
pub uninterp spec fn title_case_of(s: Seq<char>) -> Seq<char>;

/// Relies on heck's to_title_case: the result is a function of the input
/// characters alone.
#[verifier::external_body]
fn title_case(s: &str) -> (r: String)
    ensures
        r@ == title_case_of(s@),
{
    heck::ToTitleCase::to_title_case(s)
}

/// Whether position `i` splits a line into a nonempty tag, `: `, and a
/// nonempty value.
pub open spec fn kv_sep_at(l: Seq<u8>, i: int) -> bool {
    1 <= i && i + 2 < l.len() && l[i] == 58 && l[i + 1] == 32
}

/// The last splitting position before `j`, if any: the extractor's tag
/// names never hold `: `, values may.
pub open spec fn last_sep_before(l: Seq<u8>, j: int) -> Option<int>
    decreases j,
{
    if j <= 0 {
        None
    } else if kv_sep_at(l, j - 1) {
        Some(j - 1)
    } else {
        last_sep_before(l, j - 1)
    }
}

/// A line read as a tag and its value, split at the last `: `.
pub open spec fn line_kv(l: Seq<u8>) -> Option<(Seq<u8>, Seq<u8>)> {
    match last_sep_before(l, l.len() as int) {
        Some(i) => Some((l.take(i), l.skip(i + 2))),
        None => None,
    }
}

/// Find the last splitting position before `j`.
fn last_sep_exec(l: &[u8], j: usize) -> (r: Option<usize>)
    requires
        j <= l@.len(),
    ensures
        match r {
            Some(i) => last_sep_before(l@, j as int) == Some(i as int) && 1 <= i && i + 2
                < l@.len(),
            None => last_sep_before(l@, j as int) is None,
        },
    decreases j,
{
    if j == 0 {
        None
    } else {
        let i = j - 1;
        if i >= 1 && l.len() - i > 2 && l[i] == 58 && l[i + 1] == 32 {
            Some(i)
        } else {
            proof {
                assert(!kv_sep_at(l@, i as int));
            }
            last_sep_exec(l, i)
        }
    }
}

/// Split one line into its tag and value, if it has the shape.
fn line_kv_exec(l: &[u8]) -> (r: Option<(Vec<u8>, Vec<u8>)>)
    ensures
        match r {
            Some(kv) => line_kv(l@) == Some((kv.0@, kv.1@)),
            None => line_kv(l@) is None,
        },
{
    let n = l.len();
    match last_sep_exec(l, n) {
        Some(i) => {
            let k = bytes_range(l, 0, i);
            let v = bytes_range(l, i + 2, n);
            proof {
                assert(l@.subrange(0, i as int) =~= l@.take(i as int));
                assert(l@.subrange(i + 2 as int, l@.len() as int) =~= l@.skip(i + 2 as int));
            }
            Some((k, v))
        },
        None => None,
    }
}

/// The value of the last line carrying the tag, if any.
pub open spec fn exif_value(lines: Seq<Seq<u8>>, key: Seq<u8>) -> Option<Seq<u8>>
    decreases lines.len(),
{
    if lines.len() == 0 {
        None
    } else {
        match line_kv(lines.last()) {
            Some(kv) => if kv.0 == key {
                Some(kv.1)
            } else {
                exif_value(lines.drop_last(), key)
            },
            None => exif_value(lines.drop_last(), key),
        }
    }
}

/// Look a tag up among the lines, the last occurrence winning.
fn exif_lookup(lines: &Vec<Vec<u8>>, key: &[u8]) -> (r: Option<Vec<u8>>)
    ensures
        match r {
            Some(v) => exif_value(lines.deep_view(), key@) == Some(v@),
            None => exif_value(lines.deep_view(), key@) is None,
        },
{
    let mut i: usize = lines.len();
    proof {
        assert(lines.deep_view().len() == lines@.len());
        assert(lines.deep_view().take(lines@.len() as int) =~= lines.deep_view());
    }
    while i > 0
        invariant
            i <= lines@.len(),
            lines.deep_view().len() == lines@.len(),
            exif_value(lines.deep_view(), key@) == exif_value(
                lines.deep_view().take(i as int),
                key@,
            ),
        decreases i,
    {
        i = i - 1;
        proof {
            let dv = lines.deep_view();
            assert(dv.take(i + 1 as int).last() == dv[i as int]);
            assert(dv.take(i + 1 as int).drop_last() =~= dv.take(i as int));
            assert(dv[i as int] == lines@[i as int]@);
        }
        match line_kv_exec(lines[i].as_slice()) {
            Some((k, v)) => {
                if bytes_eq(k.as_slice(), key) {
                    return Some(v);
                }
            },
            None => {},
        }
    }
    proof {
        assert(lines.deep_view().take(0) =~= Seq::<Seq<u8>>::empty());
    }
    None
}

/// The text a tag's raw value stands for: its bytes decoded, or empty where
/// the tag is absent or its bytes are not well-formed text.
pub open spec fn field_str(lines: Seq<Seq<u8>>, key: Seq<u8>) -> Seq<char> {
    match exif_value(lines, key) {
        Some(v) => if valid_utf8(v) {
            decode_utf8(v)
        } else {
            Seq::empty()
        },
        None => Seq::empty(),
    }
}

/// A tag's value as text, empty when absent or ill-formed.
fn field_str_exec(lines: &Vec<Vec<u8>>, key: &[u8]) -> (r: String)
    ensures
        r@ == field_str(lines.deep_view(), key@),
{
    match exif_lookup(lines, key) {
        Some(v) => {
            match string_from_utf8(v) {
                Some(s) => s,
                None => String::new(),
            }
        },
        None => String::new(),
    }
}


/// The first `, ` separator in a keyword list, if any.
pub open spec fn find_tag_sep(s: Seq<u8>) -> Option<int>
    decreases s.len(),
{
    if s.len() < 2 {
        None
    } else if s[0] == 44 && s[1] == 32 {
        Some(0)
    } else {
        match find_tag_sep(s.drop_first()) {
            Some(i) => Some(i + 1),
            None => None,
        }
    }
}

proof fn lemma_find_tag_sep(s: Seq<u8>)
    ensures
        match find_tag_sep(s) {
            Some(i) => 0 <= i && i + 1 < s.len() && s[i] == 44 && s[i + 1] == 32,
            None => true,
        },
    decreases s.len(),
{
    if s.len() >= 2 && !(s[0] == 44 && s[1] == 32) {
        lemma_find_tag_sep(s.drop_first());
    }
}

/// The keyword list split on `, `.
pub open spec fn split_tags(s: Seq<u8>) -> Seq<Seq<u8>>
    decreases s.len(),
{
    match find_tag_sep(s) {
        None => seq![s],
        Some(i) => if 0 <= i && i + 2 <= s.len() {
            seq![s.take(i)] + split_tags(s.skip(i + 2))
        } else {
            seq![s]
        },
    }
}

/// Find the first `, ` from position `i` on.
fn find_tag_sep_exec(s: &[u8], i: usize) -> (r: Option<usize>)
    requires
        i <= s@.len(),
    ensures
        match r {
            Some(j) => i <= j && j + 1 < s@.len() && find_tag_sep(s@.skip(i as int)) == Some(
                j - i as int,
            ),
            None => find_tag_sep(s@.skip(i as int)) is None,
        },
    decreases s@.len() - i,
{
    proof {
        assert(s@.skip(i as int).len() == s@.len() - i);
        if s@.len() - i >= 2 {
            assert(s@.skip(i as int)[0] == s@[i as int]);
            assert(s@.skip(i as int)[1] == s@[i + 1 as int]);
            assert(s@.skip(i as int).drop_first() =~= s@.skip(i + 1 as int));
        }
    }
    if s.len() - i < 2 {
        None
    } else if s[i] == 44 && s[i + 1] == 32 {
        Some(i)
    } else {
        find_tag_sep_exec(s, i + 1)
    }
}

/// Split the keyword list on `, `, from position `i` on, appending the
/// pieces.
fn split_tags_into(s: &[u8], i: usize, out: &mut Vec<Vec<u8>>)
    requires
        i <= s@.len(),
    ensures
        final(out).deep_view() == old(out).deep_view() + split_tags(s@.skip(i as int)),
    decreases s@.len() - i,
{
    let n = s.len();
    let ghost tail = s@.skip(i as int);
    proof {
        lemma_find_tag_sep(tail);
    }
    match find_tag_sep_exec(s, i) {
        None => {
            let seg = bytes_range(s, i, n);
            let ghost out_dv = out.deep_view();
            out.push(seg);
            proof {
                assert(seg@ =~= tail);
                assert(out.deep_view() =~~= out_dv.push(tail));
                assert(out_dv.push(tail) =~= out_dv + seq![tail]);
            }
        },
        Some(j) => {
            proof {
                assert(find_tag_sep(tail) == Some(j - i as int));
            }
            let seg = bytes_range(s, i, j);
            let ghost out_dv = out.deep_view();
            out.push(seg);
            proof {
                assert(seg@ =~= tail.take(j - i as int));
                assert(out.deep_view() =~~= out_dv.push(tail.take(j - i as int)));
            }
            split_tags_into(s, j + 2, out);
            proof {
                assert(tail.skip(j - i as int + 2) =~= s@.skip(j + 2 as int));
                assert(out.deep_view() =~= out_dv + (seq![tail.take(j - i as int)] + split_tags(
                    tail.skip(j - i as int + 2),
                )));
            }
        },
    }
}

/// The text a raw tag stands for, empty when ill-formed.
pub open spec fn tag_str(v: Seq<u8>) -> Seq<char> {
    if valid_utf8(v) {
        decode_utf8(v)
    } else {
        Seq::empty()
    }
}

/// The nonempty texts of a list of raw tags, in order.
pub open spec fn tag_texts(segs: Seq<Seq<u8>>) -> Seq<Seq<char>>
    decreases segs.len(),
{
    if segs.len() == 0 {
        Seq::empty()
    } else {
        let d = tag_str(segs[0]);
        (if d.len() > 0 {
            seq![d]
        } else {
            Seq::empty()
        }) + tag_texts(segs.drop_first())
    }
}

/// The tag list a keyword value yields: its `, `-separated pieces that hold
/// text, and `upload` appended.
pub open spec fn metadata_tags(kw: Seq<u8>) -> Seq<Seq<char>> {
    tag_texts(split_tags(kw)) + seq!["upload"@]
}

/// Build the tag list from the raw keyword value.
fn tags_exec(kw: &[u8]) -> (r: Vec<String>)
    ensures
        r.deep_view() == metadata_tags(kw@),
{
    let mut segs: Vec<Vec<u8>> = Vec::new();
    split_tags_into(kw, 0, &mut segs);
    proof {
        assert(kw@.skip(0) =~= kw@);
        assert(segs.deep_view() =~= split_tags(kw@));
    }
    let ghost segs_dv = segs.deep_view();
    let mut out: Vec<String> = Vec::new();
    let mut i: usize = 0;
    proof {
        assert(segs_dv.skip(0) =~= segs_dv);
        assert(out.deep_view() =~= Seq::<Seq<char>>::empty());
        assert(out.deep_view() + tag_texts(segs_dv) =~= tag_texts(segs_dv));
    }
    while i < segs.len()
        invariant
            i <= segs@.len(),
            segs_dv == segs.deep_view(),
            segs_dv.len() == segs@.len(),
            out.deep_view() + tag_texts(segs_dv.skip(i as int)) == tag_texts(segs_dv),
        decreases segs@.len() - i,
    {
        proof {
            assert(segs_dv.skip(i as int)[0] == segs_dv[i as int]);
            assert(segs_dv[i as int] == segs@[i as int]@);
            assert(segs_dv.skip(i as int).drop_first() =~= segs_dv.skip(i + 1 as int));
        }
        let ghost out_dv = out.deep_view();
        match string_from_utf8(clone_bytes(&segs[i])) {
            Some(t) => {
                if !t.as_str().is_empty() {
                    out.push(t);
                    proof {
                        assert(out.deep_view() =~~= out_dv.push(tag_str(segs_dv[i as int])));
                        assert(out.deep_view() + tag_texts(segs_dv.skip(i + 1 as int))
                            =~= tag_texts(segs_dv));
                    }
                } else {
                    proof {
                        assert(tag_str(segs_dv[i as int]).len() == 0);
                    }
                }
            },
            None => {
                proof {
                    assert(tag_str(segs_dv[i as int]).len() == 0);
                }
            },
        }
        i = i + 1;
    }
    proof {
        assert(segs_dv.skip(segs_dv.len() as int) =~= Seq::<Seq<u8>>::empty());
        assert(out.deep_view() =~= tag_texts(segs_dv));
    }
    out.push(String::from_str("upload"));
    proof {
        assert(out.deep_view() =~~= tag_texts(split_tags(kw@)).push("upload"@));
        assert(tag_texts(split_tags(kw@)).push("upload"@) =~= metadata_tags(kw@));
    }
    out
}

/// Copy a byte string.
fn clone_bytes(v: &Vec<u8>) -> (r: Vec<u8>)
    ensures
        r@ == v@,
{
    let r = bytes_range(v.as_slice(), 0, v.len());
    proof {
        assert(v@.subrange(0, v@.len() as int) =~= v@);
    }
    r
}

/// Whether every byte is a decimal digit.
pub open spec fn all_digits(s: Seq<u8>) -> bool {
    forall|i: int| 0 <= i < s.len() ==> 48 <= #[trigger] s[i] <= 57
}

/// The number a digit string stands for.
pub open spec fn dec_val(s: Seq<u8>) -> int
    decreases s.len(),
{
    if s.len() == 0 {
        0
    } else {
        dec_val(s.drop_last()) * 10 + (s.last() - 48)
    }
}

proof fn lemma_dec_val_bounds(s: Seq<u8>)
    requires
        all_digits(s),
    ensures
        dec_val(s) >= 0,
        s.len() > 0 ==> dec_val(s) >= dec_val(s.drop_last()),
    decreases s.len(),
{
    if s.len() > 0 {
        assert(all_digits(s.drop_last()));
        lemma_dec_val_bounds(s.drop_last());
    }
}

proof fn lemma_dec_val_monotone(s: Seq<u8>, i: int)
    requires
        all_digits(s),
        0 <= i <= s.len(),
    ensures
        dec_val(s.take(i)) <= dec_val(s),
    decreases s.len() - i,
{
    if i < s.len() {
        lemma_dec_val_monotone(s, i + 1);
        assert(s.take(i + 1).drop_last() =~= s.take(i));
        assert(all_digits(s.take(i + 1)));
        lemma_dec_val_bounds(s.take(i + 1));
        assert(dec_val(s.take(i)) <= dec_val(s.take(i + 1)));
    } else {
        assert(s.take(i) =~= s);
    }
}

/// A picture dimension parsed from a tag value: plain decimal digits that
/// fit the signed 32-bit range, or nothing.
pub open spec fn parse_dim(s: Seq<u8>) -> Option<i32> {
    if s.len() > 0 && all_digits(s) && dec_val(s) <= i32::MAX {
        Some(dec_val(s) as i32)
    } else {
        None
    }
}

/// Parse a dimension.
fn parse_dim_exec(s: &[u8]) -> (r: Option<i32>)
    ensures
        r == parse_dim(s@),
{
    if s.len() == 0 {
        return None;
    }
    let mut acc: u64 = 0;
    let mut i: usize = 0;
    proof {
        assert(s@.take(0) =~= Seq::<u8>::empty());
    }
    while i < s.len()
        invariant
            i <= s@.len(),
            s@.len() > 0,
            all_digits(s@.take(i as int)),
            acc == dec_val(s@.take(i as int)),
            acc <= i32::MAX,
        decreases s@.len() - i,
    {
        let b = s[i];
        proof {
            assert(s@.take(i + 1 as int).drop_last() =~= s@.take(i as int));
            assert(s@.take(i + 1 as int).last() == s@[i as int]);
        }
        if b < 48 || b > 57 {
            proof {
                assert(!all_digits(s@));
            }
            return None;
        }
        let acc2: u64 = acc * 10 + ((b - 48) as u64);
        proof {
            assert(all_digits(s@.take(i + 1 as int)));
            assert(acc2 == dec_val(s@.take(i + 1 as int)));
        }
        if acc2 > 2147483647 {
            proof {
                if all_digits(s@) {
                    lemma_dec_val_monotone(s@, i + 1 as int);
                }
            }
            return None;
        }
        acc = acc2;
        i = i + 1;
    }
    proof {
        assert(s@.take(s@.len() as int) =~= s@);
    }
    Some(acc as i32)
}

/// The height the photo has at a width of 1200, from the parsed dimensions:
/// degenerate sizes fall back to 1, and an overflowing result is capped.
pub open spec fn scaled_height(w: Option<i32>, h: Option<i32>) -> i32 {
    let wi: int = match w {
        Some(x) => if x >= 1 {
            x as int
        } else {
            1
        },
        None => 1,
    };
    let hi: int = match h {
        Some(x) => if x >= 0 {
            x as int
        } else {
            1
        },
        None => 1,
    };
    let r = (hi * 1200) / wi;
    if r > i32::MAX {
        i32::MAX as i32
    } else {
        r as i32
    }
}

/// Compute the scaled height.
fn scaled_height_exec(w: Option<i32>, h: Option<i32>) -> (r: i32)
    ensures
        r == scaled_height(w, h),
{
    let wi: i64 = match w {
        Some(x) => if x >= 1 {
            x as i64
        } else {
            1
        },
        None => 1,
    };
    let hi: i64 = match h {
        Some(x) => if x >= 0 {
            x as i64
        } else {
            1
        },
        None => 1,
    };
    let r: i64 = (hi * 1200) / wi;
    proof {
        assert(hi * 1200 <= 2147483647i64 * 1200) by (nonlinear_arith)
            requires
                hi <= 2147483647,
        ;
        assert(hi * 1200 >= 0) by (nonlinear_arith)
            requires
                hi >= 0,
        ;
        vstd::arithmetic::div_mod::lemma_div_is_ordered_by_denominator(hi * 1200 as int, 1, wi as int);
        vstd::arithmetic::div_mod::lemma_div_pos_is_pos(hi * 1200 as int, wi as int);
    }
    if r > 2147483647 {
        2147483647
    } else {
        r as i32
    }
}

impl Metadata {
    /// Build the record from the extractor's raw output lines. Every field
    /// is the last matching tag's value; the camera name joins the
    /// title-cased make with the friendly model name; the title is
    /// title-cased; the tags are the keywords plus `upload`; the height is
    /// scaled to a width of 1200.
    pub fn from_exiftool(output: Vec<u8>) -> (r: Metadata)
        ensures
            ({
                let ls = split_on(output@, 10);
                &&& r.camera@ == title_case_of(field_str(ls, char_bytes("Make"@))) + " "@
                    + model_name(field_str(ls, char_bytes("Model"@)))
                &&& r.focal_length@ == field_str(ls, char_bytes("FocalLength"@))
                &&& r.iso@ == field_str(ls, char_bytes("ISO"@))
                &&& r.aperture@ == (if exif_value(ls, char_bytes("ApertureValue"@)) is Some {
                    field_str(ls, char_bytes("ApertureValue"@))
                } else {
                    "0.0"@
                })
                &&& r.shutter_speed@ == field_str(ls, char_bytes("ShutterSpeedValue"@))
                &&& r.title@ == title_case_of(field_str(ls, char_bytes("Title"@)))
                &&& r.description@ == field_str(ls, char_bytes("Description"@))
                &&& r.created_at@ == field_str(ls, char_bytes("Description"@))
                &&& r.tags.deep_view() == metadata_tags(match exif_value(
                    ls,
                    char_bytes("Keywords"@),
                ) {
                    Some(v) => v,
                    None => Seq::empty(),
                })
                &&& r.height_at_1200 == scaled_height(
                    match exif_value(ls, char_bytes("ImageWidth"@)) {
                        Some(v) => parse_dim(v),
                        None => None,
                    },
                    match exif_value(ls, char_bytes("ImageHeight"@)) {
                        Some(v) => parse_dim(v),
                        None => None,
                    },
                )
            }),
    {
        proof {
            reveal_strlit("Make");
            reveal_strlit("Model");
            reveal_strlit("FocalLength");
            reveal_strlit("ISO");
            reveal_strlit("ApertureValue");
            reveal_strlit("ShutterSpeedValue");
            reveal_strlit("Title");
            reveal_strlit("Description");
            reveal_strlit("Keywords");
            reveal_strlit("ImageWidth");
            reveal_strlit("ImageHeight");
            assert(is_ascii_chars("Make"@));
            assert(is_ascii_chars("Model"@));
            assert(is_ascii_chars("FocalLength"@));
            assert(is_ascii_chars("ISO"@));
            assert(is_ascii_chars("ApertureValue"@));
            assert(is_ascii_chars("ShutterSpeedValue"@));
            assert(is_ascii_chars("Title"@));
            assert(is_ascii_chars("Description"@));
            assert(is_ascii_chars("Keywords"@));
            assert(is_ascii_chars("ImageWidth"@));
            assert(is_ascii_chars("ImageHeight"@));
        }
        let lines = split_bytes(output.as_slice(), 10);
        let make = field_str_exec(&lines, ascii_bytes("Make").as_slice());
        let model = field_str_exec(&lines, ascii_bytes("Model").as_slice());
        let mut camera = title_case(make.as_str());
        camera.append(" ");
        let friendly = convert_model(model.as_str());
        camera.append(friendly.as_str());
        let aperture = match exif_lookup(&lines, ascii_bytes("ApertureValue").as_slice()) {
            Some(v) => {
                match string_from_utf8(v) {
                    Some(s) => s,
                    None => String::new(),
                }
            },
            None => String::from_str("0.0"),
        };
        let keywords = match exif_lookup(&lines, ascii_bytes("Keywords").as_slice()) {
            Some(v) => v,
            None => Vec::new(),
        };
        let tags = tags_exec(keywords.as_slice());
        let width = match exif_lookup(&lines, ascii_bytes("ImageWidth").as_slice()) {
            Some(v) => parse_dim_exec(v.as_slice()),
            None => None,
        };
        let height = match exif_lookup(&lines, ascii_bytes("ImageHeight").as_slice()) {
            Some(v) => parse_dim_exec(v.as_slice()),
            None => None,
        };
        let title = field_str_exec(&lines, ascii_bytes("Title").as_slice());
        Metadata {
            camera,
            focal_length: field_str_exec(&lines, ascii_bytes("FocalLength").as_slice()),
            iso: field_str_exec(&lines, ascii_bytes("ISO").as_slice()),
            aperture,
            shutter_speed: field_str_exec(&lines, ascii_bytes("ShutterSpeedValue").as_slice()),
            title: title_case(title.as_str()),
            description: field_str_exec(&lines, ascii_bytes("Description").as_slice()),
            tags,
            height_at_1200: scaled_height_exec(width, height),
            created_at: field_str_exec(&lines, ascii_bytes("Description").as_slice()),
        }
    }
}

} // verus!
