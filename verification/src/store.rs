//! The credential store: it renders this destination's section of the
//! shared configuration document and splices it in, reading, keeping and
//! rewriting every other line unchanged. Saving the same credentials twice
//! gives byte-identical output. Reading and writing the file itself is the
//! caller's I/O.
use vstd::prelude::*;
use vstd::utf8::{decode_utf8, encode_utf8, is_ascii_chars, valid_utf8};
use crate::encoding::{hex_digit, hex_digit_value, hex_value, is_hex_digit};
use crate::flow::Credentials;
use crate::form::{bytes_range, find_byte_spec, lemma_find_byte_spec, split_bytes, split_on};
use crate::strings::{ascii_bytes, char_bytes, string_from_utf8};

verus! {

/// How one byte of a field value stands in the document: quote and
/// backslash escaped, control bytes written `\u00XX`, everything else
/// itself.
pub open spec fn escape_byte(b: u8) -> Seq<u8> {
    if b == ('"' as u8) {
        seq![('\\' as u8), ('"' as u8)]
    } else if b == ('\\' as u8) {
        seq![('\\' as u8), ('\\' as u8)]
    } else if b < 32 {
        seq![
            ('\\' as u8),
            ('u' as u8),
            ('0' as u8),
            ('0' as u8),
            hex_digit(b / 16),
            hex_digit(b % 16),
        ]
    } else {
        seq![b]
    }
}

/// A whole value escaped.
pub open spec fn escaped_bytes(s: Seq<u8>) -> Seq<u8>
    decreases s.len(),
{
    if s.len() == 0 {
        Seq::empty()
    } else {
        escape_byte(s[0]) + escaped_bytes(s.drop_first())
    }
}

proof fn lemma_escaped_concat(a: Seq<u8>, b: Seq<u8>)
    ensures
        escaped_bytes(a + b) =~= escaped_bytes(a) + escaped_bytes(b),
    decreases a.len(),
{
    if a.len() == 0 {
        assert(a + b =~= b);
        assert(escaped_bytes(a) =~= Seq::<u8>::empty());
    } else {
        assert((a + b).drop_first() =~= a.drop_first() + b);
        lemma_escaped_concat(a.drop_first(), b);
    }
}

/// Escaped values hold no control byte, so a rendered line never holds a
/// line break.
proof fn lemma_escaped_printable(s: Seq<u8>)
    ensures
        forall|i: int| 0 <= i < escaped_bytes(s).len() ==> #[trigger] escaped_bytes(s)[i] >= 32,
    decreases s.len(),
{
    if s.len() > 0 {
        lemma_escaped_printable(s.drop_first());
        let e = escape_byte(s[0]);
        let rest = escaped_bytes(s.drop_first());
        assert(forall|i: int| 0 <= i < e.len() ==> #[trigger] e[i] >= 32);
        assert forall|i: int| 0 <= i < escaped_bytes(s).len() implies #[trigger] escaped_bytes(
            s,
        )[i] >= 32 by {
            if i < e.len() {
                assert(escaped_bytes(s)[i] == e[i]);
            } else {
                assert(escaped_bytes(s)[i] == rest[i - e.len()]);
            }
        }
    }
}

/// Escape one value.
pub fn escape_value(v: &[u8]) -> (r: Vec<u8>)
    ensures
        r@ == escaped_bytes(v@),
{
    let mut out: Vec<u8> = Vec::new();
    let mut i: usize = 0;
    while i < v.len()
        invariant
            i <= v@.len(),
            out@ == escaped_bytes(v@.take(i as int)),
        decreases v@.len() - i,
    {
        let b = v[i];
        proof {
            let x = v@[i as int];
            assert(v@.take(i + 1 as int) =~= v@.take(i as int) + seq![x]);
            lemma_escaped_concat(v@.take(i as int), seq![x]);
            assert(seq![x].drop_first() =~= Seq::<u8>::empty());
            assert(escaped_bytes(Seq::<u8>::empty()) == Seq::<u8>::empty());
            assert(escaped_bytes(seq![x]) == escape_byte(x) + escaped_bytes(Seq::<u8>::empty()));
            assert(escape_byte(x) + Seq::<u8>::empty() =~= escape_byte(x));
        }
        if b == ('"' as u8) {
            out.push('\\' as u8);
            out.push('"' as u8);
        } else if b == ('\\' as u8) {
            out.push('\\' as u8);
            out.push('\\' as u8);
        } else if b < 32 {
            out.push('\\' as u8);
            out.push('u' as u8);
            out.push('0' as u8);
            out.push('0' as u8);
            let hi = b / 16;
            let lo = b % 16;
            out.push(if hi < 10 { ('0' as u8) + hi } else { ('A' as u8) + (hi - 10) });
            out.push(if lo < 10 { ('0' as u8) + lo } else { ('A' as u8) + (lo - 10) });
        } else {
            out.push(b);
        }
        i = i + 1;
    }
    proof {
        assert(v@.take(v@.len() as int) =~= v@);
    }
    out
}

/// The section's header line.
pub open spec fn header_line() -> Seq<u8> {
    char_bytes("[flickr]"@)
}

/// A line free of a given byte.
pub open spec fn line_free_of(l: Seq<u8>, b: u8) -> bool {
    forall|i: int| 0 <= i < l.len() ==> #[trigger] l[i] != b
}

/// A line free of line breaks, as every rendered line is.
pub open spec fn line_ok(l: Seq<u8>) -> bool {
    line_free_of(l, 10)
}

/// A line that opens some section.
pub open spec fn is_any_header(l: Seq<u8>) -> bool {
    l.len() > 0 && l[0] == ('[' as u8)
}

/// One field's line: `key = "escaped value"`.
pub open spec fn field_line(key: Seq<char>, value: Seq<char>) -> Seq<u8> {
    char_bytes(key) + char_bytes(" = \""@) + escaped_bytes(encode_utf8(value)) + char_bytes("\""@)
}

/// An optional field's lines: one if present, none if absent.
pub open spec fn opt_field_lines(key: Seq<char>, v: Option<String>) -> Seq<Seq<u8>> {
    match v {
        Some(s) => seq![field_line(key, s@)],
        None => Seq::empty(),
    }
}

/// The rendered section: the header, the client pair, then each held
/// optional field, in the record's order.
pub open spec fn render_lines(c: Credentials) -> Seq<Seq<u8>> {
    seq![
        header_line(),
        field_line("oauth_client_key"@, c.client_key@),
        field_line("oauth_client_secret"@, c.client_secret@),
    ] + opt_field_lines("oauth_token"@, c.token) + opt_field_lines(
        "oauth_token_secret"@,
        c.token_secret,
    ) + opt_field_lines("oauth_verifier"@, c.verifier) + opt_field_lines(
        "oauth_access_token"@,
        c.access_token,
    ) + opt_field_lines("oauth_access_token_secret"@, c.access_token_secret)
}

/// A usable field key: it opens with `o` and holds only printable
/// characters, no quote and no backslash.
pub open spec fn key_ok(k: Seq<char>) -> bool {
    k.len() > 0 && k[0] == 'o' && forall|i: int|
        0 <= i < k.len() ==> (' ' <= #[trigger] k[i] <= '~' && k[i] != '"' && k[i] != '\\')
}

proof fn lemma_field_line_ok(key: Seq<char>, value: Seq<char>)
    requires
        key_ok(key),
    ensures
        line_ok(field_line(key, value)),
        field_line(key, value).len() > 0,
        field_line(key, value)[0] == ('o' as u8),
{
    reveal_strlit(" = \"");
    reveal_strlit("\"");
    lemma_escaped_printable(encode_utf8(value));
    let l = field_line(key, value);
    let a = char_bytes(key);
    let b = char_bytes(" = \""@);
    let e = escaped_bytes(encode_utf8(value));
    let q = char_bytes("\""@);
    assert(l[0] == a[0]);
    assert forall|i: int| 0 <= i < l.len() implies #[trigger] l[i] != 10 by {
        if i < a.len() {
            assert(l[i] == a[i] && a[i] == key[i] as u8);
        } else if i < a.len() + b.len() {
            assert(l[i] == b[i - a.len()] && b[i - a.len()] == " = \""@[i - a.len()] as u8);
        } else if i < a.len() + b.len() + e.len() {
            assert(l[i] == e[i - a.len() - b.len()]);
        } else {
            assert(l[i] == q[i - a.len() - b.len() - e.len()]);
        }
    }
}

/// The rendered section's shape: it opens with the header, and every
/// further line is a field line that opens no section and is no header, and
/// no line holds a line break.
proof fn lemma_render_lines_ok(c: Credentials)
    ensures
        render_lines(c).len() >= 3,
        render_lines(c)[0] == header_line(),
        forall|j: int| 0 <= j < render_lines(c).len() ==> line_ok(#[trigger] render_lines(c)[j]),
        forall|j: int|
            1 <= j < render_lines(c).len() ==> !is_any_header(#[trigger] render_lines(c)[j])
                && render_lines(c)[j] != header_line(),
{
    reveal_strlit("[flickr]");
    reveal_strlit("oauth_client_key");
    reveal_strlit("oauth_client_secret");
    reveal_strlit("oauth_token");
    reveal_strlit("oauth_token_secret");
    reveal_strlit("oauth_verifier");
    reveal_strlit("oauth_access_token");
    reveal_strlit("oauth_access_token_secret");
    assert(key_ok("oauth_client_key"@));
    assert(key_ok("oauth_client_secret"@));
    assert(key_ok("oauth_token"@));
    assert(key_ok("oauth_token_secret"@));
    assert(key_ok("oauth_verifier"@));
    assert(key_ok("oauth_access_token"@));
    assert(key_ok("oauth_access_token_secret"@));
    lemma_field_line_ok("oauth_client_key"@, c.client_key@);
    lemma_field_line_ok("oauth_client_secret"@, c.client_secret@);
    if c.token is Some {
        lemma_field_line_ok("oauth_token"@, c.token->0@);
    }
    if c.token_secret is Some {
        lemma_field_line_ok("oauth_token_secret"@, c.token_secret->0@);
    }
    if c.verifier is Some {
        lemma_field_line_ok("oauth_verifier"@, c.verifier->0@);
    }
    if c.access_token is Some {
        lemma_field_line_ok("oauth_access_token"@, c.access_token->0@);
    }
    if c.access_token_secret is Some {
        lemma_field_line_ok("oauth_access_token_secret"@, c.access_token_secret->0@);
    }
    let r = render_lines(c);
    assert(r[0] == header_line());
    assert(header_line().len() == 8 && header_line()[0] == ('[' as u8));
    assert forall|j: int| 0 <= j < r.len() implies line_ok(#[trigger] r[j]) by {
        if j == 0 {
            assert(forall|i: int|
                0 <= i < header_line().len() ==> #[trigger] header_line()[i] == "[flickr]"@[i]
                    as u8);
        }
    }
    assert forall|j: int| 1 <= j < r.len() implies !is_any_header(#[trigger] r[j]) && r[j]
        != header_line() by {
        assert(r[j][0] == ('o' as u8));
    }
}

/// The document a sequence of lines stands for: the lines joined with line
/// breaks.
pub open spec fn join_lines(ls: Seq<Seq<u8>>) -> Seq<u8>
    decreases ls.len(),
{
    if ls.len() == 0 {
        Seq::empty()
    } else if ls.len() == 1 {
        ls[0]
    } else {
        ls[0] + seq![10u8] + join_lines(ls.drop_first())
    }
}

proof fn lemma_join_push(ls: Seq<Seq<u8>>, l: Seq<u8>)
    requires
        ls.len() >= 1,
    ensures
        join_lines(ls.push(l)) == join_lines(ls) + seq![10u8] + l,
    decreases ls.len(),
{
    if ls.len() == 1 {
        assert(ls.push(l)[0] == ls[0]);
        assert(ls.push(l).drop_first() =~= seq![l]);
        assert(join_lines(seq![l]) == l);
    } else {
        assert(ls.push(l).drop_first() =~= ls.drop_first().push(l));
        lemma_join_push(ls.drop_first(), l);
        assert(join_lines(ls.push(l)) == ls[0] + seq![10u8] + join_lines(ls.drop_first().push(l)));
        assert(ls[0] + seq![10u8] + (join_lines(ls.drop_first()) + seq![10u8] + l) =~= (ls[0]
            + seq![10u8] + join_lines(ls.drop_first())) + seq![10u8] + l);
    }
}

proof fn lemma_find_byte_unique(s: Seq<u8>, b: u8, i: int)
    requires
        0 <= i < s.len(),
        s[i] == b,
        forall|k: int| 0 <= k < i ==> s[k] != b,
    ensures
        find_byte_spec(s, b) == Some(i),
{
    lemma_find_byte_spec(s, b);
    match find_byte_spec(s, b) {
        Some(j) => {
            if j < i {
                assert(s[j] == b);
            } else if j > i {
                assert(s[i] != b);
            }
        },
        None => {
            assert(s[i] != b);
        },
    }
}

/// Splitting joined break-free lines gives the lines back.
proof fn lemma_split_join(ls: Seq<Seq<u8>>)
    requires
        ls.len() >= 1,
        forall|j: int| 0 <= j < ls.len() ==> line_ok(#[trigger] ls[j]),
    ensures
        split_on(join_lines(ls), 10) == ls,
    decreases ls.len(),
{
    let j = join_lines(ls);
    if ls.len() == 1 {
        lemma_find_byte_spec(j, 10);
        match find_byte_spec(j, 10) {
            Some(i) => {
                assert(ls[0][i] != 10);
            },
            None => {},
        }
        assert(split_on(j, 10) =~= seq![ls[0]]);
    } else {
        let head = ls[0];
        let rest = join_lines(ls.drop_first());
        assert(j == head + seq![10u8] + rest);
        assert(j[head.len() as int] == 10);
        assert forall|k: int| 0 <= k < head.len() implies j[k] != 10 by {
            assert(j[k] == head[k]);
        }
        lemma_find_byte_unique(j, 10, head.len() as int);
        assert(j.take(head.len() as int) =~= head);
        assert(j.skip(head.len() as int + 1) =~= rest);
        assert(forall|t: int|
            0 <= t < ls.drop_first().len() ==> line_ok(#[trigger] ls.drop_first()[t]));
        lemma_split_join(ls.drop_first());
        assert(split_on(j, 10) =~= seq![head] + split_on(rest, 10));
        assert(seq![head] + ls.drop_first() =~= ls);
    }
}

/// Every segment of a split is free of the separator.
proof fn lemma_split_segments_ok(s: Seq<u8>, sep: u8)
    ensures
        forall|j: int| 0 <= j < split_on(s, sep).len() ==> line_free_of(#[trigger] split_on(s, sep)[j], sep),
        split_on(s, sep).len() >= 1,
    decreases s.len(),
{
    lemma_find_byte_spec(s, sep);
    match find_byte_spec(s, sep) {
        None => {
            assert(split_on(s, sep) =~= seq![s]);
        },
        Some(i) => {
            lemma_split_segments_ok(s.skip(i + 1), sep);
            let head = s.take(i);
            assert(forall|k: int| 0 <= k < head.len() ==> #[trigger] head[k] != sep);
            let r = split_on(s, sep);
            assert(r == seq![head] + split_on(s.skip(i + 1), sep));
            assert forall|j: int| 0 <= j < r.len() implies line_free_of(#[trigger] r[j], sep) by {
                if j > 0 {
                    assert(r[j] == split_on(s.skip(i + 1), sep)[j - 1]);
                }
            }
        },
    }
}

/// The first line that is the section's header, if any.
pub open spec fn find_header(ls: Seq<Seq<u8>>) -> Option<int>
    decreases ls.len(),
{
    if ls.len() == 0 {
        None
    } else if ls[0] == header_line() {
        Some(0)
    } else {
        match find_header(ls.drop_first()) {
            Some(i) => Some(i + 1),
            None => None,
        }
    }
}

proof fn lemma_find_header(ls: Seq<Seq<u8>>)
    ensures
        match find_header(ls) {
            Some(i) => 0 <= i < ls.len() && ls[i] == header_line() && forall|k: int|
                0 <= k < i ==> ls[k] != header_line(),
            None => forall|k: int| 0 <= k < ls.len() ==> ls[k] != header_line(),
        },
    decreases ls.len(),
{
    if ls.len() > 0 && ls[0] != header_line() {
        let t = ls.drop_first();
        lemma_find_header(t);
        match find_header(ls) {
            Some(i) => {
                assert(ls[i] == t[i - 1]);
                assert forall|k: int| 0 <= k < i implies ls[k] != header_line() by {
                    if k > 0 {
                        assert(ls[k] == t[k - 1]);
                    }
                }
            },
            None => {
                assert forall|k: int| 0 <= k < ls.len() implies ls[k] != header_line() by {
                    if k > 0 {
                        assert(ls[k] == t[k - 1]);
                    }
                }
            },
        }
    }
}

proof fn lemma_find_header_unique(ls: Seq<Seq<u8>>, i: int)
    requires
        0 <= i < ls.len(),
        ls[i] == header_line(),
        forall|k: int| 0 <= k < i ==> ls[k] != header_line(),
    ensures
        find_header(ls) == Some(i),
{
    lemma_find_header(ls);
    match find_header(ls) {
        Some(j) => {
            if j < i {
                assert(ls[j] == header_line());
            } else if j > i {
                assert(ls[i] != header_line());
            }
        },
        None => {
            assert(ls[i] != header_line());
        },
    }
}

/// Where the section opened at `j - 1` ends: the first later line that
/// opens a section, or the end of the document.
pub open spec fn section_end(ls: Seq<Seq<u8>>, j: int) -> int
    decreases ls.len() - j,
{
    if j < 0 || j >= ls.len() {
        ls.len() as int
    } else if is_any_header(ls[j]) {
        j
    } else {
        section_end(ls, j + 1)
    }
}

proof fn lemma_section_end(ls: Seq<Seq<u8>>, j: int)
    requires
        0 <= j <= ls.len(),
    ensures
        j <= section_end(ls, j) <= ls.len(),
        forall|k: int| j <= k < section_end(ls, j) ==> !is_any_header(#[trigger] ls[k]),
        section_end(ls, j) < ls.len() ==> is_any_header(ls[section_end(ls, j)]),
    decreases ls.len() - j,
{
    if j < ls.len() && !is_any_header(ls[j]) {
        lemma_section_end(ls, j + 1);
    }
}

proof fn lemma_section_end_unique(ls: Seq<Seq<u8>>, j: int, e: int)
    requires
        0 <= j <= e <= ls.len(),
        forall|k: int| j <= k < e ==> !is_any_header(#[trigger] ls[k]),
        e < ls.len() ==> is_any_header(ls[e]),
    ensures
        section_end(ls, j) == e,
    decreases e - j,
{
    if j < e {
        assert(!is_any_header(ls[j]));
        lemma_section_end_unique(ls, j + 1, e);
    }
}

/// The document's lines after a save: the lines before the section, the
/// rendered section, and the lines from the next section on; a document
/// without the section gets it appended.
pub open spec fn save_lines(ls: Seq<Seq<u8>>, c: Credentials) -> Seq<Seq<u8>> {
    match find_header(ls) {
        None => ls + render_lines(c),
        Some(h) => ls.take(h) + render_lines(c) + ls.skip(section_end(ls, h + 1)),
    }
}

/// The saved document: its lines joined again.
pub open spec fn save_doc(doc: Seq<u8>, c: Credentials) -> Seq<u8> {
    join_lines(save_lines(split_on(doc, 10), c))
}

/// Saving touches no other line: everything before the section and
/// everything from the next section on reappears unchanged, in order.
pub proof fn lemma_save_preserves_other_lines(doc: Seq<u8>, c: Credentials)
    ensures
        ({
            let ls = split_on(doc, 10);
            let out = save_lines(ls, c);
            let n = render_lines(c).len();
            match find_header(ls) {
                None => out.take(ls.len() as int) == ls && out.skip(ls.len() as int)
                    == render_lines(c),
                Some(h) => out.take(h) == ls.take(h) && out.subrange(h, h + n) == render_lines(c)
                    && out.skip(h + n) == ls.skip(section_end(ls, h + 1)),
            }
        }),
{
    let ls = split_on(doc, 10);
    let out = save_lines(ls, c);
    let n = render_lines(c).len() as int;
    lemma_find_header(ls);
    match find_header(ls) {
        None => {
            assert(out.take(ls.len() as int) =~= ls);
            assert(out.skip(ls.len() as int) =~= render_lines(c));
        },
        Some(h) => {
            lemma_section_end(ls, h + 1);
            assert(out.take(h) =~= ls.take(h));
            assert(out.subrange(h, h + n) =~= render_lines(c));
            assert(out.skip(h + n) =~= ls.skip(section_end(ls, h + 1)));
        },
    }
}

/// Saving the same credentials twice gives byte-identical output.
pub proof fn lemma_save_idempotent(doc: Seq<u8>, c: Credentials)
    ensures
        save_doc(save_doc(doc, c), c) == save_doc(doc, c),
{
    let ls = split_on(doc, 10);
    let r = render_lines(c);
    let n = r.len() as int;
    let sl = save_lines(ls, c);
    lemma_render_lines_ok(c);
    lemma_split_segments_ok(doc, 10);
    lemma_find_header(ls);
    assert(forall|j: int| 0 <= j < ls.len() ==> line_ok(#[trigger] ls[j]));
    match find_header(ls) {
        None => {
            assert(sl =~= ls + r);
            assert forall|j: int| 0 <= j < sl.len() implies line_ok(#[trigger] sl[j]) by {
                if j < ls.len() {
                    assert(sl[j] == ls[j]);
                } else {
                    assert(sl[j] == r[j - ls.len()]);
                }
            }
            lemma_split_join(sl);
            assert(split_on(save_doc(doc, c), 10) == sl);
            assert forall|k: int| 0 <= k < ls.len() implies sl[k] != header_line() by {
                assert(sl[k] == ls[k]);
            }
            assert(sl[ls.len() as int] == r[0]);
            lemma_find_header_unique(sl, ls.len() as int);
            assert forall|k: int| ls.len() + 1 <= k < sl.len() implies !is_any_header(
                #[trigger] sl[k],
            ) by {
                assert(sl[k] == r[k - ls.len()]);
            }
            lemma_section_end_unique(sl, ls.len() as int + 1, sl.len() as int);
            assert(save_lines(sl, c) =~= sl.take(ls.len() as int) + r + sl.skip(sl.len() as int));
            assert(sl.take(ls.len() as int) =~= ls);
            assert(sl.skip(sl.len() as int) =~= Seq::<Seq<u8>>::empty());
            assert(save_lines(sl, c) =~= sl);
        },
        Some(h) => {
            let e = section_end(ls, h + 1);
            lemma_section_end(ls, h + 1);
            assert(sl =~= ls.take(h) + r + ls.skip(e));
            assert forall|j: int| 0 <= j < sl.len() implies line_ok(#[trigger] sl[j]) by {
                if j < h {
                    assert(sl[j] == ls.take(h)[j] && ls.take(h)[j] == ls[j]);
                } else if j < h + n {
                    assert(sl[j] == r[j - h]);
                } else {
                    assert(sl[j] == ls.skip(e)[j - h - n] && ls.skip(e)[j - h - n] == ls[e + j - h
                        - n]);
                }
            }
            lemma_split_join(sl);
            assert(split_on(save_doc(doc, c), 10) == sl);
            assert forall|k: int| 0 <= k < h implies sl[k] != header_line() by {
                assert(sl[k] == ls[k]);
            }
            assert(sl[h] == r[0]);
            lemma_find_header_unique(sl, h);
            assert forall|k: int| h + 1 <= k < h + n implies !is_any_header(#[trigger] sl[k]) by {
                assert(sl[k] == r[k - h]);
            }
            if h + n < sl.len() {
                assert(sl[h + n] == ls.skip(e)[0] && ls.skip(e)[0] == ls[e]);
                assert(e < ls.len());
                assert(is_any_header(sl[h + n]));
            }
            lemma_section_end_unique(sl, h + 1, h + n);
            assert(save_lines(sl, c) =~= sl.take(h) + r + sl.skip(h + n));
            assert(sl.take(h) =~= ls.take(h));
            assert(sl.skip(h + n) =~= ls.skip(e));
            assert(save_lines(sl, c) =~= sl);
        },
    }
}


/// Copy one line.
fn clone_line(v: &Vec<u8>) -> (r: Vec<u8>)
    ensures
        r@ == v@,
{
    let r = crate::form::bytes_range(v.as_slice(), 0, v.len());
    proof {
        assert(v@.subrange(0, v@.len() as int) =~= v@);
    }
    r
}

/// Copy a range of lines.
fn take_lines(src: &Vec<Vec<u8>>, a: usize, b: usize) -> (r: Vec<Vec<u8>>)
    requires
        a <= b <= src@.len(),
    ensures
        r.deep_view() == src.deep_view().subrange(a as int, b as int),
{
    let mut out: Vec<Vec<u8>> = Vec::new();
    let mut i: usize = a;
    proof {
        assert(out.deep_view() =~= src.deep_view().subrange(a as int, a as int));
    }
    while i < b
        invariant
            a <= i <= b <= src@.len(),
            src.deep_view().len() == src@.len(),
            out.deep_view() == src.deep_view().subrange(a as int, i as int),
        decreases b - i,
    {
        let ghost out_dv = out.deep_view();
        let line = clone_line(&src[i]);
        out.push(line);
        proof {
            assert(line@ == src.deep_view()[i as int]);
            assert(out.deep_view() =~~= out_dv.push(src.deep_view()[i as int]));
            assert(src.deep_view().subrange(a as int, i + 1 as int) =~= src.deep_view().subrange(
                a as int,
                i as int,
            ).push(src.deep_view()[i as int]));
        }
        i = i + 1;
    }
    out
}

/// Move all lines of one list onto the end of another.
fn append_lines(dst: &mut Vec<Vec<u8>>, src: Vec<Vec<u8>>)
    ensures
        final(dst).deep_view() == old(dst).deep_view() + src.deep_view(),
{
    let ghost src_dv = src.deep_view();
    let mut rest = src;
    let ghost mut k: int = 0;
    proof {
        assert(old(dst).deep_view() + src_dv.take(0) =~= old(dst).deep_view());
    }
    while rest.len() > 0
        invariant
            0 <= k,
            k + rest@.len() == src_dv.len(),
            rest.deep_view() == src_dv.skip(k),
            dst.deep_view() == old(dst).deep_view() + src_dv.take(k),
        decreases rest@.len(),
    {
        let ghost rest_dv = rest.deep_view();
        let ghost dst_dv = dst.deep_view();
        let x = rest.remove(0);
        dst.push(x);
        proof {
            assert(x.deep_view() == rest_dv[0]);
            assert(rest.deep_view() =~~= rest_dv.remove(0));
            assert(rest_dv.remove(0) =~= src_dv.skip(k + 1));
            assert(dst.deep_view() =~~= dst_dv.push(rest_dv[0]));
            assert(rest_dv[0] == src_dv[k]);
            assert(old(dst).deep_view() + src_dv.take(k + 1) =~= (old(dst).deep_view()
                + src_dv.take(k)).push(src_dv[k]));
            k = k + 1;
        }
    }
    proof {
        assert(src_dv.take(src_dv.len() as int) =~= src_dv);
    }
}

/// Join lines back into one document.
fn join_lines_exec(ls: &Vec<Vec<u8>>) -> (r: Vec<u8>)
    ensures
        r@ == join_lines(ls.deep_view()),
{
    let mut out: Vec<u8> = Vec::new();
    let mut i: usize = 0;
    while i < ls.len()
        invariant
            i <= ls@.len(),
            ls.deep_view().len() == ls@.len(),
            i == 0 ==> out@.len() == 0,
            i > 0 ==> out@ == join_lines(ls.deep_view().take(i as int)),
        decreases ls@.len() - i,
    {
        if i > 0 {
            out.push(10);
        }
        crate::bytes::extend_bytes(&mut out, ls[i].as_slice());
        proof {
            let dv = ls.deep_view();
            assert(dv[i as int] == ls@[i as int]@);
            if i == 0 {
                assert(dv.take(1)[0] == dv[0]);
                assert(join_lines(dv.take(1)) == dv[0]);
                assert(out@ =~= dv[0]);
            } else {
                lemma_join_push(dv.take(i as int), dv[i as int]);
                assert(dv.take(i + 1 as int) =~= dv.take(i as int).push(dv[i as int]));
                assert(out@ =~= join_lines(dv.take(i as int)) + seq![10u8] + dv[i as int]);
            }
        }
        i = i + 1;
    }
    proof {
        let dv = ls.deep_view();
        if ls@.len() == 0 {
            assert(dv =~= Seq::<Seq<u8>>::empty());
            assert(out@ =~= join_lines(dv));
        } else {
            assert(dv.take(dv.len() as int) =~= dv);
        }
    }
    out
}

/// The header line, built.
fn header_line_exec() -> (r: Vec<u8>)
    ensures
        r@ == header_line(),
{
    proof {
        reveal_strlit("[flickr]");
        assert(is_ascii_chars("[flickr]"@));
    }
    ascii_bytes("[flickr]")
}

/// Find the section's header among the lines.
fn find_flickr_line(ls: &Vec<Vec<u8>>) -> (r: Option<usize>)
    ensures
        match r {
            Some(h) => h < ls@.len() && find_header(ls.deep_view()) == Some(h as int),
            None => find_header(ls.deep_view()) is None,
        },
{
    let hb = header_line_exec();
    let mut i: usize = 0;
    while i < ls.len()
        invariant
            i <= ls@.len(),
            ls.deep_view().len() == ls@.len(),
            hb@ == header_line(),
            forall|k: int| 0 <= k < i ==> ls.deep_view()[k] != header_line(),
        decreases ls@.len() - i,
    {
        proof {
            assert(ls.deep_view()[i as int] == ls@[i as int]@);
        }
        if crate::bytes::bytes_eq(ls[i].as_slice(), hb.as_slice()) {
            proof {
                lemma_find_header_unique(ls.deep_view(), i as int);
            }
            return Some(i);
        }
        i = i + 1;
    }
    proof {
        lemma_find_header(ls.deep_view());
        if find_header(ls.deep_view()) is Some {
            let j = find_header(ls.deep_view())->0;
            assert(ls.deep_view()[j] != header_line());
        }
    }
    None
}

/// Find where the section opened before `j` ends.
fn section_end_exec(ls: &Vec<Vec<u8>>, j: usize) -> (r: usize)
    requires
        j <= ls@.len(),
    ensures
        r as int == section_end(ls.deep_view(), j as int),
        j <= r <= ls@.len(),
    decreases ls@.len() - j,
{
    proof {
        assert(ls.deep_view().len() == ls@.len());
    }
    if j == ls.len() {
        return j;
    }
    proof {
        assert(ls.deep_view()[j as int] == ls@[j as int]@);
    }
    let line = &ls[j];
    if line.len() > 0 && line.as_slice()[0] == ('[' as u8) {
        proof {
            assert(is_any_header(ls.deep_view()[j as int]));
        }
        j
    } else {
        proof {
            assert(!is_any_header(ls.deep_view()[j as int]));
        }
        section_end_exec(ls, j + 1)
    }
}

/// One field's line, built.
fn field_line_exec(key: &str, value: &str) -> (r: Vec<u8>)
    requires
        key_ok(key@),
    ensures
        r@ == field_line(key@, value@),
{
    proof {
        assert(is_ascii_chars(key@));
        reveal_strlit(" = \"");
        reveal_strlit("\"");
        assert(is_ascii_chars(" = \""@));
        assert(is_ascii_chars("\""@));
    }
    let mut out = ascii_bytes(key);
    let sep = ascii_bytes(" = \"");
    crate::bytes::extend_bytes(&mut out, sep.as_slice());
    let esc = escape_value(value.as_bytes());
    crate::bytes::extend_bytes(&mut out, esc.as_slice());
    let quote = ascii_bytes("\"");
    crate::bytes::extend_bytes(&mut out, quote.as_slice());
    proof {
        assert(out@ =~= field_line(key@, value@));
    }
    out
}

/// The rendered section, built line by line.
fn render_lines_exec(c: &Credentials) -> (r: Vec<Vec<u8>>)
    ensures
        r.deep_view() == render_lines(*c),
{
    proof {
        reveal_strlit("oauth_client_key");
        reveal_strlit("oauth_client_secret");
        reveal_strlit("oauth_token");
        reveal_strlit("oauth_token_secret");
        reveal_strlit("oauth_verifier");
        reveal_strlit("oauth_access_token");
        reveal_strlit("oauth_access_token_secret");
        assert(key_ok("oauth_client_key"@));
        assert(key_ok("oauth_client_secret"@));
        assert(key_ok("oauth_token"@));
        assert(key_ok("oauth_token_secret"@));
        assert(key_ok("oauth_verifier"@));
        assert(key_ok("oauth_access_token"@));
        assert(key_ok("oauth_access_token_secret"@));
    }
    let mut out: Vec<Vec<u8>> = Vec::new();
    out.push(header_line_exec());
    out.push(field_line_exec("oauth_client_key", c.client_key.as_str()));
    out.push(field_line_exec("oauth_client_secret", c.client_secret.as_str()));
    let ghost head = seq![
        header_line(),
        field_line("oauth_client_key"@, c.client_key@),
        field_line("oauth_client_secret"@, c.client_secret@),
    ];
    proof {
        assert(out.deep_view() =~~= head);
    }
    let ghost s1 = head + opt_field_lines("oauth_token"@, c.token);
    match &c.token {
        Some(t) => {
            out.push(field_line_exec("oauth_token", t.as_str()));
        },
        None => {},
    }
    proof {
        assert(out.deep_view() =~~= s1);
    }
    let ghost s2 = s1 + opt_field_lines("oauth_token_secret"@, c.token_secret);
    match &c.token_secret {
        Some(t) => {
            out.push(field_line_exec("oauth_token_secret", t.as_str()));
        },
        None => {},
    }
    proof {
        assert(out.deep_view() =~~= s2);
    }
    let ghost s3 = s2 + opt_field_lines("oauth_verifier"@, c.verifier);
    match &c.verifier {
        Some(t) => {
            out.push(field_line_exec("oauth_verifier", t.as_str()));
        },
        None => {},
    }
    proof {
        assert(out.deep_view() =~~= s3);
    }
    let ghost s4 = s3 + opt_field_lines("oauth_access_token"@, c.access_token);
    match &c.access_token {
        Some(t) => {
            out.push(field_line_exec("oauth_access_token", t.as_str()));
        },
        None => {},
    }
    proof {
        assert(out.deep_view() =~~= s4);
    }
    let ghost s5 = s4 + opt_field_lines("oauth_access_token_secret"@, c.access_token_secret);
    match &c.access_token_secret {
        Some(t) => {
            out.push(field_line_exec("oauth_access_token_secret", t.as_str()));
        },
        None => {},
    }
    proof {
        assert(out.deep_view() =~~= s5);
        assert(s5 =~= render_lines(*c));
    }
    out
}


/// The bytes an escaped value stands for: the inverse reading of the
/// escapes the store writes; a stray backslash escapes the next byte, and a
/// trailing one stands for itself.
pub open spec fn unescaped_bytes(s: Seq<u8>) -> Seq<u8>
    decreases s.len(),
{
    if s.len() == 0 {
        Seq::empty()
    } else if s[0] == ('\\' as u8) && s.len() >= 6 && s[1] == ('u' as u8) && is_hex_digit(s[2])
        && is_hex_digit(s[3]) && is_hex_digit(s[4]) && is_hex_digit(s[5]) {
        seq![(16 * hex_value(s[4]) + hex_value(s[5])) as u8] + unescaped_bytes(s.skip(6))
    } else if s[0] == ('\\' as u8) && s.len() >= 2 {
        seq![s[1]] + unescaped_bytes(s.skip(2))
    } else {
        seq![s[0]] + unescaped_bytes(s.drop_first())
    }
}

/// Read an escaped value back.
pub fn unescape_value(s: &[u8]) -> (r: Vec<u8>)
    ensures
        r@ == unescaped_bytes(s@),
{
    let mut out: Vec<u8> = Vec::new();
    let mut i: usize = 0;
    proof {
        assert(s@.skip(0) =~= s@);
    }
    while i < s.len()
        invariant
            i <= s@.len(),
            out@ + unescaped_bytes(s@.skip(i as int)) == unescaped_bytes(s@),
        decreases s@.len() - i,
    {
        let b = s[i];
        proof {
            let t = s@.skip(i as int);
            assert(t.len() == s@.len() - i);
            assert(forall|k: int| 0 <= k < t.len() ==> #[trigger] t[k] == s@[i + k]);
        }
        if b == ('\\' as u8) && s.len() - i >= 6 && s[i + 1] == ('u' as u8)
            && hex_digit_value(s[i + 2]).is_some() && hex_digit_value(s[i + 3]).is_some()
            && hex_digit_value(s[i + 4]).is_some() && hex_digit_value(s[i + 5]).is_some() {
            let hi = hex_digit_value(s[i + 4]).unwrap();
            let lo = hex_digit_value(s[i + 5]).unwrap();
            proof {
                assert(s@.skip(i as int).skip(6) =~= s@.skip(i + 6 as int));
            }
            out.push(16 * hi + lo);
            i = i + 6;
        } else if b == ('\\' as u8) && s.len() - i >= 2 {
            proof {
                assert(s@.skip(i as int).skip(2) =~= s@.skip(i + 2 as int));
            }
            out.push(s[i + 1]);
            i = i + 2;
        } else {
            proof {
                assert(s@.skip(i as int).drop_first() =~= s@.skip(i + 1 as int));
            }
            out.push(b);
            i = i + 1;
        }
    }
    proof {
        assert(s@.skip(s@.len() as int) =~= Seq::<u8>::empty());
        assert(out@ + Seq::<u8>::empty() =~= out@);
    }
    out
}


proof fn lemma_unescaped_concat_head(e: Seq<u8>, t: Seq<u8>, b: u8)
    requires
        e == escape_byte(b),
    ensures
        unescaped_bytes(e + t) == seq![b] + unescaped_bytes(t),
{
    let s = e + t;
    if b == ('"' as u8) || b == ('\\' as u8) {
        assert(s[0] == ('\\' as u8) && s.len() >= 2 && s[1] == b);
        assert(!(s.len() >= 6 && s[1] == ('u' as u8) && is_hex_digit(s[2]) && is_hex_digit(s[3])
            && is_hex_digit(s[4]) && is_hex_digit(s[5])));
        assert(s.skip(2) =~= t);
    } else if b < 32 {
        assert(s.len() >= 6);
        assert(s[0] == ('\\' as u8) && s[1] == ('u' as u8));
        assert(s[2] == ('0' as u8) && s[3] == ('0' as u8));
        assert(s[4] == hex_digit(b / 16) && s[5] == hex_digit(b % 16));
        crate::encoding::lemma_percent_encoding_shape(b);
        assert(is_hex_digit(s[4]) && is_hex_digit(s[5]));
        assert(16 * hex_value(s[4]) + hex_value(s[5]) == b);
        assert(s.skip(6) =~= t);
    } else {
        assert(s[0] == b && b != ('\\' as u8));
        assert(s.drop_first() =~= t);
    }
}

/// Reading an escaped value back gives the value: the store's escaping
/// loses nothing.
pub proof fn lemma_unescape_escape(v: Seq<u8>)
    ensures
        unescaped_bytes(escaped_bytes(v)) == v,
    decreases v.len(),
{
    if v.len() == 0 {
        assert(escaped_bytes(v) =~= Seq::<u8>::empty());
    } else {
        lemma_unescape_escape(v.drop_first());
        lemma_unescaped_concat_head(escape_byte(v[0]), escaped_bytes(v.drop_first()), v[0]);
        assert(seq![v[0]] + v.drop_first() =~= v);
    }
}

/// The raw escaped value a line carries for a key, if the line has the
/// shape `key = "value"`.
pub open spec fn field_of_line(line: Seq<u8>, key: Seq<u8>) -> Option<Seq<u8>> {
    let p = key + char_bytes(" = \""@);
    if line.len() > p.len() && line.take(p.len() as int) == p && line.last() == ('"' as u8) {
        Some(line.subrange(p.len() as int, line.len() - 1))
    } else {
        None
    }
}

/// Read one line as the key's field, if it has the shape.
fn field_of_line_exec(line: &[u8], prefix: &[u8]) -> (r: Option<Vec<u8>>)
    ensures
        ({
            let key = prefix@.take(prefix@.len() - 4);
            prefix@ == key + char_bytes(" = \""@) ==> match r {
                Some(v) => field_of_line(line@, key) == Some(v@),
                None => field_of_line(line@, key) is None,
            }
        }),
{
    proof {
        reveal_strlit(" = \"");
        assert(char_bytes(" = \""@).len() == 4);
    }
    if line.len() <= prefix.len() {
        return None;
    }
    let head = bytes_range(line, 0, prefix.len());
    if !crate::bytes::bytes_eq(head.as_slice(), prefix) {
        proof {
            assert(line@.take(prefix@.len() as int) =~= line@.subrange(0, prefix@.len() as int));
        }
        return None;
    }
    if line[line.len() - 1] != ('"' as u8) {
        return None;
    }
    let v = bytes_range(line, prefix.len(), line.len() - 1);
    proof {
        assert(line@.take(prefix@.len() as int) =~= line@.subrange(0, prefix@.len() as int));
    }
    Some(v)
}

/// The last field line for the key among the section's lines before `hi`.
pub open spec fn section_field(ls: Seq<Seq<u8>>, lo: int, hi: int, key: Seq<u8>) -> Option<Seq<u8>>
    decreases hi - lo,
{
    if hi <= lo {
        None
    } else {
        match field_of_line(ls[hi - 1], key) {
            Some(v) => Some(v),
            None => section_field(ls, lo, hi - 1, key),
        }
    }
}

/// The text the stored section holds for a key, if the section and the key
/// are there and the value reads back as well-formed text.
pub open spec fn loaded_field(doc: Seq<u8>, key: Seq<char>) -> Option<Seq<char>> {
    let ls = split_on(doc, 10);
    match find_header(ls) {
        None => None,
        Some(h) => match section_field(ls, h + 1, section_end(ls, h + 1), char_bytes(key)) {
            Some(raw) => {
                let v = unescaped_bytes(raw);
                if valid_utf8(v) {
                    Some(decode_utf8(v))
                } else {
                    None
                }
            },
            None => None,
        },
    }
}

/// Look one key up within the section's line range.
fn load_field(lines: &Vec<Vec<u8>>, lo: usize, hi: usize, key: &str) -> (r: Option<String>)
    requires
        is_ascii_chars(key@),
        lo <= hi <= lines@.len(),
    ensures
        match section_field(lines.deep_view(), lo as int, hi as int, char_bytes(key@)) {
            Some(raw) => {
                let v = unescaped_bytes(raw);
                if valid_utf8(v) {
                    r matches Some(s) && s@ == decode_utf8(v)
                } else {
                    r is None
                }
            },
            None => r is None,
        },
{
    proof {
        reveal_strlit(" = \"");
        assert(is_ascii_chars(" = \""@));
    }
    let mut prefix = ascii_bytes(key);
    let tail = ascii_bytes(" = \"");
    crate::bytes::extend_bytes(&mut prefix, tail.as_slice());
    proof {
        assert(prefix@.take(prefix@.len() - 4) =~= char_bytes(key@));
        assert(prefix@ =~= char_bytes(key@) + char_bytes(" = \""@));
    }
    let mut i: usize = hi;
    while i > lo
        invariant
            lo <= i <= hi <= lines@.len(),
            lines.deep_view().len() == lines@.len(),
            prefix@ == char_bytes(key@) + char_bytes(" = \""@),
            prefix@.take(prefix@.len() - 4) == char_bytes(key@),
            section_field(lines.deep_view(), lo as int, hi as int, char_bytes(key@))
                == section_field(lines.deep_view(), lo as int, i as int, char_bytes(key@)),
        decreases i,
    {
        proof {
            assert(lines.deep_view()[i - 1] == lines@[i - 1]@);
        }
        match field_of_line_exec(lines[i - 1].as_slice(), prefix.as_slice()) {
            Some(raw) => {
                let v = unescape_value(raw.as_slice());
                return string_from_utf8(v);
            },
            None => {},
        }
        i = i - 1;
    }
    None
}


/// The text an optional field holds.
pub open spec fn opt_text(v: Option<String>) -> Option<Seq<char>> {
    match v {
        Some(s) => Some(s@),
        None => None,
    }
}

/// The credential store: rendering and splicing this destination's section
/// of the shared configuration document. Reading and writing the file is
/// the caller's I/O.
pub struct CredentialStore;

impl CredentialStore {
    /// Write the credentials into the document: the section is replaced in
    /// place, or appended if absent, and every other line is kept unchanged.
    /// Saving the same credentials twice gives byte-identical output.
    pub fn save(doc: &[u8], c: &Credentials) -> (r: Vec<u8>)
        ensures
            r@ == save_doc(doc@, *c),
    {
        let lines = split_bytes(doc, 10);
        let render = render_lines_exec(c);
        match find_flickr_line(&lines) {
            None => {
                let mut out = take_lines(&lines, 0, lines.len());
                proof {
                    assert(lines.deep_view().subrange(0, lines.deep_view().len() as int)
                        =~= lines.deep_view());
                }
                append_lines(&mut out, render);
                let r = join_lines_exec(&out);
                proof {
                    assert(out.deep_view() =~= save_lines(lines.deep_view(), *c));
                }
                r
            },
            Some(h) => {
                proof {
                    lemma_find_header(lines.deep_view());
                }
                let n = lines.len();
                let e = section_end_exec(&lines, h + 1);
                let mut out = take_lines(&lines, 0, h);
                proof {
                    assert(lines.deep_view().subrange(0, h as int) =~= lines.deep_view().take(
                        h as int,
                    ));
                }
                append_lines(&mut out, render);
                let post = take_lines(&lines, e, n);
                proof {
                    assert(lines.deep_view().subrange(e as int, lines.deep_view().len() as int)
                        =~= lines.deep_view().skip(e as int));
                }
                append_lines(&mut out, post);
                let r = join_lines_exec(&out);
                proof {
                    assert(out.deep_view() =~= save_lines(lines.deep_view(), *c));
                }
                r
            },
        }
    }

    /// Read the credentials out of the document's section. The client pair
    /// must be there; optional fields stay absent when missing; an access
    /// token without its secret, or the reverse, counts as absent, so the
    /// record's invariant holds.
    pub fn load(doc: &[u8]) -> (r: Option<Credentials>)
        ensures
            r is Some <==> (loaded_field(doc@, "oauth_client_key"@) is Some && loaded_field(
                doc@,
                "oauth_client_secret"@,
            ) is Some),
            r matches Some(c) ==> {
                &&& c.wf()
                &&& Some(c.client_key@) == loaded_field(doc@, "oauth_client_key"@)
                &&& Some(c.client_secret@) == loaded_field(doc@, "oauth_client_secret"@)
                &&& opt_text(c.token) == loaded_field(doc@, "oauth_token"@)
                &&& opt_text(c.token_secret) == loaded_field(doc@, "oauth_token_secret"@)
                &&& opt_text(c.verifier) == loaded_field(doc@, "oauth_verifier"@)
                &&& (loaded_field(doc@, "oauth_access_token"@) is Some && loaded_field(
                    doc@,
                    "oauth_access_token_secret"@,
                ) is Some ==> opt_text(c.access_token) == loaded_field(
                    doc@,
                    "oauth_access_token"@,
                ) && opt_text(c.access_token_secret) == loaded_field(
                    doc@,
                    "oauth_access_token_secret"@,
                ))
                &&& (!(loaded_field(doc@, "oauth_access_token"@) is Some && loaded_field(
                    doc@,
                    "oauth_access_token_secret"@,
                ) is Some) ==> c.access_token is None && c.access_token_secret is None)
            },
    {
        proof {
            reveal_strlit("oauth_client_key");
            reveal_strlit("oauth_client_secret");
            reveal_strlit("oauth_token");
            reveal_strlit("oauth_token_secret");
            reveal_strlit("oauth_verifier");
            reveal_strlit("oauth_access_token");
            reveal_strlit("oauth_access_token_secret");
            assert(is_ascii_chars("oauth_client_key"@));
            assert(is_ascii_chars("oauth_client_secret"@));
            assert(is_ascii_chars("oauth_token"@));
            assert(is_ascii_chars("oauth_token_secret"@));
            assert(is_ascii_chars("oauth_verifier"@));
            assert(is_ascii_chars("oauth_access_token"@));
            assert(is_ascii_chars("oauth_access_token_secret"@));
        }
        let lines = split_bytes(doc, 10);
        let h = match find_flickr_line(&lines) {
            Some(h) => h,
            None => {
                return None;
            },
        };
        let n = lines.len();
        let e = section_end_exec(&lines, h + 1);
        let client_key = match load_field(&lines, h + 1, e, "oauth_client_key") {
            Some(s) => s,
            None => {
                return None;
            },
        };
        let client_secret = match load_field(&lines, h + 1, e, "oauth_client_secret") {
            Some(s) => s,
            None => {
                return None;
            },
        };
        let token = load_field(&lines, h + 1, e, "oauth_token");
        let token_secret = load_field(&lines, h + 1, e, "oauth_token_secret");
        let verifier = load_field(&lines, h + 1, e, "oauth_verifier");
        let at = load_field(&lines, h + 1, e, "oauth_access_token");
        let ats = load_field(&lines, h + 1, e, "oauth_access_token_secret");
        let (access_token, access_token_secret) = if at.is_some() && ats.is_some() {
            (at, ats)
        } else {
            (None, None)
        };
        Some(
            Credentials {
                client_key,
                client_secret,
                token,
                token_secret,
                verifier,
                access_token,
                access_token_secret,
            },
        )
    }
}

/// The token-based photo destination's own glue around the store.
pub struct Flickr;

impl Flickr {
    /// Write the enriched credentials back into the configuration document
    /// and hand both back: the credentials stay usable in memory whatever
    /// the caller's write then does.
    pub fn save_access_token(config: Credentials, doc: &[u8]) -> (r: (Credentials, Vec<u8>))
        ensures
            r.0 == config,
            r.1@ == save_doc(doc@, config),
    {
        let new_doc = CredentialStore::save(doc, &config);
        (config, new_doc)
    }
}

} // verus!
