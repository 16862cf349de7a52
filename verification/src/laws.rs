//! The laws the codec obeys, stated over the specification functions that
//! the executable functions' contracts are written in, and proved here.

use vstd::prelude::*;
use crate::ascii::{
    all_print_bytes, all_token_bytes, all_value_bytes, chars_of, is_token_byte, is_trim_byte,
    is_value_char, lemma_ascii_chars_of, lemma_value_bytes_chars, lower_chars,
};
use crate::errors::SpecError;
use crate::headers::{insert_spec, lemma_name_idx, lookup_spec, name_idx, wf_headers};
use crate::http_text::{
    header_line_spec, headers_spec, request_line_spec, status_line_spec, LINE_CAP,
};
use crate::message::{RequestView, ResponseView};
use crate::method::{method_label, method_of, Method};
use crate::source::{drain_scan, line_scan, take_count, Source};
use crate::stream_builder::{build_request_spec, build_response_spec};
use crate::streamable::{reason_render, ser_headers_spec, ser_request_spec, ser_response_spec};
use crate::text::{
    dec_rep, first_idx, lemma_u16_scan_append, split_sp, trim_back, trim_front, trim_ws,
    u16_parse_spec, u16_scan, lemma_split_at_space, lemma_split_single,
};
use crate::version::{version_label, version_of, Version};

verus! {

// ---------------------------------------------------------------------------
// Parsing is a function of the bytes alone.
// ---------------------------------------------------------------------------
/// Parsing the same immutable byte buffer twice yields two structurally
/// equal messages: together with the builders' contracts, which pin each
/// result to these specification functions of the remaining bytes alone,
/// no hidden state can distinguish two parses of one buffer.
pub proof fn lemma_parse_no_hidden_state(s1: Source, s2: Source)
    requires
        s1.remaining() == s2.remaining(),
    ensures
        build_request_spec(s1.remaining()) == build_request_spec(s2.remaining()),
        build_response_spec(s1.remaining()) == build_response_spec(s2.remaining()),
{
}

// ---------------------------------------------------------------------------
// Overflow is an error, never a truncation.
// ---------------------------------------------------------------------------
/// A line longer than the line buffer capacity yields `BufferOverflow` from
/// each parser that scans it, never a truncated result.
pub proof fn lemma_long_line_overflows(rem: Seq<u8>, acc: Seq<(Seq<char>, Seq<char>)>)
    requires
        line_scan(rem, false).0.len() > LINE_CAP,
    ensures
        request_line_spec(rem).0 == Err::<(Method, Seq<char>, Version), SpecError>(
            SpecError::BufferOverflow,
        ),
        status_line_spec(rem).0 == Err::<(Version, u16), SpecError>(SpecError::BufferOverflow),
        headers_spec(rem, acc).0 == Err::<Seq<(Seq<char>, Seq<char>)>, SpecError>(
            SpecError::BufferOverflow,
        ),
{
}

// ---------------------------------------------------------------------------
// A blank line ends the headers at once.
// ---------------------------------------------------------------------------
/// A start line immediately followed by a blank line yields a message with
/// zero headers.
pub proof fn lemma_blank_line_no_headers(rem: Seq<u8>)
    requires
        request_line_spec(rem).0 is Ok,
        line_scan(rem.skip(request_line_spec(rem).1), false).0.len() == 0,
    ensures
        build_request_spec(rem) matches Ok(v) && v.headers == Seq::<(Seq<char>, Seq<char>)>::empty(),
{
    let rem1 = rem.skip(request_line_spec(rem).1);
    assert(headers_spec(rem1, Seq::<(Seq<char>, Seq<char>)>::empty()).0 == Ok::<
        Seq<(Seq<char>, Seq<char>)>,
        SpecError,
    >(Seq::<(Seq<char>, Seq<char>)>::empty()));
}

/// A status line immediately followed by a blank line yields a message
/// with zero headers.
pub proof fn lemma_blank_line_no_headers_response(rem: Seq<u8>)
    requires
        status_line_spec(rem).0 is Ok,
        line_scan(rem.skip(status_line_spec(rem).1), false).0.len() == 0,
    ensures
        build_response_spec(rem) matches Ok(v) && v.headers == Seq::<
            (Seq<char>, Seq<char>),
        >::empty(),
{
    let rem1 = rem.skip(status_line_spec(rem).1);
    assert(headers_spec(rem1, Seq::<(Seq<char>, Seq<char>)>::empty()).0 == Ok::<
        Seq<(Seq<char>, Seq<char>)>,
        SpecError,
    >(Seq::<(Seq<char>, Seq<char>)>::empty()));
}

// ---------------------------------------------------------------------------
// The second value wins on a repeated header name.
// ---------------------------------------------------------------------------
/// The position an entry's name holds is decided by the names alone.
proof fn lemma_name_idx_names(
    h1: Seq<(Seq<char>, Seq<char>)>,
    h2: Seq<(Seq<char>, Seq<char>)>,
    name: Seq<char>,
)
    requires
        h1.len() == h2.len(),
        forall|j: int| 0 <= j < h1.len() ==> h1[j].0 == h2[j].0,
    ensures
        name_idx(h1, name) == name_idx(h2, name),
    decreases h1.len(),
{
    if h1.len() == 0 {
    } else {
        lemma_name_idx_names(h1.skip(1), h2.skip(1), name);
        assert(forall|j: int| 0 <= j < h1.len() - 1 ==> h1.skip(1)[j].0 == h2.skip(1)[j].0);
    }
}

/// Two header lines with the same normalized name: the second value wins
/// and the first is discarded, exactly as if the first had never been
/// inserted.
pub proof fn lemma_duplicate_header_overwrites(
    hs: Seq<(Seq<char>, Seq<char>)>,
    name1: Seq<char>,
    name2: Seq<char>,
    v1: Seq<char>,
    v2: Seq<char>,
)
    requires
        wf_headers(hs),
        lower_chars(name1) == lower_chars(name2),
    ensures
        insert_spec(insert_spec(hs, name1, v1), name2, v2) == insert_spec(hs, name2, v2),
        lookup_spec(insert_spec(insert_spec(hs, name1, v1), name2, v2), name2) == Some(v2),
{
    let key = lower_chars(name1);
    let one = insert_spec(hs, name1, v1);
    lemma_name_idx(hs, key);
    match name_idx(hs, key) {
        Some(i) => {
            assert(one == hs.update(i, (key, v1)));
            lemma_name_idx_names(one, hs, key);
            assert(insert_spec(one, name2, v2) =~~= hs.update(i, (key, v2)));
            lemma_name_idx_names(insert_spec(one, name2, v2), hs, key);
            lemma_name_idx(insert_spec(one, name2, v2), key);
        },
        None => {
            assert(one == hs.push((key, v1)));
            lemma_name_idx_push(hs, (key, v1), key);
            assert(name_idx(one, key) == Some(hs.len() as int));
            assert(insert_spec(one, name2, v2) =~~= hs.push((key, v2)));
            lemma_name_idx_push(hs, (key, v2), key);
            lemma_name_idx_names(insert_spec(one, name2, v2), hs.push((key, v2)), key);
            lemma_name_idx(insert_spec(one, name2, v2), key);
        },
    }
}

/// The same law through the header parser: whatever header lines follow,
/// they parse from an accumulation that held both writes exactly as from
/// one that only ever saw the second, so the first value cannot resurface.
pub proof fn lemma_duplicate_header_fold(
    rem: Seq<u8>,
    acc: Seq<(Seq<char>, Seq<char>)>,
    name1: Seq<char>,
    name2: Seq<char>,
    v1: Seq<char>,
    v2: Seq<char>,
)
    requires
        wf_headers(acc),
        lower_chars(name1) == lower_chars(name2),
    ensures
        headers_spec(rem, insert_spec(insert_spec(acc, name1, v1), name2, v2)) == headers_spec(
            rem,
            insert_spec(acc, name2, v2),
        ),
{
    lemma_duplicate_header_overwrites(acc, name1, name2, v1, v2);
}

/// Appending an entry leaves earlier findings alone and makes an absent
/// name found at the end.
proof fn lemma_name_idx_push(
    hs: Seq<(Seq<char>, Seq<char>)>,
    e: (Seq<char>, Seq<char>),
    name: Seq<char>,
)
    ensures
        name_idx(hs.push(e), name) == (match name_idx(hs, name) {
            Some(i) => Some(i),
            None => if e.0 == name {
                Some(hs.len() as int)
            } else {
                None::<int>
            },
        }),
    decreases hs.len(),
{
    let w = hs.push(e);
    assert(w.len() == hs.len() + 1);
    if hs.len() == 0 {
        assert(w[0] == e);
        assert(w.skip(1) =~= Seq::<(Seq<char>, Seq<char>)>::empty());
        if e.0 == name {
            assert(name_idx(w, name) == Some(0int));
        } else {
            assert(name_idx(w.skip(1), name) is None);
            assert(name_idx(w, name) is None);
        }
    } else {
        assert(w[0] == hs[0]);
        assert(w.skip(1) =~= hs.skip(1).push(e));
        lemma_name_idx_push(hs.skip(1), e, name);
        if hs[0].0 == name {
            assert(name_idx(w, name) == Some(0int));
            assert(name_idx(hs, name) == Some(0int));
        } else {
            assert(name_idx(w, name) == (match name_idx(w.skip(1), name) {
                None => None::<int>,
                Some(i) => Some(i + 1),
            }));
            assert(name_idx(hs, name) == (match name_idx(hs.skip(1), name) {
                None => None::<int>,
                Some(i) => Some(i + 1),
            }));
        }
    }
}


// ---------------------------------------------------------------------------
// Round trips: serializing a well-formed message and parsing the bytes back
// yields an equal message.
// ---------------------------------------------------------------------------
/// A tab or space: what value trimming can remove from a legal value's edge.
pub open spec fn is_trim_char(c: char) -> bool {
    c == '\t' || c == ' '
}

/// A character that may stand in a field name: the character form of a
/// token byte.
pub open spec fn is_token_char(c: char) -> bool {
    c <= '\u{7f}' && is_token_byte(c as u8)
}

/// Whether a header entry survives the wire unchanged: a non-empty token
/// name (already normalized by the map), a value of legal field content
/// whose edges carry no trimmable whitespace, and a line that fits the
/// scanning buffer.
pub open spec fn wire_header_ok(h: (Seq<char>, Seq<char>)) -> bool {
    &&& h.0.len() > 0
    &&& forall|i: int| 0 <= i < h.0.len() ==> is_token_char(#[trigger] h.0[i])
    &&& forall|i: int| 0 <= i < h.1.len() ==> is_value_char(#[trigger] h.1[i])
    &&& h.1.len() > 0 ==> !is_trim_char(h.1[0]) && !is_trim_char(h.1[h.1.len() - 1])
    &&& h.0.len() + h.1.len() + 2 <= LINE_CAP
}

/// Whether a body survives the chunked drain unchanged: either it fits one
/// read chunk, or it is ASCII, so that no multi-byte character can straddle
/// a chunk boundary and be replaced.
pub open spec fn body_wire_ok(body: Seq<char>) -> bool {
    ||| vstd::utf8::encode_utf8(body).len() <= 1024
    ||| forall|i: int| 0 <= i < body.len() ==> #[trigger] body[i] <= '\u{7f}'
}

/// Whether a request is drawn from the permitted wire grammar: a target of
/// printable characters without spaces that fits the start line, headers
/// that survive the wire, and a body that survives the chunked drain.
pub open spec fn wire_request_ok(v: RequestView) -> bool {
    &&& wf_headers(v.headers)
    &&& forall|i: int| 0 <= i < v.headers.len() ==> wire_header_ok(#[trigger] v.headers[i])
    &&& forall|i: int| 0 <= i < v.uri.len() ==> ('!' <= #[trigger] v.uri[i] && v.uri[i] <= '~')
    &&& method_label(v.method).len() + v.uri.len() + 10 <= LINE_CAP
    &&& body_wire_ok(v.body)
}

/// Whether a response is drawn from the permitted wire grammar.
pub open spec fn wire_response_ok(v: ResponseView) -> bool {
    &&& wf_headers(v.headers)
    &&& forall|i: int| 0 <= i < v.headers.len() ==> wire_header_ok(#[trigger] v.headers[i])
    &&& body_wire_ok(v.body)
}

/// Any character compares at or above the zero character.
proof fn lemma_char_low_bound(c: char)
    ensures
        '\0' <= c,
{
}

/// A character within the ASCII range casts to a byte below 128.
proof fn lemma_ascii_char_byte(c: char)
    requires
        c <= '\u{7f}',
    ensures
        (c as u8) < 128,
{
}

/// The encoding of an ASCII character sequence is byte-for-byte the
/// characters, and decodes back to them.
proof fn lemma_ascii_seq_bytes(s: Seq<char>)
    requires
        forall|i: int| 0 <= i < s.len() ==> #[trigger] s[i] <= '\u{7f}',
    ensures
        vstd::utf8::encode_utf8(s).len() == s.len(),
        forall|i: int| 0 <= i < s.len() ==> vstd::utf8::encode_utf8(s)[i] == #[trigger] s[i] as u8,
        vstd::utf8::valid_utf8(vstd::utf8::encode_utf8(s)),
        vstd::utf8::decode_utf8(vstd::utf8::encode_utf8(s)) == s,
        chars_of(vstd::utf8::encode_utf8(s)) == s,
{
    assert(vstd::utf8::is_ascii_chars(s)) by {
        assert forall|i: int| 0 <= i < s.len() implies '\0' <= (#[trigger] s[i]) <= '\u{7f}' by {
            lemma_char_low_bound(s[i]);
            assert(s[i] <= '\u{7f}');
        }
    }
    vstd::utf8::is_ascii_chars_encode_utf8(s);
    vstd::utf8::encode_utf8_valid_utf8(s);
    vstd::utf8::encode_utf8_decode_utf8(s);
}

/// Scanning a line of clean content followed by CRLF finds exactly that
/// content and consumes through the terminator.
proof fn lemma_line_scan_clean(a: Seq<u8>, b: Seq<u8>)
    requires
        forall|i: int| 0 <= i < a.len() ==> #[trigger] a[i] != 13 && a[i] != 10,
    ensures
        line_scan(a + seq![13u8, 10] + b, false) == (a, a.len() + 2 as int),
    decreases a.len(),
{
    let w = a + seq![13u8, 10] + b;
    if a.len() == 0 {
        assert(w[0] == 13);
        assert(w.skip(1) =~= seq![10u8] + b);
        assert(w.skip(1)[0] == 10);
        assert(line_scan(w.skip(1), true) == (Seq::<u8>::empty(), 1int));
        assert(line_scan(w, false).0 =~= a);
    } else {
        assert(w[0] == a[0]);
        assert(w.skip(1) =~= a.skip(1) + seq![13u8, 10] + b);
        lemma_line_scan_clean(a.skip(1), b);
        assert(line_scan(w, false).0 =~= seq![a[0]] + a.skip(1));
        assert(seq![a[0]] + a.skip(1) =~= a);
    }
}

/// The first occurrence of a byte absent from a prefix sits right after it.
proof fn lemma_first_idx_concat(a: Seq<u8>, c: Seq<u8>, t: u8)
    requires
        forall|i: int| 0 <= i < a.len() ==> #[trigger] a[i] != t,
    ensures
        first_idx(a + seq![t] + c, t) == Some(a.len() as int),
    decreases a.len(),
{
    let w = a + seq![t] + c;
    if a.len() == 0 {
        assert(w[0] == t);
    } else {
        assert(w[0] == a[0]);
        assert(w.skip(1) =~= a.skip(1) + seq![t] + c);
        lemma_first_idx_concat(a.skip(1), c, t);
    }
}

/// A space followed by a value with clean edges trims to the value alone.
proof fn lemma_trim_sp_clean(x: Seq<u8>)
    requires
        x.len() == 0 || (!is_trim_byte(x[0]) && !is_trim_byte(x[x.len() - 1])),
    ensures
        trim_ws(seq![32u8] + x) == x,
{
    let w = seq![32u8] + x;
    assert(w[0] == 32);
    assert(w.skip(1) =~= x);
    assert(trim_front(w) == trim_front(x));
    if x.len() == 0 {
        assert(trim_front(x) == x);
        assert(trim_back(x) == x);
    } else {
        assert(!is_trim_byte(x[0]));
        assert(trim_front(x) == x);
        assert(x.last() == x[x.len() - 1]);
        assert(trim_back(x) == x);
    }
}

/// Every byte of the decimal rendering is a digit.
proof fn lemma_dec_rep_digits(n: int)
    requires
        n >= 0,
    ensures
        dec_rep(n).len() >= 1,
        forall|i: int| 0 <= i < dec_rep(n).len() ==> 48 <= #[trigger] dec_rep(n)[i] <= 57,
    decreases n,
{
    if n < 10 {
    } else {
        lemma_dec_rep_digits(n / 10);
        assert forall|i: int| 0 <= i < dec_rep(n).len() implies 48 <= #[trigger] dec_rep(n)[i]
            <= 57 by {
            if i < dec_rep(n / 10).len() {
                assert(dec_rep(n)[i] == dec_rep(n / 10)[i]);
            } else {
                assert(dec_rep(n)[i] == (48 + n % 10) as u8);
            }
        }
    }
}

/// The decimal rendering of a 16-bit value has at most five digits.
proof fn lemma_dec_rep_u16_len(n: int)
    requires
        0 <= n <= 65535,
    ensures
        1 <= dec_rep(n).len() <= 5,
{
    let n1 = n / 10;
    let n2 = n1 / 10;
    let n3 = n2 / 10;
    let n4 = n3 / 10;
    assert(0 <= n1 <= 6553);
    assert(0 <= n2 <= 655);
    assert(0 <= n3 <= 65);
    assert(0 <= n4 <= 6);
    if n >= 10 {
        assert(dec_rep(n).len() == dec_rep(n1).len() + 1);
        if n1 >= 10 {
            assert(dec_rep(n1).len() == dec_rep(n2).len() + 1);
            if n2 >= 10 {
                assert(dec_rep(n2).len() == dec_rep(n3).len() + 1);
                if n3 >= 10 {
                    assert(dec_rep(n3).len() == dec_rep(n4).len() + 1);
                    assert(dec_rep(n4).len() == 1);
                }
            }
        }
    }
}

/// Scanning the decimal rendering of a 16-bit value yields the value back.
proof fn lemma_u16_scan_rep(n: int)
    requires
        0 <= n <= 65535,
    ensures
        u16_scan(dec_rep(n), 0) == Ok::<u16, Seq<char>>(n as u16),
    decreases n,
{
    lemma_dec_rep_digits(n);
    if n < 10 {
        let d = dec_rep(n);
        assert(d == seq![(48 + n) as u8]);
        assert(d[0] == (48 + n) as u8);
        assert(d.skip(1) =~= Seq::<u8>::empty());
        assert(u16_scan(d.skip(1), n) == Ok::<u16, Seq<char>>(n as u16));
    } else {
        let c = (48 + n % 10) as u8;
        lemma_u16_scan_rep(n / 10);
        lemma_u16_scan_append(dec_rep(n / 10), seq![c], 0);
        assert(u16_scan(dec_rep(n), 0) == u16_scan(seq![c], n / 10));
        assert(seq![c][0] == c);
        assert(seq![c].skip(1) =~= Seq::<u8>::empty());
        assert((n / 10) * 10 + (c - 48) == n);
        assert(u16_scan(seq![c], n / 10) == u16_scan(Seq::<u8>::empty(), n));
    }
}

/// A start-line field byte: printable and never a space.
pub open spec fn field_clean(s: Seq<u8>) -> bool {
    forall|i: int| 0 <= i < s.len() ==> (33 <= #[trigger] s[i] && s[i] <= 126)
}

/// Every version label is eight clean bytes and parses back to its version.
proof fn lemma_version_label_facts(v: Version)
    ensures
        version_of(version_label(v)) == Some(v),
        field_clean(version_label(v)),
        version_label(v).len() == 8,
{
    let l = version_label(v);
    assert(version_label(Version::Http09)[5] == 48 && version_label(Version::Http09)[7] == 57);
    assert(version_label(Version::Http10)[5] == 49 && version_label(Version::Http10)[7] == 48);
    assert(version_label(Version::Http11)[5] == 49 && version_label(Version::Http11)[7] == 49);
    assert(version_label(Version::Http2)[5] == 50 && version_label(Version::Http2)[7] == 48);
    assert(version_label(Version::Http3)[5] == 51 && version_label(Version::Http3)[7] == 48);
    match v {
        Version::Http09 => {},
        Version::Http10 => {},
        Version::Http11 => {},
        Version::Http2 => {},
        Version::Http3 => {},
    }
}

/// Every method name is clean bytes and parses back to its method.
proof fn lemma_method_label_facts(m: Method)
    ensures
        method_of(method_label(m)) == Some(m),
        field_clean(method_label(m)),
        1 <= method_label(m).len() <= 7,
{
    match m {
        Method::Get => {},
        Method::Post => {},
        Method::Put => {
            assert(method_label(Method::Put)[1] == 85 && method_label(Method::Get)[1] == 69);
        },
        Method::Delete => {},
        Method::Head => {
            assert(method_label(Method::Head)[0] == 72 && method_label(Method::Post)[0] == 80);
        },
        Method::Options => {},
        Method::Connect => {
            assert(method_label(Method::Connect)[0] == 67 && method_label(Method::Options)[0]
                == 79);
        },
        Method::Patch => {
            assert(method_label(Method::Patch)[1] == 65 && method_label(Method::Trace)[1] == 82);
        },
        Method::Trace => {
            assert(method_label(Method::Trace)[0] == 84 && method_label(Method::Patch)[0] == 80);
        },
    }
}

/// Draining bytes that fit one chunk reads them whole.
proof fn lemma_drain_all(rem: Seq<u8>)
    requires
        rem.len() <= 1024,
    ensures
        drain_scan(rem, 0, 0) == (chars_of(rem), rem.len() as int),
{
    if rem.len() == 0 {
        lemma_ascii_chars_of(rem);
        assert(rem.map(|_i, b: u8| b as char) =~= Seq::<char>::empty());
    } else {
        assert(take_count(rem, 1024) == rem.len());
        assert(rem.take(rem.len() as int) =~= rem);
        assert(rem.skip(rem.len() as int) =~= Seq::<u8>::empty());
        assert(drain_scan(rem.skip(rem.len() as int), 0, rem.len() as int) == (
            Seq::<char>::empty(),
            0int,
        ));
        assert(chars_of(rem) + Seq::<char>::empty() =~= chars_of(rem));
    }
}

/// Draining ASCII bytes with no size hint reads them whole, however many
/// chunks they span: every chunk boundary falls between whole characters.
proof fn lemma_drain_all_ascii(rem: Seq<u8>, got: int)
    requires
        crate::ascii::all_ascii(rem),
    ensures
        drain_scan(rem, 0, got) == (chars_of(rem), rem.len() as int),
    decreases rem.len(),
{
    if rem.len() == 0 {
        lemma_ascii_chars_of(rem);
        assert(rem.map(|_i, b: u8| b as char) =~= Seq::<char>::empty());
    } else if rem.len() <= 1024 {
        assert(take_count(rem, 1024) == rem.len());
        assert(rem.take(rem.len() as int) =~= rem);
        assert(rem.skip(rem.len() as int) =~= Seq::<u8>::empty());
        lemma_drain_all_ascii(rem.skip(rem.len() as int), got + rem.len());
        assert(chars_of(rem) + Seq::<char>::empty() =~= chars_of(rem));
    } else {
        let chunk = rem.take(1024);
        let rest = rem.skip(1024);
        assert(take_count(rem, 1024) == 1024);
        assert(crate::ascii::all_ascii(chunk)) by {
            assert forall|i: int| 0 <= i < chunk.len() implies #[trigger] chunk[i] < 128 by {
                assert(chunk[i] == rem[i]);
            }
        }
        assert(crate::ascii::all_ascii(rest)) by {
            assert forall|i: int| 0 <= i < rest.len() implies #[trigger] rest[i] < 128 by {
                assert(rest[i] == rem[i + 1024]);
            }
        }
        lemma_drain_all_ascii(rest, got + 1024);
        lemma_ascii_chars_of(rem);
        lemma_ascii_chars_of(chunk);
        lemma_ascii_chars_of(rest);
        assert(chars_of(chunk) + chars_of(rest) =~= chars_of(rem)) by {
            let f = |_i: int, b: u8| b as char;
            assert forall|i: int| 0 <= i < rem.len() implies (chunk.map(f) + rest.map(f))[i]
                == rem.map(f)[i] by {
                if i < 1024 {
                    assert(chunk[i] == rem[i]);
                } else {
                    assert(rest[i - 1024] == rem[i]);
                }
            }
        }
    }
}

/// Serialized headers followed by a blank line parse back to exactly the
/// entries they rendered, appended to what was already accumulated.
proof fn lemma_headers_round_trip(
    hs: Seq<(Seq<char>, Seq<char>)>,
    acc: Seq<(Seq<char>, Seq<char>)>,
    tail: Seq<u8>,
)
    requires
        wf_headers(acc + hs),
        forall|i: int| 0 <= i < hs.len() ==> wire_header_ok(#[trigger] hs[i]),
    ensures
        ser_headers_spec(hs) matches Ok(hb) && headers_spec(hb + seq![13u8, 10] + tail, acc) == (
            Ok::<Seq<(Seq<char>, Seq<char>)>, SpecError>(acc + hs),
            hb.len() + 2 as int,
        ),
    decreases hs.len(),
{
    if hs.len() == 0 {
        let wire = Seq::<u8>::empty() + seq![13u8, 10] + tail;
        lemma_line_scan_clean(Seq::<u8>::empty(), tail);
        assert(line_scan(wire, false) == (Seq::<u8>::empty(), 2int));
        assert(acc + hs =~= acc);
        assert(ser_headers_spec(hs) == Ok::<Seq<u8>, SpecError>(Seq::<u8>::empty()));
    } else {
        let h0 = hs[0];
        let name = h0.0;
        let value = h0.1;
        assert(wire_header_ok(h0));
        let nb = vstd::utf8::encode_utf8(name);
        let vb = vstd::utf8::encode_utf8(value);
        assert forall|i: int| 0 <= i < name.len() implies #[trigger] name[i] <= '\u{7f}' by {
            assert(is_token_char(name[i]));
        }
        lemma_ascii_seq_bytes(name);
        assert forall|i: int| 0 <= i < value.len() implies #[trigger] value[i] <= '\u{7f}' by {
            assert(is_value_char(value[i]));
        }
        lemma_ascii_seq_bytes(value);
        // the recursive call on the remaining entries
        assert(acc + hs =~= acc.push(h0) + hs.skip(1));
        lemma_headers_round_trip(hs.skip(1), acc.push(h0), tail);
        let hb_rest = ser_headers_spec(hs.skip(1))->Ok_0;
        assert(ser_headers_spec(hs) == Ok::<Seq<u8>, SpecError>(
            nb + seq![58u8, 32] + vb + seq![13u8, 10] + hb_rest,
        ));
        let hb = nb + seq![58u8, 32] + vb + seq![13u8, 10] + hb_rest;
        // the first wire line
        let c0 = nb + seq![58u8, 32] + vb;
        let wire = hb + seq![13u8, 10] + tail;
        let wire_rest = hb_rest + seq![13u8, 10] + tail;
        assert(wire =~= c0 + seq![13u8, 10] + wire_rest);
        assert forall|i: int| 0 <= i < c0.len() implies #[trigger] c0[i] != 13 && c0[i] != 10 by {
            if i < nb.len() {
                assert(c0[i] == nb[i]);
                assert(nb[i] == name[i] as u8);
                assert(is_token_char(name[i]));
                assert(is_token_byte(nb[i]));
            } else if i < nb.len() + 2 {
            } else {
                assert(c0[i] == vb[i - nb.len() - 2]);
                assert(vb[i - nb.len() - 2] == value[i - nb.len() - 2] as u8);
                assert(is_value_char(value[i - nb.len() - 2]));
            }
        }
        lemma_line_scan_clean(c0, wire_rest);
        assert(line_scan(wire, false) == (c0, c0.len() + 2 as int));
        assert(c0.len() <= LINE_CAP);
        assert(c0.len() > 0);
        // the line parses to exactly this header
        assert forall|i: int| 0 <= i < nb.len() implies #[trigger] nb[i] != 58 by {
            assert(nb[i] == name[i] as u8);
            assert(is_token_char(name[i]));
            assert(is_token_byte(nb[i]));
        }
        assert(c0 =~= nb + seq![58u8] + (seq![32u8] + vb));
        lemma_first_idx_concat(nb, seq![32u8] + vb, 58);
        assert(first_idx(c0, 58) == Some(nb.len() as int));
        assert(c0.take(nb.len() as int) =~= nb);
        assert(c0.skip(nb.len() as int + 1) =~= seq![32u8] + vb);
        assert(vb.len() == 0 || (!is_trim_byte(vb[0]) && !is_trim_byte(vb[vb.len() - 1]))) by {
            if vb.len() > 0 {
                assert(vb[0] == value[0] as u8);
                assert(!is_trim_char(value[0]));
                assert(is_value_char(value[0]));
                assert(vb[vb.len() - 1] == value[value.len() - 1] as u8);
                assert(!is_trim_char(value[value.len() - 1]));
                assert(is_value_char(value[value.len() - 1]));
            }
        }
        lemma_trim_sp_clean(vb);
        assert(trim_ws(c0.skip(nb.len() as int + 1)) == vb);
        assert(all_value_bytes(vb)) by {
            lemma_value_bytes_chars(value);
        }
        assert(all_token_bytes(nb)) by {
            assert forall|i: int| 0 <= i < nb.len() implies is_token_byte(#[trigger] nb[i]) by {
                assert(nb[i] == name[i] as u8);
                assert(is_token_char(name[i]));
            }
        }
        assert(header_line_spec(c0, acc) == Ok::<Seq<(Seq<char>, Seq<char>)>, SpecError>(
            insert_spec(acc, name, value),
        ));
        // inserting a fresh normalized name appends
        assert(lower_chars(name) == name) by {
            assert((acc + hs)[acc.len() as int] == h0);
            assert(wf_headers(acc + hs));
        }
        lemma_name_idx(acc, name);
        match name_idx(acc, name) {
            Some(j) => {
                assert((acc + hs)[j].0 == acc[j].0);
                assert((acc + hs)[acc.len() as int].0 == name);
                assert(false);
            },
            None => {},
        }
        assert(insert_spec(acc, name, value) =~~= acc.push(h0)) by {
            assert(h0 == (name, value));
        }
        // chain with the rest of the wire
        assert(wire.skip(c0.len() + 2 as int) =~= wire_rest);
        assert(headers_spec(wire, acc).0 == headers_spec(wire_rest, acc.push(h0)).0);
        assert(headers_spec(wire, acc).1 == c0.len() + 2 + headers_spec(
            wire_rest,
            acc.push(h0),
        ).1);
        assert(acc.push(h0) + hs.skip(1) =~= acc + hs);
        assert(hb.len() == c0.len() + 2 + hb_rest.len());
    }
}

/// For all well-formed requests, serializing and parsing the bytes back
/// yields an equal request: same method, target, version, headers and body.
pub proof fn lemma_request_round_trip(v: RequestView)
    requires
        wire_request_ok(v),
    ensures
        ser_request_spec(v) matches Ok(bytes) && build_request_spec(bytes)
            == Ok::<RequestView, SpecError>(v),
{
    let ml = method_label(v.method);
    let ub = vstd::utf8::encode_utf8(v.uri);
    let vl = version_label(v.version);
    let bb = vstd::utf8::encode_utf8(v.body);
    assert forall|i: int| 0 <= i < v.uri.len() implies #[trigger] v.uri[i] <= '\u{7f}' by {
        assert('!' <= v.uri[i] && v.uri[i] <= '~');
    }
    lemma_ascii_seq_bytes(v.uri);
    lemma_method_label_facts(v.method);
    lemma_version_label_facts(v.version);
    assert(v.headers =~= Seq::<(Seq<char>, Seq<char>)>::empty() + v.headers);
    lemma_headers_round_trip(v.headers, Seq::<(Seq<char>, Seq<char>)>::empty(), bb);
    let hb = ser_headers_spec(v.headers)->Ok_0;
    let bytes = ml + seq![32u8] + ub + seq![32u8] + vl + seq![13u8, 10] + hb + seq![13u8, 10]
        + bb;
    assert(ser_request_spec(v) == Ok::<Seq<u8>, SpecError>(bytes));
    let sline = ml + seq![32u8] + ub + seq![32u8] + vl;
    let rest1 = hb + seq![13u8, 10] + bb;
    assert(bytes =~= sline + seq![13u8, 10] + rest1);
    assert forall|i: int| 0 <= i < sline.len() implies #[trigger] sline[i] != 13 && sline[i]
        != 10 by {
        if i < ml.len() {
            assert(sline[i] == ml[i]);
            assert(33 <= ml[i] <= 126);
        } else if i == ml.len() {
        } else if i < ml.len() + 1 + ub.len() {
            assert(sline[i] == ub[i - ml.len() - 1]);
            assert(ub[i - ml.len() - 1] == v.uri[i - ml.len() - 1] as u8);
            assert('!' <= v.uri[i - ml.len() - 1] && v.uri[i - ml.len() - 1] <= '~');
        } else if i == ml.len() + 1 + ub.len() {
        } else {
            assert(sline[i] == vl[i - ml.len() - ub.len() - 2]);
            assert(33 <= vl[i - ml.len() - ub.len() - 2] <= 126);
        }
    }
    lemma_line_scan_clean(sline, rest1);
    assert(line_scan(bytes, false) == (sline, sline.len() + 2 as int));
    assert(sline.len() <= LINE_CAP);
    // the three fields
    assert forall|i: int| 0 <= i < ub.len() implies #[trigger] ub[i] != 32 by {
        assert(ub[i] == v.uri[i] as u8);
        assert('!' <= v.uri[i] && v.uri[i] <= '~');
    }
    assert(sline =~= ml + seq![32u8] + (ub + seq![32u8] + vl));
    lemma_split_at_space(ml, ub + seq![32u8] + vl);
    lemma_split_at_space(ub, vl);
    lemma_split_single(vl);
    let fs = split_sp(sline);
    assert(fs =~~= seq![ml] + (seq![ub] + seq![vl]));
    assert(fs.len() == 3);
    assert(fs[0] == ml && fs[1] == ub && fs[2] == vl);
    assert(request_line_spec(bytes).0 == Ok::<(Method, Seq<char>, Version), SpecError>(
        (v.method, v.uri, v.version),
    ));
    assert(request_line_spec(bytes).1 == sline.len() + 2);
    // headers
    let rem1 = bytes.skip(sline.len() + 2 as int);
    assert(rem1 =~= hb + seq![13u8, 10] + bb);
    assert(headers_spec(rem1, Seq::<(Seq<char>, Seq<char>)>::empty()) == (
        Ok::<Seq<(Seq<char>, Seq<char>)>, SpecError>(
            Seq::<(Seq<char>, Seq<char>)>::empty() + v.headers,
        ),
        hb.len() + 2 as int,
    ));
    // body
    let rem2 = rem1.skip(hb.len() + 2 as int);
    assert(rem2 =~= bb);
    if bb.len() <= 1024 {
        lemma_drain_all(bb);
    } else {
        lemma_ascii_seq_bytes(v.body);
        assert(crate::ascii::all_ascii(bb)) by {
            assert forall|i: int| 0 <= i < bb.len() implies #[trigger] bb[i] < 128 by {
                assert(bb[i] == v.body[i] as u8);
                lemma_ascii_char_byte(v.body[i]);
            }
        }
        lemma_drain_all_ascii(bb, 0);
    }
    assert(chars_of(bb) == v.body) by {
        vstd::utf8::encode_utf8_valid_utf8(v.body);
        vstd::utf8::encode_utf8_decode_utf8(v.body);
    }
    assert(Seq::<(Seq<char>, Seq<char>)>::empty() + v.headers =~= v.headers);
    assert(build_request_spec(bytes) matches Ok(w) && w == v) by {
        let w = build_request_spec(bytes)->Ok_0;
        assert(w.method == v.method && w.uri == v.uri && w.version == v.version && w.headers
            == v.headers && w.body == v.body);
    }
}

/// For all well-formed responses, serializing and parsing the bytes back
/// yields an equal response: same version, status, headers and body,
/// whatever reason phrase the status carries.
pub proof fn lemma_response_round_trip(v: ResponseView)
    requires
        wire_response_ok(v),
    ensures
        ser_response_spec(v) matches Ok(bytes) && build_response_spec(bytes)
            == Ok::<ResponseView, SpecError>(v),
{
    let vl = version_label(v.version);
    let dec = dec_rep(v.status as int);
    let rr = reason_render(v.status);
    let bb = vstd::utf8::encode_utf8(v.body);
    lemma_version_label_facts(v.version);
    lemma_dec_rep_digits(v.status as int);
    lemma_dec_rep_u16_len(v.status as int);
    assert(v.headers =~= Seq::<(Seq<char>, Seq<char>)>::empty() + v.headers);
    lemma_headers_round_trip(v.headers, Seq::<(Seq<char>, Seq<char>)>::empty(), bb);
    let hb = ser_headers_spec(v.headers)->Ok_0;
    let bytes = vl + seq![32u8] + dec + rr + seq![13u8, 10] + hb + seq![13u8, 10] + bb;
    assert(ser_response_spec(v) == Ok::<Seq<u8>, SpecError>(bytes));
    let sline = vl + seq![32u8] + dec + rr;
    let rest1 = hb + seq![13u8, 10] + bb;
    assert(bytes =~= sline + seq![13u8, 10] + rest1);
    let rb = vstd::utf8::encode_utf8(crate::streamable::reason_of(v.status));
    assert forall|i: int| 0 <= i < sline.len() implies #[trigger] sline[i] != 13 && sline[i]
        != 10 by {
        if i < vl.len() {
            assert(sline[i] == vl[i]);
            assert(33 <= vl[i] <= 126);
        } else if i == vl.len() {
        } else if i < vl.len() + 1 + dec.len() {
            assert(sline[i] == dec[i - vl.len() - 1]);
            assert(48 <= dec[i - vl.len() - 1] <= 57);
        } else {
            assert(sline[i] == rr[i - vl.len() - 1 - dec.len()]);
            assert(rr == seq![32u8] + rb);
            if i == vl.len() + 1 + dec.len() {
            } else {
                assert(rr[i - vl.len() - 1 - dec.len()] == rb[i - vl.len() - 2 - dec.len()]);
                assert(all_print_bytes(rb));
            }
        }
    }
    lemma_line_scan_clean(sline, rest1);
    assert(line_scan(bytes, false) == (sline, sline.len() + 2 as int));
    assert(sline.len() <= LINE_CAP);
    // the fields: the version label, the status digits, then any reason
    assert forall|i: int| 0 <= i < dec.len() implies #[trigger] dec[i] != 32 by {
        assert(48 <= dec[i] <= 57);
    }
    let fs = split_sp(sline);
    if rr.len() == 0 {
        assert(sline =~= vl + seq![32u8] + (dec + rr));
        assert(dec + rr =~= dec);
        lemma_split_at_space(vl, dec);
        lemma_split_single(dec);
        assert(fs =~~= seq![vl] + seq![dec]);
        assert(fs.len() == 2);
        assert(fs[0] == vl && fs[1] == dec);
    } else {
        assert(rr == seq![32u8] + rb);
        assert(sline =~= vl + seq![32u8] + (dec + seq![32u8] + rb));
        lemma_split_at_space(vl, dec + seq![32u8] + rb);
        lemma_split_at_space(dec, rb);
        crate::text::lemma_split_sp_len(rb);
        assert(fs =~~= seq![vl] + (seq![dec] + split_sp(rb)));
        assert(fs.len() >= 2);
        assert(fs[0] == vl && fs[1] == dec);
    }
    // the status token scans back to the status
    assert(dec[0] != 43);
    lemma_u16_scan_rep(v.status as int);
    assert(u16_parse_spec(dec) == Ok::<u16, Seq<char>>(v.status));
    assert(status_line_spec(bytes).0 == Ok::<(Version, u16), SpecError>((v.version, v.status)));
    assert(status_line_spec(bytes).1 == sline.len() + 2);
    // headers
    let rem1 = bytes.skip(sline.len() + 2 as int);
    assert(rem1 =~= hb + seq![13u8, 10] + bb);
    // body
    let rem2 = rem1.skip(hb.len() + 2 as int);
    assert(rem2 =~= bb);
    if bb.len() <= 1024 {
        lemma_drain_all(bb);
    } else {
        lemma_ascii_seq_bytes(v.body);
        assert(crate::ascii::all_ascii(bb)) by {
            assert forall|i: int| 0 <= i < bb.len() implies #[trigger] bb[i] < 128 by {
                assert(bb[i] == v.body[i] as u8);
                lemma_ascii_char_byte(v.body[i]);
            }
        }
        lemma_drain_all_ascii(bb, 0);
    }
    assert(chars_of(bb) == v.body) by {
        vstd::utf8::encode_utf8_valid_utf8(v.body);
        vstd::utf8::encode_utf8_decode_utf8(v.body);
    }
    assert(Seq::<(Seq<char>, Seq<char>)>::empty() + v.headers =~= v.headers);
    assert(build_response_spec(bytes) matches Ok(w) && w == v) by {
        let w = build_response_spec(bytes)->Ok_0;
        assert(w.version == v.version && w.status == v.status && w.headers == v.headers && w.body
            == v.body);
    }
}

} // verus!
