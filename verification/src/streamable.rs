//! The message serializer: the inverse of the builders, rendering a
//! structured message to canonical wire bytes.

use vstd::prelude::*;
use crate::ascii::{
    all_print_bytes, all_value_bytes, append_bytes, check_print_bytes, check_value_bytes,
    is_value_char, lemma_value_bytes_chars,
};
use crate::errors::{HttpError, SpecError};
use crate::headers::HeaderMap;
use crate::message::{Message, Request, RequestView, Response, ResponseView};
use crate::method::{method_label, method_label_bytes};
use crate::text::{dec_bytes, dec_rep};
use crate::version::{version_label, version_label_bytes};

verus! {

/// What the canonical reason phrase of a status code is: a function of the
/// code alone, empty where none is defined.
pub uninterp spec fn reason_of(status: u16) -> Seq<char>;

/// Relies on `http::StatusCode::from_u16` and
/// `http::StatusCode::canonical_reason`: the canonical reason phrase of a
/// status code, a function of the code alone, or the empty string where the
/// code is out of range or has no canonical phrase.
#[verifier::external_body]
pub fn canonical_reason_text(status: u16) -> (r: String)
    ensures
        r@ == reason_of(status),
{
    match http::StatusCode::from_u16(status) {
        Ok(code) => match code.canonical_reason() {
            Some(t) => t.to_owned(),
            None => String::new(),
        },
        Err(_) => String::new(),
    }
}

/// How the reason phrase renders in a status line: a space and the phrase's
/// bytes where the phrase is non-empty, printable ASCII and short enough
/// never to crowd the line buffer (every canonical phrase is), and nothing
/// otherwise, so that serialization never emits stray control bytes.
pub open spec fn reason_render(status: u16) -> Seq<u8> {
    let rb = vstd::utf8::encode_utf8(reason_of(status));
    if 0 < rb.len() <= 100 && all_print_bytes(rb) {
        seq![32u8] + rb
    } else {
        Seq::<u8>::empty()
    }
}

/// Whether every character of a header value is legal field content, so
/// that the value can be represented on the wire.
pub open spec fn value_encodable(value: Seq<char>) -> bool {
    forall|i: int| 0 <= i < value.len() ==> is_value_char(#[trigger] value[i])
}

/// How the header section renders: each entry as `<name>: <value>\r\n` in
/// the map's own order, no reordering and no deduplication.  A value with
/// characters outside legal field content fails with `HeaderEncodingError`
/// carrying the value, rather than silently mangling output.
pub open spec fn ser_headers_spec(hs: Seq<(Seq<char>, Seq<char>)>) -> Result<Seq<u8>, SpecError>
    decreases hs.len(),
{
    if hs.len() == 0 {
        Ok(Seq::<u8>::empty())
    } else {
        let name = hs[0].0;
        let value = hs[0].1;
        if !value_encodable(value) {
            Err(SpecError::HeaderEncodingError(value))
        } else {
            match ser_headers_spec(hs.skip(1)) {
                Err(e) => Err(e),
                Ok(rest) => Ok(
                    vstd::utf8::encode_utf8(name) + seq![58u8, 32] + vstd::utf8::encode_utf8(value)
                        + seq![13u8, 10] + rest,
                ),
            }
        }
    }
}

/// How a request renders to wire bytes:
/// `<METHOD> <TARGET> <VERSION>\r\n`, the headers, a blank line, then the
/// body bytes verbatim.
pub open spec fn ser_request_spec(v: RequestView) -> Result<Seq<u8>, SpecError> {
    match ser_headers_spec(v.headers) {
        Err(e) => Err(e),
        Ok(hb) => Ok(
            method_label(v.method) + seq![32u8] + vstd::utf8::encode_utf8(v.uri) + seq![32u8]
                + version_label(v.version) + seq![13u8, 10] + hb + seq![13u8, 10]
                + vstd::utf8::encode_utf8(v.body),
        ),
    }
}

/// How a response renders to wire bytes:
/// `<VERSION> <STATUS> <REASON>\r\n` (the reason only where one is
/// defined), the headers, a blank line, then the body bytes verbatim.
pub open spec fn ser_response_spec(v: ResponseView) -> Result<Seq<u8>, SpecError> {
    match ser_headers_spec(v.headers) {
        Err(e) => Err(e),
        Ok(hb) => Ok(
            version_label(v.version) + seq![32u8] + dec_rep(v.status as int) + reason_render(
                v.status,
            ) + seq![13u8, 10] + hb + seq![13u8, 10] + vstd::utf8::encode_utf8(v.body),
        ),
    }
}

/// Renders the header section into `out`.
fn write_headers(headers: &HeaderMap, out: &mut Vec<u8>) -> (r: Result<(), HttpError>)
    ensures
        (match ser_headers_spec(headers@) {
            Ok(hb) => r matches Ok(u) && final(out)@ == old(out)@ + hb,
            Err(e) => r matches Err(err) && err@ == e && final(out)@ == old(out)@,
        }),
{
    let n = headers.len();
    let mut acc: Vec<u8> = Vec::new();
    let mut i: usize = 0;
    proof {
        assert(headers@.skip(0) =~= headers@);
    }
    while i < n
        invariant
            n == headers@.len(),
            i <= n,
            (match ser_headers_spec(headers@.skip(i as int)) {
                Ok(rest) => ser_headers_spec(headers@) matches Ok(whole) && whole == acc@ + rest,
                Err(e) => ser_headers_spec(headers@) == Err::<Seq<u8>, SpecError>(e),
            }),
        decreases n - i,
    {
        let ghost hs = headers@.skip(i as int);
        proof {
            assert(hs[0] == headers@[i as int]);
            assert(hs.skip(1) =~= headers@.skip(i as int + 1));
        }
        let name = headers.name_at(i);
        let value = headers.value_at(i);
        proof {
            lemma_value_bytes_chars(value@);
        }
        if !check_value_bytes(value.as_str().as_bytes()) {
            return Err(HttpError::HeaderEncodingError(value));
        }
        let ghost acc_pre = acc@;
        let ghost entry = vstd::utf8::encode_utf8(name@) + seq![58u8, 32]
            + vstd::utf8::encode_utf8(value@) + seq![13u8, 10];
        append_bytes(&mut acc, name.as_str().as_bytes());
        acc.push(58);
        acc.push(32);
        append_bytes(&mut acc, value.as_str().as_bytes());
        acc.push(13);
        acc.push(10);
        proof {
            assert(acc@ =~= acc_pre + entry);
            match ser_headers_spec(hs.skip(1)) {
                Ok(rest) => {
                    assert(ser_headers_spec(hs) == Ok::<Seq<u8>, SpecError>(entry + rest));
                    assert(acc_pre + (entry + rest) =~= acc@ + rest);
                },
                Err(e) => {
                    assert(ser_headers_spec(hs) == Err::<Seq<u8>, SpecError>(e));
                },
            }
        }
        i += 1;
    }
    proof {
        assert(headers@.skip(n as int) =~= Seq::<(Seq<char>, Seq<char>)>::empty());
    }
    append_bytes(out, acc.as_slice());
    Ok(())
}

/// Renders a request to wire bytes, appending them to `out`; on failure
/// `out` is left untouched.
pub fn write_request(req: &Request, out: &mut Vec<u8>) -> (r: Result<(), HttpError>)
    ensures
        (match ser_request_spec(req@) {
            Ok(bytes) => r matches Ok(u) && final(out)@ == old(out)@ + bytes,
            Err(e) => r matches Err(err) && err@ == e && final(out)@ == old(out)@,
        }),
{
    let mut acc: Vec<u8> = Vec::new();
    let label = method_label_bytes(&req.method);
    append_bytes(&mut acc, label.as_slice());
    acc.push(32);
    append_bytes(&mut acc, req.uri.as_str().as_bytes());
    acc.push(32);
    let vlabel = version_label_bytes(&req.version);
    append_bytes(&mut acc, vlabel.as_slice());
    acc.push(13);
    acc.push(10);
    match write_headers(&req.headers, &mut acc) {
        Ok(_) => {},
        Err(e) => {
            return Err(e);
        },
    }
    acc.push(13);
    acc.push(10);
    append_bytes(&mut acc, req.body.as_str().as_bytes());
    proof {
        let spec = ser_request_spec(req@);
        assert(spec matches Ok(bytes) && acc@ =~= bytes);
    }
    append_bytes(out, acc.as_slice());
    Ok(())
}

/// Renders a response to wire bytes, appending them to `out`; on failure
/// `out` is left untouched.
pub fn write_response(resp: &Response, out: &mut Vec<u8>) -> (r: Result<(), HttpError>)
    ensures
        (match ser_response_spec(resp@) {
            Ok(bytes) => r matches Ok(u) && final(out)@ == old(out)@ + bytes,
            Err(e) => r matches Err(err) && err@ == e && final(out)@ == old(out)@,
        }),
{
    let mut acc: Vec<u8> = Vec::new();
    let vlabel = version_label_bytes(&resp.version);
    append_bytes(&mut acc, vlabel.as_slice());
    acc.push(32);
    let status = dec_bytes(resp.status);
    append_bytes(&mut acc, status.as_slice());
    let reason = canonical_reason_text(resp.status);
    let rb = reason.as_str().as_bytes();
    if 0 < rb.len() && rb.len() <= 100 && check_print_bytes(rb) {
        acc.push(32);
        append_bytes(&mut acc, rb);
    }
    acc.push(13);
    acc.push(10);
    match write_headers(&resp.headers, &mut acc) {
        Ok(_) => {},
        Err(e) => {
            return Err(e);
        },
    }
    acc.push(13);
    acc.push(10);
    append_bytes(&mut acc, resp.body.as_str().as_bytes());
    proof {
        let spec = ser_response_spec(resp@);
        assert(spec matches Ok(bytes) && acc@ =~= bytes);
    }
    append_bytes(out, acc.as_slice());
    Ok(())
}

/// How a message of either kind renders to wire bytes.
pub open spec fn ser_message_spec(m: Message) -> Result<Seq<u8>, SpecError> {
    match m {
        Message::Request(req) => ser_request_spec(req@),
        Message::Response(resp) => ser_response_spec(resp@),
    }
}

/// A value serializable to wire bytes appended to a byte sink.
pub trait Streamable {
    fn write(&self, w: &mut Vec<u8>) -> Result<(), HttpError>;
}

impl Streamable for Request {
    fn write(&self, w: &mut Vec<u8>) -> (r: Result<(), HttpError>)
        ensures
            (match ser_request_spec(self@) {
                Ok(bytes) => r matches Ok(u) && final(w)@ == old(w)@ + bytes,
                Err(e) => r matches Err(err) && err@ == e && final(w)@ == old(w)@,
            }),
    {
        write_request(self, w)
    }
}

impl Streamable for Response {
    fn write(&self, w: &mut Vec<u8>) -> (r: Result<(), HttpError>)
        ensures
            (match ser_response_spec(self@) {
                Ok(bytes) => r matches Ok(u) && final(w)@ == old(w)@ + bytes,
                Err(e) => r matches Err(err) && err@ == e && final(w)@ == old(w)@,
            }),
    {
        write_response(self, w)
    }
}

impl Streamable for Message {
    fn write(&self, w: &mut Vec<u8>) -> (r: Result<(), HttpError>)
        ensures
            (match ser_message_spec(*self) {
                Ok(bytes) => r matches Ok(u) && final(w)@ == old(w)@ + bytes,
                Err(e) => r matches Err(err) && err@ == e && final(w)@ == old(w)@,
            }),
    {
        match self {
            Message::Request(req) => write_request(req, w),
            Message::Response(resp) => write_response(resp, w),
        }
    }
}

} // verus!
