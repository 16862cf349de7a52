//! The request method: a token that must match a known HTTP method name;
//! unknown tokens are a parse error carrying the offending token.

use vstd::prelude::*;
use crate::ascii::{bytes_eq, bytes_to_string, chars_of};
use crate::errors::HttpError;
use crate::errors::SpecError;

verus! {

/// A known HTTP method.
#[derive(Clone, Copy, PartialEq, Eq, Structural, Debug)]
pub enum Method {
    Get,
    Post,
    Put,
    Delete,
    Head,
    Options,
    Connect,
    Patch,
    Trace,
}

/// The wire name of a method, e.g. `GET`.
pub open spec fn method_label(m: Method) -> Seq<u8> {
    match m {
        Method::Get => seq![71u8, 69, 84],
        Method::Post => seq![80u8, 79, 83, 84],
        Method::Put => seq![80u8, 85, 84],
        Method::Delete => seq![68u8, 69, 76, 69, 84, 69],
        Method::Head => seq![72u8, 69, 65, 68],
        Method::Options => seq![79u8, 80, 84, 73, 79, 78, 83],
        Method::Connect => seq![67u8, 79, 78, 78, 69, 67, 84],
        Method::Patch => seq![80u8, 65, 84, 67, 72],
        Method::Trace => seq![84u8, 82, 65, 67, 69],
    }
}

/// Which known method a token denotes, if any.
pub open spec fn method_of(s: Seq<u8>) -> Option<Method> {
    if s == method_label(Method::Get) {
        Some(Method::Get)
    } else if s == method_label(Method::Post) {
        Some(Method::Post)
    } else if s == method_label(Method::Put) {
        Some(Method::Put)
    } else if s == method_label(Method::Delete) {
        Some(Method::Delete)
    } else if s == method_label(Method::Head) {
        Some(Method::Head)
    } else if s == method_label(Method::Options) {
        Some(Method::Options)
    } else if s == method_label(Method::Connect) {
        Some(Method::Connect)
    } else if s == method_label(Method::Patch) {
        Some(Method::Patch)
    } else if s == method_label(Method::Trace) {
        Some(Method::Trace)
    } else {
        None
    }
}

/// The wire name of a method as bytes.
pub fn method_label_bytes(m: &Method) -> (r: Vec<u8>)
    ensures
        r@ == method_label(*m),
{
    let mut out: Vec<u8> = Vec::new();
    match m {
        Method::Get => {
            out.push(71);
            out.push(69);
            out.push(84);
        },
        Method::Post => {
            out.push(80);
            out.push(79);
            out.push(83);
            out.push(84);
        },
        Method::Put => {
            out.push(80);
            out.push(85);
            out.push(84);
        },
        Method::Delete => {
            out.push(68);
            out.push(69);
            out.push(76);
            out.push(69);
            out.push(84);
            out.push(69);
        },
        Method::Head => {
            out.push(72);
            out.push(69);
            out.push(65);
            out.push(68);
        },
        Method::Options => {
            out.push(79);
            out.push(80);
            out.push(84);
            out.push(73);
            out.push(79);
            out.push(78);
            out.push(83);
        },
        Method::Connect => {
            out.push(67);
            out.push(79);
            out.push(78);
            out.push(78);
            out.push(69);
            out.push(67);
            out.push(84);
        },
        Method::Patch => {
            out.push(80);
            out.push(65);
            out.push(84);
            out.push(67);
            out.push(72);
        },
        Method::Trace => {
            out.push(84);
            out.push(82);
            out.push(65);
            out.push(67);
            out.push(69);
        },
    }
    proof {
        assert(out@ =~= method_label(*m));
    }
    out
}

/// Interprets a method token, or reports it as unknown, carrying the
/// offending token.
pub fn method_from_bytes(v: &[u8]) -> (r: Result<Method, HttpError>)
    ensures
        (match method_of(v@) {
            Some(m) => r matches Ok(x) && x == m,
            None => r matches Err(e) && e@ == SpecError::UnknownMethod(chars_of(v@)),
        }),
{
    if bytes_eq(v, method_label_bytes(&Method::Get).as_slice()) {
        return Ok(Method::Get);
    }
    if bytes_eq(v, method_label_bytes(&Method::Post).as_slice()) {
        return Ok(Method::Post);
    }
    if bytes_eq(v, method_label_bytes(&Method::Put).as_slice()) {
        return Ok(Method::Put);
    }
    if bytes_eq(v, method_label_bytes(&Method::Delete).as_slice()) {
        return Ok(Method::Delete);
    }
    if bytes_eq(v, method_label_bytes(&Method::Head).as_slice()) {
        return Ok(Method::Head);
    }
    if bytes_eq(v, method_label_bytes(&Method::Options).as_slice()) {
        return Ok(Method::Options);
    }
    if bytes_eq(v, method_label_bytes(&Method::Connect).as_slice()) {
        return Ok(Method::Connect);
    }
    if bytes_eq(v, method_label_bytes(&Method::Patch).as_slice()) {
        return Ok(Method::Patch);
    }
    if bytes_eq(v, method_label_bytes(&Method::Trace).as_slice()) {
        return Ok(Method::Trace);
    }
    Err(HttpError::UnknownMethod(bytes_to_string(v)))
}

} // verus!
