//! The message builders: each composes the start-line parser, the header
//! parser and the body reader into an immutable structured message, failing
//! fast on the first error.

use vstd::prelude::*;
use crate::errors::{HttpError, SpecError};
use crate::http_text::{
    headers_spec, parse_header, parse_request_version, parse_response_version, request_line_spec,
    status_line_spec,
};
use crate::message::{Request, RequestView, Response, ResponseView};
use crate::source::{drain_scan, parse_string_body, Source};

verus! {

/// How a whole request parses from the remaining bytes: start line, then
/// headers, then the body drained to exhaustion.  The first failure aborts
/// and propagates unchanged; no partial message is ever produced.
pub open spec fn build_request_spec(rem: Seq<u8>) -> Result<RequestView, SpecError> {
    let rl = request_line_spec(rem);
    match rl.0 {
        Err(e) => Err(e),
        Ok(line) => {
            let rem1 = rem.skip(rl.1);
            let hs = headers_spec(rem1, Seq::<(Seq<char>, Seq<char>)>::empty());
            match hs.0 {
                Err(e) => Err(e),
                Ok(headers) => {
                    let rem2 = rem1.skip(hs.1);
                    Ok(
                        RequestView {
                            method: line.0,
                            uri: line.1,
                            version: line.2,
                            headers,
                            body: drain_scan(rem2, 0, 0).0,
                        },
                    )
                },
            }
        },
    }
}

/// How a whole response parses from the remaining bytes.
pub open spec fn build_response_spec(rem: Seq<u8>) -> Result<ResponseView, SpecError> {
    let sl = status_line_spec(rem);
    match sl.0 {
        Err(e) => Err(e),
        Ok(line) => {
            let rem1 = rem.skip(sl.1);
            let hs = headers_spec(rem1, Seq::<(Seq<char>, Seq<char>)>::empty());
            match hs.0 {
                Err(e) => Err(e),
                Ok(headers) => {
                    let rem2 = rem1.skip(hs.1);
                    Ok(
                        ResponseView {
                            version: line.0,
                            status: line.1,
                            headers,
                            body: drain_scan(rem2, 0, 0).0,
                        },
                    )
                },
            }
        },
    }
}

/// Parses a whole request from the source.
pub fn build_request(src: &mut Source) -> (r: Result<Request, HttpError>)
    requires
        old(src).wf(),
    ensures
        final(src).wf(),
        final(src).data == old(src).data,
        (match build_request_spec(old(src).remaining()) {
            Ok(v) => r matches Ok(req) && req@ == v && req.wf(),
            Err(e) => r matches Err(err) && err@ == e,
        }),
{
    let ghost rem0 = old(src).remaining();
    let line = match parse_request_version(src) {
        Ok(x) => x,
        Err(e) => {
            return Err(e);
        },
    };
    proof {
        assert(src.remaining() =~= rem0.skip(request_line_spec(rem0).1));
    }
    let ghost rem1 = src.remaining();
    let headers = match parse_header(src) {
        Ok(h) => h,
        Err(e) => {
            return Err(e);
        },
    };
    proof {
        assert(src.remaining() =~= rem1.skip(
            headers_spec(rem1, Seq::<(Seq<char>, Seq<char>)>::empty()).1,
        ));
    }
    let body = match parse_string_body(src, 0) {
        Ok(b) => b,
        Err(e) => {
            return Err(e);
        },
    };
    Ok(Request { method: line.method, uri: line.uri, version: line.version, headers, body })
}

/// Parses a whole response from the source.
pub fn build_response(src: &mut Source) -> (r: Result<Response, HttpError>)
    requires
        old(src).wf(),
    ensures
        final(src).wf(),
        final(src).data == old(src).data,
        (match build_response_spec(old(src).remaining()) {
            Ok(v) => r matches Ok(resp) && resp@ == v && resp.wf(),
            Err(e) => r matches Err(err) && err@ == e,
        }),
{
    let ghost rem0 = old(src).remaining();
    let line = match parse_response_version(src) {
        Ok(x) => x,
        Err(e) => {
            return Err(e);
        },
    };
    proof {
        assert(src.remaining() =~= rem0.skip(status_line_spec(rem0).1));
    }
    let ghost rem1 = src.remaining();
    let headers = match parse_header(src) {
        Ok(h) => h,
        Err(e) => {
            return Err(e);
        },
    };
    proof {
        assert(src.remaining() =~= rem1.skip(
            headers_spec(rem1, Seq::<(Seq<char>, Seq<char>)>::empty()).1,
        ));
    }
    let body = match parse_string_body(src, 0) {
        Ok(b) => b,
        Err(e) => {
            return Err(e);
        },
    };
    Ok(Response { version: line.version, status: line.status, headers, body })
}

/// A builder of structured messages from a byte source.
pub trait StreamBuilder {
    type Output;

    fn build(r: &mut Source) -> (out: Result<Self::Output, HttpError>)
        requires
            old(r).wf(),
        ensures
            final(r).wf(),
            final(r).data == old(r).data,
    ;
}

/// Builds requests from a byte source.
pub struct RequestStreamBuilder {}

impl StreamBuilder for RequestStreamBuilder {
    type Output = Request;

    fn build(r: &mut Source) -> (out: Result<Request, HttpError>)
        ensures
            (match build_request_spec(old(r).remaining()) {
                Ok(v) => out matches Ok(req) && req@ == v && req.wf(),
                Err(e) => out matches Err(err) && err@ == e,
            }),
    {
        build_request(r)
    }
}

/// Builds responses from a byte source.
pub struct ResponseStreamBuilder {}

impl StreamBuilder for ResponseStreamBuilder {
    type Output = Response;

    fn build(r: &mut Source) -> (out: Result<Response, HttpError>)
        ensures
            (match build_response_spec(old(r).remaining()) {
                Ok(v) => out matches Ok(resp) && resp@ == v && resp.wf(),
                Err(e) => out matches Err(err) && err@ == e,
            }),
    {
        build_response(r)
    }
}

} // verus!
