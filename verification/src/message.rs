//! The structured messages the codec produces and consumes: a request or a
//! response, immutable once constructed.

use vstd::prelude::*;
use crate::headers::HeaderMap;
use crate::method::Method;
use crate::version::Version;

verus! {

/// The mathematical shape of a request: what its fields read as.
pub struct RequestView {
    pub method: Method,
    pub uri: Seq<char>,
    pub version: Version,
    pub headers: Seq<(Seq<char>, Seq<char>)>,
    pub body: Seq<char>,
}

/// The mathematical shape of a response.
pub struct ResponseView {
    pub version: Version,
    pub status: u16,
    pub headers: Seq<(Seq<char>, Seq<char>)>,
    pub body: Seq<char>,
}

/// A structured request: method, opaque target, version, headers and body.
#[derive(Debug)]
pub struct Request {
    pub method: Method,
    pub uri: String,
    pub version: Version,
    pub headers: HeaderMap,
    pub body: String,
}

/// A structured response: version, status code, headers and body.
#[derive(Debug)]
pub struct Response {
    pub version: Version,
    pub status: u16,
    pub headers: HeaderMap,
    pub body: String,
}

impl View for Request {
    type V = RequestView;

    open spec fn view(&self) -> RequestView {
        RequestView {
            method: self.method,
            uri: self.uri@,
            version: self.version,
            headers: self.headers@,
            body: self.body@,
        }
    }
}

impl View for Response {
    type V = ResponseView;

    open spec fn view(&self) -> ResponseView {
        ResponseView {
            version: self.version,
            status: self.status,
            headers: self.headers@,
            body: self.body@,
        }
    }
}

impl Request {
    /// The message's header map satisfies its invariant.
    pub open spec fn wf(&self) -> bool {
        self.headers.wf()
    }

    /// The request method.
    pub fn method(&self) -> (r: Method)
        ensures
            r == self.method,
    {
        self.method
    }

    /// The request target, an opaque string.
    pub fn uri(&self) -> (r: &String)
        ensures
            r@ == self.uri@,
    {
        &self.uri
    }

    /// The protocol version.
    pub fn version(&self) -> (r: Version)
        ensures
            r == self.version,
    {
        self.version
    }

    /// The header map.
    pub fn headers(&self) -> (r: &HeaderMap)
        ensures
            r@ == self.headers@,
    {
        &self.headers
    }

    /// The message body.
    pub fn body(&self) -> (r: &String)
        ensures
            r@ == self.body@,
    {
        &self.body
    }
}

impl Response {
    /// The message's header map satisfies its invariant.
    pub open spec fn wf(&self) -> bool {
        self.headers.wf()
    }

    /// The status code.
    pub fn status(&self) -> (r: u16)
        ensures
            r == self.status,
    {
        self.status
    }

    /// The protocol version.
    pub fn version(&self) -> (r: Version)
        ensures
            r == self.version,
    {
        self.version
    }

    /// The header map.
    pub fn headers(&self) -> (r: &HeaderMap)
        ensures
            r@ == self.headers@,
    {
        &self.headers
    }

    /// The message body.
    pub fn body(&self) -> (r: &String)
        ensures
            r@ == self.body@,
    {
        &self.body
    }
}

/// A message: the closed tagged union of request and response.
#[derive(Debug)]
pub enum Message {
    Request(Request),
    Response(Response),
}

} // verus!
