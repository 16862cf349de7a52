//! The codec's error taxonomy.  Every parse or serialize failure is
//! categorized here, carrying the offending raw token or value for
//! diagnostics.

use vstd::prelude::*;

verus! {

/// The specification-level form of a codec error: the same taxonomy as
/// [`HttpError`], with text payloads as character sequences.
pub enum SpecError {
    BufferOverflow,
    MalformedStartLine,
    UnknownMethod(Seq<char>),
    UnknownVersion(Seq<char>),
    StatusParseError(Seq<char>),
    InvalidHeaderName(Seq<char>),
    InvalidHeaderValue(Seq<char>),
    BodyBuildFailure(Seq<char>),
    HeaderEncodingError(Seq<char>),
}

/// An error of the codec.
///
/// - `BufferOverflow`: a line exceeded the scanning buffer's capacity.
/// - `MalformedStartLine`: a start line with too few fields.
/// - `UnknownMethod`: a request method token outside the known set.
/// - `UnknownVersion`: a version label outside the closed enumeration.
/// - `StatusParseError`: a non-numeric (or out-of-range) status code; the
///   payload is the reason the number failed to parse.
/// - `InvalidHeaderName`: a header field name that is not a valid token.
/// - `InvalidHeaderValue`: a header field value with illegal characters.
/// - `BodyBuildFailure`: a structured message could not be assembled.
/// - `HeaderEncodingError`: on serialization, a header value that cannot be
///   represented as legal field text.
#[derive(Debug)]
pub enum HttpError {
    BufferOverflow,
    MalformedStartLine,
    UnknownMethod(String),
    UnknownVersion(String),
    StatusParseError(String),
    InvalidHeaderName(String),
    InvalidHeaderValue(String),
    BodyBuildFailure(String),
    HeaderEncodingError(String),
}

impl View for HttpError {
    type V = SpecError;

    open spec fn view(&self) -> SpecError {
        match self {
            HttpError::BufferOverflow => SpecError::BufferOverflow,
            HttpError::MalformedStartLine => SpecError::MalformedStartLine,
            HttpError::UnknownMethod(s) => SpecError::UnknownMethod(s@),
            HttpError::UnknownVersion(s) => SpecError::UnknownVersion(s@),
            HttpError::StatusParseError(s) => SpecError::StatusParseError(s@),
            HttpError::InvalidHeaderName(s) => SpecError::InvalidHeaderName(s@),
            HttpError::InvalidHeaderValue(s) => SpecError::InvalidHeaderValue(s@),
            HttpError::BodyBuildFailure(s) => SpecError::BodyBuildFailure(s@),
            HttpError::HeaderEncodingError(s) => SpecError::HeaderEncodingError(s@),
        }
    }
}

/// The human-readable message of a specification-level error.
pub open spec fn spec_message(e: SpecError) -> Seq<char> {
    match e {
        SpecError::BufferOverflow => "line exceeds buffer capacity"@,
        SpecError::MalformedStartLine => "Malformed start line"@,
        SpecError::UnknownMethod(s) => "Unknown http method: "@ + s,
        SpecError::UnknownVersion(s) => "Invalid HTTP Version: "@ + s,
        SpecError::StatusParseError(s) => "failed to parse http status: "@ + s,
        SpecError::InvalidHeaderName(s) => "Invalid header name: "@ + s,
        SpecError::InvalidHeaderValue(s) => "Invalid header value: "@ + s,
        SpecError::BodyBuildFailure(s) => "Http body error: "@ + s,
        SpecError::HeaderEncodingError(s) => (
        "failed to convert header data to string: "@ + s),
    }
}

impl HttpError {
    /// The human-readable message of the error, embedding the offending
    /// input fragment.
    pub fn message(&self) -> (r: String)
        ensures
            r@ == spec_message(self@),
    {
        match self {
            HttpError::BufferOverflow => String::from_str("line exceeds buffer capacity"),
            HttpError::MalformedStartLine => String::from_str("Malformed start line"),
            HttpError::UnknownMethod(s) => String::from_str("Unknown http method: ").concat(
                s.as_str(),
            ),
            HttpError::UnknownVersion(s) => String::from_str("Invalid HTTP Version: ").concat(
                s.as_str(),
            ),
            HttpError::StatusParseError(s) => String::from_str(
                "failed to parse http status: ",
            ).concat(s.as_str()),
            HttpError::InvalidHeaderName(s) => String::from_str("Invalid header name: ").concat(
                s.as_str(),
            ),
            HttpError::InvalidHeaderValue(s) => String::from_str("Invalid header value: ").concat(
                s.as_str(),
            ),
            HttpError::BodyBuildFailure(s) => String::from_str("Http body error: ").concat(
                s.as_str(),
            ),
            HttpError::HeaderEncodingError(s) => String::from_str(
                "failed to convert header data to string: ",
            ).concat(s.as_str()),
        }
    }
}

} // verus!
