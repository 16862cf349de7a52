use http_codec::errors::HttpError;
use http_codec::headers::HeaderMap;
use http_codec::http_text::{parse_header, parse_request_version, parse_response_version};
use http_codec::method::Method;
use http_codec::source::{parse_string_body, read_line, Source};
use http_codec::stream_builder::{build_request, build_response};
use http_codec::streamable::{write_request, write_response};
use http_codec::version::Version;

#[test]
fn simple_get_request_parses() {
    let input = b"GET / HTTP/1.1\r\nHost: example.com\r\n\r\n";
    let mut src = Source::new(input.to_vec());
    let req = build_request(&mut src).unwrap();
    assert_eq!(req.method, Method::Get);
    assert_eq!(req.uri, "/");
    assert_eq!(req.version, Version::Http11);
    assert_eq!(req.headers.len(), 1);
    assert_eq!(req.headers.get("Host").unwrap(), "example.com");
    assert_eq!(req.body, "");
}

#[test]
fn bare_status_line_parses_to_empty_response() {
    let input = b"HTTP/1.1 404 Not Found\r\n\r\n";
    let mut src = Source::new(input.to_vec());
    let resp = build_response(&mut src).unwrap();
    assert_eq!(resp.version, Version::Http11);
    assert_eq!(resp.status, 404);
    assert_eq!(resp.headers.len(), 0);
    assert_eq!(resp.body, "");
}

#[test]
fn unknown_version_error_carries_label() {
    let input = b"GET / HTTP/5.1\r\n\r\n";
    let mut src = Source::new(input.to_vec());
    let err = parse_request_version(&mut src).unwrap_err();
    match err {
        HttpError::UnknownVersion(label) => assert_eq!(label, "HTTP/5.1"),
        other => panic!("unexpected error: {}", other.message()),
    }
}

#[test]
fn non_numeric_status_is_status_parse_error() {
    let input = b"HTTP/1.1 OK\r\n\r\n";
    let mut src = Source::new(input.to_vec());
    let err = parse_response_version(&mut src).unwrap_err();
    assert!(matches!(err, HttpError::StatusParseError(_)));
}

#[test]
fn response_round_trip_reproduces_equal_response() {
    let mut headers = HeaderMap::new();
    headers.insert("Content-Type", "text/html");
    let resp = http_codec::message::Response {
        version: Version::Http11,
        status: 200,
        headers,
        body: String::from("<p>hi</p>"),
    };
    let mut wire = Vec::<u8>::new();
    write_response(&resp, &mut wire).unwrap();
    let mut src = Source::new(wire);
    let back = build_response(&mut src).unwrap();
    assert_eq!(back.version, resp.version);
    assert_eq!(back.status, resp.status);
    assert_eq!(back.headers.len(), 1);
    assert_eq!(back.headers.get("content-type").unwrap(), "text/html");
    assert_eq!(back.body, "<p>hi</p>");
}

#[test]
fn request_round_trip_reproduces_equal_request() {
    let mut headers = HeaderMap::new();
    headers.insert("Host", "example.com");
    headers.insert("Accept", "*/*");
    let req = http_codec::message::Request {
        method: Method::Put,
        uri: String::from("/items/7?full=yes"),
        version: Version::Http10,
        headers,
        body: String::from("payload bytes"),
    };
    let mut wire = Vec::<u8>::new();
    write_request(&req, &mut wire).unwrap();
    let mut src = Source::new(wire);
    let back = build_request(&mut src).unwrap();
    assert_eq!(back.method, req.method);
    assert_eq!(back.uri, req.uri);
    assert_eq!(back.version, req.version);
    assert_eq!(back.headers.len(), 2);
    assert_eq!(back.headers.get("host").unwrap(), "example.com");
    assert_eq!(back.headers.get("accept").unwrap(), "*/*");
    assert_eq!(back.body, req.body);
}

#[test]
fn parsing_twice_yields_equal_messages() {
    let input = b"GET /twice HTTP/1.1\r\nHost: a\r\n\r\nsame body";
    let mut s1 = Source::new(input.to_vec());
    let mut s2 = Source::new(input.to_vec());
    let r1 = build_request(&mut s1).unwrap();
    let r2 = build_request(&mut s2).unwrap();
    assert_eq!(r1.method, r2.method);
    assert_eq!(r1.uri, r2.uri);
    assert_eq!(r1.version, r2.version);
    assert_eq!(r1.headers.len(), r2.headers.len());
    assert_eq!(r1.body, r2.body);
}

#[test]
fn header_line_over_capacity_overflows() {
    let mut input: Vec<u8> = b"HTTP/1.1 200 OK\r\nx-long: ".to_vec();
    input.extend(std::iter::repeat(b'a').take(1300));
    input.extend(b"\r\n\r\n");
    let mut src = Source::new(input);
    parse_response_version(&mut src).unwrap();
    let err = parse_header(&mut src).unwrap_err();
    assert!(matches!(err, HttpError::BufferOverflow));
}

#[test]
fn line_at_capacity_is_kept_whole() {
    let mut input: Vec<u8> = std::iter::repeat(b'a').take(1024).collect();
    input.extend(b"\r\nrest");
    let mut src = Source::new(input);
    let line = read_line(&mut src, 1024).unwrap();
    assert_eq!(line.len(), 1024);
    let err = {
        let mut input2: Vec<u8> = std::iter::repeat(b'a').take(1025).collect();
        input2.extend(b"\r\nrest");
        let mut src2 = Source::new(input2);
        read_line(&mut src2, 1024).unwrap_err()
    };
    assert!(matches!(err, HttpError::BufferOverflow));
}

#[test]
fn start_line_then_blank_line_gives_zero_headers() {
    let input = b"DELETE /x HTTP/1.0\r\n\r\n";
    let mut src = Source::new(input.to_vec());
    let req = build_request(&mut src).unwrap();
    assert_eq!(req.method, Method::Delete);
    assert_eq!(req.headers.len(), 0);
}

#[test]
fn second_value_wins_on_repeated_header_name() {
    let input = b"HTTP/1.1 200 OK\r\nAge: 1\r\nAGE: 2\r\n\r\n";
    let mut src = Source::new(input.to_vec());
    parse_response_version(&mut src).unwrap();
    let headers = parse_header(&mut src).unwrap();
    assert_eq!(headers.len(), 1);
    assert_eq!(headers.get("age").unwrap(), "2");
}

#[test]
fn unknown_method_error_carries_token() {
    let input = b"FLY / HTTP/1.1\r\n\r\n";
    let mut src = Source::new(input.to_vec());
    let err = parse_request_version(&mut src).unwrap_err();
    match err {
        HttpError::UnknownMethod(token) => assert_eq!(token, "FLY"),
        other => panic!("unexpected error: {}", other.message()),
    }
}

#[test]
fn short_start_line_is_malformed() {
    let input = b"GET /\r\n\r\n";
    let mut src = Source::new(input.to_vec());
    let err = parse_request_version(&mut src).unwrap_err();
    assert!(matches!(err, HttpError::MalformedStartLine));
}

#[test]
fn bad_header_value_is_rejected_with_raw_value() {
    let input = b"HTTP/1.1 200 OK\r\na: b\x01c\r\n\r\n";
    let mut src = Source::new(input.to_vec());
    parse_response_version(&mut src).unwrap();
    let err = parse_header(&mut src).unwrap_err();
    match err {
        HttpError::InvalidHeaderValue(v) => assert_eq!(v, "b\u{1}c"),
        other => panic!("unexpected error: {}", other.message()),
    }
}

#[test]
fn bad_header_name_is_rejected_with_raw_name() {
    let input = b"HTTP/1.1 200 OK\r\na b: c\r\n\r\n";
    let mut src = Source::new(input.to_vec());
    parse_response_version(&mut src).unwrap();
    let err = parse_header(&mut src).unwrap_err();
    match err {
        HttpError::InvalidHeaderName(n) => assert_eq!(n, "a b"),
        other => panic!("unexpected error: {}", other.message()),
    }
}

#[test]
fn colonless_header_line_is_skipped() {
    let input = b"HTTP/1.1 200 OK\r\nthis line has no separator\r\nAge: 3\r\n\r\n";
    let mut src = Source::new(input.to_vec());
    parse_response_version(&mut src).unwrap();
    let headers = parse_header(&mut src).unwrap();
    assert_eq!(headers.len(), 1);
    assert_eq!(headers.get("Age").unwrap(), "3");
}

#[test]
fn status_overflow_and_empty_status_errors() {
    let mut src = Source::new(b"HTTP/1.1 99999\r\n\r\n".to_vec());
    let err = parse_response_version(&mut src).unwrap_err();
    assert_eq!(
        err.message(),
        "failed to parse http status: number too large to fit in target type"
    );
    let mut src2 = Source::new(b"HTTP/1.1 \r\n\r\n".to_vec());
    let err2 = parse_response_version(&mut src2).unwrap_err();
    assert_eq!(
        err2.message(),
        "failed to parse http status: cannot parse integer from empty string"
    );
}

#[test]
fn unencodable_header_value_fails_serialization() {
    let mut headers = HeaderMap::new();
    headers.insert("x-odd", "bad\u{1}value");
    let resp = http_codec::message::Response {
        version: Version::Http11,
        status: 200,
        headers,
        body: String::new(),
    };
    let mut wire = Vec::<u8>::new();
    let err = write_response(&resp, &mut wire).unwrap_err();
    assert!(matches!(err, HttpError::HeaderEncodingError(_)));
    assert!(wire.is_empty());
}

#[test]
fn invalid_utf8_body_is_replaced_not_rejected() {
    let input: Vec<u8> = vec![0xff, 0xfe, b'o', b'k'];
    let mut src = Source::new(input);
    let body = parse_string_body(&mut src, 16).unwrap();
    assert_eq!(body, "\u{FFFD}\u{FFFD}ok");
}

#[test]
fn header_names_are_normalized_to_lower_case() {
    let mut headers = HeaderMap::new();
    headers.insert("X-Mixed-CASE", "v");
    assert_eq!(headers.get("x-mixed-case").unwrap(), "v");
    assert_eq!(headers.name_at(0), "x-mixed-case");
}

#[test]
fn unknown_status_code_gets_no_reason_phrase() {
    let resp = http_codec::message::Response {
        version: Version::Http11,
        status: 599,
        headers: HeaderMap::new(),
        body: String::new(),
    };
    let mut wire = Vec::<u8>::new();
    write_response(&resp, &mut wire).unwrap();
    assert_eq!(String::from_utf8_lossy(&wire), "HTTP/1.1 599\r\n\r\n");
}

#[test]
fn bare_line_feed_is_swallowed() {
    let input = b"one\ntwo\r\nthree";
    let mut src = Source::new(input.to_vec());
    let line = read_line(&mut src, 1024).unwrap();
    assert_eq!(&line[..], b"onetwo");
    let line2 = read_line(&mut src, 1024).unwrap();
    assert_eq!(&line2[..], b"three");
}

#[test]
fn parse_body_reads_into_caller_buffer() {
    let input = b"abcdef";
    let mut src = Source::new(input.to_vec());
    let mut out = vec![0u8; 4];
    let n = http_codec::source::parse_body(&mut src, &mut out).unwrap();
    assert_eq!(n, 4);
    assert_eq!(&out[..], b"abcd");
    let mut out2 = vec![0u8; 4];
    let n2 = http_codec::source::parse_body(&mut src, &mut out2).unwrap();
    assert_eq!(n2, 2);
    assert_eq!(&out2[..2], b"ef");
}

#[test]
fn long_ascii_body_round_trips() {
    let body: String = std::iter::repeat('x').take(3000).collect();
    let resp = http_codec::message::Response {
        version: Version::Http11,
        status: 200,
        headers: HeaderMap::new(),
        body: body.clone(),
    };
    let mut wire = Vec::<u8>::new();
    write_response(&resp, &mut wire).unwrap();
    let mut src = Source::new(wire);
    let back = build_response(&mut src).unwrap();
    assert_eq!(back.status, 200);
    assert_eq!(back.body, body);
}
