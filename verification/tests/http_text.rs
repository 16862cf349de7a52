use http_codec::errors::HttpError;
use http_codec::http_text::{parse_header, parse_request_version, parse_response_version};
use http_codec::source::{parse_string_body, read_line, Source};
use http_codec::version::Version;

#[test]
fn test_parse_response_version_happy() {
    let input = b"HTTP/1.1 200 OK\r\nContent-Type: text/html; charset=UTF-8\r\n\r\n<html><body>Hello world</body></html>\r\n";
    let mut buff = Source::new(input.to_vec());
    let response_version = parse_response_version(&mut buff).unwrap();
    assert_eq!(response_version.version, Version::Http11);
}

#[test]
fn test_http_response_text_protocol_bad() {
    let input = b"HTTP/5.1 200 OK\r\nContent-Type: text/html; charset=UTF-8\r\n\r\n<html><body>Hello world</body></html>\r\n";
    let mut buff = Source::new(input.to_vec());
    let response_version = parse_response_version(&mut buff);
    assert!(response_version.is_err());
    if let Err(err) = response_version {
        assert!(matches!(err, HttpError::UnknownVersion(_)));
        assert_eq!(err.message(), "Invalid HTTP Version: HTTP/5.1");
    }
}

#[test]
fn test_http_response_text_code_happy() {
    let input = b"HTTP/1.1 200 OK\r\nContent-Type: text/html; charset=UTF-8\r\n\r\n<html><body>Hello world</body></html>\r\n";
    let mut buff = Source::new(input.to_vec());
    let response_version = parse_response_version(&mut buff).unwrap();
    assert_eq!(response_version.status, 200);
}

#[test]
fn test_http_response_text_code_non_digital() {
    let input = b"HTTP/1.1 OK\r\nContent-Type: text/html; charset=UTF-8\r\n\r\n<html><body>Hello world</body></html>\r\n";
    let mut buff = Source::new(input.to_vec());
    let response_version = parse_response_version(&mut buff);
    assert!(response_version.is_err());
    if let Err(err) = response_version {
        assert!(matches!(err, HttpError::StatusParseError(_)));
        assert_eq!(
            err.message(),
            "failed to parse http status: invalid digit found in string"
        );
    }
}

#[test]
fn test_http_response_text_header_happy() {
    let input = b"HTTP/1.1 200 OK\r\nContent-Type: text/html; charset=UTF-8\r\nage:33160\r\n\r\n<html><body>Hello world</body></html>\r\n";
    let mut buff = Source::new(input.to_vec());
    let response_version = parse_response_version(&mut buff).unwrap();
    assert_eq!(response_version.status, 200);
    let headers = parse_header(&mut buff).unwrap();
    assert_eq!(headers.len(), 2);
    assert_eq!(headers.get("Content-Type").unwrap(), "text/html; charset=UTF-8");
    assert_eq!(headers.get("age").unwrap(), "33160");
}

#[test]
fn test_http_response_text_header_empty() {
    let input = b"HTTP/1.1 200 OK\r\n\r\n<html><body>Hello world</body></html>\r\n";
    let mut buff = Source::new(input.to_vec());
    let response_version = parse_response_version(&mut buff).unwrap();
    assert_eq!(response_version.status, 200);
    let headers = parse_header(&mut buff).unwrap();
    assert_eq!(headers.len(), 0);
}

#[test]
fn test_http_response_text_body() {
    let input = b"HTTP/1.1 200 OK\r\nContent-Type: text/html; charset=UTF-8\r\nage:33160\r\n\r\n<html><body>Hello world</body></html>\r\n";
    let mut buff = Source::new(input.to_vec());
    let response_version = parse_response_version(&mut buff).unwrap();
    assert_eq!(response_version.status, 200);
    let headers = parse_header(&mut buff).unwrap();
    assert_eq!(headers.len(), 2);
    let body = parse_string_body(&mut buff, 1024).unwrap();
    assert_eq!(body, "<html><body>Hello world</body></html>\r\n");
}

#[test]
fn test_http_response_text_empty() {
    let input = b"HTTP/1.1 200 OK\r\nContent-Type: text/html; charset=UTF-8\r\nage:33160\r\n\r\n";
    let mut buff = Source::new(input.to_vec());
    let response_version = parse_response_version(&mut buff).unwrap();
    assert_eq!(response_version.status, 200);
    let headers = parse_header(&mut buff).unwrap();
    assert_eq!(headers.len(), 2);
    let body = parse_string_body(&mut buff, 1024).unwrap();
    assert_eq!(body, "");
}

#[test]
fn test_read_line() {
    let input = b"This is line one\r\nThis is line two\r\nThis is line three.";
    let mut buff = Source::new(input.to_vec());
    let line = read_line(&mut buff, 1024).unwrap();
    assert_eq!(&line[..], b"This is line one");

    let line = read_line(&mut buff, 1024).unwrap();
    assert_eq!(&line[..], b"This is line two");

    let line = read_line(&mut buff, 1024).unwrap();
    assert_eq!(&line[..], b"This is line three.");
}

#[test]
fn test_read_line_empty() {
    let input = b"This is line one\r\n\r\n";
    let mut buff = Source::new(input.to_vec());
    let line = read_line(&mut buff, 1024).unwrap();
    assert_eq!(&line[..], b"This is line one");

    let line = read_line(&mut buff, 1024).unwrap();
    assert_eq!(line.len(), 0);
}

#[test]
fn test_parse_string_body() {
    let input = b"This is line one\r\n\r\n";
    let mut buff = Source::new(input.to_vec());
    let body = parse_string_body(&mut buff, 64).unwrap();
    assert_eq!(body, "This is line one\r\n\r\n");
}

#[test]
fn test_parse_string_body_empty() {
    let input = b"";
    let mut buff = Source::new(input.to_vec());
    let body = parse_string_body(&mut buff, 64).unwrap();
    assert_eq!(body, "");
}

#[test]
fn test_parse_request_version_happy() {
    let input = b"POST /home HTTP/1.1\r\nHOST: localhost:8080\r\n\r\n";
    let mut buff = Source::new(input.to_vec());
    let request_version = parse_request_version(&mut buff).unwrap();
    assert_eq!(request_version.method, http_codec::method::Method::Post);
    assert_eq!(request_version.uri, "/home");
    assert_eq!(request_version.version, Version::Http11);
}
