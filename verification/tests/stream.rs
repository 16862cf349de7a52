use http_codec::headers::HeaderMap;
use http_codec::message::{Message, Request, Response};
use http_codec::method::Method;
use http_codec::source::Source;
use http_codec::stream_builder::{RequestStreamBuilder, ResponseStreamBuilder, StreamBuilder};
use http_codec::streamable::Streamable;
use http_codec::version::Version;

#[test]
fn test_response_build_from_tcp_stream() {
    let response_raw = b"HTTP/1.1 200 OK\r\nContent-Type: text/html; charset=UTF-8\r\nage: 13360\r\n\r\n<html><body>Hello world</body></html>\r\n";
    let mut buff = Source::new(response_raw.to_vec());
    let response = ResponseStreamBuilder::build(&mut buff).unwrap();
    assert_eq!(response.status(), 200);
    assert_eq!(response.version(), Version::Http11);
    assert_eq!(response.headers().len(), 2);
}

#[test]
fn test_request_build_from_tcp_stream() {
    let request_raw = b"POST /home HTTP/1.1\r\nHOST: localhost:8080\r\nUser-Agent: Mozilla/5.0\r\nAccept: text/html, application/xhtml+xml,*/*;q=0.8\r\n\r\n<html><body>this is a test</body></html>\r\n";
    let mut buff = Source::new(request_raw.to_vec());
    let request = RequestStreamBuilder::build(&mut buff).unwrap();
    assert_eq!(request.method(), Method::Post);
    assert_eq!(request.version(), Version::Http11);
    assert_eq!(request.uri(), "/home");
    let headers = request.headers();
    assert_eq!(headers.len(), 3);
    assert_eq!(headers.get("HOST").unwrap(), "localhost:8080");
    assert_eq!(headers.get("User-Agent").unwrap(), "Mozilla/5.0");
    assert_eq!(
        headers.get("Accept").unwrap(),
        "text/html, application/xhtml+xml,*/*;q=0.8"
    );
}

#[test]
fn test_write_response() {
    let mut headers = HeaderMap::new();
    headers.insert("Content-Type", "text/html");
    headers.insert("keep-alive", "true");
    let response = Response {
        version: Version::Http11,
        status: 200,
        headers,
        body: String::from("<html><body>This is the body</body></html>"),
    };
    let mut buf = Vec::<u8>::new();
    response.write(&mut buf).unwrap();
    let str_buff = String::from_utf8_lossy(&buf);
    assert_eq!(
        str_buff,
        "HTTP/1.1 200 OK\r\ncontent-type: text/html\r\nkeep-alive: true\r\n\r\n<html><body>This is the body</body></html>"
    );
}

#[test]
fn test_write_request() {
    let mut headers = HeaderMap::new();
    headers.insert("Content-Type", "text/html");
    headers.insert("keep-alive", "true");
    let request = Request {
        method: Method::Post,
        uri: String::from("/home"),
        version: Version::Http11,
        headers,
        body: String::from("{\"name\":\"John\"}"),
    };
    let mut buf = Vec::<u8>::new();
    request.write(&mut buf).unwrap();
    let str_buff = String::from_utf8_lossy(&buf);
    assert_eq!(
        str_buff,
        "POST /home HTTP/1.1\r\ncontent-type: text/html\r\nkeep-alive: true\r\n\r\n{\"name\":\"John\"}"
    );
}

#[test]
fn test_write_message_variants() {
    let response = Response {
        version: Version::Http11,
        status: 404,
        headers: HeaderMap::new(),
        body: String::new(),
    };
    let msg = Message::Response(response);
    let mut buf = Vec::<u8>::new();
    msg.write(&mut buf).unwrap();
    assert_eq!(String::from_utf8_lossy(&buf), "HTTP/1.1 404 Not Found\r\n\r\n");
}
