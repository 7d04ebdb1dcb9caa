use nibble_torrent_client_hurricaneport::http::{total_response_length, HttpHeader};
use nibble_torrent_client_hurricaneport::error::{Error, IoKind};
use nibble_torrent_client_hurricaneport::http::{HttpFailure, HttpProgress, HttpResponseReader};
use nibble_torrent_client_hurricaneport::networking::{connect_address, http_request_message, Method, UrlParts};

fn feed(reader: &mut HttpResponseReader, data: &[u8]) -> Result<HttpProgress, HttpFailure> {
    reader.receive(data)
}

fn body_of(r: Result<HttpProgress, HttpFailure>) -> Option<String> {
    match r {
        Ok(HttpProgress::Complete(b)) => Some(b),
        _ => None,
    }
}

#[test]
fn whole_response_in_one_piece() {
    let mut reader = HttpResponseReader::new();
    let r = feed(&mut reader, b"HTTP/1.1 200 OK\r\nContent-Length: 5\r\n\r\nhello");
    assert_eq!(body_of(r), Some("hello".to_string()));
}

#[test]
fn response_in_pieces() {
    let mut reader = HttpResponseReader::new();
    assert!(matches!(feed(&mut reader, b"HTTP/1.1 200 OK\r\nConte"), Ok(HttpProgress::NeedMore)));
    assert!(matches!(feed(&mut reader, b"nt-Length: 11\r\n\r\nhello"), Ok(HttpProgress::NeedMore)));
    assert_eq!(body_of(feed(&mut reader, b" world, and more")), Some("hello world".to_string()));
}

#[test]
fn header_name_case_is_ignored() {
    let mut reader = HttpResponseReader::new();
    let r = feed(&mut reader, b"HTTP/1.1 200 OK\r\nX-Other: 1\r\ncontent-LENGTH: 2\r\n\r\n{}");
    assert_eq!(body_of(r), Some("{}".to_string()));
}

#[test]
fn content_length_may_have_a_plus_sign() {
    let mut reader = HttpResponseReader::new();
    let r = feed(&mut reader, b"HTTP/1.1 200 OK\r\nContent-Length: +3\r\n\r\nabc");
    assert_eq!(body_of(r), Some("abc".to_string()));
}

#[test]
fn zero_length_body() {
    let mut reader = HttpResponseReader::new();
    let r = feed(&mut reader, b"HTTP/1.1 204 No Content\r\nContent-Length: 0\r\n\r\n");
    assert_eq!(body_of(r), Some(String::new()));
}

#[test]
fn closed_connection() {
    let mut reader = HttpResponseReader::new();
    assert!(matches!(feed(&mut reader, b"HTTP/1.1 200"), Ok(HttpProgress::NeedMore)));
    let f = feed(&mut reader, b"");
    assert!(matches!(f, Err(HttpFailure::Closed)));
    if let Err(f) = f {
        let (kind, message) = f.io_description();
        assert!(matches!(kind, IoKind::Interrupted));
        assert_eq!(message, "Stream closed before all data received");
        match f.into_error() {
            Error::IOError(e) => assert_eq!(e.kind(), std::io::ErrorKind::Interrupted),
            _ => panic!("expected an I/O error"),
        }
    }
}

#[test]
fn missing_content_length() {
    let mut reader = HttpResponseReader::new();
    let f = feed(&mut reader, b"HTTP/1.1 200 OK\r\nServer: x\r\n\r\nbody");
    assert!(matches!(f, Err(HttpFailure::MissingContentLength)));
    if let Err(f) = f {
        assert_eq!(f.io_description().1, "No Content-Length header in response");
        match f.into_error() {
            Error::IOError(e) => {
                assert_eq!(e.kind(), std::io::ErrorKind::InvalidData);
                assert_eq!(e.to_string(), "No Content-Length header in response");
            }
            _ => panic!("expected an I/O error"),
        }
    }
}

#[test]
fn invalid_content_length() {
    let mut reader = HttpResponseReader::new();
    let f = feed(&mut reader, b"HTTP/1.1 200 OK\r\nContent-Length: 12a\r\n\r\n");
    assert!(matches!(f, Err(HttpFailure::ContentLengthInvalid(_))));
    if let Err(f) = f {
        assert_eq!(f.io_description().1, "Could not parse Content-Length header: invalid digit found in string");
    }
    let mut reader = HttpResponseReader::new();
    let f = feed(&mut reader, b"HTTP/1.1 200 OK\r\nContent-Length: -1\r\n\r\n");
    assert!(matches!(f, Err(HttpFailure::ContentLengthInvalid(_))));
}

#[test]
fn content_length_not_utf8() {
    let mut reader = HttpResponseReader::new();
    let f = feed(&mut reader, b"HTTP/1.1 200 OK\r\nContent-Length: \xff\r\n\r\n");
    assert!(matches!(f, Err(HttpFailure::ContentLengthNotUtf8(_))));
    if let Err(f) = f {
        assert!(f.io_description().1.starts_with("Invalid Content-Length header: "));
    }
}

#[test]
fn content_length_too_large() {
    let mut reader = HttpResponseReader::new();
    let f = feed(&mut reader, b"HTTP/1.1 200 OK\r\nContent-Length: 18446744073709551615\r\n\r\n");
    assert!(matches!(f, Err(HttpFailure::ContentLengthTooLarge)));
}

#[test]
fn body_not_utf8() {
    let mut reader = HttpResponseReader::new();
    let f = feed(&mut reader, b"HTTP/1.1 200 OK\r\nContent-Length: 2\r\n\r\n\xc3\x28");
    assert!(matches!(f, Err(HttpFailure::BodyNotUtf8(_))));
    if let Err(f) = f {
        assert!(f.io_description().1.starts_with("Invalid body data: "));
    }
}

#[test]
fn malformed_head() {
    let mut reader = HttpResponseReader::new();
    let f = feed(&mut reader, b"HTTQ/1.1 200 OK\r\n\r\n");
    assert!(matches!(f, Err(HttpFailure::Malformed(httparse::Error::Version))));
    if let Err(f) = f {
        assert!(matches!(f.into_error(), Error::HTTPParseError(httparse::Error::Version)));
    }
}

#[test]
fn too_many_headers() {
    let mut head = String::from("HTTP/1.1 200 OK\r\n");
    for i in 0..17 {
        head.push_str(&format!("X-{}: v\r\n", i));
    }
    head.push_str("Content-Length: 0\r\n\r\n");
    let mut reader = HttpResponseReader::new();
    let f = feed(&mut reader, head.as_bytes());
    assert!(matches!(f, Err(HttpFailure::Malformed(httparse::Error::TooManyHeaders))));
}

#[test]
fn url_parts() {
    let p = UrlParts::parse("http://tracker.example:6969/announce?x=1").ok().unwrap();
    assert_eq!(p.path, "/announce");
    assert_eq!(p.query.as_deref(), Some("x=1"));
    assert_eq!(p.host.as_deref(), Some("tracker.example"));
    assert_eq!(p.port, Some(6969));
    let q = UrlParts::parse("http://tracker.example/").ok().unwrap();
    assert_eq!(q.port, Some(80));
    assert_eq!(q.query, None);
    assert!(matches!(UrlParts::parse("not a url"), Err(Error::URLParseError(url::ParseError::RelativeUrlWithoutBase))));
    assert!(matches!(UrlParts::parse("http://"), Err(Error::URLParseError(url::ParseError::EmptyHost))));
}

#[test]
fn request_message() {
    let p = UrlParts::parse("http://tracker.example:6969/announce?peer_id=a&port=1").ok().unwrap();
    assert_eq!(
        http_request_message(&Method::Get, &p),
        "GET /announce?peer_id=a&port=1 HTTP/1.1\r\nHost: tracker.example\r\n\r\n"
    );
    let q = UrlParts::parse("http://h/").ok().unwrap();
    assert_eq!(http_request_message(&Method::Delete, &q), "DELETE / HTTP/1.1\r\nHost: h\r\n\r\n");
}

#[test]
fn connect_addresses() {
    let p = UrlParts::parse("http://tracker.example:6969/announce").ok().unwrap();
    assert_eq!(connect_address(&p), "tracker.example:6969");
    let q = UrlParts::parse("https://tracker.example/").ok().unwrap();
    assert_eq!(connect_address(&q), "tracker.example:443");
    let r = UrlParts::parse("nibble://tracker.example/").ok().unwrap();
    assert_eq!(r.port, None);
    assert_eq!(connect_address(&r), "tracker.example:8088");
}

#[test]
fn method_tokens() {
    assert_eq!(Method::Get.to_string(), "GET");
    assert_eq!(Method::Post.to_string(), "POST");
    assert_eq!(Method::Put.to_string(), "PUT");
    assert_eq!(Method::Delete.to_string(), "DELETE");
}

#[test]
fn response_length_from_headers() {
    let h = |n: &str, v: &str| HttpHeader { name: n.as_bytes().to_vec(), value: v.as_bytes().to_vec() };
    assert_eq!(total_response_length(40, &vec![h("Server", "x"), h("CONTENT-length", "12"), h("Content-Length", "7")]).ok(), Some(52));
    assert!(matches!(total_response_length(40, &vec![h("Server", "x")]), Err(HttpFailure::MissingContentLength)));
    assert!(matches!(total_response_length(40, &vec![h("Content-Length", "")]), Err(HttpFailure::ContentLengthInvalid(_))));
    assert!(matches!(total_response_length(1, &vec![h("Content-Length", &usize::MAX.to_string())]), Err(HttpFailure::ContentLengthTooLarge)));
    assert_eq!(total_response_length(0, &vec![h("Content-Length", &usize::MAX.to_string())]).ok(), Some(usize::MAX));
}
