use vstd::prelude::*;
use crate::error::Error;
use crate::text::{decimal, push_decimal, lemma_decimal_reads_back};
use crate::http::{digits_value, all_digits};
use crate::bytes::{be_bytes, be_value, push_be_bytes, be_prefix_value, lemma_be_roundtrip, lemma_pow256_4, lemma_be_bytes_len};

verus! {

/// Asks a peer which chunks it has.
pub const HELLO_REQUEST: u8 = 0x01;
/// Answers a hello request with a bitfield of the chunks held.
pub const HELLO_RESPONSE: u8 = 0x02;
/// Asks a peer for one chunk.
pub const CHUNK_REQUEST: u8 = 0x03;
/// Answers a chunk request with the chunk's bytes.
pub const CHUNK_RESPONSE: u8 = 0x04;
/// Reports an error; the payload is its text.
pub const ERROR_MESSAGE: u8 = 0x05;

/// The HTTP request methods the client can send.
pub enum Method {
    Get,
    Post,
    Put,
    Delete,
}

/// The request-line token of each method.
pub open spec fn method_token(method: Method) -> Seq<char> {
    match method {
        Method::Get => "GET"@,
        Method::Post => "POST"@,
        Method::Put => "PUT"@,
        Method::Delete => "DELETE"@,
    }
}

impl Method {
    /// The method's token as it appears in an HTTP request line.
    pub fn to_string(&self) -> (s: String)
        ensures
            s@ == method_token(*self),
    {
        match self {
            Method::Get => "GET".to_owned(),
            Method::Post => "POST".to_owned(),
            Method::Put => "PUT".to_owned(),
            Method::Delete => "DELETE".to_owned(),
        }
    }
}

/// The parts of a URL that a request reads: its path, query, host and port
/// (the explicit one, or the scheme's default).
pub struct UrlParts {
    pub path: String,
    pub query: Option<String>,
    pub host: Option<String>,
    pub port: Option<u16>,
}

/// The text of an optional string.
pub open spec fn opt_string_view(o: Option<String>) -> Option<Seq<char>> {
    match o {
        Some(s) => Some(s@),
        None => None,
    }
}

/// The parts as plain values: path, query, host and port.
pub open spec fn url_parts_view(p: UrlParts) -> (Seq<char>, Option<Seq<char>>, Option<Seq<char>>, Option<u16>) {
    (p.path@, opt_string_view(p.query), opt_string_view(p.host), p.port)
}

/// What `url::Url::parse` makes of `text`, read back through `path`,
/// `query`, `host_str` and `port_or_known_default`; the error it reports
/// otherwise.
pub uninterp spec fn url_components(text: Seq<char>) -> Result<(Seq<char>, Option<Seq<char>>, Option<Seq<char>>, Option<u16>), url::ParseError>;

/// A parse result with its parts as plain values.
pub open spec fn parts_result_view(r: Result<UrlParts, url::ParseError>) -> Result<(Seq<char>, Option<Seq<char>>, Option<Seq<char>>, Option<u16>), url::ParseError> {
    match r {
        Ok(p) => Ok(url_parts_view(p)),
        Err(e) => Err(e),
    }
}

/// Parses `text` with `url::Url::parse` and reads back the parts that a
/// request needs. The result is `url_components(text)`.
#[verifier::external_body]
fn parse_url_parts(text: &str) -> (r: Result<UrlParts, url::ParseError>)
    ensures
        url_components(text@) == parts_result_view(r),
{
    let u = url::Url::parse(text)?;
    Ok(UrlParts {
        path: u.path().to_string(),
        query: u.query().map(|q| q.to_string()),
        host: u.host_str().map(|h| h.to_string()),
        port: u.port_or_known_default(),
    })
}

impl UrlParts {
    /// The parts of the URL written as `text`; otherwise the URL parse
    /// error that `url::Url::parse` reports.
    pub fn parse(text: &str) -> (r: Result<UrlParts, Error>)
        ensures
            r is Ok <==> url_components(text@) is Ok,
            r matches Ok(p) ==> url_components(text@) == Ok::<(Seq<char>, Option<Seq<char>>, Option<Seq<char>>, Option<u16>), url::ParseError>(url_parts_view(p)),
            url_components(text@) matches Err(e) ==> r == Err::<UrlParts, Error>(Error::URLParseError(e)),
    {
        match parse_url_parts(text) {
            Ok(p) => Ok(p),
            Err(e) => Err(Error::URLParseError(e)),
        }
    }
}

/// The port a client connects to when the URL gives none.
pub const FALLBACK_PORT: u16 = 8088;

/// The request target: the path, then `?` and the query if there is one.
pub open spec fn request_target(path: Seq<char>, query: Option<Seq<char>>) -> Seq<char> {
    match query {
        Some(q) => path + "?"@ + q,
        None => path,
    }
}

/// The request: request line, `Host` header and an empty line.
pub open spec fn request_text(method: Method, path: Seq<char>, query: Option<Seq<char>>, host: Seq<char>) -> Seq<char> {
    method_token(method) + " "@ + request_target(path, query) + " HTTP/1.1\r\nHost: "@ + host + "\r\n\r\n"@
}

/// `host:port` with the URL's port, or `FALLBACK_PORT` where it has none.
pub open spec fn address_text(host: Seq<char>, port: Option<u16>) -> Seq<char> {
    host + ":"@ + decimal(
        match port {
            Some(p) => p as nat,
            None => FALLBACK_PORT as nat,
        },
    )
}

/// The HTTP/1.1 request for `url` with `method`; the URL must have a host.
pub fn http_request_message(method: &Method, url: &UrlParts) -> (s: String)
    requires
        url.host is Some,
    ensures
        s@ == request_text(*method, url.path@, opt_string_view(url.query), url.host->0@),
{
    let mut s = method.to_string();
    s.append(" ");
    s.append(url.path.as_str());
    match &url.query {
        Some(q) => {
            s.append("?");
            s.append(q.as_str());
        },
        None => {},
    }
    s.append(" HTTP/1.1\r\nHost: ");
    match &url.host {
        Some(h) => s.append(h.as_str()),
        None => {},
    }
    s.append("\r\n\r\n");
    s
}

/// The `host:port` address that the request for `url` goes to; the URL
/// must have a host.
pub fn connect_address(url: &UrlParts) -> (s: String)
    requires
        url.host is Some,
    ensures
        s@ == address_text(url.host->0@, url.port),
{
    let mut s = String::new();
    match &url.host {
        Some(h) => s.append(h.as_str()),
        None => {},
    }
    s.append(":");
    let port = match url.port {
        Some(p) => p,
        None => FALLBACK_PORT,
    };
    push_decimal(&mut s, port as u64);
    s
}

/// Every message between peers starts with a header of this many bytes:
/// the message type, then the payload length as a big-endian `u32`.
pub const MESSAGE_HEADER_LEN: usize = 5;

/// A message on the wire: type byte, payload length in four big-endian
/// bytes, payload.
pub open spec fn message_bytes(message_type: u8, payload: Seq<u8>) -> Seq<u8> {
    seq![message_type] + be_bytes(payload.len(), 4) + payload
}

/// The bytes of a message of type `message_type` carrying `payload`.
pub fn encode_message(message_type: u8, payload: &[u8]) -> (r: Vec<u8>)
    requires
        payload@.len() <= u32::MAX,
    ensures
        r@ == message_bytes(message_type, payload@),
{
    let mut r: Vec<u8> = Vec::new();
    r.push(message_type);
    push_be_bytes(&mut r, payload.len() as u64, 4);
    let ghost head = r@;
    let mut i: usize = 0;
    while i < payload.len()
        invariant
            i <= payload@.len(),
            r@ == head + payload@.take(i as int),
        decreases payload@.len() - i,
    {
        r.push(payload[i]);
        i = i + 1;
        assert(r@ =~= head + payload@.take(i as int));
    }
    assert(payload@.take(payload@.len() as int) =~= payload@);
    assert(head =~= seq![message_type] + be_bytes(payload@.len(), 4));
    r
}

/// The type and payload length that a message header announces: the first
/// byte, and the next four as a big-endian number. `None` where fewer than
/// `MESSAGE_HEADER_LEN` bytes are given.
pub open spec fn header_fields(header: Seq<u8>) -> Option<(u8, nat)> {
    if header.len() < MESSAGE_HEADER_LEN {
        None
    } else {
        Some((header[0], be_value(header.subrange(1, 5))))
    }
}

/// Reads the header at the start of `header`.
pub fn decode_message_header(header: &[u8]) -> (r: Option<(u8, u32)>)
    ensures
        match header_fields(header@) {
            None => r is None,
            Some((t, len)) => r == Some((t, len as u32)) && len <= u32::MAX,
        },
{
    if header.len() < MESSAGE_HEADER_LEN {
        return None;
    }
    let length_bytes = &header[1..5];
    let len = be_prefix_value(length_bytes, 4);
    proof {
        assert(length_bytes@.take(4) =~= header@.subrange(1, 5));
        crate::bytes::lemma_be_value_bound(header@.subrange(1, 5));
        lemma_pow256_4();
    }
    Some((header[0], len as u32))
}

/// A message read back from its bytes has the type and payload it was
/// written with: the header announces the type and the payload's length,
/// and the payload follows the header.
pub proof fn lemma_message_roundtrip(message_type: u8, payload: Seq<u8>)
    requires
        payload.len() <= u32::MAX,
    ensures
        header_fields(message_bytes(message_type, payload)) == Some((message_type, payload.len())),
        message_bytes(message_type, payload).skip(MESSAGE_HEADER_LEN as int) == payload,
{
    let m = message_bytes(message_type, payload);
    lemma_be_bytes_len(payload.len(), 4);
    lemma_pow256_4();
    lemma_be_roundtrip(payload.len(), 4);
    assert(m.subrange(1, 5) =~= be_bytes(payload.len(), 4));
    assert(m.skip(5) =~= payload);
}

/// The address is the host, a colon, and the port in decimal digits that
/// read back as the URL's port wherever the URL yields one (explicit or the
/// scheme's default), and as `FALLBACK_PORT` only where it yields none.
pub proof fn lemma_address_port(host: Seq<char>, port: Option<u16>)
    ensures
        ({
            let a = address_text(host, port);
            let digits = a.skip((host.len() + 1) as int);
            &&& a.len() > host.len() + 1
            &&& a.take((host.len() + 1) as int) == host + ":"@
            &&& all_digits(digits)
            &&& digits_value(digits) == match port {
                Some(p) => p as nat,
                None => FALLBACK_PORT as nat,
            }
        }),
{
    let n: nat = match port {
        Some(p) => p as nat,
        None => FALLBACK_PORT as nat,
    };
    lemma_decimal_reads_back(n);
    reveal_strlit(":");
    let a = address_text(host, port);
    assert(a =~= host + ":"@ + decimal(n));
    assert(a.take((host.len() + 1) as int) =~= host + ":"@);
    assert(a.skip((host.len() + 1) as int) =~= decimal(n));
}

} // verus!
