use vstd::prelude::*;
use vstd::utf8::{valid_utf8, decode_utf8};
use httparse::Error as HttpError;
use crate::error::{Error, IoKind, io_error, io_error_kind, io_error_message};

verus! {

/// One header of an HTTP response: its name and its value, as bytes.
pub struct HttpHeader {
    pub name: Vec<u8>,
    pub value: Vec<u8>,
}

/// The headers as pairs of byte sequences.
pub open spec fn headers_view(headers: Seq<HttpHeader>) -> Seq<(Seq<u8>, Seq<u8>)> {
    Seq::new(headers.len(), |i: int| (headers[i].name@, headers[i].value@))
}

/// What `httparse::Response::parse` makes of `buf`, given room for 16 headers:
/// the error it reports, `Ok(None)` where the head is not yet complete, and
/// `Ok(Some((n, headers)))` where the head ends after `n` bytes and holds
/// `headers` (names and values as bytes), in order.
pub uninterp spec fn response_head(buf: Seq<u8>) -> Result<Option<(usize, Seq<(Seq<u8>, Seq<u8>)>)>, HttpError>;

/// A parse result with its headers as byte sequences.
pub open spec fn head_view(r: Result<Option<(usize, Vec<HttpHeader>)>, HttpError>) -> Result<Option<(usize, Seq<(Seq<u8>, Seq<u8>)>)>, HttpError> {
    match r {
        Err(e) => Err(e),
        Ok(None) => Ok(None),
        Ok(Some((n, hs))) => Ok(Some((n, headers_view(hs@)))),
    }
}

/// Parses the status line and headers of an HTTP response with
/// `httparse::Response::parse`, with room for 16 headers. Its result is
/// `response_head(buf)`.
#[verifier::external_body]
fn parse_response_head(buf: &[u8]) -> (r: Result<Option<(usize, Vec<HttpHeader>)>, HttpError>)
    ensures
        response_head(buf@) == head_view(r),
{
    let mut slots = [httparse::EMPTY_HEADER; 16];
    let mut response = httparse::Response::new(&mut slots);
    match response.parse(buf) {
        Ok(httparse::Status::Complete(n)) => Ok(Some((n, response.headers.iter().map(
            |h| HttpHeader { name: h.name.as_bytes().to_vec(), value: h.value.to_vec() },
        ).collect()))),
        Ok(httparse::Status::Partial) => Ok(None),
        Err(e) => Err(e),
    }
}

/// The error that `std::str::from_utf8` reports for `bytes`.
pub uninterp spec fn utf8_error(bytes: Seq<u8>) -> std::str::Utf8Error;

/// `std::str::from_utf8`: succeeds exactly on valid UTF-8, with the decoded
/// characters; otherwise its error is `utf8_error(bytes)`.
#[verifier::external_body]
fn utf8_str(bytes: &[u8]) -> (r: Result<&str, std::str::Utf8Error>)
    ensures
        r is Ok <==> valid_utf8(bytes@),
        r matches Ok(s) ==> s@ == decode_utf8(bytes@),
        r matches Err(e) ==> e == utf8_error(bytes@),
{
    std::str::from_utf8(bytes)
}

/// The value of a sequence of decimal digits.
pub open spec fn digits_value(cs: Seq<char>) -> nat
    decreases cs.len(),
{
    if cs.len() == 0 {
        0
    } else {
        digits_value(cs.drop_last()) * 10 + ((cs.last() as int - '0' as int) as nat)
    }
}

/// Every character is an ASCII decimal digit.
pub open spec fn all_digits(cs: Seq<char>) -> bool {
    forall|i: int| 0 <= i < cs.len() ==> '0' <= #[trigger] cs[i] <= '9'
}

/// What `str::parse::<usize>` accepts: an optional `+` followed by at least
/// one decimal digit and nothing else, whose value fits in `usize`.
pub open spec fn decimal_usize(cs: Seq<char>) -> Option<usize> {
    let digits = if cs.len() > 0 && cs[0] == '+' { cs.drop_first() } else { cs };
    if digits.len() > 0 && all_digits(digits) && digits_value(digits) <= usize::MAX {
        Some(digits_value(digits) as usize)
    } else {
        None
    }
}

/// The error that `str::parse::<usize>` reports for `text`.
pub uninterp spec fn parse_usize_error(text: Seq<char>) -> std::num::ParseIntError;

/// `str::parse::<usize>`, as the standard library documents it; its error
/// is `parse_usize_error(s)`.
#[verifier::external_body]
fn parse_usize(s: &str) -> (r: Result<usize, std::num::ParseIntError>)
    ensures
        r is Ok <==> decimal_usize(s@) is Some,
        r matches Ok(v) ==> decimal_usize(s@) == Some(v),
        r matches Err(e) ==> e == parse_usize_error(s@),
{
    s.parse::<usize>()
}

/// The bytes of the header name `Content-Length`.
pub const CONTENT_LENGTH: [u8; 14] = [67, 111, 110, 116, 101, 110, 116, 45, 76, 101, 110, 103, 116, 104];

/// ASCII lower case of a byte; other bytes are unchanged.
pub open spec fn ascii_lower(b: u8) -> u8 {
    if 65 <= b <= 90 { (b + 32) as u8 } else { b }
}

/// The two byte sequences are equal up to ASCII case.
pub open spec fn ascii_case_eq(a: Seq<u8>, b: Seq<u8>) -> bool {
    &&& a.len() == b.len()
    &&& forall|i: int| 0 <= i < a.len() ==> ascii_lower(#[trigger] a[i]) == ascii_lower(b[i])
}

/// The value of the first header whose name is `Content-Length` up to ASCII
/// case.
pub open spec fn content_length_field(headers: Seq<(Seq<u8>, Seq<u8>)>) -> Option<Seq<u8>>
    decreases headers.len(),
{
    if headers.len() == 0 {
        None
    } else if ascii_case_eq(headers[0].0, CONTENT_LENGTH@) {
        Some(headers[0].1)
    } else {
        content_length_field(headers.drop_first())
    }
}

fn lower(b: u8) -> (r: u8)
    ensures
        r == ascii_lower(b),
{
    if 65 <= b && b <= 90 { b + 32 } else { b }
}

/// Whether `name` is `Content-Length` up to ASCII case.
fn is_content_length(name: &Vec<u8>) -> (r: bool)
    ensures
        r == ascii_case_eq(name@, CONTENT_LENGTH@),
{
    if name.len() != 14 {
        return false;
    }
    let mut i: usize = 0;
    while i < 14
        invariant
            name@.len() == 14,
            i <= 14,
            forall|j: int| 0 <= j < i ==> ascii_lower(#[trigger] name@[j]) == ascii_lower(CONTENT_LENGTH@[j]),
        decreases 14 - i,
    {
        if lower(name[i]) != lower(CONTENT_LENGTH[i]) {
            return false;
        }
        i = i + 1;
    }
    true
}

/// The position of the first `Content-Length` header, if any.
fn find_content_length(headers: &Vec<HttpHeader>) -> (r: Option<usize>)
    ensures
        match r {
            Some(i) => i < headers@.len() && content_length_field(headers_view(headers@)) == Some(headers@[i as int].value@),
            None => content_length_field(headers_view(headers@)) is None,
        },
{
    let ghost hv = headers_view(headers@);
    let mut i: usize = 0;
    assert(hv.skip(0) =~= hv);
    while i < headers.len()
        invariant
            i <= headers@.len(),
            hv == headers_view(headers@),
            content_length_field(hv) == content_length_field(hv.skip(i as int)),
        decreases headers@.len() - i,
    {
        assert(hv.skip(i as int)[0] == hv[i as int]);
        assert(hv.skip(i as int).drop_first() =~= hv.skip(i + 1));
        if is_content_length(&headers[i].name) {
            return Some(i);
        }
        i = i + 1;
    }
    assert(hv.skip(i as int).len() == 0);
    None
}

/// Where the reading of a response stands.
pub enum HttpReadState {
    /// The status line and headers are not complete yet.
    Head,
    /// The head ends after `header_end` bytes and the whole response after
    /// `total_len` bytes.
    Body { header_end: usize, total_len: usize },
}

/// What the reader has made of the bytes received so far.
pub enum HttpProgress {
    /// More bytes are needed.
    NeedMore,
    /// The response is complete; this is its body.
    Complete(String),
}

/// Why a response could not be read.
pub enum HttpFailure {
    /// The connection ended before the response was complete.
    Closed,
    /// The status line or the headers are malformed.
    Malformed(HttpError),
    /// The head has no `Content-Length` header.
    MissingContentLength,
    /// The `Content-Length` value is not UTF-8.
    ContentLengthNotUtf8(std::str::Utf8Error),
    /// The `Content-Length` value is not a decimal `usize`.
    ContentLengthInvalid(std::num::ParseIntError),
    /// The head length plus the `Content-Length` value exceeds `usize::MAX`.
    ContentLengthTooLarge,
    /// The body is not UTF-8.
    BodyNotUtf8(std::str::Utf8Error),
}

/// The outcome of looking at the bytes received so far.
pub enum HttpStep {
    /// Wait for more bytes, in the given state.
    Wait(HttpReadState),
    /// The response is complete with this body.
    Done(Seq<char>),
    /// The response cannot be read, for this reason.
    Fail(HttpFailure),
}

/// Once the head is known: wait until `total_len` bytes are there, then the
/// body is the bytes from `header_end` to `total_len`, which must be UTF-8.
pub open spec fn body_step(header_end: usize, total_len: usize, buf: Seq<u8>) -> HttpStep {
    if buf.len() < total_len {
        HttpStep::Wait(HttpReadState::Body { header_end, total_len })
    } else {
        let body = buf.subrange(header_end as int, total_len as int);
        if valid_utf8(body) {
            HttpStep::Done(decode_utf8(body))
        } else {
            HttpStep::Fail(HttpFailure::BodyNotUtf8(utf8_error(body)))
        }
    }
}

/// The length of the whole response, once its head (of `header_end`
/// bytes, with `headers`) is known: the head plus the value of the first
/// `Content-Length` header, which must be UTF-8 text that `str::parse`
/// reads as a `usize`, and the sum must fit in a `usize`.
pub open spec fn response_length(header_end: usize, headers: Seq<(Seq<u8>, Seq<u8>)>) -> Result<usize, HttpFailure> {
    match content_length_field(headers) {
        None => Err(HttpFailure::MissingContentLength),
        Some(value) => if !valid_utf8(value) {
            Err(HttpFailure::ContentLengthNotUtf8(utf8_error(value)))
        } else {
            match decimal_usize(decode_utf8(value)) {
                None => Err(HttpFailure::ContentLengthInvalid(parse_usize_error(decode_utf8(value)))),
                Some(len) => if header_end + len > usize::MAX {
                    Err(HttpFailure::ContentLengthTooLarge)
                } else {
                    Ok((header_end + len) as usize)
                },
            }
        },
    }
}

/// The length of the whole response whose head ends after `header_end`
/// bytes and holds `headers`, as `response_length` states.
pub fn total_response_length(header_end: usize, headers: &Vec<HttpHeader>) -> (r: Result<usize, HttpFailure>)
    ensures
        r == response_length(header_end, headers_view(headers@)),
{
    match find_content_length(headers) {
        None => Err(HttpFailure::MissingContentLength),
        Some(k) => match utf8_str(headers[k].value.as_slice()) {
            Err(e) => Err(HttpFailure::ContentLengthNotUtf8(e)),
            Ok(text) => match parse_usize(text) {
                Err(e) => Err(HttpFailure::ContentLengthInvalid(e)),
                Ok(len) => if len > usize::MAX - header_end {
                    Err(HttpFailure::ContentLengthTooLarge)
                } else {
                    Ok(header_end + len)
                },
            },
        },
    }
}

/// Before the head is known: parse it, find `Content-Length`, and go on as
/// `body_step` with the response's total length.
pub open spec fn head_step(buf: Seq<u8>) -> HttpStep {
    match response_head(buf) {
        Err(e) => HttpStep::Fail(HttpFailure::Malformed(e)),
        Ok(None) => HttpStep::Wait(HttpReadState::Head),
        Ok(Some((header_end, headers))) => match response_length(header_end, headers) {
            Err(f) => HttpStep::Fail(f),
            Ok(total_len) => body_step(header_end, total_len, buf),
        },
    }
}

/// The outcome in `state` with `buf` received so far.
pub open spec fn http_step(state: HttpReadState, buf: Seq<u8>) -> HttpStep {
    match state {
        HttpReadState::Head => head_step(buf),
        HttpReadState::Body { header_end, total_len } => body_step(header_end, total_len, buf),
    }
}

/// Reads an HTTP response whose length is given by `Content-Length`, from
/// the pieces in which it arrives.
pub struct HttpResponseReader {
    received: Vec<u8>,
    state: HttpReadState,
}

impl HttpResponseReader {
    /// The reader's own invariant: a known body never ends before the head.
    pub closed spec fn well_formed(&self) -> bool {
        match self.state {
            HttpReadState::Head => true,
            HttpReadState::Body { header_end, total_len } => header_end <= total_len,
        }
    }

    /// The bytes received so far.
    pub closed spec fn received(&self) -> Seq<u8> {
        self.received@
    }

    /// Where the reading stands.
    pub closed spec fn state(&self) -> HttpReadState {
        self.state
    }

    /// A reader that has received nothing yet.
    pub fn new() -> (r: Self)
        ensures
            r.well_formed(),
            r.received() == Seq::<u8>::empty(),
            r.state() == HttpReadState::Head,
    {
        HttpResponseReader { received: Vec::new(), state: HttpReadState::Head }
    }

    /// Takes the next piece of the response; an empty piece means that the
    /// connection has ended.
    pub fn receive(&mut self, data: &[u8]) -> (r: Result<HttpProgress, HttpFailure>)
        requires
            old(self).well_formed(),
        ensures
            final(self).well_formed(),
            data@.len() == 0 ==> {
                &&& r matches Err(HttpFailure::Closed)
                &&& final(self).received() == old(self).received()
                &&& final(self).state() == old(self).state()
            },
            data@.len() > 0 ==> {
                &&& final(self).received() == old(self).received() + data@
                &&& match http_step(old(self).state(), final(self).received()) {
                    HttpStep::Wait(s) => r matches Ok(HttpProgress::NeedMore) && final(self).state() == s,
                    HttpStep::Done(body) => r matches Ok(HttpProgress::Complete(b)) && b@ == body
                        && final(self).state() == old(self).state(),
                    HttpStep::Fail(f) => r == Err::<HttpProgress, HttpFailure>(f)
                        && final(self).state() == old(self).state(),
                }
            },
    {
        if data.len() == 0 {
            return Err(HttpFailure::Closed);
        }
        let ghost before = self.received@;
        let mut i: usize = 0;
        while i < data.len()
            invariant
                i <= data@.len(),
                self.received@ == before + data@.take(i as int),
                self.state == old(self).state,
            decreases data@.len() - i,
        {
            self.received.push(data[i]);
            i = i + 1;
            assert(before + data@.take(i as int) =~= (before + data@.take(i - 1)).push(data@[i - 1]));
        }
        assert(data@.take(data@.len() as int) =~= data@);
        match self.state {
            HttpReadState::Head => {
                match parse_response_head(self.received.as_slice()) {
                    Err(e) => Err(HttpFailure::Malformed(e)),
                    Ok(None) => Ok(HttpProgress::NeedMore),
                    Ok(Some((header_end, headers))) => match total_response_length(header_end, &headers) {
                        Err(f) => Err(f),
                        Ok(total_len) => self.body_progress(header_end, total_len),
                    },
                }
            },
            HttpReadState::Body { header_end, total_len } => self.body_progress(header_end, total_len),
        }
    }

    fn body_progress(&mut self, header_end: usize, total_len: usize) -> (r: Result<HttpProgress, HttpFailure>)
        requires
            header_end <= total_len,
            old(self).well_formed(),
        ensures
            final(self).well_formed(),
            final(self).received() == old(self).received(),
            match body_step(header_end, total_len, old(self).received()) {
                HttpStep::Wait(s) => r matches Ok(HttpProgress::NeedMore) && final(self).state() == s,
                HttpStep::Done(body) => r matches Ok(HttpProgress::Complete(b)) && b@ == body
                    && final(self).state() == old(self).state(),
                HttpStep::Fail(f) => r == Err::<HttpProgress, HttpFailure>(f)
                    && final(self).state() == old(self).state(),
            },
    {
        if self.received.len() < total_len {
            self.state = HttpReadState::Body { header_end, total_len };
            Ok(HttpProgress::NeedMore)
        } else {
            let body = &self.received.as_slice()[header_end..total_len];
            match utf8_str(body) {
                Ok(text) => Ok(HttpProgress::Complete(text.to_owned())),
                Err(e) => Err(HttpFailure::BodyNotUtf8(e)),
            }
        }
    }
}

/// The `Display` text of a `std::str::Utf8Error`.
pub uninterp spec fn utf8_error_display(e: std::str::Utf8Error) -> Seq<char>;

/// The `Display` text of a `std::num::ParseIntError`.
pub uninterp spec fn parse_int_error_display(e: std::num::ParseIntError) -> Seq<char>;

/// The `Display` text of a `std::str::Utf8Error`: `utf8_error_display(e)`.
#[verifier::external_body]
fn utf8_error_text(e: &std::str::Utf8Error) -> (s: String)
    ensures
        s@ == utf8_error_display(*e),
{
    e.to_string()
}

/// The `Display` text of a `std::num::ParseIntError`:
/// `parse_int_error_display(e)`.
#[verifier::external_body]
fn parse_int_error_text(e: &std::num::ParseIntError) -> (s: String)
    ensures
        s@ == parse_int_error_display(*e),
{
    e.to_string()
}

fn message_with(prefix: &str, detail: String) -> (s: String)
    ensures
        s@ == prefix@ + detail@,
{
    let mut s = String::from_str(prefix);
    s.append(detail.as_str());
    s
}

/// The kind and message of the I/O error that reports a failure other than
/// a malformed head (which is reported as an HTTP parse error).
pub open spec fn failure_description(f: HttpFailure) -> (IoKind, Seq<char>) {
    match f {
        HttpFailure::Closed => (IoKind::Interrupted, "Stream closed before all data received"@),
        HttpFailure::Malformed(_) => (IoKind::InvalidData, Seq::empty()),
        HttpFailure::MissingContentLength => (IoKind::InvalidData, "No Content-Length header in response"@),
        HttpFailure::ContentLengthNotUtf8(e) => (IoKind::InvalidData, "Invalid Content-Length header: "@ + utf8_error_display(e)),
        HttpFailure::ContentLengthInvalid(e) => (IoKind::InvalidData, "Could not parse Content-Length header: "@ + parse_int_error_display(e)),
        HttpFailure::ContentLengthTooLarge => (IoKind::InvalidData, "Content-Length header too large"@),
        HttpFailure::BodyNotUtf8(e) => (IoKind::InvalidData, "Invalid body data: "@ + utf8_error_display(e)),
    }
}

impl HttpFailure {
    /// The kind and message of the I/O error that reports this failure, as
    /// `failure_description` states (a malformed head is reported as an
    /// HTTP parse error instead).
    pub fn io_description(&self) -> (r: (IoKind, String))
        requires
            !(self is Malformed),
        ensures
            r.0 == failure_description(*self).0,
            r.1@ == failure_description(*self).1,
    {
        match self {
            HttpFailure::Closed => (IoKind::Interrupted, String::from_str("Stream closed before all data received")),
            HttpFailure::MissingContentLength => (IoKind::InvalidData, String::from_str("No Content-Length header in response")),
            HttpFailure::ContentLengthNotUtf8(e) => (IoKind::InvalidData, message_with("Invalid Content-Length header: ", utf8_error_text(e))),
            HttpFailure::ContentLengthInvalid(e) => (IoKind::InvalidData, message_with("Could not parse Content-Length header: ", parse_int_error_text(e))),
            HttpFailure::ContentLengthTooLarge => (IoKind::InvalidData, String::from_str("Content-Length header too large")),
            HttpFailure::BodyNotUtf8(e) => (IoKind::InvalidData, message_with("Invalid body data: ", utf8_error_text(e))),
            HttpFailure::Malformed(_) => (IoKind::InvalidData, String::new()),
        }
    }

    /// The client error that reports this failure: the parse error itself
    /// for a malformed head; otherwise an I/O error of the kind and with the
    /// message that `failure_description` gives.
    pub fn into_error(self) -> (e: Error)
        ensures
            match self {
                HttpFailure::Malformed(x) => e == Error::HTTPParseError(x),
                _ => e matches Error::IOError(x)
                    && io_error_kind(x) == Some(failure_description(self).0)
                    && io_error_message(x) == Some(failure_description(self).1),
            },
    {
        match self {
            HttpFailure::Malformed(x) => Error::HTTPParseError(x),
            other => {
                let (kind, message) = other.io_description();
                Error::IOError(io_error(kind, message))
            },
        }
    }
}

/// The header name `Content-Length` in lower case, byte by byte.
pub open spec fn content_length_lower() -> Seq<u8> {
    seq![99u8, 111u8, 110u8, 116u8, 101u8, 110u8, 116u8, 45u8, 108u8, 101u8, 110u8, 103u8, 116u8, 104u8]
}

/// `name` is `Content-Length` in any mix of ASCII case: 14 bytes, each the
/// lower-case byte of `content-length` or, for a letter, its upper-case form.
pub open spec fn names_content_length(name: Seq<u8>) -> bool {
    &&& name.len() == 14
    &&& forall|k: int| 0 <= k < 14 ==> {
        let t = #[trigger] content_length_lower()[k];
        name[k] == t || (97 <= t <= 122 && name[k] + 32 == t)
    }
}

proof fn lemma_case_eq_is_content_length(name: Seq<u8>)
    ensures
        ascii_case_eq(name, CONTENT_LENGTH@) <==> names_content_length(name),
{
    assert(CONTENT_LENGTH@ =~= seq![67u8, 111u8, 110u8, 116u8, 101u8, 110u8, 116u8, 45u8, 76u8, 101u8, 110u8, 103u8, 116u8, 104u8]);
    let lc = content_length_lower();
    if name.len() == 14 {
        assert forall|k: int| 0 <= k < 14 implies
            (ascii_lower(name[k]) == ascii_lower(CONTENT_LENGTH@[k])
                <==> (name[k] == lc[k] || (97 <= lc[k] <= 122 && name[k] + 32 == lc[k]))) by {
            assert(ascii_lower(CONTENT_LENGTH@[k]) == lc[k]);
        }
        if ascii_case_eq(name, CONTENT_LENGTH@) {
            assert forall|k: int| 0 <= k < 14 implies {
                let t = #[trigger] content_length_lower()[k];
                name[k] == t || (97 <= t <= 122 && name[k] + 32 == t)
            } by {
                assert(ascii_lower(name[k]) == ascii_lower(CONTENT_LENGTH@[k]));
            }
        }
        if names_content_length(name) {
            assert forall|k: int| 0 <= k < name.len() implies ascii_lower(#[trigger] name[k]) == ascii_lower(CONTENT_LENGTH@[k]) by {
                let t = content_length_lower()[k];
            }
        }
    }
}

/// The body length is read from the first header named `Content-Length`
/// (in any ASCII case) and from no other header: where such a header
/// exists, the value used is that of the first one; where none exists,
/// there is no value.
pub proof fn lemma_content_length_header(headers: Seq<(Seq<u8>, Seq<u8>)>)
    ensures
        content_length_field(headers) is None <==> forall|i: int| 0 <= i < headers.len() ==> !names_content_length(#[trigger] headers[i].0),
        content_length_field(headers) matches Some(v) ==> exists|i: int| {
            &&& 0 <= i < headers.len()
            &&& names_content_length(#[trigger] headers[i].0)
            &&& headers[i].1 == v
            &&& forall|j: int| 0 <= j < i ==> !names_content_length(#[trigger] headers[j].0)
        },
    decreases headers.len(),
{
    if headers.len() > 0 {
        let tail = headers.drop_first();
        lemma_content_length_header(tail);
        lemma_case_eq_is_content_length(headers[0].0);
        if names_content_length(headers[0].0) {
            assert(content_length_field(headers) == Some(headers[0].1));
        } else {
            assert(content_length_field(headers) == content_length_field(tail));
            assert forall|i: int| 1 <= i < headers.len() implies headers[i].0 == #[trigger] tail[i - 1].0 by {}
            if let Some(v) = content_length_field(tail) {
                let i = choose|i: int| {
                    &&& 0 <= i < tail.len()
                    &&& names_content_length(#[trigger] tail[i].0)
                    &&& tail[i].1 == v
                    &&& forall|j: int| 0 <= j < i ==> !names_content_length(#[trigger] tail[j].0)
                };
                assert(headers[i + 1] == tail[i]);
                assert forall|j: int| 0 <= j < i + 1 implies !names_content_length(#[trigger] headers[j].0) by {
                    if j > 0 {
                        assert(headers[j] == tail[j - 1]);
                    }
                }
            } else {
                assert forall|i: int| 0 <= i < headers.len() implies !names_content_length(#[trigger] headers[i].0) by {
                    if i > 0 {
                        assert(headers[i] == tail[i - 1]);
                    }
                }
            }
        }
    }
}

} // verus!
