use vstd::prelude::*;
use serde_json::Error as JsonError;
use httparse::Error as HttpError;

verus! {

/// The errors of the client.
pub enum Error {
    IOError(std::io::Error),
    JSONError(JsonError),
    HTTPParseError(HttpError),
    URLParseError(url::ParseError),
    TrackerResponseError(String),
}

/// The kinds of I/O error that the library itself reports.
pub enum IoKind {
    InvalidData,
    Interrupted,
    NotFound,
}

/// What `std::io::Error::kind` reports of an I/O error, where that is one
/// of the kinds in `IoKind`; `None` for any other kind.
pub uninterp spec fn io_error_kind(e: std::io::Error) -> Option<IoKind>;

/// The text an I/O error displays where it was made by
/// `std::io::Error::new` from a message: that message. `None` for other I/O
/// errors (such as those of the operating system, whose text depends on the
/// machine).
pub uninterp spec fn io_error_message(e: std::io::Error) -> Option<Seq<char>>;

/// The `Display` text of a `serde_json::Error`.
pub uninterp spec fn json_error_display(e: JsonError) -> Seq<char>;

/// The `Display` text of an `httparse::Error`.
pub uninterp spec fn http_error_display(e: HttpError) -> Seq<char>;

/// The `Display` text of a `url::ParseError`.
pub uninterp spec fn url_error_display(e: url::ParseError) -> Seq<char>;

/// `std::io::Error::new` with the `std::io::ErrorKind` of the same name as
/// `kind` and `message` as its payload: the error's `kind()` is that kind,
/// and it displays `message`.
#[verifier::external_body]
pub(crate) fn io_error(kind: IoKind, message: String) -> (r: std::io::Error)
    ensures
        io_error_kind(r) == Some(kind),
        io_error_message(r) == Some(message@),
{
    let kind = match kind {
        IoKind::InvalidData => std::io::ErrorKind::InvalidData,
        IoKind::Interrupted => std::io::ErrorKind::Interrupted,
        IoKind::NotFound => std::io::ErrorKind::NotFound,
    };
    std::io::Error::new(kind, message)
}

/// The `Display` text of a `std::io::Error`: its message where it was made
/// from one; otherwise not described.
#[verifier::external_body]
fn io_error_text(e: &std::io::Error) -> (s: String)
    ensures
        io_error_message(*e) matches Some(m) ==> s@ == m,
{
    e.to_string()
}

/// The `Display` text of a `serde_json::Error`: `json_error_display(e)`.
#[verifier::external_body]
fn json_error_text(e: &JsonError) -> (s: String)
    ensures
        s@ == json_error_display(*e),
{
    e.to_string()
}

/// The `Display` text of an `httparse::Error`: `http_error_display(e)`.
#[verifier::external_body]
fn http_error_text(e: &HttpError) -> (s: String)
    ensures
        s@ == http_error_display(*e),
{
    e.to_string()
}

/// The `Display` text of a `url::ParseError`: `url_error_display(e)`.
#[verifier::external_body]
fn url_error_text(e: &url::ParseError) -> (s: String)
    ensures
        s@ == url_error_display(*e),
{
    e.to_string()
}

/// The prefix of each variant's message.
pub open spec fn error_prefix(e: &Error) -> Seq<char> {
    match e {
        Error::IOError(_) => "IO Error: "@,
        Error::JSONError(_) => "JSON Parse Error: "@,
        Error::HTTPParseError(_) => "HTTP Parse Error: "@,
        Error::URLParseError(_) => "URL Parse Error: "@,
        Error::TrackerResponseError(_) => "Returned Error from the Server: "@,
    }
}

impl Error {
    /// The error's message: a prefix that names the variant, followed by
    /// the inner error's own `Display` text (for `TrackerResponseError`, the
    /// server's message itself).
    pub fn to_string(&self) -> (s: String)
        ensures
            s@.len() >= error_prefix(self).len(),
            s@.take(error_prefix(self).len() as int) == error_prefix(self),
            match self {
                Error::IOError(e) => io_error_message(*e) matches Some(m) ==> s@ == error_prefix(self) + m,
                Error::JSONError(e) => s@ == error_prefix(self) + json_error_display(*e),
                Error::HTTPParseError(e) => s@ == error_prefix(self) + http_error_display(*e),
                Error::URLParseError(e) => s@ == error_prefix(self) + url_error_display(*e),
                Error::TrackerResponseError(m) => s@ == error_prefix(self) + m@,
            },
    {
        let (prefix, detail) = match self {
            Error::IOError(e) => ("IO Error: ", io_error_text(e)),
            Error::JSONError(e) => ("JSON Parse Error: ", json_error_text(e)),
            Error::HTTPParseError(e) => ("HTTP Parse Error: ", http_error_text(e)),
            Error::URLParseError(e) => ("URL Parse Error: ", url_error_text(e)),
            Error::TrackerResponseError(m) => ("Returned Error from the Server: ", m.clone()),
        };
        let mut s = String::from_str(prefix);
        s.append(detail.as_str());
        assert(s@.take(prefix@.len() as int) =~= prefix@);
        s
    }
}

impl From<std::io::Error> for Error {
    fn from(err: std::io::Error) -> (e: Error) {
        Error::IOError(err)
    }
}

impl vstd::std_specs::convert::FromSpecImpl<std::io::Error> for Error {
    open spec fn obeys_from_spec() -> bool {
        true
    }

    open spec fn from_spec(err: std::io::Error) -> Error {
        Error::IOError(err)
    }
}

impl From<JsonError> for Error {
    fn from(err: JsonError) -> (e: Error) {
        Error::JSONError(err)
    }
}

impl vstd::std_specs::convert::FromSpecImpl<JsonError> for Error {
    open spec fn obeys_from_spec() -> bool {
        true
    }

    open spec fn from_spec(err: JsonError) -> Error {
        Error::JSONError(err)
    }
}

impl From<HttpError> for Error {
    fn from(err: HttpError) -> (e: Error) {
        Error::HTTPParseError(err)
    }
}

impl vstd::std_specs::convert::FromSpecImpl<HttpError> for Error {
    open spec fn obeys_from_spec() -> bool {
        true
    }

    open spec fn from_spec(err: HttpError) -> Error {
        Error::HTTPParseError(err)
    }
}

impl From<url::ParseError> for Error {
    fn from(err: url::ParseError) -> (e: Error) {
        Error::URLParseError(err)
    }
}

impl vstd::std_specs::convert::FromSpecImpl<url::ParseError> for Error {
    open spec fn obeys_from_spec() -> bool {
        true
    }

    open spec fn from_spec(err: url::ParseError) -> Error {
        Error::URLParseError(err)
    }
}

} // verus!
