use vstd::prelude::*;
use crate::error::Error;
use crate::text::{decimal, push_decimal, lemma_decimal_reads_back};
use crate::http::{digits_value, all_digits};

verus! {

/// A torrent: the file's id, tracker, sizes, chunk hashes and name.
pub struct Torrent {
    pub torrent_id: String,
    /// The tracker's URL, as written.
    pub tracker_url: String,
    pub file_size: u64,
    pub piece_size: u64,
    pub pieces: Vec<String>,
    pub file_name: std::path::PathBuf,
}

/// A tracker's answer: how long to wait before asking again, and the
/// peers as `[id, ip]` pairs.
pub struct TrackerResponse {
    pub interval: u64,
    pub peers: Vec<[String; 2]>,
}

/// A tracker's refusal, with its reason.
pub struct ErrorResponse {
    pub error: String,
}

/// What the tracker task tells the peer manager.
pub enum TrackerMessage {
    UpdatedPeerList(Vec<[String; 2]>),
}

/// What `url::Url::parse(base)` followed by `join(input)` gives, as its
/// serialization; the error that the first of them to fail reports
/// otherwise.
pub uninterp spec fn joined_url(base: Seq<char>, input: Seq<char>) -> Result<Seq<char>, url::ParseError>;

/// A join result with the URL as its text.
pub open spec fn join_result_view(r: Result<String, url::ParseError>) -> Result<Seq<char>, url::ParseError> {
    match r {
        Ok(u) => Ok(u@),
        Err(e) => Err(e),
    }
}

/// Resolves `input` against the URL written as `base` with the `url`
/// crate, giving the serialization of the result: `joined_url(base, input)`.
#[verifier::external_body]
fn url_join(base: &str, input: &str) -> (r: Result<String, url::ParseError>)
    ensures
        joined_url(base@, input@) == join_result_view(r),
{
    let base = url::Url::parse(base)?;
    base.join(input).map(String::from)
}

/// The query with which the client announces itself to the tracker.
pub open spec fn announce_query(peer_id: Seq<char>, peer_ip: Seq<char>, peer_port: u16, torrent_id: Seq<char>) -> Seq<char> {
    "?peer_id="@ + peer_id + "&ip="@ + peer_ip + "&port="@ + decimal(peer_port as nat) + "&torrent_id="@ + torrent_id
}

/// The failure of a tracker request whose answer is neither a tracker
/// response nor an error response.
pub open spec fn unparsable_reply_text() -> Seq<char> {
    "Could not parse tracker response"@
}

impl Torrent {
    /// The URL of the tracker request for this torrent: the tracker's URL
    /// joined with `announce_query`; where that fails, the URL parse error
    /// that the join reports.
    pub fn tracker_request_url(&self, peer_id: &str, peer_ip: &str, peer_port: u16) -> (r: Result<String, Error>)
        ensures
            match joined_url(self.tracker_url@, announce_query(peer_id@, peer_ip@, peer_port, self.torrent_id@)) {
                Ok(u) => r matches Ok(v) && v@ == u,
                Err(e) => r == Err::<String, Error>(Error::URLParseError(e)),
            },
    {
        let mut query = String::from_str("?peer_id=");
        query.append(peer_id);
        query.append("&ip=");
        query.append(peer_ip);
        query.append("&port=");
        push_decimal(&mut query, peer_port as u64);
        query.append("&torrent_id=");
        query.append(self.torrent_id.as_str());
        match url_join(self.tracker_url.as_str(), query.as_str()) {
            Ok(u) => Ok(u),
            Err(e) => Err(Error::URLParseError(e)),
        }
    }
}

/// Decides what a tracker's answer means, given what it parsed as: a
/// tracker response if it is one; otherwise the reason of an error
/// response; otherwise a failure to parse it.
pub fn interpret_tracker_reply(as_response: Option<TrackerResponse>, as_error: Option<ErrorResponse>) -> (r: Result<TrackerResponse, Error>)
    ensures
        as_response is Some ==> r == Ok::<TrackerResponse, Error>(as_response->0),
        as_response is None && as_error is Some ==>
            (r matches Err(Error::TrackerResponseError(m)) && m@ == as_error->0.error@),
        as_response is None && as_error is None ==>
            (r matches Err(Error::TrackerResponseError(m)) && m@ == unparsable_reply_text()),
{
    match as_response {
        Some(response) => Ok(response),
        None => match as_error {
            Some(e) => Err(Error::TrackerResponseError(e.error)),
            None => Err(Error::TrackerResponseError(String::from_str("Could not parse tracker response"))),
        },
    }
}

/// The peer id the client announces for a NetID.
pub fn client_peer_id(netid: &str) -> (r: String)
    ensures
        r@ == "-ECEN426-"@ + netid@,
{
    let mut r = String::from_str("-ECEN426-");
    r.append(netid);
    r
}

/// The announce query names the client and the whole torrent: it starts
/// with `?peer_id=`, the peer id, `&ip=`, the address and `&port=`; then
/// comes the port in decimal digits that read back as the port; and it ends
/// with `&torrent_id=` followed by the torrent's whole id.
pub proof fn lemma_announce_query(peer_id: Seq<char>, peer_ip: Seq<char>, peer_port: u16, torrent_id: Seq<char>)
    ensures
        ({
            let q = announce_query(peer_id, peer_ip, peer_port, torrent_id);
            let head = "?peer_id="@ + peer_id + "&ip="@ + peer_ip + "&port="@;
            let tail = "&torrent_id="@ + torrent_id;
            &&& q.len() > head.len() + tail.len()
            &&& q.take(head.len() as int) == head
            &&& q.skip(q.len() - tail.len()) == tail
            &&& q.skip(q.len() - torrent_id.len()) == torrent_id
            &&& all_digits(q.subrange(head.len() as int, q.len() - tail.len()))
            &&& digits_value(q.subrange(head.len() as int, q.len() - tail.len())) == peer_port
        }),
{
    let q = announce_query(peer_id, peer_ip, peer_port, torrent_id);
    let head = "?peer_id="@ + peer_id + "&ip="@ + peer_ip + "&port="@;
    let tail = "&torrent_id="@ + torrent_id;
    let digits = decimal(peer_port as nat);
    lemma_decimal_reads_back(peer_port as nat);
    assert(q =~= head + digits + tail);
    assert(q.take(head.len() as int) =~= head);
    assert(q.skip(q.len() - tail.len()) =~= tail);
    assert(q.skip(q.len() - torrent_id.len()) =~= torrent_id);
    assert(q.subrange(head.len() as int, q.len() - tail.len()) =~= digits);
}

} // verus!
