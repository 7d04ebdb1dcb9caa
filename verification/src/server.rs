use vstd::prelude::*;
use vstd::utf8::encode_utf8;
use crate::bytes::{be_value, be_prefix_value, be_bytes, lemma_be_roundtrip, lemma_be_bytes_len, lemma_pow256_8, lemma_be_value_leading_zeros};
use crate::error::{Error, IoKind, io_error, io_error_kind, io_error_message};
use crate::networking::{HELLO_REQUEST, HELLO_RESPONSE, CHUNK_REQUEST, CHUNK_RESPONSE, ERROR_MESSAGE, MESSAGE_HEADER_LEN, encode_message, message_bytes, header_fields, lemma_message_roundtrip};
use crate::bitfield::{encode_availability, packs, unpacks, lemma_availability_roundtrip};
use crate::text::{decimal, push_decimal};

verus! {

/// What a peer asks of the server, by message type.
pub enum PeerRequest {
    /// Which chunks does the server have?
    Hello,
    /// Send a chunk.
    Chunk,
    /// The peer reports an error.
    ErrorReport,
    /// A message type the server does not know.
    Unknown(u8),
}

/// Tells the requests of peers apart by their message type.
pub fn classify_request(message_type: u8) -> (r: PeerRequest)
    ensures
        message_type == HELLO_REQUEST ==> r is Hello,
        message_type == CHUNK_REQUEST ==> r is Chunk,
        message_type == ERROR_MESSAGE ==> r is ErrorReport,
        message_type != HELLO_REQUEST && message_type != CHUNK_REQUEST && message_type != ERROR_MESSAGE
            ==> r == PeerRequest::Unknown(message_type),
{
    if message_type == HELLO_REQUEST {
        PeerRequest::Hello
    } else if message_type == CHUNK_REQUEST {
        PeerRequest::Chunk
    } else if message_type == ERROR_MESSAGE {
        PeerRequest::ErrorReport
    } else {
        PeerRequest::Unknown(message_type)
    }
}

/// The chunk index that a chunk request names: its first eight bytes (or
/// all of them, if fewer) read as a big-endian number.
pub open spec fn requested_chunk(payload: Seq<u8>) -> usize {
    let k = if payload.len() < 8 { payload.len() as int } else { 8 };
    (be_value(payload.take(k)) as u64) as usize
}

/// The message of the error for an empty chunk request.
pub open spec fn empty_request_text() -> Seq<char> {
    "Invalid chunk request payload length"@
}

/// The chunk index that a chunk request names; an empty request is an
/// invalid-data I/O error with the message `empty_request_text`.
pub fn chunk_index_from_payload(payload: &[u8]) -> (r: Result<usize, Error>)
    ensures
        payload@.len() == 0 <==> r is Err,
        r matches Ok(i) ==> i == requested_chunk(payload@),
        r matches Err(e) ==> (e matches Error::IOError(x)
            && io_error_kind(x) == Some(IoKind::InvalidData)
            && io_error_message(x) == Some(empty_request_text())),
{
    if payload.len() == 0 {
        return Err(Error::IOError(io_error(IoKind::InvalidData, String::from_str("Invalid chunk request payload length"))));
    }
    let k = if payload.len() < 8 { payload.len() } else { 8 };
    let value = be_prefix_value(payload, k);
    Ok(value as usize)
}

/// The payload of the error message that answers a request for a chunk
/// that the server does not have.
pub fn chunk_not_found_reply() -> (r: Vec<u8>)
    ensures
        r@ == encode_utf8("Chunk not found"@),
{
    let text = "Chunk not found";
    let bytes = text.as_bytes();
    let mut r: Vec<u8> = Vec::new();
    let mut i: usize = 0;
    while i < bytes.len()
        invariant
            bytes@ == encode_utf8(text@),
            i <= bytes@.len(),
            r@ == bytes@.take(i as int),
        decreases bytes@.len() - i,
    {
        r.push(bytes[i]);
        i = i + 1;
        assert(r@ =~= bytes@.take(i as int));
    }
    assert(bytes@.take(bytes@.len() as int) =~= bytes@);
    r
}

/// The message of the error for a missing chunk.
pub fn chunk_not_found_message(chunk: usize) -> (s: String)
    ensures
        s@ == chunk_not_found_text(chunk),
{
    let mut s = String::from_str("Requested chunk ");
    push_decimal(&mut s, chunk as u64);
    s.append(" not found");
    s
}

/// The message of the error for a missing chunk.
pub open spec fn chunk_not_found_text(chunk: usize) -> Seq<char> {
    "Requested chunk "@ + decimal(chunk as nat) + " not found"@
}

/// The not-found I/O error for a missing chunk, with the message
/// `chunk_not_found_text`.
pub fn chunk_not_found_error(chunk: usize) -> (e: Error)
    ensures
        e matches Error::IOError(x) && io_error_kind(x) == Some(IoKind::NotFound)
            && io_error_message(x) == Some(chunk_not_found_text(chunk)),
{
    Error::IOError(io_error(IoKind::NotFound, chunk_not_found_message(chunk)))
}

/// A chunk request as the client writes it names, to the server, the chunk
/// that the client asked for.
pub proof fn lemma_chunk_request_roundtrip(chunk: usize)
    ensures
        requested_chunk(be_bytes(chunk as nat, 8)) == chunk,
{
    lemma_be_bytes_len(chunk as nat, 8);
    lemma_pow256_8();
    lemma_be_roundtrip(chunk as nat, 8);
    assert(be_bytes(chunk as nat, 8).take(8) =~= be_bytes(chunk as nat, 8));
}

/// The chunk index of a request is the big-endian number of its first
/// eight bytes, left-padded with zero bytes to eight bytes where it is
/// shorter.
pub proof fn lemma_requested_chunk_padded(payload: Seq<u8>)
    ensures
        ({
            let k = if payload.len() < 8 { payload.len() as int } else { 8 };
            let padded = Seq::new((8 - k) as nat, |i: int| 0u8) + payload.take(k);
            &&& padded.len() == 8
            &&& requested_chunk(payload) == (be_value(padded) as u64) as usize
        }),
{
    let k = if payload.len() < 8 { payload.len() as int } else { 8 };
    let zeros = Seq::new((8 - k) as nat, |i: int| 0u8);
    lemma_be_value_leading_zeros(zeros, payload.take(k));
}

/// What the server does with a peer's message.
pub enum ServerPlan {
    /// Answer with the bitfield of the chunks held.
    ReportAvailability,
    /// Look up this chunk and send it.
    ServeChunk(usize),
    /// The chunk request cannot be served; this is the error.
    Reject(Error),
    /// The peer reported an error; no reply.
    NoteError,
    /// A message type the server does not know; no reply.
    Ignore(u8),
}

/// Decides what to do with a message of type `message_type` carrying
/// `payload`: a hello request is answered with the availability, a chunk
/// request names the chunk to send (an empty one is rejected with the error
/// of `chunk_index_from_payload`), and an error report or an unknown
/// message gets no reply.
pub fn plan_request(message_type: u8, payload: &[u8]) -> (r: ServerPlan)
    ensures
        message_type == HELLO_REQUEST ==> r is ReportAvailability,
        message_type == CHUNK_REQUEST && payload@.len() > 0 ==> r == ServerPlan::ServeChunk(requested_chunk(payload@)),
        message_type == CHUNK_REQUEST && payload@.len() == 0 ==> (r matches ServerPlan::Reject(Error::IOError(x))
            && io_error_kind(x) == Some(IoKind::InvalidData)
            && io_error_message(x) == Some(empty_request_text())),
        message_type == ERROR_MESSAGE ==> r is NoteError,
        message_type != HELLO_REQUEST && message_type != CHUNK_REQUEST && message_type != ERROR_MESSAGE
            ==> r == ServerPlan::Ignore(message_type),
{
    match classify_request(message_type) {
        PeerRequest::Hello => ServerPlan::ReportAvailability,
        PeerRequest::Chunk => match chunk_index_from_payload(payload) {
            Ok(chunk) => ServerPlan::ServeChunk(chunk),
            Err(e) => ServerPlan::Reject(e),
        },
        PeerRequest::ErrorReport => ServerPlan::NoteError,
        PeerRequest::Unknown(t) => ServerPlan::Ignore(t),
    }
}

/// The reply to a hello request from a server that holds the chunks marked
/// in `held`: a hello response whose payload is `held` packed.
pub fn hello_reply(held: &Vec<bool>) -> (r: Vec<u8>)
    requires
        (held@.len() + 7) / 8 <= u32::MAX,
    ensures
        r@ == message_bytes(HELLO_RESPONSE, r@.skip(MESSAGE_HEADER_LEN as int)),
        packs(r@.skip(MESSAGE_HEADER_LEN as int), held@),
{
    let bits = encode_availability(held);
    let r = encode_message(HELLO_RESPONSE, bits.as_slice());
    proof {
        lemma_be_bytes_len(bits@.len(), 4);
    }
    assert(r@.skip(MESSAGE_HEADER_LEN as int) =~= bits@);
    r
}

/// The message that answers a request for a chunk: a chunk response with
/// its bytes where it is stored, an error message saying that it is not
/// found otherwise.
pub open spec fn chunk_reply_bytes(stored: Option<Seq<u8>>) -> Seq<u8> {
    match stored {
        Some(data) => message_bytes(CHUNK_RESPONSE, data),
        None => message_bytes(ERROR_MESSAGE, encode_utf8("Chunk not found"@)),
    }
}

/// The reply to a request for chunk `chunk`, whose bytes are `stored` where
/// the server has it, and the outcome of serving it: a missing chunk is the
/// not-found error of `chunk_not_found_error`.
pub fn chunk_reply(chunk: usize, stored: Option<Vec<u8>>) -> (r: (Vec<u8>, Result<(), Error>))
    requires
        stored matches Some(d) ==> d@.len() <= u32::MAX,
    ensures
        r.0@ == chunk_reply_bytes(match stored { Some(d) => Some(d@), None => None }),
        stored is Some ==> r.1 is Ok,
        stored is None ==> (r.1 matches Err(Error::IOError(x)) && io_error_kind(x) == Some(IoKind::NotFound)
            && io_error_message(x) == Some(chunk_not_found_text(chunk))),
{
    match stored {
        Some(data) => (encode_message(CHUNK_RESPONSE, data.as_slice()), Ok(())),
        None => {
            let text = chunk_not_found_reply();
            proof {
                reveal_strlit("Chunk not found");
                assert(vstd::utf8::is_ascii_chars("Chunk not found"@));
                vstd::utf8::is_ascii_chars_encode_utf8("Chunk not found"@);
            }
            (encode_message(ERROR_MESSAGE, text.as_slice()), Err(chunk_not_found_error(chunk)))
        },
    }
}

/// Each request gets the reply its type calls for, and the peer reads it
/// back: the reply to a hello request announces a hello response whose
/// bitfield unpacks to the chunks held (then zero padding), and the reply to
/// a chunk request announces a chunk response carrying the chunk's bytes, or
/// an error message saying "Chunk not found".
pub proof fn lemma_replies_read_back(held: Seq<bool>, hello: Seq<u8>, unpacked: Seq<bool>, stored: Option<Seq<u8>>)
    requires
        (held.len() + 7) / 8 <= u32::MAX,
        hello == message_bytes(HELLO_RESPONSE, hello.skip(MESSAGE_HEADER_LEN as int)),
        packs(hello.skip(MESSAGE_HEADER_LEN as int), held),
        unpacks(unpacked, hello.skip(MESSAGE_HEADER_LEN as int)),
        stored matches Some(d) ==> d.len() <= u32::MAX,
    ensures
        header_fields(hello) == Some((HELLO_RESPONSE, ((held.len() + 7) / 8) as nat)),
        unpacked.take(held.len() as int) == held,
        forall|i: int| held.len() <= i < unpacked.len() ==> !#[trigger] unpacked[i],
        stored matches Some(d) ==> header_fields(chunk_reply_bytes(stored)) == Some((CHUNK_RESPONSE, d.len()))
            && chunk_reply_bytes(stored).skip(MESSAGE_HEADER_LEN as int) == d,
        stored is None ==> header_fields(chunk_reply_bytes(stored)) == Some((ERROR_MESSAGE, encode_utf8("Chunk not found"@).len()))
            && chunk_reply_bytes(stored).skip(MESSAGE_HEADER_LEN as int) == encode_utf8("Chunk not found"@),
{
    let bits = hello.skip(MESSAGE_HEADER_LEN as int);
    lemma_message_roundtrip(HELLO_RESPONSE, bits);
    lemma_availability_roundtrip(held, bits, unpacked);
    match stored {
        Some(d) => {
            lemma_message_roundtrip(CHUNK_RESPONSE, d);
        },
        None => {
            let text = encode_utf8("Chunk not found"@);
            reveal_strlit("Chunk not found");
            assert(vstd::utf8::is_ascii_chars("Chunk not found"@));
            vstd::utf8::is_ascii_chars_encode_utf8("Chunk not found"@);
            lemma_message_roundtrip(ERROR_MESSAGE, text);
        },
    }
}

} // verus!
