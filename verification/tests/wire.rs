use nibble_torrent_client_hurricaneport::server::{chunk_reply, hello_reply, plan_request, ServerPlan};
use nibble_torrent_client_hurricaneport::bitfield::{decode_availability, encode_availability};
use nibble_torrent_client_hurricaneport::networking::{
    decode_message_header, encode_message, CHUNK_REQUEST, ERROR_MESSAGE, HELLO_REQUEST,
    HELLO_RESPONSE, MESSAGE_HEADER_LEN,
};
use nibble_torrent_client_hurricaneport::peer::chunk_request_payload;
use nibble_torrent_client_hurricaneport::server::{
    chunk_index_from_payload, chunk_not_found_error, chunk_not_found_message,
    chunk_not_found_reply, classify_request, PeerRequest,
};
use nibble_torrent_client_hurricaneport::error::Error;
use nibble_torrent_client_hurricaneport::text::push_decimal;

#[test]
fn decimal_formatting() {
    let mut s = String::from("n=");
    push_decimal(&mut s, 0);
    assert_eq!(s, "n=0");
    let mut s = String::new();
    push_decimal(&mut s, 18446744073709551615);
    assert_eq!(s, "18446744073709551615");
    let mut s = String::new();
    push_decimal(&mut s, 6881);
    assert_eq!(s, "6881");
}

#[test]
fn availability_packs_most_significant_bit_first() {
    let bits = encode_availability(&vec![true, false, true, false, false, false, false, true, true]);
    assert_eq!(bits, vec![0b1010_0001, 0b1000_0000]);
    assert_eq!(encode_availability(&vec![]), Vec::<u8>::new());
    assert_eq!(encode_availability(&vec![false; 8]), vec![0]);
    assert_eq!(encode_availability(&vec![true; 8]), vec![0xff]);
}

#[test]
fn availability_unpacks_eight_per_byte() {
    let available = decode_availability(&[0b1000_0001, 0x40]);
    assert_eq!(
        available,
        vec![true, false, false, false, false, false, false, true, false, true, false, false, false, false, false, false]
    );
    assert!(decode_availability(&[]).is_empty());
}

#[test]
fn availability_roundtrip() {
    let held = vec![true, true, false, true, false, false, true, false, true, false, true];
    let decoded = decode_availability(&encode_availability(&held));
    assert_eq!(decoded.len(), 16);
    assert_eq!(&decoded[..held.len()], &held[..]);
    assert!(decoded[held.len()..].iter().all(|b| !*b));
}

#[test]
fn chunk_payload_is_big_endian() {
    assert_eq!(chunk_request_payload(258), vec![0, 0, 0, 0, 0, 0, 1, 2]);
    assert_eq!(chunk_request_payload(0), vec![0; 8]);
}

#[test]
fn chunk_index_reads_up_to_eight_bytes() {
    assert_eq!(chunk_index_from_payload(&[1, 2]).ok(), Some(258));
    assert_eq!(chunk_index_from_payload(&[7]).ok(), Some(7));
    assert_eq!(chunk_index_from_payload(&[0, 0, 0, 0, 0, 0, 0, 3, 9, 9]).ok(), Some(3));
    assert!(matches!(chunk_index_from_payload(&[]), Err(Error::IOError(_))));
}

#[test]
fn chunk_request_roundtrip() {
    for chunk in [0usize, 1, 255, 256, 65_537, 123_456_789] {
        assert_eq!(chunk_index_from_payload(&chunk_request_payload(chunk)).ok(), Some(chunk));
    }
}

#[test]
fn message_encoding() {
    let m = encode_message(HELLO_RESPONSE, &[1, 2, 3]);
    assert_eq!(m, vec![2, 0, 0, 0, 3, 1, 2, 3]);
    assert_eq!(encode_message(HELLO_REQUEST, &[]), vec![1, 0, 0, 0, 0]);
}

#[test]
fn message_header_decoding() {
    assert_eq!(decode_message_header(&[4, 0, 0, 1, 0]), Some((4, 256)));
    assert_eq!(decode_message_header(&[4, 0, 0, 1]), None);
    assert_eq!(decode_message_header(&[5, 1, 0, 0, 0, 9]), Some((5, 16_777_216)));
}

#[test]
fn message_roundtrip() {
    let payload: Vec<u8> = (0..300u32).map(|i| (i % 251) as u8).collect();
    let m = encode_message(CHUNK_REQUEST, &payload);
    let (t, len) = decode_message_header(&m).unwrap();
    assert_eq!(t, CHUNK_REQUEST);
    assert_eq!(len as usize, payload.len());
    assert_eq!(&m[MESSAGE_HEADER_LEN..], &payload[..]);
}

#[test]
fn requests_are_classified_by_type() {
    assert!(matches!(classify_request(HELLO_REQUEST), PeerRequest::Hello));
    assert!(matches!(classify_request(CHUNK_REQUEST), PeerRequest::Chunk));
    assert!(matches!(classify_request(ERROR_MESSAGE), PeerRequest::ErrorReport));
    assert!(matches!(classify_request(0x09), PeerRequest::Unknown(0x09)));
    assert!(matches!(classify_request(HELLO_RESPONSE), PeerRequest::Unknown(0x02)));
}

#[test]
fn missing_chunk_replies() {
    assert_eq!(chunk_not_found_reply(), b"Chunk not found".to_vec());
    assert_eq!(chunk_not_found_message(42), "Requested chunk 42 not found");
    match chunk_not_found_error(42) {
        Error::IOError(e) => {
            assert_eq!(e.kind(), std::io::ErrorKind::NotFound);
            assert_eq!(e.to_string(), "Requested chunk 42 not found");
        }
        _ => panic!("expected an I/O error"),
    }
}

#[test]
fn empty_chunk_request_error() {
    match chunk_index_from_payload(&[]) {
        Err(Error::IOError(e)) => {
            assert_eq!(e.kind(), std::io::ErrorKind::InvalidData);
            assert_eq!(e.to_string(), "Invalid chunk request payload length");
        }
        _ => panic!("expected an I/O error"),
    }
}

#[test]
fn requests_are_planned() {
    assert!(matches!(plan_request(HELLO_REQUEST, &[9]), ServerPlan::ReportAvailability));
    assert!(matches!(plan_request(CHUNK_REQUEST, &[1, 0]), ServerPlan::ServeChunk(256)));
    match plan_request(CHUNK_REQUEST, &[]) {
        ServerPlan::Reject(Error::IOError(e)) => assert_eq!(e.kind(), std::io::ErrorKind::InvalidData),
        _ => panic!("expected a rejection"),
    }
    assert!(matches!(plan_request(ERROR_MESSAGE, b"oops"), ServerPlan::NoteError));
    assert!(matches!(plan_request(0x07, &[]), ServerPlan::Ignore(0x07)));
}

#[test]
fn server_replies() {
    assert_eq!(hello_reply(&vec![true, false, true]), vec![HELLO_RESPONSE, 0, 0, 0, 1, 0b1010_0000]);
    let (reply, outcome) = chunk_reply(3, Some(vec![7, 8]));
    assert_eq!(reply, vec![0x04, 0, 0, 0, 2, 7, 8]);
    assert!(outcome.is_ok());
    let (reply, outcome) = chunk_reply(3, None);
    let mut expected = vec![ERROR_MESSAGE, 0, 0, 0, 15];
    expected.extend_from_slice(b"Chunk not found");
    assert_eq!(reply, expected);
    match outcome {
        Err(Error::IOError(e)) => {
            assert_eq!(e.kind(), std::io::ErrorKind::NotFound);
            assert_eq!(e.to_string(), "Requested chunk 3 not found");
        }
        _ => panic!("expected a not-found error"),
    }
}
