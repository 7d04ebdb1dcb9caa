use nibble_torrent_client_hurricaneport::peer::compare_chunk_hash;
use nibble_torrent_client_hurricaneport::bitfield::{decode_availability, encode_availability};
use std::collections::HashSet;
use std::path::PathBuf;
use nibble_torrent_client_hurricaneport::networking::{CHUNK_RESPONSE, ERROR_MESSAGE, HELLO_RESPONSE};
use nibble_torrent_client_hurricaneport::peer::{
    availability_from_reply, check_chunk_reply, chunks_to_download, hello_request_payload,
    ManagerAction, ManagerEvent, PMControl, PeerManagerState, PeerState, PollError, ReplyError,
};

fn state(filter: Vec<String>, needed: &[u64], chunks: usize) -> PeerManagerState {
    PeerManagerState {
        peers: Vec::new(),
        needed_chunks: needed.iter().copied().collect(),
        chunk_hashes: vec![[0u8; 20]; chunks],
        output_file_folder: PathBuf::from("out"),
        torrent_id: "00ff".to_string(),
        filter,
        output_file: PathBuf::from("out/file"),
    }
}

fn entry(id: &str, ip: &str) -> [String; 2] {
    [id.to_string(), ip.to_string()]
}

#[test]
fn hello_payload_is_hex_decoded() {
    assert_eq!(hello_request_payload("0aFf10").ok(), Some(vec![0x0a, 0xff, 0x10]));
    assert_eq!(hello_request_payload("").ok(), Some(vec![]));
    assert!(matches!(hello_request_payload("abc"), Err(hex::FromHexError::OddLength)));
    assert!(matches!(hello_request_payload("zz"), Err(hex::FromHexError::InvalidHexCharacter { .. })));
}

#[test]
fn availability_replies() {
    match availability_from_reply(HELLO_RESPONSE, &vec![0b1100_0000]) {
        Ok(a) => assert_eq!(a, vec![true, true, false, false, false, false, false, false]),
        Err(_) => panic!("expected availability"),
    }
    assert!(matches!(
        availability_from_reply(ERROR_MESSAGE, &b"no such torrent".to_vec()),
        Err(ReplyError::PeerError(d)) if d == b"no such torrent".to_vec()
    ));
    assert!(matches!(availability_from_reply(0x04, &vec![]), Err(ReplyError::UnexpectedMethod(0x04))));
}

#[test]
fn chunks_to_ask_for() {
    let needed: HashSet<u64> = [1u64, 2, 5].into_iter().collect();
    assert_eq!(chunks_to_download(&vec![true, true, false, false, false, true, true], &needed), vec![1, 5]);
    assert!(chunks_to_download(&vec![], &needed).is_empty());
}

const ABC_SHA1: [u8; 20] = [
    0xa9, 0x99, 0x3e, 0x36, 0x47, 0x06, 0x81, 0x6a, 0xba, 0x3e, 0x25, 0x71, 0x78, 0x50, 0xc2, 0x6c,
    0x9c, 0xd0, 0xd8, 0x9d,
];

#[test]
fn chunk_replies_are_checked_against_hashes() {
    let hashes = vec![[0u8; 20], ABC_SHA1];
    assert!(check_chunk_reply(CHUNK_RESPONSE, &b"abc".to_vec(), 1, &hashes).is_ok());
    match check_chunk_reply(CHUNK_RESPONSE, &b"abd".to_vec(), 1, &hashes) {
        Err(ReplyError::HashMismatch { expected, received }) => {
            assert_eq!(expected, ABC_SHA1);
            assert_ne!(received, ABC_SHA1);
        }
        _ => panic!("expected a hash mismatch"),
    }
    match check_chunk_reply(CHUNK_RESPONSE, &b"abc".to_vec(), 0, &hashes) {
        Err(ReplyError::HashMismatch { expected, received }) => {
            assert_eq!(expected, [0u8; 20]);
            assert_eq!(received, ABC_SHA1);
        }
        _ => panic!("expected a hash mismatch"),
    }
    assert!(matches!(check_chunk_reply(CHUNK_RESPONSE, &b"abc".to_vec(), 2, &hashes), Err(ReplyError::InvalidChunkIndex)));
    assert!(matches!(check_chunk_reply(ERROR_MESSAGE, &b"gone".to_vec(), 1, &hashes), Err(ReplyError::PeerError(d)) if d == b"gone".to_vec()));
    assert!(matches!(check_chunk_reply(0x02, &vec![], 1, &hashes), Err(ReplyError::UnexpectedMethod(0x02))));
}

#[test]
fn new_peer_and_timeouts() {
    let p = PeerState::new("peer-1".to_string(), "10.0.0.2:6881".to_string());
    assert_eq!(p.id, "peer-1");
    assert_eq!(p.addr, "10.0.0.2:6881");
    assert_eq!(p.timeout_counter, 0);
    assert_eq!(p.limit.available_permits(), 3);
    let mut q = PeerState { id: "x".to_string(), addr: "y".to_string(), timeout_counter: 0, limit: p.limit.clone() };
    assert!(!q.record_timeout());
    assert!(!q.record_timeout());
    assert!(q.record_timeout());
    assert_eq!(q.timeout_counter, 3);
}

#[test]
fn peer_list_without_filter_skips_self() {
    let mut s = state(vec![], &[], 0);
    s.update_peer_list(vec![entry("me", "1.1.1.1:1"), entry("a", "2.2.2.2:2"), entry("b", "3.3.3.3:3")], "me");
    assert_eq!(s.peers.len(), 2);
    assert_eq!(s.peers[0].id, "2.2.2.2:2");
    assert_eq!(s.peers[0].addr, "a");
    assert_eq!(s.peers[1].id, "3.3.3.3:3");
    assert_eq!(s.peers[1].addr, "b");
}

#[test]
fn peer_list_with_filter_keeps_only_named_peers() {
    let mut s = state(vec!["b".to_string(), "me".to_string()], &[], 0);
    s.update_peer_list(vec![entry("me", "1"), entry("a", "2"), entry("b", "3")], "me");
    assert_eq!(s.peers.len(), 2);
    assert_eq!(s.peers[0].addr, "me");
    assert_eq!(s.peers[1].addr, "b");
}

#[test]
fn poll_results() {
    let mut s = state(vec![], &[], 0);
    s.update_peer_list(vec![entry("a", "ip1"), entry("b", "ip2"), entry("c", "ip1")], "me");
    assert!(s.apply_poll_result(Ok(Some(PMControl::Stop))));
    assert_eq!(s.peers.len(), 3);
    assert!(!s.apply_poll_result(Ok(None)));
    assert!(!s.apply_poll_result(Err(PollError::Other("timeout".to_string()))));
    assert_eq!(s.peers.len(), 3);
    assert!(!s.apply_poll_result(Err(PollError::DropPeer("ip1".to_string()))));
    assert_eq!(s.peers.len(), 1);
    assert_eq!(s.peers[0].id, "ip2");
}

#[test]
fn needed_chunks_are_tracked() {
    let mut s = state(vec![], &[0, 2, 3, 9], 4);
    let checked = s.chunks_to_check();
    assert_eq!(checked, vec![0, 2, 3]);
    assert!(!s.record_disk_check(&checked, &vec![false, true, false]));
    assert_eq!(s.chunks_to_check(), vec![0, 3]);
    let checked = s.chunks_to_check();
    assert!(!s.record_disk_check(&checked, &vec![true, true]));
    assert!(s.chunks_to_check().is_empty());
    assert_eq!(s.needed_chunks.len(), 1);
    assert!(!s.record_disk_check(&vec![], &vec![]));
    let mut t = state(vec![], &[1], 2);
    let checked = t.chunks_to_check();
    assert!(t.record_disk_check(&checked, &vec![true]));
}

#[test]
fn requests_follow_server_availability() {
    let held = vec![false, true, true, false, true, false, false, false, false, true];
    let decoded = decode_availability(&encode_availability(&held));
    let needed: HashSet<u64> = [0u64, 1, 4, 9, 12].into_iter().collect();
    assert_eq!(chunks_to_download(&decoded, &needed), vec![1, 4, 9]);
}

#[test]
fn chunk_hash_comparison() {
    assert!(compare_chunk_hash(ABC_SHA1, ABC_SHA1).is_ok());
    let mut other = ABC_SHA1;
    other[19] ^= 1;
    assert!(matches!(compare_chunk_hash(ABC_SHA1, other), Err(ReplyError::HashMismatch { expected, received }) if expected == ABC_SHA1 && received == other));
}

#[test]
fn manager_steps() {
    let mut s = state(vec![], &[0, 1, 7], 2);
    assert!(matches!(s.step(ManagerEvent::PeerList(vec![entry("a", "ip")]), "me"), ManagerAction::Wait));
    assert_eq!(s.peers.len(), 1);
    assert!(matches!(s.step(ManagerEvent::Polled { stop: true }, "me"), ManagerAction::Exit));
    match s.step(ManagerEvent::Polled { stop: false }, "me") {
        ManagerAction::CheckDisk(c) => assert_eq!(c, vec![0, 1]),
        _ => panic!("expected a disk check"),
    }
    assert!(matches!(
        s.step(ManagerEvent::DiskChecked { checked: vec![0, 1], on_disk: vec![true, true] }, "me"),
        ManagerAction::Wait
    ));
    assert_eq!(s.needed_chunks.len(), 1);
    let mut t = state(vec![], &[0, 1], 2);
    assert!(matches!(
        t.step(ManagerEvent::DiskChecked { checked: vec![0, 1], on_disk: vec![true, false] }, "me"),
        ManagerAction::Wait
    ));
    assert!(matches!(
        t.step(ManagerEvent::DiskChecked { checked: vec![1], on_disk: vec![true] }, "me"),
        ManagerAction::Assemble
    ));
}
