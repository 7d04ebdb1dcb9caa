use std::path::PathBuf;
use nibble_torrent_client_hurricaneport::error::Error;
use nibble_torrent_client_hurricaneport::torrent::{
    client_peer_id, interpret_tracker_reply, ErrorResponse, Torrent, TrackerResponse,
};

fn torrent(url: &str) -> Torrent {
    Torrent {
        torrent_id: "abcd".to_string(),
        tracker_url: url.to_string(),
        file_size: 10,
        piece_size: 5,
        pieces: vec!["00".to_string(), "11".to_string()],
        file_name: PathBuf::from("file.bin"),
    }
}

#[test]
fn tracker_request_url() {
    let t = torrent("http://tracker.example:8088/announce");
    let url = t.tracker_request_url("-ECEN426-me", "10.0.0.8", 6881).ok().unwrap();
    assert_eq!(url, "http://tracker.example:8088/announce?peer_id=-ECEN426-me&ip=10.0.0.8&port=6881&torrent_id=abcd");
}

#[test]
fn tracker_request_url_with_bad_base() {
    let t = torrent("no scheme here");
    assert!(matches!(
        t.tracker_request_url("p", "1.2.3.4", 1),
        Err(Error::URLParseError(url::ParseError::RelativeUrlWithoutBase))
    ));
}

#[test]
fn tracker_replies() {
    let ok = interpret_tracker_reply(
        Some(TrackerResponse { interval: 30, peers: vec![["a".to_string(), "1.2.3.4:5".to_string()]] }),
        Some(ErrorResponse { error: "ignored".to_string() }),
    );
    match ok {
        Ok(r) => {
            assert_eq!(r.interval, 30);
            assert_eq!(r.peers.len(), 1);
        }
        Err(_) => panic!("expected a response"),
    }
    match interpret_tracker_reply(None, Some(ErrorResponse { error: "unknown torrent".to_string() })) {
        Err(e) => {
            assert!(matches!(&e, Error::TrackerResponseError(m) if m == "unknown torrent"));
            assert_eq!(e.to_string(), "Returned Error from the Server: unknown torrent");
        }
        Ok(_) => panic!("expected an error"),
    }
    match interpret_tracker_reply(None, None) {
        Err(Error::TrackerResponseError(m)) => assert_eq!(m, "Could not parse tracker response"),
        _ => panic!("expected an error"),
    }
}

#[test]
fn peer_id_from_netid() {
    assert_eq!(client_peer_id("porter02"), "-ECEN426-porter02");
}

#[test]
fn error_messages_and_conversions() {
    let io = std::io::Error::new(std::io::ErrorKind::Other, "boom");
    let e: Error = io.into();
    assert_eq!(e.to_string(), "IO Error: boom");
    let e: Error = httparse::Error::Version.into();
    assert!(matches!(e, Error::HTTPParseError(httparse::Error::Version)));
    assert!(e.to_string().starts_with("HTTP Parse Error: "));
    let e: Error = url::ParseError::EmptyHost.into();
    assert!(matches!(e, Error::URLParseError(url::ParseError::EmptyHost)));
    assert!(e.to_string().starts_with("URL Parse Error: "));
    let j = serde_json::from_str::<u32>("x").unwrap_err();
    let e: Error = j.into();
    assert!(e.to_string().starts_with("JSON Parse Error: "));
}

#[test]
fn error_texts_follow_inner_display() {
    let e: Error = httparse::Error::TooManyHeaders.into();
    assert_eq!(e.to_string(), format!("HTTP Parse Error: {}", httparse::Error::TooManyHeaders));
    let e: Error = url::ParseError::RelativeUrlWithoutBase.into();
    assert_eq!(e.to_string(), "URL Parse Error: relative URL without a base");
    let j = serde_json::from_str::<u32>("x").unwrap_err();
    let text = j.to_string();
    let e: Error = j.into();
    assert_eq!(e.to_string(), format!("JSON Parse Error: {}", text));
}
