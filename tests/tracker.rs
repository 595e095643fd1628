use torrent_rs::tracker::{
    connect_request, hash_to_bytes, parse_connect_response, retry_timeout, start_connect,
    tracker_endpoint, AnnounceIn, AnnounceOut, TrackerError, TrackerSession, ANNOUNCE_SIZE,
    PROTOCOL_ID,
};

fn connect_response(action: u32, tid: u32, cid: u64) -> Vec<u8> {
    let mut v = action.to_be_bytes().to_vec();
    v.extend_from_slice(&tid.to_be_bytes());
    v.extend_from_slice(&cid.to_be_bytes());
    v
}

#[test]
fn connect_request_layout() {
    let r = connect_request(0x01020304);
    assert_eq!(
        r,
        vec![0x00, 0x00, 0x04, 0x17, 0x27, 0x10, 0x19, 0x80, 0, 0, 0, 0, 1, 2, 3, 4]
    );
    assert_eq!(u64::from_be_bytes(r[0..8].try_into().unwrap()), PROTOCOL_ID);
}

#[test]
fn start_connect_carries_its_transaction() {
    let (tid, req) = start_connect();
    assert_eq!(req.len(), 16);
    assert_eq!(req[12..16], tid.to_be_bytes());
}

#[test]
fn connect_against_cooperating_responder() {
    let (tid, req) = start_connect();
    // a responder that echoes the transaction id and issues an id
    let echoed = u32::from_be_bytes(req[12..16].try_into().unwrap());
    let resp = connect_response(0, echoed, 0x1122334455667788);
    let cid = parse_connect_response(&resp, tid).unwrap();
    assert_ne!(cid, 0);
    assert_eq!(cid, 0x1122334455667788);
}

#[test]
fn connect_response_errors() {
    assert_eq!(
        parse_connect_response(&connect_response(1, 7, 9), 7),
        Err(TrackerError::ActionMismatch)
    );
    assert_eq!(
        parse_connect_response(&connect_response(0, 8, 9), 7),
        Err(TrackerError::TransactionMismatch)
    );
    assert_eq!(
        parse_connect_response(&connect_response(0, 7, 0), 7),
        Err(TrackerError::ZeroConnectionId)
    );
    assert_eq!(
        parse_connect_response(&connect_response(0, 7, 9)[..15], 7),
        Err(TrackerError::Truncated)
    );
}

#[test]
fn announce_request_layout() {
    let hash = [0xaau8; 20];
    let pid = *b"-RS0001-RANDOM_CHARA";
    let a = AnnounceIn::new(0x0102030405060708, 0x0a0b0c0d, &hash, &pid, 5);
    let b = a.to_bytes();
    assert_eq!(b.len(), ANNOUNCE_SIZE);
    assert_eq!(b[0..8], [1, 2, 3, 4, 5, 6, 7, 8]);
    assert_eq!(b[8..12], [0, 0, 0, 1]);
    assert_eq!(b[12..16], [0x0a, 0x0b, 0x0c, 0x0d]);
    assert_eq!(b[16..36], hash);
    assert_eq!(b[36..56], pid);
    assert!(b[56..92].iter().all(|&x| x == 0));
    assert_eq!(b[92..96], [0, 0, 0, 5]);
    assert_eq!(b[96..98], [0, 0]);
}

#[test]
fn announce_response_peers() {
    let mut r = Vec::new();
    r.extend_from_slice(&1u32.to_be_bytes());
    r.extend_from_slice(&77u32.to_be_bytes());
    r.extend_from_slice(&1800u32.to_be_bytes());
    r.extend_from_slice(&3u32.to_be_bytes());
    r.extend_from_slice(&4u32.to_be_bytes());
    r.extend_from_slice(&[192, 168, 0, 101, 0x0b, 0xb8]);
    r.extend_from_slice(&[0, 0, 0, 0, 0, 0]);
    r.extend_from_slice(&[10, 0, 0, 1, 0x1a, 0xe1]);
    let a = AnnounceOut::parse(&r, 77).unwrap();
    assert_eq!(a.action, 1);
    assert_eq!(a.tid, 77);
    assert_eq!(a.interval, 1800);
    assert_eq!(a.leechers, 3);
    assert_eq!(a.seeders, 4);
    assert_eq!(
        *a.get_peers(),
        vec![(0xc0a80065u32, 3000u16), (0x0a000001u32, 6881u16)]
    );
    assert_eq!(AnnounceOut::parse(&r, 78).unwrap_err(), TrackerError::TransactionMismatch);
    assert_eq!(AnnounceOut::parse(&r[..25], 77).unwrap_err(), TrackerError::Truncated);
    r[3] = 3;
    assert_eq!(AnnounceOut::parse(&r, 77).unwrap_err(), TrackerError::ActionMismatch);
}

#[test]
fn hex_info_hash_to_bytes() {
    let h = hash_to_bytes("52b62d34a8336f2e934df62181ad4c2f1b43c185").unwrap();
    assert_eq!(h[0], 0x52);
    assert_eq!(h[1], 0xb6);
    assert_eq!(h[19], 0x85);
    assert_eq!(hash_to_bytes("52B62D34A8336F2E934DF62181AD4C2F1B43C185"), Some(h));
    assert_eq!(hash_to_bytes("52b6"), None);
    assert_eq!(hash_to_bytes("zzb62d34a8336f2e934df62181ad4c2f1b43c185"), None);
}

#[test]
fn tracker_back_off() {
    assert_eq!(retry_timeout(0), Some(15));
    assert_eq!(retry_timeout(1), Some(30));
    assert_eq!(retry_timeout(8), Some(3840));
    assert_eq!(retry_timeout(9), None);
}

#[test]
fn udp_scheme_is_stripped() {
    assert_eq!(tracker_endpoint("udp://192.168.0.101:3000"), Some("192.168.0.101:3000"));
    assert_eq!(tracker_endpoint("udp://"), Some(""));
    assert_eq!(tracker_endpoint("http://tracker:80"), None);
    assert_eq!(tracker_endpoint("udp:/"), None);
}

#[test]
fn tracker_session_flow() {
    let mut s = TrackerSession::new();
    assert_eq!(s.announce_request(&[1u8; 20], &[2u8; 20], 1), None);
    let req = s.begin_connect();
    assert_eq!(req[12..16], s.tid.to_be_bytes());
    assert_eq!(
        s.on_connect_response(&connect_response(0, s.tid.wrapping_add(1), 5)),
        Err(TrackerError::TransactionMismatch)
    );
    assert_eq!(s.cid, None);
    assert_eq!(s.on_connect_response(&connect_response(0, s.tid, 5)), Ok(5));
    assert_eq!(s.cid, Some(5));
    let ann = s.announce_request(&[1u8; 20], &[2u8; 20], 1).unwrap();
    assert_eq!(ann.len(), ANNOUNCE_SIZE);
    assert_eq!(ann[0..8], 5u64.to_be_bytes());
    assert_eq!(ann[12..16], s.tid.to_be_bytes());
}
