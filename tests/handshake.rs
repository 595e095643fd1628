use torrent_rs::definitions::TORRENT_RS_PEER_ID;
use torrent_rs::handshake::{handshake_matches, is_header_valid, Handshake, HANDSHAKE_SIZE, PSTR, PSTR_LEN};

#[test]
fn is_header_valid_good() {
    let hs = Handshake::default();
    assert!(is_header_valid(&hs));
}

#[test]
fn is_header_valid_bad() {
    let bytes = [PSTR_LEN as u8; HANDSHAKE_SIZE];
    let hs = Handshake::new(&bytes);
    assert!(!is_header_valid(&hs));
}

#[test]
fn new_handshake_good() {
    let mut bytes = [0; HANDSHAKE_SIZE];

    bytes[0] = PSTR_LEN as u8;
    for (i, x) in PSTR.iter().enumerate() {
        bytes[1 + i] = *x;
    }

    let hs = Handshake::new(&bytes);

    assert!(is_header_valid(&hs));
}

#[test]
fn handshake_to_bytes_to_handshake() {
    let bytes = Handshake::default().to_bytes();
    let hs = Handshake::new(&bytes);

    assert_eq!(hs, Handshake::default());
}

#[test]
fn handshake_frame_layout() {
    let mut hs = Handshake::default();
    let mut hash = [0u8; 20];
    for (i, x) in hash.iter_mut().enumerate() {
        *x = i as u8 + 100;
    }
    hs.set_hash(&hash);
    let bytes = hs.to_bytes();
    assert_eq!(bytes[0], 19);
    assert_eq!(&bytes[1..20], b"BitTorrent protocol");
    assert_eq!(&bytes[20..28], &[0u8; 8]);
    assert_eq!(&bytes[28..48], &hash);
    assert_eq!(&bytes[48..68], b"-RS0001-RANDOM_CHARA");
    let back = Handshake::new(&bytes);
    assert_eq!(*back.get_hash(), hash);
    assert_eq!(*back.get_peer_id(), TORRENT_RS_PEER_ID);
    assert_eq!(back, hs);
}

#[test]
fn handshake_wrong_protocol_name() {
    let mut bytes = Handshake::default().to_bytes();
    bytes[5] = b'x';
    assert!(!is_header_valid(&Handshake::new(&bytes)));
}

#[test]
fn handshake_info_hash_check() {
    let mut hs = Handshake::default();
    let hash = [7u8; 20];
    hs.set_hash(&hash);
    assert!(handshake_matches(&hs, &hash));
    assert!(!handshake_matches(&hs, &[8u8; 20]));
    let mut bytes = hs.to_bytes();
    bytes[0] = 18;
    assert!(!handshake_matches(&Handshake::new(&bytes), &hash));
}
