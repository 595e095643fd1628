use torrent_rs::bitfield::{decode_bitfield, encode_bitfield};
use torrent_rs::peer::{
    encode_message, frame_length, keepalive_frame, parse_message, Action, Message, PeerError,
    PeerState,
};

#[test]
fn bitfield_msb_first() {
    assert_eq!(decode_bitfield(&[0b1010_0000], 3), Some(vec![true, false, true]));
    assert_eq!(
        decode_bitfield(&[0x80, 0x01], 16).unwrap(),
        vec![
            true, false, false, false, false, false, false, false, false, false, false, false,
            false, false, false, true
        ]
    );
    assert_eq!(encode_bitfield(&vec![true, false, true]), vec![0b1010_0000]);
    assert_eq!(encode_bitfield(&vec![false; 9]), vec![0, 0]);
    assert_eq!(encode_bitfield(&vec![]), Vec::<u8>::new());
}

#[test]
fn bitfield_round_trip() {
    let have: Vec<bool> = (0..21).map(|i| i % 3 == 0 || i == 20).collect();
    let b = encode_bitfield(&have);
    assert_eq!(b.len(), 3);
    assert_eq!(decode_bitfield(&b, have.len()), Some(have));
}

#[test]
fn bitfield_size_checks() {
    // too short
    assert_eq!(decode_bitfield(&[0xff], 9), None);
    // a spare bit set
    assert_eq!(decode_bitfield(&[0b1110_0000], 2), None);
    // oversize with zero tail is tolerated
    assert_eq!(decode_bitfield(&[0b1100_0000, 0], 2), Some(vec![true, true]));
}

#[test]
fn parse_each_message() {
    assert!(matches!(parse_message(&[]), Ok(Message::KeepAlive)));
    assert!(matches!(parse_message(&[0]), Ok(Message::Choke)));
    assert!(matches!(parse_message(&[1]), Ok(Message::Unchoke)));
    assert!(matches!(parse_message(&[2]), Ok(Message::Interested)));
    assert!(matches!(parse_message(&[3]), Ok(Message::NotInterested)));
    assert!(matches!(parse_message(&[4, 0, 0, 1, 2]), Ok(Message::Have { index: 258 })));
    match parse_message(&[5, 0xf0]) {
        Ok(Message::Bitfield { bits }) => assert_eq!(bits, vec![0xf0]),
        _ => panic!(),
    }
    assert!(matches!(
        parse_message(&[6, 0, 0, 0, 1, 0, 0, 0, 2, 0, 0, 0x40, 0]),
        Ok(Message::Request { index: 1, begin: 2, length: 16384 })
    ));
    match parse_message(&[7, 0, 0, 0, 1, 0, 0, 0, 2, 9, 8]) {
        Ok(Message::Piece { index, begin, block }) => {
            assert_eq!((index, begin), (1, 2));
            assert_eq!(block, vec![9, 8]);
        }
        _ => panic!(),
    }
    assert!(matches!(
        parse_message(&[8, 0, 0, 0, 1, 0, 0, 0, 2, 0, 0, 0, 3]),
        Ok(Message::Cancel { index: 1, begin: 2, length: 3 })
    ));
}

#[test]
fn parse_message_errors() {
    assert_eq!(parse_message(&[0, 0]).unwrap_err(), PeerError::BadLength);
    assert_eq!(parse_message(&[4, 0, 0]).unwrap_err(), PeerError::BadLength);
    assert_eq!(parse_message(&[6, 0]).unwrap_err(), PeerError::BadLength);
    assert_eq!(parse_message(&[7, 0, 0, 0]).unwrap_err(), PeerError::BadLength);
    assert_eq!(parse_message(&[9]).unwrap_err(), PeerError::UnknownId);
}

#[test]
fn message_frames() {
    assert_eq!(keepalive_frame(), vec![0, 0, 0, 0]);
    let m = Message::Piece { index: 3, begin: 16384, block: vec![1, 2, 3] };
    let f = encode_message(&m);
    assert_eq!(f, vec![0, 0, 0, 12, 7, 0, 0, 0, 3, 0, 0, 0x40, 0, 1, 2, 3]);
    assert_eq!(frame_length(&[0, 0, 0, 12]), 12);
    match parse_message(&f[4..]) {
        Ok(Message::Piece { index, begin, block }) => {
            assert_eq!((index, begin, block), (3, 16384, vec![1, 2, 3]));
        }
        _ => panic!(),
    }
    assert_eq!(encode_message(&Message::Unchoke), vec![0, 0, 0, 1, 1]);
}

#[test]
fn session_state_machine() {
    let mut s = PeerState::new(10);
    assert!(s.am_choking && !s.am_interested && s.peer_choking && !s.peer_interested);
    assert_eq!(s.get_bitfield(), &vec![false; 10]);
    assert!(matches!(s.dispatch(Message::Unchoke), Ok(Action::Nothing)));
    assert!(!s.peer_choking);
    assert!(matches!(s.dispatch(Message::Interested), Ok(Action::Nothing)));
    assert!(s.peer_interested);
    assert!(matches!(s.dispatch(Message::Bitfield { bits: vec![0xff, 0xc0] }), Ok(Action::Nothing)));
    assert_eq!(s.get_bitfield(), &vec![true; 10]);
    assert_eq!(
        s.dispatch(Message::Bitfield { bits: vec![0xff, 0xc0] }).unwrap_err(),
        PeerError::UnexpectedBitfield
    );
    assert!(matches!(s.dispatch(Message::Choke), Ok(Action::Nothing)));
    assert!(s.peer_choking);
    assert!(matches!(s.dispatch(Message::NotInterested), Ok(Action::Nothing)));
    assert!(!s.peer_interested);
}

#[test]
fn session_have_and_requests() {
    let mut s = PeerState::new(4);
    assert!(matches!(s.dispatch(Message::Have { index: 2 }), Ok(Action::Nothing)));
    assert_eq!(s.get_bitfield(), &vec![false, false, true, false]);
    assert_eq!(s.dispatch(Message::Have { index: 4 }).unwrap_err(), PeerError::PieceIndex);
    assert_eq!(
        s.dispatch(Message::Bitfield { bits: vec![0xf0] }).unwrap_err(),
        PeerError::UnexpectedBitfield
    );
    // choked peers are not served
    assert!(matches!(
        s.dispatch(Message::Request { index: 1, begin: 0, length: 16384 }),
        Ok(Action::Nothing)
    ));
    s.am_choking = false;
    assert!(matches!(
        s.dispatch(Message::Request { index: 1, begin: 0, length: 16384 }),
        Ok(Action::Serve { index: 1, begin: 0, length: 16384 })
    ));
    assert_eq!(
        s.dispatch(Message::Request { index: 1, begin: 0, length: 131073 }).unwrap_err(),
        PeerError::OversizeRequest
    );
    match s.dispatch(Message::Piece { index: 0, begin: 4, block: vec![5] }) {
        Ok(Action::Store { index, begin, block }) => assert_eq!((index, begin, block), (0, 4, vec![5])),
        _ => panic!(),
    }
    let mut short = PeerState::new(9);
    assert_eq!(
        short.dispatch(Message::Bitfield { bits: vec![0xff] }).unwrap_err(),
        PeerError::BadBitfield
    );
}
