use sha1::{Digest, Sha1};
use torrent_rs::file::{open_mode, FileEntity, FileError, OpenMode, Piece};

#[test]
fn store_slots_for_file() {
    let fe = FileEntity::new(256, 1024);
    assert_eq!(fe.get_piece_size(), 256);
    assert_eq!(fe.piece_count(), 1024 / 256);
    assert_eq!(fe.get_size(), 1024);
    assert!(!fe.is_loaded(0));
}

#[test]
fn last_piece_is_shorter() {
    let fe = FileEntity::new(100, 250);
    assert_eq!(fe.piece_count(), 3);
    assert_eq!(fe.piece_span(0), (0, 100));
    assert_eq!(fe.piece_span(2), (200, 50));
    assert_eq!(fe.load_request(2), Some((200, 50)));
    let empty = FileEntity::new(16, 0);
    assert_eq!(empty.piece_count(), 0);
}

#[test]
fn open_mode_decisions() {
    assert_eq!(open_mode(None, 1024), Ok(OpenMode::CreateNew));
    assert_eq!(open_mode(Some((true, 1024)), 1024), Ok(OpenMode::OpenExisting));
    assert_eq!(open_mode(Some((true, 77)), 0), Err(FileError::AlreadyExists));
    assert_eq!(open_mode(Some((false, 4096)), 1024), Ok(OpenMode::OpenExisting));
}

#[test]
fn piece_round_trip_write() {
    let mut fe = FileEntity::new(64, 200);
    let (_, len) = fe.load_request(0).unwrap();
    fe.load_piece(0, vec![0u8; len]);
    assert!(fe.is_loaded(0));
    assert_eq!(fe.load_request(0), None);
    let data: Vec<u8> = (0..40u8).collect();
    fe.write_sub_piece(0, 0, &data);
    assert_eq!(fe.sub_piece(0, 0, 40), data);
    let mut whole = data.clone();
    whole.resize(64, 0);
    assert_eq!(fe.sub_piece(0, 0, 64), whole);
    let expected: [u8; 20] = Sha1::digest(&whole).into();
    assert_eq!(fe.piece_hash(0), Some(expected));
    assert_eq!(fe.piece_hash(1), None);
}

#[test]
fn write_keeps_other_bytes() {
    let mut fe = FileEntity::new(8, 8);
    fe.load_piece(0, vec![1, 2, 3, 4, 5, 6, 7, 8]);
    fe.write_sub_piece(0, 3, &[9, 9]);
    assert_eq!(fe.sub_piece(0, 0, 8), vec![1, 2, 3, 9, 9, 6, 7, 8]);
    // loading a resident piece keeps it
    fe.load_piece(0, vec![0; 8]);
    assert_eq!(fe.sub_piece(0, 2, 3), vec![3, 9, 9]);
    let (off, bytes) = fe.flush_request(0).unwrap();
    assert_eq!(off, 0);
    assert_eq!(*bytes, vec![1, 2, 3, 9, 9, 6, 7, 8]);
}

#[test]
fn piece_buffer_update_and_hash() {
    let mut p = Piece::new(10, 4);
    assert_eq!(p.bytes, vec![0; 4]);
    p.update(1, &[7, 8]);
    assert_eq!(p.bytes, vec![0, 7, 8, 0]);
    let expected: [u8; 20] = Sha1::digest([0u8, 7, 8, 0]).into();
    assert_eq!(p.hash(), expected);
    assert_ne!(p.hash().to_vec(), p.bytes);
}

#[test]
fn piece_verification() {
    let mut fe = FileEntity::new(4, 6);
    let expected: [u8; 20] = Sha1::digest([1u8, 2]).into();
    assert!(!fe.verify_piece(1, &expected));
    fe.load_piece(1, vec![1, 2]);
    assert!(fe.verify_piece(1, &expected));
    fe.write_sub_piece(1, 1, &[3]);
    assert!(!fe.verify_piece(1, &expected));
}
