use sha1::{Digest, Sha1};
use torrent_rs::decode_torrent::{
    bytes_to_hash, bytes_to_num, decimal_field, get_info_hash, pieces_to_hash, DecodeError, Info,
    MetaInfo,
};

fn pieces_blob(n: usize) -> Vec<u8> {
    (0..n * 20).map(|i| (i * 7 % 251) as u8).collect()
}

fn bstr(s: &[u8]) -> Vec<u8> {
    let mut v = format!("{}:", s.len()).into_bytes();
    v.extend_from_slice(s);
    v
}

fn info_dict(len: u64, piece_len: u64, pieces: &[u8]) -> Vec<u8> {
    let mut v = b"d".to_vec();
    v.extend(bstr(b"length"));
    v.extend(format!("i{}e", len).into_bytes());
    v.extend(bstr(b"name"));
    v.extend(bstr(b"file.txt"));
    v.extend(bstr(b"piece length"));
    v.extend(format!("i{}e", piece_len).into_bytes());
    v.extend(bstr(b"pieces"));
    v.extend(bstr(pieces));
    v.push(b'e');
    v
}

fn torrent(announce: &[u8], info: &[u8]) -> Vec<u8> {
    let mut v = b"d".to_vec();
    v.extend(bstr(b"announce"));
    v.extend(bstr(announce));
    v.extend(bstr(b"created by"));
    v.extend(bstr(b"mktorrent 1.1"));
    v.extend(bstr(b"info"));
    v.extend_from_slice(info);
    v.push(b'e');
    v
}

#[test]
fn decode_local_announce() {
    let info = info_dict(40, 32, &pieces_blob(2));
    let t = torrent(b"udp://192.168.0.101:3000", &info);
    let m = MetaInfo::from_bencode(&t).unwrap();
    assert_eq!(m.announce, "udp://192.168.0.101:3000");
    assert_eq!(m.info.name, "file.txt");
    assert_eq!(m.info.piece_length, "32");
    assert_eq!(m.info.file_length, "40");
    assert_eq!(m.info.pieces.len(), 2);
    assert_eq!(m.info.md5sum, None);
    assert_eq!(m.comment, None);
}

#[test]
fn decode_created_by() {
    let info = info_dict(262144 * 3 + 1, 262144, &pieces_blob(4));
    let t = torrent(b"udp://tracker.opentrackr.org:1337", &info);
    let m = MetaInfo::from_bencode(&t).unwrap();
    assert_eq!(m.announce, "udp://tracker.opentrackr.org:1337");
    assert_eq!(m.created_by, Some("mktorrent 1.1".to_string()));
    assert_eq!(m.info.pieces.len(), 4);
}

#[test]
fn decode_piece_hashes_in_hex() {
    let blob = pieces_blob(2);
    let info = info_dict(40, 32, &blob);
    let m = MetaInfo::from_bencode(&torrent(b"udp://a:1", &info)).unwrap();
    let expected: Vec<String> = blob
        .chunks(20)
        .map(|c| c.iter().map(|b| format!("{:02x}", b)).collect())
        .collect();
    assert_eq!(m.info.pieces, expected);
}

#[test]
fn decode_keys_in_any_order() {
    let mut info = b"d".to_vec();
    info.extend(bstr(b"pieces"));
    info.extend(bstr(&pieces_blob(1)));
    info.extend(bstr(b"name"));
    info.extend(bstr(b"x"));
    info.extend(bstr(b"piece length"));
    info.extend(b"i16e");
    info.extend(bstr(b"md5sum"));
    info.extend(bstr(b"abc"));
    info.extend(bstr(b"length"));
    info.extend(b"i16e");
    info.push(b'e');
    let mut t = b"d".to_vec();
    t.extend(bstr(b"info"));
    t.extend(&info);
    t.extend(bstr(b"url-list"));
    t.extend(bstr(b"https://example.org/x"));
    t.extend(bstr(b"creation date"));
    t.extend(b"i1641234567e");
    t.extend(bstr(b"httpseeds"));
    t.extend(b"l");
    t.extend(bstr(b"http://a"));
    t.extend(bstr(b"http://b"));
    t.extend(b"e");
    t.extend(bstr(b"comment"));
    t.extend(bstr(b"hello"));
    t.extend(bstr(b"announce"));
    t.extend(bstr(b"udp://t:1"));
    t.push(b'e');
    let m = MetaInfo::from_bencode(&t).unwrap();
    assert_eq!(m.announce, "udp://t:1");
    assert_eq!(m.comment, Some("hello".to_string()));
    assert_eq!(m.creation_date, Some(1641234567));
    assert_eq!(
        m.http_seeds,
        Some(vec!["http://a".to_string(), "http://b".to_string()])
    );
    assert_eq!(m.url_list, Some("https://example.org/x".to_string()));
    assert_eq!(m.info.md5sum, Some("abc".to_string()));
    assert_eq!(m.info.name, "x");
}

#[test]
fn decode_unexpected_field() {
    let info = info_dict(40, 32, &pieces_blob(2));
    let mut t = torrent(b"udp://a:1", &info);
    t.pop();
    t.extend(bstr(b"zzz"));
    t.extend(bstr(b"1"));
    t.push(b'e');
    assert_eq!(MetaInfo::from_bencode(&t).unwrap_err(), DecodeError::UnexpectedField);
}

#[test]
fn decode_missing_field() {
    let info = info_dict(40, 32, &pieces_blob(2));
    let mut t = b"d".to_vec();
    t.extend(bstr(b"info"));
    t.extend(&info);
    t.push(b'e');
    assert_eq!(MetaInfo::from_bencode(&t).unwrap_err(), DecodeError::MissingField);

    let mut info2 = b"d".to_vec();
    info2.extend(bstr(b"name"));
    info2.extend(bstr(b"x"));
    info2.push(b'e');
    let t2 = torrent(b"udp://a:1", &info2);
    assert_eq!(MetaInfo::from_bencode(&t2).unwrap_err(), DecodeError::MissingField);
}

#[test]
fn decode_malformed_inputs() {
    assert_eq!(MetaInfo::from_bencode(b"").unwrap_err(), DecodeError::Malformed);
    assert_eq!(MetaInfo::from_bencode(b"l1:ae").unwrap_err(), DecodeError::Malformed);
    assert_eq!(MetaInfo::from_bencode(b"d8:announce").unwrap_err(), DecodeError::Malformed);
    // piece data that is not a whole number of hashes
    let t = torrent(b"udp://a:1", &info_dict(40, 32, &[1u8; 30]));
    assert_eq!(MetaInfo::from_bencode(&t).unwrap_err(), DecodeError::Malformed);
    // piece count that does not fit the lengths
    let t = torrent(b"udp://a:1", &info_dict(40, 32, &pieces_blob(3)));
    assert_eq!(MetaInfo::from_bencode(&t).unwrap_err(), DecodeError::Malformed);
    // zero piece length
    let t = torrent(b"udp://a:1", &info_dict(0, 0, &[]));
    assert_eq!(MetaInfo::from_bencode(&t).unwrap_err(), DecodeError::Malformed);
    // text that is not UTF-8
    let t = torrent(&[0xff, 0xfe], &info_dict(40, 32, &pieces_blob(2)));
    assert_eq!(MetaInfo::from_bencode(&t).unwrap_err(), DecodeError::Malformed);
    // an integer with a leading zero
    let mut info = info_dict(40, 32, &pieces_blob(2));
    let at = info.windows(4).position(|w| w == b"i40e").unwrap();
    info.splice(at..at + 4, b"i040e".iter().cloned());
    let t = torrent(b"udp://a:1", &info);
    assert_eq!(MetaInfo::from_bencode(&t).unwrap_err(), DecodeError::Malformed);
    // a repeated key
    let mut t = torrent(b"udp://a:1", &info_dict(40, 32, &pieces_blob(2)));
    t.pop();
    t.extend(bstr(b"announce"));
    t.extend(bstr(b"udp://b:2"));
    t.push(b'e');
    assert_eq!(MetaInfo::from_bencode(&t).unwrap_err(), DecodeError::Malformed);
}

#[test]
fn decode_info_alone() {
    let info = info_dict(64, 32, &pieces_blob(2));
    let (i, next): (Info, usize) = Info::decode_bencode_object(&info, 0).unwrap();
    assert_eq!(next, info.len());
    assert_eq!(i.file_length, "64");
}

#[test]
fn info_hash_covers_info_value() {
    let info = info_dict(40, 32, &pieces_blob(2));
    let t = torrent(b"udp://192.168.0.101:3000", &info);
    let hash = get_info_hash(&t).unwrap();
    let expected: [u8; 20] = Sha1::digest(&info).into();
    assert_eq!(hash, expected);
    assert_ne!(hash.to_vec(), info[..20].to_vec());
}

#[test]
fn info_hash_of_nested_values() {
    let mut inner = b"d".to_vec();
    inner.extend(bstr(b"a"));
    inner.extend(b"li1ei-2ed1:xleee");
    inner.extend(bstr(b"b"));
    inner.extend(bstr(b"e:e"));
    inner.push(b'e');
    let mut t = b"d".to_vec();
    t.extend(bstr(b"info"));
    t.extend(&inner);
    t.extend(bstr(b"z"));
    t.extend(b"i0e");
    t.push(b'e');
    let expected: [u8; 20] = Sha1::digest(&inner).into();
    assert_eq!(get_info_hash(&t), Some(expected));
}

#[test]
fn info_hash_without_info() {
    assert_eq!(get_info_hash(b"d8:announce3:abce"), None);
    assert_eq!(get_info_hash(b"d4:infod4:name"), None);
}

#[test]
fn hex_rendering() {
    let mut h = [0u8; 20];
    h[0] = 0x52;
    h[1] = 0xb6;
    h[19] = 0x0f;
    assert_eq!(
        bytes_to_hash(&h),
        "52b6" .to_string() + &"00".repeat(17) + "0f"
    );
    let v = pieces_to_hash(&[0xabu8; 40]);
    assert_eq!(v, vec!["ab".repeat(20), "ab".repeat(20)]);
    assert!(pieces_to_hash(&[]).is_empty());
}

#[test]
fn decimal_helpers() {
    assert_eq!(bytes_to_num(b"262144"), Some(262144));
    assert_eq!(bytes_to_num(b""), Some(0));
    assert_eq!(decimal_field("1048576"), Some(1048576));
    assert_eq!(decimal_field(""), None);
    assert_eq!(decimal_field("12a"), None);
    assert_eq!(decimal_field("99999999999999999999"), None);
}
