//! Core of a BitTorrent client: metainfo decoding, info-hash extraction,
//! UDP tracker records, the peer handshake, peer wire messages and the
//! piece store, each stated and proved over byte sequences.

pub mod bencode;
pub mod bitfield;
pub mod decode_torrent;
pub mod definitions;
pub mod digest;
pub mod file;
pub mod handshake;
pub mod info_hash;
pub mod peer;
pub mod text;
pub mod tracker;
