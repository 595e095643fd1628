use vstd::prelude::*;

verus! {

/// Length of an info-hash in bytes.
pub const INFO_HASH_LEN: usize = 20;

/// Length of a peer id in bytes.
pub const PEER_ID_LEN: usize = 20;

/// The peer id this client announces: `-RS0001-RANDOM_CHARA`.
pub const TORRENT_RS_PEER_ID: [u8; 20] = [
    45, 82, 83, 48, 48, 48, 49, 45, 82, 65, 78, 68, 79, 77, 95, 67, 72, 65, 82, 65,
];

/// A 20-byte SHA-1 digest identifying a torrent.
pub type InfoHash = [u8; 20];

/// A 20-byte peer identifier.
pub type PeerId = [u8; 20];

} // verus!
