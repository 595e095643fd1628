use vstd::prelude::*;

use crate::definitions::{InfoHash, PeerId, TORRENT_RS_PEER_ID};

verus! {

/// Length of the protocol string.
pub const PSTR_LEN: usize = 19;

/// Length of the reserved block.
pub const RESERVED_LEN: usize = 8;

/// Size of an encoded handshake frame.
pub const HANDSHAKE_SIZE: usize = 68;

/// The protocol string `BitTorrent protocol`.
pub const PSTR: [u8; 19] = [
    66, 105, 116, 84, 111, 114, 114, 101, 110, 116, 32, 112, 114, 111, 116, 111, 99, 111, 108,
];

/// The 68-byte handshake that opens a peer connection.
#[derive(Copy, Clone, Debug, PartialEq, Eq)]
pub struct Handshake {
    pub pstr_len: u8,
    pub protocol: [u8; 19],
    pub reserved: [u8; 8],
    pub info_hash: InfoHash,
    pub peer_id: PeerId,
}

/// The frame of a handshake: its fields concatenated in order.
pub open spec fn handshake_bytes(h: Handshake) -> Seq<u8> {
    seq![h.pstr_len] + h.protocol@ + h.reserved@ + h.info_hash@ + h.peer_id@
}

/// The handshake whose frame is `b`.
pub open spec fn handshake_of(b: Seq<u8>) -> Handshake
    recommends
        b.len() == 68,
{
    Handshake {
        pstr_len: b[0],
        protocol: arr_of_seq::<19>(b.subrange(1, 20)),
        reserved: arr_of_seq::<8>(b.subrange(20, 28)),
        info_hash: arr_of_seq::<20>(b.subrange(28, 48)),
        peer_id: arr_of_seq::<20>(b.subrange(48, 68)),
    }
}

/// An array with the given contents.
pub open spec fn arr_of_seq<const N: usize>(s: Seq<u8>) -> [u8; N] {
    choose|a: [u8; N]| a@ == s
}

/// A header is valid when it carries the protocol's name and its length.
pub open spec fn header_valid(h: Handshake) -> bool {
    h.pstr_len == 19 && h.protocol@ == PSTR@
}

fn copy_range<const N: usize>(input: &[u8; 68], start: usize) -> (r: [u8; N])
    requires
        start + N <= 68,
    ensures
        r@ == input@.subrange(start as int, start + N),
{
    let mut out = [0u8; N];
    let mut i: usize = 0;
    while i < N
        invariant
            start + N <= 68,
            i <= N,
            out@.len() == N,
            forall|k: int| 0 <= k < i ==> out@[k] == input@[start + k],
        decreases N - i,
    {
        out[i] = input[start + i];
        i = i + 1;
    }
    assert(out@ =~= input@.subrange(start as int, start + N));
    out
}

impl Handshake {
    /// The handshake this client sends: protocol header, zero reserved
    /// bits, a zero info-hash and this client's peer id.
    pub fn default() -> (r: Handshake)
        ensures
            r.pstr_len == 19,
            r.protocol@ == PSTR@,
            r.reserved@ == seq![0u8; 8],
            r.info_hash@ == seq![0u8; 20],
            r.peer_id@ == TORRENT_RS_PEER_ID@,
    {
        let r = Handshake {
            pstr_len: 19,
            protocol: PSTR,
            reserved: [0u8; 8],
            info_hash: [0u8; 20],
            peer_id: TORRENT_RS_PEER_ID,
        };
        assert(r.reserved@ =~= seq![0u8; 8]);
        assert(r.info_hash@ =~= seq![0u8; 20]);
        r
    }

    /// Reads a handshake from its 68-byte frame, field by field.
    pub fn new(input: &[u8; 68]) -> (r: Handshake)
        ensures
            handshake_bytes(r) == input@,
            r == handshake_of(input@),
    {
        let protocol: [u8; 19] = copy_range(input, 1);
        let reserved: [u8; 8] = copy_range(input, 20);
        let info_hash: [u8; 20] = copy_range(input, 28);
        let peer_id: [u8; 20] = copy_range(input, 48);
        let r = Handshake { pstr_len: input[0], protocol, reserved, info_hash, peer_id };
        assert(handshake_bytes(r) =~= input@);
        proof {
            lemma_arr_of_seq(protocol);
            lemma_arr_of_seq(reserved);
            lemma_arr_of_seq(info_hash);
            lemma_arr_of_seq(peer_id);
        }
        r
    }

    /// Replaces the info-hash.
    pub fn set_hash(&mut self, hash: &InfoHash)
        ensures
            *final(self) == (Handshake { info_hash: *hash, ..*old(self) }),
    {
        self.info_hash = *hash;
    }

    /// The info-hash carried by the handshake.
    pub fn get_hash(&self) -> (r: &InfoHash)
        ensures
            *r == self.info_hash,
    {
        &self.info_hash
    }

    /// The peer id carried by the handshake.
    pub fn get_peer_id(&self) -> (r: &PeerId)
        ensures
            *r == self.peer_id,
    {
        &self.peer_id
    }

    /// The 68-byte frame: the fields concatenated, with no reordering.
    pub fn to_bytes(self) -> (r: [u8; 68])
        ensures
            r@ == handshake_bytes(self),
    {
        let mut out = [0u8; 68];
        out[0] = self.pstr_len;
        let mut i: usize = 0;
        while i < 19
            invariant
                i <= 19,
                out@.len() == 68,
                out@[0] == self.pstr_len,
                forall|k: int| 0 <= k < i ==> out@[1 + k] == self.protocol@[k],
            decreases 19 - i,
        {
            out[1 + i] = self.protocol[i];
            i = i + 1;
        }
        let mut i: usize = 0;
        while i < 8
            invariant
                i <= 8,
                out@.len() == 68,
                out@[0] == self.pstr_len,
                forall|k: int| 0 <= k < 19 ==> out@[1 + k] == self.protocol@[k],
                forall|k: int| 0 <= k < i ==> out@[20 + k] == self.reserved@[k],
            decreases 8 - i,
        {
            out[20 + i] = self.reserved[i];
            i = i + 1;
        }
        let mut i: usize = 0;
        while i < 20
            invariant
                i <= 20,
                out@.len() == 68,
                out@[0] == self.pstr_len,
                forall|k: int| 0 <= k < 19 ==> out@[1 + k] == self.protocol@[k],
                forall|k: int| 0 <= k < 8 ==> out@[20 + k] == self.reserved@[k],
                forall|k: int| 0 <= k < i ==> out@[28 + k] == self.info_hash@[k],
                forall|k: int| 0 <= k < i ==> out@[48 + k] == self.peer_id@[k],
            decreases 20 - i,
        {
            out[28 + i] = self.info_hash[i];
            out[48 + i] = self.peer_id[i];
            i = i + 1;
        }
        assert(out@ =~= handshake_bytes(self));
        out
    }
}

proof fn lemma_arr_of_seq<const N: usize>(a: [u8; N])
    ensures
        arr_of_seq::<N>(a@) == a,
{
    let b = arr_of_seq::<N>(a@);
    assert(exists|x: [u8; N]| x@ == a@);
    assert(b@ == a@);
    assert(b@ =~= a@);
}

/// Whether a received handshake names the protocol correctly.
pub fn is_header_valid(hs: &Handshake) -> (r: bool)
    ensures
        r == header_valid(*hs),
{
    if hs.pstr_len != 19 {
        return false;
    }
    let mut i: usize = 0;
    while i < 19
        invariant
            i <= 19,
            forall|k: int| 0 <= k < i ==> hs.protocol@[k] == PSTR@[k],
        decreases 19 - i,
    {
        if hs.protocol[i] != PSTR[i] {
            return false;
        }
        i = i + 1;
    }
    assert(hs.protocol@ =~= PSTR@);
    true
}

/// Decoding an encoded handshake gives back the same handshake.
pub proof fn lemma_handshake_round_trip(h: Handshake)
    ensures
        handshake_of(handshake_bytes(h)) == h,
{
    let b = handshake_bytes(h);
    assert(b.subrange(1, 20) =~= h.protocol@);
    assert(b.subrange(20, 28) =~= h.reserved@);
    assert(b.subrange(28, 48) =~= h.info_hash@);
    assert(b.subrange(48, 68) =~= h.peer_id@);
    lemma_arr_of_seq(h.protocol);
    lemma_arr_of_seq(h.reserved);
    lemma_arr_of_seq(h.info_hash);
    lemma_arr_of_seq(h.peer_id);
}

/// Whether a received handshake may open the session of torrent
/// `info_hash`: a valid header and the same info-hash.
pub fn handshake_matches(received: &Handshake, info_hash: &InfoHash) -> (r: bool)
    ensures
        r == (header_valid(*received) && received.info_hash == *info_hash),
{
    if !is_header_valid(received) {
        return false;
    }
    let mut i: usize = 0;
    while i < 20
        invariant
            header_valid(*received),
            i <= 20,
            forall|k: int| 0 <= k < i ==> received.info_hash@[k] == info_hash@[k],
        decreases 20 - i,
    {
        if received.info_hash[i] != info_hash[i] {
            assert(received.info_hash@[i as int] != info_hash@[i as int]);
            return false;
        }
        i = i + 1;
    }
    assert(received.info_hash@ =~= info_hash@);
    proof {
        lemma_arr_of_seq(received.info_hash);
        lemma_arr_of_seq(*info_hash);
    }
    true
}

} // verus!
