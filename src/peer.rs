use vstd::prelude::*;

use vstd::arithmetic::div_mod::lemma_fundamental_div_mod_converse;

use crate::bitfield::{bits_of, bitfield_fits, decode_bitfield};
use crate::tracker::{be32, be32_at};

verus! {

/// Largest block a peer may request.
pub const MAX_REQUEST_LEN: u32 = 131072;

/// A message of the peer wire protocol.
#[derive(Debug, Clone)]
pub enum Message {
    KeepAlive,
    Choke,
    Unchoke,
    Interested,
    NotInterested,
    Have { index: u32 },
    Bitfield { bits: Vec<u8> },
    Request { index: u32, begin: u32, length: u32 },
    Piece { index: u32, begin: u32, block: Vec<u8> },
    Cancel { index: u32, begin: u32, length: u32 },
}

/// Why a peer's message was refused.
#[derive(Debug, Clone, Copy, PartialEq, Eq, Structural)]
pub enum PeerError {
    /// The payload's length does not fit its message id.
    BadLength,
    /// The message id is not one of the protocol's.
    UnknownId,
    /// A piece index beyond the torrent's pieces.
    PieceIndex,
    /// A bitfield after the first `have` or a second bitfield.
    UnexpectedBitfield,
    /// A bitfield too short for the pieces, or with a spare bit set.
    BadBitfield,
    /// A request for a block beyond the hard cap.
    OversizeRequest,
}

/// Whether the frame payload `p` (after its length prefix) is an encoding of `m`.
pub open spec fn payload_matches(m: Message, p: Seq<u8>) -> bool {
    match m {
        Message::KeepAlive => p.len() == 0,
        Message::Choke => p == seq![0u8],
        Message::Unchoke => p == seq![1u8],
        Message::Interested => p == seq![2u8],
        Message::NotInterested => p == seq![3u8],
        Message::Have { index } => p == seq![4u8] + be32(index),
        Message::Bitfield { bits } => p == seq![5u8] + bits@,
        Message::Request { index, begin, length } => p == seq![6u8] + be32(index) + be32(begin)
            + be32(length),
        Message::Piece { index, begin, block } => p == seq![7u8] + be32(index) + be32(begin)
            + block@,
        Message::Cancel { index, begin, length } => p == seq![8u8] + be32(index) + be32(begin)
            + be32(length),
    }
}

/// The error in a frame payload, `None` where it is a message.
pub open spec fn payload_error(p: Seq<u8>) -> Option<PeerError> {
    if p.len() == 0 {
        None
    } else if p[0] <= 3 {
        if p.len() == 1 {
            None
        } else {
            Some(PeerError::BadLength)
        }
    } else if p[0] == 4 {
        if p.len() == 5 {
            None
        } else {
            Some(PeerError::BadLength)
        }
    } else if p[0] == 5 {
        None
    } else if p[0] == 6 || p[0] == 8 {
        if p.len() == 13 {
            None
        } else {
            Some(PeerError::BadLength)
        }
    } else if p[0] == 7 {
        if p.len() >= 9 {
            None
        } else {
            Some(PeerError::BadLength)
        }
    } else {
        Some(PeerError::UnknownId)
    }
}

proof fn lemma_be32_read(p: Seq<u8>, i: int)
    requires
        0 <= i,
        i + 4 <= p.len(),
    ensures
        p.subrange(i, i + 4) == be32(be32_at(p, i)),
{
    let b0 = p[i] as int;
    let b1 = p[i + 1] as int;
    let b2 = p[i + 2] as int;
    let b3 = p[i + 3] as int;
    let v = b0 * 0x1000000 + b1 * 0x10000 + b2 * 0x100 + b3;
    assert(v == be32_at(p, i));
    lemma_fundamental_div_mod_converse(v, 0x1000000, b0, b1 * 0x10000 + b2 * 0x100 + b3);
    lemma_fundamental_div_mod_converse(v, 0x10000, b0 * 0x100 + b1, b2 * 0x100 + b3);
    lemma_fundamental_div_mod_converse(b0 * 0x100 + b1, 0x100, b0, b1);
    lemma_fundamental_div_mod_converse(v, 0x100, b0 * 0x10000 + b1 * 0x100 + b2, b3);
    lemma_fundamental_div_mod_converse(b0 * 0x10000 + b1 * 0x100 + b2, 0x100, b0 * 0x100 + b1, b2);
    assert(p.subrange(i, i + 4) =~= be32(be32_at(p, i)));
}

fn read_u32(p: &[u8], i: usize) -> (r: u32)
    requires
        i + 4 <= p@.len(),
    ensures
        r == be32_at(p@, i as int),
        p@.subrange(i as int, i + 4) == be32(r),
{
    proof {
        lemma_be32_read(p@, i as int);
    }
    (p[i] as u32) * 0x1000000 + (p[i + 1] as u32) * 0x10000 + (p[i + 2] as u32) * 0x100 + (p[i
        + 3] as u32)
}

fn copy_from(p: &[u8], a: usize) -> (r: Vec<u8>)
    requires
        a <= p@.len(),
    ensures
        r@ == p@.subrange(a as int, p@.len() as int),
{
    crate::text::copy_bytes(p, a, p.len())
}

/// The length prefix of a frame.
pub fn frame_length(header: &[u8; 4]) -> (r: u32)
    ensures
        header@ == be32(r),
{
    read_u32(header.as_slice(), 0)
}

/// Reads the payload of a frame, after its length prefix.
pub fn parse_message(p: &[u8]) -> (r: Result<Message, PeerError>)
    ensures
        match r {
            Ok(m) => payload_error(p@) is None && payload_matches(m, p@),
            Err(e) => payload_error(p@) == Some(e),
        },
{
    let len = p.len();
    if len == 0 {
        return Ok(Message::KeepAlive);
    }
    let id = p[0];
    if id <= 3 {
        if len != 1 {
            return Err(PeerError::BadLength);
        }
        let m = if id == 0 {
            Message::Choke
        } else if id == 1 {
            Message::Unchoke
        } else if id == 2 {
            Message::Interested
        } else {
            Message::NotInterested
        };
        assert(p@ =~= seq![id]);
        Ok(m)
    } else if id == 4 {
        if len != 5 {
            return Err(PeerError::BadLength);
        }
        let index = read_u32(p, 1);
        assert(p@ =~= seq![4u8] + p@.subrange(1, 5));
        Ok(Message::Have { index })
    } else if id == 5 {
        let bits = copy_from(p, 1);
        assert(p@ =~= seq![5u8] + bits@);
        Ok(Message::Bitfield { bits })
    } else if id == 6 || id == 8 {
        if len != 13 {
            return Err(PeerError::BadLength);
        }
        let index = read_u32(p, 1);
        let begin = read_u32(p, 5);
        let length = read_u32(p, 9);
        assert(p@ =~= seq![id] + p@.subrange(1, 5) + p@.subrange(5, 9) + p@.subrange(9, 13));
        if id == 6 {
            Ok(Message::Request { index, begin, length })
        } else {
            Ok(Message::Cancel { index, begin, length })
        }
    } else if id == 7 {
        if len < 9 {
            return Err(PeerError::BadLength);
        }
        let index = read_u32(p, 1);
        let begin = read_u32(p, 5);
        let block = copy_from(p, 9);
        assert(p@ =~= seq![7u8] + p@.subrange(1, 5) + p@.subrange(5, 9) + block@);
        Ok(Message::Piece { index, begin, block })
    } else {
        Err(PeerError::UnknownId)
    }
}

fn push_u32(out: &mut Vec<u8>, v: u32)
    ensures
        final(out)@ == old(out)@ + be32(v),
{
    out.push((v / 0x1000000) as u8);
    out.push(((v / 0x10000) % 0x100) as u8);
    out.push(((v / 0x100) % 0x100) as u8);
    out.push((v % 0x100) as u8);
    assert(final(out)@ =~= old(out)@ + be32(v));
}

fn push_bytes(out: &mut Vec<u8>, b: &Vec<u8>)
    ensures
        final(out)@ == old(out)@ + b@,
{
    let mut i: usize = 0;
    while i < b.len()
        invariant
            i <= b@.len(),
            out@ == old(out)@ + b@.subrange(0, i as int),
        decreases b@.len() - i,
    {
        out.push(b[i]);
        i = i + 1;
        assert(out@ =~= old(out)@ + b@.subrange(0, i as int));
    }
    assert(b@.subrange(0, b@.len() as int) =~= b@);
}

/// Size of the payload that encodes `m`.
pub open spec fn payload_len(m: Message) -> int {
    match m {
        Message::KeepAlive => 0,
        Message::Choke | Message::Unchoke | Message::Interested | Message::NotInterested => 1,
        Message::Have { .. } => 5,
        Message::Bitfield { bits } => 1 + bits@.len() as int,
        Message::Request { .. } | Message::Cancel { .. } => 13,
        Message::Piece { block, .. } => 9 + block@.len() as int,
    }
}

/// The frame of `m`: its payload's length, big-endian, then the payload.
pub fn encode_message(m: &Message) -> (r: Vec<u8>)
    requires
        payload_len(*m) <= u32::MAX,
    ensures
        r@.len() == 4 + payload_len(*m),
        r@.subrange(0, 4) == be32(payload_len(*m) as u32),
        payload_matches(*m, r@.subrange(4, r@.len() as int)),
{
    let mut out: Vec<u8> = Vec::new();
    match m {
        Message::KeepAlive => {
            push_u32(&mut out, 0);
        },
        Message::Choke => {
            push_u32(&mut out, 1);
            out.push(0);
        },
        Message::Unchoke => {
            push_u32(&mut out, 1);
            out.push(1);
        },
        Message::Interested => {
            push_u32(&mut out, 1);
            out.push(2);
        },
        Message::NotInterested => {
            push_u32(&mut out, 1);
            out.push(3);
        },
        Message::Have { index } => {
            push_u32(&mut out, 5);
            out.push(4);
            push_u32(&mut out, *index);
        },
        Message::Bitfield { bits } => {
            push_u32(&mut out, (1 + bits.len()) as u32);
            out.push(5);
            push_bytes(&mut out, bits);
        },
        Message::Request { index, begin, length } => {
            push_u32(&mut out, 13);
            out.push(6);
            push_u32(&mut out, *index);
            push_u32(&mut out, *begin);
            push_u32(&mut out, *length);
        },
        Message::Piece { index, begin, block } => {
            push_u32(&mut out, (9 + block.len()) as u32);
            out.push(7);
            push_u32(&mut out, *index);
            push_u32(&mut out, *begin);
            push_bytes(&mut out, block);
        },
        Message::Cancel { index, begin, length } => {
            push_u32(&mut out, 13);
            out.push(8);
            push_u32(&mut out, *index);
            push_u32(&mut out, *begin);
            push_u32(&mut out, *length);
        },
    }
    assert(out@.subrange(0, 4) =~= be32(payload_len(*m) as u32));
    assert(payload_matches(*m, out@.subrange(4, out@.len() as int))) by {
        let p = out@.subrange(4, out@.len() as int);
        match m {
            Message::KeepAlive => {},
            Message::Choke => assert(p =~= seq![0u8]),
            Message::Unchoke => assert(p =~= seq![1u8]),
            Message::Interested => assert(p =~= seq![2u8]),
            Message::NotInterested => assert(p =~= seq![3u8]),
            Message::Have { index } => assert(p =~= seq![4u8] + be32(*index)),
            Message::Bitfield { bits } => assert(p =~= seq![5u8] + bits@),
            Message::Request { index, begin, length } => assert(p =~= seq![6u8] + be32(*index)
                + be32(*begin) + be32(*length)),
            Message::Piece { index, begin, block } => assert(p =~= seq![7u8] + be32(*index)
                + be32(*begin) + block@),
            Message::Cancel { index, begin, length } => assert(p =~= seq![8u8] + be32(*index)
                + be32(*begin) + be32(*length)),
        }
    }
    out
}

/// What the session asks of the connection after a message.
#[derive(Debug, Clone)]
pub enum Action {
    /// Nothing to do.
    Nothing,
    /// Send the block `[begin, begin + length)` of piece `index`.
    Serve { index: u32, begin: u32, length: u32 },
    /// Write the received block into piece `index` at `begin`.
    Store { index: u32, begin: u32, block: Vec<u8> },
}

/// The protocol state of one peer connection.
pub struct PeerState {
    pub am_choking: bool,
    pub am_interested: bool,
    pub peer_choking: bool,
    pub peer_interested: bool,
    /// The pieces the peer has.
    pub have: Vec<bool>,
    /// Whether a bitfield may still come: only as the first of the
    /// peer's piece announcements.
    pub bitfield_open: bool,
}

/// Whether the choke and interest flags are the same in both states.
pub open spec fn flags_kept(a: PeerState, b: PeerState) -> bool {
    &&& b.am_choking == a.am_choking
    &&& b.am_interested == a.am_interested
    &&& b.peer_choking == a.peer_choking
    &&& b.peer_interested == a.peer_interested
}

impl PeerState {
    /// The state of a new connection over `pieces` pieces: both sides
    /// choking and not interested, and no piece known to the peer.
    pub fn new(pieces: usize) -> (r: PeerState)
        ensures
            r.am_choking && !r.am_interested && r.peer_choking && !r.peer_interested,
            r.bitfield_open,
            r.have@ == Seq::new(pieces as nat, |i: int| false),
    {
        let mut have: Vec<bool> = Vec::with_capacity(pieces);
        let mut i: usize = 0;
        while i < pieces
            invariant
                i <= pieces,
                have@ == Seq::new(i as nat, |k: int| false),
            decreases pieces - i,
        {
            have.push(false);
            i = i + 1;
            assert(have@ =~= Seq::new(i as nat, |k: int| false));
        }
        PeerState {
            am_choking: true,
            am_interested: false,
            peer_choking: true,
            peer_interested: false,
            have,
            bitfield_open: true,
        }
    }

    /// The peer's pieces.
    pub fn get_bitfield(&self) -> (r: &Vec<bool>)
        ensures
            r@ == self.have@,
    {
        &self.have
    }

    /// The peer chokes us.
    pub fn choke(&mut self)
        ensures
            *final(self) == (PeerState { peer_choking: true, ..*old(self) }),
    {
        self.peer_choking = true;
    }

    /// The peer unchokes us.
    pub fn unchoke(&mut self)
        ensures
            *final(self) == (PeerState { peer_choking: false, ..*old(self) }),
    {
        self.peer_choking = false;
    }

    /// The peer is interested in our pieces.
    pub fn interested(&mut self)
        ensures
            *final(self) == (PeerState { peer_interested: true, ..*old(self) }),
    {
        self.peer_interested = true;
    }

    /// The peer is no longer interested.
    pub fn not_interested(&mut self)
        ensures
            *final(self) == (PeerState { peer_interested: false, ..*old(self) }),
    {
        self.peer_interested = false;
    }

    /// The peer announces piece `index`; no bitfield may follow.
    pub fn have(&mut self, index: u32) -> (r: Result<(), PeerError>)
        ensures
            index < old(self).have@.len() ==> r is Ok && final(self).have@ == old(
                self,
            ).have@.update(index as int, true) && !final(self).bitfield_open && flags_kept(
                *old(self),
                *final(self),
            ),
            index >= old(self).have@.len() ==> r == Err::<(), PeerError>(PeerError::PieceIndex)
                && *final(self) == *old(self),
    {
        if (index as usize) >= self.have.len() {
            return Err(PeerError::PieceIndex);
        }
        self.have.set(index as usize, true);
        self.bitfield_open = false;
        Ok(())
    }

    /// The peer's bitfield: accepted once, before any `have`, when it
    /// carries a bit for every piece and no spare bit is set.
    pub fn bitfield(&mut self, bits: &[u8]) -> (r: Result<(), PeerError>)
        ensures
            !old(self).bitfield_open ==> r == Err::<(), PeerError>(PeerError::UnexpectedBitfield)
                && *final(self) == *old(self),
            old(self).bitfield_open && !bitfield_fits(bits@, old(self).have@.len()) ==> r
                == Err::<(), PeerError>(PeerError::BadBitfield) && *final(self) == *old(self),
            old(self).bitfield_open && bitfield_fits(bits@, old(self).have@.len()) ==> r is Ok
                && final(self).have@ == bits_of(bits@, old(self).have@.len())
                && !final(self).bitfield_open && flags_kept(*old(self), *final(self)),
    {
        if !self.bitfield_open {
            return Err(PeerError::UnexpectedBitfield);
        }
        match decode_bitfield(bits, self.have.len()) {
            None => Err(PeerError::BadBitfield),
            Some(v) => {
                self.have = v;
                self.bitfield_open = false;
                Ok(())
            },
        }
    }

    /// A block request: served only while we do not choke the peer, for
    /// a known piece and a block within the hard cap.
    pub fn request(&self, index: u32, begin: u32, length: u32) -> (r: Result<Action, PeerError>)
        ensures
            length > MAX_REQUEST_LEN ==> r == Err::<Action, PeerError>(PeerError::OversizeRequest),
            length <= MAX_REQUEST_LEN && index >= self.have@.len() ==> r == Err::<
                Action,
                PeerError,
            >(PeerError::PieceIndex),
            length <= MAX_REQUEST_LEN && index < self.have@.len() && self.am_choking ==> r
                matches Ok(Action::Nothing),
            length <= MAX_REQUEST_LEN && index < self.have@.len() && !self.am_choking ==> (r
                matches Ok(Action::Serve { index: i, begin: b, length: l }) && i == index && b
                == begin && l == length),
    {
        if length > MAX_REQUEST_LEN {
            return Err(PeerError::OversizeRequest);
        }
        if (index as usize) >= self.have.len() {
            return Err(PeerError::PieceIndex);
        }
        if self.am_choking {
            Ok(Action::Nothing)
        } else {
            Ok(Action::Serve { index, begin, length })
        }
    }

    /// A received block of piece `index`, to be stored.
    pub fn piece(&self, index: u32, begin: u32, block: Vec<u8>) -> (r: Result<Action, PeerError>)
        ensures
            index >= self.have@.len() ==> r == Err::<Action, PeerError>(PeerError::PieceIndex),
            index < self.have@.len() ==> (r matches Ok(Action::Store { index: i, begin: b, block: k })
                && i == index && b == begin && k@ == block@),
    {
        if (index as usize) >= self.have.len() {
            return Err(PeerError::PieceIndex);
        }
        Ok(Action::Store { index, begin, block })
    }

    /// Applies one message to the session and says what the connection
    /// must do next.
    pub fn dispatch(&mut self, m: Message) -> (r: Result<Action, PeerError>)
        ensures
            match m {
                Message::KeepAlive | Message::Cancel { .. } => r matches Ok(Action::Nothing)
                    && *final(self) == *old(self),
                Message::Choke => r matches Ok(Action::Nothing) && *final(self) == (PeerState {
                    peer_choking: true,
                    ..*old(self)
                }),
                Message::Unchoke => r matches Ok(Action::Nothing) && *final(self) == (PeerState {
                    peer_choking: false,
                    ..*old(self)
                }),
                Message::Interested => r matches Ok(Action::Nothing) && *final(self) == (
                PeerState { peer_interested: true, ..*old(self) }),
                Message::NotInterested => r matches Ok(Action::Nothing) && *final(self) == (
                PeerState { peer_interested: false, ..*old(self) }),
                Message::Have { index } => if index < old(self).have@.len() {
                    r matches Ok(Action::Nothing) && final(self).have@ == old(self).have@.update(
                        index as int,
                        true,
                    ) && !final(self).bitfield_open && flags_kept(*old(self), *final(self))
                } else {
                    r == Err::<Action, PeerError>(PeerError::PieceIndex) && *final(self) == *old(
                        self,
                    )
                },
                Message::Bitfield { bits } => if !old(self).bitfield_open {
                    r == Err::<Action, PeerError>(PeerError::UnexpectedBitfield) && *final(self)
                        == *old(self)
                } else if !bitfield_fits(bits@, old(self).have@.len()) {
                    r == Err::<Action, PeerError>(PeerError::BadBitfield) && *final(self) == *old(
                        self,
                    )
                } else {
                    r matches Ok(Action::Nothing) && final(self).have@ == bits_of(
                        bits@,
                        old(self).have@.len(),
                    ) && !final(self).bitfield_open && flags_kept(*old(self), *final(self))
                },
                Message::Request { index, begin, length } => *final(self) == *old(self) && if length
                    > MAX_REQUEST_LEN {
                    r == Err::<Action, PeerError>(PeerError::OversizeRequest)
                } else if index >= old(self).have@.len() {
                    r == Err::<Action, PeerError>(PeerError::PieceIndex)
                } else if old(self).am_choking {
                    r matches Ok(Action::Nothing)
                } else {
                    r matches Ok(Action::Serve { index: i, begin: b, length: l }) && i == index
                        && b == begin && l == length
                },
                Message::Piece { index, begin, block } => *final(self) == *old(self) && if index
                    >= old(self).have@.len() {
                    r == Err::<Action, PeerError>(PeerError::PieceIndex)
                } else {
                    r matches Ok(Action::Store { index: i, begin: b, block: k }) && i == index
                        && b == begin && k@ == block@
                },
            },
    {
        match m {
            Message::KeepAlive => Ok(Action::Nothing),
            Message::Cancel { .. } => Ok(Action::Nothing),
            Message::Choke => {
                self.choke();
                Ok(Action::Nothing)
            },
            Message::Unchoke => {
                self.unchoke();
                Ok(Action::Nothing)
            },
            Message::Interested => {
                self.interested();
                Ok(Action::Nothing)
            },
            Message::NotInterested => {
                self.not_interested();
                Ok(Action::Nothing)
            },
            Message::Have { index } => {
                self.have(index)?;
                Ok(Action::Nothing)
            },
            Message::Bitfield { bits } => {
                self.bitfield(bits.as_slice())?;
                Ok(Action::Nothing)
            },
            Message::Request { index, begin, length } => self.request(index, begin, length),
            Message::Piece { index, begin, block } => self.piece(index, begin, block),
        }
    }
}

/// The keep-alive frame: a zero length and nothing else.
pub fn keepalive_frame() -> (r: Vec<u8>)
    ensures
        r@ == seq![0u8, 0u8, 0u8, 0u8],
{
    let r = encode_message(&Message::KeepAlive);
    assert(r@ =~= seq![0u8, 0u8, 0u8, 0u8]);
    r
}

/// The frame payload of a message always reads back: it has the length
/// its id asks for, so parsing it yields a message with that payload.
pub proof fn lemma_message_round_trip(m: Message, p: Seq<u8>)
    requires
        payload_matches(m, p),
    ensures
        payload_error(p) is None,
        p.len() == payload_len(m),
{
    match m {
        Message::KeepAlive => {},
        Message::Choke | Message::Unchoke | Message::Interested | Message::NotInterested => {},
        Message::Have { index } => {
            assert(p[0] == 4u8);
        },
        Message::Bitfield { bits } => {
            assert(p[0] == 5u8);
        },
        Message::Request { index, begin, length } => {
            assert(p[0] == 6u8);
        },
        Message::Piece { index, begin, block } => {
            assert(p[0] == 7u8);
        },
        Message::Cancel { index, begin, length } => {
            assert(p[0] == 8u8);
        },
    }
}

} // verus!
