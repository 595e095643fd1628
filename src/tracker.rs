use vstd::prelude::*;
use vstd::string::StringSliceAdditionalSpecFns;
use vstd::utf8::{encode_utf8_valid_utf8, is_char_boundary, is_char_boundary_start_end_of_seq};

use crate::definitions::{InfoHash, PeerId};

verus! {

/// A connection id issued by a tracker.
pub type ConnectionId = u64;

/// A transaction id correlating a request and its response.
pub type TransactionId = u32;

/// The magic connection id of a connect request.
pub const PROTOCOL_ID: u64 = 0x41727101980;

/// Action codes of the UDP tracker protocol.
pub const ACTION_CONNECT: u32 = 0;
pub const ACTION_ANNOUNCE: u32 = 1;

/// Size of a connect request and of a connect response.
pub const CONNECT_SIZE: usize = 16;

/// Size of an announce request.
pub const ANNOUNCE_SIZE: usize = 98;

/// Size of the fixed header of an announce response.
pub const ANNOUNCE_HEADER_SIZE: usize = 20;

/// Why a tracker response was refused.
#[derive(Debug, Clone, Copy, PartialEq, Eq, Structural)]
pub enum TrackerError {
    /// The response is shorter than its fixed layout, or ends inside a
    /// peer record.
    Truncated,
    /// The response's action is not the request's.
    ActionMismatch,
    /// The response's transaction id is not the request's.
    TransactionMismatch,
    /// The tracker issued the connection id zero.
    ZeroConnectionId,
}

/// Big-endian bytes of a 16-bit number.
pub open spec fn be16(v: u16) -> Seq<u8> {
    seq![(v / 0x100) as u8, (v % 0x100) as u8]
}

/// Big-endian bytes of a 32-bit number.
pub open spec fn be32(v: u32) -> Seq<u8> {
    seq![
        (v / 0x1000000) as u8,
        ((v / 0x10000) % 0x100) as u8,
        ((v / 0x100) % 0x100) as u8,
        (v % 0x100) as u8,
    ]
}

/// Big-endian bytes of a 64-bit number.
pub open spec fn be64(v: u64) -> Seq<u8> {
    be32((v / 0x100000000) as u32) + be32((v % 0x100000000) as u32)
}

/// The number written big-endian in `b[i..i+2]`.
pub open spec fn be16_at(b: Seq<u8>, i: int) -> u16 {
    (b[i] * 0x100 + b[i + 1]) as u16
}

/// The number written big-endian in `b[i..i+4]`.
pub open spec fn be32_at(b: Seq<u8>, i: int) -> u32 {
    (b[i] * 0x1000000 + b[i + 1] * 0x10000 + b[i + 2] * 0x100 + b[i + 3]) as u32
}

/// The number written big-endian in `b[i..i+8]`.
pub open spec fn be64_at(b: Seq<u8>, i: int) -> u64 {
    (be32_at(b, i) * 0x100000000 + be32_at(b, i + 4)) as u64
}

/// The connect request for transaction `tid`.
pub open spec fn connect_request_bytes(tid: u32) -> Seq<u8> {
    be64(PROTOCOL_ID) + be32(ACTION_CONNECT) + be32(tid)
}

/// What a connect response answers to the request of transaction `tid`.
pub open spec fn connect_outcome(resp: Seq<u8>, tid: u32) -> Result<u64, TrackerError> {
    if resp.len() < 16 {
        Err(TrackerError::Truncated)
    } else if be32_at(resp, 0) != ACTION_CONNECT {
        Err(TrackerError::ActionMismatch)
    } else if be32_at(resp, 4) != tid {
        Err(TrackerError::TransactionMismatch)
    } else if be64_at(resp, 8) == 0 {
        Err(TrackerError::ZeroConnectionId)
    } else {
        Ok(be64_at(resp, 8))
    }
}

fn push_be16(out: &mut Vec<u8>, v: u16)
    ensures
        final(out)@ == old(out)@ + be16(v),
{
    out.push((v / 0x100) as u8);
    out.push((v % 0x100) as u8);
    assert(final(out)@ =~= old(out)@ + be16(v));
}

fn push_be32(out: &mut Vec<u8>, v: u32)
    ensures
        final(out)@ == old(out)@ + be32(v),
{
    out.push((v / 0x1000000) as u8);
    out.push(((v / 0x10000) % 0x100) as u8);
    out.push(((v / 0x100) % 0x100) as u8);
    out.push((v % 0x100) as u8);
    assert(final(out)@ =~= old(out)@ + be32(v));
}

fn push_be64(out: &mut Vec<u8>, v: u64)
    ensures
        final(out)@ == old(out)@ + be64(v),
{
    push_be32(out, (v / 0x100000000) as u32);
    push_be32(out, (v % 0x100000000) as u32);
    assert(final(out)@ =~= old(out)@ + be64(v));
}

fn push_all(out: &mut Vec<u8>, b: &[u8; 20])
    ensures
        final(out)@ == old(out)@ + b@,
{
    let mut i: usize = 0;
    while i < 20
        invariant
            i <= 20,
            b@.len() == 20,
            out@ == old(out)@ + b@.subrange(0, i as int),
        decreases 20 - i,
    {
        out.push(b[i]);
        i = i + 1;
        assert(out@ =~= old(out)@ + b@.subrange(0, i as int));
    }
    assert(b@.subrange(0, 20) =~= b@);
}

fn read_be16(b: &[u8], i: usize) -> (r: u16)
    requires
        i + 2 <= b@.len(),
    ensures
        r == be16_at(b@, i as int),
{
    (b[i] as u16) * 0x100 + (b[i + 1] as u16)
}

fn read_be32(b: &[u8], i: usize) -> (r: u32)
    requires
        i + 4 <= b@.len(),
    ensures
        r == be32_at(b@, i as int),
{
    (b[i] as u32) * 0x1000000 + (b[i + 1] as u32) * 0x10000 + (b[i + 2] as u32) * 0x100 + (b[i
        + 3] as u32)
}

fn read_be64(b: &[u8], i: usize) -> (r: u64)
    requires
        i + 8 <= b@.len(),
    ensures
        r == be64_at(b@, i as int),
{
    let n = b.len();
    assert(i + 4 <= n);
    (read_be32(b, i) as u64) * 0x100000000 + (read_be32(b, i + 4) as u64)
}

/// The 16-byte connect request of transaction `tid`: protocol id, action
/// connect, transaction id, all big-endian.
pub fn connect_request(tid: TransactionId) -> (r: Vec<u8>)
    ensures
        r@ == connect_request_bytes(tid),
        r@.len() == CONNECT_SIZE,
{
    let mut out: Vec<u8> = Vec::with_capacity(16);
    push_be64(&mut out, PROTOCOL_ID);
    push_be32(&mut out, ACTION_CONNECT);
    push_be32(&mut out, tid);
    assert(out@ =~= connect_request_bytes(tid));
    out
}

/// Relies on `rand::random`: a fresh random transaction id.
#[verifier::external_body]
fn random_transaction_id() -> TransactionId {
    rand::random::<u32>()
}

/// Opens a connect transaction: a fresh random transaction id and the
/// request to send for it.
pub fn start_connect() -> (r: (TransactionId, Vec<u8>))
    ensures
        r.1@ == connect_request_bytes(r.0),
{
    let tid = random_transaction_id();
    (tid, connect_request(tid))
}

/// Checks a connect response against the request of transaction `tid`
/// and returns the connection id it issues.
pub fn parse_connect_response(resp: &[u8], tid: TransactionId) -> (r: Result<ConnectionId, TrackerError>)
    ensures
        r == connect_outcome(resp@, tid),
{
    if resp.len() < 16 {
        return Err(TrackerError::Truncated);
    }
    if read_be32(resp, 0) != ACTION_CONNECT {
        return Err(TrackerError::ActionMismatch);
    }
    if read_be32(resp, 4) != tid {
        return Err(TrackerError::TransactionMismatch);
    }
    let cid = read_be64(resp, 8);
    if cid == 0 {
        return Err(TrackerError::ZeroConnectionId);
    }
    Ok(cid)
}

/// The fields of an announce request.
#[derive(Debug, Clone, Copy)]
pub struct AnnounceIn {
    pub cid: ConnectionId,
    pub tid: TransactionId,
    pub info_hash: InfoHash,
    pub peer_id: PeerId,
    pub downloaded: u64,
    pub left: u64,
    pub uploaded: u64,
    pub event: u32,
    pub ipv4: u32,
    pub key: u32,
    pub num_want: u32,
    pub port: u16,
}

/// The 98-byte announce request: its fields in order, big-endian, with
/// the action announce after the connection id.
pub open spec fn announce_request_bytes(a: AnnounceIn) -> Seq<u8> {
    be64(a.cid) + be32(ACTION_ANNOUNCE) + be32(a.tid) + a.info_hash@ + a.peer_id@ + be64(
        a.downloaded,
    ) + be64(a.left) + be64(a.uploaded) + be32(a.event) + be32(a.ipv4) + be32(a.key) + be32(
        a.num_want,
    ) + be16(a.port)
}

impl AnnounceIn {
    /// The announce request of this client for a session: nothing
    /// downloaded, uploaded or left, no event, default address and key.
    pub fn new(cid: ConnectionId, tid: TransactionId, info_hash: &InfoHash, peer_id: &PeerId, num_want: u32) -> (r: AnnounceIn)
        ensures
            r == (AnnounceIn {
                cid,
                tid,
                info_hash: *info_hash,
                peer_id: *peer_id,
                downloaded: 0,
                left: 0,
                uploaded: 0,
                event: 0,
                ipv4: 0,
                key: 0,
                num_want,
                port: 0,
            }),
    {
        AnnounceIn {
            cid,
            tid,
            info_hash: *info_hash,
            peer_id: *peer_id,
            downloaded: 0,
            left: 0,
            uploaded: 0,
            event: 0,
            ipv4: 0,
            key: 0,
            num_want,
            port: 0,
        }
    }

    /// The request's bytes.
    pub fn to_bytes(&self) -> (r: Vec<u8>)
        ensures
            r@ == announce_request_bytes(*self),
            r@.len() == ANNOUNCE_SIZE,
    {
        let mut out: Vec<u8> = Vec::with_capacity(98);
        push_be64(&mut out, self.cid);
        push_be32(&mut out, ACTION_ANNOUNCE);
        push_be32(&mut out, self.tid);
        push_all(&mut out, &self.info_hash);
        push_all(&mut out, &self.peer_id);
        push_be64(&mut out, self.downloaded);
        push_be64(&mut out, self.left);
        push_be64(&mut out, self.uploaded);
        push_be32(&mut out, self.event);
        push_be32(&mut out, self.ipv4);
        push_be32(&mut out, self.key);
        push_be32(&mut out, self.num_want);
        push_be16(&mut out, self.port);
        assert(out@ =~= announce_request_bytes(*self));
        out
    }
}

/// The peer record `k` of a compact peer list: address and port.
pub open spec fn peer_record(b: Seq<u8>, k: int) -> (u32, u16) {
    (be32_at(b, 6 * k), be16_at(b, 6 * k + 4))
}

/// The peers of the first `n` records of a compact list, without the
/// records `0.0.0.0:0`.
pub open spec fn compact_peers(b: Seq<u8>, n: nat) -> Seq<(u32, u16)>
    decreases n,
{
    if n == 0 {
        seq![]
    } else if peer_record(b, n - 1) == (0u32, 0u16) {
        compact_peers(b, (n - 1) as nat)
    } else {
        compact_peers(b, (n - 1) as nat).push(peer_record(b, n - 1))
    }
}

/// A decoded announce response.
#[derive(Debug, Clone)]
pub struct AnnounceOut {
    pub action: u32,
    pub tid: TransactionId,
    pub interval: u32,
    pub leechers: u32,
    pub seeders: u32,
    /// The peers, as IPv4 address and port.
    pub peers: Vec<(u32, u16)>,
}

/// Whether an announce response may be read for transaction `tid`.
pub open spec fn announce_outcome(resp: Seq<u8>, tid: u32) -> Result<(), TrackerError> {
    if resp.len() < 20 || (resp.len() - 20) % 6 != 0 {
        Err(TrackerError::Truncated)
    } else if be32_at(resp, 0) != ACTION_ANNOUNCE {
        Err(TrackerError::ActionMismatch)
    } else if be32_at(resp, 4) != tid {
        Err(TrackerError::TransactionMismatch)
    } else {
        Ok(())
    }
}

impl AnnounceOut {
    /// Reads an announce response to transaction `tid`: a 20-byte header
    /// and 6-byte peer records, of which those of `0.0.0.0:0` are dropped.
    pub fn parse(resp: &[u8], tid: TransactionId) -> (r: Result<AnnounceOut, TrackerError>)
        ensures
            match (r, announce_outcome(resp@, tid)) {
                (Ok(a), Ok(())) => {
                    &&& a.action == ACTION_ANNOUNCE
                    &&& a.tid == tid
                    &&& a.interval == be32_at(resp@, 8)
                    &&& a.leechers == be32_at(resp@, 12)
                    &&& a.seeders == be32_at(resp@, 16)
                    &&& a.peers@ == compact_peers(
                        resp@.subrange(20, resp@.len() as int),
                        ((resp@.len() - 20) / 6) as nat,
                    )
                },
                (Err(x), Err(y)) => x == y,
                _ => false,
            },
    {
        let len = resp.len();
        if len < 20 || (len - 20) % 6 != 0 {
            return Err(TrackerError::Truncated);
        }
        let action = read_be32(resp, 0);
        if action != ACTION_ANNOUNCE {
            return Err(TrackerError::ActionMismatch);
        }
        let rtid = read_be32(resp, 4);
        if rtid != tid {
            return Err(TrackerError::TransactionMismatch);
        }
        let ghost body = resp@.subrange(20, len as int);
        let n = (len - 20) / 6;
        let mut peers: Vec<(u32, u16)> = Vec::new();
        let mut k: usize = 0;
        while k < n
            invariant
                len == resp@.len(),
                n == (len - 20) / 6,
                (len - 20) % 6 == 0,
                len >= 20,
                k <= n,
                body == resp@.subrange(20, len as int),
                peers@ == compact_peers(body, k as nat),
            decreases n - k,
        {
            let at = 20 + 6 * k;
            let addr = read_be32(resp, at);
            let port = read_be16(resp, at + 4);
            assert(peer_record(body, k as int) == (addr, port));
            if !(addr == 0 && port == 0) {
                peers.push((addr, port));
            }
            k = k + 1;
        }
        Ok(
            AnnounceOut {
                action,
                tid: rtid,
                interval: read_be32(resp, 8),
                leechers: read_be32(resp, 12),
                seeders: read_be32(resp, 16),
                peers,
            },
        )
    }

    /// The peers the tracker returned.
    pub fn get_peers(&self) -> (r: &Vec<(u32, u16)>)
        ensures
            r@ == self.peers@,
    {
        &self.peers
    }
}

/// The value of a hexadecimal digit, upper or lower case.
pub open spec fn hex_value(c: u8) -> Option<u8> {
    if 48 <= c <= 57 {
        Some((c - 48) as u8)
    } else if 97 <= c <= 102 {
        Some((c - 87) as u8)
    } else if 65 <= c <= 70 {
        Some((c - 55) as u8)
    } else {
        None
    }
}

/// Whether `h` is the digest written by the 40 hexadecimal digits `t`.
pub open spec fn hex_digest(t: Seq<u8>, h: Seq<u8>) -> bool {
    &&& t.len() == 40
    &&& h.len() == 20
    &&& forall|k: int|
        0 <= k < 20 ==> hex_value(t[2 * k]) is Some && hex_value(t[2 * k + 1]) is Some
            && #[trigger] h[k] == hex_value(t[2 * k])->Some_0 * 16 + hex_value(t[2 * k + 1])->Some_0
}

/// Whether `t` is 40 hexadecimal digits.
pub open spec fn is_hex_digest(t: Seq<u8>) -> bool {
    t.len() == 40 && forall|k: int| 0 <= k < 40 ==> #[trigger] hex_value(t[k]) is Some
}

fn hex_value_exec(c: u8) -> (r: Option<u8>)
    ensures
        r == hex_value(c),
        r matches Some(v) ==> v < 16,
{
    if 48 <= c && c <= 57 {
        Some(c - 48)
    } else if 97 <= c && c <= 102 {
        Some(c - 87)
    } else if 65 <= c && c <= 70 {
        Some(c - 55)
    } else {
        None
    }
}

/// Converts an info-hash written as 40 hexadecimal digits into its 20
/// bytes; `None` where the text is not such a digest.
pub fn hash_to_bytes(hash: &str) -> (r: Option<InfoHash>)
    ensures
        r is Some <==> is_hex_digest(hash.spec_bytes()),
        r matches Some(h) ==> hex_digest(hash.spec_bytes(), h@),
{
    let t = hash.as_bytes();
    if t.len() != 40 {
        return None;
    }
    let mut out = [0u8; 20];
    let mut k: usize = 0;
    while k < 20
        invariant
            t@ == hash.spec_bytes(),
            t@.len() == 40,
            k <= 20,
            out@.len() == 20,
            forall|j: int| 0 <= j < 2 * k ==> #[trigger] hex_value(t@[j]) is Some,
            forall|j: int|
                0 <= j < k ==> #[trigger] out@[j] == hex_value(t@[2 * j])->Some_0 * 16
                    + hex_value(t@[2 * j + 1])->Some_0,
        decreases 20 - k,
    {
        let hi = hex_value_exec(t[2 * k]);
        let lo = hex_value_exec(t[2 * k + 1]);
        match (hi, lo) {
            (Some(h), Some(l)) => {
                out[k] = h * 16 + l;
            },
            _ => {
                assert(!is_hex_digest(t@)) by {
                    if hi is None {
                        assert(hex_value(t@[2 * k as int]) is None);
                    } else {
                        assert(hex_value(t@[2 * k + 1]) is None);
                    }
                }
                return None;
            },
        }
        k = k + 1;
    }
    assert(is_hex_digest(t@)) by {
        assert forall|j: int| 0 <= j < 40 implies #[trigger] hex_value(t@[j]) is Some by {
            assert(j < 2 * 20);
        }
    }
    Some(out)
}

/// Largest retry exponent of the tracker's back-off.
pub const MAX_RETRY: u32 = 8;

/// `2^n`.
pub open spec fn pow2(n: nat) -> nat
    decreases n,
{
    if n == 0 {
        1
    } else {
        2 * pow2((n - 1) as nat)
    }
}

/// Seconds to wait for the answer to attempt `attempt` of a tracker
/// request: `15 * 2^attempt`, for attempts `0` to `8`; `None` after the
/// last attempt.
pub fn retry_timeout(attempt: u32) -> (r: Option<u64>)
    ensures
        attempt <= MAX_RETRY ==> r == Some((15 * pow2(attempt as nat)) as u64),
        attempt > MAX_RETRY ==> r is None,
{
    if attempt > MAX_RETRY {
        return None;
    }
    let mut t: u64 = 15;
    let mut i: u32 = 0;
    while i < attempt
        invariant
            i <= attempt <= MAX_RETRY,
            t == 15 * pow2(i as nat),
            t <= 15 * 256,
        decreases attempt - i,
    {
        proof {
            lemma_pow2_bound(i as nat);
        }
        t = t * 2;
        i = i + 1;
    }
    Some(t)
}

proof fn lemma_pow2_monotone(n: nat, m: nat)
    requires
        n <= m,
    ensures
        pow2(n) <= pow2(m),
    decreases m,
{
    if n < m {
        lemma_pow2_monotone(n, (m - 1) as nat);
    }
}

proof fn lemma_pow2_bound(n: nat)
    requires
        n < 8,
    ensures
        2 * pow2(n) <= 256,
{
    lemma_pow2_monotone(n, 7);
    reveal_with_fuel(pow2, 8);
    assert(pow2(7) == 128);
}

/// The scheme of a UDP tracker URL, `udp://`.
pub const UDP_SCHEME: [u8; 6] = [117, 100, 112, 58, 47, 47];

/// The tracker endpoint of an announce URL: what follows `udp://`, or
/// `None` where the URL has another scheme.
pub fn tracker_endpoint(announce: &str) -> (r: Option<&str>)
    ensures
        r is Some <==> (announce.spec_bytes().len() >= 6 && announce.spec_bytes().subrange(0, 6)
            == UDP_SCHEME@),
        r matches Some(t) ==> t.spec_bytes() == announce.spec_bytes().subrange(
            6,
            announce.spec_bytes().len() as int,
        ),
{
    let b = announce.as_bytes();
    if b.len() < 6 {
        return None;
    }
    let mut i: usize = 0;
    while i < 6
        invariant
            b@ == announce.spec_bytes(),
            b@.len() >= 6,
            i <= 6,
            forall|k: int| 0 <= k < i ==> b@[k] == UDP_SCHEME@[k],
        decreases 6 - i,
    {
        if b[i] != UDP_SCHEME[i] {
            assert(b@.subrange(0, 6)[i as int] != UDP_SCHEME@[i as int]);
            return None;
        }
        i = i + 1;
    }
    assert(b@.subrange(0, 6) =~= UDP_SCHEME@);
    proof {
        let bytes = announce.spec_bytes();
        encode_utf8_valid_utf8(announce@);
        if bytes.len() == 6 {
            is_char_boundary_start_end_of_seq(bytes);
        } else {
            lemma_ascii_prefix_boundary(bytes, 6);
        }
    }
    let (_, rest) = announce.split_at(6);
    Some(rest)
}

proof fn lemma_ascii_prefix_boundary(bytes: Seq<u8>, n: int)
    requires
        vstd::utf8::valid_utf8(bytes),
        0 <= n <= bytes.len(),
        forall|k: int| 0 <= k < n ==> bytes[k] < 128,
    ensures
        is_char_boundary(bytes, n),
    decreases n,
{
    if n > 0 {
        let rest = bytes.subrange(1, bytes.len() as int);
        assert(vstd::utf8::pop_first_scalar(bytes) == rest);
        assert forall|k: int| 0 <= k < n - 1 implies rest[k] < 128 by {
            assert(rest[k] == bytes[k + 1]);
        }
        lemma_ascii_prefix_boundary(rest, n - 1);
    }
}

/// The state of a UDP tracker session: the connection id once the tracker
/// issued one, and the transaction in progress.
pub struct TrackerSession {
    pub cid: Option<ConnectionId>,
    pub tid: TransactionId,
}

impl TrackerSession {
    /// A session that has not connected yet.
    pub fn new() -> (r: TrackerSession)
        ensures
            r.cid is None,
            r.tid == 0,
    {
        TrackerSession { cid: None, tid: 0 }
    }

    /// Starts a connect transaction with a fresh transaction id: the
    /// request to send.
    pub fn begin_connect(&mut self) -> (r: Vec<u8>)
        ensures
            final(self).cid == old(self).cid,
            r@ == connect_request_bytes(final(self).tid),
    {
        let (tid, request) = start_connect();
        self.tid = tid;
        request
    }

    /// Reads the answer to the connect transaction; the connection id it
    /// issues is kept for the session.
    pub fn on_connect_response(&mut self, resp: &[u8]) -> (r: Result<ConnectionId, TrackerError>)
        ensures
            r == connect_outcome(resp@, old(self).tid),
            final(self).tid == old(self).tid,
            r matches Ok(c) ==> final(self).cid == Some(c),
            r is Err ==> final(self).cid == old(self).cid,
    {
        let r = parse_connect_response(resp, self.tid);
        if let Ok(c) = r {
            self.cid = Some(c);
        }
        r
    }

    /// The announce request of this client within the session; `None`
    /// before the tracker issued a connection id.
    pub fn announce_request(&self, info_hash: &InfoHash, peer_id: &PeerId, num_want: u32) -> (r:
        Option<Vec<u8>>)
        ensures
            self.cid is None ==> r is None,
            self.cid matches Some(c) ==> (r matches Some(b) && b@ == announce_request_bytes(
                AnnounceIn {
                    cid: c,
                    tid: self.tid,
                    info_hash: *info_hash,
                    peer_id: *peer_id,
                    downloaded: 0,
                    left: 0,
                    uploaded: 0,
                    event: 0,
                    ipv4: 0,
                    key: 0,
                    num_want,
                    port: 0,
                },
            )),
    {
        match self.cid {
            None => None,
            Some(c) => Some(AnnounceIn::new(c, self.tid, info_hash, peer_id, num_want).to_bytes()),
        }
    }
}

} // verus!
