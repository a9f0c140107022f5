//! The packet: an 18-byte little-endian header (flag, command, sequence number,
//! type, error code, body length) followed by the body.

use vstd::prelude::*;
use bytes::Bytes;
use bytebuffer::ByteBuffer;
use crate::buffers::{
    byte_buffer_data, byte_buffer_little_endian, byte_buffer_new, byte_buffer_set_little_endian,
    byte_buffer_write_bytes, byte_buffer_write_u32, byte_buffer_write_u8, bytes_as_slice,
    bytes_copy_from_slice, bytes_len, bytes_view,
};
use crate::wire::{le_bytes, le_u32, lemma_le_bytes_of_le_u32, lemma_le_u32_at, read_u32_le};

verus! {

/// The byte that opens every packet on the wire.
pub const PACKET_BEGIN_FLAG: u8 = 0x55;

/// Type byte of a request.
pub const REQ_TYPE: u8 = 1u8;

/// Type byte of a response.
pub const RSP_TYPE: u8 = 2u8;

/// Type byte of a push.
pub const PUSH_TYPE: u8 = 3u8;

/// Length of the header in bytes.
pub const HEADER_LENGTH: usize = 18;

/// Longest body a reader accepts.
pub const MAX_BODY_LENGTH: usize = 16384;

/// Command number of heartbeat requests.
pub const HEART_BEAT_CMD: u32 = 0;

/// Seconds between heartbeats.
pub const HEARTBEAT_INTERVAL_SECONDS: u64 = 1;

/// What a packet is: its header fields and its body bytes.
pub struct PacketModel {
    pub cmd: u32,
    pub seq: u32,
    pub t: u8,
    pub ec: u32,
    pub body: Seq<u8>,
}

/// A protocol packet.
pub struct Packet {
    cmd: u32,
    seq: u32,
    t: u8,
    ec: u32,
    body: Bytes,
}

impl View for Packet {
    type V = PacketModel;

    closed spec fn view(&self) -> PacketModel {
        PacketModel {
            cmd: self.cmd,
            seq: self.seq,
            t: self.t,
            ec: self.ec,
            body: bytes_view(self.body),
        }
    }
}

/// The source of sequence numbers for requests and pushes: it hands out 1, 2, 3, ...
/// and wraps around after `u32::MAX`.
pub struct SequenceGenerator {
    next: u32,
}

impl SequenceGenerator {
    /// The number the next call of `next` returns.
    pub closed spec fn upcoming(&self) -> u32 {
        self.next
    }

    /// A generator whose first number is 1.
    pub fn new() -> (g: SequenceGenerator)
        ensures
            g.upcoming() == 1,
    {
        SequenceGenerator { next: 1 }
    }

    /// Hands out the upcoming number and moves on to its successor modulo 2^32.
    pub fn next(&mut self) -> (s: u32)
        ensures
            s == old(self).upcoming(),
            final(self).upcoming() == next_sequence(s),
    {
        let s = self.next;
        self.next = if s == u32::MAX {
            0
        } else {
            s + 1
        };
        s
    }
}

/// The number that follows `s` in a generator.
pub open spec fn next_sequence(s: u32) -> u32 {
    ((s as int + 1) % 0x1_0000_0000) as u32
}

/// The bytes that `to_bytes` writes for a packet.
pub open spec fn packet_bytes(m: PacketModel) -> Seq<u8> {
    seq![PACKET_BEGIN_FLAG] + le_bytes(m.cmd) + le_bytes(m.seq) + seq![m.t] + le_bytes(m.ec)
        + le_bytes(m.body.len() as u32) + m.body
}

/// The first index in `pos..end` that holds the begin flag, or `end` if none does;
/// `pos` itself when `pos >= end`.
pub open spec fn scan_flag(b: Seq<u8>, pos: int, end: int) -> int
    decreases end - pos,
{
    if pos < end && b[pos] != PACKET_BEGIN_FLAG {
        scan_flag(b, pos + 1, end)
    } else {
        pos
    }
}

/// The packet whose header starts at `pos` and whose body has `body_len` bytes.
pub open spec fn packet_at(b: Seq<u8>, pos: int, body_len: int) -> PacketModel {
    PacketModel {
        cmd: le_u32(b, pos + 1),
        seq: le_u32(b, pos + 5),
        t: b[pos + 9],
        ec: le_u32(b, pos + 10),
        body: b.subrange(pos + 18, pos + 18 + body_len),
    }
}

/// Reading a non-empty buffer from `start`: skip to the next begin flag (never
/// looking at the last byte); give up if none is found or fewer than a header's
/// bytes remain; skip the header of a packet whose body is too long and read on;
/// give up, past the header, if the body is incomplete; else return the packet and
/// the position after it. The second component is the new read position.
pub open spec fn parse_from(b: Seq<u8>, start: int) -> (Option<PacketModel>, int)
    decreases b.len() - start,
{
    let end = b.len() - 1;
    let pos = scan_flag(b, start, end);
    if pos == end || b.len() - pos < HEADER_LENGTH {
        (None, pos)
    } else {
        let body_len = le_u32(b, pos + 14) as int;
        if body_len > MAX_BODY_LENGTH {
            proof {
                lemma_scan_flag_bounds(b, start, end);
            }
            parse_from(b, pos + 18)
        } else if b.len() - pos < HEADER_LENGTH + body_len {
            (None, pos + 18)
        } else {
            (Some(packet_at(b, pos, body_len)), pos + 18 + body_len)
        }
    }
}

/// What `from_bytes` gives for buffer `b` read from position `start`: the packet,
/// if any, and the new read position.
pub open spec fn parse_packet(b: Seq<u8>, start: int) -> (Option<PacketModel>, int) {
    if b.len() == 0 {
        (None, start)
    } else {
        parse_from(b, start)
    }
}

/// The flag scan neither moves backwards nor past `max(pos, end)`, and it stops on
/// a flag whenever it stops before `end`.
pub proof fn lemma_scan_flag_bounds(b: Seq<u8>, pos: int, end: int)
    ensures
        pos <= scan_flag(b, pos, end),
        pos <= end ==> scan_flag(b, pos, end) <= end,
        pos > end ==> scan_flag(b, pos, end) == pos,
        scan_flag(b, pos, end) < end ==> b[scan_flag(b, pos, end)] == PACKET_BEGIN_FLAG,
    decreases end - pos,
{
    if pos < end && b[pos] != PACKET_BEGIN_FLAG {
        lemma_scan_flag_bounds(b, pos + 1, end);
    }
}

/// Each byte of the encoding of `m`, by position.
pub proof fn lemma_packet_bytes_index(m: PacketModel)
    ensures
        packet_bytes(m).len() == 18 + m.body.len(),
        packet_bytes(m)[0] == PACKET_BEGIN_FLAG,
        forall|j: int| 0 <= j < 4 ==> #[trigger] packet_bytes(m)[1 + j] == le_bytes(m.cmd)[j],
        forall|j: int| 0 <= j < 4 ==> #[trigger] packet_bytes(m)[5 + j] == le_bytes(m.seq)[j],
        packet_bytes(m)[9] == m.t,
        forall|j: int| 0 <= j < 4 ==> #[trigger] packet_bytes(m)[10 + j] == le_bytes(m.ec)[j],
        forall|j: int|
            0 <= j < 4 ==> #[trigger] packet_bytes(m)[14 + j] == le_bytes(m.body.len() as u32)[j],
        forall|j: int| 0 <= j < m.body.len() ==> #[trigger] packet_bytes(m)[18 + j] == m.body[j],
{
}

/// Reading a buffer at position `k` where the encoding of `m` starts, when the body of
/// `m` is not longer than `MAX_BODY_LENGTH`, gives `m` and moves just past it.
pub proof fn lemma_parse_packet_at(b: Seq<u8>, k: int, m: PacketModel)
    requires
        0 <= k,
        m.body.len() <= MAX_BODY_LENGTH,
        k + packet_bytes(m).len() <= b.len(),
        b.subrange(k, k + packet_bytes(m).len()) == packet_bytes(m),
    ensures
        parse_packet(b, k) == (Some(m), k + packet_bytes(m).len()),
{
    let pb = packet_bytes(m);
    lemma_packet_bytes_index(m);
    assert forall|i: int| 0 <= i < pb.len() implies b[k + i] == pb[i] by {
        assert(b.subrange(k, k + pb.len())[i] == b[k + i]);
    }
    let end = b.len() - 1;
    assert(b[k + 0] == pb[0]);
    assert(scan_flag(b, k, end) == k);
    assert forall|j: int| 0 <= j < 4 implies #[trigger] b[k + 1 + j] == le_bytes(m.cmd)[j] by {
        assert(b[k + (1 + j)] == pb[1 + j]);
    }
    assert forall|j: int| 0 <= j < 4 implies #[trigger] b[k + 5 + j] == le_bytes(m.seq)[j] by {
        assert(b[k + (5 + j)] == pb[5 + j]);
    }
    assert forall|j: int| 0 <= j < 4 implies #[trigger] b[k + 10 + j] == le_bytes(m.ec)[j] by {
        assert(b[k + (10 + j)] == pb[10 + j]);
    }
    assert forall|j: int| 0 <= j < 4 implies #[trigger] b[k + 14 + j] == le_bytes(m.body.len() as u32)[j] by {
        assert(b[k + (14 + j)] == pb[14 + j]);
    }
    lemma_le_u32_at(b, k + 1, m.cmd);
    lemma_le_u32_at(b, k + 5, m.seq);
    lemma_le_u32_at(b, k + 10, m.ec);
    lemma_le_u32_at(b, k + 14, m.body.len() as u32);
    assert(b[k + 9] == pb[9]);
    let n = m.body.len() as int;
    assert(b.subrange(k + 18, k + 18 + n) =~= m.body) by {
        assert forall|j: int| 0 <= j < n implies b.subrange(k + 18, k + 18 + n)[j] == m.body[j] by {
            assert(b[k + (18 + j)] == pb[18 + j]);
        }
    }
    assert(packet_at(b, k, n) == m);
}

/// A packet whose body is at most `MAX_BODY_LENGTH` bytes long is read back from its
/// own encoding, which is consumed whole.
pub proof fn law_read_after_write(m: PacketModel)
    requires
        m.body.len() <= MAX_BODY_LENGTH,
    ensures
        parse_packet(packet_bytes(m), 0) == (Some(m), packet_bytes(m).len() as int),
{
    let pb = packet_bytes(m);
    assert(pb.subrange(0, pb.len() as int) =~= pb);
    lemma_parse_packet_at(pb, 0, m);
}

/// Every packet that a read returns was written in full just before the new read
/// position: the bytes it passed over last are exactly the packet's encoding.
pub proof fn law_read_was_written(b: Seq<u8>, start: int)
    requires
        0 <= start,
    ensures
        parse_packet(b, start).0 matches Some(m) ==> {
            let p = parse_packet(b, start).1;
            let l = packet_bytes(m).len() as int;
            &&& 0 <= p - l
            &&& p <= b.len()
            &&& b.subrange(p - l, p) == packet_bytes(m)
        },
    decreases b.len() - start,
{
    if b.len() > 0 {
        let end = b.len() - 1;
        let pos = scan_flag(b, start, end);
        lemma_scan_flag_bounds(b, start, end);
        if pos == end || b.len() - pos < HEADER_LENGTH {
        } else {
            let body_len = le_u32(b, pos + 14) as int;
            if body_len > MAX_BODY_LENGTH {
                law_read_was_written(b, pos + 18);
            } else if b.len() - pos < HEADER_LENGTH + body_len {
            } else {
                let m = packet_at(b, pos, body_len);
                let pb = packet_bytes(m);
                lemma_packet_bytes_index(m);
                lemma_le_bytes_of_le_u32(b, pos + 1);
                lemma_le_bytes_of_le_u32(b, pos + 5);
                lemma_le_bytes_of_le_u32(b, pos + 10);
                lemma_le_bytes_of_le_u32(b, pos + 14);
                assert(m.body.len() == body_len);
                assert(m.body.len() as u32 == le_u32(b, pos + 14));
                assert forall|i: int| 0 <= i < pb.len() implies b.subrange(
                    pos,
                    pos + pb.len(),
                )[i] == pb[i] by {
                    if 1 <= i < 5 {
                        assert(pb[1 + (i - 1)] == le_bytes(m.cmd)[i - 1]);
                        assert(b.subrange(pos + 1, pos + 5)[i - 1] == b[pos + i]);
                    } else if 5 <= i < 9 {
                        assert(pb[5 + (i - 5)] == le_bytes(m.seq)[i - 5]);
                        assert(b.subrange(pos + 5, pos + 9)[i - 5] == b[pos + i]);
                    } else if 10 <= i < 14 {
                        assert(pb[10 + (i - 10)] == le_bytes(m.ec)[i - 10]);
                        assert(b.subrange(pos + 10, pos + 14)[i - 10] == b[pos + i]);
                    } else if 14 <= i < 18 {
                        assert(pb[14 + (i - 14)] == le_bytes(m.body.len() as u32)[i - 14]);
                        assert(b.subrange(pos + 14, pos + 18)[i - 14] == b[pos + i]);
                    } else if 18 <= i {
                        assert(pb[18 + (i - 18)] == m.body[i - 18]);
                    }
                }
                assert(b.subrange(pos, pos + pb.len()) =~= pb);
            }
        }
    }
}

/// The flag scan passes over bytes that are not the begin flag.
pub proof fn lemma_scan_flag_skip(b: Seq<u8>, i: int, j: int, end: int)
    requires
        i <= j <= end,
        forall|x: int| i <= x < j ==> b[x] != PACKET_BEGIN_FLAG,
    ensures
        scan_flag(b, i, end) == scan_flag(b, j, end),
    decreases j - i,
{
    if i < j {
        lemma_scan_flag_skip(b, i + 1, j, end);
    }
}

/// Bytes before a packet that are not the begin flag are skipped: the packet after
/// them is read, when its body is at most `MAX_BODY_LENGTH` bytes long.
pub proof fn law_skips_noise(g: Seq<u8>, m: PacketModel)
    requires
        forall|x: int| 0 <= x < g.len() ==> g[x] != PACKET_BEGIN_FLAG,
        m.body.len() <= MAX_BODY_LENGTH,
    ensures
        parse_packet(g + packet_bytes(m), 0) == (Some(m), (g + packet_bytes(m)).len() as int),
{
    let pb = packet_bytes(m);
    let b = g + pb;
    let k = g.len() as int;
    let end = b.len() - 1;
    lemma_packet_bytes_index(m);
    assert forall|x: int| 0 <= x < k implies b[x] != PACKET_BEGIN_FLAG by {
        assert(b[x] == g[x]);
    }
    lemma_scan_flag_skip(b, 0, k, end);
    assert(parse_from(b, 0) == parse_from(b, k));
    assert(b.subrange(k, k + pb.len()) =~= pb);
    lemma_parse_packet_at(b, k, m);
}

/// The number a generator that is about to hand out `s` hands out after `k` more.
pub open spec fn sequence_after(s: u32, k: nat) -> u32
    decreases k,
{
    if k == 0 {
        s
    } else {
        next_sequence(sequence_after(s, (k - 1) as nat))
    }
}

/// After `k` numbers a generator is `k` ahead, modulo 2^32.
pub proof fn lemma_sequence_after(s: u32, k: nat)
    ensures
        sequence_after(s, k) as int == (s as int + k) % 0x1_0000_0000,
    decreases k,
{
    if k > 0 {
        lemma_sequence_after(s, (k - 1) as nat);
        let prev = sequence_after(s, (k - 1) as nat) as int;
        assert(((s as int + k - 1) % 0x1_0000_0000 + 1) % 0x1_0000_0000 == (s as int + k)
            % 0x1_0000_0000) by (nonlinear_arith);
    }
}

/// A generator does not hand out a number again before it has handed out 2^32 of them.
pub proof fn law_sequence_numbers_distinct(s: u32, k: nat)
    requires
        0 < k < 0x1_0000_0000,
    ensures
        sequence_after(s, k) != s,
{
    lemma_sequence_after(s, k);
    assert((s as int + k) % 0x1_0000_0000 != s as int) by (nonlinear_arith)
        requires
            0 < k < 0x1_0000_0000,
            0 <= s < 0x1_0000_0000,
    ;
}

impl Packet {
    /// A request with command `cmd`, the generator's next sequence number, error
    /// code 0 and body `body`.
    pub fn new_req(cmd: u32, body: Bytes, sequence: &mut SequenceGenerator) -> (p: Packet)
        ensures
            p@ == (PacketModel {
                cmd,
                seq: old(sequence).upcoming(),
                t: REQ_TYPE,
                ec: 0,
                body: bytes_view(body),
            }),
            final(sequence).upcoming() == next_sequence(old(sequence).upcoming()),
    {
        let seq = sequence.next();
        Packet { cmd, seq, t: REQ_TYPE, ec: 0, body }
    }

    /// A response with the given command, sequence number, error code and body.
    pub fn new_rsp(cmd: u32, seq: u32, ec: u32, body: Bytes) -> (p: Packet)
        ensures
            p@ == (PacketModel { cmd, seq, t: RSP_TYPE, ec, body: bytes_view(body) }),
    {
        Packet { cmd, seq, t: RSP_TYPE, ec, body }
    }

    /// A push with command `cmd`, the generator's next sequence number, error code 0
    /// and body `body`.
    pub fn new_push(cmd: u32, body: Bytes, sequence: &mut SequenceGenerator) -> (p: Packet)
        ensures
            p@ == (PacketModel {
                cmd,
                seq: old(sequence).upcoming(),
                t: PUSH_TYPE,
                ec: 0,
                body: bytes_view(body),
            }),
            final(sequence).upcoming() == next_sequence(old(sequence).upcoming()),
    {
        let seq = sequence.next();
        Packet { cmd, seq, t: PUSH_TYPE, ec: 0, body }
    }

    /// Reads the next packet of `buf` from `*position` on, and moves `*position` as
    /// `parse_packet` says.
    pub fn from_bytes(buf: &[u8], position: &mut usize) -> (r: Option<Packet>)
        ensures
            ({
                let (m, p) = parse_packet(buf@, *old(position) as int);
                &&& *final(position) as int == p
                &&& match r {
                    Some(pk) => m == Some(pk@),
                    None => m is None,
                }
            }),
    {
        let len = buf.len();
        if len == 0 {
            return None;
        }
        let end = len - 1;
        loop
            invariant
                len == buf@.len(),
                len > 0,
                end == len - 1,
                parse_from(buf@, *position as int) == parse_packet(buf@, *old(position) as int),
            decreases len - *position,
        {
            let start = *position;
            let mut pos = start;
            while pos < end && buf[pos] != PACKET_BEGIN_FLAG
                invariant
                    start <= pos,
                    len == buf@.len(),
                    end == len - 1,
                    scan_flag(buf@, pos as int, end as int) == scan_flag(
                        buf@,
                        start as int,
                        end as int,
                    ),
                decreases end - pos,
            {
                pos = pos + 1;
            }
            proof {
                lemma_scan_flag_bounds(buf@, start as int, end as int);
            }
            *position = pos;
            if pos == end {
                return None;
            }
            let remaining = if pos <= len {
                len - pos
            } else {
                0
            };
            if remaining < HEADER_LENGTH {
                return None;
            }
            let cmd = read_u32_le(buf, pos + 1);
            let seq = read_u32_le(buf, pos + 5);
            let t = buf[pos + 9];
            let ec = read_u32_le(buf, pos + 10);
            let body_len = read_u32_le(buf, pos + 14);
            *position = pos + HEADER_LENGTH;
            if body_len as usize > MAX_BODY_LENGTH {
                continue ;
            }
            let packet_len = HEADER_LENGTH + body_len as usize;
            if remaining < packet_len {
                return None;
            }
            let body_start = pos + HEADER_LENGTH;
            let body_end = body_start + body_len as usize;
            let body = bytes_copy_from_slice(&buf[body_start..body_end]);
            *position = body_end;
            return Some(Packet { cmd, seq, t, ec, body });
        }
    }

    /// The packet's bytes on the wire, in a little-endian `ByteBuffer`.
    pub fn to_bytes(&self) -> (r: ByteBuffer)
        ensures
            byte_buffer_data(r) == packet_bytes(self@),
            byte_buffer_little_endian(r),
    {
        let mut buffer = byte_buffer_new();
        byte_buffer_set_little_endian(&mut buffer);
        byte_buffer_write_u8(&mut buffer, PACKET_BEGIN_FLAG);
        byte_buffer_write_u32(&mut buffer, self.cmd);
        byte_buffer_write_u32(&mut buffer, self.seq);
        byte_buffer_write_u8(&mut buffer, self.t);
        byte_buffer_write_u32(&mut buffer, self.ec);
        let body_len = bytes_len(&self.body);
        byte_buffer_write_u32(&mut buffer, body_len as u32);
        byte_buffer_write_bytes(&mut buffer, bytes_as_slice(&self.body));
        proof {
            assert(byte_buffer_data(buffer) =~= packet_bytes(self@));
        }
        buffer
    }

    /// The command number.
    pub fn cmd(&self) -> (r: u32)
        ensures
            r == self@.cmd,
    {
        self.cmd
    }

    /// The sequence number.
    pub fn seq(&self) -> (r: u32)
        ensures
            r == self@.seq,
    {
        self.seq
    }

    /// The type byte.
    pub fn packet_type(&self) -> (r: u8)
        ensures
            r == self@.t,
    {
        self.t
    }

    /// Whether the packet is a request.
    pub fn is_req(&self) -> (r: bool)
        ensures
            r == (self@.t == REQ_TYPE),
    {
        self.t == REQ_TYPE
    }

    /// Whether the packet is a response.
    pub fn is_rsp(&self) -> (r: bool)
        ensures
            r == (self@.t == RSP_TYPE),
    {
        self.t == RSP_TYPE
    }

    /// Whether the packet is a push.
    pub fn is_push(&self) -> (r: bool)
        ensures
            r == (self@.t == PUSH_TYPE),
    {
        self.t == PUSH_TYPE
    }

    /// The error code.
    pub fn ec(&self) -> (r: u32)
        ensures
            r == self@.ec,
    {
        self.ec
    }

    /// The body bytes.
    pub fn body(&self) -> (r: &[u8])
        ensures
            r@ == self@.body,
    {
        bytes_as_slice(&self.body)
    }
}

} // verus!
