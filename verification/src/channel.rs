//! What a channel decides: how it cuts its receive buffer into packets, how it
//! names a request so that the response finds its waiter, where each received
//! packet goes, and when a silent connection counts as dead.

use vstd::prelude::*;
use bytes::BytesMut;
use std::collections::HashMap;
use crate::buffers::{bytes_mut_advance, bytes_mut_as_slice, bytes_mut_view};
use crate::packet::{
    lemma_parse_packet_at, lemma_scan_flag_bounds, packet_bytes, parse_from, parse_packet,
    scan_flag, Packet, PacketModel, HEADER_LENGTH, MAX_BODY_LENGTH, PACKET_BEGIN_FLAG, REQ_TYPE,
    RSP_TYPE,
};

verus! {

broadcast use vstd::std_specs::hash::group_hash_axioms;

/// Capacity with which a channel's receive buffer starts.
pub const RECV_BUF_SIZE: usize = 131072;

/// A connection that has received nothing for longer than this many milliseconds
/// is closed.
pub const ACTIVE_CONNECTION_LIFETIME_MILLIS: u128 = 6000;

/// Milliseconds between two checks of a connection's liveness.
pub const ACTIVE_CONNECTION_LIFETIME_CHECK_INTERVAL_MILLIS: u64 = 1000;

/// What happens on a channel, as its owner sees it.
pub enum Event {
    Closed(u64),
    GotRequest(u64, Packet),
    GotPush(u64, Packet),
}

/// Why a channel refuses to send a request and wait for its response.
#[derive(Debug, PartialEq, Eq, Structural, Clone, Copy)]
pub enum ChannelError {
    /// The packet to send is not a request.
    NotRequest,
}

/// A read never moves the position backwards; a read from within the buffer stays
/// within it; a read that yields a packet moves the position forward, and that
/// packet's body is at most `MAX_BODY_LENGTH` bytes long.
pub proof fn law_read_progress(b: Seq<u8>, start: int)
    requires
        0 <= start,
    ensures
        parse_packet(b, start).1 >= start,
        start <= b.len() ==> parse_packet(b, start).1 <= b.len(),
        parse_packet(b, start).0 is Some ==> start < parse_packet(b, start).1 <= b.len(),
        parse_packet(b, start).0 matches Some(m) ==> m.body.len() <= MAX_BODY_LENGTH,
    decreases b.len() - start,
{
    if b.len() > 0 {
        let end = b.len() - 1;
        let pos = scan_flag(b, start, end);
        lemma_scan_flag_bounds(b, start, end);
        if pos == end || b.len() - pos < HEADER_LENGTH {
        } else {
            let body_len = crate::wire::le_u32(b, pos + 14) as int;
            if body_len > MAX_BODY_LENGTH {
                law_read_progress(b, pos + 18);
            }
        }
    }
}

/// Reading packets one after another from `pos` until a read yields none: the
/// packets read, and the position that last read leaves.
pub open spec fn parse_all(b: Seq<u8>, pos: int) -> (Seq<PacketModel>, int)
    decreases b.len() - pos,
{
    if pos < 0 {
        (seq![], pos)
    } else {
        let (r, p) = parse_packet(b, pos);
        match r {
            Some(m) => {
                proof {
                    law_read_progress(b, pos);
                }
                let (rest, q) = parse_all(b, p);
                (seq![m] + rest, q)
            },
            None => (seq![], p),
        }
    }
}

/// The bytes of the packets `ms` written one after another.
pub open spec fn stream_bytes(ms: Seq<PacketModel>) -> Seq<u8>
    decreases ms.len(),
{
    if ms.len() == 0 {
        seq![]
    } else {
        packet_bytes(ms[0]) + stream_bytes(ms.skip(1))
    }
}

/// A piece that may follow whole packets in a receive buffer and that a read leaves
/// alone: nothing, or fewer bytes than a header that begin with the begin flag.
pub open spec fn kept_tail(q: Seq<u8>) -> bool {
    q.len() == 0 || (q.len() < HEADER_LENGTH && q[0] == PACKET_BEGIN_FLAG)
}

/// Reading from `k` a buffer whose bytes from `k` on are the encodings of the packets
/// `ms`, each with a body of at most `MAX_BODY_LENGTH`, followed by a kept tail `q`,
/// gives `ms` back and ends where `q` starts.
pub proof fn lemma_parse_all_stream(b: Seq<u8>, k: int, ms: Seq<PacketModel>, q: Seq<u8>)
    requires
        0 <= k <= b.len(),
        b.subrange(k, b.len() as int) == stream_bytes(ms) + q,
        kept_tail(q),
        forall|i: int| 0 <= i < ms.len() ==> (#[trigger] ms[i]).body.len() <= MAX_BODY_LENGTH,
    ensures
        parse_all(b, k) == (ms, b.len() - q.len()),
    decreases ms.len(),
{
    if ms.len() == 0 {
        assert(stream_bytes(ms) + q =~= q);
        assert(b.subrange(k, b.len() as int).len() == q.len());
        if b.len() > 0 {
            let end = b.len() - 1;
            if q.len() == 0 {
                assert(scan_flag(b, k, end) == k);
            } else {
                assert(b[k] == b.subrange(k, b.len() as int)[0]);
                assert(scan_flag(b, k, end) == k);
            }
        }
        assert(parse_packet(b, k) == (None::<PacketModel>, k));
        assert(parse_all(b, k).0 =~= ms);
    } else {
        let m = ms[0];
        let pb = packet_bytes(m);
        let l = pb.len() as int;
        let rest = stream_bytes(ms.skip(1)) + q;
        assert(stream_bytes(ms) + q =~= pb + rest);
        assert(b.subrange(k, k + l) =~= pb) by {
            assert forall|i: int| 0 <= i < l implies b.subrange(k, k + l)[i] == pb[i] by {
                assert(b.subrange(k, b.len() as int)[i] == (pb + rest)[i]);
            }
        }
        lemma_parse_packet_at(b, k, m);
        assert(b.subrange(k + l, b.len() as int) =~= rest) by {
            assert forall|i: int| 0 <= i < rest.len() implies b.subrange(
                k + l,
                b.len() as int,
            )[i] == rest[i] by {
                assert(b.subrange(k, b.len() as int)[l + i] == (pb + rest)[l + i]);
            }
        }
        assert forall|i: int| 0 <= i < ms.skip(1).len() implies (
        #[trigger] ms.skip(1)[i]).body.len() <= MAX_BODY_LENGTH by {
            assert(ms.skip(1)[i] == ms[i + 1]);
        }
        lemma_parse_all_stream(b, k + l, ms.skip(1), q);
        assert(seq![m] + ms.skip(1) =~= ms);
    }
}

/// A buffer that holds exactly the encodings of some packets, each with a body of at
/// most `MAX_BODY_LENGTH` bytes, is read back as those packets, in order, and is
/// consumed whole.
pub proof fn law_stream_read_back(ms: Seq<PacketModel>)
    requires
        forall|i: int| 0 <= i < ms.len() ==> (#[trigger] ms[i]).body.len() <= MAX_BODY_LENGTH,
    ensures
        parse_all(stream_bytes(ms), 0) == (ms, stream_bytes(ms).len() as int),
{
    let b = stream_bytes(ms);
    assert(b.subrange(0, b.len() as int) =~= b + Seq::<u8>::empty());
    lemma_parse_all_stream(b, 0, ms, Seq::<u8>::empty());
}

/// When whole packets are followed by the first bytes of another packet, fewer than a
/// header's, the whole packets are read and those bytes stay in the buffer for the
/// next read.
pub proof fn law_partial_header_kept(ms: Seq<PacketModel>, q: Seq<u8>)
    requires
        forall|i: int| 0 <= i < ms.len() ==> (#[trigger] ms[i]).body.len() <= MAX_BODY_LENGTH,
        kept_tail(q),
    ensures
        parse_all(stream_bytes(ms) + q, 0) == (ms, stream_bytes(ms).len() as int),
        (stream_bytes(ms) + q).skip(stream_bytes(ms).len() as int) == q,
{
    let b = stream_bytes(ms) + q;
    assert(b.subrange(0, b.len() as int) =~= stream_bytes(ms) + q);
    lemma_parse_all_stream(b, 0, ms, q);
    assert(b.skip(stream_bytes(ms).len() as int) =~= q);
}

/// Reading from `k` a buffer whose bytes from `k` on are the encodings of the packets
/// `ms`, each with a body of at most `MAX_BODY_LENGTH`, followed by any bytes at all,
/// gives at least `ms`, first and in order.
pub proof fn lemma_parse_all_prefix(b: Seq<u8>, k: int, ms: Seq<PacketModel>, t: Seq<u8>)
    requires
        0 <= k <= b.len(),
        b.subrange(k, b.len() as int) == stream_bytes(ms) + t,
        forall|i: int| 0 <= i < ms.len() ==> (#[trigger] ms[i]).body.len() <= MAX_BODY_LENGTH,
    ensures
        parse_all(b, k).0.len() >= ms.len(),
        parse_all(b, k).0.take(ms.len() as int) == ms,
    decreases ms.len(),
{
    if ms.len() == 0 {
        assert(parse_all(b, k).0.take(0) =~= ms);
    } else {
        let m = ms[0];
        let pb = packet_bytes(m);
        let l = pb.len() as int;
        let rest = stream_bytes(ms.skip(1)) + t;
        assert(stream_bytes(ms) + t =~= pb + rest);
        assert(b.subrange(k, k + l) =~= pb) by {
            assert forall|i: int| 0 <= i < l implies b.subrange(k, k + l)[i] == pb[i] by {
                assert(b.subrange(k, b.len() as int)[i] == (pb + rest)[i]);
            }
        }
        lemma_parse_packet_at(b, k, m);
        assert(b.subrange(k + l, b.len() as int) =~= rest) by {
            assert forall|i: int| 0 <= i < rest.len() implies b.subrange(
                k + l,
                b.len() as int,
            )[i] == rest[i] by {
                assert(b.subrange(k, b.len() as int)[l + i] == (pb + rest)[l + i]);
            }
        }
        assert forall|i: int| 0 <= i < ms.skip(1).len() implies (
        #[trigger] ms.skip(1)[i]).body.len() <= MAX_BODY_LENGTH by {
            assert(ms.skip(1)[i] == ms[i + 1]);
        }
        lemma_parse_all_prefix(b, k + l, ms.skip(1), t);
        let tail = parse_all(b, k + l).0;
        assert(parse_all(b, k).0 == seq![m] + tail);
        assert((seq![m] + tail).take(ms.len() as int) =~= seq![m] + tail.take(
            ms.skip(1).len() as int,
        ));
        assert(seq![m] + ms.skip(1) =~= ms);
    }
}

/// Whatever bytes follow whole packets in a receive buffer, they never take those
/// packets away: the packets read start with the whole packets, in order.
pub proof fn law_whole_packets_survive_any_tail(ms: Seq<PacketModel>, t: Seq<u8>)
    requires
        forall|i: int| 0 <= i < ms.len() ==> (#[trigger] ms[i]).body.len() <= MAX_BODY_LENGTH,
    ensures
        parse_all(stream_bytes(ms) + t, 0).0.len() >= ms.len(),
        forall|i: int|
            0 <= i < ms.len() ==> #[trigger] parse_all(stream_bytes(ms) + t, 0).0[i] == ms[i],
{
    let b = stream_bytes(ms) + t;
    assert(b.subrange(0, b.len() as int) =~= stream_bytes(ms) + t);
    lemma_parse_all_prefix(b, 0, ms, t);
    assert forall|i: int| 0 <= i < ms.len() implies #[trigger] parse_all(b, 0).0[i] == ms[i] by {
        assert(parse_all(b, 0).0.take(ms.len() as int)[i] == ms[i]);
    }
}

/// Takes every complete packet off the front of `read_buffer`, in order, and drops
/// the bytes that reading them passed over.
pub fn process_packet(read_buffer: &mut BytesMut) -> (packets: Vec<Packet>)
    ensures
        packets@.map_values(|p: Packet| p@) == parse_all(bytes_mut_view(*old(read_buffer)), 0).0,
        bytes_mut_view(*final(read_buffer)) == bytes_mut_view(*old(read_buffer)).skip(
            parse_all(bytes_mut_view(*old(read_buffer)), 0).1,
        ),
{
    let ghost b = bytes_mut_view(*read_buffer);
    let buf = bytes_mut_as_slice(read_buffer);
    let mut position: usize = 0;
    let mut packets: Vec<Packet> = Vec::new();
    loop
        invariant_except_break
            buf@ == b,
            position <= b.len(),
            parse_all(b, 0).0 == packets@.map_values(|p: Packet| p@) + parse_all(
                b,
                position as int,
            ).0,
            parse_all(b, 0).1 == parse_all(b, position as int).1,
        ensures
            position <= b.len(),
            parse_all(b, 0).0 == packets@.map_values(|p: Packet| p@),
            parse_all(b, 0).1 == position,
        decreases b.len() - position,
    {
        let ghost before = position as int;
        proof {
            law_read_progress(b, before);
        }
        match Packet::from_bytes(buf, &mut position) {
            Some(pack) => {
                let ghost m = pack@;
                let ghost prev = packets@;
                packets.push(pack);
                proof {
                    assert(parse_all(b, before).0 == seq![m] + parse_all(b, position as int).0);
                    assert(packets@.map_values(|p: Packet| p@) =~= prev.map_values(|p: Packet| p@).push(
                        m,
                    ));
                    assert(prev.map_values(|p: Packet| p@) + (seq![m] + parse_all(b, position as int).0)
                        =~= prev.map_values(|p: Packet| p@).push(m) + parse_all(b, position as int).0);
                }
            },
            None => {
                proof {
                    assert(parse_all(b, before).0 =~= seq![]);
                }
                break ;
            },
        }
    }
    proof {
        assert(packets@.map_values(|p: Packet| p@) + seq![] =~= packets@.map_values(
            |p: Packet| p@,
        ));
    }
    bytes_mut_advance(read_buffer, position);
    packets
}

/// The key under which a request waits for its response: the command shifted left
/// by 31 bits, or-ed with the sequence number.
pub open spec fn packet_id(cmd: u32, seq: u32) -> u64 {
    ((cmd as u64) << 31u64) | (seq as u64)
}

/// The key of the request with command `cmd` and sequence number `seq`.
pub fn get_packet_id(cmd: u32, seq: u32) -> (id: u64)
    ensures
        id == packet_id(cmd, seq),
{
    let mut packet_id: u64 = cmd as u64;
    packet_id = packet_id << 31u64;
    packet_id = packet_id | seq as u64;
    packet_id
}

/// Two requests whose sequence numbers are below 2^31 get the same key only if they
/// have the same command and the same sequence number.
pub proof fn law_packet_id_distinct(c1: u32, s1: u32, c2: u32, s2: u32)
    requires
        s1 < 0x8000_0000u32,
        s2 < 0x8000_0000u32,
        packet_id(c1, s1) == packet_id(c2, s2),
    ensures
        c1 == c2,
        s1 == s2,
{
    assert(((c1 as u64) << 31u64) | (s1 as u64) == ((c2 as u64) << 31u64) | (s2 as u64)
        && s1 < 0x8000_0000u32 && s2 < 0x8000_0000u32 ==> c1 == c2 && s1 == s2) by (bit_vector);
}

/// The requests of a channel that wait for their responses, each under its key.
pub struct PendingResponses<S> {
    waiting: HashMap<u64, S>,
}

impl<S> PendingResponses<S> {
    /// The waiters, by key.
    pub closed spec fn waiters(&self) -> Map<u64, S> {
        self.waiting@
    }

    /// No request waits.
    pub fn new() -> (r: PendingResponses<S>)
        ensures
            r.waiters() == Map::<u64, S>::empty(),
    {
        PendingResponses { waiting: HashMap::new() }
    }

    /// Lets `waiter` wait under key `id`, in place of any earlier waiter under it.
    pub fn register(&mut self, id: u64, waiter: S)
        ensures
            final(self).waiters() == old(self).waiters().insert(id, waiter),
    {
        self.waiting.insert(id, waiter);
    }

    /// Stops waiting under key `id`.
    pub fn unregister(&mut self, id: u64)
        ensures
            final(self).waiters() == old(self).waiters().remove(id),
    {
        self.waiting.remove(&id);
    }

    /// Whether a waiter waits under key `id`.
    pub fn is_waiting(&self, id: u64) -> (r: bool)
        ensures
            r == self.waiters().contains_key(id),
    {
        self.waiting.contains_key(&id)
    }
}

/// Where a received packet goes.
pub enum Delivery<S> {
    /// A response that its waiter takes; the waiter no longer waits.
    ToWaiter(S, Packet),
    /// A response that nobody waits for; it is dropped.
    Unclaimed,
    /// A request or a push, handed to the channel's owner.
    ToOwner(Event),
}

/// Decides where the packet `pack`, received on channel `channel_id`, goes: a
/// response to the waiter registered under its key (which stops waiting), or
/// nowhere if none is; a request to the owner as `GotRequest`; any other packet to
/// the owner as `GotPush`.
pub fn deliver<S>(pending: &mut PendingResponses<S>, channel_id: u64, pack: Packet) -> (d: Delivery<
    S,
>)
    ensures
        pack@.t == RSP_TYPE ==> {
            let id = packet_id(pack@.cmd, pack@.seq);
            if old(pending).waiters().contains_key(id) {
                &&& d matches Delivery::ToWaiter(w, p) && w == old(pending).waiters()[id] && p@
                    == pack@
                &&& final(pending).waiters() == old(pending).waiters().remove(id)
            } else {
                &&& d is Unclaimed
                &&& final(pending).waiters() == old(pending).waiters()
            }
        },
        pack@.t == REQ_TYPE ==> {
            &&& d matches Delivery::ToOwner(Event::GotRequest(c, p)) && c == channel_id && p@
                == pack@
            &&& final(pending).waiters() == old(pending).waiters()
        },
        pack@.t != RSP_TYPE && pack@.t != REQ_TYPE ==> {
            &&& d matches Delivery::ToOwner(Event::GotPush(c, p)) && c == channel_id && p@
                == pack@
            &&& final(pending).waiters() == old(pending).waiters()
        },
{
    if pack.is_rsp() {
        let id = get_packet_id(pack.cmd(), pack.seq());
        match pending.waiting.remove(&id) {
            Some(w) => Delivery::ToWaiter(w, pack),
            None => Delivery::Unclaimed,
        }
    } else if pack.is_req() {
        Delivery::ToOwner(Event::GotRequest(channel_id, pack))
    } else {
        Delivery::ToOwner(Event::GotPush(channel_id, pack))
    }
}

/// The key under which to wait for the response to `packet`, or `NotRequest` if
/// `packet` is not a request: the check that a channel makes before it sends a
/// request and waits.
pub fn request_key(packet: &Packet) -> (r: Result<u64, ChannelError>)
    ensures
        packet@.t == REQ_TYPE ==> r == Ok::<u64, ChannelError>(packet_id(packet@.cmd, packet@.seq)),
        packet@.t != REQ_TYPE ==> r == Err::<u64, ChannelError>(ChannelError::NotRequest),
{
    if !packet.is_req() {
        return Err(ChannelError::NotRequest);
    }
    Ok(get_packet_id(packet.cmd(), packet.seq()))
}

/// Whether a connection that has received nothing for `elapsed_millis` milliseconds
/// counts as dead.
pub fn connection_expired(elapsed_millis: u128) -> (r: bool)
    ensures
        r == (elapsed_millis > ACTIVE_CONNECTION_LIFETIME_MILLIS),
{
    elapsed_millis > ACTIVE_CONNECTION_LIFETIME_MILLIS
}

} // verus!
