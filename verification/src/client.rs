//! What a stream client decides about the events of its channel, and the heartbeat
//! it sends.

use vstd::prelude::*;
use crate::buffers::{bytes_new, bytes_view};
use crate::channel::Event;
use crate::packet::{
    next_sequence, Packet, PacketModel, SequenceGenerator, HEART_BEAT_CMD, REQ_TYPE,
};

verus! {

/// What a client does about an event of its channel.
pub enum ClientAction {
    /// Drop the channel, tell the closed-channel callback, and stop observing.
    ChannelClosed(u64),
    /// Hand the push to the callback registered for its command.
    DeliverPush(u64, Packet),
    /// Ignore a request from the server, whose command is given.
    IgnoreRequest(u32),
}

/// Decides what to do about `event`: a closed channel ends the observation; a push
/// goes to its callback; a request is ignored.
pub fn observe_channel_event(event: Event) -> (a: ClientAction)
    ensures
        event matches Event::Closed(c) ==> a == ClientAction::ChannelClosed(c),
        event matches Event::GotPush(c, p) ==> a matches ClientAction::DeliverPush(c2, q) && c2
            == c && q@ == p@,
        event matches Event::GotRequest(c, p) ==> a == ClientAction::IgnoreRequest(p@.cmd),
{
    match event {
        Event::Closed(channel_id) => ClientAction::ChannelClosed(channel_id),
        Event::GotPush(channel_id, packet) => ClientAction::DeliverPush(channel_id, packet),
        Event::GotRequest(_, packet) => ClientAction::IgnoreRequest(packet.cmd()),
    }
}

/// The heartbeat a client sends: a request with the heartbeat command, the next
/// sequence number and an empty body.
pub fn heartbeat_request(sequence: &mut SequenceGenerator) -> (p: Packet)
    ensures
        p@ == (PacketModel {
            cmd: HEART_BEAT_CMD,
            seq: old(sequence).upcoming(),
            t: REQ_TYPE,
            ec: 0,
            body: Seq::empty(),
        }),
        final(sequence).upcoming() == next_sequence(old(sequence).upcoming()),
{
    let body = bytes_new();
    proof {
        assert(bytes_view(body) =~= Seq::<u8>::empty());
    }
    Packet::new_req(HEART_BEAT_CMD, body, sequence)
}

} // verus!
