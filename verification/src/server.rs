//! What a stream server decides about the events of its channels and about the
//! pushes it is asked to send.

use vstd::prelude::*;
use crate::buffers::{bytes_new, bytes_view};
use crate::channel::Event;
use crate::packet::{Packet, PacketModel, HEART_BEAT_CMD, PUSH_TYPE, RSP_TYPE};

verus! {

/// Why a server refuses to send a push.
#[derive(Debug, PartialEq, Eq, Structural, Clone, Copy)]
pub enum ServerError {
    /// The packet is not a push.
    InvalidPacket,
    /// No channel has the given id.
    ChannelNotReady,
}

/// What a server does about an event of one of its channels.
pub enum ServerAction {
    /// Forget the channel and tell the closed-channel callback.
    CloseChannel(u64),
    /// Send this response to a heartbeat on the channel.
    AnswerHeartbeat(u64, Packet),
    /// Hand the request to the callback registered for its command.
    HandleRequest(u64, Packet),
    /// Ignore a push from a client.
    IgnorePush,
}

/// Whether a push of packet `m` to a channel that the server knows (or not) is sent.
pub open spec fn push_check(m: PacketModel, channel_known: bool) -> Result<(), ServerError> {
    if m.t != PUSH_TYPE {
        Err(ServerError::InvalidPacket)
    } else if !channel_known {
        Err(ServerError::ChannelNotReady)
    } else {
        Ok(())
    }
}

/// The checks a server makes before it sends `packet` as a push: it must be a push,
/// then its channel must be known.
pub fn check_push(packet: &Packet, channel_known: bool) -> (r: Result<(), ServerError>)
    ensures
        r == push_check(packet@, channel_known),
{
    if !packet.is_push() {
        return Err(ServerError::InvalidPacket);
    }
    if !channel_known {
        return Err(ServerError::ChannelNotReady);
    }
    Ok(())
}

/// The response a server sends to the heartbeat request `req`.
pub open spec fn heartbeat_answer(req: PacketModel) -> PacketModel {
    PacketModel { cmd: req.cmd, seq: req.seq, t: RSP_TYPE, ec: 0, body: Seq::empty() }
}

/// Decides what to do about `event`: a closed channel is forgotten; a request with
/// the heartbeat command is answered at once with an empty response of the same
/// command and sequence number and error code 0; any other request goes to its
/// callback; a push is ignored.
pub fn observe_channel_event(event: Event) -> (a: ServerAction)
    ensures
        event matches Event::Closed(c) ==> a == ServerAction::CloseChannel(c),
        event matches Event::GotRequest(c, p) ==> if p@.cmd == HEART_BEAT_CMD {
            a matches ServerAction::AnswerHeartbeat(c2, r) && c2 == c && r@ == heartbeat_answer(
                p@,
            )
        } else {
            a matches ServerAction::HandleRequest(c2, r) && c2 == c && r@ == p@
        },
        event is GotPush ==> a is IgnorePush,
{
    match event {
        Event::Closed(channel_id) => ServerAction::CloseChannel(channel_id),
        Event::GotRequest(channel_id, packet) => {
            if packet.cmd() == HEART_BEAT_CMD {
                let body = bytes_new();
                let rsp = Packet::new_rsp(packet.cmd(), packet.seq(), 0, body);
                proof {
                    assert(bytes_view(body) =~= Seq::<u8>::empty());
                }
                ServerAction::AnswerHeartbeat(channel_id, rsp)
            } else {
                ServerAction::HandleRequest(channel_id, packet)
            }
        },
        Event::GotPush(_, _) => ServerAction::IgnorePush,
    }
}

/// A response is never sent as a push: every packet built as a response is refused
/// as an invalid packet, whatever channel it is meant for.
pub proof fn law_response_never_pushed(m: PacketModel, channel_known: bool)
    requires
        m.t == RSP_TYPE,
    ensures
        push_check(m, channel_known) == Err::<(), ServerError>(ServerError::InvalidPacket),
{
}

/// Only pushes to known channels pass: any packet that is not a push is refused as
/// an invalid packet whatever the channel, and a push is refused only when its
/// channel is unknown.
pub proof fn law_only_pushes_pass(m: PacketModel, channel_known: bool)
    ensures
        push_check(m, channel_known) is Ok <==> (m.t == PUSH_TYPE && channel_known),
        m.t != PUSH_TYPE ==> push_check(m, channel_known) == Err::<(), ServerError>(
            ServerError::InvalidPacket,
        ),
        m.t == PUSH_TYPE && !channel_known ==> push_check(m, channel_known) == Err::<
            (),
            ServerError,
        >(ServerError::ChannelNotReady),
{
}

/// A heartbeat is answered with success and nothing else: the answer is a response
/// with the request's command and sequence number, error code 0 and an empty body,
/// so the answers to two heartbeats differ only in their sequence numbers.
pub proof fn law_heartbeat_answer_is_empty_success(req: PacketModel, other: PacketModel)
    requires
        req.cmd == HEART_BEAT_CMD,
        other.cmd == HEART_BEAT_CMD,
    ensures
        heartbeat_answer(req).ec == 0,
        heartbeat_answer(req).body.len() == 0,
        heartbeat_answer(req).t == RSP_TYPE,
        heartbeat_answer(req).cmd == req.cmd,
        heartbeat_answer(req).seq == req.seq,
        req.seq == other.seq ==> heartbeat_answer(req) == heartbeat_answer(other),
{
}

} // verus!
