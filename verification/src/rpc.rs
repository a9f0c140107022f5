//! The response an RPC server builds for a request, from what became of it.

use vstd::prelude::*;
use bytes::Bytes;
use crate::buffers::{bytes_new, bytes_view};
use crate::channel::packet_id;
use crate::packet::{Packet, PacketModel, RSP_TYPE};
use crate::server::heartbeat_answer;

verus! {

/// Error code of the response to a request whose body could not be decoded.
pub const PARSE_REQ_ERROR: u32 = 1;

/// What became of a request handed to an RPC callback.
pub enum RpcOutcome {
    /// Its body did not decode as the request message.
    Undecodable,
    /// The callback failed with this error code.
    Failed(u32),
    /// The callback answered; this is the encoded answer.
    Succeeded(Bytes),
}

/// The response to the request with sequence number `seq` for command `cmd`, given
/// what became of it.
pub open spec fn rpc_response_model(cmd: u32, seq: u32, outcome: RpcOutcome) -> PacketModel {
    match outcome {
        RpcOutcome::Undecodable => PacketModel {
            cmd,
            seq,
            t: RSP_TYPE,
            ec: PARSE_REQ_ERROR,
            body: Seq::empty(),
        },
        RpcOutcome::Failed(ec) => PacketModel { cmd, seq, t: RSP_TYPE, ec, body: Seq::empty() },
        RpcOutcome::Succeeded(b) => PacketModel {
            cmd,
            seq,
            t: RSP_TYPE,
            ec: 0,
            body: bytes_view(b),
        },
    }
}

/// Builds the response to the request with sequence number `seq` for command `cmd`:
/// the encoded answer with error code 0, or an empty body with the callback's error
/// code, or an empty body with `PARSE_REQ_ERROR`.
pub fn rpc_response(cmd: u32, seq: u32, outcome: RpcOutcome) -> (p: Packet)
    ensures
        p@ == rpc_response_model(cmd, seq, outcome),
{
    match outcome {
        RpcOutcome::Undecodable => {
            let body = bytes_new();
            proof {
                assert(bytes_view(body) =~= Seq::<u8>::empty());
            }
            Packet::new_rsp(cmd, seq, PARSE_REQ_ERROR, body)
        },
        RpcOutcome::Failed(ec) => {
            let body = bytes_new();
            proof {
                assert(bytes_view(body) =~= Seq::<u8>::empty());
            }
            Packet::new_rsp(cmd, seq, ec, body)
        },
        RpcOutcome::Succeeded(body) => Packet::new_rsp(cmd, seq, 0, body),
    }
}

/// A callback that succeeded is reported as success, whatever its answer, even an
/// empty one: error code 0 and the answer as the body. A failure carries the
/// callback's code with an empty body, and an undecodable request carries
/// `PARSE_REQ_ERROR` with an empty body, so a success is never reported as an
/// undecodable request.
pub proof fn law_rpc_outcome_reported(cmd: u32, seq: u32, answer: Bytes, code: u32)
    ensures
        rpc_response_model(cmd, seq, RpcOutcome::Succeeded(answer)).ec == 0,
        rpc_response_model(cmd, seq, RpcOutcome::Succeeded(answer)).body == bytes_view(answer),
        rpc_response_model(cmd, seq, RpcOutcome::Failed(code)).ec == code,
        rpc_response_model(cmd, seq, RpcOutcome::Failed(code)).body.len() == 0,
        rpc_response_model(cmd, seq, RpcOutcome::Undecodable).ec == 1,
        rpc_response_model(cmd, seq, RpcOutcome::Undecodable).body.len() == 0,
        rpc_response_model(cmd, seq, RpcOutcome::Succeeded(answer)).ec != rpc_response_model(
            cmd,
            seq,
            RpcOutcome::Undecodable,
        ).ec,
        rpc_response_model(cmd, seq, RpcOutcome::Succeeded(answer)).t == RSP_TYPE,
        rpc_response_model(cmd, seq, RpcOutcome::Succeeded(answer)).cmd == cmd,
        rpc_response_model(cmd, seq, RpcOutcome::Succeeded(answer)).seq == seq,
{
}

/// The response a server sends back, to an RPC request or to a heartbeat, is a
/// response filed under the request's own key, so it reaches the waiter that the
/// requesting channel registered under that key.
pub proof fn law_response_finds_request(req: PacketModel, outcome: RpcOutcome)
    ensures
        rpc_response_model(req.cmd, req.seq, outcome).t == RSP_TYPE,
        packet_id(
            rpc_response_model(req.cmd, req.seq, outcome).cmd,
            rpc_response_model(req.cmd, req.seq, outcome).seq,
        ) == packet_id(req.cmd, req.seq),
        heartbeat_answer(req).t == RSP_TYPE,
        packet_id(heartbeat_answer(req).cmd, heartbeat_answer(req).seq) == packet_id(
            req.cmd,
            req.seq,
        ),
{
}

} // verus!
