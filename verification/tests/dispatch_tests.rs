use bytes::Bytes;
use simple_network::callbacks::CallbackTable;
use simple_network::channel::{deliver, request_key, Delivery, Event, PendingResponses};
use simple_network::client::{heartbeat_request, ClientAction};
use simple_network::packet::{Packet, SequenceGenerator, HEART_BEAT_CMD};
use simple_network::rpc::{rpc_response, RpcOutcome, PARSE_REQ_ERROR};
use simple_network::server::{check_push, ServerAction, ServerError};

#[test]
fn server_answers_heartbeat_with_empty_response() {
    let mut g = SequenceGenerator::new();
    let hb = heartbeat_request(&mut g);
    assert_eq!((hb.cmd(), hb.seq()), (HEART_BEAT_CMD, 1));
    assert!(hb.is_req() && hb.body().is_empty());
    match simple_network::server::observe_channel_event(Event::GotRequest(8, hb)) {
        ServerAction::AnswerHeartbeat(c, rsp) => {
            assert_eq!(c, 8);
            assert!(rsp.is_rsp());
            assert_eq!((rsp.cmd(), rsp.seq(), rsp.ec()), (HEART_BEAT_CMD, 1, 0));
            assert!(rsp.body().is_empty());
        }
        _ => panic!("expected a heartbeat answer"),
    }
}

#[test]
fn server_hands_other_requests_to_callbacks() {
    let mut g = SequenceGenerator::new();
    let req = Packet::new_req(5, Bytes::from("q"), &mut g);
    match simple_network::server::observe_channel_event(Event::GotRequest(2, req)) {
        ServerAction::HandleRequest(c, p) => assert_eq!((c, p.cmd()), (2, 5)),
        _ => panic!("expected a request to handle"),
    }
    assert!(matches!(
        simple_network::server::observe_channel_event(Event::Closed(4)),
        ServerAction::CloseChannel(4)
    ));
    let push = Packet::new_push(1, Bytes::new(), &mut g);
    assert!(matches!(
        simple_network::server::observe_channel_event(Event::GotPush(1, push)),
        ServerAction::IgnorePush
    ));
}

#[test]
fn push_checks_type_then_channel() {
    let mut g = SequenceGenerator::new();
    let push = Packet::new_push(1, Bytes::new(), &mut g);
    assert_eq!(check_push(&push, true), Ok(()));
    assert_eq!(check_push(&push, false), Err(ServerError::ChannelNotReady));
    let rsp = Packet::new_rsp(1, 1, 0, Bytes::new());
    assert_eq!(check_push(&rsp, true), Err(ServerError::InvalidPacket));
    assert_eq!(check_push(&rsp, false), Err(ServerError::InvalidPacket));
}

#[test]
fn client_decisions() {
    let mut g = SequenceGenerator::new();
    assert!(matches!(
        simple_network::client::observe_channel_event(Event::Closed(3)),
        ClientAction::ChannelClosed(3)
    ));
    let push = Packet::new_push(6, Bytes::from("p"), &mut g);
    match simple_network::client::observe_channel_event(Event::GotPush(1, push)) {
        ClientAction::DeliverPush(c, p) => assert_eq!((c, p.cmd(), p.body()), (1, 6, &b"p"[..])),
        _ => panic!("expected a push"),
    }
    let req = Packet::new_req(9, Bytes::new(), &mut g);
    assert!(matches!(
        simple_network::client::observe_channel_event(Event::GotRequest(1, req)),
        ClientAction::IgnoreRequest(9)
    ));
}

#[test]
fn rpc_responses() {
    let ok = rpc_response(3, 44, RpcOutcome::Succeeded(Bytes::from("ans")));
    assert!(ok.is_rsp());
    assert_eq!((ok.cmd(), ok.seq(), ok.ec(), ok.body()), (3, 44, 0, &b"ans"[..]));
    let failed = rpc_response(3, 44, RpcOutcome::Failed(17));
    assert_eq!((failed.ec(), failed.body().len()), (17, 0));
    let bad = rpc_response(3, 44, RpcOutcome::Undecodable);
    assert_eq!((bad.ec(), bad.body().len()), (PARSE_REQ_ERROR, 0));
    assert_eq!(PARSE_REQ_ERROR, 1);
}

#[test]
fn callback_table_register_lookup_unregister() {
    let mut t: CallbackTable<&'static str> = CallbackTable::new();
    assert!(t.lookup(1).is_none());
    t.register(1, "first", 10);
    t.register(1, "second", 20);
    assert_eq!(t.lookup(1), Some(&("second", 20)));
    assert_eq!(t.unregister(1), Some(("second", 20)));
    assert!(t.lookup(1).is_none());
    assert_eq!(t.unregister(1), None);
}

#[test]
fn rpc_response_reaches_the_waiting_request() {
    let mut g = SequenceGenerator::new();
    let req = Packet::new_req(12, Bytes::from("ask"), &mut g);
    let mut pending: PendingResponses<u32> = PendingResponses::new();
    pending.register(request_key(&req).unwrap(), 77);
    let rsp = rpc_response(req.cmd(), req.seq(), RpcOutcome::Failed(5));
    match deliver(&mut pending, 1, rsp) {
        Delivery::ToWaiter(w, p) => assert_eq!((w, p.ec()), (77, 5)),
        _ => panic!("the response should reach its waiter"),
    }
}
