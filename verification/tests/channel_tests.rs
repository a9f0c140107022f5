use bytes::{Bytes, BytesMut};
use simple_network::channel::{
    connection_expired, deliver, get_packet_id, process_packet, request_key, ChannelError,
    Delivery, Event, PendingResponses,
};
use simple_network::packet::{Packet, SequenceGenerator};

fn encode(p: &Packet) -> Vec<u8> {
    p.to_bytes().as_bytes().to_vec()
}

#[test]
fn packet_id_shifts_cmd_by_31() {
    assert_eq!(get_packet_id(0, 0), 0);
    assert_eq!(get_packet_id(1, 0), 1u64 << 31);
    assert_eq!(get_packet_id(3, 5), (3u64 << 31) | 5);
}

#[test]
fn packet_id_collides_when_seq_has_bit_31() {
    assert_eq!(get_packet_id(1, 0), get_packet_id(0, 0x8000_0000));
}

#[test]
fn process_packet_reads_all_and_empties_buffer() {
    let mut g = SequenceGenerator::new();
    let a = Packet::new_req(1, Bytes::from("a"), &mut g);
    let b = Packet::new_push(2, Bytes::from("bcd"), &mut g);
    let mut buf = BytesMut::new();
    buf.extend_from_slice(&encode(&a));
    buf.extend_from_slice(&encode(&b));
    let packets = process_packet(&mut buf);
    assert_eq!(packets.len(), 2);
    assert_eq!((packets[0].cmd(), packets[0].seq()), (1, 1));
    assert_eq!(packets[1].body(), b"bcd");
    assert!(buf.is_empty());
}

#[test]
fn process_packet_keeps_a_partial_header() {
    let p = Packet::new_rsp(4, 4, 0, Bytes::from("z"));
    let bytes = encode(&p);
    let mut buf = BytesMut::new();
    buf.extend_from_slice(&bytes);
    buf.extend_from_slice(&bytes[..7]);
    let packets = process_packet(&mut buf);
    assert_eq!(packets.len(), 1);
    assert_eq!(&buf[..], &bytes[..7]);
}

#[test]
fn process_packet_on_empty_buffer() {
    let mut buf = BytesMut::new();
    assert!(process_packet(&mut buf).is_empty());
    assert!(buf.is_empty());
}

#[test]
fn deliver_hands_response_to_its_waiter_once() {
    let mut pending: PendingResponses<&'static str> = PendingResponses::new();
    let mut g = SequenceGenerator::new();
    let req = Packet::new_req(9, Bytes::new(), &mut g);
    let id = request_key(&req).expect("a request");
    pending.register(id, "waiter");
    assert!(pending.is_waiting(id));
    let rsp = Packet::new_rsp(9, req.seq(), 0, Bytes::from("r"));
    match deliver(&mut pending, 7, rsp) {
        Delivery::ToWaiter(w, p) => {
            assert_eq!(w, "waiter");
            assert_eq!(p.body(), b"r");
        }
        _ => panic!("expected the waiter"),
    }
    assert!(!pending.is_waiting(id));
    let again = Packet::new_rsp(9, req.seq(), 0, Bytes::new());
    assert!(matches!(deliver(&mut pending, 7, again), Delivery::Unclaimed));
}

#[test]
fn deliver_forwards_requests_and_pushes() {
    let mut pending: PendingResponses<u8> = PendingResponses::new();
    let mut g = SequenceGenerator::new();
    let req = Packet::new_req(1, Bytes::new(), &mut g);
    match deliver(&mut pending, 3, req) {
        Delivery::ToOwner(Event::GotRequest(c, p)) => assert_eq!((c, p.cmd()), (3, 1)),
        _ => panic!("expected a request event"),
    }
    let push = Packet::new_push(2, Bytes::new(), &mut g);
    match deliver(&mut pending, 4, push) {
        Delivery::ToOwner(Event::GotPush(c, p)) => assert_eq!((c, p.cmd()), (4, 2)),
        _ => panic!("expected a push event"),
    }
}

#[test]
fn unregister_stops_waiting() {
    let mut pending: PendingResponses<u8> = PendingResponses::new();
    pending.register(5, 1);
    pending.unregister(5);
    assert!(!pending.is_waiting(5));
}

#[test]
fn request_key_refuses_non_requests() {
    let rsp = Packet::new_rsp(1, 2, 0, Bytes::new());
    assert_eq!(request_key(&rsp), Err(ChannelError::NotRequest));
}

#[test]
fn connection_expires_after_six_seconds() {
    assert!(!connection_expired(6000));
    assert!(connection_expired(6001));
    assert!(!connection_expired(0));
}
