use bytes::Bytes;
use simple_network::packet::{
    Packet, SequenceGenerator, HEADER_LENGTH, HEART_BEAT_CMD, MAX_BODY_LENGTH, PACKET_BEGIN_FLAG,
    PUSH_TYPE, REQ_TYPE, RSP_TYPE,
};

fn encode(p: &Packet) -> Vec<u8> {
    p.to_bytes().as_bytes().to_vec()
}

#[test]
fn constants_match_the_wire_format() {
    assert_eq!(PACKET_BEGIN_FLAG, 0x55);
    assert_eq!(HEADER_LENGTH, 18);
    assert_eq!(MAX_BODY_LENGTH, 16 * 1024);
    assert_eq!(HEART_BEAT_CMD, 0);
    assert_eq!((REQ_TYPE, RSP_TYPE, PUSH_TYPE), (1, 2, 3));
}

#[test]
fn sequence_generator_counts_from_one() {
    let mut g = SequenceGenerator::new();
    assert_eq!(g.next(), 1);
    assert_eq!(g.next(), 2);
    assert_eq!(g.next(), 3);
}

#[test]
fn new_req_takes_next_sequence_number() {
    let mut g = SequenceGenerator::new();
    let a = Packet::new_req(7, Bytes::from("hello"), &mut g);
    let b = Packet::new_push(8, Bytes::new(), &mut g);
    assert_eq!(a.cmd(), 7);
    assert_eq!(a.seq(), 1);
    assert!(a.is_req() && !a.is_rsp() && !a.is_push());
    assert_eq!(a.packet_type(), REQ_TYPE);
    assert_eq!(a.ec(), 0);
    assert_eq!(a.body(), b"hello");
    assert_eq!(b.seq(), 2);
    assert!(b.is_push() && !b.is_req() && !b.is_rsp());
}

#[test]
fn new_rsp_keeps_given_fields() {
    let p = Packet::new_rsp(3, 99, 42, Bytes::from("world"));
    assert_eq!((p.cmd(), p.seq(), p.ec()), (3, 99, 42));
    assert!(p.is_rsp());
    assert_eq!(p.body(), b"world");
}

#[test]
fn to_bytes_writes_little_endian_header_then_body() {
    let p = Packet::new_rsp(0x0102_0304, 0x0a0b_0c0d, 0xdead_beef, Bytes::from(vec![9u8, 8, 7]));
    let bytes = encode(&p);
    assert_eq!(
        bytes,
        vec![
            0x55, 0x04, 0x03, 0x02, 0x01, 0x0d, 0x0c, 0x0b, 0x0a, 2, 0xef, 0xbe, 0xad, 0xde, 3, 0,
            0, 0, 9, 8, 7
        ]
    );
}

#[test]
fn from_bytes_reads_back_what_to_bytes_wrote() {
    let p = Packet::new_rsp(11, 22, 33, Bytes::from("payload"));
    let bytes = encode(&p);
    let mut pos = 0usize;
    let q = Packet::from_bytes(&bytes, &mut pos).expect("a packet");
    assert_eq!(pos, bytes.len());
    assert_eq!((q.cmd(), q.seq(), q.packet_type(), q.ec()), (11, 22, RSP_TYPE, 33));
    assert_eq!(q.body(), b"payload");
}

#[test]
fn from_bytes_on_empty_buffer_gives_nothing() {
    let mut pos = 5usize;
    assert!(Packet::from_bytes(&[], &mut pos).is_none());
    assert_eq!(pos, 5);
}

#[test]
fn from_bytes_skips_noise_before_the_flag() {
    let p = Packet::new_rsp(1, 2, 0, Bytes::from("x"));
    let mut bytes = vec![1u8, 2, 3];
    bytes.extend(encode(&p));
    let mut pos = 0usize;
    let q = Packet::from_bytes(&bytes, &mut pos).expect("a packet");
    assert_eq!(q.cmd(), 1);
    assert_eq!(pos, bytes.len());
}

#[test]
fn from_bytes_without_flag_stops_before_last_byte() {
    let bytes = vec![1u8, 2, 3, 4];
    let mut pos = 0usize;
    assert!(Packet::from_bytes(&bytes, &mut pos).is_none());
    assert_eq!(pos, 3);
}

#[test]
fn from_bytes_keeps_a_short_header() {
    let p = Packet::new_rsp(1, 2, 0, Bytes::from("x"));
    let bytes = encode(&p);
    let mut pos = 0usize;
    assert!(Packet::from_bytes(&bytes[..10], &mut pos).is_none());
    assert_eq!(pos, 0);
}

#[test]
fn from_bytes_consumes_header_of_incomplete_body() {
    let p = Packet::new_rsp(1, 2, 0, Bytes::from("hello"));
    let bytes = encode(&p);
    let mut pos = 0usize;
    assert!(Packet::from_bytes(&bytes[..20], &mut pos).is_none());
    assert_eq!(pos, 18);
}

#[test]
fn from_bytes_skips_packet_with_oversized_body() {
    let mut bytes = vec![0x55u8, 1, 0, 0, 0, 1, 0, 0, 0, 2, 0, 0, 0, 0];
    bytes.extend_from_slice(&((MAX_BODY_LENGTH as u32) + 1).to_le_bytes());
    let good = Packet::new_rsp(5, 6, 0, Bytes::from("ok"));
    bytes.extend(encode(&good));
    let mut pos = 0usize;
    let q = Packet::from_bytes(&bytes, &mut pos).expect("the packet after the oversized header");
    assert_eq!((q.cmd(), q.seq()), (5, 6));
    assert_eq!(pos, bytes.len());
}

#[test]
fn from_bytes_accepts_body_of_max_length() {
    let body = vec![0xabu8; MAX_BODY_LENGTH];
    let p = Packet::new_rsp(1, 1, 0, Bytes::from(body.clone()));
    let bytes = encode(&p);
    let mut pos = 0usize;
    let q = Packet::from_bytes(&bytes, &mut pos).expect("a packet");
    assert_eq!(q.body(), &body[..]);
}

#[test]
fn from_bytes_reads_from_given_position() {
    let a = Packet::new_rsp(1, 1, 0, Bytes::from("a"));
    let b = Packet::new_rsp(2, 2, 0, Bytes::from("bb"));
    let mut bytes = encode(&a);
    let first_len = bytes.len();
    bytes.extend(encode(&b));
    let mut pos = first_len;
    let q = Packet::from_bytes(&bytes, &mut pos).expect("second packet");
    assert_eq!(q.cmd(), 2);
    assert_eq!(pos, bytes.len());
    assert!(Packet::from_bytes(&bytes, &mut pos).is_none());
    assert_eq!(pos, bytes.len());
}
