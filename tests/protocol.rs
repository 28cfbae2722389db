use picocraft::error::ProtocolError;
use picocraft::net::{next_state_from, Connection, PacketEvent, State, MAX_FRAME_LEN};
use picocraft::packets::handshake::HandshakePacket;
use picocraft::packets::parse_packet;
use picocraft::packets::status::{write_status_response, PingRequest, PongResponse};
use picocraft::pool::SlotPool;
use picocraft::read::Slice;
use picocraft::varint::write_varint;
use picocraft::write::{write_be, write_bool, write_frame, write_i64, write_string, write_u16};

const STATUS: &str = "{\"version\":{\"name\":\"1.20.1\",\"protocol\":763},\"players\":{\"max\":4,\"online\":0},\"description\":{\"text\":\"A PicoCraft server.\"},\"enforcesSecureChat\":false}";

fn slice_of(bytes: &[u8]) -> Slice {
    Slice::new(bytes.to_vec().into_boxed_slice())
}

fn frame(id: i32, fields: &[u8]) -> Vec<u8> {
    let mut payload = Vec::new();
    write_varint(&mut payload, id);
    payload.extend_from_slice(fields);
    let mut out = Vec::new();
    write_frame(&mut out, &payload);
    out
}

fn handshake_fields(version: i32, address: &str, port: u16, next: i32) -> Vec<u8> {
    let mut fields = Vec::new();
    write_varint(&mut fields, version);
    write_string(&mut fields, address);
    write_u16(&mut fields, port);
    write_varint(&mut fields, next);
    fields
}

fn in_status() -> Connection {
    let mut conn = Connection::new(STATUS.to_string());
    let mut out = Vec::new();
    let hs = frame(0, &handshake_fields(763, "localhost", 25565, 1));
    assert_eq!(conn.process(&hs, &mut out), Ok(hs.len()));
    assert_eq!(conn.state(), State::Status);
    assert!(out.is_empty());
    conn
}

#[test]
fn varint_round_trip() {
    for v in [0, 1, 127, 128, 2097151, 2147483647, -1, -2147483648] {
        let mut bytes = Vec::new();
        write_varint(&mut bytes, v);
        assert!(bytes.len() <= 5);
        let mut s = slice_of(&bytes);
        assert_eq!(s.read_varint(), Ok(v));
        assert_eq!(s.remaining(), 0);
    }
}

#[test]
fn varint_exact_bytes() {
    let cases: [(i32, &[u8]); 6] = [
        (0, &[0x00]),
        (127, &[0x7f]),
        (128, &[0x80, 0x01]),
        (300, &[0xac, 0x02]),
        (2097151, &[0xff, 0xff, 0x7f]),
        (-1, &[0xff, 0xff, 0xff, 0xff, 0x0f]),
    ];
    for (v, expected) in cases {
        let mut bytes = Vec::new();
        write_varint(&mut bytes, v);
        assert_eq!(bytes, expected.to_vec());
    }
    let mut bytes = Vec::new();
    write_varint(&mut bytes, -2147483648);
    assert_eq!(bytes, vec![0x80, 0x80, 0x80, 0x80, 0x08]);
}

#[test]
fn varint_overflow() {
    let mut s = slice_of(&[0x80, 0x80, 0x80, 0x80, 0x80, 0x80]);
    assert_eq!(s.read_varint(), Err(ProtocolError::Malformed));
    let mut s = slice_of(&[0xff, 0xff, 0xff, 0xff, 0xff, 0x01]);
    assert_eq!(s.read_varint(), Err(ProtocolError::Malformed));
}

#[test]
fn varint_cut_short() {
    let mut s = slice_of(&[0x80, 0x80]);
    assert_eq!(s.read_varint(), Err(ProtocolError::Malformed));
    assert_eq!(s.remaining(), 2);
}

#[test]
fn string_round_trip() {
    let mut bytes = Vec::new();
    write_string(&mut bytes, "localhost");
    assert_eq!(bytes[0], 9);
    assert_eq!(&bytes[1..], b"localhost");
    let mut s = slice_of(&bytes);
    assert_eq!(s.read_string(255), Ok("localhost".to_string()));
    assert_eq!(s.remaining(), 0);
}

#[test]
fn string_too_long() {
    let mut bytes = Vec::new();
    write_varint(&mut bytes, 256);
    bytes.extend(std::iter::repeat(b'a').take(256));
    let mut s = slice_of(&bytes);
    assert_eq!(s.read_string(255), Err(ProtocolError::Malformed));
}

#[test]
fn string_shorter_than_declared() {
    let mut s = slice_of(&[5, b'a', b'b']);
    assert_eq!(s.read_string(255), Err(ProtocolError::Malformed));
}

#[test]
fn string_invalid_utf8() {
    let mut s = slice_of(&[2, 0xc3, 0x28]);
    assert_eq!(s.read_string(255), Err(ProtocolError::Malformed));
    let mut s = slice_of(&[2, 0xc3, 0xa9]);
    assert_eq!(s.read_string(255), Ok("\u{e9}".to_string()));
}

#[test]
fn fixed_width_reads() {
    let mut s = slice_of(&[0x63, 0xdd, 0x01, 0x00, 0, 0, 0, 0, 0x07, 0x5b, 0xcd, 0x15]);
    assert_eq!(s.read_u16(), Ok(25565));
    assert_eq!(s.read_bool(), Ok(true));
    assert_eq!(s.read_bool(), Ok(false));
    assert_eq!(s.read_i64(), Ok(123456789));
    assert_eq!(s.read_u8(), Err(ProtocolError::Malformed));
    let mut s = slice_of(&[0xff; 8]);
    assert_eq!(s.read_i64(), Ok(-1));
    let mut s = slice_of(&[1, 2, 3]);
    assert_eq!(s.read_be(3), Ok(0x010203));
    assert_eq!(s.read_be(1), Err(ProtocolError::Malformed));
}

#[test]
fn slice_read_into_buffer() {
    let mut s = slice_of(&[1, 2, 3, 4]);
    let mut buf = [0u8; 3];
    assert_eq!(s.read(&mut buf), Ok(()));
    assert_eq!(buf, [1, 2, 3]);
    let mut buf = [0u8; 2];
    assert_eq!(s.read(&mut buf), Err(()));
    assert_eq!(s.remaining(), 1);
}

#[test]
fn fixed_width_writes() {
    let mut out = Vec::new();
    write_be(&mut out, 0x0102_0304, 4);
    write_u16(&mut out, 25565);
    write_bool(&mut out, true);
    write_i64(&mut out, -2);
    assert_eq!(out, vec![1, 2, 3, 4, 0x63, 0xdd, 1, 0xff, 0xff, 0xff, 0xff, 0xff, 0xff, 0xff, 0xfe]);
}

#[test]
fn handshake_scenario() {
    let bytes = frame(0, &handshake_fields(763, "localhost", 25565, 1));
    let (mut packet, used) = parse_packet(&bytes, MAX_FRAME_LEN).unwrap().unwrap();
    assert_eq!(used, bytes.len());
    assert_eq!(packet.id, 0);
    let hs = HandshakePacket::read_packet(&mut packet.data).unwrap();
    assert_eq!(hs.protocol_version, 763);
    assert_eq!(hs.server_address, "localhost");
    assert_eq!(hs.server_port, 25565);
    assert_eq!(hs.next_state, State::Status);

    let mut conn = Connection::new(STATUS.to_string());
    let mut out = Vec::new();
    assert_eq!(conn.process(&bytes, &mut out), Ok(bytes.len()));
    assert_eq!(conn.state(), State::Status);
    assert!(out.is_empty());
}

#[test]
fn handshake_next_states() {
    assert_eq!(next_state_from(1), State::Status);
    assert_eq!(next_state_from(2), State::Login);
    assert_eq!(next_state_from(3), State::Transfer);
    assert_eq!(next_state_from(7), State::Custom(7));
    assert_eq!(State::Custom(7).number(), 7);
    assert_eq!(State::Handshake.number(), 0);
    assert_eq!(State::Transfer.number(), 3);
    let bytes = frame(0, &handshake_fields(763, "localhost", 25565, 2));
    let mut conn = Connection::new(STATUS.to_string());
    let mut out = Vec::new();
    assert_eq!(conn.process(&bytes, &mut out), Ok(bytes.len()));
    assert_eq!(conn.state(), State::Login);
}

#[test]
fn handshake_truncated_is_malformed() {
    let mut fields = handshake_fields(763, "localhost", 25565, 1);
    fields.truncate(fields.len() - 2);
    let bytes = frame(0, &fields);
    let mut conn = Connection::new(STATUS.to_string());
    let mut out = Vec::new();
    assert_eq!(conn.process(&bytes, &mut out), Err(ProtocolError::Malformed));
    assert_eq!(conn.state(), State::Handshake);
}

#[test]
fn status_request_scenario() {
    let mut conn = in_status();
    let mut out = Vec::new();
    let request = frame(0, &[]);
    assert_eq!(conn.process(&request, &mut out), Ok(request.len()));
    let (mut packet, used) = parse_packet(&out, MAX_FRAME_LEN).unwrap().unwrap();
    assert_eq!(used, out.len());
    assert_eq!(packet.id, 0);
    let json = packet.data.read_string(1 << 20).unwrap();
    assert_eq!(json, STATUS);
    assert!(serde_json_core::from_str::<serde::de::IgnoredAny>(&json).is_ok());
    assert!(json.contains("\"protocol\":763"));
    assert_eq!(conn.state(), State::Status);
}

#[test]
fn status_response_frame_bytes() {
    let mut out = Vec::new();
    write_status_response(&mut out, "{}");
    assert_eq!(out, vec![4, 0, 2, b'{', b'}']);
}

#[test]
fn ping_scenario() {
    let mut conn = in_status();
    let mut fields = Vec::new();
    write_i64(&mut fields, 123456789);
    let ping = frame(1, &fields);
    let mut out = Vec::new();
    assert_eq!(conn.process(&ping, &mut out), Ok(ping.len()));
    assert_eq!(out, ping);
    assert_eq!(out, vec![9, 1, 0, 0, 0, 0, 0x07, 0x5b, 0xcd, 0x15]);
}

#[test]
fn ping_and_pong_packets() {
    let mut s = slice_of(&[0, 0, 0, 0, 0x07, 0x5b, 0xcd, 0x15]);
    let ping = PingRequest::read_packet(&mut s).unwrap();
    assert_eq!(ping.payload, 123456789);
    let mut out = Vec::new();
    PongResponse { payload: ping.payload }.write_packet(&mut out);
    assert_eq!(out, vec![9, 1, 0, 0, 0, 0, 0x07, 0x5b, 0xcd, 0x15]);
    let mut s = slice_of(&[1, 2, 3]);
    assert!(PingRequest::read_packet(&mut s).is_err());
}

#[test]
fn short_ping_is_malformed() {
    let mut conn = in_status();
    let mut out = Vec::new();
    assert_eq!(conn.process(&frame(1, &[1, 2, 3]), &mut out), Err(ProtocolError::Malformed));
    assert!(out.is_empty());
}

#[test]
fn unknown_packet() {
    let mut conn = in_status();
    let mut out = Vec::new();
    let unknown = frame(0x7f, &[1, 2, 3]);
    assert_eq!(conn.process(&unknown, &mut out), Ok(unknown.len()));
    assert_eq!(conn.state(), State::Status);
    assert!(out.is_empty());
    let mut fields = Vec::new();
    write_i64(&mut fields, 5);
    let ping = frame(1, &fields);
    assert_eq!(conn.process(&ping, &mut out), Ok(ping.len()));
    assert_eq!(out, ping);
}

#[test]
fn login_ignores_packets() {
    let mut conn = Connection::new(STATUS.to_string());
    let mut out = Vec::new();
    let mut bytes = frame(0, &handshake_fields(763, "localhost", 25565, 2));
    bytes.extend(frame(0, &[]));
    assert_eq!(conn.process(&bytes, &mut out), Ok(bytes.len()));
    assert_eq!(conn.state(), State::Login);
    assert!(out.is_empty());
}

#[test]
fn pipelined_ordering() {
    let mut conn = Connection::new(STATUS.to_string());
    let mut bytes = frame(0, &handshake_fields(763, "localhost", 25565, 1));
    bytes.extend(frame(0, &[]));
    let mut out = Vec::new();
    assert_eq!(conn.process(&bytes, &mut out), Ok(bytes.len()));
    assert_eq!(conn.state(), State::Status);
    let mut expected = Vec::new();
    write_status_response(&mut expected, STATUS);
    assert_eq!(out, expected);
}

#[test]
fn partial_frame_waits() {
    let mut conn = in_status();
    let mut fields = Vec::new();
    write_i64(&mut fields, 42);
    let ping = frame(1, &fields);
    let mut bytes = frame(0x7f, &[]);
    let first = bytes.len();
    bytes.extend_from_slice(&ping[..4]);
    let mut out = Vec::new();
    assert_eq!(conn.process(&bytes, &mut out), Ok(first));
    assert!(out.is_empty());
    assert_eq!(conn.process(&[], &mut out), Ok(0));
    assert_eq!(parse_packet(&ping[..4], MAX_FRAME_LEN).unwrap().is_none(), true);
}

#[test]
fn frame_limits() {
    let mut bytes = Vec::new();
    write_varint(&mut bytes, 11);
    bytes.extend([0u8; 11]);
    assert!(parse_packet(&bytes, 10).is_err());
    assert!(parse_packet(&bytes, 11).unwrap().is_some());
    let mut negative = Vec::new();
    write_varint(&mut negative, -1);
    assert_eq!(parse_packet(&negative, MAX_FRAME_LEN).err(), Some(ProtocolError::Malformed));
    assert_eq!(parse_packet(&[0x00], MAX_FRAME_LEN).err(), Some(ProtocolError::Malformed));
    assert_eq!(parse_packet(&[0x80; 6], MAX_FRAME_LEN).err(), Some(ProtocolError::Malformed));
}

#[test]
fn event_values() {
    let e = PacketEvent::ChangeState(State::Status);
    assert_eq!(e, PacketEvent::ChangeState(State::Status));
    assert_ne!(PacketEvent::PingRequest(1), PacketEvent::StatusRequest);
}

#[test]
fn slot_pool() {
    let mut pool = SlotPool::new(2);
    assert_eq!(pool.acquire(), Some(0));
    assert_eq!(pool.acquire(), Some(1));
    assert_eq!(pool.acquire(), None);
    assert!(pool.is_busy(0));
    pool.release(0);
    assert!(!pool.is_busy(0));
    assert_eq!(pool.acquire(), Some(0));
}
