use tbc_engine::transport::{
    decode_move_datagram, decode_reliable_frame, encode_move_datagram, encode_reliable_frame,
    wire_kind, FrameError, WireKind, MOVE_DATAGRAM_LEN,
};

#[test]
fn datagram_roundtrip() {
    let d = encode_move_datagram(99, 5, (-1.0f32).to_bits(), 0.5f32.to_bits());
    let (f, t, dx, dy) = decode_move_datagram(&d).unwrap();
    assert_eq!(f, 99);
    assert_eq!(t, 5);
    assert!((f32::from_bits(dx) + 1.0).abs() < 0.001);
    assert_eq!(f32::from_bits(dy), 0.5);
}

#[test]
fn datagram_layout_is_fixed() {
    let d = encode_move_datagram(1, 2, 3, 4);
    assert_eq!(d.len(), MOVE_DATAGRAM_LEN);
    assert_eq!(&d[0..4], &[0x01, 0x43, 0x42, 0x54]);
    assert_eq!(d[4], 1);
    assert_eq!(d[20], 2);
    assert_eq!(d[28], 3);
    assert_eq!(d[32], 4);
    assert!(decode_move_datagram(&d[..35]).is_none());
    let mut bad = d.clone();
    bad[0] = b'X';
    assert!(decode_move_datagram(&bad).is_none());
}

fn move_message_bytes(fwau: u64, tick: u64) -> Vec<u8> {
    let mut payload = serde_json::Map::new();
    payload.insert("dx".into(), serde_json::Value::from(1.0));
    payload.insert("dy".into(), serde_json::Value::from(0.0));
    let mut msg = serde_json::Map::new();
    msg.insert("kind".into(), serde_json::Value::String("move".into()));
    msg.insert("fwau".into(), serde_json::Value::String(fwau.to_string()));
    msg.insert("tick".into(), serde_json::Value::from(tick));
    msg.insert("payload".into(), serde_json::Value::Object(payload));
    serde_json::to_vec(&serde_json::Value::Object(msg)).unwrap()
}

#[test]
fn roundtrip_reliable() {
    let body = move_message_bytes(42, 10);
    let enc = encode_reliable_frame(&body);
    let dec = decode_reliable_frame(&enc).unwrap();
    let v: serde_json::Value = serde_json::from_slice(&dec).unwrap();
    assert_eq!(v["kind"], serde_json::Value::String("move".into()));
    assert_eq!(v["tick"].as_u64(), Some(10));
}

#[test]
fn reliable_frame_errors() {
    assert_eq!(decode_reliable_frame(b"TBC"), Err(FrameError::TooShort));
    assert_eq!(decode_reliable_frame(b"XXXX\x00\x00\x00\x00"), Err(FrameError::BadMagic));
    assert_eq!(decode_reliable_frame(b"\x01CBT\x05\x00\x00\x00ab"), Err(FrameError::Incomplete));
    let enc = encode_reliable_frame(b"ab");
    assert_eq!(enc, b"\x01CBT\x02\x00\x00\x00ab".to_vec());
    assert_eq!(decode_reliable_frame(&enc), Ok(b"ab".to_vec()));
    assert!(!FrameError::TooShort.message().is_empty());
}

#[test]
fn wire_kinds_dispatch() {
    assert_eq!(wire_kind("login"), WireKind::Login);
    assert_eq!(wire_kind("move"), WireKind::Move);
    assert_eq!(wire_kind("assist"), WireKind::Assist);
    assert_eq!(wire_kind("handoff"), WireKind::Handoff);
    assert_eq!(wire_kind("Login"), WireKind::Unknown);
    assert_eq!(wire_kind(""), WireKind::Unknown);
}
