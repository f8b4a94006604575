use tbc_engine::rww::{MemoryStore, RwwBus, RwwConfig, RwwMessage};

#[test]
fn rww_publish_and_read() {
    let mut bus = RwwBus::new();
    bus.publish("rww.test", b"hello", 1, true);
    let msgs = bus.recent("rww.test", 10);
    assert_eq!(msgs.len(), 1);
    assert_eq!(msgs[0].payload, b"hello");
}

#[test]
fn mod_publish_and_read() {
    let mut bus = RwwBus::new();
    bus.publish("rww.test", b"hello", 1, true);
    let msgs = bus.recent("rww.test", 10);
    assert_eq!(msgs.len(), 1);
    assert_eq!(msgs[0].payload, b"hello");
}

#[test]
fn opens_memory_without_nats() {
    let bus = RwwBus::open(
        RwwConfig {
            nats_url: None,
            stream_name: "TBC_RWW".into(),
        },
        false,
    );
    assert_eq!(bus.status().backend, "memory");
    assert!(!bus.status().connected);
}

#[test]
fn opens_nats_when_bridge_connected() {
    let bus = RwwBus::open(
        RwwConfig {
            nats_url: Some("nats://127.0.0.1:4222".into()),
            stream_name: "TBC_RWW".into(),
        },
        true,
    );
    let status = bus.status();
    assert_eq!(status.backend, "nats");
    assert!(status.connected);
    assert_eq!(status.nats_url.as_deref(), Some("nats://127.0.0.1:4222"));
    assert_eq!(status.stream.as_deref(), Some("TBC_RWW"));
}

#[test]
fn published_message_carries_ulid_id() {
    let mut bus = RwwBus::new();
    let msg = bus.publish("rww.test", b"x", 7, false);
    assert_eq!(msg.id.len(), 26);
    assert_eq!(msg.subject, "rww.test");
    assert_eq!(msg.at_tick, 7);
}

#[test]
fn recent_is_ordered_by_tick_and_limited() {
    let mut bus = RwwBus::new();
    bus.publish("rww.a", b"3", 3, true);
    bus.publish("rww.a", b"1", 1, true);
    bus.publish("rww.b", b"other", 2, true);
    bus.publish("rww.a", b"2", 2, true);
    let all = bus.recent("rww.a", 10);
    let ticks: Vec<u64> = all.iter().map(|m| m.at_tick).collect();
    assert_eq!(ticks, vec![1, 2, 3]);
    let last_two = bus.recent("rww.a", 2);
    let ticks: Vec<u64> = last_two.iter().map(|m| m.at_tick).collect();
    assert_eq!(ticks, vec![2, 3]);
    assert!(bus.recent("rww.none", 5).is_empty());
}

#[test]
fn fwau_bound_payload_is_json() {
    let mut bus = RwwBus::new();
    let msg = bus.publish_fwau_bound(12345, "PMR \"Prime\"", 4);
    let text = String::from_utf8(msg.payload.clone()).unwrap();
    let v: serde_json::Value = serde_json::from_str(&text).unwrap();
    assert_eq!(v["fwau"], serde_json::Value::String("12345".into()));
    assert_eq!(v["frame"], serde_json::Value::String("PMR \"Prime\"".into()));
    assert_eq!(v["event"], serde_json::Value::String("FwauBound".into()));
    assert_eq!(text, "{\"event\":\"FwauBound\",\"frame\":\"PMR \\\"Prime\\\"\",\"fwau\":\"12345\"}");
    assert_eq!(msg.subject, "rww.bound.PMR \"Prime\".12345");
    assert_eq!(msg.at_tick, 4);
}

#[test]
fn handoff_payload_names_both_frames() {
    let mut bus = RwwBus::new();
    let msg = bus.publish_handoff(9, "pmr.v1", "npmr.academy.v1", 11);
    let v: serde_json::Value = serde_json::from_slice(&msg.payload).unwrap();
    assert_eq!(v["from"], serde_json::Value::String("pmr.v1".into()));
    assert_eq!(v["to"], serde_json::Value::String("npmr.academy.v1".into()));
    assert_eq!(v["fwau"], serde_json::Value::String("9".into()));
}

#[test]
fn memory_store_insert_and_recent() {
    let mut store = MemoryStore::new();
    store.insert(
        RwwMessage {
            id: "a".into(),
            subject: "rww.s".into(),
            payload: vec![1],
            at_tick: 5,
        },
        false,
    );
    let got = store.recent("rww.s", 1);
    assert_eq!(got.len(), 1);
    assert_eq!(got[0].id, "a");
}
