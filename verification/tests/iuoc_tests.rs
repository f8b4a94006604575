use tbc_engine::consent_wire::WireConsentStamp;
use tbc_engine::intent::ConsentStamp;
use tbc_engine::iuoc::{
    pact_string, BindError, EntityRef, ExperiencePacket, IuocRegistry, MemoryClearance,
    ReincarnationPrefs, ConsentGraph, INITIAL_QUALITY_BITS, IUOC,
};
use tbc_engine::types::{FrameId, FwauId, IuocId, PacketId, AvatarId, Tick};

fn avatar() -> EntityRef {
    EntityRef {
        index: 7,
        generation: 2,
    }
}

#[test]
fn new_soul_starts_fresh() {
    let mut reg = IuocRegistry::new();
    let id = reg.create_soul();
    let soul = reg.get(id).unwrap();
    assert_eq!(soul.id, id);
    assert_eq!(soul.incarnations, 0);
    assert_eq!(soul.bound_fwau, None);
    assert_eq!(f32::from_bits(soul.quality_bits), 0.5);
    assert_eq!(INITIAL_QUALITY_BITS, 0.5f32.to_bits());
    assert!(soul.consent.pacts.is_empty());
    assert!(reg.packets_for(id).is_empty());
}

#[test]
fn bind_unknown_soul_fails() {
    let mut reg = IuocRegistry::new();
    assert_eq!(
        reg.bind_fwau(IuocId(5), FwauId(6), avatar(), Tick(1)),
        Err(BindError::NotFound)
    );
    assert!(reg.fwau(FwauId(6)).is_none());
}

#[test]
fn bind_creates_session_and_counts_incarnation() {
    let mut reg = IuocRegistry::new();
    let id = reg.create_soul();
    assert_eq!(reg.bind_fwau(id, FwauId(10), avatar(), Tick(3)), Ok(FwauId(10)));
    let s = reg.fwau(FwauId(10)).unwrap();
    assert_eq!(s.iuoc_id, id);
    assert_eq!(s.avatar_id, avatar());
    assert_eq!(s.bound_at, Tick(3));
    assert_eq!(s.intent_buf.len, 0);
    assert_eq!(s.memory_clearance, MemoryClearance::IncarnationOnly);
    assert_eq!(s.quality_snapshot_bits, INITIAL_QUALITY_BITS);
    let soul = reg.get(id).unwrap();
    assert_eq!(soul.incarnations, 1);
    assert_eq!(soul.bound_fwau, Some(FwauId(10)));
}

#[test]
fn rebinding_ends_previous_session() {
    let mut reg = IuocRegistry::new();
    let id = reg.create_soul();
    reg.bind_fwau(id, FwauId(10), avatar(), Tick(3)).unwrap();
    reg.bind_fwau(id, FwauId(11), avatar(), Tick(4)).unwrap();
    assert!(reg.fwau(FwauId(10)).is_none());
    assert!(reg.fwau(FwauId(11)).is_some());
    assert_eq!(reg.get(id).unwrap().incarnations, 2);
}

#[test]
fn release_unbinds_without_packet() {
    let mut reg = IuocRegistry::new();
    let id = reg.create_soul();
    reg.bind_fwau(id, FwauId(10), avatar(), Tick(3)).unwrap();
    assert_eq!(reg.release_live_fwau(FwauId(10)), Some(id));
    assert!(reg.fwau(FwauId(10)).is_none());
    assert_eq!(reg.get(id).unwrap().bound_fwau, None);
    assert_eq!(reg.get(id).unwrap().incarnations, 1);
    assert!(reg.packets_for(id).is_empty());
    assert_eq!(reg.release_live_fwau(FwauId(10)), None);
}

#[test]
fn merge_records_life() {
    let mut reg = IuocRegistry::new();
    let id = reg.create_soul();
    reg.bind_fwau(id, FwauId(10), avatar(), Tick(3)).unwrap();
    let packet = reg
        .merge_fwau(FwauId(10), FrameId(1), Tick(100), "test-death", 0.6f32.to_bits())
        .unwrap();
    assert_eq!(packet.iuoc, id);
    assert_eq!(packet.avatar, AvatarId(7));
    assert_eq!(packet.frame, FrameId(1));
    assert_eq!(packet.bound_at, Tick(3));
    assert_eq!(packet.unbound_at, Tick(100));
    assert_eq!(packet.summary, "Life 1 ended");
    assert_eq!(packet.death_cause, "test-death");
    let soul = reg.get(id).unwrap();
    assert_eq!(soul.bound_fwau, None);
    assert_eq!(f32::from_bits(soul.quality_bits), 0.6);
    assert_eq!(reg.packets_for(id).len(), 1);
    assert_eq!(reg.packets_for(id)[0].id, packet.id);
    assert!(reg.merge_fwau(FwauId(10), FrameId(1), Tick(101), "again", 0).is_none());
}

#[test]
fn hydrate_keeps_last_soul_per_id() {
    let mut reg = IuocRegistry::new();
    let mk = |incarnations: u32| IUOC {
        id: IuocId(42),
        quality_bits: INITIAL_QUALITY_BITS,
        incarnations,
        bound_fwau: None,
        consent: ConsentGraph { pacts: vec![] },
        prefs: ReincarnationPrefs {
            preferred_factions: vec![],
        },
    };
    let packet = ExperiencePacket {
        id: PacketId(1),
        iuoc: IuocId(42),
        avatar: AvatarId(0),
        frame: FrameId(1),
        bound_at: Tick(0),
        unbound_at: Tick(10),
        summary: "Life 1 ended".into(),
        death_cause: "x".into(),
    };
    reg.hydrate_from(vec![mk(1), mk(3)], vec![(IuocId(42), vec![packet])]);
    assert_eq!(reg.get(IuocId(42)).unwrap().incarnations, 3);
    assert_eq!(reg.packets_for(IuocId(42)).len(), 1);
}

#[test]
fn pact_text_format() {
    assert_eq!(pact_string("assist", IuocId(12), 500), "assist:12:500");
}

#[test]
fn wire_stamp_verifies_after_grant() {
    let mut reg = IuocRegistry::new();
    let target = reg.create_soul();
    let helper = reg.create_soul();
    let now = 0u64;
    let expires = now + 50_000;
    reg.add_consent_pact(target, pact_string("assist", helper, expires))
        .expect("grant");
    let stamp =
        WireConsentStamp::from_grant(target, helper, "assist", expires).to_intent_stamp();
    assert!(reg.verify_consent_stamp(helper, &stamp, now));
}

#[test]
fn expired_stamp_rejected() {
    let mut reg = IuocRegistry::new();
    let target = reg.create_soul();
    let helper = reg.create_soul();
    let stamp = ConsentStamp {
        target: target.0,
        scope: "assist".into(),
        expires_tick: 1,
    };
    assert!(!reg.verify_consent_stamp(helper, &stamp, 9999));
}

#[test]
fn consent_pact_grants_assist() {
    let mut reg = IuocRegistry::new();
    let target = reg.create_soul();
    let helper = reg.create_soul();
    assert!(!reg.has_consent_pact(target, helper, "assist", 0));
    reg.add_consent_pact(target, pact_string("assist", helper, 10_000))
        .unwrap();
    assert!(reg.has_consent_pact(target, helper, "assist", 0));
    assert!(reg.has_consent_pact(target, helper, "assist", 10_000));
    assert!(!reg.has_consent_pact(target, helper, "assist", 10_001));
    assert!(!reg.has_consent_pact(target, helper, "speak", 0));
    assert!(!reg.has_consent_pact(helper, target, "assist", 0));
}

#[test]
fn malformed_pacts_grant_nothing() {
    let mut reg = IuocRegistry::new();
    let target = reg.create_soul();
    let helper = reg.create_soul();
    let prefix = format!("assist:{}:", helper.0);
    for bad in ["007", "+7", "", "7x", "99999999999999999999999"] {
        reg.add_consent_pact(target, format!("{}{}", prefix, bad)).unwrap();
    }
    assert!(!reg.has_consent_pact(target, helper, "assist", 0));
    assert_eq!(
        reg.add_consent_pact(IuocId(1), "x".into()),
        Err(BindError::NotFound)
    );
}

#[test]
fn stamp_must_match_pact_exactly() {
    let mut reg = IuocRegistry::new();
    let target = reg.create_soul();
    let helper = reg.create_soul();
    reg.add_consent_pact(target, pact_string("assist", helper, 500)).unwrap();
    let stamp = ConsentStamp {
        target: target.0,
        scope: "assist".into(),
        expires_tick: 600,
    };
    assert!(!reg.verify_consent_stamp(helper, &stamp, 0));
    let right = ConsentStamp {
        target: target.0,
        scope: "assist".into(),
        expires_tick: 500,
    };
    assert!(reg.verify_consent_stamp(helper, &right, 500));
    assert!(!reg.verify_consent_stamp(target, &right, 0));
}
