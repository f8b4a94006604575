use tbc_engine::ecs::{brain_kind_from_name, needs_brain, BrainKind};
use tbc_engine::psi::{psi_gate, psi_scope, refusal_message, rww_recall, PsiRefusal, PsiScope};
use tbc_engine::rww::{RwwBus, RwwConfig};
use tbc_engine::text::normalize_separators;

#[test]
fn psi_scopes_parse() {
    assert_eq!(psi_scope("FutureSelf"), PsiScope::FutureSelf);
    assert_eq!(psi_scope("PastShared"), PsiScope::PastShared);
    assert_eq!(psi_scope("RwwQuery"), PsiScope::RwwQuery);
    assert_eq!(psi_scope("NotAScope"), PsiScope::Other);
}

#[test]
fn blocked_scope_rejected() {
    let scopes = vec!["PastOwn".to_string(), "FutureSelf".to_string()];
    assert_eq!(psi_gate(true, &scopes, "FutureSelf"), Ok(()));
    assert_eq!(psi_gate(true, &scopes, "NotAScope"), Err(PsiRefusal::ScopeNotAllowed));
    assert_eq!(psi_gate(false, &scopes, "FutureSelf"), Err(PsiRefusal::Disabled));
    assert_eq!(
        refusal_message(PsiRefusal::ScopeNotAllowed, "NotAScope"),
        "Scope NotAScope not allowed in this frame"
    );
    assert_eq!(refusal_message(PsiRefusal::Disabled, "x"), "Psi disabled by ruleset");
}

#[test]
fn fabric_recall_lines() {
    let mut bus = RwwBus::new();
    bus.publish_handoff(1, "pmr.v1", "npmr.academy.v1", 5);
    bus.publish("rww.shard.cross", b"{}", 9, true);
    bus.publish("rww.other", b"x", 1, true);
    let lines = rww_recall(&bus);
    assert_eq!(lines, vec!["rww.handoff @ tick 5".to_string(), "shard cross @ tick 9".to_string()]);
}

#[test]
fn fabric_settings() {
    let c = RwwConfig::from_settings(Some(String::new()), None);
    assert!(c.nats_url.is_none());
    assert_eq!(c.stream_name, "TBC_RWW");
    let d = RwwConfig::from_settings(Some("nats://h:4222".into()), Some("S".into()));
    assert_eq!(d.nats_url.as_deref(), Some("nats://h:4222"));
    assert_eq!(d.stream_name, "S");
}

#[test]
fn content_rules() {
    assert_eq!(brain_kind_from_name("BehaviorTree"), BrainKind::BehaviorTree);
    assert_eq!(brain_kind_from_name("Ml"), BrainKind::Ml);
    assert_eq!(brain_kind_from_name("anything"), BrainKind::Utility);
    assert!(needs_brain("npc", None));
    assert!(needs_brain("statue", Some(true)));
    assert!(!needs_brain("pickup", Some(true)));
    assert!(!needs_brain("statue", Some(false)));
    assert_eq!(normalize_separators("a\\b\\c.json"), "a/b/c.json");
    assert_eq!(normalize_separators("plain"), "plain");
}
