use tbc_engine::clock::DeltaTClock;
use tbc_engine::ecs::EntitySlots;
use tbc_engine::gameplay::{clone_tax_due, spends_stamina, Conservation, VerbFailure};
use tbc_engine::guardrails::{GuardrailConfig, GuardrailState};
use tbc_engine::intent::ConsentStamp;
use tbc_engine::iuoc::{assist_consent, pact_string, IuocRegistry};
use tbc_engine::ops::{FrameOps, OpsSnapshot};
use tbc_engine::planner::{rank_templates, starter_pool};
use tbc_engine::rww::RwwStatus;
use tbc_engine::shard::ShardNodeStatus;
use tbc_engine::social::speak_check;
use tbc_engine::types::FwauId;

#[test]
fn speech_trims_every_unicode_space() {
    let spaces = [
        '\u{9}', '\u{a}', '\u{b}', '\u{c}', '\u{d}', ' ', '\u{85}', '\u{a0}', '\u{1680}',
        '\u{2000}', '\u{2001}', '\u{2002}', '\u{2003}', '\u{2004}', '\u{2005}', '\u{2006}',
        '\u{2007}', '\u{2008}', '\u{2009}', '\u{200a}', '\u{2028}', '\u{2029}', '\u{202f}',
        '\u{205f}', '\u{3000}',
    ];
    for c in spaces {
        let text = format!("{c}{c}word{c}");
        assert_eq!(speak_check(true, &text, false), Ok("word".to_string()));
    }
    assert_eq!(speak_check(true, "\u{200b}word", false), Ok("\u{200b}word".to_string()));
    assert_eq!(speak_check(true, "\u{180e}word", false), Ok("\u{180e}word".to_string()));
}

#[test]
fn speech_limit_counts_bytes_after_trimming() {
    let sixty = "é".repeat(60);
    assert_eq!(speak_check(true, &format!("  {sixty}  "), false), Ok(sixty.clone()));
    let sixty_one = "é".repeat(61);
    assert_eq!(speak_check(true, &sixty_one, false), Err(VerbFailure::BadSpeech));
    assert_eq!(speak_check(true, &sixty_one, true), Err(VerbFailure::BadSpeech));
    assert_eq!(speak_check(true, "\u{3000}\n", true), Err(VerbFailure::BadSpeech));
    assert_eq!(speak_check(true, &"a".repeat(121), false), Err(VerbFailure::BadSpeech));
    assert_eq!(speak_check(true, &"a".repeat(120), true), Err(VerbFailure::BadStamp));
}

#[test]
fn freed_slot_comes_back_one_generation_up() {
    let mut w = EntitySlots::new();
    let a = w.spawn();
    let b = w.spawn();
    let c = w.spawn();
    assert!(w.despawn(a));
    assert!(w.despawn(c));
    let d = w.spawn();
    assert_eq!((d.index, d.generation), (c.index, c.generation + 1));
    let e = w.spawn();
    assert_eq!((e.index, e.generation), (a.index, a.generation + 1));
    let f = w.spawn();
    assert_eq!((f.index, f.generation), (3, 0));
    assert!(w.is_live(b));
}

#[test]
fn fresh_bucket_holds_one_second_of_intents() {
    let mut g = GuardrailState::new(GuardrailConfig {
        step_budget_per_tick: 35_000,
        intent_rate_per_sec: 2,
        pending_intent_cap: 64,
        max_intents_per_tick: 100,
        max_rewinds_per_tick: 4,
        max_catchup: 4,
    });
    let f = FwauId(9);
    assert!(g.allow_intent(f));
    assert!(g.allow_intent(f));
    assert!(!g.allow_intent(f));
    g.begin_tick(500);
    assert!(g.allow_intent(f));
    assert!(!g.allow_intent(f));
    assert_eq!(g.rate_limited, 2);
}

#[test]
fn capped_catchup_reports_a_stall() {
    let mut c = DeltaTClock::new(50);
    assert_eq!(c.drain_reporting_stall(500_000_000), (4, true));
    assert_eq!(c.acc, 0);
    assert_eq!(c.tick.0, 4);
    let mut exact = DeltaTClock::new(50);
    assert_eq!(exact.drain_reporting_stall(200_000_000), (4, false));
    let mut under = DeltaTClock::new(50);
    assert_eq!(under.drain_reporting_stall(260_000_000), (4, true));
    let mut partial = DeltaTClock::new(50);
    assert_eq!(partial.drain_reporting_stall(60_000_000), (1, false));
    assert_eq!(partial.acc, 10_000_000);
    let mut g = GuardrailState::new(GuardrailConfig::for_dt_ms(50));
    let (steps, stalled) = DeltaTClock::new(50).drain_reporting_stall(500_000_000);
    if stalled {
        g.record_stall();
    }
    assert_eq!(steps, 4);
    assert_eq!(g.stall_count, 1);
}

#[test]
fn clone_tax_falls_due_after_delay() {
    assert_eq!(clone_tax_due(Conservation::Granted, "clone-tax", 10), Some(410));
    assert_eq!(clone_tax_due(Conservation::Granted, "unique", 10), None);
    assert_eq!(clone_tax_due(Conservation::AlreadyCarried, "clone-tax", 10), None);
    assert_eq!(clone_tax_due(Conservation::Unchanged, "clone-tax", 10), None);
}

#[test]
fn stamina_spent_only_when_target_reached() {
    assert!(spends_stamina(Ok(())));
    assert!(spends_stamina(Err(VerbFailure::TargetMissing)));
    assert!(spends_stamina(Err(VerbFailure::TargetUnaffected)));
    assert!(!spends_stamina(Err(VerbFailure::StaminaExhausted)));
    assert!(!spends_stamina(Err(VerbFailure::NoConsent)));
    assert!(!spends_stamina(Err(VerbFailure::OutOfRange)));
}

#[test]
fn assist_consent_paths() {
    let mut reg = IuocRegistry::new();
    let target = reg.create_soul();
    let helper = reg.create_soul();
    assert!(assist_consent(&reg, true, true, None, None, None, 0, 0));
    assert!(!assist_consent(&reg, true, false, Some(helper), None, Some(target), 0, 0));
    reg.add_consent_pact(target, pact_string("assist", helper, 100)).unwrap();
    assert!(assist_consent(&reg, false, false, Some(helper), None, Some(target), 0, 50));
    assert!(!assist_consent(&reg, false, false, Some(helper), None, Some(target), 0, 101));
    assert!(!assist_consent(&reg, false, false, None, None, Some(target), 0, 50));
    let stamp = ConsentStamp { target: target.0, scope: "assist".into(), expires_tick: 100 };
    assert!(assist_consent(&reg, false, false, Some(helper), Some(&stamp), None, 100, 0));
    assert!(!assist_consent(&reg, false, false, Some(helper), Some(&stamp), Some(target), 101, 0));
    let wrong = ConsentStamp { target: target.0, scope: "assist".into(), expires_tick: 99 };
    assert!(!assist_consent(&reg, false, false, Some(helper), Some(&wrong), Some(target), 0, 0));
}

fn frame(name: &str, guarded: bool) -> FrameOps {
    FrameOps {
        name: name.into(),
        ruleset: "r\\1".into(),
        tick: 7,
        entities: 2,
        fwau_count: 1,
        island_profiler: None,
        guardrails: if guarded {
            Some(tbc_engine::guardrails::GuardrailReport {
                stall_count: 0,
                budget_overruns: 0,
                rate_limited: 0,
                queue_full: 0,
                rewinds_last_tick: 0,
                throttled_ticks: 0,
                within_budget: true,
            })
        } else {
            None
        },
    }
}

#[test]
fn prometheus_line_count_and_escaping() {
    let node = ShardNodeStatus { mode: "cluster".into(), shard_id: None, distributed: false, frame_count: 2 };
    let rww = RwwStatus { backend: "memory".into(), nats_url: None, stream: None, connected: false };
    let snap = OpsSnapshot::from_parts(node, None, rww, 1, vec![frame("a\"b", true), frame("c", false)]);
    let text = snap.prometheus_lines();
    assert!(text.ends_with('\n'));
    assert_eq!(text.lines().count(), 5 + 8 + 3);
    assert!(text.lines().all(|l| l.rsplit_once(' ').map(|(_, v)| v.parse::<u64>().is_ok()).unwrap_or(false)));
    assert!(text.contains("frame=\"a\\\"b\",ruleset=\"r\\\\1\""));
    assert_eq!(text.lines().nth(1), Some("tbc_ready 1"));
    let node = ShardNodeStatus { mode: "cluster".into(), shard_id: None, distributed: false, frame_count: 0 };
    let rww = RwwStatus { backend: "memory".into(), nats_url: None, stream: None, connected: false };
    let empty = OpsSnapshot::from_parts(node, None, rww, 0, vec![]).prometheus_lines();
    assert_eq!(empty.lines().count(), 5);
    assert!(!empty.contains("tbc_tick{"));
}

#[test]
fn offers_are_distinct_and_unseen_first() {
    let seen = vec!["pkt.merchant".to_string(), "pkt.hermit".to_string()];
    let offers = rank_templates(starter_pool(), &seen);
    let ids: Vec<&str> = offers.iter().map(|t| t.id.as_str()).collect();
    assert_eq!(ids, vec!["pkt.watcher", "pkt.healer", "pkt.scholar", "pkt.guard", "pkt.merchant"]);
}

#[test]
fn json_escapes_controls_quotes_and_backslashes() {
    let mut bus = tbc_engine::rww::RwwBus::new();
    let msg = bus.publish_fwau_bound(7, "a\u{1}\"\\\n\u{8}\t\u{c}\r\u{1f}é\u{7f}/", 1);
    let text = String::from_utf8(msg.payload.clone()).unwrap();
    assert_eq!(
        text,
        "{\"event\":\"FwauBound\",\"frame\":\"a\\u0001\\\"\\\\\\n\\b\\t\\f\\r\\u001fé\u{7f}/\",\"fwau\":\"7\"}"
    );
}

#[test]
fn message_ids_are_crockford_ulids() {
    let mut bus = tbc_engine::rww::RwwBus::new();
    let msg = bus.publish("rww.id", b"x", 1, false);
    assert_eq!(msg.id.chars().count(), 26);
    assert!(msg.id.chars().all(|c| "0123456789ABCDEFGHJKMNPQRSTVWXYZ".contains(c)));
    assert!(msg.id.chars().next().unwrap() <= '7');
}

#[test]
fn announcements_are_read_back() {
    let mut bus = tbc_engine::rww::RwwBus::new();
    let h = bus.publish_handoff(3, "pmr.v1", "npmr.academy.v1", 8);
    let b = bus.publish_fwau_bound(3, "pmr.v1", 9);
    let handoffs = bus.recent("rww.handoff", 10);
    assert_eq!(handoffs.len(), 1);
    assert_eq!(handoffs[0].id, h.id);
    let bound = bus.recent("rww.bound.pmr.v1.3", 10);
    assert_eq!(bound.len(), 1);
    assert_eq!(bound[0].id, b.id);
}
