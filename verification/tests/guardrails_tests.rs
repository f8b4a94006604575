use tbc_engine::guardrails::{GuardrailConfig, GuardrailState};
use tbc_engine::types::FwauId;

#[test]
fn rate_limit_blocks_burst() {
    let mut g = GuardrailState::new(GuardrailConfig {
        step_budget_per_tick: 35_000,
        intent_rate_per_sec: 4,
        pending_intent_cap: 64,
        max_intents_per_tick: 100,
        max_rewinds_per_tick: 4,
        max_catchup: 4,
    });
    g.begin_tick(50);
    let fwau = FwauId(1);
    assert!(g.allow_intent(fwau));
    assert!(g.allow_intent(fwau));
    assert!(g.allow_intent(fwau));
    assert!(g.allow_intent(fwau));
    assert!(!g.allow_intent(fwau));
    assert_eq!(g.rate_limited, 1);
}

#[test]
fn config_scales_rate_with_tick_length() {
    let c = GuardrailConfig::for_dt_ms(50);
    assert_eq!(c.intent_rate_per_sec, 40);
    assert_eq!(c.step_budget_per_tick, 35_000);
    assert_eq!(c.pending_intent_cap, 64);
    assert_eq!(c.max_intents_per_tick, 8);
    assert_eq!(c.max_rewinds_per_tick, 4);
    assert_eq!(c.max_catchup, 4);
    assert_eq!(GuardrailConfig::for_dt_ms(200).intent_rate_per_sec, 10);
    assert_eq!(GuardrailConfig::for_dt_ms(30).intent_rate_per_sec, 67);
}

#[test]
fn per_tick_intent_cap_resets_each_tick() {
    let mut g = GuardrailState::new(GuardrailConfig::for_dt_ms(50));
    g.begin_tick(50);
    let f = FwauId(3);
    for _ in 0..8 {
        assert!(g.allow_intent(f));
    }
    assert!(!g.allow_intent(f));
    assert!(g.allow_intent(FwauId(4)));
    g.begin_tick(50);
    assert!(g.allow_intent(f));
}

#[test]
fn rewinds_capped_per_tick() {
    let mut g = GuardrailState::new(GuardrailConfig::for_dt_ms(50));
    g.begin_tick(50);
    for _ in 0..4 {
        assert!(g.allow_rewind());
    }
    assert!(!g.allow_rewind());
    g.begin_tick(50);
    assert!(g.allow_rewind());
}

#[test]
fn report_copies_counters() {
    let mut g = GuardrailState::new(GuardrailConfig::for_dt_ms(50));
    g.record_stall();
    g.record_budget_overrun();
    g.record_queue_full();
    g.record_throttled_tick();
    let r = g.report(true);
    assert_eq!(r.stall_count, 1);
    assert_eq!(r.budget_overruns, 1);
    assert_eq!(r.queue_full, 1);
    assert_eq!(r.throttled_ticks, 1);
    assert_eq!(r.rate_limited, 0);
    assert!(r.within_budget);
}
