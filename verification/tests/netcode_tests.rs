use tbc_engine::guardrails::{GuardrailConfig, GuardrailState};
use tbc_engine::intent::{Intent, Verb};
use tbc_engine::netcode::{admit_intent, Correction, EntityPose, IntentReject, NetcodeState};
use tbc_engine::types::{Entity, FwauId, Tick};

fn dummy_intent(fwau: FwauId, tick: u64) -> Intent {
    Intent {
        fwau,
        tick: Tick(tick),
        seq: 1,
        verb: Verb::Move,
        payload: vec![],
        consent: None,
        checksum: 0,
    }
}

#[test]
fn late_intent_signals_rewind() {
    let mut net = NetcodeState::new();
    net.auth_tick = Tick(10);
    net.store_snapshot(Tick(10), vec![], 0);

    let fwau = FwauId(1);
    let needs_rewind = net
        .accept_intent(dummy_intent(fwau, 8), 64)
        .expect("should accept");
    assert!(needs_rewind);
}

#[test]
fn too_old_rejected() {
    let mut net = NetcodeState::new();
    net.auth_tick = Tick(20);
    let err = net
        .accept_intent(dummy_intent(FwauId(1), 1), 64)
        .unwrap_err();
    assert_eq!(err, IntentReject::TooOld);
}

#[test]
fn too_far_ahead_rejected() {
    let mut net = NetcodeState::new();
    net.auth_tick = Tick(10);
    assert_eq!(
        net.accept_intent(dummy_intent(FwauId(1), 15), 64),
        Err(IntentReject::TooFarAhead)
    );
    assert_eq!(net.accept_intent(dummy_intent(FwauId(1), 14), 64), Ok(false));
}

#[test]
fn full_bucket_rejected() {
    let mut net = NetcodeState::new();
    assert_eq!(net.accept_intent(dummy_intent(FwauId(1), 1), 2), Ok(false));
    assert_eq!(net.accept_intent(dummy_intent(FwauId(1), 2), 2), Ok(false));
    assert_eq!(
        net.accept_intent(dummy_intent(FwauId(1), 3), 2),
        Err(IntentReject::QueueFull)
    );
    assert_eq!(net.pending_count(FwauId(1)), 2);
    assert_eq!(net.pending_count(FwauId(2)), 0);
}

#[test]
fn pending_for_tick_and_clear() {
    let mut net = NetcodeState::new();
    net.accept_intent(dummy_intent(FwauId(1), 3), 64).unwrap();
    net.accept_intent(dummy_intent(FwauId(2), 3), 64).unwrap();
    net.accept_intent(dummy_intent(FwauId(2), 4), 64).unwrap();
    assert_eq!(net.pending_for_tick(Tick(3)).len(), 2);
    net.clear_pending_through(Tick(3));
    assert!(net.pending_for_tick(Tick(3)).is_empty());
    assert_eq!(net.pending_for_tick(Tick(4)).len(), 1);
}

#[test]
fn snapshot_ring_reads_back_recent_ticks() {
    let mut net = NetcodeState::new();
    let pose = EntityPose {
        entity: Entity {
            index: 1,
            generation: 0,
        },
        x_bits: 1.5f32.to_bits(),
        y_bits: 0,
        z_bits: 0,
    };
    net.store_snapshot(Tick(3), vec![pose], 77);
    assert_eq!(net.auth_tick, Tick(3));
    let snap = net.snapshot_at(Tick(3)).unwrap();
    assert_eq!(snap.checksum, 77);
    assert_eq!(f32::from_bits(snap.poses[0].x_bits), 1.5);
    net.store_snapshot(Tick(11), vec![], 1);
    assert!(net.snapshot_at(Tick(3)).is_none());
    assert_eq!(NetcodeState::ring_index(11), 3);
}

#[test]
fn corrections_and_rejects_drain_in_order() {
    let mut net = NetcodeState::new();
    net.record_reject(FwauId(4), IntentReject::SpeedHack);
    net.record_reject(FwauId(5), IntentReject::RateLimited);
    let rejects = net.drain_rejects();
    assert_eq!(rejects.len(), 2);
    assert_eq!(rejects[0].0, FwauId(4));
    assert_eq!(rejects[1].1, IntentReject::RateLimited);
    assert!(net.drain_rejects().is_empty());
    net.push_correction(Correction {
        from_tick: 1,
        checksums: std::collections::HashMap::new(),
        poses: vec![],
    });
    assert_eq!(net.drain_corrections().len(), 1);
}

fn guardrails() -> GuardrailState {
    let mut g = GuardrailState::new(GuardrailConfig::for_dt_ms(50));
    g.begin_tick(50);
    g
}

#[test]
fn unknown_fwau_rejected() {
    let mut net = NetcodeState::new();
    let mut g = guardrails();
    let intent = Intent {
        fwau: FwauId(999),
        tick: Tick(1),
        seq: 1,
        verb: Verb::Move,
        payload: vec![0, 0, 0, 0, 0, 0, 0, 0],
        consent: None,
        checksum: 0,
    };
    let err = admit_intent(&mut net, &mut g, false, true, intent).unwrap_err();
    assert_eq!(err, IntentReject::UnknownFwau);
    assert_eq!(net.drain_rejects(), vec![(FwauId(999), IntentReject::UnknownFwau)]);
}

#[test]
fn speed_hack_rejected_and_recorded() {
    let mut net = NetcodeState::new();
    let mut g = guardrails();
    let err = admit_intent(&mut net, &mut g, true, false, dummy_intent(FwauId(1), 1)).unwrap_err();
    assert_eq!(err, IntentReject::SpeedHack);
    assert_eq!(net.pending_count(FwauId(1)), 0);
}

#[test]
fn late_admitted_intent_asks_for_rewind() {
    let mut net = NetcodeState::new();
    net.store_snapshot(Tick(10), vec![], 0);
    let mut g = guardrails();
    assert_eq!(
        admit_intent(&mut net, &mut g, true, true, dummy_intent(FwauId(1), 8)),
        Ok(Some(Tick(8)))
    );
    assert_eq!(
        admit_intent(&mut net, &mut g, true, true, dummy_intent(FwauId(1), 11)),
        Ok(None)
    );
}
