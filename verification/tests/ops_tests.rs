use tbc_engine::guardrails::GuardrailReport;
use tbc_engine::ops::{FrameOps, OpsSnapshot};
use tbc_engine::persist::ArchiveStats;
use tbc_engine::rww::RwwStatus;
use tbc_engine::shard::ShardNodeStatus;

fn node() -> ShardNodeStatus {
    ShardNodeStatus {
        mode: "cluster".into(),
        shard_id: None,
        distributed: false,
        frame_count: 1,
    }
}

fn memory_rww() -> RwwStatus {
    RwwStatus {
        backend: "memory".into(),
        nats_url: None,
        stream: None,
        connected: false,
    }
}

fn frame() -> FrameOps {
    FrameOps {
        name: "PMR-\"Prime\"".into(),
        ruleset: "pmr.v1".into(),
        tick: 12,
        entities: 3,
        fwau_count: 1,
        island_profiler: None,
        guardrails: Some(GuardrailReport {
            stall_count: 0,
            budget_overruns: 2,
            rate_limited: 1,
            queue_full: 0,
            rewinds_last_tick: 0,
            throttled_ticks: 0,
            within_budget: true,
        }),
    }
}

#[test]
fn ops_snapshot_cluster_ok() {
    let snap = OpsSnapshot::from_parts(node(), None, memory_rww(), 3, vec![frame()]);
    assert_eq!(snap.status, "ok");
    assert!(snap.ready);
    assert!(!snap.prometheus_lines().is_empty());
    assert!(snap.prometheus_lines().contains("tbc_tick"));
    assert_eq!(snap.checks.len(), 4);
    assert_eq!(snap.checks[0].name, "frames_booted");
}

#[test]
fn no_frames_not_ready() {
    let snap = OpsSnapshot::from_parts(node(), None, memory_rww(), 0, vec![]);
    assert!(!snap.ready);
    assert_eq!(snap.status, "unavailable");
}

#[test]
fn prometheus_text_exact() {
    let archive = ArchiveStats {
        souls: 5,
        packets: 2,
        path: "/tmp/a.db".into(),
    };
    let snap = OpsSnapshot::from_parts(node(), Some(archive), memory_rww(), 3, vec![frame()]);
    let labels = "frame=\"PMR-\\\"Prime\\\"\",ruleset=\"pmr.v1\"";
    let expected = format!(
        "tbc_info{{version=\"0.1.0\"}} 1\n\
         tbc_ready 1\n\
         tbc_sessions_active 3\n\
         tbc_frames 1\n\
         tbc_rww_connected 0\n\
         tbc_archive_souls 5\n\
         tbc_archive_packets 2\n\
         tbc_tick{{{l}}} 12\n\
         tbc_entities{{{l}}} 3\n\
         tbc_fwau_count{{{l}}} 1\n\
         tbc_guardrail_stalls{{{l}}} 0\n\
         tbc_guardrail_overruns{{{l}}} 2\n\
         tbc_guardrail_rate_limited{{{l}}} 1\n\
         tbc_guardrail_throttled_ticks{{{l}}} 0\n\
         tbc_guardrail_within_budget{{{l}}} 1\n",
        l = labels
    );
    assert_eq!(snap.prometheus_lines(), expected);
}
