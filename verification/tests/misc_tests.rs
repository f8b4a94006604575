use tbc_engine::consent_wire::WireConsentStamp;
use tbc_engine::grid::{neighborhood_keys, CellIndex, CellKey};
use tbc_engine::intent::{Intent, IntentQueue, Verb};
use tbc_engine::islands::{cap_clusters, IslandProfiler, STEP_BUDGET_PER_TICK, TARGET_ISLANDS};
use tbc_engine::persist::{parse_u128, PersistError};
use tbc_engine::planner::{rank_templates, starter_pool};
use tbc_engine::shard::ShardNodeConfig;
use tbc_engine::types::{Entity, FwauId, IuocId, QualityBand, Tick};

fn key(x: i32) -> CellKey {
    CellKey {
        level: 1,
        x,
        y: 0,
        z: 0,
    }
}

#[test]
fn cell_move_stays_o1_when_same_cell() {
    let mut grid = CellIndex::new();
    let e = Entity {
        index: 0,
        generation: 0,
    };
    grid.insert_entity(e, key(0));
    let dirty = grid.on_move(e, key(0));
    assert!(dirty.is_empty());
}

#[test]
fn query_returns_nearby_entities() {
    let mut grid = CellIndex::new();
    let e1 = Entity {
        index: 1,
        generation: 0,
    };
    let e2 = Entity {
        index: 2,
        generation: 0,
    };
    grid.insert_entity(e1, key(0));
    grid.insert_entity(e2, key(7));
    let found = grid.entities_near(key(0));
    assert_eq!(found.len(), 1);
    assert_eq!(found[0], e1);
}

#[test]
fn move_across_cells_notifies_both_sides() {
    let mut grid = CellIndex::new();
    let e = Entity {
        index: 0,
        generation: 0,
    };
    grid.insert_entity(e, key(0));
    grid.subscribe_fwau(FwauId(1), key(-1));
    grid.subscribe_fwau(FwauId(2), key(3));
    let dirty = grid.on_move(e, key(2));
    assert!(dirty.contains(&FwauId(1)));
    assert!(dirty.contains(&FwauId(2)));
    grid.remove_entity(e);
    assert!(grid.entities_near(key(2)).is_empty());
}

#[test]
fn neighborhood_has_27_cells() {
    let keys = neighborhood_keys(key(5));
    assert_eq!(keys.len(), 27);
    assert_eq!(keys[0], CellKey { level: 1, x: 4, y: -1, z: -1 });
    assert_eq!(keys[26], CellKey { level: 1, x: 6, y: 1, z: 1 });
}

#[test]
fn returns_five_offers() {
    let offers = rank_templates(starter_pool(), &vec![]);
    assert_eq!(offers.len(), 5);
}

#[test]
fn seen_templates_rank_last() {
    let pool = starter_pool();
    let first = pool[0].id.clone();
    let offers = rank_templates(pool, &vec![first.clone()]);
    assert!(offers.iter().all(|o| o.id != first) || offers.last().unwrap().id == first);
}

#[test]
fn profiler_budget_at_40_islands() {
    let mut p = IslandProfiler::default();
    p.record_tick(40, 80 * 10, 20, 0);
    assert_eq!(p.island_count, 40);
    assert!(p.within_budget);
    p.record_tick(40, STEP_BUDGET_PER_TICK + 1, 20, 0);
    assert!(!p.within_budget);
    assert_eq!(p.ticks_profiled, 2);
}

#[test]
fn intent_queue_drains_due() {
    let mut q = IntentQueue::with_cap(2);
    let mk = |t: u64| Intent {
        fwau: FwauId(1),
        tick: Tick(t),
        seq: 0,
        verb: Verb::Move,
        payload: vec![],
        consent: None,
        checksum: 0,
    };
    assert!(q.push(mk(5)));
    assert!(q.push(mk(2)));
    assert!(!q.push(mk(1)));
    let due = q.drain_for_tick(Tick(3));
    assert_eq!(due.len(), 1);
    assert_eq!(due[0].tick, Tick(2));
    assert_eq!(q.len(), 1);
}

#[test]
fn wire_intent_carries_consent_stamp() {
    let stamp = WireConsentStamp {
        target: 42,
        scope: "assist".into(),
        expires_tick: 99_999,
    };
    let intent_stamp = stamp.to_intent_stamp();
    assert_eq!(intent_stamp.scope, "assist");
    assert_eq!(intent_stamp.target, 42);
    let again = WireConsentStamp::from_grant(IuocId(42), IuocId(7), "assist", 99_999);
    assert_eq!(again.target, 42);
    assert_eq!(again.expires_tick, 99_999);
}

#[test]
fn parse_ids() {
    assert_eq!(parse_u128("12345").unwrap(), 12345);
    assert_eq!(parse_u128("+7").unwrap(), 7);
    assert!(matches!(parse_u128("1x"), Err(PersistError::ParseId(s)) if s == "1x"));
    assert!(parse_u128("").is_err());
    assert!(parse_u128("340282366920938463463374607431768211456").is_err());
    assert_eq!(PersistError::Sqlite("boom".into()).message(), "sqlite: boom");
}

#[test]
fn shard_settings() {
    let c = ShardNodeConfig::from_setting(None);
    assert!(!c.distributed);
    assert_eq!(c.label(), "cluster");
    let d = ShardNodeConfig::from_setting(Some("1"));
    assert!(d.distributed);
    assert_eq!(d.shard_id, Some(1));
    assert_eq!(d.label(), "distributed-shard");
    assert_eq!(ShardNodeConfig::from_setting(Some("x")).shard_id, Some(0));
}

#[test]
fn entity_text_and_bands() {
    let e = Entity {
        index: 3,
        generation: 9,
    };
    assert_eq!(e.to_display_string(), "e3:9");
    assert!(e.is_valid());
    assert!(!Entity::invalid().is_valid());
    assert_eq!(QualityBand::Coherent.label(), "Coherent");
}

#[test]
fn clusters_capped_at_target() {
    let clusters: Vec<Vec<u32>> = (0..45u32).map(|i| vec![i; (i % 3 + 1) as usize]).collect();
    let total: usize = clusters.iter().map(|c| c.len()).sum();
    let capped = cap_clusters(clusters);
    assert_eq!(capped.len(), TARGET_ISLANDS);
    assert_eq!(capped.iter().map(|c| c.len()).sum::<usize>(), total);
    let few: Vec<Vec<u32>> = vec![vec![1], vec![2, 3]];
    assert_eq!(cap_clusters(few.clone()), few);
}

#[test]
fn smallest_clusters_merge_first() {
    let mut clusters: Vec<Vec<u32>> = (0..39u32).map(|i| vec![i, i]).collect();
    clusters.push(vec![100]);
    clusters.push(vec![200]);
    let capped = cap_clusters(clusters);
    assert_eq!(capped.len(), 40);
    assert_eq!(capped.last().unwrap(), &vec![100, 200]);
}
