use tbc_engine::crdt_props::{CrdtProp, PropStore};

fn prop(id: &str) -> CrdtProp {
    CrdtProp {
        id: id.into(),
        kind: "thought".into(),
        x_bits: 1.0f32.to_bits(),
        y_bits: 2.0f32.to_bits(),
        z_bits: 0,
        author_fwau: 1,
        placed_tick: 10,
    }
}

#[test]
fn or_set_rejects_duplicate() {
    let mut store = PropStore::new();
    let p = prop("prop:a");
    assert!(store.add(p.clone()));
    assert!(!store.add(p));
    assert_eq!(store.len(), 1);
}

#[test]
fn all_is_sorted_by_id() {
    let mut store = PropStore::new();
    for id in ["prop:b", "prop:a", "prop:c", "prop:aa", "Prop:z"] {
        assert!(store.add(prop(id)));
    }
    let ids: Vec<String> = store.all().into_iter().map(|p| p.id).collect();
    let mut expected = ids.clone();
    expected.sort();
    assert_eq!(ids, expected);
    assert_eq!(ids, vec!["Prop:z", "prop:a", "prop:aa", "prop:b", "prop:c"]);
}
