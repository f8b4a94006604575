use tbc_engine::ecs::{sleep_step, EntitySlots, SleepStep};

#[test]
fn generational_despawn() {
    let mut world = EntitySlots::new();
    let e = world.spawn();
    world.despawn(e);
    assert!(!world.is_live(e));
}

#[test]
fn freed_slot_is_reused_with_new_generation() {
    let mut world = EntitySlots::new();
    let a = world.spawn();
    let b = world.spawn();
    assert_eq!((a.index, a.generation), (0, 0));
    assert_eq!((b.index, b.generation), (1, 0));
    assert!(world.despawn(a));
    assert!(!world.despawn(a));
    let c = world.spawn();
    assert_eq!((c.index, c.generation), (0, 1));
    assert!(world.is_live(c));
    assert!(!world.is_live(a));
    let live = world.all_live();
    assert_eq!(live, vec![c, b]);
}

#[test]
fn sleep_steps() {
    assert_eq!(sleep_step(false, true, 10, 0, 5), SleepStep::Wake);
    assert_eq!(sleep_step(true, true, 10, 0, 5), SleepStep::Keep);
    assert_eq!(sleep_step(true, false, 10, 4, 5), SleepStep::Sleep);
    assert_eq!(sleep_step(true, false, 9, 4, 5), SleepStep::Keep);
    assert_eq!(sleep_step(true, false, 3, 4, 0), SleepStep::Keep);
    assert_eq!(sleep_step(false, false, 100, 0, 5), SleepStep::Keep);
}
