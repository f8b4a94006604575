use std::time::Duration;
use tbc_engine::clock::DeltaTClock;
use tbc_engine::types::Tick;

#[test]
fn accumulator_runs_ticks() {
    let mut clock = DeltaTClock::new(50);
    let steps = clock.drain(Duration::from_millis(100).as_nanos());
    assert_eq!(steps, 2);
    assert_eq!(clock.tick.0, 2);
}

#[test]
fn catchup_caps_at_max() {
    let mut clock = DeltaTClock::new(50);
    let steps = clock.drain(Duration::from_millis(500).as_nanos());
    assert_eq!(steps, 4);
    assert_eq!(clock.acc, Duration::ZERO.as_nanos());
}

#[test]
fn partial_step_stays_in_accumulator() {
    let mut clock = DeltaTClock::new(50);
    let steps = clock.drain(Duration::from_millis(120).as_nanos());
    assert_eq!(steps, 2);
    assert_eq!(clock.acc, Duration::from_millis(20).as_nanos());
    assert_eq!(clock.now(), Tick(2));
    let more = clock.drain(Duration::from_millis(30).as_nanos());
    assert_eq!(more, 1);
    assert_eq!(clock.acc, 0);
    assert_eq!(clock.now(), Tick(3));
}

#[test]
fn new_clock_starts_at_zero() {
    let clock = DeltaTClock::new(200);
    assert_eq!(clock.now(), Tick(0));
    assert_eq!(clock.dt, Duration::from_millis(200).as_nanos());
    assert_eq!(clock.max_catchup, 4);
}
