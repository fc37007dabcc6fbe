use std::time::Duration;
use tkiw::monitor::{
    Monitor, BASE_INTERVAL, MAX_INTERVAL, POLL_BUDGET, POLL_HARD_LIMIT, STEP_GAP_MAX, STEP_GAP_MIN,
    STRIKES_BEFORE_DISABLE,
};

fn ns(d: Duration) -> u64 {
    d.as_nanos() as u64
}

fn monitor() -> Monitor {
    Monitor::new()
}

#[test]
fn healthy_polls_stay_at_the_base_interval() {
    let mut m = monitor();
    for _ in 0..10 {
        m.observe(ns(Duration::from_micros(200)));
    }
    assert_eq!(m.interval, BASE_INTERVAL);
    assert!(!m.disabled);
}

#[test]
fn slow_polls_back_off_and_then_recover() {
    let mut m = monitor();
    m.observe(POLL_BUDGET + ns(Duration::from_millis(1)));
    assert!(m.interval > BASE_INTERVAL, "a slow poll must widen the interval");
    let backed_off = m.interval;

    m.observe(ns(Duration::from_micros(100)));
    assert!(m.interval < backed_off, "a healthy poll must narrow it again");

    for _ in 0..10 {
        m.observe(ns(Duration::from_micros(100)));
    }
    assert_eq!(m.interval, BASE_INTERVAL, "recovery must stop at the base interval");
    assert!(!m.disabled, "backing off must never disable on its own");
}

#[test]
fn backoff_is_bounded() {
    let mut m = monitor();
    for _ in 0..50 {
        m.observe(POLL_BUDGET + ns(Duration::from_millis(1)));
    }
    assert_eq!(m.interval, MAX_INTERVAL);
}

#[test]
fn persistently_awful_polls_disable_the_monitor() {
    let mut m = monitor();
    let awful = POLL_HARD_LIMIT + ns(Duration::from_millis(1));
    for _ in 0..STRIKES_BEFORE_DISABLE - 1 {
        m.observe(awful);
        assert!(!m.disabled, "must not disable before the strike count");
    }
    m.observe(awful);
    assert!(m.disabled, "must disable once the strikes run out");
}

#[test]
fn merely_slow_polls_never_disable() {
    let mut m = monitor();
    // over budget, but nowhere near the hard limit: back off, never disable
    for _ in 0..100 {
        m.observe(POLL_BUDGET + ns(Duration::from_millis(1)));
    }
    assert!(!m.disabled);
}

#[test]
fn a_healthy_poll_clears_the_strikes() {
    let mut m = monitor();
    let awful = POLL_HARD_LIMIT + ns(Duration::from_millis(1));
    for _ in 0..STRIKES_BEFORE_DISABLE - 1 {
        m.observe(awful);
    }
    m.observe(ns(Duration::from_millis(1)));
    assert_eq!(m.over_budget, 0);
    m.observe(awful);
    assert!(!m.disabled, "strikes must be consecutive");
}

#[test]
fn the_interval_doubles_exactly() {
    let mut m = monitor();
    m.observe(POLL_BUDGET + 1);
    assert_eq!(m.interval, 1_000_000_000);
    m.observe(POLL_BUDGET);
    assert_eq!(m.interval, BASE_INTERVAL);
}

#[test]
fn slow_picker_steps_back_off_within_range_and_recover_to_every_frame() {
    let mut m = monitor();
    assert!(m.note_step(30), "the first slow step is logged");
    assert_eq!(m.step_gap, STEP_GAP_MIN);
    for _ in 0..20 {
        m.note_step(30);
    }
    assert_eq!(m.step_gap, STEP_GAP_MAX);
    // slow but not very slow: counted, gap unchanged
    assert!(!m.note_step(10));
    assert_eq!(m.step_gap, STEP_GAP_MAX);
    // fast steps halve the gap, and below the floor the picker runs every frame
    m.note_step(1);
    assert_eq!(m.step_gap, 125_000_000);
    for _ in 0..4 {
        m.note_step(1);
    }
    assert_eq!(m.step_gap, 0);
    assert!(!m.disabled);
}
