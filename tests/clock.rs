use fyrebird::time::{saturate_nanos, Time, TimeSystem, Timer, DEFAULT_FIXED_STEP_NANOS, DEFAULT_MAX_DELTA_NANOS};

#[test]
fn three_frames_of_twenty_ms_give_three_steps() {
    let mut t = Time::with_step(DEFAULT_FIXED_STEP_NANOS, DEFAULT_MAX_DELTA_NANOS);
    t.update_at(20_000_000);
    t.update_at(40_000_000);
    t.update_at(60_000_000);
    assert_eq!(t.accumulator_nanos(), 60_000_000);
    let mut steps = 0;
    while t.should_fixed_update() {
        t.consume_fixed_update();
        steps += 1;
    }
    assert_eq!(steps, 3);
    // 0.06 s less three steps of 1/60 s leaves about 0.01 s
    assert_eq!(t.accumulator_nanos(), 60_000_000 - 3 * 16_666_667);
    let secs = t.accumulator_nanos() as f64 / 1e9;
    assert!((secs - 0.01).abs() < 1e-6);
}

#[test]
fn drain_matches_consume_loop() {
    let mut t = Time::with_step(10, 1000);
    t.update_at(95);
    assert_eq!(t.drain_fixed_updates(), 9);
    assert_eq!(t.accumulator_nanos(), 5);
    assert!(!t.should_fixed_update());
}

#[test]
fn no_time_lost_over_uneven_frames() {
    let mut t = Time::with_step(7, 100);
    let readings = [3u64, 20, 21, 60, 61, 99, 150];
    let mut steps = 0;
    for &now in readings.iter() {
        t.update_at(now);
        steps += t.drain_fixed_updates();
    }
    assert_eq!(steps, 150 / 7);
    assert_eq!(t.accumulator_nanos(), 150 % 7);
}

#[test]
fn long_stall_is_clamped() {
    let mut t = Time::new();
    t.update_at(10_000_000_000);
    assert_eq!(t.delta_nanos(), DEFAULT_MAX_DELTA_NANOS);
    assert_eq!(t.drain_fixed_updates(), DEFAULT_MAX_DELTA_NANOS / DEFAULT_FIXED_STEP_NANOS);
    assert_eq!(t.drain_fixed_updates(), 0);
    assert_eq!(t.last_tick_nanos(), 10_000_000_000);
}

#[test]
fn earlier_reading_credits_nothing() {
    let mut t = Time::with_step(10, 100);
    t.update_at(50);
    t.update_at(40);
    assert_eq!(t.delta_nanos(), 0);
    assert_eq!(t.accumulator_nanos(), 50);
    assert_eq!(t.last_tick_nanos(), 50);
}

#[test]
fn reset_empties_accumulator() {
    let mut t = Time::with_step(10, 100);
    t.update_at(35);
    t.reset_accumulator();
    assert_eq!(t.accumulator_nanos(), 0);
    assert_eq!(t.fixed_step_nanos(), 10);
    assert_eq!(t.max_delta_nanos(), 100);
}

#[test]
fn sampled_update_moves_forward() {
    let mut t = Time::new();
    t.update();
    assert!(t.delta_nanos() <= DEFAULT_MAX_DELTA_NANOS);
    assert!(t.total_time() >= t.last_tick_nanos());
}

#[test]
fn timer_completes_once() {
    let mut timers = vec![Timer::new(100)];
    let mut sys = TimeSystem;
    sys.run(&mut timers, 60);
    assert_eq!(timers[0].elapsed, 60);
    assert!(!timers[0].completed);
    sys.run(&mut timers, 60);
    assert_eq!(timers[0].elapsed, 120);
    assert!(timers[0].completed);
    sys.run(&mut timers, 60);
    assert_eq!(timers[0].elapsed, 120);
}

#[test]
fn looping_timer_keeps_remainder() {
    let mut t = Timer::new_looping(100);
    t.tick(250);
    assert_eq!(t.elapsed, 50);
    assert!(!t.completed);
    assert!(t.looping);
}

#[test]
fn paused_timer_stands_still() {
    let mut t = Timer::new(100);
    t.pause();
    t.tick(50);
    assert_eq!(t.elapsed, 0);
    t.start();
    t.tick(50);
    assert_eq!(t.progress(), 500_000);
    t.reset();
    assert_eq!(t.elapsed, 0);
    let d = Timer::default();
    assert!(!d.running);
    assert_eq!(d.duration, 1_000_000_000);
    assert_eq!(Timer::new(0).progress(), 1_000_000);
}

#[test]
fn nanosecond_counts_saturate() {
    assert_eq!(saturate_nanos(42), 42);
    assert_eq!(saturate_nanos(u64::MAX as u128), u64::MAX);
    assert_eq!(saturate_nanos(u64::MAX as u128 + 1), u64::MAX);
}
