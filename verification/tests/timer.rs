use frame_timer::Buffer;
use frame_timer::Timer;

/// Spins until the clock has visibly advanced past `floor_nanos` since the
/// timer's anchor, without sleeping.
fn busy_wait_elapsed(t: &Timer, floor_nanos: u64) -> u64 {
    loop {
        let e = t.elapsed();
        if e > floor_nanos {
            return e;
        }
    }
}

#[test]
fn timing() {
    let mut t = Timer::new();

    assert!(t.tick() == 0);
    assert!(t.delta() == 0);
    assert!(t.elapsed() == 0);

    t.start();

    assert!(t.elapsed() != 0);
    let dt = t.tick();
    assert!(dt != 0);
    assert_eq!(dt, t.delta());
}

#[test]
fn fresh_timer_reads_zero() {
    let mut t = Timer::new();
    assert_eq!(t.tick(), 0);
    assert_eq!(t.delta(), 0);
    assert_eq!(t.elapsed(), 0);
    assert_eq!(t.average(), 0);
    assert!(t.timings().is_empty());
}

#[test]
fn default_is_stopped() {
    let t = Timer::default();
    assert_eq!(t.elapsed(), 0);
    assert!(t.timings().is_empty());
}

#[test]
fn started_before_any_tick() {
    let mut t = Timer::new();
    t.start();
    let e = busy_wait_elapsed(&t, 0);
    assert!(e > 0);
    assert_eq!(t.average(), 0);
    assert!(t.timings().is_empty());
}

#[test]
fn first_tick_measures_since_start() {
    let mut t = Timer::new();
    t.start();
    let dt = t.tick_at(5_000);
    assert_eq!(dt, 5_000);
    assert_eq!(t.timings(), &[5_000][..]);
    assert_eq!(t.delta(), 5_000);
}

#[test]
fn first_tick_real_clock() {
    let mut t = Timer::new();
    t.start();
    let before = t.elapsed();
    let dt = t.tick();
    let after = t.elapsed();
    // the first tick measures time since start, so it is bracketed by two
    // elapsed readings taken around it
    assert!(dt >= before);
    assert!(dt <= after);
    assert_eq!(t.timings().len(), 1);
    assert_eq!(t.timings()[0], dt);
    assert_eq!(t.delta(), dt);
}

#[test]
fn second_tick_measures_gap_between_ticks() {
    let mut t = Timer::new();
    t.start();
    assert_eq!(t.tick_at(5_000), 5_000);
    // the second tick reports the gap between the two ticks, not the
    // 12_000 ns since start
    assert_eq!(t.tick_at(12_000), 7_000);
    assert_eq!(t.delta(), 7_000);
    assert_eq!(t.timings(), &[5_000, 7_000][..]);
}

#[test]
fn second_tick_real_clock() {
    let mut t = Timer::new();
    t.start();
    let dt1 = t.tick();
    // let a real gap pass, much longer than the start-to-first-tick gap
    let gap_floor = 50 * (dt1 + 1_000);
    busy_wait_elapsed(&t, gap_floor);
    let dt2 = t.tick();
    // dt2 covers only the gap between the ticks, yet dominates dt1
    assert!(dt2 > dt1);
    assert!(dt2 <= t.elapsed());
}

#[test]
fn history_length_is_capped() {
    let mut t = Timer::new();
    t.start();
    for i in 0..3u64 {
        t.tick_at(i * 10);
        assert!(t.timings().len() <= (i + 1) as usize);
    }
    assert_eq!(t.timings().len(), 3);
    for i in 3..450u64 {
        t.tick_at(i * 10);
    }
    assert_eq!(t.timings().len(), 400);
}

#[test]
fn average_of_identical_samples_is_half() {
    let mut t = Timer::new();
    t.start();
    // gaps of exactly 6_000 ns each
    for i in 1..=5u64 {
        assert_eq!(t.tick_at(i * 6_000), 6_000);
    }
    // sum 30_000 over divisor 2 * 5: half the sample value
    assert_eq!(t.average(), 3_000);
}

#[test]
fn average_rounds_down() {
    let mut t = Timer::new();
    t.start();
    t.tick_at(5);
    t.tick_at(10);
    // sum 10 over divisor 2 * 2 = 4, and 5 / 2 rounds down to 2
    assert_eq!(t.average(), 2);
    let mut u = Timer::new();
    u.start();
    u.tick_at(3);
    u.tick_at(10);
    // sum 10 over divisor 2 * 2 rounds down to 2
    assert_eq!(u.average(), 2);
}

#[test]
fn restart_clears_state() {
    let mut t = Timer::new();
    t.start();
    for i in 1..=10u64 {
        t.tick_at(i * 1_000);
    }
    busy_wait_elapsed(&t, 50_000_000);
    t.start();
    assert!(t.timings().is_empty());
    assert_eq!(t.average(), 0);
    // the anchor is fresh: well under the 50 ms the first run waited
    assert!(t.elapsed() < 50_000_000);
}

#[test]
fn buffer_keeps_most_recent_in_rotated_order() {
    let mut b = Buffer::<4>::new();
    assert!(b.as_slice().is_empty());
    b.push(1);
    assert_eq!(b.as_slice(), &[1][..]);
    b.push(2);
    b.push(3);
    assert_eq!(b.as_slice(), &[1, 2, 3][..]);
    b.push(4);
    assert_eq!(b.as_slice(), &[1, 2, 3, 4][..]);
    // wrapping overwrites the oldest slots in place
    b.push(5);
    assert_eq!(b.as_slice(), &[5, 2, 3, 4][..]);
    b.push(6);
    assert_eq!(b.as_slice(), &[5, 6, 3, 4][..]);
}

#[test]
fn buffer_length_saturates() {
    let mut b = Buffer::<3>::new();
    for i in 0..100u64 {
        b.push(i);
        assert!(b.as_slice().len() <= 3);
    }
    assert_eq!(b.as_slice(), &[99, 97, 98][..]);
}
