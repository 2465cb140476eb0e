use prismdmx::clock::{
    duration_of_nanos, sleep_slice, Clock, ManualClock, SystemClock, SLEEP_SLICE_NANOS, TICK_HZ,
};
use std::time::Duration;

#[test]
fn a_manual_clock_starts_at_zero_and_only_moves_forward() {
    let mut clock = ManualClock::new();
    assert_eq!(clock.now(), Duration::ZERO);
    clock.advance(Duration::from_millis(5));
    assert_eq!(clock.now(), Duration::from_millis(5));
    clock.sleep_until(Duration::from_millis(1));
    assert_eq!(clock.now(), Duration::from_millis(5));
}

#[test]
fn a_manual_clock_wakes_exactly_on_the_deadline_by_default() {
    let mut clock = ManualClock::new();
    clock.sleep_until(Duration::from_millis(20));
    assert_eq!(clock.now(), Duration::from_millis(20));
}

#[test]
fn a_manual_clock_can_be_told_to_overshoot_like_a_real_scheduler() {
    let mut clock = ManualClock::with_overshoot(Duration::from_micros(900));
    clock.sleep_until(Duration::from_millis(10));
    let first = clock.now();
    assert!(first >= Duration::from_millis(10));
    assert!(first <= Duration::from_micros(10_900));

    clock.sleep_until(Duration::from_millis(20));
    let second = clock.now();
    assert!(second >= Duration::from_millis(20));
    assert!(second <= Duration::from_micros(20_900));
    assert_ne!(
        second - Duration::from_millis(20),
        first - Duration::from_millis(10),
        "overshoot must vary, or drift can hide inside a constant"
    );
}

#[test]
fn a_system_clock_does_not_return_before_the_deadline() {
    let mut clock = SystemClock::new();
    let deadline = clock.now() + Duration::from_millis(5);
    clock.sleep_until(deadline);
    assert!(clock.now() >= deadline);
}

#[test]
fn a_nap_is_never_longer_than_one_slice_and_never_reaches_the_margin() {
    let clock = SystemClock::new();
    let margin = clock.spin_margin();
    let slice = sleep_slice();

    let period = Duration::from_micros(22_727);
    assert_eq!(clock.nap(period), Some(slice));

    assert_eq!(clock.nap(margin + slice * 2), Some(slice));
    assert_eq!(clock.nap(margin + slice), Some(slice));
    assert_eq!(
        clock.nap(margin + Duration::from_micros(300)),
        Some(Duration::from_micros(300))
    );

    assert_eq!(clock.nap(margin), None);
    assert_eq!(clock.nap(margin / 2), None);
    assert_eq!(clock.nap(Duration::ZERO), None);
}

#[test]
fn no_nap_ever_overshoots_the_margin_or_the_slice() {
    let clock = SystemClock::new();
    let margin = clock.spin_margin();
    let slice = sleep_slice();

    let mut remaining = Duration::ZERO;
    let limit = Duration::from_micros(22_727 * 3);
    while remaining <= limit {
        if let Some(nap) = clock.nap(remaining) {
            assert!(
                nap <= slice,
                "a nap of {nap:?} with {remaining:?} left is longer than one slice"
            );
            assert!(
                nap + margin <= remaining,
                "a nap of {nap:?} with {remaining:?} left eats into the {margin:?} margin"
            );
        } else {
            assert!(
                remaining <= margin,
                "{remaining:?} left is more than the {margin:?} margin and should still sleep"
            );
        }
        remaining += Duration::from_micros(37);
    }
}

#[test]
fn the_slice_bounds_one_sleep_and_not_the_whole_wait() {
    let mut clock = SystemClock::new();
    let deadline = clock.now() + sleep_slice() * 5;
    clock.sleep_until(deadline);
    assert!(clock.now() >= deadline);
}

#[test]
fn a_system_clock_deadline_in_the_past_returns_immediately() {
    let mut clock = SystemClock::new();
    let before = clock.now();
    clock.sleep_until(Duration::ZERO);
    assert!(clock.now() - before < Duration::from_millis(5));
}

#[test]
fn a_system_clock_measures_from_its_own_creation() {
    let clock = SystemClock::new();
    assert!(clock.now() < Duration::from_millis(50));
}

#[test]
fn the_default_clocks_are_the_plain_ones() {
    assert_eq!(
        SystemClock::default().spin_margin(),
        Duration::from_millis(1)
    );
    let mut manual = ManualClock::default();
    manual.sleep_until(Duration::from_millis(7));
    assert_eq!(manual.now(), Duration::from_millis(7));
}

#[test]
fn an_overshoot_of_zero_is_no_overshoot() {
    let mut clock = ManualClock::with_overshoot(Duration::ZERO);
    for tick in 1..=5 {
        clock.sleep_until(Duration::from_millis(tick));
        assert_eq!(clock.now(), Duration::from_millis(tick));
    }
}

#[test]
fn the_spin_margin_is_the_one_millisecond_the_specification_asks_for() {
    assert_eq!(SystemClock::new().spin_margin(), Duration::from_millis(1));
    let mut coarse = SystemClock::with_spin_margin(Duration::from_millis(4));
    assert_eq!(coarse.spin_margin(), Duration::from_millis(4));
    let deadline = coarse.now() + Duration::from_millis(2);
    coarse.sleep_until(deadline);
    assert!(coarse.now() >= deadline);
}

#[test]
fn the_slice_is_two_milliseconds_and_the_tick_is_forty_four_hertz() {
    assert_eq!(sleep_slice(), Duration::from_millis(2));
    assert_eq!(SLEEP_SLICE_NANOS, 2_000_000);
    assert_eq!(TICK_HZ, 44);
}

#[test]
fn a_manual_clock_advance_adds_to_the_time_it_already_had() {
    let mut clock = ManualClock::new();
    clock.advance(Duration::from_millis(3));
    clock.advance(Duration::from_micros(250));
    assert_eq!(clock.now(), Duration::from_micros(3_250));
    clock.sleep_until(Duration::from_millis(3));
    assert_eq!(clock.now(), Duration::from_micros(3_250));
}

#[test]
fn a_manual_clock_runs_past_the_nanoseconds_a_u64_can_count() {
    let mut clock = ManualClock::new();
    let centuries = Duration::from_secs(20_000_000_000);
    clock.advance(centuries);
    assert_eq!(clock.now(), centuries);
    clock.sleep_until(centuries + Duration::from_secs(1));
    assert_eq!(clock.now(), centuries + Duration::from_secs(1));
    clock.sleep_until(Duration::MAX);
    assert_eq!(clock.now(), Duration::MAX);
}

#[test]
fn a_spin_margin_longer_than_a_u64_of_nanoseconds_is_kept_whole() {
    let margin = Duration::from_secs(20_000_000_000);
    let clock = SystemClock::with_spin_margin(margin);
    assert_eq!(clock.spin_margin(), margin);
    assert_eq!(clock.nap(margin), None);
    assert_eq!(clock.nap(margin + Duration::from_micros(500)), Some(Duration::from_micros(500)));
    assert_eq!(clock.nap(Duration::MAX), Some(sleep_slice()));
}

#[test]
fn a_duration_of_nanoseconds_is_exactly_that_many() {
    assert_eq!(duration_of_nanos(0), Duration::ZERO);
    assert_eq!(duration_of_nanos(1_500_000), Duration::from_micros(1_500));
    assert_eq!(duration_of_nanos(u64::MAX), Duration::from_nanos(u64::MAX));
    let mut clock = ManualClock::new();
    clock.advance(duration_of_nanos(22_675_736));
    assert_eq!(clock.now().as_nanos(), 22_675_736);
}
