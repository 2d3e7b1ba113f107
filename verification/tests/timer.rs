use invaders::timer::Timer;

#[test]
fn new_timer_has_nothing_accumulated() {
    let timer = Timer::new(50);
    assert_eq!(timer, Timer { interval: 50, elapsed: 0 });
}

#[test]
fn timer_fires_only_when_interval_is_exceeded() {
    let mut timer = Timer::new(50);
    assert!(!timer.advance(50));
    assert_eq!(timer.elapsed, 50);
    assert!(timer.advance(1));
    assert_eq!(timer, Timer { interval: 50, elapsed: 0 });
}

#[test]
fn timer_accumulates_small_deltas() {
    let mut timer = Timer::new(10);
    assert!(!timer.advance(4));
    assert!(!timer.advance(4));
    assert_eq!(timer.elapsed, 8);
    assert!(timer.advance(4));
    assert_eq!(timer.elapsed, 0);
    assert!(!timer.advance(4));
    assert_eq!(timer.elapsed, 4);
}

#[test]
fn timer_with_zero_delta_stays_put() {
    let mut timer = Timer::new(0);
    assert!(!timer.advance(0));
    assert_eq!(timer, Timer { interval: 0, elapsed: 0 });
    assert!(timer.advance(1));
}

#[test]
fn timer_takes_the_largest_delta() {
    let mut timer = Timer::new(u64::MAX);
    assert!(!timer.advance(u64::MAX));
    assert_eq!(timer.elapsed, u64::MAX);
    assert!(timer.advance(u64::MAX));
    assert_eq!(timer.elapsed, 0);
}

#[test]
fn timer_past_its_interval_fires_on_any_update() {
    let mut timer = Timer { interval: 5, elapsed: 9 };
    assert!(timer.advance(0));
    assert_eq!(timer, Timer { interval: 5, elapsed: 0 });
}
