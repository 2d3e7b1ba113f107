use invaders::frame::{new_frame, Drawable};
use invaders::shot::{Shot, SHOT_GLYPH, SHOT_INTERVAL};
use invaders::timer::Timer;

#[test]
fn shot_interval_is_fifty_milliseconds() {
    assert_eq!(SHOT_INTERVAL, 50_000);
}

#[test]
fn new_shot_has_not_moved() {
    let shot = Shot::new(7, 18);
    assert_eq!(shot, Shot { x: 7, y: 18, timer: Timer { interval: 50_000, elapsed: 0 } });
}

#[test]
fn shot_waits_until_its_interval_is_exceeded() {
    let mut shot = Shot::new(7, 18);
    assert!(shot.update(50_000));
    assert_eq!(shot, Shot { x: 7, y: 18, timer: Timer { interval: 50_000, elapsed: 50_000 } });
}

#[test]
fn shot_climbs_one_row_when_its_timer_fires() {
    let mut shot = Shot::new(7, 18);
    assert!(shot.update(50_001));
    assert_eq!(shot, Shot { x: 7, y: 17, timer: Timer { interval: 50_000, elapsed: 0 } });
}

#[test]
fn shot_climbs_one_row_however_long_the_update() {
    let mut shot = Shot::new(7, 18);
    assert!(shot.update(1_000_000));
    assert_eq!((shot.x, shot.y), (7, 17));
}

#[test]
fn shot_reaches_the_top_row_and_stays_in_flight() {
    let mut shot = Shot::new(7, 1);
    assert!(shot.update(50_001));
    assert_eq!((shot.x, shot.y), (7, 0));
    assert!(shot.update(50_000));
    assert_eq!((shot.x, shot.y), (7, 0));
}

#[test]
fn shot_leaves_through_the_top() {
    let mut shot = Shot::new(7, 0);
    assert!(!shot.update(50_001));
}

#[test]
fn shot_draws_itself() {
    let mut frame = new_frame();
    Shot::new(7, 3).draw(&mut frame);
    assert_eq!(SHOT_GLYPH, '|');
    assert_eq!(frame.get(7, 3), '|');
    let mut expected = new_frame();
    expected.put(7, 3, '|');
    assert_eq!(frame, expected);
}
