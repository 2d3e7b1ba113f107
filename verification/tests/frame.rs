use invaders::frame::{new_frame, Drawable, BLANK};
use invaders::shot::Shot;
use invaders::{NUM_COLS, NUM_ROWS};

#[test]
fn field_is_forty_by_twenty() {
    assert_eq!(NUM_COLS, 40);
    assert_eq!(NUM_ROWS, 20);
}

#[test]
fn new_frame_is_blank() {
    let frame = new_frame();
    for x in 0..NUM_COLS {
        for y in 0..NUM_ROWS {
            assert_eq!(frame.get(x, y), BLANK);
        }
    }
    assert_eq!(BLANK, ' ');
}

#[test]
fn put_writes_one_cell() {
    let mut frame = new_frame();
    frame.put(3, 7, 'A');
    for x in 0..NUM_COLS {
        for y in 0..NUM_ROWS {
            let expected = if (x, y) == (3, 7) { 'A' } else { ' ' };
            assert_eq!(frame.get(x, y), expected);
        }
    }
}

#[test]
fn put_reaches_the_corners() {
    let mut frame = new_frame();
    frame.put(0, 0, 'a');
    frame.put(39, 0, 'b');
    frame.put(0, 19, 'c');
    frame.put(39, 19, 'd');
    assert_eq!(frame.get(0, 0), 'a');
    assert_eq!(frame.get(39, 0), 'b');
    assert_eq!(frame.get(0, 19), 'c');
    assert_eq!(frame.get(39, 19), 'd');
}

#[test]
fn put_outside_the_field_is_ignored() {
    let mut frame = new_frame();
    frame.put(40, 0, '#');
    frame.put(0, 20, '#');
    frame.put(40, 20, '#');
    frame.put(usize::MAX, usize::MAX, '#');
    assert_eq!(frame, new_frame());
}

#[test]
fn later_put_overwrites_earlier() {
    let mut frame = new_frame();
    frame.put(5, 5, 'A');
    frame.put(5, 5, 'x');
    assert_eq!(frame.get(5, 5), 'x');
}

#[test]
fn drawing_outside_the_field_does_nothing() {
    let mut frame = new_frame();
    Shot::new(40, 3).draw(&mut frame);
    Shot::new(3, 20).draw(&mut frame);
    assert_eq!(frame, new_frame());
}
