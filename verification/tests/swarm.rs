use invaders::frame::{new_frame, Drawable};
use invaders::invaders::{
    move_interval, Direction, Invader, Invaders, BASE_MOVE_INTERVAL, FORMATION_COLS,
    FORMATION_ROWS, FULL_SWARM, INVADER_GLYPH, LOSE_ROW, MOVE_INTERVAL_PER_INVADER,
};

fn swarm_of(cells: &[(usize, usize)]) -> Invaders {
    let army: Vec<Invader> = cells.iter().map(|&(x, y)| Invader { x, y }).collect();
    Invaders::with_army(army).unwrap()
}

fn cells_of(swarm: &Invaders) -> Vec<(usize, usize)> {
    swarm.army().iter().map(|invader| (invader.x, invader.y)).collect()
}

#[test]
fn formation_lists_seventy_two_invaders_column_by_column() {
    let swarm = Invaders::new();
    assert_eq!(FORMATION_COLS * FORMATION_ROWS, FULL_SWARM);
    assert_eq!(swarm.len(), 72);
    let mut expected = Vec::new();
    for x in [2, 4, 6, 8, 10, 12, 14, 16, 18, 20, 22, 24, 26, 28, 30, 32, 34, 36] {
        for y in [2, 4, 6, 8] {
            expected.push(Invader { x, y });
        }
    }
    assert_eq!(swarm.army(), expected);
    assert_eq!(swarm.direction(), Direction::Right);
    assert_eq!(swarm.interval(), 2_000_000);
    assert!(!swarm.all_killed());
    assert!(!swarm.reached_bottom());
    assert!(!swarm.at_edge());
}

#[test]
fn direction_reverses() {
    assert_eq!(Direction::Left.reverse(), Direction::Right);
    assert_eq!(Direction::Right.reverse(), Direction::Left);
}

#[test]
fn move_interval_values() {
    assert_eq!(BASE_MOVE_INTERVAL, 200_000);
    assert_eq!(MOVE_INTERVAL_PER_INVADER, 25_000);
    assert_eq!(move_interval(0), 200_000);
    assert_eq!(move_interval(1), 225_000);
    assert_eq!(move_interval(36), 1_100_000);
    assert_eq!(move_interval(71), 1_975_000);
    assert_eq!(move_interval(72), 2_000_000);
    assert_eq!(move_interval(73), 2_000_000);
    assert_eq!(move_interval(usize::MAX), 2_000_000);
}

#[test]
fn move_interval_never_grows_as_the_count_falls() {
    for count in 0..200 {
        assert!(move_interval(count) <= move_interval(count + 1));
    }
}

#[test]
fn swarm_waits_until_its_interval_is_exceeded() {
    let mut swarm = Invaders::new();
    let before = swarm.army();
    assert!(!swarm.update(1_000_000));
    assert!(!swarm.update(1_000_000));
    assert_eq!(swarm.army(), before);
    assert!(swarm.update(1));
    assert_eq!(swarm.army()[0], Invader { x: 3, y: 2 });
    assert_eq!(swarm.army()[71], Invader { x: 37, y: 8 });
    assert!(!swarm.update(2_000_000));
    assert!(swarm.update(1));
    assert_eq!(swarm.army()[0], Invader { x: 4, y: 2 });
}

#[test]
fn swarm_descends_and_turns_at_the_right_edge() {
    let mut swarm = Invaders::new();
    for _ in 0..3 {
        assert!(swarm.update(2_000_001));
    }
    assert_eq!(swarm.army()[71], Invader { x: 39, y: 8 });
    assert_eq!(swarm.direction(), Direction::Right);
    assert!(swarm.at_edge());
    let before = swarm.army();
    assert!(swarm.update(2_000_001));
    assert_eq!(swarm.direction(), Direction::Left);
    let after = swarm.army();
    assert_eq!(after.len(), before.len());
    for (now, then) in after.iter().zip(before.iter()) {
        assert_eq!(now.x, then.x);
        assert_eq!(now.y, then.y + 1);
    }
    assert!(!swarm.at_edge());
    assert!(swarm.update(2_000_001));
    assert_eq!(swarm.army()[71], Invader { x: 38, y: 9 });
    assert_eq!(swarm.direction(), Direction::Left);
}

#[test]
fn swarm_descends_and_turns_at_the_left_edge() {
    let mut swarm = swarm_of(&[(1, 4), (0, 2)]);
    assert!(!swarm.at_edge());
    assert!(swarm.update(250_001));
    assert_eq!(cells_of(&swarm), vec![(2, 4), (1, 2)]);
    let mut swarm = swarm_of(&[(39, 4), (38, 2)]);
    assert!(swarm.update(250_001));
    assert_eq!(cells_of(&swarm), vec![(39, 5), (38, 3)]);
    assert_eq!(swarm.direction(), Direction::Left);
    for step in 1..=38 {
        assert!(swarm.update(250_001));
        assert_eq!(cells_of(&swarm), vec![(39 - step, 5), (38 - step, 3)]);
    }
    assert!(swarm.at_edge());
    assert!(swarm.update(250_001));
    assert_eq!(cells_of(&swarm), vec![(1, 6), (0, 4)]);
    assert_eq!(swarm.direction(), Direction::Right);
    assert!(swarm.update(250_001));
    assert_eq!(cells_of(&swarm), vec![(2, 6), (1, 4)]);
}

#[test]
fn swarm_as_wide_as_the_field_only_descends() {
    let mut swarm = swarm_of(&[(0, 0), (39, 0)]);
    for row in 1..=5 {
        assert!(swarm.update(250_001));
        assert_eq!(cells_of(&swarm), vec![(0, row), (39, row)]);
    }
}

#[test]
fn empty_swarm_still_reports_its_moves() {
    let mut swarm = swarm_of(&[]);
    assert_eq!(swarm.interval(), 200_000);
    assert!(!swarm.update(200_000));
    assert!(swarm.update(1));
    assert!(swarm.all_killed());
    assert_eq!(swarm.direction(), Direction::Right);
}

#[test]
fn kill_removes_the_first_invader_in_the_cell() {
    let mut swarm = swarm_of(&[(1, 1), (2, 2), (3, 3), (2, 2)]);
    assert!(swarm.kill_invader_at(2, 2));
    assert_eq!(cells_of(&swarm), vec![(1, 1), (3, 3), (2, 2)]);
    assert!(swarm.kill_invader_at(2, 2));
    assert_eq!(cells_of(&swarm), vec![(1, 1), (3, 3)]);
    assert!(!swarm.kill_invader_at(2, 2));
    assert_eq!(cells_of(&swarm), vec![(1, 1), (3, 3)]);
}

#[test]
fn kill_needs_both_coordinates_to_match() {
    let mut swarm = swarm_of(&[(4, 6)]);
    assert!(!swarm.kill_invader_at(6, 4));
    assert!(!swarm.kill_invader_at(4, 5));
    assert!(!swarm.kill_invader_at(5, 6));
    assert_eq!(swarm.len(), 1);
    assert!(swarm.kill_invader_at(4, 6));
    assert_eq!(swarm.len(), 0);
}

#[test]
fn interval_shrinks_with_the_swarm_at_the_next_move() {
    let mut swarm = Invaders::new();
    assert_eq!(swarm.interval(), 2_000_000);
    assert!(swarm.kill_invader_at(2, 2));
    assert!(swarm.kill_invader_at(2, 4));
    assert_eq!(swarm.interval(), 2_000_000);
    assert!(!swarm.update(1_950_000));
    assert_eq!(swarm.interval(), 2_000_000);
    assert!(swarm.update(50_001));
    assert_eq!(swarm.len(), 70);
    assert_eq!(swarm.interval(), 1_950_000);
    assert!(!swarm.update(1_950_000));
    assert!(swarm.update(1));
    assert_eq!(swarm.interval(), 1_950_000);
}

#[test]
fn interval_never_grows_during_play() {
    let mut swarm = Invaders::new();
    let mut last = swarm.interval();
    let targets = swarm.army();
    for target in targets.iter().take(60) {
        let now = swarm.army();
        let shifted = now.iter().find(|i| i.y >= target.y).copied();
        if let Some(invader) = shifted {
            swarm.kill_invader_at(invader.x, invader.y);
        }
        assert!(swarm.interval() <= last);
        last = swarm.interval();
        let interval = swarm.interval();
        swarm.update(interval + 1);
        assert!(swarm.interval() <= last);
        last = swarm.interval();
        if swarm.reached_bottom() {
            break;
        }
    }
    assert!(last < 2_000_000);
}

#[test]
fn empty_swarm_is_all_killed() {
    let mut swarm = swarm_of(&[(8, 8)]);
    assert!(!swarm.all_killed());
    assert!(swarm.kill_invader_at(8, 8));
    assert!(swarm.all_killed());
    assert!(!swarm.reached_bottom());
    assert!(swarm_of(&[]).all_killed());
}

#[test]
fn swarm_reaches_the_bottom_at_the_row_of_the_player() {
    assert_eq!(LOSE_ROW, 19);
    assert!(!swarm_of(&[(5, 18), (7, 3)]).reached_bottom());
    assert!(swarm_of(&[(7, 3), (5, 19)]).reached_bottom());
    let mut swarm = swarm_of(&[(39, 18)]);
    assert!(!swarm.reached_bottom());
    assert!(swarm.update(225_001));
    assert_eq!(cells_of(&swarm), vec![(39, 19)]);
    assert!(swarm.reached_bottom());
}

#[test]
fn with_army_refuses_invaders_outside_the_field() {
    assert!(Invaders::with_army(vec![Invader { x: 39, y: 19 }]).is_some());
    assert!(Invaders::with_army(vec![Invader { x: 40, y: 0 }]).is_none());
    assert!(Invaders::with_army(vec![Invader { x: 0, y: 20 }]).is_none());
    assert!(Invaders::with_army(vec![Invader { x: 1, y: 1 }, Invader { x: 99, y: 1 }]).is_none());
    assert!(Invaders::with_army(Vec::new()).is_some());
}

#[test]
fn with_army_keeps_order_and_sets_the_interval() {
    let swarm = swarm_of(&[(9, 1), (3, 7), (9, 1)]);
    assert_eq!(cells_of(&swarm), vec![(9, 1), (3, 7), (9, 1)]);
    assert_eq!(swarm.interval(), 275_000);
    assert_eq!(swarm.direction(), Direction::Right);
}

#[test]
fn swarm_draws_its_invaders() {
    let swarm = swarm_of(&[(9, 1), (3, 7)]);
    let mut frame = new_frame();
    frame.put(9, 1, 'A');
    swarm.draw(&mut frame);
    assert_eq!(INVADER_GLYPH, 'x');
    let mut expected = new_frame();
    expected.put(9, 1, 'x');
    expected.put(3, 7, 'x');
    assert_eq!(frame, expected);
}
