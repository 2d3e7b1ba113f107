use invaders::frame::{new_frame, Drawable};
use invaders::invaders::{Invader, Invaders};
use invaders::player::{Player, MAX_SHOTS, PLAYER_GLYPH, PLAYER_ROW, START_COLUMN};
use invaders::shot::Shot;
use invaders::NUM_COLS;

#[test]
fn player_starts_in_the_middle_of_the_bottom_row() {
    let player = Player::new();
    assert_eq!(START_COLUMN, 20);
    assert_eq!(PLAYER_ROW, 19);
    assert_eq!(player.column(), 20);
    assert!(player.shots().is_empty());
}

#[test]
fn moving_changes_the_column_by_one() {
    let mut player = Player::new();
    player.move_left();
    assert_eq!(player.column(), 19);
    player.move_right();
    player.move_right();
    assert_eq!(player.column(), 21);
}

#[test]
fn left_wall_stops_the_player() {
    let mut player = Player::new();
    for _ in 0..20 {
        player.move_left();
    }
    assert_eq!(player.column(), 0);
    for _ in 0..100 {
        player.move_left();
        assert_eq!(player.column(), 0);
    }
    player.move_right();
    assert_eq!(player.column(), 1);
}

#[test]
fn right_wall_stops_the_player() {
    let mut player = Player::new();
    for _ in 0..19 {
        player.move_right();
    }
    assert_eq!(player.column(), NUM_COLS - 1);
    for _ in 0..100 {
        player.move_right();
        assert_eq!(player.column(), 39);
    }
    player.move_left();
    assert_eq!(player.column(), 38);
}

#[test]
fn column_stays_in_the_field_however_steered() {
    let mut player = Player::new();
    let mut seed: u32 = 12345;
    for _ in 0..10_000 {
        seed = seed.wrapping_mul(1_103_515_245).wrapping_add(12_345);
        if (seed >> 16) % 3 == 0 {
            player.move_left();
        } else {
            player.move_right();
        }
        assert!(player.column() < NUM_COLS);
    }
}

#[test]
fn shot_starts_above_the_ship() {
    let mut player = Player::new();
    player.move_left();
    assert!(player.shoot());
    assert_eq!(player.shots(), vec![Shot::new(19, 18)]);
}

#[test]
fn second_shot_is_refused_while_the_first_is_in_flight() {
    let mut player = Player::new();
    assert!(player.shoot());
    assert!(!player.shoot());
    assert_eq!(player.shots().len(), 1);
    player.move_right();
    player.update(50_001);
    assert!(!player.shoot());
    assert_eq!(player.shots().len(), 1);
    assert_eq!(MAX_SHOTS, 1);
}

#[test]
fn update_moves_the_shot_up() {
    let mut player = Player::new();
    player.shoot();
    player.update(50_000);
    assert_eq!((player.shots()[0].x, player.shots()[0].y), (20, 18));
    player.update(1);
    assert_eq!((player.shots()[0].x, player.shots()[0].y), (20, 17));
    player.move_left();
    player.update(50_001);
    assert_eq!((player.shots()[0].x, player.shots()[0].y), (20, 16));
}

#[test]
fn shot_is_removed_when_it_leaves_through_the_top() {
    let mut player = Player::new();
    player.shoot();
    for row in (0..18).rev() {
        player.update(50_001);
        assert_eq!(player.shots()[0].y, row);
    }
    player.update(50_001);
    assert!(player.shots().is_empty());
}

#[test]
fn player_can_fire_again_once_the_shot_left() {
    let mut player = Player::new();
    assert!(player.shoot());
    for _ in 0..18 {
        player.update(50_001);
        assert!(!player.shoot());
    }
    player.update(50_001);
    assert!(player.shoot());
    assert_eq!(player.shots(), vec![Shot::new(20, 18)]);
}

#[test]
fn player_can_fire_again_once_the_shot_hit() {
    let mut player = Player::new();
    let mut swarm = Invaders::with_army(vec![Invader { x: 20, y: 18 }]).unwrap();
    assert!(player.shoot());
    assert!(player.detect_hits(&mut swarm));
    assert!(player.shoot());
    assert!(!player.shoot());
}

#[test]
fn hit_removes_invader_and_shot() {
    let mut player = Player::new();
    let mut swarm = Invaders::with_army(vec![Invader { x: 20, y: 17 }]).unwrap();
    assert!(player.shoot());
    assert!(!player.detect_hits(&mut swarm));
    player.update(50_001);
    assert!(player.detect_hits(&mut swarm));
    assert!(player.shots().is_empty());
    assert_eq!(swarm.len(), 0);
    assert!(swarm.all_killed());
}

#[test]
fn shot_in_an_empty_cell_hits_nothing() {
    let mut player = Player::new();
    let army = vec![Invader { x: 19, y: 18 }, Invader { x: 21, y: 18 }, Invader { x: 20, y: 17 }];
    let mut swarm = Invaders::with_army(army.clone()).unwrap();
    player.shoot();
    assert!(!player.detect_hits(&mut swarm));
    assert_eq!(player.shots(), vec![Shot::new(20, 18)]);
    assert_eq!(swarm.army(), army);
}

#[test]
fn hit_removes_one_invader_per_shot() {
    let mut player = Player::new();
    let army = vec![
        Invader { x: 3, y: 3 },
        Invader { x: 20, y: 18 },
        Invader { x: 5, y: 5 },
        Invader { x: 20, y: 18 },
    ];
    let mut swarm = Invaders::with_army(army).unwrap();
    player.shoot();
    assert!(player.detect_hits(&mut swarm));
    assert!(player.shots().is_empty());
    assert_eq!(
        swarm.army(),
        vec![Invader { x: 3, y: 3 }, Invader { x: 5, y: 5 }, Invader { x: 20, y: 18 }]
    );
    assert!(!player.detect_hits(&mut swarm));
    assert_eq!(swarm.len(), 3);
}

#[test]
fn detect_hits_without_shots_changes_nothing() {
    let mut player = Player::new();
    let mut swarm = Invaders::new();
    assert!(!player.detect_hits(&mut swarm));
    assert_eq!(swarm.len(), 72);
}

#[test]
fn player_draws_ship_and_shot() {
    let mut player = Player::new();
    player.shoot();
    player.update(50_001);
    player.move_right();
    let mut frame = new_frame();
    player.draw(&mut frame);
    assert_eq!(PLAYER_GLYPH, 'A');
    let mut expected = new_frame();
    expected.put(21, 19, 'A');
    expected.put(20, 17, '|');
    assert_eq!(frame, expected);
}
