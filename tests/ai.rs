use dungeon_core::enemy::Enemy;
use dungeon_core::player::Player;
use dungeon_core::pos::{Block, Pos};
use std::collections::HashMap;

fn is_leap(a: Pos, b: Pos) -> bool {
    let dx = (b.0 - a.0).abs();
    let dy = (b.1 - a.1).abs();
    (dx == 1 && dy == 2) || (dx == 2 && dy == 1)
}

#[test]
fn inactive_turn_changes_nothing() {
    let mut e = Enemy::with_luck(32, Pos(0, 0), 1, 4);
    let mut p = Player::with_luck(Pos(1, 0), 5);
    let r = e.update(&mut p, &HashMap::new(), &HashMap::new(), false);
    assert_eq!(r, None);
    assert_eq!(e.timer, 0);
    assert_eq!(e.pos, Pos(0, 0));
    assert_eq!(p.hp, 100);
}

#[test]
fn attack_fires_on_the_third_tick_from_timer_nine() {
    let mut e = Enemy::with_luck(32, Pos(5, 5), 1, 4);
    e.timer = 9;
    let mut p = Player::with_luck(Pos(5, 7), 5);
    let map = HashMap::new();
    let snapshot: HashMap<i128, Enemy> = HashMap::new();
    assert_eq!(e.update(&mut p, &map, &snapshot, true), None);
    assert_eq!(e.timer, 8);
    assert_eq!(e.update(&mut p, &map, &snapshot, true), None);
    assert_eq!(e.timer, 7);
    assert_eq!(e.pos, Pos(5, 5));
    let d = e.update(&mut p, &map, &snapshot, true).expect("attack");
    assert_eq!(e.timer, 6);
    assert!((0..=4).contains(&d));
    assert_eq!(e.pos, Pos(5, 5));
    assert_eq!(p.hp, 100 - (d - 10));
    assert_eq!(p.ac, 10 - d);
}

#[test]
fn timer_rewinds_to_twenty_two_and_attacks_when_close() {
    let mut e = Enemy::with_luck(32, Pos(0, 0), 1, 0);
    let mut p = Player::with_luck(Pos(2, 0), 5);
    let r = e.update(&mut p, &HashMap::new(), &HashMap::new(), true);
    assert_eq!(e.timer, 21);
    assert_eq!(r, Some(0));
    assert_eq!(p.hp, 110);
    assert_eq!(p.ac, 10);
}

#[test]
fn moving_tick_takes_one_leap_and_deals_nothing() {
    let mut e = Enemy::with_luck(32, Pos(0, 0), 1, 4);
    e.timer = 6;
    let mut p = Player::with_luck(Pos(6, 6), 5);
    let r = e.update(&mut p, &HashMap::new(), &HashMap::new(), true);
    assert_eq!(r, None);
    assert_eq!(e.timer, 5);
    assert!(is_leap(Pos(0, 0), e.pos));
    assert_eq!(p.hp, 100);
}

#[test]
fn off_cycle_tick_does_not_move() {
    let mut e = Enemy::with_luck(32, Pos(0, 0), 1, 4);
    e.timer = 8;
    let mut p = Player::with_luck(Pos(6, 6), 5);
    let r = e.update(&mut p, &HashMap::new(), &HashMap::new(), true);
    assert_eq!(r, None);
    assert_eq!(e.timer, 7);
    assert_eq!(e.pos, Pos(0, 0));
}

#[test]
fn enemy_never_leaps_onto_the_player() {
    let mut e = Enemy::with_luck(32, Pos(0, 0), 1, 4);
    e.timer = 6;
    let mut p = Player::with_luck(Pos(4, 2), 5);
    let mut walls = HashMap::new();
    for t in [Pos(1, 2), Pos(1, -2), Pos(-1, 2), Pos(-1, -2), Pos(2, -1), Pos(-2, 1), Pos(-2, -1)] {
        walls.insert(t.key(), Block::Wall);
    }
    let r = e.update(&mut p, &walls, &HashMap::new(), true);
    assert_eq!(r, None);
    assert_eq!(e.pos, Pos(2, 1));
    let mut e2 = Enemy::with_luck(32, Pos(2, 1), 1, 4);
    e2.timer = 6;
    let mut p2 = Player::with_luck(Pos(4, 2), 5);
    let r2 = e2.update(&mut p2, &HashMap::new(), &HashMap::new(), true);
    assert_eq!(r2, None);
    assert_eq!(e2.pos, Pos(2, 1));
}

#[test]
fn occupied_leaps_are_not_taken() {
    let mut e = Enemy::with_luck(32, Pos(0, 0), 1, 4);
    e.timer = 6;
    let mut p = Player::with_luck(Pos(2, 1), 5);
    p.pos = Pos(20, 10);
    let mut snapshot = HashMap::new();
    let mut walls = HashMap::new();
    for t in [Pos(1, 2), Pos(1, -2), Pos(-1, 2), Pos(-1, -2), Pos(2, -1), Pos(-2, 1), Pos(-2, -1)] {
        walls.insert(t.key(), Block::Wall);
    }
    snapshot.insert(Pos(2, 1).key(), Enemy::with_luck(32, Pos(2, 1), 1, 1));
    let r = e.update(&mut p, &walls, &snapshot, true);
    assert_eq!(r, None);
    assert_eq!(e.pos, Pos(0, 0));
}

#[test]
fn unreachable_player_leaves_enemy_in_place() {
    let mut e = Enemy::with_luck(32, Pos(0, 0), 1, 4);
    e.timer = 6;
    let mut p = Player::with_luck(Pos(10, 10), 5);
    let mut walls = HashMap::new();
    for (dx, dy) in [(1, 2), (1, -2), (-1, 2), (-1, -2), (2, 1), (2, -1), (-2, 1), (-2, -1)] {
        walls.insert(Pos(10 + dx, 10 + dy).key(), Block::Wall);
    }
    let r = e.update(&mut p, &walls, &HashMap::new(), true);
    assert_eq!(r, None);
    assert_eq!(e.timer, 5);
    assert_eq!(e.pos, Pos(0, 0));
}

#[test]
fn player_beyond_the_search_window_is_not_chased() {
    let mut e = Enemy::with_luck(32, Pos(0, 0), 1, 4);
    e.timer = 6;
    let mut p = Player::with_luck(Pos(100, 0), 5);
    let r = e.update(&mut p, &HashMap::new(), &HashMap::new(), true);
    assert_eq!(r, None);
    assert_eq!(e.pos, Pos(0, 0));
}

#[test]
fn search_near_the_coordinate_limits_does_not_overflow() {
    let mut e = Enemy::with_luck(32, Pos(isize::MIN + 2, isize::MIN + 1), 1, 4);
    e.timer = 6;
    let mut p = Player::with_luck(Pos(isize::MAX, isize::MAX), 5);
    let r = e.update(&mut p, &HashMap::new(), &HashMap::new(), true);
    assert_eq!(r, None);
    assert_eq!(e.pos, Pos(isize::MIN + 2, isize::MIN + 1));
}
