use dungeon_core::enemy::Enemy;
use dungeon_core::events::EventType;
use dungeon_core::floor::{build_floor, EnemySeed, FloorError, FloorPlan, RoomPlan, TeleporterSeed, Tile};
use dungeon_core::fov::visible_tiles;
use dungeon_core::item::{Action, Item, ItemType};
use dungeon_core::player::{Player, PlayerState};
use dungeon_core::pos::{Block, Pos};
use dungeon_core::state::{check_collision, Command, State, TileEvent};
use std::collections::HashMap;

fn walled_grid(n: usize) -> Vec<Vec<Tile>> {
    (0..n)
        .map(|x| {
            (0..n)
                .map(|y| if x == 0 || y == 0 || x == n - 1 || y == n - 1 { Tile::Wall } else { Tile::Floor })
                .collect()
        })
        .collect()
}

fn empty_room() -> RoomPlan {
    RoomPlan { teleporters: vec![], enemies: vec![], items: vec![] }
}

fn plan(n: usize, spawn: Pos, rooms: Vec<RoomPlan>) -> FloorPlan {
    FloorPlan { tiles: walled_grid(n), rooms, spawn }
}

fn log_lines(state: &State) -> Vec<(String, String)> {
    state.log.iter().map(|(m, e)| (m.clone(), format!("{:?}", e))).collect()
}

#[test]
fn exit_goes_on_the_farthest_floor_and_reaching_it_resets() {
    let room = RoomPlan {
        teleporters: vec![],
        enemies: vec![EnemySeed { pos: Pos(20, 20), difficulty: 2 }],
        items: vec![Pos(10, 12)],
    };
    let mut state = State::new(Player::with_luck(Pos(0, 0), 5));
    assert_eq!(state.reset(plan(32, Pos(1, 1), vec![room])), Ok(()));
    assert_eq!(state.exit, Pos(30, 30));
    assert_eq!(state.map.get(&Pos(30, 30).key()), Some(&Block::Exit));
    assert_eq!(state.map.get(&Pos(31, 5).key()), Some(&Block::Wall));
    assert_eq!(state.map.len(), 125);
    assert_eq!(state.player.pos, Pos(1, 1));
    assert!(state.enemies.contains_key(&Pos(20, 20).key()));
    assert!(state.items.contains_key(&Pos(10, 12).key()));

    state.player.pos = Pos(30, 30);
    assert_eq!(state.resolve_tile(), TileEvent::ExitReached);
    assert_eq!(state.player.pos, Pos(30, 30));
    state.event("Enemy died".to_string(), EventType::XP);
    assert_eq!(state.log.len(), 1);

    let next_room = RoomPlan {
        teleporters: vec![],
        enemies: vec![EnemySeed { pos: Pos(3, 4), difficulty: 1 }],
        items: vec![Pos(5, 5)],
    };
    assert_eq!(state.reset(plan(10, Pos(2, 2), vec![next_room])), Ok(()));
    assert_eq!(state.player.pos, Pos(2, 2));
    assert_eq!(state.exit, Pos(8, 8));
    assert!(!state.map.contains_key(&Pos(31, 5).key()));
    assert!(!state.map.contains_key(&Pos(30, 30).key()));
    assert!(!state.enemies.contains_key(&Pos(20, 20).key()));
    assert!(!state.items.contains_key(&Pos(10, 12).key()));
    assert_eq!(state.enemies.len(), 1);
    assert_eq!(state.items.len(), 1);
    assert_eq!(state.log.len(), 0);
    assert_eq!(state.log.max_len(), 8);
    assert_eq!(state.path.len(), 0);
    assert_eq!(state.path.max_len(), 300);
}

#[test]
fn exit_tie_keeps_the_first_in_scan_order() {
    let tiles = vec![vec![Tile::Floor, Tile::Wall], vec![Tile::Wall, Tile::Floor], vec![Tile::Floor, Tile::Wall]];
    let plan = FloorPlan { tiles, rooms: vec![], spawn: Pos(1, 0) };
    let floor = build_floor(&plan).unwrap();
    assert_eq!(floor.exit, Pos(0, 0));
}

#[test]
fn no_floor_is_refused() {
    let plan = FloorPlan { tiles: vec![vec![Tile::Wall; 3]; 3], rooms: vec![], spawn: Pos(0, 0) };
    assert_eq!(build_floor(&plan).err(), Some(FloorError::NoFloor));
    let empty = FloorPlan { tiles: vec![], rooms: vec![], spawn: Pos(0, 0) };
    assert_eq!(build_floor(&empty).err(), Some(FloorError::NoFloor));
}

#[test]
fn unpaired_teleporter_is_refused_and_state_kept() {
    let room = RoomPlan {
        teleporters: vec![TeleporterSeed { id: 1, connected: 5, pos: Pos(3, 3) }],
        enemies: vec![],
        items: vec![],
    };
    let mut state = State::new(Player::with_luck(Pos(4, 4), 5));
    assert_eq!(state.reset(plan(8, Pos(1, 1), vec![room])), Err(FloorError::UnpairedTeleporter));
    assert_eq!(state.player.pos, Pos(4, 4));
    assert!(state.map.is_empty());
    assert!(state.dungeon.is_none());
}

#[test]
fn teleporters_lead_to_each_other() {
    let rooms = vec![
        RoomPlan { teleporters: vec![TeleporterSeed { id: 1, connected: 2, pos: Pos(3, 3) }], enemies: vec![], items: vec![] },
        RoomPlan { teleporters: vec![TeleporterSeed { id: 2, connected: 1, pos: Pos(10, 10) }], enemies: vec![], items: vec![] },
    ];
    let mut state = State::new(Player::with_luck(Pos(0, 0), 5));
    assert_eq!(state.reset(plan(16, Pos(1, 1), rooms)), Ok(()));
    assert_eq!(state.teleporters_map.get(&Pos(3, 3).key()), Some(&Block::Teleporter(Pos(10, 10))));
    assert_eq!(state.teleporters_map.get(&Pos(10, 10).key()), Some(&Block::Teleporter(Pos(3, 3))));

    state.player.pos = Pos(3, 3);
    assert_eq!(state.resolve_tile(), TileEvent::Teleported);
    assert_eq!(state.player.pos, Pos(9, 9));
    assert_eq!(log_lines(&state), vec![("Teleporter activated".to_string(), "Teleport".to_string())]);

    state.player.pos = Pos(10, 10);
    assert_eq!(state.resolve_tile(), TileEvent::Teleported);
    assert_eq!(state.player.pos, Pos(2, 2));

    state.player.pos = Pos(5, 5);
    assert_eq!(state.resolve_tile(), TileEvent::Nothing);
    assert_eq!(state.player.pos, Pos(5, 5));
}

#[test]
fn every_second_enemy_seed_spawns() {
    let seeds: Vec<EnemySeed> = (0..5).map(|i| EnemySeed { pos: Pos(2 + i, 3), difficulty: i as u32 }).collect();
    let room = RoomPlan { teleporters: vec![], enemies: seeds, items: vec![Pos(4, 4), Pos(5, 6)] };
    let floor = build_floor(&plan(10, Pos(1, 1), vec![room])).unwrap();
    assert_eq!(floor.enemies.len(), 3);
    for (x, d) in [(2, 0u32), (4, 2), (6, 4)] {
        let e = floor.enemies.get(&Pos(x, 3).key()).unwrap();
        assert_eq!(e.hp, 32);
        assert_eq!(e.pos, Pos(x, 3));
        assert_eq!(e.dificulty, d);
        assert_eq!(e.timer, 0);
        assert!((0..5).contains(&e.luck));
    }
    assert!(!floor.enemies.contains_key(&Pos(3, 3).key()));
    assert_eq!(floor.items.len(), 2);
    assert!(floor.items.contains_key(&Pos(5, 6).key()));
    assert_eq!(floor.spawn, Pos(1, 1));
}

#[test]
fn origin_comes_first_and_far_tiles_stay_dark() {
    let walls = HashMap::new();
    let seen = visible_tiles(Pos(0, 0), &walls);
    assert_eq!(seen[0], Pos(0, 0));
    assert!(seen.contains(&Pos(5, 3)));
    assert!(seen.contains(&Pos(-7, 6)));
    assert!(!seen.contains(&Pos(15, 0)));
    assert!(!seen.contains(&Pos(0, -13)));
    let mut sorted = seen.clone();
    sorted.sort_by_key(|p| (p.0, p.1));
    sorted.dedup();
    assert_eq!(sorted.len(), seen.len());
}

#[test]
fn a_wall_is_seen_but_hides_what_lies_behind() {
    let mut walls = HashMap::new();
    walls.insert(Pos(2, 0).key(), Block::Wall);
    let seen = visible_tiles(Pos(0, 0), &walls);
    assert!(seen.contains(&Pos(2, 0)));
    assert!(!seen.contains(&Pos(4, 0)));
    assert!(seen.contains(&Pos(4, 3)));
}

#[test]
fn log_keeps_the_eight_newest_first() {
    let mut state = State::new(Player::with_luck(Pos(0, 0), 5));
    for i in 0..10 {
        state.event(format!("event {}", i), EventType::XP);
    }
    let lines = log_lines(&state);
    assert_eq!(lines.len(), 8);
    assert_eq!(lines[0].0, "event 9");
    assert_eq!(lines[7].0, "event 2");
}

#[test]
fn moves_are_blocked_by_walls() {
    let mut state = State::new(Player::with_luck(Pos(1, 1), 5));
    state.map.insert(Pos(2, 1).key(), Block::Wall);
    check_collision(&mut state, &Pos(1, 0));
    assert_eq!(state.player.pos, Pos(1, 1));
    assert_eq!(state.player.swing, 0);
    check_collision(&mut state, &Pos(0, 1));
    assert_eq!(state.player.pos, Pos(1, 2));
    assert_eq!(state.player.swing, 1);
    assert!(state.act(Command::Move(Pos(-1, 0))));
    assert_eq!(state.player.pos, Pos(0, 2));
    assert!(state.act(Command::Wait));
    assert!(!state.act(Command::Strike));
    assert!(!state.act(Command::Equip(0)));
}

fn combat_state() -> State {
    let mut state = State::new(Player::with_luck(Pos(5, 5), 5));
    state.enemies.insert(Pos(6, 6).key(), Enemy::with_luck(32, Pos(6, 6), 3, 2));
    state.update();
    state
}

#[test]
fn seen_enemy_within_reach_starts_combat() {
    let state = combat_state();
    match &state.player.state {
        PlayerState::Combat(v) => assert_eq!(v, &vec![Pos(6, 6)]),
        PlayerState::Walking => panic!("expected combat"),
    }
    assert_eq!(state.compute_enemies(), vec![Pos(6, 6)]);
}

#[test]
fn strike_applies_the_carried_item() {
    let mut state = combat_state();
    assert!(!state.act(Command::Move(Pos(1, 0))));
    assert_eq!(state.player.pos, Pos(5, 5));
    assert!(state.act(Command::Strike));
    assert_eq!(state.enemies.get(&Pos(6, 6).key()).unwrap().hp, 2);
    assert_eq!(state.player.hp, 100);
    assert_eq!(state.player.carrying.name(), "Sword");
    assert_eq!(
        log_lines(&state),
        vec![("You attacked an enemy for 30 damage".to_string(), "DamageDealt".to_string())]
    );
}

#[test]
fn equip_in_combat_takes_the_turn() {
    let mut state = combat_state();
    state.player.items.push(Item::new("Club".to_string(), ItemType::Melee, vec![(Action::Damage, 3)]));
    assert!(state.act(Command::Equip(0)));
    assert_eq!(state.player.carrying.name(), "Club");
    assert!(state.act(Command::Equip(7)));
    assert_eq!(state.player.items.len(), 1);
}

#[test]
fn slain_enemies_leave_and_give_experience() {
    let mut state = combat_state();
    state.enemies.get_mut(&Pos(6, 6).key()).unwrap().hp = 0;
    state.enemies.insert(Pos(40, 40).key(), Enemy::with_luck(-3, Pos(40, 40), 9, 2));
    state.resolve_enemies(false);
    assert!(!state.enemies.contains_key(&Pos(6, 6).key()));
    assert_eq!(state.player.xp, 3);
    assert_eq!(log_lines(&state), vec![("Enemy died".to_string(), "XP".to_string())]);
    assert_eq!(state.enemies.get(&Pos(40, 40).key()).unwrap().hp, -3);
    state.update();
    assert!(matches!(state.player.state, PlayerState::Walking));
}

#[test]
fn seen_enemies_act_on_an_active_turn() {
    let mut state = State::new(Player::with_luck(Pos(5, 5), 5));
    let mut e = Enemy::with_luck(32, Pos(6, 6), 3, 4);
    e.timer = 7;
    state.enemies.insert(Pos(6, 6).key(), e);
    state.resolve_enemies(true);
    let e = state.enemies.get(&Pos(6, 6).key()).unwrap();
    assert_eq!(e.timer, 6);
    let lines = log_lines(&state);
    assert_eq!(lines.len(), 1);
    let d = 10 - state.player.ac;
    assert_eq!(lines[0].0, format!("Ghost hits you for {} damage", d));
    assert_eq!(lines[0].1, "DamageTaken");
    assert_eq!(state.player.hp, 100 - (d - 10));
}

#[test]
fn restart_restores_the_player() {
    let mut state = State::new(Player::with_luck(Pos(5, 5), 5));
    state.player.hp = -4;
    state.player.xp = 17;
    assert_eq!(state.restart(plan(6, Pos(2, 3), vec![empty_room()])), Ok(()));
    assert_eq!(state.player.hp, 100);
    assert_eq!(state.player.xp, 0);
    assert_eq!(state.player.pos, Pos(2, 3));
    assert!(state.dungeon.is_some());
    assert_eq!(state.exit, Pos(4, 1));
    assert_eq!(state.map.get(&Pos(4, 1).key()), Some(&Block::Exit));
    assert_eq!(state.map.len(), 21);
    assert!(state.enemies.is_empty());
    assert_eq!(state.log.len(), 0);
}

#[test]
fn items_in_sight_are_listed() {
    let mut state = State::new(Player::with_luck(Pos(5, 5), 5));
    state.items.insert(Pos(7, 5).key(), Item::from_rolls(1, 0, 0));
    state.items.insert(Pos(30, 5).key(), Item::from_rolls(1, 0, 0));
    assert_eq!(state.compute_items(), vec![Pos(7, 5)]);
    assert!(state.compute_walls().contains(&Pos(7, 5)));
}

#[test]
fn the_opaque_ring_just_past_the_radius_is_revealed() {
    let walls = HashMap::new();
    let seen = visible_tiles(Pos(0, 0), &walls);
    assert!(seen.contains(&Pos(10, 0)));
    assert!(seen.contains(&Pos(11, 0)));
    assert!(!seen.contains(&Pos(12, 0)));
}

#[test]
fn no_sight_near_the_coordinate_limits() {
    let walls = HashMap::new();
    assert!(visible_tiles(Pos(isize::MAX, 0), &walls).is_empty());
    assert!(visible_tiles(Pos(0, isize::MIN + 11), &walls).is_empty());
    assert_eq!(visible_tiles(Pos(isize::MAX - 12, 0), &walls)[0], Pos(isize::MAX - 12, 0));
}

#[test]
fn a_claimed_tile_turns_the_later_enemy_back() {
    let mut state = State::new(Player::with_luck(Pos(1, 9), 5));
    let blockers = [
        Pos(1, -2), Pos(-1, 2), Pos(-1, -2), Pos(2, 1), Pos(2, -1), Pos(-2, 1), Pos(-2, -1),
        Pos(3, 6), Pos(3, 2), Pos(1, 6), Pos(4, 5), Pos(4, 3), Pos(0, 5), Pos(0, 3),
    ];
    for p in blockers {
        let mut e = Enemy::with_luck(32, p, 1, 2);
        e.timer = 8;
        state.enemies.insert(p.key(), e);
    }
    for p in [Pos(0, 0), Pos(2, 4)] {
        let mut e = Enemy::with_luck(32, p, 1, 2);
        e.timer = 6;
        state.enemies.insert(p.key(), e);
    }
    state.resolve_enemies(true);
    assert_eq!(state.enemies.len(), 16);
    let moved = state.enemies.get(&Pos(1, 2).key()).expect("one enemy took the shared tile");
    assert_eq!(moved.timer, 5);
    let a = state.enemies.contains_key(&Pos(0, 0).key());
    let b = state.enemies.contains_key(&Pos(2, 4).key());
    assert!(a != b);
    let stayed = if a { Pos(0, 0) } else { Pos(2, 4) };
    assert_eq!(state.enemies.get(&stayed.key()).unwrap().timer, 5);
    let seen_blockers = blockers.iter().filter(|p| state.enemies.get(&p.key()).unwrap().timer == 7).count();
    let unseen_blockers = blockers.iter().filter(|p| state.enemies.get(&p.key()).unwrap().timer == 8).count();
    assert_eq!(seen_blockers + unseen_blockers, blockers.len());
    assert!(seen_blockers > 0);
    assert_eq!(state.player.hp, 100);
}

#[test]
fn enemies_hold_their_turn_outside_calm_bounds() {
    let mut state = State::new(Player::with_luck(Pos(5, 5), 5));
    state.player.hp = 200_000;
    let mut e = Enemy::with_luck(32, Pos(6, 6), 3, 4);
    e.timer = 7;
    state.enemies.insert(Pos(6, 6).key(), e);
    state.resolve_enemies(true);
    assert_eq!(state.enemies.get(&Pos(6, 6).key()).unwrap().timer, 7);
    assert_eq!(state.player.hp, 200_000);
    assert_eq!(state.log.len(), 0);
}
