use dungeon_core::enemy::Enemy;
use dungeon_core::item::{Action, EditableEntity, Item, ItemType};
use dungeon_core::player::{Player, PlayerState};
use dungeon_core::pos::{squared_distance, Block, Pos};
use std::collections::HashMap;

#[test]
fn key_separates_positions() {
    let a = Pos(1, 2);
    let b = Pos(2, 1);
    assert_ne!(a.key(), b.key());
    assert_eq!(a.key(), Pos(1, 2).key());
    assert_ne!(Pos(0, -1).key(), Pos(-1, isize::MAX).key());
    assert_ne!(Pos(isize::MIN, isize::MIN).key(), Pos(isize::MAX, isize::MAX).key());
}

#[test]
fn translate_adds_offsets() {
    assert_eq!(Pos(3, 4).translate(Pos(-1, 2)), Pos(2, 6));
    assert_eq!(Pos::from((7, -8)), Pos(7, -8));
}

#[test]
fn around_lists_the_eight_neighbours() {
    let ring = Pos(5, 5).around();
    assert_eq!(
        ring,
        vec![Pos(4, 4), Pos(5, 4), Pos(6, 4), Pos(4, 5), Pos(6, 5), Pos(4, 6), Pos(5, 6), Pos(6, 6)]
    );
    assert!(!ring.contains(&Pos(5, 5)));
}

#[test]
fn squared_distance_is_exact_then_saturates() {
    assert_eq!(squared_distance(Pos(0, 0), Pos(3, 4)), 25);
    assert_eq!(squared_distance(Pos(2, 2), Pos(2, 2)), 0);
    assert_eq!(squared_distance(Pos(isize::MIN, 0), Pos(isize::MAX, 0)), (u64::MAX as u128) * (u64::MAX as u128));
    assert_eq!(squared_distance(Pos(isize::MIN, isize::MIN), Pos(isize::MAX, isize::MAX)), u128::MAX);
}

#[test]
fn item_new_keeps_the_last_magnitude_per_action() {
    let item = Item::new(
        "Potion".to_string(),
        ItemType::HealPotion,
        vec![(Action::Heal, 5), (Action::Damage, 2), (Action::Heal, 9)],
    );
    assert_eq!(item.name(), "Potion");
    assert_eq!(item.item_type(), ItemType::HealPotion);
    assert_eq!(item.magnitude(Action::Heal), Some(9));
    assert_eq!(item.magnitude(Action::Damage), Some(2));
    assert_eq!(item.magnitude(Action::Nothing), None);
}

#[test]
fn apply_heals_the_user_and_damages_the_target() {
    let item = Item::new(
        "Vampire Blade".to_string(),
        ItemType::Melee,
        vec![(Action::Heal, 7), (Action::Damage, 12), (Action::Nothing, 3)],
    );
    let mut player = Player::with_luck(Pos(0, 0), 5);
    let mut enemy = Enemy::with_luck(32, Pos(1, 0), 2, 3);
    item.apply(&mut player, &mut enemy);
    assert_eq!(player.hp, 107);
    assert_eq!(enemy.hp, 20);
    assert_eq!(player.ac, 10);
    assert_eq!(enemy.pos, Pos(1, 0));
}

#[test]
fn apply_without_actions_changes_nothing() {
    let item = Item::new("Pebble".to_string(), ItemType::Ingredient, vec![]);
    let mut a = Enemy::with_luck(10, Pos(0, 0), 1, 1);
    let mut b = Enemy::with_luck(20, Pos(1, 0), 1, 1);
    item.apply(&mut a, &mut b);
    assert_eq!(a.hp, 10);
    assert_eq!(b.hp, 20);
}

#[test]
fn entity_heal_and_damage_move_hit_points() {
    let mut enemy = Enemy::with_luck(10, Pos(0, 0), 1, 1);
    enemy.heal(&5);
    assert_eq!(enemy.hp, 15);
    enemy.damage(&20);
    assert_eq!(enemy.hp, -5);
}

#[test]
fn item_rolls_pick_category_name_and_magnitude() {
    let sword = Item::from_rolls(0, 3, 17);
    assert_eq!(sword.item_type(), ItemType::Melee);
    assert_eq!(sword.name(), "Magic Sword");
    assert_eq!(sword.magnitude(Action::Damage), Some(17));
    let ingredient = Item::from_rolls(1, 0, 17);
    assert_eq!(ingredient.item_type(), ItemType::Ingredient);
    assert_eq!(ingredient.name(), "Random Ingridient");
    assert_eq!(ingredient.magnitude(Action::Damage), None);
    let potion = Item::from_rolls(2, 0, 4);
    assert_eq!(potion.item_type(), ItemType::HealPotion);
    assert_eq!(potion.name(), "Heal Potion");
    assert_eq!(potion.magnitude(Action::Damage), Some(4));
    assert_eq!(Item::from_rolls(0, 0, 1).name(), "Wooden Sword");
    assert_eq!(Item::from_rolls(0, 4, 1).name(), "Sword Of Destiny");
}

#[test]
fn random_items_have_loot_shape() {
    for _ in 0..200 {
        let item = Item::random();
        assert_eq!(item.magnitude(Action::Heal), None);
        match item.item_type() {
            ItemType::Ingredient => assert_eq!(item.magnitude(Action::Damage), None),
            ItemType::Melee | ItemType::HealPotion => {
                let m = item.magnitude(Action::Damage).unwrap();
                assert!((0..30).contains(&m));
            }
            other => panic!("unexpected category {:?}", other),
        }
        let name = item.name().as_str();
        match item.item_type() {
            ItemType::Melee => assert!(
                ["Wooden Sword", "Copper Sword", "Iron Sword", "Magic Sword", "Sword Of Destiny"].contains(&name)
            ),
            ItemType::Ingredient => assert_eq!(name, "Random Ingridient"),
            _ => assert_eq!(name, "Heal Potion"),
        }
    }
}

#[test]
fn new_player_defaults() {
    let p = Player::new(Pos(1, 1));
    assert_eq!(p.hp, 100);
    assert_eq!(p.max_hp, 100);
    assert_eq!(p.ac, 10);
    assert_eq!(p.xp, 0);
    assert!((5..15).contains(&p.luck));
    assert!(matches!(p.state, PlayerState::Walking));
    assert_eq!(p.carrying.name(), "Sword");
    assert_eq!(p.carrying.magnitude(Action::Damage), Some(30));
    assert!(p.items.is_empty());
}

#[test]
fn swing_cycles_through_four_phases() {
    let mut p = Player::with_luck(Pos(0, 0), 5);
    let mut seen = vec![];
    for _ in 0..5 {
        p.cicle_swing();
        seen.push(p.swing);
    }
    assert_eq!(seen, vec![1, 2, 3, 0, 1]);
}

#[test]
fn hit_passes_damage_beyond_armor_and_wears_armor() {
    let mut p = Player::with_luck(Pos(0, 0), 5);
    p.hit_by(15);
    assert_eq!(p.hp, 95);
    assert_eq!(p.ac, -5);
    p.hit_by(15);
    assert_eq!(p.hp, 75);
    assert_eq!(p.ac, -20);
    assert!(95 - 75 > 15);
}

#[test]
fn hit_below_armor_raises_hit_points() {
    let mut p = Player::with_luck(Pos(0, 0), 5);
    p.hit_by(4);
    assert_eq!(p.hp, 106);
    assert_eq!(p.ac, 6);
}

#[test]
fn attack_rolls_within_luck() {
    let mut p = Player::with_luck(Pos(0, 0), 6);
    for _ in 0..50 {
        let mut e = Enemy::with_luck(32, Pos(1, 0), 1, 1);
        let d = p.attack(&mut e);
        assert!((0..=6).contains(&d));
        assert_eq!(e.hp, 32 - d);
    }
}

fn named(name: &str) -> Item {
    Item::new(name.to_string(), ItemType::Melee, vec![(Action::Damage, 1)])
}

#[test]
fn equip_swaps_carried_item_with_slot() {
    let mut p = Player::with_luck(Pos(0, 0), 5);
    p.items = vec![named("A"), named("B"), named("C")];
    assert_eq!(p.equip(1), Ok(()));
    assert_eq!(p.carrying.name(), "B");
    let names: Vec<String> = p.items.iter().map(|i| i.name().clone()).collect();
    assert_eq!(names, vec!["A", "C", "Sword"]);
    assert_eq!(p.items.len(), 3);
}

#[test]
fn equip_out_of_range_fails_and_changes_nothing() {
    let mut p = Player::with_luck(Pos(0, 0), 5);
    p.items = vec![named("A")];
    assert_eq!(p.equip(1), Err(()));
    assert_eq!(p.carrying.name(), "Sword");
    assert_eq!(p.items.len(), 1);
    assert_eq!(p.items[0].name(), "A");
    let mut empty = Player::with_luck(Pos(0, 0), 5);
    assert_eq!(empty.equip(0), Err(()));
    assert!(empty.items.is_empty());
}

#[test]
fn surroundings_enter_combat_within_reach_only() {
    let mut p = Player::with_luck(Pos(5, 5), 5);
    p.check_sourroundings(&vec![Pos(7, 7), Pos(8, 5), Pos(5, 3), Pos(9, 9)]);
    match &p.state {
        PlayerState::Combat(v) => assert_eq!(v, &vec![Pos(7, 7), Pos(5, 3)]),
        PlayerState::Walking => panic!("expected combat"),
    }
    p.check_sourroundings(&vec![Pos(8, 5), Pos(2, 5)]);
    assert!(matches!(p.state, PlayerState::Walking));
    p.check_sourroundings(&vec![]);
    assert!(matches!(p.state, PlayerState::Walking));
}

#[test]
fn enemy_hit_has_no_armor() {
    let mut e = Enemy::new(32, Pos(0, 0), 3);
    assert!((0..5).contains(&e.luck));
    assert_eq!(e.timer, 0);
    e.hit_by(10);
    assert_eq!(e.hp, 22);
    assert_eq!(e.dificulty, 3);
}

#[test]
fn leap_successors_skip_walls_and_enemies() {
    let mut e = Enemy::with_luck(32, Pos(0, 0), 1, 2);
    e.timer = 10;
    let mut walls = HashMap::new();
    walls.insert(Pos(1, 2).key(), Block::Wall);
    let mut others = HashMap::new();
    others.insert(Pos(-2, -1).key(), Enemy::with_luck(32, Pos(-2, -1), 1, 1));
    let succ = e.leap_successors(&walls, &others, Pos(0, 0));
    let targets: Vec<Pos> = succ.iter().map(|s| s.0).collect();
    assert_eq!(
        targets,
        vec![Pos(1, -2), Pos(-1, 2), Pos(-1, -2), Pos(2, 1), Pos(2, -1), Pos(-2, 1)]
    );
    assert!(succ.iter().all(|s| s.1 == 1));
    e.timer = 11;
    assert!(e.leap_successors(&walls, &others, Pos(0, 0)).is_empty());
}
