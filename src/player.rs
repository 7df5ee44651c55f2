//! The player: stats, armor-absorbed hits, equipment and the walking/combat state.
use crate::chance::roll;
use crate::enemy::Enemy;
use crate::item::{last_value, Action, EditableEntity, Item, ItemType, Value};
use crate::pos::{dist2, squared_distance, Pos};
use vstd::prelude::*;

verus! {

/// Whether the player walks freely or faces the enemies at the listed positions.
#[derive(Debug)]
pub enum PlayerState {
    Walking,
    Combat(Vec<Pos>),
}

/// Squared radius under which an enemy counts as close (distance below 3).
pub const REACH2: u128 = 9;

/// The positions of `s`, in order, that lie within reach of `p`.
pub open spec fn within_reach(s: Seq<Pos>, p: Pos) -> Seq<Pos>
    decreases s.len(),
{
    if s.len() == 0 {
        Seq::empty()
    } else if dist2(p, s.last()) < 9 {
        within_reach(s.drop_last(), p).push(s.last())
    } else {
        within_reach(s.drop_last(), p)
    }
}

/// A hit of `d` keeps the player's armor and hit points inside `i32`.
pub open spec fn hit_fits(p: Player, d: int) -> bool {
    &&& i32::MIN <= d - p.ac <= i32::MAX
    &&& i32::MIN <= p.ac - d <= i32::MAX
    &&& i32::MIN <= p.hp - (d - p.ac) <= i32::MAX
}

/// Any hit in `0..=most` keeps the player's armor and hit points inside `i32`.
pub open spec fn can_absorb(p: Player, most: int) -> bool {
    &&& 0 <= most
    &&& i32::MIN + most < p.ac
    &&& p.hp + p.ac <= i32::MAX
    &&& i32::MIN + most <= p.hp + p.ac
}

/// The player: hit points, armor, luck, tile, walking/combat state, the
/// inventory and carried item, experience, and the animation phase.
#[derive(Debug)]
pub struct Player {
    pub hp: i32,
    pub max_hp: i32,
    pub ac: i32,
    pub luck: i32,
    pub pos: Pos,
    pub state: PlayerState,
    pub items: Vec<Item>,
    pub carrying: Item,
    pub xp: i32,
    pub swing: u8,
}

/// What a hit of `damage` leaves of a player: armor absorbs first and is
/// reduced by the whole hit, hit points lose what the armor did not cover.
pub open spec fn after_hit(p: Player, damage: int) -> Player {
    Player { hp: (p.hp - (damage - p.ac)) as i32, ac: (p.ac - damage) as i32, ..p }
}

impl Player {
    /// A new player at `pos` whose luck is drawn from `5..15`.
    pub fn new(pos: Pos) -> (r: Player)
        ensures
            r.pos == pos,
            r.hp == 100 && r.max_hp == 100 && r.xp == 0,
            r.ac == 10,
            5 <= r.luck < 15,
            r.swing == 0,
            (r.state is Walking),
            r.items@.len() == 0,
            r.carrying.kind() == ItemType::Melee,
            r.carrying.name_view() == "Sword"@,
            r.carrying.effect(Action::Damage) == Some(30i32),
            r.carrying.effect(Action::Heal).is_none(),
            r.carrying.effect(Action::Nothing).is_none(),
    {
        let luck = roll(5, 15);
        Player::with_luck(pos, luck)
    }

    /// A new player at `pos` with the given luck: 100 hit points, armor 10,
    /// no experience, walking, carrying a sword that deals 30.
    pub fn with_luck(pos: Pos, luck: i32) -> (r: Player)
        ensures
            r.pos == pos,
            r.hp == 100 && r.max_hp == 100 && r.xp == 0,
            r.ac == 10,
            r.luck == luck,
            r.swing == 0,
            (r.state is Walking),
            r.items@.len() == 0,
            r.carrying.kind() == ItemType::Melee,
            r.carrying.name_view() == "Sword"@,
            r.carrying.effect(Action::Damage) == Some(30i32),
            r.carrying.effect(Action::Heal).is_none(),
            r.carrying.effect(Action::Nothing).is_none(),
    {
        let actions = vec![(Action::Damage, 30 as Value)];
        proof {
            assert(actions@.drop_last() =~= Seq::<(Action, Value)>::empty());
            assert(last_value(actions@.drop_last(), Action::Heal) is None);
            assert(last_value(actions@.drop_last(), Action::Nothing) is None);
        }
        let carrying = Item::new("Sword".to_owned(), ItemType::Melee, actions);
        assert(carrying.effect(Action::Heal) is None);
        assert(carrying.effect(Action::Nothing) is None);
        Player {
            hp: 100,
            max_hp: 100,
            ac: 10,
            xp: 0,
            luck,
            pos,
            state: PlayerState::Walking,
            carrying,
            items: Vec::new(),
            swing: 0,
        }
    }

    /// Advances the animation phase by one, modulo 4.
    pub fn cicle_swing(&mut self)
        ensures
            final(self).swing == (old(self).swing + 1) % 256 % 4,
            *final(self) == (Player { swing: final(self).swing, ..*old(self) }),
    {
        self.swing = self.swing.wrapping_add(1) % 4;
    }

    /// Takes a hit of `damage`: armor drops by `damage` (it may go negative)
    /// and hit points drop by `damage` minus the armor held before the hit.
    pub fn hit_by(&mut self, damage: i32)
        requires
            hit_fits(*old(self), damage as int),
        ensures
            *final(self) == after_hit(*old(self), damage as int),
    {
        let remaining_damage = damage - self.ac;
        self.ac = self.ac - damage;
        self.hp = self.hp - remaining_damage;
    }

    /// Strikes `enemy` for a random amount in `0..=luck`, which it returns.
    #[must_use]
    pub fn attack(&mut self, enemy: &mut Enemy) -> (r: i32)
        requires
            0 <= old(self).luck < i32::MAX,
            i32::MIN + old(self).luck <= old(enemy).hp,
        ensures
            0 <= r <= old(self).luck,
            *final(enemy) == (Enemy { hp: (old(enemy).hp - r) as i32, ..*old(enemy) }),
            *final(self) == *old(self),
    {
        let damage = roll(0, self.luck + 1);
        enemy.hit_by(damage);
        damage
    }

    /// Swaps the carried item with inventory slot `i`: the slot's item is
    /// taken out and carried, the previously carried item goes to the end.
    pub fn equip(&mut self, i: usize) -> (r: Result<(), ()>)
        ensures
            (r is Ok) <==> i < old(self).items@.len(),
            (r is Ok) ==> final(self).carrying == old(self).items@[i as int] && final(self).items@
                == old(self).items@.remove(i as int).push(old(self).carrying),
            (r is Err) ==> *final(self) == *old(self),
            final(self).items@.len() == old(self).items@.len(),
            final(self).hp == old(self).hp && final(self).pos == old(self).pos && final(self).xp
                == old(self).xp && final(self).max_hp == old(self).max_hp,
            final(self).ac == old(self).ac && final(self).luck
                == old(self).luck && final(self).swing == old(self).swing,
            final(self).state == old(self).state,
    {
        if i < self.items.len() {
            let mut item = self.items.remove(i);
            std::mem::swap(&mut self.carrying, &mut item);
            self.items.push(item);
            Ok(())
        } else {
            Err(())
        }
    }

    /// Enters combat with every listed enemy within reach (distance below 3,
    /// walls notwithstanding), or walks when there is none.
    pub fn check_sourroundings(&mut self, enemies: &Vec<Pos>)
        ensures
            within_reach(enemies@, old(self).pos).len() == 0 ==> (final(self).state is Walking),
            within_reach(enemies@, old(self).pos).len() > 0 ==> (final(self).state matches PlayerState::Combat(v) && v@ == within_reach(enemies@, old(self).pos)),
            *final(self) == (Player { state: final(self).state, ..*old(self) }),
    {
        let mut out: Vec<Pos> = Vec::new();
        let mut i: usize = 0;
        while i < enemies.len()
            invariant
                i <= enemies@.len(),
                out@ == within_reach(enemies@.take(i as int), self.pos),
            decreases enemies@.len() - i,
        {
            let p = enemies[i];
            assert(enemies@.take(i + 1).drop_last() == enemies@.take(i as int));
            if squared_distance(self.pos, p) < REACH2 {
                out.push(p);
            }
            i = i + 1;
        }
        assert(enemies@.take(enemies@.len() as int) == enemies@);
        if out.len() > 0 {
            self.state = PlayerState::Combat(out);
        } else {
            self.state = PlayerState::Walking;
        }
    }
}

/// A hit of `damage` lowers hit points by exactly `damage` minus the armor
/// held before it, and armor by `damage`. When that leaves the armor negative,
/// a second identical hit costs more than `damage` hit points.
pub proof fn lemma_armor_damage(p: Player, damage: int)
    requires
        hit_fits(p, damage),
        hit_fits(after_hit(p, damage), damage),
    ensures
        after_hit(p, damage).hp == p.hp - (damage - p.ac),
        after_hit(p, damage).ac == p.ac - damage,
        after_hit(p, damage).ac < 0 ==> after_hit(after_hit(p, damage), damage).hp < after_hit(
            p,
            damage,
        ).hp - damage,
{
}

impl EditableEntity for Player {
    open spec fn health(&self) -> int {
        self.hp as int
    }

    open spec fn same_except_health(&self, other: &Self) -> bool {
        *other == (Player { hp: other.hp, ..*self })
    }

    fn heal(&mut self, value: &Value) {
        self.hp = self.hp + *value;
    }

    fn damage(&mut self, value: &Value) {
        self.hp = self.hp - *value;
    }
}

} // verus!
