//! The world state of a floor and the per-turn orchestration: player
//! actions, tile triggers, enemy resolution and the combat check.
use crate::enemy::{attack_ready, next_timer, open_leap, Enemy};
use crate::events::{
    hit_line, hit_text, log_bound, log_clear, log_entries, log_push_front, new_log, new_trail,
    pushed_front, strike_line, strike_text, trail_bound, trail_of, EventType, LOG_CAPACITY,
    TRAIL_CAPACITY,
};
use crate::floor::{
    all_paired, all_teleporters, arrival, build_floor, lemma_teleporter_symmetry, unique_ids,
    unique_tiles, farthest_floor, grid_fits, grid_pos,
    has_floor, is_enemy_table, is_item_table, is_teleporter_table, is_wall_map, FloorError,
    FloorPlan,
};
use crate::fov::{keep_occupied, lemma_occupied_held, occupied, sight, visible_tiles};
use crate::item::{amount, Action, Item, ItemType};
use crate::player::{after_hit, within_reach, Player, PlayerState};
use crate::pos::{can_shift, lemma_pkey_injective, pkey, shifted, Block, Pos};
use bounded_vec_deque::BoundedVecDeque;
use std::collections::HashMap;
use vstd::prelude::*;

verus! {

/// The world of one floor, the player, and the recent-event log.
#[derive(Debug)]
pub struct State {
    pub exit: Pos,
    pub map: HashMap<i128, Block>,
    pub teleporters_map: HashMap<i128, Block>,
    pub enemies: HashMap<i128, Enemy>,
    pub items: HashMap<i128, Item>,
    pub player: Player,
    pub log: BoundedVecDeque<(String, EventType)>,
    pub path: BoundedVecDeque<Pos>,
    pub dungeon: Option<FloorPlan>,
}

/// One player action, as decoded from input.
#[derive(Debug, Clone, Copy, PartialEq, Eq, Structural)]
pub enum Command {
    /// Step by the given offset (walking only).
    Move(Pos),
    /// Strike the first enemy faced with the carried item (combat only).
    Strike,
    /// Swap the carried item with an inventory slot (combat only).
    Equip(usize),
    /// Let a turn pass.
    Wait,
}

/// What the tile under the player did.
#[derive(Debug, Clone, Copy, PartialEq, Eq, Structural)]
pub enum TileEvent {
    Nothing,
    Teleported,
    ExitReached,
}

/// The wall/exit map holds a wall at `p`.
pub open spec fn wall_at(map: Map<i128, Block>, p: Pos) -> bool {
    map.contains_key(pkey(p)) && map[pkey(p)] == Block::Wall
}

/// The block under `p`: the wall/exit map first, then the teleporter map.
pub open spec fn block_under(map: Map<i128, Block>, teleporters: Map<i128, Block>, p: Pos) -> Option<Block> {
    if map.contains_key(pkey(p)) {
        Some(map[pkey(p)])
    } else if teleporters.contains_key(pkey(p)) {
        Some(teleporters[pkey(p)])
    } else {
        None
    }
}

/// Where a strike aims: the first enemy faced in combat.
pub open spec fn strike_target(s: PlayerState) -> Option<Pos> {
    match s {
        PlayerState::Combat(v) => if v@.len() > 0 {
            Some(v@[0])
        } else {
            None
        },
        PlayerState::Walking => None,
    }
}

/// A strike by `p` with its carried item on `e` keeps both hit point counts
/// inside `i32`.
pub open spec fn strike_fits(p: Player, e: Enemy) -> bool {
    &&& i32::MIN <= p.hp + amount(p.carrying.effect(Action::Heal)) <= i32::MAX
    &&& i32::MIN <= e.hp - amount(p.carrying.effect(Action::Damage)) <= i32::MAX
}

/// Some position of `v` has key `k`.
pub open spec fn seen_key(v: Seq<Pos>, k: i128) -> bool {
    exists|j: int| 0 <= j < v.len() && #[trigger] pkey(v[j]) == k
}

/// Bound on the player's hit points and armor under which enemies act.
pub const CALM_STAT: i32 = 0x1_0000;

/// Bound on the luck of every seen enemy under which enemies act.
pub const CALM_LUCK: i32 = 255;

/// Bound on the number of seen enemies under which enemies act.
pub const CALM_CROWD: usize = 1024;

/// The enemy filed under position `p`.
pub open spec fn filed(table: Map<i128, Enemy>, p: Pos) -> Enemy {
    table[pkey(p)]
}

/// The player's stats, the seen enemies' luck and their number are small
/// enough that every hit of the turn keeps the player's stats inside `i32`.
pub open spec fn calm(p: Player, seen: Seq<Pos>, table: Map<i128, Enemy>) -> bool {
    &&& -CALM_STAT <= p.hp <= CALM_STAT
    &&& -CALM_STAT <= p.ac <= CALM_STAT
    &&& seen.len() <= CALM_CROWD
    &&& forall|j: int|
        0 <= j < seen.len() ==> 0 <= (#[trigger] filed(table, seen[j])).luck <= CALM_LUCK
}

/// The seen enemies that attack a player on `target`, in order.
pub open spec fn attackers(seen: Seq<Pos>, table: Map<i128, Enemy>, target: Pos) -> Seq<Enemy>
    decreases seen.len(),
{
    if seen.len() == 0 {
        Seq::empty()
    } else if attack_ready(filed(table, seen.last()), target) {
        attackers(seen.drop_last(), table, target).push(filed(table, seen.last()))
    } else {
        attackers(seen.drop_last(), table, target)
    }
}

/// The seen enemies without hit points, in order.
pub open spec fn fallen(seen: Seq<Pos>, table: Map<i128, Enemy>) -> Seq<Enemy>
    decreases seen.len(),
{
    if seen.len() == 0 {
        Seq::empty()
    } else if filed(table, seen.last()).hp <= 0 {
        fallen(seen.drop_last(), table).push(filed(table, seen.last()))
    } else {
        fallen(seen.drop_last(), table)
    }
}

/// The summed difficulty of `es`.
pub open spec fn bounty(es: Seq<Enemy>) -> int
    decreases es.len(),
{
    if es.len() == 0 {
        0
    } else {
        bounty(es.drop_last()) + es.last().dificulty
    }
}

/// The player after the hits `ds`, in order.
pub open spec fn apply_hits(p: Player, ds: Seq<i32>) -> Player
    decreases ds.len(),
{
    if ds.len() == 0 {
        p
    } else {
        after_hit(apply_hits(p, ds.drop_last()), ds.last() as int)
    }
}

/// A log holding `s` after `lines` are pushed at its front, in order.
pub open spec fn pushed_all(s: Seq<(String, EventType)>, lines: Seq<(String, EventType)>) -> Seq<
    (String, EventType),
>
    decreases lines.len(),
{
    if lines.len() == 0 {
        s
    } else {
        pushed_front(pushed_all(s, lines.drop_last()), LOG_CAPACITY as nat, lines.last())
    }
}

/// Enemy `e` after its turn, standing on `q`: the timer advanced when the
/// enemies act, everything else but the tile kept.
pub open spec fn turned(e: Enemy, acts: bool, q: Pos) -> Enemy {
    Enemy { pos: q, timer: if acts { next_timer(e.timer as int) as i32 } else { e.timer }, ..e }
}

/// `q` is a tile enemy `e` may end its turn on: its own, or an open leap
/// when the enemies act.
pub open spec fn may_land(map: Map<i128, Block>, table: Map<i128, Enemy>, e: Enemy, acts: bool, q: Pos) -> bool {
    q == e.pos || (acts && open_leap(map, table, next_timer(e.timer as int), e.pos, e.pos, q))
}

/// Hits change only the player's hit points and armor.
pub proof fn lemma_hits_keep(p: Player, ds: Seq<i32>)
    ensures
        apply_hits(p, ds) == (Player { hp: apply_hits(p, ds).hp, ac: apply_hits(p, ds).ac, ..p }),
    decreases ds.len(),
{
    if ds.len() > 0 {
        lemma_hits_keep(p, ds.drop_last());
    }
}

/// Checks `calm` for the seen enemies of `table`.
pub fn is_calm(p: &Player, seen: &Vec<Pos>, table: &HashMap<i128, Enemy>) -> (r: bool)
    requires
        forall|j: int| 0 <= j < seen@.len() ==> table@.contains_key(pkey(#[trigger] seen@[j])),
    ensures
        r == calm(*p, seen@, table@),
{
    if p.hp < -CALM_STAT || p.hp > CALM_STAT || p.ac < -CALM_STAT || p.ac > CALM_STAT || seen.len()
        > CALM_CROWD {
        return false;
    }
    let mut j: usize = 0;
    while j < seen.len()
        invariant
            j <= seen@.len(),
            forall|i: int| 0 <= i < seen@.len() ==> table@.contains_key(pkey(#[trigger] seen@[i])),
            forall|i: int|
                0 <= i < j ==> 0 <= (#[trigger] filed(table@, seen@[i])).luck <= CALM_LUCK,
        decreases seen@.len() - j,
    {
        assert(table@.contains_key(pkey(seen@[j as int])));
        match table.get(&seen[j].key()) {
            Some(e) => {
                if e.luck < 0 || e.luck > CALM_LUCK {
                    assert(!(0 <= filed(table@, seen@[j as int]).luck <= CALM_LUCK));
                    return false;
                }
            },
            None => {
                return false;
            },
        }
        j = j + 1;
    }
    true
}

/// Whether some enemy of `acted` stands on `p`.
fn claimed(acted: &Vec<Enemy>, p: Pos) -> (r: bool)
    ensures
        r == exists|a: int| 0 <= a < acted@.len() && (#[trigger] acted@[a]).pos == p,
{
    let mut a: usize = 0;
    while a < acted.len()
        invariant
            a <= acted@.len(),
            forall|b: int| 0 <= b < a ==> (#[trigger] acted@[b]).pos != p,
        decreases acted@.len() - a,
    {
        if acted[a].pos == p {
            return true;
        }
        a = a + 1;
    }
    false
}

/// Each enemy is filed under the key of its own position.
pub open spec fn enemies_keyed(m: Map<i128, Enemy>) -> bool {
    forall|k: i128| #[trigger] m.contains_key(k) ==> pkey(m[k].pos) == k
}

impl State {
    /// The state's invariant: the log holds at most its capacity of 8, and
    /// every enemy sits under its own position's key.
    pub open spec fn wf(&self) -> bool {
        &&& log_bound(self.log) == LOG_CAPACITY
        &&& log_entries(self.log).len() <= LOG_CAPACITY
        &&& enemies_keyed(self.enemies@)
    }

    /// The floor, log and trail are exactly those rebuilt from `plan`: the
    /// exit on the first farthest floor tile and in the wall map, the
    /// teleporter, enemy and item tables of the plan, an empty log and trail.
    pub open spec fn rebuilt_from(&self, plan: FloorPlan) -> bool {
        &&& exists|ex: int, ey: int|
            farthest_floor(plan.tiles@, plan.spawn, ex, ey) && self.exit == grid_pos(ex, ey)
        &&& exists|walls: Map<i128, Block>|
            is_wall_map(walls, plan.tiles@) && self.map@ == walls.insert(pkey(self.exit), Block::Exit)
        &&& is_teleporter_table(self.teleporters_map@, all_teleporters(plan.rooms@))
        &&& is_enemy_table(self.enemies@, plan.rooms@)
        &&& is_item_table(self.items@, plan.rooms@)
        &&& log_entries(self.log).len() == 0
        &&& trail_of(self.path).len() == 0
        &&& trail_bound(self.path) == TRAIL_CAPACITY
        &&& self.dungeon == Some(plan)
    }

    /// The seen enemies act this turn: the turn is active and `calm`.
    pub open spec fn acts_on(&self, active_turn: bool) -> bool {
        active_turn && calm(self.player, self.seen_enemies(), self.enemies@)
    }

    /// The enemies the player sees, in reporting order.
    pub open spec fn seen_enemies(&self) -> Seq<Pos> {
        occupied(sight(self.player.pos, self.map@), self.enemies@)
    }

    /// An empty world around `player`.
    pub fn new(player: Player) -> (r: State)
        ensures
            r.wf(),
            r.player == player,
            r.map@ == Map::<i128, Block>::empty(),
            r.teleporters_map@ == Map::<i128, Block>::empty(),
            r.enemies@ == Map::<i128, Enemy>::empty(),
            r.items@ == Map::<i128, Item>::empty(),
            log_entries(r.log).len() == 0,
            trail_of(r.path).len() == 0,
            trail_bound(r.path) == TRAIL_CAPACITY,
            r.dungeon is None,
            r.exit == Pos(0, 0),
    {
        State {
            player,
            map: HashMap::new(),
            items: HashMap::new(),
            teleporters_map: HashMap::new(),
            enemies: HashMap::new(),
            log: new_log(LOG_CAPACITY),
            path: new_trail(TRAIL_CAPACITY),
            dungeon: None,
            exit: Pos(0, 0),
        }
    }

    /// Records an event at the front of the log; the oldest of a full log drops out.
    pub fn event(&mut self, event: String, etype: EventType)
        requires
            old(self).wf(),
        ensures
            final(self).wf(),
            log_entries(final(self).log) == pushed_front(
                log_entries(old(self).log),
                LOG_CAPACITY as nat,
                (event, etype),
            ),
            *final(self) == (State { log: final(self).log, ..*old(self) }),
    {
        let _ = log_push_front(&mut self.log, (event, etype));
    }

    /// Every tile visible from the player, each once.
    pub fn compute_walls(&self) -> (r: Vec<Pos>)
        ensures
            r@ == sight(self.player.pos, self.map@),
    {
        visible_tiles(self.player.pos, &self.map)
    }

    /// The visible tiles that hold an enemy.
    pub fn compute_enemies(&self) -> (r: Vec<Pos>)
        ensures
            r@ == self.seen_enemies(),
    {
        let tiles = visible_tiles(self.player.pos, &self.map);
        keep_occupied(&tiles, &self.enemies)
    }

    /// The visible tiles that hold an item.
    pub fn compute_items(&self) -> (r: Vec<Pos>)
        ensures
            r@ == occupied(sight(self.player.pos, self.map@), self.items@),
    {
        let tiles = visible_tiles(self.player.pos, &self.map);
        keep_occupied(&tiles, &self.items)
    }

    /// Recomputes the player's state from the enemies it sees: combat with
    /// those within reach, walking when there is none.
    pub fn update(&mut self)
        ensures
            within_reach(old(self).seen_enemies(), old(self).player.pos).len() == 0
                ==> (final(self).player.state is Walking),
            within_reach(old(self).seen_enemies(), old(self).player.pos).len() > 0
                ==> (final(self).player.state matches PlayerState::Combat(v) && v@ == within_reach(
                old(self).seen_enemies(),
                old(self).player.pos,
            )),
            final(self).player == (Player { state: final(self).player.state, ..old(self).player }),
            *final(self) == (State { player: final(self).player, ..*old(self) }),
    {
        let seen = self.compute_enemies();
        self.player.check_sourroundings(&seen);
    }

    /// Replaces the floor with the one `plan` describes and moves the player
    /// to its spawn; the log and trail start empty. On failure nothing changes.
    pub fn reset(&mut self, plan: FloorPlan) -> (r: Result<(), FloorError>)
        requires
            old(self).wf(),
        ensures
            final(self).wf(),
            (r is Ok) <==> grid_fits(plan.tiles@) && has_floor(plan.tiles@) && all_paired(
                all_teleporters(plan.rooms@),
            ),
            (r is Err) ==> *final(self) == *old(self),
            (r is Ok) ==> final(self).rebuilt_from(plan) && final(self).player == (Player {
                pos: plan.spawn,
                ..old(self).player
            }),
    {
        let floor = match build_floor(&plan) {
            Ok(f) => f,
            Err(e) => {
                return Err(e);
            },
        };
        proof {
            assert forall|k: i128| #[trigger] floor.enemies@.contains_key(k) implies pkey(
                floor.enemies@[k].pos,
            ) == k by {
                let (r, j) = choose|r: int, j: int|
                    #[trigger] crate::floor::spawns(plan.rooms@, r, j) && pkey(
                        plan.rooms@[r].enemies@[j].pos,
                    ) == k && crate::floor::spawned_from(
                        floor.enemies@[k],
                        plan.rooms@[r].enemies@[j],
                    );
            }
        }
        self.path = new_trail(TRAIL_CAPACITY);
        log_clear(&mut self.log);
        self.player.pos = floor.spawn;
        self.map = floor.map;
        self.teleporters_map = floor.teleporters;
        self.enemies = floor.enemies;
        self.items = floor.items;
        self.exit = floor.exit;
        self.dungeon = Some(plan);
        Ok(())
    }

    /// Carries out one player action and says whether it took the turn.
    /// Walking, a move steps unless a wall is in the way (a move out of the
    /// coordinate range is refused). In combat, a strike applies the carried
    /// item to the first enemy faced (its heal to the player, its damage to
    /// the enemy) and logs the damage dealt; equipping swaps in an inventory
    /// slot and takes the turn even when the slot is empty. Waiting takes the
    /// turn. Anything else is ignored.
    pub fn act(&mut self, cmd: Command) -> (active: bool)
        requires
            old(self).wf(),
        ensures
            final(self).wf(),
            match (old(self).player.state, cmd) {
                (PlayerState::Walking, Command::Move(d)) => if can_shift(
                    old(self).player.pos,
                    d.0 as int,
                    d.1 as int,
                ) {
                    let dest = shifted(old(self).player.pos, d.0 as int, d.1 as int);
                    &&& active
                    &&& wall_at(old(self).map@, dest) ==> *final(self) == *old(self)
                    &&& !wall_at(old(self).map@, dest) ==> final(self).player == (Player {
                        pos: dest,
                        swing: ((old(self).player.swing + 1) % 256 % 4) as u8,
                        ..old(self).player
                    }) && *final(self) == (State { player: final(self).player, ..*old(self) })
                } else {
                    !active && *final(self) == *old(self)
                },
                (PlayerState::Combat(_), Command::Strike) => match strike_target(
                    old(self).player.state,
                ) {
                    Some(t) => if old(self).enemies@.contains_key(pkey(t)) && strike_fits(
                        old(self).player,
                        old(self).enemies@[pkey(t)],
                    ) {
                        let e = old(self).enemies@[pkey(t)];
                        let dealt = amount(old(self).player.carrying.effect(Action::Damage));
                        &&& active
                        &&& final(self).enemies@ == old(self).enemies@.insert(
                            pkey(t),
                            Enemy { hp: (e.hp - dealt) as i32, ..e },
                        )
                        &&& final(self).player == (Player {
                            hp: (old(self).player.hp + amount(
                                old(self).player.carrying.effect(Action::Heal),
                            )) as i32,
                            ..old(self).player
                        })
                        &&& exists|line: String|
                            line@ == strike_line(dealt) && log_entries(final(self).log)
                                == pushed_front(
                                log_entries(old(self).log),
                                LOG_CAPACITY as nat,
                                (line, EventType::DamageDealt),
                            )
                        &&& *final(self) == (State {
                            enemies: final(self).enemies,
                            player: final(self).player,
                            log: final(self).log,
                            ..*old(self)
                        })
                    } else {
                        !active && *final(self) == *old(self)
                    },
                    None => !active && *final(self) == *old(self),
                },
                (PlayerState::Combat(_), Command::Equip(i)) => {
                    &&& active
                    &&& i < old(self).player.items@.len() ==> final(self).player.carrying
                        == old(self).player.items@[i as int] && final(self).player.items@
                        == old(self).player.items@.remove(i as int).push(old(self).player.carrying)
                    &&& i >= old(self).player.items@.len() ==> *final(self) == *old(self)
                    &&& final(self).player == (Player {
                        carrying: final(self).player.carrying,
                        items: final(self).player.items,
                        ..old(self).player
                    })
                    &&& *final(self) == (State { player: final(self).player, ..*old(self) })
                },
                (_, Command::Wait) => active && *final(self) == *old(self),
                _ => !active && *final(self) == *old(self),
            },
    {
        match cmd {
            Command::Move(d) => {
                if let PlayerState::Combat(_) = self.player.state {
                    return false;
                }
                match (self.player.pos.0.checked_add(d.0), self.player.pos.1.checked_add(d.1)) {
                    (Some(_), Some(_)) => {
                        check_collision(self, &d);
                        true
                    },
                    _ => false,
                }
            },
            Command::Strike => self.strike(),
            Command::Equip(i) => {
                if let PlayerState::Walking = self.player.state {
                    return false;
                }
                let _ = self.player.equip(i);
                true
            },
            Command::Wait => true,
        }
    }

    /// Strikes the first enemy faced; see `act`.
    fn strike(&mut self) -> (active: bool)
        requires
            old(self).wf(),
        ensures
            final(self).wf(),
            match strike_target(old(self).player.state) {
                Some(t) => if old(self).enemies@.contains_key(pkey(t)) && strike_fits(
                    old(self).player,
                    old(self).enemies@[pkey(t)],
                ) {
                    let e = old(self).enemies@[pkey(t)];
                    let dealt = amount(old(self).player.carrying.effect(Action::Damage));
                    &&& active
                    &&& final(self).enemies@ == old(self).enemies@.insert(
                        pkey(t),
                        Enemy { hp: (e.hp - dealt) as i32, ..e },
                    )
                    &&& final(self).player == (Player {
                        hp: (old(self).player.hp + amount(
                            old(self).player.carrying.effect(Action::Heal),
                        )) as i32,
                        ..old(self).player
                    })
                    &&& exists|line: String|
                        line@ == strike_line(dealt) && log_entries(final(self).log) == pushed_front(
                            log_entries(old(self).log),
                            LOG_CAPACITY as nat,
                            (line, EventType::DamageDealt),
                        )
                    &&& *final(self) == (State {
                        enemies: final(self).enemies,
                        player: final(self).player,
                        log: final(self).log,
                        ..*old(self)
                    })
                } else {
                    !active && *final(self) == *old(self)
                },
                None => !active && *final(self) == *old(self),
            },
    {
        let target = match &self.player.state {
            PlayerState::Combat(v) => if v.len() > 0 {
                Some(v[0])
            } else {
                None
            },
            PlayerState::Walking => None,
        };
        let t = match target {
            Some(t) => t,
            None => {
                return false;
            },
        };
        let key = t.key();
        let enemy = match self.enemies.get(&key) {
            Some(e) => e.clone_enemy(),
            None => {
                return false;
            },
        };
        let heal = self.player.carrying.magnitude(Action::Heal);
        let damage = self.player.carrying.magnitude(Action::Damage);
        let heal_amount: i64 = match heal {
            Some(v) => v as i64,
            None => 0,
        };
        let damage_amount: i64 = match damage {
            Some(v) => v as i64,
            None => 0,
        };
        let hp_after = self.player.hp as i64 + heal_amount;
        let enemy_after = enemy.hp as i64 - damage_amount;
        if hp_after < i32::MIN as i64 || hp_after > i32::MAX as i64 || enemy_after < i32::MIN as i64
            || enemy_after > i32::MAX as i64 {
            return false;
        }
        let mut enemy = enemy;
        let old_hp = enemy.hp;
        let mut item = Item::new(String::new(), ItemType::Ingredient, Vec::new());
        std::mem::swap(&mut self.player.carrying, &mut item);
        item.apply(&mut self.player, &mut enemy);
        std::mem::swap(&mut self.player.carrying, &mut item);
        let dealt = old_hp - enemy.hp;
        self.enemies.insert(key, enemy);
        let line = strike_text(dealt);
        self.event(line, EventType::DamageDealt);
        true
    }

    /// Resolves the tile under the player: a teleporter logs the jump and
    /// moves the player one tile up and left of its counterpart; the exit
    /// reports that a new floor is due; anything else does nothing.
    pub fn resolve_tile(&mut self) -> (r: TileEvent)
        requires
            old(self).wf(),
        ensures
            final(self).wf(),
            match block_under(old(self).map@, old(self).teleporters_map@, old(self).player.pos) {
                Some(Block::Exit) => r == TileEvent::ExitReached && *final(self) == *old(self),
                Some(Block::Teleporter(t)) => if can_shift(t, -1, -1) {
                    &&& r == TileEvent::Teleported
                    &&& final(self).player == (Player { pos: shifted(t, -1, -1), ..old(self).player })
                    &&& exists|line: String|
                        line@ == "Teleporter activated"@ && log_entries(final(self).log)
                            == pushed_front(
                            log_entries(old(self).log),
                            LOG_CAPACITY as nat,
                            (line, EventType::Teleport),
                        )
                    &&& *final(self) == (State {
                        player: final(self).player,
                        log: final(self).log,
                        ..*old(self)
                    })
                } else {
                    r == TileEvent::Nothing && *final(self) == *old(self)
                },
                _ => r == TileEvent::Nothing && *final(self) == *old(self),
            },
    {
        let key = self.player.pos.key();
        let block = match self.map.get(&key) {
            Some(b) => Some(*b),
            None => match self.teleporters_map.get(&key) {
                Some(b) => Some(*b),
                None => None,
            },
        };
        match block {
            Some(Block::Exit) => TileEvent::ExitReached,
            Some(Block::Teleporter(t)) => {
                match (t.0.checked_sub(1), t.1.checked_sub(1)) {
                    (Some(x), Some(y)) => {
                        let line = "Teleporter activated".to_owned();
                        self.event(line, EventType::Teleport);
                        self.player.pos = Pos(x, y);
                        TileEvent::Teleported
                    },
                    _ => TileEvent::Nothing,
                }
            },
            _ => TileEvent::Nothing,
        }
    }

    /// The enemies' half of a turn. Every enemy the player sees takes its
    /// turn (`Enemy::update`, in order of sight) against one snapshot of the
    /// table taken before anyone moves; the enemies act on an active turn
    /// while the player's stats, the seen enemies' luck and their number are
    /// `calm`. A move onto a tile that an earlier enemy already took this turn
    /// is turned back. The hits are logged, then each seen enemy without hit
    /// points is removed and logged and its difficulty added to the player's
    /// experience (which saturates at `i32::MAX`). Enemies out of sight are
    /// untouched.
    pub fn resolve_enemies(&mut self, active_turn: bool)
        requires
            old(self).wf(),
        ensures
            final(self).wf(),
            forall|k: i128|
                #[trigger] old(self).enemies@.contains_key(k) && !seen_key(old(self).seen_enemies(), k)
                    ==> final(self).enemies@.contains_key(k) && final(self).enemies@[k] == old(
                    self,
                ).enemies@[k],
            forall|k: i128|
                #[trigger] final(self).enemies@.contains_key(k) ==> (old(self).enemies@.contains_key(k)
                    && !seen_key(old(self).seen_enemies(), k) && final(self).enemies@[k] == old(
                    self,
                ).enemies@[k]) || final(self).enemies@[k].hp > 0,
            forall|j: int|
                0 <= j < old(self).seen_enemies().len() && (#[trigger] filed(
                    old(self).enemies@,
                    old(self).seen_enemies()[j],
                )).hp > 0 ==> exists|q: Pos|
                    final(self).enemies@.contains_key(pkey(q)) && final(self).enemies@[pkey(q)]
                        == turned(
                        filed(old(self).enemies@, old(self).seen_enemies()[j]),
                        old(self).acts_on(active_turn),
                        q,
                    ) && may_land(
                        old(self).map@,
                        old(self).enemies@,
                        filed(old(self).enemies@, old(self).seen_enemies()[j]),
                        old(self).acts_on(active_turn),
                        q,
                    ),
            forall|j: int|
                0 <= j < old(self).seen_enemies().len() && (#[trigger] filed(
                    old(self).enemies@,
                    old(self).seen_enemies()[j],
                )).hp <= 0 ==> !final(self).enemies@.contains_key(pkey(old(self).seen_enemies()[j])),
            exists|ds: Seq<i32>, lines: Seq<(String, EventType)>|
                {
                    &&& ds.len() == if old(self).acts_on(active_turn) {
                        attackers(old(self).seen_enemies(), old(self).enemies@, old(self).player.pos).len()
                    } else {
                        0
                    }
                    &&& forall|i: int|
                        0 <= i < ds.len() ==> 0 <= #[trigger] ds[i] <= attackers(
                            old(self).seen_enemies(),
                            old(self).enemies@,
                            old(self).player.pos,
                        )[i].luck
                    &&& final(self).player == (Player {
                        xp: final(self).player.xp,
                        ..#[trigger] apply_hits(old(self).player, ds)
                    })
                    &&& lines.len() == ds.len() + fallen(old(self).seen_enemies(), old(self).enemies@).len()
                    &&& forall|i: int|
                        0 <= i < ds.len() ==> (#[trigger] lines[i]).0@ == hit_line(ds[i] as int)
                            && lines[i].1 == EventType::DamageTaken
                    &&& forall|i: int|
                        ds.len() <= i < lines.len() ==> (#[trigger] lines[i]).0@ == "Enemy died"@
                            && lines[i].1 == EventType::XP
                    &&& log_entries(final(self).log) == #[trigger] pushed_all(
                        log_entries(old(self).log),
                        lines,
                    )
                },
            final(self).player.xp == if old(self).player.xp + bounty(
                fallen(old(self).seen_enemies(), old(self).enemies@),
            ) <= i32::MAX {
                old(self).player.xp + bounty(fallen(old(self).seen_enemies(), old(self).enemies@))
            } else {
                i32::MAX as int
            },
            *final(self) == (State {
                enemies: final(self).enemies,
                player: final(self).player,
                log: final(self).log,
                ..*old(self)
            }),
    {
        let seen = self.compute_enemies();
        proof {
            lemma_occupied_held(sight(self.player.pos, self.map@), self.enemies@);
        }
        let snapshot = self.enemies.clone();
        let acts = active_turn && is_calm(&self.player, &seen, &self.enemies);
        let ghost start = *self;
        let ghost t = start.enemies@;
        let ghost s = seen@;
        let ghost target = start.player.pos;
        let mut acted: Vec<Enemy> = Vec::new();
        let mut hits: Vec<i32> = Vec::new();
        let mut i: usize = 0;
        while i < seen.len()
            invariant
                i <= s.len(),
                s == seen@,
                s == start.seen_enemies(),
                t == start.enemies@,
                snapshot@ == t,
                target == start.player.pos,
                enemies_keyed(t),
                forall|j: int| 0 <= j < s.len() ==> t.contains_key(pkey(#[trigger] s[j])),
                forall|x: int, y: int| 0 <= x < y < s.len() ==> #[trigger] s[x] != #[trigger] s[y],
                acts ==> calm(start.player, s, t),
                self.map == start.map,
                self.log == start.log,
                *self == (State { enemies: self.enemies, player: self.player, ..start }),
                self.player == apply_hits(start.player, hits@),
                self.player.pos == target,
                hits@.len() == if acts {
                    attackers(s.take(i as int), t, target).len()
                } else {
                    0
                },
                forall|h: int|
                    0 <= h < hits@.len() ==> 0 <= #[trigger] hits@[h] <= attackers(
                        s.take(i as int),
                        t,
                        target,
                    )[h].luck,
                hits@.len() <= i <= CALM_CROWD || !acts,
                acts ==> -CALM_STAT - 255 * hits@.len() <= self.player.ac <= CALM_STAT,
                acts ==> -CALM_STAT - 0x8_0000 * hits@.len() <= self.player.hp <= CALM_STAT + 0x8_0000
                    * hits@.len(),
                forall|k: i128|
                    #[trigger] self.enemies@.contains_key(k) ==> t.contains_key(k) && self.enemies@[k]
                        == t[k],
                forall|k: i128|
                    #[trigger] self.enemies@.contains_key(k) ==> forall|j: int|
                        0 <= j < i ==> #[trigger] pkey(s[j]) != k,
                forall|j: int| i <= j < s.len() ==> self.enemies@.contains_key(pkey(#[trigger] s[j])),
                forall|k: i128|
                    #[trigger] t.contains_key(k) && !seen_key(s, k) ==> self.enemies@.contains_key(k),
                acted@.len() == i,
                forall|j: int|
                    0 <= j < i ==> #[trigger] acted@[j] == turned(filed(t, s[j]), acts, acted@[j].pos)
                        && may_land(start.map@, t, filed(t, s[j]), acts, acted@[j].pos),
                forall|x: int, y: int|
                    0 <= x < y < i ==> (#[trigger] acted@[x]).pos != (#[trigger] acted@[y]).pos,
            decreases s.len() - i,
        {
            let here = seen[i];
            let key = here.key();
            let ghost before = self.enemies@;
            let ghost hits0 = hits@;
            assert(s.take(i + 1).drop_last() == s.take(i as int));
            assert(s.take(i + 1).last() == here);
            assert(self.enemies@.contains_key(key));
            match self.enemies.remove(&key) {
                Some(mut e) => {
                    let ghost e0 = e;
                    assert(e0 == filed(t, s[i as int]));
                    proof {
                        lemma_pkey_injective(e0.pos, here);
                    }
                    assert(e0.pos == here);
                    if acts {
                        assert(0 <= (filed(t, s[i as int])).luck <= CALM_LUCK);
                        let hit = e.update(&mut self.player, &self.map, &snapshot, true);
                        match hit {
                            Some(d) => {
                                hits.push(d);
                                assert(hits@.drop_last() == hits0);
                            },
                            None => {},
                        }
                        if e.pos != here && claimed(&acted, e.pos) {
                            e.pos = here;
                        }
                    }
                    proof {
                        if e.pos != here {
                            assert(open_leap(start.map@, t, next_timer(e0.timer as int), e0.pos, e0.pos, e.pos));
                            assert(!t.contains_key(pkey(e.pos)));
                        }
                        assert forall|x: int| 0 <= x < i implies (#[trigger] acted@[x]).pos != e.pos by {
                            if acted@[x].pos == e.pos {
                                if e.pos == here {
                                    if acted@[x].pos != s[x] {
                                        assert(!t.contains_key(pkey(acted@[x].pos)));
                                    }
                                }
                            }
                        }
                    }
                    acted.push(e);
                },
                None => {
                    assert(false);
                },
            }
            assert forall|k: i128| #[trigger] self.enemies@.contains_key(k) implies forall|j: int|
                0 <= j < i + 1 ==> #[trigger] pkey(s[j]) != k by {
                assert(before.contains_key(k));
            }
            assert forall|j: int| i + 1 <= j < s.len() implies self.enemies@.contains_key(pkey(#[trigger] s[j])) by {
                assert(before.contains_key(pkey(s[j])));
                lemma_pkey_injective(s[j], here);
            }
            assert forall|k: i128| #[trigger] t.contains_key(k) && !seen_key(s, k) implies self.enemies@.contains_key(k) by {
                assert(before.contains_key(k));
                if k == key {
                    assert(pkey(s[i as int]) == k);
                }
            }
            i = i + 1;
        }
        assert(s.take(s.len() as int) == s);
        let ghost after_turns = *self;
        let ghost mut lines: Seq<(String, EventType)> = Seq::empty();
        let mut j: usize = 0;
        while j < hits.len()
            invariant
                j <= hits@.len(),
                log_bound(self.log) == LOG_CAPACITY,
                log_entries(self.log).len() <= LOG_CAPACITY,
                *self == (State { log: self.log, ..after_turns }),
                lines.len() == j,
                forall|x: int|
                    0 <= x < j ==> (#[trigger] lines[x]).0@ == hit_line(hits@[x] as int) && lines[x].1
                        == EventType::DamageTaken,
                log_entries(self.log) == pushed_all(log_entries(start.log), lines),
            decreases hits@.len() - j,
        {
            let entry = (hit_text(hits[j]), EventType::DamageTaken);
            let ghost g = entry;
            let _ = log_push_front(&mut self.log, entry);
            proof {
                assert(lines.push(g).drop_last() == lines);
                lines = lines.push(g);
            }
            j = j + 1;
        }
        proof {
            lemma_hits_keep(start.player, hits@);
            assert(s.take(0) == Seq::<Pos>::empty());
        }
        let mut j: usize = 0;
        while j < acted.len()
            invariant
                j <= acted@.len(),
                acted@.len() == s.len(),
                s == start.seen_enemies(),
                t == start.enemies@,
                enemies_keyed(t),
                forall|x: int| 0 <= x < s.len() ==> t.contains_key(pkey(#[trigger] s[x])),
                forall|x: int, y: int| 0 <= x < y < s.len() ==> #[trigger] s[x] != #[trigger] s[y],
                forall|x: int|
                    0 <= x < s.len() ==> #[trigger] acted@[x] == turned(filed(t, s[x]), acts, acted@[x].pos)
                        && may_land(start.map@, t, filed(t, s[x]), acts, acted@[x].pos),
                forall|x: int, y: int|
                    0 <= x < y < s.len() ==> (#[trigger] acted@[x]).pos != (#[trigger] acted@[y]).pos,
                log_bound(self.log) == LOG_CAPACITY,
                log_entries(self.log).len() <= LOG_CAPACITY,
                self.map == start.map,
                *self == (State { enemies: self.enemies, player: self.player, log: self.log, ..start }),
                self.player == (Player { xp: self.player.xp, ..apply_hits(start.player, hits@) }),
                self.player.xp == if start.player.xp + bounty(fallen(s.take(j as int), t)) <= i32::MAX {
                    start.player.xp + bounty(fallen(s.take(j as int), t))
                } else {
                    i32::MAX as int
                },
                lines.len() == hits@.len() + fallen(s.take(j as int), t).len(),
                forall|x: int|
                    0 <= x < hits@.len() ==> (#[trigger] lines[x]).0@ == hit_line(hits@[x] as int)
                        && lines[x].1 == EventType::DamageTaken,
                forall|x: int|
                    hits@.len() <= x < lines.len() ==> (#[trigger] lines[x]).0@ == "Enemy died"@
                        && lines[x].1 == EventType::XP,
                log_entries(self.log) == pushed_all(log_entries(start.log), lines),
                enemies_keyed(self.enemies@),
                forall|k: i128|
                    #[trigger] t.contains_key(k) && !seen_key(s, k) ==> self.enemies@.contains_key(k)
                        && self.enemies@[k] == t[k],
                forall|k: i128|
                    #[trigger] self.enemies@.contains_key(k) ==> (t.contains_key(k) && !seen_key(s, k)
                        && self.enemies@[k] == t[k]) || self.enemies@[k].hp > 0,
                forall|x: int|
                    0 <= x < j && (#[trigger] acted@[x]).hp > 0 ==> self.enemies@.contains_key(
                        pkey(acted@[x].pos),
                    ) && self.enemies@[pkey(acted@[x].pos)] == acted@[x],
                forall|x: int|
                    0 <= x < s.len() && (x < j ==> acted@[x].hp <= 0) ==> !self.enemies@.contains_key(
                        pkey(#[trigger] s[x]),
                    ),
                forall|x: int|
                    j <= x < s.len() ==> !self.enemies@.contains_key(pkey(#[trigger] acted@[x].pos))
                        || acted@[x].pos != s[x],
            decreases acted@.len() - j,
        {
            let e = acted[j].clone_enemy();
            let ghost before = self.enemies@;
            assert(s.take(j + 1).drop_last() == s.take(j as int));
            assert(s.take(j + 1).last() == s[j as int]);
            assert(e.hp == filed(t, s[j as int]).hp);
            assert(e.hp <= 0 ==> fallen(s.take(j + 1), t) == fallen(s.take(j as int), t).push(filed(t, s[j as int])));
            assert(e.hp > 0 ==> fallen(s.take(j + 1), t) == fallen(s.take(j as int), t));
            assert(bounty(fallen(s.take(j as int), t).push(filed(t, s[j as int]))) == bounty(fallen(s.take(j as int), t)) + filed(t, s[j as int]).dificulty) by {
                assert(fallen(s.take(j as int), t).push(filed(t, s[j as int])).drop_last() == fallen(s.take(j as int), t));
            }
            if e.hp > 0 {
                let key = e.pos.key();
                self.enemies.insert(key, e);
                proof {
                    assert forall|x: int| 0 <= x < j && (#[trigger] acted@[x]).hp > 0 implies self.enemies@.contains_key(
                        pkey(acted@[x].pos),
                    ) && self.enemies@[pkey(acted@[x].pos)] == acted@[x] by {
                        lemma_pkey_injective(acted@[x].pos, e.pos);
                    }
                    assert forall|k: i128| #[trigger] t.contains_key(k) && !seen_key(s, k) implies self.enemies@.contains_key(k)
                        && self.enemies@[k] == t[k] by {
                        if k == key {
                            if e.pos != s[j as int] {
                                assert(!t.contains_key(pkey(e.pos)));
                            } else {
                                assert(pkey(s[j as int]) == k);
                            }
                        }
                    }
                    assert forall|x: int|
                        0 <= x < s.len() && (x < j + 1 ==> acted@[x].hp <= 0) implies !self.enemies@.contains_key(
                        pkey(#[trigger] s[x]),
                    ) by {
                        assert(x != j);
                        lemma_pkey_injective(s[x], e.pos);
                        if s[x] == e.pos {
                            if e.pos != s[j as int] {
                                assert(!t.contains_key(pkey(e.pos)));
                            }
                        }
                    }
                    assert forall|x: int|
                        j + 1 <= x < s.len() implies !self.enemies@.contains_key(pkey(#[trigger] acted@[x].pos))
                        || acted@[x].pos != s[x] by {
                        lemma_pkey_injective(acted@[x].pos, e.pos);
                    }
                }
            } else {
                let entry = ("Enemy died".to_owned(), EventType::XP);
                let ghost g = entry;
                let _ = log_push_front(&mut self.log, entry);
                proof {
                    assert(lines.push(g).drop_last() == lines);
                    lines = lines.push(g);
                }
                let total = self.player.xp as i64 + e.dificulty as i64;
                self.player.xp = if total > i32::MAX as i64 {
                    i32::MAX
                } else {
                    total as i32
                };
            }
            j = j + 1;
        }
        assert(s.take(s.len() as int) == s);
        proof {
            assert(self.player == (Player { xp: self.player.xp, ..apply_hits(start.player, hits@) }));
            assert(log_entries(self.log) == pushed_all(log_entries(start.log), lines));
            assert(acts == start.acts_on(active_turn));
            assert forall|x: int|
                0 <= x < s.len() && (#[trigger] filed(t, s[x])).hp > 0 implies exists|q: Pos|
                    self.enemies@.contains_key(pkey(q)) && self.enemies@[pkey(q)] == turned(
                        filed(t, s[x]),
                        start.acts_on(active_turn),
                        q,
                    ) && may_land(start.map@, t, filed(t, s[x]), start.acts_on(active_turn), q) by {
                assert(acted@[x] == turned(filed(t, s[x]), acts, acted@[x].pos));
                assert(acted@[x].hp > 0);
                let q = acted@[x].pos;
                assert(self.enemies@.contains_key(pkey(q)));
                assert(self.enemies@[pkey(q)] == turned(filed(t, s[x]), acts, q));
                assert(may_land(start.map@, t, filed(t, s[x]), acts, q));
            }
            assert forall|x: int|
                0 <= x < s.len() && (#[trigger] filed(t, s[x])).hp <= 0 implies !self.enemies@.contains_key(
                pkey(s[x]),
            ) by {
                assert(acted@[x].hp <= 0);
            }
            assert(acts == (active_turn && calm(start.player, s, t)));
        }
    }

    /// Starts over after death: a new floor from `plan`, and the player back
    /// to 100 hit points and no experience. On failure nothing changes.
    pub fn restart(&mut self, plan: FloorPlan) -> (r: Result<(), FloorError>)
        requires
            old(self).wf(),
        ensures
            final(self).wf(),
            (r is Ok) <==> grid_fits(plan.tiles@) && has_floor(plan.tiles@) && all_paired(
                all_teleporters(plan.rooms@),
            ),
            (r is Err) ==> *final(self) == *old(self),
            (r is Ok) ==> final(self).rebuilt_from(plan) && final(self).player == (Player {
                pos: plan.spawn,
                hp: 100,
                xp: 0,
                ..old(self).player
            }),
    {
        let r = self.reset(plan);
        if r.is_ok() {
            self.player.hp = 100;
            self.player.xp = 0;
        }
        r
    }
}

/// Teleporter symmetry on a rebuilt floor: for two teleporter seeds of the
/// plan that name each other, among seeds with unique ids and tiles,
/// arriving on either one lands one step up and left of the other.
pub proof fn lemma_rebuilt_teleporters_pair(st: State, plan: FloorPlan, a: int, b: int)
    requires
        st.rebuilt_from(plan),
        unique_ids(all_teleporters(plan.rooms@)),
        unique_tiles(all_teleporters(plan.rooms@)),
        0 <= a < all_teleporters(plan.rooms@).len(),
        0 <= b < all_teleporters(plan.rooms@).len(),
        all_teleporters(plan.rooms@)[a].connected == all_teleporters(plan.rooms@)[b].id,
        all_teleporters(plan.rooms@)[b].connected == all_teleporters(plan.rooms@)[a].id,
    ensures
        arrival(st.teleporters_map@, all_teleporters(plan.rooms@)[a].pos) == Some(
            shifted(all_teleporters(plan.rooms@)[b].pos, -1, -1),
        ),
        arrival(st.teleporters_map@, all_teleporters(plan.rooms@)[b].pos) == Some(
            shifted(all_teleporters(plan.rooms@)[a].pos, -1, -1),
        ),
{
    lemma_teleporter_symmetry(st.teleporters_map@, all_teleporters(plan.rooms@), a, b);
}

/// Moves the player by `delta` unless the destination is a wall; a move
/// advances the animation phase.
pub fn check_collision(state: &mut State, delta: &Pos)
    requires
        can_shift(old(state).player.pos, delta.0 as int, delta.1 as int),
    ensures
        ({
            let dest = shifted(old(state).player.pos, delta.0 as int, delta.1 as int);
            if wall_at(old(state).map@, dest) {
                *final(state) == *old(state)
            } else {
                final(state).player == (Player {
                    pos: dest,
                    swing: ((old(state).player.swing + 1) % 256 % 4) as u8,
                    ..old(state).player
                }) && *final(state) == (State { player: final(state).player, ..*old(state) })
            }
        }),
{
    let newpos = state.player.pos.translate(*delta);
    let blocked = match state.map.get(&newpos.key()) {
        Some(b) => *b == Block::Wall,
        None => false,
    };
    if !blocked {
        state.player.cicle_swing();
        state.player.pos = newpos;
    }
}

} // verus!
