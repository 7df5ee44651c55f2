//! Enemies: stats, hits, and the cooldown-gated choice between attacking and
//! leaping toward the player.
use crate::chance::roll;
use crate::item::{EditableEntity, Value};
use crate::player::{after_hit, can_absorb, Player, REACH2};
use crate::pos::{dist2, gap, pkey, squared_distance, Block, Pos};
use pathfinding::prelude::astar;
use std::collections::HashMap;
use vstd::prelude::*;

verus! {

/// Timer value an enemy is rewound to once it runs out.
pub const TIMER_RESET: i32 = 22;

/// The timer after one active tick: rewound to 22 when below 1, then decremented.
pub open spec fn next_timer(t: int) -> int {
    if t < 1 {
        TIMER_RESET - 1
    } else {
        t - 1
    }
}

/// `to` is one of the eight leaps from `from`: two tiles along one axis and
/// one along the other.
pub open spec fn is_leap(from: Pos, to: Pos) -> bool {
    let dx = to.0 - from.0;
    let dy = to.1 - from.1;
    ((dx == 1 || dx == -1) && (dy == 2 || dy == -2)) || ((dx == 2 || dx == -2) && (dy == 1
        || dy == -1))
}

/// How far (along each axis) from its own tile an enemy's path search may go.
pub const SEARCH_RADIUS: u64 = 32;

/// Cap on the search heuristic, far below `u64::MAX` so that path costs
/// plus the heuristic cannot overflow.
pub const HEURISTIC_CAP: u64 = 0x4000_0000_0000_0000;

/// `to` lies within the search window around `home`.
pub open spec fn in_window(home: Pos, to: Pos) -> bool {
    -(SEARCH_RADIUS as int) <= to.0 - home.0 <= SEARCH_RADIUS as int && -(SEARCH_RADIUS as int)
        <= to.1 - home.1 <= SEARCH_RADIUS as int
}

/// A leap from `from` to `to` is open to an enemy on `home` whose timer reads
/// `timer`: the target is no wall, holds no enemy of the snapshot, lies in
/// the search window around `home`, and the timer is a multiple of 5.
pub open spec fn open_leap(
    walls: Map<i128, Block>,
    others: Map<i128, Enemy>,
    timer: int,
    home: Pos,
    from: Pos,
    to: Pos,
) -> bool {
    &&& is_leap(from, to)
    &&& !walls.contains_key(pkey(to))
    &&& !others.contains_key(pkey(to))
    &&& in_window(home, to)
    &&& timer % 5 == 0
}

/// The enemy attacks this tick: its advanced timer is a multiple of 3 and the
/// player is within reach.
pub open spec fn attack_ready(e: Enemy, player: Pos) -> bool {
    next_timer(e.timer as int) % 3 == 0 && dist2(e.pos, player) < 9
}

/// The eight leap offsets, in the order the search tries them.
pub open spec fn leap_offset(i: int) -> (int, int) {
    if i == 0 {
        (1, 2)
    } else if i == 1 {
        (1, -2)
    } else if i == 2 {
        (-1, 2)
    } else if i == 3 {
        (-1, -2)
    } else if i == 4 {
        (2, 1)
    } else if i == 5 {
        (2, -1)
    } else if i == 6 {
        (-2, 1)
    } else {
        (-2, -1)
    }
}

/// Leap `j` from `n` stays inside the coordinate range.
pub open spec fn leap_fits(n: Pos, j: int) -> bool {
    isize::MIN <= n.0 + leap_offset(j).0 <= isize::MAX && isize::MIN <= n.1 + leap_offset(j).1
        <= isize::MAX
}

/// Where leap `j` from `n` lands.
pub open spec fn leap_target(n: Pos, j: int) -> Pos {
    Pos((n.0 + leap_offset(j).0) as isize, (n.1 + leap_offset(j).1) as isize)
}

/// Leap offset `k`.
fn offset(k: usize) -> (r: (isize, isize))
    requires
        k < 8,
    ensures
        r.0 == leap_offset(k as int).0 && r.1 == leap_offset(k as int).1,
{
    if k == 0 {
        (1, 2)
    } else if k == 1 {
        (1, -2)
    } else if k == 2 {
        (-1, 2)
    } else if k == 3 {
        (-1, -2)
    } else if k == 4 {
        (2, 1)
    } else if k == 5 {
        (2, -1)
    } else if k == 6 {
        (-2, 1)
    } else {
        (-2, -1)
    }
}

/// The search heuristic: half the Manhattan distance, rounded down.
pub open spec fn half_manhattan(goal: Pos, n: Pos) -> int {
    (if goal.0 >= n.0 { goal.0 - n.0 } else { n.0 - goal.0 } + if goal.1 >= n.1 {
        goal.1 - n.1
    } else {
        n.1 - goal.1
    }) / 2
}

/// The heuristic that guides the leap search toward `goal`: half the
/// Manhattan distance, capped at `HEURISTIC_CAP`.
pub fn leap_heuristic(goal: Pos, n: Pos) -> (r: u64)
    ensures
        r == if half_manhattan(goal, n) <= HEURISTIC_CAP { half_manhattan(goal, n) } else {
            HEURISTIC_CAP as int
        },
{
    let a = gap(goal.0, n.0);
    let b = gap(goal.1, n.1);
    let h = a / 2 + b / 2 + (a % 2 + b % 2) / 2;
    if h > HEURISTIC_CAP {
        HEURISTIC_CAP
    } else {
        h
    }
}

/// `n` is the goal of the search.
pub fn at_goal(goal: Pos, n: Pos) -> (r: bool)
    ensures
        r == (n == goal),
{
    n == goal
}

/// The path that the leap search finds from `start` to `goal` for an enemy
/// on `start` whose timer reads `timer`, against `walls` and the snapshot
/// `others`; `None` when it finds none.
pub uninterp spec fn leap_path(
    start: Pos,
    timer: int,
    walls: Map<i128, Block>,
    others: Map<i128, Enemy>,
    goal: Pos,
) -> Option<Seq<Pos>>;

/// Relies on pathfinding's `astar`: a returned path starts at the start node,
/// ends at a node the success test accepts (here: `goal`), and each node is
/// one that the successor function listed for the node before it. The search
/// is deterministic (an index map with a fixed hasher and a binary heap) and
/// its inputs are the start, the goal, and the successor function, a function
/// of the enemy's tile and timer, `walls@` and `others@`. The successors stay
/// in a window of at most 65 by 65 tiles, so the search ends; path costs stay
/// below that count and the heuristic below `HEURISTIC_CAP`, so adding them
/// in `u64` cannot overflow.
#[verifier::external_body]
fn leap_search(
    enemy: &Enemy,
    walls: &HashMap<i128, Block>,
    others: &HashMap<i128, Enemy>,
    goal: Pos,
) -> (r: Option<(Vec<Pos>, u64)>)
    ensures
        r is None ==> leap_path(enemy.pos, enemy.timer as int, walls@, others@, goal) is None,
        (r matches Some((path, _)) ==> {
            &&& leap_path(enemy.pos, enemy.timer as int, walls@, others@, goal) == Some(path@)
            &&& path@.len() >= 1
            &&& path@[0] == enemy.pos
            &&& path@.last() == goal
            &&& forall|i: int|
                0 <= i < path@.len() - 1 ==> #[trigger] successor_of(
                    enemy,
                    walls@,
                    others@,
                    path@[i],
                    path@[i + 1],
                )
        }),
{
    astar(
        &enemy.pos,
        |n: &Pos| enemy.leap_successors(walls, others, *n),
        |n: &Pos| leap_heuristic(goal, *n),
        |n: &Pos| at_goal(goal, *n),
    )
}

/// Where an enemy on `here` stands after following `path` toward `goal`: the
/// path's second node, unless there is none or it is the goal itself.
pub open spec fn path_step(path: Option<Seq<Pos>>, here: Pos, goal: Pos) -> Pos {
    match path {
        Some(p) => if p.len() > 1 && p[1] != goal {
            p[1]
        } else {
            here
        },
        None => here,
    }
}

/// `to` is among the successors the leap search is given for `from`.
pub open spec fn successor_of(
    enemy: &Enemy,
    walls: Map<i128, Block>,
    others: Map<i128, Enemy>,
    from: Pos,
    to: Pos,
) -> bool {
    open_leap(walls, others, enemy.timer as int, enemy.pos, from, to)
}

/// An enemy: hit points, the luck that bounds its attack roll, a cooldown
/// timer, its tile, and the experience its defeat is worth.
#[derive(Debug, PartialEq, Clone)]
pub struct Enemy {
    pub hp: i32,
    pub max_hp: i32,
    pub luck: i32,
    pub timer: i32,
    pub pos: Pos,
    pub dificulty: u32,
}

impl Enemy {
    /// A new enemy whose luck is drawn from `0..5`.
    pub fn new(hp: i32, pos: Pos, dificulty: u32) -> (r: Enemy)
        ensures
            r.hp == hp && r.max_hp == hp && r.pos == pos && r.dificulty == dificulty,
            0 <= r.luck < 5,
            r.timer == 0,
    {
        let luck = roll(0, 5);
        Enemy::with_luck(hp, pos, dificulty, luck)
    }

    /// A new enemy at full health with the given luck and a cleared timer.
    pub fn with_luck(hp: i32, pos: Pos, dificulty: u32, luck: i32) -> (r: Enemy)
        ensures
            r.hp == hp && r.max_hp == hp && r.pos == pos && r.dificulty == dificulty,
            r.luck == luck,
            r.timer == 0,
    {
        Enemy { hp, max_hp: hp, pos, luck, timer: 0, dificulty }
    }

    /// The open leaps from `n`, each at cost 1: every leap that stays in the
    /// coordinate range and in the search window around the enemy, lands on no
    /// wall and no enemy of the snapshot, and only while the timer is a
    /// multiple of 5.
    pub fn leap_successors(
        &self,
        walls: &HashMap<i128, Block>,
        others: &HashMap<i128, Enemy>,
        n: Pos,
    ) -> (r: Vec<(Pos, u64)>)
        ensures
            forall|i: int|
                0 <= i < r@.len() ==> (#[trigger] r@[i]).1 == 1 && open_leap(
                    walls@,
                    others@,
                    self.timer as int,
                    self.pos,
                    n,
                    r@[i].0,
                ),
            forall|to: Pos|
                open_leap(walls@, others@, self.timer as int, self.pos, n, to) ==> exists|i: int|
                    0 <= i < r@.len() && #[trigger] r@[i].0 == to,
    {
        let mut out: Vec<(Pos, u64)> = Vec::new();
        if self.timer % 5 != 0 {
            return out;
        }
        let mut k: usize = 0;
        while k < 8
            invariant
                k <= 8,
                self.timer % 5 == 0,
                forall|i: int|
                    0 <= i < out@.len() ==> (#[trigger] out@[i]).1 == 1 && open_leap(
                        walls@,
                        others@,
                        self.timer as int,
                        self.pos,
                        n,
                        out@[i].0,
                    ),
                forall|j: int|
                    0 <= j < k ==> !(#[trigger] leap_fits(n, j)) || !open_leap(
                        walls@,
                        others@,
                        self.timer as int,
                        self.pos,
                        n,
                        leap_target(n, j),
                    ) || exists|i: int| 0 <= i < out@.len() && #[trigger] out@[i].0 == leap_target(n, j),
            decreases 8 - k,
        {
            let (dx, dy) = offset(k);
            let ghost before = out@;
            match (n.0.checked_add(dx), n.1.checked_add(dy)) {
                (Some(x), Some(y)) => {
                    let to = Pos(x, y);
                    assert(to == leap_target(n, k as int));
                    let key = to.key();
                    if !walls.contains_key(&key) && !others.contains_key(&key) && gap(to.0, self.pos.0)
                        <= SEARCH_RADIUS && gap(to.1, self.pos.1) <= SEARCH_RADIUS {
                        out.push((to, 1));
                        assert(out@[out@.len() - 1].0 == to);
                    }
                },
                _ => {},
            }
            assert forall|i: int| 0 <= i < out@.len() implies (#[trigger] out@[i]).1 == 1 && open_leap(
                walls@,
                others@,
                self.timer as int,
                self.pos,
                n,
                out@[i].0,
            ) by {
                if i < before.len() {
                    assert(out@[i] == before[i]);
                }
            }
            assert forall|j: int|
                0 <= j < k + 1 implies !(#[trigger] leap_fits(n, j)) || !open_leap(
                    walls@,
                    others@,
                    self.timer as int,
                    self.pos,
                    n,
                    leap_target(n, j),
                ) || exists|i: int| 0 <= i < out@.len() && #[trigger] out@[i].0 == leap_target(n, j) by {
                if j < k && leap_fits(n, j) && open_leap(walls@, others@, self.timer as int, self.pos, n, leap_target(n, j)) {
                    let i = choose|i: int| 0 <= i < before.len() && #[trigger] before[i].0 == leap_target(n, j);
                    assert(out@[i] == before[i]);
                }
            }
            k = k + 1;
        }
        proof {
            assert forall|to: Pos| open_leap(walls@, others@, self.timer as int, self.pos, n, to) implies exists|i: int|
                0 <= i < out@.len() && #[trigger] out@[i].0 == to by {
                let dx = to.0 - n.0;
                let dy = to.1 - n.1;
                let j: int = if dx == 1 && dy == 2 { 0 } else if dx == 1 && dy == -2 { 1 } else if dx == -1 && dy == 2 { 2 } else if dx == -1 && dy == -2 { 3 } else if dx == 2 && dy == 1 { 4 } else if dx == 2 && dy == -1 { 5 } else if dx == -2 && dy == 1 { 6 } else { 7 };
                assert(leap_offset(j).0 == dx && leap_offset(j).1 == dy);
                assert(leap_fits(n, j));
                assert(leap_target(n, j) == to);
            }
        }
        out
    }

    /// One tick of the enemy's turn; nothing happens unless `active_turn`.
    /// The timer advances (rewound to 22 first when below 1). When the new
    /// timer is a multiple of 3 and the player is within reach, the enemy hits
    /// the player for a random amount in `0..=luck` and returns it, without
    /// moving. Otherwise it searches a leap path to the player through the
    /// snapshot `enemies` and takes its first step, unless that step is the
    /// player's tile; no path leaves it in place. A move and an attack never
    /// share a tick.
    pub fn update(
        &mut self,
        player: &mut Player,
        map: &HashMap<i128, Block>,
        enemies: &HashMap<i128, Enemy>,
        active_turn: bool,
    ) -> (r: Option<i32>)
        requires
            active_turn ==> 0 <= old(self).luck < i32::MAX && can_absorb(
                *old(player),
                old(self).luck as int,
            ),
        ensures
            !active_turn ==> r is None && *final(self) == *old(self) && *final(player) == *old(player),
            active_turn ==> final(self).timer == next_timer(old(self).timer as int),
            active_turn ==> *final(self) == (Enemy {
                pos: final(self).pos,
                timer: final(self).timer,
                ..*old(self)
            }),
            active_turn && attack_ready(*old(self), old(player).pos) ==> (r matches Some(d) && 0
                <= d <= old(self).luck && *final(player) == after_hit(*old(player), d as int))
                && final(self).pos == old(self).pos,
            active_turn && !attack_ready(*old(self), old(player).pos) ==> r is None && *final(player)
                == *old(player) && final(self).pos == path_step(
                leap_path(
                    old(self).pos,
                    final(self).timer as int,
                    map@,
                    enemies@,
                    old(player).pos,
                ),
                old(self).pos,
                old(player).pos,
            ) && (final(self).pos == old(self).pos || (open_leap(
                map@,
                enemies@,
                final(self).timer as int,
                old(self).pos,
                old(self).pos,
                final(self).pos,
            ) && final(self).pos != old(player).pos)),
    {
        if !active_turn {
            return None;
        }
        if self.timer < 1 {
            self.timer = TIMER_RESET;
        }
        self.timer = self.timer - 1;
        if self.timer % 3 == 0 && squared_distance(self.pos, player.pos) < REACH2 {
            let damage = roll(0, self.luck + 1);
            player.hit_by(damage);
            return Some(damage);
        }
        let goal = player.pos;
        let path = leap_search(self, map, enemies, goal);
        if let Some((p, _)) = path {
            if p.len() > 1 {
                let step = p[1];
                assert(successor_of(self, map@, enemies@, p@[0], p@[0int + 1]));
                if step != goal {
                    self.pos = step;
                }
            }
        }
        None
    }

    /// A copy of this enemy.
    pub fn clone_enemy(&self) -> (r: Enemy)
        ensures
            r == *self,
    {
        Enemy {
            hp: self.hp,
            max_hp: self.max_hp,
            luck: self.luck,
            timer: self.timer,
            pos: self.pos,
            dificulty: self.dificulty,
        }
    }

    /// Loses `damage` hit points; enemies wear no armor.
    pub fn hit_by(&mut self, damage: i32)
        requires
            i32::MIN <= old(self).hp - damage <= i32::MAX,
        ensures
            *final(self) == (Enemy { hp: (old(self).hp - damage) as i32, ..*old(self) }),
    {
        self.hp = self.hp - damage;
    }
}

impl EditableEntity for Enemy {
    open spec fn health(&self) -> int {
        self.hp as int
    }

    open spec fn same_except_health(&self, other: &Self) -> bool {
        *other == (Enemy { hp: other.hp, ..*self })
    }

    fn heal(&mut self, value: &Value) {
        self.hp = self.hp + *value;
    }

    fn damage(&mut self, value: &Value) {
        self.hp = self.hp - *value;
    }
}

} // verus!
