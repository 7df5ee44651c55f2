//! Floor ingestion: turns a generated floor plan into the wall map, the
//! teleporter table, the exit, the enemy table and the item table.
use crate::enemy::Enemy;
use crate::item::{loot_shape, Item};
use crate::pos::{capped_dist2, lemma_key_fits, lemma_key_injective, pkey, shifted, squared_distance, Block, Pos};
use std::collections::HashMap;
use vstd::prelude::*;

verus! {

/// Hit points every spawned enemy starts with.
pub const ENEMY_HP: i32 = 32;

/// A tile of the generated grid.
#[derive(Debug, Clone, Copy, PartialEq, Eq, Structural)]
pub enum Tile {
    Floor,
    Wall,
}

/// A teleporter seed: its id, the id of its counterpart, and its tile.
#[derive(Debug, Clone, Copy, PartialEq, Eq, Structural)]
pub struct TeleporterSeed {
    pub id: u32,
    pub connected: u32,
    pub pos: Pos,
}

/// An enemy seed: its tile and difficulty.
#[derive(Debug, Clone, Copy, PartialEq, Eq, Structural)]
pub struct EnemySeed {
    pub pos: Pos,
    pub difficulty: u32,
}

/// The seeds of one room.
#[derive(Debug, Clone)]
pub struct RoomPlan {
    pub teleporters: Vec<TeleporterSeed>,
    pub enemies: Vec<EnemySeed>,
    pub items: Vec<Pos>,
}

/// A generated floor: `tiles[x][y]` is the tile at `(x, y)`.
#[derive(Debug, Clone)]
pub struct FloorPlan {
    pub tiles: Vec<Vec<Tile>>,
    pub rooms: Vec<RoomPlan>,
    pub spawn: Pos,
}

/// Why a plan cannot become a floor.
#[derive(Debug, Clone, Copy, PartialEq, Eq, Structural)]
pub enum FloorError {
    /// The grid holds no floor tile to put the exit on.
    NoFloor,
    /// A teleporter names a counterpart id that no teleporter has.
    UnpairedTeleporter,
    /// A grid coordinate does not fit in `isize`.
    OversizedGrid,
}

/// The live tables built from a plan.
#[derive(Debug)]
pub struct Floor {
    pub map: HashMap<i128, Block>,
    pub teleporters: HashMap<i128, Block>,
    pub exit: Pos,
    pub enemies: HashMap<i128, Enemy>,
    pub items: HashMap<i128, Item>,
    pub spawn: Pos,
}

/// The position of grid cell `(x, y)`.
pub open spec fn grid_pos(x: int, y: int) -> Pos {
    Pos(x as isize, y as isize)
}

/// Grid cell `(x, y)` exists and holds `t`.
pub open spec fn tile_is(tiles: Seq<Vec<Tile>>, x: int, y: int, t: Tile) -> bool {
    0 <= x < tiles.len() && 0 <= y < tiles[x]@.len() && tiles[x]@[y] == t
}

/// Cell `(x, y)` comes before cell `(cx, cy)` in scan order (column by column).
pub open spec fn scanned_before(x: int, y: int, cx: int, cy: int) -> bool {
    x < cx || (x == cx && y < cy)
}

/// Every coordinate of the grid fits in `isize`.
pub open spec fn grid_fits(tiles: Seq<Vec<Tile>>) -> bool {
    tiles.len() <= isize::MAX && forall|x: int| 0 <= x < tiles.len() ==> #[trigger] tiles[x]@.len() <= isize::MAX
}

/// The grid has at least one floor tile.
pub open spec fn has_floor(tiles: Seq<Vec<Tile>>) -> bool {
    exists|x: int, y: int| #[trigger] tile_is(tiles, x, y, Tile::Floor)
}

/// Cell `(ex, ey)` is the first floor tile, in scan order, among those
/// farthest from `spawn`.
pub open spec fn farthest_floor(tiles: Seq<Vec<Tile>>, spawn: Pos, ex: int, ey: int) -> bool {
    &&& tile_is(tiles, ex, ey, Tile::Floor)
    &&& forall|x: int, y: int|
        #[trigger] tile_is(tiles, x, y, Tile::Floor) ==> capped_dist2(spawn, grid_pos(x, y))
            <= capped_dist2(spawn, grid_pos(ex, ey)) && (scanned_before(x, y, ex, ey) ==> capped_dist2(
            spawn,
            grid_pos(x, y),
        ) < capped_dist2(spawn, grid_pos(ex, ey)))
}

/// The wall map of a grid: exactly its wall cells, each a `Wall`.
pub open spec fn is_wall_map(m: Map<i128, Block>, tiles: Seq<Vec<Tile>>) -> bool {
    &&& forall|x: int, y: int|
        #[trigger] tile_is(tiles, x, y, Tile::Wall) ==> m.contains_key(pkey(grid_pos(x, y)))
    &&& forall|k: i128|
        #[trigger] m.contains_key(k) ==> m[k] == Block::Wall && exists|x: int, y: int|
            #[trigger] tile_is(tiles, x, y, Tile::Wall) && pkey(grid_pos(x, y)) == k
}

/// Checks that every coordinate of the grid fits in `isize`.
pub fn fits_isize(tiles: &Vec<Vec<Tile>>) -> (r: bool)
    ensures
        r == grid_fits(tiles@),
{
    let limit = isize::MAX as usize;
    if tiles.len() > limit {
        return false;
    }
    let mut x: usize = 0;
    while x < tiles.len()
        invariant
            x <= tiles@.len() <= isize::MAX,
            limit == isize::MAX,
            forall|i: int| 0 <= i < x ==> #[trigger] tiles@[i]@.len() <= isize::MAX,
        decreases tiles@.len() - x,
    {
        if tiles[x].len() > limit {
            return false;
        }
        x = x + 1;
    }
    true
}

/// Walks the grid column by column: collects the walls, and finds the first
/// floor tile farthest from `spawn`.
pub fn scan_tiles(tiles: &Vec<Vec<Tile>>, spawn: Pos) -> (r: (HashMap<i128, Block>, Option<Pos>))
    requires
        grid_fits(tiles@),
    ensures
        is_wall_map(r.0@, tiles@),
        r.1 is None <==> !has_floor(tiles@),
        (r.1 matches Some(e) ==> exists|ex: int, ey: int|
            farthest_floor(tiles@, spawn, ex, ey) && e == grid_pos(ex, ey)),
{
    let mut walls: HashMap<i128, Block> = HashMap::new();
    let mut best: Option<(Pos, u128)> = None;
    let ghost mut bx: int = 0;
    let ghost mut by: int = 0;
    let mut x: usize = 0;
    while x < tiles.len()
        invariant
            grid_fits(tiles@),
            x <= tiles@.len(),
            forall|i: int, j: int|
                #[trigger] tile_is(tiles@, i, j, Tile::Wall) && i < x ==> walls@.contains_key(pkey(grid_pos(i, j))),
            forall|k: i128|
                #[trigger] walls@.contains_key(k) ==> walls@[k] == Block::Wall && exists|i: int, j: int|
                    #[trigger] tile_is(tiles@, i, j, Tile::Wall) && pkey(grid_pos(i, j)) == k,
            best is None <==> !exists|i: int, j: int| #[trigger] tile_is(tiles@, i, j, Tile::Floor) && i < x,
            (best matches Some((p, d)) ==> {
                &&& tile_is(tiles@, bx, by, Tile::Floor) && bx < x
                &&& p == grid_pos(bx, by)
                &&& d == capped_dist2(spawn, p)
                &&& forall|i: int, j: int|
                    #[trigger] tile_is(tiles@, i, j, Tile::Floor) && i < x ==> capped_dist2(spawn, grid_pos(i, j)) <= d
                        && (scanned_before(i, j, bx, by) ==> capped_dist2(spawn, grid_pos(i, j)) < d)
            }),
        decreases tiles@.len() - x,
    {
        let col = &tiles[x];
        let mut y: usize = 0;
        while y < col.len()
            invariant
                grid_fits(tiles@),
                x < tiles@.len(),
                *col == tiles@[x as int],
                y <= col@.len(),
                forall|i: int, j: int|
                    #[trigger] tile_is(tiles@, i, j, Tile::Wall) && scanned_before(i, j, x as int, y as int) ==> walls@.contains_key(pkey(grid_pos(i, j))),
                forall|k: i128|
                    #[trigger] walls@.contains_key(k) ==> walls@[k] == Block::Wall && exists|i: int, j: int|
                        #[trigger] tile_is(tiles@, i, j, Tile::Wall) && pkey(grid_pos(i, j)) == k,
                best is None <==> !exists|i: int, j: int| #[trigger] tile_is(tiles@, i, j, Tile::Floor) && scanned_before(i, j, x as int, y as int),
                (best matches Some((p, d)) ==> {
                    &&& tile_is(tiles@, bx, by, Tile::Floor) && scanned_before(bx, by, x as int, y as int)
                    &&& p == grid_pos(bx, by)
                    &&& d == capped_dist2(spawn, p)
                    &&& forall|i: int, j: int|
                        #[trigger] tile_is(tiles@, i, j, Tile::Floor) && scanned_before(i, j, x as int, y as int) ==> capped_dist2(spawn, grid_pos(i, j)) <= d
                            && (scanned_before(i, j, bx, by) ==> capped_dist2(spawn, grid_pos(i, j)) < d)
                }),
            decreases col@.len() - y,
        {
            assert(tiles@[x as int]@.len() <= isize::MAX);
            let p = Pos(x as isize, y as isize);
            assert(p == grid_pos(x as int, y as int));
            match col[y] {
                Tile::Floor => {
                    assert(tile_is(tiles@, x as int, y as int, Tile::Floor));
                    assert(scanned_before(x as int, y as int, x as int, y + 1));
                    let d = squared_distance(spawn, p);
                    let better = match best {
                        None => true,
                        Some((_, bd)) => d > bd,
                    };
                    if better {
                        best = Some((p, d));
                        proof {
                            bx = x as int;
                            by = y as int;
                        }
                    }
                },
                Tile::Wall => {
                    let key = p.key();
                    walls.insert(key, Block::Wall);
                    assert(tile_is(tiles@, x as int, y as int, Tile::Wall));
                    assert forall|i: int, j: int|
                        #[trigger] tile_is(tiles@, i, j, Tile::Floor) && scanned_before(i, j, x as int, y + 1)
                        implies scanned_before(i, j, x as int, y as int) by {
                        if i == x && j == y {
                            assert(!tile_is(tiles@, i, j, Tile::Floor));
                        }
                    }
                },
            }
            y = y + 1;
        }
        x = x + 1;
    }
    let far = match best {
        Some((p, _)) => Some(p),
        None => None,
    };
    (walls, far)
}

/// The teleporter seeds of all rooms, room by room.
pub open spec fn all_teleporters(rooms: Seq<RoomPlan>) -> Seq<TeleporterSeed>
    decreases rooms.len(),
{
    if rooms.len() == 0 {
        Seq::empty()
    } else {
        all_teleporters(rooms.drop_last()) + rooms.last().teleporters@
    }
}

/// Gathers the teleporter seeds of all rooms, room by room.
pub fn collect_teleporters(rooms: &Vec<RoomPlan>) -> (r: Vec<TeleporterSeed>)
    ensures
        r@ == all_teleporters(rooms@),
{
    let mut out: Vec<TeleporterSeed> = Vec::new();
    let mut i: usize = 0;
    while i < rooms.len()
        invariant
            i <= rooms@.len(),
            out@ == all_teleporters(rooms@.take(i as int)),
        decreases rooms@.len() - i,
    {
        let room = &rooms[i];
        assert(rooms@.take(i + 1).drop_last() == rooms@.take(i as int));
        let ghost start = out@;
        let mut j: usize = 0;
        while j < room.teleporters.len()
            invariant
                i < rooms@.len(),
                *room == rooms@[i as int],
                j <= room.teleporters@.len(),
                out@ == start + room.teleporters@.take(j as int),
            decreases room.teleporters@.len() - j,
        {
            out.push(room.teleporters[j]);
            assert(room.teleporters@.take(j + 1) == room.teleporters@.take(j as int).push(room.teleporters@[j as int]));
            j = j + 1;
        }
        assert(room.teleporters@.take(room.teleporters@.len() as int) == room.teleporters@);
        i = i + 1;
    }
    assert(rooms@.take(rooms@.len() as int) == rooms@);
    out
}

/// The tile of the last seed whose id is `id`.
pub open spec fn partner_of(s: Seq<TeleporterSeed>, id: u32) -> Option<Pos>
    decreases s.len(),
{
    if s.len() == 0 {
        None
    } else if s.last().id == id {
        Some(s.last().pos)
    } else {
        partner_of(s.drop_last(), id)
    }
}

/// Every seed's counterpart id belongs to some seed.
pub open spec fn all_paired(s: Seq<TeleporterSeed>) -> bool {
    forall|j: int| 0 <= j < s.len() ==> (#[trigger] partner_of(s, s[j].connected)) is Some
}

/// No two seeds share an id.
pub open spec fn unique_ids(s: Seq<TeleporterSeed>) -> bool {
    forall|i: int, j: int| 0 <= i < s.len() && 0 <= j < s.len() && #[trigger] s[i].id == #[trigger] s[j].id ==> i == j
}

/// No two seeds share a tile.
pub open spec fn unique_tiles(s: Seq<TeleporterSeed>) -> bool {
    forall|i: int, j: int| 0 <= i < s.len() && 0 <= j < s.len() && #[trigger] s[i].pos == #[trigger] s[j].pos ==> i == j
}

/// The teleporter table of `s`: each seed's tile holds a teleporter to its
/// counterpart's tile; where seeds share a tile, the last of them counts.
pub open spec fn is_teleporter_table(m: Map<i128, Block>, s: Seq<TeleporterSeed>) -> bool {
    &&& forall|j: int| 0 <= j < s.len() ==> m.contains_key(pkey(#[trigger] s[j].pos))
    &&& forall|k: i128|
        #[trigger] m.contains_key(k) ==> exists|j: int|
            0 <= j < s.len() && pkey(#[trigger] s[j].pos) == k && m[k] == Block::Teleporter(
                partner_of(s, s[j].connected)->0,
            ) && forall|l: int| j < l < s.len() ==> pkey(#[trigger] s[l].pos) != k
}

/// Finds the tile of the last seed whose id is `id`.
pub fn find_partner(seeds: &Vec<TeleporterSeed>, id: u32) -> (r: Option<Pos>)
    ensures
        r == partner_of(seeds@, id),
{
    let mut found: Option<Pos> = None;
    let mut i: usize = 0;
    while i < seeds.len()
        invariant
            i <= seeds@.len(),
            found == partner_of(seeds@.take(i as int), id),
        decreases seeds@.len() - i,
    {
        assert(seeds@.take(i + 1).drop_last() == seeds@.take(i as int));
        if seeds[i].id == id {
            found = Some(seeds[i].pos);
        }
        i = i + 1;
    }
    assert(seeds@.take(seeds@.len() as int) == seeds@);
    found
}

/// Builds the teleporter table, or fails when a seed's counterpart is missing.
pub fn link_teleporters(seeds: &Vec<TeleporterSeed>) -> (r: Result<HashMap<i128, Block>, FloorError>)
    ensures
        r is Ok <==> all_paired(seeds@),
        (r matches Ok(m) ==> is_teleporter_table(m@, seeds@)),
        (r matches Err(e) ==> e == FloorError::UnpairedTeleporter),
{
    let mut table: HashMap<i128, Block> = HashMap::new();
    let mut i: usize = 0;
    while i < seeds.len()
        invariant
            i <= seeds@.len(),
            forall|j: int| 0 <= j < i ==> (#[trigger] partner_of(seeds@, seeds@[j].connected)) is Some,
            forall|j: int| 0 <= j < i ==> table@.contains_key(pkey(#[trigger] seeds@[j].pos)),
            forall|k: i128|
                #[trigger] table@.contains_key(k) ==> exists|j: int|
                    0 <= j < i && pkey(#[trigger] seeds@[j].pos) == k && table@[k] == Block::Teleporter(
                        partner_of(seeds@, seeds@[j].connected)->0,
                    ) && forall|l: int| j < l < i ==> pkey(#[trigger] seeds@[l].pos) != k,
        decreases seeds@.len() - i,
    {
        let seed = seeds[i];
        match find_partner(seeds, seed.connected) {
            None => {
                assert(partner_of(seeds@, seeds@[i as int].connected) is None);
                return Err(FloorError::UnpairedTeleporter);
            },
            Some(target) => {
                let ghost old_table = table@;
                let key = seed.pos.key();
                table.insert(key, Block::Teleporter(target));
                assert forall|k: i128| #[trigger] table@.contains_key(k) implies exists|j: int|
                    0 <= j < i + 1 && pkey(#[trigger] seeds@[j].pos) == k && table@[k] == Block::Teleporter(
                        partner_of(seeds@, seeds@[j].connected)->0,
                    ) && forall|l: int| j < l < i + 1 ==> pkey(#[trigger] seeds@[l].pos) != k by {
                    if k == key {
                        assert(pkey(seeds@[i as int].pos) == k);
                    } else {
                        assert(old_table.contains_key(k));
                        let j = choose|j: int|
                            0 <= j < i && pkey(#[trigger] seeds@[j].pos) == k && old_table[k] == Block::Teleporter(
                                partner_of(seeds@, seeds@[j].connected)->0,
                            ) && forall|l: int| j < l < i ==> pkey(#[trigger] seeds@[l].pos) != k;
                        assert(pkey(seeds@[j].pos) == k);
                    }
                }
            },
        }
        i = i + 1;
    }
    Ok(table)
}

/// With unique ids, the partner of a seed's id is that seed's tile.
pub proof fn lemma_partner_unique(s: Seq<TeleporterSeed>, b: int)
    requires
        unique_ids(s),
        0 <= b < s.len(),
    ensures
        partner_of(s, s[b].id) == Some(s[b].pos),
    decreases s.len(),
{
    if b < s.len() - 1 {
        let t = s.drop_last();
        assert(s.last().id != s[b].id) by {
            assert(s[s.len() - 1] == s.last());
        }
        assert forall|i: int, j: int| 0 <= i < t.len() && 0 <= j < t.len() && #[trigger] t[i].id == #[trigger] t[j].id implies i == j by {
            assert(t[i] == s[i] && t[j] == s[j]);
        }
        lemma_partner_unique(t, b);
        assert(t[b] == s[b]);
    }
}

/// Where a player arriving on `p` is sent by teleporter table `m`: one tile
/// up and left of the counterpart.
pub open spec fn arrival(m: Map<i128, Block>, p: Pos) -> Option<Pos> {
    if m.contains_key(pkey(p)) {
        match m[pkey(p)] {
            Block::Teleporter(t) => Some(shifted(t, -1, -1)),
            _ => None,
        }
    } else {
        None
    }
}

/// Teleporter symmetry: for two seeds that name each other, among seeds with
/// unique ids and tiles, the built table leads from each tile to the other,
/// and arrival lands one step up and left of the counterpart.
pub proof fn lemma_teleporter_symmetry(m: Map<i128, Block>, s: Seq<TeleporterSeed>, a: int, b: int)
    requires
        is_teleporter_table(m, s),
        unique_ids(s),
        unique_tiles(s),
        0 <= a < s.len(),
        0 <= b < s.len(),
        s[a].connected == s[b].id,
        s[b].connected == s[a].id,
    ensures
        m[pkey(s[a].pos)] == Block::Teleporter(s[b].pos),
        m[pkey(s[b].pos)] == Block::Teleporter(s[a].pos),
        arrival(m, s[a].pos) == Some(shifted(s[b].pos, -1, -1)),
        arrival(m, s[b].pos) == Some(shifted(s[a].pos, -1, -1)),
{
    lemma_partner_unique(s, a);
    lemma_partner_unique(s, b);
    lemma_table_entry(m, s, a);
    lemma_table_entry(m, s, b);
}

/// In a table of seeds with unique tiles, seed `a`'s tile holds the
/// teleporter to its counterpart.
proof fn lemma_table_entry(m: Map<i128, Block>, s: Seq<TeleporterSeed>, a: int)
    requires
        is_teleporter_table(m, s),
        unique_tiles(s),
        0 <= a < s.len(),
    ensures
        m.contains_key(pkey(s[a].pos)),
        m[pkey(s[a].pos)] == Block::Teleporter(partner_of(s, s[a].connected)->0),
{
    let k = pkey(s[a].pos);
    assert(m.contains_key(pkey(s[a].pos)));
    let j = choose|j: int|
        0 <= j < s.len() && pkey(#[trigger] s[j].pos) == k && m[k] == Block::Teleporter(
            partner_of(s, s[j].connected)->0,
        ) && forall|l: int| j < l < s.len() ==> pkey(#[trigger] s[l].pos) != k;
    lemma_key_fits(s[j].pos);
    lemma_key_fits(s[a].pos);
    lemma_key_injective(s[j].pos, s[a].pos);
}

/// Seed `j` of room `r` exists and is one that spawns (every second seed).
pub open spec fn spawns(rooms: Seq<RoomPlan>, r: int, j: int) -> bool {
    0 <= r < rooms.len() && 0 <= j < rooms[r].enemies@.len() && j % 2 == 0
}

/// The enemy spawned from `seed`, whatever its luck roll.
pub open spec fn spawned_from(e: Enemy, seed: EnemySeed) -> bool {
    &&& e.pos == seed.pos
    &&& e.hp == ENEMY_HP
    &&& e.max_hp == ENEMY_HP
    &&& e.dificulty == seed.difficulty
    &&& e.timer == 0
    &&& 0 <= e.luck < 5
}

/// The enemy table of a plan: one enemy on the tile of every second seed of
/// each room, and nothing else.
pub open spec fn is_enemy_table(m: Map<i128, Enemy>, rooms: Seq<RoomPlan>) -> bool {
    &&& forall|r: int, j: int|
        #[trigger] spawns(rooms, r, j) ==> m.contains_key(pkey(rooms[r].enemies@[j].pos))
    &&& forall|k: i128|
        #[trigger] m.contains_key(k) ==> exists|r: int, j: int|
            #[trigger] spawns(rooms, r, j) && pkey(rooms[r].enemies@[j].pos) == k && spawned_from(
                m[k],
                rooms[r].enemies@[j],
            )
}

/// Spawns an enemy with 32 hit points on every second enemy seed of each room.
pub fn spawn_enemies(rooms: &Vec<RoomPlan>) -> (r: HashMap<i128, Enemy>)
    ensures
        is_enemy_table(r@, rooms@),
{
    let mut table: HashMap<i128, Enemy> = HashMap::new();
    let mut i: usize = 0;
    while i < rooms.len()
        invariant
            i <= rooms@.len(),
            forall|r: int, j: int|
                #[trigger] spawns(rooms@, r, j) && r < i ==> table@.contains_key(pkey(rooms@[r].enemies@[j].pos)),
            forall|k: i128|
                #[trigger] table@.contains_key(k) ==> exists|r: int, j: int|
                    #[trigger] spawns(rooms@, r, j) && pkey(rooms@[r].enemies@[j].pos) == k
                        && spawned_from(table@[k], rooms@[r].enemies@[j]),
        decreases rooms@.len() - i,
    {
        let room = &rooms[i];
        let mut j: usize = 0;
        while j < room.enemies.len()
            invariant
                i < rooms@.len(),
                *room == rooms@[i as int],
                j <= room.enemies@.len(),
                forall|r: int, l: int|
                    #[trigger] spawns(rooms@, r, l) && (r < i || (r == i && l < j)) ==> table@.contains_key(pkey(rooms@[r].enemies@[l].pos)),
                forall|k: i128|
                    #[trigger] table@.contains_key(k) ==> exists|r: int, l: int|
                        #[trigger] spawns(rooms@, r, l) && pkey(rooms@[r].enemies@[l].pos) == k
                            && spawned_from(table@[k], rooms@[r].enemies@[l]),
            decreases room.enemies@.len() - j,
        {
            if j % 2 == 0 {
                let seed = room.enemies[j];
                let enemy = Enemy::new(ENEMY_HP, seed.pos, seed.difficulty);
                let key = seed.pos.key();
                let ghost old_table = table@;
                table.insert(key, enemy);
                assert(spawns(rooms@, i as int, j as int));
                assert forall|k: i128| #[trigger] table@.contains_key(k) implies exists|r: int, l: int|
                    #[trigger] spawns(rooms@, r, l) && pkey(rooms@[r].enemies@[l].pos) == k
                        && spawned_from(table@[k], rooms@[r].enemies@[l]) by {
                    if k != key {
                        assert(old_table.contains_key(k));
                    }
                }
            }
            j = j + 1;
        }
        i = i + 1;
    }
    table
}

/// Item seed `j` of room `r` exists.
pub open spec fn item_seed(rooms: Seq<RoomPlan>, r: int, j: int) -> bool {
    0 <= r < rooms.len() && 0 <= j < rooms[r].items@.len()
}

/// The item table of a plan: a random loot item on every item seed of every
/// room, and nothing else.
pub open spec fn is_item_table(m: Map<i128, Item>, rooms: Seq<RoomPlan>) -> bool {
    &&& forall|r: int, j: int|
        #[trigger] item_seed(rooms, r, j) ==> m.contains_key(pkey(rooms[r].items@[j]))
    &&& forall|k: i128|
        #[trigger] m.contains_key(k) ==> loot_shape(m[k]) && exists|r: int, j: int|
            #[trigger] item_seed(rooms, r, j) && pkey(rooms[r].items@[j]) == k
}

/// Places a random loot item on every item seed of every room.
pub fn place_items(rooms: &Vec<RoomPlan>) -> (r: HashMap<i128, Item>)
    ensures
        is_item_table(r@, rooms@),
{
    let mut table: HashMap<i128, Item> = HashMap::new();
    let mut i: usize = 0;
    while i < rooms.len()
        invariant
            i <= rooms@.len(),
            forall|r: int, j: int|
                #[trigger] item_seed(rooms@, r, j) && r < i ==> table@.contains_key(pkey(rooms@[r].items@[j])),
            forall|k: i128|
                #[trigger] table@.contains_key(k) ==> loot_shape(table@[k]) && exists|r: int, j: int|
                    #[trigger] item_seed(rooms@, r, j) && pkey(rooms@[r].items@[j]) == k,
        decreases rooms@.len() - i,
    {
        let room = &rooms[i];
        let mut j: usize = 0;
        while j < room.items.len()
            invariant
                i < rooms@.len(),
                *room == rooms@[i as int],
                j <= room.items@.len(),
                forall|r: int, l: int|
                    #[trigger] item_seed(rooms@, r, l) && (r < i || (r == i && l < j)) ==> table@.contains_key(pkey(rooms@[r].items@[l])),
                forall|k: i128|
                    #[trigger] table@.contains_key(k) ==> loot_shape(table@[k]) && exists|r: int, l: int|
                        #[trigger] item_seed(rooms@, r, l) && pkey(rooms@[r].items@[l]) == k,
            decreases room.items@.len() - j,
        {
            let key = room.items[j].key();
            let ghost old_table = table@;
            table.insert(key, Item::random());
            assert(item_seed(rooms@, i as int, j as int));
            assert forall|k: i128| #[trigger] table@.contains_key(k) implies loot_shape(table@[k]) && exists|r: int, l: int|
                #[trigger] item_seed(rooms@, r, l) && pkey(rooms@[r].items@[l]) == k by {
                if k != key {
                    assert(old_table.contains_key(k));
                }
            }
            j = j + 1;
        }
        i = i + 1;
    }
    table
}

/// Ingests a plan: the exit goes on the first floor tile farthest from the
/// spawn and joins the wall map; teleporters link to their counterparts;
/// every second enemy seed of each room spawns an enemy; every item seed
/// gets a random item. Fails, building nothing, when a grid coordinate does
/// not fit in `isize`, the grid has no floor, or a teleporter's counterpart
/// is missing.
pub fn build_floor(plan: &FloorPlan) -> (r: Result<Floor, FloorError>)
    ensures
        !grid_fits(plan.tiles@) ==> r == Err::<Floor, FloorError>(FloorError::OversizedGrid),
        grid_fits(plan.tiles@) && !has_floor(plan.tiles@) ==> r == Err::<Floor, FloorError>(
            FloorError::NoFloor,
        ),
        grid_fits(plan.tiles@) && has_floor(plan.tiles@) && !all_paired(
            all_teleporters(plan.rooms@),
        ) ==> r == Err::<Floor, FloorError>(FloorError::UnpairedTeleporter),
        r is Ok <==> grid_fits(plan.tiles@) && has_floor(plan.tiles@) && all_paired(
            all_teleporters(plan.rooms@),
        ),
        (r matches Ok(f) ==> {
            &&& exists|ex: int, ey: int|
                farthest_floor(plan.tiles@, plan.spawn, ex, ey) && f.exit == grid_pos(ex, ey)
            &&& exists|walls: Map<i128, Block>|
                is_wall_map(walls, plan.tiles@) && f.map@ == walls.insert(pkey(f.exit), Block::Exit)
            &&& is_teleporter_table(f.teleporters@, all_teleporters(plan.rooms@))
            &&& is_enemy_table(f.enemies@, plan.rooms@)
            &&& is_item_table(f.items@, plan.rooms@)
            &&& f.spawn == plan.spawn
        }),
{
    if !fits_isize(&plan.tiles) {
        return Err(FloorError::OversizedGrid);
    }
    let (mut map, far) = scan_tiles(&plan.tiles, plan.spawn);
    let exit = match far {
        Some(p) => p,
        None => {
            return Err(FloorError::NoFloor);
        },
    };
    let seeds = collect_teleporters(&plan.rooms);
    let teleporters = match link_teleporters(&seeds) {
        Ok(t) => t,
        Err(e) => {
            return Err(e);
        },
    };
    let ghost walls = map@;
    map.insert(exit.key(), Block::Exit);
    let enemies = spawn_enemies(&plan.rooms);
    let items = place_items(&plan.rooms);
    Ok(Floor { map, teleporters, exit, enemies, items, spawn: plan.spawn })
}

} // verus!
