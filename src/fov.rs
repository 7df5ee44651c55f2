//! Field of view: which tiles the player sees, by symmetric shadowcasting.
use crate::pos::{dist2, pkey, squared_distance, Block, Pos};
use std::collections::HashMap;
use symmetric_shadowcasting::compute_fov;
use vstd::prelude::*;

verus! {

/// Squared sight radius: tiles farther than 10 from the origin stop the light.
pub const SIGHT2: u128 = 100;

/// `p` stops the light cast from `origin`: it lies beyond the sight radius or
/// is a wall.
pub open spec fn blocks_sight(walls: Map<i128, Block>, origin: Pos, p: Pos) -> bool {
    dist2(origin, p) > 100 || (walls.contains_key(pkey(p)) && walls[pkey(p)] == Block::Wall)
}

/// How far from the `isize` limits an origin must stay: the shadowcaster
/// scans at most 11 rows out (row 11 is past the sight radius and opaque)
/// and computes coordinates up to one row beyond.
pub const SIGHT_MARGIN: isize = 12;

/// The shadowcaster's coordinates stay inside `isize` around `origin`.
pub open spec fn in_sight_range(origin: Pos) -> bool {
    isize::MIN + SIGHT_MARGIN <= origin.0 <= isize::MAX - SIGHT_MARGIN && isize::MIN
        + SIGHT_MARGIN <= origin.1 <= isize::MAX - SIGHT_MARGIN
}

/// The tiles visible from `origin`, each once: none when the origin lies too
/// close to the coordinate limits to cast from.
pub open spec fn sight(origin: Pos, walls: Map<i128, Block>) -> Seq<Pos> {
    if in_sight_range(origin) {
        distinct(shadowcast(origin, walls))
    } else {
        Seq::empty()
    }
}

/// The opacity test handed to the shadowcaster.
pub fn is_opaque(walls: &HashMap<i128, Block>, origin: Pos, p: Pos) -> (r: bool)
    ensures
        r == blocks_sight(walls@, origin, p),
{
    if squared_distance(origin, p) > SIGHT2 {
        return true;
    }
    match walls.get(&p.key()) {
        Some(b) => *b == Block::Wall,
        None => false,
    }
}

/// Records a revealed tile.
pub fn record(seen: &mut Vec<Pos>, t: (isize, isize))
    ensures
        final(seen)@ == old(seen)@.push(Pos(t.0, t.1)),
{
    seen.push(Pos(t.0, t.1));
}

/// The tiles, in reporting order, that shadowcasting from `origin` reveals
/// when the tiles of `blocks_sight(walls, origin, _)` are opaque.
pub uninterp spec fn shadowcast(origin: Pos, walls: Map<i128, Block>) -> Seq<Pos>;

/// Relies on symmetric_shadowcasting's `compute_fov`: it reports the origin
/// first and then each revealed tile, and what it reports depends only on the
/// origin and on the opacity test, here a function of `walls@`. Its
/// quadrant transform adds row and column offsets to the origin in `isize`,
/// so the origin keeps `SIGHT_MARGIN` from the limits.
#[verifier::external_body]
fn cast(origin: Pos, walls: &HashMap<i128, Block>) -> (r: Vec<Pos>)
    requires
        in_sight_range(origin),
    ensures
        r@ == shadowcast(origin, walls@),
        r@.len() >= 1,
        r@[0] == origin,
{
    let mut seen: Vec<Pos> = Vec::new();
    compute_fov(
        (origin.0, origin.1),
        &mut |t: (isize, isize)| is_opaque(walls, origin, Pos(t.0, t.1)),
        &mut |t: (isize, isize)| record(&mut seen, t),
    );
    seen
}

/// Every tile visible from `origin`, each once, in the order the
/// shadowcaster first reports it (the origin first); nothing when the origin
/// lies within `SIGHT_MARGIN` of the coordinate limits.
pub fn visible_tiles(origin: Pos, walls: &HashMap<i128, Block>) -> (r: Vec<Pos>)
    ensures
        r@ == sight(origin, walls@),
        in_sight_range(origin) ==> r@.len() >= 1 && r@[0] == origin,
{
    if origin.0 < isize::MIN + SIGHT_MARGIN || origin.0 > isize::MAX - SIGHT_MARGIN || origin.1
        < isize::MIN + SIGHT_MARGIN || origin.1 > isize::MAX - SIGHT_MARGIN {
        return Vec::new();
    }
    let all = cast(origin, walls);
    proof {
        lemma_distinct_first(all@);
    }
    dedup_tiles(&all)
}

/// The positions of `s`, in order and each once, whose key the table holds.
pub open spec fn occupied<V>(s: Seq<Pos>, table: Map<i128, V>) -> Seq<Pos>
    decreases s.len(),
{
    if s.len() == 0 {
        Seq::empty()
    } else if table.contains_key(pkey(s.last())) && !occupied(s.drop_last(), table).contains(
        s.last(),
    ) {
        occupied(s.drop_last(), table).push(s.last())
    } else {
        occupied(s.drop_last(), table)
    }
}

/// The positions of `s`, in order, each at its first occurrence.
pub open spec fn distinct(s: Seq<Pos>) -> Seq<Pos>
    decreases s.len(),
{
    if s.len() == 0 {
        Seq::empty()
    } else if distinct(s.drop_last()).contains(s.last()) {
        distinct(s.drop_last())
    } else {
        distinct(s.drop_last()).push(s.last())
    }
}

/// Every position of `occupied(s, table)` is held by the table, and none
/// comes twice.
pub proof fn lemma_occupied_held<V>(s: Seq<Pos>, table: Map<i128, V>)
    ensures
        forall|j: int|
            0 <= j < occupied(s, table).len() ==> table.contains_key(
                pkey(#[trigger] occupied(s, table)[j]),
            ),
        forall|a: int, b: int|
            0 <= a < b < occupied(s, table).len() ==> #[trigger] occupied(s, table)[a]
                != #[trigger] occupied(s, table)[b],
    decreases s.len(),
{
    if s.len() > 0 {
        lemma_occupied_held(s.drop_last(), table);
        let o = occupied(s, table);
        let prev = occupied(s.drop_last(), table);
        if table.contains_key(pkey(s.last())) && !prev.contains(s.last()) {
            assert forall|j: int| 0 <= j < o.len() implies table.contains_key(pkey(#[trigger] o[j])) by {
                if j < prev.len() {
                    assert(o[j] == prev[j]);
                }
            }
            assert forall|a: int, b: int| 0 <= a < b < o.len() implies #[trigger] o[a] != #[trigger] o[b] by {
                assert(o[a] == prev[a]);
                if b == prev.len() {
                    assert(o[b] == s.last());
                    assert(prev.contains(prev[a]));
                } else {
                    assert(o[b] == prev[b]);
                }
            }
        }
    }
}

/// Dropping repeats keeps the first position first.
pub proof fn lemma_distinct_first(s: Seq<Pos>)
    requires
        s.len() >= 1,
    ensures
        distinct(s).len() >= 1,
        distinct(s)[0] == s[0],
    decreases s.len(),
{
    let prev = distinct(s.drop_last());
    if s.len() > 1 {
        lemma_distinct_first(s.drop_last());
        assert(s.drop_last()[0] == s[0]);
        if !prev.contains(s.last()) {
            assert(prev.push(s.last())[0] == prev[0]);
        }
    } else {
        assert(s.drop_last().len() == 0);
        assert(prev == Seq::<Pos>::empty());
        assert(!prev.contains(s.last()));
        assert(s.last() == s[0]);
    }
}

/// Whether `v` holds `p`.
fn holds(v: &Vec<Pos>, p: Pos) -> (r: bool)
    ensures
        r == v@.contains(p),
{
    let mut i: usize = 0;
    while i < v.len()
        invariant
            i <= v@.len(),
            forall|j: int| 0 <= j < i ==> v@[j] != p,
        decreases v@.len() - i,
    {
        if v[i] == p {
            return true;
        }
        i = i + 1;
    }
    false
}

/// Drops repeated positions, keeping each first occurrence in place.
pub fn dedup_tiles(tiles: &Vec<Pos>) -> (r: Vec<Pos>)
    ensures
        r@ == distinct(tiles@),
{
    let mut out: Vec<Pos> = Vec::new();
    let mut i: usize = 0;
    while i < tiles.len()
        invariant
            i <= tiles@.len(),
            out@ == distinct(tiles@.take(i as int)),
        decreases tiles@.len() - i,
    {
        let p = tiles[i];
        assert(tiles@.take(i + 1).drop_last() == tiles@.take(i as int));
        if !holds(&out, p) {
            out.push(p);
        }
        i = i + 1;
    }
    assert(tiles@.take(tiles@.len() as int) == tiles@);
    out
}

/// Keeps, in order and each once, the positions of `tiles` that `table` holds.
pub fn keep_occupied<V>(tiles: &Vec<Pos>, table: &HashMap<i128, V>) -> (r: Vec<Pos>)
    ensures
        r@ == occupied(tiles@, table@),
{
    let mut out: Vec<Pos> = Vec::new();
    let mut i: usize = 0;
    while i < tiles.len()
        invariant
            i <= tiles@.len(),
            out@ == occupied(tiles@.take(i as int), table@),
        decreases tiles@.len() - i,
    {
        let p = tiles[i];
        assert(tiles@.take(i + 1).drop_last() == tiles@.take(i as int));
        if table.contains_key(&p.key()) && !holds(&out, p) {
            out.push(p);
        }
        i = i + 1;
    }
    assert(tiles@.take(tiles@.len() as int) == tiles@);
    out
}

} // verus!
