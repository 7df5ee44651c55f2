//! Grid coordinates, tiles, and the integer arithmetic shared by every
//! other component.
use vstd::prelude::*;

verus! {

/// Multiplier that places the x coordinate above the 64 bits of y in a key.
pub const KEY_SHIFT: i128 = 0x1_0000_0000_0000_0000;

/// Offset that makes the y coordinate non-negative inside a key.
pub const KEY_BIAS: i128 = 0x8000_0000_0000_0000;

/// A grid position `(x, y)`.
#[derive(Debug, Clone, Copy, PartialEq, Eq, Hash, Structural)]
pub struct Pos(pub isize, pub isize);

/// What occupies a tile of the world map. A position that no table holds is floor.
#[derive(Debug, Clone, Copy, PartialEq, Eq, Structural)]
pub enum Block {
    Wall,
    Exit,
    Teleporter(Pos),
}

/// The table key of a position: x in the high 64 bits, y (biased) in the low ones.
pub open spec fn key_of(p: Pos) -> int {
    p.0 as int * KEY_SHIFT as int + (p.1 as int + KEY_BIAS as int)
}

/// The table key of a position, at its executable width.
pub open spec fn pkey(p: Pos) -> i128 {
    key_of(p) as i128
}

/// Squared Euclidean distance between two positions.
pub open spec fn dist2(a: Pos, b: Pos) -> int {
    (a.0 - b.0) * (a.0 - b.0) + (a.1 - b.1) * (a.1 - b.1)
}

/// Squared distance as the executable code computes it: exact up to `u128::MAX`.
pub open spec fn capped_dist2(a: Pos, b: Pos) -> int {
    if dist2(a, b) <= u128::MAX as int {
        dist2(a, b)
    } else {
        u128::MAX as int
    }
}

/// `p` shifted by `(dx, dy)`.
pub open spec fn shifted(p: Pos, dx: int, dy: int) -> Pos {
    Pos((p.0 + dx) as isize, (p.1 + dy) as isize)
}

/// The shift stays inside the coordinate range.
pub open spec fn can_shift(p: Pos, dx: int, dy: int) -> bool {
    isize::MIN <= p.0 + dx <= isize::MAX && isize::MIN <= p.1 + dy <= isize::MAX
}

/// Two positions have the same key only if they are equal.
pub proof fn lemma_key_injective(a: Pos, b: Pos)
    ensures
        key_of(a) == key_of(b) ==> a == b,
{
    let ya = a.1 as int + KEY_BIAS as int;
    let yb = b.1 as int + KEY_BIAS as int;
    let dx = a.0 as int - b.0 as int;
    if key_of(a) == key_of(b) {
        assert(dx * 0x1_0000_0000_0000_0000 == yb - ya) by (nonlinear_arith)
            requires
                a.0 as int * 0x1_0000_0000_0000_0000 + ya == b.0 as int * 0x1_0000_0000_0000_0000 + yb,
                dx == a.0 as int - b.0 as int,
        ;
        assert(dx == 0) by (nonlinear_arith)
            requires
                dx * 0x1_0000_0000_0000_0000 == yb - ya,
                0 <= ya < 0x1_0000_0000_0000_0000,
                0 <= yb < 0x1_0000_0000_0000_0000,
        ;
    }
}

/// A key fits its executable width.
pub proof fn lemma_key_fits(p: Pos)
    ensures
        pkey(p) as int == key_of(p),
{
    assert(i128::MIN <= key_of(p) <= i128::MAX) by (nonlinear_arith)
        requires
            key_of(p) == p.0 as int * 0x1_0000_0000_0000_0000 + (p.1 as int + 0x8000_0000_0000_0000),
            isize::MIN <= p.0 <= isize::MAX,
            isize::MIN <= p.1 <= isize::MAX,
    ;
}

/// Two positions with the same table key are equal.
pub proof fn lemma_pkey_injective(a: Pos, b: Pos)
    ensures
        pkey(a) == pkey(b) ==> a == b,
{
    lemma_key_fits(a);
    lemma_key_fits(b);
    lemma_key_injective(a, b);
}

/// Absolute difference of two coordinates.
pub fn gap(a: isize, b: isize) -> (r: u64)
    ensures
        r as int == if a >= b { a - b } else { b - a },
{
    let d: i128 = a as i128 - b as i128;
    if d < 0 {
        (-d) as u64
    } else {
        d as u64
    }
}

impl Pos {
    /// The key under which this position is stored in the world tables.
    pub fn key(&self) -> (r: i128)
        ensures
            r as int == key_of(*self),
            r == pkey(*self),
    {
        let x: i128 = self.0 as i128;
        let y: i128 = self.1 as i128;
        assert(-0x8000_0000_0000_0000_0000_0000_0000_0000 <= x * 0x1_0000_0000_0000_0000
            <= 0x7fff_ffff_ffff_ffff_0000_0000_0000_0000) by (nonlinear_arith)
            requires
                -0x8000_0000_0000_0000 <= x <= 0x7fff_ffff_ffff_ffff,
        ;
        x * KEY_SHIFT + (y + KEY_BIAS)
    }

    /// The position as an `(x, y)` pair.
    pub fn as_tuple(&self) -> (r: (isize, isize))
        ensures
            r == (self.0, self.1),
    {
        (self.0, self.1)
    }

    /// This position moved by `delta`.
    pub fn translate(self, delta: Pos) -> (r: Pos)
        requires
            can_shift(self, delta.0 as int, delta.1 as int),
        ensures
            r == shifted(self, delta.0 as int, delta.1 as int),
    {
        Pos(self.0 + delta.0, self.1 + delta.1)
    }

    /// The eight neighbours of this position, each once and without the
    /// position itself, row by row from the top-left corner.
    pub fn around(&self) -> (r: Vec<Pos>)
        requires
            can_shift(*self, -1, -1),
            can_shift(*self, 1, 1),
        ensures
            r@ == seq![
                shifted(*self, -1, -1),
                shifted(*self, 0, -1),
                shifted(*self, 1, -1),
                shifted(*self, -1, 0),
                shifted(*self, 1, 0),
                shifted(*self, -1, 1),
                shifted(*self, 0, 1),
                shifted(*self, 1, 1),
            ],
    {
        let (x, y) = (self.0, self.1);
        let mut out: Vec<Pos> = Vec::new();
        out.push(Pos(x - 1, y - 1));
        out.push(Pos(x, y - 1));
        out.push(Pos(x + 1, y - 1));
        out.push(Pos(x - 1, y));
        out.push(Pos(x + 1, y));
        out.push(Pos(x - 1, y + 1));
        out.push(Pos(x, y + 1));
        out.push(Pos(x + 1, y + 1));
        out
    }
}

impl vstd::std_specs::convert::FromSpecImpl<(isize, isize)> for Pos {
    open spec fn obeys_from_spec() -> bool {
        true
    }

    open spec fn from_spec(v: (isize, isize)) -> Pos {
        Pos(v.0, v.1)
    }
}

impl From<(isize, isize)> for Pos {
    fn from(v: (isize, isize)) -> (r: Pos)
        ensures
            r == Pos(v.0, v.1),
    {
        Pos(v.0, v.1)
    }
}

/// Squared Euclidean distance, saturating at `u128::MAX`.
pub fn squared_distance(a: Pos, b: Pos) -> (r: u128)
    ensures
        r as int == capped_dist2(a, b),
{
    let dx = gap(a.0, b.0) as u128;
    let dy = gap(a.1, b.1) as u128;
    assert(dx * dx <= 0xffff_ffff_ffff_fffe_0000_0000_0000_0001) by (nonlinear_arith)
        requires
            dx <= 0xffff_ffff_ffff_ffff,
    ;
    assert(dy * dy <= 0xffff_ffff_ffff_fffe_0000_0000_0000_0001) by (nonlinear_arith)
        requires
            dy <= 0xffff_ffff_ffff_ffff,
    ;
    let sx = dx * dx;
    let sy = dy * dy;
    assert(sx + sy == dist2(a, b)) by (nonlinear_arith)
        requires
            dx == (if a.0 >= b.0 { a.0 - b.0 } else { b.0 - a.0 }),
            dy == (if a.1 >= b.1 { a.1 - b.1 } else { b.1 - a.1 }),
            sx == dx * dx,
            sy == dy * dy,
    ;
    match sx.checked_add(sy) {
        Some(s) => s,
        None => u128::MAX,
    }
}

} // verus!
