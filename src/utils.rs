use vstd::prelude::*;

verus! {

/// A tile of the grid, as (column, row).
pub type TileIndex = (i32, i32);

/// A vector between tiles, as (x, y).
pub type TileVec = (i32, i32);

/// A point of the world plane, in whole world units.
pub type WorldPos = (i64, i64);

/// Side of one tile, in world units.
pub const TILE_SIZE: i64 = 32;

/// Every tile coordinate the library works with lies within this bound:
/// about the range over which a world position held in single precision
/// still resolves whole world units, so geometry computed from it in floating
/// point (curves, hit-testing) stays meaningful.
pub const MAX_COORD: i32 = 1048576;

/// An orientation quantized to eight directions, 45 degrees apart,
/// clockwise from north (0). Operations reduce the value modulo 8.
#[derive(Debug, Clone, Copy, PartialEq, Eq, Structural, Hash, PartialOrd, Ord, Default)]
pub struct Octant(pub i8);

impl Octant {
    /// The octant in `0..8` that this value stands for.
    pub open spec fn index(self) -> int {
        (self.0 as int) % 8
    }

    /// Whether the value is already reduced.
    pub open spec fn wf(self) -> bool {
        0 <= self.0 < 8
    }

    /// One step counter-clockwise.
    pub fn left(&self) -> (r: Self)
        ensures
            r.wf(),
            r.0 == (self.0 - 1) % 8,
    {
        Octant((((self.0 as i16) + 135) % 8) as i8)
    }

    /// One step clockwise.
    pub fn right(&self) -> (r: Self)
        ensures
            r.wf(),
            r.0 == (self.0 + 1) % 8,
    {
        Octant((((self.0 as i16) + 129) % 8) as i8)
    }

    /// The opposite direction (rotation by 180 degrees).
    pub fn inverse(&self) -> (r: Self)
        ensures
            r.wf(),
            r.0 == (self.0 + 4) % 8,
    {
        Octant((((self.0 as i16) + 132) % 8) as i8)
    }

    /// The direction 90 degrees clockwise.
    pub fn perp(&self) -> (r: Self)
        ensures
            r.wf(),
            r.0 == (self.0 + 2) % 8,
    {
        Octant((((self.0 as i16) + 130) % 8) as i8)
    }

    /// The sum of two rotations.
    pub fn plus(&self, rhs: Octant) -> (r: Self)
        ensures
            r.wf(),
            r.0 == (self.0 + rhs.0) % 8,
    {
        Octant((((self.0 as i16) + (rhs.0 as i16) + 256) % 8) as i8)
    }

    /// The octant of a direction index, taken modulo 8.
    pub fn from_index(o: usize) -> (r: Self)
        ensures
            r.wf(),
            r.0 == (o as int) % 8,
    {
        Octant((o % 8) as i8)
    }
}

impl From<usize> for Octant {
    fn from(o: usize) -> (r: Octant) {
        Octant::from_index(o)
    }
}

impl vstd::std_specs::convert::FromSpecImpl<usize> for Octant {
    open spec fn obeys_from_spec() -> bool {
        true
    }

    open spec fn from_spec(o: usize) -> Octant {
        Octant(((o as int) % 8) as i8)
    }
}

/// The grid step toward the octant with index `i` (taken modulo 8):
/// `(sin, cos)` of its angle, with the diagonal components scaled from
/// `1/sqrt(2)` to 1.
pub open spec fn step_at(i: int) -> (int, int) {
    let i = i % 8;
    if i == 0 {
        (0, 1)
    } else if i == 1 {
        (1, 1)
    } else if i == 2 {
        (1, 0)
    } else if i == 3 {
        (1, -1)
    } else if i == 4 {
        (0, -1)
    } else if i == 5 {
        (-1, -1)
    } else if i == 6 {
        (-1, 0)
    } else {
        (-1, 1)
    }
}

/// The grid step toward an octant.
pub open spec fn step_of(octant: Octant) -> (int, int) {
    step_at(octant.0 as int)
}

/// Direction of `octant` as a grid step, not of unit length: `(sin, cos)`
/// of its angle for the four axes, and the unit vector scaled by `sqrt(2)`
/// for a diagonal, so it is always parallel to the unit vector. Every
/// comparison of directions in this library is made on these steps, exactly.
pub fn octant_to_unit(octant: Octant) -> (r: TileVec)
    ensures
        r.0 as int == step_of(octant).0,
        r.1 as int == step_of(octant).1,
{
    let i = ((octant.0 as i16) + 128) % 8;
    if i == 0 {
        (0, 1)
    } else if i == 1 {
        (1, 1)
    } else if i == 2 {
        (1, 0)
    } else if i == 3 {
        (1, -1)
    } else if i == 4 {
        (0, -1)
    } else if i == 5 {
        (-1, -1)
    } else if i == 6 {
        (-1, 0)
    } else {
        (-1, 1)
    }
}

/// The integer nearest to `a / b`, halves rounded away from zero.
pub open spec fn round_div(a: int, b: int) -> int
    recommends
        b > 0,
{
    if a >= 0 {
        (2 * a + b) / (2 * b)
    } else {
        -((-2 * a + b) / (2 * b))
    }
}

/// A tile within the bounds that the geometry of this library works in.
pub open spec fn tile_in_range(t: (i32, i32)) -> bool {
    -MAX_COORD <= t.0 <= MAX_COORD && -MAX_COORD <= t.1 <= MAX_COORD
}

/// Whether a world coordinate maps to a tile coordinate within bounds.
pub open spec fn world_in_range(p: int) -> bool {
    -MAX_COORD * TILE_SIZE <= p <= MAX_COORD * TILE_SIZE
}

/// The tile coordinate of a world coordinate: `round(p / TILE_SIZE - 1/2)`.
pub open spec fn tile_coord_of(p: int) -> int {
    round_div(p - TILE_SIZE / 2, TILE_SIZE as int)
}

fn world_to_tile_coord(p: i64) -> (r: i32)
    requires
        world_in_range(p as int),
    ensures
        r as int == tile_coord_of(p as int),
        -MAX_COORD - 1 <= r <= MAX_COORD + 1,
{
    let a = p - TILE_SIZE / 2;
    if a >= 0 {
        ((2 * a + TILE_SIZE) / (2 * TILE_SIZE)) as i32
    } else {
        (-((-2 * a + TILE_SIZE) / (2 * TILE_SIZE))) as i32
    }
}

/// The tile under a world position, as a vector from the origin tile.
pub fn pos_to_vec(pos: WorldPos) -> (r: TileVec)
    requires
        world_in_range(pos.0 as int),
        world_in_range(pos.1 as int),
    ensures
        r.0 as int == tile_coord_of(pos.0 as int),
        r.1 as int == tile_coord_of(pos.1 as int),
{
    (world_to_tile_coord(pos.0), world_to_tile_coord(pos.1))
}

/// The tile under a world position.
pub fn pos_to_tile_vec(pos: WorldPos) -> (r: TileVec)
    requires
        world_in_range(pos.0 as int),
        world_in_range(pos.1 as int),
    ensures
        r.0 as int == tile_coord_of(pos.0 as int),
        r.1 as int == tile_coord_of(pos.1 as int),
{
    pos_to_vec(pos)
}

/// The tile under a world position, as a tile index.
pub fn pos_to_tile(pos: WorldPos) -> (r: TileIndex)
    requires
        world_in_range(pos.0 as int),
        world_in_range(pos.1 as int),
    ensures
        r.0 as int == tile_coord_of(pos.0 as int),
        r.1 as int == tile_coord_of(pos.1 as int),
{
    let v = pos_to_tile_vec(pos);
    (v.0, v.1)
}

/// The world position of a tile's lower corner.
pub fn tile_vec_to_pos(tile: TileVec) -> (r: WorldPos)
    ensures
        r.0 == tile.0 * TILE_SIZE,
        r.1 == tile.1 * TILE_SIZE,
{
    ((tile.0 as i64) * TILE_SIZE, (tile.1 as i64) * TILE_SIZE)
}

/// The world position of a tile's center.
pub fn tile_vec_to_center(tile: TileVec) -> (r: WorldPos)
    ensures
        r.0 == tile.0 * TILE_SIZE + TILE_SIZE / 2,
        r.1 == tile.1 * TILE_SIZE + TILE_SIZE / 2,
{
    let p = tile_vec_to_pos(tile);
    assert(TILE_SIZE == 32);
    (p.0 + TILE_SIZE / 2, p.1 + TILE_SIZE / 2)
}

/// The tile vector of a tile index.
pub fn tile_to_vec(tile: TileIndex) -> (r: TileVec)
    ensures
        r == tile,
{
    (tile.0, tile.1)
}

/// The world position of a tile's center.
pub fn tile_to_center(tile: TileIndex) -> (r: WorldPos)
    ensures
        r.0 == tile.0 * TILE_SIZE + TILE_SIZE / 2,
        r.1 == tile.1 * TILE_SIZE + TILE_SIZE / 2,
{
    tile_vec_to_center(tile_to_vec(tile))
}

} // verus!
