use vstd::prelude::*;

use crate::utils::{tile_in_range, Octant, TileIndex};

verus! {

/// A node of the pathing graph: the end of a track at `tile`, facing
/// `facing`.
#[derive(Debug, Clone, Copy, Eq, Hash, Default)]
pub struct TrackPos {
    pub tile: TileIndex,
    pub facing: Octant,
}

/// A graph node as a plain key: the tile and the reduced facing.
pub type NodeKey = (i32, i32, i8);

/// `a` comes before `b` in the order of tiles (by column, then row).
pub open spec fn tile_lt(a: TileIndex, b: TileIndex) -> bool {
    a.0 < b.0 || (a.0 == b.0 && a.1 < b.1)
}

/// `a` comes before `b` by tile, then by facing.
pub open spec fn pos_lt(a: TrackPos, b: TrackPos) -> bool {
    tile_lt(a.tile, b.tile) || (a.tile == b.tile && a.facing.0 < b.facing.0)
}

impl TrackPos {
    /// The facing is one of the eight reduced values.
    pub open spec fn wf(self) -> bool {
        self.facing.wf()
    }

    /// The same point, approached from the opposite side.
    pub open spec fn spec_inverse(self) -> TrackPos {
        TrackPos { tile: self.tile, facing: Octant(((self.facing.0 + 4) % 8) as i8) }
    }

    /// The graph key of this node.
    pub open spec fn spec_key(self) -> NodeKey {
        (self.tile.0, self.tile.1, self.facing.index() as i8)
    }

    pub fn new(tile: TileIndex, facing: Octant) -> (r: Self)
        ensures
            r == (TrackPos { tile, facing }),
    {
        TrackPos { tile, facing }
    }

    /// The same point, approached from the opposite side: the tile is kept
    /// and the facing turned by 180 degrees.
    pub fn inverse(&self) -> (r: Self)
        ensures
            r == self.spec_inverse(),
            r.wf(),
    {
        TrackPos { tile: self.tile, facing: self.facing.inverse() }
    }

    /// The graph key of this node.
    pub fn key(&self) -> (r: NodeKey)
        ensures
            r == self.spec_key(),
    {
        (self.tile.0, self.tile.1, (((self.facing.0 as i16) + 128) % 8) as i8)
    }
}

/// A physical segment between two nodes, stored with the smaller end first,
/// so that both directions of one segment give one value.
#[derive(Debug, Clone, Copy, Eq)]
pub struct TrackSegment {
    pub start: TrackPos,
    pub end: TrackPos,
}

impl PartialEq for TrackPos {
    fn eq(&self, o: &TrackPos) -> (r: bool) {
        self.tile.0 == o.tile.0 && self.tile.1 == o.tile.1 && self.facing == o.facing
    }
}

impl vstd::std_specs::cmp::PartialEqSpecImpl for TrackPos {
    open spec fn obeys_eq_spec() -> bool {
        true
    }

    open spec fn eq_spec(&self, o: &TrackPos) -> bool {
        *self == *o
    }
}

impl PartialEq for TrackSegment {
    fn eq(&self, o: &TrackSegment) -> (r: bool) {
        self.start.eq(&o.start) && self.end.eq(&o.end)
    }
}

impl vstd::std_specs::cmp::PartialEqSpecImpl for TrackSegment {
    open spec fn obeys_eq_spec() -> bool {
        true
    }

    open spec fn eq_spec(&self, o: &TrackSegment) -> bool {
        *self == *o
    }
}

/// The canonical segment with ends `a` and `b`.
pub open spec fn canonical(a: TrackPos, b: TrackPos) -> TrackSegment {
    if pos_lt(b, a) {
        TrackSegment { start: b, end: a }
    } else {
        TrackSegment { start: a, end: b }
    }
}

impl TrackSegment {
    /// Both ends lie within the bounds of the geometry.
    pub open spec fn in_range(self) -> bool {
        tile_in_range(self.start.tile) && tile_in_range(self.end.tile)
    }

    /// The ends are in canonical order.
    pub open spec fn wf(self) -> bool {
        !pos_lt(self.end, self.start)
    }

    /// The segment left from `start` and arriving at `end`: the arrival
    /// end is stored as seen from the segment, that is inverted.
    pub fn from_directed(start: TrackPos, end: TrackPos) -> (r: Self)
        ensures
            r == canonical(start, end.spec_inverse()),
            r.wf(),
    {
        (TrackSegment { start, end: end.inverse() }).sort()
    }

    fn sort(self) -> (r: Self)
        ensures
            r == canonical(self.start, self.end),
    {
        let a = self.start;
        let b = self.end;
        let b_first = b.tile.0 < a.tile.0 || (b.tile.0 == a.tile.0 && (b.tile.1 < a.tile.1 || (
        b.tile.1 == a.tile.1 && b.facing.0 < a.facing.0)));
        if b_first {
            TrackSegment { start: b, end: a }
        } else {
            self
        }
    }
}

/// Laying a segment from `a` to `b` gives the same canonical segment as
/// laying it back from `b` to `a`, each end approached from the other side.
pub proof fn lemma_canonical_both_ways(a: TrackPos, b: TrackPos)
    requires
        a.wf(),
    ensures
        canonical(a, b.spec_inverse()) == canonical(b.spec_inverse(), a.spec_inverse().spec_inverse()),
{
    let ai = a.spec_inverse().spec_inverse();
    assert(ai.facing.0 == a.facing.0);
    assert(ai == a);
}

} // verus!
