//! The interactive track laying tool, frame by frame: pick a start tile,
//! pick a facing among the open directions there, then lay segments toward
//! the tile under the cursor, one per click.
use vstd::prelude::*;

use crate::placement::{placement, TrackParams};
use crate::track_graph::Network;
use crate::track_types::{canonical, TrackPos, TrackSegment};
use crate::train::{closer, cos_key};
use crate::utils::{
    octant_to_unit, pos_to_tile, step_at, tile_coord_of, tile_in_range, tile_to_center,
    world_in_range, Octant, TileIndex, WorldPos, TILE_SIZE,
};

verus! {

/// Where the tool stands: no start yet; a start tile and the facings it
/// offers; or a start tile and a chosen facing.
#[derive(Debug, Clone, Copy, PartialEq, Eq)]
pub struct PlacementState {
    pub start: Option<TileIndex>,
    pub facing_options: [bool; 8],
    pub facing: Option<Octant>,
}

/// The input of one frame: the cursor in world units (if over the world),
/// the buttons pressed this frame, and whether shift is held.
#[derive(Debug, Clone, Copy)]
pub struct ToolInput {
    pub mouse: Option<WorldPos>,
    pub left_click: bool,
    pub right_click: bool,
    pub shift: bool,
}

/// What one frame of the tool shows and does: the segments to preview, the
/// facing to highlight while a facing is being picked, and the segment to
/// lay now, if any.
#[derive(Debug, PartialEq, Eq)]
pub struct ToolOutput {
    pub preview: Vec<TrackSegment>,
    pub highlighted: Option<usize>,
    pub place: Option<TrackSegment>,
}

/// The segments between consecutive waypoints.
pub open spec fn segments_of(w: Seq<TrackPos>) -> Seq<TrackSegment> {
    Seq::new(
        if w.len() == 0 {
            0
        } else {
            (w.len() - 1) as nat
        },
        |i: int| canonical(w[i], w[i + 1].spec_inverse()),
    )
}

/// The waypoints of the placement rules as graph nodes.
pub open spec fn placement_nodes(params: TrackParams, start: TileIndex, facing: Octant, target: TileIndex, bends: bool) -> Seq<TrackPos> {
    let w = placement(
        (start.0 as int, start.1 as int),
        facing,
        (target.0 as int, target.1 as int),
        params.radius as int,
        bends,
    );
    Seq::new(w.len(), |i: int| TrackPos { tile: (w[i].0 as i32, w[i].1 as i32), facing: w[i].2 })
}

/// `best` is the first offered facing whose direction makes the smallest
/// angle with `m`, or 0 when none is offered.
pub open spec fn is_best_facing(options: Seq<bool>, m: (int, int), best: int) -> bool {
    &&& 0 <= best < 8
    &&& (forall|j: int| 0 <= j < 8 ==> !options[j]) ==> best == 0
    &&& (exists|j: int| 0 <= j < 8 && options[j]) ==> {
        &&& options[best]
        &&& forall|j: int|
            0 <= j < 8 && options[j] ==> !closer(#[trigger] step_at(j), step_at(best), m)
        &&& forall|j: int|
            0 <= j < best && options[j] ==> closer(step_at(best), #[trigger] step_at(j), m)
    }
}

/// The tile under the cursor, when it lies within the bounds of the
/// geometry.
pub open spec fn cursor_tile(mouse: Option<WorldPos>) -> Option<TileIndex> {
    match mouse {
        Some(p) => if world_in_range(p.0 as int) && world_in_range(p.1 as int) && tile_in_range(
            (tile_coord_of(p.0 as int) as i32, tile_coord_of(p.1 as int) as i32),
        ) {
            Some((tile_coord_of(p.0 as int) as i32, tile_coord_of(p.1 as int) as i32))
        } else {
            None
        },
        None => None,
    }
}

impl PlacementState {
    /// A facing is only chosen after a start, and the start lies within the
    /// bounds of the geometry.
    pub open spec fn wf(&self) -> bool {
        &&& self.start is None ==> self.facing is None
        &&& self.start matches Some(s) ==> tile_in_range(s)
    }

    /// The tool with nothing picked.
    pub fn new() -> (r: Self)
        ensures
            r.wf(),
            r.start is None,
            r.facing is None,
            r.facing_options@ == Seq::new(8, |i: int| false),
    {
        let none: [bool; 8] = [false, false, false, false, false, false, false, false];
        assert(none@ =~= Seq::new(8, |i: int| false));
        PlacementState { start: None, facing_options: none, facing: None }
    }
}

fn cursor_tile_of(mouse: Option<WorldPos>) -> (r: Option<TileIndex>)
    ensures
        r == cursor_tile(mouse),
{
    match mouse {
        Some(p) => {
            if -1048576 * TILE_SIZE <= p.0 && p.0 <= 1048576 * TILE_SIZE && -1048576 * TILE_SIZE <= p.1
                && p.1 <= 1048576 * TILE_SIZE {
                let t = pos_to_tile(p);
                if -1048576 <= t.0 && t.0 <= 1048576 && -1048576 <= t.1 && t.1 <= 1048576 {
                    Some(t)
                } else {
                    None
                }
            } else {
                None
            }
        },
        None => None,
    }
}

proof fn lemma_step_norm(i: int)
    ensures
        crate::placement::dot(step_at(i), step_at(i)) == (if step_at(i).0 != 0 && step_at(i).1 != 0 {
            2int
        } else {
            1int
        }),
{
}

/// The offered facing nearest in angle to the cursor offset `m`.
fn best_facing(options: &[bool; 8], m: (i64, i64)) -> (best: usize)
    requires
        -134217728 <= m.0 <= 134217728,
        -134217728 <= m.1 <= 134217728,
    ensures
        is_best_facing(options@, (m.0 as int, m.1 as int), best as int),
{
    let ghost mm = (m.0 as int, m.1 as int);
    let mut best: usize = 0;
    let mut found = false;
    let mut best_k: i128 = 0;
    let mut best_n: i128 = 1;
    let mut i: usize = 0;
    while i < 8
        invariant
            mm == (m.0 as int, m.1 as int),
            -134217728 <= m.0 <= 134217728,
            -134217728 <= m.1 <= 134217728,
            0 <= i <= 8,
            best < 8,
            found ==> best < i && options@[best as int],
            !found ==> best == 0 && forall|j: int| 0 <= j < i ==> !options@[j],
            found ==> best_k == cos_key(step_at(best as int), mm) && best_n == crate::placement::dot(
                step_at(best as int),
                step_at(best as int),
            ),
            -72057594037927936 <= best_k <= 72057594037927936,
            1 <= best_n <= 2,
            found ==> forall|j: int|
                0 <= j < i && options@[j] ==> !closer(#[trigger] step_at(j), step_at(best as int), mm),
            found ==> forall|j: int|
                0 <= j < best && options@[j] ==> closer(step_at(best as int), #[trigger] step_at(j), mm),
        decreases 8 - i,
    {
        if options[i] {
            let su = octant_to_unit(Octant(i as i8));
            let s: (i64, i64) = (su.0 as i64, su.1 as i64);
            assert((s.0 as int, s.1 as int) == step_at(i as int));
            proof {
                crate::placement::lemma_step_at(i as int);
                assert(-134217728 <= s.0 * m.0 <= 134217728) by (nonlinear_arith)
                    requires
                        -134217728 <= m.0 <= 134217728,
                        -1 <= s.0 <= 1,
                ;
                assert(-134217728 <= s.1 * m.1 <= 134217728) by (nonlinear_arith)
                    requires
                        -134217728 <= m.1 <= 134217728,
                        -1 <= s.1 <= 1,
                ;
            }
            let d: i128 = (s.0 * m.0 + s.1 * m.1) as i128;
            proof {
                assert(0 <= d * d <= 72057594037927936) by (nonlinear_arith)
                    requires
                        -268435456 <= d <= 268435456,
                ;
            }
            let ghost v = step_at(i as int);
            assert(v.0 == s.0 && v.1 == s.1);
            assert(mm.0 == m.0 && mm.1 == m.1);
            assert(d == v.0 * mm.0 + v.1 * mm.1);
            assert(d == crate::placement::dot(step_at(i as int), mm));
            let k: i128 = if d >= 0 {
                d * d
            } else {
                -(d * d)
            };
            let n: i128 = if s.0 != 0 && s.1 != 0 {
                2
            } else {
                1
            };
            proof {
                lemma_step_norm(i as int);
            }
            assert(k == cos_key(step_at(i as int), mm));
            assert(n == crate::placement::dot(step_at(i as int), step_at(i as int)));
            if !found {
                best = i;
                best_k = k;
                best_n = n;
                found = true;
            } else if {
                proof {
                    crate::placement::lemma_mul_bound(k as int, best_n as int, 72057594037927936, 2);
                    crate::placement::lemma_mul_bound(best_k as int, n as int, 72057594037927936, 2);
                }
                k * best_n > best_k * n
            } {
                let ghost vi = step_at(i as int);
                let ghost vb = step_at(best as int);
                assert(closer(vi, vb, mm));
                proof {
                    assert forall|j: int| 0 <= j < i + 1 && options@[j] implies !closer(
                        #[trigger] step_at(j),
                        vi,
                        mm,
                    ) by {
                        if j < i && closer(step_at(j), vi, mm) {
                            crate::train::lemma_closer_transitive(step_at(j), vi, vb, mm);
                        }
                    }
                    assert forall|j: int| 0 <= j < i && options@[j] implies closer(
                        vi,
                        #[trigger] step_at(j),
                        mm,
                    ) by {
                        let vj = step_at(j);
                        if j < best {
                            crate::train::lemma_closer_transitive(vi, vb, vj, mm);
                        } else if j == best {
                        } else {
                            crate::train::lemma_closer_total(vi, vb, vj, mm);
                        }
                    }
                }
                best = i;
                best_k = k;
                best_n = n;
            } else {
                assert(!closer(step_at(i as int), step_at(best as int), mm));
            }
        }
        i = i + 1;
    }
    best
}

/// The state after a right click clears the picks, if there was one.
pub open spec fn after_cancel(s: PlacementState, right_click: bool) -> PlacementState {
    if right_click {
        PlacementState { start: None, facing: None, ..s }
    } else {
        s
    }
}

/// The facings offered at a new start: all of them with shift held or where
/// no track ends at the tile, else those of the track ends there.
pub open spec fn offered_facings(network: Network, tile: TileIndex, shift: bool) -> Seq<bool> {
    let conns = Seq::new(8, |i: int| network.node_set().contains((tile.0, tile.1, i as i8)));
    if shift || (forall|i: int| 0 <= i < 8 ==> !conns[i]) {
        Seq::new(8, |i: int| true)
    } else {
        conns
    }
}

/// The cursor offset from the center of tile `t`.
pub open spec fn cursor_offset(p: WorldPos, t: TileIndex) -> (int, int) {
    (p.0 - (t.0 * TILE_SIZE + TILE_SIZE / 2), p.1 - (t.1 * TILE_SIZE + TILE_SIZE / 2))
}

/// One frame of the track laying tool. With the cursor off the world (or
/// beyond the bounds of the geometry) nothing happens. Otherwise a right
/// click first clears the picks; then, with no start, a left click picks
/// the tile under the cursor as start; with a start and no facing, the
/// offered facing nearest the cursor is highlighted and a left click picks
/// it; with both, the track toward the cursor is previewed and a left click
/// lays its first segment and moves the start to that segment's far end.
pub fn track_placement_tool(
    state: &mut PlacementState,
    network: &Network,
    params: &TrackParams,
    input: ToolInput,
) -> (out: ToolOutput)
    requires
        old(state).wf(),
        params.wf(),
    ensures
        final(state).wf(),
        cursor_tile(input.mouse) is None ==> {
            &&& *final(state) == *old(state)
            &&& out.preview@.len() == 0
            &&& out.highlighted is None
            &&& out.place is None
        },
        cursor_tile(input.mouse) matches Some(tile) ==> {
            let s0 = after_cancel(*old(state), input.right_click);
            match s0.start {
                None => {
                    &&& out.preview@.len() == 0
                    &&& out.highlighted is None
                    &&& out.place is None
                    &&& if input.left_click {
                        &&& final(state).start == Some(tile)
                        &&& final(state).facing is None
                        &&& final(state).facing_options@ == offered_facings(*network, tile, input.shift)
                    } else {
                        *final(state) == s0
                    }
                },
                Some(st) => match s0.facing {
                    None => {
                        &&& out.preview@.len() == 0
                        &&& out.place is None
                        &&& out.highlighted matches Some(best) && is_best_facing(
                            s0.facing_options@,
                            cursor_offset(input.mouse->0, st),
                            best as int,
                        ) && if input.left_click {
                            *final(state) == (PlacementState {
                                facing: Some(Octant(best as i8)),
                                ..s0
                            })
                        } else {
                            *final(state) == s0
                        }
                    },
                    Some(f) => {
                        let w = placement_nodes(*params, st, f, tile, input.shift);
                        let segs = segments_of(w);
                        &&& out.highlighted is None
                        &&& out.preview@ == segs
                        &&& if input.left_click && w.len() >= 2 && tile_in_range(w[1].tile) {
                            &&& out.place == Some(segs[0])
                            &&& *final(state) == (PlacementState {
                                start: Some(w[1].tile),
                                facing: Some(w[1].facing),
                                ..s0
                            })
                        } else {
                            &&& out.place is None
                            &&& *final(state) == s0
                        }
                    },
                },
            }
        },
{
    let tile = match cursor_tile_of(input.mouse) {
        Some(t) => t,
        None => {
            return ToolOutput { preview: Vec::new(), highlighted: None, place: None };
        },
    };
    if input.right_click {
        state.start = None;
        state.facing = None;
    }
    match state.start {
        None => {
            if input.left_click {
                state.start = Some(tile);
                let ghost conns_s = Seq::new(
                    8,
                    |i: int| network.node_set().contains((tile.0, tile.1, i as i8)),
                );
                let all: [bool; 8] = [true, true, true, true, true, true, true, true];
                assert(all@ =~= Seq::new(8, |i: int| true));
                if input.shift {
                    state.facing_options = all;
                } else {
                    let conns = network.get_connections(tile);
                    assert(conns@ =~= conns_s);
                    if !conns[0] && !conns[1] && !conns[2] && !conns[3] && !conns[4] && !conns[5]
                        && !conns[6] && !conns[7] {
                        assert forall|i: int| 0 <= i < 8 implies !conns_s[i] by {
                            assert(!conns@[i]);
                        }
                        state.facing_options = all;
                    } else {
                        state.facing_options = conns;
                    }
                }
                assert(state.facing_options@ =~= offered_facings(*network, tile, input.shift));
            }
            ToolOutput { preview: Vec::new(), highlighted: None, place: None }
        },
        Some(st) => match state.facing {
            None => {
                let p = match input.mouse {
                    Some(p) => p,
                    None => {
                        return ToolOutput { preview: Vec::new(), highlighted: None, place: None };
                    },
                };
                let c = tile_to_center(st);
                let m: (i64, i64) = (p.0 - c.0, p.1 - c.1);
                let best = best_facing(&state.facing_options, m);
                if input.left_click {
                    state.facing = Some(Octant(best as i8));
                }
                ToolOutput { preview: Vec::new(), highlighted: Some(best), place: None }
            },
            Some(f) => {
                let tracks = params.place_tracks(st, f, tile, input.shift);
                let ghost w = placement_nodes(*params, st, f, tile, input.shift);
                assert(tracks@ =~= w);
                let mut preview: Vec<TrackSegment> = Vec::new();
                let mut i: usize = 0;
                while i < tracks.len() && i + 1 < tracks.len()
                    invariant
                        tracks@ == w,
                        0 <= i <= if tracks@.len() == 0 {
                            0
                        } else {
                            tracks@.len() - 1
                        },
                        preview@ =~= segments_of(w).subrange(0, i as int),
                    decreases tracks@.len() - i,
                {
                    preview.push(TrackSegment::from_directed(tracks[i], tracks[i + 1]));
                    i = i + 1;
                }
                assert(preview@ =~= segments_of(w));
                if input.left_click && tracks.len() >= 2 {
                    let next = tracks[1];
                    if -1048576 <= next.tile.0 && next.tile.0 <= 1048576 && -1048576 <= next.tile.1
                        && next.tile.1 <= 1048576 {
                        state.start = Some(next.tile);
                        state.facing = Some(next.facing);
                        let first = preview[0];
                        return ToolOutput { preview, highlighted: None, place: Some(first) };
                    }
                }
                ToolOutput { preview, highlighted: None, place: None }
            },
        },
    }
}

/// Leaving the tool drops its picks.
pub fn cleanup_track_placement(state: &mut PlacementState)
    ensures
        final(state).wf(),
        final(state).start is None,
        final(state).facing is None,
        final(state).facing_options == old(state).facing_options,
{
    state.facing = None;
    state.start = None;
}

} // verus!
