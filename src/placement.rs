//! Laying track toward a target tile: one call gives the waypoints of at
//! most two segments, straight, an S-bend, or straight then one turn.
use vstd::prelude::*;

use crate::track_types::TrackPos;
use crate::utils::{octant_to_unit, round_div, step_at, step_of, tile_in_range, Octant, TileIndex, TileVec};

verus! {

/// The largest turn radius, in tiles.
pub const MAX_RADIUS: u32 = 1024;

/// A bound on every intermediate vector component.
const BOUND: i128 = 1099511627776;

/// The square of `BOUND`.
const BOUND_SQ: i128 = 1208925819614629174706176;

/// A vector of the plane, with integer components.
pub type Vec2i = (int, int);

pub open spec fn dot(a: Vec2i, b: Vec2i) -> int {
    a.0 * b.0 + a.1 * b.1
}

/// The perp-dot product `a.x * b.y - a.y * b.x`: positive when `b` lies
/// counter-clockwise of `a` (x growing to the east, y to the north).
pub open spec fn cross(a: Vec2i, b: Vec2i) -> int {
    a.0 * b.1 - a.1 * b.0
}

pub open spec fn abs(x: int) -> int {
    if x < 0 {
        -x
    } else {
        x
    }
}

/// `a` turned by 90 degrees counter-clockwise.
pub open spec fn perp(a: Vec2i) -> Vec2i {
    (-a.1, a.0)
}

pub open spec fn vadd(a: Vec2i, b: Vec2i) -> Vec2i {
    (a.0 + b.0, a.1 + b.1)
}

pub open spec fn vsub(a: Vec2i, b: Vec2i) -> Vec2i {
    (a.0 - b.0, a.1 - b.1)
}

pub open spec fn vscale(a: Vec2i, c: int) -> Vec2i {
    (a.0 * c, a.1 * c)
}

/// `k` is `r / sqrt(2)` rounded to the nearest integer (never a tie).
pub open spec fn is_half_diag(r: int, k: int) -> bool {
    &&& 0 <= k
    &&& (k == 0 || (2 * k - 1) * (2 * k - 1) < 2 * (r * r))
    &&& 2 * (r * r) < (2 * k + 1) * (2 * k + 1)
}

/// `r / sqrt(2)`, rounded to the nearest integer.
pub open spec fn half_diag(r: int) -> int {
    choose|k: int| is_half_diag(r, k)
}

/// Which side of the facing the target lies on: `1` clockwise (or
/// straight ahead or behind), `-1` counter-clockwise.
pub open spec fn side_of(t: Vec2i, s: Vec2i) -> int {
    if cross(t, s) >= 0 {
        1
    } else {
        -1
    }
}

/// The tile offset of one turn of radius `r` from facing `f`, toward
/// `side`: the point 45 degrees round the circle whose center lies `r` to
/// that side, rounded to tiles.
pub open spec fn turn_offset(f: Octant, side: int, r: int) -> Vec2i {
    let d = -side;
    let s = step_of(f);
    let s2 = step_at(f.0 + d);
    let k = half_diag(r);
    if f.index() % 2 == 0 {
        vadd(vscale(perp(s), r * d), vscale(s2, k))
    } else {
        vadd(vscale(perp(s), d * k), vscale(s2, r))
    }
}

/// The offset `t` points along the step `s`, within a sine of 1/100.
pub open spec fn is_straight(t: Vec2i, s: Vec2i) -> bool {
    &&& t != (0int, 0int)
    &&& dot(t, s) > 0
    &&& 10000 * (cross(t, s) * cross(t, s)) <= dot(t, t) * dot(s, s)
}

/// The turn offset scaled so that its sideways part matches the target's.
pub open spec fn bend_of(t: Vec2i, s: Vec2i, turn: Vec2i) -> Vec2i {
    let tp = abs(cross(t, s));
    let q = abs(cross(turn, s));
    (round_div(turn.0 * tp, q), round_div(turn.1 * tp, q))
}

/// An S-bend reaches the target: allowed, well defined, not behind the
/// start, and at most twice as far out as one turn.
pub open spec fn bend_fits(t: Vec2i, s: Vec2i, turn: Vec2i, allow_bends: bool) -> bool {
    let b = bend_of(t, s, turn);
    let st = vsub(t, b);
    &&& allow_bends
    &&& cross(turn, s) != 0
    &&& (st == (0int, 0int) || dot(st, s) > 0)
    &&& dot(b, b) <= 4 * dot(turn, turn)
}

/// How far to run straight before the turn, times the length of `s`.
pub open spec fn lead_length(t: Vec2i, s: Vec2i, turn: Vec2i) -> int {
    abs(dot(t, s)) - abs(cross(t, s)) - dot(turn, s) + abs(cross(turn, s))
}

/// The straight run before the turn, rounded to tiles.
pub open spec fn lead_of(t: Vec2i, s: Vec2i, turn: Vec2i) -> Vec2i {
    let l = lead_length(t, s, turn);
    (round_div(s.0 * l, dot(s, s)), round_div(s.1 * l, dot(s, s)))
}

/// The waypoints, as (x, y, facing), of the track laid from `start`
/// facing `f` toward `target` with turn radius `r`.
pub open spec fn placement(start: Vec2i, f: Octant, target: Vec2i, r: int, allow_bends: bool) -> Seq<
    (int, int, Octant),
> {
    let first = (start.0, start.1, f);
    let t = vsub(target, start);
    let s = step_of(f);
    let side = side_of(t, s);
    let turn = turn_offset(f, side, r);
    let turned = Octant(((f.0 + side) % 8) as i8);
    if t == (0int, 0int) {
        seq![first]
    } else if is_straight(t, s) {
        seq![first, (target.0, target.1, f)]
    } else if bend_fits(t, s, turn, allow_bends) {
        let st = vsub(t, bend_of(t, s, turn));
        if st == (0int, 0int) {
            seq![first, (target.0, target.1, f)]
        } else {
            seq![first, (start.0 + st.0, start.1 + st.1, f), (target.0, target.1, f)]
        }
    } else {
        let lt = lead_of(t, s, turn);
        if lt == (0int, 0int) || lead_length(t, s, turn) < 0 || dot(t, s) < 0 {
            seq![first, (start.0 + turn.0, start.1 + turn.1, turned)]
        } else {
            seq![
                first,
                (start.0 + lt.0, start.1 + lt.1, f),
                (start.0 + lt.0 + turn.0, start.1 + lt.1 + turn.1, turned),
            ]
        }
    }
}

pub(crate) proof fn lemma_mul_bound(a: int, b: int, x: int, y: int)
    requires
        0 <= x,
        0 <= y,
        -x <= a <= x,
        -y <= b <= y,
    ensures
        -(x * y) <= a * b <= x * y,
{
    assert(-(x * y) <= a * b <= x * y) by (nonlinear_arith)
        requires
            0 <= x,
            0 <= y,
            -x <= a <= x,
            -y <= b <= y,
    ;
}

proof fn lemma_half_diag_unique(r: int, k: int)
    requires
        is_half_diag(r, k),
    ensures
        half_diag(r) == k,
{
    let j = half_diag(r);
    assert(is_half_diag(r, j));
    if j < k {
        assert((2 * j + 1) * (2 * j + 1) <= (2 * k - 1) * (2 * k - 1)) by (nonlinear_arith)
            requires
                0 <= j,
                j < k,
        ;
    } else if k < j {
        assert((2 * k + 1) * (2 * k + 1) <= (2 * j - 1) * (2 * j - 1)) by (nonlinear_arith)
            requires
                0 <= k,
                k < j,
        ;
    }
}

fn vdot(a: (i128, i128), b: (i128, i128)) -> (r: i128)
    requires
        -BOUND <= a.0 <= BOUND,
        -BOUND <= a.1 <= BOUND,
        -BOUND <= b.0 <= BOUND,
        -BOUND <= b.1 <= BOUND,
    ensures
        r == dot((a.0 as int, a.1 as int), (b.0 as int, b.1 as int)),
{
    proof {
        lemma_mul_bound(a.0 as int, b.0 as int, BOUND as int, BOUND as int);
        lemma_mul_bound(a.1 as int, b.1 as int, BOUND as int, BOUND as int);
    }
    a.0 * b.0 + a.1 * b.1
}

fn vcross(a: (i128, i128), b: (i128, i128)) -> (r: i128)
    requires
        -BOUND <= a.0 <= BOUND,
        -BOUND <= a.1 <= BOUND,
        -BOUND <= b.0 <= BOUND,
        -BOUND <= b.1 <= BOUND,
    ensures
        r == cross((a.0 as int, a.1 as int), (b.0 as int, b.1 as int)),
{
    proof {
        lemma_mul_bound(a.0 as int, b.1 as int, BOUND as int, BOUND as int);
        lemma_mul_bound(a.1 as int, b.0 as int, BOUND as int, BOUND as int);
    }
    a.0 * b.1 - a.1 * b.0
}

fn round_div_exec(a: i128, b: i128) -> (r: i128)
    requires
        0 < b <= BOUND,
        -BOUND_SQ <= a <= BOUND_SQ,
    ensures
        r == round_div(a as int, b as int),
{
    if a >= 0 {
        (2 * a + b) / (2 * b)
    } else {
        let na: i128 = -a;
        let q: i128 = (2 * na + b) / (2 * b);
        -q
    }
}

fn sq(x: i128) -> (r: i128)
    requires
        -BOUND <= x <= BOUND,
    ensures
        r == x * x,
        0 <= r <= BOUND_SQ,
{
    proof {
        lemma_mul_bound(x as int, x as int, BOUND as int, BOUND as int);
        assert(0 <= x * x) by (nonlinear_arith);
    }
    x * x
}

fn half_diag_of(r: i128) -> (k: i128)
    requires
        1 <= r <= MAX_RADIUS,
    ensures
        is_half_diag(r as int, k as int),
        0 <= k <= r,
{
    let rr = 2 * sq(r);
    let mut k: i128 = 0;
    while sq(2 * k + 1) < rr
        invariant
            1 <= r <= MAX_RADIUS,
            rr == 2 * (r * r),
            0 <= k <= r,
            k == 0 || (2 * k - 1) * (2 * k - 1) < 2 * (r * r),
        decreases r - k,
    {
        proof {
            if k >= r {
                assert((2 * r + 1) * (2 * r + 1) <= (2 * k + 1) * (2 * k + 1)) by (nonlinear_arith)
                    requires
                        0 <= r <= k,
                ;
                assert(2 * (r * r) <= (2 * r + 1) * (2 * r + 1)) by (nonlinear_arith)
                    requires
                        0 <= r,
                ;
            }
        }
        k = k + 1;
    }
    proof {
        assert((2 * k + 1) * (2 * k + 1) == 4 * (k * k + k) + 1) by (nonlinear_arith);
    }
    k
}

fn turn_vec(f: Octant, side: i128, r: i128, k: i128) -> (v: (i128, i128))
    requires
        side == 1 || side == -1,
        1 <= r <= MAX_RADIUS,
        0 <= k <= r,
        is_half_diag(r as int, k as int),
    ensures
        (v.0 as int, v.1 as int) == turn_offset(f, side as int, r as int),
        -2 * MAX_RADIUS <= v.0 <= 2 * MAX_RADIUS,
        -2 * MAX_RADIUS <= v.1 <= 2 * MAX_RADIUS,
{
    proof {
        lemma_half_diag_unique(r as int, k as int);
    }
    let d: i128 = -side;
    let su = octant_to_unit(f);
    let s2u = octant_to_unit(f.plus(Octant(d as i8)));
    assert(step_at(((f.0 + d) % 8) as i8 as int) == step_at(f.0 + d));
    let s: (i128, i128) = (su.0 as i128, su.1 as i128);
    let s2: (i128, i128) = (s2u.0 as i128, s2u.1 as i128);
    let p: (i128, i128) = (-s.1, s.0);
    let even = ((f.0 as i16) + 128) % 8 % 2 == 0;
    let (a, b) = if even {
        (if d > 0 {
            r
        } else {
            -r
        }, k)
    } else {
        (if d > 0 {
            k
        } else {
            -k
        }, r)
    };
    assert(even ==> a == r * d && b == k);
    assert(!even ==> a == d * k && b == r);
    proof {
        lemma_mul_bound(p.0 as int, a as int, 1, MAX_RADIUS as int);
        lemma_mul_bound(p.1 as int, a as int, 1, MAX_RADIUS as int);
        lemma_mul_bound(s2.0 as int, b as int, 1, MAX_RADIUS as int);
        lemma_mul_bound(s2.1 as int, b as int, 1, MAX_RADIUS as int);
    }
    (p.0 * a + s2.0 * b, p.1 * a + s2.1 * b)
}

/// The waypoints `v` are those of `w`, with tiles as 32-bit coordinates.
pub open spec fn waypoints_are(v: Seq<(TileVec, Octant)>, w: Seq<(int, int, Octant)>) -> bool {
    &&& v.len() == w.len()
    &&& forall|i: int|
        #![trigger v[i]]
        0 <= i < v.len() ==> v[i].0.0 as int == w[i].0 && v[i].0.1 as int == w[i].1 && v[i].1
            == w[i].2
}

/// Parameters of track laying: the turn radius, in whole tiles.
#[derive(Debug, Clone, Copy, PartialEq, Eq, Structural)]
pub struct TrackParams {
    pub radius: u32,
}

impl TrackParams {
    pub open spec fn wf(self) -> bool {
        1 <= self.radius <= MAX_RADIUS
    }

    /// The tile offset of one turn from `facing` toward the side of `dir`
    /// (`dir >= 0`: clockwise).
    pub fn get_turn(&self, facing: Octant, dir: i64) -> (v: TileVec)
        requires
            self.wf(),
        ensures
            (v.0 as int, v.1 as int) == turn_offset(facing, if dir >= 0 { 1 } else { -1 }, self.radius as int),
    {
        let side: i128 = if dir >= 0 {
            1
        } else {
            -1
        };
        let r = self.radius as i128;
        let k = half_diag_of(r);
        let v = turn_vec(facing, side, r, k);
        (v.0 as i32, v.1 as i32)
    }

    /// The waypoints of track from `start_tile` facing `start_facing`
    /// toward `target_tile`: the start itself, then one or two more, each
    /// pair giving one segment. If the target lies ahead, one straight
    /// segment reaches it. Otherwise, if `allow_bends` and an S-bend of at
    /// most twice a turn reaches it, an optional straight run and the bend
    /// do. Otherwise an optional straight run and one turn of `radius` lead
    /// toward it, the turn ending one octant round toward the target's side.
    /// A target equal to the start gives the start alone.
    pub fn place_vec_tracks(
        &self,
        start_tile: TileVec,
        start_facing: Octant,
        target_tile: TileVec,
        allow_bends: bool,
    ) -> (r: Vec<(TileVec, Octant)>)
        requires
            self.wf(),
            tile_in_range(start_tile),
            tile_in_range(target_tile),
        ensures
            waypoints_are(
                r@,
                placement(
                    (start_tile.0 as int, start_tile.1 as int),
                    start_facing,
                    (target_tile.0 as int, target_tile.1 as int),
                    self.radius as int,
                    allow_bends,
                ),
            ),
    {
        let ghost start = (start_tile.0 as int, start_tile.1 as int);
        let ghost target = (target_tile.0 as int, target_tile.1 as int);
        let ghost spec_r = placement(start, start_facing, target, self.radius as int, allow_bends);
        let mut tracks: Vec<(TileVec, Octant)> = Vec::new();
        tracks.push((start_tile, start_facing));
        if start_tile.0 == target_tile.0 && start_tile.1 == target_tile.1 {
            assert(waypoints_are(tracks@, spec_r));
            return tracks;
        }
        let t: (i128, i128) = (
            target_tile.0 as i128 - start_tile.0 as i128,
            target_tile.1 as i128 - start_tile.1 as i128,
        );
        let su = octant_to_unit(start_facing);
        let s: (i128, i128) = (su.0 as i128, su.1 as i128);
        proof {
            lemma_step_at(start_facing.0 as int);
        }
        let ghost ts = (t.0 as int, t.1 as int);
        let ghost ss = (s.0 as int, s.1 as int);
        assert(ts == vsub(target, start));
        if straight_ahead(t, s) {
            tracks.push((target_tile, start_facing));
            assert(waypoints_are(tracks@, spec_r));
            return tracks;
        }
        let tc = vcross(t, s);
        let side: i128 = if tc >= 0 {
            1
        } else {
            -1
        };
        let r = self.radius as i128;
        let k = half_diag_of(r);
        let turn = turn_vec(start_facing, side, r, k);
        let ghost turn_s = (turn.0 as int, turn.1 as int);
        if allow_bends {
            match bend_vec(t, s, turn) {
                Some(b) => {
                    let st: (i128, i128) = (t.0 - b.0, t.1 - b.1);
                    if st.0 != 0 || st.1 != 0 {
                        let w: TileVec = (
                            (start_tile.0 as i128 + st.0) as i32,
                            (start_tile.1 as i128 + st.1) as i32,
                        );
                        tracks.push((w, start_facing));
                    }
                    tracks.push((target_tile, start_facing));
                    assert(waypoints_are(tracks@, spec_r));
                    return tracks;
                },
                None => {},
            }
        }
        assert(!bend_fits(ts, ss, turn_s, allow_bends));
        let (lt, l, td) = lead_vec(t, s, turn);
        let turned = start_facing.plus(Octant(side as i8));
        if (lt.0 == 0 && lt.1 == 0) || l < 0 || td < 0 {
            let w: TileVec = (
                (start_tile.0 as i128 + turn.0) as i32,
                (start_tile.1 as i128 + turn.1) as i32,
            );
            tracks.push((w, turned));
        } else {
            let w1: TileVec = (
                (start_tile.0 as i128 + lt.0) as i32,
                (start_tile.1 as i128 + lt.1) as i32,
            );
            let w2: TileVec = (
                (start_tile.0 as i128 + lt.0 + turn.0) as i32,
                (start_tile.1 as i128 + lt.1 + turn.1) as i32,
            );
            tracks.push((w1, start_facing));
            tracks.push((w2, turned));
        }
        assert(waypoints_are(tracks@, spec_r));
        tracks
    }
}

/// Without bends, track laid toward a target that is neither the start nor
/// straight ahead ends facing one octant round from the start facing, toward
/// the side the target lies on: clockwise when the target lies clockwise of
/// the facing (or straight behind), counter-clockwise otherwise.
pub proof fn lemma_turn_ends_one_octant_round(start: Vec2i, f: Octant, target: Vec2i, r: int)
    requires
        target != start,
        !is_straight(vsub(target, start), step_of(f)),
    ensures
        ({
            let w = placement(start, f, target, r, false);
            let side = if cross(vsub(target, start), step_of(f)) >= 0 {
                1int
            } else {
                -1int
            };
            &&& w.len() >= 2
            &&& w.last().2.0 == (f.0 + side) % 8
        }),
{
    let t = vsub(target, start);
    assert(t != (0int, 0int));
}

pub(crate) proof fn lemma_step_at(i: int)
    ensures
        -1 <= step_at(i).0 <= 1,
        -1 <= step_at(i).1 <= 1,
        1 <= dot(step_at(i), step_at(i)) <= 2,
{
}

impl TrackParams {
    /// `place_vec_tracks` on tile indices, giving graph nodes.
    pub fn place_tracks(
        &self,
        start_tile: TileIndex,
        start_facing: Octant,
        target_tile: TileIndex,
        allow_bends: bool,
    ) -> (r: Vec<TrackPos>)
        requires
            self.wf(),
            tile_in_range(start_tile),
            tile_in_range(target_tile),
        ensures
            ({
                let w = placement(
                    (start_tile.0 as int, start_tile.1 as int),
                    start_facing,
                    (target_tile.0 as int, target_tile.1 as int),
                    self.radius as int,
                    allow_bends,
                );
                &&& r@.len() == w.len()
                &&& forall|i: int|
                    #![trigger r@[i]]
                    0 <= i < r@.len() ==> r@[i].tile.0 as int == w[i].0 && r@[i].tile.1 as int
                        == w[i].1 && r@[i].facing == w[i].2
            }),
    {
        let tracks = self.place_vec_tracks(start_tile, start_facing, target_tile, allow_bends);
        let mut r: Vec<TrackPos> = Vec::new();
        let mut i: usize = 0;
        while i < tracks.len()
            invariant
                i <= tracks@.len(),
                r@.len() == i,
                forall|j: int|
                    #![trigger r@[j]]
                    0 <= j < i ==> r@[j].tile == tracks@[j].0 && r@[j].facing == tracks@[j].1,
            decreases tracks@.len() - i,
        {
            let (tile, facing) = tracks[i];
            r.push(TrackPos::new(tile, facing));
            i = i + 1;
        }
        r
    }
}

/// A vector `t` between tiles in range, and a grid step `s`.
pub open spec fn offset_and_step(t: (i128, i128), s: (i128, i128)) -> bool {
    &&& -2097152 <= t.0 <= 2097152
    &&& -2097152 <= t.1 <= 2097152
    &&& -1 <= s.0 <= 1
    &&& -1 <= s.1 <= 1
    &&& 1 <= dot((s.0 as int, s.1 as int), (s.0 as int, s.1 as int))
}

/// A turn offset of radius at most `MAX_RADIUS`.
pub open spec fn turn_in_range(turn: (i128, i128)) -> bool {
    -2048 <= turn.0 <= 2048 && -2048 <= turn.1 <= 2048
}

fn straight_ahead(t: (i128, i128), s: (i128, i128)) -> (r: bool)
    requires
        offset_and_step(t, s),
    ensures
        r == is_straight((t.0 as int, t.1 as int), (s.0 as int, s.1 as int)),
{
    let td = vdot(t, s);
    let tc = vcross(t, s);
    let tt = vdot(t, t);
    let s2 = vdot(s, s);
    proof {
        lemma_mul_bound(t.0 as int, s.0 as int, 2097152, 1);
        lemma_mul_bound(t.1 as int, s.1 as int, 2097152, 1);
        lemma_mul_bound(t.0 as int, s.1 as int, 2097152, 1);
        lemma_mul_bound(t.1 as int, s.0 as int, 2097152, 1);
        lemma_mul_bound(t.0 as int, t.0 as int, 2097152, 2097152);
        lemma_mul_bound(t.1 as int, t.1 as int, 2097152, 2097152);
        lemma_mul_bound(tc as int, tc as int, 4194304, 4194304);
        lemma_mul_bound(s.0 as int, s.0 as int, 1, 1);
        lemma_mul_bound(s.1 as int, s.1 as int, 1, 1);
        lemma_mul_bound(tt as int, s2 as int, 8796093022208, 2);
    }
    (t.0 != 0 || t.1 != 0) && td > 0 && 10000 * (tc * tc) <= tt * s2
}

/// The S-bend toward `t`, if one fits (bends being allowed).
fn bend_vec(t: (i128, i128), s: (i128, i128), turn: (i128, i128)) -> (r: Option<(i128, i128)>)
    requires
        offset_and_step(t, s),
        turn_in_range(turn),
    ensures
        ({
            let ts = (t.0 as int, t.1 as int);
            let ss = (s.0 as int, s.1 as int);
            let turn_s = (turn.0 as int, turn.1 as int);
            match r {
                Some(b) => bend_fits(ts, ss, turn_s, true) && (b.0 as int, b.1 as int) == bend_of(ts, ss, turn_s)
                    && -8192 <= b.0 <= 8192 && -8192 <= b.1 <= 8192,
                None => !bend_fits(ts, ss, turn_s, true),
            }
        }),
{
    proof {
        lemma_mul_bound(t.0 as int, s.1 as int, 2097152, 1);
        lemma_mul_bound(t.1 as int, s.0 as int, 2097152, 1);
        lemma_mul_bound(turn.0 as int, s.1 as int, 2048, 1);
        lemma_mul_bound(turn.1 as int, s.0 as int, 2048, 1);
        lemma_mul_bound(turn.0 as int, turn.0 as int, 2048, 2048);
        lemma_mul_bound(turn.1 as int, turn.1 as int, 2048, 2048);
    }
    let tc = vcross(t, s);
    let tp: i128 = if tc < 0 {
        -tc
    } else {
        tc
    };
    let qc = vcross(turn, s);
    let q: i128 = if qc < 0 {
        -qc
    } else {
        qc
    };
    if q == 0 {
        return None;
    }
    proof {
        lemma_mul_bound(turn.0 as int, tp as int, 2048, 4194304);
        lemma_mul_bound(turn.1 as int, tp as int, 2048, 4194304);
    }
    let b: (i128, i128) = (round_div_exec(turn.0 * tp, q), round_div_exec(turn.1 * tp, q));
    proof {
        lemma_round_div_bound(turn.0 * tp, q as int, 8589934592);
        lemma_round_div_bound(turn.1 * tp, q as int, 8589934592);
    }
    let st: (i128, i128) = (t.0 - b.0, t.1 - b.1);
    let turn_sq = vdot(turn, turn);
    let st_zero = st.0 == 0 && st.1 == 0;
    if !st_zero {
        proof {
            lemma_mul_bound(st.0 as int, s.0 as int, 10737418240, 1);
            lemma_mul_bound(st.1 as int, s.1 as int, 10737418240, 1);
        }
        if vdot(st, s) <= 0 {
            return None;
        }
    }
    if vdot(b, b) <= 4 * turn_sq {
        proof {
            assert(0 <= b.0 * b.0) by (nonlinear_arith);
            assert(0 <= b.1 * b.1) by (nonlinear_arith);
            assert(b.0 * b.0 <= 4 * turn_sq && b.1 * b.1 <= 4 * turn_sq) by (nonlinear_arith)
                requires
                    b.0 * b.0 + b.1 * b.1 <= 4 * turn_sq,
                    0 <= b.0 * b.0,
                    0 <= b.1 * b.1,
            ;
            assert(-8192 <= b.0 <= 8192 && -8192 <= b.1 <= 8192) by (nonlinear_arith)
                requires
                    b.0 * b.0 <= 4 * turn_sq,
                    b.1 * b.1 <= 4 * turn_sq,
                    turn_sq <= 8388608,
            ;
        }
        Some(b)
    } else {
        None
    }
}

proof fn lemma_round_div_bound(a: int, b: int, m: int)
    requires
        1 <= b,
        -m <= a <= m,
    ensures
        -m - 1 <= round_div(a, b) <= m + 1,
{
    if a >= 0 {
        assert((2 * a + b) / (2 * b) <= m + 1) by (nonlinear_arith)
            requires
                1 <= b,
                0 <= a <= m,
        ;
        assert((2 * a + b) / (2 * b) >= 0) by (nonlinear_arith)
            requires
                1 <= b,
                0 <= a,
        ;
    } else {
        assert((-2 * a + b) / (2 * b) <= m + 1) by (nonlinear_arith)
            requires
                1 <= b,
                0 <= -a <= m,
        ;
        assert((-2 * a + b) / (2 * b) >= 0) by (nonlinear_arith)
            requires
                1 <= b,
                0 <= -a,
        ;
    }
}

/// The straight run before a turn toward `t`, its length times that of
/// `s`, and how far `t` lies ahead along `s`.
fn lead_vec(t: (i128, i128), s: (i128, i128), turn: (i128, i128)) -> (r: ((i128, i128), i128, i128))
    requires
        offset_and_step(t, s),
        turn_in_range(turn),
    ensures
        ({
            let ts = (t.0 as int, t.1 as int);
            let ss = (s.0 as int, s.1 as int);
            let turn_s = (turn.0 as int, turn.1 as int);
            &&& (r.0.0 as int, r.0.1 as int) == lead_of(ts, ss, turn_s)
            &&& r.1 as int == lead_length(ts, ss, turn_s)
            &&& r.2 as int == dot(ts, ss)
            &&& -16777217 <= r.0.0 <= 16777217
            &&& -16777217 <= r.0.1 <= 16777217
        }),
{
    proof {
        lemma_mul_bound(t.0 as int, s.0 as int, 2097152, 1);
        lemma_mul_bound(t.1 as int, s.1 as int, 2097152, 1);
        lemma_mul_bound(t.0 as int, s.1 as int, 2097152, 1);
        lemma_mul_bound(t.1 as int, s.0 as int, 2097152, 1);
        lemma_mul_bound(turn.0 as int, s.1 as int, 2048, 1);
        lemma_mul_bound(turn.1 as int, s.0 as int, 2048, 1);
        lemma_mul_bound(turn.0 as int, s.0 as int, 2048, 1);
        lemma_mul_bound(turn.1 as int, s.1 as int, 2048, 1);
        lemma_mul_bound(s.0 as int, s.0 as int, 1, 1);
        lemma_mul_bound(s.1 as int, s.1 as int, 1, 1);
    }
    let td = vdot(t, s);
    let tc = vcross(t, s);
    let qc = vcross(turn, s);
    let turn_dot = vdot(turn, s);
    let s2 = vdot(s, s);
    let abs_td: i128 = if td < 0 {
        -td
    } else {
        td
    };
    let tp: i128 = if tc < 0 {
        -tc
    } else {
        tc
    };
    let q: i128 = if qc < 0 {
        -qc
    } else {
        qc
    };
    let l: i128 = abs_td - tp - turn_dot + q;
    proof {
        lemma_mul_bound(s.0 as int, l as int, 1, 16777216);
        lemma_mul_bound(s.1 as int, l as int, 1, 16777216);
        lemma_round_div_bound(s.0 * l, s2 as int, 16777216);
        lemma_round_div_bound(s.1 * l, s2 as int, 16777216);
    }
    let lt: (i128, i128) = (round_div_exec(s.0 * l, s2), round_div_exec(s.1 * l, s2));
    (lt, l, td)
}

} // verus!
