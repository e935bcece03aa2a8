//! Trains moving along the network: a curve parameter in fixed point that
//! advances with speed and time, crossing to a next segment at junctions.
use vstd::prelude::*;

use rand::rngs::StdRng;

use crate::placement::{cross, dot};
use crate::random::random_index;
use crate::track_graph::{end_of, Network, TrackData, TrackDirection, TrackEdge, TrackID};
use crate::track_types::TrackPos;
use crate::utils::{octant_to_unit, step_at, tile_in_range, Octant};

verus! {

/// The curve parameter 1.0, in fixed point.
pub const SAMPLE_ONE: u64 = 1000000;

/// Length units per world unit.
pub const LENGTH_PER_WORLD_UNIT: u64 = 1000;

/// The largest speed either way, in length units per second.
pub const MAX_SPEED: i64 = 300000;

/// The acceleration of a train, in length units per second squared.
pub const TRAIN_ACC: i64 = 200000;

/// Microseconds per second.
pub const MICROS: u64 = 1000000;

/// A train: the traversal it is on, how far along it (`0..=SAMPLE_ONE`,
/// counted from the end it left), and its speed in length units per second.
#[derive(Debug, Clone, Copy, PartialEq, Eq, Structural)]
pub struct Train {
    pub track_edge: TrackEdge,
    pub sample: u64,
    pub speed: i64,
}

/// The parameter after moving `amount` length units along a segment of
/// `length`, from `sample`: clamped at the far end; a segment of length 0
/// is crossed at once.
pub open spec fn advanced(sample: int, length: int, amount: int) -> int {
    if length == 0 {
        SAMPLE_ONE as int
    } else if sample + amount * SAMPLE_ONE / length >= SAMPLE_ONE {
        SAMPLE_ONE as int
    } else {
        sample + amount * SAMPLE_ONE / length
    }
}

/// The length units used to move the parameter from `from` to `to` on a
/// segment of `length`, rounded up.
pub open spec fn consumed(from: int, to: int, length: int) -> int {
    ((to - from) * length + SAMPLE_ONE - 1) / SAMPLE_ONE as int
}

/// The distance covered at `speed` over `dt` microseconds; none when the
/// speed is not positive.
pub open spec fn budget_of(speed: int, dt: int) -> int {
    if speed > 0 {
        speed * dt / MICROS as int
    } else {
        0
    }
}

impl Train {
    pub open spec fn wf(self) -> bool {
        self.sample <= SAMPLE_ONE && -MAX_SPEED <= self.speed <= MAX_SPEED
    }

    /// A train standing on `track`, forward, at parameter `sample`.
    pub fn new(track: TrackID, sample: u64) -> (r: Train)
        requires
            sample <= SAMPLE_ONE,
        ensures
            r.wf(),
            r == (Train { track_edge: TrackEdge { track, direction: TrackDirection::POS }, sample, speed: 0 }),
    {
        Train { track_edge: TrackEdge::pos(track), sample, speed: 0 }
    }

    pub fn direction(&self) -> (r: TrackDirection)
        ensures
            r == self.track_edge.direction,
    {
        self.track_edge.direction
    }

    /// Turns the train round where it stands: the other direction, the
    /// parameter counted from the other end, and the speed negated.
    pub fn flip(&mut self)
        requires
            old(self).wf(),
        ensures
            final(self).wf(),
            final(self).sample == SAMPLE_ONE - old(self).sample,
            final(self).track_edge.track == old(self).track_edge.track,
            final(self).track_edge.direction == old(self).track_edge.direction.spec_inverse(),
            final(self).speed == -old(self).speed,
    {
        self.sample = SAMPLE_ONE - self.sample;
        self.track_edge.direction = self.track_edge.direction.inverse();
        self.speed = -self.speed;
    }

    /// The parameter on the stored curve, which runs from the segment's
    /// start to its end.
    pub fn curve_param(&self) -> (r: u64)
        requires
            self.wf(),
        ensures
            r == (if self.track_edge.direction is POS {
                self.sample as int
            } else {
                SAMPLE_ONE - self.sample
            }),
    {
        if self.direction().is_pos() {
            self.sample
        } else {
            SAMPLE_ONE - self.sample
        }
    }
}

proof fn lemma_consumed_within(from: int, scaled: int, length: int, amount: int)
    requires
        0 <= from,
        0 <= scaled,
        0 < length,
        0 <= amount,
        scaled <= amount * SAMPLE_ONE / length,
    ensures
        consumed(from, from + scaled, length) <= amount,
        0 <= consumed(from, from + scaled, length),
{
    let o = SAMPLE_ONE as int;
    assert(scaled * length <= amount * o) by (nonlinear_arith)
        requires
            0 < length,
            0 <= scaled <= amount * o / length,
            0 < o,
    ;
    assert((scaled * length + o - 1) / o <= amount) by (nonlinear_arith)
        requires
            scaled * length <= amount * o,
            0 < o,
            0 <= scaled * length,
    ;
    assert(0 <= scaled * length) by (nonlinear_arith)
        requires
            0 <= scaled,
            0 < length,
    ;
    assert(0 <= (scaled * length + o - 1) / o) by (nonlinear_arith)
        requires
            0 <= scaled * length,
            0 < o,
    ;
}

/// Moves `train` along `track` by up to `amount` length units; returns the
/// length units used, which is at most `amount`.
pub fn move_along(track: &TrackData, train: &mut Train, amount: u64) -> (delta: u64)
    requires
        old(train).wf(),
    ensures
        final(train).wf(),
        final(train).sample == advanced(old(train).sample as int, track.length as int, amount as int),
        final(train).track_edge == old(train).track_edge,
        final(train).speed == old(train).speed,
        delta == consumed(old(train).sample as int, final(train).sample as int, track.length as int),
        delta <= amount,
{
    if track.length == 0 {
        let from = train.sample;
        train.sample = SAMPLE_ONE;
        assert(consumed(from as int, SAMPLE_ONE as int, 0) == 0) by (nonlinear_arith)
            requires
                from <= SAMPLE_ONE,
        ;
        return 0;
    }
    let from = train.sample;
    proof {
        assert(amount as int * SAMPLE_ONE <= u64::MAX as int * SAMPLE_ONE) by (nonlinear_arith)
            requires
                amount <= u64::MAX,
        ;
    }
    let scaled: u128 = (amount as u128) * (SAMPLE_ONE as u128) / (track.length as u128);
    let to: u64 = if (from as u128) + scaled >= SAMPLE_ONE as u128 {
        SAMPLE_ONE
    } else {
        (from as u128 + scaled) as u64
    };
    proof {
        lemma_consumed_within(from as int, to - from, track.length as int, amount as int);
        assert((to - from) * track.length <= SAMPLE_ONE * u64::MAX) by (nonlinear_arith)
            requires
                0 <= to - from <= SAMPLE_ONE,
                track.length <= u64::MAX,
        ;
    }
    train.sample = to;
    let used: u128 = ((to - from) as u128 * track.length as u128 + SAMPLE_ONE as u128 - 1) / SAMPLE_ONE as u128;
    used as u64
}

/// The exits handed to a choice of the next segment: at least one, each
/// on a segment within the bounds of the geometry.
pub open spec fn exits_in_range(arrival: TrackPos, exits: Seq<(TrackEdge, TrackData)>) -> bool {
    &&& exits.len() > 0
    &&& tile_in_range(arrival.tile)
    &&& forall|i: int| 0 <= i < exits.len() ==> #[trigger] exits[i].1.segment.in_range()
}

/// A policy that picks the next segment at a junction.
pub trait ExitChooser {
    /// What the policy, in its present state, may pick: index `i` among
    /// the exits `exits` from the node `arrival`.
    spec fn picks(&self, arrival: TrackPos, exits: Seq<(TrackEdge, TrackData)>, i: int) -> bool;

    /// The index of the exit to take, among the exits from the node
    /// `arrival`.
    fn pick_exit(&mut self, arrival: &TrackPos, exits: &Vec<(TrackEdge, TrackData)>) -> (i: usize)
        requires
            exits_in_range(*arrival, exits@),
        ensures
            i < exits@.len(),
            old(self).picks(*arrival, exits@, i as int),
    ;
}

/// Autonomous trains take an exit uniformly at random; no one draw is
/// promised.
impl ExitChooser for StdRng {
    open spec fn picks(&self, arrival: TrackPos, exits: Seq<(TrackEdge, TrackData)>, i: int) -> bool {
        true
    }

    fn pick_exit(&mut self, arrival: &TrackPos, exits: &Vec<(TrackEdge, TrackData)>) -> (i: usize) {
        random_index(self, exits.len())
    }
}

/// Steering of a hand-driven train: the keys held for left and right, and
/// whether it is driving in reverse.
#[derive(Debug, Clone, Copy, PartialEq, Eq, Structural)]
pub struct Steering {
    pub left: bool,
    pub right: bool,
    pub reversed: bool,
}

/// The octant a hand-driven train aims at when it arrives at `arrival`:
/// straight on, or one octant toward the side held (both sides held cancel);
/// in reverse the sides are mirrored.
pub open spec fn steer_facing(arrival: TrackPos, steering: Steering) -> int {
    let f0 = (arrival.facing.0 + 4) % 8;
    let turn = (if steering.right {
        1int
    } else {
        0int
    }) - (if steering.left {
        1int
    } else {
        0int
    });
    let turn = if steering.reversed {
        -turn
    } else {
        turn
    };
    (f0 + turn + 8) % 8
}

/// `i` is the exit a hand-driven train takes: the first of those whose far
/// end lies at the smallest angle from the aimed-at octant.
pub open spec fn steers_to(
    steering: Steering,
    arrival: TrackPos,
    exits: Seq<(TrackEdge, TrackData)>,
    i: int,
) -> bool {
    &&& 0 <= i < exits.len()
    &&& forall|j: int|
        0 <= j < exits.len() ==> !closer(
            #[trigger] exit_vec(arrival, exits[j]),
            exit_vec(arrival, exits[i]),
            step_at(steer_facing(arrival, steering)),
        )
    &&& forall|j: int|
        0 <= j < i ==> closer(
            exit_vec(arrival, exits[i]),
            #[trigger] exit_vec(arrival, exits[j]),
            step_at(steer_facing(arrival, steering)),
        )
}

/// From the junction to the far end of an exit.
pub open spec fn exit_vec(arrival: TrackPos, exit: (TrackEdge, TrackData)) -> (int, int) {
    let far = end_of(exit.1.segment, exit.0.direction).tile;
    (far.0 - arrival.tile.0, far.1 - arrival.tile.1)
}

/// The squared numerator of the cosine between `v` and `s`, with its sign.
pub open spec fn cos_key(v: (int, int), s: (int, int)) -> int {
    let d = dot(v, s);
    if d >= 0 {
        d * d
    } else {
        -(d * d)
    }
}

/// `v1` makes a strictly smaller angle with `s` than `v2` does; a zero
/// vector makes the largest.
pub open spec fn closer(v1: (int, int), v2: (int, int), s: (int, int)) -> bool {
    &&& dot(v1, v1) > 0
    &&& (dot(v2, v2) == 0 || cos_key(v1, s) * dot(v2, v2) > cos_key(v2, s) * dot(v1, v1))
}

proof fn lemma_norm_nonneg(v: (int, int))
    ensures
        dot(v, v) >= 0,
{
    assert(v.0 * v.0 + v.1 * v.1 >= 0) by (nonlinear_arith);
}

pub(crate) proof fn lemma_closer_transitive(a: (int, int), b: (int, int), c: (int, int), s: (int, int))
    requires
        closer(a, b, s),
        closer(b, c, s),
    ensures
        closer(a, c, s),
{
    lemma_norm_nonneg(c);
    let na = dot(a, a);
    let nb = dot(b, b);
    let nc = dot(c, c);
    let ka = cos_key(a, s);
    let kb = cos_key(b, s);
    let kc = cos_key(c, s);
    if nc != 0 {
        assert(ka * nc > kc * na) by (nonlinear_arith)
            requires
                na > 0,
                nb > 0,
                nc > 0,
                ka * nb > kb * na,
                kb * nc > kc * nb,
        ;
    }
}

fn exit_key(arrival: &TrackPos, exit: &(TrackEdge, TrackData), s: (i64, i64)) -> (r: (i128, i128))
    requires
        tile_in_range(arrival.tile),
        exit.1.segment.in_range(),
        -1 <= s.0 <= 1,
        -1 <= s.1 <= 1,
    ensures
        r.0 == cos_key(exit_vec(*arrival, *exit), (s.0 as int, s.1 as int)),
        r.1 == dot(exit_vec(*arrival, *exit), exit_vec(*arrival, *exit)),
        -17592186044416 <= r.0 <= 17592186044416,
        0 <= r.1 <= 8796093022208,
{
    let far = exit.1.get_pos(exit.0.direction).tile;
    let v: (i64, i64) = (far.0 as i64 - arrival.tile.0 as i64, far.1 as i64 - arrival.tile.1 as i64);
    proof {
        assert(-2097152 <= v.0 <= 2097152 && -2097152 <= v.1 <= 2097152);
        assert(-2097152 <= v.0 * s.0 <= 2097152) by (nonlinear_arith)
            requires
                -2097152 <= v.0 <= 2097152,
                -1 <= s.0 <= 1,
        ;
        assert(-2097152 <= v.1 * s.1 <= 2097152) by (nonlinear_arith)
            requires
                -2097152 <= v.1 <= 2097152,
                -1 <= s.1 <= 1,
        ;
        assert(0 <= v.0 * v.0 <= 4398046511104) by (nonlinear_arith)
            requires
                -2097152 <= v.0 <= 2097152,
        ;
        assert(0 <= v.1 * v.1 <= 4398046511104) by (nonlinear_arith)
            requires
                -2097152 <= v.1 <= 2097152,
        ;
    }
    let d: i128 = (v.0 * s.0 + v.1 * s.1) as i128;
    let n: i128 = (v.0 as i128) * (v.0 as i128) + (v.1 as i128) * (v.1 as i128);
    proof {
        assert(0 <= d * d <= 17592186044416) by (nonlinear_arith)
            requires
                -4194304 <= d <= 4194304,
        ;
    }
    let k: i128 = if d >= 0 {
        d * d
    } else {
        -(d * d)
    };
    (k, n)
}

/// The exit a hand-driven train takes at `arrival`: the first of those
/// whose far end lies at the smallest angle from the aimed-at octant.
pub fn steer_exit(steering: Steering, arrival: &TrackPos, exits: &Vec<(TrackEdge, TrackData)>) -> (i: usize)
    requires
        exits_in_range(*arrival, exits@),
    ensures
        i < exits@.len(),
        steers_to(steering, *arrival, exits@, i as int),
{
    let ahead = arrival.facing.inverse();
    let right = steering.right && !steering.left;
    let left = steering.left && !steering.right;
    let facing = if (right && !steering.reversed) || (left && steering.reversed) {
        ahead.right()
    } else if left || right {
        ahead.left()
    } else {
        ahead
    };
    let ghost target = step_at(steer_facing(*arrival, steering));
    let su = octant_to_unit(facing);
    let s: (i64, i64) = (su.0 as i64, su.1 as i64);
    assert((s.0 as int, s.1 as int) == target);
    let mut best: usize = 0;
    let (mut best_k, mut best_n) = exit_key(arrival, &exits[0], s);
    let mut i: usize = 1;
    while i < exits.len()
        invariant
            exits_in_range(*arrival, exits@),
            -1 <= s.0 <= 1,
            -1 <= s.1 <= 1,
            (s.0 as int, s.1 as int) == target,
            1 <= i <= exits@.len(),
            best < i,
            best_k == cos_key(exit_vec(*arrival, exits@[best as int]), target),
            best_n == dot(exit_vec(*arrival, exits@[best as int]), exit_vec(*arrival, exits@[best as int])),
            -17592186044416 <= best_k <= 17592186044416,
            0 <= best_n <= 8796093022208,
            forall|j: int|
                0 <= j < i ==> !closer(
                    #[trigger] exit_vec(*arrival, exits@[j]),
                    exit_vec(*arrival, exits@[best as int]),
                    target,
                ),
            forall|j: int|
                0 <= j < best ==> closer(
                    exit_vec(*arrival, exits@[best as int]),
                    #[trigger] exit_vec(*arrival, exits@[j]),
                    target,
                ),
        decreases exits@.len() - i,
    {
        let (k, n) = exit_key(arrival, &exits[i], s);
        proof {
            assert(-154742504910672534362390528 <= k * best_n <= 154742504910672534362390528) by (nonlinear_arith)
                requires
                    -17592186044416 <= k <= 17592186044416,
                    0 <= best_n <= 8796093022208,
            ;
            assert(-154742504910672534362390528 <= best_k * n <= 154742504910672534362390528) by (nonlinear_arith)
                requires
                    -17592186044416 <= best_k <= 17592186044416,
                    0 <= n <= 8796093022208,
            ;
        }
        let ghost vi = exit_vec(*arrival, exits@[i as int]);
        let ghost vb = exit_vec(*arrival, exits@[best as int]);
        if n > 0 && (best_n == 0 || k * best_n > best_k * n) {
            assert(closer(vi, vb, target));
            proof {
                assert forall|j: int| 0 <= j < i + 1 implies !closer(
                    #[trigger] exit_vec(*arrival, exits@[j]),
                    vi,
                    target,
                ) by {
                    if j < i && closer(exit_vec(*arrival, exits@[j]), vi, target) {
                        lemma_closer_transitive(exit_vec(*arrival, exits@[j]), vi, vb, target);
                    }
                }
                assert forall|j: int| 0 <= j < i implies closer(
                    vi,
                    #[trigger] exit_vec(*arrival, exits@[j]),
                    target,
                ) by {
                    let vj = exit_vec(*arrival, exits@[j]);
                    if j < best {
                        lemma_closer_transitive(vi, vb, vj, target);
                    } else if j == best {
                    } else {
                        assert(!closer(vj, vb, target));
                        lemma_closer_total(vi, vb, vj, target);
                    }
                }
            }
            best = i;
            best_k = k;
            best_n = n;
        } else {
            assert(!closer(vi, vb, target));
        }
        i = i + 1;
    }
    best
}

/// If `a` is closer than `b` and `c` is not closer than `b`, then `a` is
/// closer than `c`.
pub(crate) proof fn lemma_closer_total(a: (int, int), b: (int, int), c: (int, int), s: (int, int))
    requires
        closer(a, b, s),
        !closer(c, b, s),
    ensures
        closer(a, c, s),
{
    let na = dot(a, a);
    let nb = dot(b, b);
    let nc = dot(c, c);
    let ka = cos_key(a, s);
    let kb = cos_key(b, s);
    let kc = cos_key(c, s);
    lemma_norm_nonneg(b);
    lemma_norm_nonneg(c);
    if nc != 0 {
        if nb == 0 {
            assert(false);
        } else {
            assert(kc * nb <= kb * nc);
            assert(ka * nc > kc * na) by (nonlinear_arith)
                requires
                    na > 0,
                    nb > 0,
                    nc > 0,
                    ka * nb > kb * na,
                    kc * nb <= kb * nc,
            ;
        }
    }
}

impl ExitChooser for Steering {
    open spec fn picks(&self, arrival: TrackPos, exits: Seq<(TrackEdge, TrackData)>, i: int) -> bool {
        steers_to(*self, arrival, exits, i)
    }

    fn pick_exit(&mut self, arrival: &TrackPos, exits: &Vec<(TrackEdge, TrackData)>) -> (i: usize) {
        steer_exit(*self, arrival, exits)
    }
}

proof fn lemma_residual_below_step(b: int, length: int, delta: int)
    requires
        0 < length,
        0 <= b,
        delta == consumed(0, b * SAMPLE_ONE / length, length),
    ensures
        (b - delta) * SAMPLE_ONE < length,
{
    let o = SAMPLE_ONE as int;
    let f = b * o / length;
    assert(f * length > b * o - length) by (nonlinear_arith)
        requires
            0 < length,
            f == b * o / length,
    ;
    assert(delta * o >= f * length) by (nonlinear_arith)
        requires
            0 < o,
            delta == (f * length + o - 1) / o,
    ;
    assert((b - delta) * o < length) by (nonlinear_arith)
        requires
            f * length > b * o - length,
            delta * o >= f * length,
    ;
}

/// What one update does to a train `t0` on `network` over `dt`
/// microseconds, with `chooser` picking exits; `t` is the train after.
pub open spec fn moved<C: ExitChooser>(network: Network, t0: Train, dt: int, chooser: C, t: Train) -> bool {
    let b = budget_of(t0.speed as int, dt);
    let held = network.track_map().contains_key(t0.track_edge.track);
    let data = network.track_map()[t0.track_edge.track];
    let length = data.length as int;
    let arrival = end_of(data.segment, t0.track_edge.direction);
    let dead_end = held && t0.sample == SAMPLE_ONE && network.exits_of(arrival).is_empty() && t0.speed
        > 0 && dt > 0;
    &&& t.wf()
    // a segment the network no longer holds: nothing moves
    &&& !held ==> t == t0
    // no distance to cover, and no dead end to stop at: nothing moves
    &&& b == 0 && !dead_end ==> t == t0
    &&& held ==> network.track_map().contains_key(t.track_edge.track)
    &&& t.speed == t0.speed || t.speed == 0
    // short of the far end, the parameter grows by distance over length
    &&& held && length > 0 && b > 0 && t0.sample + b * SAMPLE_ONE / length < SAMPLE_ONE ==> {
        &&& t.sample == t0.sample + b * SAMPLE_ONE / length
        &&& t.track_edge == t0.track_edge
        &&& t.speed == t0.speed
    }
    // at the far end of a dead end, the train stops where it is
    &&& dead_end ==> {
        &&& t.speed == 0
        &&& t.sample == SAMPLE_ONE
        &&& t.track_edge == t0.track_edge
    }
    // at the far end of a junction, the train goes on along the exit that
    // the chooser picks, from parameter 0
    &&& held && t0.sample == SAMPLE_ONE && b > 0 && !network.exits_of(arrival).is_empty() ==> exists|
        ex: Seq<(TrackEdge, TrackData)>,
        i: int,
    |
        #![trigger chooser.picks(arrival, ex, i)]
        {
            &&& network.lists_exits(arrival, ex)
            &&& 0 <= i < ex.len()
            &&& chooser.picks(arrival, ex, i)
            &&& ex[i].1.length > 0 && b * SAMPLE_ONE / (ex[i].1.length as int) < SAMPLE_ONE ==> {
                &&& t.track_edge == ex[i].0
                &&& t.sample == b * SAMPLE_ONE / (ex[i].1.length as int)
                &&& t.speed == t0.speed
            }
        }
}

/// Advances `train` on `network` for `dt_micros` at its speed. At the far
/// end of a segment it takes the exit that `chooser` picks and goes on from
/// parameter 0; at a dead end it stops there with speed 0 (even when the
/// distance covered rounds to nothing). Distance left over that moves the
/// parameter by less than one step is dropped. A train on a segment the
/// network no longer holds, or with no distance to cover, stays as it is.
pub fn update_train<C: ExitChooser>(train: &mut Train, network: &Network, dt_micros: u64, chooser: &mut C)
    requires
        network.wf(),
        old(train).wf(),
    ensures
        moved(*network, *old(train), dt_micros as int, *old(chooser), *final(train)),
{
    let ghost t0 = *train;
    let ghost c0 = *chooser;
    let data = network.get_data(train.track_edge);
    let d = match data {
        Some(d) => d,
        None => return,
    };
    let ghost arrival0 = end_of(d.segment, t0.track_edge.direction);
    if train.speed > 0 && dt_micros > 0 && train.sample >= SAMPLE_ONE {
        let node = d.get_pos(train.direction());
        let exits = network.get_exits(&node);
        if exits.len() == 0 {
            proof {
                assert forall|e: TrackEdge| !network.exits_of(arrival0).contains(e) by {
                    if network.exits_of(arrival0).contains(e) {
                        let k = choose|k: int| 0 <= k < exits@.len() && exits@[k].0 == e;
                    }
                }
                assert(network.exits_of(arrival0) =~= Set::empty());
            }
            train.speed = 0;
            return;
        }
        assert(network.exits_of(arrival0).contains(exits@[0].0));
    }
    let budget: u64 = if train.speed > 0 {
        proof {
            assert(train.speed * dt_micros / (MICROS as int) <= dt_micros) by (nonlinear_arith)
                requires
                    0 < train.speed <= MAX_SPEED,
            ;
            assert(train.speed * dt_micros <= MAX_SPEED * u64::MAX) by (nonlinear_arith)
                requires
                    0 < train.speed <= MAX_SPEED,
                    dt_micros <= u64::MAX,
            ;
            assert(0 <= train.speed * dt_micros / (MICROS as int)) by (nonlinear_arith)
                requires
                    0 < train.speed,
            ;
        }
        ((train.speed as u128) * (dt_micros as u128) / (MICROS as u128)) as u64
    } else {
        0
    };
    assert(budget == budget_of(t0.speed as int, dt_micros as int));
    proof {
        if budget > 0 {
            assert(dt_micros > 0) by (nonlinear_arith)
                requires
                    budget == t0.speed * dt_micros / (MICROS as int),
                    budget > 0,
                    t0.speed > 0,
            ;
        }
    }
    let ghost b = budget as int;
    let mut track: TrackData = *d;
    let ghost length = track.length as int;
    let ghost p6 = length > 0 && b > 0 && t0.sample + b * SAMPLE_ONE / length < SAMPLE_ONE;
    let ghost pj = t0.sample == SAMPLE_ONE && b > 0 && !network.exits_of(arrival0).is_empty();
    let ghost mut crossed = false;
    let ghost mut ex_g: Seq<(TrackEdge, TrackData)> = Seq::empty();
    let ghost mut i_g: int = 0;
    proof {
        if length > 0 {
            assert(0 <= b * SAMPLE_ONE / length) by (nonlinear_arith)
                requires
                    0 < length,
                    0 <= b,
            ;
        }
    }
    let mut remaining: u64 = budget;
    let mut stopped = false;
    while remaining > 0 && !stopped
        invariant
            network.wf(),
            train.wf(),
            network.track_map().contains_key(train.track_edge.track),
            track == network.track_map()[train.track_edge.track],
            track.segment.in_range(),
            train.speed == t0.speed || train.speed == 0,
            remaining <= b,
            b == 0 ==> *train == t0,
            length > 0 ==> 0 <= b * SAMPLE_ONE / length,
            t0.wf(),
            p6 == (length > 0 && b > 0 && t0.sample + b * SAMPLE_ONE / length < SAMPLE_ONE),
            pj == (t0.sample == SAMPLE_ONE && b > 0 && !network.exits_of(arrival0).is_empty()),
            network.track_map().contains_key(t0.track_edge.track),
            arrival0 == end_of(network.track_map()[t0.track_edge.track].segment, t0.track_edge.direction),
            length == network.track_map()[t0.track_edge.track].length,
            p6 ==> {
                &&& train.track_edge == t0.track_edge
                &&& train.speed == t0.speed
                &&& track.length == length
                &&& ((train.sample == t0.sample && remaining == b && !stopped) || (train.sample
                    == t0.sample + b * SAMPLE_ONE / length && (stopped || remaining * SAMPLE_ONE
                    < length)))
            },
            pj && !crossed ==> {
                &&& *train == t0
                &&& remaining == b
                &&& !stopped
                &&& *chooser == c0
            },
            pj && crossed ==> {
                &&& network.lists_exits(arrival0, ex_g)
                &&& 0 <= i_g < ex_g.len()
                &&& c0.picks(arrival0, ex_g, i_g)
                &&& ex_g[i_g].1.length > 0 && b * SAMPLE_ONE / (ex_g[i_g].1.length as int)
                    < SAMPLE_ONE ==> {
                    &&& train.track_edge == ex_g[i_g].0
                    &&& track == ex_g[i_g].1
                    &&& train.speed == t0.speed
                    &&& train.sample == b * SAMPLE_ONE / (ex_g[i_g].1.length as int)
                    &&& (stopped || remaining * SAMPLE_ONE < ex_g[i_g].1.length)
                }
            },
        decreases remaining, (if stopped {
            0int
        } else {
            1int
        }),
    {
        assert(p6 ==> train.sample < SAMPLE_ONE);
        let ghost at_start = !crossed;
        if train.sample >= SAMPLE_ONE {
            let node = track.get_pos(train.direction());
            let exits = network.get_exits(&node);
            if exits.len() > 0 {
                assert(exits_in_range(node, exits@)) by {
                    assert forall|i: int| 0 <= i < exits@.len() implies #[trigger] exits@[i].1.segment.in_range() by {
                        assert(exits@[i].1.segment.in_range());
                    }
                }
                let i = chooser.pick_exit(&node, &exits);
                proof {
                    if pj && !crossed {
                        ex_g = exits@;
                        i_g = i as int;
                        crossed = true;
                    }
                }
                train.sample = 0;
                train.track_edge = exits[i].0;
                track = exits[i].1;
            } else {
                proof {
                    if pj && !crossed {
                        assert(network.exits_of(arrival0).contains(
                            choose|e: TrackEdge| network.exits_of(arrival0).contains(e),
                        ));
                    }
                }
                train.speed = 0;
            }
        }
        let ghost from = train.sample as int;
        let ghost rem0 = remaining as int;
        let delta = move_along(&track, train, remaining);
        proof {
            if track.length > 0 {
                assert(0 <= rem0 * SAMPLE_ONE / (track.length as int)) by (nonlinear_arith)
                    requires
                        0 < track.length,
                        0 <= rem0,
                ;
            }
            if p6 {
                if from == t0.sample && rem0 == b {
                    assert(train.sample == t0.sample + b * SAMPLE_ONE / length);
                    assert(consumed(from, from + b * SAMPLE_ONE / length, length) == consumed(
                        0,
                        b * SAMPLE_ONE / length,
                        length,
                    ));
                    lemma_residual_below_step(b, length, delta as int);
                } else {
                    assert(rem0 * SAMPLE_ONE < length);
                    assert(0 <= rem0 * SAMPLE_ONE) by (nonlinear_arith)
                        requires
                            0 <= rem0,
                    ;
                    assert(rem0 * SAMPLE_ONE / length == 0) by (nonlinear_arith)
                        requires
                            0 <= rem0 * SAMPLE_ONE < length,
                    ;
                }
            }
            if pj && crossed {
                let li = ex_g[i_g].1.length as int;
                if li > 0 && b * SAMPLE_ONE / li < SAMPLE_ONE {
                    if at_start {
                        assert(from == 0 && rem0 == b);
                        lemma_residual_below_step(b, li, delta as int);
                    } else {
                        assert(rem0 * SAMPLE_ONE < li);
                        assert(0 <= rem0 * SAMPLE_ONE) by (nonlinear_arith)
                            requires
                                0 <= rem0,
                        ;
                        assert(rem0 * SAMPLE_ONE / li == 0) by (nonlinear_arith)
                            requires
                                0 <= rem0 * SAMPLE_ONE < li,
                        ;
                    }
                }
            }
        }
        if delta == 0 {
            stopped = true;
        } else {
            remaining = remaining - delta;
        }
    }
    proof {
        if pj {
            assert(crossed);
            assert(c0.picks(arrival0, ex_g, i_g));
        }
    }
}

/// `x` clamped to `-MAX_SPEED..=MAX_SPEED`.
pub open spec fn clamp_speed(x: int) -> int {
    if x < -MAX_SPEED {
        -MAX_SPEED as int
    } else if x > MAX_SPEED {
        MAX_SPEED as int
    } else {
        x
    }
}

/// The speed gained over `dt` microseconds of acceleration, capped at what
/// can cross the whole speed range.
pub open spec fn speed_gain(dt: int) -> int {
    let g = TRAIN_ACC * dt / MICROS as int;
    if g > 2 * MAX_SPEED {
        2 * MAX_SPEED as int
    } else {
        g
    }
}

fn gain_of(dt_micros: u64) -> (g: i64)
    ensures
        g == speed_gain(dt_micros as int),
        0 <= g <= 2 * MAX_SPEED,
{
    proof {
        assert(0 <= TRAIN_ACC * dt_micros <= TRAIN_ACC * u64::MAX) by (nonlinear_arith)
            requires
                dt_micros <= u64::MAX,
        ;
        assert(0 <= TRAIN_ACC * dt_micros / (MICROS as int)) by (nonlinear_arith)
            requires
                0 <= TRAIN_ACC * dt_micros,
        ;
    }
    let g: u128 = (TRAIN_ACC as u128) * (dt_micros as u128) / (MICROS as u128);
    if g > 2 * MAX_SPEED as u128 {
        2 * MAX_SPEED
    } else {
        g as i64
    }
}

/// The direction a hand-driven train is driven in, relative to its own
/// traversal: `POS` while it has not been turned round an odd number of
/// times.
#[derive(Debug, Clone, Copy, PartialEq, Eq, Structural)]
pub struct Driving(pub TrackDirection);

/// The speed of a hand-driven train after one tick of holding `forward`
/// and `backward`: each adds or takes away the gain, signed by the driving
/// direction, clamped to the speed range.
pub open spec fn driven_speed(speed: int, sign: int, forward: bool, backward: bool, dt: int) -> int {
    let g = speed_gain(dt);
    let s1 = if forward {
        clamp_speed(speed + g * sign)
    } else {
        speed
    };
    if backward {
        clamp_speed(s1 - g * sign)
    } else {
        s1
    }
}

/// A hand-driven train after one tick of throttle: its speed as
/// `driven_speed` gives it, or, when that is negative, turned round (the
/// other direction, the parameter counted from the other end) with the
/// speed negated.
pub open spec fn throttled(t: Train, driving: Driving, forward: bool, backward: bool, dt: int) -> Train {
    let sign = if driving.0 is POS {
        1int
    } else {
        -1int
    };
    let v = driven_speed(t.speed as int, sign, forward, backward, dt);
    if v < 0 {
        Train {
            track_edge: TrackEdge { track: t.track_edge.track, direction: t.track_edge.direction.spec_inverse() },
            sample: (SAMPLE_ONE - t.sample) as u64,
            speed: (-v) as i64,
        }
    } else {
        Train { speed: v as i64, ..t }
    }
}

/// The driving direction after one tick of throttle: turned round with the
/// train.
pub open spec fn throttled_driving(t: Train, driving: Driving, forward: bool, backward: bool, dt: int) -> Driving {
    let sign = if driving.0 is POS {
        1int
    } else {
        -1int
    };
    if driven_speed(t.speed as int, sign, forward, backward, dt) < 0 {
        Driving(driving.0.spec_inverse())
    } else {
        driving
    }
}

/// Applies the throttle of a hand-driven train for `dt_micros`; a speed
/// that has gone negative turns the train round (and its driving
/// direction with it), so that the speed is never negative afterwards.
pub fn accelerate(train: &mut Train, driving: &mut Driving, forward: bool, backward: bool, dt_micros: u64)
    requires
        old(train).wf(),
    ensures
        final(train).wf(),
        final(train).speed >= 0,
        *final(train) == throttled(*old(train), *old(driving), forward, backward, dt_micros as int),
        *final(driving) == throttled_driving(*old(train), *old(driving), forward, backward, dt_micros as int),
{
    let g = gain_of(dt_micros);
    let sign = driving.0.signum();
    if forward {
        let v: i64 = train.speed + g * sign;
        train.speed = if v < -MAX_SPEED {
            -MAX_SPEED
        } else if v > MAX_SPEED {
            MAX_SPEED
        } else {
            v
        };
    }
    if backward {
        let v: i64 = train.speed - g * sign;
        train.speed = if v < -MAX_SPEED {
            -MAX_SPEED
        } else if v > MAX_SPEED {
            MAX_SPEED
        } else {
            v
        };
    }
    if train.speed < 0 {
        train.flip();
        driving.0 = driving.0.inverse();
    }
}

/// One tick of a hand-driven train: the throttle, then motion along the
/// network as `update_train` moves it, steering at junctions one octant
/// toward the side held.
pub fn drive_train(
    train: &mut Train,
    driving: &mut Driving,
    network: &Network,
    forward: bool,
    backward: bool,
    left: bool,
    right: bool,
    dt_micros: u64,
)
    requires
        network.wf(),
        old(train).wf(),
    ensures
        final(train).speed >= 0,
        *final(driving) == throttled_driving(*old(train), *old(driving), forward, backward, dt_micros as int),
        moved(
            *network,
            throttled(*old(train), *old(driving), forward, backward, dt_micros as int),
            dt_micros as int,
            Steering { left, right, reversed: !(final(driving).0 is POS) },
            *final(train),
        ),
{
    accelerate(train, driving, forward, backward, dt_micros);
    let mut steering = Steering { left, right, reversed: !driving.0.is_pos() };
    update_train(train, network, dt_micros, &mut steering);
}

/// An autonomous train after speeding up for `dt` microseconds, up to the
/// largest speed.
pub open spec fn sped_up(t: Train, dt: int) -> Train {
    let v = t.speed + speed_gain(dt);
    Train {
        speed: (if v > MAX_SPEED {
            MAX_SPEED as int
        } else {
            v
        }) as i64,
        ..t
    }
}

/// One tick of an autonomous train: it speeds up toward the largest speed,
/// then moves along the network as `update_train` moves it, taking random
/// exits.
pub fn update_autonomous(train: &mut Train, network: &Network, dt_micros: u64, rng: &mut StdRng)
    requires
        network.wf(),
        old(train).wf(),
        old(train).speed >= 0,
    ensures
        final(train).speed >= 0,
        moved(*network, sped_up(*old(train), dt_micros as int), dt_micros as int, *old(rng), *final(train)),
{
    let g = gain_of(dt_micros);
    let v: i64 = train.speed + g;
    train.speed = if v > MAX_SPEED {
        MAX_SPEED
    } else {
        v
    };
    update_train(train, network, dt_micros, rng);
}

/// A request to put a train on `track` at parameter `sample` (beyond the
/// far end counts as the far end); with `shift` held it drives itself,
/// otherwise it is driven by hand.
#[derive(Debug, Clone, Copy, PartialEq, Eq, Structural)]
pub struct TrainPlacementEvent {
    pub track: TrackID,
    pub sample: u64,
    pub shift: bool,
}

/// The train a placement request makes: standing, forward, on the
/// requested segment, with a driving direction when driven by hand; none
/// when the network no longer holds the segment.
pub fn place_train(network: &Network, event: TrainPlacementEvent) -> (r: Option<(Train, Option<Driving>)>)
    ensures
        !network.track_map().contains_key(event.track) ==> r is None,
        network.track_map().contains_key(event.track) ==> (r matches Some((train, driving)) && {
            &&& train.wf()
            &&& train.track_edge == (TrackEdge { track: event.track, direction: TrackDirection::POS })
            &&& train.sample == (if event.sample > SAMPLE_ONE {
                SAMPLE_ONE
            } else {
                event.sample
            })
            &&& train.speed == 0
            &&& driving == (if event.shift {
                None
            } else {
                Some(Driving(TrackDirection::POS))
            })
        }),
{
    match network.get(event.track) {
        None => None,
        Some(_) => {
            let sample = if event.sample > SAMPLE_ONE {
                SAMPLE_ONE
            } else {
                event.sample
            };
            let train = Train::new(event.track, sample);
            let driving = if event.shift {
                None
            } else {
                Some(Driving(TrackDirection::POS))
            };
            Some((train, driving))
        },
    }
}

} // verus!
