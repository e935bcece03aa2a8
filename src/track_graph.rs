use vstd::prelude::*;

use std::collections::HashMap;

use crate::pathing::{
    graph_add_edge, graph_contains_node, graph_edges, graph_edges_from, graph_new, graph_nodes,
    graph_remove_edge, PathingGraph,
};
use crate::track_types::{NodeKey, TrackPos, TrackSegment};
use crate::utils::{Octant, TileIndex};

verus! {

broadcast use vstd::std_specs::hash::group_hash_axioms;

/// The identity of a physical segment, handed out in increasing order.
pub type TrackID = usize;

/// Which end of a segment a traversal leaves by: `POS` runs from the
/// segment's start to its end, `NEG` from its end to its start.
#[derive(Debug, Clone, Copy, PartialEq, Eq, Structural, Hash)]
pub enum TrackDirection {
    POS,
    NEG,
}

impl TrackDirection {
    pub open spec fn spec_is_pos(self) -> bool {
        self is POS
    }

    pub open spec fn spec_inverse(self) -> TrackDirection {
        if self is POS {
            TrackDirection::NEG
        } else {
            TrackDirection::POS
        }
    }

    pub fn is_pos(&self) -> (r: bool)
        ensures
            r == self.spec_is_pos(),
    {
        match self {
            TrackDirection::POS => true,
            TrackDirection::NEG => false,
        }
    }

    /// The other direction.
    pub fn inverse(&self) -> (r: Self)
        ensures
            r == self.spec_inverse(),
    {
        match self {
            TrackDirection::POS => TrackDirection::NEG,
            TrackDirection::NEG => TrackDirection::POS,
        }
    }

    /// `1` for `POS`, `-1` for `NEG`.
    pub fn signum(&self) -> (r: i64)
        ensures
            r == (if self.spec_is_pos() { 1int } else { -1int }),
    {
        match self {
            TrackDirection::POS => 1,
            TrackDirection::NEG => -1,
        }
    }
}

/// A directed traversal of a segment: the label of a graph edge.
#[derive(Debug, Clone, Copy, PartialEq, Eq, Structural, Hash)]
pub struct TrackEdge {
    pub track: TrackID,
    pub direction: TrackDirection,
}

impl TrackEdge {
    pub fn pos(id: TrackID) -> (r: Self)
        ensures
            r == (TrackEdge { track: id, direction: TrackDirection::POS }),
    {
        TrackEdge { track: id, direction: TrackDirection::POS }
    }

    pub fn neg(id: TrackID) -> (r: Self)
        ensures
            r == (TrackEdge { track: id, direction: TrackDirection::NEG }),
    {
        TrackEdge { track: id, direction: TrackDirection::NEG }
    }
}

/// A stored segment and its arc length, in length units.
#[derive(Debug, Clone, Copy)]
pub struct TrackData {
    pub segment: TrackSegment,
    pub length: u64,
}

/// The node at the end a traversal in `direction` arrives at.
pub open spec fn end_of(segment: TrackSegment, direction: TrackDirection) -> TrackPos {
    if direction is POS {
        segment.end
    } else {
        segment.start
    }
}

/// The node a traversal in `direction` leaves from.
pub open spec fn start_of(segment: TrackSegment, direction: TrackDirection) -> TrackPos {
    end_of(segment, direction.spec_inverse())
}

/// The graph edge of a segment traversed in `direction`: from the node it
/// leaves to the far node seen from beyond the segment.
pub open spec fn edge_key_of(segment: TrackSegment, direction: TrackDirection) -> (NodeKey, NodeKey) {
    (start_of(segment, direction).spec_key(), end_of(segment, direction).spec_inverse().spec_key())
}

impl TrackData {
    pub fn start_tile(&self) -> (r: TileIndex)
        ensures
            r == self.segment.start.tile,
    {
        self.segment.start.tile
    }

    pub fn end_tile(&self) -> (r: TileIndex)
        ensures
            r == self.segment.end.tile,
    {
        self.segment.end.tile
    }

    /// The node that a traversal in `direction` arrives at.
    pub fn get_pos(&self, direction: TrackDirection) -> (r: TrackPos)
        ensures
            r == end_of(self.segment, direction),
    {
        if direction.is_pos() {
            self.segment.end
        } else {
            self.segment.start
        }
    }
}

/// The track network: a directed graph over oriented nodes whose edges are
/// labelled with traversals, and the stored segments by identity.
///
/// Each stored segment puts two edges into the graph, one per direction.
/// Laying a segment twice is allowed: the later copy takes over the two
/// edges, and removing either copy removes them. A segment may join a tile
/// to itself; one whose two ends are the same node has a single edge.
pub struct Network {
    pathing_graph: PathingGraph,
    tracks: HashMap<TrackID, TrackData>,
    next_id: TrackID,
}

impl Network {
    /// The labelled edges of the graph.
    pub closed spec fn edge_map(&self) -> Map<(NodeKey, NodeKey), TrackEdge> {
        graph_edges(self.pathing_graph)
    }

    /// The nodes of the graph: every node an edge was ever added at.
    pub closed spec fn node_set(&self) -> Set<NodeKey> {
        graph_nodes(self.pathing_graph)
    }

    /// The stored segments.
    pub closed spec fn track_map(&self) -> Map<TrackID, TrackData> {
        self.tracks@
    }

    /// The identity the next stored segment gets.
    pub closed spec fn spec_next_id(&self) -> nat {
        self.next_id as nat
    }

    /// Every edge is one of the two edges of the stored segment it names,
    /// and every stored identity was handed out already.
    pub closed spec fn wf(&self) -> bool {
        &&& forall|k: (NodeKey, NodeKey)|
            #[trigger] graph_edges(self.pathing_graph).contains_key(k) ==> {
                let e = graph_edges(self.pathing_graph)[k];
                &&& self.tracks@.contains_key(e.track)
                &&& edge_key_of(self.tracks@[e.track].segment, e.direction) == k
            }
        &&& forall|id: TrackID| #[trigger]
            self.tracks@.contains_key(id) ==> id < self.next_id && self.tracks@[id].segment.in_range()
    }

    /// The labels of the edges leaving the node `from`.
    pub open spec fn labels_from(&self, from: NodeKey) -> Set<TrackEdge> {
        Set::new(
            |e: TrackEdge|
                exists|b: NodeKey| #[trigger]
                    self.edge_map().contains_key((from, b)) && self.edge_map()[(from, b)] == e,
        )
    }

    /// The traversals a train arriving at `node` may continue on: the edges
    /// leaving the same point approached from the other side.
    pub open spec fn exits_of(&self, node: TrackPos) -> Set<TrackEdge> {
        self.labels_from(node.spec_inverse().spec_key())
    }

    /// `ex` lists the exits from `node`, each once, with its stored segment;
    /// each leaves from the point of `node`, approached from the other side.
    pub open spec fn lists_exits(&self, node: TrackPos, ex: Seq<(TrackEdge, TrackData)>) -> bool {
        &&& forall|i: int|
            #![trigger ex[i]]
            0 <= i < ex.len() ==> {
                &&& self.exits_of(node).contains(ex[i].0)
                &&& self.track_map().contains_key(ex[i].0.track)
                &&& ex[i].1 == self.track_map()[ex[i].0.track]
                &&& ex[i].1.segment.in_range()
                &&& start_of(ex[i].1.segment, ex[i].0.direction).spec_key()
                    == node.spec_inverse().spec_key()
            }
        &&& forall|e: TrackEdge| #[trigger]
            self.exits_of(node).contains(e) ==> exists|i: int| 0 <= i < ex.len() && ex[i].0 == e
        &&& forall|i: int, j: int|
            #![trigger ex[i], ex[j]]
            0 <= i < ex.len() && 0 <= j < ex.len() && i != j ==> ex[i].0 != ex[j].0
    }

    /// An empty network.
    pub fn new() -> (r: Self)
        ensures
            r.wf(),
            r.edge_map() == Map::<(NodeKey, NodeKey), TrackEdge>::empty(),
            r.node_set() == Set::<NodeKey>::empty(),
            r.track_map() == Map::<TrackID, TrackData>::empty(),
            r.spec_next_id() == 0,
    {
        Network { pathing_graph: graph_new(), tracks: HashMap::new(), next_id: 0 }
    }

    /// For each octant, whether the node at `tile` with that facing is in
    /// the graph.
    pub fn get_connections(&self, tile: TileIndex) -> (r: [bool; 8])
        ensures
            forall|i: int|
                0 <= i < 8 ==> #[trigger] r@[i] == self.node_set().contains(
                    (tile.0, tile.1, i as i8),
                ),
    {
        let g = &self.pathing_graph;
        [
            graph_contains_node(g, (tile.0, tile.1, 0)),
            graph_contains_node(g, (tile.0, tile.1, 1)),
            graph_contains_node(g, (tile.0, tile.1, 2)),
            graph_contains_node(g, (tile.0, tile.1, 3)),
            graph_contains_node(g, (tile.0, tile.1, 4)),
            graph_contains_node(g, (tile.0, tile.1, 5)),
            graph_contains_node(g, (tile.0, tile.1, 6)),
            graph_contains_node(g, (tile.0, tile.1, 7)),
        ]
    }

    /// Stores `segment` with its arc length under a new identity, and adds
    /// its two edges: start to the far end seen from beyond, labelled
    /// `POS`, and end to the start seen from beyond, labelled `NEG`.
    pub fn add_track(&mut self, segment: TrackSegment, length: u64) -> (id: TrackID)
        requires
            old(self).wf(),
            segment.in_range(),
            old(self).spec_next_id() < usize::MAX,
        ensures
            final(self).wf(),
            id == old(self).spec_next_id(),
            !old(self).track_map().contains_key(id),
            final(self).spec_next_id() == id + 1,
            final(self).track_map() == old(self).track_map().insert(
                id,
                TrackData { segment, length },
            ),
            final(self).edge_map() == old(self).edge_map().insert(
                edge_key_of(segment, TrackDirection::POS),
                TrackEdge { track: id, direction: TrackDirection::POS },
            ).insert(
                edge_key_of(segment, TrackDirection::NEG),
                TrackEdge { track: id, direction: TrackDirection::NEG },
            ),
            final(self).node_set() == old(self).node_set().insert(segment.start.spec_key()).insert(
                segment.end.spec_inverse().spec_key(),
            ).insert(segment.end.spec_key()).insert(segment.start.spec_inverse().spec_key()),
            segment.start.spec_key() != segment.end.spec_key() ==> {
                &&& final(self).exits_of(segment.start.spec_inverse()).contains(
                    TrackEdge { track: id, direction: TrackDirection::POS },
                )
                &&& final(self).exits_of(segment.end.spec_inverse()).contains(
                    TrackEdge { track: id, direction: TrackDirection::NEG },
                )
            },
    {
        let ghost before = *self;
        let id = self.next_id;
        let ghost old_edges = graph_edges(self.pathing_graph);
        let ghost old_tracks = self.tracks@;
        let start_key = segment.start.key();
        let end_key = segment.end.key();
        let start_back = segment.start.inverse().key();
        let end_back = segment.end.inverse().key();
        graph_add_edge(&mut self.pathing_graph, start_key, end_back, TrackEdge::pos(id));
        graph_add_edge(&mut self.pathing_graph, end_key, start_back, TrackEdge::neg(id));
        self.tracks.insert(id, TrackData { segment, length });
        self.next_id = id + 1;
        proof {
            let pk = edge_key_of(segment, TrackDirection::POS);
            let nk = edge_key_of(segment, TrackDirection::NEG);
            assert(pk == (start_key, end_back));
            assert(nk == (end_key, start_back));
            assert forall|k: (NodeKey, NodeKey)|
                #[trigger] graph_edges(self.pathing_graph).contains_key(k) implies {
                let e = graph_edges(self.pathing_graph)[k];
                &&& self.tracks@.contains_key(e.track)
                &&& edge_key_of(self.tracks@[e.track].segment, e.direction) == k
            } by {
                if k != pk && k != nk {
                    assert(old_edges.contains_key(k));
                    let e = old_edges[k];
                    assert(old_tracks.contains_key(e.track));
                    assert(e.track != id);
                }
            }
            if segment.start.spec_key() != segment.end.spec_key() {
                lemma_laid_both_ways(before, *self, segment, length, id);
            }
        }
        id
    }

    /// The identities of the stored segments, in increasing order.
    pub fn track_ids(&self) -> (r: Vec<TrackID>)
        requires
            self.wf(),
        ensures
            forall|i: int| 0 <= i < r@.len() ==> self.track_map().contains_key(#[trigger] r@[i]),
            forall|id: TrackID| #[trigger] self.track_map().contains_key(id) ==> r@.contains(id),
            forall|i: int, j: int| 0 <= i < j < r@.len() ==> r@[i] < r@[j],
    {
        let mut r: Vec<TrackID> = Vec::new();
        let mut i: usize = 0;
        while i < self.next_id
            invariant
                self.wf(),
                i <= self.next_id,
                forall|k: int| 0 <= k < r@.len() ==> self.tracks@.contains_key(#[trigger] r@[k]) && r@[k] < i,
                forall|id: TrackID| #[trigger] self.tracks@.contains_key(id) && id < i ==> r@.contains(id),
                forall|a: int, b: int| 0 <= a < b < r@.len() ==> r@[a] < r@[b],
            decreases self.next_id - i,
        {
            let ghost old_r = r@;
            if self.tracks.contains_key(&i) {
                r.push(i);
                assert(r@[r@.len() - 1] == i);
            }
            proof {
                assert forall|id: TrackID| #[trigger] self.tracks@.contains_key(id) && id < i + 1 implies r@.contains(id) by {
                    if id < i {
                        let k = choose|k: int| 0 <= k < old_r.len() && old_r[k] == id;
                        assert(r@[k] == id);
                    } else {
                        assert(r@[r@.len() - 1] == id);
                    }
                }
            }
            i = i + 1;
        }
        r
    }

    /// The stored segment with identity `id`, if any.
    pub fn get(&self, id: TrackID) -> (r: Option<&TrackData>)
        ensures
            match r {
                Some(d) => self.track_map().contains_key(id) && *d == self.track_map()[id] && (
                self.wf() ==> d.segment.in_range()),
                None => !self.track_map().contains_key(id),
            },
    {
        self.tracks.get(&id)
    }

    /// The stored segment that `edge` traverses, if any.
    pub fn get_data(&self, edge: TrackEdge) -> (r: Option<&TrackData>)
        ensures
            match r {
                Some(d) => self.track_map().contains_key(edge.track) && *d == self.track_map()[edge.track]
                    && (self.wf() ==> d.segment.in_range()),
                None => !self.track_map().contains_key(edge.track),
            },
    {
        self.tracks.get(&edge.track)
    }

    /// Removes the segment with identity `id` and both of its edges; does
    /// nothing if there is none.
    pub fn remove_track(&mut self, id: TrackID)
        requires
            old(self).wf(),
        ensures
            final(self).wf(),
            final(self).spec_next_id() == old(self).spec_next_id(),
            final(self).track_map() == old(self).track_map().remove(id),
            final(self).node_set() == old(self).node_set(),
            old(self).track_map().contains_key(id) ==> final(self).edge_map() == old(self).edge_map().remove(
                edge_key_of(old(self).track_map()[id].segment, TrackDirection::POS),
            ).remove(edge_key_of(old(self).track_map()[id].segment, TrackDirection::NEG)),
            !old(self).track_map().contains_key(id) ==> final(self).edge_map() == old(self).edge_map(),
    {
        let ghost old_edges = graph_edges(self.pathing_graph);
        let track = self.tracks.remove(&id);
        match track {
            Some(track) => {
                let segment = track.segment;
                let start_key = segment.start.key();
                let end_key = segment.end.key();
                let start_back = segment.start.inverse().key();
                let end_back = segment.end.inverse().key();
                graph_remove_edge(&mut self.pathing_graph, start_key, end_back);
                graph_remove_edge(&mut self.pathing_graph, end_key, start_back);
                proof {
                    let pk = edge_key_of(segment, TrackDirection::POS);
                    let nk = edge_key_of(segment, TrackDirection::NEG);
                    assert(pk == (start_key, end_back));
                    assert(nk == (end_key, start_back));
                    assert forall|k: (NodeKey, NodeKey)|
                        #[trigger] graph_edges(self.pathing_graph).contains_key(k) implies {
                        let e = graph_edges(self.pathing_graph)[k];
                        &&& self.tracks@.contains_key(e.track)
                        &&& edge_key_of(self.tracks@[e.track].segment, e.direction) == k
                    } by {
                        assert(old_edges.contains_key(k));
                        let e = old_edges[k];
                        if e.track == id {
                            assert(k == pk || k == nk);
                        }
                    }
                }
            },
            None => {},
        }
    }

    /// The traversals a train arriving at `node` may continue on, each with
    /// its stored segment: the edges leaving `node.inverse()`. Empty at a
    /// dead end.
    pub fn get_exits(&self, node: &TrackPos) -> (r: Vec<(TrackEdge, TrackData)>)
        requires
            self.wf(),
        ensures
            self.lists_exits(*node, r@),
    {
        let from = node.inverse().key();
        let outs = graph_edges_from(&self.pathing_graph, from);
        let mut r: Vec<(TrackEdge, TrackData)> = Vec::new();
        let mut i: usize = 0;
        while i < outs.len()
            invariant
                self.wf(),
                i <= outs@.len(),
                from == node.spec_inverse().spec_key(),
                r@.len() == i,
                forall|j: int|
                    #![trigger outs@[j]]
                    0 <= j < outs@.len() ==> graph_edges(self.pathing_graph).contains_key(
                        (from, outs@[j].0),
                    ) && graph_edges(self.pathing_graph)[(from, outs@[j].0)] == outs@[j].1,
                forall|j: int|
                    #![trigger r@[j]]
                    0 <= j < i ==> r@[j].0 == outs@[j].1 && self.track_map().contains_key(
                        r@[j].0.track,
                    ) && r@[j].1 == self.track_map()[r@[j].0.track] && edge_key_of(
                        r@[j].1.segment,
                        r@[j].0.direction,
                    ) == (from, outs@[j].0),
            decreases outs@.len() - i,
        {
            let label = outs[i].1;
            assert(graph_edges(self.pathing_graph).contains_key((from, outs@[i as int].0)));
            match self.tracks.get(&label.track) {
                Some(data) => {
                    r.push((label, *data));
                },
                None => {
                    assert(false);
                },
            }
            i = i + 1;
        }
        proof {
            assert forall|j: int| #![trigger r@[j]] 0 <= j < r@.len() implies self.exits_of(*node).contains(r@[j].0) by {
                assert(self.edge_map().contains_key((from, outs@[j].0)));
            }
            assert forall|e: TrackEdge| #[trigger] self.exits_of(*node).contains(e) implies exists|i: int|
                0 <= i < r@.len() && r@[i].0 == e by {
                let b = choose|b: NodeKey| self.edge_map().contains_key((from, b)) && self.edge_map()[(from, b)] == e;
                let j = choose|j: int| 0 <= j < outs@.len() && outs@[j].0 == b;
                assert(r@[j].0 == e);
            }
            assert forall|a: int, b: int|
                #![trigger r@[a], r@[b]]
                0 <= a < r@.len() && 0 <= b < r@.len() && a != b implies r@[a].0 != r@[b].0 by {
                assert(outs@[a].0 != outs@[b].0);
                if r@[a].0 == r@[b].0 {
                    let e = r@[a].0;
                    assert(graph_edges(self.pathing_graph).contains_key((from, outs@[a].0)));
                    assert(graph_edges(self.pathing_graph).contains_key((from, outs@[b].0)));
                    assert(edge_key_of(self.tracks@[e.track].segment, e.direction) == (from, outs@[a].0));
                    assert(edge_key_of(self.tracks@[e.track].segment, e.direction) == (from, outs@[b].0));
                }
            }
        }
        r
    }
}

/// Right after a segment is laid under `id`, a train arriving at
/// `segment.start.inverse()` may leave along it forward, to
/// `segment.end.inverse()`, and one arriving at `segment.end.inverse()` may
/// leave along it backward, to `segment.start.inverse()`. (A segment whose
/// two ends are the same node has one edge only, so it is left out.)
pub proof fn lemma_laid_both_ways(
    before: Network,
    added: Network,
    segment: TrackSegment,
    length: u64,
    id: TrackID,
)
    requires
        segment.start.spec_key() != segment.end.spec_key(),
        added.track_map() == before.track_map().insert(id, TrackData { segment, length }),
        added.edge_map() == before.edge_map().insert(
            edge_key_of(segment, TrackDirection::POS),
            TrackEdge { track: id, direction: TrackDirection::POS },
        ).insert(
            edge_key_of(segment, TrackDirection::NEG),
            TrackEdge { track: id, direction: TrackDirection::NEG },
        ),
    ensures
        added.edge_map().contains_key(
            (segment.start.spec_key(), segment.end.spec_inverse().spec_key()),
        ),
        added.edge_map().contains_key(
            (segment.end.spec_key(), segment.start.spec_inverse().spec_key()),
        ),
        added.exits_of(segment.start.spec_inverse()).contains(
            TrackEdge { track: id, direction: TrackDirection::POS },
        ),
        added.exits_of(segment.end.spec_inverse()).contains(
            TrackEdge { track: id, direction: TrackDirection::NEG },
        ),
{
    let pk = edge_key_of(segment, TrackDirection::POS);
    let nk = edge_key_of(segment, TrackDirection::NEG);
    let pe = TrackEdge { track: id, direction: TrackDirection::POS };
    let ne = TrackEdge { track: id, direction: TrackDirection::NEG };
    assert(segment.start.spec_inverse().spec_inverse().spec_key() == segment.start.spec_key());
    assert(segment.end.spec_inverse().spec_inverse().spec_key() == segment.end.spec_key());
    assert(added.edge_map()[nk] == ne);
    assert(pk != nk);
    assert(added.edge_map()[pk] == pe);
    let from_start = segment.start.spec_inverse().spec_inverse().spec_key();
    let from_end = segment.end.spec_inverse().spec_inverse().spec_key();
    assert(added.edge_map().contains_key((from_start, pk.1)) && added.edge_map()[(from_start, pk.1)] == pe);
    assert(added.edge_map().contains_key((from_end, nk.1)) && added.edge_map()[(from_end, nk.1)] == ne);
}

/// Laying a segment gives it both directions at once, and removing it takes
/// both away: right after `add_track(segment)` returns `id` both traversals
/// are exits as `lemma_laid_both_ways` states, and after `remove_track(id)`
/// neither edge is in the graph.
pub proof fn lemma_graph_symmetry(
    before: Network,
    added: Network,
    removed: Network,
    segment: TrackSegment,
    length: u64,
    id: TrackID,
)
    requires
        segment.start.spec_key() != segment.end.spec_key(),
        added.track_map() == before.track_map().insert(id, TrackData { segment, length }),
        added.edge_map() == before.edge_map().insert(
            edge_key_of(segment, TrackDirection::POS),
            TrackEdge { track: id, direction: TrackDirection::POS },
        ).insert(
            edge_key_of(segment, TrackDirection::NEG),
            TrackEdge { track: id, direction: TrackDirection::NEG },
        ),
        removed.edge_map() == added.edge_map().remove(
            edge_key_of(added.track_map()[id].segment, TrackDirection::POS),
        ).remove(edge_key_of(added.track_map()[id].segment, TrackDirection::NEG)),
    ensures
        added.exits_of(segment.start.spec_inverse()).contains(
            TrackEdge { track: id, direction: TrackDirection::POS },
        ),
        added.exits_of(segment.end.spec_inverse()).contains(
            TrackEdge { track: id, direction: TrackDirection::NEG },
        ),
        !removed.edge_map().contains_key(
            (segment.start.spec_key(), segment.end.spec_inverse().spec_key()),
        ),
        !removed.edge_map().contains_key(
            (segment.end.spec_key(), segment.start.spec_inverse().spec_key()),
        ),
{
    lemma_laid_both_ways(before, added, segment, length, id);
    assert(added.track_map()[id].segment == segment);
}

} // verus!
