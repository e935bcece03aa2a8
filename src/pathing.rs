//! The directed graph of track nodes, held in petgraph's `DiGraphMap`.
use vstd::prelude::*;

use petgraph::graphmap::{DiGraphMap, GraphMap};

use crate::track_graph::TrackEdge;
use crate::track_types::NodeKey;

verus! {

/// The pathing graph: nodes are node keys, edges carry traversals.
pub type PathingGraph = DiGraphMap<NodeKey, TrackEdge>;

#[verifier::external_type_specification]
#[verifier::external_body]
#[verifier::reject_recursive_types(N)]
#[verifier::reject_recursive_types(E)]
#[verifier::reject_recursive_types(Ty)]
#[verifier::reject_recursive_types(S)]
pub struct ExGraphMap<N, E, Ty, S: std::hash::BuildHasher>(GraphMap<N, E, Ty, S>);

#[verifier::external_type_specification]
#[verifier::external_body]
pub struct ExDirected(petgraph::Directed);

/// The edges of a pathing graph: each (source, target) pair with its label.
pub uninterp spec fn graph_edges(g: PathingGraph) -> Map<(NodeKey, NodeKey), TrackEdge>;

/// The nodes of a pathing graph. Adding an edge adds its two ends; removing
/// an edge keeps them.
pub uninterp spec fn graph_nodes(g: PathingGraph) -> Set<NodeKey>;

/// Relies on `GraphMap::new`: an empty graph.
#[verifier::external_body]
pub(crate) fn graph_new() -> (r: PathingGraph)
    ensures
        graph_edges(r).dom().is_empty(),
        graph_nodes(r).is_empty(),
{
    DiGraphMap::new()
}

/// Relies on `GraphMap::add_edge`: inserts both ends, and sets the label of
/// the edge from `a` to `b` (replacing the label of an existing edge).
#[verifier::external_body]
pub(crate) fn graph_add_edge(g: &mut PathingGraph, a: NodeKey, b: NodeKey, w: TrackEdge)
    ensures
        graph_edges(*final(g)) == graph_edges(*old(g)).insert((a, b), w),
        graph_nodes(*final(g)) == graph_nodes(*old(g)).insert(a).insert(b),
{
    g.add_edge(a, b, w);
}

/// Relies on `GraphMap::remove_edge`: drops the edge from `a` to `b`, if
/// any, and keeps every node.
#[verifier::external_body]
pub(crate) fn graph_remove_edge(g: &mut PathingGraph, a: NodeKey, b: NodeKey)
    ensures
        graph_edges(*final(g)) == graph_edges(*old(g)).remove((a, b)),
        graph_nodes(*final(g)) == graph_nodes(*old(g)),
{
    g.remove_edge(a, b);
}

/// Relies on `GraphMap::contains_node`.
#[verifier::external_body]
pub(crate) fn graph_contains_node(g: &PathingGraph, n: NodeKey) -> (r: bool)
    ensures
        r == graph_nodes(*g).contains(n),
{
    g.contains_node(n)
}

/// Relies on `GraphMap::edges`, which for a directed graph walks the
/// outgoing edges of `a`, each once: the result holds the target and label
/// of every edge leaving `a`, with no target twice.
#[verifier::external_body]
pub(crate) fn graph_edges_from(g: &PathingGraph, a: NodeKey) -> (r: Vec<(NodeKey, TrackEdge)>)
    ensures
        forall|i: int|
            #![trigger r@[i]]
            0 <= i < r@.len() ==> graph_edges(*g).contains_key((a, r@[i].0)) && graph_edges(
                *g,
            )[(a, r@[i].0)] == r@[i].1,
        forall|b: NodeKey|
            #[trigger] graph_edges(*g).contains_key((a, b)) ==> exists|i: int|
                0 <= i < r@.len() && r@[i].0 == b,
        forall|i: int, j: int|
            #![trigger r@[i], r@[j]]
            0 <= i < r@.len() && 0 <= j < r@.len() && i != j ==> r@[i].0 != r@[j].0,
{
    g.edges(a).map(|(_, b, w)| (b, *w)).collect()
}

} // verus!
