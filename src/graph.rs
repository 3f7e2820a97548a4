//! The connection graph: petgraph's `Graph`, reached through a few trusted
//! wrappers whose contracts speak of the node and edge sequences it holds.

use vstd::prelude::*;
use petgraph::graph::{EdgeIndex, Graph, NodeIndex};
use petgraph::Directed;

verus! {

#[verifier::external_type_specification]
#[verifier::external_body]
pub struct ExDirected(petgraph::Directed);

#[verifier::external_type_specification]
#[verifier::external_body]
#[verifier::reject_recursive_types(N)]
#[verifier::reject_recursive_types(E)]
#[verifier::reject_recursive_types(Ty)]
#[verifier::reject_recursive_types(Ix)]
pub struct ExGraph<N, E, Ty, Ix>(petgraph::graph::Graph<N, E, Ty, Ix>);

/// A directed graph whose nodes carry a module's raw identity and whose edges
/// carry `(source_output, dest_input)`.
pub type PatchGraph = Graph<u128, (usize, usize), Directed, u32>;

/// The node weights of a graph, by node index.
pub uninterp spec fn graph_nodes(g: Graph<u128, (usize, usize), Directed, u32>) -> Seq<u128>;

/// The edges of a graph, by edge index, as
/// `(source node, target node, source_output, dest_input)`.
pub uninterp spec fn graph_edges(g: Graph<u128, (usize, usize), Directed, u32>) -> Seq<
    (usize, usize, usize, usize),
>;

/// `order` lists each of the nodes `0..n` exactly once, and every edge's
/// source stands before its target.
pub open spec fn is_topological_order(
    order: Seq<usize>,
    n: nat,
    edges: Seq<(usize, usize, usize, usize)>,
) -> bool {
    &&& order.len() == n
    &&& order.no_duplicates()
    &&& forall|i: int| 0 <= i < order.len() ==> (#[trigger] order[i]) < n
    &&& forall|s: usize| s < n ==> #[trigger] order.contains(s)
    &&& forall|k: int, i: int, j: int|
        0 <= k < edges.len() && 0 <= i < order.len() && 0 <= j < order.len() && (#[trigger] order[i])
            == (#[trigger] edges[k]).0 && (#[trigger] order[j]) == edges[k].1 ==> i < j
}

/// A graph is acyclic exactly when some topological order of it exists.
pub open spec fn is_acyclic(n: nat, edges: Seq<(usize, usize, usize, usize)>) -> bool {
    exists|order: Seq<usize>| is_topological_order(order, n, edges)
}

/// In any topological order of a graph, every edge's source stands before its
/// target.
pub proof fn lemma_topological_order_places_sources_first(
    order: Seq<usize>,
    n: nat,
    edges: Seq<(usize, usize, usize, usize)>,
    k: int,
)
    requires
        is_topological_order(order, n, edges),
        0 <= k < edges.len(),
        edges[k].0 < n,
        edges[k].1 < n,
    ensures
        exists|i: int, j: int|
            0 <= i < j < order.len() && #[trigger] order[i] == edges[k].0 && #[trigger] order[j]
                == edges[k].1,
{
    let e = edges[k];
    assert(order.contains(e.0));
    assert(order.contains(e.1));
    let i = choose|i: int| 0 <= i < order.len() && order[i] == e.0;
    let j = choose|j: int| 0 <= j < order.len() && order[j] == e.1;
    assert(i < j);
}

/// Relies on petgraph's `Graph::new`: a directed graph with no nodes and no edges.
#[verifier::external_body]
pub(crate) fn empty_graph() -> (g: PatchGraph)
    ensures
        graph_nodes(g) == Seq::<u128>::empty(),
        graph_edges(g) == Seq::<(usize, usize, usize, usize)>::empty(),
{
    Graph::new()
}

/// Relies on petgraph's `Graph::add_node`: appends a node and returns its index.
/// It panics only when the index would reach `u32::MAX`.
#[verifier::external_body]
pub(crate) fn add_node(g: &mut PatchGraph, weight: u128) -> (r: usize)
    requires
        graph_nodes(*old(g)).len() < u32::MAX,
    ensures
        r == graph_nodes(*old(g)).len(),
        graph_nodes(*final(g)) == graph_nodes(*old(g)).push(weight),
        graph_edges(*final(g)) == graph_edges(*old(g)),
{
    g.add_node(weight).index()
}

/// Relies on petgraph's `Graph::add_edge`: appends an edge and returns its index.
/// It panics on a node index out of bounds, or when the edge index would reach
/// `u32::MAX`.
#[verifier::external_body]
pub(crate) fn add_edge(
    g: &mut PatchGraph,
    source: usize,
    target: usize,
    source_output: usize,
    dest_input: usize,
) -> (r: usize)
    requires
        source < graph_nodes(*old(g)).len(),
        target < graph_nodes(*old(g)).len(),
        graph_nodes(*old(g)).len() < u32::MAX,
        graph_edges(*old(g)).len() < u32::MAX,
    ensures
        r == graph_edges(*old(g)).len(),
        graph_nodes(*final(g)) == graph_nodes(*old(g)),
        graph_edges(*final(g)) == graph_edges(*old(g)).push(
            (source, target, source_output, dest_input),
        ),
{
    g.add_edge(NodeIndex::new(source), NodeIndex::new(target), (source_output, dest_input)).index()
}

/// Relies on petgraph's `Graph::remove_edge` on the last edge: it is taken off
/// the end, and no other edge moves.
#[verifier::external_body]
pub(crate) fn remove_last_edge(g: &mut PatchGraph, e: usize)
    requires
        e + 1 == graph_edges(*old(g)).len(),
        graph_edges(*old(g)).len() <= u32::MAX,
    ensures
        graph_nodes(*final(g)) == graph_nodes(*old(g)),
        graph_edges(*final(g)) == graph_edges(*old(g)).drop_last(),
{
    g.remove_edge(EdgeIndex::new(e));
}

/// Relies on petgraph's `Graph::edge_count`.
#[verifier::external_body]
pub(crate) fn edge_count(g: &PatchGraph) -> (r: usize)
    ensures
        r == graph_edges(*g).len(),
{
    g.edge_count()
}

/// Relies on petgraph's `Graph::raw_edges`: the edge at index `k`, with its
/// endpoints and weight.
#[verifier::external_body]
pub(crate) fn edge_at(g: &PatchGraph, k: usize) -> (r: (usize, usize, usize, usize))
    requires
        k < graph_edges(*g).len(),
    ensures
        r == graph_edges(*g)[k as int],
{
    let e = &g.raw_edges()[k];
    (e.source().index(), e.target().index(), e.weight.0, e.weight.1)
}

/// Relies on petgraph's `algo::toposort`: on an acyclic graph, all nodes with
/// each before its successors; otherwise a cycle error (self loops included).
#[verifier::external_body]
pub(crate) fn toposort(g: &PatchGraph) -> (r: Option<Vec<usize>>)
    ensures
        match r {
            Some(order) => is_topological_order(
                order@,
                graph_nodes(*g).len(),
                graph_edges(*g),
            ),
            None => !is_acyclic(graph_nodes(*g).len(), graph_edges(*g)),
        },
{
    match petgraph::algo::toposort(g, None) {
        Ok(order) => Some(order.into_iter().map(|n| n.index()).collect()),
        Err(_) => None,
    }
}

} // verus!
