//! The call graph: a directed petgraph graph with canonical-path node
//! weights, held behind a small trusted surface.  Node weights are the
//! functions' canonical paths; edge weights index the call-site location
//! list kept beside the graph.

use vstd::prelude::*;

verus! {

#[verifier::external_type_specification]
#[verifier::external_body]
#[verifier::reject_recursive_types(N)]
#[verifier::reject_recursive_types(E)]
#[verifier::reject_recursive_types(Ty)]
#[verifier::reject_recursive_types(Ix)]
pub struct ExGraph<N, E, Ty, Ix>(petgraph::graph::Graph<N, E, Ty, Ix>);

#[verifier::external_type_specification]
#[verifier::external_body]
pub struct ExDirected(petgraph::Directed);

/// The concrete graph shape used for the call graph.
pub type CallGraph = petgraph::graph::Graph<String, usize, petgraph::Directed, usize>;

/// The node weights of the call graph, in node-index order.
pub uninterp spec fn graph_nodes(g: CallGraph) -> Seq<Seq<char>>;

/// The edges of the call graph: source index, target index, edge weight.
pub uninterp spec fn graph_edges(g: CallGraph) -> Seq<(int, int, int)>;

/// Relies on petgraph's `Graph::with_capacity`: a graph with no nodes
/// and no edges.
#[verifier::external_body]
pub(crate) fn graph_new() -> (g: CallGraph)
    ensures
        graph_nodes(g) == Seq::<Seq<char>>::empty(),
        graph_edges(g) == Seq::<(int, int, int)>::empty(),
{
    petgraph::graph::Graph::with_capacity(0, 0)
}

/// Relies on petgraph's `Graph::add_node`: appends one node and returns
/// its index, the old node count; with `usize` indices the index limit
/// cannot be reached.
#[verifier::external_body]
pub(crate) fn graph_add_node(g: &mut CallGraph, weight: String) -> (r: usize)
    ensures
        graph_nodes(*final(g)) == graph_nodes(*old(g)).push(weight@),
        graph_edges(*final(g)) == graph_edges(*old(g)),
        r == graph_nodes(*old(g)).len(),
{
    g.add_node(weight).index()
}

/// Relies on petgraph's `Graph::add_edge`: appends one `a -> b` edge;
/// it panics when an endpoint does not exist, so valid endpoints are
/// required; with `usize` indices the edge-index limit cannot be reached.
#[verifier::external_body]
pub(crate) fn graph_add_edge(g: &mut CallGraph, a: usize, b: usize, weight: usize)
    requires
        a < graph_nodes(*old(g)).len(),
        b < graph_nodes(*old(g)).len(),
    ensures
        graph_nodes(*final(g)) == graph_nodes(*old(g)),
        graph_edges(*final(g)) == graph_edges(*old(g)).push((a as int, b as int, weight as int)),
{
    g.add_edge(
        petgraph::graph::NodeIndex::new(a),
        petgraph::graph::NodeIndex::new(b),
        weight,
    );
}

/// Relies on petgraph's `Graph::node_count`: the number of nodes.
#[verifier::external_body]
pub(crate) fn graph_node_count(g: &CallGraph) -> (r: usize)
    ensures
        r == graph_nodes(*g).len(),
{
    g.node_count()
}

/// Relies on petgraph's `Graph::edge_count`: the number of edges.
#[verifier::external_body]
pub(crate) fn graph_edge_count(g: &CallGraph) -> (r: usize)
    ensures
        r == graph_edges(*g).len(),
{
    g.edge_count()
}

} // verus!
