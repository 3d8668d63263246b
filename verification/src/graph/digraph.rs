//! The directed graph of `petgraph`, as far as the automaton needs it.
//!
//! Nothing in this file is proved. The graph is named by two sequences, its
//! node weights in the order of their indices and its edges in the order of
//! theirs, and each function below states over them what the outside method
//! it calls does.

use petgraph::graph::{Graph, NodeIndex};
use petgraph::Directed;
use vstd::prelude::*;

verus! {

/// `petgraph::Directed`, the marker of a graph whose edges have a direction.
#[verifier::external_type_specification]
#[verifier::external_body]
pub struct ExDirected(Directed);

/// `petgraph::graph::Graph`.
#[verifier::external_type_specification]
#[verifier::external_body]
#[verifier::reject_recursive_types(N)]
#[verifier::reject_recursive_types(E)]
#[verifier::reject_recursive_types(Ty)]
#[verifier::reject_recursive_types(Ix)]
pub struct ExGraph<N, E, Ty, Ix>(Graph<N, E, Ty, Ix>);

/// The weights of the nodes of a graph, the node of index `i` at place `i`.
pub uninterp spec fn graph_nodes(graph: Graph<i32, String, Directed, u32>) -> Seq<i32>;

/// The edges of a graph, the edge of index `i` at place `i`: the index of
/// its source, the index of its target, and its weight.
pub uninterp spec fn graph_edges(graph: Graph<i32, String, Directed, u32>) -> Seq<
    (int, int, Seq<char>),
>;

/// `Graph::new` gives a graph with no node and no edge.
#[verifier::external_body]
pub(crate) fn new_graph() -> (graph: Graph<i32, String, Directed, u32>)
    ensures
        graph_nodes(graph) == Seq::<i32>::empty(),
        graph_edges(graph) == Seq::<(int, int, Seq<char>)>::empty(),
{
    Graph::new()
}

/// `Graph::add_node` appends a node with the weight and returns its index,
/// which is the number of nodes there were; the edges stay. It panics when
/// the graph holds as many nodes as its index type can count, which the
/// `requires` rules out.
#[verifier::external_body]
pub(crate) fn add_node(graph: &mut Graph<i32, String, Directed, u32>, weight: i32) -> (index: usize)
    requires
        graph_nodes(*old(graph)).len() < u32::MAX,
    ensures
        graph_nodes(*final(graph)) == graph_nodes(*old(graph)).push(weight),
        graph_edges(*final(graph)) == graph_edges(*old(graph)),
        index == graph_nodes(*old(graph)).len(),
{
    graph.add_node(weight).index()
}

/// `Graph::add_edge` appends an edge from the node of one index to the node
/// of another, with the weight; the nodes stay. It panics when an index
/// names no node or the graph holds as many edges as its index type can
/// count, which the `requires` rules out.
#[verifier::external_body]
pub(crate) fn add_edge(
    graph: &mut Graph<i32, String, Directed, u32>,
    source: usize,
    target: usize,
    weight: String,
)
    requires
        source < graph_nodes(*old(graph)).len(),
        target < graph_nodes(*old(graph)).len(),
        graph_nodes(*old(graph)).len() <= u32::MAX,
        graph_edges(*old(graph)).len() < u32::MAX,
    ensures
        graph_nodes(*final(graph)) == graph_nodes(*old(graph)),
        graph_edges(*final(graph)) == graph_edges(*old(graph)).push(
            (source as int, target as int, weight@),
        ),
{
    graph.add_edge(NodeIndex::new(source), NodeIndex::new(target), weight);
}

} // verus!
