//! The stop graph, kept in a `petgraph` graph.
//!
//! Verus does not look inside `petgraph`. What the rest of the crate knows
//! about the graph is what the contracts in this file say: they are taken
//! from the `petgraph` sources and documentation, and are not proved.

use crate::walks::{joined, shortest_between, walk_between};
use petgraph::graph::{Graph, NodeIndex};
use petgraph::Undirected;
use vstd::prelude::*;

verus! {

/// `petgraph::graph::Graph`, carried as an opaque value: nothing is known
/// of it but what the contracts below say.
#[verifier::external_type_specification]
#[verifier::external_body]
#[verifier::reject_recursive_types(N)]
#[verifier::reject_recursive_types(E)]
#[verifier::reject_recursive_types(Ty)]
#[verifier::reject_recursive_types(Ix)]
pub struct ExGraph<N, E, Ty, Ix>(Graph<N, E, Ty, Ix>);

/// `petgraph::Undirected`, the marker of graphs whose edges have no
/// direction.
#[verifier::external_type_specification]
#[verifier::external_body]
pub struct ExUndirected(Undirected);

/// An undirected graph whose nodes carry stop names and whose edges carry
/// nothing; nodes are addressed by `usize` handles.
pub type StopGraph = Graph<String, (), Undirected, usize>;

/// The names held by the nodes of the graph, in handle order: node `i`
/// holds `node_names(g)[i]`.
pub uninterp spec fn node_names(g: Graph<String, (), Undirected, usize>) -> Seq<Seq<char>>;

/// The endpoints of the edges of the graph, in the order in which the edges
/// were added.
pub uninterp spec fn edge_ends(g: Graph<String, (), Undirected, usize>) -> Seq<(usize, usize)>;

/// `Graph::default`: a graph without nodes and without edges.
#[verifier::external_body]
pub(crate) fn empty_graph() -> (g: StopGraph)
    ensures
        node_names(g) == Seq::<Seq<char>>::empty(),
        edge_ends(g) == Seq::<(usize, usize)>::empty(),
{
    Graph::default()
}

/// `Graph::node_count`: the number of nodes.
#[verifier::external_body]
pub(crate) fn node_total(g: &StopGraph) -> (n: usize)
    ensures
        n == node_names(*g).len(),
{
    g.node_count()
}

/// `Graph::add_node`: appends a node that holds `name` and returns its
/// handle, which is the number of nodes there were before. Edges are left as
/// they are. With `usize` handles the graph has no node limit of its own.
#[verifier::external_body]
pub(crate) fn add_stop_node(g: &mut StopGraph, name: String) -> (handle: usize)
    ensures
        handle == node_names(*old(g)).len(),
        node_names(*final(g)) == node_names(*old(g)).push(name@),
        edge_ends(*final(g)) == edge_ends(*old(g)),
{
    g.add_node(name).index()
}

/// `Graph::update_edge`: where an edge already connects `a` and `b`, in
/// either orientation, the graph keeps its edges; otherwise the edge
/// `(a, b)` is appended. Nodes are left as they are. `petgraph` panics on a
/// handle that is not a node of the graph.
#[verifier::external_body]
pub(crate) fn connect(g: &mut StopGraph, a: usize, b: usize)
    requires
        a < node_names(*old(g)).len(),
        b < node_names(*old(g)).len(),
    ensures
        node_names(*final(g)) == node_names(*old(g)),
        edge_ends(*final(g)) == if joined(edge_ends(*old(g)), a, b) {
            edge_ends(*old(g))
        } else {
            edge_ends(*old(g)).push((a, b))
        },
{
    g.update_edge(NodeIndex::new(a), NodeIndex::new(b), ());
}

/// `Graph::node_weight`: the name held by node `handle`, or `None` where
/// the graph has no such node.
#[verifier::external_body]
pub(crate) fn node_name(g: &StopGraph, handle: usize) -> (name: Option<&String>)
    ensures
        match name {
            Some(s) => handle < node_names(*g).len() && s@ == node_names(*g)[handle as int],
            None => handle >= node_names(*g).len(),
        },
{
    g.node_weight(NodeIndex::new(handle))
}

/// The goal test handed to the search.
fn is_goal(node: usize, goal: usize) -> (r: bool)
    ensures
        r == (node == goal),
{
    node == goal
}

/// The cost of travelling along one edge.
fn edge_cost() -> (c: usize)
    ensures
        c == 1,
{
    1
}

/// The estimate of the remaining cost: none, so that the search is exact.
fn remaining_estimate() -> (c: usize)
    ensures
        c == 0,
{
    0
}

/// `petgraph::algo::astar` with unit edge costs and a zero estimate: a walk
/// from `start` to `goal` with the fewest nodes, or `None` where no walk
/// leads from `start` to `goal`. Which of several shortest walks comes back
/// is left open.
#[verifier::external_body]
pub(crate) fn shortest_walk(g: &StopGraph, start: usize, goal: usize) -> (found: Option<Vec<usize>>)
    requires
        start < node_names(*g).len(),
        goal < node_names(*g).len(),
    ensures
        match found {
            Some(w) => shortest_between(edge_ends(*g), node_names(*g).len(), start, goal, w@),
            None => forall|v: Seq<usize>|
                !#[trigger] walk_between(edge_ends(*g), node_names(*g).len(), start, goal, v),
        },
{
    let found = petgraph::algo::astar(
        g,
        NodeIndex::new(start),
        |n| is_goal(n.index(), goal),
        |_| edge_cost(),
        |_| remaining_estimate(),
    );
    found.map(|(_, path)| path.into_iter().map(|n| n.index()).collect())
}

} // verus!
