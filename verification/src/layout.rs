//! How the stop graph spells a network: the names on its nodes are the
//! stops, and each edge is a link between the names on its two ends. Walks
//! over handles and routes over names are then the same thing.

use crate::graph::{edge_ends, node_names, StopGraph};
use crate::tracks::Tracks;
use crate::walks::{joined, shortest_between, step_ok, walk_between};
use vstd::prelude::*;

verus! {

/// The network that the graph holds.
pub open spec fn tracks_of(g: StopGraph) -> Tracks {
    let names = node_names(g);
    let ends = edge_ends(g);
    Tracks {
        stops: names,
        links: Seq::new(ends.len(), |k: int| (names[ends[k].0 as int], names[ends[k].1 as int])),
    }
}

/// Every edge of the graph ends at nodes of the graph, every node has a
/// handle that fits the machine, and the network that the graph holds is
/// well formed.
pub open spec fn graph_ok(g: StopGraph) -> bool {
    &&& node_names(g).len() <= usize::MAX + 1
    &&& forall|k: int|
        0 <= k < edge_ends(g).len() ==> (#[trigger] edge_ends(g)[k]).0 < node_names(g).len()
            && edge_ends(g)[k].1 < node_names(g).len()
    &&& tracks_of(g).wf()
}

/// `index` finds the handle of every stop of a graph that is in order: its
/// keys are the stops, and each stop is mapped to the node that holds it.
pub open spec fn indexed(g: StopGraph, index: Map<Seq<char>, usize>) -> bool {
    &&& graph_ok(g)
    &&& forall|s: Seq<char>| #[trigger] index.contains_key(s) <==> node_names(g).contains(s)
    &&& forall|i: int| 0 <= i < node_names(g).len() ==> index[#[trigger] node_names(g)[i]] == i
}

/// The names on the nodes that a walk visits.
pub open spec fn names_along(names: Seq<Seq<char>>, w: Seq<usize>) -> Seq<Seq<char>> {
    Seq::new(w.len(), |i: int| names[w[i] as int])
}

/// The handles of the stops that a route visits.
pub open spec fn handles_along(names: Seq<Seq<char>>, path: Seq<Seq<char>>) -> Seq<usize> {
    Seq::new(path.len(), |i: int| names.index_of(path[i]) as usize)
}

/// In a list without repetition a name is found where it stands.
pub proof fn lemma_handle(names: Seq<Seq<char>>, i: int)
    requires
        names.no_duplicates(),
        0 <= i < names.len(),
    ensures
        names.index_of(names[i]) == i,
{
    let j = names.index_of(names[i]);
    assert(0 <= j < names.len() && names[j] == names[i]);
}

/// An edge joins two nodes exactly where a link joins their names.
pub proof fn lemma_joined_is_adjacent(g: StopGraph, a: usize, b: usize)
    requires
        graph_ok(g),
        a < node_names(g).len(),
        b < node_names(g).len(),
    ensures
        joined(edge_ends(g), a, b) <==> tracks_of(g).adjacent(
            node_names(g)[a as int],
            node_names(g)[b as int],
        ),
{
    let names = node_names(g);
    let ends = edge_ends(g);
    let t = tracks_of(g);
    let na = names[a as int];
    let nb = names[b as int];
    if joined(ends, a, b) {
        let k = choose|k: int|
            0 <= k < ends.len() && (#[trigger] ends[k] == (a, b) || ends[k] == (b, a));
        assert(t.links[k] == (na, nb) || t.links[k] == (nb, na));
    }
    if t.adjacent(na, nb) {
        let k = choose|k: int|
            0 <= k < t.links.len() && (#[trigger] t.links[k] == (na, nb) || t.links[k] == (nb, na));
        let e = ends[k];
        assert(e.0 < names.len() && e.1 < names.len());
        assert(t.links[k] == (names[e.0 as int], names[e.1 as int]));
        assert(ends[k] == (a, b) || ends[k] == (b, a));
    }
}

/// The names along a walk are a route between the names of its ends.
pub proof fn lemma_walk_is_route(g: StopGraph, a: usize, b: usize, w: Seq<usize>)
    requires
        graph_ok(g),
        walk_between(edge_ends(g), node_names(g).len(), a, b, w),
    ensures
        tracks_of(g).is_route(
            node_names(g)[a as int],
            node_names(g)[b as int],
            names_along(node_names(g), w),
        ),
{
    let names = node_names(g);
    let t = tracks_of(g);
    let p = names_along(names, w);
    assert forall|i: int| 0 <= i < p.len() implies t.has_stop(#[trigger] p[i]) by {
        assert(w[i] < names.len());
        assert(names[w[i] as int] == p[i]);
    }
    assert forall|i: int| 0 <= i < p.len() - 1 implies #[trigger] t.hop_ok(p, i) by {
        assert(step_ok(edge_ends(g), w, i));
        assert(w[i] < names.len());
        assert(w[i + 1] < names.len());
        lemma_joined_is_adjacent(g, w[i], w[i + 1]);
    }
}

/// The handles along a route are a walk between the handles of its ends,
/// with as many nodes as the route has stops.
pub proof fn lemma_route_is_walk(g: StopGraph, a: Seq<char>, b: Seq<char>, path: Seq<Seq<char>>)
    requires
        graph_ok(g),
        tracks_of(g).is_route(a, b, path),
    ensures
        walk_between(
            edge_ends(g),
            node_names(g).len(),
            node_names(g).index_of(a) as usize,
            node_names(g).index_of(b) as usize,
            handles_along(node_names(g), path),
        ),
        handles_along(node_names(g), path).len() == path.len(),
{
    let names = node_names(g);
    let t = tracks_of(g);
    let w = handles_along(names, path);
    assert forall|i: int| 0 <= i < w.len() implies (#[trigger] w[i]) < names.len() && names[w[i] as int]
        == path[i] by {
        assert(t.has_stop(path[i]));
        let j = names.index_of(path[i]);
        assert(0 <= j < names.len() && names[j] == path[i]);
    }
    assert forall|i: int| 0 <= i < w.len() - 1 implies #[trigger] step_ok(edge_ends(g), w, i) by {
        assert(t.hop_ok(path, i));
        assert(w[i] < names.len() && names[w[i] as int] == path[i]);
        assert(w[i + 1] < names.len() && names[w[i + 1] as int] == path[i + 1]);
        lemma_joined_is_adjacent(g, w[i], w[i + 1]);
    }
    assert(w[0] < names.len());
    assert(w[w.len() - 1] < names.len());
}

/// The names along a shortest walk are a shortest route.
pub proof fn lemma_shortest_walk_is_shortest_route(g: StopGraph, a: usize, b: usize, w: Seq<usize>)
    requires
        graph_ok(g),
        a < node_names(g).len(),
        b < node_names(g).len(),
        shortest_between(edge_ends(g), node_names(g).len(), a, b, w),
    ensures
        tracks_of(g).is_shortest_route(
            node_names(g)[a as int],
            node_names(g)[b as int],
            names_along(node_names(g), w),
        ),
{
    let names = node_names(g);
    let t = tracks_of(g);
    let na = names[a as int];
    let nb = names[b as int];
    lemma_walk_is_route(g, a, b, w);
    lemma_handle(names, a as int);
    lemma_handle(names, b as int);
    assert forall|q: Seq<Seq<char>>| #[trigger] t.is_route(na, nb, q) implies w.len()
        <= q.len() by {
        lemma_route_is_walk(g, na, nb, q);
        assert(walk_between(edge_ends(g), names.len(), a, b, handles_along(names, q)));
    }
}

/// Where no walk joins two nodes, no route joins their names.
pub proof fn lemma_no_walk_no_route(g: StopGraph, a: usize, b: usize)
    requires
        graph_ok(g),
        a < node_names(g).len(),
        b < node_names(g).len(),
        forall|v: Seq<usize>| !#[trigger] walk_between(edge_ends(g), node_names(g).len(), a, b, v),
    ensures
        forall|q: Seq<Seq<char>>|
            !#[trigger] tracks_of(g).is_route(node_names(g)[a as int], node_names(g)[b as int], q),
{
    let names = node_names(g);
    let t = tracks_of(g);
    let na = names[a as int];
    let nb = names[b as int];
    lemma_handle(names, a as int);
    lemma_handle(names, b as int);
    assert forall|q: Seq<Seq<char>>| !#[trigger] t.is_route(na, nb, q) by {
        if t.is_route(na, nb, q) {
            lemma_route_is_walk(g, na, nb, q);
            assert(walk_between(edge_ends(g), names.len(), a, b, handles_along(names, q)));
        }
    }
}

} // verus!
