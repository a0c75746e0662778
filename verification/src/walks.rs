//! Walks in an undirected graph whose nodes are the handles `0..nodes` and
//! whose links are an ordered list of handle pairs.

use vstd::prelude::*;

verus! {

/// Some link connects `a` and `b`, in either orientation.
pub open spec fn joined(links: Seq<(usize, usize)>, a: usize, b: usize) -> bool {
    exists|k: int| 0 <= k < links.len() && (#[trigger] links[k] == (a, b) || links[k] == (b, a))
}

/// The `i`-th step of `w` follows a link.
pub open spec fn step_ok(links: Seq<(usize, usize)>, w: Seq<usize>, i: int) -> bool {
    joined(links, w[i], w[i + 1])
}

/// `w` is a non-empty sequence of nodes in which every step follows a link.
pub open spec fn is_walk(links: Seq<(usize, usize)>, nodes: nat, w: Seq<usize>) -> bool {
    &&& w.len() > 0
    &&& forall|i: int| 0 <= i < w.len() ==> (#[trigger] w[i]) < nodes
    &&& forall|i: int| 0 <= i < w.len() - 1 ==> #[trigger] step_ok(links, w, i)
}

/// `w` is a walk that starts at `a` and ends at `b`.
pub open spec fn walk_between(
    links: Seq<(usize, usize)>,
    nodes: nat,
    a: usize,
    b: usize,
    w: Seq<usize>,
) -> bool {
    is_walk(links, nodes, w) && w[0] == a && w.last() == b
}

/// `w` is a walk from `a` to `b` and no walk from `a` to `b` has fewer nodes.
pub open spec fn shortest_between(
    links: Seq<(usize, usize)>,
    nodes: nat,
    a: usize,
    b: usize,
    w: Seq<usize>,
) -> bool {
    &&& walk_between(links, nodes, a, b, w)
    &&& forall|v: Seq<usize>| #[trigger] walk_between(links, nodes, a, b, v) ==> w.len() <= v.len()
}

} // verus!
