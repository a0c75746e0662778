//! The network as a mathematical object: an ordered list of distinct stop
//! names and a list of undirected links between them. Routes, shortest
//! routes, and the way a network grows when a run of stops is laid onto it
//! are all stated here, over names alone.

use vstd::prelude::*;

verus! {

/// Stops and the links between them.
pub struct Tracks {
    /// The stops, in the order in which they were first named.
    pub stops: Seq<Seq<char>>,
    /// The links, in the order in which they were laid; a link joins its two
    /// stops in both directions.
    pub links: Seq<(Seq<char>, Seq<char>)>,
}

impl Tracks {
    /// The network without stops.
    pub open spec fn empty() -> Tracks {
        Tracks { stops: Seq::empty(), links: Seq::empty() }
    }

    /// `name` is a stop of the network.
    pub open spec fn has_stop(self, name: Seq<char>) -> bool {
        self.stops.contains(name)
    }

    /// A link joins `a` and `b`: a rider travels between them without
    /// passing another stop.
    pub open spec fn adjacent(self, a: Seq<char>, b: Seq<char>) -> bool {
        exists|k: int|
            0 <= k < self.links.len() && (#[trigger] self.links[k] == (a, b) || self.links[k] == (
                b,
                a,
            ))
    }

    /// No stop is listed twice; every link joins two different stops of the
    /// network; no two links join the same pair of stops.
    pub open spec fn wf(self) -> bool {
        &&& self.stops.no_duplicates()
        &&& forall|k: int|
            0 <= k < self.links.len() ==> {
                let l = #[trigger] self.links[k];
                self.has_stop(l.0) && self.has_stop(l.1) && l.0 != l.1
            }
        &&& forall|j: int, k: int|
            0 <= j < k < self.links.len() ==> {
                let l = #[trigger] self.links[j];
                let m = #[trigger] self.links[k];
                l != m && l != (m.1, m.0)
            }
    }

    /// The `i`-th hop of `path` goes along a link.
    pub open spec fn hop_ok(self, path: Seq<Seq<char>>, i: int) -> bool {
        self.adjacent(path[i], path[i + 1])
    }

    /// `path` leads from `a` to `b` over stops of the network, every hop
    /// along a link.
    pub open spec fn is_route(self, a: Seq<char>, b: Seq<char>, path: Seq<Seq<char>>) -> bool {
        &&& path.len() > 0
        &&& path[0] == a
        &&& path.last() == b
        &&& forall|i: int| 0 <= i < path.len() ==> self.has_stop(#[trigger] path[i])
        &&& forall|i: int| 0 <= i < path.len() - 1 ==> #[trigger] self.hop_ok(path, i)
    }

    /// `path` is a route from `a` to `b`, and no route from `a` to `b` has
    /// fewer stops.
    pub open spec fn is_shortest_route(
        self,
        a: Seq<char>,
        b: Seq<char>,
        path: Seq<Seq<char>>,
    ) -> bool {
        &&& self.is_route(a, b, path)
        &&& forall|q: Seq<Seq<char>>| #[trigger] self.is_route(a, b, q) ==> path.len() <= q.len()
    }

    /// The network with the stop `name`: a name that is new becomes the last
    /// stop, a name that is known changes nothing.
    pub open spec fn with_stop(self, name: Seq<char>) -> Tracks {
        if self.has_stop(name) {
            self
        } else {
            Tracks { stops: self.stops.push(name), links: self.links }
        }
    }

    /// The network with a link between `a` and `b`: laid last where the two
    /// differ and no link joins them yet, else nothing changes.
    pub open spec fn with_link(self, a: Seq<char>, b: Seq<char>) -> Tracks {
        if a == b || self.adjacent(a, b) {
            self
        } else {
            Tracks { stops: self.stops, links: self.links.push((a, b)) }
        }
    }

    /// The network after the stops of `run` were laid onto it in order,
    /// each linked to the one before it. `prev` is the stop that the first
    /// of them is linked to, if any.
    pub open spec fn with_run(self, prev: Option<Seq<char>>, run: Seq<Seq<char>>) -> Tracks
        decreases run.len(),
    {
        if run.len() == 0 {
            self
        } else {
            let stopped = self.with_stop(run[0]);
            let linked = match prev {
                Some(p) => stopped.with_link(p, run[0]),
                None => stopped,
            };
            linked.with_run(Some(run[0]), run.drop_first())
        }
    }

    /// Adding a stop keeps a network well formed and keeps what it had.
    pub proof fn lemma_with_stop(self, name: Seq<char>)
        requires
            self.wf(),
        ensures
            self.with_stop(name).wf(),
            self.with_stop(name).has_stop(name),
            forall|s: Seq<char>|
                #[trigger] self.with_stop(name).has_stop(s) <==> self.has_stop(s) || s == name,
    {
        let t = self.with_stop(name);
        if !self.has_stop(name) {
            assert forall|s: Seq<char>| #[trigger] t.has_stop(s) <==> self.has_stop(s) || s
                == name by {
                if self.has_stop(s) {
                    let i = choose|i: int| 0 <= i < self.stops.len() && self.stops[i] == s;
                    assert(t.stops[i] == s);
                }
                if s == name {
                    assert(t.stops[self.stops.len() as int] == s);
                }
            }
            assert forall|k: int| 0 <= k < t.links.len() implies {
                let l = #[trigger] t.links[k];
                t.has_stop(l.0) && t.has_stop(l.1) && l.0 != l.1
            } by {
                let l = self.links[k];
                assert(self.has_stop(l.0) && self.has_stop(l.1));
            }
        }
    }

    /// Adding a link between two stops keeps a network well formed and
    /// keeps its stops.
    pub proof fn lemma_with_link(self, a: Seq<char>, b: Seq<char>)
        requires
            self.wf(),
            self.has_stop(a),
            self.has_stop(b),
        ensures
            self.with_link(a, b).wf(),
            self.with_link(a, b).stops == self.stops,
    {
        let t = self.with_link(a, b);
        if !(a == b || self.adjacent(a, b)) {
            let n = self.links.len() as int;
            assert forall|j: int, k: int| 0 <= j < k < t.links.len() implies {
                let l = #[trigger] t.links[j];
                let m = #[trigger] t.links[k];
                l != m && l != (m.1, m.0)
            } by {
                if k == n {
                    assert(t.links[j] == self.links[j]);
                    assert(!(self.links[j] == (a, b) || self.links[j] == (b, a)));
                } else {
                    assert(t.links[j] == self.links[j]);
                    assert(t.links[k] == self.links[k]);
                }
            }
            assert forall|k: int| 0 <= k < t.links.len() implies {
                let l = #[trigger] t.links[k];
                t.has_stop(l.0) && t.has_stop(l.1) && l.0 != l.1
            } by {
                if k < n {
                    assert(t.links[k] == self.links[k]);
                }
            }
        }
    }

    /// Laying a run keeps a network well formed; afterwards its stops are
    /// the stops it had and the stops of the run.
    pub proof fn lemma_with_run(self, prev: Option<Seq<char>>, run: Seq<Seq<char>>)
        requires
            self.wf(),
            prev matches Some(p) ==> self.has_stop(p),
        ensures
            self.with_run(prev, run).wf(),
            forall|s: Seq<char>|
                #[trigger] self.with_run(prev, run).has_stop(s) <==> self.has_stop(s)
                    || run.contains(s),
        decreases run.len(),
    {
        if run.len() > 0 {
            let stopped = self.with_stop(run[0]);
            self.lemma_with_stop(run[0]);
            let linked = match prev {
                Some(p) => stopped.with_link(p, run[0]),
                None => stopped,
            };
            if let Some(p) = prev {
                assert(stopped.has_stop(p));
                stopped.lemma_with_link(p, run[0]);
            }
            assert(linked.stops == stopped.stops);
            linked.lemma_with_run(Some(run[0]), run.drop_first());
            let done = self.with_run(prev, run);
            assert forall|s: Seq<char>| #[trigger] done.has_stop(s) <==> self.has_stop(s)
                || run.contains(s) by {
                assert(linked.has_stop(s) <==> stopped.has_stop(s));
                if run.drop_first().contains(s) {
                    let i = choose|i: int|
                        0 <= i < run.drop_first().len() && run.drop_first()[i] == s;
                    assert(run[i + 1] == s);
                }
                if run.contains(s) {
                    let i = choose|i: int| 0 <= i < run.len() && run[i] == s;
                    if i > 0 {
                        assert(run.drop_first()[i - 1] == s);
                    }
                }
            }
        }
    }

    /// Travelling a route backwards is a route between the swapped
    /// endpoints, with as many stops.
    pub proof fn lemma_reverse_route(self, a: Seq<char>, b: Seq<char>, path: Seq<Seq<char>>)
        requires
            self.is_route(a, b, path),
        ensures
            self.is_route(b, a, path.reverse()),
            path.reverse().len() == path.len(),
    {
        let r = path.reverse();
        assert forall|i: int| 0 <= i < r.len() - 1 implies #[trigger] self.hop_ok(r, i) by {
            let j = path.len() - 2 - i;
            assert(self.hop_ok(path, j));
            assert(r[i] == path[j + 1]);
            assert(r[i + 1] == path[j]);
            let k = choose|k: int|
                0 <= k < self.links.len() && (#[trigger] self.links[k] == (path[j], path[j + 1])
                    || self.links[k] == (path[j + 1], path[j]));
            assert(self.links[k] == (r[i], r[i + 1]) || self.links[k] == (r[i + 1], r[i]));
        }
        assert forall|i: int| 0 <= i < r.len() implies self.has_stop(#[trigger] r[i]) by {
            assert(r[i] == path[path.len() - 1 - i]);
        }
    }

    /// The network is undirected: a shortest route from `a` to `b` and a
    /// shortest route from `b` to `a` have the same number of stops.
    pub proof fn lemma_symmetric_length(
        self,
        a: Seq<char>,
        b: Seq<char>,
        there: Seq<Seq<char>>,
        back: Seq<Seq<char>>,
    )
        requires
            self.is_shortest_route(a, b, there),
            self.is_shortest_route(b, a, back),
        ensures
            there.len() == back.len(),
    {
        self.lemma_reverse_route(a, b, there);
        self.lemma_reverse_route(b, a, back);
    }

    /// The shortest route from a stop to itself is that stop alone.
    pub proof fn lemma_route_to_self(self, a: Seq<char>, path: Seq<Seq<char>>)
        requires
            self.has_stop(a),
            self.is_shortest_route(a, a, path),
        ensures
            path == seq![a],
    {
        let one = seq![a];
        assert(self.is_route(a, a, one));
        assert(path.len() == 1);
        assert(path =~= one);
    }

    /// All shortest routes between two stops have the same number of stops.
    pub proof fn lemma_shortest_routes_agree(
        self,
        a: Seq<char>,
        b: Seq<char>,
        p: Seq<Seq<char>>,
        q: Seq<Seq<char>>,
    )
        requires
            self.is_shortest_route(a, b, p),
            self.is_shortest_route(a, b, q),
        ensures
            p.len() == q.len(),
    {
    }

    /// The shortest route between two different stops that a link joins is
    /// the two stops themselves.
    pub proof fn lemma_route_to_neighbour(self, a: Seq<char>, b: Seq<char>, path: Seq<Seq<char>>)
        requires
            self.has_stop(a),
            self.has_stop(b),
            a != b,
            self.adjacent(a, b),
            self.is_shortest_route(a, b, path),
        ensures
            path == seq![a, b],
    {
        let two = seq![a, b];
        assert(self.hop_ok(two, 0));
        assert(self.is_route(a, b, two));
        assert(path.len() == 2);
        assert(path =~= two);
    }
}

} // verus!
