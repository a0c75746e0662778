//! The metro: a built network, and the two queries that it answers.

use crate::fare::{classify, lemma_single_line_path, line_count, names_of};
use crate::graph::{empty_graph, node_name, node_names, shortest_walk, StopGraph};
use crate::layout::{
    indexed, lemma_no_walk_no_route, lemma_shortest_walk_is_shortest_route, names_along, tracks_of,
};
use crate::manage_metro_map::{
    cairo_interchanges, cairo_owners, cairo_tracks, get_metro_map, get_station_line_map,
    interchange_set, lemma_cairo_network, owners_with, populate_line, populate_line_from,
    populate_station_to_line, station_names, stop_names, TRANSFER_STATIONS,
};
use crate::ticket::{tier_of, MetroError, Ticket};
use crate::tracks::Tracks;
use vstd::hash_map::StringHashMap;
use vstd::hash_set::StringHashSet;
use vstd::prelude::*;

verus! {

/// A line: its number and its stops in travelling order.
pub struct Line {
    pub id: u8,
    pub stops: Vec<String>,
}

/// A branch of a line: further stops in travelling order, the first of them
/// linked to the stop `anchor` of an earlier line or branch.
pub struct Branch {
    pub line: u8,
    pub anchor: String,
    pub stops: Vec<String>,
}

/// The tracks after the lines were laid onto `t` in order.
pub open spec fn lay_lines(t: Tracks, lines: Seq<Line>) -> Tracks
    decreases lines.len(),
{
    if lines.len() == 0 {
        t
    } else {
        lay_lines(t.with_run(None, names_of(lines[0].stops@)), lines.drop_first())
    }
}

/// The tracks after the branches were laid onto `t` in order, or the first
/// anchor that was not a stop when its branch was reached.
pub open spec fn lay_branches(t: Tracks, branches: Seq<Branch>) -> Result<Tracks, Seq<char>>
    decreases branches.len(),
{
    if branches.len() == 0 {
        Ok(t)
    } else if !t.has_stop(branches[0].anchor@) {
        Err(branches[0].anchor@)
    } else {
        lay_branches(
            t.with_run(Some(branches[0].anchor@), names_of(branches[0].stops@)),
            branches.drop_first(),
        )
    }
}

/// The owners after each line in order was given its stops.
pub open spec fn own_lines(
    owners: Map<Seq<char>, u8>,
    lines: Seq<Line>,
    interchanges: Set<Seq<char>>,
) -> Map<Seq<char>, u8>
    decreases lines.len(),
{
    if lines.len() == 0 {
        owners
    } else {
        own_lines(
            owners_with(owners, names_of(lines[0].stops@), lines[0].id, interchanges),
            lines.drop_first(),
            interchanges,
        )
    }
}

/// The owners after each branch in order gave its stops to its line.
pub open spec fn own_branches(
    owners: Map<Seq<char>, u8>,
    branches: Seq<Branch>,
    interchanges: Set<Seq<char>>,
) -> Map<Seq<char>, u8>
    decreases branches.len(),
{
    if branches.len() == 0 {
        owners
    } else {
        own_branches(
            owners_with(owners, names_of(branches[0].stops@), branches[0].line, interchanges),
            branches.drop_first(),
            interchanges,
        )
    }
}

/// The tracks of the network that the lines and branches describe, or the
/// anchor that no earlier line or branch defined.
pub open spec fn planned_tracks(lines: Seq<Line>, branches: Seq<Branch>) -> Result<
    Tracks,
    Seq<char>,
> {
    lay_branches(lay_lines(Tracks::empty(), lines), branches)
}

/// The line of every stop that is not an interchange: the line, or the line
/// of the branch, that named the stop first.
pub open spec fn planned_owners(
    lines: Seq<Line>,
    branches: Seq<Branch>,
    interchanges: Set<Seq<char>>,
) -> Map<Seq<char>, u8> {
    own_branches(own_lines(Map::empty(), lines, interchanges), branches, interchanges)
}

/// The stops that have a line are the stops that are no interchange.
pub open spec fn covered(
    t: Tracks,
    owners: Map<Seq<char>, u8>,
    interchanges: Set<Seq<char>>,
) -> bool {
    forall|s: Seq<char>|
        #[trigger] owners.contains_key(s) <==> t.has_stop(s) && !interchanges.contains(s)
}

/// A transit network that answers queries for shortest paths and fares.
pub struct Metro {
    metro_graph: StopGraph,
    station_node_map: StringHashMap<usize>,
    station_line_map: StringHashMap<u8>,
    transfer_stations: StringHashSet,
    /// Every stop of the network, in the order in which the stops were
    /// first named.
    pub all_stations: Vec<String>,
}

impl Metro {
    /// The stops of the network and the links between them.
    pub closed spec fn tracks(&self) -> Tracks {
        tracks_of(self.metro_graph)
    }

    /// The line of each stop that has one.
    pub closed spec fn lines(&self) -> Map<Seq<char>, u8> {
        self.station_line_map@
    }

    /// The interchange stops.
    pub closed spec fn interchanges(&self) -> Set<Seq<char>> {
        self.transfer_stations@
    }

    /// The names in the public list `all_stations`.
    pub closed spec fn listed(&self) -> Seq<Seq<char>> {
        names_of(self.all_stations@)
    }

    /// The network is in order: its tracks are well formed, every stop can
    /// be looked up, and every stop is an interchange or has a line, never
    /// both.
    pub closed spec fn wf(&self) -> bool {
        &&& indexed(self.metro_graph, self.station_node_map@)
        &&& covered(self.tracks(), self.lines(), self.interchanges())
    }

    /// What a network in order offers to its callers.
    pub proof fn lemma_wf(&self)
        requires
            self.wf(),
        ensures
            self.tracks().wf(),
            covered(self.tracks(), self.lines(), self.interchanges()),
    {
    }

    /// The Cairo metro.
    pub fn new() -> (metro: Metro)
        ensures
            metro.wf(),
            metro.tracks() == cairo_tracks(),
            metro.lines() == cairo_owners(),
            metro.interchanges() == cairo_interchanges(),
            metro.listed() == cairo_tracks().stops,
    {
        let (metro_graph, station_node_map) = get_metro_map();
        let station_line_map = get_station_line_map();
        let transfer_stations = interchange_set(&station_names(&TRANSFER_STATIONS));
        let all_stations = stop_names(&metro_graph);
        proof {
            lemma_cairo_network();
        }
        Metro { metro_graph, station_node_map, station_line_map, transfer_stations, all_stations }
    }

    /// Builds a network: the lines are laid in order, then the branches,
    /// and every stop that is not in `interchanges` gets the line that
    /// named it first. Fails with `UnknownAnchor` at the first branch whose
    /// anchor is not yet a stop.
    pub fn build(lines: &Vec<Line>, branches: &Vec<Branch>, interchanges: &Vec<String>) -> (r:
        Result<Metro, MetroError>)
        ensures
            match r {
                Ok(metro) => {
                    &&& metro.wf()
                    &&& planned_tracks(lines@, branches@) == Ok::<Tracks, Seq<char>>(
                        metro.tracks(),
                    )
                    &&& metro.lines() == planned_owners(
                        lines@,
                        branches@,
                        names_of(interchanges@).to_set(),
                    )
                    &&& metro.interchanges() == names_of(interchanges@).to_set()
                    &&& metro.listed() == metro.tracks().stops
                },
                Err(MetroError::UnknownAnchor(name)) => planned_tracks(lines@, branches@) == Err::<
                    Tracks,
                    Seq<char>,
                >(name@),
                Err(_) => false,
            },
    {
        let transfer_stations = interchange_set(interchanges);
        let ghost inter = transfer_stations@;
        let mut metro_graph = empty_graph();
        let mut station_node_map = StringHashMap::<usize>::new();
        let mut station_line_map = StringHashMap::<u8>::new();
        proof {
            assert(tracks_of(metro_graph).links =~= Tracks::empty().links);
            assert(lines@.skip(0) =~= lines@);
        }
        let mut i: usize = 0;
        while i < lines.len()
            invariant
                i <= lines.len(),
                inter == transfer_stations@,
                indexed(metro_graph, station_node_map@),
                covered(tracks_of(metro_graph), station_line_map@, inter),
                lay_lines(tracks_of(metro_graph), lines@.skip(i as int)) == lay_lines(
                    Tracks::empty(),
                    lines@,
                ),
                own_lines(station_line_map@, lines@.skip(i as int), inter) == own_lines(
                    Map::empty(),
                    lines@,
                    inter,
                ),
            decreases lines.len() - i,
        {
            let line = &lines[i];
            proof {
                assert(lines@.skip(i as int)[0] == lines@[i as int]);
                assert(lines@.skip(i as int).drop_first() =~= lines@.skip(i + 1));
                tracks_of(metro_graph).lemma_with_run(None, names_of(line.stops@));
            }
            populate_line(&mut metro_graph, &line.stops, &mut station_node_map);
            populate_station_to_line(
                &mut station_line_map,
                &line.stops,
                line.id,
                &transfer_stations,
            );
            i += 1;
        }
        let ghost trunk = tracks_of(metro_graph);
        let ghost trunk_owners = station_line_map@;
        proof {
            assert(lines@.skip(lines@.len() as int) =~= Seq::<Line>::empty());
            assert(branches@.skip(0) =~= branches@);
        }
        let mut j: usize = 0;
        while j < branches.len()
            invariant
                j <= branches.len(),
                inter == transfer_stations@,
                trunk == lay_lines(Tracks::empty(), lines@),
                indexed(metro_graph, station_node_map@),
                covered(tracks_of(metro_graph), station_line_map@, inter),
                lay_branches(tracks_of(metro_graph), branches@.skip(j as int)) == lay_branches(
                    trunk,
                    branches@,
                ),
                own_branches(station_line_map@, branches@.skip(j as int), inter) == own_branches(
                    trunk_owners,
                    branches@,
                    inter,
                ),
            decreases branches.len() - j,
        {
            let branch = &branches[j];
            proof {
                assert(branches@.skip(j as int)[0] == branches@[j as int]);
                assert(branches@.skip(j as int).drop_first() =~= branches@.skip(j + 1));
            }
            if !station_node_map.contains_key(branch.anchor.as_str()) {
                return Err(MetroError::UnknownAnchor(branch.anchor.clone()));
            }
            proof {
                tracks_of(metro_graph).lemma_with_run(
                    Some(branch.anchor@),
                    names_of(branch.stops@),
                );
            }
            populate_line_from(
                &mut metro_graph,
                &branch.stops,
                &mut station_node_map,
                branch.anchor.as_str(),
            );
            populate_station_to_line(
                &mut station_line_map,
                &branch.stops,
                branch.line,
                &transfer_stations,
            );
            j += 1;
        }
        proof {
            assert(branches@.skip(branches@.len() as int) =~= Seq::<Branch>::empty());
        }
        let all_stations = stop_names(&metro_graph);
        Ok(Metro { metro_graph, station_node_map, station_line_map, transfer_stations, all_stations })
    }

    /// Every stop of the network, in the order in which the stops were
    /// first named.
    pub fn get_all_stations(&self) -> (all_stations: Vec<String>)
        ensures
            names_of(all_stations@) == self.tracks().stops,
    {
        stop_names(&self.metro_graph)
    }

    /// A shortest path from `start` to `destination`, both included. Fails
    /// with `UnknownStop` where one of the two is no stop of the network
    /// (naming `start` if it is unknown, else `destination`), and with
    /// `NoPathFound` where no route joins them.
    pub fn path_between(&self, start: &str, destination: &str) -> (r: Result<
        Vec<String>,
        MetroError,
    >)
        requires
            self.wf(),
        ensures
            match r {
                Ok(path) => {
                    &&& self.tracks().has_stop(start@)
                    &&& self.tracks().has_stop(destination@)
                    &&& self.tracks().is_shortest_route(start@, destination@, names_of(path@))
                },
                Err(MetroError::UnknownStop(name)) => if !self.tracks().has_stop(start@) {
                    name@ == start@
                } else {
                    !self.tracks().has_stop(destination@) && name@ == destination@
                },
                Err(MetroError::NoPathFound) => {
                    &&& self.tracks().has_stop(start@)
                    &&& self.tracks().has_stop(destination@)
                    &&& forall|q: Seq<Seq<char>>|
                        !#[trigger] self.tracks().is_route(start@, destination@, q)
                },
                Err(_) => false,
            },
            start@ == destination@ && self.tracks().has_stop(start@) ==> (r matches Ok(path)
                && names_of(path@) == seq![start@]),
    {
        let ghost names = node_names(self.metro_graph);
        let from = match self.station_node_map.get(start) {
            Some(h) => *h,
            None => {
                return Err(MetroError::UnknownStop(start.to_owned()));
            },
        };
        let to = match self.station_node_map.get(destination) {
            Some(h) => *h,
            None => {
                return Err(MetroError::UnknownStop(destination.to_owned()));
            },
        };
        proof {
            let i = choose|i: int| 0 <= i < names.len() && names[i] == start@;
            assert(self.station_node_map@[names[i]] == i);
            let j = choose|j: int| 0 <= j < names.len() && names[j] == destination@;
            assert(self.station_node_map@[names[j]] == j);
        }
        match shortest_walk(&self.metro_graph, from, to) {
            None => {
                proof {
                    lemma_no_walk_no_route(self.metro_graph, from, to);
                    if start@ == destination@ {
                        assert(self.tracks().is_route(start@, destination@, seq![start@]));
                    }
                }
                Err(MetroError::NoPathFound)
            },
            Some(walk) => {
                proof {
                    lemma_shortest_walk_is_shortest_route(self.metro_graph, from, to, walk@);
                }
                let mut path: Vec<String> = Vec::new();
                let mut i: usize = 0;
                while i < walk.len()
                    invariant
                        i <= walk.len(),
                        names == node_names(self.metro_graph),
                        forall|k: int| 0 <= k < walk@.len() ==> (#[trigger] walk@[k]) < names.len(),
                        path@.len() == i,
                        forall|k: int|
                            0 <= k < i ==> (#[trigger] path@[k])@ == names[walk@[k] as int],
                    decreases walk.len() - i,
                {
                    let name = node_name(&self.metro_graph, walk[i]);
                    path.push(name.unwrap().clone());
                    i += 1;
                }
                proof {
                    assert(names_of(path@) =~= names_along(names, walk@));
                    if start@ == destination@ {
                        self.tracks().lemma_route_to_self(start@, names_of(path@));
                    }
                }
                Ok(path)
            },
        }
    }

    /// The fare of a path over stops of the network: its tier, the number
    /// of stops travelled and the number of lines used. Fails with
    /// `InvalidLineCount` exactly where the path uses more than three lines.
    pub fn classify(&self, path: &Vec<String>) -> (r: Result<(Ticket, usize, u8), MetroError>)
        requires
            self.wf(),
            path@.len() > 0,
            forall|i: int| 0 <= i < path@.len() ==> self.tracks().has_stop(#[trigger] path@[i]@),
        ensures
            match r {
                Ok((ticket, stop_count, lines)) => {
                    &&& stop_count == path@.len() - 1
                    &&& lines == line_count(self.lines(), self.interchanges(), names_of(path@))
                    &&& tier_of(lines as nat, stop_count as nat) == Some(ticket)
                },
                Err(e) => {
                    &&& e == MetroError::InvalidLineCount
                    &&& line_count(self.lines(), self.interchanges(), names_of(path@)) > 3
                },
            },
    {
        proof {
            assert forall|i: int| 0 <= i < names_of(path@).len() implies self.interchanges().contains(
                #[trigger] names_of(path@)[i],
            ) || self.lines().contains_key(names_of(path@)[i]) by {
                assert(self.tracks().has_stop(path@[i]@));
            }
        }
        classify(path, &self.station_line_map, &self.transfer_stations)
    }

    /// The ticket for a trip from `start` to `destination`: the tier, the
    /// shortest path that was found, and the number of lines that it uses.
    /// Fails with `UnknownStop` where one of the two is no stop, with
    /// `NoPathFound` where no route joins them, and with `InvalidLineCount`
    /// where the path that was found uses more than three lines. A trip
    /// from a stop to itself is a first-tier trip over no stops.
    pub fn calculate_ticket(&self, start: &str, destination: &str) -> (r: Result<
        (Ticket, Vec<String>, u8),
        MetroError,
    >)
        requires
            self.wf(),
        ensures
            match r {
                Ok((ticket, path, lines)) => {
                    &&& self.tracks().is_shortest_route(start@, destination@, names_of(path@))
                    &&& lines == line_count(self.lines(), self.interchanges(), names_of(path@))
                    &&& tier_of(lines as nat, (path@.len() - 1) as nat) == Some(ticket)
                },
                Err(MetroError::UnknownStop(name)) => if !self.tracks().has_stop(start@) {
                    name@ == start@
                } else {
                    !self.tracks().has_stop(destination@) && name@ == destination@
                },
                Err(MetroError::NoPathFound) => {
                    &&& self.tracks().has_stop(start@)
                    &&& self.tracks().has_stop(destination@)
                    &&& forall|q: Seq<Seq<char>>|
                        !#[trigger] self.tracks().is_route(start@, destination@, q)
                },
                Err(MetroError::InvalidLineCount) => {
                    &&& self.tracks().has_stop(start@)
                    &&& self.tracks().has_stop(destination@)
                    &&& exists|p: Seq<Seq<char>>|
                        #[trigger] self.tracks().is_shortest_route(start@, destination@, p)
                            && line_count(self.lines(), self.interchanges(), p) > 3
                },
                Err(MetroError::UnknownAnchor(_)) => false,
            },
            (r matches Err(MetroError::UnknownStop(_))) <==> !self.tracks().has_stop(start@)
                || !self.tracks().has_stop(destination@),
            start@ == destination@ && self.tracks().has_stop(start@) ==> (r matches Ok(
                (ticket, path, lines),
            ) && ticket == Ticket::Yellow && names_of(path@) == seq![start@] && lines == 1),
    {
        let path = match self.path_between(start, destination) {
            Ok(path) => path,
            Err(e) => {
                return Err(e);
            },
        };
        proof {
            let p = names_of(path@);
            assert forall|i: int| 0 <= i < path@.len() implies self.tracks().has_stop(
                #[trigger] path@[i]@,
            ) by {
                assert(self.tracks().has_stop(p[i]));
            }
            if start@ == destination@ {
                lemma_single_line_path(self.lines(), self.interchanges(), p, 0);
            }
        }
        match self.classify(&path) {
            Ok((ticket, _, lines)) => Ok((ticket, path, lines)),
            Err(e) => Err(e),
        }
    }
}

} // verus!
