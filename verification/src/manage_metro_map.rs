//! Building the network: runs of stops are laid onto the stop graph one
//! after the other, stops that share a name collapse into one node, and
//! every stop that is not an interchange gets the line that named it first.

use crate::fare::names_of;
use crate::graph::{
    add_stop_node, connect, edge_ends, empty_graph, node_name, node_names, node_total, StopGraph,
};
use crate::layout::{graph_ok, indexed, lemma_joined_is_adjacent, tracks_of};
use crate::tracks::Tracks;
use vstd::hash_map::StringHashMap;
use vstd::hash_set::StringHashSet;
use vstd::prelude::*;

verus! {

/// The first line, from north to south.
pub const LINE1: [&'static str; 35] = [
    "New El-Marg",
    "El-Marg",
    "Ezbet El-Nakhl",
    "Ain Shams",
    "El-Matareyya",
    "Helmeyet El-Zaitoun",
    "Hadayeq El-Zaitoun",
    "Saray El-Qobba",
    "Hammamat El-Qobba",
    "Kobri El-Qobba",
    "Manshiet El-Sadr",
    "El-Demerdash",
    "Ghamra",
    "Al Shohadaa",
    "Urabi",
    "Naser",
    "Sadat",
    "Saad Zaghloul",
    "AlSayyeda Zeinab",
    "El-Malek El-Saleh",
    "Mar Girgis",
    "El-Zahraa'",
    "Dar El-Salam",
    "Hadayeq El-Maadi",
    "Maadi",
    "Thakanat El-Maad",
    "Tora El-Balad",
    "Kozzika",
    "Tora El-Asmant",
    "El-Maasara",
    "Hadayeq Helwan",
    "Wadi Hof",
    "Helwan University",
    "Ain Helwan",
    "Helwan",
];

/// The second line.
pub const LINE2: [&'static str; 20] = [
    "Shobra El Kheima",
    "Koliet El-Zeraa",
    "Mezallat",
    "Khalafawy",
    "Sainte Teresa",
    "Road El-Farag",
    "Massara",
    "Al Shohadaa",
    "Ataba",
    "Naguib",
    "Sadat",
    "Opera",
    "Dokki",
    "El Behoos",
    "Cairo University",
    "Faisal",
    "Giza",
    "Omm el Misryeen",
    "Sakiat Mekki",
    "El Mounib",
];

/// The trunk of the third line.
pub const LINE3: [&'static str; 28] = [
    "Adly Mansour",
    "Hikestep",
    "Omar ibn Al-khattab",
    "Kebaa",
    "Hisham Barakat",
    "El-Nozha",
    "El-Shams Club",
    "Alf Masken",
    "Heliopolis Square",
    "Haroun",
    "Al Ahram",
    "Koleyet El Banat",
    "Cairo Stadium",
    "Fair Zone",
    "Abbassia",
    "Abdou Pasha",
    "El Geish",
    "Bab El Shaaria",
    "Ataba",
    "Naser",
    "Maspero",
    "Zamalek",
    "Kit Kat",
    "Al-Tawfikya",
    "Wadi Al-Nile",
    "Gamaet Al-Dowal",
    "Bolak Al-Dakror",
    "Cairo University",
];

/// The branch of the third line that leaves it at Haroun.
pub const LINE3_HAROUN_EXTENSION: [&'static str; 5] = [
    "Al-Hegaz Square",
    "Al-Hegaz 2",
    "Military Academy",
    "Sheraton",
    "Airport",
];

/// The branch of the third line that leaves it at Kit Kat.
pub const LINE3_KIT_KAT_EXTENSION: [&'static str; 6] = [
    "Sudan",
    "Imbaba",
    "Al-Bohy",
    "Al-Kawmeiah",
    "Ring Road",
    "Rod Al-Farag Corridor",
];

/// The interchange stops: each lies on two lines and belongs to neither.
pub const TRANSFER_STATIONS: [&'static str; 5] =
    ["Al Shohadaa", "Sadat", "Ataba", "Naser", "Cairo University"];

/// The names that a table of string literals spells.
pub open spec fn strs_of(list: Seq<&'static str>) -> Seq<Seq<char>> {
    list.map_values(|s: &'static str| s@)
}

/// The tracks of the Cairo metro: its three lines, then the two branches of
/// the third line.
pub open spec fn cairo_tracks() -> Tracks {
    Tracks::empty().with_run(None, strs_of(LINE1@)).with_run(None, strs_of(LINE2@)).with_run(
        None,
        strs_of(LINE3@),
    ).with_run(Some("Haroun"@), strs_of(LINE3_HAROUN_EXTENSION@)).with_run(
        Some("Kit Kat"@),
        strs_of(LINE3_KIT_KAT_EXTENSION@),
    )
}

/// The interchange stops of the Cairo metro.
pub open spec fn cairo_interchanges() -> Set<Seq<char>> {
    strs_of(TRANSFER_STATIONS@).to_set()
}

/// The line of every stop of the Cairo metro that is not an interchange.
pub open spec fn cairo_owners() -> Map<Seq<char>, u8> {
    let inter = cairo_interchanges();
    let one = owners_with(Map::empty(), strs_of(LINE1@), 1, inter);
    let two = owners_with(one, strs_of(LINE2@), 2, inter);
    let three = owners_with(two, strs_of(LINE3@), 3, inter);
    let haroun = owners_with(three, strs_of(LINE3_HAROUN_EXTENSION@), 3, inter);
    owners_with(haroun, strs_of(LINE3_KIT_KAT_EXTENSION@), 3, inter)
}

/// The name on node `from`, if there is one.
pub open spec fn name_at(names: Seq<Seq<char>>, from: Option<usize>) -> Option<Seq<char>> {
    match from {
        Some(h) => Some(names[h as int]),
        None => None,
    }
}

/// The owners after the stops of `run` were given to line `line`: a stop
/// that had an owner keeps it, an interchange stop gets none.
pub open spec fn owners_with(
    owners: Map<Seq<char>, u8>,
    run: Seq<Seq<char>>,
    line: u8,
    interchanges: Set<Seq<char>>,
) -> Map<Seq<char>, u8> {
    Map::new(
        |s: Seq<char>| owners.contains_key(s) || (run.contains(s) && !interchanges.contains(s)),
        |s: Seq<char>|
            if owners.contains_key(s) {
                owners[s]
            } else {
                line
            },
    )
}

/// The handle of the stop `name`, which becomes a new node where the graph
/// does not have it yet.
fn ensure_stop(
    graph: &mut StopGraph,
    station_node_map: &mut StringHashMap<usize>,
    name: &String,
) -> (handle: usize)
    requires
        indexed(*old(graph), old(station_node_map)@),
    ensures
        indexed(*final(graph), final(station_node_map)@),
        tracks_of(*final(graph)) == tracks_of(*old(graph)).with_stop(name@),
        handle < node_names(*final(graph)).len(),
        node_names(*final(graph))[handle as int] == name@,
        node_names(*old(graph)).len() <= node_names(*final(graph)).len(),
        forall|i: int|
            0 <= i < node_names(*old(graph)).len() ==> node_names(*final(graph))[i] == node_names(
                *old(graph),
            )[i],
{
    let ghost before = *graph;
    let ghost names = node_names(*graph);
    match station_node_map.get(name.as_str()) {
        Some(h) => {
            proof {
                let i = choose|i: int| 0 <= i < names.len() && names[i] == name@;
                assert(station_node_map@[names[i]] == i);
            }
            *h
        },
        None => {
            let h = add_stop_node(graph, name.clone());
            station_node_map.insert(name.clone(), h);
            proof {
                let after = node_names(*graph);
                assert(after == names.push(name@));
                assert(tracks_of(*graph).links =~= tracks_of(before).links) by {
                    assert forall|k: int| 0 <= k < edge_ends(before).len() implies tracks_of(
                        *graph,
                    ).links[k] == tracks_of(before).links[k] by {
                        let e = edge_ends(before)[k];
                        assert(e.0 < names.len() && e.1 < names.len());
                    }
                }
                assert(tracks_of(*graph) == tracks_of(before).with_stop(name@));
                tracks_of(before).lemma_with_stop(name@);
                assert forall|s: Seq<char>| #[trigger]
                    station_node_map@.contains_key(s) <==> after.contains(s) by {
                    assert(tracks_of(*graph).has_stop(s) <==> tracks_of(before).has_stop(s) || s
                        == name@);
                }
                assert forall|i: int| 0 <= i < after.len() implies station_node_map@[#[trigger] after[i]]
                    == i by {
                    if i < names.len() {
                        assert(after[i] == names[i]);
                        assert(names.contains(names[i]));
                    }
                }
            }
            h
        },
    }
}

/// Links the stops on nodes `a` and `b`, unless they are one stop or are
/// linked already.
fn join_stops(graph: &mut StopGraph, a: usize, b: usize)
    requires
        graph_ok(*old(graph)),
        a < node_names(*old(graph)).len(),
        b < node_names(*old(graph)).len(),
    ensures
        graph_ok(*final(graph)),
        node_names(*final(graph)) == node_names(*old(graph)),
        tracks_of(*final(graph)) == tracks_of(*old(graph)).with_link(
            node_names(*old(graph))[a as int],
            node_names(*old(graph))[b as int],
        ),
{
    let ghost before = *graph;
    let ghost names = node_names(*graph);
    if a != b {
        connect(graph, a, b);
        proof {
            lemma_joined_is_adjacent(before, a, b);
            assert(names.contains(names[a as int]));
            assert(names.contains(names[b as int]));
            tracks_of(before).lemma_with_link(names[a as int], names[b as int]);
            assert(tracks_of(*graph).links =~= tracks_of(before).with_link(
                names[a as int],
                names[b as int],
            ).links);
        }
    }
}

/// Lays the stops of `run` onto the graph in order, each linked to the one
/// before it; the first is linked to the stop on node `from`, if any.
fn lay_run(
    graph: &mut StopGraph,
    station_node_map: &mut StringHashMap<usize>,
    from: Option<usize>,
    run: &Vec<String>,
)
    requires
        indexed(*old(graph), old(station_node_map)@),
        from matches Some(h) ==> h < node_names(*old(graph)).len(),
    ensures
        indexed(*final(graph), final(station_node_map)@),
        tracks_of(*final(graph)) == tracks_of(*old(graph)).with_run(
            name_at(node_names(*old(graph)), from),
            names_of(run@),
        ),
{
    let ghost goal = tracks_of(*graph).with_run(name_at(node_names(*graph), from), names_of(run@));
    let ghost names = names_of(run@);
    let mut prev = from;
    let mut i: usize = 0;
    proof {
        assert(names.skip(0) =~= names);
    }
    while i < run.len()
        invariant
            i <= run.len(),
            names == names_of(run@),
            indexed(*graph, station_node_map@),
            prev matches Some(h) ==> h < node_names(*graph).len(),
            tracks_of(*graph).with_run(name_at(node_names(*graph), prev), names.skip(i as int))
                == goal,
        decreases run.len() - i,
    {
        let ghost rest = names.skip(i as int);
        let ghost here = tracks_of(*graph);
        let ghost prev_name = name_at(node_names(*graph), prev);
        proof {
            assert(rest[0] == run@[i as int]@);
            assert(rest.drop_first() =~= names.skip(i + 1));
        }
        let handle = ensure_stop(graph, station_node_map, &run[i]);
        if let Some(p) = prev {
            join_stops(graph, p, handle);
        }
        prev = Some(handle);
        i += 1;
    }
}

/// Lays a line onto the graph: a node for every stop that is not there
/// yet, and a link between each stop and the next.
pub fn populate_line(
    graph: &mut StopGraph,
    line: &Vec<String>,
    station_node_map: &mut StringHashMap<usize>,
)
    requires
        indexed(*old(graph), old(station_node_map)@),
    ensures
        indexed(*final(graph), final(station_node_map)@),
        tracks_of(*final(graph)) == tracks_of(*old(graph)).with_run(None, names_of(line@)),
{
    lay_run(graph, station_node_map, None, line);
}

/// Lays a branch onto the graph: like a line, with its first stop linked to
/// the stop `from_station`, which the graph must have.
pub fn populate_line_from(
    graph: &mut StopGraph,
    line: &Vec<String>,
    station_node_map: &mut StringHashMap<usize>,
    from_station: &str,
)
    requires
        indexed(*old(graph), old(station_node_map)@),
        tracks_of(*old(graph)).has_stop(from_station@),
    ensures
        indexed(*final(graph), final(station_node_map)@),
        tracks_of(*final(graph)) == tracks_of(*old(graph)).with_run(
            Some(from_station@),
            names_of(line@),
        ),
{
    let ghost names = node_names(*graph);
    let found = station_node_map.get(from_station);
    let from = *found.unwrap();
    proof {
        let i = choose|i: int| 0 <= i < names.len() && names[i] == from_station@;
        assert(station_node_map@[names[i]] == i);
    }
    lay_run(graph, station_node_map, Some(from), line);
}

/// Gives the stops of `line` to line `n`. A stop that has an owner keeps
/// it, and an interchange stop gets none.
pub fn populate_station_to_line(
    station_to_line: &mut StringHashMap<u8>,
    line: &Vec<String>,
    n: u8,
    transfer_stations: &StringHashSet,
)
    ensures
        final(station_to_line)@ == owners_with(
            old(station_to_line)@,
            names_of(line@),
            n,
            transfer_stations@,
        ),
{
    let ghost before = station_to_line@;
    let ghost names = names_of(line@);
    let mut i: usize = 0;
    proof {
        assert(station_to_line@ =~= owners_with(before, names.take(0), n, transfer_stations@));
    }
    while i < line.len()
        invariant
            i <= line.len(),
            names == names_of(line@),
            station_to_line@ == owners_with(before, names.take(i as int), n, transfer_stations@),
        decreases line.len() - i,
    {
        let station = &line[i];
        let ghost seen = names.take(i as int);
        let ghost next = names.take(i + 1);
        proof {
            assert(next =~= seen.push(station@));
            assert forall|s: Seq<char>| next.contains(s) <==> seen.contains(s) || s
                == station@ by {
                if seen.contains(s) {
                    let k = choose|k: int| 0 <= k < seen.len() && seen[k] == s;
                    assert(next[k] == s);
                }
                if s == station@ {
                    assert(next[i as int] == s);
                }
            }
        }
        if !transfer_stations.contains(station.as_str()) && !station_to_line.contains_key(
            station.as_str(),
        ) {
            station_to_line.insert(station.clone(), n);
        }
        proof {
            assert(station_to_line@ =~= owners_with(before, next, n, transfer_stations@));
        }
        i += 1;
    }
    proof {
        assert(names.take(line@.len() as int) =~= names);
    }
}

/// The strings that a table of string literals spells.
pub fn station_names(list: &[&'static str]) -> (v: Vec<String>)
    ensures
        names_of(v@) == strs_of(list@),
{
    let mut v: Vec<String> = Vec::new();
    let mut i: usize = 0;
    while i < list.len()
        invariant
            i <= list.len(),
            v@.len() == i,
            forall|k: int| 0 <= k < i ==> (#[trigger] v@[k])@ == list@[k]@,
        decreases list.len() - i,
    {
        v.push(list[i].to_owned());
        i += 1;
    }
    proof {
        assert(names_of(v@) =~= strs_of(list@));
    }
    v
}

/// The set of the given names.
pub fn interchange_set(names: &Vec<String>) -> (set: StringHashSet)
    ensures
        set@ == names_of(names@).to_set(),
{
    let mut set = StringHashSet::new();
    let mut i: usize = 0;
    proof {
        assert(set@ =~= names_of(names@).take(0).to_set());
    }
    while i < names.len()
        invariant
            i <= names.len(),
            set@ == names_of(names@).take(i as int).to_set(),
        decreases names.len() - i,
    {
        let ghost seen = names_of(names@).take(i as int);
        let ghost next = names_of(names@).take(i + 1);
        set.insert(names[i].clone());
        proof {
            assert(next =~= seen.push(names@[i as int]@));
            assert forall|s: Seq<char>| next.contains(s) <==> seen.contains(s) || s
                == names@[i as int]@ by {
                if seen.contains(s) {
                    let k = choose|k: int| 0 <= k < seen.len() && seen[k] == s;
                    assert(next[k] == s);
                }
                if s == names@[i as int]@ {
                    assert(next[i as int] == s);
                }
            }
            assert(set@ =~= next.to_set());
        }
        i += 1;
    }
    proof {
        assert(names_of(names@).take(names@.len() as int) =~= names_of(names@));
    }
    set
}

/// The names on the nodes of the graph, in handle order.
pub fn stop_names(graph: &StopGraph) -> (v: Vec<String>)
    ensures
        names_of(v@) == node_names(*graph),
{
    let total = node_total(graph);
    let mut v: Vec<String> = Vec::new();
    let mut i: usize = 0;
    while i < total
        invariant
            i <= total,
            total == node_names(*graph).len(),
            v@.len() == i,
            forall|k: int| 0 <= k < i ==> (#[trigger] v@[k])@ == node_names(*graph)[k],
        decreases total - i,
    {
        let name = node_name(graph, i);
        v.push(name.unwrap().clone());
        i += 1;
    }
    proof {
        assert(names_of(v@) =~= node_names(*graph));
    }
    v
}

/// The Cairo metro is well formed, and its stops are the interchange stops
/// and the stops that have a line: no stop is both, and none is neither.
pub proof fn lemma_cairo_network()
    ensures
        cairo_tracks().wf(),
        forall|s: Seq<char>|
            #[trigger] cairo_owners().contains_key(s) <==> cairo_tracks().has_stop(s)
                && !cairo_interchanges().contains(s),
{
    let t0 = Tracks::empty();
    let t1 = t0.with_run(None, strs_of(LINE1@));
    let t2 = t1.with_run(None, strs_of(LINE2@));
    let t3 = t2.with_run(None, strs_of(LINE3@));
    let t4 = t3.with_run(Some("Haroun"@), strs_of(LINE3_HAROUN_EXTENSION@));
    t0.lemma_with_run(None, strs_of(LINE1@));
    t1.lemma_with_run(None, strs_of(LINE2@));
    t2.lemma_with_run(None, strs_of(LINE3@));
    assert(strs_of(LINE3@)[9] == "Haroun"@);
    assert(strs_of(LINE3@)[22] == "Kit Kat"@);
    assert(t3.has_stop("Haroun"@));
    assert(t3.has_stop("Kit Kat"@));
    t3.lemma_with_run(Some("Haroun"@), strs_of(LINE3_HAROUN_EXTENSION@));
    assert(t4.has_stop("Kit Kat"@));
    t4.lemma_with_run(Some("Kit Kat"@), strs_of(LINE3_KIT_KAT_EXTENSION@));
}

/// The stop graph of the Cairo metro, and the handle of each of its stops.
pub fn get_metro_map() -> (r: (StopGraph, StringHashMap<usize>))
    ensures
        indexed(r.0, r.1@),
        tracks_of(r.0) == cairo_tracks(),
{
    let mut graph = empty_graph();
    let mut station_node_map = StringHashMap::<usize>::new();
    proof {
        assert(tracks_of(graph).links =~= Tracks::empty().links);
        lemma_cairo_network();
    }
    populate_line(&mut graph, &station_names(&LINE1), &mut station_node_map);
    populate_line(&mut graph, &station_names(&LINE2), &mut station_node_map);
    let ghost two = tracks_of(graph);
    populate_line(&mut graph, &station_names(&LINE3), &mut station_node_map);
    let ghost three = tracks_of(graph);
    proof {
        two.lemma_with_run(None, strs_of(LINE3@));
        assert(strs_of(LINE3@)[9] == "Haroun"@);
        assert(strs_of(LINE3@)[22] == "Kit Kat"@);
        assert(three.has_stop("Haroun"@));
        assert(three.has_stop("Kit Kat"@));
    }
    populate_line_from(
        &mut graph,
        &station_names(&LINE3_HAROUN_EXTENSION),
        &mut station_node_map,
        "Haroun",
    );
    proof {
        three.lemma_with_run(Some("Haroun"@), strs_of(LINE3_HAROUN_EXTENSION@));
    }
    populate_line_from(
        &mut graph,
        &station_names(&LINE3_KIT_KAT_EXTENSION),
        &mut station_node_map,
        "Kit Kat",
    );
    (graph, station_node_map)
}

/// The line of every stop of the Cairo metro that is not an interchange.
pub fn get_station_line_map() -> (station_line_map: StringHashMap<u8>)
    ensures
        station_line_map@ == cairo_owners(),
{
    let transfer_stations = interchange_set(&station_names(&TRANSFER_STATIONS));
    let mut station_line_map = StringHashMap::<u8>::new();
    populate_station_to_line(&mut station_line_map, &station_names(&LINE1), 1, &transfer_stations);
    populate_station_to_line(&mut station_line_map, &station_names(&LINE2), 2, &transfer_stations);
    populate_station_to_line(&mut station_line_map, &station_names(&LINE3), 3, &transfer_stations);
    populate_station_to_line(
        &mut station_line_map,
        &station_names(&LINE3_HAROUN_EXTENSION),
        3,
        &transfer_stations,
    );
    populate_station_to_line(
        &mut station_line_map,
        &station_names(&LINE3_KIT_KAT_EXTENSION),
        3,
        &transfer_stations,
    );
    station_line_map
}

/// The stops of the Cairo metro, in the order in which its tables first
/// name them.
pub fn get_all_stations() -> (all_stations: Vec<String>)
    ensures
        names_of(all_stations@) == cairo_tracks().stops,
{
    let (graph, _) = get_metro_map();
    stop_names(&graph)
}

/// Builds everything that is kept of the Cairo metro: its stop graph, the
/// handle of each stop, and the line of each stop that has one.
pub fn generate_metro_map() -> (r: (StopGraph, StringHashMap<usize>, StringHashMap<u8>))
    ensures
        indexed(r.0, r.1@),
        tracks_of(r.0) == cairo_tracks(),
        r.2@ == cairo_owners(),
{
    let (graph, station_node_map) = get_metro_map();
    let station_line_map = get_station_line_map();
    (graph, station_node_map, station_line_map)
}

} // verus!
