use metro_ticket::manage_metro_map::{
    generate_metro_map, get_all_stations, get_metro_map, get_station_line_map, interchange_set,
    populate_line, populate_line_from, populate_station_to_line, station_names, stop_names,
    LINE1, LINE2, LINE3, LINE3_HAROUN_EXTENSION, LINE3_KIT_KAT_EXTENSION, TRANSFER_STATIONS,
};
use metro_ticket::metro::{Branch, Line, Metro};
use metro_ticket::ticket::{tier_for, MetroError, Ticket};

fn strings(list: &[&str]) -> Vec<String> {
    list.iter().map(|s| s.to_string()).collect()
}

#[test]
fn cairo_has_each_stop_once() {
    let all = get_all_stations();
    assert_eq!(all.len(), 89);
    let mut sorted = all.clone();
    sorted.sort();
    sorted.dedup();
    assert_eq!(sorted.len(), 89);
    assert_eq!(all[0], "New El-Marg");
    assert_eq!(all[34], "Helwan");
    assert_eq!(all[35], "Shobra El Kheima");
    assert_eq!(all[88], "Rod Al-Farag Corridor");
    for table in [
        &LINE1[..],
        &LINE2[..],
        &LINE3[..],
        &LINE3_HAROUN_EXTENSION[..],
        &LINE3_KIT_KAT_EXTENSION[..],
    ] {
        for stop in table {
            assert!(all.iter().any(|s| s == stop));
        }
    }
    let metro = Metro::new();
    assert_eq!(metro.all_stations, all);
    assert_eq!(metro.get_all_stations(), all);
}

#[test]
fn cairo_graph_holds_the_tables() {
    let (graph, station_node_map) = get_metro_map();
    assert_eq!(graph.node_count(), 89);
    // 34 + 19 + 27 links along the lines, 5 + 6 along the branches.
    assert_eq!(graph.edge_count(), 91);
    assert_eq!(station_node_map.len(), 89);
    assert_eq!(station_node_map.get("New El-Marg"), Some(&0));
    assert_eq!(station_node_map.get("Rod Al-Farag Corridor"), Some(&88));
    assert_eq!(stop_names(&graph), get_all_stations());
    let (graph, station_node_map, station_line_map) = generate_metro_map();
    assert_eq!(graph.node_count(), 89);
    assert_eq!(station_node_map.len(), 89);
    assert_eq!(station_line_map.len(), 84);
}

#[test]
fn cairo_stops_have_a_line_or_are_interchanges() {
    let owners = get_station_line_map();
    assert_eq!(owners.len(), 84);
    for stop in get_all_stations() {
        let interchange = TRANSFER_STATIONS.contains(&stop.as_str());
        assert_eq!(owners.contains_key(&stop), !interchange);
    }
    assert_eq!(owners.get("Helwan"), Some(&1));
    assert_eq!(owners.get("Giza"), Some(&2));
    assert_eq!(owners.get("Zamalek"), Some(&3));
    assert_eq!(owners.get("Airport"), Some(&3));
    assert_eq!(owners.get("Imbaba"), Some(&3));
    assert_eq!(owners.get("Sadat"), None);
}

#[test]
fn shared_stops_collapse_into_one_node() {
    let lines = vec![
        Line { id: 1, stops: strings(&["A", "B", "C"]) },
        Line { id: 2, stops: strings(&["D", "B", "E"]) },
    ];
    let metro = Metro::build(&lines, &vec![], &strings(&["B"])).unwrap();
    assert_eq!(metro.all_stations, strings(&["A", "B", "C", "D", "E"]));
    assert_eq!(metro.path_between("A", "E").unwrap(), strings(&["A", "B", "E"]));
}

#[test]
fn repeated_links_and_stops_are_laid_once() {
    let mut graph = petgraph::graph::Graph::default();
    let mut index = vstd::hash_map::StringHashMap::new();
    populate_line(&mut graph, &strings(&["A", "B", "B", "C", "B", "A"]), &mut index);
    assert_eq!(stop_names(&graph), strings(&["A", "B", "C"]));
    assert_eq!(graph.edge_count(), 2);
    populate_line(&mut graph, &strings(&["C", "A"]), &mut index);
    assert_eq!(graph.node_count(), 3);
    assert_eq!(graph.edge_count(), 3);
    populate_line(&mut graph, &strings(&["A", "C"]), &mut index);
    assert_eq!(graph.edge_count(), 3);
    populate_line(&mut graph, &vec![], &mut index);
    assert_eq!((graph.node_count(), graph.edge_count()), (3, 3));
    assert_eq!(index.get("A"), Some(&0));
    assert_eq!(index.get("B"), Some(&1));
    assert_eq!(index.get("C"), Some(&2));
    assert_eq!(index.len(), 3);
}

#[test]
fn branch_leaves_from_its_anchor() {
    let mut graph = petgraph::graph::Graph::default();
    let mut index = vstd::hash_map::StringHashMap::new();
    populate_line(&mut graph, &strings(&["A", "B", "C"]), &mut index);
    populate_line_from(&mut graph, &strings(&["X", "Y"]), &mut index, "B");
    assert_eq!(stop_names(&graph), strings(&["A", "B", "C", "X", "Y"]));
    assert_eq!(graph.edge_count(), 4);
    let b = petgraph::graph::NodeIndex::new(1);
    let x = petgraph::graph::NodeIndex::new(3);
    let y = petgraph::graph::NodeIndex::new(4);
    let c = petgraph::graph::NodeIndex::new(2);
    assert!(graph.contains_edge(b, x));
    assert!(graph.contains_edge(x, b));
    assert!(graph.contains_edge(x, y));
    assert!(!graph.contains_edge(c, x));
    // A branch that starts with its own anchor lays no loop.
    populate_line_from(&mut graph, &strings(&["C", "Z"]), &mut index, "C");
    assert_eq!(graph.node_count(), 6);
    assert_eq!(graph.edge_count(), 5);
}

#[test]
fn branch_with_unknown_anchor_is_refused() {
    let lines = vec![Line { id: 1, stops: strings(&["A", "B"]) }];
    let branches = vec![
        Branch { line: 1, anchor: "B".to_string(), stops: strings(&["C"]) },
        Branch { line: 1, anchor: "Q".to_string(), stops: strings(&["D"]) },
        Branch { line: 1, anchor: "R".to_string(), stops: strings(&["E"]) },
    ];
    match Metro::build(&lines, &branches, &vec![]) {
        Err(e) => assert_eq!(e, MetroError::UnknownAnchor("Q".to_string())),
        Ok(_) => panic!("the anchor Q is not a stop"),
    }
    // A branch may be anchored at a stop of an earlier branch.
    let branches = vec![
        Branch { line: 1, anchor: "B".to_string(), stops: strings(&["C"]) },
        Branch { line: 2, anchor: "C".to_string(), stops: strings(&["D"]) },
    ];
    let metro = Metro::build(&lines, &branches, &vec![]).unwrap();
    assert_eq!(metro.calculate_ticket("A", "D"), Ok((Ticket::Green, strings(&["A", "B", "C", "D"]), 2)));
    // A branch is not anchored at one of its own stops.
    let branches = vec![Branch { line: 1, anchor: "C".to_string(), stops: strings(&["C", "D"]) }];
    assert!(matches!(
        Metro::build(&lines, &branches, &vec![]),
        Err(MetroError::UnknownAnchor(name)) if name == "C"
    ));
}

#[test]
fn empty_network_knows_no_stop() {
    let metro = Metro::build(&vec![], &vec![], &strings(&["A"])).unwrap();
    assert!(metro.all_stations.is_empty());
    assert_eq!(metro.path_between("A", "A"), Err(MetroError::UnknownStop("A".to_string())));
}

#[test]
fn first_line_to_name_a_stop_owns_it() {
    let transfer = interchange_set(&strings(&["T"]));
    let mut owners = vstd::hash_map::StringHashMap::new();
    populate_station_to_line(&mut owners, &strings(&["A", "T", "B"]), 1, &transfer);
    populate_station_to_line(&mut owners, &strings(&["B", "C", "T", "C"]), 2, &transfer);
    assert_eq!(owners.len(), 3);
    assert_eq!(owners.get("A"), Some(&1));
    assert_eq!(owners.get("B"), Some(&1));
    assert_eq!(owners.get("C"), Some(&2));
    assert_eq!(owners.get("T"), None);
    let lines = vec![
        Line { id: 7, stops: strings(&["A", "B"]) },
        Line { id: 8, stops: strings(&["B", "C"]) },
    ];
    let metro = Metro::build(&lines, &vec![], &vec![]).unwrap();
    assert_eq!(metro.classify(&strings(&["A", "B"])), Ok((Ticket::Yellow, 1, 1)));
    assert_eq!(metro.classify(&strings(&["B", "C"])), Ok((Ticket::Green, 1, 2)));
}

#[test]
fn interchange_set_holds_the_names() {
    let set = interchange_set(&station_names(&TRANSFER_STATIONS));
    assert_eq!(set.len(), 5);
    for name in TRANSFER_STATIONS {
        assert!(set.contains(name));
    }
    assert!(!set.contains("Giza"));
    assert_eq!(station_names(&["x", "y"]), strings(&["x", "y"]));
    assert!(interchange_set(&vec![]).is_empty());
}

#[test]
fn rule_table_rows() {
    assert_eq!(tier_for(1, 0), Ok(Ticket::Yellow));
    assert_eq!(tier_for(1, 9), Ok(Ticket::Yellow));
    assert_eq!(tier_for(1, 10), Ok(Ticket::Green));
    assert_eq!(tier_for(1, 16), Ok(Ticket::Green));
    assert_eq!(tier_for(1, 17), Ok(Ticket::Purple));
    assert_eq!(tier_for(2, 0), Ok(Ticket::Green));
    assert_eq!(tier_for(2, 16), Ok(Ticket::Green));
    assert_eq!(tier_for(2, 17), Ok(Ticket::Purple));
    assert_eq!(tier_for(3, 0), Ok(Ticket::Purple));
    assert_eq!(tier_for(3, 40), Ok(Ticket::Purple));
    assert_eq!(tier_for(0, 5), Err(MetroError::InvalidLineCount));
    assert_eq!(tier_for(4, 5), Err(MetroError::InvalidLineCount));
}
