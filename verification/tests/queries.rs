use metro_ticket::manage_metro_map::{
    LINE1, LINE2, LINE3, LINE3_HAROUN_EXTENSION, LINE3_KIT_KAT_EXTENSION,
};
use metro_ticket::metro::{Branch, Line, Metro};
use metro_ticket::ticket::{MetroError, Ticket};

fn names(list: &[&str]) -> Vec<String> {
    list.iter().map(|s| s.to_string()).collect()
}

fn run_links(run: &[&str], a: &str, b: &str) -> bool {
    run.windows(2).any(|w| (w[0] == a && w[1] == b) || (w[0] == b && w[1] == a))
}

/// Whether the tables of the Cairo metro link `a` and `b` directly.
fn cairo_links(a: &str, b: &str) -> bool {
    let joins = |anchor: &str, first: &str| (a == anchor && b == first) || (b == anchor && a == first);
    run_links(&LINE1, a, b)
        || run_links(&LINE2, a, b)
        || run_links(&LINE3, a, b)
        || run_links(&LINE3_HAROUN_EXTENSION, a, b)
        || run_links(&LINE3_KIT_KAT_EXTENSION, a, b)
        || joins("Haroun", LINE3_HAROUN_EXTENSION[0])
        || joins("Kit Kat", LINE3_KIT_KAT_EXTENSION[0])
}

/// A small network: line 1 runs A - B - C - D, line 2 runs E - C - F, and a
/// branch of line 2 leaves F for G and H. C is the interchange.
fn small() -> Metro {
    let lines = vec![
        Line { id: 1, stops: names(&["A", "B", "C", "D"]) },
        Line { id: 2, stops: names(&["E", "C", "F"]) },
    ];
    let branches = vec![Branch { line: 2, anchor: "F".to_string(), stops: names(&["G", "H"]) }];
    Metro::build(&lines, &branches, &names(&["C"])).unwrap()
}

#[test]
fn path_runs_from_start_to_destination_along_links() {
    let metro = Metro::new();
    let pairs = [
        ("New El-Marg", "Helwan"),
        ("Airport", "Rod Al-Farag Corridor"),
        ("Shobra El Kheima", "Adly Mansour"),
        ("Ghamra", "Saad Zaghloul"),
        ("El Mounib", "Airport"),
    ];
    for (a, b) in pairs {
        let path = metro.path_between(a, b).unwrap();
        assert_eq!(path.first().unwrap(), a);
        assert_eq!(path.last().unwrap(), b);
        for w in path.windows(2) {
            assert!(cairo_links(&w[0], &w[1]), "{} and {} are not linked", w[0], w[1]);
        }
    }
}

#[test]
fn path_is_found_in_a_small_network() {
    let metro = small();
    assert_eq!(metro.path_between("A", "H").unwrap(), names(&["A", "B", "C", "F", "G", "H"]));
    assert_eq!(metro.path_between("E", "D").unwrap(), names(&["E", "C", "D"]));
}

#[test]
fn path_has_the_same_length_in_both_directions() {
    let metro = Metro::new();
    let pairs = [
        ("New El-Marg", "Helwan"),
        ("Airport", "Rod Al-Farag Corridor"),
        ("Shobra El Kheima", "Adly Mansour"),
        ("Ghamra", "Saad Zaghloul"),
        ("Al Shohadaa", "Sadat"),
    ];
    for (a, b) in pairs {
        let there = metro.path_between(a, b).unwrap();
        let back = metro.path_between(b, a).unwrap();
        assert_eq!(there.len(), back.len());
    }
    assert_eq!(metro.path_between("Al Shohadaa", "Sadat").unwrap().len(), 4);
    assert_eq!(metro.path_between("New El-Marg", "Helwan").unwrap().len(), 35);
}

#[test]
fn path_from_a_stop_to_itself_is_the_stop() {
    let metro = Metro::new();
    for stop in metro.all_stations.iter() {
        assert_eq!(metro.path_between(stop, stop).unwrap(), vec![stop.clone()]);
    }
    let metro = small();
    assert_eq!(metro.path_between("C", "C").unwrap(), names(&["C"]));
}

#[test]
fn path_takes_the_shorter_way_round_a_ring() {
    // A ring of six stops with a chord: the way over the chord is shorter.
    let lines = vec![
        Line { id: 1, stops: names(&["A", "B", "C", "D", "E", "F", "A"]) },
        Line { id: 2, stops: names(&["B", "E"]) },
    ];
    let metro = Metro::build(&lines, &vec![], &vec![]).unwrap();
    assert_eq!(metro.path_between("A", "D").unwrap().len(), 4);
    assert_eq!(metro.path_between("B", "E").unwrap(), names(&["B", "E"]));
    assert_eq!(metro.path_between("C", "F").unwrap().len(), 4);
    assert_eq!(metro.path_between("A", "F").unwrap(), names(&["A", "F"]));
}

#[test]
fn unknown_stop_is_reported_by_name() {
    let metro = Metro::new();
    assert_eq!(
        metro.path_between("Atlantis", "Sadat"),
        Err(MetroError::UnknownStop("Atlantis".to_string()))
    );
    assert_eq!(
        metro.path_between("Sadat", "Atlantis"),
        Err(MetroError::UnknownStop("Atlantis".to_string()))
    );
    assert_eq!(
        metro.path_between("Atlantis", "El Dorado"),
        Err(MetroError::UnknownStop("Atlantis".to_string()))
    );
    assert_eq!(
        metro.calculate_ticket("Atlantis", "Sadat"),
        Err(MetroError::UnknownStop("Atlantis".to_string()))
    );
    assert_eq!(
        metro.calculate_ticket("Sadat", ""),
        Err(MetroError::UnknownStop("".to_string()))
    );
}

#[test]
fn missing_path_is_reported() {
    let lines = vec![
        Line { id: 1, stops: names(&["A", "B"]) },
        Line { id: 2, stops: names(&["C", "D"]) },
    ];
    let metro = Metro::build(&lines, &vec![], &vec![]).unwrap();
    assert_eq!(metro.path_between("A", "D"), Err(MetroError::NoPathFound));
    assert_eq!(metro.calculate_ticket("C", "B"), Err(MetroError::NoPathFound));
    assert_eq!(metro.path_between("A", "B").unwrap(), names(&["A", "B"]));
}

#[test]
fn ticket_for_a_stop_to_itself_is_first_tier() {
    let metro = Metro::new();
    for stop in metro.all_stations.iter() {
        let (ticket, path, lines) = metro.calculate_ticket(stop, stop).unwrap();
        assert_eq!(ticket, Ticket::Yellow);
        assert_eq!(path.len() - 1, 0);
        assert_eq!(lines, 1);
    }
}

#[test]
fn ticket_for_neighbours_on_one_line_is_first_tier() {
    let metro = Metro::new();
    let (ticket, path, lines) = metro.calculate_ticket("Maadi", "Hadayeq El-Maadi").unwrap();
    assert_eq!(ticket, Ticket::Yellow);
    assert_eq!(path, names(&["Maadi", "Hadayeq El-Maadi"]));
    assert_eq!(lines, 1);
    let (ticket, path, lines) = metro.calculate_ticket("Sheraton", "Airport").unwrap();
    assert_eq!((ticket, path.len() - 1, lines), (Ticket::Yellow, 1, 1));
}

#[test]
fn ticket_for_a_whole_line_is_third_tier() {
    let metro = Metro::new();
    let (ticket, path, _) = metro.calculate_ticket("New El-Marg", "Helwan").unwrap();
    assert_eq!(ticket, Ticket::Purple);
    assert_eq!(path.len() - 1, 34);
    // The second line has no shorter way round: the path is the line.
    let (ticket, path, lines) = metro.calculate_ticket("Giza", "El Mounib").unwrap();
    assert_eq!((ticket, path.len() - 1, lines), (Ticket::Yellow, 3, 1));
    let long: Vec<String> = (0..20).map(|i| format!("S{}", i)).collect();
    let metro = Metro::build(&vec![Line { id: 1, stops: long.clone() }], &vec![], &vec![]).unwrap();
    let (ticket, path, lines) = metro.calculate_ticket("S0", "S19").unwrap();
    assert_eq!(path, long);
    assert_eq!((ticket, lines), (Ticket::Purple, 1));
    let (ticket, path, lines) = metro.calculate_ticket("S0", "S16").unwrap();
    assert_eq!((ticket, path.len() - 1, lines), (Ticket::Green, 16, 1));
    let (ticket, path, lines) = metro.calculate_ticket("S19", "S10").unwrap();
    assert_eq!((ticket, path.len() - 1, lines), (Ticket::Yellow, 9, 1));
}

#[test]
fn ticket_over_one_interchange_is_second_tier() {
    let metro = small();
    let (ticket, path, lines) = metro.calculate_ticket("A", "H").unwrap();
    assert_eq!(path, names(&["A", "B", "C", "F", "G", "H"]));
    assert_eq!((ticket, lines), (Ticket::Green, 2));
    let metro = Metro::new();
    let (ticket, path, lines) = metro.calculate_ticket("Giza", "Bolak Al-Dakror").unwrap();
    assert_eq!(path, names(&["Giza", "Faisal", "Cairo University", "Bolak Al-Dakror"]));
    assert_eq!((ticket, lines), (Ticket::Green, 2));
}

#[test]
fn ticket_over_too_many_lines_is_refused() {
    // A - B - C - D, where the stops belong to lines 1, 2, 1 and 3.
    let lines = vec![
        Line { id: 1, stops: names(&["A"]) },
        Line { id: 2, stops: names(&["B"]) },
        Line { id: 1, stops: names(&["C"]) },
        Line { id: 3, stops: names(&["D"]) },
        Line { id: 4, stops: names(&["A", "B", "C", "D"]) },
    ];
    let metro = Metro::build(&lines, &vec![], &vec![]).unwrap();
    assert_eq!(metro.calculate_ticket("A", "D"), Err(MetroError::InvalidLineCount));
    assert_eq!(metro.classify(&names(&["A", "B", "C", "D"])), Err(MetroError::InvalidLineCount));
    assert_eq!(metro.calculate_ticket("A", "C"), Ok((Ticket::Purple, names(&["A", "B", "C"]), 3)));
    assert_eq!(metro.classify(&names(&["D", "C", "B"])), Ok((Ticket::Purple, 2, 3)));
}

#[test]
fn classify_counts_stops_and_lines() {
    let metro = Metro::new();
    // Both ways from Ghamra to Saad Zaghloul are shortest; their fares differ.
    let along_one =
        names(&["Ghamra", "Al Shohadaa", "Urabi", "Naser", "Sadat", "Saad Zaghloul"]);
    let over_two =
        names(&["Ghamra", "Al Shohadaa", "Ataba", "Naguib", "Sadat", "Saad Zaghloul"]);
    assert_eq!(metro.classify(&along_one), Ok((Ticket::Yellow, 5, 1)));
    assert_eq!(metro.classify(&over_two), Ok((Ticket::Purple, 5, 3)));
    // A path over interchange stops alone counts as one line.
    assert_eq!(metro.classify(&names(&["Sadat"])), Ok((Ticket::Yellow, 0, 1)));
    assert_eq!(metro.classify(&names(&["Ataba", "Naser"])), Ok((Ticket::Yellow, 1, 1)));
    assert_eq!(metro.classify(&names(&["Opera", "Sadat", "Naser"])), Ok((Ticket::Yellow, 2, 1)));
    assert_eq!(metro.classify(&names(&["Opera", "Sadat", "Naser", "Maspero"])), Ok((Ticket::Green, 3, 2)));
}
