use gatelogue::assembler::{airlines, airports, assemble};
use gatelogue::candidate::{Flight, Gate};
use gatelogue::error::{id_text, Error};
use gatelogue::graph::CanonicalGraph;
use gatelogue::model::Decision;
use gatelogue::node::{Node, ID};
use gatelogue::text::{char_is_white_space, is_unknown_code, is_unknown_marker};

fn gate(airport: &str, code: &str, airline: Option<&str>, size: Option<&str>, source: &str) -> Gate {
    Gate {
        airport: airport.to_string(),
        gate_code: code.to_string(),
        airline: airline.map(|a| a.to_string()),
        size: size.map(|s| s.to_string()),
        source: source.to_string(),
    }
}

fn shape(graph: &CanonicalGraph) -> Vec<String> {
    (0..graph.len()).map(|i| format!("{:?}", graph.node(i as ID).unwrap())).collect()
}

#[test]
fn unknown_codes() {
    assert!(is_unknown_marker("?"));
    assert!(!is_unknown_marker(" ?"));
    assert!(!is_unknown_marker(""));
    assert!(!is_unknown_marker("??"));
    assert!(is_unknown_code("?"));
    assert!(is_unknown_code("  ?\n"));
    assert!(is_unknown_code("\u{3000}?\u{a0}"));
    assert!(!is_unknown_code("??"));
    assert!(!is_unknown_code("? ?"));
    assert!(!is_unknown_code("1?"));
    assert!(!is_unknown_code(""));
    assert!(!is_unknown_code("  "));
    for c in ['\t', '\n', '\u{b}', '\u{c}', '\r', ' ', '\u{85}', '\u{a0}', '\u{1680}', '\u{2000}',
              '\u{200a}', '\u{2028}', '\u{2029}', '\u{202f}', '\u{205f}', '\u{3000}'] {
        assert!(char_is_white_space(c));
        assert!(c.is_whitespace());
    }
    for c in ['?', 'a', '0', '\u{200b}', '\u{180e}', '\u{8}', '\u{e}'] {
        assert!(!char_is_white_space(c));
        assert!(!c.is_whitespace());
    }
}

#[test]
fn white_space_agrees_with_the_standard_library() {
    for n in 0..=0x10ffffu32 {
        if let Some(c) = char::from_u32(n) {
            assert_eq!(char_is_white_space(c), c.is_whitespace(), "{:x}", n);
        }
    }
}

#[test]
fn sightings_with_unknown_codes_equal_nothing() {
    let a = gate("PCE", "12", None, None, "x");
    let b = gate("PCE", "12", Some("A"), Some("M"), "y");
    let c = gate("PCE", "13", None, None, "x");
    let d = gate("MWT", "12", None, None, "x");
    let u = gate("PCE", " ? ", None, None, "x");
    assert!(a == b);
    assert!(a != c);
    assert!(a != d);
    assert!(u != u);
    assert!(u != a);
    assert!(Flight { flight_no: "A1".to_string() } == Flight { flight_no: "A1".to_string() });
    assert!(Flight { flight_no: "A1".to_string() } != Flight { flight_no: "A2".to_string() });
}

#[test]
fn a_later_sighting_overwrites_only_what_it_gives() {
    let mut graph = CanonicalGraph::new();
    let id = graph.merge_gate(&gate("PCE", "1", Some("A"), Some("S"), "one")).unwrap();
    assert_eq!(graph.merge_gate(&gate("PCE", "1", None, None, "two")).unwrap(), id);
    assert_eq!(graph.merge_gate(&gate("PCE", "1", Some("B"), None, "three")).unwrap(), id);
    let g = match graph.node(id) {
        Some(Node::AirGate(g)) => g,
        other => panic!("unexpected: {:?}", other),
    };
    assert_eq!(**g.size.as_ref().unwrap(), "S");
    match graph.node(**g.airline.as_ref().unwrap()) {
        Some(Node::AirAirline(a)) => assert_eq!(a.name, "B"),
        other => panic!("unexpected: {:?}", other),
    }
    match g.airline.as_ref().unwrap() {
        gatelogue::sourced::Sourced::Sourced { s, .. } => {
            assert_eq!(s, &vec!["one".to_string(), "three".to_string()])
        },
        other => panic!("unexpected: {:?}", other),
    }
    assert_eq!(
        g.common.source,
        vec!["one".to_string(), "two".to_string(), "three".to_string()]
    );
    // airport, airline A, gate, airline B
    assert_eq!(graph.len(), 4);
}

#[test]
fn code_with_space_around_the_marker_always_makes_a_gate() {
    let mut graph = CanonicalGraph::new();
    let seen = vec![gate("PCE", " ?", None, None, "a"), gate("PCE", " ?", None, None, "a")];
    assert!(airports(&mut graph, &seen).is_ok());
    // airport and two gates
    assert_eq!(graph.len(), 3);
    assert_eq!(graph.ambiguous_matches(), 0);
}

#[test]
fn flight_without_an_airline_is_dropped_and_its_gates_are_kept() {
    let mut graph = CanonicalGraph::new();
    let from = gate("PCE", "1", None, None, "a");
    let to = gate("MWT", "2", None, None, "a");
    let flight = Flight { flight_no: "X1".to_string() };
    assert_eq!(graph.dropped_flights(), 0);
    assert_eq!(graph.merge_flight(&from, &to, &flight).unwrap(), None);
    // both airports and both gates, and no flight
    assert_eq!(graph.len(), 4);
    assert!(matches!(graph.node(1), Some(Node::AirGate(_))));
    assert!(matches!(graph.node(3), Some(Node::AirGate(_))));
    assert_eq!(graph.dropped_flights(), 1);
    let to = gate("MWT", "2", Some("B"), None, "a");
    let id = graph.merge_flight(&from, &to, &flight).unwrap().unwrap();
    assert_eq!(graph.dropped_flights(), 1);
    match graph.node(id) {
        Some(Node::AirFlight(f)) => match graph.node(*f.airline) {
            Some(Node::AirAirline(a)) => assert_eq!(a.name, "B"),
            other => panic!("unexpected: {:?}", other),
        },
        other => panic!("unexpected: {:?}", other),
    }
    let dropped = vec![
        (gate("PCE", "1", None, None, "b"), gate("ABG", "?", None, None, "b"), "X2".to_string()),
        (gate("PCE", "1", None, None, "b"), gate("ABG", "?", None, None, "b"), "X3".to_string()),
    ];
    assert!(airlines(&mut graph, &dropped).is_ok());
    assert_eq!(graph.dropped_flights(), 3);
}

#[test]
fn every_sighting_of_a_flight_adds_a_flight() {
    let one = (
        gate("PCE", "1", Some("A"), None, "a"),
        gate("MWT", "2", Some("A"), None, "a"),
        "A1".to_string(),
    );
    let two = (
        gate("PCE", "1", Some("A"), None, "a"),
        gate("MWT", "2", Some("A"), None, "a"),
        "A1".to_string(),
    );
    let graph = assemble(&Vec::new(), &vec![one, two]).unwrap();
    let flights = (0..graph.len())
        .filter(|i| matches!(graph.node(*i as ID), Some(Node::AirFlight(_))))
        .count();
    assert_eq!(flights, 2);
    // PCE, A, gate 1, MWT, gate 2, two flights
    assert_eq!(graph.len(), 7);
}

#[test]
fn two_builds_from_the_same_sightings_agree() {
    let listed = || {
        vec![
            gate("PCE", "1", None, None, "PCE page"),
            gate("PCE", "?", Some("A"), None, "PCE page"),
            gate("MWT", "7", Some("B"), Some("S"), "MWT page"),
        ]
    };
    let flights = || {
        vec![
            (
                gate("PCE", "?", Some("A"), None, "A"),
                gate("MWT", "7", Some("A"), Some("M"), "A"),
                "A1".to_string(),
            ),
            (
                gate("PCE", "1", Some("B"), None, "B"),
                gate("ABG", "?", Some("B"), None, "B"),
                "B1".to_string(),
            ),
        ]
    };
    let first = assemble(&listed(), &flights()).unwrap();
    let second = assemble(&listed(), &flights()).unwrap();
    assert_eq!(shape(&first), shape(&second));
    assert_eq!(first.ambiguous_matches(), second.ambiguous_matches());
}

#[test]
fn no_identity_twice_and_every_reference_resolves() {
    let mut listed = Vec::new();
    let mut flights = Vec::new();
    let codes = ["1", "2", "?", " ?", "1"];
    let ports = ["PCE", "MWT", "PCE"];
    let lines = [Some("A"), None, Some("B"), Some("A")];
    for i in 0..40usize {
        listed.push(gate(ports[i % 3], codes[i % 5], lines[i % 4], None, "p"));
        flights.push((
            gate(ports[i % 3], codes[(i + 1) % 5], Some("A"), None, "f"),
            gate(ports[(i + 1) % 3], codes[(i + 2) % 5], lines[(i + 1) % 4], None, "f"),
            format!("F{i}"),
        ));
    }
    let graph = assemble(&listed, &flights).unwrap();
    let n = graph.len();
    let node = |id: ID| graph.node(id).unwrap();
    let mut airports_seen = Vec::new();
    let mut airlines_seen = Vec::new();
    let mut gates_seen = Vec::new();
    for i in 0..n {
        assert_eq!(node(i as ID).id(), i as ID);
        match node(i as ID) {
            Node::AirAirport(a) => {
                assert!(!airports_seen.contains(&a.code));
                airports_seen.push(a.code.clone());
                for g in &a.gates {
                    assert!(matches!(node(**g), Node::AirGate(x) if *x.airport == i as ID));
                }
            },
            Node::AirAirline(a) => {
                assert!(!airlines_seen.contains(&a.name));
                airlines_seen.push(a.name.clone());
                for g in &a.gates {
                    assert!(node(**g).is_air_gate());
                }
                for f in &a.flights {
                    assert!(matches!(node(**f), Node::AirFlight(x) if *x.airline == i as ID));
                }
            },
            Node::AirGate(g) => {
                if let Some(code) = &g.codes {
                    if !is_unknown_code(code) {
                        assert!(!gates_seen.contains(&(*g.airport, code.clone())));
                        gates_seen.push((*g.airport, code.clone()));
                    }
                }
                assert!(matches!(node(*g.airport), Node::AirAirport(a)
                    if a.gates.iter().any(|r| **r == i as ID)));
                if let Some(l) = &g.airline {
                    assert!(matches!(node(**l), Node::AirAirline(a)
                        if a.gates.iter().any(|r| **r == i as ID)));
                }
                for f in &g.flights {
                    assert!(matches!(node(**f), Node::AirFlight(x)
                        if x.gates.iter().any(|r| **r == i as ID)));
                }
            },
            Node::AirFlight(f) => {
                assert!(matches!(node(*f.airline), Node::AirAirline(a)
                    if a.flights.iter().any(|r| **r == i as ID)));
                assert_eq!(f.gates.len(), 2);
                for g in &f.gates {
                    assert!(matches!(node(**g), Node::AirGate(x)
                        if x.flights.iter().any(|r| **r == i as ID)));
                }
            },
            other => panic!("unexpected kind: {:?}", other),
        }
    }
    assert_eq!(airports_seen.len(), 2);
}

#[test]
fn a_sighting_fails_only_where_it_needs_more_identifiers_than_are_left() {
    let mut graph = CanonicalGraph::new();
    let mut listed = Vec::new();
    for _ in 0..65533usize {
        listed.push(gate("PCE", " ?", None, None, "p"));
    }
    assert!(airports(&mut graph, &listed).is_ok());
    // the airport and 65533 gates: two identifiers are left
    assert_eq!(graph.len(), 65534);
    // a new airport, a new airline and a new gate need three
    let far = gate("MWT", "1", Some("A"), None, "p");
    assert!(matches!(graph.merge_gate(&far), Err(Error::IdentifiersExhausted)));
    assert_eq!(graph.len(), 65534);
    // a new gate at a known airport needs one
    let near = gate("PCE", "1", None, None, "p");
    let id = graph.merge_gate(&near).unwrap();
    assert_eq!(graph.len(), 65535);
    // a known gate needs none
    assert_eq!(graph.merge_gate(&near).unwrap(), id);
    assert_eq!(graph.len(), 65535);
    // a flight between a known and a new gate, without an airline, needs one
    let other = gate("PCE", "2", None, None, "p");
    let flight = Flight { flight_no: "X".to_string() };
    assert_eq!(graph.merge_flight(&near, &other, &flight).unwrap(), None);
    assert_eq!(graph.len(), 65536);
    assert_eq!(graph.dropped_flights(), 1);
    // no identifier is left: known gates are still folded in
    assert!(airports(&mut graph, &vec![gate("PCE", "2", None, Some("M"), "q")]).is_ok());
    assert!(matches!(
        graph.merge_gate(&gate("PCE", "3", None, None, "p")),
        Err(Error::IdentifiersExhausted)
    ));
    assert!(matches!(
        airports(&mut graph, &vec![gate("PCE", "3", None, None, "p")]),
        Err(Error::IdentifiersExhausted)
    ));
    // a flight of a new airline between known gates cannot be added
    let from = gate("PCE", "1", Some("A"), None, "p");
    let to = gate("PCE", "2", Some("A"), None, "p");
    assert!(matches!(graph.merge_flight(&from, &to, &flight), Err(Error::IdentifiersExhausted)));
    assert_eq!(graph.len(), 65536);
    assert_eq!(graph.decide(&listed[0]), Decision::New);
}

#[test]
fn a_flight_between_known_gates_of_a_known_airline_needs_one_identifier() {
    let mut graph = CanonicalGraph::new();
    let mut listed = vec![
        gate("PCE", "1", Some("A"), None, "p"),
        gate("PCE", "2", Some("A"), None, "p"),
    ];
    // airport, airline, two gates: 4 nodes; fill up to one short of full
    for _ in 0..65531usize {
        listed.push(gate("PCE", " ?", None, None, "p"));
    }
    assert!(airports(&mut graph, &listed).is_ok());
    assert_eq!(graph.len(), 65535);
    let flights = vec![(
        gate("PCE", "1", Some("A"), None, "f"),
        gate("PCE", "2", Some("A"), None, "f"),
        "A1".to_string(),
    )];
    assert!(airlines(&mut graph, &flights).is_ok());
    assert_eq!(graph.len(), 65536);
    assert!(matches!(graph.node(65535), Some(Node::AirFlight(_))));
    // the next flight does not fit; its gates are folded in all the same
    let more = vec![(
        gate("PCE", "1", Some("A"), Some("L"), "g"),
        gate("PCE", "2", Some("A"), None, "g"),
        "A2".to_string(),
    )];
    assert!(matches!(airlines(&mut graph, &more), Err(Error::IdentifiersExhausted)));
    assert_eq!(graph.len(), 65536);
    match graph.node(2) {
        Some(Node::AirGate(g)) => assert_eq!(**g.size.as_ref().unwrap(), "L"),
        other => panic!("unexpected: {:?}", other),
    }
}

#[test]
fn airlines_replay_in_order() {
    let mut graph = CanonicalGraph::new();
    let flights = vec![
        (
            gate("PCE", "?", Some("A"), None, "A"),
            gate("MWT", "?", Some("A"), None, "A"),
            "A1".to_string(),
        ),
        (
            gate("PCE", "?", Some("A"), Some("M"), "A"),
            gate("MWT", "3", Some("A"), None, "A"),
            "A2".to_string(),
        ),
        (
            gate("PCE", "?", Some("A"), None, "A"),
            gate("MWT", "?", Some("A"), None, "A"),
            "A3".to_string(),
        ),
    ];
    assert!(airlines(&mut graph, &flights).is_ok());
    // The third sighting at MWT finds two gates of A there: a third is made.
    assert_eq!(graph.ambiguous_matches(), 1);
    let gates = (0..graph.len())
        .filter(|i| matches!(graph.node(*i as ID), Some(Node::AirGate(_))))
        .count();
    assert_eq!(gates, 4);
    match assemble(&Vec::new(), &flights) {
        Ok(again) => assert_eq!(again.len(), graph.len()),
        Err(Error::IdentifiersExhausted) => panic!("room enough"),
        Err(other) => panic!("unexpected: {:?}", other),
    }
}

#[test]
fn provenance_of_a_field_is_the_union_whatever_the_order() {
    let field_sources = |order: &[&str]| {
        let mut graph = CanonicalGraph::new();
        for tag in order {
            graph.merge_gate(&gate("PCE", "1", Some("A"), Some("M"), tag)).unwrap();
        }
        // airport, airline, gate
        let g = match graph.node(2) {
            Some(Node::AirGate(g)) => g.clone(),
            other => panic!("unexpected: {:?}", other),
        };
        let list = |s: &gatelogue::sourced::Sourced<String>| match s {
            gatelogue::sourced::Sourced::Sourced { s, .. } => {
                let mut s = s.clone();
                s.sort();
                s
            },
            _ => Vec::new(),
        };
        assert_eq!(**g.size.as_ref().unwrap(), "M");
        let mut node_sources = g.common.source.clone();
        node_sources.sort();
        (list(g.size.as_ref().unwrap()), node_sources)
    };
    let one = field_sources(&["x", "y", "z", "x"]);
    let other = field_sources(&["z", "x", "y"]);
    assert_eq!(one, other);
    assert_eq!(one.0, vec!["x".to_string(), "y".to_string(), "z".to_string()]);
}

#[test]
fn errors_in_words() {
    assert_eq!(id_text(0), "0");
    assert_eq!(id_text(9), "9");
    assert_eq!(id_text(10), "10");
    assert_eq!(id_text(65535), "65535");
    assert_eq!(id_text(40302), "40302");
    assert_eq!(Error::NoNode(12).message(), "No node 12");
    assert_eq!(Error::IncorrectType(7, "Town").message(), "7 not Town");
    assert_eq!(Error::DanglingReference(3, 400).message(), "node 3 refers to missing node 400");
    assert_eq!(Error::ExtractionFailure("Astrella".to_string()).message(), "no match on Astrella");
    assert_eq!(Error::IdentifiersExhausted.message(), "no identifiers left");
    assert_eq!(Error::Unknown.message(), "unknown error");
}
