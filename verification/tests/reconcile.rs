use gatelogue::assembler::{airlines, airports, assemble};
use gatelogue::candidate::Gate;
use gatelogue::graph::CanonicalGraph;
use gatelogue::model::Decision;
use gatelogue::node::{AirGate, Node, ID};

fn gate(airport: &str, code: &str, airline: Option<&str>, size: Option<&str>, source: &str) -> Gate {
    Gate {
        airport: airport.to_string(),
        gate_code: code.to_string(),
        airline: airline.map(|a| a.to_string()),
        size: size.map(|s| s.to_string()),
        source: source.to_string(),
    }
}

fn gates_of(graph: &CanonicalGraph) -> Vec<&AirGate> {
    let mut found = Vec::new();
    for i in 0..graph.len() {
        if let Some(Node::AirGate(g)) = graph.node(i as ID) {
            found.push(g);
        }
    }
    found
}

#[test]
fn known_code_merges_into_one_gate() {
    let mut graph = CanonicalGraph::new();
    let seen = vec![
        gate("PCE", "12", None, None, "airport page"),
        gate("PCE", "12", Some("Astrella"), Some("M"), "airline page"),
    ];
    assert!(airports(&mut graph, &seen).is_ok());
    let gates = gates_of(&graph);
    assert_eq!(gates.len(), 1);
    let g = gates[0];
    assert_eq!(g.codes.as_deref(), Some("12"));
    assert_eq!(**g.size.as_ref().unwrap(), "M");
    let airline = **g.airline.as_ref().unwrap();
    match graph.node(airline) {
        Some(Node::AirAirline(a)) => assert_eq!(a.name, "Astrella"),
        other => panic!("not an airline: {:?}", other),
    }
    assert_eq!(g.common.source, vec!["airport page".to_string(), "airline page".to_string()]);
    // what only the later sighting gave is attributed to the later source alone
    match g.size.as_ref().unwrap() {
        gatelogue::sourced::Sourced::Sourced { s, .. } => {
            assert_eq!(s, &vec!["airline page".to_string()])
        },
        other => panic!("unexpected: {:?}", other),
    }
    match g.airline.as_ref().unwrap() {
        gatelogue::sourced::Sourced::Sourced { s, .. } => {
            assert_eq!(s, &vec!["airline page".to_string()])
        },
        other => panic!("unexpected: {:?}", other),
    }
    // airport, gate, airline
    assert_eq!(graph.len(), 3);
}

#[test]
fn unknown_code_collapses_onto_single_gate_of_airline() {
    let mut graph = CanonicalGraph::new();
    let seen = vec![
        gate("PCE", "?", Some("BluAir"), None, "a"),
        gate("PCE", "?", Some("BluAir"), None, "b"),
    ];
    assert!(airports(&mut graph, &seen).is_ok());
    assert_eq!(gates_of(&graph).len(), 1);
    assert_eq!(gates_of(&graph)[0].codes, None);
    assert_eq!(graph.ambiguous_matches(), 0);
}

#[test]
fn unknown_code_among_several_gates_makes_new_gates() {
    let mut graph = CanonicalGraph::new();
    let listed = vec![
        gate("PCE", "1", Some("BluAir"), None, "airport page"),
        gate("PCE", "2", Some("BluAir"), None, "airport page"),
    ];
    assert!(airports(&mut graph, &listed).is_ok());
    assert_eq!(gates_of(&graph).len(), 2);
    let seen = vec![
        gate("PCE", "?", Some("BluAir"), None, "a"),
        gate("PCE", "?", Some("BluAir"), None, "b"),
        gate("PCE", "?", Some("BluAir"), None, "c"),
    ];
    assert!(airports(&mut graph, &seen).is_ok());
    assert_eq!(gates_of(&graph).len(), 5);
    assert_eq!(graph.ambiguous_matches(), 3);
}

#[test]
fn flight_creates_both_gates_and_links_them() {
    let flights = vec![(
        gate("PCE", "12", Some("Astrella"), Some("M"), "Astrella"),
        gate("MWT", "3", Some("Astrella"), Some("M"), "Astrella"),
        "AT100".to_string(),
    )];
    let graph = assemble(&Vec::new(), &flights).unwrap();
    let gates = gates_of(&graph);
    assert_eq!(gates.len(), 2);
    let flight_id = (graph.len() - 1) as ID;
    let flight = match graph.node(flight_id) {
        Some(Node::AirFlight(f)) => f,
        other => panic!("not a flight: {:?}", other),
    };
    assert_eq!(flight.codes, vec!["AT100".to_string()]);
    assert_eq!(flight.gates.len(), 2);
    for g in gates {
        assert_eq!(g.flights.len(), 1);
        assert_eq!(*g.flights[0], flight_id);
        assert!(flight.gates.iter().any(|r| **r == g.common.i));
    }
    match graph.node(*flight.airline) {
        Some(Node::AirAirline(a)) => {
            assert_eq!(a.name, "Astrella");
            assert_eq!(a.flights.len(), 1);
            assert_eq!(a.gates.len(), 2);
        },
        other => panic!("not an airline: {:?}", other),
    }
}

#[test]
fn matcher_decides_without_changing_the_graph() {
    let mut graph = CanonicalGraph::new();
    let first = gate("PCE", "12", None, None, "a");
    assert_eq!(graph.decide(&first), Decision::New);
    let id = graph.merge_gate(&first).unwrap();
    assert_eq!(graph.decide(&first), Decision::Existing(id));
    assert_eq!(graph.decide(&gate("PCE", "13", None, None, "a")), Decision::New);
    assert_eq!(graph.decide(&gate("MWT", "12", None, None, "a")), Decision::New);
    assert_eq!(graph.decide(&gate("PCE", " ? ", None, None, "a")), Decision::New);
    assert_eq!(graph.decide(&gate("PCE", "?", None, None, "a")), Decision::Existing(id));
    assert_eq!(graph.decide(&gate("PCE", "?", Some("X"), None, "a")), Decision::New);
    assert_eq!(graph.len(), 2);
}

#[test]
fn flights_after_airports_reuse_listed_gates() {
    let listed = vec![gate("PCE", "12", None, None, "airport page")];
    let flights = vec![(
        gate("PCE", "12", Some("Astrella"), Some("M"), "Astrella"),
        gate("MWT", "?", Some("Astrella"), None, "Astrella"),
        "AT1".to_string(),
    )];
    let mut graph = CanonicalGraph::new();
    assert!(airports(&mut graph, &listed).is_ok());
    assert!(airlines(&mut graph, &flights).is_ok());
    let gates = gates_of(&graph);
    assert_eq!(gates.len(), 2);
    assert_eq!(gates[0].codes.as_deref(), Some("12"));
    assert_eq!(**gates[0].size.as_ref().unwrap(), "M");
    assert_eq!(gates[1].codes, None);
}

#[test]
fn unknown_codes_of_one_airline_on_an_empty_graph_share_one_gate() {
    let mut graph = CanonicalGraph::new();
    let seen = vec![
        gate("PCE", "?", Some("BluAir"), None, "a"),
        gate("PCE", "?", Some("BluAir"), None, "b"),
        gate("PCE", "?", Some("BluAir"), None, "c"),
    ];
    assert!(airports(&mut graph, &seen).is_ok());
    // The first makes a gate; each later one finds exactly that gate.
    assert_eq!(gates_of(&graph).len(), 1);
    assert_eq!(
        gates_of(&graph)[0].common.source,
        vec!["a".to_string(), "b".to_string(), "c".to_string()]
    );
    assert_eq!(graph.ambiguous_matches(), 0);
}
