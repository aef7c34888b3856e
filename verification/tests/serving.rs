use gatelogue::assembler::assemble;
use gatelogue::candidate::Gate;
use gatelogue::serving::{
    airport_codes, closing_span, comes_before, gate_rows, gates, owner_text, size_text, to_graph,
};

fn gate(airport: &str, code: &str, airline: Option<&str>, size: Option<&str>, source: &str) -> Gate {
    Gate {
        airport: airport.to_string(),
        gate_code: code.to_string(),
        airline: airline.map(|a| a.to_string()),
        size: size.map(|s| s.to_string()),
        source: source.to_string(),
    }
}

fn sample() -> gatelogue::serving::GateGraph {
    let listed = vec![
        gate("PCE", "10", None, None, "PCE page"),
        gate("PCE", "2", Some("BluAir"), None, "PCE page"),
        gate("PCE", "1", None, Some("S"), "PCE page"),
        gate("MWT", "A1", None, None, "MWT page"),
    ];
    let flights = vec![
        (
            gate("PCE", "2", Some("BluAir"), None, "BluAir"),
            gate("MWT", "A1", Some("BluAir"), None, "BluAir"),
            "BA1".to_string(),
        ),
        (
            gate("ABG", "4", Some("BluAir"), Some("M"), "BluAir"),
            gate("PCE", "2", Some("BluAir"), None, "BluAir"),
            "BA2".to_string(),
        ),
    ];
    let graph = assemble(&listed, &flights).unwrap();
    to_graph(&graph)
}

#[test]
fn served_graph_has_a_node_for_each_gate_and_an_edge_for_each_flight() {
    let served = sample();
    assert_eq!(served.node_count(), 5);
    assert_eq!(served.edge_count(), 2);
    let first = served.node_weight(petgraph::graph::NodeIndex::new(0)).unwrap();
    assert_eq!(first.airport, "PCE");
    assert_eq!(first.gate_code, "10");
    assert_eq!(first.source, "PCE page");
    let (a, b) = served.edge_endpoints(petgraph::graph::EdgeIndex::new(0)).unwrap();
    assert_eq!((a.index(), b.index()), (1, 3));
    assert_eq!(served.edge_weight(petgraph::graph::EdgeIndex::new(1)).unwrap().flight_no, "BA2");
}

#[test]
fn gates_of_one_airport_in_graph_order() {
    let served = sample();
    let found = gates(&served, "PCE");
    let codes: Vec<&str> = found.iter().map(|g| g.gate_code.as_str()).collect();
    assert_eq!(codes, vec!["10", "2", "1"]);
    assert_eq!(found[1].airline.as_deref(), Some("BluAir"));
    assert_eq!(found[2].size.as_deref(), Some("S"));
    assert!(gates(&served, "ZZZ").is_empty());
}

#[test]
fn rows_are_in_display_order_with_their_flights() {
    let served = sample();
    let rows = gate_rows(&served, "PCE");
    let codes: Vec<&str> = rows.iter().map(|r| r.gate.gate_code.as_str()).collect();
    assert_eq!(codes, vec!["1", "2", "10"]);
    assert!(rows[0].flights.is_empty());
    let flights: Vec<(&str, &str)> =
        rows[1].flights.iter().map(|(f, a)| (f.flight_no.as_str(), a.as_str())).collect();
    assert_eq!(flights, vec![("BA1", "MWT"), ("BA2", "ABG")]);
}

#[test]
fn airport_codes_are_sorted_and_distinct() {
    let served = sample();
    assert_eq!(airport_codes(&served), vec!["ABG".to_string(), "MWT".to_string(), "PCE".to_string()]);
}

#[test]
fn text_order_is_by_character() {
    assert!(comes_before("ABG", "MWT"));
    assert!(!comes_before("MWT", "ABG"));
    assert!(!comes_before("PCE", "PCE"));
    assert!(comes_before("PC", "PCE"));
    assert!(!comes_before("PCE", "PC"));
    assert!(comes_before("", "A"));
    assert!(!comes_before("", ""));
}

#[test]
fn row_pieces() {
    assert_eq!(closing_span(0), 7);
    assert_eq!(closing_span(3), 4);
    assert_eq!(closing_span(7), 0);
    assert_eq!(closing_span(9), 0);
    let g = gate("PCE", "1", None, None, "s");
    assert_eq!(owner_text(&g), "No recorded owner");
    assert_eq!(size_text(&g), "?");
    let g = gate("PCE", "1", Some("BluAir"), Some("M"), "s");
    assert_eq!(owner_text(&g), "BluAir");
    assert_eq!(size_text(&g), "M");
}

#[test]
fn cross_origin_headers() {
    let cors = gatelogue::cors::CORS;
    assert_eq!(cors.name(), "Add CORS headers to responses");
    assert_eq!(
        cors.headers(),
        vec![
            ("Access-Control-Allow-Origin", "*"),
            ("Access-Control-Allow-Methods", "POST, GET, PATCH, OPTIONS"),
            ("Access-Control-Allow-Headers", "*"),
            ("Access-Control-Allow-Credentials", "true"),
        ]
    );
}
