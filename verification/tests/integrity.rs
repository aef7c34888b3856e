use gatelogue::assembler::assemble;
use gatelogue::candidate::Gate;
use gatelogue::data::GatelogueData;
use gatelogue::error::Error;
use gatelogue::integrity::Expect;
use gatelogue::node::{
    BusCompany, BusLine, BusStop, Connection, Direction, LocatedNodeCommon, Node, NodeCommon,
    NodeKind, Proximity, SpawnWarp, SpawnWarpType,
};
use gatelogue::sourced::Sourced;
use std::collections::HashMap;

fn gate(airport: &str, code: &str, airline: Option<&str>) -> Gate {
    Gate {
        airport: airport.to_string(),
        gate_code: code.to_string(),
        airline: airline.map(|a| a.to_string()),
        size: None,
        source: "s".to_string(),
    }
}

fn published() -> GatelogueData {
    let flights = vec![(
        gate("PCE", "1", Some("BluAir")),
        gate("MWT", "?", Some("BluAir")),
        "BA1".to_string(),
    )];
    assemble(&Vec::new(), &flights).unwrap().publish("t".to_string(), 1)
}

fn located(i: u16) -> LocatedNodeCommon {
    LocatedNodeCommon {
        i,
        source: Vec::new(),
        world: None,
        coordinates: None,
        proximity: HashMap::new(),
        shared_facility: Vec::new(),
    }
}

fn bus_network() -> GatelogueData {
    let mut data = GatelogueData::new("t".to_string(), 1);
    data.nodes.insert(
        10,
        Node::BusCompany(BusCompany {
            name: "Bus Co".to_string(),
            lines: vec![Sourced::new(11)],
            stops: vec![Sourced::new(12), Sourced::new(13)],
            local: false,
            common: NodeCommon { i: 10, source: Vec::new() },
        }),
    );
    data.nodes.insert(
        11,
        Node::BusLine(BusLine {
            code: "1".to_string(),
            name: None,
            colour: None,
            company: Sourced::new(10),
            stops: vec![Sourced::new(12), Sourced::new(13)],
            common: NodeCommon { i: 11, source: Vec::new() },
        }),
    );
    for (id, other) in [(12u16, 13u16), (13, 12)] {
        let mut connections = HashMap::new();
        connections.insert(
            other,
            vec![Sourced::new(Connection {
                line: 11,
                direction: Some(Direction {
                    direction: other,
                    forward_label: None,
                    backward_label: None,
                    one_way: Sourced::new(false),
                }),
            })],
        );
        let mut common = located(id);
        common.proximity.insert(other, Sourced::new(Proximity { distance: None, explicit: true }));
        common.shared_facility.push(Sourced::new(other));
        data.nodes.insert(
            id,
            Node::BusStop(BusStop {
                codes: vec![format!("S{id}")],
                name: None,
                company: Sourced::new(10),
                connections,
                common,
            }),
        );
    }
    data
}

#[test]
fn a_built_graph_is_valid() {
    let data = published();
    assert!(data.validate().is_ok());
    assert!(data.meets(0, Expect::Kind(NodeKind::AirAirport)));
    assert!(data.meets(0, Expect::Located));
    assert!(!data.meets(0, Expect::Kind(NodeKind::AirGate)));
    assert!(!data.meets(1, Expect::Located));
    assert!(!data.meets(99, Expect::Located));
}

#[test]
fn a_missing_target_is_reported_with_the_node_that_refers_to_it() {
    let mut data = published();
    // PCE, BluAir, gate 1, MWT, gate ?, flight
    data.nodes.remove(&5);
    match data.validate() {
        Err(Error::DanglingReference(1, 5)) => {},
        other => panic!("unexpected: {:?}", other),
    }
    assert_eq!(
        Error::DanglingReference(1, 5).message(),
        "node 1 refers to missing node 5"
    );
}

#[test]
fn a_target_of_the_wrong_kind_is_reported() {
    let mut data = published();
    data.get_air_gate_mut(2).unwrap().airport = Sourced::new(1);
    // the airport PCE still lists gate 2, whose airport is now an airline
    match data.validate() {
        Err(Error::DanglingReference(2, 1)) => {},
        other => panic!("unexpected: {:?}", other),
    }
}

#[test]
fn lines_stops_and_connections_are_checked() {
    let data = bus_network();
    assert!(data.validate().is_ok());

    let mut broken = bus_network();
    broken.get_bus_line_mut(11).unwrap().company = Sourced::new(12);
    assert!(matches!(broken.validate(), Err(Error::DanglingReference(11, 12))));

    let mut broken = bus_network();
    match broken.get_bus_stop_mut(12).unwrap().connections.get_mut(&13) {
        Some(list) => list.push(Sourced::new(Connection { line: 10, direction: None })),
        None => panic!("no connection"),
    }
    assert!(matches!(broken.validate(), Err(Error::DanglingReference(12, 10))));

    let mut broken = bus_network();
    broken.get_bus_stop_mut(13).unwrap().connections.insert(11, Vec::new());
    assert!(matches!(broken.validate(), Err(Error::DanglingReference(13, 11))));

    let mut broken = bus_network();
    broken
        .get_bus_stop_mut(13)
        .unwrap()
        .common
        .proximity
        .insert(10, Sourced::new(Proximity { distance: Some(2.5f64.to_bits()), explicit: false }));
    assert!(matches!(broken.validate(), Err(Error::DanglingReference(13, 10))));

    let mut broken = bus_network();
    broken.get_bus_stop_mut(12).unwrap().common.shared_facility.push(Sourced::new(500));
    assert!(matches!(broken.validate(), Err(Error::DanglingReference(12, 500))));
}

#[test]
fn a_node_without_references_is_valid() {
    let mut data = GatelogueData::new("t".to_string(), 1);
    data.nodes.insert(
        7,
        Node::SpawnWarp(SpawnWarp {
            name: "Spawn".to_string(),
            warp_type: SpawnWarpType::Portal,
            common: located(7),
        }),
    );
    assert!(data.validate().is_ok());
    assert_eq!(data.search_node(data.get_node(7).unwrap()), None);
}
