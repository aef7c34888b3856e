use gatelogue::assembler::assemble;
use gatelogue::candidate::Gate;
use gatelogue::data::GatelogueData;
use gatelogue::error::Error;
use gatelogue::node::{Node, NodeKind, Rank, Town, LocatedNodeCommon, ID};
use gatelogue::sourced::Sourced;
use std::collections::HashMap;

fn gate(airport: &str, code: &str, airline: Option<&str>, source: &str) -> Gate {
    Gate {
        airport: airport.to_string(),
        gate_code: code.to_string(),
        airline: airline.map(|a| a.to_string()),
        size: None,
        source: source.to_string(),
    }
}

fn published() -> GatelogueData {
    let listed = vec![gate("PCE", "1", None, "PCE page"), gate("PCE", "2", None, "PCE page")];
    let flights = vec![(
        gate("PCE", "1", Some("BluAir"), "BluAir"),
        gate("MWT", "?", Some("BluAir"), "BluAir"),
        "BA1".to_string(),
    )];
    assemble(&listed, &flights).unwrap().publish("2024-01-01".to_string(), 3)
}

#[test]
fn publication_keeps_every_node_under_its_identifier() {
    let data = published();
    assert_eq!(data.timestamp, "2024-01-01");
    assert_eq!(data.version, 3);
    // PCE, gate 1, gate 2, BluAir, MWT, gate ?, flight
    assert_eq!(data.nodes.len(), 7);
    for id in 0..7u16 {
        assert_eq!(data.get_node(id).unwrap().id(), id);
    }
    assert!(matches!(data.get_node(7), Err(Error::NoNode(7))));
}

#[test]
fn typed_lookup_tells_missing_from_mistyped() {
    let data = published();
    assert_eq!(data.get_air_airport(0).unwrap().code, "PCE");
    assert_eq!(data.get_air_gate(1).unwrap().codes.as_deref(), Some("1"));
    assert_eq!(data.get_air_airline(3).unwrap().name, "BluAir");
    assert_eq!(data.get_air_flight(6).unwrap().codes, vec!["BA1".to_string()]);
    assert!(matches!(data.get_air_gate(0), Err(Error::IncorrectType(0, "AirGate"))));
    assert!(matches!(data.get_town(1), Err(Error::IncorrectType(1, "Town"))));
    assert!(matches!(data.get_air_gate(99), Err(Error::NoNode(99))));
    assert_eq!(Error::NoNode(99).message(), "No node 99");
    assert_eq!(Error::IncorrectType(0, "AirGate").message(), "0 not AirGate");
}

#[test]
fn lists_by_kind_are_in_identifier_order() {
    let data = published();
    assert_eq!(data.ids_of_kind(NodeKind::AirGate), vec![1, 2, 5]);
    assert_eq!(data.ids_of_kind(NodeKind::Town), Vec::<ID>::new());
    let gates = data.air_gates();
    let ids: Vec<ID> = gates.iter().map(|g| g.common.i).collect();
    assert_eq!(ids, vec![1, 2, 5]);
    assert_eq!(data.air_airports().len(), 2);
    assert_eq!(data.air_airlines().len(), 1);
    assert_eq!(data.air_flights().len(), 1);
    assert!(data.bus_stops().is_empty());
}

#[test]
fn change_through_typed_lookup_reaches_the_graph() {
    let mut data = published();
    data.get_air_gate_mut(1).unwrap().size = Some(Sourced::new("XL".to_string()));
    assert_eq!(**data.get_air_gate(1).unwrap().size.as_ref().unwrap(), "XL");
    assert!(matches!(data.get_air_gate_mut(0), Err(Error::IncorrectType(0, "AirGate"))));
    assert!(matches!(data.get_air_gate_mut(70), Err(Error::NoNode(70))));
    match data.get_node_mut(3).unwrap() {
        Node::AirAirline(a) => a.name = "Blu Air".to_string(),
        other => panic!("unexpected: {:?}", other),
    }
    assert_eq!(data.get_air_airline(3).unwrap().name, "Blu Air");
    assert_eq!(data.nodes.len(), 7);
}

#[test]
fn nodes_of_other_kinds_are_looked_up_alike() {
    let mut data = GatelogueData::new("now".to_string(), 1);
    let town = Town {
        name: "Peacopolis".to_string(),
        rank: Sourced::new(Rank::Premier),
        mayor: Sourced::new("someone".to_string()),
        deputy_mayor: Sourced::new(None),
        common: LocatedNodeCommon {
            i: 40,
            source: Vec::new(),
            world: None,
            coordinates: Some(Sourced::new((1.5f64.to_bits(), (-2.0f64).to_bits()))),
            proximity: HashMap::new(),
            shared_facility: Vec::new(),
        },
    };
    data.nodes.insert(40, Node::Town(town));
    assert_eq!(data.get_town(40).unwrap().name, "Peacopolis");
    assert_eq!(data.towns().len(), 1);
    assert_eq!(data.get_node(40).unwrap().kind(), NodeKind::Town);
    assert!(data.get_node(40).unwrap().is_town());
    assert!(data.get_node(40).unwrap().as_town().is_some());
    assert!(data.get_node(40).unwrap().as_air_gate().is_none());
    assert!(matches!(data.get_spawn_warp(40), Err(Error::IncorrectType(40, "SpawnWarp"))));
    let coordinates = **data.get_town(40).unwrap().common.coordinates.as_ref().unwrap();
    assert_eq!(f64::from_bits(coordinates.0), 1.5);
    assert_eq!(f64::from_bits(coordinates.1), -2.0);
}
