//! The rules of reconciliation, stated over the mathematical content of a
//! graph: a sequence of node views in which a node's position is its
//! identifier.
//!
//! A sighting of a gate is matched against the gates that the graph already
//! holds, then folded into a gate: the one it matches, or a new one. A flight is
//! never matched: each sighting adds a flight.

use crate::candidate::GateView;
use crate::node::{
    AirAirlineView, AirAirportView, AirFlightView, AirGateView, LocatedNodeCommonView,
    NodeCommonView, NodeView, ID,
};
use crate::sourced::{add_source, SourcedView};
use crate::text::{trims_to_unknown, unknown_marker};
use vstd::prelude::*;

verus! {

/// The number of identifiers that a graph can give out.
pub const MAX_NODES: usize = 65536;

/// What the matcher decides for a sighting of a gate.
#[derive(Clone, Copy, PartialEq, Eq, Structural, Debug)]
pub enum Decision {
    /// The sighting is of a gate that the graph holds, with this identifier.
    Existing(ID),
    /// The sighting is of a gate that the graph does not hold yet.
    New,
    /// The code is unknown and more than one gate would fit: a new gate is
    /// made rather than one of them picked.
    Ambiguous,
}

/// The lowest position in `s` whose element satisfies `p`.
pub open spec fn first_where<A>(s: Seq<A>, p: spec_fn(A) -> bool) -> Option<int>
    decreases s.len(),
{
    if s.len() == 0 {
        None
    } else {
        match first_where(s.drop_last(), p) {
            Some(i) => Some(i),
            None => if p(s.last()) {
                Some(s.len() - 1)
            } else {
                None
            },
        }
    }
}

/// The number of elements of `s` that satisfy `p`.
pub open spec fn count_where<A>(s: Seq<A>, p: spec_fn(A) -> bool) -> nat
    decreases s.len(),
{
    if s.len() == 0 {
        0
    } else {
        count_where(s.drop_last(), p) + if p(s.last()) {
            1nat
        } else {
            0nat
        }
    }
}

/// Whether `n` is the airport with this code.
pub open spec fn is_airport(n: NodeView, code: Seq<char>) -> bool {
    n matches NodeView::AirAirport(a) && a.code == code
}

/// Whether `n` is the airline with this name.
pub open spec fn is_airline(n: NodeView, name: Seq<char>) -> bool {
    n matches NodeView::AirAirline(a) && a.name == name
}

/// The code of the airport at `id`.
pub open spec fn airport_code_of(nodes: Seq<NodeView>, id: ID) -> Seq<char> {
    nodes[id as int]->AirAirport_0.code
}

/// The name of the airline at `id`.
pub open spec fn airline_name_of(nodes: Seq<NodeView>, id: ID) -> Seq<char> {
    nodes[id as int]->AirAirline_0.name
}

/// The name of the airline that a gate is attributed to, if any.
pub open spec fn gate_airline_name(nodes: Seq<NodeView>, g: AirGateView) -> Option<Seq<char>> {
    match g.airline {
        Some(a) => Some(airline_name_of(nodes, a.value())),
        None => None,
    }
}

/// Whether `n` is a gate with this code at the airport with this code.
pub open spec fn is_gate(nodes: Seq<NodeView>, n: NodeView, airport: Seq<char>, code: Seq<char>) -> bool {
    n matches NodeView::AirGate(g) && g.codes == Some(code) && airport_code_of(
        nodes,
        g.airport.value(),
    ) == airport
}

/// Whether `n` is a gate at the airport with this code, attributed to this
/// airline (or, for `None`, to no airline).
pub open spec fn is_gate_of(
    nodes: Seq<NodeView>,
    n: NodeView,
    airport: Seq<char>,
    airline: Option<Seq<char>>,
) -> bool {
    n matches NodeView::AirGate(g) && airport_code_of(nodes, g.airport.value()) == airport
        && gate_airline_name(nodes, g) == airline
}

/// The test for the airport with this code.
pub open spec fn airport_with(code: Seq<char>) -> spec_fn(NodeView) -> bool {
    |n: NodeView| is_airport(n, code)
}

/// The test for the airline with this name.
pub open spec fn airline_with(name: Seq<char>) -> spec_fn(NodeView) -> bool {
    |n: NodeView| is_airline(n, name)
}

/// The test for a gate with this code at this airport.
pub open spec fn gate_at(nodes: Seq<NodeView>, airport: Seq<char>, code: Seq<char>) -> spec_fn(
    NodeView,
) -> bool {
    |n: NodeView| is_gate(nodes, n, airport, code)
}

/// The test for a gate at this airport that is attributed to this airline.
pub open spec fn gate_of(
    nodes: Seq<NodeView>,
    airport: Seq<char>,
    airline: Option<Seq<char>>,
) -> spec_fn(NodeView) -> bool {
    |n: NodeView| is_gate_of(nodes, n, airport, airline)
}

/// The test for a reference to `id`.
pub open spec fn refers_to(id: ID) -> spec_fn(SourcedView<ID>) -> bool {
    |r: SourcedView<ID>| r.value() == id
}

/// The identifier of the airport with this code, if the graph holds one.
pub open spec fn find_airport(nodes: Seq<NodeView>, code: Seq<char>) -> Option<int> {
    first_where(nodes, airport_with(code))
}

/// The identifier of the airline with this name, if the graph holds one.
pub open spec fn find_airline(nodes: Seq<NodeView>, name: Seq<char>) -> Option<int> {
    first_where(nodes, airline_with(name))
}

/// The matcher. A sighting with a known code is of whichever gate has this
/// code at this airport, if there is one. A sighting whose code is exactly
/// the unknown marker is of the one gate at this airport that is attributed
/// to the same airline, if there is exactly one. In every other case the
/// sighting is of a new gate.
pub open spec fn decide(nodes: Seq<NodeView>, c: GateView) -> Decision {
    if !trims_to_unknown(c.gate_code) {
        match first_where(nodes, gate_at(nodes, c.airport, c.gate_code)) {
            Some(i) => Decision::Existing(i as ID),
            None => Decision::New,
        }
    } else if c.gate_code != unknown_marker() {
        Decision::New
    } else {
        let fits = gate_of(nodes, c.airport, c.airline);
        let count = count_where(nodes, fits);
        if count == 1 {
            Decision::Existing(first_where(nodes, fits).unwrap() as ID)
        } else if count == 0 {
            Decision::New
        } else {
            Decision::Ambiguous
        }
    }
}

/// A value asserted by one source.
pub open spec fn sourced_by<V>(v: V, tag: Seq<char>) -> SourcedView<V> {
    SourcedView::Sourced { v, s: seq![tag] }
}

/// A list of references with one to `id` asserted by `tag`: the first
/// reference to `id` gains the tag, or, if there is none, a new reference
/// is appended.
pub open spec fn add_ref(list: Seq<SourcedView<ID>>, id: ID, tag: Seq<char>) -> Seq<
    SourcedView<ID>,
> {
    match first_where(list, refers_to(id)) {
        Some(k) => list.update(k, list[k].with_source(tag)),
        None => list.push(sourced_by(id, tag)),
    }
}

/// An optional field after a sighting: a value that the sighting gives
/// replaces the old one and the sighting's tag joins the sources; a field
/// that the sighting does not give stays as it is.
pub open spec fn overwrite<V>(old: Option<SourcedView<V>>, new: Option<V>, tag: Seq<char>) -> Option<
    SourcedView<V>,
> {
    match new {
        None => old,
        Some(v) => match old {
            None => Some(sourced_by(v, tag)),
            Some(o) => Some(o.merge(sourced_by(v, tag))),
        },
    }
}

/// The node with `tag` among the sources that contributed to it.
pub open spec fn with_node_source(n: NodeView, tag: Seq<char>) -> NodeView {
    match n {
        NodeView::AirAirline(a) => NodeView::AirAirline(
            AirAirlineView {
                common: NodeCommonView { source: add_source(a.common.source, tag), ..a.common },
                ..a
            },
        ),
        NodeView::AirAirport(a) => NodeView::AirAirport(
            AirAirportView {
                common: LocatedNodeCommonView {
                    source: add_source(a.common.source, tag),
                    ..a.common
                },
                ..a
            },
        ),
        NodeView::AirFlight(a) => NodeView::AirFlight(
            AirFlightView {
                common: NodeCommonView { source: add_source(a.common.source, tag), ..a.common },
                ..a
            },
        ),
        NodeView::AirGate(a) => NodeView::AirGate(
            AirGateView {
                common: NodeCommonView { source: add_source(a.common.source, tag), ..a.common },
                ..a
            },
        ),
        other => other,
    }
}

/// A new airport, known from one source, with no gates yet.
pub open spec fn new_airport(id: ID, code: Seq<char>, tag: Seq<char>) -> NodeView {
    NodeView::AirAirport(
        AirAirportView {
            code,
            names: None,
            link: None,
            modes: None,
            gates: Seq::empty(),
            common: LocatedNodeCommonView {
                i: id,
                source: seq![tag],
                world: None,
                coordinates: None,
                proximity: Map::empty(),
                shared_facility: Seq::empty(),
            },
        },
    )
}

/// A new airline, known from one source, with no gates or flights yet.
pub open spec fn new_airline(id: ID, name: Seq<char>, tag: Seq<char>) -> NodeView {
    NodeView::AirAirline(
        AirAirlineView {
            name,
            link: None,
            flights: Seq::empty(),
            gates: Seq::empty(),
            common: NodeCommonView { i: id, source: seq![tag] },
        },
    )
}

/// The code that a gate records for a sighting: none for the unknown marker.
pub open spec fn recorded_code(code: Seq<char>) -> Option<Seq<char>> {
    if code == unknown_marker() {
        None
    } else {
        Some(code)
    }
}

/// A new gate as one sighting describes it, every field asserted by the
/// sighting's source.
pub open spec fn new_gate(id: ID, c: GateView, airport: ID, airline: Option<ID>) -> NodeView {
    NodeView::AirGate(
        AirGateView {
            codes: recorded_code(c.gate_code),
            size: overwrite(None, c.size, c.source),
            airline: overwrite(None, airline, c.source),
            airport: sourced_by(airport, c.source),
            flights: Seq::empty(),
            common: NodeCommonView { i: id, source: seq![c.source] },
        },
    )
}

/// A gate after a further sighting of it: the fields that the sighting gives
/// are overwritten, and the sighting's tag joins the sources of each and of
/// this gate.
pub open spec fn merged_gate(g: AirGateView, c: GateView, airline: Option<ID>) -> AirGateView {
    AirGateView {
        codes: g.codes,
        size: overwrite(g.size, c.size, c.source),
        airline: overwrite(g.airline, airline, c.source),
        airport: g.airport.with_source(c.source),
        flights: g.flights,
        common: NodeCommonView { i: g.common.i, source: add_source(g.common.source, c.source) },
    }
}

/// A new flight of `airline` between two gates.
pub open spec fn new_flight(
    id: ID,
    flight_no: Seq<char>,
    airline: ID,
    from: ID,
    to: ID,
    tag: Seq<char>,
) -> NodeView {
    NodeView::AirFlight(
        AirFlightView {
            codes: seq![flight_no],
            mode: None,
            airline: sourced_by(airline, tag),
            gates: seq![sourced_by(from, tag), sourced_by(to, tag)],
            common: NodeCommonView { i: id, source: seq![tag] },
        },
    )
}

/// The graph with the airport of this code in it and asserted by `tag`, and
/// the airport's identifier.
pub open spec fn resolve_airport(nodes: Seq<NodeView>, code: Seq<char>, tag: Seq<char>) -> (
    Seq<NodeView>,
    ID,
) {
    match find_airport(nodes, code) {
        Some(i) => (nodes.update(i, with_node_source(nodes[i], tag)), i as ID),
        None => (nodes.push(new_airport(nodes.len() as ID, code, tag)), nodes.len() as ID),
    }
}

/// The graph with the airline of this name in it and asserted by `tag`, and
/// the airline's identifier.
pub open spec fn resolve_airline(nodes: Seq<NodeView>, name: Seq<char>, tag: Seq<char>) -> (
    Seq<NodeView>,
    ID,
) {
    match find_airline(nodes, name) {
        Some(i) => (nodes.update(i, with_node_source(nodes[i], tag)), i as ID),
        None => (nodes.push(new_airline(nodes.len() as ID, name, tag)), nodes.len() as ID),
    }
}

/// The graph with the airline that a sighting names, if it names one.
pub open spec fn resolve_gate_airline(nodes: Seq<NodeView>, c: GateView) -> (
    Seq<NodeView>,
    Option<ID>,
) {
    match c.airline {
        Some(name) => {
            let (next, id) = resolve_airline(nodes, name, c.source);
            (next, Some(id))
        },
        None => (nodes, None),
    }
}

/// An airport with `gate` among its gates.
pub open spec fn airport_with_gate(n: NodeView, gate: ID, tag: Seq<char>) -> NodeView {
    match n {
        NodeView::AirAirport(a) => NodeView::AirAirport(
            AirAirportView { gates: add_ref(a.gates, gate, tag), ..a },
        ),
        other => other,
    }
}

/// An airline with `gate` among its gates.
pub open spec fn airline_with_gate(n: NodeView, gate: ID, tag: Seq<char>) -> NodeView {
    match n {
        NodeView::AirAirline(a) => NodeView::AirAirline(
            AirAirlineView { gates: add_ref(a.gates, gate, tag), ..a },
        ),
        other => other,
    }
}

/// The airline with the flight `flight` among its flights.
pub open spec fn airline_with_flight(n: NodeView, flight: ID, tag: Seq<char>) -> NodeView {
    match n {
        NodeView::AirAirline(a) => NodeView::AirAirline(
            AirAirlineView { flights: add_ref(a.flights, flight, tag), ..a },
        ),
        other => other,
    }
}

/// A gate with the flight `flight` among its flights.
pub open spec fn gate_with_flight(n: NodeView, flight: ID, tag: Seq<char>) -> NodeView {
    match n {
        NodeView::AirGate(g) => NodeView::AirGate(
            AirGateView { flights: add_ref(g.flights, flight, tag), ..g },
        ),
        other => other,
    }
}

/// The graph with `gate` listed by its airport and, if it has one,
/// by its airline.
pub open spec fn link_gate(
    nodes: Seq<NodeView>,
    gate: ID,
    airport: ID,
    airline: Option<ID>,
    tag: Seq<char>,
) -> Seq<NodeView> {
    let listed = nodes.update(airport as int, airport_with_gate(nodes[airport as int], gate, tag));
    match airline {
        Some(l) => listed.update(l as int, airline_with_gate(listed[l as int], gate, tag)),
        None => listed,
    }
}

/// The graph once the sighting `c` is put where the matcher decided.
pub open spec fn place_gate(
    nodes: Seq<NodeView>,
    d: Decision,
    c: GateView,
    airport: ID,
    airline: Option<ID>,
) -> (Seq<NodeView>, ID) {
    match d {
        Decision::Existing(g) => (
            nodes.update(
                g as int,
                NodeView::AirGate(merged_gate(nodes[g as int]->AirGate_0, c, airline)),
            ),
            g,
        ),
        _ => (nodes.push(new_gate(nodes.len() as ID, c, airport, airline)), nodes.len() as ID),
    }
}

/// The merger for one sighting of a gate: the graph after the sighting, and
/// the identifier of whichever gate the sighting went to. The matcher decides
/// on the graph as it stands before anything of the sighting is added.
pub open spec fn apply_gate(nodes: Seq<NodeView>, c: GateView) -> (Seq<NodeView>, ID) {
    let d = decide(nodes, c);
    let (with_airport, airport) = resolve_airport(nodes, c.airport, c.source);
    let (with_airline, airline) = resolve_gate_airline(with_airport, c);
    let (placed, gate) = place_gate(with_airline, d, c, airport, airline);
    (link_gate(placed, gate, airport, airline, c.source), gate)
}

/// The airline that a flight between two sighted gates belongs to: the one
/// that the first sighting names, else the one that the second names.
pub open spec fn flight_airline(from: GateView, to: GateView) -> Option<Seq<char>> {
    match from.airline {
        Some(name) => Some(name),
        None => to.airline,
    }
}

/// The graph with a new flight of the airline `name` between the gates `g1`
/// and `g2`, listed with both gates and with the airline.
pub open spec fn attach_flight(
    nodes: Seq<NodeView>,
    g1: ID,
    g2: ID,
    name: Seq<char>,
    flight_no: Seq<char>,
    tag: Seq<char>,
) -> Seq<NodeView> {
    let (with_airline, airline) = resolve_airline(nodes, name, tag);
    let flight = with_airline.len() as ID;
    let added = with_airline.push(new_flight(flight, flight_no, airline, g1, g2, tag));
    let at_from = added.update(g1 as int, gate_with_flight(added[g1 as int], flight, tag));
    let at_to = at_from.update(g2 as int, gate_with_flight(at_from[g2 as int], flight, tag));
    at_to.update(airline as int, airline_with_flight(at_to[airline as int], flight, tag))
}

/// How many nodes folding in one sighting of a gate adds: its airport and
/// its airline, each where the graph does not hold it yet, and a gate unless
/// the sighting is of one that the graph holds.
pub open spec fn gate_need(nodes: Seq<NodeView>, c: GateView) -> nat {
    let airport: nat = if find_airport(nodes, c.airport) is None {
        1
    } else {
        0
    };
    let airline: nat = if c.airline is Some && find_airline(nodes, c.airline->0) is None {
        1
    } else {
        0
    };
    let gate: nat = if decide(nodes, c) is Existing {
        0
    } else {
        1
    };
    airport + airline + gate
}

/// Whether the graph has identifiers left for all the nodes that folding in
/// this sighting of a gate adds.
pub open spec fn gate_fits(nodes: Seq<NodeView>, c: GateView) -> bool {
    nodes.len() + gate_need(nodes, c) <= MAX_NODES
}

/// How many nodes folding in one sighting of a flight adds: what the first
/// gate needs, what the second needs once the first is folded in, and the
/// flight itself if the sighting names an airline.
pub open spec fn flight_need(nodes: Seq<NodeView>, from: GateView, to: GateView) -> nat {
    let flight: nat = if flight_airline(from, to) is Some {
        1
    } else {
        0
    };
    gate_need(nodes, from) + gate_need(apply_gate(nodes, from).0, to) + flight
}

/// Whether the graph has identifiers left for all that folding in this
/// sighting of a flight adds: for the first gate, then for the second, then
/// for the flight itself if the sighting names an airline.
pub open spec fn flight_fits(nodes: Seq<NodeView>, from: GateView, to: GateView) -> bool {
    &&& gate_fits(nodes, from)
    &&& gate_fits(apply_gate(nodes, from).0, to)
    &&& (flight_airline(from, to) is Some ==> apply_gate(apply_gate(nodes, from).0, to).0.len()
        < MAX_NODES)
}

/// Whether this sighting of a flight is dropped: both gates are folded in,
/// and no airline is named that the flight could be a flight of.
pub open spec fn flight_dropped(nodes: Seq<NodeView>, from: GateView, to: GateView) -> bool {
    flight_fits(nodes, from, to) && flight_airline(from, to) is None
}

/// The merger for one sighting of a flight between two sighted gates. Both
/// gates are matched and merged, the first before the second; then a new
/// flight is added and listed with both gates and with its airline. Where
/// the sighting names no airline, the gates are folded in and no flight is
/// added. Where the identifiers run out, the steps before the one that does
/// not fit stay done.
pub open spec fn apply_flight(
    nodes: Seq<NodeView>,
    from: GateView,
    to: GateView,
    flight_no: Seq<char>,
) -> Seq<NodeView> {
    if !gate_fits(nodes, from) {
        nodes
    } else {
        let (after_from, g1) = apply_gate(nodes, from);
        if !gate_fits(after_from, to) {
            after_from
        } else {
            let (after_to, g2) = apply_gate(after_from, to);
            match flight_airline(from, to) {
                Some(name) => if after_to.len() < MAX_NODES {
                    attach_flight(after_to, g1, g2, name, flight_no, from.source)
                } else {
                    after_to
                },
                None => after_to,
            }
        }
    }
}

} // verus!
