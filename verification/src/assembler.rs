//! The assembler: replays the sightings that the sources gave, in the order
//! given, through the matcher and the merger.
//!
//! Sightings from the airports come before those from the airlines, so that
//! the gates which an airport lists are in the graph before the flights that
//! use them.

use crate::candidate::{Flight, Gate, GateView};
use crate::error::Error;
use crate::graph::{ambiguity, capped, drop_count, flight_ambiguity, CanonicalGraph};
use crate::model::{apply_flight, apply_gate, flight_fits, gate_fits};
use crate::node::NodeView;
use vstd::prelude::*;

verus! {

/// The graph after the sightings of gates are folded in one by one, front to
/// back. Replay stops before the first sighting that adds more nodes than
/// there are identifiers left.
pub open spec fn replay_gates(nodes: Seq<NodeView>, gates: Seq<GateView>) -> Seq<NodeView>
    decreases gates.len(),
{
    if gates.len() == 0 || !gate_fits(nodes, gates[0]) {
        nodes
    } else {
        replay_gates(apply_gate(nodes, gates[0]).0, gates.drop_first())
    }
}

/// Whether the graph has identifiers left for each of the sightings in turn.
pub open spec fn gates_fit(nodes: Seq<NodeView>, gates: Seq<GateView>) -> bool
    decreases gates.len(),
{
    if gates.len() == 0 {
        true
    } else {
        gate_fits(nodes, gates[0]) && gates_fit(apply_gate(nodes, gates[0]).0, gates.drop_first())
    }
}

/// How many of the replayed sightings of gates were ambiguous.
pub open spec fn ambiguous_gates(nodes: Seq<NodeView>, gates: Seq<GateView>) -> nat
    decreases gates.len(),
{
    if gates.len() == 0 || !gate_fits(nodes, gates[0]) {
        0
    } else {
        ambiguity(nodes, gates[0]) + ambiguous_gates(
            apply_gate(nodes, gates[0]).0,
            gates.drop_first(),
        )
    }
}

/// The graph after the sightings of flights are folded in one by one, front
/// to back. Replay stops at the first sighting that adds more nodes than
/// there are identifiers left; of that sighting the steps that fit are done.
pub open spec fn replay_flights(
    nodes: Seq<NodeView>,
    flights: Seq<(GateView, GateView, Seq<char>)>,
) -> Seq<NodeView>
    decreases flights.len(),
{
    if flights.len() == 0 {
        nodes
    } else {
        let next = apply_flight(nodes, flights[0].0, flights[0].1, flights[0].2);
        if flight_fits(nodes, flights[0].0, flights[0].1) {
            replay_flights(next, flights.drop_first())
        } else {
            next
        }
    }
}

/// Whether the graph has identifiers left for each of the sightings in turn.
pub open spec fn flights_fit(
    nodes: Seq<NodeView>,
    flights: Seq<(GateView, GateView, Seq<char>)>,
) -> bool
    decreases flights.len(),
{
    if flights.len() == 0 {
        true
    } else {
        flight_fits(nodes, flights[0].0, flights[0].1) && flights_fit(
            apply_flight(nodes, flights[0].0, flights[0].1, flights[0].2),
            flights.drop_first(),
        )
    }
}

/// How many of the replayed sightings of gates, two to a flight, were
/// ambiguous.
pub open spec fn ambiguous_flights(
    nodes: Seq<NodeView>,
    flights: Seq<(GateView, GateView, Seq<char>)>,
) -> nat
    decreases flights.len(),
{
    if flights.len() == 0 {
        0
    } else {
        flight_ambiguity(nodes, flights[0].0, flights[0].1) + if flight_fits(
            nodes,
            flights[0].0,
            flights[0].1,
        ) {
            ambiguous_flights(
                apply_flight(nodes, flights[0].0, flights[0].1, flights[0].2),
                flights.drop_first(),
            )
        } else {
            0
        }
    }
}

/// How many of the replayed sightings of flights were dropped because
/// neither of their gates named an airline.
pub open spec fn dropped_flights(
    nodes: Seq<NodeView>,
    flights: Seq<(GateView, GateView, Seq<char>)>,
) -> nat
    decreases flights.len(),
{
    if flights.len() == 0 {
        0
    } else {
        drop_count(nodes, flights[0].0, flights[0].1) + if flight_fits(
            nodes,
            flights[0].0,
            flights[0].1,
        ) {
            dropped_flights(
                apply_flight(nodes, flights[0].0, flights[0].1, flights[0].2),
                flights.drop_first(),
            )
        } else {
            0
        }
    }
}

/// Replays the sightings of gates that the airports gave, in order. Fails
/// at the first sighting that adds more nodes than there are identifiers
/// left; the sightings before it stay folded in.
pub fn airports(graph: &mut CanonicalGraph, gates: &Vec<Gate>) -> (r: Result<(), Error>)
    requires
        old(graph).wf(),
    ensures
        final(graph).wf(),
        final(graph).nodes() == replay_gates(old(graph).nodes(), gates.deep_view()),
        final(graph).ambiguous() == old(graph).ambiguous() + ambiguous_gates(
            old(graph).nodes(),
            gates.deep_view(),
        ),
        final(graph).dropped() == old(graph).dropped(),
        r is Ok <==> gates_fit(old(graph).nodes(), gates.deep_view()),
        r matches Err(e) ==> e is IdentifiersExhausted,
{
    let ghost all = gates.deep_view();
    let ghost start = graph.nodes();
    let ghost start_count = graph.ambiguous();
    let n = gates.len();
    let mut i: usize = 0;
    assert(all.subrange(0, n as int) =~= all);
    while i < n
        invariant
            n == gates.len(),
            i <= n,
            all == gates.deep_view(),
            start == old(graph).nodes(),
            start_count == old(graph).ambiguous(),
            graph.dropped() == old(graph).dropped(),
            graph.wf(),
            replay_gates(start, all) == replay_gates(graph.nodes(), all.subrange(i as int, n as int)),
            gates_fit(start, all) == gates_fit(graph.nodes(), all.subrange(i as int, n as int)),
            start_count + ambiguous_gates(start, all) == graph.ambiguous() + ambiguous_gates(
                graph.nodes(),
                all.subrange(i as int, n as int),
            ),
        decreases n - i,
    {
        let ghost rest = all.subrange(i as int, n as int);
        assert(rest[0] == gates[i as int].deep_view());
        assert(rest.drop_first() =~= all.subrange(i + 1, n as int));
        match graph.merge_gate(&gates[i]) {
            Ok(_) => {},
            Err(e) => {
                return Err(e);
            },
        }
        i += 1;
    }
    Ok(())
}

/// Replays the sightings of flights that the airlines gave, in order: each
/// is a sighting of two gates and a flight number. Fails at the first
/// sighting that adds more nodes than there are identifiers left; what was
/// folded in before stays folded in.
pub fn airlines(graph: &mut CanonicalGraph, flights: &Vec<(Gate, Gate, String)>) -> (r: Result<
    (),
    Error,
>)
    requires
        old(graph).wf(),
    ensures
        final(graph).wf(),
        final(graph).nodes() == replay_flights(old(graph).nodes(), flights.deep_view()),
        final(graph).ambiguous() == old(graph).ambiguous() + ambiguous_flights(
            old(graph).nodes(),
            flights.deep_view(),
        ),
        final(graph).dropped() == capped(
            old(graph).dropped() + dropped_flights(old(graph).nodes(), flights.deep_view()),
        ),
        r is Ok <==> flights_fit(old(graph).nodes(), flights.deep_view()),
        r matches Err(e) ==> e is IdentifiersExhausted,
{
    let ghost all = flights.deep_view();
    let ghost start = graph.nodes();
    let ghost start_count = graph.ambiguous();
    let ghost start_dropped = graph.dropped();
    let n = flights.len();
    let mut i: usize = 0;
    assert(all.subrange(0, n as int) =~= all);
    while i < n
        invariant
            n == flights.len(),
            i <= n,
            all == flights.deep_view(),
            start == old(graph).nodes(),
            start_count == old(graph).ambiguous(),
            start_dropped == old(graph).dropped(),
            graph.wf(),
            replay_flights(start, all) == replay_flights(
                graph.nodes(),
                all.subrange(i as int, n as int),
            ),
            flights_fit(start, all) == flights_fit(graph.nodes(), all.subrange(i as int, n as int)),
            start_count + ambiguous_flights(start, all) == graph.ambiguous() + ambiguous_flights(
                graph.nodes(),
                all.subrange(i as int, n as int),
            ),
            capped(start_dropped + dropped_flights(start, all)) == capped(
                graph.dropped() + dropped_flights(graph.nodes(), all.subrange(i as int, n as int)),
            ),
        decreases n - i,
    {
        let ghost rest = all.subrange(i as int, n as int);
        assert(rest[0] == flights[i as int].deep_view());
        assert(rest.drop_first() =~= all.subrange(i + 1, n as int));
        let flight = Flight { flight_no: flights[i].2.clone() };
        match graph.merge_flight(&flights[i].0, &flights[i].1, &flight) {
            Ok(_) => {},
            Err(e) => {
                return Err(e);
            },
        }
        i += 1;
    }
    Ok(())
}

/// Builds a graph from nothing: the sightings from the airports first, then
/// those from the airlines. Either every sighting is folded in, or the build
/// fails and there is no graph.
pub fn assemble(gates: &Vec<Gate>, flights: &Vec<(Gate, Gate, String)>) -> (r: Result<
    CanonicalGraph,
    Error,
>)
    ensures
        match r {
            Ok(graph) => {
                &&& graph.wf()
                &&& gates_fit(Seq::empty(), gates.deep_view())
                &&& flights_fit(
                    replay_gates(Seq::empty(), gates.deep_view()),
                    flights.deep_view(),
                )
                &&& graph.nodes() == replay_flights(
                    replay_gates(Seq::empty(), gates.deep_view()),
                    flights.deep_view(),
                )
                &&& graph.ambiguous() == ambiguous_gates(Seq::empty(), gates.deep_view())
                    + ambiguous_flights(
                    replay_gates(Seq::empty(), gates.deep_view()),
                    flights.deep_view(),
                )
                &&& graph.dropped() == capped(
                    dropped_flights(
                        replay_gates(Seq::empty(), gates.deep_view()),
                        flights.deep_view(),
                    ),
                )
            },
            Err(e) => {
                &&& e is IdentifiersExhausted
                &&& !(gates_fit(Seq::empty(), gates.deep_view()) && flights_fit(
                    replay_gates(Seq::empty(), gates.deep_view()),
                    flights.deep_view(),
                ))
            },
        },
{
    let mut graph = CanonicalGraph::new();
    match airports(&mut graph, gates) {
        Ok(()) => {},
        Err(e) => {
            return Err(e);
        },
    }
    match airlines(&mut graph, flights) {
        Ok(()) => {},
        Err(e) => {
            return Err(e);
        },
    }
    Ok(graph)
}

} // verus!
