//! The graph as it is served: gates joined by flights.
//!
//! The served graph holds one record for each gate and one edge for each
//! flight. It is made from a canonical graph once the build is done, and is
//! read by airport: which gates an airport has, and where the flights of
//! each gate go.

use crate::candidate::{Flight, Gate, GateView};
use crate::closure::{node_closed, ref_is, well_formed};
use crate::graph::CanonicalGraph;
use crate::model::{airport_code_of, gate_airline_name};
use crate::node::{AirGate, AirGateView, Node, NodeKind, NodeView, ID};
use crate::text::{copy_text, unknown_marker};
use vstd::prelude::*;
use vstd::string::StringExecFns;

verus! {

/// Trusted: the type `petgraph::graph::Graph`, of which nothing is known
/// here but what the functions below say.
#[verifier::external_type_specification]
#[verifier::external_body]
#[verifier::reject_recursive_types(N)]
#[verifier::reject_recursive_types(E)]
#[verifier::reject_recursive_types(Ty)]
#[verifier::reject_recursive_types(Ix)]
pub struct ExGraph<N, E, Ty, Ix>(petgraph::graph::Graph<N, E, Ty, Ix>);

/// Trusted: the type `petgraph::Undirected`, which marks a graph whose edges
/// have no direction.
#[verifier::external_type_specification]
#[verifier::external_body]
pub struct ExUndirected(petgraph::Undirected);

/// The served graph: gates, joined by flights in no direction.
pub type GateGraph = petgraph::graph::Graph<Gate, Flight, petgraph::Undirected, u32>;

/// The gates of a served graph, in the order in which they were added. A
/// gate's position is its index.
pub uninterp spec fn graph_gates(
    g: petgraph::graph::Graph<Gate, Flight, petgraph::Undirected, u32>,
) -> Seq<GateView>;

/// The flights of a served graph, in the order in which they were added:
/// for each, the indices of the two gates it joins and its number.
pub uninterp spec fn graph_flights(
    g: petgraph::graph::Graph<Gate, Flight, petgraph::Undirected, u32>,
) -> Seq<(int, int, Seq<char>)>;

/// The most gates, and the most flights, that a served graph holds.
pub const GRAPH_LIMIT: usize = 0xffff_ffff;

/// A served graph without gates or flights.
///
/// Trusted: this is `petgraph::graph::Graph::new_undirected`, which makes a
/// graph with no node and no edge.
#[verifier::external_body]
fn empty_graph() -> (g: GateGraph)
    ensures
        graph_gates(g) == Seq::<GateView>::empty(),
        graph_flights(g) == Seq::<(int, int, Seq<char>)>::empty(),
{
    petgraph::graph::Graph::new_undirected()
}

/// Adds a gate and returns its index.
///
/// Trusted: this is `Graph::add_node`, which appends the node, leaves the
/// edges alone and returns the index that the node count was before. It
/// panics only where that index is the largest `u32`.
#[verifier::external_body]
fn push_gate(g: &mut GateGraph, gate: Gate) -> (index: usize)
    requires
        graph_gates(*old(g)).len() < GRAPH_LIMIT,
    ensures
        graph_gates(*final(g)) == graph_gates(*old(g)).push(gate.deep_view()),
        graph_flights(*final(g)) == graph_flights(*old(g)),
        index == graph_gates(*old(g)).len(),
{
    g.add_node(gate).index()
}

/// Adds a flight between the gates at `a` and `b`.
///
/// Trusted: this is `Graph::add_edge`, which appends the edge with its two
/// end points and leaves the nodes' weights alone. It panics only where an
/// end point is no node of the graph, or where the edge count is the largest
/// `u32`.
#[verifier::external_body]
fn push_flight(g: &mut GateGraph, a: usize, b: usize, flight: Flight)
    requires
        a < graph_gates(*old(g)).len(),
        b < graph_gates(*old(g)).len(),
        graph_gates(*old(g)).len() <= GRAPH_LIMIT,
        graph_flights(*old(g)).len() < GRAPH_LIMIT,
    ensures
        graph_gates(*final(g)) == graph_gates(*old(g)),
        graph_flights(*final(g)) == graph_flights(*old(g)).push(
            (a as int, b as int, flight.flight_no@),
        ),
{
    g.add_edge(petgraph::graph::NodeIndex::new(a), petgraph::graph::NodeIndex::new(b), flight);
}

/// The number of gates.
///
/// Trusted: this is `Graph::node_count`.
#[verifier::external_body]
fn gate_count(g: &GateGraph) -> (n: usize)
    ensures
        n == graph_gates(*g).len(),
{
    g.node_count()
}

/// The number of flights.
///
/// Trusted: this is `Graph::edge_count`.
#[verifier::external_body]
fn flight_count(g: &GateGraph) -> (n: usize)
    ensures
        n == graph_flights(*g).len(),
{
    g.edge_count()
}

/// A gate by its index.
///
/// Trusted: this is `Graph::node_weight`, which returns the weight of the
/// node at the index, if there is one.
#[verifier::external_body]
fn gate_ref(g: &GateGraph, i: usize) -> (gate: Option<&Gate>)
    requires
        i < graph_gates(*g).len(),
    ensures
        gate is Some,
        gate->0.deep_view() == graph_gates(*g)[i as int],
{
    g.node_weight(petgraph::graph::NodeIndex::new(i))
}

/// The indices of the two gates that the flight at index `e` joins.
///
/// Trusted: this is `Graph::edge_endpoints`, which returns the two end
/// points that the edge was added with, if there is such an edge. Both are
/// nodes of the graph: `add_edge` takes no others, and a graph that is read
/// from its serialised form is refused if an edge has another.
#[verifier::external_body]
fn flight_ends(g: &GateGraph, e: usize) -> (ends: Option<(usize, usize)>)
    requires
        e < graph_flights(*g).len(),
    ensures
        ends is Some,
        (ends->0).0 == graph_flights(*g)[e as int].0,
        (ends->0).1 == graph_flights(*g)[e as int].1,
        (ends->0).0 < graph_gates(*g).len(),
        (ends->0).1 < graph_gates(*g).len(),
{
    g.edge_endpoints(petgraph::graph::EdgeIndex::new(e)).map(|(a, b)| (a.index(), b.index()))
}

/// The flight at index `e`.
///
/// Trusted: this is `Graph::edge_weight`, which returns the weight of the
/// edge at the index, if there is one.
#[verifier::external_body]
fn flight_ref(g: &GateGraph, e: usize) -> (flight: Option<&Flight>)
    requires
        e < graph_flights(*g).len(),
    ensures
        flight is Some,
        flight->0.flight_no@ == graph_flights(*g)[e as int].2,
{
    g.edge_weight(petgraph::graph::EdgeIndex::new(e))
}

/// The record that is served for a gate: the code of its airport, its own
/// code or the unknown marker, the name of its airline, its size, and the
/// first source that told of it.
pub open spec fn gate_record(nodes: Seq<NodeView>, g: AirGateView) -> GateView {
    GateView {
        airport: airport_code_of(nodes, g.airport.value()),
        gate_code: match g.codes {
            Some(c) => c,
            None => unknown_marker(),
        },
        airline: gate_airline_name(nodes, g),
        size: match g.size {
            Some(s) => Some(s.value()),
            None => None,
        },
        source: if g.common.source.len() > 0 {
            g.common.source[0]
        } else {
            Seq::empty()
        },
    }
}

/// The records of the gates among the first `upto` nodes, by ascending
/// identifier.
pub open spec fn gate_records(nodes: Seq<NodeView>, upto: int) -> Seq<GateView>
    decreases upto,
{
    if upto <= 0 {
        Seq::empty()
    } else {
        let before = gate_records(nodes, upto - 1);
        match nodes[upto - 1] {
            NodeView::AirGate(g) => before.push(gate_record(nodes, g)),
            _ => before,
        }
    }
}

/// The index under which a gate with identifier `id` is served: the
/// number of gates with a lower identifier.
pub open spec fn gate_rank(nodes: Seq<NodeView>, id: int) -> int {
    gate_records(nodes, id).len() as int
}

/// The flights among the first `upto` nodes that join two gates, by
/// ascending identifier: for each, the indices under which its two gates are
/// served, and its first code.
pub open spec fn flight_records(nodes: Seq<NodeView>, upto: int) -> Seq<(int, int, Seq<char>)>
    decreases upto,
{
    if upto <= 0 {
        Seq::empty()
    } else {
        let before = flight_records(nodes, upto - 1);
        match nodes[upto - 1] {
            NodeView::AirFlight(f) => if f.gates.len() == 2 && f.codes.len() > 0 {
                before.push(
                    (
                        gate_rank(nodes, f.gates[0].value() as int),
                        gate_rank(nodes, f.gates[1].value() as int),
                        f.codes[0],
                    ),
                )
            } else {
                before
            },
            _ => before,
        }
    }
}

/// Gates are served under consecutive indices: a gate's index is below the
/// number of gates among any nodes that include it.
pub proof fn lemma_gate_rank(nodes: Seq<NodeView>, id: int, upto: int)
    requires
        0 <= id < upto <= nodes.len(),
        nodes[id] is AirGate,
    ensures
        gate_rank(nodes, id) < gate_records(nodes, upto).len(),
        gate_records(nodes, upto).len() <= upto,
        gate_records(nodes, upto)[gate_rank(nodes, id)] == gate_record(nodes, nodes[id]->AirGate_0),
    decreases upto,
{
    lemma_records_len(nodes, upto - 1);
    if id < upto - 1 {
        lemma_gate_rank(nodes, id, upto - 1);
    }
}

/// There are no more records than nodes.
pub proof fn lemma_records_len(nodes: Seq<NodeView>, upto: int)
    requires
        0 <= upto,
    ensures
        gate_records(nodes, upto).len() <= upto,
        flight_records(nodes, upto).len() <= upto,
    decreases upto,
{
    if upto > 0 {
        lemma_records_len(nodes, upto - 1);
    }
}

/// The record that is served for the node at `i`, a gate.
fn record_of(graph: &CanonicalGraph, i: usize, g: &AirGate) -> (record: Gate)
    requires
        well_formed(graph.nodes()),
        i < graph.nodes().len(),
        graph.nodes()[i as int] == NodeView::AirGate(g.deep_view()),
    ensures
        record.deep_view() == gate_record(graph.nodes(), g.deep_view()),
{
    let ghost nodes = graph.nodes();
    assert(node_closed(nodes, nodes[i as int]));
    let airport = match graph.node(*g.airport.get()) {
        Some(Node::AirAirport(a)) => a.code.clone(),
        _ => {
            assert(false);
            String::from_str("")
        },
    };
    let gate_code = match &g.codes {
        Some(c) => c.clone(),
        None => {
            proof {
                reveal_strlit("?");
                assert("?"@ =~= unknown_marker());
            }
            String::from_str("?")
        },
    };
    let airline = match &g.airline {
        Some(l) => match graph.node(*l.get()) {
            Some(Node::AirAirline(a)) => Some(a.name.clone()),
            _ => {
                assert(false);
                None
            },
        },
        None => None,
    };
    let size = match &g.size {
        Some(s) => Some(s.get().clone()),
        None => None,
    };
    let source = if g.common.source.len() > 0 {
        g.common.source[0].clone()
    } else {
        proof {
            reveal_strlit("");
            assert(""@ =~= Seq::<char>::empty());
        }
        String::from_str("")
    };
    assert(g.deep_view().common.source.len() == g.common.source.len());
    Gate { airport, gate_code, airline, size, source }
}

/// The graph that is served for a canonical graph: a record for each gate,
/// by ascending identifier, and an edge for each flight between two gates,
/// by ascending identifier.
pub fn to_graph(graph: &CanonicalGraph) -> (served: GateGraph)
    requires
        graph.wf(),
    ensures
        graph_gates(served) == gate_records(graph.nodes(), graph.nodes().len() as int),
        graph_flights(served) == flight_records(graph.nodes(), graph.nodes().len() as int),
{
    let ghost nodes = graph.nodes();
    let n = graph.len();
    let mut served = empty_graph();
    let mut ranks: Vec<usize> = Vec::new();
    let mut i: usize = 0;
    while i < n
        invariant
            n == nodes.len(),
            nodes == graph.nodes(),
            graph.wf(),
            i <= n,
            ranks.len() == i,
            forall|j: int| 0 <= j < i ==> (#[trigger] ranks[j]) as int == gate_rank(nodes, j),
            graph_gates(served) == gate_records(nodes, i as int),
            graph_flights(served) == Seq::<(int, int, Seq<char>)>::empty(),
        decreases n - i,
    {
        proof {
            lemma_records_len(nodes, i as int);
        }
        ranks.push(gate_count(&served));
        match graph.node(i as ID) {
            Some(Node::AirGate(g)) => {
                let record = record_of(graph, i, g);
                push_gate(&mut served, record);
            },
            _ => {},
        }
        i += 1;
    }
    let mut k: usize = 0;
    while k < n
        invariant
            n == nodes.len(),
            nodes == graph.nodes(),
            graph.wf(),
            k <= n,
            ranks.len() == n,
            forall|j: int| 0 <= j < n ==> (#[trigger] ranks[j]) as int == gate_rank(nodes, j),
            graph_gates(served) == gate_records(nodes, n as int),
            graph_flights(served) == flight_records(nodes, k as int),
        decreases n - k,
    {
        proof {
            lemma_records_len(nodes, k as int);
            lemma_records_len(nodes, n as int);
        }
        match graph.node(k as ID) {
            Some(Node::AirFlight(f)) => {
                if f.gates.len() == 2 && f.codes.len() > 0 {
                    let g1 = *f.gates[0].get();
                    let g2 = *f.gates[1].get();
                    proof {
                        let fv = nodes[k as int]->AirFlight_0;
                        assert(node_closed(nodes, nodes[k as int]));
                        assert(fv.gates[0].value() == g1);
                        assert(fv.gates[1].value() == g2);
                        assert(ref_is(nodes, fv.gates[0].value(), NodeKind::AirGate));
                        assert(ref_is(nodes, fv.gates[1].value(), NodeKind::AirGate));
                        lemma_gate_rank(nodes, g1 as int, n as int);
                        lemma_gate_rank(nodes, g2 as int, n as int);
                        assert(fv.codes[0] == f.codes[0]@);
                    }
                    let flight = Flight { flight_no: f.codes[0].clone() };
                    push_flight(&mut served, ranks[g1 as usize], ranks[g2 as usize], flight);
                }
            },
            _ => {},
        }
        k += 1;
    }
    served
}

/// A copy of a record.
pub fn copy_gate(gate: &Gate) -> (copy: Gate)
    ensures
        copy.deep_view() == gate.deep_view(),
{
    Gate {
        airport: gate.airport.clone(),
        gate_code: gate.gate_code.clone(),
        airline: copy_text(&gate.airline),
        size: copy_text(&gate.size),
        source: gate.source.clone(),
    }
}

/// The records of `gates` that are at the airport `airport`, in their order.
pub open spec fn gates_at(gates: Seq<GateView>, airport: Seq<char>) -> Seq<GateView>
    decreases gates.len(),
{
    if gates.len() == 0 {
        Seq::empty()
    } else {
        let before = gates_at(gates.drop_last(), airport);
        if gates.last().airport == airport {
            before.push(gates.last())
        } else {
            before
        }
    }
}

/// The gates of one airport, in the order in which the graph holds them.
pub fn gates(graph: &GateGraph, airport: &str) -> (found: Vec<Gate>)
    ensures
        found.deep_view() == gates_at(graph_gates(*graph), airport@),
{
    let ghost all = graph_gates(*graph);
    let wanted = String::from_str(airport);
    let n = gate_count(graph);
    let mut found: Vec<Gate> = Vec::new();
    let mut i: usize = 0;
    assert(found.deep_view() =~= gates_at(all.subrange(0, 0), airport@));
    while i < n
        invariant
            n == all.len(),
            all == graph_gates(*graph),
            wanted@ == airport@,
            i <= n,
            found.deep_view() == gates_at(all.subrange(0, i as int), airport@),
        decreases n - i,
    {
        let ghost before = found.deep_view();
        proof {
            let upto = all.subrange(0, i + 1);
            assert(upto.drop_last() =~= all.subrange(0, i as int));
            assert(upto.last() == all[i as int]);
        }
        match gate_ref(graph, i) {
            Some(gate) => {
                if gate.airport == wanted {
                    let copy = copy_gate(gate);
                    found.push(copy);
                    assert(found.deep_view() =~= before.push(copy.deep_view()));
                }
            },
            None => {},
        }
        i += 1;
    }
    assert(all.subrange(0, n as int) =~= all);
    found
}

/// What is shown for one gate: its record, and for each of its flights the
/// flight and the code of the airport at the other end.
#[derive(Clone, Debug)]
pub struct SingleGateProps {
    pub gate: Gate,
    pub flights: Vec<(Flight, String)>,
}

/// The mathematical content of a [`SingleGateProps`].
pub struct SingleGateView {
    pub gate: GateView,
    pub flights: Seq<(Seq<char>, Seq<char>)>,
}

impl DeepView for SingleGateProps {
    type V = SingleGateView;

    open spec fn deep_view(&self) -> SingleGateView {
        SingleGateView { gate: self.gate.deep_view(), flights: self.flights.deep_view() }
    }
}

/// The flights among the first `upto` that touch gate `i`, in their order:
/// for each, its number and the airport at its other end.
/// A flight from a gate to itself is listed once.
pub open spec fn flights_of(
    gates: Seq<GateView>,
    flights: Seq<(int, int, Seq<char>)>,
    i: int,
    upto: int,
) -> Seq<(Seq<char>, Seq<char>)>
    decreases upto,
{
    if upto <= 0 {
        Seq::empty()
    } else {
        let before = flights_of(gates, flights, i, upto - 1);
        let f = flights[upto - 1];
        if f.0 == i {
            before.push((f.2, gates[f.1].airport))
        } else if f.1 == i {
            before.push((f.2, gates[f.0].airport))
        } else {
            before
        }
    }
}

/// What is shown for gate `i`.
pub open spec fn row_of(
    gates: Seq<GateView>,
    flights: Seq<(int, int, Seq<char>)>,
    i: int,
) -> SingleGateView {
    SingleGateView { gate: gates[i], flights: flights_of(gates, flights, i, flights.len() as int) }
}

/// `sorted` with `row` put in: behind every row whose code does not come
/// after the code of `row`, and so behind rows of the same code.
pub open spec fn insert_row(sorted: Seq<SingleGateView>, row: SingleGateView) -> Seq<SingleGateView>
    decreases sorted.len(),
{
    if sorted.len() == 0 {
        seq![row]
    } else if crate::natural::display_standing(sorted.last().gate.gate_code, row.gate.gate_code)
        == crate::natural::Standing::After {
        insert_row(sorted.drop_last(), row).push(sorted.last())
    } else {
        sorted.push(row)
    }
}

/// The rows of the gates among the first `upto` that are at `airport`, put
/// in one after the other by the order of display of their codes.
pub open spec fn rows_at(
    gates: Seq<GateView>,
    flights: Seq<(int, int, Seq<char>)>,
    airport: Seq<char>,
    upto: int,
) -> Seq<SingleGateView>
    decreases upto,
{
    if upto <= 0 {
        Seq::empty()
    } else {
        let before = rows_at(gates, flights, airport, upto - 1);
        if gates[upto - 1].airport == airport {
            insert_row(before, row_of(gates, flights, upto - 1))
        } else {
            before
        }
    }
}

/// Putting a row in at `j` is what `insert_row` does, where every row from
/// `j` on comes after the new row and the row before `j`, if any, does not.
pub proof fn lemma_insert_row(sorted: Seq<SingleGateView>, row: SingleGateView, j: int)
    requires
        0 <= j <= sorted.len(),
        forall|k: int|
            j <= k < sorted.len() ==> crate::natural::display_standing(
                (#[trigger] sorted[k]).gate.gate_code,
                row.gate.gate_code,
            ) == crate::natural::Standing::After,
        j > 0 ==> crate::natural::display_standing(
            sorted[j - 1].gate.gate_code,
            row.gate.gate_code,
        ) != crate::natural::Standing::After,
    ensures
        insert_row(sorted, row) == sorted.insert(j, row),
    decreases sorted.len() - j,
{
    if sorted.len() == 0 {
        assert(sorted.insert(j, row) =~= seq![row]);
    } else if j == sorted.len() {
        assert(sorted.insert(j, row) =~= sorted.push(row));
    } else {
        let front = sorted.drop_last();
        assert forall|k: int| j <= k < front.len() implies crate::natural::display_standing(
            (#[trigger] front[k]).gate.gate_code,
            row.gate.gate_code,
        ) == crate::natural::Standing::After by {
            assert(front[k] == sorted[k]);
        }
        if j > 0 {
            assert(front[j - 1] == sorted[j - 1]);
        }
        lemma_insert_row(front, row, j);
        assert(sorted.insert(j, row) =~= front.insert(j, row).push(sorted.last()));
    }
}

/// The flights of gate `i`, each with the airport at its other end.
fn flights_at(graph: &GateGraph, i: usize) -> (found: Vec<(Flight, String)>)
    requires
        i < graph_gates(*graph).len(),
    ensures
        found.deep_view() == flights_of(
            graph_gates(*graph),
            graph_flights(*graph),
            i as int,
            graph_flights(*graph).len() as int,
        ),
{
    let ghost gates = graph_gates(*graph);
    let ghost flights = graph_flights(*graph);
    let n = flight_count(graph);
    let mut found: Vec<(Flight, String)> = Vec::new();
    let mut e: usize = 0;
    assert(found.deep_view() =~= flights_of(gates, flights, i as int, 0));
    while e < n
        invariant
            n == flights.len(),
            gates == graph_gates(*graph),
            flights == graph_flights(*graph),
            i < gates.len(),
            e <= n,
            found.deep_view() == flights_of(gates, flights, i as int, e as int),
        decreases n - e,
    {
        let ghost before = found.deep_view();
        let ends = flight_ends(graph, e);
        let flight = flight_ref(graph, e);
        match (ends, flight) {
            (Some((a, b)), Some(f)) => {
                let other = if a == i {
                    Some(b)
                } else if b == i {
                    Some(a)
                } else {
                    None
                };
                match other {
                    Some(o) => {
                        match gate_ref(graph, o) {
                            Some(far) => {
                                let entry = (
                                    Flight { flight_no: f.flight_no.clone() },
                                    far.airport.clone(),
                                );
                                found.push(entry);
                                assert(found.deep_view() =~= before.push(
                                    (f.flight_no@, far.airport@),
                                ));
                            },
                            None => {},
                        }
                    },
                    None => {},
                }
            },
            _ => {},
        }
        e += 1;
    }
    found
}

/// The rows that are shown for one airport: its gates by the order of
/// display of their codes, gates of the same code in the order in which the
/// graph holds them, and with each gate its flights.
pub fn gate_rows(graph: &GateGraph, airport: &str) -> (rows: Vec<SingleGateProps>)
    ensures
        rows.deep_view() == rows_at(
            graph_gates(*graph),
            graph_flights(*graph),
            airport@,
            graph_gates(*graph).len() as int,
        ),
{
    let ghost gates = graph_gates(*graph);
    let ghost flights = graph_flights(*graph);
    let wanted = String::from_str(airport);
    let n = gate_count(graph);
    let mut rows: Vec<SingleGateProps> = Vec::new();
    let mut i: usize = 0;
    assert(rows.deep_view() =~= rows_at(gates, flights, airport@, 0));
    while i < n
        invariant
            n == gates.len(),
            gates == graph_gates(*graph),
            flights == graph_flights(*graph),
            wanted@ == airport@,
            i <= n,
            rows.deep_view() == rows_at(gates, flights, airport@, i as int),
        decreases n - i,
    {
        match gate_ref(graph, i) {
            Some(gate) => {
                if gate.airport == wanted {
                    let row = SingleGateProps {
                        gate: copy_gate(gate),
                        flights: flights_at(graph, i),
                    };
                    assert(row.deep_view() == row_of(gates, flights, i as int));
                    insert_sorted(&mut rows, row);
                }
            },
            None => {},
        }
        i += 1;
    }
    rows
}

/// Puts `row` into `rows` behind every row whose code does not come after
/// its own.
pub fn insert_sorted(rows: &mut Vec<SingleGateProps>, row: SingleGateProps)
    ensures
        final(rows).deep_view() == insert_row(old(rows).deep_view(), row.deep_view()),
{
    let ghost before = rows.deep_view();
    let mut j: usize = rows.len();
    while j > 0 && compare_after(&rows[j - 1], &row)
        invariant
            j <= rows.len(),
            rows.deep_view() == before,
            before == old(rows).deep_view(),
            forall|k: int|
                j <= k < before.len() ==> crate::natural::display_standing(
                    (#[trigger] before[k]).gate.gate_code,
                    row.deep_view().gate.gate_code,
                ) == crate::natural::Standing::After,
        decreases j,
    {
        j -= 1;
    }
    proof {
        lemma_insert_row(before, row.deep_view(), j as int);
    }
    rows.insert(j, row);
    assert(rows.deep_view() =~= before.insert(j as int, row.deep_view()));
}

/// Whether the code of `a` comes after the code of `b` in the order of
/// display.
fn compare_after(a: &SingleGateProps, b: &SingleGateProps) -> (after: bool)
    ensures
        after == (crate::natural::display_standing(
            a.deep_view().gate.gate_code,
            b.deep_view().gate.gate_code,
        ) == crate::natural::Standing::After),
{
    match crate::natural::compare_codes(a.gate.gate_code.as_str(), b.gate.gate_code.as_str()) {
        crate::natural::Standing::After => true,
        _ => false,
    }
}

/// The number of columns that a row of flights leaves empty, seven columns
/// being set aside for flights.
pub fn closing_span(flights: usize) -> (span: usize)
    ensures
        span == if flights >= 7 {
            0
        } else {
            7 - flights
        },
{
    if flights >= 7 {
        0
    } else {
        7 - flights
    }
}

/// The text that is shown for the owner of a gate: the airline's name, or a
/// note that none is recorded.
pub fn owner_text(gate: &Gate) -> (text: String)
    ensures
        text@ == match gate.airline {
            Some(a) => a@,
            None => "No recorded owner"@,
        },
{
    match &gate.airline {
        Some(a) => a.clone(),
        None => String::from_str("No recorded owner"),
    }
}

/// The text that is shown for the size of a gate: the size, or the unknown
/// marker.
pub fn size_text(gate: &Gate) -> (text: String)
    ensures
        text@ == match gate.size {
            Some(s) => s@,
            None => unknown_marker(),
        },
{
    match &gate.size {
        Some(s) => s.clone(),
        None => {
            proof {
                reveal_strlit("?");
                assert("?"@ =~= unknown_marker());
            }
            String::from_str("?")
        },
    }
}

/// Whether the text `a` comes before the text `b`: at the first place where
/// they differ `a` has the lower character, or `a` ends there and `b` goes
/// on.
pub open spec fn text_before(a: Seq<char>, b: Seq<char>) -> bool {
    exists|k: int|
        0 <= k <= a.len() && k <= b.len() && #[trigger] a.subrange(0, k) == b.subrange(0, k) && (if k
            == a.len() {
            k < b.len()
        } else {
            k < b.len() && a[k] < b[k]
        })
}

/// Of two texts that agree up to `k`, one comes before the other or they
/// are the same text.
pub proof fn lemma_text_order(a: Seq<char>, b: Seq<char>, k: int)
    requires
        0 <= k <= a.len(),
        k <= b.len(),
        a.subrange(0, k) == b.subrange(0, k),
    ensures
        a == b || text_before(a, b) || text_before(b, a),
    decreases a.len() - k,
{
    if k == a.len() || k == b.len() {
        if a.len() == b.len() {
            assert(a.subrange(0, k) =~= a);
            assert(b.subrange(0, k) =~= b);
        } else if k == a.len() {
            assert(a.subrange(0, k) == b.subrange(0, k));
        } else {
            assert(b.subrange(0, k) == a.subrange(0, k));
        }
    } else if a[k] == b[k] {
        assert(a.subrange(0, k + 1) =~= a.subrange(0, k).push(a[k]));
        assert(b.subrange(0, k + 1) =~= b.subrange(0, k).push(b[k]));
        lemma_text_order(a, b, k + 1);
    } else if a[k] < b[k] {
        assert(a.subrange(0, k) == b.subrange(0, k));
    } else {
        assert(b.subrange(0, k) == a.subrange(0, k));
    }
}

/// Whether the text `a` comes before the text `b`.
pub fn comes_before(a: &str, b: &str) -> (before: bool)
    ensures
        before == text_before(a@, b@),
{
    let la = a.unicode_len();
    let lb = b.unicode_len();
    let mut i: usize = 0;
    while i < la && i < lb
        invariant
            la == a@.len(),
            lb == b@.len(),
            i <= la,
            i <= lb,
            a@.subrange(0, i as int) == b@.subrange(0, i as int),
        decreases la - i,
    {
        let ca = a.get_char(i);
        let cb = b.get_char(i);
        if ca != cb {
            proof {
                if ca < cb {
                    assert(a@.subrange(0, i as int) == b@.subrange(0, i as int));
                } else {
                    assert forall|k: int|
                        0 <= k <= a@.len() && k <= b@.len() && #[trigger] a@.subrange(0, k)
                            == b@.subrange(0, k) implies !(if k == a@.len() {
                        k < b@.len()
                    } else {
                        k < b@.len() && a@[k] < b@[k]
                    }) by {
                        if k > i {
                            assert(a@.subrange(0, k)[i as int] == b@.subrange(0, k)[i as int]);
                        } else if k < i {
                            assert(a@.subrange(0, i as int)[k] == b@.subrange(0, i as int)[k]);
                        }
                    }
                }
            }
            return ca < cb;
        }
        proof {
            assert(a@[i as int] == b@[i as int]);
            assert(a@.subrange(0, i + 1) =~= a@.subrange(0, i as int).push(a@[i as int]));
            assert(b@.subrange(0, i + 1) =~= b@.subrange(0, i as int).push(b@[i as int]));
        }
        i += 1;
    }
    proof {
        if la < lb {
            assert(a@.subrange(0, i as int) == b@.subrange(0, i as int));
        } else {
            assert forall|k: int|
                0 <= k <= a@.len() && k <= b@.len() && #[trigger] a@.subrange(0, k) == b@.subrange(
                    0,
                    k,
                ) implies !(if k == a@.len() {
                k < b@.len()
            } else {
                k < b@.len() && a@[k] < b@[k]
            }) by {
                if k < lb {
                    assert(a@.subrange(0, lb as int) == b@.subrange(0, lb as int));
                    assert(a@.subrange(0, lb as int)[k] == b@.subrange(0, lb as int)[k]);
                }
            }
        }
    }
    la < lb
}

/// Whether `codes` is in ascending order without repetition: each text comes
/// before the next.
pub open spec fn ascending(codes: Seq<Seq<char>>) -> bool {
    forall|k: int| 0 <= k < codes.len() - 1 ==> text_before(#[trigger] codes[k], codes[k + 1])
}

/// Puts `code` into the ascending list `codes`, unless the list holds it.
pub fn insert_code(codes: &mut Vec<String>, code: &String)
    requires
        ascending(old(codes).deep_view()),
    ensures
        ascending(final(codes).deep_view()),
        forall|x: Seq<char>|
            final(codes).deep_view().contains(x) <==> old(codes).deep_view().contains(x) || x
                == code@,
{
    let ghost before = codes.deep_view();
    let n = codes.len();
    let mut j: usize = 0;
    while j < n && comes_before(codes[j].as_str(), code.as_str())
        invariant
            n == codes.len(),
            j <= n,
            codes.deep_view() == before,
            forall|k: int| 0 <= k < j ==> text_before(#[trigger] before[k], code@),
        decreases n - j,
    {
        j += 1;
    }
    if j < n && codes[j] == *code {
        assert(before[j as int] == code@);
        return ;
    }
    proof {
        if j < n {
            assert(before[j as int].subrange(0, 0) =~= code@.subrange(0, 0));
            lemma_text_order(before[j as int], code@, 0);
        }
        if j > 0 {
            assert(text_before(before[j - 1], code@));
        }
    }
    codes.insert(j, code.clone());
    let ghost after = codes.deep_view();
    assert(after =~= before.insert(j as int, code@));
    assert forall|k: int| 0 <= k < after.len() - 1 implies text_before(
        #[trigger] after[k],
        after[k + 1],
    ) by {
        if k + 1 < j {
            assert(text_before(before[k], before[k + 1]));
        } else if k > j {
            assert(text_before(before[k - 1], before[k]));
        }
    }
    assert forall|x: Seq<char>| after.contains(x) <==> before.contains(x) || x == code@ by {
        if after.contains(x) {
            let k = choose|k: int| 0 <= k < after.len() && after[k] == x;
            if k < j {
                assert(before[k] == x);
            } else if k > j {
                assert(before[k - 1] == x);
            }
        }
        if before.contains(x) {
            let k = choose|k: int| 0 <= k < before.len() && before[k] == x;
            if k < j {
                assert(after[k] == x);
            } else {
                assert(after[k + 1] == x);
            }
        }
        if x == code@ {
            assert(after[j as int] == x);
        }
    }
}

/// The codes of the airports that have a gate in the graph, each once, in
/// ascending order.
pub fn airport_codes(graph: &GateGraph) -> (codes: Vec<String>)
    ensures
        ascending(codes.deep_view()),
        forall|x: Seq<char>|
            codes.deep_view().contains(x) <==> exists|i: int|
                0 <= i < graph_gates(*graph).len() && (#[trigger] graph_gates(*graph)[i]).airport
                    == x,
{
    let ghost gates = graph_gates(*graph);
    let n = gate_count(graph);
    let mut codes: Vec<String> = Vec::new();
    let mut i: usize = 0;
    while i < n
        invariant
            n == gates.len(),
            gates == graph_gates(*graph),
            i <= n,
            ascending(codes.deep_view()),
            forall|x: Seq<char>|
                codes.deep_view().contains(x) <==> exists|k: int|
                    0 <= k < i && (#[trigger] gates[k]).airport == x,
        decreases n - i,
    {
        let ghost before = codes.deep_view();
        match gate_ref(graph, i) {
            Some(gate) => {
                insert_code(&mut codes, &gate.airport);
            },
            None => {},
        }
        proof {
            let after = codes.deep_view();
            assert forall|x: Seq<char>| after.contains(x) <==> exists|k: int|
                0 <= k < i + 1 && (#[trigger] gates[k]).airport == x by {
                if after.contains(x) {
                    if before.contains(x) {
                        let k = choose|k: int| 0 <= k < i && (#[trigger] gates[k]).airport == x;
                        assert(0 <= k < i + 1 && gates[k].airport == x);
                    } else {
                        assert(gates[i as int].airport == x);
                    }
                }
                if exists|k: int| 0 <= k < i + 1 && (#[trigger] gates[k]).airport == x {
                    let k = choose|k: int| 0 <= k < i + 1 && (#[trigger] gates[k]).airport == x;
                    if k < i {
                        assert(before.contains(x));
                    }
                }
            }
        }
        i += 1;
    }
    codes
}

} // verus!
