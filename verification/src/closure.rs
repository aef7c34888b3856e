//! What holds of every graph that reconciliation builds, and why each step
//! of the merger keeps it.

use crate::candidate::GateView;
use crate::model::{
    add_ref, airline_with, airline_with_flight, airline_with_gate, airport_code_of, airport_with,
    airport_with_gate, apply_flight, apply_gate, attach_flight, count_where, decide,
    find_airline, find_airport, first_where, flight_airline, gate_at, gate_of, gate_with_flight,
    gate_fits, gate_need, flight_fits, flight_need, is_airline, is_airport, is_gate, link_gate, merged_gate, new_airline, new_airport,
    new_flight, new_gate, place_gate, refers_to, resolve_airline, resolve_airport,
    resolve_gate_airline, with_node_source, Decision, MAX_NODES,
};
use crate::node::{AirGateView, NodeKind, NodeView, ID};
use crate::sourced::SourcedView;
use crate::text::trims_to_unknown;
use vstd::prelude::*;

verus! {

/// Whether `id` is the identifier of a node of this kind.
pub open spec fn ref_is(nodes: Seq<NodeView>, id: ID, kind: NodeKind) -> bool {
    (id as int) < nodes.len() && nodes[id as int].kind() == kind
}

/// Whether every reference in `list` is to a node of this kind.
pub open spec fn refs_are(nodes: Seq<NodeView>, list: Seq<SourcedView<ID>>, kind: NodeKind) -> bool {
    forall|k: int| 0 <= k < list.len() ==> ref_is(nodes, (#[trigger] list[k]).value(), kind)
}

/// Whether every relationship of `n` resolves to a node of the kind that
/// the relationship is to. Only the kinds that reconciliation builds pass.
pub open spec fn node_closed(nodes: Seq<NodeView>, n: NodeView) -> bool {
    match n {
        NodeView::AirAirport(a) => {
            &&& refs_are(nodes, a.gates, NodeKind::AirGate)
            &&& a.common.shared_facility.len() == 0
            &&& a.common.proximity.dom() == Set::<ID>::empty()
        },
        NodeView::AirAirline(l) => {
            &&& refs_are(nodes, l.gates, NodeKind::AirGate)
            &&& refs_are(nodes, l.flights, NodeKind::AirFlight)
        },
        NodeView::AirFlight(f) => {
            &&& ref_is(nodes, f.airline.value(), NodeKind::AirAirline)
            &&& refs_are(nodes, f.gates, NodeKind::AirGate)
        },
        NodeView::AirGate(g) => {
            &&& ref_is(nodes, g.airport.value(), NodeKind::AirAirport)
            &&& (g.airline matches Some(a) ==> ref_is(nodes, a.value(), NodeKind::AirAirline))
            &&& refs_are(nodes, g.flights, NodeKind::AirFlight)
        },
        _ => false,
    }
}

/// Referential closure: every node sits at its own identifier, and each of
/// its relationships resolves to a node of the expected kind.
pub open spec fn closed(nodes: Seq<NodeView>) -> bool {
    forall|i: int|
        0 <= i < nodes.len() ==> (#[trigger] nodes[i]).id() == i && node_closed(nodes, nodes[i])
}

/// No two airports have the same code.
pub open spec fn distinct_airports(nodes: Seq<NodeView>) -> bool {
    forall|i: int, j: int|
        0 <= i < j < nodes.len() && (#[trigger] nodes[i]) is AirAirport && (
        #[trigger] nodes[j]) is AirAirport ==> nodes[i]->AirAirport_0.code
            != nodes[j]->AirAirport_0.code
}

/// No two airlines have the same name.
pub open spec fn distinct_airlines(nodes: Seq<NodeView>) -> bool {
    forall|i: int, j: int|
        0 <= i < j < nodes.len() && (#[trigger] nodes[i]) is AirAirline && (
        #[trigger] nodes[j]) is AirAirline ==> nodes[i]->AirAirline_0.name
            != nodes[j]->AirAirline_0.name
}

/// Whether two gates have the same known code at the same airport.
pub open spec fn gates_clash(a: AirGateView, b: AirGateView) -> bool {
    &&& a.airport.value() == b.airport.value()
    &&& a.codes is Some
    &&& a.codes == b.codes
    &&& !trims_to_unknown(a.codes->0)
}

/// No two gates with a known code have the same code at the same airport.
pub open spec fn distinct_gates(nodes: Seq<NodeView>) -> bool {
    forall|i: int, j: int|
        0 <= i < j < nodes.len() && (#[trigger] nodes[i]) is AirGate && (
        #[trigger] nodes[j]) is AirGate ==> !gates_clash(
            nodes[i]->AirGate_0,
            nodes[j]->AirGate_0,
        )
}

/// What holds of every graph that reconciliation builds.
pub open spec fn well_formed(nodes: Seq<NodeView>) -> bool {
    &&& nodes.len() <= MAX_NODES
    &&& closed(nodes)
    &&& distinct_airports(nodes)
    &&& distinct_airlines(nodes)
    &&& distinct_gates(nodes)
}

/// Whether `b` stands for the same entity as `a`: the same kind and
/// identifier, and the same identity fields.
pub open spec fn same_entity(a: NodeView, b: NodeView) -> bool {
    &&& a.kind() == b.kind()
    &&& a.id() == b.id()
    &&& (a is AirAirport ==> a->AirAirport_0.code == b->AirAirport_0.code)
    &&& (a is AirAirline ==> a->AirAirline_0.name == b->AirAirline_0.name)
    &&& (a is AirGate ==> a->AirGate_0.codes == b->AirGate_0.codes && a->AirGate_0.airport.value()
        == b->AirGate_0.airport.value())
}

/// Whether `after` holds every entity of `before`, each at its place, and
/// perhaps more.
pub open spec fn grows(before: Seq<NodeView>, after: Seq<NodeView>) -> bool {
    &&& before.len() <= after.len()
    &&& forall|i: int| 0 <= i < before.len() ==> same_entity(#[trigger] before[i], after[i])
}

/// What `first_where` returns: the lowest position that satisfies `p`, or
/// nothing where no position does.
pub proof fn lemma_first_where<A>(s: Seq<A>, p: spec_fn(A) -> bool)
    ensures
        match first_where(s, p) {
            Some(i) => 0 <= i < s.len() && p(s[i]) && forall|j: int| 0 <= j < i ==> !p(s[j]),
            None => forall|j: int| 0 <= j < s.len() ==> !p(s[j]),
        },
    decreases s.len(),
{
    if s.len() > 0 {
        lemma_first_where(s.drop_last(), p);
        let t = s.drop_last();
        assert forall|j: int| 0 <= j < t.len() implies t[j] == s[j] by {}
        match first_where(t, p) {
            Some(i) => {
                assert(t[i] == s[i]);
                assert forall|j: int| 0 <= j < i implies !p(s[j]) by {
                    assert(t[j] == s[j]);
                }
            },
            None => {
                assert forall|j: int| 0 <= j < s.len() - 1 implies !p(s[j]) by {
                    assert(t[j] == s[j]);
                }
            },
        }
    }
}

/// A position that satisfies `p`, with none before it that does, is what
/// `first_where` returns.
pub proof fn lemma_first_where_is<A>(s: Seq<A>, p: spec_fn(A) -> bool, i: int)
    requires
        0 <= i < s.len(),
        p(s[i]),
        forall|j: int| 0 <= j < i ==> !p(s[j]),
    ensures
        first_where(s, p) == Some(i),
{
    lemma_first_where(s, p);
}

/// Where no position satisfies `p`, `first_where` returns nothing and
/// `count_where` counts none.
pub proof fn lemma_none_where<A>(s: Seq<A>, p: spec_fn(A) -> bool)
    requires
        forall|j: int| 0 <= j < s.len() ==> !p(s[j]),
    ensures
        first_where(s, p) is None,
        count_where(s, p) == 0,
    decreases s.len(),
{
    lemma_first_where(s, p);
    if s.len() > 0 {
        let t = s.drop_last();
        assert forall|j: int| 0 <= j < t.len() implies !p(t[j]) by {
            assert(t[j] == s[j]);
        }
        lemma_none_where(t, p);
    }
}

/// A growing graph keeps every reference that resolved.
pub proof fn lemma_grows_keeps_closed(before: Seq<NodeView>, after: Seq<NodeView>, n: NodeView)
    requires
        grows(before, after),
        node_closed(before, n),
    ensures
        node_closed(after, n),
{
    assert forall|id: ID, kind: NodeKind| ref_is(before, id, kind) implies ref_is(
        after,
        id,
        kind,
    ) by {
        assert(same_entity(before[id as int], after[id as int]));
    }
}

/// Growth is reflexive and transitive.
pub proof fn lemma_grows_trans(a: Seq<NodeView>, b: Seq<NodeView>, c: Seq<NodeView>)
    requires
        grows(a, b),
        grows(b, c),
    ensures
        grows(a, c),
        grows(a, a),
{
    assert forall|i: int| 0 <= i < a.len() implies same_entity(#[trigger] a[i], c[i]) by {
        assert(same_entity(a[i], b[i]));
        assert(same_entity(b[i], c[i]));
    }
}

/// Replacing a node by one that stands for the same entity, and whose
/// relationships resolve, keeps a graph well formed.
pub proof fn lemma_update_keeps(nodes: Seq<NodeView>, i: int, n: NodeView)
    requires
        well_formed(nodes),
        0 <= i < nodes.len(),
        same_entity(nodes[i], n),
        node_closed(nodes, n),
    ensures
        well_formed(nodes.update(i, n)),
        grows(nodes, nodes.update(i, n)),
{
    let after = nodes.update(i, n);
    assert(grows(nodes, after));
    assert forall|j: int| 0 <= j < after.len() implies (#[trigger] after[j]).id() == j
        && node_closed(after, after[j]) by {
        assert(nodes[j].id() == j);
        if j == i {
            lemma_grows_keeps_closed(nodes, after, n);
        } else {
            lemma_grows_keeps_closed(nodes, after, nodes[j]);
        }
    }
    assert forall|a: int, b: int|
        0 <= a < b < after.len() && (#[trigger] after[a]) is AirAirport && (
        #[trigger] after[b]) is AirAirport implies after[a]->AirAirport_0.code
        != after[b]->AirAirport_0.code by {
        assert(same_entity(nodes[a], after[a]));
        assert(same_entity(nodes[b], after[b]));
    }
    assert forall|a: int, b: int|
        0 <= a < b < after.len() && (#[trigger] after[a]) is AirAirline && (
        #[trigger] after[b]) is AirAirline implies after[a]->AirAirline_0.name
        != after[b]->AirAirline_0.name by {
        assert(same_entity(nodes[a], after[a]));
        assert(same_entity(nodes[b], after[b]));
    }
    assert forall|a: int, b: int|
        0 <= a < b < after.len() && (#[trigger] after[a]) is AirGate && (
        #[trigger] after[b]) is AirGate implies !gates_clash(
        after[a]->AirGate_0,
        after[b]->AirGate_0,
    ) by {
        assert(same_entity(nodes[a], after[a]));
        assert(same_entity(nodes[b], after[b]));
        assert(!gates_clash(nodes[a]->AirGate_0, nodes[b]->AirGate_0));
    }
}

/// Whether `n` can join `nodes` without repeating the identity of a node
/// that is there.
pub open spec fn is_fresh(nodes: Seq<NodeView>, n: NodeView) -> bool {
    &&& n is AirAirport ==> forall|j: int|
        0 <= j < nodes.len() ==> !is_airport(#[trigger] nodes[j], n->AirAirport_0.code)
    &&& n is AirAirline ==> forall|j: int|
        0 <= j < nodes.len() ==> !is_airline(#[trigger] nodes[j], n->AirAirline_0.name)
    &&& n is AirGate ==> forall|j: int|
        0 <= j < nodes.len() && (#[trigger] nodes[j]) is AirGate ==> !gates_clash(
            nodes[j]->AirGate_0,
            n->AirGate_0,
        )
}

/// Appending a node that takes the next identifier, repeats no identity and
/// has relationships that resolve keeps a graph well formed.
pub proof fn lemma_push_keeps(nodes: Seq<NodeView>, n: NodeView)
    requires
        well_formed(nodes),
        nodes.len() < MAX_NODES,
        n.id() == nodes.len(),
        node_closed(nodes.push(n), n),
        is_fresh(nodes, n),
    ensures
        well_formed(nodes.push(n)),
        grows(nodes, nodes.push(n)),
{
    let after = nodes.push(n);
    assert(grows(nodes, after));
    assert forall|j: int| 0 <= j < after.len() implies (#[trigger] after[j]).id() == j
        && node_closed(after, after[j]) by {
        if j < nodes.len() {
            assert(nodes[j].id() == j);
            lemma_grows_keeps_closed(nodes, after, nodes[j]);
        }
    }
    assert forall|a: int, b: int|
        0 <= a < b < after.len() && (#[trigger] after[a]) is AirAirport && (
        #[trigger] after[b]) is AirAirport implies after[a]->AirAirport_0.code
        != after[b]->AirAirport_0.code by {
        if b == nodes.len() {
            assert(!is_airport(nodes[a], n->AirAirport_0.code));
        } else {
            assert(nodes[a] == after[a] && nodes[b] == after[b]);
        }
    }
    assert forall|a: int, b: int|
        0 <= a < b < after.len() && (#[trigger] after[a]) is AirAirline && (
        #[trigger] after[b]) is AirAirline implies after[a]->AirAirline_0.name
        != after[b]->AirAirline_0.name by {
        if b == nodes.len() {
            assert(!is_airline(nodes[a], n->AirAirline_0.name));
        } else {
            assert(nodes[a] == after[a] && nodes[b] == after[b]);
        }
    }
    assert forall|a: int, b: int|
        0 <= a < b < after.len() && (#[trigger] after[a]) is AirGate && (
        #[trigger] after[b]) is AirGate implies !gates_clash(
        after[a]->AirGate_0,
        after[b]->AirGate_0,
    ) by {
        if b == nodes.len() {
            assert(nodes[a] is AirGate);
            assert(!gates_clash(nodes[a]->AirGate_0, n->AirGate_0));
        } else {
            assert(nodes[a] == after[a] && nodes[b] == after[b]);
            assert(!gates_clash(nodes[a]->AirGate_0, nodes[b]->AirGate_0));
        }
    }
}

/// The references of a list after `add_ref` are those it had, and `id`.
pub proof fn lemma_add_ref(
    nodes: Seq<NodeView>,
    list: Seq<SourcedView<ID>>,
    id: ID,
    tag: Seq<char>,
    kind: NodeKind,
)
    requires
        refs_are(nodes, list, kind),
        ref_is(nodes, id, kind),
    ensures
        refs_are(nodes, add_ref(list, id, tag), kind),
        exists|k: int|
            0 <= k < add_ref(list, id, tag).len() && (#[trigger] add_ref(list, id, tag)[k]).value()
                == id,
{
    let p = refers_to(id);
    lemma_first_where(list, p);
    let after = add_ref(list, id, tag);
    match first_where(list, p) {
        Some(k) => {
            assert(after[k].value() == id);
            assert forall|j: int| 0 <= j < after.len() implies ref_is(
                nodes,
                (#[trigger] after[j]).value(),
                kind,
            ) by {
                if j != k {
                    assert(after[j] == list[j]);
                }
            }
        },
        None => {
            assert(after[list.len() as int].value() == id);
            assert forall|j: int| 0 <= j < after.len() implies ref_is(
                nodes,
                (#[trigger] after[j]).value(),
                kind,
            ) by {
                if j < list.len() {
                    assert(after[j] == list[j]);
                }
            }
        },
    }
}

/// Adding a source to a node changes neither what it stands for nor what it
/// refers to.
pub proof fn lemma_with_node_source(nodes: Seq<NodeView>, n: NodeView, tag: Seq<char>)
    requires
        node_closed(nodes, n),
    ensures
        node_closed(nodes, with_node_source(n, tag)),
        same_entity(n, with_node_source(n, tag)),
{
}

/// Resolving an airport keeps a graph well formed. The graph gains at most
/// the airport; no other node changes.
pub proof fn lemma_resolve_airport(nodes: Seq<NodeView>, code: Seq<char>, tag: Seq<char>)
    requires
        well_formed(nodes),
        find_airport(nodes, code) is None ==> nodes.len() < MAX_NODES,
    ensures
        ({
            let (after, id) = resolve_airport(nodes, code, tag);
            &&& well_formed(after)
            &&& grows(nodes, after)
            &&& after.len() == nodes.len() + if find_airport(nodes, code) is None {
                1nat
            } else {
                0nat
            }
            &&& ref_is(after, id, NodeKind::AirAirport)
            &&& airport_code_of(after, id) == code
            &&& forall|j: int| 0 <= j < nodes.len() && j != id ==> after[j] == nodes[j]
            &&& after.len() > nodes.len() ==> id == nodes.len()
            &&& (id as int) < nodes.len() ==> is_airport(nodes[id as int], code)
        }),
{
    let p = airport_with(code);
    lemma_first_where(nodes, p);
    match find_airport(nodes, code) {
        Some(i) => {
            lemma_with_node_source(nodes, nodes[i], tag);
            lemma_update_keeps(nodes, i, with_node_source(nodes[i], tag));
        },
        None => {
            let n = new_airport(nodes.len() as ID, code, tag);
            assert(n.id() == nodes.len());
            assert(node_closed(nodes.push(n), n));
            assert forall|j: int| 0 <= j < nodes.len() implies !is_airport(
                #[trigger] nodes[j],
                code,
            ) by {
                assert(!p(nodes[j]));
            }
            lemma_push_keeps(nodes, n);
        },
    }
}

/// Resolving an airline keeps a graph well formed. The graph gains at most
/// the airline; no other node changes.
pub proof fn lemma_resolve_airline(nodes: Seq<NodeView>, name: Seq<char>, tag: Seq<char>)
    requires
        well_formed(nodes),
        find_airline(nodes, name) is None ==> nodes.len() < MAX_NODES,
    ensures
        ({
            let (after, id) = resolve_airline(nodes, name, tag);
            &&& well_formed(after)
            &&& grows(nodes, after)
            &&& after.len() == nodes.len() + if find_airline(nodes, name) is None {
                1nat
            } else {
                0nat
            }
            &&& ref_is(after, id, NodeKind::AirAirline)
            &&& after[id as int]->AirAirline_0.name == name
            &&& forall|j: int| 0 <= j < nodes.len() && j != id ==> after[j] == nodes[j]
            &&& after.len() > nodes.len() ==> id == nodes.len()
        }),
{
    let p = airline_with(name);
    lemma_first_where(nodes, p);
    match find_airline(nodes, name) {
        Some(i) => {
            lemma_with_node_source(nodes, nodes[i], tag);
            lemma_update_keeps(nodes, i, with_node_source(nodes[i], tag));
        },
        None => {
            let n = new_airline(nodes.len() as ID, name, tag);
            assert(n.id() == nodes.len());
            assert(node_closed(nodes.push(n), n));
            assert forall|j: int| 0 <= j < nodes.len() implies !is_airline(
                #[trigger] nodes[j],
                name,
            ) by {
                assert(!p(nodes[j]));
            }
            lemma_push_keeps(nodes, n);
        },
    }
}

/// What the matcher's decision says of the graph it was made on.
pub proof fn lemma_decide(nodes: Seq<NodeView>, c: GateView)
    requires
        nodes.len() <= MAX_NODES,
    ensures
        match decide(nodes, c) {
            Decision::Existing(g) => (g as int) < nodes.len() && nodes[g as int] is AirGate
                && airport_code_of(
                nodes,
                nodes[g as int]->AirGate_0.airport.value(),
            ) == c.airport,
            _ => !trims_to_unknown(c.gate_code) ==> forall|j: int|
                0 <= j < nodes.len() ==> !is_gate(nodes, #[trigger] nodes[j], c.airport, c.gate_code),
        },
{
    let exact = gate_at(nodes, c.airport, c.gate_code);
    let fits = gate_of(nodes, c.airport, c.airline);
    lemma_first_where(nodes, exact);
    lemma_first_where(nodes, fits);
    if !trims_to_unknown(c.gate_code) {
        if first_where(nodes, exact) is None {
            assert forall|j: int| 0 <= j < nodes.len() implies !is_gate(
                nodes,
                #[trigger] nodes[j],
                c.airport,
                c.gate_code,
            ) by {
                assert(!exact(nodes[j]));
            }
        } else {
            let i = first_where(nodes, exact).unwrap();
            assert(exact(nodes[i]));
            assert(i < nodes.len());
        }
    } else if c.gate_code == crate::text::unknown_marker() {
        if count_where(nodes, fits) == 1 {
            if first_where(nodes, fits) is None {
                assert forall|j: int| 0 <= j < nodes.len() implies !fits(nodes[j]) by {}
                lemma_none_where(nodes, fits);
            }
            let i = first_where(nodes, fits).unwrap();
            assert(fits(nodes[i]));
        }
    }
}

/// Listing a gate with its airport and its airline keeps a graph well
/// formed.
pub proof fn lemma_link_gate(
    nodes: Seq<NodeView>,
    gate: ID,
    airport: ID,
    airline: Option<ID>,
    tag: Seq<char>,
)
    requires
        well_formed(nodes),
        ref_is(nodes, gate, NodeKind::AirGate),
        ref_is(nodes, airport, NodeKind::AirAirport),
        airline matches Some(l) ==> ref_is(nodes, l, NodeKind::AirAirline),
    ensures
        well_formed(link_gate(nodes, gate, airport, airline, tag)),
        grows(nodes, link_gate(nodes, gate, airport, airline, tag)),
        link_gate(nodes, gate, airport, airline, tag).len() == nodes.len(),
{
    let a = nodes[airport as int];
    assert(node_closed(nodes, a));
    lemma_add_ref(nodes, a->AirAirport_0.gates, gate, tag, NodeKind::AirGate);
    let listed = nodes.update(airport as int, airport_with_gate(a, gate, tag));
    lemma_update_keeps(nodes, airport as int, airport_with_gate(a, gate, tag));
    match airline {
        Some(l) => {
            let al = listed[l as int];
            assert(same_entity(nodes[l as int], al));
            assert(node_closed(listed, al));
            assert(same_entity(nodes[gate as int], listed[gate as int]));
            lemma_add_ref(listed, al->AirAirline_0.gates, gate, tag, NodeKind::AirGate);
            lemma_update_keeps(listed, l as int, airline_with_gate(al, gate, tag));
            lemma_grows_trans(nodes, listed, link_gate(nodes, gate, airport, airline, tag));
        },
        None => {},
    }
}

/// An airline is in the graph once an airport is resolved exactly where it
/// was in the graph before.
pub proof fn lemma_airline_after_airport(
    nodes: Seq<NodeView>,
    code: Seq<char>,
    tag: Seq<char>,
    name: Seq<char>,
)
    requires
        well_formed(nodes),
        find_airport(nodes, code) is None ==> nodes.len() < MAX_NODES,
    ensures
        find_airline(resolve_airport(nodes, code, tag).0, name) is None <==> find_airline(
            nodes,
            name,
        ) is None,
{
    let (after, id) = resolve_airport(nodes, code, tag);
    lemma_resolve_airport(nodes, code, tag);
    let p = airline_with(name);
    lemma_first_where(nodes, p);
    lemma_first_where(after, p);
    if find_airline(nodes, name) is Some {
        let i = find_airline(nodes, name)->0;
        assert(p(nodes[i]));
        assert(same_entity(nodes[i], after[i]));
        assert(after[i] == nodes[i]);
        assert(p(after[i]));
    }
    if find_airline(after, name) is Some {
        let i = find_airline(after, name)->0;
        assert(p(after[i]));
        assert(i < nodes.len());
        assert(same_entity(nodes[i], after[i]));
        assert(after[i] == nodes[i]);
        assert(p(nodes[i]));
    }
}

/// What each step of folding in a sighting of a gate can rely on, where the
/// graph has identifiers left for all that the sighting adds: each node that
/// is to be added has one.
pub proof fn lemma_gate_steps(nodes: Seq<NodeView>, c: GateView)
    requires
        well_formed(nodes),
        gate_fits(nodes, c),
    ensures
        ({
            let (n1, aid) = resolve_airport(nodes, c.airport, c.source);
            let (n2, lid) = resolve_gate_airline(n1, c);
            &&& find_airport(nodes, c.airport) is None ==> nodes.len() < MAX_NODES
            &&& well_formed(n1)
            &&& c.airline is Some && find_airline(n1, c.airline->0) is None ==> n1.len()
                < MAX_NODES
            &&& well_formed(n2)
            &&& !(decide(nodes, c) is Existing) ==> n2.len() < MAX_NODES
            &&& n2.len() + (if decide(nodes, c) is Existing {
                0nat
            } else {
                1nat
            }) == nodes.len() + gate_need(nodes, c)
        }),
{
    lemma_resolve_airport(nodes, c.airport, c.source);
    let (n1, aid) = resolve_airport(nodes, c.airport, c.source);
    match c.airline {
        Some(name) => {
            lemma_airline_after_airport(nodes, c.airport, c.source, name);
            lemma_resolve_airline(n1, name, c.source);
        },
        None => {},
    }
}

/// Folding one sighting of a gate into a graph keeps it well formed. The
/// graph gains the nodes that the sighting needs, at most three, and loses
/// none; the sighting goes to a gate.
pub proof fn lemma_apply_gate(nodes: Seq<NodeView>, c: GateView)
    requires
        well_formed(nodes),
        gate_fits(nodes, c),
    ensures
        well_formed(apply_gate(nodes, c).0),
        grows(nodes, apply_gate(nodes, c).0),
        apply_gate(nodes, c).0.len() == nodes.len() + gate_need(nodes, c),
        gate_need(nodes, c) <= 3,
        ref_is(apply_gate(nodes, c).0, apply_gate(nodes, c).1, NodeKind::AirGate),
{
    let d = decide(nodes, c);
    lemma_decide(nodes, c);
    lemma_gate_steps(nodes, c);
    let (n1, aid) = resolve_airport(nodes, c.airport, c.source);
    lemma_resolve_airport(nodes, c.airport, c.source);
    let (n2, lid) = resolve_gate_airline(n1, c);
    match c.airline {
        Some(name) => {
            lemma_resolve_airline(n1, name, c.source);
        },
        None => {},
    }
    lemma_grows_trans(n1, n2, n2);
    lemma_grows_trans(nodes, n1, n2);
    assert(same_entity(n1[aid as int], n2[aid as int]));
    let (placed, gate) = place_gate(n2, d, c, aid, lid);
    match d {
        Decision::Existing(g) => {
            assert(same_entity(nodes[g as int], n1[g as int]));
            assert(same_entity(n1[g as int], n2[g as int]));
            assert(n1[g as int] == nodes[g as int]);
            assert(n2[g as int] == nodes[g as int]);
            let old_gate = n2[g as int]->AirGate_0;
            let merged = NodeView::AirGate(merged_gate(old_gate, c, lid));
            assert(node_closed(n2, n2[g as int]));
            assert(node_closed(n2, merged));
            lemma_update_keeps(n2, g as int, merged);
        },
        _ => {
            let fresh = new_gate(n2.len() as ID, c, aid, lid);
            assert(fresh.id() == n2.len());
            assert(node_closed(n2.push(fresh), fresh));
            assert forall|j: int| 0 <= j < n2.len() && (#[trigger] n2[j]) is AirGate implies !gates_clash(
                n2[j]->AirGate_0,
                fresh->AirGate_0,
            ) by {
                if gates_clash(n2[j]->AirGate_0, fresh->AirGate_0) {
                    // A gate is none of the nodes that were added or changed.
                    if j >= nodes.len() {
                        if j >= n1.len() {
                            assert(j == lid->0);
                        } else {
                            assert(j == aid);
                            assert(same_entity(n1[j], n2[j]));
                        }
                    }
                    assert(same_entity(nodes[j], n1[j]));
                    assert(same_entity(n1[j], n2[j]));
                    assert(n1[j] == nodes[j]);
                    assert(n2[j] == nodes[j]);
                    assert(node_closed(nodes, nodes[j]));
                    assert(is_gate(nodes, nodes[j], c.airport, c.gate_code));
                }
            }
            lemma_push_keeps(n2, fresh);
        },
    }
    lemma_grows_trans(nodes, n2, placed);
    assert(same_entity(n2[aid as int], placed[aid as int]));
    if lid is Some {
        assert(same_entity(n2[lid->0 as int], placed[lid->0 as int]));
    }
    lemma_link_gate(placed, gate, aid, lid, c.source);
    let linked = link_gate(placed, gate, aid, lid, c.source);
    lemma_grows_trans(nodes, placed, linked);
    assert(same_entity(placed[gate as int], linked[gate as int]));
}

/// Adding a flight between two gates keeps a graph well formed. The graph
/// gains the flight and, if it is new, the airline.
pub proof fn lemma_attach_flight(
    nodes: Seq<NodeView>,
    g1: ID,
    g2: ID,
    name: Seq<char>,
    flight_no: Seq<char>,
    tag: Seq<char>,
)
    requires
        well_formed(nodes),
        nodes.len() < MAX_NODES,
        resolve_airline(nodes, name, tag).0.len() < MAX_NODES,
        ref_is(nodes, g1, NodeKind::AirGate),
        ref_is(nodes, g2, NodeKind::AirGate),
    ensures
        well_formed(attach_flight(nodes, g1, g2, name, flight_no, tag)),
        grows(nodes, attach_flight(nodes, g1, g2, name, flight_no, tag)),
        attach_flight(nodes, g1, g2, name, flight_no, tag).len() == resolve_airline(
            nodes,
            name,
            tag,
        ).0.len() + 1,
        ref_is(
            attach_flight(nodes, g1, g2, name, flight_no, tag),
            (attach_flight(nodes, g1, g2, name, flight_no, tag).len() - 1) as ID,
            NodeKind::AirFlight,
        ),
{
    let (n3, airline) = resolve_airline(nodes, name, tag);
    lemma_resolve_airline(nodes, name, tag);
    assert(same_entity(nodes[g1 as int], n3[g1 as int]));
    assert(same_entity(nodes[g2 as int], n3[g2 as int]));
    let flight = n3.len() as ID;
    let fresh = new_flight(flight, flight_no, airline, g1, g2, tag);
    let added = n3.push(fresh);
    assert(fresh.id() == n3.len());
    assert(node_closed(added, fresh)) by {
        let gs = fresh->AirFlight_0.gates;
        assert forall|k: int| 0 <= k < gs.len() implies ref_is(
            added,
            (#[trigger] gs[k]).value(),
            NodeKind::AirGate,
        ) by {
            assert(gs[k].value() == g1 || gs[k].value() == g2);
        }
    }
    lemma_push_keeps(n3, fresh);
    lemma_grows_trans(nodes, n3, added);
    // The flight joins the lists of both gates and of its airline.
    let x1 = gate_with_flight(added[g1 as int], flight, tag);
    assert(node_closed(added, added[g1 as int]));
    lemma_add_ref(added, added[g1 as int]->AirGate_0.flights, flight, tag, NodeKind::AirFlight);
    lemma_update_keeps(added, g1 as int, x1);
    let at_from = added.update(g1 as int, x1);
    lemma_grows_trans(nodes, added, at_from);
    let x2 = gate_with_flight(at_from[g2 as int], flight, tag);
    assert(same_entity(added[g2 as int], at_from[g2 as int]));
    assert(node_closed(at_from, at_from[g2 as int]));
    assert(same_entity(added[flight as int], at_from[flight as int]));
    lemma_add_ref(at_from, at_from[g2 as int]->AirGate_0.flights, flight, tag, NodeKind::AirFlight);
    lemma_update_keeps(at_from, g2 as int, x2);
    let at_to = at_from.update(g2 as int, x2);
    lemma_grows_trans(nodes, at_from, at_to);
    let x3 = airline_with_flight(at_to[airline as int], flight, tag);
    assert(same_entity(added[airline as int], at_from[airline as int]));
    assert(same_entity(at_from[airline as int], at_to[airline as int]));
    assert(node_closed(at_to, at_to[airline as int]));
    assert(same_entity(at_from[flight as int], at_to[flight as int]));
    lemma_add_ref(at_to, at_to[airline as int]->AirAirline_0.flights, flight, tag, NodeKind::AirFlight);
    lemma_update_keeps(at_to, airline as int, x3);
    let last = at_to.update(airline as int, x3);
    lemma_grows_trans(nodes, at_to, last);
    assert(same_entity(at_to[flight as int], last[flight as int]));
}

/// Folding one sighting of a flight into a graph keeps it well formed, as
/// far as the folding goes. The graph loses no node, and gains one or more
/// where the sighting fits and names an airline.
pub proof fn lemma_apply_flight(nodes: Seq<NodeView>, from: GateView, to: GateView, flight_no: Seq<char>)
    requires
        well_formed(nodes),
    ensures
        well_formed(apply_flight(nodes, from, to, flight_no)),
        grows(nodes, apply_flight(nodes, from, to, flight_no)),
        flight_fits(nodes, from, to) && flight_airline(from, to) is Some ==> apply_flight(
            nodes,
            from,
            to,
            flight_no,
        ).len() > nodes.len(),
{
    lemma_grows_trans(nodes, nodes, nodes);
    if gate_fits(nodes, from) {
        let (n1, g1) = apply_gate(nodes, from);
        lemma_apply_gate(nodes, from);
        if gate_fits(n1, to) {
            let (n2, g2) = apply_gate(n1, to);
            lemma_apply_gate(n1, to);
            lemma_grows_trans(nodes, n1, n2);
            assert(same_entity(n1[g1 as int], n2[g1 as int]));
            match flight_airline(from, to) {
                Some(name) => {
                    if n2.len() < MAX_NODES {
                        // The airline is in the graph by now: one of the two
                        // sightings named it.
                        lemma_airline_present(nodes, from, to);
                        lemma_first_where(n2, airline_with(name));
                        lemma_attach_flight(n2, g1, g2, name, flight_no, from.source);
                        lemma_grows_trans(
                            nodes,
                            n2,
                            attach_flight(n2, g1, g2, name, flight_no, from.source),
                        );
                    }
                },
                None => {},
            }
        }
    }
}

/// After both gates of a flight are folded in, the airline that the flight
/// belongs to is in the graph.
pub proof fn lemma_airline_present(nodes: Seq<NodeView>, from: GateView, to: GateView)
    requires
        well_formed(nodes),
        gate_fits(nodes, from),
        gate_fits(apply_gate(nodes, from).0, to),
        flight_airline(from, to) is Some,
    ensures
        find_airline(apply_gate(apply_gate(nodes, from).0, to).0, flight_airline(from, to)->0)
            is Some,
{
    let name = flight_airline(from, to)->0;
    let (n1, g1) = apply_gate(nodes, from);
    lemma_apply_gate(nodes, from);
    let (n2, g2) = apply_gate(n1, to);
    lemma_apply_gate(n1, to);
    if from.airline is Some {
        lemma_gate_airline_present(nodes, from);
        let i = choose|i: int| 0 <= i < n1.len() && is_airline(#[trigger] n1[i], name);
        assert(same_entity(n1[i], n2[i]));
        assert(airline_with(name)(n2[i]));
    } else {
        lemma_gate_airline_present(n1, to);
        let i = choose|i: int| 0 <= i < n2.len() && is_airline(#[trigger] n2[i], name);
        assert(airline_with(name)(n2[i]));
    }
    lemma_first_where(n2, airline_with(name));
}

/// After a sighting that names an airline is folded in, that airline is in
/// the graph.
pub proof fn lemma_gate_airline_present(nodes: Seq<NodeView>, c: GateView)
    requires
        well_formed(nodes),
        gate_fits(nodes, c),
        c.airline is Some,
    ensures
        exists|i: int|
            0 <= i < apply_gate(nodes, c).0.len() && is_airline(
                #[trigger] apply_gate(nodes, c).0[i],
                c.airline->0,
            ),
{
    let name = c.airline->0;
    let d = decide(nodes, c);
    lemma_decide(nodes, c);
    lemma_gate_steps(nodes, c);
    let (n1, aid) = resolve_airport(nodes, c.airport, c.source);
    lemma_resolve_airport(nodes, c.airport, c.source);
    let (n2, lid) = resolve_gate_airline(n1, c);
    lemma_resolve_airline(n1, name, c.source);
    lemma_apply_gate(nodes, c);
    let l = lid->0 as int;
    assert(is_airline(n2[l], name));
    let (placed, gate) = place_gate(n2, d, c, aid, lid);
    assert(is_airline(placed[l], name)) by {
        match d {
            Decision::Existing(g) => {
                assert(same_entity(nodes[g as int], n1[g as int]));
                assert(same_entity(n1[g as int], n2[g as int]));
            },
            _ => {},
        }
    }
    let linked = link_gate(placed, gate, aid, lid, c.source);
    assert(placed[aid as int] is AirAirport) by {
        assert(same_entity(n1[aid as int], n2[aid as int]));
        match d {
            Decision::Existing(g) => {
                assert(same_entity(nodes[g as int], n1[g as int]));
                assert(same_entity(n1[g as int], n2[g as int]));
            },
            _ => {},
        }
    }
    assert(is_airline(linked[l], name));
    assert(linked == apply_gate(nodes, c).0);
}

/// What each step of folding in a sighting of a flight can rely on once
/// both gates are folded in: both are gates of the graph, and the flight's
/// airline, if the sighting names one, is in the graph.
pub proof fn lemma_flight_steps(nodes: Seq<NodeView>, from: GateView, to: GateView)
    requires
        well_formed(nodes),
        gate_fits(nodes, from),
        gate_fits(apply_gate(nodes, from).0, to),
    ensures
        ({
            let (n1, g1) = apply_gate(nodes, from);
            let (n2, g2) = apply_gate(n1, to);
            &&& well_formed(n1)
            &&& well_formed(n2)
            &&& ref_is(n2, g1, NodeKind::AirGate)
            &&& ref_is(n2, g2, NodeKind::AirGate)
            &&& flight_airline(from, to) matches Some(name) ==> find_airline(n2, name) is Some
                && resolve_airline(n2, name, from.source).0.len() == n2.len()
        }),
{
    let (n1, g1) = apply_gate(nodes, from);
    lemma_apply_gate(nodes, from);
    let (n2, g2) = apply_gate(n1, to);
    lemma_apply_gate(n1, to);
    assert(same_entity(n1[g1 as int], n2[g1 as int]));
    if flight_airline(from, to) is Some {
        let name = flight_airline(from, to)->0;
        lemma_airline_present(nodes, from, to);
        lemma_first_where(n2, airline_with(name));
    }
}

/// Whether `list` holds a reference to `id`.
pub open spec fn lists(list: Seq<SourcedView<ID>>, id: ID) -> bool {
    exists|k: int| 0 <= k < list.len() && (#[trigger] list[k]).value() == id
}

/// Whether the node at `i` is listed by every node that it refers to, and
/// is what every node that lists it says it is: a gate is among the gates of
/// its airport and of its airline and among the gates of each of its
/// flights; a flight is among the flights of its airline and of each of its
/// gates; each gate that an airport lists is at that airport; each flight
/// that an airline lists is of that airline.
pub open spec fn node_linked(nodes: Seq<NodeView>, i: int) -> bool {
    match nodes[i] {
        NodeView::AirGate(g) => {
            &&& lists(nodes[g.airport.value() as int]->AirAirport_0.gates, i as ID)
            &&& (g.airline matches Some(l) ==> lists(
                nodes[l.value() as int]->AirAirline_0.gates,
                i as ID,
            ))
            &&& forall|k: int|
                0 <= k < g.flights.len() ==> lists(
                    nodes[(#[trigger] g.flights[k]).value() as int]->AirFlight_0.gates,
                    i as ID,
                )
        },
        NodeView::AirFlight(f) => {
            &&& lists(nodes[f.airline.value() as int]->AirAirline_0.flights, i as ID)
            &&& forall|k: int|
                0 <= k < f.gates.len() ==> lists(
                    nodes[(#[trigger] f.gates[k]).value() as int]->AirGate_0.flights,
                    i as ID,
                )
        },
        NodeView::AirAirport(a) => forall|k: int|
            0 <= k < a.gates.len() ==> nodes[(#[trigger] a.gates[k]).value() as int]->AirGate_0.airport.value()
                == i,
        NodeView::AirAirline(l) => forall|k: int|
            0 <= k < l.flights.len() ==> nodes[(#[trigger] l.flights[k]).value() as int]->AirFlight_0.airline.value()
                == i,
        _ => true,
    }
}

/// Whether every relationship is kept from both sides.
pub open spec fn linked(nodes: Seq<NodeView>) -> bool {
    forall|i: int| 0 <= i < nodes.len() ==> node_linked(nodes, i)
}

/// What `add_ref` does to a list: what was listed stays listed, `id` is
/// listed, and nothing else is; no entry moves.
pub proof fn lemma_add_ref_lists(list: Seq<SourcedView<ID>>, id: ID, tag: Seq<char>)
    ensures
        lists(add_ref(list, id, tag), id),
        add_ref(list, id, tag).len() >= list.len(),
        forall|k: int|
            0 <= k < list.len() ==> (#[trigger] add_ref(list, id, tag)[k]).value() == list[k].value(),
        forall|k: int|
            list.len() <= k < add_ref(list, id, tag).len() ==> (#[trigger] add_ref(
                list,
                id,
                tag,
            )[k]).value() == id,
        forall|x: ID| lists(list, x) ==> lists(add_ref(list, id, tag), x),
{
    let p = refers_to(id);
    lemma_first_where(list, p);
    let after = add_ref(list, id, tag);
    match first_where(list, p) {
        Some(k) => {
            assert(after[k].value() == id);
        },
        None => {
            assert(after[list.len() as int].value() == id);
        },
    }
    assert forall|x: ID| lists(list, x) implies lists(after, x) by {
        let k = choose|k: int| 0 <= k < list.len() && (#[trigger] list[k]).value() == x;
        assert(after[k].value() == x);
    }
}

/// Whether `j` is one of the three nodes that a sighting of a gate touches.
pub open spec fn touched(j: int, airport: ID, airline: Option<ID>, gate: ID) -> bool {
    j == airport || airline == Some(j as ID) || j == gate
}

/// The airport that one sighting of a gate touches.
pub open spec fn gate_airport(nodes: Seq<NodeView>, c: GateView) -> ID {
    resolve_airport(nodes, c.airport, c.source).1
}

/// The airline that one sighting of a gate touches, if it names one.
pub open spec fn gate_airline(nodes: Seq<NodeView>, c: GateView) -> Option<ID> {
    resolve_gate_airline(resolve_airport(nodes, c.airport, c.source).0, c).1
}

/// What folding one sighting of a gate into a graph changes: the airport and
/// the airline of the sighting gain this gate in their lists, this gate is at
/// that airport and of that airline, and every other node is as it was.
#[verifier::rlimit(60)]
pub proof fn lemma_apply_gate_shape(nodes: Seq<NodeView>, c: GateView)
    requires
        well_formed(nodes),
        linked(nodes),
        gate_fits(nodes, c),
    ensures
        ({
            let (after, gate) = apply_gate(nodes, c);
            let airport = gate_airport(nodes, c);
            let airline = gate_airline(nodes, c);
            let old_gates = if (airport as int) < nodes.len() {
                nodes[airport as int]->AirAirport_0.gates
            } else {
                Seq::empty()
            };
            &&& nodes.len() <= after.len()
            &&& after.len() <= MAX_NODES
            &&& forall|j: int|
                0 <= j < nodes.len() && !touched(j, airport, airline, gate) ==> #[trigger] after[j]
                    == nodes[j]
            &&& forall|j: int|
                nodes.len() <= j < after.len() ==> #[trigger] touched(j, airport, airline, gate)
            &&& after[airport as int] is AirAirport
            &&& after[airport as int]->AirAirport_0.code == c.airport
            &&& after[airport as int]->AirAirport_0.gates == add_ref(old_gates, gate, c.source)
            &&& (!trims_to_unknown(c.gate_code) ==> after[gate as int]->AirGate_0.codes == Some(
                c.gate_code,
            ))
            &&& after[gate as int] is AirGate
            &&& after[gate as int]->AirGate_0.airport.value() == airport
            &&& ((gate as int) < nodes.len() ==> nodes[gate as int] is AirGate
                && nodes[gate as int]->AirGate_0.airport.value() == airport
                && after[gate as int]->AirGate_0.flights == nodes[gate as int]->AirGate_0.flights)
            &&& ((gate as int) >= nodes.len() ==> after[gate as int]->AirGate_0.flights.len() == 0)
            &&& match airline {
                Some(l) => {
                    let old_airline_gates = if (l as int) < nodes.len() {
                        nodes[l as int]->AirAirline_0.gates
                    } else {
                        Seq::empty()
                    };
                    let old_airline_flights = if (l as int) < nodes.len() {
                        nodes[l as int]->AirAirline_0.flights
                    } else {
                        Seq::empty()
                    };
                    &&& after[l as int] is AirAirline
                    &&& after[l as int]->AirAirline_0.gates == add_ref(
                        old_airline_gates,
                        gate,
                        c.source,
                    )
                    &&& after[l as int]->AirAirline_0.flights == old_airline_flights
                    &&& after[gate as int]->AirGate_0.airline is Some
                    &&& after[gate as int]->AirGate_0.airline->0.value() == l
                },
                None => (gate as int) < nodes.len() ==> after[gate as int]->AirGate_0.airline
                    == nodes[gate as int]->AirGate_0.airline,
            }
            &&& (airline is None && (gate as int) >= nodes.len() ==> after[gate as int]->AirGate_0.airline
                is None)
        }),
{
    let d = decide(nodes, c);
    lemma_decide(nodes, c);
    let (n1, aid) = resolve_airport(nodes, c.airport, c.source);
    lemma_gate_steps(nodes, c);
    lemma_resolve_airport(nodes, c.airport, c.source);
    lemma_first_where(nodes, airport_with(c.airport));
    let (n2, lid) = resolve_gate_airline(n1, c);
    match c.airline {
        Some(name) => {
            lemma_resolve_airline(n1, name, c.source);
            lemma_first_where(n1, airline_with(name));
        },
        None => {},
    }
    lemma_grows_trans(nodes, n1, n2);
    assert(same_entity(n1[aid as int], n2[aid as int]));
    let (placed, gate) = place_gate(n2, d, c, aid, lid);
    match d {
        Decision::Existing(g) => {
            assert(same_entity(nodes[g as int], n1[g as int]));
            assert(same_entity(n1[g as int], n2[g as int]));
            assert(n1[g as int] == nodes[g as int]);
            assert(n2[g as int] == nodes[g as int]);
            if !trims_to_unknown(c.gate_code) {
                lemma_first_where(nodes, gate_at(nodes, c.airport, c.gate_code));
            }
            // This gate is at the airport of the code that was looked up.
            let a0 = nodes[g as int]->AirGate_0.airport.value();
            assert(node_closed(nodes, nodes[g as int]));
            assert(nodes[a0 as int]->AirAirport_0.code == c.airport);
            if (aid as int) >= nodes.len() {
                assert(!airport_with(c.airport)(nodes[a0 as int]));
            } else if a0 != aid {
                if (a0 as int) < (aid as int) {
                    assert(nodes[a0 as int]->AirAirport_0.code != nodes[aid as int]->AirAirport_0.code);
                } else {
                    assert(nodes[aid as int]->AirAirport_0.code != nodes[a0 as int]->AirAirport_0.code);
                }
            }
            assert(a0 == aid);
        },
        _ => {},
    }
    lemma_apply_gate(nodes, c);
    let after = link_gate(placed, gate, aid, lid, c.source);
    assert(after == apply_gate(nodes, c).0);
    assert(placed[aid as int] is AirAirport);
    assert(placed[aid as int]->AirAirport_0.code == c.airport);
    if !trims_to_unknown(c.gate_code) {
        // A known code is recorded as it is.
        assert(c.gate_code != crate::text::unknown_marker()) by {
            if c.gate_code == crate::text::unknown_marker() {
                assert(c.gate_code[0] == '?');
            }
        }
        assert(placed[gate as int]->AirGate_0.codes == Some(c.gate_code));
    }
    if lid is Some {
        assert(placed[lid->0 as int] is AirAirline);
    }
    assert forall|j: int|
        0 <= j < nodes.len() && !touched(j, aid, lid, gate) implies #[trigger] after[j]
        == nodes[j] by {
        assert(n1[j] == nodes[j]);
        assert(n2[j] == n1[j]);
        assert(placed[j] == n2[j]);
    }
}

/// Folding one sighting of a gate into a graph keeps every relationship
/// kept from both sides.
#[verifier::rlimit(60)]
pub proof fn lemma_apply_gate_linked(nodes: Seq<NodeView>, c: GateView)
    requires
        well_formed(nodes),
        linked(nodes),
        gate_fits(nodes, c),
    ensures
        linked(apply_gate(nodes, c).0),
{
    let (after, gate) = apply_gate(nodes, c);
    let airport = gate_airport(nodes, c);
    let airline = gate_airline(nodes, c);
    lemma_apply_gate_shape(nodes, c);
    lemma_apply_gate(nodes, c);
    let old_gates = if (airport as int) < nodes.len() {
        nodes[airport as int]->AirAirport_0.gates
    } else {
        Seq::empty()
    };
    lemma_add_ref_lists(old_gates, gate, c.source);
    if airline is Some {
        let l = airline->0;
        let old_airline_gates = if (l as int) < nodes.len() {
            nodes[l as int]->AirAirline_0.gates
        } else {
            Seq::empty()
        };
        lemma_add_ref_lists(old_airline_gates, gate, c.source);
    }
    // A node keeps its kind, so a node of another kind than the three that
    // are touched is as it was.
    assert forall|j: int| 0 <= j < nodes.len() implies (#[trigger] after[j]).kind()
        == nodes[j].kind() by {
        assert(same_entity(nodes[j], after[j]));
    }
    assert forall|i: int| 0 <= i < after.len() implies node_linked(after, i) by {
        if i < nodes.len() {
            assert(node_linked(nodes, i));
            assert(node_closed(nodes, nodes[i]));
            assert(same_entity(nodes[i], after[i]));
        } else {
            assert(touched(i, airport, airline, gate));
        }
        assert(node_closed(after, after[i]));
        match after[i] {
            NodeView::AirGate(g) => {
                lemma_gate_linked(nodes, c, i);
            },
            NodeView::AirFlight(f) => {
                assert(!touched(i, airport, airline, gate));
                assert(after[i] == nodes[i]);
                let l = f.airline.value() as int;
                assert(nodes[l] is AirAirline);
                if !touched(l, airport, airline, gate) {
                    assert(after[l] == nodes[l]);
                }
                assert(lists(after[l]->AirAirline_0.flights, i as ID));
                assert forall|k: int| 0 <= k < f.gates.len() implies lists(
                    after[(#[trigger] f.gates[k]).value() as int]->AirGate_0.flights,
                    i as ID,
                ) by {
                    let t = f.gates[k].value() as int;
                    assert(ref_is(nodes, f.gates[k].value(), NodeKind::AirGate));
                    if !touched(t, airport, airline, gate) {
                        assert(after[t] == nodes[t]);
                    }
                }
            },
            NodeView::AirAirport(a) => {
                assert forall|k: int| 0 <= k < a.gates.len() implies after[(
                #[trigger] a.gates[k]).value() as int]->AirGate_0.airport.value() == i by {
                    let t = a.gates[k].value() as int;
                    assert(ref_is(after, a.gates[k].value(), NodeKind::AirGate));
                    if i == airport {
                        if k < old_gates.len() {
                            assert(a.gates[k].value() == old_gates[k].value());
                            assert(ref_is(nodes, old_gates[k].value(), NodeKind::AirGate));
                        }
                    } else {
                        assert(after[i] == nodes[i]);
                        assert(ref_is(nodes, a.gates[k].value(), NodeKind::AirGate));
                    }
                    if t < nodes.len() {
                        assert(same_entity(nodes[t], after[t]));
                    }
                }
            },
            NodeView::AirAirline(l) => {
                assert forall|k: int| 0 <= k < l.flights.len() implies after[(
                #[trigger] l.flights[k]).value() as int]->AirFlight_0.airline.value() == i by {
                    let t = l.flights[k].value() as int;
                    assert(ref_is(after, l.flights[k].value(), NodeKind::AirFlight));
                    assert(i < nodes.len());
                    assert(nodes[i]->AirAirline_0.flights == l.flights);
                    assert(ref_is(nodes, l.flights[k].value(), NodeKind::AirFlight));
                    assert(!touched(t, airport, airline, gate));
                    assert(after[t] == nodes[t]);
                }
            },
            _ => {},
        }
    }
}

/// After one sighting of a gate is folded in, each gate of the graph is
/// listed by its airport, by its airline and by each of its flights.
#[verifier::rlimit(60)]
proof fn lemma_gate_linked(nodes: Seq<NodeView>, c: GateView, i: int)
    requires
        well_formed(nodes),
        linked(nodes),
        gate_fits(nodes, c),
        0 <= i < apply_gate(nodes, c).0.len(),
        apply_gate(nodes, c).0[i] is AirGate,
    ensures
        node_linked(apply_gate(nodes, c).0, i),
{
    let (after, gate) = apply_gate(nodes, c);
    let airport = gate_airport(nodes, c);
    let airline = gate_airline(nodes, c);
    lemma_apply_gate_shape(nodes, c);
    lemma_apply_gate(nodes, c);
    let old_gates = if (airport as int) < nodes.len() {
        nodes[airport as int]->AirAirport_0.gates
    } else {
        Seq::empty()
    };
    lemma_add_ref_lists(old_gates, gate, c.source);
    if airline is Some {
        let l = airline->0;
        let old_airline_gates = if (l as int) < nodes.len() {
            nodes[l as int]->AirAirline_0.gates
        } else {
            Seq::empty()
        };
        lemma_add_ref_lists(old_airline_gates, gate, c.source);
    }
    assert forall|j: int| 0 <= j < nodes.len() implies (#[trigger] after[j]).kind()
        == nodes[j].kind() by {
        assert(same_entity(nodes[j], after[j]));
    }
    let g = after[i]->AirGate_0;
    assert(node_closed(after, after[i]));
    if i < nodes.len() {
        assert(node_linked(nodes, i));
        assert(node_closed(nodes, nodes[i]));
        assert(same_entity(nodes[i], after[i]));
    } else {
        assert(touched(i, airport, airline, gate));
        assert(i == gate);
    }
    // Its airport lists this gate.
    let a = g.airport.value() as int;
    if i != gate {
        assert(after[i] == nodes[i]);
        if !touched(a, airport, airline, gate) {
            assert(after[a] == nodes[a]);
        }
    }
    assert(lists(after[a]->AirAirport_0.gates, i as ID));
    // Its airline lists this gate.
    if g.airline is Some {
        let l = g.airline->0.value() as int;
        if i != gate {
            assert(nodes[l] is AirAirline);
            if !touched(l, airport, airline, gate) {
                assert(after[l] == nodes[l]);
            }
        } else if airline is None {
            assert(i < nodes.len());
            assert(nodes[l] is AirAirline);
            assert(!touched(l, airport, airline, gate));
            assert(after[l] == nodes[l]);
        }
        assert(lists(after[l]->AirAirline_0.gates, i as ID));
    }
    // Each of its flights lists this gate.
    assert forall|k: int| 0 <= k < g.flights.len() implies lists(
        after[(#[trigger] g.flights[k]).value() as int]->AirFlight_0.gates,
        i as ID,
    ) by {
        let t = g.flights[k].value() as int;
        assert(i < nodes.len());
        assert(nodes[i]->AirGate_0.flights == g.flights);
        assert(ref_is(nodes, g.flights[k].value(), NodeKind::AirFlight));
        assert(!touched(t, airport, airline, gate));
        assert(after[t] == nodes[t]);
    }
}

/// Adding a flight between two gates keeps every relationship kept from
/// both sides.
#[verifier::rlimit(60)]
pub proof fn lemma_attach_flight_linked(
    nodes: Seq<NodeView>,
    g1: ID,
    g2: ID,
    name: Seq<char>,
    flight_no: Seq<char>,
    tag: Seq<char>,
)
    requires
        well_formed(nodes),
        linked(nodes),
        nodes.len() < MAX_NODES,
        resolve_airline(nodes, name, tag).0.len() < MAX_NODES,
        ref_is(nodes, g1, NodeKind::AirGate),
        ref_is(nodes, g2, NodeKind::AirGate),
    ensures
        linked(attach_flight(nodes, g1, g2, name, flight_no, tag)),
{
    let (n3, airline) = resolve_airline(nodes, name, tag);
    lemma_resolve_airline(nodes, name, tag);
    lemma_first_where(nodes, airline_with(name));
    let flight = n3.len() as ID;
    let fresh = new_flight(flight, flight_no, airline, g1, g2, tag);
    let added = n3.push(fresh);
    let x1 = gate_with_flight(added[g1 as int], flight, tag);
    let at_from = added.update(g1 as int, x1);
    let x2 = gate_with_flight(at_from[g2 as int], flight, tag);
    let at_to = at_from.update(g2 as int, x2);
    let x3 = airline_with_flight(at_to[airline as int], flight, tag);
    let after = at_to.update(airline as int, x3);
    assert(after == attach_flight(nodes, g1, g2, name, flight_no, tag));
    lemma_attach_flight(nodes, g1, g2, name, flight_no, tag);
    assert(same_entity(nodes[g1 as int], n3[g1 as int]));
    assert(same_entity(nodes[g2 as int], n3[g2 as int]));
    assert(n3[g1 as int] == nodes[g1 as int]);
    assert(n3[g2 as int] == nodes[g2 as int]);
    let f1 = nodes[g1 as int]->AirGate_0.flights;
    let f2 = nodes[g2 as int]->AirGate_0.flights;
    lemma_add_ref_lists(f1, flight, tag);
    lemma_add_ref_lists(f2, flight, tag);
    lemma_add_ref_lists(add_ref(f1, flight, tag), flight, tag);
    let old_flights = n3[airline as int]->AirAirline_0.flights;
    lemma_add_ref_lists(old_flights, flight, tag);
    // What each node is at the end.
    assert(after[flight as int] == fresh);
    assert(after[airline as int]->AirAirline_0.flights == add_ref(old_flights, flight, tag));
    assert(after[airline as int]->AirAirline_0.gates == n3[airline as int]->AirAirline_0.gates);
    assert(lists(after[g1 as int]->AirGate_0.flights, flight));
    assert(lists(after[g2 as int]->AirGate_0.flights, flight));
    assert forall|j: int| 0 <= j < nodes.len() implies (#[trigger] after[j]).kind()
        == nodes[j].kind() by {
        assert(same_entity(nodes[j], after[j]));
    }
    assert forall|j: int| 0 <= j < nodes.len() && j != g1 && j != g2 && j != airline implies
        #[trigger] after[j] == nodes[j] by {
        assert(n3[j] == nodes[j]);
    }
    // A gate keeps every flight that it listed.
    assert forall|j: int, x: ID|
        0 <= j < nodes.len() && nodes[j] is AirGate && #[trigger] lists(
            nodes[j]->AirGate_0.flights,
            x,
        ) implies lists(after[j]->AirGate_0.flights, x) by {
        assert(n3[j] == nodes[j]);
        if j == g1 && j == g2 {
        } else if j == g1 {
        } else if j == g2 {
        }
    }
    assert forall|i: int| 0 <= i < after.len() implies node_linked(after, i) by {
        assert(node_closed(after, after[i]));
        if i < nodes.len() {
            assert(node_linked(nodes, i));
            assert(node_closed(nodes, nodes[i]));
            assert(same_entity(nodes[i], after[i]));
        }
        match after[i] {
            NodeView::AirGate(g) => {
                assert(i < nodes.len());
                let old = nodes[i]->AirGate_0;
                assert(g.airport == old.airport);
                assert(g.airline == old.airline);
                let a = g.airport.value() as int;
                assert(nodes[a] is AirAirport);
                assert(after[a] == nodes[a]);
                if g.airline is Some {
                    let l = g.airline->0.value() as int;
                    assert(nodes[l] is AirAirline);
                    assert(after[l]->AirAirline_0.gates == nodes[l]->AirAirline_0.gates) by {
                        if l == airline {
                            assert(n3[l]->AirAirline_0.gates == nodes[l]->AirAirline_0.gates);
                        }
                    }
                }
                assert forall|k: int| 0 <= k < g.flights.len() implies lists(
                    after[(#[trigger] g.flights[k]).value() as int]->AirFlight_0.gates,
                    i as ID,
                ) by {
                    let t = g.flights[k].value();
                    if t == flight {
                        assert(i == g1 || i == g2);
                        assert(fresh->AirFlight_0.gates[0].value() == g1);
                        assert(fresh->AirFlight_0.gates[1].value() == g2);
                    } else {
                        // An entry that is not the new flight was there before.
                        assert(lists(old.flights, t)) by {
                            if i == g1 && i == g2 {
                                let once = add_ref(f1, flight, tag);
                                if k < once.len() {
                                    assert(once[k].value() == g.flights[k].value());
                                    if k < f1.len() {
                                        assert(f1[k].value() == t);
                                    }
                                }
                            } else if i == g1 {
                                if k < f1.len() {
                                    assert(f1[k].value() == t);
                                }
                            } else if i == g2 {
                                if k < f2.len() {
                                    assert(f2[k].value() == t);
                                }
                            } else {
                                assert(old.flights[k].value() == t);
                            }
                        }
                        let k0 = choose|k0: int|
                            0 <= k0 < old.flights.len() && (#[trigger] old.flights[k0]).value() == t;
                        assert(ref_is(nodes, old.flights[k0].value(), NodeKind::AirFlight));
                        assert(after[t as int] == nodes[t as int]);
                    }
                }
            },
            NodeView::AirFlight(f) => {
                if i == flight {
                    assert(f.gates.len() == 2);
                    assert forall|k: int| 0 <= k < f.gates.len() implies lists(
                        after[(#[trigger] f.gates[k]).value() as int]->AirGate_0.flights,
                        i as ID,
                    ) by {
                        assert(f.gates[k].value() == g1 || f.gates[k].value() == g2);
                    }
                } else {
                    assert(after[i] == nodes[i]);
                    let l = f.airline.value() as int;
                    assert(nodes[l] is AirAirline);
                    if l == airline {
                        assert(n3[l]->AirAirline_0.flights == nodes[l]->AirAirline_0.flights);
                    }
                    assert(lists(after[l]->AirAirline_0.flights, i as ID));
                    assert forall|k: int| 0 <= k < f.gates.len() implies lists(
                        after[(#[trigger] f.gates[k]).value() as int]->AirGate_0.flights,
                        i as ID,
                    ) by {
                        let t = f.gates[k].value() as int;
                        assert(ref_is(nodes, f.gates[k].value(), NodeKind::AirGate));
                        assert(lists(nodes[t]->AirGate_0.flights, i as ID));
                    }
                }
            },
            NodeView::AirAirport(a) => {
                assert(after[i] == nodes[i]);
                assert forall|k: int| 0 <= k < a.gates.len() implies after[(
                #[trigger] a.gates[k]).value() as int]->AirGate_0.airport.value() == i by {
                    let t = a.gates[k].value() as int;
                    assert(ref_is(nodes, a.gates[k].value(), NodeKind::AirGate));
                    assert(same_entity(nodes[t], after[t]));
                }
            },
            NodeView::AirAirline(l) => {
                assert forall|k: int| 0 <= k < l.flights.len() implies after[(
                #[trigger] l.flights[k]).value() as int]->AirFlight_0.airline.value() == i by {
                    let t = l.flights[k].value();
                    if i == airline {
                        if k < old_flights.len() {
                            assert(old_flights[k].value() == t);
                            if i < nodes.len() {
                                assert(nodes[i]->AirAirline_0.flights == old_flights);
                                assert(ref_is(nodes, old_flights[k].value(), NodeKind::AirFlight));
                                assert(after[t as int] == nodes[t as int]);
                            }
                        } else {
                            assert(t == flight);
                        }
                    } else {
                        assert(after[i] == nodes[i]);
                        assert(ref_is(nodes, l.flights[k].value(), NodeKind::AirFlight));
                        assert(after[t as int] == nodes[t as int]);
                    }
                }
            },
            _ => {},
        }
    }
}

/// Folding one sighting of a flight into a graph keeps every relationship
/// kept from both sides.
pub proof fn lemma_apply_flight_linked(
    nodes: Seq<NodeView>,
    from: GateView,
    to: GateView,
    flight_no: Seq<char>,
)
    requires
        well_formed(nodes),
        linked(nodes),
    ensures
        linked(apply_flight(nodes, from, to, flight_no)),
{
    if gate_fits(nodes, from) {
        let (n1, g1) = apply_gate(nodes, from);
        lemma_apply_gate(nodes, from);
        lemma_apply_gate_linked(nodes, from);
        if gate_fits(n1, to) {
            lemma_flight_steps(nodes, from, to);
            let (n2, g2) = apply_gate(n1, to);
            lemma_apply_gate_linked(n1, to);
            match flight_airline(from, to) {
                Some(name) => {
                    if n2.len() < MAX_NODES {
                        lemma_attach_flight_linked(n2, g1, g2, name, flight_no, from.source);
                    }
                },
                None => {},
            }
        }
    }
}

/// Where a sighting went, once the sighting is folded in: to a gate
/// that the graph held, merged with the sighting, or a new gate as the
/// sighting describes it.
#[verifier::rlimit(60)]
pub proof fn lemma_apply_gate_node(nodes: Seq<NodeView>, c: GateView)
    requires
        well_formed(nodes),
        gate_fits(nodes, c),
    ensures
        ({
            let (after, gate) = apply_gate(nodes, c);
            let airport = gate_airport(nodes, c);
            let airline = gate_airline(nodes, c);
            &&& match decide(nodes, c) {
                Decision::Existing(g) => gate == g && (g as int) < nodes.len() && nodes[g as int]
                    is AirGate && after[g as int] == NodeView::AirGate(
                    merged_gate(nodes[g as int]->AirGate_0, c, airline),
                ),
                _ => gate as int >= nodes.len() && after[gate as int] == new_gate(
                    gate,
                    c,
                    airport,
                    airline,
                ),
            }
            &&& airline matches Some(l) ==> c.airline is Some && after[l as int] is AirAirline
                && after[l as int]->AirAirline_0.name == c.airline->0
            &&& airline is None ==> c.airline is None
        }),
{
    let d = decide(nodes, c);
    lemma_decide(nodes, c);
    lemma_gate_steps(nodes, c);
    let (n1, aid) = resolve_airport(nodes, c.airport, c.source);
    lemma_resolve_airport(nodes, c.airport, c.source);
    let (n2, lid) = resolve_gate_airline(n1, c);
    match c.airline {
        Some(name) => {
            lemma_resolve_airline(n1, name, c.source);
        },
        None => {},
    }
    lemma_grows_trans(nodes, n1, n2);
    assert(same_entity(n1[aid as int], n2[aid as int]));
    let (placed, gate) = place_gate(n2, d, c, aid, lid);
    match d {
        Decision::Existing(g) => {
            assert(same_entity(nodes[g as int], n1[g as int]));
            assert(same_entity(n1[g as int], n2[g as int]));
            assert(n1[g as int] == nodes[g as int]);
            assert(n2[g as int] == nodes[g as int]);
        },
        _ => {},
    }
    lemma_apply_gate(nodes, c);
    assert(placed[aid as int] is AirAirport);
    if lid is Some {
        assert(placed[lid->0 as int] is AirAirline);
    }
    assert(placed[gate as int] is AirGate);
    let after = link_gate(placed, gate, aid, lid, c.source);
    assert(after[gate as int] == placed[gate as int]);
    if lid is Some {
        let l = lid->0 as int;
        assert(n2[l]->AirAirline_0.name == c.airline->0);
        assert(placed[l] == n2[l]);
    }
}

/// A sighting of a flight fits exactly where the graph has as many
/// identifiers left as the sighting adds nodes.
pub proof fn lemma_flight_fits(nodes: Seq<NodeView>, from: GateView, to: GateView)
    requires
        well_formed(nodes),
    ensures
        flight_fits(nodes, from, to) <==> nodes.len() + flight_need(nodes, from, to) <= MAX_NODES,
        flight_need(nodes, from, to) <= 7,
{
    let n1 = apply_gate(nodes, from).0;
    if gate_fits(nodes, from) {
        lemma_apply_gate(nodes, from);
        if gate_fits(n1, to) {
            lemma_apply_gate(n1, to);
        }
    }
}

} // verus!
