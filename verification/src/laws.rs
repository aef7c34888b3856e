//! What holds of every graph that is built by replaying sightings.

use crate::assembler::{replay_flights, replay_gates};
use crate::candidate::GateView;
use crate::closure::{
    gate_airline, gate_airport, gates_clash, grows, lemma_apply_flight, lemma_apply_flight_linked,
    lemma_apply_gate, lemma_apply_gate_linked, lemma_apply_gate_node, lemma_apply_gate_shape,
    lemma_first_where, lemma_first_where_is,
    lemma_grows_trans, linked, node_closed, node_linked, well_formed,
};
use crate::assembler::gates_fit;
use crate::model::{
    airline_name_of, airport_code_of, apply_flight, apply_gate, decide, first_where, flight_fits,
    gate_at, gate_fits, merged_gate, overwrite, Decision,
};
use crate::sourced::{add_source, union_sources};
use crate::node::NodeView;
use crate::sourced::{lemma_union_sources, SourcedView};
use crate::text::trims_to_unknown;
use vstd::prelude::*;

verus! {

/// The graph that a build gives: the sightings of gates replayed onto the
/// empty graph, then the sightings of flights.
pub open spec fn built(
    gates: Seq<GateView>,
    flights: Seq<(GateView, GateView, Seq<char>)>,
) -> Seq<NodeView> {
    replay_flights(replay_gates(Seq::empty(), gates), flights)
}

/// Replaying sightings of gates keeps a graph well formed and its
/// relationships kept from both sides, and loses no node.
pub proof fn lemma_replay_gates(nodes: Seq<NodeView>, gates: Seq<GateView>)
    requires
        well_formed(nodes),
        linked(nodes),
    ensures
        well_formed(replay_gates(nodes, gates)),
        linked(replay_gates(nodes, gates)),
        grows(nodes, replay_gates(nodes, gates)),
    decreases gates.len(),
{
    lemma_grows_trans(nodes, nodes, nodes);
    if gates.len() > 0 && gate_fits(nodes, gates[0]) {
        lemma_apply_gate(nodes, gates[0]);
        lemma_apply_gate_linked(nodes, gates[0]);
        let next = apply_gate(nodes, gates[0]).0;
        lemma_replay_gates(next, gates.drop_first());
        lemma_grows_trans(nodes, next, replay_gates(next, gates.drop_first()));
    }
}

/// Replaying sightings of flights keeps a graph well formed and its
/// relationships kept from both sides, and loses no node.
pub proof fn lemma_replay_flights(
    nodes: Seq<NodeView>,
    flights: Seq<(GateView, GateView, Seq<char>)>,
)
    requires
        well_formed(nodes),
        linked(nodes),
    ensures
        well_formed(replay_flights(nodes, flights)),
        linked(replay_flights(nodes, flights)),
        grows(nodes, replay_flights(nodes, flights)),
    decreases flights.len(),
{
    lemma_grows_trans(nodes, nodes, nodes);
    if flights.len() > 0 {
        lemma_apply_flight(nodes, flights[0].0, flights[0].1, flights[0].2);
        lemma_apply_flight_linked(nodes, flights[0].0, flights[0].1, flights[0].2);
        let next = apply_flight(nodes, flights[0].0, flights[0].1, flights[0].2);
        if flight_fits(nodes, flights[0].0, flights[0].1) {
            lemma_replay_flights(next, flights.drop_first());
            lemma_grows_trans(nodes, next, replay_flights(next, flights.drop_first()));
        }
    }
}

/// Every graph that a build gives is well formed, and each of its
/// relationships is kept from both sides.
pub proof fn law_built_well_formed(
    gates: Seq<GateView>,
    flights: Seq<(GateView, GateView, Seq<char>)>,
)
    ensures
        well_formed(built(gates, flights)),
        linked(built(gates, flights)),
{
    lemma_replay_gates(Seq::empty(), gates);
    lemma_replay_flights(replay_gates(Seq::empty(), gates), flights);
}

/// Replay is repeatable. Two builds from sightings of the same content in
/// the same order give the same nodes with the same relationships, each
/// under the same identifier.
pub proof fn law_same_sightings_same_graph(
    gates: Seq<GateView>,
    flights: Seq<(GateView, GateView, Seq<char>)>,
    again_gates: Seq<GateView>,
    again_flights: Seq<(GateView, GateView, Seq<char>)>,
)
    requires
        gates.len() == again_gates.len(),
        flights.len() == again_flights.len(),
        forall|i: int| 0 <= i < gates.len() ==> gates[i] == again_gates[i],
        forall|i: int| 0 <= i < flights.len() ==> flights[i] == again_flights[i],
    ensures
        built(gates, flights) == built(again_gates, again_flights),
{
    assert(gates =~= again_gates);
    assert(flights =~= again_flights);
}

/// No identity occurs twice in a built graph: no two airports have one
/// code, no two airlines have one name, and no two gates have one known
/// code at one airport.
pub proof fn law_no_duplicate_identity(
    gates: Seq<GateView>,
    flights: Seq<(GateView, GateView, Seq<char>)>,
    i: int,
    j: int,
)
    requires
        0 <= i < built(gates, flights).len(),
        0 <= j < built(gates, flights).len(),
        i != j,
    ensures
        ({
            let nodes = built(gates, flights);
            &&& nodes[i] is AirAirport && nodes[j] is AirAirport ==> nodes[i]->AirAirport_0.code
                != nodes[j]->AirAirport_0.code
            &&& nodes[i] is AirAirline && nodes[j] is AirAirline ==> nodes[i]->AirAirline_0.name
                != nodes[j]->AirAirline_0.name
            &&& nodes[i] is AirGate && nodes[j] is AirGate ==> !same_known_gate(nodes, i, j)
        }),
{
    law_built_well_formed(gates, flights);
    lemma_distinct(built(gates, flights), i, j);
}

/// Whether the gates at `i` and `j` have the same known code at airports of
/// the same code.
pub open spec fn same_known_gate(nodes: Seq<NodeView>, i: int, j: int) -> bool {
    let a = nodes[i]->AirGate_0;
    let b = nodes[j]->AirGate_0;
    &&& a.codes is Some
    &&& !trims_to_unknown(a.codes->0)
    &&& a.codes == b.codes
    &&& airport_code_of(nodes, a.airport.value()) == airport_code_of(nodes, b.airport.value())
}

/// In a well-formed graph no identity occurs twice.
pub proof fn lemma_distinct(nodes: Seq<NodeView>, i: int, j: int)
    requires
        well_formed(nodes),
        0 <= i < nodes.len(),
        0 <= j < nodes.len(),
        i != j,
    ensures
        nodes[i] is AirAirport && nodes[j] is AirAirport ==> nodes[i]->AirAirport_0.code
            != nodes[j]->AirAirport_0.code,
        nodes[i] is AirAirline && nodes[j] is AirAirline ==> nodes[i]->AirAirline_0.name
            != nodes[j]->AirAirline_0.name,
        nodes[i] is AirGate && nodes[j] is AirGate ==> !same_known_gate(nodes, i, j),
{
    if nodes[i] is AirGate && nodes[j] is AirGate && same_known_gate(nodes, i, j) {
        let a = nodes[i]->AirGate_0;
        let b = nodes[j]->AirGate_0;
        assert(node_closed(nodes, nodes[i]));
        assert(node_closed(nodes, nodes[j]));
        let p = a.airport.value() as int;
        let q = b.airport.value() as int;
        // Airports of one code are one airport.
        if p != q {
            if p < q {
                assert(nodes[p]->AirAirport_0.code != nodes[q]->AirAirport_0.code);
            } else {
                assert(nodes[q]->AirAirport_0.code != nodes[p]->AirAirport_0.code);
            }
        }
        if i < j {
            assert(!gates_clash(a, b));
        } else {
            assert(!gates_clash(b, a));
        }
    }
    if i < j {
        assert(nodes[i] is AirAirport && nodes[j] is AirAirport ==> nodes[i]->AirAirport_0.code
            != nodes[j]->AirAirport_0.code);
    } else {
        assert(nodes[j] is AirAirport && nodes[i] is AirAirport ==> nodes[j]->AirAirport_0.code
            != nodes[i]->AirAirport_0.code);
    }
}

/// Every relationship in a built graph resolves: the node at each place
/// records that place as its identifier, and each identifier that it refers
/// to is that of a node of the kind that the relationship is to.
pub proof fn law_references_resolve(
    gates: Seq<GateView>,
    flights: Seq<(GateView, GateView, Seq<char>)>,
    i: int,
)
    requires
        0 <= i < built(gates, flights).len(),
    ensures
        built(gates, flights)[i].id() == i,
        node_closed(built(gates, flights), built(gates, flights)[i]),
{
    law_built_well_formed(gates, flights);
}

/// A gate that was sighted is recognised. Once a sighting with a known code
/// is folded into a graph, the matcher decides for any sighting of the same
/// airport and the same code that it is of that very gate: a second sighting
/// makes no second gate.
pub proof fn law_known_gate_is_recognised(nodes: Seq<NodeView>, first: GateView, second: GateView)
    requires
        well_formed(nodes),
        linked(nodes),
        gate_fits(nodes, first),
        first.same_gate(second),
    ensures
        decide(apply_gate(nodes, first).0, second) == Decision::Existing(
            apply_gate(nodes, first).1,
        ),
{
    let (after, gate) = apply_gate(nodes, first);
    let airport = gate_airport(nodes, first);
    lemma_apply_gate(nodes, first);
    lemma_apply_gate_shape(nodes, first);
    let exact = gate_at(after, second.airport, second.gate_code);
    assert(exact(after[gate as int]));
    assert forall|j: int| 0 <= j < gate implies !exact(after[j]) by {
        if exact(after[j]) {
            let other = after[j]->AirGate_0;
            let at = other.airport.value() as int;
            assert(node_closed(after, after[j]));
            // Airports of one code are one airport.
            if at != airport {
                if at < airport {
                    assert(after[at]->AirAirport_0.code != after[airport as int]->AirAirport_0.code);
                } else {
                    assert(after[airport as int]->AirAirport_0.code != after[at]->AirAirport_0.code);
                }
            }
            assert(gates_clash(other, after[gate as int]->AirGate_0));
        }
    }
    lemma_first_where_is(after, exact, gate as int);
}

/// Every relationship of a built graph is kept from both sides: a gate is
/// among the gates of its airport and of its airline and among the gates of
/// each of its flights; a flight is among the flights of its airline and of
/// each of its gates; each gate that an airport lists is at that airport;
/// each flight that an airline lists is of that airline.
pub proof fn law_relationships_kept_from_both_sides(
    gates: Seq<GateView>,
    flights: Seq<(GateView, GateView, Seq<char>)>,
    i: int,
)
    requires
        0 <= i < built(gates, flights).len(),
    ensures
        node_linked(built(gates, flights), i),
{
    law_built_well_formed(gates, flights);
}

/// An optional field after one sighting for each of `tags`, every sighting
/// giving the value `v`.
pub open spec fn overwrite_all<V>(
    old: Option<SourcedView<V>>,
    v: V,
    tags: Seq<Seq<char>>,
) -> Option<SourcedView<V>>
    decreases tags.len(),
{
    if tags.len() == 0 {
        old
    } else {
        overwrite(overwrite_all(old, v, tags.drop_last()), Some(v), tags.last())
    }
}

/// The sources of an optional field; none where the field is empty.
pub open spec fn field_sources<V>(field: Option<SourcedView<V>>) -> Seq<Seq<char>> {
    match field {
        Some(f) => f.sources(),
        None => Seq::empty(),
    }
}

/// After sightings that agree on a field's value, the field holds that value
/// and its sources are those it had together with the tags of the sightings.
pub proof fn lemma_overwrite_all<V>(old: Option<SourcedView<V>>, v: V, tags: Seq<Seq<char>>)
    requires
        tags.len() > 0,
    ensures
        overwrite_all(old, v, tags) is Some,
        overwrite_all(old, v, tags)->0.value() == v,
        field_sources(overwrite_all(old, v, tags)).to_set() == field_sources(old).to_set().union(
            tags.to_set(),
        ),
    decreases tags.len(),
{
    let front = tags.drop_last();
    let tag = tags.last();
    let before = overwrite_all(old, v, front);
    let one = seq![tag];
    assert(one.drop_last() =~= Seq::<Seq<char>>::empty());
    assert(one.last() == tag);
    assert(one.to_set() =~= set![tag]) by {
        assert(one[0] == tag);
        assert forall|x: Seq<char>| one.to_set().contains(x) implies x == tag by {
            let k = choose|k: int| 0 <= k < one.len() && one[k] == x;
        }
    }
    assert(tags.to_set() =~= front.to_set().insert(tag)) by {
        assert forall|x: Seq<char>| tags.to_set().contains(x) <==> front.to_set().insert(
            tag,
        ).contains(x) by {
            if tags.to_set().contains(x) {
                let k = choose|k: int| 0 <= k < tags.len() && tags[k] == x;
                if k < front.len() {
                    assert(front[k] == x);
                }
            }
            if front.to_set().contains(x) {
                let k = choose|k: int| 0 <= k < front.len() && front[k] == x;
                assert(tags[k] == x);
            }
            if x == tag {
                assert(tags[tags.len() - 1] == x);
            }
        }
    }
    if front.len() > 0 {
        lemma_overwrite_all(old, v, front);
    } else {
        assert(front.to_set() =~= Set::<Seq<char>>::empty());
    }
    let prior = field_sources(before);
    lemma_union_sources(prior, one);
    assert(field_sources(overwrite_all(old, v, tags)).to_set() =~= prior.to_set().union(
        one.to_set(),
    )) by {
        match before {
            None => {
                assert(prior.to_set() =~= Set::<Seq<char>>::empty());
            },
            Some(o) => {},
        }
    }
    assert(prior.to_set().union(one.to_set()) =~= field_sources(old).to_set().union(tags.to_set()));
}

/// Provenance does not depend on the order of application. Where every
/// sighting gives the same value for a field, the field ends with that value
/// and with the same set of sources in whatever order the sightings come:
/// the sources it had, and the tag of every sighting.
pub proof fn law_provenance_order_independent<V>(
    old: Option<SourcedView<V>>,
    v: V,
    tags: Seq<Seq<char>>,
    reordered: Seq<Seq<char>>,
)
    requires
        tags.len() > 0,
        tags.to_multiset() == reordered.to_multiset(),
    ensures
        overwrite_all(old, v, tags)->0.value() == overwrite_all(old, v, reordered)->0.value(),
        field_sources(overwrite_all(old, v, tags)).to_set() == field_sources(
            overwrite_all(old, v, reordered),
        ).to_set(),
        field_sources(overwrite_all(old, v, tags)).to_set() == field_sources(old).to_set().union(
            tags.to_set(),
        ),
{
    tags.to_multiset_ensures();
    reordered.to_multiset_ensures();
    assert(reordered.len() == tags.len());
    assert(tags.to_set() =~= reordered.to_set()) by {
        assert forall|x: Seq<char>| tags.to_set().contains(x) <==> reordered.to_set().contains(
            x,
        ) by {
            assert(tags.contains(x) <==> tags.to_multiset().count(x) > 0);
            assert(reordered.contains(x) <==> reordered.to_multiset().count(x) > 0);
        }
    }
    lemma_overwrite_all(old, v, tags);
    lemma_overwrite_all(old, v, reordered);
}

/// What one sighting does to an optional field that it gives: the field
/// holds the value that the sighting gives, and its sources are those it had
/// and the sighting's tag.
pub proof fn lemma_overwrite_tagged<V>(old: Option<SourcedView<V>>, v: V, tag: Seq<char>)
    ensures
        overwrite(old, Some(v), tag) is Some,
        overwrite(old, Some(v), tag)->0.value() == v,
        field_sources(overwrite(old, Some(v), tag)) == add_source(field_sources(old), tag),
        field_sources(overwrite(old, Some(v), tag)).contains(tag),
        old is None ==> field_sources(overwrite(old, Some(v), tag)) == seq![tag],
{
    let one = seq![tag];
    assert(one.drop_last() =~= Seq::<Seq<char>>::empty());
    assert(one.last() == tag);
    let prior = field_sources(old);
    let after = add_source(prior, tag);
    assert(union_sources(prior, one.drop_last()) == prior);
    assert(union_sources(prior, one) == after);
    if prior.contains(tag) {
    } else {
        assert(after[prior.len() as int] == tag);
    }
    if old is None {
        assert(one[0] == tag);
        assert(after =~= one);
    }
}

/// A later sighting of a gate is merged into its node. Once a sighting with
/// a known code is folded in, a sighting of the same airport and code goes
/// to the same node and makes no second gate. The node keeps its code; the
/// later tag joins its sources, which hold the tags of both sightings, none
/// twice if none was there twice; each field that the later sighting gives
/// holds the later value and counts the later tag among its sources, and is
/// attributed to the later tag alone where the node had no such field; each
/// field that the later sighting does not give stays as it was.
pub proof fn law_later_sighting_is_merged(nodes: Seq<NodeView>, first: GateView, second: GateView)
    requires
        well_formed(nodes),
        linked(nodes),
        gate_fits(nodes, first),
        first.same_gate(second),
        gate_fits(apply_gate(nodes, first).0, second),
    ensures
        ({
            let (n1, g) = apply_gate(nodes, first);
            let (n2, g2) = apply_gate(n1, second);
            let before = n1[g as int]->AirGate_0;
            let after = n2[g as int]->AirGate_0;
            &&& g2 == g
            &&& decide(n1, second) == Decision::Existing(g)
            &&& n1[g as int] is AirGate
            &&& n2[g as int] is AirGate
            &&& after == merged_gate(before, second, gate_airline(n1, second))
            &&& after.codes == before.codes
            &&& after.common.source == add_source(before.common.source, second.source)
            &&& after.common.source.contains(first.source)
            &&& after.common.source.contains(second.source)
            &&& before.common.source.no_duplicates() ==> after.common.source.no_duplicates()
            &&& after.size == overwrite(before.size, second.size, second.source)
            &&& second.size matches Some(v) ==> after.size is Some && after.size->0.value() == v
                && after.size->0.sources().contains(second.source) && (before.size is None
                ==> after.size->0.sources() == seq![second.source])
            &&& second.airline matches Some(name) ==> after.airline is Some && airline_name_of(
                n2,
                after.airline->0.value(),
            ) == name && after.airline->0.sources().contains(second.source) && (before.airline
                is None ==> after.airline->0.sources() == seq![second.source])
            &&& second.size is None ==> after.size == before.size
            &&& second.airline is None ==> after.airline == before.airline
        }),
{
    let (n1, g) = apply_gate(nodes, first);
    let (n2, g2) = apply_gate(n1, second);
    lemma_apply_gate(nodes, first);
    lemma_apply_gate_linked(nodes, first);
    law_known_gate_is_recognised(nodes, first, second);
    lemma_apply_gate_node(nodes, first);
    lemma_apply_gate_node(n1, second);
    let before = n1[g as int]->AirGate_0;
    let after = n2[g as int]->AirGate_0;
    let airline = gate_airline(n1, second);
    // The first sighting left its tag with its gate.
    assert(before.common.source.contains(first.source)) by {
        match decide(nodes, first) {
            Decision::Existing(g0) => {
                let old_sources = nodes[g0 as int]->AirGate_0.common.source;
                if !old_sources.contains(first.source) {
                    assert(before.common.source[old_sources.len() as int] == first.source);
                }
            },
            _ => {
                assert(before.common.source[0] == first.source);
            },
        }
    }
    let sources = add_source(before.common.source, second.source);
    assert(after.common.source == sources);
    assert(sources.contains(second.source) && sources.contains(first.source)) by {
        let k = choose|k: int|
            0 <= k < before.common.source.len() && before.common.source[k] == first.source;
        assert(sources[k] == first.source);
        if !before.common.source.contains(second.source) {
            assert(sources[before.common.source.len() as int] == second.source);
        }
    }
    if before.common.source.no_duplicates() {
        assert(sources.no_duplicates());
    }
    if second.size is Some {
        lemma_overwrite_tagged(before.size, second.size->0, second.source);
    }
    if second.airline is Some {
        lemma_overwrite_tagged(before.airline, airline->0, second.source);
    }
}

/// The tags of the sightings, in their order.
pub open spec fn sighting_tags(gates: Seq<GateView>) -> Seq<Seq<char>> {
    Seq::new(gates.len(), |i: int| gates[i].source)
}

/// The size that the graph records for a gate of this code at this
/// airport; nothing where it holds no such gate or records no size for it.
pub open spec fn recorded_size(
    nodes: Seq<NodeView>,
    airport: Seq<char>,
    code: Seq<char>,
) -> Option<SourcedView<Seq<char>>> {
    match first_where(nodes, gate_at(nodes, airport, code)) {
        Some(g) => nodes[g]->AirGate_0.size,
        None => None,
    }
}

/// A field after sightings that agree on its value is the field after the
/// first of them, then after the rest.
pub proof fn lemma_overwrite_all_front<V>(old: Option<SourcedView<V>>, v: V, tags: Seq<Seq<char>>)
    requires
        tags.len() > 0,
    ensures
        overwrite_all(old, v, tags) == overwrite_all(
            overwrite(old, Some(v), tags[0]),
            v,
            tags.drop_first(),
        ),
    decreases tags.len(),
{
    if tags.len() == 1 {
        assert(tags.drop_last() =~= Seq::<Seq<char>>::empty());
        assert(tags.drop_first() =~= Seq::<Seq<char>>::empty());
    } else {
        let front = tags.drop_last();
        lemma_overwrite_all_front(old, v, front);
        assert(front[0] == tags[0]);
        assert(tags.drop_first().drop_last() =~= front.drop_first());
        assert(tags.drop_first().last() == tags.last());
    }
}

/// Provenance through a replay. Where every sighting that is replayed is of
/// one gate with a known code and gives the same size, the graph afterwards
/// holds that gate, and its size is what the size recorded before becomes
/// by one sighting for each tag, in the order of the replay.
pub proof fn law_replay_provenance(nodes: Seq<NodeView>, gates: Seq<GateView>, size: Seq<char>)
    requires
        well_formed(nodes),
        linked(nodes),
        gates.len() > 0,
        gates_fit(nodes, gates),
        forall|i: int| 0 <= i < gates.len() ==> gates[0].same_gate(#[trigger] gates[i]),
        forall|i: int| 0 <= i < gates.len() ==> (#[trigger] gates[i]).size == Some(size),
    ensures
        ({
            let after = replay_gates(nodes, gates);
            let found = first_where(after, gate_at(after, gates[0].airport, gates[0].gate_code));
            &&& well_formed(after)
            &&& found is Some
            &&& 0 <= found->0 < after.len()
            &&& after[found->0] is AirGate
            &&& after[found->0]->AirGate_0.size == overwrite_all(
                recorded_size(nodes, gates[0].airport, gates[0].gate_code),
                size,
                sighting_tags(gates),
            )
        }),
    decreases gates.len(),
{
    let c = gates[0];
    let rest = gates.drop_first();
    let tags = sighting_tags(gates);
    let (n1, g) = apply_gate(nodes, c);
    lemma_apply_gate(nodes, c);
    lemma_apply_gate_linked(nodes, c);
    law_known_gate_is_recognised(nodes, c, c);
    lemma_apply_gate_node(nodes, c);
    let exact_before = gate_at(nodes, c.airport, c.gate_code);
    let exact = gate_at(n1, c.airport, c.gate_code);
    lemma_first_where(nodes, exact_before);
    lemma_first_where(n1, exact);
    let prior = recorded_size(nodes, c.airport, c.gate_code);
    assert(first_where(n1, exact) == Some(g as int));
    assert(n1[g as int]->AirGate_0.size == overwrite(prior, Some(size), c.source));
    lemma_overwrite_all_front(prior, size, tags);
    assert(tags[0] == c.source);
    assert(tags.drop_first() =~= sighting_tags(rest));
    if rest.len() == 0 {
        assert(replay_gates(n1, rest) == n1);
    } else {
        assert forall|i: int| 0 <= i < rest.len() implies rest[0].same_gate(#[trigger] rest[i]) by {
            assert(gates[0].same_gate(gates[i + 1]));
            assert(gates[0].same_gate(gates[1]));
        }
        assert forall|i: int| 0 <= i < rest.len() implies (#[trigger] rest[i]).size == Some(
            size,
        ) by {
            assert(gates[i + 1].size == Some(size));
        }
        assert(gates[0].same_gate(gates[1]));
        law_replay_provenance(n1, rest, size);
    }
}

/// Provenance does not depend on the order of a replay. Where every sighting
/// is of one gate with a known code and gives the same size, this gate's size
/// after the replay holds that value, and its sources are those that were
/// recorded before together with the tag of every sighting. So it is for
/// the same sightings in any other order.
pub proof fn law_replay_provenance_order_independent(
    nodes: Seq<NodeView>,
    gates: Seq<GateView>,
    reordered: Seq<GateView>,
    size: Seq<char>,
)
    requires
        well_formed(nodes),
        linked(nodes),
        gates.len() > 0,
        gates_fit(nodes, gates),
        gates_fit(nodes, reordered),
        reordered.to_multiset() == gates.to_multiset(),
        forall|i: int| 0 <= i < gates.len() ==> gates[0].same_gate(#[trigger] gates[i]),
        forall|i: int| 0 <= i < gates.len() ==> (#[trigger] gates[i]).size == Some(size),
    ensures
        ({
            let airport = gates[0].airport;
            let code = gates[0].gate_code;
            let one = replay_gates(nodes, gates);
            let other = replay_gates(nodes, reordered);
            let field = recorded_size(one, airport, code);
            let again = recorded_size(other, airport, code);
            &&& field is Some
            &&& again is Some
            &&& field->0.value() == size
            &&& again->0.value() == size
            &&& field->0.sources().to_set() == again->0.sources().to_set()
            &&& field->0.sources().to_set() == field_sources(
                recorded_size(nodes, airport, code),
            ).to_set().union(sighting_tags(gates).to_set())
        }),
{
    gates.to_multiset_ensures();
    reordered.to_multiset_ensures();
    assert(reordered.len() == gates.len());
    // Each sighting of the one order is a sighting of the other.
    assert forall|j: int| 0 <= j < reordered.len() implies gates.contains(
        #[trigger] reordered[j],
    ) by {
        assert(reordered.contains(reordered[j]));
        assert(reordered.to_multiset().count(reordered[j]) > 0);
    }
    assert forall|i: int| 0 <= i < gates.len() implies reordered.contains(#[trigger] gates[i]) by {
        assert(gates.contains(gates[i]));
        assert(gates.to_multiset().count(gates[i]) > 0);
    }
    assert forall|j: int| 0 <= j < reordered.len() implies reordered[0].same_gate(
        #[trigger] reordered[j],
    ) && reordered[j].size == Some(size) by {
        let a = choose|a: int| 0 <= a < gates.len() && gates[a] == reordered[0];
        let b = choose|b: int| 0 <= b < gates.len() && gates[b] == reordered[j];
        assert(gates[0].same_gate(gates[a]));
        assert(gates[0].same_gate(gates[b]));
    }
    let a = choose|a: int| 0 <= a < gates.len() && gates[a] == reordered[0];
    assert(gates[0].same_gate(gates[a]));
    law_replay_provenance(nodes, gates, size);
    law_replay_provenance(nodes, reordered, size);
    let tags = sighting_tags(gates);
    let others = sighting_tags(reordered);
    assert(tags.to_set() =~= others.to_set()) by {
        assert forall|x: Seq<char>| tags.to_set().contains(x) <==> others.to_set().contains(
            x,
        ) by {
            if tags.contains(x) {
                let i = choose|i: int| 0 <= i < tags.len() && tags[i] == x;
                let j = choose|j: int| 0 <= j < reordered.len() && reordered[j] == gates[i];
                assert(others[j] == x);
            }
            if others.contains(x) {
                let j = choose|j: int| 0 <= j < others.len() && others[j] == x;
                let i = choose|i: int| 0 <= i < gates.len() && gates[i] == reordered[j];
                assert(tags[i] == x);
            }
        }
    }
    let prior = recorded_size(nodes, gates[0].airport, gates[0].gate_code);
    lemma_overwrite_all(prior, size, tags);
    lemma_overwrite_all(prior, size, others);
}

} // verus!
