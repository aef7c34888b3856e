//! The canonical graph: the store of nodes that reconciliation fills, with
//! the matcher and the merger that work on it.
//!
//! A node's identifier is its position in the store, so identifiers are
//! given out in order and never reused.

use crate::candidate::{Flight, Gate};
use crate::closure::{
    lemma_apply_gate, lemma_decide, lemma_first_where, lemma_first_where_is, lemma_none_where,
    lemma_resolve_airline, lemma_resolve_airport, node_closed, ref_is, well_formed,
};
use crate::error::Error;
use crate::model::{
    add_ref, airline_with, airline_with_flight, airline_with_gate, airport_code_of, airport_with,
    airport_with_gate, apply_flight, apply_gate, attach_flight, count_where, decide,
    find_airline, find_airport, first_where, flight_airline, flight_dropped, flight_fits,
    gate_fits, gate_need, gate_airline_name, gate_at, gate_of,
    gate_with_flight, is_airline, is_airport, link_gate, merged_gate, new_airline,
    new_airport, new_flight, new_gate, overwrite, place_gate, refers_to, resolve_airline,
    resolve_airport, resolve_gate_airline, sourced_by, with_node_source, Decision, MAX_NODES,
};
use crate::node::{
    AirAirline, AirAirport, AirFlight, AirGate, LocatedNodeCommon, Node, NodeCommon, NodeKind,
    NodeView, ID,
};
use crate::sourced::{push_source, Sourced};
use crate::text::{copy_text, is_unknown_code, is_unknown_marker, trims_to_unknown};
use std::collections::HashMap;
use vstd::prelude::*;

verus! {

/// The store of canonical nodes. The node with identifier `i` is the `i`-th
/// node that was added.
#[derive(Debug)]
pub struct CanonicalGraph {
    nodes: Vec<Node>,
    ambiguous: usize,
    dropped: usize,
}

/// A count that stops at the largest number that can be counted to.
pub open spec fn capped(n: nat) -> nat {
    if n <= usize::MAX {
        n
    } else {
        usize::MAX as nat
    }
}

impl CanonicalGraph {
    /// The nodes of the graph, each at the position that is its identifier.
    pub closed spec fn nodes(&self) -> Seq<NodeView> {
        self.nodes.deep_view()
    }

    /// How many sightings went to a new gate because more than one gate
    /// would have fitted.
    pub closed spec fn ambiguous(&self) -> nat {
        self.ambiguous as nat
    }

    /// How many sightings of flights were dropped because neither of their
    /// gates named an airline; the count stops at the largest `usize`.
    pub closed spec fn dropped(&self) -> nat {
        self.dropped as nat
    }

    /// What holds of every graph that this module builds: its relationships
    /// resolve and are kept from both sides, no identity occurs twice, each
    /// ambiguous sighting has left a gate, and the count of drops is one
    /// that can be counted to.
    pub open spec fn wf(&self) -> bool {
        &&& well_formed(self.nodes())
        &&& crate::closure::linked(self.nodes())
        &&& self.ambiguous() <= self.nodes().len()
        &&& self.dropped() <= usize::MAX
    }

    /// An empty graph.
    pub fn new() -> (g: Self)
        ensures
            g.nodes() == Seq::<NodeView>::empty(),
            g.ambiguous() == 0,
            g.dropped() == 0,
            g.wf(),
    {
        let g = CanonicalGraph { nodes: Vec::new(), ambiguous: 0, dropped: 0 };
        assert(g.nodes.deep_view() =~= Seq::<NodeView>::empty());
        g
    }

    /// The number of nodes, which is also the next identifier.
    pub fn len(&self) -> (n: usize)
        ensures
            n == self.nodes().len(),
    {
        self.nodes.len()
    }

    /// How many sightings went to a new gate because more than one gate
    /// would have fitted.
    pub fn ambiguous_matches(&self) -> (n: usize)
        ensures
            n == self.ambiguous(),
    {
        self.ambiguous
    }

    /// How many sightings of flights were dropped because neither of their
    /// gates named an airline.
    pub fn dropped_flights(&self) -> (n: usize)
        ensures
            n == self.dropped(),
    {
        self.dropped
    }

    /// The node with this identifier, if there is one.
    pub fn node(&self, id: ID) -> (r: Option<&Node>)
        ensures
            match r {
                Some(n) => (id as int) < self.nodes().len() && n.deep_view() == self.nodes()[id as int],
                None => id as int >= self.nodes().len(),
            },
    {
        if (id as usize) < self.nodes.len() {
            Some(&self.nodes[id as usize])
        } else {
            None
        }
    }

    /// The identifier of the airport with this code, if the graph holds one.
    pub fn find_airport(&self, code: &String) -> (r: Option<ID>)
        requires
            self.nodes().len() <= MAX_NODES,
        ensures
            match r {
                Some(i) => find_airport(self.nodes(), code@) == Some(i as int),
                None => find_airport(self.nodes(), code@) is None,
            },
    {
        let mut i: usize = 0;
        while i < self.nodes.len()
            invariant
                i <= self.nodes.len(),
                self.nodes.len() <= MAX_NODES,
                forall|j: int| 0 <= j < i ==> !is_airport(self.nodes.deep_view()[j], code@),
            decreases self.nodes.len() - i,
        {
            let hit = match &self.nodes[i] {
                Node::AirAirport(a) => a.code == *code,
                _ => false,
            };
            assert(hit == is_airport(self.nodes.deep_view()[i as int], code@));
            if hit {
                proof {
                    let p = airport_with(code@);
                    assert(p(self.nodes()[i as int]));
                    assert forall|j: int| 0 <= j < i implies !p(self.nodes()[j]) by {}
                    lemma_first_where_is(self.nodes(), p, i as int);
                }
                return Some(i as ID);
            }
            i += 1;
        }
        proof {
            let p = airport_with(code@);
            assert forall|j: int| 0 <= j < self.nodes().len() implies !p(self.nodes()[j]) by {}
            lemma_none_where(self.nodes(), p);
        }
        None
    }

    /// The identifier of the airline with this name, if the graph holds one.
    pub fn find_airline(&self, name: &String) -> (r: Option<ID>)
        requires
            self.nodes().len() <= MAX_NODES,
        ensures
            match r {
                Some(i) => find_airline(self.nodes(), name@) == Some(i as int),
                None => find_airline(self.nodes(), name@) is None,
            },
    {
        let mut i: usize = 0;
        while i < self.nodes.len()
            invariant
                i <= self.nodes.len(),
                self.nodes.len() <= MAX_NODES,
                forall|j: int| 0 <= j < i ==> !is_airline(self.nodes.deep_view()[j], name@),
            decreases self.nodes.len() - i,
        {
            let hit = match &self.nodes[i] {
                Node::AirAirline(a) => a.name == *name,
                _ => false,
            };
            assert(hit == is_airline(self.nodes.deep_view()[i as int], name@));
            if hit {
                proof {
                    let p = airline_with(name@);
                    assert(p(self.nodes()[i as int]));
                    assert forall|j: int| 0 <= j < i implies !p(self.nodes()[j]) by {}
                    lemma_first_where_is(self.nodes(), p, i as int);
                }
                return Some(i as ID);
            }
            i += 1;
        }
        proof {
            let p = airline_with(name@);
            assert forall|j: int| 0 <= j < self.nodes().len() implies !p(self.nodes()[j]) by {}
            lemma_none_where(self.nodes(), p);
        }
        None
    }

    /// Whether the node at `i` is a gate at the airport with this code.
    fn gate_is_at(&self, i: usize, airport: &String) -> (b: bool)
        requires
            well_formed(self.nodes()),
            i < self.nodes().len(),
            self.nodes()[i as int] is AirGate,
        ensures
            b == (airport_code_of(
                self.nodes(),
                self.nodes()[i as int]->AirGate_0.airport.value(),
            ) == airport@),
    {
        match &self.nodes[i] {
            Node::AirGate(g) => {
                let a: ID = *g.airport;
                assert(node_closed(self.nodes(), self.nodes()[i as int]));
                assert(self.nodes()[i as int]->AirGate_0.airport.value() == a);
                match &self.nodes[a as usize] {
                    Node::AirAirport(p) => p.code == *airport,
                    _ => {
                        assert(false);
                        false
                    },
                }
            },
            _ => {
                assert(false);
                false
            },
        }
    }

    /// Whether the node at `i` is a gate that is attributed to this airline
    /// (or, for `None`, to no airline).
    fn gate_is_of(&self, i: usize, airline: &Option<String>) -> (b: bool)
        requires
            well_formed(self.nodes()),
            i < self.nodes().len(),
            self.nodes()[i as int] is AirGate,
        ensures
            b == (gate_airline_name(self.nodes(), self.nodes()[i as int]->AirGate_0)
                == airline.deep_view()),
    {
        match &self.nodes[i] {
            Node::AirGate(g) => {
                assert(node_closed(self.nodes(), self.nodes()[i as int]));
                match &g.airline {
                    Some(l) => {
                        let id: ID = **l;
                        assert(self.nodes()[i as int]->AirGate_0.airline->0.value() == id);
                        match &self.nodes[id as usize] {
                            Node::AirAirline(a) => match airline {
                                Some(name) => a.name == *name,
                                None => false,
                            },
                            _ => {
                                assert(false);
                                false
                            },
                        }
                    },
                    None => airline.is_none(),
                }
            },
            _ => {
                assert(false);
                false
            },
        }
    }

    /// The matcher: what a sighting of a gate is a sighting of, in the graph
    /// as it stands.
    pub fn decide(&self, c: &Gate) -> (d: Decision)
        requires
            self.wf(),
        ensures
            d == decide(self.nodes(), c.deep_view()),
    {
        let n = self.nodes.len();
        if !is_unknown_code(c.gate_code.as_str()) {
            let ghost exact = gate_at(self.nodes(), c.airport@, c.gate_code@);
            let mut i: usize = 0;
            while i < n
                invariant
                    n == self.nodes.len(),
                    i <= n,
                    self.wf(),
                    !trims_to_unknown(c.gate_code@),
                    exact == gate_at(self.nodes(), c.airport@, c.gate_code@),
                    forall|j: int| 0 <= j < i ==> !exact(self.nodes()[j]),
                decreases n - i,
            {
                let same_code = match &self.nodes[i] {
                    Node::AirGate(g) => match &g.codes {
                        Some(code) => *code == c.gate_code,
                        None => false,
                    },
                    _ => false,
                };
                let hit = same_code && self.gate_is_at(i, &c.airport);
                assert(hit == exact(self.nodes()[i as int]));
                if hit {
                    proof {
                        lemma_first_where_is(self.nodes(), exact, i as int);
                    }
                    return Decision::Existing(i as ID);
                }
                i += 1;
            }
            proof {
                lemma_none_where(self.nodes(), exact);
            }
            Decision::New
        } else if !is_unknown_marker(c.gate_code.as_str()) {
            Decision::New
        } else {
            let ghost fits = gate_of(self.nodes(), c.airport@, c.airline.deep_view());
            let mut count: usize = 0;
            let mut first: usize = 0;
            let mut i: usize = 0;
            assert(self.nodes().subrange(0, 0) =~= Seq::<NodeView>::empty());
            while i < n
                invariant
                    n == self.nodes.len(),
                    i <= n,
                    self.wf(),
                    fits == gate_of(self.nodes(), c.airport@, c.airline.deep_view()),
                    count <= i,
                    count == count_where(self.nodes().subrange(0, i as int), fits),
                    count == 0 ==> first_where(self.nodes().subrange(0, i as int), fits) is None,
                    count > 0 ==> first < i && first_where(self.nodes().subrange(0, i as int), fits)
                        == Some(first as int),
                decreases n - i,
            {
                let is_gate_node = match &self.nodes[i] {
                    Node::AirGate(_) => true,
                    _ => false,
                };
                let hit = is_gate_node && self.gate_is_at(i, &c.airport) && self.gate_is_of(
                    i,
                    &c.airline,
                );
                proof {
                    let sub = self.nodes().subrange(0, i + 1);
                    assert(sub.drop_last() =~= self.nodes().subrange(0, i as int));
                    assert(sub.last() == self.nodes()[i as int]);
                    assert(hit == fits(self.nodes()[i as int]));
                }
                if hit {
                    if count == 0 {
                        first = i;
                    }
                    count += 1;
                }
                i += 1;
            }
            assert(self.nodes().subrange(0, n as int) =~= self.nodes());
            if count == 1 {
                Decision::Existing(first as ID)
            } else if count == 0 {
                Decision::New
            } else {
                Decision::Ambiguous
            }
        }
    }

    /// Makes sure the graph holds the airport with this code, asserted by
    /// `tag`, and returns its identifier.
    fn resolve_airport(&mut self, code: &String, tag: &String) -> (id: ID)
        requires
            old(self).nodes().len() <= MAX_NODES,
            find_airport(old(self).nodes(), code@) is None ==> old(self).nodes().len() < MAX_NODES,
        ensures
            (final(self).nodes(), id) == resolve_airport(old(self).nodes(), code@, tag@),
            final(self).ambiguous() == old(self).ambiguous(),
            final(self).dropped() == old(self).dropped(),
    {
        let ghost before = self.nodes();
        match self.find_airport(code) {
            Some(i) => {
                proof {
                    lemma_first_where(before, airport_with(code@));
                }
                match &mut self.nodes[i as usize] {
                    Node::AirAirport(a) => {
                        push_source(&mut a.common.source, tag.clone());
                    },
                    _ => {
                        assert(false);
                    },
                }
                assert(self.nodes.deep_view() =~= before.update(
                    i as int,
                    with_node_source(before[i as int], tag@),
                ));
                i
            },
            None => {
                let id = self.nodes.len() as ID;
                let mut source: Vec<String> = Vec::new();
                source.push(tag.clone());
                let proximity: HashMap<ID, Sourced<crate::node::Proximity>> = HashMap::new();
                proof {
                    vstd::std_specs::hash::lemma_hashmap_deepview_dom(proximity);
                    assert(proximity.deep_view() =~= Map::empty());
                    assert(source.deep_view() =~= seq![tag@]);
                }
                let shared_facility: Vec<Sourced<ID>> = Vec::new();
                let gates: Vec<Sourced<ID>> = Vec::new();
                let node = Node::AirAirport(
                    AirAirport {
                        code: code.clone(),
                        names: None,
                        link: None,
                        modes: None,
                        gates,
                        common: LocatedNodeCommon {
                            i: id,
                            source,
                            world: None,
                            coordinates: None,
                            proximity,
                            shared_facility,
                        },
                    },
                );
                proof {
                    let v = node.deep_view()->AirAirport_0;
                    let w = new_airport(id, code@, tag@)->AirAirport_0;
                    assert(v.gates =~= w.gates);
                    assert(v.common.shared_facility =~= w.common.shared_facility);
                    assert(v.common == w.common);
                    assert(node.deep_view() == new_airport(id, code@, tag@));
                }
                self.nodes.push(node);
                assert(self.nodes.deep_view() =~= before.push(new_airport(id, code@, tag@)));
                id
            },
        }
    }

    /// Makes sure the graph holds the airline with this name, asserted by
    /// `tag`, and returns its identifier.
    fn resolve_airline(&mut self, name: &String, tag: &String) -> (id: ID)
        requires
            old(self).nodes().len() <= MAX_NODES,
            find_airline(old(self).nodes(), name@) is None ==> old(self).nodes().len() < MAX_NODES,
        ensures
            (final(self).nodes(), id) == resolve_airline(old(self).nodes(), name@, tag@),
            final(self).ambiguous() == old(self).ambiguous(),
            final(self).dropped() == old(self).dropped(),
    {
        let ghost before = self.nodes();
        match self.find_airline(name) {
            Some(i) => {
                proof {
                    lemma_first_where(before, airline_with(name@));
                }
                match &mut self.nodes[i as usize] {
                    Node::AirAirline(a) => {
                        push_source(&mut a.common.source, tag.clone());
                    },
                    _ => {
                        assert(false);
                    },
                }
                assert(self.nodes.deep_view() =~= before.update(
                    i as int,
                    with_node_source(before[i as int], tag@),
                ));
                i
            },
            None => {
                let id = self.nodes.len() as ID;
                let mut source: Vec<String> = Vec::new();
                source.push(tag.clone());
                let flights: Vec<Sourced<ID>> = Vec::new();
                let gates: Vec<Sourced<ID>> = Vec::new();
                let node = Node::AirAirline(
                    AirAirline {
                        name: name.clone(),
                        link: None,
                        flights,
                        gates,
                        common: NodeCommon { i: id, source },
                    },
                );
                proof {
                    let v = node.deep_view()->AirAirline_0;
                    let w = new_airline(id, name@, tag@)->AirAirline_0;
                    assert(source.deep_view() =~= seq![tag@]);
                    assert(v.gates =~= w.gates);
                    assert(v.flights =~= w.flights);
                    assert(node.deep_view() == new_airline(id, name@, tag@));
                }
                self.nodes.push(node);
                assert(self.nodes.deep_view() =~= before.push(new_airline(id, name@, tag@)));
                id
            },
        }
    }
}

/// Adds to `list` a reference to `id` asserted by `tag`: the first reference
/// to `id` gains the tag, or, if there is none, a new reference is appended.
pub fn add_reference(list: &mut Vec<Sourced<ID>>, id: ID, tag: String)
    ensures
        final(list).deep_view() == add_ref(old(list).deep_view(), id, tag@),
{
    let ghost before = list.deep_view();
    let ghost p = refers_to(id);
    let n = list.len();
    let mut k: usize = 0;
    while k < n
        invariant
            n == list.len(),
            k <= n,
            list.deep_view() == before,
            before == old(list).deep_view(),
            p == refers_to(id),
            forall|j: int| 0 <= j < k ==> !p(before[j]),
        decreases n - k,
    {
        let v: ID = *list[k];
        assert(before[k as int].value() == v);
        if v == id {
            proof {
                lemma_first_where_is(before, p, k as int);
            }
            let bare = match &list[k] {
                Sourced::Unsourced(_) => true,
                _ => false,
            };
            if bare {
                let mut s: Vec<String> = Vec::new();
                s.push(tag);
                assert(s.deep_view() =~= seq![tag@]);
                list.set(k, Sourced::Sourced { v: id, s });
            } else {
                match &mut list[k] {
                    Sourced::Sourced { v: _, s } => {
                        push_source(s, tag);
                    },
                    _ => {},
                }
            }
            assert(list.deep_view() =~= before.update(k as int, before[k as int].with_source(tag@)));
            return ;
        }
        k += 1;
    }
    proof {
        lemma_none_where(before, p);
    }
    let mut s: Vec<String> = Vec::new();
    s.push(tag);
    assert(s.deep_view() =~= seq![tag@]);
    list.push(Sourced::Sourced { v: id, s });
    assert(list.deep_view() =~= before.push(sourced_by(id, tag@)));
}

/// Lets `tag` assert the reference `x` too.
pub fn add_tag(x: &mut Sourced<ID>, tag: String)
    ensures
        final(x).deep_view() == old(x).deep_view().with_source(tag@),
{
    let v: ID = **x;
    match x {
        Sourced::Unsourced(_) => {
            let mut s: Vec<String> = Vec::new();
            s.push(tag);
            assert(s.deep_view() =~= seq![tag@]);
            *x = Sourced::Sourced { v, s };
        },
        Sourced::Sourced { v: _, s } => {
            push_source(s, tag);
        },
    }
}

/// Folds what a sighting says of an optional field into the field: a value
/// that the sighting gives replaces the old one and the sighting's tag joins
/// the sources; a field that the sighting does not give stays as it is.
pub fn overwrite_field<T: DeepView>(field: &mut Option<Sourced<T>>, new: Option<T>, tag: String)
    ensures
        final(field).deep_view() == overwrite(old(field).deep_view(), new.deep_view(), tag@),
{
    match new {
        None => {},
        Some(v) => {
            let old_value = field.take();
            let fresh = Sourced::from_source(v, tag);
            assert(fresh.deep_view() == sourced_by(v.deep_view(), tag@));
            let merged = match old_value {
                None => fresh,
                Some(o) => {
                    let m = o.merge(fresh);
                    assert(m.deep_view() == o.deep_view().merge(fresh.deep_view()));
                    m
                },
            };
            *field = Some(merged);
        },
    }
}

/// How many gates a sighting adds for being ambiguous: one or none.
pub open spec fn ambiguity(nodes: Seq<NodeView>, c: crate::candidate::GateView) -> nat {
    if decide(nodes, c) is Ambiguous {
        1
    } else {
        0
    }
}

impl CanonicalGraph {
    /// Puts the sighting `c` where the matcher decided: into a gate that it is
    /// a sighting of, or into a new gate.
    fn place_gate(&mut self, d: Decision, c: &Gate, airport: ID, airline: Option<ID>) -> (gate: ID)
        requires
            !(d is Existing) ==> old(self).nodes().len() < MAX_NODES,
            d matches Decision::Existing(g) ==> ref_is(old(self).nodes(), g, NodeKind::AirGate),
        ensures
            (final(self).nodes(), gate) == place_gate(
                old(self).nodes(),
                d,
                c.deep_view(),
                airport,
                airline,
            ),
            final(self).ambiguous() == old(self).ambiguous(),
            final(self).dropped() == old(self).dropped(),
    {
        let ghost before = self.nodes();
        match d {
            Decision::Existing(g) => {
                match &mut self.nodes[g as usize] {
                    Node::AirGate(gate) => {
                        overwrite_field(&mut gate.size, copy_text(&c.size), c.source.clone());
                        overwrite_field(&mut gate.airline, airline, c.source.clone());
                        add_tag(&mut gate.airport, c.source.clone());
                        push_source(&mut gate.common.source, c.source.clone());
                    },
                    _ => {
                        assert(false);
                    },
                }
                assert(self.nodes.deep_view() =~= before.update(
                    g as int,
                    NodeView::AirGate(
                        merged_gate(before[g as int]->AirGate_0, c.deep_view(), airline),
                    ),
                ));
                g
            },
            _ => {
                let id = self.nodes.len() as ID;
                let codes = if is_unknown_marker(c.gate_code.as_str()) {
                    None
                } else {
                    Some(c.gate_code.clone())
                };
                let mut size: Option<Sourced<String>> = None;
                overwrite_field(&mut size, copy_text(&c.size), c.source.clone());
                let mut owner: Option<Sourced<ID>> = None;
                overwrite_field(&mut owner, airline, c.source.clone());
                let mut source: Vec<String> = Vec::new();
                source.push(c.source.clone());
                let flights: Vec<Sourced<ID>> = Vec::new();
                let node = Node::AirGate(
                    AirGate {
                        codes,
                        size,
                        airline: owner,
                        airport: Sourced::from_source(airport, c.source.clone()),
                        flights,
                        common: NodeCommon { i: id, source },
                    },
                );
                proof {
                    let v = node.deep_view()->AirGate_0;
                    let w = new_gate(id, c.deep_view(), airport, airline)->AirGate_0;
                    assert(source.deep_view() =~= seq![c.source@]);
                    assert(v.flights =~= w.flights);
                    assert(v.codes == w.codes);
                    assert(v.airport == w.airport);
                    assert(node.deep_view() == new_gate(id, c.deep_view(), airport, airline));
                }
                self.nodes.push(node);
                assert(self.nodes.deep_view() =~= before.push(
                    new_gate(id, c.deep_view(), airport, airline),
                ));
                id
            },
        }
    }

    /// Lists a gate with its airport and, if it has one, with its airline.
    fn link_gate(&mut self, gate: ID, airport: ID, airline: Option<ID>, tag: &String)
        requires
            ref_is(old(self).nodes(), airport, NodeKind::AirAirport),
            airline matches Some(l) ==> ref_is(old(self).nodes(), l, NodeKind::AirAirline),
        ensures
            final(self).nodes() == link_gate(old(self).nodes(), gate, airport, airline, tag@),
            final(self).ambiguous() == old(self).ambiguous(),
            final(self).dropped() == old(self).dropped(),
    {
        let ghost before = self.nodes();
        match &mut self.nodes[airport as usize] {
            Node::AirAirport(a) => {
                add_reference(&mut a.gates, gate, tag.clone());
            },
            _ => {
                assert(false);
            },
        }
        let ghost listed = before.update(
            airport as int,
            airport_with_gate(before[airport as int], gate, tag@),
        );
        assert(self.nodes.deep_view() =~= listed);
        match airline {
            Some(l) => {
                match &mut self.nodes[l as usize] {
                    Node::AirAirline(a) => {
                        add_reference(&mut a.gates, gate, tag.clone());
                    },
                    _ => {
                        assert(false);
                    },
                }
                assert(self.nodes.deep_view() =~= listed.update(
                    l as int,
                    airline_with_gate(listed[l as int], gate, tag@),
                ));
            },
            None => {},
        }
    }

    /// The merger for one sighting of a gate. The matcher decides on the
    /// graph as it stands; the sighting's airport and airline join the graph
    /// if they are new; then the sighting is folded into a gate: the one it
    /// is of, or a new one. Returns the identifier of this gate.
    ///
    /// Fails, and leaves the graph as it is, where the sighting adds more
    /// nodes than there are identifiers left.
    pub fn merge_gate(&mut self, c: &Gate) -> (r: Result<ID, Error>)
        requires
            old(self).wf(),
        ensures
            final(self).wf(),
            final(self).dropped() == old(self).dropped(),
            r is Ok <==> gate_fits(old(self).nodes(), c.deep_view()),
            match r {
                Ok(gate) => {
                    &&& (final(self).nodes(), gate) == apply_gate(old(self).nodes(), c.deep_view())
                    &&& final(self).ambiguous() == old(self).ambiguous() + ambiguity(
                        old(self).nodes(),
                        c.deep_view(),
                    )
                },
                Err(e) => {
                    &&& e is IdentifiersExhausted
                    &&& final(self).nodes() == old(self).nodes()
                    &&& final(self).ambiguous() == old(self).ambiguous()
                },
            },
    {
        let ghost before = self.nodes();
        let ghost cv = c.deep_view();
        let d = self.decide(c);
        let mut need: usize = 0;
        if self.find_airport(&c.airport).is_none() {
            need += 1;
        }
        match &c.airline {
            Some(name) => {
                if self.find_airline(name).is_none() {
                    need += 1;
                }
            },
            None => {},
        }
        match d {
            Decision::Existing(_) => {},
            _ => {
                need += 1;
            },
        }
        assert(need == gate_need(before, cv));
        if self.nodes.len() + need > MAX_NODES {
            return Err(Error::IdentifiersExhausted);
        }
        proof {
            lemma_decide(before, cv);
            crate::closure::lemma_gate_steps(before, cv);
            lemma_resolve_airport(before, cv.airport, cv.source);
            let (n1, _aid) = resolve_airport(before, cv.airport, cv.source);
            if cv.airline is Some {
                lemma_resolve_airline(n1, cv.airline->0, cv.source);
            }
            lemma_apply_gate(before, cv);
            crate::closure::lemma_apply_gate_linked(before, cv);
        }
        let airport = self.resolve_airport(&c.airport, &c.source);
        let airline = match &c.airline {
            Some(name) => Some(self.resolve_airline(name, &c.source)),
            None => None,
        };
        proof {
            let (n1, _aid) = resolve_airport(before, cv.airport, cv.source);
            assert((self.nodes(), airline) == resolve_gate_airline(n1, cv));
            // What the matcher chose is still a gate.
            if let Decision::Existing(g) = d {
                assert(crate::closure::same_entity(before[g as int], n1[g as int]));
                assert(crate::closure::same_entity(n1[g as int], self.nodes()[g as int]));
            }
            assert(crate::closure::same_entity(n1[airport as int], self.nodes()[airport as int]));
        }
        let ghost resolved = self.nodes();
        let gate = self.place_gate(d, c, airport, airline);
        proof {
            // Placing a gate changes neither the airport nor the airline.
            let placed = self.nodes();
            assert(placed[airport as int] == resolved[airport as int]);
            if airline is Some {
                assert(placed[airline->0 as int] == resolved[airline->0 as int]);
            }
        }
        self.link_gate(gate, airport, airline, &c.source);
        if let Decision::Ambiguous = d {
            self.ambiguous += 1;
        }
        Ok(gate)
    }
}

/// How many gates the sightings of a flight add for being ambiguous, as far
/// as the sightings are folded in.
pub open spec fn flight_ambiguity(
    nodes: Seq<NodeView>,
    from: crate::candidate::GateView,
    to: crate::candidate::GateView,
) -> nat {
    if gate_fits(nodes, from) {
        ambiguity(nodes, from) + if gate_fits(apply_gate(nodes, from).0, to) {
            ambiguity(apply_gate(nodes, from).0, to)
        } else {
            0
        }
    } else {
        0
    }
}

/// One, where this sighting of a flight is dropped; else none.
pub open spec fn drop_count(
    nodes: Seq<NodeView>,
    from: crate::candidate::GateView,
    to: crate::candidate::GateView,
) -> nat {
    if flight_dropped(nodes, from, to) {
        1
    } else {
        0
    }
}

impl CanonicalGraph {
    /// Lists the flight with its gate at `gate`.
    fn list_flight_at_gate(&mut self, gate: ID, flight: ID, tag: &String)
        requires
            ref_is(old(self).nodes(), gate, NodeKind::AirGate),
        ensures
            final(self).nodes() == old(self).nodes().update(
                gate as int,
                gate_with_flight(old(self).nodes()[gate as int], flight, tag@),
            ),
            final(self).ambiguous() == old(self).ambiguous(),
            final(self).dropped() == old(self).dropped(),
    {
        let ghost before = self.nodes();
        match &mut self.nodes[gate as usize] {
            Node::AirGate(g) => {
                add_reference(&mut g.flights, flight, tag.clone());
            },
            _ => {
                assert(false);
            },
        }
        assert(self.nodes.deep_view() =~= before.update(
            gate as int,
            gate_with_flight(before[gate as int], flight, tag@),
        ));
    }

    /// Lists the flight with the airline at `airline`.
    fn list_flight_at_airline(&mut self, airline: ID, flight: ID, tag: &String)
        requires
            ref_is(old(self).nodes(), airline, NodeKind::AirAirline),
        ensures
            final(self).nodes() == old(self).nodes().update(
                airline as int,
                airline_with_flight(old(self).nodes()[airline as int], flight, tag@),
            ),
            final(self).ambiguous() == old(self).ambiguous(),
            final(self).dropped() == old(self).dropped(),
    {
        let ghost before = self.nodes();
        match &mut self.nodes[airline as usize] {
            Node::AirAirline(a) => {
                add_reference(&mut a.flights, flight, tag.clone());
            },
            _ => {
                assert(false);
            },
        }
        assert(self.nodes.deep_view() =~= before.update(
            airline as int,
            airline_with_flight(before[airline as int], flight, tag@),
        ));
    }

    /// Adds a flight of the airline `name` between two gates and lists it
    /// with both gates and with the airline.
    fn attach_flight(&mut self, g1: ID, g2: ID, name: &String, flight_no: &String, tag: &String) -> (id:
        ID)
        requires
            well_formed(old(self).nodes()),
            old(self).nodes().len() < MAX_NODES,
            resolve_airline(old(self).nodes(), name@, tag@).0.len() < MAX_NODES,
            ref_is(old(self).nodes(), g1, NodeKind::AirGate),
            ref_is(old(self).nodes(), g2, NodeKind::AirGate),
        ensures
            final(self).nodes() == attach_flight(
                old(self).nodes(),
                g1,
                g2,
                name@,
                flight_no@,
                tag@,
            ),
            id == final(self).nodes().len() - 1,
            final(self).ambiguous() == old(self).ambiguous(),
            final(self).dropped() == old(self).dropped(),
    {
        let ghost before = self.nodes();
        proof {
            lemma_resolve_airline(before, name@, tag@);
        }
        let airline = self.resolve_airline(name, tag);
        let ghost n3 = self.nodes();
        assert(crate::closure::same_entity(before[g1 as int], n3[g1 as int]));
        assert(crate::closure::same_entity(before[g2 as int], n3[g2 as int]));
        let id = self.nodes.len() as ID;
        let mut codes: Vec<String> = Vec::new();
        codes.push(flight_no.clone());
        let mut gates: Vec<Sourced<ID>> = Vec::new();
        gates.push(Sourced::from_source(g1, tag.clone()));
        gates.push(Sourced::from_source(g2, tag.clone()));
        let mut source: Vec<String> = Vec::new();
        source.push(tag.clone());
        let node = Node::AirFlight(
            AirFlight {
                codes,
                mode: None,
                airline: Sourced::from_source(airline, tag.clone()),
                gates,
                common: NodeCommon { i: id, source },
            },
        );
        proof {
            let v = node.deep_view()->AirFlight_0;
            let w = new_flight(id, flight_no@, airline, g1, g2, tag@)->AirFlight_0;
            assert(v.codes =~= w.codes);
            assert(v.gates =~= w.gates);
            assert(v.common.source =~= w.common.source);
            assert(v.airline == w.airline);
            assert(node.deep_view() == new_flight(id, flight_no@, airline, g1, g2, tag@));
        }
        self.nodes.push(node);
        assert(self.nodes.deep_view() =~= n3.push(
            new_flight(id, flight_no@, airline, g1, g2, tag@),
        ));
        self.list_flight_at_gate(g1, id, tag);
        self.list_flight_at_gate(g2, id, tag);
        self.list_flight_at_airline(airline, id, tag);
        id
    }

    /// The merger for one sighting of a flight between two sighted gates.
    /// Both gates are matched and merged, the first before the second; then
    /// a new flight is added and listed with both gates and with its
    /// airline, which is the one that the first sighting names, else the one
    /// that the second names. Returns the identifier of the flight.
    ///
    /// Where neither sighting names an airline, both gates are folded in, no
    /// flight is added, the drop is counted and `None` is returned.
    ///
    /// Fails where a gate or the flight adds more nodes than there are
    /// identifiers left. The steps before the one that does not fit stay
    /// done: a gate that was folded in stays folded in.
    pub fn merge_flight(&mut self, from: &Gate, to: &Gate, flight: &Flight) -> (r: Result<
        Option<ID>,
        Error,
    >)
        requires
            old(self).wf(),
        ensures
            final(self).wf(),
            final(self).nodes() == apply_flight(
                old(self).nodes(),
                from.deep_view(),
                to.deep_view(),
                flight.flight_no@,
            ),
            final(self).ambiguous() == old(self).ambiguous() + flight_ambiguity(
                old(self).nodes(),
                from.deep_view(),
                to.deep_view(),
            ),
            final(self).dropped() == capped(
                old(self).dropped() + drop_count(
                    old(self).nodes(),
                    from.deep_view(),
                    to.deep_view(),
                ),
            ),
            r is Ok <==> flight_fits(old(self).nodes(), from.deep_view(), to.deep_view()),
            match r {
                Ok(Some(id)) => flight_airline(from.deep_view(), to.deep_view()) is Some && id
                    == final(self).nodes().len() - 1,
                Ok(None) => flight_airline(from.deep_view(), to.deep_view()) is None,
                Err(e) => e is IdentifiersExhausted,
            },
    {
        let ghost before = self.nodes();
        let ghost fv = from.deep_view();
        let ghost tv = to.deep_view();
        let g1 = match self.merge_gate(from) {
            Ok(g) => g,
            Err(e) => {
                return Err(e);
            },
        };
        let g2 = match self.merge_gate(to) {
            Ok(g) => g,
            Err(e) => {
                return Err(e);
            },
        };
        proof {
            crate::closure::lemma_flight_steps(before, fv, tv);
        }
        let name = match &from.airline {
            Some(name) => name.clone(),
            None => match &to.airline {
                Some(name) => name.clone(),
                None => {
                    if self.dropped < usize::MAX {
                        self.dropped += 1;
                    }
                    return Ok(None);
                },
            },
        };
        assert(flight_airline(fv, tv) == Some(name@));
        if self.nodes.len() >= MAX_NODES {
            return Err(Error::IdentifiersExhausted);
        }
        let ghost merged = self.nodes();
        let id = self.attach_flight(g1, g2, &name, &flight.flight_no, &from.source);
        proof {
            crate::closure::lemma_attach_flight(
                merged,
                g1,
                g2,
                name@,
                flight.flight_no@,
                fv.source,
            );
            crate::closure::lemma_attach_flight_linked(
                merged,
                g1,
                g2,
                name@,
                flight.flight_no@,
                fv.source,
            );
        }
        Ok(Some(id))
    }
}

impl CanonicalGraph {
    /// Hands the graph over for publication: its nodes, each under its
    /// identifier, with the time of the build and the version of the format.
    pub fn publish(self, timestamp: String, version: u64) -> (d: crate::data::GatelogueData)
        requires
            self.wf(),
        ensures
            d.timestamp == timestamp,
            d.version == version,
            forall|id: ID| d.nodes@.contains_key(id) <==> (id as int) < self.nodes().len(),
            forall|id: ID|
                (id as int) < self.nodes().len() ==> (#[trigger] d.nodes@[id]).deep_view()
                    == self.nodes()[id as int],
            crate::integrity::resolves(d.nodes@),
    {
        broadcast use vstd::std_specs::hash::group_hash_axioms;

        let ghost all = self.nodes@;
        let ghost views = self.nodes();
        let mut nodes = self.nodes;
        let mut map: HashMap<ID, Node> = HashMap::new();
        while nodes.len() > 0
            invariant
                all.len() <= MAX_NODES,
                nodes.len() <= all.len(),
                forall|j: int| 0 <= j < nodes.len() ==> nodes@[j] == all[j],
                forall|id: ID| map@.contains_key(id) <==> nodes.len() <= (id as int) < all.len(),
                forall|id: ID| map@.contains_key(id) ==> map@[id] == all[id as int],
            decreases nodes.len(),
        {
            let node = nodes.pop().unwrap();
            let id = nodes.len() as ID;
            map.insert(id, node);
        }
        let d = crate::data::GatelogueData { timestamp, version, nodes: map };
        assert forall|id: ID| (id as int) < views.len() implies (#[trigger] d.nodes@[id]).deep_view()
            == views[id as int] by {
            assert(d.nodes@.contains_key(id));
        }
        proof {
            lemma_closed_resolves(d.nodes@, views);
        }
        d
    }
}

/// A list of references resolves among the nodes where it resolves among
/// their views.
proof fn lemma_list_resolves(
    nodes: Map<ID, Node>,
    views: Seq<NodeView>,
    list: Vec<Sourced<ID>>,
    kind: NodeKind,
)
    requires
        views.len() <= MAX_NODES,
        forall|id: ID| nodes.contains_key(id) <==> (id as int) < views.len(),
        forall|id: ID| (id as int) < views.len() ==> (#[trigger] nodes[id]).deep_view() == views[id as int],
        crate::closure::refs_are(views, list.deep_view(), kind),
    ensures
        crate::integrity::all_meet(
            nodes,
            crate::integrity::list_refs(list@, crate::integrity::Expect::Kind(kind)),
        ),
{
    let refs = crate::integrity::list_refs(list@, crate::integrity::Expect::Kind(kind));
    assert forall|p: (ID, crate::integrity::Expect)| #[trigger] refs.contains(p) implies
        crate::integrity::meets(nodes, p.0, p.1) by {
        let k = choose|k: int| 0 <= k < list@.len() && (#[trigger] list@[k]).value() == p.0;
        assert(list.deep_view()[k].value() == p.0);
        assert(ref_is(views, list.deep_view()[k].value(), kind));
        assert(nodes[p.0].deep_view() == views[p.0 as int]);
    }
}

/// One reference resolves among the nodes where it resolves among their
/// views.
proof fn lemma_one_resolves(nodes: Map<ID, Node>, views: Seq<NodeView>, to: ID, kind: NodeKind)
    requires
        views.len() <= MAX_NODES,
        forall|id: ID| nodes.contains_key(id) <==> (id as int) < views.len(),
        forall|id: ID| (id as int) < views.len() ==> (#[trigger] nodes[id]).deep_view() == views[id as int],
        ref_is(views, to, kind),
    ensures
        crate::integrity::all_meet(
            nodes,
            crate::integrity::one_ref(to, crate::integrity::Expect::Kind(kind)),
        ),
{
    let refs = crate::integrity::one_ref(to, crate::integrity::Expect::Kind(kind));
    assert forall|p: (ID, crate::integrity::Expect)| #[trigger] refs.contains(p) implies
        crate::integrity::meets(nodes, p.0, p.1) by {
        assert(p == (to, crate::integrity::Expect::Kind(kind)));
        assert(nodes[to].deep_view() == views[to as int]);
    }
}

/// Nodes whose views are well formed hold no reference that does not
/// resolve.
proof fn lemma_closed_resolves(nodes: Map<ID, Node>, views: Seq<NodeView>)
    requires
        well_formed(views),
        forall|id: ID| nodes.contains_key(id) <==> (id as int) < views.len(),
        forall|id: ID| (id as int) < views.len() ==> (#[trigger] nodes[id]).deep_view() == views[id as int],
    ensures
        crate::integrity::resolves(nodes),
{
    assert forall|id: ID, p: (ID, crate::integrity::Expect)|
        nodes.contains_key(id) && #[trigger] crate::integrity::node_refs(nodes[id]).contains(
            p,
        ) implies crate::integrity::meets(nodes, p.0, p.1) by {
        let n = nodes[id];
        assert(n.deep_view() == views[id as int]);
        assert(node_closed(views, views[id as int]));
        match n {
            Node::AirAirline(x) => {
                lemma_list_resolves(nodes, views, x.flights, NodeKind::AirFlight);
                lemma_list_resolves(nodes, views, x.gates, NodeKind::AirGate);
                assert(crate::integrity::meets(nodes, p.0, p.1));
            },
            Node::AirAirport(x) => {
                lemma_list_resolves(nodes, views, x.gates, NodeKind::AirGate);
                assert(x.common.shared_facility@.len() == 0);
                let keys = x.common.proximity@.dom();
                if keys.contains(p.0) {
                    assert(vstd::relations::injective(|k: ID| k.deep_view()));
                    vstd::std_specs::hash::lemma_hashmap_deepview_properties(x.common.proximity);
                    assert(x.common.proximity@.contains_key(p.0));
                    assert(x.common.proximity.deep_view().contains_key(p.0.deep_view()));
                    assert(false);
                }
                assert(!crate::integrity::located_refs(x.common).contains(p));
                assert(crate::integrity::meets(nodes, p.0, p.1));
            },
            Node::AirFlight(x) => {
                lemma_one_resolves(nodes, views, x.airline.value(), NodeKind::AirAirline);
                lemma_list_resolves(nodes, views, x.gates, NodeKind::AirGate);
                assert(crate::integrity::meets(nodes, p.0, p.1));
            },
            Node::AirGate(x) => {
                lemma_one_resolves(nodes, views, x.airport.value(), NodeKind::AirAirport);
                if x.airline is Some {
                    lemma_one_resolves(nodes, views, x.airline->0.value(), NodeKind::AirAirline);
                }
                lemma_list_resolves(nodes, views, x.flights, NodeKind::AirFlight);
                assert(crate::integrity::meets(nodes, p.0, p.1));
            },
            _ => {
                assert(false);
            },
        }
    }
}

} // verus!
