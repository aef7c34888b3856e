//! Referential integrity of a published graph: whether every identifier
//! that a node refers to is that of a node of the kind that the
//! relationship is to.

use crate::data::GatelogueData;
use crate::error::Error;
use crate::node::{Connection, LocatedNodeCommon, Node, NodeKind, ID};
use crate::sourced::Sourced;
use std::collections::HashMap;
use vstd::prelude::*;
use vstd::std_specs::iter::IteratorSpec;

verus! {

broadcast use vstd::std_specs::hash::group_hash_axioms;

/// What a relationship expects of the node it refers to.
#[derive(Clone, Copy, PartialEq, Eq, Structural, Debug)]
pub enum Expect {
    /// A node of this kind.
    Kind(NodeKind),
    /// A node of any kind that has a location.
    Located,
}

/// Whether nodes of this kind have a location.
pub open spec fn is_located(kind: NodeKind) -> bool {
    kind == NodeKind::AirAirport
        || kind == NodeKind::BusStop
        || kind == NodeKind::RailStation
        || kind == NodeKind::SeaStop
        || kind == NodeKind::SpawnWarp
        || kind == NodeKind::Town
}

/// Whether `nodes` holds under `id` a node that meets `expect`.
pub open spec fn meets(nodes: Map<ID, Node>, id: ID, expect: Expect) -> bool {
    nodes.contains_key(id) && match expect {
        Expect::Kind(kind) => nodes[id].spec_kind() == kind,
        Expect::Located => is_located(nodes[id].spec_kind()),
    }
}

/// The one reference to `id`.
pub open spec fn one_ref(id: ID, expect: Expect) -> Set<(ID, Expect)> {
    set![(id, expect)]
}

/// The reference that an optional field holds, if it holds one.
pub open spec fn opt_ref(field: Option<Sourced<ID>>, expect: Expect) -> Set<(ID, Expect)> {
    match field {
        Some(r) => one_ref(r.value(), expect),
        None => Set::empty(),
    }
}

/// The references that a list holds.
pub open spec fn list_refs(list: Seq<Sourced<ID>>, expect: Expect) -> Set<(ID, Expect)> {
    Set::new(
        |p: (ID, Expect)|
            p.1 == expect && exists|k: int| 0 <= k < list.len() && (#[trigger] list[k]).value() == p.0,
    )
}

/// The references that the keys of a map are.
pub open spec fn key_refs(keys: Set<ID>, expect: Expect) -> Set<(ID, Expect)> {
    Set::new(|p: (ID, Expect)| p.1 == expect && keys.contains(p.0))
}

/// The references that one connection holds: to its line and, if it has a
/// direction, to the stop it heads for.
pub open spec fn connection_refs(c: Connection, stop: NodeKind, line: NodeKind) -> Set<(ID, Expect)> {
    one_ref(c.line, Expect::Kind(line)).union(
        match c.direction {
            Some(d) => one_ref(d.direction, Expect::Kind(stop)),
            None => Set::empty(),
        },
    )
}

/// The references that the connections of a stop hold: to each stop that
/// is connected to, and those of each connection.
pub open spec fn connections_refs(
    connections: Map<ID, Vec<Sourced<Connection>>>,
    stop: NodeKind,
    line: NodeKind,
) -> Set<(ID, Expect)> {
    key_refs(connections.dom(), Expect::Kind(stop)).union(
        Set::new(
            |p: (ID, Expect)|
                exists|to: ID, k: int|
                    connections.contains_key(to) && 0 <= k < connections[to].len()
                        && #[trigger] connection_refs(
                        connections[to][k].value(),
                        stop,
                        line,
                    ).contains(p),
        ),
    )
}

/// The references that every located node holds: to the nodes it shares a
/// facility with and to those it is near.
pub open spec fn located_refs(common: LocatedNodeCommon) -> Set<(ID, Expect)> {
    list_refs(common.shared_facility@, Expect::Located).union(
        key_refs(common.proximity@.dom(), Expect::Located),
    )
}

/// Every reference that a node holds, with what it expects of its target.
pub open spec fn node_refs(n: Node) -> Set<(ID, Expect)> {
    match n {
        Node::AirAirline(x) => list_refs(x.flights@, Expect::Kind(NodeKind::AirFlight)).union(
                list_refs(x.gates@, Expect::Kind(NodeKind::AirGate)),
            ),
        Node::AirAirport(x) => list_refs(x.gates@, Expect::Kind(NodeKind::AirGate)).union(
                located_refs(x.common),
            ),
        Node::AirFlight(x) => one_ref(x.airline.value(), Expect::Kind(NodeKind::AirAirline)).union(
                list_refs(x.gates@, Expect::Kind(NodeKind::AirGate)),
            ),
        Node::AirGate(x) => opt_ref(x.airline, Expect::Kind(NodeKind::AirAirline)).union(
                one_ref(x.airport.value(), Expect::Kind(NodeKind::AirAirport)),
            ).union(
                list_refs(x.flights@, Expect::Kind(NodeKind::AirFlight)),
            ),
        Node::BusCompany(x) => list_refs(x.lines@, Expect::Kind(NodeKind::BusLine)).union(
                list_refs(x.stops@, Expect::Kind(NodeKind::BusStop)),
            ),
        Node::BusLine(x) => one_ref(x.company.value(), Expect::Kind(NodeKind::BusCompany)).union(
                list_refs(x.stops@, Expect::Kind(NodeKind::BusStop)),
            ),
        Node::BusStop(x) => one_ref(x.company.value(), Expect::Kind(NodeKind::BusCompany)).union(
                connections_refs(x.connections@, NodeKind::BusStop, NodeKind::BusLine),
            ).union(
                located_refs(x.common),
            ),
        Node::SeaCompany(x) => list_refs(x.lines@, Expect::Kind(NodeKind::SeaLine)).union(
                list_refs(x.stops@, Expect::Kind(NodeKind::SeaStop)),
            ),
        Node::SeaLine(x) => one_ref(x.company.value(), Expect::Kind(NodeKind::SeaCompany)).union(
                list_refs(x.stops@, Expect::Kind(NodeKind::SeaStop)),
            ),
        Node::SeaStop(x) => one_ref(x.company.value(), Expect::Kind(NodeKind::SeaCompany)).union(
                connections_refs(x.connections@, NodeKind::SeaStop, NodeKind::SeaLine),
            ).union(
                located_refs(x.common),
            ),
        Node::RailCompany(x) => list_refs(x.lines@, Expect::Kind(NodeKind::RailLine)).union(
                list_refs(x.stations@, Expect::Kind(NodeKind::RailStation)),
            ),
        Node::RailLine(x) => one_ref(x.company.value(), Expect::Kind(NodeKind::RailCompany)).union(
                list_refs(x.stations@, Expect::Kind(NodeKind::RailStation)),
            ),
        Node::RailStation(x) => one_ref(x.company.value(), Expect::Kind(NodeKind::RailCompany)).union(
                connections_refs(x.connections@, NodeKind::RailStation, NodeKind::RailLine),
            ).union(
                located_refs(x.common),
            ),
        Node::SpawnWarp(x) => located_refs(x.common),
        Node::Town(x) => located_refs(x.common),
    }
}

/// Whether every reference of every node resolves.
pub open spec fn resolves(nodes: Map<ID, Node>) -> bool {
    forall|id: ID, p: (ID, Expect)|
        nodes.contains_key(id) && #[trigger] node_refs(nodes[id]).contains(p) ==> meets(
            nodes,
            p.0,
            p.1,
        )
}

/// Whether `refs` holds a reference to `to` that expects `expect` and does
/// not resolve.
pub open spec fn is_broken(
    nodes: Map<ID, Node>,
    refs: Set<(ID, Expect)>,
    to: ID,
    expect: Expect,
) -> bool {
    refs.contains((to, expect)) && !meets(nodes, to, expect)
}

/// Whether the node under `from` holds a reference to `to` that does not
/// resolve.
pub open spec fn dangles(nodes: Map<ID, Node>, from: ID, to: ID) -> bool {
    nodes.contains_key(from) && exists|expect: Expect|
        is_broken(nodes, node_refs(nodes[from]), to, expect)
}

/// Whether every reference in `refs` resolves.
pub open spec fn all_meet(nodes: Map<ID, Node>, refs: Set<(ID, Expect)>) -> bool {
    forall|p: (ID, Expect)| #[trigger] refs.contains(p) ==> meets(nodes, p.0, p.1)
}

/// Whether `found` is what a search of `refs` for a reference that does not
/// resolve gives: nothing where all resolve, else the target of one that
/// does not.
pub open spec fn is_search_result(
    nodes: Map<ID, Node>,
    refs: Set<(ID, Expect)>,
    found: Option<ID>,
) -> bool {
    match found {
        None => all_meet(nodes, refs),
        Some(to) => exists|expect: Expect| is_broken(nodes, refs, to, expect),
    }
}

/// A reference that does not resolve is what a search may give.
pub proof fn lemma_found(nodes: Map<ID, Node>, refs: Set<(ID, Expect)>, to: ID, expect: Expect)
    requires
        refs.contains((to, expect)),
        !meets(nodes, to, expect),
    ensures
        is_search_result(nodes, refs, Some(to)),
{
    assert(is_broken(nodes, refs, to, expect));
    let found = Some(to);
    assert(found->0 == to);
    assert(is_search_result(nodes, refs, found));
}

/// What two searches give, the second made where the first gives nothing,
/// is what a search of both sets of references may give.
pub proof fn lemma_search_both(
    nodes: Map<ID, Node>,
    first: Set<(ID, Expect)>,
    second: Set<(ID, Expect)>,
    found_first: Option<ID>,
    found_second: Option<ID>,
)
    requires
        is_search_result(nodes, first, found_first),
        found_first is None ==> is_search_result(nodes, second, found_second),
    ensures
        is_search_result(
            nodes,
            first.union(second),
            if found_first is Some {
                found_first
            } else {
                found_second
            },
        ),
{
    match found_first {
        Some(to) => {
            let expect = choose|expect: Expect| is_broken(nodes, first, to, expect);
            assert(is_broken(nodes, first.union(second), to, expect));
        },
        None => {
            match found_second {
                Some(to) => {
                    let expect = choose|expect: Expect| is_broken(nodes, second, to, expect);
                    assert(is_broken(nodes, first.union(second), to, expect));
                },
                None => {
                    assert forall|p: (ID, Expect)| #[trigger]
                        first.union(second).contains(p) implies meets(nodes, p.0, p.1) by {
                        if first.contains(p) {
                        } else {
                            assert(second.contains(p));
                        }
                    }
                },
            }
        },
    }
}

impl GatelogueData {
    /// Whether the graph holds under `id` a node that meets `expect`.
    pub fn meets(&self, id: ID, expect: Expect) -> (b: bool)
        ensures
            b == meets(self.nodes@, id, expect),
    {
        match self.nodes.get(&id) {
            Some(n) => match expect {
                Expect::Kind(kind) => n.kind() == kind,
                Expect::Located => match n.kind() {
                    NodeKind::AirAirport => true,
                    NodeKind::BusStop => true,
                    NodeKind::RailStation => true,
                    NodeKind::SeaStop => true,
                    NodeKind::SpawnWarp => true,
                    NodeKind::Town => true,
                    _ => false,
                },
            },
            None => false,
        }
    }

    /// Searches one reference.
    fn search_one(&self, id: ID, expect: Expect) -> (found: Option<ID>)
        ensures
            is_search_result(self.nodes@, one_ref(id, expect), found),
    {
        if self.meets(id, expect) {
            assert forall|p: (ID, Expect)| #[trigger]
                one_ref(id, expect).contains(p) implies meets(self.nodes@, p.0, p.1) by {
                assert(p == (id, expect));
            }
            None
        } else {
            proof {
                assert(one_ref(id, expect).contains((id, expect)));
                lemma_found(self.nodes@, one_ref(id, expect), id, expect);
            }
            Some(id)
        }
    }

    /// Searches a list of references, front to back.
    fn search_list(&self, list: &Vec<Sourced<ID>>, expect: Expect) -> (found: Option<ID>)
        ensures
            is_search_result(self.nodes@, list_refs(list@, expect), found),
    {
        let mut k: usize = 0;
        while k < list.len()
            invariant
                k <= list.len(),
                forall|j: int| 0 <= j < k ==> meets(self.nodes@, (#[trigger] list@[j]).value(), expect),
            decreases list.len() - k,
        {
            let id: ID = *list[k].get();
            if !self.meets(id, expect) {
                proof {
                    assert(list@[k as int].value() == id);
                    assert(list_refs(list@, expect).contains((id, expect)));
                    lemma_found(self.nodes@, list_refs(list@, expect), id, expect);
                }
                return Some(id);
            }
            k += 1;
        }
        assert forall|p: (ID, Expect)| #[trigger]
            list_refs(list@, expect).contains(p) implies meets(self.nodes@, p.0, p.1) by {
            let j = choose|j: int| 0 <= j < list.len() && (#[trigger] list@[j]).value() == p.0;
            assert(meets(self.nodes@, list@[j].value(), expect));
        }
        None
    }

    /// Searches the keys of a map.
    fn search_keys<V>(&self, map: &HashMap<ID, V>, expect: Expect) -> (found: Option<ID>)
        ensures
            is_search_result(self.nodes@, key_refs(map@.dom(), expect), found),
    {
        let keys = map.keys();
        let ghost all = keys.remaining().unref();
        assert(all.to_set() == map@.dom());
        for key in it: keys
            invariant
                it.seq().unref() == all,
                all.to_set() == map@.dom(),
                forall|j: int| 0 <= j < it.index() ==> meets(self.nodes@, #[trigger] all[j], expect),
        {
            if !self.meets(*key, expect) {
                assert(all[it.index() as int] == *key);
                assert(all.to_set().contains(*key));
                assert(key_refs(map@.dom(), expect).contains((*key, expect)));
                proof {
                    lemma_found(self.nodes@, key_refs(map@.dom(), expect), *key, expect);
                }
                return Some(*key);
            }
        }
        assert forall|p: (ID, Expect)| #[trigger]
            key_refs(map@.dom(), expect).contains(p) implies meets(self.nodes@, p.0, p.1) by {
            assert(all.to_set().contains(p.0));
            let j = choose|j: int| 0 <= j < all.len() && all[j] == p.0;
            assert(meets(self.nodes@, all[j], expect));
        }
        None
    }

    /// Searches the connections of one stop to one other stop.
    fn search_connection_list(
        &self,
        list: &Vec<Sourced<Connection>>,
        stop: NodeKind,
        line: NodeKind,
    ) -> (found: Option<ID>)
        ensures
            match found {
                None => forall|k: int|
                    0 <= k < list.len() ==> all_meet(
                        self.nodes@,
                        #[trigger] connection_refs(list@[k].value(), stop, line),
                    ),
                Some(to) => exists|k: int, expect: Expect|
                    0 <= k < list.len() && #[trigger] is_broken(
                        self.nodes@,
                        connection_refs(list@[k].value(), stop, line),
                        to,
                        expect,
                    ),
            },
    {
        let mut k: usize = 0;
        while k < list.len()
            invariant
                k <= list.len(),
                forall|j: int|
                    0 <= j < k ==> all_meet(
                        self.nodes@,
                        #[trigger] connection_refs(list@[j].value(), stop, line),
                    ),
            decreases list.len() - k,
        {
            let c = list[k].get();
            if !self.meets(c.line, Expect::Kind(line)) {
                let found = Some(c.line);
                assert(is_broken(
                    self.nodes@,
                    connection_refs(list@[k as int].value(), stop, line),
                    found->0,
                    Expect::Kind(line),
                ));
                return found;
            }
            match &c.direction {
                Some(d) => {
                    if !self.meets(d.direction, Expect::Kind(stop)) {
                        let found = Some(d.direction);
                        assert(is_broken(
                            self.nodes@,
                            connection_refs(list@[k as int].value(), stop, line),
                            found->0,
                            Expect::Kind(stop),
                        ));
                        return found;
                    }
                },
                None => {},
            }
            assert forall|p: (ID, Expect)| #[trigger]
                connection_refs(list@[k as int].value(), stop, line).contains(p) implies meets(
                self.nodes@,
                p.0,
                p.1,
            ) by {
                if p != (c.line, Expect::Kind(line)) {
                    assert(c.direction is Some);
                    assert(p == (c.direction->0.direction, Expect::Kind(stop)));
                }
            }
            k += 1;
        }
        None
    }

    /// Searches the connections of one stop.
    fn search_connections(
        &self,
        connections: &HashMap<ID, Vec<Sourced<Connection>>>,
        stop: NodeKind,
        line: NodeKind,
    ) -> (found: Option<ID>)
        ensures
            is_search_result(self.nodes@, connections_refs(connections@, stop, line), found),
    {
        match self.search_keys(connections, Expect::Kind(stop)) {
            Some(to) => {
                proof {
                    let expect = choose|expect: Expect|
                        is_broken(
                            self.nodes@,
                            key_refs(connections@.dom(), Expect::Kind(stop)),
                            to,
                            expect,
                        );
                    assert(is_broken(
                        self.nodes@,
                        connections_refs(connections@, stop, line),
                        to,
                        expect,
                    ));
                }
                return Some(to);
            },
            None => {},
        }
        let keys = connections.keys();
        let ghost all = keys.remaining().unref();
        assert(all.to_set() == connections@.dom());
        for key in it: keys
            invariant
                it.seq().unref() == all,
                all.to_set() == connections@.dom(),
                forall|j: int, k: int|
                    0 <= j < it.index() && 0 <= k < connections@[all[j]].len() ==> all_meet(
                        self.nodes@,
                        #[trigger] connection_refs(connections@[all[j]][k].value(), stop, line),
                    ),
        {
            assert(all[it.index() as int] == *key);
            assert(all.to_set().contains(*key));
            match connections.get(key) {
                Some(list) => {
                    match self.search_connection_list(list, stop, line) {
                        Some(to) => {
                            proof {
                                let (k, expect) = choose|k: int, expect: Expect|
                                    0 <= k < list.len() && #[trigger] is_broken(
                                        self.nodes@,
                                        connection_refs(list@[k].value(), stop, line),
                                        to,
                                        expect,
                                    );
                                assert(connection_refs(
                                    connections@[*key][k].value(),
                                    stop,
                                    line,
                                ).contains((to, expect)));
                                assert(is_broken(
                                    self.nodes@,
                                    connections_refs(connections@, stop, line),
                                    to,
                                    expect,
                                ));
                            }
                            return Some(to);
                        },
                        None => {},
                    }
                },
                None => {},
            }
        }
        assert forall|p: (ID, Expect)| #[trigger]
            connections_refs(connections@, stop, line).contains(p) implies meets(
            self.nodes@,
            p.0,
            p.1,
        ) by {
            if !key_refs(connections@.dom(), Expect::Kind(stop)).contains(p) {
                let (to, k) = choose|to: ID, k: int|
                    connections@.contains_key(to) && 0 <= k < connections@[to].len()
                        && #[trigger] connection_refs(
                        connections@[to][k].value(),
                        stop,
                        line,
                    ).contains(p);
                assert(all.to_set().contains(to));
                let j = choose|j: int| 0 <= j < all.len() && all[j] == to;
                assert(all_meet(
                    self.nodes@,
                    connection_refs(connections@[all[j]][k].value(), stop, line),
                ));
            }
        }
        None
    }

    /// Searches what every located node refers to.
    fn search_located(&self, common: &LocatedNodeCommon) -> (found: Option<ID>)
        ensures
            is_search_result(self.nodes@, located_refs(*common), found),
    {
        let first = self.search_list(&common.shared_facility, Expect::Located);
        if first.is_some() {
            proof {
                lemma_search_both(
                    self.nodes@,
                    list_refs(common.shared_facility@, Expect::Located),
                    key_refs(common.proximity@.dom(), Expect::Located),
                    first,
                    None,
                );
            }
            return first;
        }
        let second = self.search_keys(&common.proximity, Expect::Located);
        proof {
            lemma_search_both(
                self.nodes@,
                list_refs(common.shared_facility@, Expect::Located),
                key_refs(common.proximity@.dom(), Expect::Located),
                first,
                second,
            );
        }
        second
    }

    /// Searches everything that a node refers to.
    pub fn search_node(&self, n: &Node) -> (found: Option<ID>)
        ensures
            is_search_result(self.nodes@, node_refs(*n), found),
    {
        match n {
            Node::AirAirline(x) => {
                let found = self.search_list(&x.flights, Expect::Kind(NodeKind::AirFlight));
                let ghost seen = list_refs(x.flights@, Expect::Kind(NodeKind::AirFlight));
                let ghost before = seen;
                let earlier = found;
                let found = if earlier.is_some() {
                    earlier
                } else {
                    self.search_list(&x.gates, Expect::Kind(NodeKind::AirGate))
                };
                let ghost seen = before.union(list_refs(x.gates@, Expect::Kind(NodeKind::AirGate)));
                proof {
                    lemma_search_both(self.nodes@, before, list_refs(x.gates@, Expect::Kind(NodeKind::AirGate)), earlier, found);
                }
                found
            },
            Node::AirAirport(x) => {
                let found = self.search_list(&x.gates, Expect::Kind(NodeKind::AirGate));
                let ghost seen = list_refs(x.gates@, Expect::Kind(NodeKind::AirGate));
                let ghost before = seen;
                let earlier = found;
                let found = if earlier.is_some() {
                    earlier
                } else {
                    self.search_located(&x.common)
                };
                let ghost seen = before.union(located_refs(x.common));
                proof {
                    lemma_search_both(self.nodes@, before, located_refs(x.common), earlier, found);
                }
                found
            },
            Node::AirFlight(x) => {
                let found = self.search_one(*x.airline.get(), Expect::Kind(NodeKind::AirAirline));
                let ghost seen = one_ref(x.airline.value(), Expect::Kind(NodeKind::AirAirline));
                let ghost before = seen;
                let earlier = found;
                let found = if earlier.is_some() {
                    earlier
                } else {
                    self.search_list(&x.gates, Expect::Kind(NodeKind::AirGate))
                };
                let ghost seen = before.union(list_refs(x.gates@, Expect::Kind(NodeKind::AirGate)));
                proof {
                    lemma_search_both(self.nodes@, before, list_refs(x.gates@, Expect::Kind(NodeKind::AirGate)), earlier, found);
                }
                found
            },
            Node::AirGate(x) => {
                let found = (match &x.airline {
                    Some(r) => self.search_one(*r.get(), Expect::Kind(NodeKind::AirAirline)),
                    None => None,
                });
                let ghost seen = opt_ref(x.airline, Expect::Kind(NodeKind::AirAirline));
                let ghost before = seen;
                let earlier = found;
                let found = if earlier.is_some() {
                    earlier
                } else {
                    self.search_one(*x.airport.get(), Expect::Kind(NodeKind::AirAirport))
                };
                let ghost seen = before.union(one_ref(x.airport.value(), Expect::Kind(NodeKind::AirAirport)));
                proof {
                    lemma_search_both(self.nodes@, before, one_ref(x.airport.value(), Expect::Kind(NodeKind::AirAirport)), earlier, found);
                }
                let ghost before = seen;
                let earlier = found;
                let found = if earlier.is_some() {
                    earlier
                } else {
                    self.search_list(&x.flights, Expect::Kind(NodeKind::AirFlight))
                };
                let ghost seen = before.union(list_refs(x.flights@, Expect::Kind(NodeKind::AirFlight)));
                proof {
                    lemma_search_both(self.nodes@, before, list_refs(x.flights@, Expect::Kind(NodeKind::AirFlight)), earlier, found);
                }
                found
            },
            Node::BusCompany(x) => {
                let found = self.search_list(&x.lines, Expect::Kind(NodeKind::BusLine));
                let ghost seen = list_refs(x.lines@, Expect::Kind(NodeKind::BusLine));
                let ghost before = seen;
                let earlier = found;
                let found = if earlier.is_some() {
                    earlier
                } else {
                    self.search_list(&x.stops, Expect::Kind(NodeKind::BusStop))
                };
                let ghost seen = before.union(list_refs(x.stops@, Expect::Kind(NodeKind::BusStop)));
                proof {
                    lemma_search_both(self.nodes@, before, list_refs(x.stops@, Expect::Kind(NodeKind::BusStop)), earlier, found);
                }
                found
            },
            Node::BusLine(x) => {
                let found = self.search_one(*x.company.get(), Expect::Kind(NodeKind::BusCompany));
                let ghost seen = one_ref(x.company.value(), Expect::Kind(NodeKind::BusCompany));
                let ghost before = seen;
                let earlier = found;
                let found = if earlier.is_some() {
                    earlier
                } else {
                    self.search_list(&x.stops, Expect::Kind(NodeKind::BusStop))
                };
                let ghost seen = before.union(list_refs(x.stops@, Expect::Kind(NodeKind::BusStop)));
                proof {
                    lemma_search_both(self.nodes@, before, list_refs(x.stops@, Expect::Kind(NodeKind::BusStop)), earlier, found);
                }
                found
            },
            Node::BusStop(x) => {
                let found = self.search_one(*x.company.get(), Expect::Kind(NodeKind::BusCompany));
                let ghost seen = one_ref(x.company.value(), Expect::Kind(NodeKind::BusCompany));
                let ghost before = seen;
                let earlier = found;
                let found = if earlier.is_some() {
                    earlier
                } else {
                    self.search_connections(&x.connections, NodeKind::BusStop, NodeKind::BusLine)
                };
                let ghost seen = before.union(connections_refs(x.connections@, NodeKind::BusStop, NodeKind::BusLine));
                proof {
                    lemma_search_both(self.nodes@, before, connections_refs(x.connections@, NodeKind::BusStop, NodeKind::BusLine), earlier, found);
                }
                let ghost before = seen;
                let earlier = found;
                let found = if earlier.is_some() {
                    earlier
                } else {
                    self.search_located(&x.common)
                };
                let ghost seen = before.union(located_refs(x.common));
                proof {
                    lemma_search_both(self.nodes@, before, located_refs(x.common), earlier, found);
                }
                found
            },
            Node::SeaCompany(x) => {
                let found = self.search_list(&x.lines, Expect::Kind(NodeKind::SeaLine));
                let ghost seen = list_refs(x.lines@, Expect::Kind(NodeKind::SeaLine));
                let ghost before = seen;
                let earlier = found;
                let found = if earlier.is_some() {
                    earlier
                } else {
                    self.search_list(&x.stops, Expect::Kind(NodeKind::SeaStop))
                };
                let ghost seen = before.union(list_refs(x.stops@, Expect::Kind(NodeKind::SeaStop)));
                proof {
                    lemma_search_both(self.nodes@, before, list_refs(x.stops@, Expect::Kind(NodeKind::SeaStop)), earlier, found);
                }
                found
            },
            Node::SeaLine(x) => {
                let found = self.search_one(*x.company.get(), Expect::Kind(NodeKind::SeaCompany));
                let ghost seen = one_ref(x.company.value(), Expect::Kind(NodeKind::SeaCompany));
                let ghost before = seen;
                let earlier = found;
                let found = if earlier.is_some() {
                    earlier
                } else {
                    self.search_list(&x.stops, Expect::Kind(NodeKind::SeaStop))
                };
                let ghost seen = before.union(list_refs(x.stops@, Expect::Kind(NodeKind::SeaStop)));
                proof {
                    lemma_search_both(self.nodes@, before, list_refs(x.stops@, Expect::Kind(NodeKind::SeaStop)), earlier, found);
                }
                found
            },
            Node::SeaStop(x) => {
                let found = self.search_one(*x.company.get(), Expect::Kind(NodeKind::SeaCompany));
                let ghost seen = one_ref(x.company.value(), Expect::Kind(NodeKind::SeaCompany));
                let ghost before = seen;
                let earlier = found;
                let found = if earlier.is_some() {
                    earlier
                } else {
                    self.search_connections(&x.connections, NodeKind::SeaStop, NodeKind::SeaLine)
                };
                let ghost seen = before.union(connections_refs(x.connections@, NodeKind::SeaStop, NodeKind::SeaLine));
                proof {
                    lemma_search_both(self.nodes@, before, connections_refs(x.connections@, NodeKind::SeaStop, NodeKind::SeaLine), earlier, found);
                }
                let ghost before = seen;
                let earlier = found;
                let found = if earlier.is_some() {
                    earlier
                } else {
                    self.search_located(&x.common)
                };
                let ghost seen = before.union(located_refs(x.common));
                proof {
                    lemma_search_both(self.nodes@, before, located_refs(x.common), earlier, found);
                }
                found
            },
            Node::RailCompany(x) => {
                let found = self.search_list(&x.lines, Expect::Kind(NodeKind::RailLine));
                let ghost seen = list_refs(x.lines@, Expect::Kind(NodeKind::RailLine));
                let ghost before = seen;
                let earlier = found;
                let found = if earlier.is_some() {
                    earlier
                } else {
                    self.search_list(&x.stations, Expect::Kind(NodeKind::RailStation))
                };
                let ghost seen = before.union(list_refs(x.stations@, Expect::Kind(NodeKind::RailStation)));
                proof {
                    lemma_search_both(self.nodes@, before, list_refs(x.stations@, Expect::Kind(NodeKind::RailStation)), earlier, found);
                }
                found
            },
            Node::RailLine(x) => {
                let found = self.search_one(*x.company.get(), Expect::Kind(NodeKind::RailCompany));
                let ghost seen = one_ref(x.company.value(), Expect::Kind(NodeKind::RailCompany));
                let ghost before = seen;
                let earlier = found;
                let found = if earlier.is_some() {
                    earlier
                } else {
                    self.search_list(&x.stations, Expect::Kind(NodeKind::RailStation))
                };
                let ghost seen = before.union(list_refs(x.stations@, Expect::Kind(NodeKind::RailStation)));
                proof {
                    lemma_search_both(self.nodes@, before, list_refs(x.stations@, Expect::Kind(NodeKind::RailStation)), earlier, found);
                }
                found
            },
            Node::RailStation(x) => {
                let found = self.search_one(*x.company.get(), Expect::Kind(NodeKind::RailCompany));
                let ghost seen = one_ref(x.company.value(), Expect::Kind(NodeKind::RailCompany));
                let ghost before = seen;
                let earlier = found;
                let found = if earlier.is_some() {
                    earlier
                } else {
                    self.search_connections(&x.connections, NodeKind::RailStation, NodeKind::RailLine)
                };
                let ghost seen = before.union(connections_refs(x.connections@, NodeKind::RailStation, NodeKind::RailLine));
                proof {
                    lemma_search_both(self.nodes@, before, connections_refs(x.connections@, NodeKind::RailStation, NodeKind::RailLine), earlier, found);
                }
                let ghost before = seen;
                let earlier = found;
                let found = if earlier.is_some() {
                    earlier
                } else {
                    self.search_located(&x.common)
                };
                let ghost seen = before.union(located_refs(x.common));
                proof {
                    lemma_search_both(self.nodes@, before, located_refs(x.common), earlier, found);
                }
                found
            },
            Node::SpawnWarp(x) => {
                self.search_located(&x.common)
            },
            Node::Town(x) => {
                self.search_located(&x.common)
            },
        }
    }

    /// Checks that every reference of every node resolves. Fails at the node
    /// with the lowest identifier that holds a reference which does not, and
    /// names that node and the identifier that it refers to.
    pub fn validate(&self) -> (r: Result<(), Error>)
        ensures
            r is Ok <==> resolves(self.nodes@),
            r matches Err(e) ==> {
                &&& e matches Error::DanglingReference(from, to)
                &&& dangles(self.nodes@, from, to)
                &&& forall|id: ID, p: (ID, Expect)|
                    id < from && self.nodes@.contains_key(id) && #[trigger] node_refs(
                        self.nodes@[id],
                    ).contains(p) ==> meets(self.nodes@, p.0, p.1)
            },
    {
        let mut next: u32 = 0;
        while next <= 0xffff
            invariant
                next <= 0x10000,
                forall|id: ID, p: (ID, Expect)|
                    id < next && self.nodes@.contains_key(id) && #[trigger] node_refs(
                        self.nodes@[id],
                    ).contains(p) ==> meets(self.nodes@, p.0, p.1),
            decreases 0x10000 - next,
        {
            let id = next as ID;
            match self.nodes.get(&id) {
                Some(n) => {
                    match self.search_node(n) {
                        Some(to) => {
                            return Err(Error::DanglingReference(id, to));
                        },
                        None => {},
                    }
                },
                None => {},
            }
            next += 1;
        }
        Ok(())
    }
}

} // verus!
