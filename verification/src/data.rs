//! A published graph: the nodes by identifier, under an envelope that says
//! when and in which format version the graph was built.

use crate::error::Error;
use crate::node::{
    AirAirline, AirAirport, AirFlight, AirGate, BusCompany, BusLine, BusStop, ID, Node,
    NodeKind, RailCompany, RailLine, RailStation, SeaCompany, SeaLine, SeaStop, SpawnWarp,
    Town,
};
use std::collections::HashMap;
use vstd::prelude::*;

verus! {

broadcast use vstd::std_specs::hash::group_hash_axioms;

/// A graph as it is published.
#[derive(Clone, Debug)]
pub struct GatelogueData {
    /// When the graph was built.
    pub timestamp: String,
    /// The version of the format.
    pub version: u64,
    /// The nodes, each under its identifier.
    pub nodes: HashMap<ID, Node>,
}

/// Whether `nodes` holds a node of this kind under `id`.
pub open spec fn holds_kind(nodes: Map<ID, Node>, id: ID, kind: NodeKind) -> bool {
    nodes.contains_key(id) && nodes[id].spec_kind() == kind
}

/// Why `nodes` gives no node of this kind under `id`: there is no node, or
/// the node is of another kind.
pub open spec fn lookup_error(nodes: Map<ID, Node>, id: ID, kind: NodeKind) -> Error {
    if nodes.contains_key(id) {
        Error::IncorrectType(id, kind.spec_name())
    } else {
        Error::NoNode(id)
    }
}

/// The identifiers below `bound` under which `nodes` holds a node of this
/// kind, in ascending order.
pub open spec fn kind_ids_below(nodes: Map<ID, Node>, kind: NodeKind, bound: nat) -> Seq<ID>
    decreases bound,
{
    if bound == 0 {
        Seq::empty()
    } else {
        let below = kind_ids_below(nodes, kind, (bound - 1) as nat);
        if holds_kind(nodes, (bound - 1) as ID, kind) {
            below.push((bound - 1) as ID)
        } else {
            below
        }
    }
}

/// The identifiers under which `nodes` holds a node of this kind, in
/// ascending order.
pub open spec fn kind_ids(nodes: Map<ID, Node>, kind: NodeKind) -> Seq<ID> {
    kind_ids_below(nodes, kind, 0x10000)
}

/// What `kind_ids_below` lists: each identifier below the bound that holds a
/// node of the kind, once, in ascending order.
pub proof fn lemma_kind_ids_below(nodes: Map<ID, Node>, kind: NodeKind, bound: nat)
    requires
        bound <= 0x10000,
    ensures
        forall|k: int|
            0 <= k < kind_ids_below(nodes, kind, bound).len() ==> holds_kind(
                nodes,
                #[trigger] kind_ids_below(nodes, kind, bound)[k],
                kind,
            ) && kind_ids_below(nodes, kind, bound)[k] < bound,
        forall|k: int, l: int|
            0 <= k < l < kind_ids_below(nodes, kind, bound).len() ==> kind_ids_below(
                nodes,
                kind,
                bound,
            )[k] < kind_ids_below(nodes, kind, bound)[l],
        forall|id: ID|
            id < bound && holds_kind(nodes, id, kind) ==> kind_ids_below(
                nodes,
                kind,
                bound,
            ).contains(id),
    decreases bound,
{
    if bound > 0 {
        let below = kind_ids_below(nodes, kind, (bound - 1) as nat);
        lemma_kind_ids_below(nodes, kind, (bound - 1) as nat);
        let all = kind_ids_below(nodes, kind, bound);
        assert forall|id: ID| id < bound && holds_kind(nodes, id, kind) implies all.contains(
            id,
        ) by {
            if id < bound - 1 {
                let k = choose|k: int| 0 <= k < below.len() && below[k] == id;
                assert(all[k] == id);
            } else {
                assert(all[below.len() as int] == id);
            }
        }
    }
}

/// The node under `id` in `nodes`, open to change. What the caller leaves in
/// it is what `nodes` holds under `id` afterwards; nothing else changes.
///
/// Trusted: this is `HashMap::get_mut`, which returns the value stored under
/// the key, if any, and never adds or removes a key.
#[verifier::external_body]
fn node_mut(nodes: &mut HashMap<ID, Node>, id: ID) -> (r: Option<&mut Node>)
    ensures
        match r {
            Some(n) => {
                &&& old(nodes)@.contains_key(id)
                &&& *n == old(nodes)@[id]
                &&& final(nodes)@ == old(nodes)@.insert(id, *final(n))
            },
            None => !old(nodes)@.contains_key(id) && final(nodes)@ == old(nodes)@,
        },
{
    nodes.get_mut(&id)
}

impl GatelogueData {
    /// An empty graph under the given envelope.
    pub fn new(timestamp: String, version: u64) -> (d: Self)
        ensures
            d.timestamp == timestamp,
            d.version == version,
            d.nodes@ == Map::<ID, Node>::empty(),
    {
        GatelogueData { timestamp, version, nodes: HashMap::new() }
    }

    /// The node under `id`, of whatever kind.
    pub fn get_node(&self, id: ID) -> (r: Result<&Node, Error>)
        ensures
            match r {
                Ok(n) => self.nodes@.contains_key(id) && self.nodes@[id] == *n,
                Err(e) => !self.nodes@.contains_key(id) && e == Error::NoNode(id),
            },
    {
        match self.nodes.get(&id) {
            Some(n) => Ok(n),
            None => Err(Error::NoNode(id)),
        }
    }

    /// The node under `id`, of whatever kind, open to change. Nothing but
    /// that node changes.
    pub fn get_node_mut(&mut self, id: ID) -> (r: Result<&mut Node, Error>)
        ensures
            final(self).timestamp == old(self).timestamp,
            final(self).version == old(self).version,
            match r {
                Ok(n) => {
                    &&& old(self).nodes@.contains_key(id)
                    &&& *n == old(self).nodes@[id]
                    &&& final(self).nodes@ == old(self).nodes@.insert(id, *final(n))
                },
                Err(e) => {
                    &&& !old(self).nodes@.contains_key(id)
                    &&& e == Error::NoNode(id)
                    &&& final(self).nodes@ == old(self).nodes@
                },
            },
    {
        match node_mut(&mut self.nodes, id) {
            Some(n) => Ok(n),
            None => Err(Error::NoNode(id)),
        }
    }

    /// The identifiers of the nodes of this kind, in ascending order.
    pub fn ids_of_kind(&self, kind: NodeKind) -> (ids: Vec<ID>)
        ensures
            ids@ == kind_ids(self.nodes@, kind),
    {
        let mut ids: Vec<ID> = Vec::new();
        let mut next: u32 = 0;
        while next <= 0xffff
            invariant
                next <= 0x10000,
                ids@ == kind_ids_below(self.nodes@, kind, next as nat),
            decreases 0x10000 - next,
        {
            let id = next as ID;
            let hit = match self.nodes.get(&id) {
                Some(n) => n.kind() == kind,
                None => false,
            };
            assert(hit == holds_kind(self.nodes@, id, kind));
            if hit {
                ids.push(id);
            }
            next += 1;
        }
        ids
    }


    /// The `AirAirline` under `id`. Fails with `NoNode` where there is no node
    /// under `id`, and with `IncorrectType` where the node is of another
    /// kind.
    pub fn get_air_airline(&self, id: ID) -> (r: Result<&AirAirline, Error>)
        ensures
            r is Ok <==> holds_kind(self.nodes@, id, NodeKind::AirAirline),
            match r {
                Ok(n) => self.nodes@[id] == Node::AirAirline(*n),
                Err(e) => e == lookup_error(self.nodes@, id, NodeKind::AirAirline),
            },
    {
        match self.nodes.get(&id) {
            Some(Node::AirAirline(n)) => Ok(n),
            Some(_) => Err(Error::IncorrectType(id, NodeKind::AirAirline.name())),
            None => Err(Error::NoNode(id)),
        }
    }

    /// The `AirAirline` under `id`, open to change. Fails as `get_air_airline`
    /// does, and then changes nothing; otherwise nothing but that node
    /// changes.
    pub fn get_air_airline_mut(&mut self, id: ID) -> (r: Result<&mut AirAirline, Error>)
        ensures
            final(self).timestamp == old(self).timestamp,
            final(self).version == old(self).version,
            r is Ok <==> holds_kind(old(self).nodes@, id, NodeKind::AirAirline),
            match r {
                Ok(n) => {
                    &&& old(self).nodes@[id] == Node::AirAirline(*n)
                    &&& final(self).nodes@ == old(self).nodes@.insert(
                        id,
                        Node::AirAirline(*final(n)),
                    )
                },
                Err(e) => {
                    &&& e == lookup_error(old(self).nodes@, id, NodeKind::AirAirline)
                    &&& final(self).nodes@ == old(self).nodes@
                },
            },
    {
        match node_mut(&mut self.nodes, id) {
            Some(node) => match node {
                Node::AirAirline(n) => Ok(n),
                _ => {
                    assert(old(self).nodes@.insert(id, old(self).nodes@[id]) =~= old(self).nodes@);
                    Err(Error::IncorrectType(id, NodeKind::AirAirline.name()))
                },
            },
            None => Err(Error::NoNode(id)),
        }
    }

    /// Every `AirAirline` of the graph, by ascending identifier.
    pub fn air_airlines(&self) -> (list: Vec<&AirAirline>)
        ensures
            list.len() == kind_ids(self.nodes@, NodeKind::AirAirline).len(),
            forall|k: int|
                0 <= k < list.len() ==> self.nodes@[kind_ids(self.nodes@, NodeKind::AirAirline)[k]]
                    == Node::AirAirline(*#[trigger] list[k]),
    {
        let ids = self.ids_of_kind(NodeKind::AirAirline);
        proof {
            lemma_kind_ids_below(self.nodes@, NodeKind::AirAirline, 0x10000);
        }
        let mut list: Vec<&AirAirline> = Vec::new();
        let mut k: usize = 0;
        while k < ids.len()
            invariant
                k <= ids.len(),
                list.len() == k,
                ids@ == kind_ids(self.nodes@, NodeKind::AirAirline),
                forall|j: int|
                    0 <= j < ids.len() ==> holds_kind(
                        self.nodes@,
                        #[trigger] ids[j],
                        NodeKind::AirAirline,
                    ),
                forall|j: int|
                    0 <= j < k ==> self.nodes@[ids[j]] == Node::AirAirline(*#[trigger] list[j]),
            decreases ids.len() - k,
        {
            match self.nodes.get(&ids[k]) {
                Some(Node::AirAirline(n)) => {
                    list.push(n);
                },
                _ => {
                    assert(false);
                },
            }
            k += 1;
        }
        list
    }

    /// The `AirAirport` under `id`. Fails with `NoNode` where there is no node
    /// under `id`, and with `IncorrectType` where the node is of another
    /// kind.
    pub fn get_air_airport(&self, id: ID) -> (r: Result<&AirAirport, Error>)
        ensures
            r is Ok <==> holds_kind(self.nodes@, id, NodeKind::AirAirport),
            match r {
                Ok(n) => self.nodes@[id] == Node::AirAirport(*n),
                Err(e) => e == lookup_error(self.nodes@, id, NodeKind::AirAirport),
            },
    {
        match self.nodes.get(&id) {
            Some(Node::AirAirport(n)) => Ok(n),
            Some(_) => Err(Error::IncorrectType(id, NodeKind::AirAirport.name())),
            None => Err(Error::NoNode(id)),
        }
    }

    /// The `AirAirport` under `id`, open to change. Fails as `get_air_airport`
    /// does, and then changes nothing; otherwise nothing but that node
    /// changes.
    pub fn get_air_airport_mut(&mut self, id: ID) -> (r: Result<&mut AirAirport, Error>)
        ensures
            final(self).timestamp == old(self).timestamp,
            final(self).version == old(self).version,
            r is Ok <==> holds_kind(old(self).nodes@, id, NodeKind::AirAirport),
            match r {
                Ok(n) => {
                    &&& old(self).nodes@[id] == Node::AirAirport(*n)
                    &&& final(self).nodes@ == old(self).nodes@.insert(
                        id,
                        Node::AirAirport(*final(n)),
                    )
                },
                Err(e) => {
                    &&& e == lookup_error(old(self).nodes@, id, NodeKind::AirAirport)
                    &&& final(self).nodes@ == old(self).nodes@
                },
            },
    {
        match node_mut(&mut self.nodes, id) {
            Some(node) => match node {
                Node::AirAirport(n) => Ok(n),
                _ => {
                    assert(old(self).nodes@.insert(id, old(self).nodes@[id]) =~= old(self).nodes@);
                    Err(Error::IncorrectType(id, NodeKind::AirAirport.name()))
                },
            },
            None => Err(Error::NoNode(id)),
        }
    }

    /// Every `AirAirport` of the graph, by ascending identifier.
    pub fn air_airports(&self) -> (list: Vec<&AirAirport>)
        ensures
            list.len() == kind_ids(self.nodes@, NodeKind::AirAirport).len(),
            forall|k: int|
                0 <= k < list.len() ==> self.nodes@[kind_ids(self.nodes@, NodeKind::AirAirport)[k]]
                    == Node::AirAirport(*#[trigger] list[k]),
    {
        let ids = self.ids_of_kind(NodeKind::AirAirport);
        proof {
            lemma_kind_ids_below(self.nodes@, NodeKind::AirAirport, 0x10000);
        }
        let mut list: Vec<&AirAirport> = Vec::new();
        let mut k: usize = 0;
        while k < ids.len()
            invariant
                k <= ids.len(),
                list.len() == k,
                ids@ == kind_ids(self.nodes@, NodeKind::AirAirport),
                forall|j: int|
                    0 <= j < ids.len() ==> holds_kind(
                        self.nodes@,
                        #[trigger] ids[j],
                        NodeKind::AirAirport,
                    ),
                forall|j: int|
                    0 <= j < k ==> self.nodes@[ids[j]] == Node::AirAirport(*#[trigger] list[j]),
            decreases ids.len() - k,
        {
            match self.nodes.get(&ids[k]) {
                Some(Node::AirAirport(n)) => {
                    list.push(n);
                },
                _ => {
                    assert(false);
                },
            }
            k += 1;
        }
        list
    }

    /// The `AirFlight` under `id`. Fails with `NoNode` where there is no node
    /// under `id`, and with `IncorrectType` where the node is of another
    /// kind.
    pub fn get_air_flight(&self, id: ID) -> (r: Result<&AirFlight, Error>)
        ensures
            r is Ok <==> holds_kind(self.nodes@, id, NodeKind::AirFlight),
            match r {
                Ok(n) => self.nodes@[id] == Node::AirFlight(*n),
                Err(e) => e == lookup_error(self.nodes@, id, NodeKind::AirFlight),
            },
    {
        match self.nodes.get(&id) {
            Some(Node::AirFlight(n)) => Ok(n),
            Some(_) => Err(Error::IncorrectType(id, NodeKind::AirFlight.name())),
            None => Err(Error::NoNode(id)),
        }
    }

    /// The `AirFlight` under `id`, open to change. Fails as `get_air_flight`
    /// does, and then changes nothing; otherwise nothing but that node
    /// changes.
    pub fn get_air_flight_mut(&mut self, id: ID) -> (r: Result<&mut AirFlight, Error>)
        ensures
            final(self).timestamp == old(self).timestamp,
            final(self).version == old(self).version,
            r is Ok <==> holds_kind(old(self).nodes@, id, NodeKind::AirFlight),
            match r {
                Ok(n) => {
                    &&& old(self).nodes@[id] == Node::AirFlight(*n)
                    &&& final(self).nodes@ == old(self).nodes@.insert(
                        id,
                        Node::AirFlight(*final(n)),
                    )
                },
                Err(e) => {
                    &&& e == lookup_error(old(self).nodes@, id, NodeKind::AirFlight)
                    &&& final(self).nodes@ == old(self).nodes@
                },
            },
    {
        match node_mut(&mut self.nodes, id) {
            Some(node) => match node {
                Node::AirFlight(n) => Ok(n),
                _ => {
                    assert(old(self).nodes@.insert(id, old(self).nodes@[id]) =~= old(self).nodes@);
                    Err(Error::IncorrectType(id, NodeKind::AirFlight.name()))
                },
            },
            None => Err(Error::NoNode(id)),
        }
    }

    /// Every `AirFlight` of the graph, by ascending identifier.
    pub fn air_flights(&self) -> (list: Vec<&AirFlight>)
        ensures
            list.len() == kind_ids(self.nodes@, NodeKind::AirFlight).len(),
            forall|k: int|
                0 <= k < list.len() ==> self.nodes@[kind_ids(self.nodes@, NodeKind::AirFlight)[k]]
                    == Node::AirFlight(*#[trigger] list[k]),
    {
        let ids = self.ids_of_kind(NodeKind::AirFlight);
        proof {
            lemma_kind_ids_below(self.nodes@, NodeKind::AirFlight, 0x10000);
        }
        let mut list: Vec<&AirFlight> = Vec::new();
        let mut k: usize = 0;
        while k < ids.len()
            invariant
                k <= ids.len(),
                list.len() == k,
                ids@ == kind_ids(self.nodes@, NodeKind::AirFlight),
                forall|j: int|
                    0 <= j < ids.len() ==> holds_kind(
                        self.nodes@,
                        #[trigger] ids[j],
                        NodeKind::AirFlight,
                    ),
                forall|j: int|
                    0 <= j < k ==> self.nodes@[ids[j]] == Node::AirFlight(*#[trigger] list[j]),
            decreases ids.len() - k,
        {
            match self.nodes.get(&ids[k]) {
                Some(Node::AirFlight(n)) => {
                    list.push(n);
                },
                _ => {
                    assert(false);
                },
            }
            k += 1;
        }
        list
    }

    /// The `AirGate` under `id`. Fails with `NoNode` where there is no node
    /// under `id`, and with `IncorrectType` where the node is of another
    /// kind.
    pub fn get_air_gate(&self, id: ID) -> (r: Result<&AirGate, Error>)
        ensures
            r is Ok <==> holds_kind(self.nodes@, id, NodeKind::AirGate),
            match r {
                Ok(n) => self.nodes@[id] == Node::AirGate(*n),
                Err(e) => e == lookup_error(self.nodes@, id, NodeKind::AirGate),
            },
    {
        match self.nodes.get(&id) {
            Some(Node::AirGate(n)) => Ok(n),
            Some(_) => Err(Error::IncorrectType(id, NodeKind::AirGate.name())),
            None => Err(Error::NoNode(id)),
        }
    }

    /// The `AirGate` under `id`, open to change. Fails as `get_air_gate`
    /// does, and then changes nothing; otherwise nothing but that node
    /// changes.
    pub fn get_air_gate_mut(&mut self, id: ID) -> (r: Result<&mut AirGate, Error>)
        ensures
            final(self).timestamp == old(self).timestamp,
            final(self).version == old(self).version,
            r is Ok <==> holds_kind(old(self).nodes@, id, NodeKind::AirGate),
            match r {
                Ok(n) => {
                    &&& old(self).nodes@[id] == Node::AirGate(*n)
                    &&& final(self).nodes@ == old(self).nodes@.insert(
                        id,
                        Node::AirGate(*final(n)),
                    )
                },
                Err(e) => {
                    &&& e == lookup_error(old(self).nodes@, id, NodeKind::AirGate)
                    &&& final(self).nodes@ == old(self).nodes@
                },
            },
    {
        match node_mut(&mut self.nodes, id) {
            Some(node) => match node {
                Node::AirGate(n) => Ok(n),
                _ => {
                    assert(old(self).nodes@.insert(id, old(self).nodes@[id]) =~= old(self).nodes@);
                    Err(Error::IncorrectType(id, NodeKind::AirGate.name()))
                },
            },
            None => Err(Error::NoNode(id)),
        }
    }

    /// Every `AirGate` of the graph, by ascending identifier.
    pub fn air_gates(&self) -> (list: Vec<&AirGate>)
        ensures
            list.len() == kind_ids(self.nodes@, NodeKind::AirGate).len(),
            forall|k: int|
                0 <= k < list.len() ==> self.nodes@[kind_ids(self.nodes@, NodeKind::AirGate)[k]]
                    == Node::AirGate(*#[trigger] list[k]),
    {
        let ids = self.ids_of_kind(NodeKind::AirGate);
        proof {
            lemma_kind_ids_below(self.nodes@, NodeKind::AirGate, 0x10000);
        }
        let mut list: Vec<&AirGate> = Vec::new();
        let mut k: usize = 0;
        while k < ids.len()
            invariant
                k <= ids.len(),
                list.len() == k,
                ids@ == kind_ids(self.nodes@, NodeKind::AirGate),
                forall|j: int|
                    0 <= j < ids.len() ==> holds_kind(
                        self.nodes@,
                        #[trigger] ids[j],
                        NodeKind::AirGate,
                    ),
                forall|j: int|
                    0 <= j < k ==> self.nodes@[ids[j]] == Node::AirGate(*#[trigger] list[j]),
            decreases ids.len() - k,
        {
            match self.nodes.get(&ids[k]) {
                Some(Node::AirGate(n)) => {
                    list.push(n);
                },
                _ => {
                    assert(false);
                },
            }
            k += 1;
        }
        list
    }

    /// The `BusCompany` under `id`. Fails with `NoNode` where there is no node
    /// under `id`, and with `IncorrectType` where the node is of another
    /// kind.
    pub fn get_bus_company(&self, id: ID) -> (r: Result<&BusCompany, Error>)
        ensures
            r is Ok <==> holds_kind(self.nodes@, id, NodeKind::BusCompany),
            match r {
                Ok(n) => self.nodes@[id] == Node::BusCompany(*n),
                Err(e) => e == lookup_error(self.nodes@, id, NodeKind::BusCompany),
            },
    {
        match self.nodes.get(&id) {
            Some(Node::BusCompany(n)) => Ok(n),
            Some(_) => Err(Error::IncorrectType(id, NodeKind::BusCompany.name())),
            None => Err(Error::NoNode(id)),
        }
    }

    /// The `BusCompany` under `id`, open to change. Fails as `get_bus_company`
    /// does, and then changes nothing; otherwise nothing but that node
    /// changes.
    pub fn get_bus_company_mut(&mut self, id: ID) -> (r: Result<&mut BusCompany, Error>)
        ensures
            final(self).timestamp == old(self).timestamp,
            final(self).version == old(self).version,
            r is Ok <==> holds_kind(old(self).nodes@, id, NodeKind::BusCompany),
            match r {
                Ok(n) => {
                    &&& old(self).nodes@[id] == Node::BusCompany(*n)
                    &&& final(self).nodes@ == old(self).nodes@.insert(
                        id,
                        Node::BusCompany(*final(n)),
                    )
                },
                Err(e) => {
                    &&& e == lookup_error(old(self).nodes@, id, NodeKind::BusCompany)
                    &&& final(self).nodes@ == old(self).nodes@
                },
            },
    {
        match node_mut(&mut self.nodes, id) {
            Some(node) => match node {
                Node::BusCompany(n) => Ok(n),
                _ => {
                    assert(old(self).nodes@.insert(id, old(self).nodes@[id]) =~= old(self).nodes@);
                    Err(Error::IncorrectType(id, NodeKind::BusCompany.name()))
                },
            },
            None => Err(Error::NoNode(id)),
        }
    }

    /// Every `BusCompany` of the graph, by ascending identifier.
    pub fn bus_companies(&self) -> (list: Vec<&BusCompany>)
        ensures
            list.len() == kind_ids(self.nodes@, NodeKind::BusCompany).len(),
            forall|k: int|
                0 <= k < list.len() ==> self.nodes@[kind_ids(self.nodes@, NodeKind::BusCompany)[k]]
                    == Node::BusCompany(*#[trigger] list[k]),
    {
        let ids = self.ids_of_kind(NodeKind::BusCompany);
        proof {
            lemma_kind_ids_below(self.nodes@, NodeKind::BusCompany, 0x10000);
        }
        let mut list: Vec<&BusCompany> = Vec::new();
        let mut k: usize = 0;
        while k < ids.len()
            invariant
                k <= ids.len(),
                list.len() == k,
                ids@ == kind_ids(self.nodes@, NodeKind::BusCompany),
                forall|j: int|
                    0 <= j < ids.len() ==> holds_kind(
                        self.nodes@,
                        #[trigger] ids[j],
                        NodeKind::BusCompany,
                    ),
                forall|j: int|
                    0 <= j < k ==> self.nodes@[ids[j]] == Node::BusCompany(*#[trigger] list[j]),
            decreases ids.len() - k,
        {
            match self.nodes.get(&ids[k]) {
                Some(Node::BusCompany(n)) => {
                    list.push(n);
                },
                _ => {
                    assert(false);
                },
            }
            k += 1;
        }
        list
    }

    /// The `BusLine` under `id`. Fails with `NoNode` where there is no node
    /// under `id`, and with `IncorrectType` where the node is of another
    /// kind.
    pub fn get_bus_line(&self, id: ID) -> (r: Result<&BusLine, Error>)
        ensures
            r is Ok <==> holds_kind(self.nodes@, id, NodeKind::BusLine),
            match r {
                Ok(n) => self.nodes@[id] == Node::BusLine(*n),
                Err(e) => e == lookup_error(self.nodes@, id, NodeKind::BusLine),
            },
    {
        match self.nodes.get(&id) {
            Some(Node::BusLine(n)) => Ok(n),
            Some(_) => Err(Error::IncorrectType(id, NodeKind::BusLine.name())),
            None => Err(Error::NoNode(id)),
        }
    }

    /// The `BusLine` under `id`, open to change. Fails as `get_bus_line`
    /// does, and then changes nothing; otherwise nothing but that node
    /// changes.
    pub fn get_bus_line_mut(&mut self, id: ID) -> (r: Result<&mut BusLine, Error>)
        ensures
            final(self).timestamp == old(self).timestamp,
            final(self).version == old(self).version,
            r is Ok <==> holds_kind(old(self).nodes@, id, NodeKind::BusLine),
            match r {
                Ok(n) => {
                    &&& old(self).nodes@[id] == Node::BusLine(*n)
                    &&& final(self).nodes@ == old(self).nodes@.insert(
                        id,
                        Node::BusLine(*final(n)),
                    )
                },
                Err(e) => {
                    &&& e == lookup_error(old(self).nodes@, id, NodeKind::BusLine)
                    &&& final(self).nodes@ == old(self).nodes@
                },
            },
    {
        match node_mut(&mut self.nodes, id) {
            Some(node) => match node {
                Node::BusLine(n) => Ok(n),
                _ => {
                    assert(old(self).nodes@.insert(id, old(self).nodes@[id]) =~= old(self).nodes@);
                    Err(Error::IncorrectType(id, NodeKind::BusLine.name()))
                },
            },
            None => Err(Error::NoNode(id)),
        }
    }

    /// Every `BusLine` of the graph, by ascending identifier.
    pub fn bus_lines(&self) -> (list: Vec<&BusLine>)
        ensures
            list.len() == kind_ids(self.nodes@, NodeKind::BusLine).len(),
            forall|k: int|
                0 <= k < list.len() ==> self.nodes@[kind_ids(self.nodes@, NodeKind::BusLine)[k]]
                    == Node::BusLine(*#[trigger] list[k]),
    {
        let ids = self.ids_of_kind(NodeKind::BusLine);
        proof {
            lemma_kind_ids_below(self.nodes@, NodeKind::BusLine, 0x10000);
        }
        let mut list: Vec<&BusLine> = Vec::new();
        let mut k: usize = 0;
        while k < ids.len()
            invariant
                k <= ids.len(),
                list.len() == k,
                ids@ == kind_ids(self.nodes@, NodeKind::BusLine),
                forall|j: int|
                    0 <= j < ids.len() ==> holds_kind(
                        self.nodes@,
                        #[trigger] ids[j],
                        NodeKind::BusLine,
                    ),
                forall|j: int|
                    0 <= j < k ==> self.nodes@[ids[j]] == Node::BusLine(*#[trigger] list[j]),
            decreases ids.len() - k,
        {
            match self.nodes.get(&ids[k]) {
                Some(Node::BusLine(n)) => {
                    list.push(n);
                },
                _ => {
                    assert(false);
                },
            }
            k += 1;
        }
        list
    }

    /// The `BusStop` under `id`. Fails with `NoNode` where there is no node
    /// under `id`, and with `IncorrectType` where the node is of another
    /// kind.
    pub fn get_bus_stop(&self, id: ID) -> (r: Result<&BusStop, Error>)
        ensures
            r is Ok <==> holds_kind(self.nodes@, id, NodeKind::BusStop),
            match r {
                Ok(n) => self.nodes@[id] == Node::BusStop(*n),
                Err(e) => e == lookup_error(self.nodes@, id, NodeKind::BusStop),
            },
    {
        match self.nodes.get(&id) {
            Some(Node::BusStop(n)) => Ok(n),
            Some(_) => Err(Error::IncorrectType(id, NodeKind::BusStop.name())),
            None => Err(Error::NoNode(id)),
        }
    }

    /// The `BusStop` under `id`, open to change. Fails as `get_bus_stop`
    /// does, and then changes nothing; otherwise nothing but that node
    /// changes.
    pub fn get_bus_stop_mut(&mut self, id: ID) -> (r: Result<&mut BusStop, Error>)
        ensures
            final(self).timestamp == old(self).timestamp,
            final(self).version == old(self).version,
            r is Ok <==> holds_kind(old(self).nodes@, id, NodeKind::BusStop),
            match r {
                Ok(n) => {
                    &&& old(self).nodes@[id] == Node::BusStop(*n)
                    &&& final(self).nodes@ == old(self).nodes@.insert(
                        id,
                        Node::BusStop(*final(n)),
                    )
                },
                Err(e) => {
                    &&& e == lookup_error(old(self).nodes@, id, NodeKind::BusStop)
                    &&& final(self).nodes@ == old(self).nodes@
                },
            },
    {
        match node_mut(&mut self.nodes, id) {
            Some(node) => match node {
                Node::BusStop(n) => Ok(n),
                _ => {
                    assert(old(self).nodes@.insert(id, old(self).nodes@[id]) =~= old(self).nodes@);
                    Err(Error::IncorrectType(id, NodeKind::BusStop.name()))
                },
            },
            None => Err(Error::NoNode(id)),
        }
    }

    /// Every `BusStop` of the graph, by ascending identifier.
    pub fn bus_stops(&self) -> (list: Vec<&BusStop>)
        ensures
            list.len() == kind_ids(self.nodes@, NodeKind::BusStop).len(),
            forall|k: int|
                0 <= k < list.len() ==> self.nodes@[kind_ids(self.nodes@, NodeKind::BusStop)[k]]
                    == Node::BusStop(*#[trigger] list[k]),
    {
        let ids = self.ids_of_kind(NodeKind::BusStop);
        proof {
            lemma_kind_ids_below(self.nodes@, NodeKind::BusStop, 0x10000);
        }
        let mut list: Vec<&BusStop> = Vec::new();
        let mut k: usize = 0;
        while k < ids.len()
            invariant
                k <= ids.len(),
                list.len() == k,
                ids@ == kind_ids(self.nodes@, NodeKind::BusStop),
                forall|j: int|
                    0 <= j < ids.len() ==> holds_kind(
                        self.nodes@,
                        #[trigger] ids[j],
                        NodeKind::BusStop,
                    ),
                forall|j: int|
                    0 <= j < k ==> self.nodes@[ids[j]] == Node::BusStop(*#[trigger] list[j]),
            decreases ids.len() - k,
        {
            match self.nodes.get(&ids[k]) {
                Some(Node::BusStop(n)) => {
                    list.push(n);
                },
                _ => {
                    assert(false);
                },
            }
            k += 1;
        }
        list
    }

    /// The `SeaCompany` under `id`. Fails with `NoNode` where there is no node
    /// under `id`, and with `IncorrectType` where the node is of another
    /// kind.
    pub fn get_sea_company(&self, id: ID) -> (r: Result<&SeaCompany, Error>)
        ensures
            r is Ok <==> holds_kind(self.nodes@, id, NodeKind::SeaCompany),
            match r {
                Ok(n) => self.nodes@[id] == Node::SeaCompany(*n),
                Err(e) => e == lookup_error(self.nodes@, id, NodeKind::SeaCompany),
            },
    {
        match self.nodes.get(&id) {
            Some(Node::SeaCompany(n)) => Ok(n),
            Some(_) => Err(Error::IncorrectType(id, NodeKind::SeaCompany.name())),
            None => Err(Error::NoNode(id)),
        }
    }

    /// The `SeaCompany` under `id`, open to change. Fails as `get_sea_company`
    /// does, and then changes nothing; otherwise nothing but that node
    /// changes.
    pub fn get_sea_company_mut(&mut self, id: ID) -> (r: Result<&mut SeaCompany, Error>)
        ensures
            final(self).timestamp == old(self).timestamp,
            final(self).version == old(self).version,
            r is Ok <==> holds_kind(old(self).nodes@, id, NodeKind::SeaCompany),
            match r {
                Ok(n) => {
                    &&& old(self).nodes@[id] == Node::SeaCompany(*n)
                    &&& final(self).nodes@ == old(self).nodes@.insert(
                        id,
                        Node::SeaCompany(*final(n)),
                    )
                },
                Err(e) => {
                    &&& e == lookup_error(old(self).nodes@, id, NodeKind::SeaCompany)
                    &&& final(self).nodes@ == old(self).nodes@
                },
            },
    {
        match node_mut(&mut self.nodes, id) {
            Some(node) => match node {
                Node::SeaCompany(n) => Ok(n),
                _ => {
                    assert(old(self).nodes@.insert(id, old(self).nodes@[id]) =~= old(self).nodes@);
                    Err(Error::IncorrectType(id, NodeKind::SeaCompany.name()))
                },
            },
            None => Err(Error::NoNode(id)),
        }
    }

    /// Every `SeaCompany` of the graph, by ascending identifier.
    pub fn sea_companies(&self) -> (list: Vec<&SeaCompany>)
        ensures
            list.len() == kind_ids(self.nodes@, NodeKind::SeaCompany).len(),
            forall|k: int|
                0 <= k < list.len() ==> self.nodes@[kind_ids(self.nodes@, NodeKind::SeaCompany)[k]]
                    == Node::SeaCompany(*#[trigger] list[k]),
    {
        let ids = self.ids_of_kind(NodeKind::SeaCompany);
        proof {
            lemma_kind_ids_below(self.nodes@, NodeKind::SeaCompany, 0x10000);
        }
        let mut list: Vec<&SeaCompany> = Vec::new();
        let mut k: usize = 0;
        while k < ids.len()
            invariant
                k <= ids.len(),
                list.len() == k,
                ids@ == kind_ids(self.nodes@, NodeKind::SeaCompany),
                forall|j: int|
                    0 <= j < ids.len() ==> holds_kind(
                        self.nodes@,
                        #[trigger] ids[j],
                        NodeKind::SeaCompany,
                    ),
                forall|j: int|
                    0 <= j < k ==> self.nodes@[ids[j]] == Node::SeaCompany(*#[trigger] list[j]),
            decreases ids.len() - k,
        {
            match self.nodes.get(&ids[k]) {
                Some(Node::SeaCompany(n)) => {
                    list.push(n);
                },
                _ => {
                    assert(false);
                },
            }
            k += 1;
        }
        list
    }

    /// The `SeaLine` under `id`. Fails with `NoNode` where there is no node
    /// under `id`, and with `IncorrectType` where the node is of another
    /// kind.
    pub fn get_sea_line(&self, id: ID) -> (r: Result<&SeaLine, Error>)
        ensures
            r is Ok <==> holds_kind(self.nodes@, id, NodeKind::SeaLine),
            match r {
                Ok(n) => self.nodes@[id] == Node::SeaLine(*n),
                Err(e) => e == lookup_error(self.nodes@, id, NodeKind::SeaLine),
            },
    {
        match self.nodes.get(&id) {
            Some(Node::SeaLine(n)) => Ok(n),
            Some(_) => Err(Error::IncorrectType(id, NodeKind::SeaLine.name())),
            None => Err(Error::NoNode(id)),
        }
    }

    /// The `SeaLine` under `id`, open to change. Fails as `get_sea_line`
    /// does, and then changes nothing; otherwise nothing but that node
    /// changes.
    pub fn get_sea_line_mut(&mut self, id: ID) -> (r: Result<&mut SeaLine, Error>)
        ensures
            final(self).timestamp == old(self).timestamp,
            final(self).version == old(self).version,
            r is Ok <==> holds_kind(old(self).nodes@, id, NodeKind::SeaLine),
            match r {
                Ok(n) => {
                    &&& old(self).nodes@[id] == Node::SeaLine(*n)
                    &&& final(self).nodes@ == old(self).nodes@.insert(
                        id,
                        Node::SeaLine(*final(n)),
                    )
                },
                Err(e) => {
                    &&& e == lookup_error(old(self).nodes@, id, NodeKind::SeaLine)
                    &&& final(self).nodes@ == old(self).nodes@
                },
            },
    {
        match node_mut(&mut self.nodes, id) {
            Some(node) => match node {
                Node::SeaLine(n) => Ok(n),
                _ => {
                    assert(old(self).nodes@.insert(id, old(self).nodes@[id]) =~= old(self).nodes@);
                    Err(Error::IncorrectType(id, NodeKind::SeaLine.name()))
                },
            },
            None => Err(Error::NoNode(id)),
        }
    }

    /// Every `SeaLine` of the graph, by ascending identifier.
    pub fn sea_lines(&self) -> (list: Vec<&SeaLine>)
        ensures
            list.len() == kind_ids(self.nodes@, NodeKind::SeaLine).len(),
            forall|k: int|
                0 <= k < list.len() ==> self.nodes@[kind_ids(self.nodes@, NodeKind::SeaLine)[k]]
                    == Node::SeaLine(*#[trigger] list[k]),
    {
        let ids = self.ids_of_kind(NodeKind::SeaLine);
        proof {
            lemma_kind_ids_below(self.nodes@, NodeKind::SeaLine, 0x10000);
        }
        let mut list: Vec<&SeaLine> = Vec::new();
        let mut k: usize = 0;
        while k < ids.len()
            invariant
                k <= ids.len(),
                list.len() == k,
                ids@ == kind_ids(self.nodes@, NodeKind::SeaLine),
                forall|j: int|
                    0 <= j < ids.len() ==> holds_kind(
                        self.nodes@,
                        #[trigger] ids[j],
                        NodeKind::SeaLine,
                    ),
                forall|j: int|
                    0 <= j < k ==> self.nodes@[ids[j]] == Node::SeaLine(*#[trigger] list[j]),
            decreases ids.len() - k,
        {
            match self.nodes.get(&ids[k]) {
                Some(Node::SeaLine(n)) => {
                    list.push(n);
                },
                _ => {
                    assert(false);
                },
            }
            k += 1;
        }
        list
    }

    /// The `SeaStop` under `id`. Fails with `NoNode` where there is no node
    /// under `id`, and with `IncorrectType` where the node is of another
    /// kind.
    pub fn get_sea_stop(&self, id: ID) -> (r: Result<&SeaStop, Error>)
        ensures
            r is Ok <==> holds_kind(self.nodes@, id, NodeKind::SeaStop),
            match r {
                Ok(n) => self.nodes@[id] == Node::SeaStop(*n),
                Err(e) => e == lookup_error(self.nodes@, id, NodeKind::SeaStop),
            },
    {
        match self.nodes.get(&id) {
            Some(Node::SeaStop(n)) => Ok(n),
            Some(_) => Err(Error::IncorrectType(id, NodeKind::SeaStop.name())),
            None => Err(Error::NoNode(id)),
        }
    }

    /// The `SeaStop` under `id`, open to change. Fails as `get_sea_stop`
    /// does, and then changes nothing; otherwise nothing but that node
    /// changes.
    pub fn get_sea_stop_mut(&mut self, id: ID) -> (r: Result<&mut SeaStop, Error>)
        ensures
            final(self).timestamp == old(self).timestamp,
            final(self).version == old(self).version,
            r is Ok <==> holds_kind(old(self).nodes@, id, NodeKind::SeaStop),
            match r {
                Ok(n) => {
                    &&& old(self).nodes@[id] == Node::SeaStop(*n)
                    &&& final(self).nodes@ == old(self).nodes@.insert(
                        id,
                        Node::SeaStop(*final(n)),
                    )
                },
                Err(e) => {
                    &&& e == lookup_error(old(self).nodes@, id, NodeKind::SeaStop)
                    &&& final(self).nodes@ == old(self).nodes@
                },
            },
    {
        match node_mut(&mut self.nodes, id) {
            Some(node) => match node {
                Node::SeaStop(n) => Ok(n),
                _ => {
                    assert(old(self).nodes@.insert(id, old(self).nodes@[id]) =~= old(self).nodes@);
                    Err(Error::IncorrectType(id, NodeKind::SeaStop.name()))
                },
            },
            None => Err(Error::NoNode(id)),
        }
    }

    /// Every `SeaStop` of the graph, by ascending identifier.
    pub fn sea_stops(&self) -> (list: Vec<&SeaStop>)
        ensures
            list.len() == kind_ids(self.nodes@, NodeKind::SeaStop).len(),
            forall|k: int|
                0 <= k < list.len() ==> self.nodes@[kind_ids(self.nodes@, NodeKind::SeaStop)[k]]
                    == Node::SeaStop(*#[trigger] list[k]),
    {
        let ids = self.ids_of_kind(NodeKind::SeaStop);
        proof {
            lemma_kind_ids_below(self.nodes@, NodeKind::SeaStop, 0x10000);
        }
        let mut list: Vec<&SeaStop> = Vec::new();
        let mut k: usize = 0;
        while k < ids.len()
            invariant
                k <= ids.len(),
                list.len() == k,
                ids@ == kind_ids(self.nodes@, NodeKind::SeaStop),
                forall|j: int|
                    0 <= j < ids.len() ==> holds_kind(
                        self.nodes@,
                        #[trigger] ids[j],
                        NodeKind::SeaStop,
                    ),
                forall|j: int|
                    0 <= j < k ==> self.nodes@[ids[j]] == Node::SeaStop(*#[trigger] list[j]),
            decreases ids.len() - k,
        {
            match self.nodes.get(&ids[k]) {
                Some(Node::SeaStop(n)) => {
                    list.push(n);
                },
                _ => {
                    assert(false);
                },
            }
            k += 1;
        }
        list
    }

    /// The `RailCompany` under `id`. Fails with `NoNode` where there is no node
    /// under `id`, and with `IncorrectType` where the node is of another
    /// kind.
    pub fn get_rail_company(&self, id: ID) -> (r: Result<&RailCompany, Error>)
        ensures
            r is Ok <==> holds_kind(self.nodes@, id, NodeKind::RailCompany),
            match r {
                Ok(n) => self.nodes@[id] == Node::RailCompany(*n),
                Err(e) => e == lookup_error(self.nodes@, id, NodeKind::RailCompany),
            },
    {
        match self.nodes.get(&id) {
            Some(Node::RailCompany(n)) => Ok(n),
            Some(_) => Err(Error::IncorrectType(id, NodeKind::RailCompany.name())),
            None => Err(Error::NoNode(id)),
        }
    }

    /// The `RailCompany` under `id`, open to change. Fails as `get_rail_company`
    /// does, and then changes nothing; otherwise nothing but that node
    /// changes.
    pub fn get_rail_company_mut(&mut self, id: ID) -> (r: Result<&mut RailCompany, Error>)
        ensures
            final(self).timestamp == old(self).timestamp,
            final(self).version == old(self).version,
            r is Ok <==> holds_kind(old(self).nodes@, id, NodeKind::RailCompany),
            match r {
                Ok(n) => {
                    &&& old(self).nodes@[id] == Node::RailCompany(*n)
                    &&& final(self).nodes@ == old(self).nodes@.insert(
                        id,
                        Node::RailCompany(*final(n)),
                    )
                },
                Err(e) => {
                    &&& e == lookup_error(old(self).nodes@, id, NodeKind::RailCompany)
                    &&& final(self).nodes@ == old(self).nodes@
                },
            },
    {
        match node_mut(&mut self.nodes, id) {
            Some(node) => match node {
                Node::RailCompany(n) => Ok(n),
                _ => {
                    assert(old(self).nodes@.insert(id, old(self).nodes@[id]) =~= old(self).nodes@);
                    Err(Error::IncorrectType(id, NodeKind::RailCompany.name()))
                },
            },
            None => Err(Error::NoNode(id)),
        }
    }

    /// Every `RailCompany` of the graph, by ascending identifier.
    pub fn rail_companies(&self) -> (list: Vec<&RailCompany>)
        ensures
            list.len() == kind_ids(self.nodes@, NodeKind::RailCompany).len(),
            forall|k: int|
                0 <= k < list.len() ==> self.nodes@[kind_ids(self.nodes@, NodeKind::RailCompany)[k]]
                    == Node::RailCompany(*#[trigger] list[k]),
    {
        let ids = self.ids_of_kind(NodeKind::RailCompany);
        proof {
            lemma_kind_ids_below(self.nodes@, NodeKind::RailCompany, 0x10000);
        }
        let mut list: Vec<&RailCompany> = Vec::new();
        let mut k: usize = 0;
        while k < ids.len()
            invariant
                k <= ids.len(),
                list.len() == k,
                ids@ == kind_ids(self.nodes@, NodeKind::RailCompany),
                forall|j: int|
                    0 <= j < ids.len() ==> holds_kind(
                        self.nodes@,
                        #[trigger] ids[j],
                        NodeKind::RailCompany,
                    ),
                forall|j: int|
                    0 <= j < k ==> self.nodes@[ids[j]] == Node::RailCompany(*#[trigger] list[j]),
            decreases ids.len() - k,
        {
            match self.nodes.get(&ids[k]) {
                Some(Node::RailCompany(n)) => {
                    list.push(n);
                },
                _ => {
                    assert(false);
                },
            }
            k += 1;
        }
        list
    }

    /// The `RailLine` under `id`. Fails with `NoNode` where there is no node
    /// under `id`, and with `IncorrectType` where the node is of another
    /// kind.
    pub fn get_rail_line(&self, id: ID) -> (r: Result<&RailLine, Error>)
        ensures
            r is Ok <==> holds_kind(self.nodes@, id, NodeKind::RailLine),
            match r {
                Ok(n) => self.nodes@[id] == Node::RailLine(*n),
                Err(e) => e == lookup_error(self.nodes@, id, NodeKind::RailLine),
            },
    {
        match self.nodes.get(&id) {
            Some(Node::RailLine(n)) => Ok(n),
            Some(_) => Err(Error::IncorrectType(id, NodeKind::RailLine.name())),
            None => Err(Error::NoNode(id)),
        }
    }

    /// The `RailLine` under `id`, open to change. Fails as `get_rail_line`
    /// does, and then changes nothing; otherwise nothing but that node
    /// changes.
    pub fn get_rail_line_mut(&mut self, id: ID) -> (r: Result<&mut RailLine, Error>)
        ensures
            final(self).timestamp == old(self).timestamp,
            final(self).version == old(self).version,
            r is Ok <==> holds_kind(old(self).nodes@, id, NodeKind::RailLine),
            match r {
                Ok(n) => {
                    &&& old(self).nodes@[id] == Node::RailLine(*n)
                    &&& final(self).nodes@ == old(self).nodes@.insert(
                        id,
                        Node::RailLine(*final(n)),
                    )
                },
                Err(e) => {
                    &&& e == lookup_error(old(self).nodes@, id, NodeKind::RailLine)
                    &&& final(self).nodes@ == old(self).nodes@
                },
            },
    {
        match node_mut(&mut self.nodes, id) {
            Some(node) => match node {
                Node::RailLine(n) => Ok(n),
                _ => {
                    assert(old(self).nodes@.insert(id, old(self).nodes@[id]) =~= old(self).nodes@);
                    Err(Error::IncorrectType(id, NodeKind::RailLine.name()))
                },
            },
            None => Err(Error::NoNode(id)),
        }
    }

    /// Every `RailLine` of the graph, by ascending identifier.
    pub fn rail_lines(&self) -> (list: Vec<&RailLine>)
        ensures
            list.len() == kind_ids(self.nodes@, NodeKind::RailLine).len(),
            forall|k: int|
                0 <= k < list.len() ==> self.nodes@[kind_ids(self.nodes@, NodeKind::RailLine)[k]]
                    == Node::RailLine(*#[trigger] list[k]),
    {
        let ids = self.ids_of_kind(NodeKind::RailLine);
        proof {
            lemma_kind_ids_below(self.nodes@, NodeKind::RailLine, 0x10000);
        }
        let mut list: Vec<&RailLine> = Vec::new();
        let mut k: usize = 0;
        while k < ids.len()
            invariant
                k <= ids.len(),
                list.len() == k,
                ids@ == kind_ids(self.nodes@, NodeKind::RailLine),
                forall|j: int|
                    0 <= j < ids.len() ==> holds_kind(
                        self.nodes@,
                        #[trigger] ids[j],
                        NodeKind::RailLine,
                    ),
                forall|j: int|
                    0 <= j < k ==> self.nodes@[ids[j]] == Node::RailLine(*#[trigger] list[j]),
            decreases ids.len() - k,
        {
            match self.nodes.get(&ids[k]) {
                Some(Node::RailLine(n)) => {
                    list.push(n);
                },
                _ => {
                    assert(false);
                },
            }
            k += 1;
        }
        list
    }

    /// The `RailStation` under `id`. Fails with `NoNode` where there is no node
    /// under `id`, and with `IncorrectType` where the node is of another
    /// kind.
    pub fn get_rail_station(&self, id: ID) -> (r: Result<&RailStation, Error>)
        ensures
            r is Ok <==> holds_kind(self.nodes@, id, NodeKind::RailStation),
            match r {
                Ok(n) => self.nodes@[id] == Node::RailStation(*n),
                Err(e) => e == lookup_error(self.nodes@, id, NodeKind::RailStation),
            },
    {
        match self.nodes.get(&id) {
            Some(Node::RailStation(n)) => Ok(n),
            Some(_) => Err(Error::IncorrectType(id, NodeKind::RailStation.name())),
            None => Err(Error::NoNode(id)),
        }
    }

    /// The `RailStation` under `id`, open to change. Fails as `get_rail_station`
    /// does, and then changes nothing; otherwise nothing but that node
    /// changes.
    pub fn get_rail_station_mut(&mut self, id: ID) -> (r: Result<&mut RailStation, Error>)
        ensures
            final(self).timestamp == old(self).timestamp,
            final(self).version == old(self).version,
            r is Ok <==> holds_kind(old(self).nodes@, id, NodeKind::RailStation),
            match r {
                Ok(n) => {
                    &&& old(self).nodes@[id] == Node::RailStation(*n)
                    &&& final(self).nodes@ == old(self).nodes@.insert(
                        id,
                        Node::RailStation(*final(n)),
                    )
                },
                Err(e) => {
                    &&& e == lookup_error(old(self).nodes@, id, NodeKind::RailStation)
                    &&& final(self).nodes@ == old(self).nodes@
                },
            },
    {
        match node_mut(&mut self.nodes, id) {
            Some(node) => match node {
                Node::RailStation(n) => Ok(n),
                _ => {
                    assert(old(self).nodes@.insert(id, old(self).nodes@[id]) =~= old(self).nodes@);
                    Err(Error::IncorrectType(id, NodeKind::RailStation.name()))
                },
            },
            None => Err(Error::NoNode(id)),
        }
    }

    /// Every `RailStation` of the graph, by ascending identifier.
    pub fn rail_stations(&self) -> (list: Vec<&RailStation>)
        ensures
            list.len() == kind_ids(self.nodes@, NodeKind::RailStation).len(),
            forall|k: int|
                0 <= k < list.len() ==> self.nodes@[kind_ids(self.nodes@, NodeKind::RailStation)[k]]
                    == Node::RailStation(*#[trigger] list[k]),
    {
        let ids = self.ids_of_kind(NodeKind::RailStation);
        proof {
            lemma_kind_ids_below(self.nodes@, NodeKind::RailStation, 0x10000);
        }
        let mut list: Vec<&RailStation> = Vec::new();
        let mut k: usize = 0;
        while k < ids.len()
            invariant
                k <= ids.len(),
                list.len() == k,
                ids@ == kind_ids(self.nodes@, NodeKind::RailStation),
                forall|j: int|
                    0 <= j < ids.len() ==> holds_kind(
                        self.nodes@,
                        #[trigger] ids[j],
                        NodeKind::RailStation,
                    ),
                forall|j: int|
                    0 <= j < k ==> self.nodes@[ids[j]] == Node::RailStation(*#[trigger] list[j]),
            decreases ids.len() - k,
        {
            match self.nodes.get(&ids[k]) {
                Some(Node::RailStation(n)) => {
                    list.push(n);
                },
                _ => {
                    assert(false);
                },
            }
            k += 1;
        }
        list
    }

    /// The `SpawnWarp` under `id`. Fails with `NoNode` where there is no node
    /// under `id`, and with `IncorrectType` where the node is of another
    /// kind.
    pub fn get_spawn_warp(&self, id: ID) -> (r: Result<&SpawnWarp, Error>)
        ensures
            r is Ok <==> holds_kind(self.nodes@, id, NodeKind::SpawnWarp),
            match r {
                Ok(n) => self.nodes@[id] == Node::SpawnWarp(*n),
                Err(e) => e == lookup_error(self.nodes@, id, NodeKind::SpawnWarp),
            },
    {
        match self.nodes.get(&id) {
            Some(Node::SpawnWarp(n)) => Ok(n),
            Some(_) => Err(Error::IncorrectType(id, NodeKind::SpawnWarp.name())),
            None => Err(Error::NoNode(id)),
        }
    }

    /// The `SpawnWarp` under `id`, open to change. Fails as `get_spawn_warp`
    /// does, and then changes nothing; otherwise nothing but that node
    /// changes.
    pub fn get_spawn_warp_mut(&mut self, id: ID) -> (r: Result<&mut SpawnWarp, Error>)
        ensures
            final(self).timestamp == old(self).timestamp,
            final(self).version == old(self).version,
            r is Ok <==> holds_kind(old(self).nodes@, id, NodeKind::SpawnWarp),
            match r {
                Ok(n) => {
                    &&& old(self).nodes@[id] == Node::SpawnWarp(*n)
                    &&& final(self).nodes@ == old(self).nodes@.insert(
                        id,
                        Node::SpawnWarp(*final(n)),
                    )
                },
                Err(e) => {
                    &&& e == lookup_error(old(self).nodes@, id, NodeKind::SpawnWarp)
                    &&& final(self).nodes@ == old(self).nodes@
                },
            },
    {
        match node_mut(&mut self.nodes, id) {
            Some(node) => match node {
                Node::SpawnWarp(n) => Ok(n),
                _ => {
                    assert(old(self).nodes@.insert(id, old(self).nodes@[id]) =~= old(self).nodes@);
                    Err(Error::IncorrectType(id, NodeKind::SpawnWarp.name()))
                },
            },
            None => Err(Error::NoNode(id)),
        }
    }

    /// Every `SpawnWarp` of the graph, by ascending identifier.
    pub fn spawn_warps(&self) -> (list: Vec<&SpawnWarp>)
        ensures
            list.len() == kind_ids(self.nodes@, NodeKind::SpawnWarp).len(),
            forall|k: int|
                0 <= k < list.len() ==> self.nodes@[kind_ids(self.nodes@, NodeKind::SpawnWarp)[k]]
                    == Node::SpawnWarp(*#[trigger] list[k]),
    {
        let ids = self.ids_of_kind(NodeKind::SpawnWarp);
        proof {
            lemma_kind_ids_below(self.nodes@, NodeKind::SpawnWarp, 0x10000);
        }
        let mut list: Vec<&SpawnWarp> = Vec::new();
        let mut k: usize = 0;
        while k < ids.len()
            invariant
                k <= ids.len(),
                list.len() == k,
                ids@ == kind_ids(self.nodes@, NodeKind::SpawnWarp),
                forall|j: int|
                    0 <= j < ids.len() ==> holds_kind(
                        self.nodes@,
                        #[trigger] ids[j],
                        NodeKind::SpawnWarp,
                    ),
                forall|j: int|
                    0 <= j < k ==> self.nodes@[ids[j]] == Node::SpawnWarp(*#[trigger] list[j]),
            decreases ids.len() - k,
        {
            match self.nodes.get(&ids[k]) {
                Some(Node::SpawnWarp(n)) => {
                    list.push(n);
                },
                _ => {
                    assert(false);
                },
            }
            k += 1;
        }
        list
    }

    /// The `Town` under `id`. Fails with `NoNode` where there is no node
    /// under `id`, and with `IncorrectType` where the node is of another
    /// kind.
    pub fn get_town(&self, id: ID) -> (r: Result<&Town, Error>)
        ensures
            r is Ok <==> holds_kind(self.nodes@, id, NodeKind::Town),
            match r {
                Ok(n) => self.nodes@[id] == Node::Town(*n),
                Err(e) => e == lookup_error(self.nodes@, id, NodeKind::Town),
            },
    {
        match self.nodes.get(&id) {
            Some(Node::Town(n)) => Ok(n),
            Some(_) => Err(Error::IncorrectType(id, NodeKind::Town.name())),
            None => Err(Error::NoNode(id)),
        }
    }

    /// The `Town` under `id`, open to change. Fails as `get_town`
    /// does, and then changes nothing; otherwise nothing but that node
    /// changes.
    pub fn get_town_mut(&mut self, id: ID) -> (r: Result<&mut Town, Error>)
        ensures
            final(self).timestamp == old(self).timestamp,
            final(self).version == old(self).version,
            r is Ok <==> holds_kind(old(self).nodes@, id, NodeKind::Town),
            match r {
                Ok(n) => {
                    &&& old(self).nodes@[id] == Node::Town(*n)
                    &&& final(self).nodes@ == old(self).nodes@.insert(
                        id,
                        Node::Town(*final(n)),
                    )
                },
                Err(e) => {
                    &&& e == lookup_error(old(self).nodes@, id, NodeKind::Town)
                    &&& final(self).nodes@ == old(self).nodes@
                },
            },
    {
        match node_mut(&mut self.nodes, id) {
            Some(node) => match node {
                Node::Town(n) => Ok(n),
                _ => {
                    assert(old(self).nodes@.insert(id, old(self).nodes@[id]) =~= old(self).nodes@);
                    Err(Error::IncorrectType(id, NodeKind::Town.name()))
                },
            },
            None => Err(Error::NoNode(id)),
        }
    }

    /// Every `Town` of the graph, by ascending identifier.
    pub fn towns(&self) -> (list: Vec<&Town>)
        ensures
            list.len() == kind_ids(self.nodes@, NodeKind::Town).len(),
            forall|k: int|
                0 <= k < list.len() ==> self.nodes@[kind_ids(self.nodes@, NodeKind::Town)[k]]
                    == Node::Town(*#[trigger] list[k]),
    {
        let ids = self.ids_of_kind(NodeKind::Town);
        proof {
            lemma_kind_ids_below(self.nodes@, NodeKind::Town, 0x10000);
        }
        let mut list: Vec<&Town> = Vec::new();
        let mut k: usize = 0;
        while k < ids.len()
            invariant
                k <= ids.len(),
                list.len() == k,
                ids@ == kind_ids(self.nodes@, NodeKind::Town),
                forall|j: int|
                    0 <= j < ids.len() ==> holds_kind(
                        self.nodes@,
                        #[trigger] ids[j],
                        NodeKind::Town,
                    ),
                forall|j: int|
                    0 <= j < k ==> self.nodes@[ids[j]] == Node::Town(*#[trigger] list[j]),
            decreases ids.len() - k,
        {
            match self.nodes.get(&ids[k]) {
                Some(Node::Town(n)) => {
                    list.push(n);
                },
                _ => {
                    assert(false);
                },
            }
            k += 1;
        }
        list
    }
}

} // verus!
