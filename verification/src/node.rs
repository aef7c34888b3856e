//! The data model: the kinds of canonical node and what each records.
//!
//! Every node carries its identifier and the sources that contributed to it.
//! Descriptive fields are wrapped in [`Sourced`]; a relationship is a list of
//! sourced identifiers of other nodes.

use crate::sourced::{Sourced, SourcedView};
use std::collections::HashMap;
use vstd::prelude::*;

verus! {

/// Identifier of a node, unique within one graph.
pub type ID = u16;

/// What every node records: its identifier and the sources that
/// contributed to it.
#[derive(Clone, Debug)]
pub struct NodeCommon {
    pub i: ID,
    pub source: Vec<String>,
}

/// The world that a located node lies in.
#[derive(Clone, Copy, PartialEq, Eq, Structural, Debug)]
pub enum World {
    Old,
    New,
    Space,
}

/// How near one located node is to another. `distance` holds the bits of a
/// binary64 number.
#[derive(Clone, Copy, Debug)]
pub struct Proximity {
    pub distance: Option<u64>,
    pub explicit: bool,
}

/// What every located node records. Each coordinate holds the bits of a
/// binary64 number.
#[derive(Clone, Debug)]
pub struct LocatedNodeCommon {
    pub i: ID,
    pub source: Vec<String>,
    pub world: Option<Sourced<World>>,
    pub coordinates: Option<Sourced<(u64, u64)>>,
    pub proximity: HashMap<ID, Sourced<Proximity>>,
    pub shared_facility: Vec<Sourced<ID>>,
}

/// The kind of aircraft that an airport or a flight serves.
#[derive(Clone, Copy, PartialEq, Eq, Structural, Debug)]
pub enum AirMode {
    Helicopter,
    Seaplane,
    WarpPlane,
    TrainCartsPlane,
}

/// The kind of vehicle that runs on a railway line.
#[derive(Clone, Copy, PartialEq, Eq, Structural, Debug)]
pub enum RailMode {
    Warp,
    Cart,
    TrainCart,
    Vehicles,
}

/// The kind of a spawn warp.
#[derive(Clone, Copy, PartialEq, Eq, Structural, Debug)]
pub enum SpawnWarpType {
    Premier,
    Terminus,
    Portal,
    Misc,
}

/// The rank of a town.
#[derive(Clone, Copy, PartialEq, Eq, Structural, Debug)]
pub enum Rank {
    Unranked,
    Councillor,
    Mayor,
    Senator,
    Governor,
    Premier,
    Community,
}

/// A connection from one stop to another along a line.
#[derive(Clone, Debug)]
pub struct Connection {
    pub line: ID,
    pub direction: Option<Direction>,
}

/// The direction of a connection: the stop it heads for and how the two
/// directions are labelled.
#[derive(Clone, Debug)]
pub struct Direction {
    pub direction: ID,
    pub forward_label: Option<String>,
    pub backward_label: Option<String>,
    pub one_way: Sourced<bool>,
}

/// An airline: the operator that flights and gates are attributed to.
#[derive(Clone, Debug)]
pub struct AirAirline {
    pub name: String,
    pub link: Option<Sourced<String>>,
    pub flights: Vec<Sourced<ID>>,
    pub gates: Vec<Sourced<ID>>,
    pub common: NodeCommon,
}

/// An airport, known by its code.
#[derive(Clone, Debug)]
pub struct AirAirport {
    pub code: String,
    pub names: Option<Sourced<Vec<String>>>,
    pub link: Option<Sourced<String>>,
    pub modes: Option<Sourced<Vec<AirMode>>>,
    pub gates: Vec<Sourced<ID>>,
    pub common: LocatedNodeCommon,
}

/// A flight of one airline between gates.
#[derive(Clone, Debug)]
pub struct AirFlight {
    pub codes: Vec<String>,
    pub mode: Option<Sourced<AirMode>>,
    pub airline: Sourced<ID>,
    pub gates: Vec<Sourced<ID>>,
    pub common: NodeCommon,
}

/// A gate of an airport. `codes` is `None` where its code is not known.
#[derive(Clone, Debug)]
pub struct AirGate {
    pub codes: Option<String>,
    pub size: Option<Sourced<String>>,
    pub airline: Option<Sourced<ID>>,
    pub airport: Sourced<ID>,
    pub flights: Vec<Sourced<ID>>,
    pub common: NodeCommon,
}

/// A bus company.
#[derive(Clone, Debug)]
pub struct BusCompany {
    pub name: String,
    pub lines: Vec<Sourced<ID>>,
    pub stops: Vec<Sourced<ID>>,
    pub local: bool,
    pub common: NodeCommon,
}

/// A bus line of one company.
#[derive(Clone, Debug)]
pub struct BusLine {
    pub code: String,
    pub name: Option<Sourced<String>>,
    pub colour: Option<Sourced<String>>,
    pub company: Sourced<ID>,
    pub stops: Vec<Sourced<ID>>,
    pub common: NodeCommon,
}

/// A bus stop, with its connections to other stops.
#[derive(Clone, Debug)]
pub struct BusStop {
    pub codes: Vec<String>,
    pub name: Option<Sourced<String>>,
    pub company: Sourced<ID>,
    pub connections: HashMap<ID, Vec<Sourced<Connection>>>,
    pub common: LocatedNodeCommon,
}

/// A ferry company.
#[derive(Clone, Debug)]
pub struct SeaCompany {
    pub name: String,
    pub lines: Vec<Sourced<ID>>,
    pub stops: Vec<Sourced<ID>>,
    pub local: bool,
    pub common: NodeCommon,
}

/// A ferry line of one company.
#[derive(Clone, Debug)]
pub struct SeaLine {
    pub code: String,
    pub name: Option<Sourced<String>>,
    pub colour: Option<Sourced<String>>,
    pub company: Sourced<ID>,
    pub stops: Vec<Sourced<ID>>,
    pub common: NodeCommon,
}

/// A ferry stop, with its connections to other stops.
#[derive(Clone, Debug)]
pub struct SeaStop {
    pub codes: Vec<String>,
    pub name: Option<Sourced<String>>,
    pub company: Sourced<ID>,
    pub connections: HashMap<ID, Vec<Sourced<Connection>>>,
    pub common: LocatedNodeCommon,
}

/// A railway company.
#[derive(Clone, Debug)]
pub struct RailCompany {
    pub name: String,
    pub lines: Vec<Sourced<ID>>,
    pub stations: Vec<Sourced<ID>>,
    pub local: bool,
    pub common: NodeCommon,
}

/// A railway line of one company.
#[derive(Clone, Debug)]
pub struct RailLine {
    pub code: String,
    pub name: Option<Sourced<String>>,
    pub colour: Option<Sourced<String>>,
    pub company: Sourced<ID>,
    pub stations: Vec<Sourced<ID>>,
    pub common: NodeCommon,
}

/// A railway station, with its connections to other stations.
#[derive(Clone, Debug)]
pub struct RailStation {
    pub codes: Vec<String>,
    pub name: Option<Sourced<String>>,
    pub company: Sourced<ID>,
    pub connections: HashMap<ID, Vec<Sourced<Connection>>>,
    pub common: LocatedNodeCommon,
}

/// A warp reachable from spawn.
#[derive(Clone, Debug)]
pub struct SpawnWarp {
    pub name: String,
    pub warp_type: SpawnWarpType,
    pub common: LocatedNodeCommon,
}

/// A town.
#[derive(Clone, Debug)]
pub struct Town {
    pub name: String,
    pub rank: Sourced<Rank>,
    pub mayor: Sourced<String>,
    pub deputy_mayor: Sourced<Option<String>>,
    pub common: LocatedNodeCommon,
}

/// A canonical node of any kind.
#[derive(Clone, Debug)]
pub enum Node {
    AirAirline(AirAirline),
    AirAirport(AirAirport),
    AirFlight(AirFlight),
    AirGate(AirGate),
    BusCompany(BusCompany),
    BusLine(BusLine),
    BusStop(BusStop),
    SeaCompany(SeaCompany),
    SeaLine(SeaLine),
    SeaStop(SeaStop),
    RailCompany(RailCompany),
    RailLine(RailLine),
    RailStation(RailStation),
    SpawnWarp(SpawnWarp),
    Town(Town),
}

/// The kinds of node.
#[derive(Clone, Copy, PartialEq, Eq, Structural, Debug)]
pub enum NodeKind {
    AirAirline,
    AirAirport,
    AirFlight,
    AirGate,
    BusCompany,
    BusLine,
    BusStop,
    SeaCompany,
    SeaLine,
    SeaStop,
    RailCompany,
    RailLine,
    RailStation,
    SpawnWarp,
    Town,
}

/// The mathematical content of a [`NodeCommon`].
pub struct NodeCommonView {
    pub i: ID,
    pub source: Seq<Seq<char>>,
}

impl DeepView for NodeCommon {
    type V = NodeCommonView;

    open spec fn deep_view(&self) -> NodeCommonView {
        NodeCommonView { i: self.i, source: self.source.deep_view() }
    }
}

impl DeepView for World {
    type V = World;

    open spec fn deep_view(&self) -> World {
        *self
    }
}

impl DeepView for Proximity {
    type V = Proximity;

    open spec fn deep_view(&self) -> Proximity {
        *self
    }
}

impl DeepView for AirMode {
    type V = AirMode;

    open spec fn deep_view(&self) -> AirMode {
        *self
    }
}

impl DeepView for RailMode {
    type V = RailMode;

    open spec fn deep_view(&self) -> RailMode {
        *self
    }
}

impl DeepView for SpawnWarpType {
    type V = SpawnWarpType;

    open spec fn deep_view(&self) -> SpawnWarpType {
        *self
    }
}

impl DeepView for Rank {
    type V = Rank;

    open spec fn deep_view(&self) -> Rank {
        *self
    }
}

impl DeepView for NodeKind {
    type V = NodeKind;

    open spec fn deep_view(&self) -> NodeKind {
        *self
    }
}

/// The mathematical content of a [`LocatedNodeCommon`].
pub struct LocatedNodeCommonView {
    pub i: ID,
    pub source: Seq<Seq<char>>,
    pub world: Option<SourcedView<World>>,
    pub coordinates: Option<SourcedView<(u64, u64)>>,
    pub proximity: Map<ID, SourcedView<Proximity>>,
    pub shared_facility: Seq<SourcedView<ID>>,
}

impl DeepView for LocatedNodeCommon {
    type V = LocatedNodeCommonView;

    open spec fn deep_view(&self) -> LocatedNodeCommonView {
        LocatedNodeCommonView {
            i: self.i.deep_view(),
            source: self.source.deep_view(),
            world: self.world.deep_view(),
            coordinates: self.coordinates.deep_view(),
            proximity: self.proximity.deep_view(),
            shared_facility: self.shared_facility.deep_view(),
        }
    }
}

/// The mathematical content of a [`Direction`].
pub struct DirectionView {
    pub direction: ID,
    pub forward_label: Option<Seq<char>>,
    pub backward_label: Option<Seq<char>>,
    pub one_way: SourcedView<bool>,
}

impl DeepView for Direction {
    type V = DirectionView;

    open spec fn deep_view(&self) -> DirectionView {
        DirectionView {
            direction: self.direction.deep_view(),
            forward_label: self.forward_label.deep_view(),
            backward_label: self.backward_label.deep_view(),
            one_way: self.one_way.deep_view(),
        }
    }
}

/// The mathematical content of a [`Connection`].
pub struct ConnectionView {
    pub line: ID,
    pub direction: Option<DirectionView>,
}

impl DeepView for Connection {
    type V = ConnectionView;

    open spec fn deep_view(&self) -> ConnectionView {
        ConnectionView {
            line: self.line.deep_view(),
            direction: self.direction.deep_view(),
        }
    }
}

/// The mathematical content of a [`AirAirline`].
pub struct AirAirlineView {
    pub name: Seq<char>,
    pub link: Option<SourcedView<Seq<char>>>,
    pub flights: Seq<SourcedView<ID>>,
    pub gates: Seq<SourcedView<ID>>,
    pub common: NodeCommonView,
}

impl DeepView for AirAirline {
    type V = AirAirlineView;

    open spec fn deep_view(&self) -> AirAirlineView {
        AirAirlineView {
            name: self.name.deep_view(),
            link: self.link.deep_view(),
            flights: self.flights.deep_view(),
            gates: self.gates.deep_view(),
            common: self.common.deep_view(),
        }
    }
}

/// The mathematical content of a [`AirAirport`].
pub struct AirAirportView {
    pub code: Seq<char>,
    pub names: Option<SourcedView<Seq<Seq<char>>>>,
    pub link: Option<SourcedView<Seq<char>>>,
    pub modes: Option<SourcedView<Seq<AirMode>>>,
    pub gates: Seq<SourcedView<ID>>,
    pub common: LocatedNodeCommonView,
}

impl DeepView for AirAirport {
    type V = AirAirportView;

    open spec fn deep_view(&self) -> AirAirportView {
        AirAirportView {
            code: self.code.deep_view(),
            names: self.names.deep_view(),
            link: self.link.deep_view(),
            modes: self.modes.deep_view(),
            gates: self.gates.deep_view(),
            common: self.common.deep_view(),
        }
    }
}

/// The mathematical content of a [`AirFlight`].
pub struct AirFlightView {
    pub codes: Seq<Seq<char>>,
    pub mode: Option<SourcedView<AirMode>>,
    pub airline: SourcedView<ID>,
    pub gates: Seq<SourcedView<ID>>,
    pub common: NodeCommonView,
}

impl DeepView for AirFlight {
    type V = AirFlightView;

    open spec fn deep_view(&self) -> AirFlightView {
        AirFlightView {
            codes: self.codes.deep_view(),
            mode: self.mode.deep_view(),
            airline: self.airline.deep_view(),
            gates: self.gates.deep_view(),
            common: self.common.deep_view(),
        }
    }
}

/// The mathematical content of a [`AirGate`].
pub struct AirGateView {
    pub codes: Option<Seq<char>>,
    pub size: Option<SourcedView<Seq<char>>>,
    pub airline: Option<SourcedView<ID>>,
    pub airport: SourcedView<ID>,
    pub flights: Seq<SourcedView<ID>>,
    pub common: NodeCommonView,
}

impl DeepView for AirGate {
    type V = AirGateView;

    open spec fn deep_view(&self) -> AirGateView {
        AirGateView {
            codes: self.codes.deep_view(),
            size: self.size.deep_view(),
            airline: self.airline.deep_view(),
            airport: self.airport.deep_view(),
            flights: self.flights.deep_view(),
            common: self.common.deep_view(),
        }
    }
}

/// The mathematical content of a [`BusCompany`].
pub struct BusCompanyView {
    pub name: Seq<char>,
    pub lines: Seq<SourcedView<ID>>,
    pub stops: Seq<SourcedView<ID>>,
    pub local: bool,
    pub common: NodeCommonView,
}

impl DeepView for BusCompany {
    type V = BusCompanyView;

    open spec fn deep_view(&self) -> BusCompanyView {
        BusCompanyView {
            name: self.name.deep_view(),
            lines: self.lines.deep_view(),
            stops: self.stops.deep_view(),
            local: self.local.deep_view(),
            common: self.common.deep_view(),
        }
    }
}

/// The mathematical content of a [`BusLine`].
pub struct BusLineView {
    pub code: Seq<char>,
    pub name: Option<SourcedView<Seq<char>>>,
    pub colour: Option<SourcedView<Seq<char>>>,
    pub company: SourcedView<ID>,
    pub stops: Seq<SourcedView<ID>>,
    pub common: NodeCommonView,
}

impl DeepView for BusLine {
    type V = BusLineView;

    open spec fn deep_view(&self) -> BusLineView {
        BusLineView {
            code: self.code.deep_view(),
            name: self.name.deep_view(),
            colour: self.colour.deep_view(),
            company: self.company.deep_view(),
            stops: self.stops.deep_view(),
            common: self.common.deep_view(),
        }
    }
}

/// The mathematical content of a [`BusStop`].
pub struct BusStopView {
    pub codes: Seq<Seq<char>>,
    pub name: Option<SourcedView<Seq<char>>>,
    pub company: SourcedView<ID>,
    pub connections: Map<ID, Seq<SourcedView<ConnectionView>>>,
    pub common: LocatedNodeCommonView,
}

impl DeepView for BusStop {
    type V = BusStopView;

    open spec fn deep_view(&self) -> BusStopView {
        BusStopView {
            codes: self.codes.deep_view(),
            name: self.name.deep_view(),
            company: self.company.deep_view(),
            connections: self.connections.deep_view(),
            common: self.common.deep_view(),
        }
    }
}

/// The mathematical content of a [`SeaCompany`].
pub struct SeaCompanyView {
    pub name: Seq<char>,
    pub lines: Seq<SourcedView<ID>>,
    pub stops: Seq<SourcedView<ID>>,
    pub local: bool,
    pub common: NodeCommonView,
}

impl DeepView for SeaCompany {
    type V = SeaCompanyView;

    open spec fn deep_view(&self) -> SeaCompanyView {
        SeaCompanyView {
            name: self.name.deep_view(),
            lines: self.lines.deep_view(),
            stops: self.stops.deep_view(),
            local: self.local.deep_view(),
            common: self.common.deep_view(),
        }
    }
}

/// The mathematical content of a [`SeaLine`].
pub struct SeaLineView {
    pub code: Seq<char>,
    pub name: Option<SourcedView<Seq<char>>>,
    pub colour: Option<SourcedView<Seq<char>>>,
    pub company: SourcedView<ID>,
    pub stops: Seq<SourcedView<ID>>,
    pub common: NodeCommonView,
}

impl DeepView for SeaLine {
    type V = SeaLineView;

    open spec fn deep_view(&self) -> SeaLineView {
        SeaLineView {
            code: self.code.deep_view(),
            name: self.name.deep_view(),
            colour: self.colour.deep_view(),
            company: self.company.deep_view(),
            stops: self.stops.deep_view(),
            common: self.common.deep_view(),
        }
    }
}

/// The mathematical content of a [`SeaStop`].
pub struct SeaStopView {
    pub codes: Seq<Seq<char>>,
    pub name: Option<SourcedView<Seq<char>>>,
    pub company: SourcedView<ID>,
    pub connections: Map<ID, Seq<SourcedView<ConnectionView>>>,
    pub common: LocatedNodeCommonView,
}

impl DeepView for SeaStop {
    type V = SeaStopView;

    open spec fn deep_view(&self) -> SeaStopView {
        SeaStopView {
            codes: self.codes.deep_view(),
            name: self.name.deep_view(),
            company: self.company.deep_view(),
            connections: self.connections.deep_view(),
            common: self.common.deep_view(),
        }
    }
}

/// The mathematical content of a [`RailCompany`].
pub struct RailCompanyView {
    pub name: Seq<char>,
    pub lines: Seq<SourcedView<ID>>,
    pub stations: Seq<SourcedView<ID>>,
    pub local: bool,
    pub common: NodeCommonView,
}

impl DeepView for RailCompany {
    type V = RailCompanyView;

    open spec fn deep_view(&self) -> RailCompanyView {
        RailCompanyView {
            name: self.name.deep_view(),
            lines: self.lines.deep_view(),
            stations: self.stations.deep_view(),
            local: self.local.deep_view(),
            common: self.common.deep_view(),
        }
    }
}

/// The mathematical content of a [`RailLine`].
pub struct RailLineView {
    pub code: Seq<char>,
    pub name: Option<SourcedView<Seq<char>>>,
    pub colour: Option<SourcedView<Seq<char>>>,
    pub company: SourcedView<ID>,
    pub stations: Seq<SourcedView<ID>>,
    pub common: NodeCommonView,
}

impl DeepView for RailLine {
    type V = RailLineView;

    open spec fn deep_view(&self) -> RailLineView {
        RailLineView {
            code: self.code.deep_view(),
            name: self.name.deep_view(),
            colour: self.colour.deep_view(),
            company: self.company.deep_view(),
            stations: self.stations.deep_view(),
            common: self.common.deep_view(),
        }
    }
}

/// The mathematical content of a [`RailStation`].
pub struct RailStationView {
    pub codes: Seq<Seq<char>>,
    pub name: Option<SourcedView<Seq<char>>>,
    pub company: SourcedView<ID>,
    pub connections: Map<ID, Seq<SourcedView<ConnectionView>>>,
    pub common: LocatedNodeCommonView,
}

impl DeepView for RailStation {
    type V = RailStationView;

    open spec fn deep_view(&self) -> RailStationView {
        RailStationView {
            codes: self.codes.deep_view(),
            name: self.name.deep_view(),
            company: self.company.deep_view(),
            connections: self.connections.deep_view(),
            common: self.common.deep_view(),
        }
    }
}

/// The mathematical content of a [`SpawnWarp`].
pub struct SpawnWarpView {
    pub name: Seq<char>,
    pub warp_type: SpawnWarpType,
    pub common: LocatedNodeCommonView,
}

impl DeepView for SpawnWarp {
    type V = SpawnWarpView;

    open spec fn deep_view(&self) -> SpawnWarpView {
        SpawnWarpView {
            name: self.name.deep_view(),
            warp_type: self.warp_type.deep_view(),
            common: self.common.deep_view(),
        }
    }
}

/// The mathematical content of a [`Town`].
pub struct TownView {
    pub name: Seq<char>,
    pub rank: SourcedView<Rank>,
    pub mayor: SourcedView<Seq<char>>,
    pub deputy_mayor: SourcedView<Option<Seq<char>>>,
    pub common: LocatedNodeCommonView,
}

impl DeepView for Town {
    type V = TownView;

    open spec fn deep_view(&self) -> TownView {
        TownView {
            name: self.name.deep_view(),
            rank: self.rank.deep_view(),
            mayor: self.mayor.deep_view(),
            deputy_mayor: self.deputy_mayor.deep_view(),
            common: self.common.deep_view(),
        }
    }
}

/// The mathematical content of a [`Node`].
pub enum NodeView {
    AirAirline(AirAirlineView),
    AirAirport(AirAirportView),
    AirFlight(AirFlightView),
    AirGate(AirGateView),
    BusCompany(BusCompanyView),
    BusLine(BusLineView),
    BusStop(BusStopView),
    SeaCompany(SeaCompanyView),
    SeaLine(SeaLineView),
    SeaStop(SeaStopView),
    RailCompany(RailCompanyView),
    RailLine(RailLineView),
    RailStation(RailStationView),
    SpawnWarp(SpawnWarpView),
    Town(TownView),
}

impl DeepView for Node {
    type V = NodeView;

    open spec fn deep_view(&self) -> NodeView {
        match *self {
            Node::AirAirline(n) => NodeView::AirAirline(n.deep_view()),
            Node::AirAirport(n) => NodeView::AirAirport(n.deep_view()),
            Node::AirFlight(n) => NodeView::AirFlight(n.deep_view()),
            Node::AirGate(n) => NodeView::AirGate(n.deep_view()),
            Node::BusCompany(n) => NodeView::BusCompany(n.deep_view()),
            Node::BusLine(n) => NodeView::BusLine(n.deep_view()),
            Node::BusStop(n) => NodeView::BusStop(n.deep_view()),
            Node::SeaCompany(n) => NodeView::SeaCompany(n.deep_view()),
            Node::SeaLine(n) => NodeView::SeaLine(n.deep_view()),
            Node::SeaStop(n) => NodeView::SeaStop(n.deep_view()),
            Node::RailCompany(n) => NodeView::RailCompany(n.deep_view()),
            Node::RailLine(n) => NodeView::RailLine(n.deep_view()),
            Node::RailStation(n) => NodeView::RailStation(n.deep_view()),
            Node::SpawnWarp(n) => NodeView::SpawnWarp(n.deep_view()),
            Node::Town(n) => NodeView::Town(n.deep_view()),
        }
    }
}

impl NodeView {
    /// The kind of the node.
    pub open spec fn kind(self) -> NodeKind {
        match self {
            NodeView::AirAirline(_) => NodeKind::AirAirline,
            NodeView::AirAirport(_) => NodeKind::AirAirport,
            NodeView::AirFlight(_) => NodeKind::AirFlight,
            NodeView::AirGate(_) => NodeKind::AirGate,
            NodeView::BusCompany(_) => NodeKind::BusCompany,
            NodeView::BusLine(_) => NodeKind::BusLine,
            NodeView::BusStop(_) => NodeKind::BusStop,
            NodeView::SeaCompany(_) => NodeKind::SeaCompany,
            NodeView::SeaLine(_) => NodeKind::SeaLine,
            NodeView::SeaStop(_) => NodeKind::SeaStop,
            NodeView::RailCompany(_) => NodeKind::RailCompany,
            NodeView::RailLine(_) => NodeKind::RailLine,
            NodeView::RailStation(_) => NodeKind::RailStation,
            NodeView::SpawnWarp(_) => NodeKind::SpawnWarp,
            NodeView::Town(_) => NodeKind::Town,
        }
    }

    /// The identifier that the node records for itself.
    pub open spec fn id(self) -> ID {
        match self {
            NodeView::AirAirline(n) => n.common.i,
            NodeView::AirAirport(n) => n.common.i,
            NodeView::AirFlight(n) => n.common.i,
            NodeView::AirGate(n) => n.common.i,
            NodeView::BusCompany(n) => n.common.i,
            NodeView::BusLine(n) => n.common.i,
            NodeView::BusStop(n) => n.common.i,
            NodeView::SeaCompany(n) => n.common.i,
            NodeView::SeaLine(n) => n.common.i,
            NodeView::SeaStop(n) => n.common.i,
            NodeView::RailCompany(n) => n.common.i,
            NodeView::RailLine(n) => n.common.i,
            NodeView::RailStation(n) => n.common.i,
            NodeView::SpawnWarp(n) => n.common.i,
            NodeView::Town(n) => n.common.i,
        }
    }
}

impl NodeKind {
    /// The name of the kind, as error messages give it.
    pub open spec fn spec_name(self) -> &'static str {
        match self {
            NodeKind::AirAirline => "AirAirline",
            NodeKind::AirAirport => "AirAirport",
            NodeKind::AirFlight => "AirFlight",
            NodeKind::AirGate => "AirGate",
            NodeKind::BusCompany => "BusCompany",
            NodeKind::BusLine => "BusLine",
            NodeKind::BusStop => "BusStop",
            NodeKind::SeaCompany => "SeaCompany",
            NodeKind::SeaLine => "SeaLine",
            NodeKind::SeaStop => "SeaStop",
            NodeKind::RailCompany => "RailCompany",
            NodeKind::RailLine => "RailLine",
            NodeKind::RailStation => "RailStation",
            NodeKind::SpawnWarp => "SpawnWarp",
            NodeKind::Town => "Town",
        }
    }

    /// The name of the kind, as error messages give it.
    #[verifier::when_used_as_spec(spec_name)]
    pub fn name(self) -> (s: &'static str)
        ensures
            s == self.spec_name(),
    {
        match self {
            NodeKind::AirAirline => "AirAirline",
            NodeKind::AirAirport => "AirAirport",
            NodeKind::AirFlight => "AirFlight",
            NodeKind::AirGate => "AirGate",
            NodeKind::BusCompany => "BusCompany",
            NodeKind::BusLine => "BusLine",
            NodeKind::BusStop => "BusStop",
            NodeKind::SeaCompany => "SeaCompany",
            NodeKind::SeaLine => "SeaLine",
            NodeKind::SeaStop => "SeaStop",
            NodeKind::RailCompany => "RailCompany",
            NodeKind::RailLine => "RailLine",
            NodeKind::RailStation => "RailStation",
            NodeKind::SpawnWarp => "SpawnWarp",
            NodeKind::Town => "Town",
        }
    }
}

impl Node {
    /// The kind of the node.
    pub open spec fn spec_kind(&self) -> NodeKind {
        match self {
            Node::AirAirline(_) => NodeKind::AirAirline,
            Node::AirAirport(_) => NodeKind::AirAirport,
            Node::AirFlight(_) => NodeKind::AirFlight,
            Node::AirGate(_) => NodeKind::AirGate,
            Node::BusCompany(_) => NodeKind::BusCompany,
            Node::BusLine(_) => NodeKind::BusLine,
            Node::BusStop(_) => NodeKind::BusStop,
            Node::SeaCompany(_) => NodeKind::SeaCompany,
            Node::SeaLine(_) => NodeKind::SeaLine,
            Node::SeaStop(_) => NodeKind::SeaStop,
            Node::RailCompany(_) => NodeKind::RailCompany,
            Node::RailLine(_) => NodeKind::RailLine,
            Node::RailStation(_) => NodeKind::RailStation,
            Node::SpawnWarp(_) => NodeKind::SpawnWarp,
            Node::Town(_) => NodeKind::Town,
        }
    }

    /// The kind of the node.
    #[verifier::when_used_as_spec(spec_kind)]
    pub fn kind(&self) -> (k: NodeKind)
        ensures
            k == self.spec_kind(),
    {
        match self {
            Node::AirAirline(_) => NodeKind::AirAirline,
            Node::AirAirport(_) => NodeKind::AirAirport,
            Node::AirFlight(_) => NodeKind::AirFlight,
            Node::AirGate(_) => NodeKind::AirGate,
            Node::BusCompany(_) => NodeKind::BusCompany,
            Node::BusLine(_) => NodeKind::BusLine,
            Node::BusStop(_) => NodeKind::BusStop,
            Node::SeaCompany(_) => NodeKind::SeaCompany,
            Node::SeaLine(_) => NodeKind::SeaLine,
            Node::SeaStop(_) => NodeKind::SeaStop,
            Node::RailCompany(_) => NodeKind::RailCompany,
            Node::RailLine(_) => NodeKind::RailLine,
            Node::RailStation(_) => NodeKind::RailStation,
            Node::SpawnWarp(_) => NodeKind::SpawnWarp,
            Node::Town(_) => NodeKind::Town,
        }
    }

    /// The identifier that the node records for itself.
    pub open spec fn spec_id(&self) -> ID {
        match self {
            Node::AirAirline(n) => n.common.i,
            Node::AirAirport(n) => n.common.i,
            Node::AirFlight(n) => n.common.i,
            Node::AirGate(n) => n.common.i,
            Node::BusCompany(n) => n.common.i,
            Node::BusLine(n) => n.common.i,
            Node::BusStop(n) => n.common.i,
            Node::SeaCompany(n) => n.common.i,
            Node::SeaLine(n) => n.common.i,
            Node::SeaStop(n) => n.common.i,
            Node::RailCompany(n) => n.common.i,
            Node::RailLine(n) => n.common.i,
            Node::RailStation(n) => n.common.i,
            Node::SpawnWarp(n) => n.common.i,
            Node::Town(n) => n.common.i,
        }
    }

    /// The identifier that the node records for itself.
    #[verifier::when_used_as_spec(spec_id)]
    pub fn id(&self) -> (i: ID)
        ensures
            i == self.spec_id(),
    {
        match self {
            Node::AirAirline(n) => n.common.i,
            Node::AirAirport(n) => n.common.i,
            Node::AirFlight(n) => n.common.i,
            Node::AirGate(n) => n.common.i,
            Node::BusCompany(n) => n.common.i,
            Node::BusLine(n) => n.common.i,
            Node::BusStop(n) => n.common.i,
            Node::SeaCompany(n) => n.common.i,
            Node::SeaLine(n) => n.common.i,
            Node::SeaStop(n) => n.common.i,
            Node::RailCompany(n) => n.common.i,
            Node::RailLine(n) => n.common.i,
            Node::RailStation(n) => n.common.i,
            Node::SpawnWarp(n) => n.common.i,
            Node::Town(n) => n.common.i,
        }
    }

    /// Whether the node is of kind `AirAirline`.
    pub fn is_air_airline(&self) -> (b: bool)
        ensures
            b == (*self is AirAirline),
    {
        match self {
            Node::AirAirline(_) => true,
            _ => false,
        }
    }

    /// The node as a `AirAirline`, if it is one.
    pub fn as_air_airline(&self) -> (r: Option<&AirAirline>)
        ensures
            match r {
                Some(n) => *self == Node::AirAirline(*n),
                None => !(*self is AirAirline),
            },
    {
        match self {
            Node::AirAirline(n) => Some(n),
            _ => None,
        }
    }

    /// The node as a `AirAirline` open to change, if it is one. Otherwise the
    /// node stays as it is.
    pub fn as_air_airline_mut(&mut self) -> (r: Option<&mut AirAirline>)
        ensures
            match r {
                Some(n) => *old(self) == Node::AirAirline(*n) && *final(self) == Node::AirAirline(*final(n)),
                None => !(*old(self) is AirAirline) && *final(self) == *old(self),
            },
    {
        match self {
            Node::AirAirline(n) => Some(n),
            _ => None,
        }
    }

    /// The `AirAirline` inside the node, or the node itself if it is of
    /// another kind.
    pub fn into_air_airline(self) -> (r: Result<AirAirline, Node>)
        ensures
            match r {
                Ok(n) => self == Node::AirAirline(n),
                Err(other) => !(self is AirAirline) && other == self,
            },
    {
        match self {
            Node::AirAirline(n) => Ok(n),
            other => Err(other),
        }
    }

    /// Whether the node is of kind `AirAirport`.
    pub fn is_air_airport(&self) -> (b: bool)
        ensures
            b == (*self is AirAirport),
    {
        match self {
            Node::AirAirport(_) => true,
            _ => false,
        }
    }

    /// The node as a `AirAirport`, if it is one.
    pub fn as_air_airport(&self) -> (r: Option<&AirAirport>)
        ensures
            match r {
                Some(n) => *self == Node::AirAirport(*n),
                None => !(*self is AirAirport),
            },
    {
        match self {
            Node::AirAirport(n) => Some(n),
            _ => None,
        }
    }

    /// The node as a `AirAirport` open to change, if it is one. Otherwise the
    /// node stays as it is.
    pub fn as_air_airport_mut(&mut self) -> (r: Option<&mut AirAirport>)
        ensures
            match r {
                Some(n) => *old(self) == Node::AirAirport(*n) && *final(self) == Node::AirAirport(*final(n)),
                None => !(*old(self) is AirAirport) && *final(self) == *old(self),
            },
    {
        match self {
            Node::AirAirport(n) => Some(n),
            _ => None,
        }
    }

    /// The `AirAirport` inside the node, or the node itself if it is of
    /// another kind.
    pub fn into_air_airport(self) -> (r: Result<AirAirport, Node>)
        ensures
            match r {
                Ok(n) => self == Node::AirAirport(n),
                Err(other) => !(self is AirAirport) && other == self,
            },
    {
        match self {
            Node::AirAirport(n) => Ok(n),
            other => Err(other),
        }
    }

    /// Whether the node is of kind `AirFlight`.
    pub fn is_air_flight(&self) -> (b: bool)
        ensures
            b == (*self is AirFlight),
    {
        match self {
            Node::AirFlight(_) => true,
            _ => false,
        }
    }

    /// The node as a `AirFlight`, if it is one.
    pub fn as_air_flight(&self) -> (r: Option<&AirFlight>)
        ensures
            match r {
                Some(n) => *self == Node::AirFlight(*n),
                None => !(*self is AirFlight),
            },
    {
        match self {
            Node::AirFlight(n) => Some(n),
            _ => None,
        }
    }

    /// The node as a `AirFlight` open to change, if it is one. Otherwise the
    /// node stays as it is.
    pub fn as_air_flight_mut(&mut self) -> (r: Option<&mut AirFlight>)
        ensures
            match r {
                Some(n) => *old(self) == Node::AirFlight(*n) && *final(self) == Node::AirFlight(*final(n)),
                None => !(*old(self) is AirFlight) && *final(self) == *old(self),
            },
    {
        match self {
            Node::AirFlight(n) => Some(n),
            _ => None,
        }
    }

    /// The `AirFlight` inside the node, or the node itself if it is of
    /// another kind.
    pub fn into_air_flight(self) -> (r: Result<AirFlight, Node>)
        ensures
            match r {
                Ok(n) => self == Node::AirFlight(n),
                Err(other) => !(self is AirFlight) && other == self,
            },
    {
        match self {
            Node::AirFlight(n) => Ok(n),
            other => Err(other),
        }
    }

    /// Whether the node is of kind `AirGate`.
    pub fn is_air_gate(&self) -> (b: bool)
        ensures
            b == (*self is AirGate),
    {
        match self {
            Node::AirGate(_) => true,
            _ => false,
        }
    }

    /// The node as a `AirGate`, if it is one.
    pub fn as_air_gate(&self) -> (r: Option<&AirGate>)
        ensures
            match r {
                Some(n) => *self == Node::AirGate(*n),
                None => !(*self is AirGate),
            },
    {
        match self {
            Node::AirGate(n) => Some(n),
            _ => None,
        }
    }

    /// The node as a `AirGate` open to change, if it is one. Otherwise the
    /// node stays as it is.
    pub fn as_air_gate_mut(&mut self) -> (r: Option<&mut AirGate>)
        ensures
            match r {
                Some(n) => *old(self) == Node::AirGate(*n) && *final(self) == Node::AirGate(*final(n)),
                None => !(*old(self) is AirGate) && *final(self) == *old(self),
            },
    {
        match self {
            Node::AirGate(n) => Some(n),
            _ => None,
        }
    }

    /// The `AirGate` inside the node, or the node itself if it is of
    /// another kind.
    pub fn into_air_gate(self) -> (r: Result<AirGate, Node>)
        ensures
            match r {
                Ok(n) => self == Node::AirGate(n),
                Err(other) => !(self is AirGate) && other == self,
            },
    {
        match self {
            Node::AirGate(n) => Ok(n),
            other => Err(other),
        }
    }

    /// Whether the node is of kind `BusCompany`.
    pub fn is_bus_company(&self) -> (b: bool)
        ensures
            b == (*self is BusCompany),
    {
        match self {
            Node::BusCompany(_) => true,
            _ => false,
        }
    }

    /// The node as a `BusCompany`, if it is one.
    pub fn as_bus_company(&self) -> (r: Option<&BusCompany>)
        ensures
            match r {
                Some(n) => *self == Node::BusCompany(*n),
                None => !(*self is BusCompany),
            },
    {
        match self {
            Node::BusCompany(n) => Some(n),
            _ => None,
        }
    }

    /// The node as a `BusCompany` open to change, if it is one. Otherwise the
    /// node stays as it is.
    pub fn as_bus_company_mut(&mut self) -> (r: Option<&mut BusCompany>)
        ensures
            match r {
                Some(n) => *old(self) == Node::BusCompany(*n) && *final(self) == Node::BusCompany(*final(n)),
                None => !(*old(self) is BusCompany) && *final(self) == *old(self),
            },
    {
        match self {
            Node::BusCompany(n) => Some(n),
            _ => None,
        }
    }

    /// The `BusCompany` inside the node, or the node itself if it is of
    /// another kind.
    pub fn into_bus_company(self) -> (r: Result<BusCompany, Node>)
        ensures
            match r {
                Ok(n) => self == Node::BusCompany(n),
                Err(other) => !(self is BusCompany) && other == self,
            },
    {
        match self {
            Node::BusCompany(n) => Ok(n),
            other => Err(other),
        }
    }

    /// Whether the node is of kind `BusLine`.
    pub fn is_bus_line(&self) -> (b: bool)
        ensures
            b == (*self is BusLine),
    {
        match self {
            Node::BusLine(_) => true,
            _ => false,
        }
    }

    /// The node as a `BusLine`, if it is one.
    pub fn as_bus_line(&self) -> (r: Option<&BusLine>)
        ensures
            match r {
                Some(n) => *self == Node::BusLine(*n),
                None => !(*self is BusLine),
            },
    {
        match self {
            Node::BusLine(n) => Some(n),
            _ => None,
        }
    }

    /// The node as a `BusLine` open to change, if it is one. Otherwise the
    /// node stays as it is.
    pub fn as_bus_line_mut(&mut self) -> (r: Option<&mut BusLine>)
        ensures
            match r {
                Some(n) => *old(self) == Node::BusLine(*n) && *final(self) == Node::BusLine(*final(n)),
                None => !(*old(self) is BusLine) && *final(self) == *old(self),
            },
    {
        match self {
            Node::BusLine(n) => Some(n),
            _ => None,
        }
    }

    /// The `BusLine` inside the node, or the node itself if it is of
    /// another kind.
    pub fn into_bus_line(self) -> (r: Result<BusLine, Node>)
        ensures
            match r {
                Ok(n) => self == Node::BusLine(n),
                Err(other) => !(self is BusLine) && other == self,
            },
    {
        match self {
            Node::BusLine(n) => Ok(n),
            other => Err(other),
        }
    }

    /// Whether the node is of kind `BusStop`.
    pub fn is_bus_stop(&self) -> (b: bool)
        ensures
            b == (*self is BusStop),
    {
        match self {
            Node::BusStop(_) => true,
            _ => false,
        }
    }

    /// The node as a `BusStop`, if it is one.
    pub fn as_bus_stop(&self) -> (r: Option<&BusStop>)
        ensures
            match r {
                Some(n) => *self == Node::BusStop(*n),
                None => !(*self is BusStop),
            },
    {
        match self {
            Node::BusStop(n) => Some(n),
            _ => None,
        }
    }

    /// The node as a `BusStop` open to change, if it is one. Otherwise the
    /// node stays as it is.
    pub fn as_bus_stop_mut(&mut self) -> (r: Option<&mut BusStop>)
        ensures
            match r {
                Some(n) => *old(self) == Node::BusStop(*n) && *final(self) == Node::BusStop(*final(n)),
                None => !(*old(self) is BusStop) && *final(self) == *old(self),
            },
    {
        match self {
            Node::BusStop(n) => Some(n),
            _ => None,
        }
    }

    /// The `BusStop` inside the node, or the node itself if it is of
    /// another kind.
    pub fn into_bus_stop(self) -> (r: Result<BusStop, Node>)
        ensures
            match r {
                Ok(n) => self == Node::BusStop(n),
                Err(other) => !(self is BusStop) && other == self,
            },
    {
        match self {
            Node::BusStop(n) => Ok(n),
            other => Err(other),
        }
    }

    /// Whether the node is of kind `SeaCompany`.
    pub fn is_sea_company(&self) -> (b: bool)
        ensures
            b == (*self is SeaCompany),
    {
        match self {
            Node::SeaCompany(_) => true,
            _ => false,
        }
    }

    /// The node as a `SeaCompany`, if it is one.
    pub fn as_sea_company(&self) -> (r: Option<&SeaCompany>)
        ensures
            match r {
                Some(n) => *self == Node::SeaCompany(*n),
                None => !(*self is SeaCompany),
            },
    {
        match self {
            Node::SeaCompany(n) => Some(n),
            _ => None,
        }
    }

    /// The node as a `SeaCompany` open to change, if it is one. Otherwise the
    /// node stays as it is.
    pub fn as_sea_company_mut(&mut self) -> (r: Option<&mut SeaCompany>)
        ensures
            match r {
                Some(n) => *old(self) == Node::SeaCompany(*n) && *final(self) == Node::SeaCompany(*final(n)),
                None => !(*old(self) is SeaCompany) && *final(self) == *old(self),
            },
    {
        match self {
            Node::SeaCompany(n) => Some(n),
            _ => None,
        }
    }

    /// The `SeaCompany` inside the node, or the node itself if it is of
    /// another kind.
    pub fn into_sea_company(self) -> (r: Result<SeaCompany, Node>)
        ensures
            match r {
                Ok(n) => self == Node::SeaCompany(n),
                Err(other) => !(self is SeaCompany) && other == self,
            },
    {
        match self {
            Node::SeaCompany(n) => Ok(n),
            other => Err(other),
        }
    }

    /// Whether the node is of kind `SeaLine`.
    pub fn is_sea_line(&self) -> (b: bool)
        ensures
            b == (*self is SeaLine),
    {
        match self {
            Node::SeaLine(_) => true,
            _ => false,
        }
    }

    /// The node as a `SeaLine`, if it is one.
    pub fn as_sea_line(&self) -> (r: Option<&SeaLine>)
        ensures
            match r {
                Some(n) => *self == Node::SeaLine(*n),
                None => !(*self is SeaLine),
            },
    {
        match self {
            Node::SeaLine(n) => Some(n),
            _ => None,
        }
    }

    /// The node as a `SeaLine` open to change, if it is one. Otherwise the
    /// node stays as it is.
    pub fn as_sea_line_mut(&mut self) -> (r: Option<&mut SeaLine>)
        ensures
            match r {
                Some(n) => *old(self) == Node::SeaLine(*n) && *final(self) == Node::SeaLine(*final(n)),
                None => !(*old(self) is SeaLine) && *final(self) == *old(self),
            },
    {
        match self {
            Node::SeaLine(n) => Some(n),
            _ => None,
        }
    }

    /// The `SeaLine` inside the node, or the node itself if it is of
    /// another kind.
    pub fn into_sea_line(self) -> (r: Result<SeaLine, Node>)
        ensures
            match r {
                Ok(n) => self == Node::SeaLine(n),
                Err(other) => !(self is SeaLine) && other == self,
            },
    {
        match self {
            Node::SeaLine(n) => Ok(n),
            other => Err(other),
        }
    }

    /// Whether the node is of kind `SeaStop`.
    pub fn is_sea_stop(&self) -> (b: bool)
        ensures
            b == (*self is SeaStop),
    {
        match self {
            Node::SeaStop(_) => true,
            _ => false,
        }
    }

    /// The node as a `SeaStop`, if it is one.
    pub fn as_sea_stop(&self) -> (r: Option<&SeaStop>)
        ensures
            match r {
                Some(n) => *self == Node::SeaStop(*n),
                None => !(*self is SeaStop),
            },
    {
        match self {
            Node::SeaStop(n) => Some(n),
            _ => None,
        }
    }

    /// The node as a `SeaStop` open to change, if it is one. Otherwise the
    /// node stays as it is.
    pub fn as_sea_stop_mut(&mut self) -> (r: Option<&mut SeaStop>)
        ensures
            match r {
                Some(n) => *old(self) == Node::SeaStop(*n) && *final(self) == Node::SeaStop(*final(n)),
                None => !(*old(self) is SeaStop) && *final(self) == *old(self),
            },
    {
        match self {
            Node::SeaStop(n) => Some(n),
            _ => None,
        }
    }

    /// The `SeaStop` inside the node, or the node itself if it is of
    /// another kind.
    pub fn into_sea_stop(self) -> (r: Result<SeaStop, Node>)
        ensures
            match r {
                Ok(n) => self == Node::SeaStop(n),
                Err(other) => !(self is SeaStop) && other == self,
            },
    {
        match self {
            Node::SeaStop(n) => Ok(n),
            other => Err(other),
        }
    }

    /// Whether the node is of kind `RailCompany`.
    pub fn is_rail_company(&self) -> (b: bool)
        ensures
            b == (*self is RailCompany),
    {
        match self {
            Node::RailCompany(_) => true,
            _ => false,
        }
    }

    /// The node as a `RailCompany`, if it is one.
    pub fn as_rail_company(&self) -> (r: Option<&RailCompany>)
        ensures
            match r {
                Some(n) => *self == Node::RailCompany(*n),
                None => !(*self is RailCompany),
            },
    {
        match self {
            Node::RailCompany(n) => Some(n),
            _ => None,
        }
    }

    /// The node as a `RailCompany` open to change, if it is one. Otherwise the
    /// node stays as it is.
    pub fn as_rail_company_mut(&mut self) -> (r: Option<&mut RailCompany>)
        ensures
            match r {
                Some(n) => *old(self) == Node::RailCompany(*n) && *final(self) == Node::RailCompany(*final(n)),
                None => !(*old(self) is RailCompany) && *final(self) == *old(self),
            },
    {
        match self {
            Node::RailCompany(n) => Some(n),
            _ => None,
        }
    }

    /// The `RailCompany` inside the node, or the node itself if it is of
    /// another kind.
    pub fn into_rail_company(self) -> (r: Result<RailCompany, Node>)
        ensures
            match r {
                Ok(n) => self == Node::RailCompany(n),
                Err(other) => !(self is RailCompany) && other == self,
            },
    {
        match self {
            Node::RailCompany(n) => Ok(n),
            other => Err(other),
        }
    }

    /// Whether the node is of kind `RailLine`.
    pub fn is_rail_line(&self) -> (b: bool)
        ensures
            b == (*self is RailLine),
    {
        match self {
            Node::RailLine(_) => true,
            _ => false,
        }
    }

    /// The node as a `RailLine`, if it is one.
    pub fn as_rail_line(&self) -> (r: Option<&RailLine>)
        ensures
            match r {
                Some(n) => *self == Node::RailLine(*n),
                None => !(*self is RailLine),
            },
    {
        match self {
            Node::RailLine(n) => Some(n),
            _ => None,
        }
    }

    /// The node as a `RailLine` open to change, if it is one. Otherwise the
    /// node stays as it is.
    pub fn as_rail_line_mut(&mut self) -> (r: Option<&mut RailLine>)
        ensures
            match r {
                Some(n) => *old(self) == Node::RailLine(*n) && *final(self) == Node::RailLine(*final(n)),
                None => !(*old(self) is RailLine) && *final(self) == *old(self),
            },
    {
        match self {
            Node::RailLine(n) => Some(n),
            _ => None,
        }
    }

    /// The `RailLine` inside the node, or the node itself if it is of
    /// another kind.
    pub fn into_rail_line(self) -> (r: Result<RailLine, Node>)
        ensures
            match r {
                Ok(n) => self == Node::RailLine(n),
                Err(other) => !(self is RailLine) && other == self,
            },
    {
        match self {
            Node::RailLine(n) => Ok(n),
            other => Err(other),
        }
    }

    /// Whether the node is of kind `RailStation`.
    pub fn is_rail_station(&self) -> (b: bool)
        ensures
            b == (*self is RailStation),
    {
        match self {
            Node::RailStation(_) => true,
            _ => false,
        }
    }

    /// The node as a `RailStation`, if it is one.
    pub fn as_rail_station(&self) -> (r: Option<&RailStation>)
        ensures
            match r {
                Some(n) => *self == Node::RailStation(*n),
                None => !(*self is RailStation),
            },
    {
        match self {
            Node::RailStation(n) => Some(n),
            _ => None,
        }
    }

    /// The node as a `RailStation` open to change, if it is one. Otherwise the
    /// node stays as it is.
    pub fn as_rail_station_mut(&mut self) -> (r: Option<&mut RailStation>)
        ensures
            match r {
                Some(n) => *old(self) == Node::RailStation(*n) && *final(self) == Node::RailStation(*final(n)),
                None => !(*old(self) is RailStation) && *final(self) == *old(self),
            },
    {
        match self {
            Node::RailStation(n) => Some(n),
            _ => None,
        }
    }

    /// The `RailStation` inside the node, or the node itself if it is of
    /// another kind.
    pub fn into_rail_station(self) -> (r: Result<RailStation, Node>)
        ensures
            match r {
                Ok(n) => self == Node::RailStation(n),
                Err(other) => !(self is RailStation) && other == self,
            },
    {
        match self {
            Node::RailStation(n) => Ok(n),
            other => Err(other),
        }
    }

    /// Whether the node is of kind `SpawnWarp`.
    pub fn is_spawn_warp(&self) -> (b: bool)
        ensures
            b == (*self is SpawnWarp),
    {
        match self {
            Node::SpawnWarp(_) => true,
            _ => false,
        }
    }

    /// The node as a `SpawnWarp`, if it is one.
    pub fn as_spawn_warp(&self) -> (r: Option<&SpawnWarp>)
        ensures
            match r {
                Some(n) => *self == Node::SpawnWarp(*n),
                None => !(*self is SpawnWarp),
            },
    {
        match self {
            Node::SpawnWarp(n) => Some(n),
            _ => None,
        }
    }

    /// The node as a `SpawnWarp` open to change, if it is one. Otherwise the
    /// node stays as it is.
    pub fn as_spawn_warp_mut(&mut self) -> (r: Option<&mut SpawnWarp>)
        ensures
            match r {
                Some(n) => *old(self) == Node::SpawnWarp(*n) && *final(self) == Node::SpawnWarp(*final(n)),
                None => !(*old(self) is SpawnWarp) && *final(self) == *old(self),
            },
    {
        match self {
            Node::SpawnWarp(n) => Some(n),
            _ => None,
        }
    }

    /// The `SpawnWarp` inside the node, or the node itself if it is of
    /// another kind.
    pub fn into_spawn_warp(self) -> (r: Result<SpawnWarp, Node>)
        ensures
            match r {
                Ok(n) => self == Node::SpawnWarp(n),
                Err(other) => !(self is SpawnWarp) && other == self,
            },
    {
        match self {
            Node::SpawnWarp(n) => Ok(n),
            other => Err(other),
        }
    }

    /// Whether the node is of kind `Town`.
    pub fn is_town(&self) -> (b: bool)
        ensures
            b == (*self is Town),
    {
        match self {
            Node::Town(_) => true,
            _ => false,
        }
    }

    /// The node as a `Town`, if it is one.
    pub fn as_town(&self) -> (r: Option<&Town>)
        ensures
            match r {
                Some(n) => *self == Node::Town(*n),
                None => !(*self is Town),
            },
    {
        match self {
            Node::Town(n) => Some(n),
            _ => None,
        }
    }

    /// The node as a `Town` open to change, if it is one. Otherwise the
    /// node stays as it is.
    pub fn as_town_mut(&mut self) -> (r: Option<&mut Town>)
        ensures
            match r {
                Some(n) => *old(self) == Node::Town(*n) && *final(self) == Node::Town(*final(n)),
                None => !(*old(self) is Town) && *final(self) == *old(self),
            },
    {
        match self {
            Node::Town(n) => Some(n),
            _ => None,
        }
    }

    /// The `Town` inside the node, or the node itself if it is of
    /// another kind.
    pub fn into_town(self) -> (r: Result<Town, Node>)
        ensures
            match r {
                Ok(n) => self == Node::Town(n),
                Err(other) => !(self is Town) && other == self,
            },
    {
        match self {
            Node::Town(n) => Ok(n),
            other => Err(other),
        }
    }

}

} // verus!
