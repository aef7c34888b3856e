//! Reconciliation of independently extracted transit records into one
//! cross-referenced graph of canonical nodes.
//!
//! Pages of a wiki tell, each in its own way, which gates an airport has and
//! which flights an airline runs between which gates. What a page yields is
//! a list of sightings: single facts, possibly partial, possibly told twice.
//! This crate turns the sightings into one graph in which every airport,
//! airline, gate and flight is one node, every field remembers the sources
//! that asserted it, and every relationship can be followed from both ends.
//!
//! - [`sourced`]: a value together with its sources.
//! - [`node`]: the kinds of node and what each records.
//! - [`candidate`]: sightings, and when two are of one gate.
//! - [`model`]: the rules of matching and merging, over the mathematical
//!   content of a graph.
//! - [`closure`]: what holds of every graph that the rules build.
//! - [`graph`]: the store of nodes, with the matcher and the merger.
//! - [`assembler`]: replay of sightings in order.
//! - [`laws`]: what follows for every graph that is built.
//! - [`data`]: the published graph and lookup by kind.
//! - [`integrity`]: whether every reference of a published graph resolves.
//! - [`extract`], [`pages`]: from the text of a page to its sightings.
//! - [`serving`], [`natural`]: the graph of gates and flights that is
//!   served, and the rows that are shown for an airport.
//! - [`cors`]: the headers that the service adds to its answers.
//! - [`text`], [`error`]: white space and the unknown marker; failures.

pub mod assembler;
pub mod candidate;
pub mod closure;
pub mod cors;
pub mod data;
pub mod error;
pub mod extract;
pub mod graph;
pub mod integrity;
pub mod laws;
pub mod model;
pub mod natural;
pub mod node;
pub mod pages;
pub mod serving;
pub mod sourced;
pub mod text;
