//! Candidate records: single facts as a source gave them, not yet reconciled
//! with anything.

use crate::text::{is_unknown_code, trims_to_unknown};
use vstd::prelude::*;

verus! {

/// One sighting of a gate: the airport and gate code that identify it, what
/// the source said of its airline and size, and the source's tag.
#[derive(Clone, Debug)]
pub struct Gate {
    /// Code of the airport; the extractors keep it within four bytes.
    pub airport: String,
    /// Code of this gate, `?` where the source does not give it.
    pub gate_code: String,
    pub airline: Option<String>,
    pub size: Option<String>,
    /// Tag of the source that the record comes from.
    pub source: String,
}

/// One sighting of a flight.
#[derive(Clone, Debug)]
pub struct Flight {
    pub flight_no: String,
}

/// The mathematical content of a [`Gate`].
pub struct GateView {
    pub airport: Seq<char>,
    pub gate_code: Seq<char>,
    pub airline: Option<Seq<char>>,
    pub size: Option<Seq<char>>,
    pub source: Seq<char>,
}

impl DeepView for Gate {
    type V = GateView;

    open spec fn deep_view(&self) -> GateView {
        GateView {
            airport: self.airport@,
            gate_code: self.gate_code@,
            airline: self.airline.deep_view(),
            size: self.size.deep_view(),
            source: self.source@,
        }
    }
}

impl DeepView for Flight {
    type V = Seq<char>;

    open spec fn deep_view(&self) -> Seq<char> {
        self.flight_no@
    }
}

impl GateView {
    /// Whether two sightings are of one gate: the same airport and the same
    /// gate code, neither code being unknown. A sighting with an unknown code
    /// is of no gate in particular, not even of itself.
    pub open spec fn same_gate(self, other: GateView) -> bool {
        &&& !trims_to_unknown(self.gate_code)
        &&& !trims_to_unknown(other.gate_code)
        &&& self.airport == other.airport
        &&& self.gate_code == other.gate_code
    }
}

impl PartialEq for Gate {
    /// Whether two sightings are of one gate.
    fn eq(&self, other: &Gate) -> (same: bool) {
        if is_unknown_code(self.gate_code.as_str()) || is_unknown_code(other.gate_code.as_str()) {
            return false;
        }
        self.airport == other.airport && self.gate_code == other.gate_code
    }
}

impl vstd::std_specs::cmp::PartialEqSpecImpl for Gate {
    open spec fn obeys_eq_spec() -> bool {
        true
    }

    open spec fn eq_spec(&self, other: &Gate) -> bool {
        self.deep_view().same_gate(other.deep_view())
    }
}

impl PartialEq for Flight {
    /// Whether two sightings give the same flight number.
    fn eq(&self, other: &Flight) -> (same: bool) {
        self.flight_no == other.flight_no
    }
}

impl vstd::std_specs::cmp::PartialEqSpecImpl for Flight {
    open spec fn obeys_eq_spec() -> bool {
        true
    }

    open spec fn eq_spec(&self, other: &Flight) -> bool {
        self.flight_no@ == other.flight_no@
    }
}

/// Equality of sightings is symmetric, and no sighting with an unknown code
/// equals any sighting.
pub proof fn lemma_same_gate_symmetric(a: GateView, b: GateView)
    ensures
        a.same_gate(b) == b.same_gate(a),
        trims_to_unknown(a.gate_code) ==> !a.same_gate(b) && !a.same_gate(a),
{
}

} // verus!
