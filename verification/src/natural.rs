//! The order in which codes are shown: text by characters, runs of digits by
//! their number.

use vstd::prelude::*;

verus! {

/// How one code stands to another in the order of display.
#[derive(Clone, Copy, PartialEq, Eq, Structural, Debug)]
pub enum Standing {
    Before,
    Same,
    After,
}

/// How the code `a` stands to the code `b` in the order of display.
pub uninterp spec fn display_standing(a: Seq<char>, b: Seq<char>) -> Standing;

/// How the code `a` stands to the code `b` in the order of display.
///
/// Trusted: this is `alphanumeric_sort::compare_str`, which reads nothing
/// but the two texts.
#[verifier::external_body]
pub(crate) fn compare_codes(a: &str, b: &str) -> (standing: Standing)
    ensures
        standing == display_standing(a@, b@),
{
    match alphanumeric_sort::compare_str(a, b) {
        std::cmp::Ordering::Less => Standing::Before,
        std::cmp::Ordering::Equal => Standing::Same,
        std::cmp::Ordering::Greater => Standing::After,
    }
}

} // verus!
