//! From the text of a page to the sightings it holds.
//!
//! Each page is searched with its own pattern. What the pattern captures is
//! turned into sightings here; which pattern belongs to which page is set
//! down in [`crate::pages`].

use crate::candidate::{Gate, GateView};
use crate::error::Error;
use crate::text::copy_text;
use vstd::prelude::*;
use vstd::string::StringExecFns;

verus! {

/// The longest airport code, in bytes.
pub const AIRPORT_CODE_BYTES: usize = 4;

/// What the pattern captures in the text: one row for each match, in the
/// order of the matches, and in each row what the group of each name
/// captured, in the order of the names, with `None` for a group that took no
/// part in the match or that the pattern does not have. `None` where the
/// pattern is not a valid regular expression.
pub uninterp spec fn regex_captures(
    pattern: Seq<char>,
    text: Seq<char>,
    names: Seq<Seq<char>>,
) -> Option<Seq<Seq<Option<Seq<char>>>>>;

/// Searches `text` with `pattern` and returns what the named groups
/// captured, match by match.
///
/// Trusted: this is `regex::Regex::new`, followed by `Regex::captures_iter`
/// on the text and `Captures::name` for each name. They depend on nothing
/// but the pattern, the text and the names. The rows are as long as `names`
/// because one entry is made for each name.
#[verifier::external_body]
fn captures(pattern: &str, text: &str, names: &Vec<String>) -> (rows: Option<
    Vec<Vec<Option<String>>>,
>)
    ensures
        rows.deep_view() == regex_captures(pattern@, text@, names.deep_view()),
        rows matches Some(found) ==> forall|i: int|
            0 <= i < found.len() ==> (#[trigger] found[i]).len() == names.len(),
{
    let re = regex::Regex::new(pattern).ok()?;
    Some(
        re.captures_iter(text).map(
            |c| names.iter().map(|n| c.name(n).map(|m| m.as_str().to_owned())).collect(),
        ).collect(),
    )
}

/// Whether `code` is short enough for an airport code.
pub open spec fn fits_airport_code(code: Seq<char>) -> bool {
    vstd::utf8::encode_utf8(code).len() <= AIRPORT_CODE_BYTES
}

/// The airport code that `text` gives, if it is short enough to be one.
///
/// Trusted: this is `arrayvec::ArrayString::<4>::try_from`, which copies the
/// text if it is at most four bytes long and fails otherwise.
#[verifier::external_body]
fn airport_code(text: &str) -> (code: Option<String>)
    ensures
        match code {
            Some(c) => fits_airport_code(text@) && c@ == text@,
            None => !fits_airport_code(text@),
        },
{
    arrayvec::ArrayString::<4>::try_from(text).ok().map(|code| code.as_str().to_owned())
}

/// The names of the groups that an airport's pattern may have: a gate's
/// code, the airline in either of two places, and its size.
pub open spec fn gate_groups() -> Seq<Seq<char>> {
    seq!["code"@, "airline"@, "airline2"@, "size"@]
}

/// The names of the groups that an airline's pattern may have: the two
/// airports, the two gates, the size and the flight's code.
pub open spec fn flight_groups() -> Seq<Seq<char>> {
    seq!["a1"@, "g1"@, "a2"@, "g2"@, "s"@, "code"@]
}

/// The sighting of a gate that one match on an airport's page gives. There
/// is none where the airport's code is too long or the match captured no
/// gate code. The airline is what the first airline group captured, else
/// what the second did.
pub open spec fn gate_of_row(page: Seq<char>, code: Seq<char>, row: Seq<Option<Seq<char>>>) -> Option<
    GateView,
> {
    if row.len() == 4 && fits_airport_code(code) && row[0] is Some {
        Some(
            GateView {
                airport: code,
                gate_code: row[0]->0,
                airline: if row[1] is Some {
                    row[1]
                } else {
                    row[2]
                },
                size: row[3],
                source: page,
            },
        )
    } else {
        None
    }
}

/// The sightings that the matches on an airport's page give, in the order of
/// the matches; a match that gives none is passed over.
pub open spec fn gates_of_rows(
    page: Seq<char>,
    code: Seq<char>,
    rows: Seq<Seq<Option<Seq<char>>>>,
) -> Seq<GateView>
    decreases rows.len(),
{
    if rows.len() == 0 {
        Seq::empty()
    } else {
        let before = gates_of_rows(page, code, rows.drop_last());
        match gate_of_row(page, code, rows.last()) {
            Some(g) => before.push(g),
            None => before,
        }
    }
}

/// The sighting of a flight that one match on an airline's page gives: the
/// two gates, each attributed to the airline and of the captured size, and
/// the flight's code behind the airline's prefix. There is none where the
/// match lacks an airport or the flight's code, or where an airport's code
/// is too long. A gate whose code was not captured has the unknown marker
/// for its code.
pub open spec fn flight_of_row(
    airline: Seq<char>,
    page: Seq<char>,
    prefix: Seq<char>,
    row: Seq<Option<Seq<char>>>,
) -> Option<(GateView, GateView, Seq<char>)> {
    if row.len() == 6 && row[0] is Some && row[2] is Some && row[5] is Some && fits_airport_code(
        row[0]->0,
    ) && fits_airport_code(row[2]->0) {
        Some(
            (
                GateView {
                    airport: row[0]->0,
                    gate_code: if row[1] is Some {
                        row[1]->0
                    } else {
                        crate::text::unknown_marker()
                    },
                    airline: Some(airline),
                    size: row[4],
                    source: page,
                },
                GateView {
                    airport: row[2]->0,
                    gate_code: if row[3] is Some {
                        row[3]->0
                    } else {
                        crate::text::unknown_marker()
                    },
                    airline: Some(airline),
                    size: row[4],
                    source: page,
                },
                prefix + row[5]->0,
            ),
        )
    } else {
        None
    }
}

/// The sightings that the matches on an airline's page give, in the order of
/// the matches; a match that gives none is passed over.
pub open spec fn flights_of_rows(
    airline: Seq<char>,
    page: Seq<char>,
    prefix: Seq<char>,
    rows: Seq<Seq<Option<Seq<char>>>>,
) -> Seq<(GateView, GateView, Seq<char>)>
    decreases rows.len(),
{
    if rows.len() == 0 {
        Seq::empty()
    } else {
        let before = flights_of_rows(airline, page, prefix, rows.drop_last());
        match flight_of_row(airline, page, prefix, rows.last()) {
            Some(f) => before.push(f),
            None => before,
        }
    }
}

/// The sighting of a gate that one match on an airport's page gives, if it
/// gives one.
pub fn gate_from_row(page: &str, code: &str, row: &Vec<Option<String>>) -> (gate: Option<Gate>)
    ensures
        gate.deep_view() == gate_of_row(page@, code@, row.deep_view()),
{
    if row.len() != 4 {
        return None;
    }
    let airport = match airport_code(code) {
        Some(a) => a,
        None => {
            return None;
        },
    };
    let gate_code = match &row[0] {
        Some(c) => c.clone(),
        None => {
            assert(row.deep_view()[0] is None);
            return None;
        },
    };
    let airline = match &row[1] {
        Some(a) => Some(a.clone()),
        None => copy_text(&row[2]),
    };
    let size = copy_text(&row[3]);
    assert(row.deep_view()[0] == Some(gate_code@));
    assert(row.deep_view()[1] == row[1].deep_view());
    assert(row.deep_view()[2] == row[2].deep_view());
    assert(row.deep_view()[3] == row[3].deep_view());
    Some(Gate { airport, gate_code, airline, size, source: String::from_str(page) })
}

/// The sightings of gates that the matches on an airport's page give.
pub fn gates_from_rows(page: &str, code: &str, rows: &Vec<Vec<Option<String>>>) -> (gates: Vec<Gate>)
    ensures
        gates.deep_view() == gates_of_rows(page@, code@, rows.deep_view()),
{
    let ghost all = rows.deep_view();
    let mut gates: Vec<Gate> = Vec::new();
    let mut i: usize = 0;
    assert(gates.deep_view() =~= gates_of_rows(page@, code@, all.subrange(0, 0)));
    while i < rows.len()
        invariant
            i <= rows.len(),
            all == rows.deep_view(),
            gates.deep_view() == gates_of_rows(page@, code@, all.subrange(0, i as int)),
        decreases rows.len() - i,
    {
        let ghost before = gates.deep_view();
        proof {
            let upto = all.subrange(0, i + 1);
            assert(upto.drop_last() =~= all.subrange(0, i as int));
            assert(upto.last() == rows[i as int].deep_view());
        }
        match gate_from_row(page, code, &rows[i]) {
            Some(g) => {
                gates.push(g);
                assert(gates.deep_view() =~= before.push(g.deep_view()));
            },
            None => {},
        }
        i += 1;
    }
    assert(all.subrange(0, rows.len() as int) =~= all);
    gates
}

/// The text of `row[i]`, or the unknown marker where the group captured
/// nothing.
fn code_or_unknown(cell: &Option<String>) -> (code: String)
    ensures
        code@ == if cell.deep_view() is Some {
            cell.deep_view()->0
        } else {
            crate::text::unknown_marker()
        },
{
    match cell {
        Some(c) => c.clone(),
        None => {
            proof {
                reveal_strlit("?");
                assert("?"@ =~= crate::text::unknown_marker());
            }
            String::from_str("?")
        },
    }
}

/// The sighting of a flight that one match on an airline's page gives, if it
/// gives one.
pub fn flight_from_row(airline: &str, page: &str, prefix: &str, row: &Vec<Option<String>>) -> (flight:
    Option<(Gate, Gate, String)>)
    ensures
        flight.deep_view() == flight_of_row(airline@, page@, prefix@, row.deep_view()),
{
    if row.len() != 6 {
        return None;
    }
    assert(row.deep_view()[0] == row[0].deep_view());
    assert(row.deep_view()[1] == row[1].deep_view());
    assert(row.deep_view()[2] == row[2].deep_view());
    assert(row.deep_view()[3] == row[3].deep_view());
    assert(row.deep_view()[4] == row[4].deep_view());
    assert(row.deep_view()[5] == row[5].deep_view());
    let from_airport = match &row[0] {
        Some(a) => match airport_code(a.as_str()) {
            Some(code) => code,
            None => {
                return None;
            },
        },
        None => {
            return None;
        },
    };
    let to_airport = match &row[2] {
        Some(a) => match airport_code(a.as_str()) {
            Some(code) => code,
            None => {
                return None;
            },
        },
        None => {
            return None;
        },
    };
    let number = match &row[5] {
        Some(code) => String::from_str(prefix).concat(code.as_str()),
        None => {
            return None;
        },
    };
    let from = Gate {
        airport: from_airport,
        gate_code: code_or_unknown(&row[1]),
        airline: Some(String::from_str(airline)),
        size: copy_text(&row[4]),
        source: String::from_str(page),
    };
    let to = Gate {
        airport: to_airport,
        gate_code: code_or_unknown(&row[3]),
        airline: Some(String::from_str(airline)),
        size: copy_text(&row[4]),
        source: String::from_str(page),
    };
    Some((from, to, number))
}

/// The sightings of flights that the matches on an airline's page give.
pub fn flights_from_rows(
    airline: &str,
    page: &str,
    prefix: &str,
    rows: &Vec<Vec<Option<String>>>,
) -> (flights: Vec<(Gate, Gate, String)>)
    ensures
        flights.deep_view() == flights_of_rows(airline@, page@, prefix@, rows.deep_view()),
{
    let ghost all = rows.deep_view();
    let mut flights: Vec<(Gate, Gate, String)> = Vec::new();
    let mut i: usize = 0;
    assert(flights.deep_view() =~= flights_of_rows(airline@, page@, prefix@, all.subrange(0, 0)));
    while i < rows.len()
        invariant
            i <= rows.len(),
            all == rows.deep_view(),
            flights.deep_view() == flights_of_rows(
                airline@,
                page@,
                prefix@,
                all.subrange(0, i as int),
            ),
        decreases rows.len() - i,
    {
        let ghost before = flights.deep_view();
        proof {
            let upto = all.subrange(0, i + 1);
            assert(upto.drop_last() =~= all.subrange(0, i as int));
            assert(upto.last() == rows[i as int].deep_view());
        }
        match flight_from_row(airline, page, prefix, &rows[i]) {
            Some(f) => {
                flights.push(f);
                assert(flights.deep_view() =~= before.push(f.deep_view()));
            },
            None => {},
        }
        i += 1;
    }
    assert(all.subrange(0, rows.len() as int) =~= all);
    flights
}

/// The group names as texts.
fn names_of(a: &str, b: &str, c: &str, d: &str) -> (names: Vec<String>)
    ensures
        names.deep_view() == seq![a@, b@, c@, d@],
{
    let mut names: Vec<String> = Vec::new();
    names.push(String::from_str(a));
    names.push(String::from_str(b));
    names.push(String::from_str(c));
    names.push(String::from_str(d));
    assert(names.deep_view() =~= seq![a@, b@, c@, d@]);
    names
}

/// Whether each match of the pattern in the text gives one cell for each of
/// the names.
pub open spec fn rows_are_full(pattern: Seq<char>, text: Seq<char>, names: Seq<Seq<char>>) -> bool {
    regex_captures(pattern, text, names) matches Some(rows) ==> forall|i: int|
        0 <= i < rows.len() ==> (#[trigger] rows[i]).len() == names.len()
}

/// What [`extractor`] returns for a page: the sightings that the matches
/// give, of which there may be none where every match is passed over; or
/// nothing where the pattern is no regular expression or matches nowhere in
/// the text.
pub open spec fn extracted_gates(
    page: Seq<char>,
    code: Seq<char>,
    pattern: Seq<char>,
    text: Seq<char>,
) -> Option<Seq<GateView>> {
    match regex_captures(pattern, text, gate_groups()) {
        Some(rows) => if rows.len() > 0 {
            Some(gates_of_rows(page, code, rows))
        } else {
            None
        },
        None => None,
    }
}

/// What [`extract`] returns for a page: the sightings that the matches give,
/// of which there may be none where every match is passed over; or nothing
/// where the pattern is no regular expression or matches nowhere in the
/// text.
pub open spec fn extracted_flights(
    airline: Seq<char>,
    page: Seq<char>,
    prefix: Seq<char>,
    pattern: Seq<char>,
    text: Seq<char>,
) -> Option<Seq<(GateView, GateView, Seq<char>)>> {
    match regex_captures(pattern, text, flight_groups()) {
        Some(rows) => if rows.len() > 0 {
            Some(flights_of_rows(airline, page, prefix, rows))
        } else {
            None
        },
        None => None,
    }
}

/// The sightings of gates on the page of the airport `code`, whose text is
/// `text`. The page's name is the tag of each sighting. A match that gives no
/// sighting is passed over, and the page may so yield none. Fails where the
/// pattern is no regular expression or matches nowhere in the text.
pub fn extractor(page: &str, code: &str, pattern: &str, text: &str) -> (r: Result<Vec<Gate>, Error>)
    ensures
        match r {
            Ok(gates) => extracted_gates(page@, code@, pattern@, text@) == Some(gates.deep_view()),
            Err(e) => {
                &&& extracted_gates(page@, code@, pattern@, text@) is None
                &&& e matches Error::ExtractionFailure(p)
                &&& p@ == page@
            },
        },
        rows_are_full(pattern@, text@, gate_groups()),
{
    let names = names_of("code", "airline", "airline2", "size");
    match captures(pattern, text, &names) {
        Some(rows) => {
            proof {
                let found = rows.deep_view();
                assert forall|i: int| 0 <= i < found.len() implies (#[trigger] found[i]).len()
                    == gate_groups().len() by {
                    assert(found[i].len() == rows[i].len());
                }
            }
            if rows.len() > 0 {
                Ok(gates_from_rows(page, code, &rows))
            } else {
                Err(Error::ExtractionFailure(String::from_str(page)))
            }
        },
        None => Err(Error::ExtractionFailure(String::from_str(page))),
    }
}

/// The sightings of flights on the page of an airline, whose text is `text`.
/// The page's name is the tag of each sighting. A match that gives no
/// sighting is passed over, and the page may so yield none. Fails where the
/// pattern is no regular expression or matches nowhere in the text.
pub fn extract(airline: &str, page: &str, prefix: &str, pattern: &str, text: &str) -> (r: Result<
    Vec<(Gate, Gate, String)>,
    Error,
>)
    ensures
        match r {
            Ok(flights) => extracted_flights(airline@, page@, prefix@, pattern@, text@) == Some(
                flights.deep_view(),
            ),
            Err(e) => {
                &&& extracted_flights(airline@, page@, prefix@, pattern@, text@) is None
                &&& e matches Error::ExtractionFailure(p)
                &&& p@ == page@
            },
        },
        rows_are_full(pattern@, text@, flight_groups()),
{
    let mut names = names_of("a1", "g1", "a2", "g2");
    let ghost four = names.deep_view();
    names.push(String::from_str("s"));
    let ghost five = names.deep_view();
    assert(five =~= four.push("s"@));
    names.push(String::from_str("code"));
    assert(names.deep_view() =~= five.push("code"@));
    assert(names.deep_view() =~= flight_groups());
    match captures(pattern, text, &names) {
        Some(rows) => {
            proof {
                let found = rows.deep_view();
                assert forall|i: int| 0 <= i < found.len() implies (#[trigger] found[i]).len()
                    == flight_groups().len() by {
                    assert(found[i].len() == rows[i].len());
                }
            }
            if rows.len() > 0 {
                Ok(flights_from_rows(airline, page, prefix, &rows))
            } else {
                Err(Error::ExtractionFailure(String::from_str(page)))
            }
        },
        None => Err(Error::ExtractionFailure(String::from_str(page))),
    }
}

} // verus!
