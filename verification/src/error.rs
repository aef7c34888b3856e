//! What can go wrong when a graph is read or built.

use crate::node::ID;
use vstd::prelude::*;
use vstd::string::StringExecFns;

verus! {

/// The ways in which reading or building a graph fails.
#[derive(Debug)]
#[non_exhaustive]
pub enum Error {
    /// The graph holds no node with this identifier.
    NoNode(ID),
    /// The node with this identifier is not of the kind that was asked for;
    /// the text names the kind that was asked for.
    IncorrectType(ID, &'static str),
    /// The node with the first identifier refers to the second, and the
    /// graph holds no node of the expected kind under it.
    DanglingReference(ID, ID),
    /// The pattern of a page matched nowhere in its text, or is no pattern;
    /// the text names the page.
    ExtractionFailure(String),
    /// The graph has no identifiers left for the nodes that a record needs.
    IdentifiersExhausted,
    /// Anything else.
    Unknown,
}

/// The decimal digit for a number below ten.
pub open spec fn digit(d: nat) -> char {
    if d == 0 {
        '0'
    } else if d == 1 {
        '1'
    } else if d == 2 {
        '2'
    } else if d == 3 {
        '3'
    } else if d == 4 {
        '4'
    } else if d == 5 {
        '5'
    } else if d == 6 {
        '6'
    } else if d == 7 {
        '7'
    } else if d == 8 {
        '8'
    } else {
        '9'
    }
}

/// A number in decimal digits, without leading zeros.
pub open spec fn decimal(n: nat) -> Seq<char>
    decreases n,
{
    if n < 10 {
        seq![digit(n)]
    } else {
        decimal(n / 10).push(digit(n % 10))
    }
}

/// The error in words.
pub open spec fn message_of(e: Error) -> Seq<char> {
    match e {
        Error::NoNode(id) => "No node "@ + decimal(id as nat),
        Error::IncorrectType(id, kind) => decimal(id as nat) + " not "@ + kind@,
        Error::DanglingReference(from, to) => "node "@ + decimal(from as nat)
            + " refers to missing node "@ + decimal(to as nat),
        Error::ExtractionFailure(page) => "no match on "@ + page@,
        Error::IdentifiersExhausted => "no identifiers left"@,
        Error::Unknown => "unknown error"@,
    }
}

/// The decimal digit for a number below ten.
fn digit_text(d: u16) -> (text: &'static str)
    requires
        d < 10,
    ensures
        text@ == seq![digit(d as nat)],
{
    proof {
        reveal_strlit("0");
        reveal_strlit("1");
        reveal_strlit("2");
        reveal_strlit("3");
        reveal_strlit("4");
        reveal_strlit("5");
        reveal_strlit("6");
        reveal_strlit("7");
        reveal_strlit("8");
        reveal_strlit("9");
    }
    let text = if d == 0 {
        "0"
    } else if d == 1 {
        "1"
    } else if d == 2 {
        "2"
    } else if d == 3 {
        "3"
    } else if d == 4 {
        "4"
    } else if d == 5 {
        "5"
    } else if d == 6 {
        "6"
    } else if d == 7 {
        "7"
    } else if d == 8 {
        "8"
    } else {
        "9"
    };
    assert(text@ =~= seq![digit(d as nat)]);
    text
}

/// An identifier in decimal digits.
pub fn id_text(id: ID) -> (text: String)
    ensures
        text@ == decimal(id as nat),
    decreases id,
{
    if id < 10 {
        String::from_str(digit_text(id))
    } else {
        let front = id_text(id / 10);
        let text = front.concat(digit_text(id % 10));
        assert(text@ =~= decimal((id / 10) as nat).push(digit((id % 10) as nat)));
        text
    }
}

impl Error {
    /// The error in words.
    pub fn message(&self) -> (text: String)
        ensures
            text@ == message_of(*self),
    {
        match self {
            Error::NoNode(id) => {
                let number = id_text(*id);
                String::from_str("No node ").concat(number.as_str())
            },
            Error::IncorrectType(id, kind) => {
                id_text(*id).concat(" not ").concat(kind)
            },
            Error::DanglingReference(from, to) => {
                let a = id_text(*from);
                let b = id_text(*to);
                String::from_str("node ").concat(a.as_str()).concat(
                    " refers to missing node ",
                ).concat(b.as_str())
            },
            Error::ExtractionFailure(page) => {
                String::from_str("no match on ").concat(page.as_str())
            },
            Error::IdentifiersExhausted => String::from_str("no identifiers left"),
            Error::Unknown => String::from_str("unknown error"),
        }
    }
}

} // verus!
