//! White space and the marker that stands for an unknown code.

use vstd::prelude::*;

verus! {

/// Whether `c` is white space, as Unicode's `White_Space` property lists it.
pub open spec fn is_white_space(c: char) -> bool {
    let n = c as u32;
    ||| 0x09 <= n <= 0x0d
    ||| n == 0x20
    ||| n == 0x85
    ||| n == 0xa0
    ||| n == 0x1680
    ||| 0x2000 <= n <= 0x200a
    ||| n == 0x2028
    ||| n == 0x2029
    ||| n == 0x202f
    ||| n == 0x205f
    ||| n == 0x3000
}

/// The text that stands for a code that is not known.
pub open spec fn unknown_marker() -> Seq<char> {
    seq!['?']
}

/// Whether `code` is the unknown marker once leading and trailing white
/// space is removed: one `?`, and nothing but white space around it.
pub open spec fn trims_to_unknown(code: Seq<char>) -> bool {
    exists|i: int|
        0 <= i < code.len() && #[trigger] code[i] == '?' && forall|j: int|
            0 <= j < code.len() && j != i ==> is_white_space(#[trigger] code[j])
}

/// Whether `c` is white space.
pub fn char_is_white_space(c: char) -> (b: bool)
    ensures
        b == is_white_space(c),
{
    let n: u32 = c as u32;
    (0x09 <= n && n <= 0x0d) || n == 0x20 || n == 0x85 || n == 0xa0 || n == 0x1680 || (0x2000 <= n
        && n <= 0x200a) || n == 0x2028 || n == 0x2029 || n == 0x202f || n == 0x205f || n
        == 0x3000
}

/// Whether `code` is exactly the unknown marker.
pub fn is_unknown_marker(code: &str) -> (b: bool)
    ensures
        b == (code@ == unknown_marker()),
{
    if code.unicode_len() != 1 {
        return false;
    }
    let c = code.get_char(0);
    proof {
        if c == '?' {
            assert(code@ =~= unknown_marker());
        } else {
            assert(unknown_marker()[0] == '?');
        }
    }
    c == '?'
}

/// Whether `code` is the unknown marker once leading and trailing white
/// space is removed.
pub fn is_unknown_code(code: &str) -> (b: bool)
    ensures
        b == trims_to_unknown(code@),
{
    let n = code.unicode_len();
    let mut i: usize = 0;
    let mut seen = false;
    let ghost mut at: int = 0;
    while i < n
        invariant
            n == code@.len(),
            i <= n,
            seen ==> 0 <= at < i && code@[at] == '?',
            forall|j: int| 0 <= j < i && !(seen && j == at) ==> is_white_space(#[trigger] code@[j]),
        decreases n - i,
    {
        let c = code.get_char(i);
        if c == '?' {
            if seen {
                proof {
                    // Two marks: whichever one is chosen, the other is no
                    // white space.
                    assert(!is_white_space('?'));
                    assert forall|k: int| 0 <= k < code@.len() && code@[k] == '?' implies !(
                    forall|j: int|
                        0 <= j < code@.len() && j != k ==> is_white_space(#[trigger] code@[j])) by {
                        if k == at {
                            assert(!is_white_space(code@[i as int]));
                        } else {
                            assert(!is_white_space(code@[at]));
                        }
                    }
                }
                return false;
            }
            seen = true;
            proof {
                at = i as int;
            }
        } else if !char_is_white_space(c) {
            proof {
                assert forall|k: int| 0 <= k < code@.len() && code@[k] == '?' implies !(
                forall|j: int|
                    0 <= j < code@.len() && j != k ==> is_white_space(#[trigger] code@[j])) by {
                    assert(!is_white_space(code@[i as int]));
                }
            }
            return false;
        }
        i += 1;
    }
    proof {
        if seen {
            assert(code@[at] == '?');
        } else {
            assert(!is_white_space('?'));
            assert forall|k: int| 0 <= k < code@.len() implies code@[k] != '?' by {
                assert(is_white_space(code@[k]));
            }
        }
    }
    seen
}

/// A copy of an optional text.
pub fn copy_text(text: &Option<String>) -> (copy: Option<String>)
    ensures
        copy.deep_view() == text.deep_view(),
{
    match text {
        Some(t) => Some(t.clone()),
        None => None,
    }
}

} // verus!
