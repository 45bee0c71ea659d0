use vstd::prelude::*;
use vstd::string::StringExecFns;

use crate::model::dec_chars;
use crate::model::digit_char;

verus! {

/// The ways in which building an [`crate::Action`] can fail.
#[derive(Debug, PartialEq, Eq)]
pub enum ParseActionError {
    /// A token was not a number, a square index fell outside the board, or a
    /// step delta matched no diagonal leap. Carries the offending token or
    /// index, rendered verbatim.
    PositionValueError { position: String },
    /// The position sequence was too short or too long to be a move.
    /// Carries the actual number of positions.
    MoveQuantityError { quantity: usize },
}

/// The single-character string of one decimal digit.
fn digit_str(d: u8) -> (r: &'static str)
    requires
        d <= 9,
    ensures
        r@ == seq![digit_char(d)],
{
    proof {
        reveal_strlit("0");
        reveal_strlit("1");
        reveal_strlit("2");
        reveal_strlit("3");
        reveal_strlit("4");
        reveal_strlit("5");
        reveal_strlit("6");
        reveal_strlit("7");
        reveal_strlit("8");
        reveal_strlit("9");
    }
    let r: &'static str = if d == 0 {
        "0"
    } else if d == 1 {
        "1"
    } else if d == 2 {
        "2"
    } else if d == 3 {
        "3"
    } else if d == 4 {
        "4"
    } else if d == 5 {
        "5"
    } else if d == 6 {
        "6"
    } else if d == 7 {
        "7"
    } else if d == 8 {
        "8"
    } else {
        "9"
    };
    assert(r@ =~= seq![digit_char(d)]);
    r
}

/// The decimal rendering of a byte, for the context of an error value.
pub(crate) fn decimal_string(n: u8) -> (s: String)
    ensures
        s@ == dec_chars(n),
{
    if n < 10 {
        String::from_str(digit_str(n))
    } else if n < 100 {
        let s = String::from_str(digit_str(n / 10));
        let s = s.concat(digit_str(n % 10));
        assert(s@ =~= dec_chars(n));
        s
    } else {
        let s = String::from_str(digit_str(n / 100));
        let s = s.concat(digit_str(n / 10 % 10));
        let s = s.concat(digit_str(n % 10));
        assert(s@ =~= dec_chars(n));
        s
    }
}

} // verus!
