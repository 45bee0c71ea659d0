//! The mathematical model of a checkers move.
//!
//! The contracts of [`crate::Action`] are stated over these spec functions:
//! conversion of 1-based position numbers to 0-based square indices,
//! classification of a position sequence as a plain move or a capture
//! sequence, the direction of a single leap or step, and the decimal
//! rendering used by error values.

use vstd::prelude::*;

use crate::action::Direction;
use crate::error::ParseActionError;

verus! {

/// The abstract content of a packed action: the two squares and the ordered
/// leap directions (empty for a plain move).
#[verifier::ext_equal]
pub ghost struct ActionView {
    pub source: u8,
    pub destination: u8,
    pub jumps: Seq<Direction>,
}

/// The 0-based square index of a 1-based position number, with the same
/// wrap-around as a one-byte subtraction: position 0 becomes 255 and is
/// later rejected as out of range.
pub open spec fn dec(p: u8) -> u8 {
    if p == 0 {
        255u8
    } else {
        (p - 1) as u8
    }
}

/// Every position of the sequence turned into a 0-based square index.
pub open spec fn indices_of(p: Seq<u8>) -> Seq<u8> {
    p.map_values(|x: u8| dec(x))
}

/// All square indices lie on the board.
pub open spec fn square_ok(q: Seq<u8>) -> bool {
    forall|i: int| 0 <= i < q.len() ==> q[i] <= 31
}

/// The sequence is long enough for a move and short enough for the packed
/// word: a source, a destination, and at most 8 leaps.
pub open spec fn len_ok(q: Seq<u8>) -> bool {
    2 <= q.len() <= 9
}

/// The absolute difference of two square indices.
pub open spec fn abs_diff(a: u8, b: u8) -> int {
    if a >= b {
        a - b
    } else {
        b - a
    }
}

/// A sequence of square indices encodes a capture: it has more than two
/// positions, or its endpoints are not one diagonal step apart (the only
/// deltas a plain step can produce are 3, 4 and 5).
pub open spec fn is_jump_seq(q: Seq<u8>) -> bool {
    let d = abs_diff(q[0], q[q.len() - 1]);
    q.len() > 2 || !(d == 3 || d == 4 || d == 5)
}

/// The diagonal direction of one capturing leap, from the signed delta of
/// its two square indices; deltas other than -9, -7, 7 and 9 join no two
/// leap-adjacent squares.
pub open spec fn leap_direction(diff: int) -> Option<Direction> {
    if diff == -9 {
        Some(Direction::UpLeft)
    } else if diff == -7 {
        Some(Direction::UpRight)
    } else if diff == 7 {
        Some(Direction::DownLeft)
    } else if diff == 9 {
        Some(Direction::DownRight)
    } else {
        None
    }
}

/// Every consecutive pair of the sequence is one leap apart.
pub open spec fn leaps_ok(q: Seq<u8>) -> bool {
    forall|i: int| 0 <= i < q.len() - 1 ==> #[trigger] leap_direction(q[i + 1] - q[i]) is Some
}

/// A sequence of square indices builds an action: its constructors succeed
/// exactly on these sequences.
pub open spec fn vector_ok(q: Seq<u8>) -> bool {
    &&& square_ok(q)
    &&& len_ok(q)
    &&& is_jump_seq(q) ==> leaps_ok(q)
}

/// The action a valid sequence of square indices encodes: first element as
/// source, last as destination, and for a capture sequence the direction of
/// each consecutive leap in order.
pub open spec fn action_model(q: Seq<u8>) -> ActionView {
    ActionView {
        source: q[0],
        destination: q[q.len() - 1],
        jumps: if is_jump_seq(q) {
            Seq::new((q.len() - 1) as nat, |i: int| leap_direction(q[i + 1] - q[i]).unwrap())
        } else {
            Seq::empty()
        },
    }
}

/// The 2-bit numeric code of a direction, in declaration order.
pub open spec fn dir_code(d: Direction) -> u32 {
    match d {
        Direction::UpLeft => 0,
        Direction::UpRight => 1,
        Direction::DownLeft => 2,
        Direction::DownRight => 3,
    }
}

/// The direction a 2-bit numeric code stands for; total, so that decoding
/// is an explicit mapping rather than a reinterpretation of bits.
pub open spec fn code_direction(c: u32) -> Direction {
    if c == 0 {
        Direction::UpLeft
    } else if c == 1 {
        Direction::UpRight
    } else if c == 2 {
        Direction::DownLeft
    } else {
        Direction::DownRight
    }
}

/// The diagonal direction of a plain (non-capturing) step, from the two
/// square indices. Squares sit four to a row; rows alternate a half-square
/// offset, so the step deltas depend on the parity of the source row.
pub open spec fn step_direction(source: u8, destination: u8) -> Option<Direction> {
    let diff = destination - source;
    if (source / 4) % 2 == 0 {
        if diff == -4 {
            Some(Direction::UpLeft)
        } else if diff == -3 {
            Some(Direction::UpRight)
        } else if diff == 4 {
            Some(Direction::DownLeft)
        } else if diff == 5 {
            Some(Direction::DownRight)
        } else {
            None
        }
    } else {
        if diff == -5 {
            Some(Direction::UpLeft)
        } else if diff == -4 {
            Some(Direction::UpRight)
        } else if diff == 3 {
            Some(Direction::DownLeft)
        } else if diff == 4 {
            Some(Direction::DownRight)
        } else {
            None
        }
    }
}

/// Index `i` holds the first square index that lies off the board.
pub open spec fn first_oob_at(q: Seq<u8>, i: int) -> bool {
    &&& 0 <= i < q.len()
    &&& q[i] > 31
    &&& forall|j: int| 0 <= j < i ==> q[j] <= 31
}

/// Index `i` starts the first consecutive pair of the sequence that no
/// single leap joins.
pub open spec fn first_bad_leap_at(q: Seq<u8>, i: int) -> bool {
    &&& 0 <= i < q.len() - 1
    &&& leap_direction(q[i + 1] - q[i]) is None
    &&& forall|j: int| 0 <= j < i ==> #[trigger] leap_direction(q[j + 1] - q[j]) is Some
}

/// The exact error a sequence of square indices is rejected with: the first
/// off-board index, rendered in decimal, before anything else; then the
/// length when it does not fit a move; then, for a capture sequence, the
/// square starting the first step that no leap joins.
pub open spec fn vector_err(q: Seq<u8>, e: ParseActionError) -> bool {
    match e {
        ParseActionError::PositionValueError { position } => {
            (!square_ok(q) && (exists|i: int|
                #[trigger] first_oob_at(q, i) && position@ == dec_chars(q[i]))) || (square_ok(q)
                && len_ok(q) && is_jump_seq(q) && (exists|i: int|
                #[trigger] first_bad_leap_at(q, i) && position@ == dec_chars(q[i])))
        },
        ParseActionError::MoveQuantityError { quantity } => {
            square_ok(q) && !len_ok(q) && quantity == q.len()
        },
    }
}

/// The character is a decimal digit.
pub open spec fn is_digit(c: char) -> bool {
    48 <= c as u32 <= 57
}

/// The numeric value of a digit character.
pub open spec fn digit_val(c: char) -> int {
    c as u32 - 48
}

/// Every character of the sequence is a decimal digit.
pub open spec fn digits_only(u: Seq<char>) -> bool {
    forall|i: int| 0 <= i < u.len() ==> is_digit(#[trigger] u[i])
}

/// The number a sequence of digit characters denotes, most significant
/// first.
pub open spec fn digits_val(u: Seq<char>) -> int
    decreases u.len(),
{
    if u.len() == 0 {
        0
    } else {
        digits_val(u.drop_last()) * 10 + digit_val(u.last())
    }
}

/// The digit part of a token: everything after one optional leading plus
/// sign, which an unsigned decimal number may carry.
pub open spec fn token_digits(t: Seq<char>) -> Seq<char> {
    if t.len() > 0 && t[0] == '+' {
        t.drop_first()
    } else {
        t
    }
}

/// The token parses as a one-byte unsigned number: at least one digit after
/// the optional sign, nothing but digits, and a value that fits in a byte.
pub open spec fn token_ok(t: Seq<char>) -> bool {
    let u = token_digits(t);
    u.len() > 0 && digits_only(u) && digits_val(u) <= 255
}

/// The number a valid token denotes.
pub open spec fn token_val(t: Seq<char>) -> u8 {
    digits_val(token_digits(t)) as u8
}

/// The movetext split on hyphens: adding a character either extends the
/// last token or, for a hyphen, opens a new empty one, so the empty text
/// holds one empty token and `k` hyphens make `k + 1` tokens.
pub open spec fn split_dash(s: Seq<char>) -> Seq<Seq<char>>
    decreases s.len(),
{
    if s.len() == 0 {
        seq![Seq::<char>::empty()]
    } else {
        let rest = split_dash(s.drop_last());
        if s.last() == '-' {
            rest.push(Seq::<char>::empty())
        } else {
            rest.update(rest.len() - 1, rest.last().push(s.last()))
        }
    }
}

/// Every token of the movetext parses as a one-byte number.
pub open spec fn tokens_ok(ts: Seq<Seq<char>>) -> bool {
    forall|j: int| 0 <= j < ts.len() ==> #[trigger] token_ok(ts[j])
}

/// The numbers the tokens denote, in order.
pub open spec fn token_values(ts: Seq<Seq<char>>) -> Seq<u8> {
    ts.map_values(|t: Seq<char>| token_val(t))
}

/// Token `k` is the first that does not parse as a one-byte number.
pub open spec fn first_bad_token_at(ts: Seq<Seq<char>>, k: int) -> bool {
    &&& 0 <= k < ts.len()
    &&& !token_ok(ts[k])
    &&& forall|j: int| 0 <= j < k ==> #[trigger] token_ok(ts[j])
}

/// The exact error a movetext is rejected with: the first token that does
/// not parse, carried verbatim, before anything else; otherwise whatever
/// error the parsed position sequence is rejected with.
pub open spec fn movetext_err(s: Seq<char>, e: ParseActionError) -> bool {
    let ts = split_dash(s);
    (!tokens_ok(ts) && (e matches ParseActionError::PositionValueError { position } && (exists|k: int|
        #[trigger] first_bad_token_at(ts, k) && position@ == ts[k]))) || (tokens_ok(ts)
        && vector_err(indices_of(token_values(ts)), e))
}

/// A sequence of digits denotes a number that is not negative.
pub proof fn lemma_digits_val_nonneg(u: Seq<char>)
    requires
        digits_only(u),
    ensures
        digits_val(u) >= 0,
    decreases u.len(),
{
    if u.len() > 0 {
        assert forall|j: int| 0 <= j < u.drop_last().len() implies is_digit(
            #[trigger] u.drop_last()[j],
        ) by {
            assert(u.drop_last()[j] == u[j]);
        }
        lemma_digits_val_nonneg(u.drop_last());
        assert(is_digit(u.last()));
    }
}

/// Appending a character to a digit sequence: the result is all digits
/// exactly when the sequence was and the character is one, and the denoted
/// number gains the character as its least significant digit.
pub proof fn lemma_digits_push(u: Seq<char>, c: char)
    ensures
        digits_only(u.push(c)) <==> digits_only(u) && is_digit(c),
        digits_val(u.push(c)) == digits_val(u) * 10 + digit_val(c),
{
    assert(u.push(c).drop_last() =~= u);
    assert(u.push(c).last() == c);
    if digits_only(u) && is_digit(c) {
        assert forall|k: int| 0 <= k < u.push(c).len() implies is_digit(#[trigger] u.push(c)[k]) by {
            if k < u.len() {
                assert(u.push(c)[k] == u[k]);
            }
        }
    }
    if digits_only(u.push(c)) {
        assert forall|k: int| 0 <= k < u.len() implies is_digit(#[trigger] u[k]) by {
            assert(u[k] == u.push(c)[k]);
        }
    }
}

/// A movetext splits into at least one token.
pub proof fn lemma_split_dash_len(s: Seq<char>)
    ensures
        split_dash(s).len() >= 1,
    decreases s.len(),
{
    if s.len() > 0 {
        lemma_split_dash_len(s.drop_last());
    }
}

/// Reading one more character of the movetext either extends the last
/// token or, at a hyphen, completes it and opens a new empty one.
pub proof fn lemma_split_dash_step(s: Seq<char>, i: int)
    requires
        0 <= i < s.len(),
    ensures
        ({
            let t = split_dash(s.take(i));
            split_dash(s.take(i + 1)) == if s[i] == '-' {
                t.push(Seq::<char>::empty())
            } else {
                t.update(t.len() - 1, t.last().push(s[i]))
            }
        }),
{
    assert(s.take(i + 1).drop_last() =~= s.take(i));
    assert(s.take(i + 1).last() == s[i]);
    lemma_split_dash_len(s.take(i));
}

/// The tokens completed before a hyphen are tokens of the whole movetext:
/// what follows the hyphen only adds tokens after them.
pub proof fn lemma_split_dash_boundary(s: Seq<char>, i: int)
    requires
        0 <= i < s.len(),
        s[i] == '-',
    ensures
        ({
            let t = split_dash(s.take(i));
            let f = split_dash(s);
            &&& f.len() > t.len()
            &&& forall|j: int| 0 <= j < t.len() ==> f[j] == t[j]
        }),
    decreases s.len(),
{
    let t = split_dash(s.take(i));
    lemma_split_dash_len(s.take(i));
    if i == s.len() - 1 {
        assert(s.drop_last() =~= s.take(i));
    } else {
        let s2 = s.drop_last();
        assert(s2.take(i) =~= s.take(i));
        lemma_split_dash_boundary(s2, i);
    }
}

/// Round trip: the action built from a valid sequence of 1-based positions
/// reproduces the sequence's structure exactly — the first position, less
/// one, as source; the last, less one, as destination; for a capture
/// sequence one leap per consecutive pair, each in the direction of its
/// pair's delta; and no leap for a plain move.
pub proof fn lemma_round_trip(p: Seq<u8>)
    requires
        vector_ok(indices_of(p)),
    ensures
        ({
            let q = indices_of(p);
            let m = action_model(q);
            &&& m.source == dec(p[0])
            &&& m.destination == dec(p[p.len() - 1])
            &&& m.jumps.len() == if is_jump_seq(q) {
                p.len() - 1
            } else {
                0
            }
            &&& forall|k: int|
                0 <= k < m.jumps.len() ==> Some(m.jumps[k]) == leap_direction(
                    dec(p[k + 1]) - dec(p[k]),
                )
        }),
{
    let q = indices_of(p);
    let m = action_model(q);
    if is_jump_seq(q) {
        assert forall|k: int| 0 <= k < m.jumps.len() implies Some(m.jumps[k]) == leap_direction(
            dec(p[k + 1]) - dec(p[k]),
        ) by {
            assert(leap_direction(q[k + 1] - q[k]) is Some);
        }
    }
}

/// Classification boundary: an action is a plain move, with no leaps,
/// exactly when its sequence has two positions whose squares differ by 3, 4
/// or 5; every other two-position delta and every longer sequence makes a
/// capture.
pub proof fn lemma_classification(q: Seq<u8>)
    requires
        vector_ok(q),
    ensures
        action_model(q).jumps.len() == 0 <==> (q.len() == 2 && (abs_diff(q[0], q[1]) == 3
            || abs_diff(q[0], q[1]) == 4 || abs_diff(q[0], q[1]) == 5)),
{
}

/// The character of one decimal digit.
pub open spec fn digit_char(d: u8) -> char {
    match d {
        0u8 => '0',
        1u8 => '1',
        2u8 => '2',
        3u8 => '3',
        4u8 => '4',
        5u8 => '5',
        6u8 => '6',
        7u8 => '7',
        8u8 => '8',
        _ => '9',
    }
}

/// The decimal rendering of a byte, without leading zeros.
pub open spec fn dec_chars(n: u8) -> Seq<char> {
    if n < 10 {
        seq![digit_char(n)]
    } else if n < 100 {
        seq![digit_char(n / 10), digit_char(n % 10)]
    } else {
        seq![digit_char(n / 100), digit_char((n / 10) % 10), digit_char(n % 10)]
    }
}

} // verus!
