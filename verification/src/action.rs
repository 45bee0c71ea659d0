//! The packed action word and its verified constructors and accessors.

use vstd::prelude::*;

use crate::error::ParseActionError;
use crate::error::decimal_string;
use crate::model::ActionView;
use crate::model::action_model;
use crate::model::code_direction;
use crate::model::dec;
use crate::model::dir_code;
use crate::model::first_bad_leap_at;
use crate::model::first_oob_at;
use crate::model::indices_of;
use crate::model::is_jump_seq;
use crate::model::leap_direction;
use crate::model::square_ok;
use crate::model::step_direction;
use crate::model::vector_err;
use crate::model::vector_ok;
use crate::model::digits_only;
use crate::model::digits_val;
use crate::model::first_bad_token_at;
use crate::model::lemma_digits_push;
use crate::model::lemma_digits_val_nonneg;
use crate::model::lemma_split_dash_boundary;
use crate::model::lemma_split_dash_step;
use crate::model::movetext_err;
use crate::model::split_dash;
use crate::model::token_digits;
use crate::model::token_ok;
use crate::model::token_val;
use crate::model::token_values;
use crate::model::tokens_ok;
use vstd::string::StrSliceExecFns;

verus! {

/// Writing the destination above the source touches neither the low five
/// bits nor anything from bit 10 up.
proof fn lemma_pack_squares(s: u32, d: u32)
    by (bit_vector)
    requires
        s <= 31,
        d <= 31,
    ensures
        (s | d << 5) & 31 == s,
        ((s | d << 5) >> 5) & 31 == d,
        ((s | d << 5) >> 10) & 15 == 0,
        (s | d << 5) >> 10 == 0,
{
}

/// Writing the leap count into bits 10-14 of a word whose bits from 10 up
/// are clear keeps the two squares and leaves the direction slots clear.
proof fn lemma_pack_count(b: u32, jl: u32)
    by (bit_vector)
    requires
        b >> 10 == 0,
        jl <= 8,
    ensures
        (b | jl << 10) & 31 == b & 31,
        ((b | jl << 10) >> 5) & 31 == (b >> 5) & 31,
        ((b | jl << 10) >> 10) & 15 == jl,
        (b | jl << 10) >> 15 == 0,
{
}

/// Writing a 2-bit code at bit `s` of a word whose bits from `s` up are
/// clear keeps the fields below bit 15, fills the slot at `s`, and leaves
/// the bits above the slot clear.
proof fn lemma_pack_direction(d: u32, c: u32, s: u32)
    by (bit_vector)
    requires
        15 <= s <= 29,
        c <= 3,
        d >> s == 0,
    ensures
        (d | c << s) & 31 == d & 31,
        ((d | c << s) >> 5) & 31 == (d >> 5) & 31,
        ((d | c << s) >> 10) & 15 == (d >> 10) & 15,
        ((d | c << s) >> s) & 3 == c,
        (d | c << s) >> (s + 2) == 0,
{
}

/// Writing a 2-bit code at bit `s` does not change a 2-bit slot that ends
/// below bit `s`.
proof fn lemma_pack_direction_keeps(d: u32, c: u32, s: u32, t: u32)
    by (bit_vector)
    requires
        15 <= t,
        t + 2 <= s,
        s <= 29,
        c <= 3,
    ensures
        ((d | c << s) >> t) & 3 == (d >> t) & 3,
{
}

/// One of the four diagonal directions a checkers piece can move in.
#[derive(Debug, PartialEq, Eq, Structural, Clone, Copy)]
pub enum Direction {
    UpLeft,
    UpRight,
    DownLeft,
    DownRight,
}

/// The two kinds of checkers moves: a plain step or a capture sequence.
#[derive(Debug, PartialEq, Eq, Structural, Clone, Copy)]
pub enum ActionType {
    Move,
    Jump,
}

/// An action on a checkerboard, packed into one 32-bit word:
/// source in bits 0-4, destination in bits 5-9, number of leaps in bits
/// 10-14 (at most 8, so the top bit of the slot stays clear), and one 2-bit
/// direction code per leap from bit 15 up.
#[derive(Debug)]
pub struct Action(u32);

impl View for Action {
    type V = ActionView;

    closed spec fn view(&self) -> ActionView {
        ActionView {
            source: (self.0 & 31) as u8,
            destination: ((self.0 >> 5) & 31) as u8,
            jumps: Seq::new(
                ((self.0 >> 10) & 15) as nat,
                |i: int| code_direction((self.0 >> ((2 * i + 15) as u32)) & 3),
            ),
        }
    }
}

impl Action {
    /// The leap-count field never exceeds 8, so every direction slot that
    /// the count covers lies inside the word.
    #[verifier::type_invariant]
    closed spec fn wf(self) -> bool {
        (self.0 >> 10) & 15 <= 8
    }

    /// Creates a checkers action from a vector of 1-based position numbers.
    ///
    /// Every position is turned into a 0-based square index; the sequence is
    /// rejected if an index lies off the board or if its length does not fit
    /// a move. Two positions one diagonal step apart make a plain move;
    /// anything else is a capture sequence, whose consecutive pairs must
    /// each be one leap apart.
    pub fn new_from_vector(positions: Vec<u8>) -> (r: Result<Action, ParseActionError>)
        ensures
            r is Ok <==> vector_ok(indices_of(positions@)),
            r matches Ok(a) ==> a@ == action_model(indices_of(positions@)),
            r matches Err(e) ==> vector_err(indices_of(positions@), e),
    {
        let ghost q: Seq<u8> = indices_of(positions@);
        let n: usize = positions.len();

        // convert every position to a 0-based square index
        let mut idx: Vec<u8> = Vec::new();
        let mut i: usize = 0;
        while i < n
            invariant
                n == positions@.len(),
                i <= n,
                q == indices_of(positions@),
                idx@ == q.take(i as int),
            decreases n - i,
        {
            let p = positions[i];
            let v: u8 = if p == 0 {
                255
            } else {
                p - 1
            };
            assert(v == dec(positions@[i as int]));
            idx.push(v);
            proof {
                assert(idx@ =~= q.take(i as int + 1));
            }
            i = i + 1;
        }
        proof {
            assert(idx@ =~= q);
        }

        // reject the first square index that lies off the board
        let mut i: usize = 0;
        while i < n
            invariant
                n == idx@.len(),
                i <= n,
                idx@ == q,
                q == indices_of(positions@),
                forall|k: int| 0 <= k < i ==> q[k] <= 31,
            decreases n - i,
        {
            let v = idx[i];
            if v > 31 {
                proof {
                    assert(first_oob_at(q, i as int));
                    assert(!square_ok(q));
                }
                return Err(ParseActionError::PositionValueError { position: decimal_string(v) });
            }
            i = i + 1;
        }
        assert(square_ok(q));

        // reject a sequence too short or too long to be a move
        if n < 2 || n > 9 {
            return Err(ParseActionError::MoveQuantityError { quantity: n });
        }

        let source: u8 = idx[0];
        let destination: u8 = idx[n - 1];
        let mut data: u32 = source as u32 | ((destination as u32) << 5);
        proof {
            lemma_pack_squares(source as u32, destination as u32);
        }

        let delta: u8 = if source >= destination {
            source - destination
        } else {
            destination - source
        };

        // a capture sequence: more than two positions, or endpoints not one
        // diagonal step apart
        if n > 2 || (delta != 3 && delta != 4 && delta != 5) {
            assert(is_jump_seq(q));
            let jl: u32 = (n - 1) as u32;
            let base: u32 = data;
            data = data | (jl << 10);
            proof {
                lemma_pack_count(base, jl);
            }

            // write the 2-bit code of each leap into its slot
            let mut i: usize = 0;
            while i < n - 1
                invariant
                    2 <= n <= 9,
                    n == idx@.len(),
                    idx@ == q,
                    q == indices_of(positions@),
                    square_ok(q),
                    is_jump_seq(q),
                    source == q[0],
                    destination == q[n - 1],
                    i <= n - 1,
                    data & 31 == source as u32,
                    (data >> 5) & 31 == destination as u32,
                    (data >> 10) & 15 == (n - 1) as u32,
                    forall|j: int|
                        0 <= j < i ==> (#[trigger] leap_direction(q[j + 1] - q[j])) is Some,
                    forall|j: int|
                        0 <= j < i ==> (data >> ((2 * j + 15) as u32)) & 3 == dir_code(
                            #[trigger] leap_direction(q[j + 1] - q[j]).unwrap(),
                        ),
                    data >> ((2 * i as int + 15) as u32) == 0,
                decreases n - 1 - i,
            {
                let a = idx[i];
                let b = idx[i + 1];
                let diff: i8 = b as i8 - a as i8;
                let code: u32 = if diff == -9 {
                    0
                } else if diff == -7 {
                    1
                } else if diff == 7 {
                    2
                } else if diff == 9 {
                    3
                } else {
                    proof {
                        assert(first_bad_leap_at(q, i as int));
                    }
                    return Err(ParseActionError::PositionValueError {
                        position: decimal_string(a),
                    });
                };
                assert(leap_direction(q[i as int + 1] - q[i as int]) is Some);
                assert(code == dir_code(leap_direction(q[i as int + 1] - q[i as int]).unwrap()));
                let shift: u32 = (i as u32) * 2 + 15;
                let prev: u32 = data;
                data = data | (code << shift);
                proof {
                    assert(shift == (2 * i as int + 15) as u32);
                    lemma_pack_direction(prev, code, shift);
                    assert forall|j: int| 0 <= j < i implies (data >> ((2 * j + 15) as u32)) & 3
                        == dir_code(#[trigger] leap_direction(q[j + 1] - q[j]).unwrap()) by {
                        lemma_pack_direction_keeps(prev, code, shift, (2 * j + 15) as u32);
                    }
                    assert((2 * (i as int + 1) + 15) as u32 == shift + 2);
                }
                i = i + 1;
            }

            let act = Action(data);
            proof {
                assert(act@.jumps =~= action_model(q).jumps);
                assert(act@ =~= action_model(q));
            }
            Ok(act)
        } else {
            assert(!is_jump_seq(q));
            let act = Action(data);
            proof {
                assert(act@.jumps =~= action_model(q).jumps);
                assert(act@ =~= action_model(q));
            }
            Ok(act)
        }
    }

    /// Creates a checkers action from a movetext string: 1-based position
    /// numbers separated by hyphens, as movetext notation writes them.
    ///
    /// Each token must parse as a one-byte unsigned number; the numbers are
    /// then encoded as by [`Action::new_from_vector`]. A token that does not
    /// parse is reported verbatim.
    pub fn new_from_movetext(movetext: &str) -> (r: Result<Action, ParseActionError>)
        ensures
            r is Ok <==> (tokens_ok(split_dash(movetext@)) && vector_ok(
                indices_of(token_values(split_dash(movetext@))),
            )),
            r matches Ok(a) ==> a@ == action_model(indices_of(token_values(split_dash(movetext@)))),
            r matches Err(e) ==> movetext_err(movetext@, e),
    {
        let ghost s: Seq<char> = movetext@;
        let n: usize = movetext.unicode_len();
        let mut positions: Vec<u8> = Vec::new();
        let mut tok_start: usize = 0;
        // the digit part of the token being read holds only digits so far
        let mut only_digits: bool = true;
        // its value still fits in one byte (meaningful while only_digits)
        let mut fits: bool = true;
        // its value (meaningful while only_digits and fits)
        let mut val: u8 = 0;
        // it holds at least one digit or sign character
        let mut seen: bool = false;
        let mut i: usize = 0;
        while i < n
            invariant
                s == movetext@,
                n as nat == s.len(),
                tok_start <= i <= n,
                ({
                    let t = split_dash(s.take(i as int));
                    let cur = s.subrange(tok_start as int, i as int);
                    let u = token_digits(cur);
                    &&& t.len() == positions@.len() + 1
                    &&& forall|j: int| 0 <= j < positions@.len() ==> #[trigger] token_ok(t[j])
                    &&& forall|j: int|
                        0 <= j < positions@.len() ==> positions@[j] == token_val(#[trigger] t[j])
                    &&& t[t.len() - 1] == cur
                    &&& only_digits == digits_only(u)
                    &&& (only_digits ==> (fits == (digits_val(u) <= 255)))
                    &&& ((only_digits && fits) ==> val as int == digits_val(u))
                    &&& seen == (u.len() > 0)
                }),
            decreases n - i,
        {
            let ghost t = split_dash(s.take(i as int));
            let ghost cur = s.subrange(tok_start as int, i as int);
            let ghost u = token_digits(cur);
            let c = movetext.get_char(i);
            proof {
                lemma_split_dash_step(s, i as int);
            }
            if c == '-' {
                // the token ends here: it must parse as a one-byte number
                if only_digits && fits && seen {
                    proof {
                        lemma_digits_val_nonneg(u);
                        assert(token_ok(cur));
                        assert(token_val(cur) == val);
                    }
                    positions.push(val);
                } else {
                    proof {
                        assert(!token_ok(cur));
                        lemma_split_dash_boundary(s, i as int);
                        assert(first_bad_token_at(split_dash(s), positions@.len() as int));
                    }
                    let tok = movetext.substring_char(tok_start, i);
                    return Err(ParseActionError::PositionValueError { position: tok.to_owned() });
                }
                tok_start = i + 1;
                only_digits = true;
                fits = true;
                val = 0;
                seen = false;
                proof {
                    assert(s.subrange(tok_start as int, i as int + 1) =~= Seq::<char>::empty());
                }
            } else if i == tok_start && c == '+' {
                // a leading sign: legal, but not yet a digit
                proof {
                    assert(s.subrange(tok_start as int, i as int + 1) =~= cur.push(c));
                    assert(cur.len() == 0);
                    assert(token_digits(cur.push(c)) =~= u);
                }
            } else {
                proof {
                    assert(s.subrange(tok_start as int, i as int + 1) =~= cur.push(c));
                    assert(token_digits(cur.push(c)) =~= u.push(c));
                    lemma_digits_push(u, c);
                }
                let cu: u32 = c as u32;
                if only_digits && 48 <= cu && cu <= 57 {
                    let dv: u32 = cu - 48;
                    if fits {
                        let nv: u32 = (val as u32) * 10 + dv;
                        if nv > 255 {
                            fits = false;
                        } else {
                            val = nv as u8;
                        }
                    }
                } else {
                    only_digits = false;
                }
                seen = true;
            }
            i = i + 1;
        }

        // the last token ends with the text
        proof {
            assert(s.take(n as int) =~= s);
        }
        let ghost cur = s.subrange(tok_start as int, n as int);
        let ghost u = token_digits(cur);
        if only_digits && fits && seen {
            proof {
                lemma_digits_val_nonneg(u);
                assert(token_ok(cur));
                assert(token_val(cur) == val);
            }
            positions.push(val);
            proof {
                assert(positions@ =~= token_values(split_dash(s)));
            }
            Action::new_from_vector(positions)
        } else {
            proof {
                assert(!token_ok(cur));
                assert(first_bad_token_at(split_dash(s), positions@.len() as int));
            }
            let tok = movetext.substring_char(tok_start, n);
            Err(ParseActionError::PositionValueError { position: tok.to_owned() })
        }
    }

    /// Returns the starting square of the action, as a 0-based index.
    #[inline]
    pub fn source(&self) -> (r: u8)
        ensures
            r == self@.source,
    {
        (self.0 & 31) as u8
    }

    /// Returns the final square of the action, as a 0-based index.
    #[inline]
    pub fn destination(&self) -> (r: u8)
        ensures
            r == self@.destination,
    {
        ((self.0 >> 5) & 31) as u8
    }

    /// Returns how many capturing leaps the action makes; zero for a plain
    /// move.
    #[inline]
    pub fn jump_len(&self) -> (r: u8)
        ensures
            r as nat == self@.jumps.len(),
    {
        proof {
            let w: u32 = self.0;
            assert((w >> 10) & 15 <= 15) by (bit_vector);
        }
        ((self.0 >> 10) & 15) as u8
    }

    /// Returns the direction of the leap at index `i`, or nothing when the
    /// action has no leap with that index; the 2-bit code is turned into a
    /// direction by an explicit, total mapping.
    #[inline]
    pub fn jump_direction(&self, i: u8) -> (r: Option<Direction>)
        ensures
            r == (if (i as nat) < self@.jumps.len() {
                Some(self@.jumps[i as int])
            } else {
                None::<Direction>
            }),
    {
        proof {
            use_type_invariant(self);
        }
        if i >= self.jump_len() {
            return None;
        }
        let shift: u32 = (i as u32) * 2 + 15;
        let val: u32 = (self.0 >> shift) & 3;
        proof {
            let w: u32 = self.0;
            let s: u32 = shift;
            assert((w >> s) & 3 <= 3) by (bit_vector);
        }
        if val == 0 {
            Some(Direction::UpLeft)
        } else if val == 1 {
            Some(Direction::UpRight)
        } else if val == 2 {
            Some(Direction::DownLeft)
        } else {
            Some(Direction::DownRight)
        }
    }

    /// Returns the diagonal direction of a plain move, or nothing for a
    /// capture sequence or when the two squares are not one step apart.
    pub fn move_direction(&self) -> (r: Option<Direction>)
        ensures
            r == (if self@.jumps.len() == 0 {
                step_direction(self@.source, self@.destination)
            } else {
                None::<Direction>
            }),
    {
        if self.action_type() == ActionType::Jump {
            return None;
        }
        proof {
            let w: u32 = self.0;
            assert(w & 31 <= 31 && (w >> 5) & 31 <= 31) by (bit_vector);
        }
        let source = self.source();
        let destination = self.destination();
        let diff: i8 = destination as i8 - source as i8;
        if source / 4 % 2 == 0 {
            if diff == -4 {
                Some(Direction::UpLeft)
            } else if diff == -3 {
                Some(Direction::UpRight)
            } else if diff == 4 {
                Some(Direction::DownLeft)
            } else if diff == 5 {
                Some(Direction::DownRight)
            } else {
                None
            }
        } else {
            if diff == -5 {
                Some(Direction::UpLeft)
            } else if diff == -4 {
                Some(Direction::UpRight)
            } else if diff == 3 {
                Some(Direction::DownLeft)
            } else if diff == 4 {
                Some(Direction::DownRight)
            } else {
                None
            }
        }
    }

    /// Returns whether the action is a plain move or a capture sequence:
    /// a jump exactly when it has at least one leap.
    #[inline]
    pub fn action_type(&self) -> (r: ActionType)
        ensures
            r == (if self@.jumps.len() == 0 {
                ActionType::Move
            } else {
                ActionType::Jump
            }),
    {
        match self.jump_len() {
            0 => ActionType::Move,
            _ => ActionType::Jump,
        }
    }
}

} // verus!
