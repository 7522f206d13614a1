//! Positions and their notations.
//!
//! A position on the board is written three ways: as a [`Move`] (a
//! `(column, row)` pair, each in `0..8`), as a linear index `row * 8 + column`
//! in `0..64`, or in algebraic notation (a column letter `a`..`h` followed by
//! a row digit `1`..`8`, as in `"d3"`). This module converts between the
//! three, and between a 64-bit cell mask and the list of indices it holds.

use vstd::prelude::*;
use vstd::arithmetic::div_mod::{lemma_fundamental_div_mod, lemma_fundamental_div_mod_converse};

use crate::bits::has_bit;
use crate::error::OthelloError;

verus! {

/// A position on the Othello board.
#[derive(Debug, Clone, Copy, PartialEq, Eq, Structural)]
pub struct Move {
    pub col: u8,
    pub row: u8,
}

/// The linear index of the cell a move names.
pub open spec fn move_index(m: Move) -> int {
    m.row * 8 + m.col
}

/// The move that names the cell with linear index `i`.
pub open spec fn move_of_index(i: int) -> Move {
    Move { col: (i % 8) as u8, row: (i / 8) as u8 }
}

/// Whether `s` is a well-formed algebraic notation: exactly two characters,
/// a lowercase column letter `a`..`h` and a row digit `1`..`8`.
pub open spec fn valid_algebric(s: Seq<char>) -> bool {
    &&& s.len() == 2
    &&& 'a' as int <= s[0] as int <= 'h' as int
    &&& '1' as int <= s[1] as int <= '8' as int
}

/// The move a well-formed algebraic notation names; `None` otherwise.
pub open spec fn parse_algebric(s: Seq<char>) -> Option<Move> {
    if valid_algebric(s) {
        Some(
            Move {
                col: (s[0] as int - 'a' as int) as u8,
                row: (s[1] as int - '1' as int) as u8,
            },
        )
    } else {
        None
    }
}

/// The algebraic notation of a move with both coordinates in `0..8`.
pub open spec fn render_algebric(m: Move) -> Seq<char> {
    seq![
        ((('a' as u32) + (m.col as u32)) as u32) as char,
        ((('1' as u32) + (m.row as u32)) as u32) as char,
    ]
}

impl Move {
    pub fn from_algebric(pos: &str) -> (r: Result<Move, OthelloError>)
        ensures
            match r {
                Ok(m) => parse_algebric(pos@) == Some(m),
                Err(e) => {
                    &&& parse_algebric(pos@) is None
                    &&& e matches OthelloError::InvalidAlgebric(t) && t@ == pos@
                },
            },
    {
        match algebric2xy(pos) {
            Ok((col, row)) => Ok(Move { col, row }),
            Err(e) => Err(e),
        }
    }

    pub fn into_idx(self) -> (r: usize)
        ensures
            r == move_index(self),
    {
        self.row as usize * 8 + self.col as usize
    }

    pub fn from_idx(idx: u8) -> (r: Move)
        ensures
            r == move_of_index(idx as int),
            idx < 64 ==> r.col < 8 && r.row < 8,
    {
        Move { row: idx / 8, col: idx % 8 }
    }
}

/// Converts an algebraic notation like `a1`, `g8`, `b7` to `(0, 0)`,
/// `(6, 6)`, `(1, 6)`: a `(column, row)` pair, each in `0..8`.
pub fn algebric2xy(pos: &str) -> (r: Result<(u8, u8), OthelloError>)
    ensures
        match r {
            Ok((col, row)) => {
                &&& valid_algebric(pos@)
                &&& col as int == pos@[0] as int - 'a' as int
                &&& row as int == pos@[1] as int - '1' as int
            },
            Err(e) => {
                &&& !valid_algebric(pos@)
                &&& e matches OthelloError::InvalidAlgebric(t) && t@ == pos@
            },
        },
{
    if pos.unicode_len() != 2 {
        return Err(OthelloError::InvalidAlgebric(pos.to_owned()));
    }

    let col = pos.get_char(0) as u32;
    let row = pos.get_char(1) as u32;

    if !(97 <= col && col <= 104) || !(49 <= row && row <= 56) {
        proof {
            assert('a' as int == 97 && 'h' as int == 104 && '1' as int == 49 && '8' as int == 56);
        }
        return Err(OthelloError::InvalidAlgebric(pos.to_owned()));
    }

    Ok(((col - 97) as u8, (row - 49) as u8))
}

/// The indices of the set bits of a mask, in increasing order.
pub fn bitfield_to_indexes(bitfield: u64) -> (r: Vec<u8>)
    ensures
        forall|j: int| 0 <= j < r@.len() ==> r@[j] < 64,
        forall|j1: int, j2: int| 0 <= j1 < j2 < r@.len() ==> r@[j1] < r@[j2],
        forall|b: u64| b < 64 ==> (has_bit(bitfield, b) <==> exists|j: int|
            0 <= j < r@.len() && r@[j] as u64 == b),
{
    let mut positions: Vec<u8> = Vec::new();
    let mut i: u8 = 0;
    while i < 64
        invariant
            i <= 64,
            forall|j: int| 0 <= j < positions@.len() ==> positions@[j] < i,
            forall|j1: int, j2: int|
                0 <= j1 < j2 < positions@.len() ==> positions@[j1] < positions@[j2],
            forall|b: u64|
                b < i ==> (has_bit(bitfield, b) <==> exists|j: int|
                    0 <= j < positions@.len() && positions@[j] as u64 == b),
        decreases 64 - i,
    {
        let ghost before = positions@;
        if (bitfield >> (i as u64)) & 1u64 == 1u64 {
            positions.push(i);
        }
        proof {
            assert forall|b: u64|
                b < i + 1 implies (has_bit(bitfield, b) <==> exists|j: int|
                    0 <= j < positions@.len() && positions@[j] as u64 == b) by {
                if b < i {
                    if has_bit(bitfield, b) {
                        let j = choose|j: int| 0 <= j < before.len() && before[j] as u64 == b;
                        assert(positions@[j] as u64 == b);
                    } else {
                        assert forall|j: int|
                            0 <= j < positions@.len() implies positions@[j] as u64 != b by {
                            if j < before.len() {
                                assert(positions@[j] == before[j]);
                            } else {
                                assert(positions@[j] == i);
                            }
                        }
                    }
                } else {
                    if has_bit(bitfield, b) {
                        assert(positions@[positions@.len() - 1] as u64 == i as u64);
                    } else {
                        assert forall|j: int|
                            0 <= j < positions@.len() implies positions@[j] as u64 != b by {
                            assert(positions@[j] == before[j]);
                        }
                    }
                }
            }
        }
        i += 1;
    }
    positions
}

/// Index round trip: a move with both coordinates on the board is recovered
/// exactly from its linear index.
pub proof fn lemma_index_round_trip(m: Move)
    requires
        m.col < 8,
        m.row < 8,
    ensures
        0 <= move_index(m) < 64,
        move_of_index(move_index(m)) == m,
{
    lemma_fundamental_div_mod_converse(move_index(m), 8, m.row as int, m.col as int);
}

/// Index round trip, the other way: every linear index in `0..64` is
/// recovered exactly from the move it names.
pub proof fn lemma_index_round_trip_rev(i: int)
    requires
        0 <= i < 64,
    ensures
        move_of_index(i).col < 8,
        move_of_index(i).row < 8,
        move_index(move_of_index(i)) == i,
{
    lemma_fundamental_div_mod(i, 8);
}

/// Algebraic round trip: rendering a move and parsing the text back yields
/// the same move.
pub proof fn lemma_algebric_round_trip(m: Move)
    requires
        m.col < 8,
        m.row < 8,
    ensures
        parse_algebric(render_algebric(m)) == Some(m),
{
    let s = render_algebric(m);
    assert(s[0] as int == 'a' as int + m.col as int);
    assert(s[1] as int == '1' as int + m.row as int);
}

/// Algebraic round trip, the other way: parsing a well-formed notation and
/// rendering the move again yields the same text.
pub proof fn lemma_algebric_round_trip_rev(s: Seq<char>)
    requires
        valid_algebric(s),
    ensures
        parse_algebric(s) is Some,
        render_algebric(parse_algebric(s).unwrap()) =~= s,
{
    let m = parse_algebric(s).unwrap();
    let t = render_algebric(m);
    vstd::utf8::char_u32_cast(s[0], s[0] as u32);
    vstd::utf8::char_u32_cast(s[1], s[1] as u32);
    assert(t[0] == s[0]);
    assert(t[1] == s[1]);
}

} // verus!

