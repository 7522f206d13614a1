//! The players of a game.
//!
//! A player is asked for the next move whenever it is its colour's turn.
//! The interactive prompt lives outside the engine; here stand the player
//! records themselves and the randomized chooser, which picks uniformly
//! among the legal moves of the current turn.

use vstd::prelude::*;

use crate::bits::{has_bit, lemma_zero_mask_iff};
use crate::board::{cell_is_legal, Disc};
use crate::codec::{bitfield_to_indexes, lemma_index_round_trip_rev, Move};
use crate::error::OthelloError;
use crate::game::{force_name_spec, Game};

verus! {

/// What kind of player sits behind a colour.
#[derive(Debug, Clone, Copy, PartialEq, Eq, Structural)]
pub enum PlayerType {
    /// Human player.
    Human,
    /// Robot player.
    Bot,
}

/// A human player: prompted for moves by the interface.
#[derive(Debug, Clone)]
pub struct HumanPlayer {
    /// The colour this player plays; `Empty` until the game assigns one.
    pub color: Disc,
    /// The player's chosen display name, if any.
    pub name: Option<String>,
}

impl HumanPlayer {
    /// A new human player with no colour assigned yet; an empty name counts
    /// as no name at all.
    pub fn new(name: Option<String>) -> (r: HumanPlayer)
        ensures
            r.color == Disc::Empty,
            match name {
                Some(n) => if n@.len() > 0 {
                    r.name == Some(n)
                } else {
                    r.name is None
                },
                None => r.name is None,
            },
    {
        let name = match name {
            Some(n) => if n.as_str().unicode_len() > 0 {
                Some(n)
            } else {
                None
            },
            None => None,
        };
        HumanPlayer { color: Disc::Empty, name }
    }

    /// The colour this player plays.
    pub fn color(&self) -> (r: Disc)
        ensures
            r == self.color,
    {
        self.color
    }

    /// The player's display name, if one was given.
    pub fn name(&self) -> (r: Option<String>)
        ensures
            r == self.name,
    {
        match &self.name {
            Some(n) => Some(n.clone()),
            None => None,
        }
    }

    /// The player's display name, or its colour's name.
    pub fn force_name(&self) -> (r: String)
        requires
            self.color != Disc::Empty,
        ensures
            r@ == force_name_spec(self.name, self.color),
    {
        match &self.name {
            Some(n) => n.clone(),
            None => match self.color {
                Disc::White => "White".to_owned(),
                _ => "Black".to_owned(),
            },
        }
    }

    /// Assign the player its colour, exactly once.
    pub fn init_color(&mut self, color: Disc)
        requires
            old(self).color == Disc::Empty,
            color != Disc::Empty,
        ensures
            final(self).color == color,
            final(self).name == old(self).name,
    {
        self.color = color;
    }

    /// What kind of player this is.
    pub fn player_type(&self) -> (r: PlayerType)
        ensures
            r == PlayerType::Human,
    {
        PlayerType::Human
    }
}

/// A bot that plays a uniformly random legal move.
#[derive(Debug, Clone)]
pub struct RandomPlayer {
    /// The colour this player plays; `Empty` until the game assigns one.
    pub color: Disc,
}

impl Default for RandomPlayer {
    fn default() -> (r: RandomPlayer)
        ensures
            r.color == Disc::Empty,
    {
        RandomPlayer { color: Disc::Empty }
    }
}

/// Relies on rand::random_range: a sample of the given range, uniformly
/// distributed; the range is nonempty, so the call cannot panic.
#[verifier::external_body]
fn random_index(n: usize) -> (r: usize)
    requires
        n > 0,
    ensures
        r < n,
{
    rand::random_range(0..n)
}

impl RandomPlayer {
    /// The colour this player plays.
    pub fn color(&self) -> (r: Disc)
        ensures
            r == self.color,
    {
        self.color
    }

    /// The player's display name.
    pub fn name(&self) -> (r: Option<String>)
        ensures
            r matches Some(n) && n@ == "Random Bot"@,
    {
        Some("Random Bot".to_owned())
    }

    /// Assign the player its colour, exactly once.
    pub fn init_color(&mut self, color: Disc)
        requires
            old(self).color == Disc::Empty,
            color != Disc::Empty,
        ensures
            final(self).color == color,
    {
        self.color = color;
    }

    /// What kind of player this is.
    pub fn player_type(&self) -> (r: PlayerType)
        ensures
            r == PlayerType::Bot,
    {
        PlayerType::Bot
    }

    /// Choose a move uniformly at random among the legal moves of the
    /// current turn. The chosen move is always legal on the game's board
    /// for the colour to move.
    pub fn think(&self, game: &Game, err: Option<OthelloError>) -> (r: Result<
        Move,
        OthelloError,
    >)
        requires
            game.wf(),
            err is None,
            game.current_legal_moves matches Some(m) ==> m != 0,
        ensures
            match r {
                Ok(m) => {
                    &&& m.col < 8
                    &&& m.row < 8
                    &&& game.current_legal_moves matches Some(mask) && has_bit(
                        mask,
                        (m.row * 8 + m.col) as u64,
                    )
                    &&& cell_is_legal(game.board@, game.turn, m.col as int, m.row as int)
                },
                Err(e) => game.current_legal_moves is None && e is LegalMovesNotComputed,
            },
    {
        let Some(legal_moves) = game.current_legal_moves else {
            return Err(OthelloError::LegalMovesNotComputed);
        };
        let indexes = bitfield_to_indexes(legal_moves);
        proof {
            lemma_zero_mask_iff(legal_moves);
            let b = choose|b: u64| b < 64 && has_bit(legal_moves, b);
            assert(exists|j: int| 0 <= j < indexes@.len() && indexes@[j] as u64 == b);
        }
        let i = random_index(indexes.len());
        let idx = indexes[i];
        let m = Move::from_idx(idx);
        proof {
            lemma_index_round_trip_rev(idx as int);
            let b = idx as u64;
            assert(indexes@[i as int] as u64 == b);
            assert(has_bit(legal_moves, b));
            assert(m.row * 8 + m.col == idx);
            assert(cell_is_legal(game.board@, game.turn, (b % 8) as int, (b / 8) as int));
            assert(m.col as int == (b % 8) as int && m.row as int == (b / 8) as int);
        }
        Ok(m)
    }
}

} // verus!
