//! The turn-management state machine.
//!
//! A [`Game`] owns a board, whose-turn, the cached legal-move mask of the
//! colour to move, and a [`State`]. One turn cycle is: compute the legal
//! moves ([`Game::legal_moves`]), look at the state, and either accept a
//! validated move ([`Game::make_turn`]), resolve a forfeited turn
//! ([`Game::next_turn`]), or stop on a terminal state.

use vstd::prelude::*;

use crate::bits::{has_bit, lemma_bit_test};
use crate::board::{
    apply_move_spec, cell_index, cell_is_legal, cell_outflanked, count_discs, has_any_legal_move,
    lemma_apply_move_frame, lemma_mask_nonzero_iff_any, Board, Disc,
};
use crate::codec::Move;
use crate::error::OthelloError;

verus! {

/// The state of a game.
///
/// Only `Winned` and `Draw` are terminal. `TurnForfeited` is transient: it
/// is always resolved within the same turn-processing cycle and is never
/// the state left standing at a stopping point.
#[derive(Debug, Clone, PartialEq)]
pub enum State {
    /// The game is currently being played.
    Playing,
    /// One of the players won the game.
    Winned {
        /// Who won the game.
        winner_color: Disc,
        /// The winner's display name.
        winner_name: String,
        /// Championship-style score: the winner's count plus every empty cell.
        winner_score: u8,
        /// The loser's plain disc count.
        loser_score: u8,
    },
    /// The game ended with equal scores.
    Draw,
    /// The current player cannot play anywhere; the turn is skipped.
    TurnForfeited,
}

/// Game configuration.
#[derive(Debug, Clone, PartialEq)]
pub struct GameSettings {
    /// Whether the rendering layer marks the legal moves on the board.
    pub show_legal_moves: bool,
    /// Where finished games are recorded, if anywhere.
    pub saves_game_dir: Option<String>,
    /// Whether finished games are recorded at all.
    pub game_record: bool,
}

impl Default for GameSettings {
    fn default() -> (r: GameSettings)
        ensures
            r.show_legal_moves == true,
            r.saves_game_dir is None,
            r.game_record == true,
    {
        GameSettings { show_legal_moves: true, saves_game_dir: None, game_record: true }
    }
}

/// The text shown for a yes/no setting.
pub fn yes_no(yes: bool) -> (r: &'static str)
    ensures
        yes ==> r@ == "Yes"@,
        !yes ==> r@ == "No"@,
{
    if yes {
        "Yes"
    } else {
        "No"
    }
}

/// A player's display name: the recorded name if one was given, else the
/// name of the colour.
pub open spec fn force_name_spec(name: Option<String>, color: Disc) -> Seq<char> {
    match name {
        Some(n) => n@,
        None => if color == Disc::White {
            "White"@
        } else {
            "Black"@
        },
    }
}

/// The game state machine: a board plus turn sequencing.
pub struct Game {
    /// The board being played on.
    pub board: Board,
    /// Whose turn it is next; never `Empty`.
    pub turn: Disc,
    /// The legal moves of the colour to move, or `None` when they have not
    /// been computed yet for this turn. Cleared on every turn change so a
    /// stale mask can never be read.
    pub current_legal_moves: Option<u64>,
    /// The state of the game.
    pub state: State,
    /// White's display name, if one was given.
    pub white_name: Option<String>,
    /// Black's display name, if one was given.
    pub black_name: Option<String>,
    /// Game settings.
    pub settings: GameSettings,
}

impl Game {
    /// The cached mask, when present, matches cell legality of the current
    /// board for the colour to move, bit for bit.
    pub open spec fn mask_valid(&self) -> bool {
        match self.current_legal_moves {
            Some(m) => forall|i: u64|
                i < 64 ==> (#[trigger] has_bit(m, i) <==> cell_is_legal(
                    self.board@,
                    self.turn,
                    (i % 8) as int,
                    (i / 8) as int,
                )),
            None => true,
        }
    }

    /// The game invariant: a full board, a real colour to move, and no
    /// stale legal-move mask.
    pub open spec fn wf(&self) -> bool {
        &&& self.board.wf()
        &&& self.turn != Disc::Empty
        &&& self.mask_valid()
    }

    /// Start a game on the standard starting layout; black moves first.
    pub fn new(
        white_name: Option<String>,
        black_name: Option<String>,
        settings: GameSettings,
    ) -> (r: Game)
        ensures
            r.wf(),
            r.board@ == crate::board::initial_board(),
            r.turn == Disc::Black,
            r.current_legal_moves is None,
            r.state is Playing,
            r.white_name == white_name,
            r.black_name == black_name,
            r.settings == settings,
    {
        Game::with_board(Board::new(), white_name, black_name, settings)
    }

    /// Start a game on the given board; black moves first.
    pub fn with_board(
        board: Board,
        white_name: Option<String>,
        black_name: Option<String>,
        settings: GameSettings,
    ) -> (r: Game)
        requires
            board.wf(),
        ensures
            r.wf(),
            r.board == board,
            r.turn == Disc::Black,
            r.current_legal_moves is None,
            r.state is Playing,
            r.white_name == white_name,
            r.black_name == black_name,
            r.settings == settings,
    {
        Game {
            board,
            turn: Disc::Black,
            current_legal_moves: None,
            state: State::Playing,
            white_name,
            black_name,
            settings,
        }
    }

    /// The colour to move.
    pub fn turn(&self) -> (r: Disc)
        requires
            self.wf(),
        ensures
            r == self.turn,
            r != Disc::Empty,
    {
        self.turn
    }

    /// Whether the bit with the given index is set in the bitfield.
    fn is_legal(bitfield: u64, index: usize) -> (r: bool)
        requires
            index < 64,
        ensures
            r == has_bit(bitfield, index as u64),
    {
        proof {
            lemma_bit_test(bitfield, index as u64);
        }
        (bitfield & (1u64 << (index as u64))) != 0
    }

    /// Whether the cell with the given linear index is a legal move for the
    /// colour to move. Fails if the legal moves have not been computed for
    /// this turn: a stale answer is never given.
    pub fn is_legal_move(&self, index: usize) -> (r: Result<bool, OthelloError>)
        requires
            self.wf(),
            index < 64,
        ensures
            match r {
                Ok(b) => self.current_legal_moves matches Some(m) && b == has_bit(
                    m,
                    index as u64,
                ),
                Err(e) => self.current_legal_moves is None && e is LegalMovesNotComputed,
            },
    {
        let Some(moves) = self.current_legal_moves else {
            return Err(OthelloError::LegalMovesNotComputed);
        };
        Ok(Self::is_legal(moves, index))
    }

    /// The cached legal-move mask of the colour to move. Reading it before
    /// it was computed for this turn is a precondition violation.
    pub fn moves(&self) -> (r: u64)
        requires
            self.wf(),
            self.current_legal_moves is Some,
        ensures
            r == self.current_legal_moves.unwrap(),
    {
        match self.current_legal_moves {
            Some(moves) => moves,
            // dead arm: the precondition rules it out
            None => 0,
        }
    }

    /// White's display name, or the colour's name when none was given.
    pub fn white_name(&self) -> (r: String)
        ensures
            r@ == force_name_spec(self.white_name, Disc::White),
    {
        match &self.white_name {
            Some(n) => n.clone(),
            None => "White".to_owned(),
        }
    }

    /// Black's display name, or the colour's name when none was given.
    pub fn black_name(&self) -> (r: String)
        ensures
            r@ == force_name_spec(self.black_name, Disc::Black),
    {
        match &self.black_name {
            Some(n) => n.clone(),
            None => "Black".to_owned(),
        }
    }

    /// The display name of the colour to move.
    pub fn player_name(&self) -> (r: String)
        requires
            self.wf(),
        ensures
            self.turn == Disc::White ==> r@ == force_name_spec(self.white_name, Disc::White),
            self.turn == Disc::Black ==> r@ == force_name_spec(self.black_name, Disc::Black),
    {
        match self.turn {
            Disc::White => self.white_name(),
            Disc::Black => self.black_name(),
            // dead arm: the invariant rules it out
            Disc::Empty => String::new(),
        }
    }

    /// The recorded name of the colour to move, if one was given.
    pub fn maybe_name(&self) -> (r: Option<String>)
        requires
            self.wf(),
        ensures
            self.turn == Disc::White ==> r == self.white_name,
            self.turn == Disc::Black ==> r == self.black_name,
    {
        let name = match self.turn {
            Disc::White => &self.white_name,
            // dead arm for `Empty`: the invariant rules it out
            _ => &self.black_name,
        };
        match name {
            Some(n) => Some(n.clone()),
            None => None,
        }
    }

    /// Advance the turn to the opponent: toggle whose turn it is, drop the
    /// cached legal-move mask so it cannot go stale, and reset the state to
    /// `Playing`. The board itself is untouched.
    pub fn next_turn(&mut self)
        requires
            old(self).board.wf(),
            old(self).turn != Disc::Empty,
        ensures
            final(self).wf(),
            final(self).board == old(self).board,
            final(self).turn == old(self).turn.opposite_spec(),
            final(self).current_legal_moves is None,
            final(self).state is Playing,
            final(self).white_name == old(self).white_name,
            final(self).black_name == old(self).black_name,
            final(self).settings == old(self).settings,
    {
        self.turn = self.turn.opposite();
        self.current_legal_moves = None;
        self.state = State::Playing;
    }

    /// Compute and cache the legal moves of the colour to move, then settle
    /// the state for this cycle:
    ///
    /// - the colour to move has a legal move: the state is left as it was
    ///   and a move can be acquired;
    /// - it has none but the opponent has: `TurnForfeited`, with the board
    ///   untouched — the forfeiture itself changes no cell;
    /// - neither colour can move and the counts are equal: `Draw`;
    /// - neither colour can move and the counts differ: `Winned`, where the
    ///   winner is the colour with the higher count, the winner's score is
    ///   its count plus every empty cell, and the loser's score is its own
    ///   count, so the two scores always sum to 64.
    pub fn legal_moves(&mut self)
        requires
            old(self).wf(),
        ensures
            final(self).wf(),
            final(self).board == old(self).board,
            final(self).turn == old(self).turn,
            final(self).white_name == old(self).white_name,
            final(self).black_name == old(self).black_name,
            final(self).settings == old(self).settings,
            final(self).current_legal_moves matches Some(m) && (forall|i: u64|
                i < 64 ==> (#[trigger] has_bit(m, i) <==> cell_is_legal(
                    old(self).board@,
                    old(self).turn,
                    (i % 8) as int,
                    (i / 8) as int,
                ))),
            has_any_legal_move(old(self).board@, old(self).turn) ==> final(self).state == old(
                self,
            ).state,
            !has_any_legal_move(old(self).board@, old(self).turn) && has_any_legal_move(
                old(self).board@,
                old(self).turn.opposite_spec(),
            ) ==> final(self).state is TurnForfeited,
            !has_any_legal_move(old(self).board@, old(self).turn) && !has_any_legal_move(
                old(self).board@,
                old(self).turn.opposite_spec(),
            ) ==> {
                let white = count_discs(old(self).board@, Disc::White);
                let black = count_discs(old(self).board@, Disc::Black);
                let empty = count_discs(old(self).board@, Disc::Empty);
                if white == black {
                    final(self).state is Draw
                } else {
                    final(self).state matches State::Winned {
                        winner_color,
                        winner_name,
                        winner_score,
                        loser_score,
                    } && {
                        &&& winner_color == (if white > black {
                            Disc::White
                        } else {
                            Disc::Black
                        })
                        &&& winner_score == (if white > black {
                            white
                        } else {
                            black
                        }) + empty
                        &&& loser_score == (if white > black {
                            black
                        } else {
                            white
                        })
                        &&& winner_score + loser_score == 64
                        &&& winner_name@ == (if white > black {
                            force_name_spec(old(self).white_name, Disc::White)
                        } else {
                            force_name_spec(old(self).black_name, Disc::Black)
                        })
                    }
                }
            },
    {
        let turn = self.turn();
        let mask = self.board.legal_moves(turn);
        self.current_legal_moves = Some(mask);
        proof {
            lemma_mask_nonzero_iff_any(mask, self.board@, turn);
        }
        if mask == 0 {
            let opp = turn.opposite();
            let opp_mask = self.board.legal_moves(opp);
            proof {
                lemma_mask_nonzero_iff_any(opp_mask, self.board@, opp);
            }
            if opp_mask != 0 {
                // the opponent can play, so this turn is forfeited
                self.state = State::TurnForfeited;
                return;
            }
            // no one can move: this is either a draw or a win
            let (white, black, empty) = self.board.scores();
            if white == black {
                self.state = State::Draw;
                return;
            }
            let winner_score = (if white > black {
                white
            } else {
                black
            }) + empty;
            let loser_score = if white > black {
                black
            } else {
                white
            };
            let winner_color = if white > black {
                Disc::White
            } else {
                Disc::Black
            };
            let winner_name = if white > black {
                self.white_name()
            } else {
                self.black_name()
            };
            self.state = State::Winned { winner_color, winner_name, winner_score, loser_score };
        }
    }

    /// Accept a move for the colour to move: reject it unless its bit is set
    /// in the cached legal-move mask; otherwise place the disc, flip every
    /// outflanked disc, and advance the turn. The two writes are one step:
    /// no caller sees the placed disc without its flips.
    pub fn make_turn(&mut self, mov: Move) -> (r: Result<(), OthelloError>)
        requires
            old(self).wf(),
            mov.col < 8,
            mov.row < 8,
        ensures
            final(self).wf(),
            final(self).white_name == old(self).white_name,
            final(self).black_name == old(self).black_name,
            final(self).settings == old(self).settings,
            match r {
                Ok(()) => {
                    &&& cell_is_legal(old(self).board@, old(self).turn, mov.col as int, mov.row as int)
                    &&& final(self).board@ == apply_move_spec(
                        old(self).board@,
                        old(self).turn,
                        mov,
                    )
                    &&& forall|i: int|
                        0 <= i < 64 ==> #[trigger] final(self).board@[i] == (if i == cell_index(
                            mov.col as int,
                            mov.row as int,
                        ) || cell_outflanked(
                            old(self).board@,
                            old(self).turn,
                            mov.col as int,
                            mov.row as int,
                            i,
                        ) {
                            old(self).turn
                        } else {
                            old(self).board@[i]
                        })
                    &&& final(self).turn == old(self).turn.opposite_spec()
                    &&& final(self).current_legal_moves is None
                    &&& final(self).state is Playing
                },
                Err(OthelloError::LegalMovesNotComputed) => {
                    &&& old(self).current_legal_moves is None
                    &&& *final(self) == *old(self)
                },
                Err(OthelloError::IllegalMove { row, col }) => {
                    &&& old(self).current_legal_moves matches Some(m) && !has_bit(
                        m,
                        (mov.row * 8 + mov.col) as u64,
                    )
                    &&& !cell_is_legal(old(self).board@, old(self).turn, mov.col as int, mov.row as int)
                    &&& row == mov.row
                    &&& col == mov.col
                    &&& *final(self) == *old(self)
                },
                Err(_) => false,
            },
    {
        // ensure the move is inside the legal moves
        let idx = mov.into_idx();
        match self.is_legal_move(idx) {
            Err(e) => {
                return Err(e);
            },
            Ok(false) => {
                proof {
                    vstd::arithmetic::div_mod::lemma_fundamental_div_mod_converse(
                        idx as int,
                        8,
                        mov.row as int,
                        mov.col as int,
                    );
                }
                return Err(OthelloError::IllegalMove { row: mov.row, col: mov.col });
            },
            Ok(true) => {},
        }
        proof {
            vstd::arithmetic::div_mod::lemma_fundamental_div_mod_converse(
                idx as int,
                8,
                mov.row as int,
                mov.col as int,
            );
        }
        let turn = self.turn;
        self.board.change_disc(mov, turn);
        let outflanks = self.board.move_outflanks(turn, mov);
        self.board.put_discs(outflanks, turn);
        proof {
            assert(self.board@ =~= apply_move_spec(old(self).board@, turn, mov));
            assert forall|i: int| 0 <= i < 64 implies #[trigger] self.board@[i] == (if i
                == cell_index(mov.col as int, mov.row as int) || cell_outflanked(
                old(self).board@,
                turn,
                mov.col as int,
                mov.row as int,
                i,
            ) {
                turn
            } else {
                old(self).board@[i]
            }) by {
                lemma_apply_move_frame(old(self).board@, turn, mov, i);
            }
        }
        self.next_turn();
        Ok(())
    }
}

} // verus!
