//! Record and replay of completed games.
//!
//! A [`GameSave`] holds the ordered move list of one game together with the
//! players' kinds and names and the terminal outcome. Replaying re-drives
//! the state machine from a fresh board with the recorded moves; the
//! outcome of that drive is pinned down, move for move, by
//! [`replay_outcome`], so any two replays of the same record reach the
//! same terminal state.

use vstd::prelude::*;

use crate::board::{
    apply_move_spec, cell_is_legal, count_discs, has_any_legal_move, initial_board, Board, Disc,
};
use crate::codec::Move;
use crate::game::{force_name_spec, Game, GameSettings, State};
use crate::player::PlayerType;

verus! {

/// A terminal outcome, at the specification level.
pub ghost enum EndState {
    /// Equal counts once neither colour can move.
    Draw,
    /// Unequal counts once neither colour can move.
    Winned {
        winner_color: Disc,
        winner_name: Seq<char>,
        winner_score: int,
        loser_score: int,
    },
}

/// Whether the state `s` is exactly the terminal outcome `e`.
pub open spec fn state_matches(s: State, e: EndState) -> bool {
    match e {
        EndState::Draw => s is Draw,
        EndState::Winned { winner_color, winner_name, winner_score, loser_score } => s matches State::Winned {
            winner_color: c,
            winner_name: n,
            winner_score: w,
            loser_score: l,
        } && c == winner_color && n@ == winner_name && w as int == winner_score && l as int
            == loser_score,
    }
}

/// The terminal outcome on a board where neither colour can move: equal
/// counts give a draw; otherwise the colour with the higher count wins,
/// its score credited with every empty cell, the loser keeping its own
/// count alone.
pub open spec fn stuck_outcome(b: Seq<Disc>, wname: Seq<char>, bname: Seq<char>) -> EndState {
    let white = count_discs(b, Disc::White);
    let black = count_discs(b, Disc::Black);
    let empty = count_discs(b, Disc::Empty);
    if white == black {
        EndState::Draw
    } else if white > black {
        EndState::Winned {
            winner_color: Disc::White,
            winner_name: wname,
            winner_score: white + empty,
            loser_score: black,
        }
    } else {
        EndState::Winned {
            winner_color: Disc::Black,
            winner_name: bname,
            winner_score: black + empty,
            loser_score: white,
        }
    }
}

/// The outcome of driving the state machine from board `b` with `turn` to
/// move, feeding it the recorded moves from position `k` on:
///
/// - a colour with no legal move forfeits its turn when the opponent has
///   one, the board untouched;
/// - when neither colour can move the game ends in [`stuck_outcome`];
/// - otherwise the next recorded move is consumed: played if it is legal,
///   rejected and skipped if not;
/// - `None` when the record runs out while the game is still on.
pub open spec fn replay_outcome(
    b: Seq<Disc>,
    turn: Disc,
    moves: Seq<Move>,
    k: int,
    wname: Seq<char>,
    bname: Seq<char>,
) -> Option<EndState>
    decreases
            moves.len() - k,
            (if has_any_legal_move(b, turn) {
                0int
            } else {
                1int
            }),
{
    if !has_any_legal_move(b, turn) {
        if has_any_legal_move(b, turn.opposite_spec()) {
            replay_outcome(b, turn.opposite_spec(), moves, k, wname, bname)
        } else {
            Some(stuck_outcome(b, wname, bname))
        }
    } else if k < 0 || k >= moves.len() {
        None
    } else {
        let m = moves[k];
        if cell_is_legal(b, turn, m.col as int, m.row as int) {
            replay_outcome(
                apply_move_spec(b, turn, m),
                turn.opposite_spec(),
                moves,
                k + 1,
                wname,
                bname,
            )
        } else {
            replay_outcome(b, turn, moves, k + 1, wname, bname)
        }
    }
}

/// Whether two states are the same outcome, comparing names by their text.
pub open spec fn state_eq_spec(a: State, b: State) -> bool {
    match (a, b) {
        (State::Playing, State::Playing) => true,
        (State::Draw, State::Draw) => true,
        (State::TurnForfeited, State::TurnForfeited) => true,
        (
            State::Winned { winner_color: c1, winner_name: n1, winner_score: w1, loser_score: l1 },
            State::Winned { winner_color: c2, winner_name: n2, winner_score: w2, loser_score: l2 },
        ) => c1 == c2 && n1@ == n2@ && w1 == w2 && l1 == l2,
        _ => false,
    }
}

/// Whether two states are the same outcome, comparing names by their text.
pub fn state_eq(a: &State, b: &State) -> (r: bool)
    ensures
        r == state_eq_spec(*a, *b),
{
    match (a, b) {
        (State::Playing, State::Playing) => true,
        (State::Draw, State::Draw) => true,
        (State::TurnForfeited, State::TurnForfeited) => true,
        (
            State::Winned { winner_color: c1, winner_name: n1, winner_score: w1, loser_score: l1 },
            State::Winned { winner_color: c2, winner_name: n2, winner_score: w2, loser_score: l2 },
        ) => *c1 == *c2 && *n1 == *n2 && *w1 == *w2 && *l1 == *l2,
        _ => false,
    }
}

/// A copy of a player's optional display name.
fn clone_name(name: &Option<String>) -> (r: Option<String>)
    ensures
        r == *name,
{
    match name {
        Some(n) => Some(n.clone()),
        None => None,
    }
}

/// The record of one game: who played, the moves in order, and how it
/// ended.
#[derive(Debug, Clone)]
pub struct GameSave {
    /// Title of the save; shown when picking a game to replay.
    pub title: String,
    /// Black player's kind.
    pub black_type: PlayerType,
    /// White player's kind.
    pub white_type: PlayerType,
    /// Black player's name, if one was given.
    pub black_name: Option<String>,
    /// White player's name, if one was given.
    pub white_name: Option<String>,
    /// The moves of the game, in order.
    pub moves: Vec<Move>,
    /// The state of the game at the end; never `Playing` once recorded.
    pub end_state: State,
}

impl GameSave {
    /// A fresh record with no moves yet.
    pub fn new(
        title: String,
        black_type: PlayerType,
        white_type: PlayerType,
        black_name: Option<String>,
        white_name: Option<String>,
    ) -> (r: GameSave)
        ensures
            r.title == title,
            r.black_type == black_type,
            r.white_type == white_type,
            r.black_name == black_name,
            r.white_name == white_name,
            r.moves@.len() == 0,
            r.end_state is Playing,
    {
        GameSave {
            title,
            black_type,
            white_type,
            black_name,
            white_name,
            moves: Vec::new(),
            end_state: State::Playing,
        }
    }

    /// Append one move to the record.
    pub fn push_move(&mut self, movemnt: Move)
        ensures
            final(self).moves@ == old(self).moves@.push(movemnt),
            final(self).title == old(self).title,
            final(self).black_type == old(self).black_type,
            final(self).white_type == old(self).white_type,
            final(self).black_name == old(self).black_name,
            final(self).white_name == old(self).white_name,
            final(self).end_state == old(self).end_state,
    {
        self.moves.push(movemnt);
    }

    /// Record the terminal outcome; a game still being played is not an
    /// outcome.
    pub fn set_end_state(&mut self, state: State)
        requires
            !(state is Playing),
        ensures
            final(self).end_state == state,
            final(self).moves@ == old(self).moves@,
            final(self).title == old(self).title,
            final(self).black_type == old(self).black_type,
            final(self).white_type == old(self).white_type,
            final(self).black_name == old(self).black_name,
            final(self).white_name == old(self).white_name,
    {
        self.end_state = state;
    }

    /// Replay the recorded moves from a fresh board with the standard
    /// starting layout, black to move first, and return the terminal state
    /// reached — or `None` when the record runs out while the game is
    /// still on. The result is exactly [`replay_outcome`] of the record,
    /// so a replay is deterministic in the recorded moves and names.
    pub fn replay(&self) -> (r: Option<State>)
        ensures
            match replay_outcome(
                initial_board(),
                Disc::Black,
                self.moves@,
                0,
                force_name_spec(self.white_name, Disc::White),
                force_name_spec(self.black_name, Disc::Black),
            ) {
                Some(e) => r matches Some(s) && state_matches(s, e),
                None => r is None,
            },
    {
        let ghost wname = force_name_spec(self.white_name, Disc::White);
        let ghost bname = force_name_spec(self.black_name, Disc::Black);
        let mut game = Game::with_board(
            Board::new(),
            clone_name(&self.white_name),
            clone_name(&self.black_name),
            GameSettings { show_legal_moves: true, saves_game_dir: None, game_record: false },
        );
        let mut k: usize = 0;
        loop
            invariant
                wname == force_name_spec(self.white_name, Disc::White),
                bname == force_name_spec(self.black_name, Disc::Black),
                game.wf(),
                game.state is Playing,
                k <= self.moves@.len(),
                force_name_spec(game.white_name, Disc::White) == wname,
                force_name_spec(game.black_name, Disc::Black) == bname,
                replay_outcome(initial_board(), Disc::Black, self.moves@, 0, wname, bname)
                    == replay_outcome(
                    game.board@,
                    game.turn,
                    self.moves@,
                    k as int,
                    wname,
                    bname,
                ),
            decreases
                    self.moves@.len() - k,
                    (if has_any_legal_move(game.board@, game.turn) {
                        0int
                    } else {
                        1int
                    }),
        {
            game.legal_moves();
            let ghost b0 = game.board@;
            let ghost t0 = game.turn;
            match &game.state {
                State::Playing => {
                    proof {
                        assert(has_any_legal_move(b0, t0)) by {
                            if !has_any_legal_move(b0, t0) {
                                assert(false);
                            }
                        }
                    }
                    if k >= self.moves.len() {
                        proof {
                            assert(replay_outcome(b0, t0, self.moves@, k as int, wname, bname)
                                is None);
                        }
                        return None;
                    }
                    let mov = self.moves[k];
                    if mov.col >= 8 || mov.row >= 8 {
                        // a wild recorded move names no board cell: rejected
                        proof {
                            assert(!cell_is_legal(b0, t0, mov.col as int, mov.row as int));
                        }
                        k += 1;
                        continue;
                    }
                    match game.make_turn(mov) {
                        Ok(()) => {
                            proof {
                                assert(replay_outcome(b0, t0, self.moves@, k as int, wname, bname)
                                    == replay_outcome(
                                    game.board@,
                                    game.turn,
                                    self.moves@,
                                    k as int + 1,
                                    wname,
                                    bname,
                                ));
                            }
                            k += 1;
                        },
                        Err(e) => {
                            proof {
                                if e is LegalMovesNotComputed {
                                    assert(false);
                                }
                                assert(!cell_is_legal(b0, t0, mov.col as int, mov.row as int));
                            }
                            k += 1;
                        },
                    }
                },
                State::TurnForfeited => {
                    proof {
                        assert(!has_any_legal_move(b0, t0) && has_any_legal_move(
                            b0,
                            t0.opposite_spec(),
                        )) by {
                            if has_any_legal_move(b0, t0) {
                                assert(false);
                            }
                            if !has_any_legal_move(b0, t0.opposite_spec()) {
                                assert(false);
                            }
                        }
                    }
                    game.next_turn();
                },
                State::Draw => {
                    proof {
                        assert(!has_any_legal_move(b0, t0)) by {
                            if has_any_legal_move(b0, t0) {
                                assert(false);
                            }
                        }
                        assert(!has_any_legal_move(b0, t0.opposite_spec())) by {
                            if has_any_legal_move(b0, t0.opposite_spec()) {
                                assert(false);
                            }
                        }
                        assert(stuck_outcome(b0, wname, bname) is Draw);
                    }
                    return Some(State::Draw);
                },
                State::Winned { winner_color, winner_name, winner_score, loser_score } => {
                    proof {
                        assert(!has_any_legal_move(b0, t0)) by {
                            if has_any_legal_move(b0, t0) {
                                assert(false);
                            }
                        }
                        assert(!has_any_legal_move(b0, t0.opposite_spec())) by {
                            if has_any_legal_move(b0, t0.opposite_spec()) {
                                assert(false);
                            }
                        }
                    }
                    return Some(
                        State::Winned {
                            winner_color: *winner_color,
                            winner_name: winner_name.clone(),
                            winner_score: *winner_score,
                            loser_score: *loser_score,
                        },
                    );
                },
            }
        }
    }

    /// Replay the record and check the terminal state reached against the
    /// recorded one, comparing names by their text. A record that runs out
    /// of moves mid-game matches nothing.
    pub fn replay_matches(&self) -> (r: bool)
        ensures
            r == match replay_outcome(
                initial_board(),
                Disc::Black,
                self.moves@,
                0,
                force_name_spec(self.white_name, Disc::White),
                force_name_spec(self.black_name, Disc::Black),
            ) {
                Some(e) => state_matches(self.end_state, e),
                None => false,
            },
    {
        match self.replay() {
            Some(s) => state_eq(&s, &self.end_state),
            None => false,
        }
    }
}

/// Replay determinism: any two records of the same moves, played under the
/// same display names, replay to the same outcome. Replaying a recorded
/// game therefore reproduces the terminal state that its own replay
/// produced, however often it is driven.
pub proof fn lemma_replay_deterministic(s1: GameSave, s2: GameSave)
    requires
        s1.moves@ == s2.moves@,
        force_name_spec(s1.white_name, Disc::White) == force_name_spec(s2.white_name, Disc::White),
        force_name_spec(s1.black_name, Disc::Black) == force_name_spec(s2.black_name, Disc::Black),
    ensures
        replay_outcome(
            initial_board(),
            Disc::Black,
            s1.moves@,
            0,
            force_name_spec(s1.white_name, Disc::White),
            force_name_spec(s1.black_name, Disc::Black),
        ) == replay_outcome(
            initial_board(),
            Disc::Black,
            s2.moves@,
            0,
            force_name_spec(s2.white_name, Disc::White),
            force_name_spec(s2.black_name, Disc::Black),
        ),
{
}

} // verus!
