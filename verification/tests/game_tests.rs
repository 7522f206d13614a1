use othe::{yes_no, Board, Disc, Game, GameSettings, Move, OthelloError, State};

fn notation(cells: &[(usize, char)]) -> String {
    let mut s: Vec<char> = std::iter::repeat('-').take(64).collect();
    for &(i, c) in cells {
        s[i] = c;
    }
    s.into_iter().collect()
}

#[test]
fn default_settings() {
    let settings = GameSettings::default();
    assert!(settings.show_legal_moves);
    assert!(settings.saves_game_dir.is_none());
    assert!(settings.game_record);
}

#[test]
fn yes_no_text() {
    assert_eq!(yes_no(true), "Yes");
    assert_eq!(yes_no(false), "No");
}

#[test]
fn black_moves_first() {
    let game = Game::new(None, None, GameSettings::default());
    assert_eq!(game.turn(), Disc::Black);
    assert_eq!(game.state, State::Playing);
}

#[test]
fn reading_moves_before_computing_them_fails() {
    let game = Game::new(None, None, GameSettings::default());
    assert!(matches!(
        game.is_legal_move(19),
        Err(OthelloError::LegalMovesNotComputed)
    ));
}

#[test]
fn first_move_d3_flips_one_disc() {
    // the example scenario: starting board, first move d3
    let mut game = Game::new(None, None, GameSettings::default());
    game.legal_moves();
    assert_eq!(game.state, State::Playing);
    let mov = Move::from_algebric("d3").unwrap();
    assert!(game.is_legal_move(mov.into_idx()).unwrap());
    game.make_turn(mov).unwrap();
    let (white, black, empty) = game.board.scores();
    assert_eq!(black, 4);
    assert_eq!(white, 1);
    assert_eq!(empty, 59);
    // exactly the run between d3 and d5 was flipped
    assert_eq!(game.board.get_disc((3, 2)), Disc::Black);
    assert_eq!(game.board.get_disc((3, 3)), Disc::Black);
    assert_eq!(game.board.get_disc((3, 4)), Disc::Black);
    assert_eq!(game.board.get_disc((4, 4)), Disc::White);
    // the turn passed to white and the mask was invalidated
    assert_eq!(game.turn(), Disc::White);
    assert!(game.current_legal_moves.is_none());
}

#[test]
fn illegal_move_is_rejected_without_mutating() {
    let mut game = Game::new(None, None, GameSettings::default());
    game.legal_moves();
    let before_scores = game.board.scores();
    let r = game.make_turn(Move { col: 0, row: 0 });
    match r {
        Err(OthelloError::IllegalMove { row, col }) => {
            assert_eq!((row, col), (0, 0));
        }
        other => panic!("expected an illegal-move error, got {:?}", other),
    }
    assert_eq!(game.board.scores(), before_scores);
    assert_eq!(game.turn(), Disc::Black);
    assert_eq!(game.state, State::Playing);
}

#[test]
fn forfeited_turn_keeps_the_board() {
    // black (to move) has no legal move, white has one
    let board = Board::from_notation(&notation(&[(0, 'O'), (1, 'X')])).unwrap();
    let mut game = Game::with_board(board, None, None, GameSettings::default());
    game.legal_moves();
    assert_eq!(game.state, State::TurnForfeited);
    // the forfeiture itself changes no cell
    assert_eq!(game.board.scores(), (1, 1, 62));
    game.next_turn();
    assert_eq!(game.turn(), Disc::White);
    assert_eq!(game.state, State::Playing);
    assert_eq!(game.board.scores(), (1, 1, 62));
    // and the opponent can indeed play
    game.legal_moves();
    assert_eq!(game.state, State::Playing);
    assert!(game.is_legal_move(2).unwrap());
}

#[test]
fn both_stuck_with_equal_counts_is_a_draw() {
    let board = Board::from_notation(&notation(&[(0, 'X'), (63, 'O')])).unwrap();
    let mut game = Game::with_board(board, None, None, GameSettings::default());
    game.legal_moves();
    assert_eq!(game.state, State::Draw);
}

#[test]
fn both_stuck_with_unequal_counts_is_a_win() {
    // a single black disc: neither colour can move, black leads 1-0,
    // and every empty cell is credited to the winner
    let board = Board::from_notation(&notation(&[(0, 'X')])).unwrap();
    let mut game = Game::with_board(board, None, Some(String::from("Amber")), GameSettings::default());
    game.legal_moves();
    match &game.state {
        State::Winned { winner_color, winner_name, winner_score, loser_score } => {
            assert_eq!(*winner_color, Disc::Black);
            assert_eq!(winner_name, "Amber");
            assert_eq!(*winner_score, 64);
            assert_eq!(*loser_score, 0);
            assert_eq!(*winner_score as u32 + *loser_score as u32, 64);
        }
        other => panic!("expected a win, got {:?}", other),
    }
}

#[test]
fn full_board_win_scores_sum_to_64() {
    let mut cells: Vec<(usize, char)> = Vec::new();
    for i in 0..64 {
        cells.push((i, if i < 40 { 'X' } else { 'O' }));
    }
    let board = Board::from_notation(&notation(&cells)).unwrap();
    let mut game = Game::with_board(board, None, None, GameSettings::default());
    game.legal_moves();
    match &game.state {
        State::Winned { winner_color, winner_name, winner_score, loser_score } => {
            assert_eq!(*winner_color, Disc::Black);
            assert_eq!(winner_name, "Black");
            assert_eq!(*winner_score, 40);
            assert_eq!(*loser_score, 24);
        }
        other => panic!("expected a win, got {:?}", other),
    }
}

#[test]
fn white_winner_gets_white_name() {
    let board = Board::from_notation(&notation(&[(0, 'O')])).unwrap();
    let mut game = Game::with_board(
        board,
        Some(String::from("Robin")),
        None,
        GameSettings::default(),
    );
    game.legal_moves();
    match &game.state {
        State::Winned { winner_color, winner_name, winner_score, loser_score } => {
            assert_eq!(*winner_color, Disc::White);
            assert_eq!(winner_name, "Robin");
            assert_eq!(*winner_score, 64);
            assert_eq!(*loser_score, 0);
        }
        other => panic!("expected a win, got {:?}", other),
    }
}

#[test]
fn player_names_fall_back_to_colors() {
    let game = Game::new(None, Some(String::from("Ash")), GameSettings::default());
    assert_eq!(game.white_name(), "White");
    assert_eq!(game.black_name(), "Ash");
    assert_eq!(game.player_name(), "Ash");
    assert_eq!(game.maybe_name(), Some(String::from("Ash")));
}

#[test]
fn moves_returns_the_cached_mask() {
    let mut game = Game::new(None, None, GameSettings::default());
    game.legal_moves();
    let mask = game.moves();
    assert_eq!(game.current_legal_moves, Some(mask));
    assert_eq!(mask, (1u64 << 19) | (1u64 << 26) | (1u64 << 37) | (1u64 << 44));
}
