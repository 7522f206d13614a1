use othe::{Board, Disc, Game, GameSettings, HumanPlayer, Move, OthelloError, PlayerType, RandomPlayer};

fn notation(cells: &[(usize, char)]) -> String {
    let mut s: Vec<char> = std::iter::repeat('-').take(64).collect();
    for &(i, c) in cells {
        s[i] = c;
    }
    s.into_iter().collect()
}

#[test]
fn human_player_keeps_a_nonempty_name() {
    let player = HumanPlayer::new(Some(String::from("Sam")));
    assert_eq!(player.color(), Disc::Empty);
    assert_eq!(player.name(), Some(String::from("Sam")));
    assert_eq!(player.player_type(), PlayerType::Human);
}

#[test]
fn human_player_drops_an_empty_name() {
    let player = HumanPlayer::new(Some(String::new()));
    assert_eq!(player.name(), None);
    let player = HumanPlayer::new(None);
    assert_eq!(player.name(), None);
}

#[test]
fn human_player_takes_its_color_once() {
    let mut player = HumanPlayer::new(None);
    player.init_color(Disc::Black);
    assert_eq!(player.color(), Disc::Black);
    assert_eq!(player.force_name(), "Black");
    let named = {
        let mut p = HumanPlayer::new(Some(String::from("Ada")));
        p.init_color(Disc::White);
        p
    };
    assert_eq!(named.force_name(), "Ada");
}

#[test]
fn random_player_identifies_itself() {
    let mut player = RandomPlayer::default();
    assert_eq!(player.color(), Disc::Empty);
    assert_eq!(player.name(), Some(String::from("Random Bot")));
    assert_eq!(player.player_type(), PlayerType::Bot);
    player.init_color(Disc::White);
    assert_eq!(player.color(), Disc::White);
}

#[test]
fn random_player_picks_among_the_legal_moves() {
    let mut game = Game::new(None, None, GameSettings::default());
    game.legal_moves();
    let bot = RandomPlayer::default();
    let legal = [
        Move { col: 3, row: 2 },
        Move { col: 2, row: 3 },
        Move { col: 5, row: 4 },
        Move { col: 4, row: 5 },
    ];
    for _ in 0..32 {
        let mov = bot.think(&game, None).unwrap();
        assert!(legal.contains(&mov), "{:?} is not a legal first move", mov);
    }
}

#[test]
fn random_player_is_forced_when_one_move_is_legal() {
    // white's only legal move on this board is the cell right of the black
    // disc sandwiched against the white one
    let board = Board::from_notation(&notation(&[(0, 'O'), (1, 'X')])).unwrap();
    let mut game = Game::with_board(board, None, None, GameSettings::default());
    game.next_turn(); // white to move
    game.legal_moves();
    let bot = RandomPlayer::default();
    for _ in 0..8 {
        let mov = bot.think(&game, None).unwrap();
        assert_eq!(mov, Move { col: 2, row: 0 });
    }
}

#[test]
fn random_player_needs_the_computed_moves() {
    let game = Game::new(None, None, GameSettings::default());
    let bot = RandomPlayer::default();
    assert!(matches!(
        bot.think(&game, None),
        Err(OthelloError::LegalMovesNotComputed)
    ));
}
