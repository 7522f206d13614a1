use othe::{Disc, Game, GameSettings, GameSave, Move, PlayerType, RandomPlayer, State};

fn record_random_game() -> GameSave {
    let mut save = GameSave::new(
        String::from("bout"),
        PlayerType::Bot,
        PlayerType::Bot,
        Some(String::from("B")),
        Some(String::from("W")),
    );
    let bot = RandomPlayer::default();
    let mut game = Game::new(
        save.white_name.clone(),
        save.black_name.clone(),
        GameSettings::default(),
    );
    loop {
        game.legal_moves();
        match &game.state {
            State::Playing => {
                let mov = bot.think(&game, None).unwrap();
                save.push_move(mov);
                game.make_turn(mov).unwrap();
            }
            State::TurnForfeited => {
                game.next_turn();
            }
            _ => break,
        }
    }
    save.set_end_state(game.state.clone());
    save
}

#[test]
fn new_save_is_empty_and_playing() {
    let save = GameSave::new(
        String::from("t"),
        PlayerType::Human,
        PlayerType::Bot,
        None,
        None,
    );
    assert_eq!(save.moves.len(), 0);
    assert_eq!(save.end_state, State::Playing);
    assert_eq!(save.black_type, PlayerType::Human);
    assert_eq!(save.white_type, PlayerType::Bot);
}

#[test]
fn push_move_appends_in_order() {
    let mut save = GameSave::new(
        String::from("t"),
        PlayerType::Human,
        PlayerType::Human,
        None,
        None,
    );
    save.push_move(Move { col: 3, row: 2 });
    save.push_move(Move { col: 2, row: 2 });
    assert_eq!(save.moves, vec![Move { col: 3, row: 2 }, Move { col: 2, row: 2 }]);
}

#[test]
fn replay_reproduces_the_recorded_outcome() {
    // record a completed game, then re-drive the state machine from a
    // fresh board with the same move list
    let save = record_random_game();
    let replayed = save.replay().expect("the record covers a whole game");
    assert_eq!(replayed, save.end_state);
    assert!(save.replay_matches());
}

#[test]
fn replay_is_deterministic() {
    let save = record_random_game();
    let first = save.replay();
    let second = save.replay();
    assert_eq!(first, second);
}

#[test]
fn replay_of_a_truncated_record_reaches_no_outcome() {
    let mut save = record_random_game();
    // drop the last move: its player could still move, so the game is
    // still on when the record runs out
    let keep = save.moves.len() - 1;
    save.moves.truncate(keep);
    assert_eq!(save.replay(), None);
    assert!(!save.replay_matches());
}

#[test]
fn replay_skips_moves_that_are_not_legal() {
    let mut save = record_random_game();
    // splice junk into the record: an out-of-range move and an occupied
    // cell; the replay rejects both without advancing the turn
    save.moves.insert(0, Move { col: 200, row: 31 });
    save.moves.insert(1, Move { col: 3, row: 3 });
    let replayed = save.replay().expect("the real moves still drive the game");
    assert_eq!(replayed, save.end_state);
}

#[test]
fn replay_of_an_empty_record_reaches_no_outcome() {
    let save = GameSave::new(
        String::from("t"),
        PlayerType::Human,
        PlayerType::Human,
        None,
        None,
    );
    assert_eq!(save.replay(), None);
}

#[test]
fn end_state_is_recorded() {
    let mut save = GameSave::new(
        String::from("t"),
        PlayerType::Human,
        PlayerType::Human,
        None,
        None,
    );
    save.set_end_state(State::Draw);
    assert_eq!(save.end_state, State::Draw);
}
