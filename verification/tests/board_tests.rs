use othe::{bitfield_to_indexes, Board, Disc, Move, OthelloError};

#[test]
fn initial_board_layout() {
    let board = Board::new();
    assert_eq!(board.get_disc((3, 3)), Disc::White);
    assert_eq!(board.get_disc((4, 3)), Disc::Black);
    assert_eq!(board.get_disc((3, 4)), Disc::Black);
    assert_eq!(board.get_disc((4, 4)), Disc::White);
    assert_eq!(board.get_disc((0, 0)), Disc::Empty);
    assert_eq!(board.get_disc((7, 7)), Disc::Empty);
}

#[test]
fn initial_scores_sum_to_64() {
    let board = Board::new();
    let (white, black, empty) = board.scores();
    assert_eq!((white, black, empty), (2, 2, 60));
    assert_eq!(white as u32 + black as u32 + empty as u32, 64);
}

#[test]
fn scores_always_sum_to_64() {
    // a few assorted positions, loaded from notation
    let all_empty = "-".repeat(64);
    let all_black = "X".repeat(64);
    let mut mixed = String::new();
    for i in 0..64 {
        mixed.push(match i % 3 {
            0 => 'X',
            1 => 'O',
            _ => '-',
        });
    }
    for notation in [all_empty, all_black, mixed] {
        let board = Board::from_notation(&notation).unwrap();
        let (white, black, empty) = board.scores();
        assert_eq!(white as u32 + black as u32 + empty as u32, 64);
    }
}

#[test]
fn initial_legal_moves_are_exactly_four() {
    let board = Board::new();
    let mask = board.legal_moves(Disc::Black);
    let indexes = bitfield_to_indexes(mask);
    // d3, c4, f5, e6: the four cells diagonally adjacent to the centre
    // cluster, on the outflanking side
    assert_eq!(indexes, vec![19, 26, 37, 44]);
}

#[test]
fn initial_legal_moves_white() {
    let board = Board::new();
    let mask = board.legal_moves(Disc::White);
    let indexes = bitfield_to_indexes(mask);
    // e3, c5, f4, d6
    assert_eq!(indexes, vec![20, 29, 34, 43]);
}

#[test]
fn d3_outflanks_exactly_one_disc() {
    let board = Board::new();
    let mov = Move { col: 3, row: 2 };
    let outflanks = board.move_outflanks(Disc::Black, mov);
    assert_eq!(outflanks, 1u64 << 27);
}

#[test]
fn outflanks_of_illegal_direction_is_empty() {
    let board = Board::new();
    // a1 sandwiches nothing on the starting board
    let outflanks = board.move_outflanks(Disc::Black, Move { col: 0, row: 0 });
    assert_eq!(outflanks, 0);
}

#[test]
fn put_discs_sets_exactly_the_masked_cells() {
    let mut board = Board::new();
    board.put_discs((1u64 << 0) | (1u64 << 63), Disc::White);
    assert_eq!(board.get_disc((0, 0)), Disc::White);
    assert_eq!(board.get_disc((7, 7)), Disc::White);
    // untouched cells keep their discs
    assert_eq!(board.get_disc((3, 3)), Disc::White);
    assert_eq!(board.get_disc((4, 3)), Disc::Black);
    assert_eq!(board.get_disc((1, 1)), Disc::Empty);
}

#[test]
fn change_disc_writes_one_cell() {
    let mut board = Board::new();
    board.change_disc(Move { col: 2, row: 5 }, Disc::Black);
    assert_eq!(board.get_disc((2, 5)), Disc::Black);
    assert_eq!(board.get_disc((3, 5)), Disc::Empty);
}

#[test]
fn from_notation_reads_a_position() {
    let mut notation = String::new();
    for i in 0..64 {
        notation.push(match i {
            27 | 36 => 'O',
            28 | 35 => 'X',
            _ => '-',
        });
    }
    let board = Board::from_notation(&notation).unwrap();
    let (white, black, empty) = board.scores();
    assert_eq!((white, black, empty), (2, 2, 60));
    assert_eq!(board.get_disc((3, 3)), Disc::White);
    assert_eq!(board.get_disc((4, 4)), Disc::White);
    assert_eq!(board.get_disc((4, 3)), Disc::Black);
    assert_eq!(board.get_disc((3, 4)), Disc::Black);
}

#[test]
fn from_notation_rejects_wrong_length() {
    let r = Board::from_notation("XO-");
    assert!(matches!(r, Err(OthelloError::InvalidLenghtOfNotation)));
    let r = Board::from_notation("");
    assert!(matches!(r, Err(OthelloError::InvalidLenghtOfNotation)));
}

#[test]
fn from_notation_rejects_bad_char() {
    let mut notation = String::new();
    for i in 0..64 {
        notation.push(if i == 10 { 'Z' } else { '-' });
    }
    let r = Board::from_notation(&notation);
    match r {
        Err(OthelloError::InvalidCharInNotation { ch }) => assert_eq!(ch, 'Z'),
        _ => panic!("expected a bad-character error"),
    }
}

#[test]
fn opposite_toggles_colors() {
    assert_eq!(Disc::White.opposite(), Disc::Black);
    assert_eq!(Disc::Black.opposite(), Disc::White);
    assert_eq!(Disc::Empty.opposite(), Disc::Empty);
}
