use othe::{algebric2xy, bitfield_to_indexes, Move, OthelloError};

#[test]
fn index_round_trip_all_64() {
    for idx in 0u8..64 {
        let mov = Move::from_idx(idx);
        assert!(mov.col < 8 && mov.row < 8);
        assert_eq!(mov.into_idx(), idx as usize);
    }
}

#[test]
fn coordinates_round_trip_all_64() {
    for col in 0u8..8 {
        for row in 0u8..8 {
            let mov = Move { col, row };
            let idx = mov.into_idx();
            assert_eq!(Move::from_idx(idx as u8), mov);
        }
    }
}

#[test]
fn algebric_round_trip_all_64() {
    for col in 0u8..8 {
        for row in 0u8..8 {
            let mut notation = String::new();
            notation.push((b'a' + col) as char);
            notation.push((b'1' + row) as char);
            let mov = Move::from_algebric(&notation).unwrap();
            assert_eq!(mov, Move { col, row });
            // re-render and compare
            let mut rendered = String::new();
            rendered.push((b'a' + mov.col) as char);
            rendered.push((b'1' + mov.row) as char);
            assert_eq!(rendered, notation);
        }
    }
}

#[test]
fn algebric_examples() {
    assert_eq!(algebric2xy("a1").unwrap(), (0, 0));
    assert_eq!(algebric2xy("g8").unwrap(), (6, 7));
    assert_eq!(algebric2xy("b7").unwrap(), (1, 6));
    assert_eq!(algebric2xy("d3").unwrap(), (3, 2));
    assert_eq!(algebric2xy("h8").unwrap(), (7, 7));
}

#[test]
fn algebric_rejects_malformed_text() {
    for bad in ["", "a", "a12", "i1", "a9", "A1", "a0", "1a", "zz"] {
        match Move::from_algebric(bad) {
            Err(OthelloError::InvalidAlgebric(text)) => assert_eq!(text, bad),
            other => panic!("expected a notation error for {:?}, got {:?}", bad, other),
        }
    }
}

#[test]
fn bitfield_to_indexes_empty_and_full() {
    assert_eq!(bitfield_to_indexes(0), Vec::<u8>::new());
    let all: Vec<u8> = (0u8..64).collect();
    assert_eq!(bitfield_to_indexes(u64::MAX), all);
}

#[test]
fn bitfield_to_indexes_pattern() {
    let mask = (1u64 << 3) | (1u64 << 17) | (1u64 << 63);
    assert_eq!(bitfield_to_indexes(mask), vec![3, 17, 63]);
}

#[test]
fn algebric_rejects_non_ascii_lookalikes() {
    // two characters, but the column letter is not in `a`..`h`
    for bad in ["\u{0161}1", "\u{00e9}1", "a\u{0661}"] {
        match Move::from_algebric(bad) {
            Err(OthelloError::InvalidAlgebric(text)) => assert_eq!(text, bad),
            other => panic!("expected a notation error for {:?}, got {:?}", bad, other),
        }
    }
}
