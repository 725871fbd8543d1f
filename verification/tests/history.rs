use quarto::history::{History, IllegalMove};
use quarto::piece::{Move, Piece, Spot};
use quarto::position::Position;

fn pieces_of(history: &History) -> Vec<i8> {
    (0..16).map(|i| history.get_raw_piece(i).0).collect()
}

fn spots_of(history: &History) -> Vec<i8> {
    (0..16).map(|i| history.get_raw_spot(i).0).collect()
}

fn is_permutation(values: &[i8]) -> bool {
    let mut seen = [false; 16];
    for &v in values {
        if !(0..16).contains(&v) || seen[v as usize] {
            return false;
        }
        seen[v as usize] = true;
    }
    values.len() == 16
}

fn occupied(pos: &Position) -> usize {
    (0..16).filter(|&s| pos.get_piece(Spot(s)).is_some()).count()
}

fn both(spot: i8, piece: i8) -> Move {
    Move { spot: Some(Spot(spot)), piece: Some(Piece(piece)) }
}

/// A game of four moves: piece 0xA; a3 and 0x3; b4 and 0xD; d2 and 0x5.
fn short_game() -> History {
    let mut history = History::new();
    assert_eq!(history.try_move(0, &Move { spot: None, piece: Some(Piece(0xA)) }), Ok(()));
    assert_eq!(history.try_move(1, &both(2, 0x3)), Ok(()));
    assert_eq!(history.try_move(2, &both(7, 0xD)), Ok(()));
    assert_eq!(history.try_move(3, &both(13, 0x5)), Ok(()));
    history
}

#[test]
fn new_history_is_the_identity() {
    let history = History::new();
    let identity: Vec<i8> = (0..16).collect();
    assert_eq!(pieces_of(&history), identity);
    assert_eq!(spots_of(&history), identity);
}

#[test]
fn fresh_history_has_an_empty_first_position() {
    let history = History::new();
    let pos = history.get_position(0);
    assert_eq!(occupied(&pos), 0);
    assert_eq!(pos.get_chosen_piece(), None);
}

#[test]
fn piece_then_spot_shows_on_the_board() {
    let mut history = History::new();
    assert_eq!(history.try_move(0, &Move { spot: None, piece: Some(Piece(0x0)) }), Ok(()));
    let next = history.get_raw_piece(1);
    assert_eq!(history.try_move(1, &Move { spot: Some(Spot::from_row_col(0, 0)), piece: Some(next) }), Ok(()));
    let pos = history.get_position(2);
    assert_eq!(pos.get_piece(Spot::from_row_col(0, 0)), Some(Piece(0x0)));
    assert_eq!(occupied(&pos), 1);
    assert_eq!(pos.get_chosen_piece(), Some(history.get_raw_piece(1)));
    assert_eq!(pos.get_chosen_piece(), Some(next));
}

#[test]
fn occupied_spot_is_refused_and_history_unchanged() {
    let mut history = short_game();
    let pieces = pieces_of(&history);
    let spots = spots_of(&history);
    // a3 (spot 2) was filled at turn 1
    assert_eq!(history.try_move(4, &both(2, 0x0)), Err(IllegalMove));
    assert_eq!(pieces_of(&history), pieces);
    assert_eq!(spots_of(&history), spots);
}

#[test]
fn used_piece_is_refused_and_history_unchanged() {
    let mut history = short_game();
    let pieces = pieces_of(&history);
    let spots = spots_of(&history);
    // 0x3 stands on the board, 0x5 is the selected piece
    assert_eq!(history.try_move(4, &both(0, 0x3)), Err(IllegalMove));
    assert_eq!(history.try_move(4, &both(0, 0x5)), Err(IllegalMove));
    assert_eq!(pieces_of(&history), pieces);
    assert_eq!(spots_of(&history), spots);
    assert_eq!(history.try_move(4, &both(0, 0x0)), Ok(()));
}

#[test]
fn refused_piece_undoes_the_spot_too() {
    let mut history = short_game();
    let spots = spots_of(&history);
    // the spot is free but the piece is not: nothing may be committed
    assert_eq!(history.try_move(4, &both(15, 0xA)), Err(IllegalMove));
    assert_eq!(spots_of(&history), spots);
}

#[test]
fn missing_spot_is_refused() {
    let mut history = short_game();
    assert_eq!(history.try_move(4, &Move { spot: None, piece: Some(Piece(0x0)) }), Err(IllegalMove));
}

#[test]
fn spot_at_turn_zero_is_refused() {
    let mut history = History::new();
    assert_eq!(history.try_move(0, &both(0, 0)), Err(IllegalMove));
    assert_eq!(history.try_move(0, &Move { spot: Some(Spot(0)), piece: None }), Err(IllegalMove));
}

#[test]
fn missing_piece_without_a_quarto_is_refused() {
    let mut history = History::new();
    assert_eq!(history.try_move(0, &Move { spot: None, piece: None }), Err(IllegalMove));
    let mut history = short_game();
    assert_eq!(history.try_move(4, &Move { spot: Some(Spot(0)), piece: None }), Err(IllegalMove));
}

#[test]
fn values_out_of_range_are_refused() {
    let mut history = short_game();
    assert_eq!(history.try_move(4, &both(16, 0x0)), Err(IllegalMove));
    assert_eq!(history.try_move(4, &both(-1, 0x0)), Err(IllegalMove));
    assert_eq!(history.try_move(4, &both(0, 16)), Err(IllegalMove));
    assert_eq!(history.try_move(4, &both(0, -3)), Err(IllegalMove));
}

#[test]
fn turns_out_of_range_take_only_the_empty_move() {
    let empty = Move { spot: None, piece: None };
    for turn in [-128i8, -1, 17, 18, 127] {
        let mut history = short_game();
        let pieces = pieces_of(&history);
        let spots = spots_of(&history);
        assert_eq!(history.try_move(turn, &both(0, 0)), Err(IllegalMove));
        assert_eq!(history.try_move(turn, &Move { spot: Some(Spot(0)), piece: None }), Err(IllegalMove));
        assert_eq!(history.try_move(turn, &Move { spot: None, piece: Some(Piece(0)) }), Err(IllegalMove));
        assert_eq!(history.try_move(turn, &empty), Ok(()));
        assert_eq!(pieces_of(&history), pieces);
        assert_eq!(spots_of(&history), spots);
    }
}

#[test]
fn winning_move_may_leave_the_piece_out() {
    // pieces 0x1, 0x3, 0x5 on a1, a2, a3; 0x7 selected
    let mut history = History::new();
    assert_eq!(history.try_move(0, &Move { spot: None, piece: Some(Piece(0x1)) }), Ok(()));
    assert_eq!(history.try_move(1, &both(0, 0x3)), Ok(()));
    assert_eq!(history.try_move(2, &both(1, 0x5)), Ok(()));
    assert_eq!(history.try_move(3, &both(2, 0x7)), Ok(()));
    assert!(!history.get_position(4).is_quarto());
    // placing on b1 wins nothing, so the piece may not be left out
    let mut elsewhere = history.clone();
    assert_eq!(elsewhere.try_move(4, &Move { spot: Some(Spot(4)), piece: None }), Err(IllegalMove));
    assert_eq!(spots_of(&elsewhere), spots_of(&history));
    // placing on a4 completes the row
    assert_eq!(history.try_move(4, &Move { spot: Some(Spot(3)), piece: None }), Ok(()));
    let pos = history.get_position(5);
    assert!(pos.is_quarto());
    assert_eq!(pos.get_piece(Spot(3)), Some(Piece(0x7)));
    assert_eq!(occupied(&pos), 4);
}

#[test]
fn last_turn_takes_a_spot_and_no_piece() {
    let mut history = History::new();
    let mut turn = 0;
    // play the identity: piece i, then spot i - 1 with piece i
    assert_eq!(history.try_move(0, &Move { spot: None, piece: Some(Piece(0)) }), Ok(()));
    turn += 1;
    while turn <= 15 {
        assert_eq!(history.try_move(turn, &both(turn - 1, turn)), Ok(()));
        turn += 1;
    }
    assert_eq!(history.try_move(16, &both(15, 0)), Err(IllegalMove));
    assert_eq!(history.try_move(16, &Move { spot: None, piece: None }), Err(IllegalMove));
    assert_eq!(history.try_move(16, &Move { spot: Some(Spot(14)), piece: None }), Err(IllegalMove));
    assert_eq!(history.try_move(16, &Move { spot: Some(Spot(15)), piece: None }), Ok(()));
    let pos = history.get_position(17);
    assert_eq!(occupied(&pos), 16);
    assert_eq!(pos.get_chosen_piece(), None);
}

#[test]
fn permutations_survive_legal_and_illegal_moves() {
    let mut history = History::new();
    let tries = [
        (0, Move { spot: None, piece: Some(Piece(7)) }),
        (1, both(7, 7)),
        (1, both(7, 3)),
        (2, both(7, 1)),
        (2, both(0, 1)),
        (3, both(15, 15)),
        (4, both(15, 9)),
        (4, both(8, 9)),
        (5, both(1, 0)),
    ];
    for (turn, mv) in tries {
        let _ = history.try_move(turn, &mv);
        assert!(is_permutation(&pieces_of(&history)));
        assert!(is_permutation(&spots_of(&history)));
    }
}

#[test]
fn committed_move_stands_in_the_cursor_slots() {
    let history = short_game();
    assert_eq!(&pieces_of(&history)[..4], &[0xA, 0x3, 0xD, 0x5]);
    assert_eq!(&spots_of(&history)[..3], &[2, 7, 13]);
    assert_eq!(history.get_piece(0), Some(Piece(0xA)));
    assert_eq!(history.get_piece(3), Some(Piece(0x5)));
    assert_eq!(history.get_spot(1), Some(Spot(2)));
    assert_eq!(history.get_spot(3), Some(Spot(13)));
}

#[test]
fn turns_without_a_piece_or_a_spot() {
    let history = History::new();
    assert_eq!(history.get_piece(-1), None);
    assert_eq!(history.get_piece(16), None);
    assert_eq!(history.get_piece(15), Some(Piece(15)));
    assert_eq!(history.get_spot(0), None);
    assert_eq!(history.get_spot(17), None);
    assert_eq!(history.get_spot(16), Some(Spot(15)));
    assert_eq!(history.get_spot(1), Some(Spot(0)));
}

#[test]
fn swaps_exchange_two_slots() {
    let mut history = History::new();
    history.swap_pieces(2, 9);
    history.swap_spots(0, 15);
    history.swap_spots(4, 4);
    let mut pieces: Vec<i8> = (0..16).collect();
    pieces.swap(2, 9);
    let mut spots: Vec<i8> = (0..16).collect();
    spots.swap(0, 15);
    assert_eq!(pieces_of(&history), pieces);
    assert_eq!(spots_of(&history), spots);
    history.swap_pieces(9, 2);
    history.swap_spots(15, 0);
    assert_eq!(pieces_of(&history), (0..16).collect::<Vec<i8>>());
    assert_eq!(spots_of(&history), (0..16).collect::<Vec<i8>>());
}

#[test]
fn clone_is_independent() {
    let history = short_game();
    let mut copy = history.clone();
    assert_eq!(pieces_of(&copy), pieces_of(&history));
    assert_eq!(spots_of(&copy), spots_of(&history));
    copy.swap_pieces(0, 1);
    assert_eq!(history.get_raw_piece(0), Piece(0xA));
    assert_eq!(copy.get_raw_piece(0), Piece(0x3));
}

#[test]
fn replay_matches_moves_applied_one_by_one() {
    let moves = [
        Move { spot: None, piece: Some(Piece(0xA)) },
        both(2, 0x3),
        both(7, 0xD),
        both(13, 0x5),
        both(0, 0x0),
        both(15, 0xF),
        both(8, 0x6),
    ];
    let mut history = History::new();
    let mut built = Position::new();
    for (turn, mv) in moves.iter().enumerate() {
        let selected = built.get_chosen_piece();
        assert_eq!(history.try_move(turn as i8, mv), Ok(()));
        if let Some(spot) = mv.spot {
            built.place_piece(spot, selected.unwrap());
        }
        built.choose_piece(mv.piece);
        let replayed = history.get_position(turn as i8 + 1);
        for s in 0..16 {
            assert_eq!(replayed.get_piece(Spot(s)), built.get_piece(Spot(s)));
        }
        assert_eq!(replayed.get_chosen_piece(), built.get_chosen_piece());
        assert_eq!(occupied(&replayed), turn);
    }
}

#[test]
fn positions_of_a_short_game() {
    let history = short_game();
    let pos = history.get_position(1);
    assert_eq!(occupied(&pos), 0);
    assert_eq!(pos.get_chosen_piece(), Some(Piece(0xA)));
    let pos = history.get_position(4);
    assert_eq!(occupied(&pos), 3);
    assert_eq!(pos.get_piece(Spot(2)), Some(Piece(0xA)));
    assert_eq!(pos.get_piece(Spot(7)), Some(Piece(0x3)));
    assert_eq!(pos.get_piece(Spot(13)), Some(Piece(0xD)));
    assert_eq!(pos.get_chosen_piece(), Some(Piece(0x5)));
    let pos = history.get_position(-5);
    assert_eq!(occupied(&pos), 0);
    assert_eq!(pos.get_chosen_piece(), None);
    for turn in [17i8, 18, 100] {
        let pos = history.get_position(turn);
        assert_eq!(occupied(&pos), 16);
        assert_eq!(pos.get_chosen_piece(), None);
    }
}
