use quarto::piece::{Piece, Spot};
use quarto::position::Position;

/// The four spots of each of the ten lines, as (row, column) pairs.
const LINES: [[(i8, i8); 4]; 10] = [
    [(0, 0), (0, 1), (0, 2), (0, 3)],
    [(1, 0), (1, 1), (1, 2), (1, 3)],
    [(2, 0), (2, 1), (2, 2), (2, 3)],
    [(3, 0), (3, 1), (3, 2), (3, 3)],
    [(0, 0), (1, 0), (2, 0), (3, 0)],
    [(0, 1), (1, 1), (2, 1), (3, 1)],
    [(0, 2), (1, 2), (2, 2), (3, 2)],
    [(0, 3), (1, 3), (2, 3), (3, 3)],
    [(0, 0), (1, 1), (2, 2), (3, 3)],
    [(0, 3), (1, 2), (2, 1), (3, 0)],
];

fn on_line(line: usize, pieces: [i8; 4]) -> Position {
    let mut pos = Position::new();
    for k in 0..4 {
        let (row, col) = LINES[line][k];
        pos.place_piece(Spot::from_row_col(row, col), Piece(pieces[k]));
    }
    pos
}

#[test]
fn from_row_col_numbers_the_cells_row_by_row() {
    for row in 0..4i8 {
        for col in 0..4i8 {
            assert_eq!(Spot::from_row_col(row, col), Spot(4 * row + col));
        }
    }
    assert_eq!(Spot::from_row_col(0, 0), Spot(0));
    assert_eq!(Spot::from_row_col(2, 3), Spot(11));
    assert_eq!(Spot::from_row_col(3, 3), Spot(15));
}

#[test]
fn new_position_is_empty() {
    let pos = Position::new();
    for s in 0..16 {
        assert_eq!(pos.get_piece(Spot(s)), None);
    }
    assert_eq!(pos.get_chosen_piece(), None);
    assert!(!pos.is_quarto());
}

#[test]
fn placed_piece_is_found_on_its_spot_only() {
    for s in 0..16i8 {
        for p in 0..16i8 {
            let mut pos = Position::new();
            pos.place_piece(Spot(s), Piece(p));
            for t in 0..16i8 {
                let expected = if t == s { Some(Piece(p)) } else { None };
                assert_eq!(pos.get_piece(Spot(t)), expected);
            }
            assert_eq!(pos.get_chosen_piece(), None);
        }
    }
}

#[test]
fn piece_zero_occupies_its_spot() {
    let mut pos = Position::new();
    pos.place_piece(Spot(9), Piece(0));
    assert_eq!(pos.get_piece(Spot(9)), Some(Piece(0)));
    assert_eq!(pos.get_piece(Spot(8)), None);
}

#[test]
fn placing_on_an_occupied_spot_merges_the_patterns() {
    let mut pos = Position::new();
    pos.place_piece(Spot(6), Piece(0x5));
    pos.place_piece(Spot(6), Piece(0x3));
    assert_eq!(pos.get_piece(Spot(6)), Some(Piece(0x7)));
    assert_eq!(pos.get_piece(Spot(5)), None);
    assert_eq!(pos.get_piece(Spot(7)), None);
}

#[test]
fn chosen_piece_is_kept_and_replaced() {
    let mut pos = Position::new();
    pos.choose_piece(Some(Piece(0xB)));
    assert_eq!(pos.get_chosen_piece(), Some(Piece(0xB)));
    pos.place_piece(Spot(3), Piece(0x2));
    assert_eq!(pos.get_chosen_piece(), Some(Piece(0xB)));
    assert_eq!(pos.get_piece(Spot(3)), Some(Piece(0x2)));
    pos.choose_piece(None);
    assert_eq!(pos.get_chosen_piece(), None);
    assert_eq!(pos.get_piece(Spot(3)), Some(Piece(0x2)));
}

#[test]
fn row_sharing_low_bit_is_quarto() {
    let pos = on_line(0, [0x1, 0x3, 0x5, 0x7]);
    assert!(pos.is_quarto());
}

#[test]
fn row_sharing_only_the_clear_high_bit_is_quarto() {
    // 0x1, 0x3, 0x5, 0x6 differ on the three low attributes but all have the
    // fourth one clear, so the row is a Quarto on that attribute.
    let pos = on_line(0, [0x1, 0x3, 0x5, 0x6]);
    assert!(pos.is_quarto());
}

#[test]
fn row_without_a_shared_attribute_is_no_quarto() {
    // bit 0: 1,1,1,0  bit 1: 0,1,0,1  bit 2: 0,0,1,1  bit 3: 0,0,0,1
    let pos = on_line(0, [0x1, 0x3, 0x5, 0xE]);
    assert!(!pos.is_quarto());
}

#[test]
fn every_line_wins_on_every_attribute_set_or_clear() {
    for line in 0..10 {
        for a in 0..4 {
            // four pieces that agree on attribute `a` and on no other
            let others = [0x0i8, 0x3, 0x5, 0x6];
            let mut set = [0i8; 4];
            let mut clear = [0i8; 4];
            for k in 0..4 {
                let low = others[k] & ((1 << a) - 1);
                let high = (others[k] >> a) << (a + 1);
                clear[k] = low | high;
                set[k] = clear[k] | (1 << a);
            }
            assert!(on_line(line, set).is_quarto(), "line {line} attribute {a} set");
            assert!(on_line(line, clear).is_quarto(), "line {line} attribute {a} clear");
        }
    }
}

#[test]
fn three_pieces_on_a_line_are_no_quarto() {
    for line in 0..10 {
        for missing in 0..4 {
            let mut pos = Position::new();
            for k in 0..4 {
                if k != missing {
                    let (row, col) = LINES[line][k];
                    pos.place_piece(Spot::from_row_col(row, col), Piece(0xF));
                }
            }
            assert!(!pos.is_quarto());
        }
    }
}

#[test]
fn full_board_without_a_uniform_line_is_no_quarto() {
    let cells: [i8; 16] = [9, 10, 4, 13, 7, 15, 3, 0, 11, 8, 12, 1, 14, 5, 2, 6];
    let mut pos = Position::new();
    for s in 0..16 {
        pos.place_piece(Spot(s as i8), Piece(cells[s]));
    }
    assert!(!pos.is_quarto());
}

#[test]
fn four_equal_attributes_off_any_line_are_no_quarto() {
    let mut pos = Position::new();
    pos.place_piece(Spot::from_row_col(0, 0), Piece(0xF));
    pos.place_piece(Spot::from_row_col(0, 1), Piece(0xF));
    pos.place_piece(Spot::from_row_col(1, 2), Piece(0xF));
    pos.place_piece(Spot::from_row_col(1, 3), Piece(0xF));
    assert!(!pos.is_quarto());
}

#[test]
fn selected_piece_does_not_count_for_a_quarto() {
    let mut pos = Position::new();
    pos.place_piece(Spot(0), Piece(0xF));
    pos.place_piece(Spot(1), Piece(0xF));
    pos.place_piece(Spot(2), Piece(0xF));
    pos.choose_piece(Some(Piece(0xF)));
    assert!(!pos.is_quarto());
}
