use quarto::history::History;
use quarto::pcg::{Pcg, SIXTEEN_FACTORIAL};
use quarto::piece::Move;
use quarto::piece::Piece;
use quarto::piece::Spot;
use quarto::playout::{random_playout, LAST_TURN};

fn pieces_of(history: &History) -> Vec<i8> {
    (0..16).map(|i| history.get_raw_piece(i).0).collect()
}

fn spots_of(history: &History) -> Vec<i8> {
    (0..16).map(|i| history.get_raw_spot(i).0).collect()
}

fn sorted(mut values: Vec<i8>) -> Vec<i8> {
    values.sort();
    values
}

#[test]
fn playout_with_zero_sources_keeps_the_identity() {
    // Digits all zero: every choice is the first candidate. Pieces 0..3 land
    // on the first row, which is a Quarto when turn 5 begins.
    let mut history = History::new();
    assert_eq!(random_playout(&mut history, 0, 0, 0), Some(5));
    assert_eq!(pieces_of(&history), (0..16).collect::<Vec<i8>>());
    assert_eq!(spots_of(&history), (0..16).collect::<Vec<i8>>());
}

#[test]
fn playout_reads_the_lowest_digit_first() {
    // Source 1: digit 1 at the first choice, 0 afterwards.
    let mut history = History::new();
    assert_eq!(random_playout(&mut history, 0, 1, 1), Some(5));
    assert_eq!(pieces_of(&history), vec![1, 0, 2, 3, 4, 5, 6, 7, 8, 9, 10, 11, 12, 13, 14, 15]);
    assert_eq!(spots_of(&history), vec![1, 0, 2, 3, 4, 5, 6, 7, 8, 9, 10, 11, 12, 13, 14, 15]);
}

#[test]
fn playout_with_largest_sources() {
    let mut history = History::new();
    let top = SIXTEEN_FACTORIAL - 1;
    assert_eq!(random_playout(&mut history, 0, top, top), Some(6));
    assert_eq!(pieces_of(&history), vec![15, 0, 1, 2, 3, 4, 6, 7, 8, 9, 10, 11, 12, 13, 14, 5]);
    assert_eq!(spots_of(&history), vec![15, 0, 1, 2, 3, 5, 6, 7, 8, 9, 10, 11, 12, 13, 14, 4]);
}

#[test]
fn playout_with_mixed_sources() {
    let mut history = History::new();
    assert_eq!(random_playout(&mut history, 0, 123_456_789, 987_654_321), Some(10));
    assert_eq!(pieces_of(&history), vec![5, 0, 3, 8, 10, 9, 7, 1, 2, 6, 4, 11, 12, 13, 14, 15]);
    assert_eq!(spots_of(&history), vec![1, 6, 12, 4, 7, 8, 3, 15, 9, 5, 10, 11, 2, 13, 14, 0]);

    let mut history = History::new();
    assert_eq!(
        random_playout(&mut history, 0, 17_147_006_858_736, 18_369_271_389_057),
        Some(13)
    );
    assert_eq!(pieces_of(&history), vec![0, 7, 13, 2, 12, 15, 4, 3, 11, 9, 6, 14, 5, 1, 8, 10]);
    assert_eq!(spots_of(&history), vec![1, 12, 5, 8, 11, 0, 9, 3, 15, 6, 2, 4, 10, 13, 14, 7]);
}

#[test]
fn playout_that_ends_in_a_draw() {
    let mut history = History::new();
    assert_eq!(random_playout(&mut history, 0, 1_420_455_056_949, 4_677_583_084_189), None);
    assert_eq!(pieces_of(&history), vec![5, 0, 1, 9, 11, 3, 6, 10, 2, 15, 7, 14, 13, 12, 4, 8]);
    assert_eq!(spots_of(&history), vec![13, 7, 11, 0, 8, 6, 15, 1, 14, 5, 4, 12, 3, 10, 2, 9]);
    let end = history.get_position(LAST_TURN);
    assert!(!end.is_quarto());
    for s in 0..16 {
        assert!(end.get_piece(Spot(s)).is_some());
    }
}

#[test]
fn playout_on_a_won_game_returns_at_once() {
    // identity history: the first row is a Quarto from turn 5 on
    for turn in 5..=17 {
        let mut history = History::new();
        assert_eq!(random_playout(&mut history, turn, 42, 4242), Some(turn));
        assert_eq!(pieces_of(&history), (0..16).collect::<Vec<i8>>());
        assert_eq!(spots_of(&history), (0..16).collect::<Vec<i8>>());
    }
}

#[test]
fn playout_past_the_last_turn_does_nothing() {
    let mut history = History::new();
    history.swap_spots(0, 5);
    let spots = spots_of(&history);
    assert_eq!(random_playout(&mut history, 18, 7, 7), None);
    assert_eq!(random_playout(&mut history, 127, 7, 7), None);
    assert_eq!(spots_of(&history), spots);
}

#[test]
fn playout_ends_within_the_game_and_keeps_what_was_played() {
    let mut pcg = Pcg::new();
    let mut history = History::new();
    assert_eq!(history.try_move(0, &Move { spot: None, piece: Some(Piece(0xA)) }), Ok(()));
    assert_eq!(
        history.try_move(1, &Move { spot: Some(Spot(2)), piece: Some(Piece(0x3)) }),
        Ok(())
    );
    for _ in 0..2000 {
        let piece_source = pcg.rand_16_fact();
        let spot_source = pcg.rand_16_fact();
        let result = random_playout(&mut history, 2, piece_source, spot_source);
        // what was played before turn 2 stays
        assert_eq!(history.get_raw_piece(0), Piece(0xA));
        assert_eq!(history.get_raw_piece(1), Piece(0x3));
        assert_eq!(history.get_raw_spot(0), Spot(2));
        assert_eq!(sorted(pieces_of(&history)), (0..16).collect::<Vec<i8>>());
        assert_eq!(sorted(spots_of(&history)), (0..16).collect::<Vec<i8>>());
        match result {
            Some(end) => {
                assert!((2..=17).contains(&end));
                assert!(history.get_position(end).is_quarto());
                for turn in 2..end {
                    assert!(!history.get_position(turn).is_quarto());
                }
            }
            None => {
                for turn in 2..=17 {
                    assert!(!history.get_position(turn).is_quarto());
                }
            }
        }
    }
}
