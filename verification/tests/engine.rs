use quarto::engine::{Engine, Rando};
use quarto::history::History;
use quarto::piece::{Move, Piece, Spot};

fn view(mv: &Move) -> (Option<i8>, Option<i8>) {
    (mv.spot.map(|s| s.0), mv.piece.map(|p| p.0))
}

#[test]
fn rando_first_moves_on_a_fresh_history() {
    let history = History::new();
    let expected: [(i8, (Option<i8>, Option<i8>)); 6] = [
        (0, (None, Some(0))),
        (1, (Some(0), Some(13))),
        (5, (Some(4), Some(11))),
        (15, (Some(14), Some(15))),
        (16, (Some(15), None)),
        (17, (None, None)),
    ];
    for (turn, mv) in expected {
        let mut rando = Rando::new();
        assert_eq!(view(&rando.play(&history, turn)), mv, "turn {turn}");
    }
}

#[test]
fn rando_outside_the_game_gives_the_empty_move() {
    let history = History::new();
    let mut rando = Rando::new();
    for turn in [-128i8, -1, 18, 127] {
        assert_eq!(view(&rando.play(&history, turn)), (None, None));
    }
    // no draw was made: the next move is that of a new generator
    assert_eq!(view(&rando.play(&history, 1)), (Some(0), Some(13)));
}

#[test]
fn rando_plays_a_whole_game_of_legal_moves() {
    let expected: [(Option<i8>, Option<i8>); 12] = [
        (None, Some(0)),
        (Some(1), Some(10)),
        (Some(8), Some(7)),
        (Some(15), Some(11)),
        (Some(3), Some(1)),
        (Some(2), Some(15)),
        (Some(5), Some(5)),
        (Some(14), Some(2)),
        (Some(10), Some(4)),
        (Some(11), Some(3)),
        (Some(4), Some(12)),
        (Some(9), Some(8)),
    ];
    let mut rando = Rando::new();
    let mut history = History::new();
    let mut turn: i8 = 0;
    for mv in expected {
        let played = rando.play(&history, turn);
        assert_eq!(view(&played), mv);
        assert_eq!(history.try_move(turn, &played), Ok(()));
        turn += 1;
        assert_eq!(history.get_position(turn).is_quarto(), turn == 12);
    }
}

#[test]
fn rando_moves_are_always_accepted() {
    let mut rando = Rando::new();
    for _game in 0..200 {
        let mut history = History::new();
        for turn in 0..=17i8 {
            let mv = rando.play(&history, turn);
            assert_eq!(mv.spot.is_some(), (1..=16).contains(&turn));
            assert_eq!(mv.piece.is_some(), (0..=15).contains(&turn));
            if let Some(Spot(s)) = mv.spot {
                assert_eq!(history.get_position(turn).get_piece(Spot(s)), None);
            }
            if let Some(Piece(p)) = mv.piece {
                assert!((0..16).contains(&p));
            }
            assert_eq!(history.try_move(turn, &mv), Ok(()));
        }
    }
}
