//! Players: what every strategy owes, and the strategy that plays at random.

use vstd::prelude::*;
use crate::history::{History, HistoryView};
use crate::pcg::{state_after_uniform_draw, uniform_draw, Pcg, PcgView};
use crate::piece::{Move, Piece, Spot};

verus! {

/// A strategy: asked for a move at a turn, it answers with a legal one.
pub trait Engine {
    fn play(&mut self, history: &History, turn: i8) -> (mv: Move)
        ensures
            history@.accepts(turn as int, mv),
    ;
}

/// The state of a generator after the draw for the spot of a random move.
pub open spec fn state_after_spot_draw(turn: int, state: u64, inc: u64) -> u64 {
    if 1 <= turn <= 16 {
        state_after_uniform_draw(state, inc)
    } else {
        state
    }
}

/// The state of a generator after the draws for a random move.
pub open spec fn state_after_random_move(turn: int, state: u64, inc: u64) -> u64 {
    let state = state_after_spot_draw(turn, state, inc);
    if 0 <= turn <= 15 {
        state_after_uniform_draw(state, inc)
    } else {
        state
    }
}

impl HistoryView {
    /// The move that a generator in `state` picks at `turn`: a free spot where
    /// the turn has one, then a free piece where the turn has one, each by a
    /// uniform draw reduced modulo the number of candidates.
    pub open spec fn random_move(self, turn: int, state: u64, inc: u64) -> Move {
        Move {
            spot: if 1 <= turn <= 16 {
                Some(Spot(self.spots[turn - 1 + uniform_draw(state, inc) as int % (17 - turn)]))
            } else {
                None
            },
            piece: if 0 <= turn <= 15 {
                Some(
                    Piece(
                        self.pieces[turn + uniform_draw(
                            state_after_spot_draw(turn, state, inc),
                            inc,
                        ) as int % (16 - turn)],
                    ),
                )
            } else {
                None
            },
        }
    }
}

/// The strategy that picks a free spot and a free piece at random.
pub struct Rando {
    pcg: Pcg,
}

impl View for Rando {
    type V = PcgView;

    closed spec fn view(&self) -> PcgView {
        self.pcg@
    }
}

impl Rando {
    /// A random player with a new generator.
    pub fn new() -> (rando: Rando)
        ensures
            rando@ == Pcg::new_view(),
    {
        Self { pcg: Pcg::new() }
    }
}

impl Engine for Rando {
    fn play(&mut self, history: &History, turn: i8) -> (mv: Move)
        ensures
            mv == history@.random_move(turn as int, old(self)@.state, old(self)@.inc),
            final(self)@.state == state_after_random_move(
                turn as int,
                old(self)@.state,
                old(self)@.inc,
            ),
            final(self)@.inc == old(self)@.inc,
    {
        proof {
            use_type_invariant(history);
        }
        let mut response = Move { spot: None, piece: None };
        if turn >= 1 && turn <= 16 {
            // pick a spot
            let spot_random_source = self.pcg.rand_16_fact();
            let free_spot_count: u64 = (17 - turn) as u64;
            let spot_index = (spot_random_source % free_spot_count) as i8;
            response.spot = Some(history.get_raw_spot(turn - 1 + spot_index));
            assert(response.spot == Some(Spot(history@.spots[turn - 1 + spot_index])));
        }
        if turn >= 0 && turn <= 15 {
            // pick a piece
            let piece_random_source = self.pcg.rand_16_fact();
            let free_piece_count: u64 = (16 - turn) as u64;
            let piece_index = (piece_random_source % free_piece_count) as i8;
            response.piece = Some(history.get_raw_piece(turn + piece_index));
            assert(response.piece == Some(Piece(history@.pieces[turn + piece_index])));
        }
        response
    }
}

} // verus!
