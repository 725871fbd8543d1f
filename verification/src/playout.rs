//! Random playouts: a game finished by choices that two random numbers encode.
//!
//! Each number is read as a row of digits in the factorial number system. At
//! turn `i` the lowest digit of the piece number, taken modulo the count of
//! unselected pieces, picks the next piece, and the lowest digit of the spot
//! number picks the next spot. A choice is committed by the same swap that
//! commits a move of a real game.

use vstd::prelude::*;
use crate::history::{History, HistoryView};

verus! {

/// The last turn of a game: the board is full.
pub const LAST_TURN: i8 = 17;

/// A playout under way: the history so far and what is left of the two numbers.
pub struct PlayoutState {
    pub history: HistoryView,
    pub piece_source: u64,
    pub spot_source: u64,
}

impl PlayoutState {
    /// A playout about to start.
    pub open spec fn begin(history: HistoryView, piece_source: u64, spot_source: u64) -> PlayoutState {
        PlayoutState { history, piece_source, spot_source }
    }

    /// The state after the choices of turn `i`.
    pub open spec fn step(self, i: int) -> PlayoutState {
        let picked = if 0 <= i <= 15 {
            PlayoutState {
                history: self.history.swap_pieces(i, i + self.piece_source as int % (16 - i)),
                piece_source: (self.piece_source as int / (16 - i)) as u64,
                spot_source: self.spot_source,
            }
        } else {
            self
        };
        if 1 <= i <= 16 {
            PlayoutState {
                history: picked.history.swap_spots(
                    i - 1,
                    i - 1 + picked.spot_source as int % (17 - i),
                ),
                piece_source: picked.piece_source,
                spot_source: (picked.spot_source as int / (17 - i)) as u64,
            }
        } else {
            picked
        }
    }

    /// The state after the choices of the turns `from..to`.
    pub open spec fn run(self, from: int, to: int) -> PlayoutState
        decreases to - from,
    {
        if to <= from {
            self
        } else {
            self.run(from, to - 1).step(to - 1)
        }
    }

    /// A playout that starts at `from` finds a Quarto on the board when it
    /// comes to turn `at`.
    pub open spec fn wins_at(self, from: int, at: int) -> bool {
        self.run(from, at).history.position_at(at).is_quarto()
    }

    /// The turn at which a playout from `from` stops once it has come to `at`
    /// without a Quarto: the first turn from `at` on with a Quarto on the board,
    /// or the turn after the last if there is none.
    pub open spec fn stop(self, from: int, at: int) -> int
        decreases LAST_TURN + 1 - at,
    {
        if at > LAST_TURN || self.wins_at(from, at) {
            at
        } else {
            self.stop(from, at + 1)
        }
    }

    /// What a playout from `from` returns: the turn of the first Quarto, or
    /// nothing when the board fills up without one.
    pub open spec fn outcome(self, from: int) -> Option<i8> {
        if self.stop(from, from) <= LAST_TURN {
            Some(self.stop(from, from) as i8)
        } else {
            None
        }
    }

    /// The history that a playout from `from` leaves behind.
    pub open spec fn end(self, from: int) -> HistoryView {
        self.run(from, self.stop(from, from)).history
    }

    /// A playout stops within `from..=17` at the first Quarto, and runs past
    /// the last turn exactly when no turn from `from` on shows one.
    pub proof fn lemma_stop(self, from: int, at: int)
        requires
            from <= at,
        ensures
            at <= self.stop(from, at),
            at <= LAST_TURN ==> self.stop(from, at) <= LAST_TURN + 1,
            self.stop(from, at) <= LAST_TURN ==> self.wins_at(from, self.stop(from, at)),
            forall|t: int| at <= t < self.stop(from, at) && t <= LAST_TURN ==> !self.wins_at(from, t),
        decreases LAST_TURN + 1 - at,
    {
        if !(at > LAST_TURN || self.wins_at(from, at)) {
            self.lemma_stop(from, at + 1);
        }
    }

    /// One turn of a playout keeps the permutations, and the slots resolved
    /// before the turn.
    pub proof fn lemma_step(self, i: int)
        requires
            self.history.wf(),
        ensures
            self.step(i).history.wf(),
            forall|k: int| 0 <= k < i ==> self.step(i).history.pieces[k] == self.history.pieces[k],
            forall|k: int|
                0 <= k < i - 1 ==> self.step(i).history.spots[k] == self.history.spots[k],
    {
        if 0 <= i <= 15 {
            crate::history::lemma_swapped_is_permutation(
                self.history.pieces,
                i,
                i + self.piece_source as int % (16 - i),
            );
        }
        if 1 <= i <= 16 {
            crate::history::lemma_swapped_is_permutation(
                self.history.spots,
                i - 1,
                i - 1 + self.spot_source as int % (17 - i),
            );
        }
    }

    /// A playout keeps the permutations, and the slots that were resolved when
    /// it started: it continues the game that was played so far.
    pub proof fn lemma_run(self, from: int, to: int)
        requires
            self.history.wf(),
        ensures
            self.run(from, to).history.wf(),
            forall|k: int|
                0 <= k < from ==> self.run(from, to).history.pieces[k] == self.history.pieces[k],
            forall|k: int|
                0 <= k < from - 1 ==> self.run(from, to).history.spots[k] == self.history.spots[k],
        decreases to - from,
    {
        if to > from {
            self.lemma_run(from, to - 1);
            self.run(from, to - 1).lemma_step(to - 1);
        }
    }
}

/// Plays the game to its end from `turn` on, with the choices that the two
/// numbers encode, and returns the turn at which a Quarto was found on the
/// board, or `None` if the board filled up without one.
///
/// The turn's parity tells the winner. The history is left as it stood when
/// the playout ended.
pub fn random_playout(
    history: &mut History,
    turn: i8,
    piece_random_source: u64,
    spot_random_source: u64,
) -> (result: Option<i8>)
    requires
        0 <= turn,
    ensures
        ({
            let start = PlayoutState::begin(
                old(history)@,
                piece_random_source,
                spot_random_source,
            );
            &&& result == start.outcome(turn as int)
            &&& final(history)@ == start.end(turn as int)
            &&& match result {
                Some(end) => {
                    &&& turn <= end <= LAST_TURN
                    &&& start.wins_at(turn as int, end as int)
                    &&& forall|t: int| turn <= t < end ==> !start.wins_at(turn as int, t)
                },
                None => forall|t: int| turn <= t <= LAST_TURN ==> !start.wins_at(turn as int, t),
            }
        }),
        final(history)@.wf(),
{
    let ghost start = PlayoutState::begin(history@, piece_random_source, spot_random_source);
    let mut piece_source = piece_random_source;
    let mut spot_source = spot_random_source;
    proof {
        use_type_invariant(&*history);
    }
    let mut i: i8 = turn;
    while i <= LAST_TURN
        invariant
            0 <= turn <= i,
            i <= LAST_TURN + 1 || i == turn,
            history@.wf(),
            start.history == old(history)@,
            start.piece_source == piece_random_source,
            start.spot_source == spot_random_source,
            history@ == start.run(turn as int, i as int).history,
            piece_source == start.run(turn as int, i as int).piece_source,
            spot_source == start.run(turn as int, i as int).spot_source,
            forall|t: int| turn <= t < i ==> !start.wins_at(turn as int, t),
            start.stop(turn as int, turn as int) == start.stop(turn as int, i as int),
        decreases LAST_TURN + 1 - i,
    {
        let position = history.get_position(i);
        if position.is_quarto() {
            return Some(i);
        }
        if i <= 15 {
            // pick and commit piece
            let free_piece_count: u64 = (16 - i) as u64;
            let piece_index = (piece_source % free_piece_count) as i8;
            piece_source = piece_source / free_piece_count;
            history.swap_pieces(i, i + piece_index);
        }
        if i >= 1 && i <= 16 {
            // pick and commit spot
            let free_spot_count: u64 = (17 - i) as u64;
            let spot_index = (spot_source % free_spot_count) as i8;
            spot_source = spot_source / free_spot_count;
            history.swap_spots(i - 1, i - 1 + spot_index);
        }
        i += 1;
    }
    None
}

} // verus!
