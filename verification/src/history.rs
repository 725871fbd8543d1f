//! The record of a game: one permutation of the pieces and one of the spots.
//!
//! Slot `i` of the piece permutation holds the piece selected at turn `i`;
//! slot `i - 1` of the spot permutation holds the spot filled at turn `i`.
//! Slots below the current turn are resolved. The slots from the turn on are
//! unresolved: committing a move swaps the chosen value into the first of them.

use vstd::prelude::*;
use vstd::set_lib::{lemma_int_range, lemma_len_subset, set_int_range};
use crate::piece::{Move, Piece, Spot};
use crate::position::{Position, PositionView};

verus! {

/// A move that the rules do not allow in the given turn.
#[derive(Debug, Clone, Copy, PartialEq, Eq, Structural)]
pub struct IllegalMove;

/// Sixteen entries, each of `0..16`, no two equal.
pub open spec fn is_permutation(s: Seq<i8>) -> bool {
    &&& s.len() == 16
    &&& forall|i: int| 0 <= i < 16 ==> 0 <= #[trigger] s[i] < 16
    &&& forall|i: int, j: int| 0 <= i < j < 16 ==> #[trigger] s[i] != #[trigger] s[j]
}

/// The sequence with the entries at `i` and `j` exchanged.
pub open spec fn swapped(s: Seq<i8>, i: int, j: int) -> Seq<i8> {
    s.update(i, s[j]).update(j, s[i])
}

/// What a history holds: the two permutations.
pub struct HistoryView {
    pub pieces: Seq<i8>,
    pub spots: Seq<i8>,
}

impl HistoryView {
    /// Both sequences are permutations of `0..16`.
    pub open spec fn wf(self) -> bool {
        is_permutation(self.pieces) && is_permutation(self.spots)
    }

    /// The history of a game in which nothing has been played.
    pub open spec fn initial() -> HistoryView {
        HistoryView { pieces: Seq::new(16, |i: int| i as i8), spots: Seq::new(16, |i: int| i as i8) }
    }

    /// The history with two piece slots exchanged.
    pub open spec fn swap_pieces(self, i: int, j: int) -> HistoryView {
        HistoryView { pieces: swapped(self.pieces, i, j), spots: self.spots }
    }

    /// The history with two spot slots exchanged.
    pub open spec fn swap_spots(self, i: int, j: int) -> HistoryView {
        HistoryView { pieces: self.pieces, spots: swapped(self.spots, i, j) }
    }

    /// The piece selected at `turn`; there is one at turns `0..=15`.
    pub open spec fn piece_of_turn(self, turn: int) -> Option<Piece> {
        if 0 <= turn <= 15 {
            Some(Piece(self.pieces[turn]))
        } else {
            None
        }
    }

    /// The spot filled at `turn`; there is one at turns `1..=16`.
    pub open spec fn spot_of_turn(self, turn: int) -> Option<Spot> {
        if 1 <= turn <= 16 {
            Some(Spot(self.spots[turn - 1]))
        } else {
            None
        }
    }

    /// The move that the history records for `turn`: the spot filled and the
    /// piece handed over.
    pub open spec fn move_at(self, turn: int) -> Move {
        Move { spot: self.spot_of_turn(turn), piece: self.piece_of_turn(turn) }
    }

    /// How many pieces stand on the board when `turn` begins.
    pub open spec fn placed(turn: int) -> int {
        if turn <= 1 {
            0
        } else if turn >= 17 {
            16
        } else {
            turn - 1
        }
    }

    /// Who stands on spot `s` once the first `n` placements are replayed.
    pub open spec fn occupant(self, n: int, s: int) -> Option<Piece>
        decreases n,
    {
        if n <= 0 {
            None
        } else if self.spots[n - 1] == s {
            Some(Piece(self.pieces[n - 1]))
        } else {
            self.occupant(n - 1, s)
        }
    }

    /// The position when `turn` begins: the placements of the earlier turns
    /// replayed, and the piece handed over in the turn before selected.
    pub open spec fn position_at(self, turn: int) -> PositionView {
        PositionView {
            cells: Seq::new(16, |s: int| self.occupant(Self::placed(turn), s)),
            selected: self.piece_of_turn(turn - 1),
        }
    }

    /// `spot` is among the spots that are still free at `turn`.
    pub open spec fn spot_is_free(self, turn: int, spot: Spot) -> bool {
        exists|k: int| turn - 1 <= k < 16 && 0 <= k && #[trigger] self.spots[k] == spot.0
    }

    /// `piece` is among the pieces that nobody has selected before `turn`.
    pub open spec fn piece_is_free(self, turn: int, piece: Piece) -> bool {
        exists|k: int| turn <= k < 16 && 0 <= k && #[trigger] self.pieces[k] == piece.0
    }

    /// The history once the spot of a move is committed at `turn`.
    pub open spec fn commit_spot(self, turn: int, spot: Option<Spot>) -> HistoryView {
        match spot {
            Some(spot) => self.swap_spots(turn - 1, self.spots.index_of(spot.0)),
            None => self,
        }
    }

    /// The history once the piece of a move is committed at `turn`.
    pub open spec fn commit_piece(self, turn: int, piece: Option<Piece>) -> HistoryView {
        match piece {
            Some(piece) => self.swap_pieces(turn, self.pieces.index_of(piece.0)),
            None => self,
        }
    }

    /// The history once `mv` is committed at `turn`.
    pub open spec fn commit(self, turn: int, mv: Move) -> HistoryView {
        self.commit_spot(turn, mv.spot).commit_piece(turn, mv.piece)
    }

    /// Whether `mv` is legal at `turn`.
    ///
    /// A spot is given exactly at turns `1..=16`, and is free. A piece is given
    /// only at turns `0..=15`, and is free. At those turns the piece may be left
    /// out only when placing on the spot completes a Quarto.
    pub open spec fn accepts(self, turn: int, mv: Move) -> bool {
        &&& mv.spot is Some <==> 1 <= turn <= 16
        &&& mv.spot matches Some(spot) ==> self.spot_is_free(turn, spot)
        &&& mv.piece matches Some(piece) ==> 0 <= turn <= 15 && self.piece_is_free(turn, piece)
        &&& mv.piece is None && 0 <= turn <= 15 ==> self.commit_spot(turn, mv.spot).position_at(
            turn + 1,
        ).is_quarto()
    }
}

/// The two permutations of a game.
#[derive(Debug)]
pub struct History {
    pieces_permut: [i8; 16],
    spots_permut: [i8; 16],
}

impl View for History {
    type V = HistoryView;

    closed spec fn view(&self) -> HistoryView {
        HistoryView { pieces: self.pieces_permut@, spots: self.spots_permut@ }
    }
}

impl Clone for History {
    fn clone(&self) -> (copy: History)
        ensures
            copy@ == self@,
    {
        proof {
            use_type_invariant(self);
        }
        History { pieces_permut: self.pieces_permut, spots_permut: self.spots_permut }
    }
}

/// Exchanging two entries of a permutation gives a permutation.
pub proof fn lemma_swapped_is_permutation(s: Seq<i8>, i: int, j: int)
    requires
        is_permutation(s),
        0 <= i < 16,
        0 <= j < 16,
    ensures
        is_permutation(swapped(s, i, j)),
{
    let t = swapped(s, i, j);
    assert forall|a: int, b: int| 0 <= a < b < 16 implies #[trigger] t[a] != #[trigger] t[b] by {
        let a0 = if a == i { j } else if a == j { i } else { a };
        let b0 = if b == i { j } else if b == j { i } else { b };
        assert(t[a] == s[a0]);
        assert(t[b] == s[b0]);
        if a0 < b0 {
            assert(s[a0] != s[b0]);
        } else {
            assert(s[b0] != s[a0]);
        }
    }
}

/// A value stands in at most one slot of a permutation.
pub proof fn lemma_slot_is_unique(s: Seq<i8>, k: int)
    requires
        is_permutation(s),
        0 <= k < 16,
    ensures
        s.index_of(s[k]) == k,
{
    let found = s.index_of(s[k]);
    assert(0 <= found < 16 && s[found] == s[k]);
    if found < k {
        assert(s[found] != s[k]);
    } else if k < found {
        assert(s[k] != s[found]);
    }
}

/// Every value of `0..16` stands in some slot of a permutation: sixteen
/// different values leave none of the sixteen out.
pub proof fn lemma_permutation_is_onto(s: Seq<i8>, v: i8)
    requires
        is_permutation(s),
        0 <= v < 16,
    ensures
        exists|k: int| 0 <= k < 16 && s[k] == v,
{
    if forall|k: int| 0 <= k < 16 ==> s[k] != v {
        let values = Seq::new(16, |i: int| s[i] as int);
        assert forall|i: int, j: int| 0 <= i < values.len() && 0 <= j < values.len() && i
            != j implies values[i] != values[j] by {
            if i < j {
                assert(s[i] != s[j]);
            } else {
                assert(s[j] != s[i]);
            }
        }
        values.unique_seq_to_set();
        lemma_int_range(0, 16);
        let others = set_int_range(0, 16).remove(v as int);
        assert forall|x: int| values.to_set().contains(x) implies others.contains(x) by {
            let i = choose|i: int| 0 <= i < values.len() && values[i] == x;
            assert(s[i] != v);
        }
        lemma_len_subset(values.to_set(), others);
        assert(false);
    }
}

/// The first slot from `from` on that holds `value`, if there is one.
fn find_slot(permut: &[i8; 16], from: i8, value: i8) -> (found: Option<i8>)
    requires
        0 <= from <= 16,
    ensures
        match found {
            Some(k) => from <= k < 16 && permut@[k as int] == value,
            None => forall|k: int| from <= k < 16 ==> permut@[k] != value,
        },
{
    let mut k: i8 = from;
    while k < 16
        invariant
            0 <= from <= k <= 16,
            forall|j: int| from <= j < k ==> permut@[j] != value,
        decreases 16 - k,
    {
        if permut[k as usize] == value {
            return Some(k);
        }
        k += 1;
    }
    None
}

impl HistoryView {
    /// A spot that is filled later is empty after the first `n` placements.
    pub proof fn lemma_later_spot_is_empty(self, n: int, m: int)
        requires
            self.wf(),
            0 <= n <= m < 16,
        ensures
            self.occupant(n, self.spots[m] as int) is None,
        decreases n,
    {
        if n > 0 {
            assert(self.spots[n - 1] != self.spots[m]);
            self.lemma_later_spot_is_empty(n - 1, m);
        }
    }
}

impl HistoryView {
    /// The history before any move holds two permutations.
    pub proof fn lemma_initial_wf()
        ensures
            HistoryView::initial().wf(),
    {
    }

    /// Committing a legal move keeps both sequences permutations of `0..16`.
    /// From the initial history on, every history reached by legal moves is
    /// therefore a pair of permutations.
    pub proof fn lemma_commit_keeps_permutations(self, turn: int, mv: Move)
        requires
            self.wf(),
            self.accepts(turn, mv),
        ensures
            self.commit(turn, mv).wf(),
    {
        self.lemma_commit_swaps_unresolved(turn, mv);
    }

    /// Committing a legal move exchanges two unresolved slots in each
    /// permutation and so leaves the resolved slots as they were.
    pub proof fn lemma_commit_swaps_unresolved(self, turn: int, mv: Move)
        requires
            self.wf(),
            self.accepts(turn, mv),
        ensures
            self.commit(turn, mv).wf(),
            forall|k: int| 0 <= k < turn - 1 ==> self.commit(turn, mv).spots[k] == self.spots[k],
            forall|k: int| 0 <= k < turn ==> self.commit(turn, mv).pieces[k] == self.pieces[k],
            mv.spot matches Some(spot) ==> self.commit(turn, mv).spots[turn - 1] == spot.0,
            mv.piece matches Some(piece) ==> self.commit(turn, mv).pieces[turn] == piece.0,
    {
        if let Some(spot) = mv.spot {
            let k = choose|k: int| turn - 1 <= k < 16 && 0 <= k && #[trigger] self.spots[k] == spot.0;
            lemma_slot_is_unique(self.spots, k);
            lemma_swapped_is_permutation(self.spots, turn - 1, k);
        }
        if let Some(piece) = mv.piece {
            let k = choose|k: int| turn <= k < 16 && 0 <= k && #[trigger] self.pieces[k] == piece.0;
            lemma_slot_is_unique(self.pieces, k);
            lemma_swapped_is_permutation(self.pieces, turn, k);
        }
    }

    /// After `n` placements a spot holds the piece of the one placement that
    /// filled it, and is empty if none did.
    pub proof fn lemma_occupant(self, n: int, s: int)
        requires
            self.wf(),
            0 <= n <= 16,
        ensures
            forall|j: int|
                0 <= j < n && #[trigger] self.spots[j] == s ==> self.occupant(n, s) == Some(
                    Piece(self.pieces[j]),
                ),
            self.occupant(n, s) matches Some(p) ==> exists|j: int|
                0 <= j < n && #[trigger] self.spots[j] == s && p == Piece(self.pieces[j]),
        decreases n,
    {
        if n > 0 {
            self.lemma_occupant(n - 1, s);
            if self.spots[n - 1] == s {
                assert forall|j: int| 0 <= j < n && #[trigger] self.spots[j] == s implies j == n
                    - 1 by {
                    if j < n - 1 {
                        assert(self.spots[j] != self.spots[n - 1]);
                    }
                }
            }
        }
    }

    /// The position of the next turn is the position of this one with the
    /// selected piece placed on the spot that the turn fills, and the piece of
    /// the turn selected.
    pub proof fn lemma_position_step(self, turn: int)
        requires
            self.wf(),
        ensures
            self.position_at(turn + 1).selected == self.piece_of_turn(turn),
            self.position_at(turn + 1).cells == match self.spot_of_turn(turn) {
                Some(spot) => self.position_at(turn).cells.update(
                    spot.0 as int,
                    self.position_at(turn).selected,
                ),
                None => self.position_at(turn).cells,
            },
    {
        match self.spot_of_turn(turn) {
            Some(spot) => {
                assert(self.position_at(turn + 1).cells =~= self.position_at(turn).cells.update(
                    spot.0 as int,
                    self.position_at(turn).selected,
                ));
            },
            None => {
                assert(self.position_at(turn + 1).cells =~= self.position_at(turn).cells);
            },
        }
    }

    /// The position after a legal move is the position before it with the
    /// selected piece placed on the move's spot and the move's piece selected.
    /// So replaying a history gives what applying its moves one by one gives.
    ///
    /// Where a winning move hands over no piece, the replay still shows the
    /// content of the next piece slot as selected; the clause on the selected
    /// piece leaves that case out.
    pub proof fn lemma_position_after_move(self, turn: int, mv: Move)
        requires
            self.wf(),
            self.accepts(turn, mv),
        ensures
            self.commit(turn, mv).position_at(turn) == self.position_at(turn),
            self.commit(turn, mv).position_at(turn + 1).cells == match mv.spot {
                Some(spot) => self.position_at(turn).cells.update(
                    spot.0 as int,
                    self.position_at(turn).selected,
                ),
                None => self.position_at(turn).cells,
            },
            mv.piece is Some || !(0 <= turn <= 15) ==> self.commit(turn, mv).position_at(
                turn + 1,
            ).selected == mv.piece,
    {
        let after = self.commit(turn, mv);
        self.lemma_commit_swaps_unresolved(turn, mv);
        assert forall|n: int, s: int| 0 <= n <= 16 && n <= turn - 1 implies #[trigger] after.occupant(
            n,
            s,
        ) == self.occupant(n, s) by {
            self.lemma_same_prefix_same_occupant(after, n, s);
        }
        assert(after.position_at(turn).cells =~= self.position_at(turn).cells);
        match mv.spot {
            Some(spot) => {
                assert(after.position_at(turn + 1).cells =~= self.position_at(turn).cells.update(
                    spot.0 as int,
                    self.position_at(turn).selected,
                ));
            },
            None => {
                assert(after.position_at(turn + 1).cells =~= self.position_at(turn).cells);
            },
        }
    }

    /// Two histories that agree on the first `n` placements agree on who
    /// stands where after them.
    pub proof fn lemma_same_prefix_same_occupant(self, other: HistoryView, n: int, s: int)
        requires
            forall|k: int| 0 <= k < n ==> self.spots[k] == other.spots[k],
            forall|k: int| 0 <= k < n ==> self.pieces[k] == other.pieces[k],
        ensures
            other.occupant(n, s) == self.occupant(n, s),
        decreases n,
    {
        if n > 0 {
            self.lemma_same_prefix_same_occupant(other, n - 1, s);
        }
    }

    /// A spot can be chosen exactly when nothing stands on it.
    pub proof fn lemma_free_spot_iff_empty(self, turn: int, spot: Spot)
        requires
            self.wf(),
            1 <= turn <= 17,
            spot.valid(),
        ensures
            self.spot_is_free(turn, spot) <==> self.position_at(turn).cells[spot.0 as int] is None,
    {
        lemma_permutation_is_onto(self.spots, spot.0);
        let k = choose|k: int| 0 <= k < 16 && self.spots[k] == spot.0;
        lemma_slot_is_unique(self.spots, k);
        self.lemma_occupant(turn - 1, spot.0 as int);
        if k >= turn - 1 {
            assert(self.spot_is_free(turn, spot));
        } else {
            if self.spot_is_free(turn, spot) {
                let k2 = choose|k: int|
                    turn - 1 <= k < 16 && 0 <= k && #[trigger] self.spots[k] == spot.0;
                lemma_slot_is_unique(self.spots, k2);
            }
        }
    }

    /// A piece can be handed over exactly when it neither stands on the board
    /// nor is the selected piece.
    pub proof fn lemma_free_piece_iff_unused(self, turn: int, piece: Piece)
        requires
            self.wf(),
            0 <= turn <= 16,
            piece.valid(),
        ensures
            self.piece_is_free(turn, piece) <==> {
                &&& self.position_at(turn).selected != Some(piece)
                &&& forall|s: int|
                    0 <= s < 16 ==> #[trigger] self.position_at(turn).cells[s] != Some(piece)
            },
    {
        lemma_permutation_is_onto(self.pieces, piece.0);
        let k = choose|k: int| 0 <= k < 16 && self.pieces[k] == piece.0;
        lemma_slot_is_unique(self.pieces, k);
        let n = Self::placed(turn);
        if k >= turn {
            assert(self.piece_is_free(turn, piece));
            assert forall|s: int| 0 <= s < 16 implies #[trigger] self.position_at(turn).cells[s]
                != Some(piece) by {
                self.lemma_occupant(n, s);
                if self.occupant(n, s) == Some(piece) {
                    let j = choose|j: int|
                        0 <= j < n && #[trigger] self.spots[j] == s && piece == Piece(
                            self.pieces[j],
                        );
                    lemma_slot_is_unique(self.pieces, j);
                }
            }
            if turn >= 1 {
                lemma_slot_is_unique(self.pieces, turn - 1);
            }
        } else {
            if self.piece_is_free(turn, piece) {
                let k2 = choose|k: int|
                    turn <= k < 16 && 0 <= k && #[trigger] self.pieces[k] == piece.0;
                lemma_slot_is_unique(self.pieces, k2);
            }
            if k < turn - 1 {
                let s = self.spots[k] as int;
                self.lemma_occupant(n, s);
                assert(self.position_at(turn).cells[s] == Some(piece));
            }
        }
    }
}

impl History {
    /// Every history holds two permutations of `0..16`.
    #[verifier::type_invariant]
    pub open spec fn wf(&self) -> bool {
        self@.wf()
    }

    /// The history of a game in which nothing has been played: both
    /// permutations are the identity.
    pub fn new() -> (history: History)
        ensures
            history@ == HistoryView::initial(),
            history@.wf(),
    {
        let history = History {
            pieces_permut: [0, 1, 2, 3, 4, 5, 6, 7, 8, 9, 10, 11, 12, 13, 14, 15],
            spots_permut: [0, 1, 2, 3, 4, 5, 6, 7, 8, 9, 10, 11, 12, 13, 14, 15],
        };
        assert(history@.pieces =~= HistoryView::initial().pieces);
        assert(history@.spots =~= HistoryView::initial().spots);
        history
    }

    /// The piece selected at `turn`: slot `turn` of the piece permutation.
    pub fn get_piece(&self, turn: i8) -> (piece: Option<Piece>)
        ensures
            piece == self@.piece_of_turn(turn as int),
            piece matches Some(p) ==> p.valid(),
    {
        proof {
            use_type_invariant(self);
        }
        if turn >= 0 && turn <= 15 {
            Some(Piece(self.pieces_permut[turn as usize]))
        } else {
            None
        }
    }

    /// The piece in slot `index` of the piece permutation.
    pub fn get_raw_piece(&self, index: i8) -> (piece: Piece)
        requires
            0 <= index < 16,
        ensures
            piece.0 == self@.pieces[index as int],
            piece.valid(),
    {
        proof {
            use_type_invariant(self);
        }
        Piece(self.pieces_permut[index as usize])
    }

    /// Exchanges two slots of the piece permutation.
    pub fn swap_pieces(&mut self, index_0: i8, index_1: i8)
        requires
            0 <= index_0 < 16,
            0 <= index_1 < 16,
        ensures
            final(self)@ == old(self)@.swap_pieces(index_0 as int, index_1 as int),
            final(self)@.wf(),
    {
        proof {
            use_type_invariant(&*self);
            lemma_swapped_is_permutation(self@.pieces, index_0 as int, index_1 as int);
        }
        let mut pieces = self.pieces_permut;
        let piece_0 = pieces[index_0 as usize];
        let piece_1 = pieces[index_1 as usize];
        pieces[index_0 as usize] = piece_1;
        pieces[index_1 as usize] = piece_0;
        assert(pieces@ =~= swapped(self@.pieces, index_0 as int, index_1 as int));
        self.pieces_permut = pieces;
    }

    /// The spot filled at `turn`: slot `turn - 1` of the spot permutation.
    pub fn get_spot(&self, turn: i8) -> (spot: Option<Spot>)
        ensures
            spot == self@.spot_of_turn(turn as int),
            spot matches Some(s) ==> s.valid(),
    {
        proof {
            use_type_invariant(self);
        }
        if turn >= 1 && turn <= 16 {
            Some(Spot(self.spots_permut[turn as usize - 1]))
        } else {
            None
        }
    }

    /// The spot in slot `index` of the spot permutation.
    pub fn get_raw_spot(&self, index: i8) -> (spot: Spot)
        requires
            0 <= index < 16,
        ensures
            spot.0 == self@.spots[index as int],
            spot.valid(),
    {
        proof {
            use_type_invariant(self);
        }
        Spot(self.spots_permut[index as usize])
    }

    /// Exchanges two slots of the spot permutation.
    pub fn swap_spots(&mut self, index_0: i8, index_1: i8)
        requires
            0 <= index_0 < 16,
            0 <= index_1 < 16,
        ensures
            final(self)@ == old(self)@.swap_spots(index_0 as int, index_1 as int),
            final(self)@.wf(),
    {
        proof {
            use_type_invariant(&*self);
            lemma_swapped_is_permutation(self@.spots, index_0 as int, index_1 as int);
        }
        let mut spots = self.spots_permut;
        let spot_0 = spots[index_0 as usize];
        let spot_1 = spots[index_1 as usize];
        spots[index_0 as usize] = spot_1;
        spots[index_1 as usize] = spot_0;
        assert(spots@ =~= swapped(self@.spots, index_0 as int, index_1 as int));
        self.spots_permut = spots;
    }

    /// The position when `turn` begins, rebuilt from the resolved slots.
    pub fn get_position(&self, turn: i8) -> (pos: Position)
        ensures
            pos@ == self@.position_at(turn as int),
    {
        proof {
            use_type_invariant(self);
        }
        let mut pos = Position::new();
        assert(pos@.cells =~= self@.position_at(0).cells);
        let mut i: i8 = 0;
        while i < turn
            invariant
                0 <= i,
                i <= turn || i == 0,
                self@.wf(),
                pos@ == self@.position_at(i as int),
            decreases turn - i,
        {
            let ghost before = pos@;
            let placed_piece = self.get_piece(i - 1);
            let filled_spot = self.get_spot(i);
            if let (Some(piece), Some(spot)) = (placed_piece, filled_spot) {
                proof {
                    self@.lemma_later_spot_is_empty(i - 1, i - 1);
                }
                pos.place_piece(spot, piece);
            }
            pos.choose_piece(self.get_piece(i));
            assert(pos@.cells =~= self@.position_at(i + 1).cells);
            i += 1;
        }
        assert(pos@.cells =~= self@.position_at(turn as int).cells);
        pos
    }

    /// Commits `mv` at `turn` if the rules allow it, and leaves the history as
    /// it was if they do not.
    pub fn try_move(&mut self, turn: i8, mv: &Move) -> (result: Result<(), IllegalMove>)
        ensures
            result is Ok <==> old(self)@.accepts(turn as int, *mv),
            result is Ok ==> final(self)@ == old(self)@.commit(turn as int, *mv),
            result is Err ==> final(self)@ == old(self)@,
            final(self)@.wf(),
    {
        proof {
            use_type_invariant(&*self);
        }
        let mut temp = self.clone();

        if let Some(spot) = mv.spot {
            if !(turn >= 1 && turn <= 16) {
                return Err(IllegalMove);
            }
            if let Some(spot_index) = find_slot(&self.spots_permut, turn - 1, spot.0) {
                proof {
                    lemma_slot_is_unique(self@.spots, spot_index as int);
                }
                temp.swap_spots(turn - 1, spot_index);
            } else {
                return Err(IllegalMove);
            }
        } else {
            if turn >= 1 && turn <= 16 {
                return Err(IllegalMove);
            }
        }
        assert(temp@ == self@.commit_spot(turn as int, mv.spot));

        if let Some(piece) = mv.piece {
            if !(turn >= 0 && turn <= 15) {
                return Err(IllegalMove);
            }
            if let Some(piece_index) = find_slot(&self.pieces_permut, turn, piece.0) {
                proof {
                    lemma_slot_is_unique(self@.pieces, piece_index as int);
                }
                temp.swap_pieces(turn, piece_index);
            } else {
                return Err(IllegalMove);
            }
        } else {
            if turn >= 0 && turn <= 15 && !temp.get_position(turn + 1).is_quarto() {
                return Err(IllegalMove);
            }
        }

        *self = temp;
        Ok(())
    }
}

} // verus!
