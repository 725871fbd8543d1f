//! Board positions: which piece stands on which spot, which piece is selected,
//! and the test for a winning line.
//!
//! A position is stored as a bitboard of sixteen nibbles, one per spot. Its
//! contracts speak of the view: a sequence of sixteen cells.

use vstd::prelude::*;
use crate::piece::{Piece, Spot};

verus! {

/// Number of winning lines: four rows, four columns, two diagonals.
pub const LINE_COUNT: usize = 10;

/// Number of binary attributes of a piece.
pub const ATTRIBUTE_COUNT: usize = 4;

/// The `k`-th spot of line `line`. Lines 0..4 are the rows, 4..8 the columns,
/// 8 is the main diagonal and 9 the other one.
pub open spec fn line_spot(line: int, k: int) -> int {
    if line < 4 {
        4 * line + k
    } else if line < 8 {
        (line - 4) + 4 * k
    } else if line == 8 {
        5 * k
    } else {
        3 + 3 * k
    }
}

/// What a position holds: the occupant of each of the sixteen spots, and the
/// piece that the player to move has to place.
pub struct PositionView {
    pub cells: Seq<Option<Piece>>,
    pub selected: Option<Piece>,
}

impl PositionView {
    /// The position before the first move: empty board, nothing selected.
    pub open spec fn empty() -> PositionView {
        PositionView { cells: Seq::new(16, |s: int| None::<Piece>), selected: None }
    }

    /// Sixteen cells, and every piece on the board is one of the sixteen pieces.
    pub open spec fn wf(self) -> bool {
        &&& self.cells.len() == 16
        &&& forall|s: int| 0 <= s < 16 ==> (#[trigger] self.cells[s] matches Some(p) ==> p.valid())
    }

    /// The piece on the `k`-th spot of a line, if there is one.
    pub open spec fn on_line(self, line: int, k: int) -> Option<Piece> {
        self.cells[line_spot(line, k)]
    }

    /// All four spots of the line are occupied.
    pub open spec fn line_full(self, line: int) -> bool {
        forall|k: int| 0 <= k < 4 ==> (#[trigger] self.on_line(line, k)) is Some
    }

    /// The four pieces on a full line agree on attribute `a`.
    pub open spec fn line_agrees(self, line: int, a: u8) -> bool {
        forall|k: int|
            0 <= k < 4 ==> (#[trigger] self.on_line(line, k))->0.attribute(a) == self.on_line(
                line,
                0,
            )->0.attribute(a)
    }

    /// The line is a Quarto: full, with one attribute on which its four pieces agree.
    pub open spec fn line_wins(self, line: int) -> bool {
        self.line_full(line) && exists|a: u8| a < 4 && #[trigger] self.line_agrees(line, a)
    }

    /// Some line is a Quarto.
    pub open spec fn is_quarto(self) -> bool {
        exists|line: int| 0 <= line < 10 && #[trigger] self.line_wins(line)
    }

    /// A line whose four pieces share the value of an attribute makes the
    /// position a Quarto, whether the shared value is set or clear.
    pub proof fn lemma_shared_attribute_is_quarto(self, line: int, a: u8, value: bool)
        requires
            0 <= line < 10,
            a < 4,
            forall|k: int|
                0 <= k < 4 ==> (#[trigger] self.on_line(line, k) matches Some(p) && p.attribute(a)
                    == value),
        ensures
            self.is_quarto(),
    {
        assert(self.line_agrees(line, a));
        assert(self.line_wins(line));
    }

    /// A position in which every line has fewer than four pieces is no
    /// Quarto.
    pub proof fn lemma_no_full_line_no_quarto(self)
        requires
            forall|line: int| 0 <= line < 10 ==> !#[trigger] self.line_full(line),
        ensures
            !self.is_quarto(),
    {
        assert forall|line: int| 0 <= line < 10 implies !#[trigger] self.line_wins(line) by {
            assert(!self.line_full(line));
        }
    }
}

/// The four bits of `word` that belong to spot `s`.
spec fn nibble(word: u64, s: u64) -> u64 {
    (word >> (4 * s)) & 0xF
}

/// The sixteen bits of the four spots of a line.
spec fn group_mask(s0: u64, s1: u64, s2: u64, s3: u64) -> u64 {
    (0xFu64 << (4 * s0)) | (0xFu64 << (4 * s1)) | (0xFu64 << (4 * s2)) | (0xFu64 << (4 * s3))
}

/// Bit `a` of every nibble.
spec fn attribute_mask(a: u8) -> u64 {
    0x1111_1111_1111_1111u64 << a
}

/// A nibble is a number of `0..16`.
proof fn lemma_nibble_bound(word: u64, s: u64)
    by (bit_vector)
    ensures
        nibble(word, s) <= 0xF,
{
}

/// The empty word has empty nibbles.
proof fn lemma_nibble_zero(s: u64)
    by (bit_vector)
    ensures
        nibble(0, s) == 0,
{
}

/// Writing into the nibble of spot `t` leaves the other nibbles alone.
proof fn lemma_nibble_or(word: u64, value: u64, s: u64, t: u64)
    by (bit_vector)
    requires
        s < 16,
        t < 16,
        value <= 0xF,
    ensures
        nibble(word | (value << (4 * t)), s) == if s == t {
            nibble(word, s) | value
        } else {
            nibble(word, s)
        },
        value == 0xF ==> nibble(word, s) | value == 0xF,
{
}

/// A nibble read as a piece has the nibble's bits as its attributes.
proof fn lemma_nibble_attribute(n: u64, a: u8)
    by (bit_vector)
    requires
        n <= 0xF,
        a < 4,
    ensures
        0 <= (n as i8) < 16,
        Piece(n as i8).attribute(a) <==> (n >> a) & 1 == 1,
{
}

/// Merging two pieces' patterns gives a piece.
proof fn lemma_merge(n: u64, p: i8)
    by (bit_vector)
    requires
        n <= 0xF,
        0 <= p < 16,
    ensures
        (p as u64) <= 0xF,
        ((n | (p as u64)) as i8) == ((n as i8) | p),
        n == 0 ==> ((n | (p as u64)) as i8) == p,
{
}

/// A test on the bits of a line is a test on the bits of each of its spots.
proof fn lemma_split_line(word: u64, m0: u64, m1: u64, m2: u64, m3: u64, select: u64)
    by (bit_vector)
    ensures
        (word & (m0 | m1 | m2 | m3) == (m0 | m1 | m2 | m3)) <==> (word & m0 == m0 && word & m1
            == m1 && word & m2 == m2 && word & m3 == m3),
        ((word & (m0 | m1 | m2 | m3)) & select == 0) <==> ((word & m0) & select == 0 && (word
            & m1) & select == 0 && (word & m2) & select == 0 && (word & m3) & select == 0),
{
}

/// What the three word-level tests say about the nibble of one spot.
proof fn lemma_spot_bits(pieces: u64, mask: u64, s: u64, a: u8)
    by (bit_vector)
    requires
        s < 16,
        a < 4,
    ensures
        (mask & (0xFu64 << (4 * s)) == (0xFu64 << (4 * s))) <==> nibble(mask, s) == 0xF,
        ((pieces & (0xFu64 << (4 * s))) & attribute_mask(a) == 0) <==> (nibble(pieces, s) >> a)
            & 1 != 1,
        ((!pieces & (0xFu64 << (4 * s))) & attribute_mask(a) == 0) <==> (nibble(pieces, s) >> a)
            & 1 == 1,
{
}

/// The sixteen bits of line `line`.
spec fn line_mask(line: int) -> u64 {
    group_mask(
        line_spot(line, 0) as u64,
        line_spot(line, 1) as u64,
        line_spot(line, 2) as u64,
        line_spot(line, 3) as u64,
    )
}

/// The ten line masks and the four attribute masks, written out.
proof fn lemma_mask_values()
    ensures
        line_mask(0) == 0x0000_0000_0000_FFFF,
        line_mask(1) == 0x0000_0000_FFFF_0000,
        line_mask(2) == 0x0000_FFFF_0000_0000,
        line_mask(3) == 0xFFFF_0000_0000_0000,
        line_mask(4) == 0x000F_000F_000F_000F,
        line_mask(5) == 0x00F0_00F0_00F0_00F0,
        line_mask(6) == 0x0F00_0F00_0F00_0F00,
        line_mask(7) == 0xF000_F000_F000_F000,
        line_mask(8) == 0xF000_0F00_00F0_000F,
        line_mask(9) == 0x000F_00F0_0F00_F000,
        attribute_mask(0) == 0x1111_1111_1111_1111,
        attribute_mask(1) == 0x2222_2222_2222_2222,
        attribute_mask(2) == 0x4444_4444_4444_4444,
        attribute_mask(3) == 0x8888_8888_8888_8888,
{
    assert(group_mask(0, 1, 2, 3) == 0x0000_0000_0000_FFFF && group_mask(4, 5, 6, 7)
        == 0x0000_0000_FFFF_0000 && group_mask(8, 9, 10, 11) == 0x0000_FFFF_0000_0000
        && group_mask(12, 13, 14, 15) == 0xFFFF_0000_0000_0000 && group_mask(0, 4, 8, 12)
        == 0x000F_000F_000F_000F && group_mask(1, 5, 9, 13) == 0x00F0_00F0_00F0_00F0
        && group_mask(2, 6, 10, 14) == 0x0F00_0F00_0F00_0F00 && group_mask(3, 7, 11, 15)
        == 0xF000_F000_F000_F000 && group_mask(0, 5, 10, 15) == 0xF000_0F00_00F0_000F
        && group_mask(3, 6, 9, 12) == 0x000F_00F0_0F00_F000 && attribute_mask(0)
        == 0x1111_1111_1111_1111 && attribute_mask(1) == 0x2222_2222_2222_2222 && attribute_mask(2)
        == 0x4444_4444_4444_4444 && attribute_mask(3) == 0x8888_8888_8888_8888) by (bit_vector);
}

/// The bitboard of a position.
pub struct Position {
    board_pieces: u64,
    board_mask: u64,
    selected_piece: Option<Piece>,
}

impl View for Position {
    type V = PositionView;

    closed spec fn view(&self) -> PositionView {
        PositionView { cells: Seq::new(16, |s: int| self.cell(s)), selected: self.selected_piece }
    }
}

impl Position {
    /// A spot's mask nibble is all ones where a piece stands and zero elsewhere,
    /// and piece bits are set only on occupied spots.
    #[verifier::type_invariant]
    spec fn consistent(&self) -> bool {
        forall|s: u64|
            s < 16 ==> {
                ||| #[trigger] nibble(self.board_mask, s) == 0xF
                ||| nibble(self.board_mask, s) == 0 && nibble(self.board_pieces, s) == 0
            }
    }

    /// The occupant of spot `s`, read from the two words.
    spec fn cell(&self, s: int) -> Option<Piece> {
        if nibble(self.board_mask, s as u64) != 0 {
            Some(Piece(nibble(self.board_pieces, s as u64) as i8))
        } else {
            None
        }
    }

    /// Every position has sixteen cells, and only pieces stand on them.
    pub proof fn lemma_view_wf(&self)
        ensures
            self@.wf(),
    {
        assert forall|s: int| 0 <= s < 16 implies (#[trigger] self@.cells[s] matches Some(p)
            ==> p.valid()) by {
            lemma_nibble_bound(self.board_pieces, s as u64);
            lemma_nibble_attribute(nibble(self.board_pieces, s as u64), 0);
        }
    }

    /// The mask test of a line holds exactly when its four spots are occupied.
    proof fn lemma_line_full(self, line: int)
        requires
            self.consistent(),
            0 <= line < 10,
        ensures
            (self.board_mask & line_mask(line) == line_mask(line)) <==> self@.line_full(line),
    {
        let s0 = line_spot(line, 0) as u64;
        let s1 = line_spot(line, 1) as u64;
        let s2 = line_spot(line, 2) as u64;
        let s3 = line_spot(line, 3) as u64;
        lemma_split_line(
            self.board_mask,
            0xFu64 << (4 * s0),
            0xFu64 << (4 * s1),
            0xFu64 << (4 * s2),
            0xFu64 << (4 * s3),
            0,
        );
        lemma_spot_bits(self.board_pieces, self.board_mask, s0, 0);
        lemma_spot_bits(self.board_pieces, self.board_mask, s1, 0);
        lemma_spot_bits(self.board_pieces, self.board_mask, s2, 0);
        lemma_spot_bits(self.board_pieces, self.board_mask, s3, 0);
        assert(self@.on_line(line, 0) == self.cell(s0 as int));
        assert(self@.on_line(line, 1) == self.cell(s1 as int));
        assert(self@.on_line(line, 2) == self.cell(s2 as int));
        assert(self@.on_line(line, 3) == self.cell(s3 as int));
    }

    /// On a full line, the two attribute tests hold exactly when the four
    /// pieces agree on the attribute.
    proof fn lemma_line_agrees(self, line: int, a: u8)
        requires
            self.consistent(),
            0 <= line < 10,
            a < 4,
            self@.line_full(line),
        ensures
            ((self.board_pieces & line_mask(line)) & attribute_mask(a) == 0 || (!self.board_pieces
                & line_mask(line)) & attribute_mask(a) == 0) <==> self@.line_agrees(line, a),
    {
        let s0 = line_spot(line, 0) as u64;
        let s1 = line_spot(line, 1) as u64;
        let s2 = line_spot(line, 2) as u64;
        let s3 = line_spot(line, 3) as u64;
        let m0 = 0xFu64 << (4 * s0);
        let m1 = 0xFu64 << (4 * s1);
        let m2 = 0xFu64 << (4 * s2);
        let m3 = 0xFu64 << (4 * s3);
        lemma_split_line(self.board_pieces, m0, m1, m2, m3, attribute_mask(a));
        lemma_split_line(!self.board_pieces, m0, m1, m2, m3, attribute_mask(a));
        lemma_spot_bits(self.board_pieces, self.board_mask, s0, a);
        lemma_spot_bits(self.board_pieces, self.board_mask, s1, a);
        lemma_spot_bits(self.board_pieces, self.board_mask, s2, a);
        lemma_spot_bits(self.board_pieces, self.board_mask, s3, a);
        lemma_nibble_bound(self.board_pieces, s0);
        lemma_nibble_bound(self.board_pieces, s1);
        lemma_nibble_bound(self.board_pieces, s2);
        lemma_nibble_bound(self.board_pieces, s3);
        lemma_nibble_attribute(nibble(self.board_pieces, s0), a);
        lemma_nibble_attribute(nibble(self.board_pieces, s1), a);
        lemma_nibble_attribute(nibble(self.board_pieces, s2), a);
        lemma_nibble_attribute(nibble(self.board_pieces, s3), a);
        assert(self@.on_line(line, 0) == self.cell(s0 as int));
        assert(self@.on_line(line, 1) == self.cell(s1 as int));
        assert(self@.on_line(line, 2) == self.cell(s2 as int));
        assert(self@.on_line(line, 3) == self.cell(s3 as int));
    }

    /// The empty position with no piece selected.
    pub fn new() -> (pos: Position)
        ensures
            pos@ == PositionView::empty(),
    {
        proof {
            assert forall|s: u64| s < 16 implies #[trigger] nibble(0, s) == 0 by {
                lemma_nibble_zero(s);
            }
        }
        let pos = Position { selected_piece: None, board_pieces: 0, board_mask: 0 };
        assert(pos@.cells =~= PositionView::empty().cells);
        pos
    }

    /// The piece on `spot`, if any.
    pub fn get_piece(&self, spot: Spot) -> (piece: Option<Piece>)
        requires
            spot.valid(),
        ensures
            piece == self@.cells[spot.0 as int],
            piece matches Some(p) ==> p.valid(),
    {
        let shift: u64 = 4 * (spot.0 as u64);
        proof {
            lemma_nibble_bound(self.board_pieces, spot.0 as u64);
            lemma_nibble_attribute(nibble(self.board_pieces, spot.0 as u64), 0);
        }
        if (self.board_mask >> shift) & 0xF != 0 {
            Some(Piece(((self.board_pieces >> shift) & 0xF) as i8))
        } else {
            None
        }
    }

    /// Puts `piece` on `spot`. On an empty spot the piece stands there afterwards;
    /// on an occupied one the two patterns are merged bit by bit.
    pub fn place_piece(&mut self, spot: Spot, piece: Piece)
        requires
            spot.valid(),
            piece.valid(),
        ensures
            final(self)@.selected == old(self)@.selected,
            final(self)@.cells == old(self)@.cells.update(
                spot.0 as int,
                Some(
                    match old(self)@.cells[spot.0 as int] {
                        Some(q) => Piece(q.0 | piece.0),
                        None => piece,
                    },
                ),
            ),
    {
        let shift: u64 = 4 * (spot.0 as u64);
        let ghost t = spot.0 as u64;
        let ghost before = *self;
        proof {
            use_type_invariant(&*self);
            lemma_merge(0, piece.0);
            assert forall|s: u64| s < 16 implies {
                ||| #[trigger] nibble(self.board_mask | (0xFu64 << shift), s) == 0xF
                ||| nibble(self.board_mask | (0xFu64 << shift), s) == 0 && nibble(
                    self.board_pieces,
                    s,
                ) == 0
            } by {
                lemma_nibble_or(self.board_mask, 0xF, s, t);
            }
        }
        self.board_mask = self.board_mask | (0xFu64 << shift);
        proof {
            assert forall|s: u64| s < 16 implies {
                ||| #[trigger] nibble(self.board_mask, s) == 0xF
                ||| nibble(self.board_mask, s) == 0 && nibble(
                    self.board_pieces | ((piece.0 as u64) << shift),
                    s,
                ) == 0
            } by {
                lemma_nibble_or(before.board_mask, 0xF, s, t);
                lemma_nibble_or(self.board_pieces, piece.0 as u64, s, t);
            }
        }
        self.board_pieces = self.board_pieces | ((piece.0 as u64) << shift);
        proof {
            assert forall|s: int| 0 <= s < 16 implies #[trigger] self@.cells[s] == before@.cells.update(
                t as int,
                Some(
                    match before@.cells[t as int] {
                        Some(q) => Piece(q.0 | piece.0),
                        None => piece,
                    },
                ),
            )[s] by {
                lemma_nibble_or(before.board_mask, 0xF, s as u64, t);
                lemma_nibble_or(before.board_pieces, piece.0 as u64, s as u64, t);
                lemma_nibble_bound(before.board_pieces, s as u64);
                lemma_merge(nibble(before.board_pieces, s as u64), piece.0);
            }
            assert(self@.cells =~= before@.cells.update(
                t as int,
                Some(
                    match before@.cells[t as int] {
                        Some(q) => Piece(q.0 | piece.0),
                        None => piece,
                    },
                ),
            ));
        }
    }

    /// Whether some line is a Quarto: four pieces in a row, a column or a
    /// diagonal that agree on at least one attribute.
    pub fn is_quarto(&self) -> (quarto: bool)
        ensures
            quarto == self@.is_quarto(),
    {
        let group_masks: [u64; 10] = [
            // rows
            0x0000_0000_0000_FFFF,
            0x0000_0000_FFFF_0000,
            0x0000_FFFF_0000_0000,
            0xFFFF_0000_0000_0000,
            // columns
            0x000F_000F_000F_000F,
            0x00F0_00F0_00F0_00F0,
            0x0F00_0F00_0F00_0F00,
            0xF000_F000_F000_F000,
            // diagonals
            0xF000_0F00_00F0_000F,
            0x000F_00F0_0F00_F000,
        ];
        let attrib_masks: [u64; 4] = [
            0x1111_1111_1111_1111,
            0x2222_2222_2222_2222,
            0x4444_4444_4444_4444,
            0x8888_8888_8888_8888,
        ];
        proof {
            use_type_invariant(self);
            lemma_mask_values();
        }
        let mut line: usize = 0;
        while line < LINE_COUNT
            invariant
                line <= LINE_COUNT,
                self.consistent(),
                forall|l: int| 0 <= l < 10 ==> #[trigger] group_masks[l] == line_mask(l),
                forall|a: int| 0 <= a < 4 ==> #[trigger] attrib_masks[a] == attribute_mask(a as u8),
                forall|l: int| 0 <= l < line ==> !#[trigger] self@.line_wins(l),
            decreases LINE_COUNT - line,
        {
            let group_mask = group_masks[line];
            proof {
                self.lemma_line_full(line as int);
            }
            if self.board_mask & group_mask == group_mask {
                let slice = self.board_pieces & group_mask;
                let not_slice = !self.board_pieces & group_mask;
                let mut a: usize = 0;
                while a < ATTRIBUTE_COUNT
                    invariant
                        line < LINE_COUNT,
                        a <= ATTRIBUTE_COUNT,
                        self.consistent(),
                        self@.line_full(line as int),
                        group_mask == line_mask(line as int),
                        slice == self.board_pieces & group_mask,
                        not_slice == !self.board_pieces & group_mask,
                        forall|a: int|
                            0 <= a < 4 ==> #[trigger] attrib_masks[a] == attribute_mask(a as u8),
                        forall|b: u8| b < a ==> !#[trigger] self@.line_agrees(line as int, b),
                    decreases ATTRIBUTE_COUNT - a,
                {
                    let attrib_mask = attrib_masks[a];
                    proof {
                        self.lemma_line_agrees(line as int, a as u8);
                    }
                    if slice & attrib_mask == 0 || not_slice & attrib_mask == 0 {
                        assert(self@.line_wins(line as int));
                        return true;
                    }
                    a += 1;
                }
            }
            line += 1;
        }
        false
    }

    /// The piece that the player to move has to place, if one is selected.
    pub fn get_chosen_piece(&self) -> (piece: Option<Piece>)
        ensures
            piece == self@.selected,
    {
        self.selected_piece
    }

    /// Selects `piece` (or nothing) for the player to move.
    pub fn choose_piece(&mut self, piece: Option<Piece>)
        ensures
            final(self)@.selected == piece,
            final(self)@.cells == old(self)@.cells,
    {
        proof {
            use_type_invariant(&*self);
        }
        self.selected_piece = piece;
    }
}

} // verus!
