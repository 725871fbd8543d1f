//! Pieces, board spots and moves.

use vstd::prelude::*;

verus! {

/// One of the sixteen pieces. Each of the four low bits is one binary attribute.
#[derive(Debug, Clone, Copy, PartialEq, Eq, Structural)]
pub struct Piece(pub i8);

impl Piece {
    /// A piece is one of the bit patterns `0x0..=0xF`.
    pub open spec fn valid(self) -> bool {
        0 <= self.0 < 16
    }

    /// Attribute `a` of the piece: bit `a` of its pattern.
    pub open spec fn attribute(self, a: u8) -> bool {
        (self.0 >> a) & 1 == 1
    }
}

/// One of the sixteen board cells: column in the two low bits, row in the next two.
#[derive(Debug, Clone, Copy, PartialEq, Eq, Structural)]
pub struct Spot(pub i8);

impl Spot {
    /// A spot is one of the cell numbers `0..16`.
    pub open spec fn valid(self) -> bool {
        0 <= self.0 < 16
    }

    /// The cell number of a row and a column.
    pub open spec fn at(row: int, col: int) -> int {
        4 * row + col
    }

    /// The spot in row `row` and column `col`.
    pub fn from_row_col(row: i8, col: i8) -> (spot: Spot)
        requires
            0 <= row < 4,
            0 <= col < 4,
        ensures
            spot.0 == Spot::at(row as int, col as int),
            spot.valid(),
    {
        assert((col | (row << 2)) == 4 * row + col) by (bit_vector)
            requires
                0 <= row < 4,
                0 <= col < 4,
        ;
        Spot(col | (row << 2))
    }
}

/// One move: the spot on which the selected piece is placed, and the piece
/// handed to the opponent. Either part is absent where the turn has none.
#[derive(Debug, Clone, Copy)]
pub struct Move {
    pub spot: Option<Spot>,
    pub piece: Option<Piece>,
}

} // verus!
