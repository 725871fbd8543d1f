//! The picture of a position: four boards side by side, one for each
//! attribute.
//!
//! ```text
//! [ o | 1 2 3 4 ][ x | 1 2 3 4 ][ o | 1 2 3 4 ][ x | 1 2 3 4 ]
//! [ --|-------- ][ --|-------- ][ --|-------- ][ --|-------- ]
//! [ a | . . o . ][ a | . . o . ][ a | . . x . ][ a | . . x . ]
//! [ b | . . . o ][ b | . . . x ][ b | . . . x ][ b | . . . x ]
//! [ c | . . . . ][ c | . . . . ][ c | . . . . ][ c | . . . . ]
//! [ d | . x . . ][ d | . o . . ][ d | . o . . ][ d | . x . . ]
//! ```
//!
//! The corner of each board shows the attribute of the selected piece, a dot
//! where none is selected, and a star once the position is a Quarto. Rows are
//! labelled `a..d`, columns `1..4`, and an empty spot is a dot.

use vstd::prelude::*;
use vstd::string::StringExecFns;
use crate::notation::{option_piece_chars, option_piece_to_chars, row_symbol};
use crate::piece::Spot;
use crate::position::{Position, PositionView};

verus! {

/// The top of one board: its corner mark and the column labels.
pub open spec fn header_block(corner: char) -> Seq<char> {
    seq!['[', ' ', corner, ' ', '|', ' ', '1', ' ', '2', ' ', '3', ' ', '4', ' ', ']']
}

/// The rule under the top of one board.
pub open spec fn rule_block() -> Seq<char> {
    seq!['[', ' ', '-', '-', '|', '-', '-', '-', '-', '-', '-', '-', '-', ' ', ']']
}

/// One row of one board: its label and the marks of its four spots.
pub open spec fn row_block(label: char, marks: Seq<char>) -> Seq<char> {
    seq![
        '[',
        ' ',
        label,
        ' ',
        '|',
        ' ',
        marks[0],
        ' ',
        marks[1],
        ' ',
        marks[2],
        ' ',
        marks[3],
        ' ',
        ']',
    ]
}

impl PositionView {
    /// The corner marks, one for each attribute.
    pub open spec fn corners(self) -> Seq<char> {
        if self.is_quarto() {
            seq!['*', '*', '*', '*']
        } else {
            option_piece_chars(self.selected)
        }
    }

    /// The marks of the four spots of row `row` on the board of attribute `p`.
    pub open spec fn row_marks(self, row: int, p: int) -> Seq<char> {
        Seq::new(4, |col: int| option_piece_chars(self.cells[4 * row + col])[p])
    }

    /// The first line of the picture.
    pub open spec fn header_line(self) -> Seq<char> {
        header_block(self.corners()[0]) + header_block(self.corners()[1]) + header_block(
            self.corners()[2],
        ) + header_block(self.corners()[3]) + seq!['\n']
    }

    /// The second line of the picture.
    pub open spec fn rule_line() -> Seq<char> {
        rule_block() + rule_block() + rule_block() + rule_block() + seq!['\n']
    }

    /// The line of row `row`.
    pub open spec fn row_line(self, row: int) -> Seq<char> {
        row_block(row_symbol(row), self.row_marks(row, 0)) + row_block(
            row_symbol(row),
            self.row_marks(row, 1),
        ) + row_block(row_symbol(row), self.row_marks(row, 2)) + row_block(
            row_symbol(row),
            self.row_marks(row, 3),
        ) + seq!['\n']
    }

    /// The picture: six lines.
    pub open spec fn picture(self) -> Seq<char> {
        self.header_line() + Self::rule_line() + self.row_line(0) + self.row_line(1)
            + self.row_line(2) + self.row_line(3)
    }
}

/// Appends the top of one board.
fn push_header_block(text: &mut String, corner: char)
    ensures
        final(text)@ == old(text)@ + header_block(corner),
{
    proof {
        reveal_strlit("[ ");
        reveal_strlit(" | 1 2 3 4 ]");
    }
    text.append("[ ");
    text.push(corner);
    text.append(" | 1 2 3 4 ]");
    assert(text@ =~= old(text)@ + header_block(corner));
}

/// Appends the rule of one board.
fn push_rule_block(text: &mut String)
    ensures
        final(text)@ == old(text)@ + rule_block(),
{
    proof {
        reveal_strlit("[ --|-------- ]");
    }
    text.append("[ --|-------- ]");
    assert(text@ =~= old(text)@ + rule_block());
}

/// Appends one row of one board.
fn push_row_block(text: &mut String, label: char, marks: &[char; 4])
    ensures
        final(text)@ == old(text)@ + row_block(label, marks@),
{
    proof {
        reveal_strlit("[ ");
        reveal_strlit(" |");
        reveal_strlit(" ]");
    }
    text.append("[ ");
    text.push(label);
    text.append(" |");
    let mut col: usize = 0;
    while col < 4
        invariant
            col <= 4,
            text@ == old(text)@ + seq!['[', ' ', label, ' ', '|'] + Seq::new(
                2 * col as nat,
                |i: int|
                    if i % 2 == 0 {
                        ' '
                    } else {
                        marks@[i / 2]
                    },
            ),
        decreases 4 - col,
    {
        let ghost before = text@;
        text.push(' ');
        text.push(marks[col]);
        col += 1;
        assert(text@ =~= old(text)@ + seq!['[', ' ', label, ' ', '|'] + Seq::new(
            2 * col as nat,
            |i: int|
                if i % 2 == 0 {
                    ' '
                } else {
                    marks@[i / 2]
                },
        ));
    }
    text.append(" ]");
    assert(text@ =~= old(text)@ + row_block(label, marks@));
}

impl Position {
    /// The picture of the position as text, six lines that each end in a
    /// line feed.
    pub fn print(&self) -> (text: String)
        ensures
            text@ == self@.picture(),
    {
        let row_headers: [char; 4] = ['a', 'b', 'c', 'd'];
        let top_left: [char; 4] = if self.is_quarto() {
            ['*'; 4]
        } else {
            option_piece_to_chars(&self.get_chosen_piece())
        };
        assert(top_left@ =~= self@.corners());
        let mut text = String::new();
        push_header_block(&mut text, top_left[0]);
        push_header_block(&mut text, top_left[1]);
        push_header_block(&mut text, top_left[2]);
        push_header_block(&mut text, top_left[3]);
        text.push('\n');
        assert(text@ =~= self@.header_line());
        push_rule_block(&mut text);
        push_rule_block(&mut text);
        push_rule_block(&mut text);
        push_rule_block(&mut text);
        text.push('\n');
        assert(text@ =~= self@.header_line() + PositionView::rule_line());

        let mut r: usize = 0;
        while r < 4
            invariant
                r <= 4,
                row_headers[0] == 'a',
                row_headers[1] == 'b',
                row_headers[2] == 'c',
                row_headers[3] == 'd',
                text@ == self@.header_line() + PositionView::rule_line() + (if r >= 1 {
                    self@.row_line(0)
                } else {
                    seq![]
                }) + (if r >= 2 {
                    self@.row_line(1)
                } else {
                    seq![]
                }) + (if r >= 3 {
                    self@.row_line(2)
                } else {
                    seq![]
                }) + (if r >= 4 {
                    self@.row_line(3)
                } else {
                    seq![]
                }),
            decreases 4 - r,
        {
            let ghost before = text@;
            let mut row: [[char; 4]; 4] = [['.'; 4]; 4];
            let mut c: usize = 0;
            while c < 4
                invariant
                    r < 4,
                    c <= 4,
                    forall|d: int|
                        0 <= d < c ==> (#[trigger] row[d])@ == option_piece_chars(
                            self@.cells[4 * r + d],
                        ),
                decreases 4 - c,
            {
                let spot = Spot::from_row_col(r as i8, c as i8);
                row[c] = option_piece_to_chars(&self.get_piece(spot));
                c += 1;
            }
            let mut p: usize = 0;
            while p < 4
                invariant
                    r < 4,
                    p <= 4,
                    row_headers[r as int] == row_symbol(r as int),
                    forall|d: int|
                        0 <= d < 4 ==> (#[trigger] row[d])@ == option_piece_chars(
                            self@.cells[4 * r + d],
                        ),
                    text@ == before + (if p >= 1 {
                        row_block(row_symbol(r as int), self@.row_marks(r as int, 0))
                    } else {
                        seq![]
                    }) + (if p >= 2 {
                        row_block(row_symbol(r as int), self@.row_marks(r as int, 1))
                    } else {
                        seq![]
                    }) + (if p >= 3 {
                        row_block(row_symbol(r as int), self@.row_marks(r as int, 2))
                    } else {
                        seq![]
                    }) + (if p >= 4 {
                        row_block(row_symbol(r as int), self@.row_marks(r as int, 3))
                    } else {
                        seq![]
                    }),
                decreases 4 - p,
            {
                let marks: [char; 4] = [row[0][p], row[1][p], row[2][p], row[3][p]];
                assert(marks@ =~= self@.row_marks(r as int, p as int));
                let ghost so_far = text@;
                push_row_block(&mut text, row_headers[r], &marks);
                assert(text@ =~= so_far + row_block(
                    row_symbol(r as int),
                    self@.row_marks(r as int, p as int),
                ));
                p += 1;
            }
            text.push('\n');
            assert(text@ =~= before + self@.row_line(r as int));
            r += 1;
        }
        assert(text@ =~= self@.picture());
        text
    }
}

} // verus!
