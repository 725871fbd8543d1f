//! The text form of moves: two characters for the spot, four for the piece.
//!
//! A spot is a row letter `a..d` and a column digit `1..4`; a piece is four
//! attribute marks, `o` for a clear bit and `x` for a set one, lowest bit
//! first. A part that the move leaves out is written with dots.

use vstd::prelude::*;
use vstd::string::StrSliceExecFns;
use crate::piece::{Move, Piece, Spot};

verus! {

/// Why a text is not a move.
#[derive(Debug, Clone, Copy, PartialEq, Eq, Structural)]
pub enum ParseError {
    InputTooShort,
    InvalidRow,
    InvalidColumn,
    RowColumnMismatch,
    InvalidProp,
    PropsMismatch,
}

/// What an attribute mark stands for.
pub open spec fn prop_of_char(p: char) -> Result<Option<i8>, ParseError> {
    if p == 'o' {
        Ok(Some(0i8))
    } else if p == 'x' {
        Ok(Some(1i8))
    } else if p == '.' {
        Ok(None)
    } else {
        Err(ParseError::InvalidProp)
    }
}

/// What four attribute marks stand for: a piece, no piece, or an error. A
/// mark that is none of `o`, `x`, `.` is an invalid one; dots mixed with
/// other marks do not match.
pub open spec fn piece_of_chars(p: Seq<char>) -> Result<Option<Piece>, ParseError> {
    if exists|i: int| 0 <= i < 4 && prop_of_char(#[trigger] p[i]) is Err {
        Err(ParseError::InvalidProp)
    } else if forall|i: int| 0 <= i < 4 ==> #[trigger] p[i] != '.' {
        Ok(
            Some(
                Piece(
                    (prop_of_char(p[0])->Ok_0->0 + 2 * prop_of_char(p[1])->Ok_0->0 + 4
                        * prop_of_char(p[2])->Ok_0->0 + 8 * prop_of_char(p[3])->Ok_0->0) as i8,
                ),
            ),
        )
    } else if forall|i: int| 0 <= i < 4 ==> #[trigger] p[i] == '.' {
        Ok(None)
    } else {
        Err(ParseError::PropsMismatch)
    }
}

/// The row that a letter names.
pub open spec fn row_of_char(r: char) -> Result<Option<i8>, ParseError> {
    if r == 'a' {
        Ok(Some(0i8))
    } else if r == 'b' {
        Ok(Some(1i8))
    } else if r == 'c' {
        Ok(Some(2i8))
    } else if r == 'd' {
        Ok(Some(3i8))
    } else if r == '.' {
        Ok(None)
    } else {
        Err(ParseError::InvalidRow)
    }
}

/// The column that a digit names.
pub open spec fn col_of_char(c: char) -> Result<Option<i8>, ParseError> {
    if c == '1' {
        Ok(Some(0i8))
    } else if c == '2' {
        Ok(Some(1i8))
    } else if c == '3' {
        Ok(Some(2i8))
    } else if c == '4' {
        Ok(Some(3i8))
    } else if c == '.' {
        Ok(None)
    } else {
        Err(ParseError::InvalidColumn)
    }
}

/// What a row letter and a column digit stand for: a spot, no spot, or an
/// error. A bad row is reported before a bad column.
pub open spec fn spot_of_chars(r: char, c: char) -> Result<Option<Spot>, ParseError> {
    match (row_of_char(r), col_of_char(c)) {
        (Err(e), _) => Err(e),
        (Ok(_), Err(e)) => Err(e),
        (Ok(Some(row)), Ok(Some(col))) => Ok(Some(Spot((4 * row + col) as i8))),
        (Ok(None), Ok(None)) => Ok(None),
        _ => Err(ParseError::RowColumnMismatch),
    }
}

/// What a text stands for: its first six characters are read, the spot
/// before the piece.
pub open spec fn move_of_text(text: Seq<char>) -> Result<Move, ParseError> {
    if text.len() < 6 {
        Err(ParseError::InputTooShort)
    } else {
        match spot_of_chars(text[0], text[1]) {
            Err(e) => Err(e),
            Ok(spot) => match piece_of_chars(text.subrange(2, 6)) {
                Err(e) => Err(e),
                Ok(piece) => Ok(Move { spot, piece }),
            },
        }
    }
}

/// Reads a move from the first six characters of `text`.
pub fn parse_move(text: &str) -> (result: Result<Move, ParseError>)
    ensures
        result == move_of_text(text@),
{
    if text.unicode_len() < 6 {
        return Err(ParseError::InputTooShort);
    }
    let spot = parse_spot(text.get_char(0), text.get_char(1))?;
    let props: [char; 4] = [
        text.get_char(2),
        text.get_char(3),
        text.get_char(4),
        text.get_char(5),
    ];
    assert(props@ =~= text@.subrange(2, 6));
    let piece = parse_piece(&props)?;
    Ok(Move { spot, piece })
}

/// Reads a spot from a row letter and a column digit.
pub fn parse_spot(r: char, c: char) -> (result: Result<Option<Spot>, ParseError>)
    ensures
        result == spot_of_chars(r, c),
        result matches Ok(Some(spot)) ==> spot.valid(),
{
    let row: Option<i8> = match r {
        'a' => Some(0),
        'b' => Some(1),
        'c' => Some(2),
        'd' => Some(3),
        '.' => None,
        _ => return Err(ParseError::InvalidRow),
    };
    let col: Option<i8> = match c {
        '1' => Some(0),
        '2' => Some(1),
        '3' => Some(2),
        '4' => Some(3),
        '.' => None,
        _ => return Err(ParseError::InvalidColumn),
    };
    match (row, col) {
        (Some(row), Some(col)) => Ok(Some(Spot::from_row_col(row, col))),
        (None, None) => Ok(None),
        _ => Err(ParseError::RowColumnMismatch),
    }
}

/// Reads a piece from four attribute marks.
pub fn parse_piece(p: &[char; 4]) -> (result: Result<Option<Piece>, ParseError>)
    ensures
        result == piece_of_chars(p@),
        result matches Ok(Some(piece)) ==> piece.valid(),
{
    let bit0 = parse_prop(p[0])?;
    let bit1 = parse_prop(p[1])?;
    let bit2 = parse_prop(p[2])?;
    let bit3 = parse_prop(p[3])?;
    match (bit0, bit1, bit2, bit3) {
        (Some(bit0), Some(bit1), Some(bit2), Some(bit3)) => {
            assert((bit0 | (bit1 << 1) | (bit2 << 2) | (bit3 << 3)) == bit0 + 2 * bit1 + 4 * bit2 + 8 * bit3)
                by (bit_vector)
                requires
                    0 <= bit0 <= 1,
                    0 <= bit1 <= 1,
                    0 <= bit2 <= 1,
                    0 <= bit3 <= 1,
            ;
            Ok(Some(Piece(bit0 | (bit1 << 1) | (bit2 << 2) | (bit3 << 3))))
        },
        (None, None, None, None) => Ok(None),
        _ => Err(ParseError::PropsMismatch),
    }
}

/// Reads one attribute mark.
pub fn parse_prop(p: char) -> (result: Result<Option<i8>, ParseError>)
    ensures
        result == prop_of_char(p),
{
    match p {
        'o' => Ok(Some(0)),
        'x' => Ok(Some(1)),
        '.' => Ok(None),
        _ => Err(ParseError::InvalidProp),
    }
}

/// `String::push` of the standard library appends the character to the end
/// of the string and leaves the characters before it as they were.
pub assume_specification[ String::push ](text: &mut String, ch: char)
    ensures
        final(text)@ == old(text)@.push(ch),
;

/// The mark of a set or clear attribute.
pub open spec fn prop_symbol(set: bool) -> char {
    if set {
        'x'
    } else {
        'o'
    }
}

/// The letter of a row.
pub open spec fn row_symbol(row: int) -> char {
    if row == 0 {
        'a'
    } else if row == 1 {
        'b'
    } else if row == 2 {
        'c'
    } else {
        'd'
    }
}

/// The digit of a column.
pub open spec fn col_symbol(col: int) -> char {
    if col == 0 {
        '1'
    } else if col == 1 {
        '2'
    } else if col == 2 {
        '3'
    } else {
        '4'
    }
}

/// The four marks of a piece, lowest attribute first.
pub open spec fn piece_chars(piece: Piece) -> Seq<char> {
    Seq::new(4, |p: int| prop_symbol(piece.attribute(p as u8)))
}

/// The four marks of a piece, or four dots for none.
pub open spec fn option_piece_chars(piece: Option<Piece>) -> Seq<char> {
    match piece {
        Some(piece) => piece_chars(piece),
        None => seq!['.', '.', '.', '.'],
    }
}

/// The row letter and the column digit of a spot.
pub open spec fn spot_chars(spot: Spot) -> Seq<char> {
    seq![row_symbol(((spot.0 >> 2) & 3) as int), col_symbol((spot.0 & 3) as int)]
}

/// The letter and digit of a spot, or two dots for none.
pub open spec fn option_spot_chars(spot: Option<Spot>) -> Seq<char> {
    match spot {
        Some(spot) => spot_chars(spot),
        None => seq!['.', '.'],
    }
}

/// The text of a move: the spot, then the piece.
pub open spec fn move_text(mv: Move) -> Seq<char> {
    option_spot_chars(mv.spot) + option_piece_chars(mv.piece)
}

/// A pattern of `0..16` is the sum of its four bits, and a cell number is
/// four times its row plus its column.
proof fn lemma_bits(v: i8)
    by (bit_vector)
    requires
        0 <= v < 16,
    ensures
        v == ((v >> 0u8) & 1) + 2 * ((v >> 1u8) & 1) + 4 * ((v >> 2u8) & 1) + 8 * ((v >> 3u8) & 1),
        0 <= (v >> 0u8) & 1 <= 1,
        0 <= (v >> 1u8) & 1 <= 1,
        0 <= (v >> 2u8) & 1 <= 1,
        0 <= (v >> 3u8) & 1 <= 1,
        v == 4 * ((v >> 2) & 3) + (v & 3),
        0 <= (v >> 2) & 3 <= 3,
        0 <= v & 3 <= 3,
{
}

/// Reading the text of a move gives the move back.
pub proof fn lemma_print_then_parse(mv: Move)
    requires
        mv.spot matches Some(spot) ==> spot.valid(),
        mv.piece matches Some(piece) ==> piece.valid(),
    ensures
        move_of_text(move_text(mv)) == Ok::<Move, ParseError>(mv),
{
    let text = move_text(mv);
    assert(text.len() == 6);
    let marks = text.subrange(2, 6);
    assert(marks =~= option_piece_chars(mv.piece));
    assert(text[0] == option_spot_chars(mv.spot)[0]);
    assert(text[1] == option_spot_chars(mv.spot)[1]);
    match mv.spot {
        Some(spot) => {
            lemma_bits(spot.0);
        },
        None => {},
    }
    match mv.piece {
        Some(piece) => {
            lemma_bits(piece.0);
            assert(marks[0] == prop_symbol(piece.attribute(0)));
            assert(marks[1] == prop_symbol(piece.attribute(1)));
            assert(marks[2] == prop_symbol(piece.attribute(2)));
            assert(marks[3] == prop_symbol(piece.attribute(3)));
            assert(forall|i: int| 0 <= i < 4 ==> #[trigger] marks[i] != '.');
            assert(!exists|i: int| 0 <= i < 4 && prop_of_char(#[trigger] marks[i]) is Err);
        },
        None => {
            assert(marks[0] == '.');
            assert(!exists|i: int| 0 <= i < 4 && prop_of_char(#[trigger] marks[i]) is Err);
        },
    }
}

/// Writes a move as six characters.
pub fn print_move(mv: &Move) -> (text: String)
    ensures
        text@ == move_text(*mv),
{
    let spot = option_spot_to_chars(&mv.spot);
    let piece = option_piece_to_chars(&mv.piece);
    let mut text = String::new();
    text.push(spot[0]);
    text.push(spot[1]);
    text.push(piece[0]);
    text.push(piece[1]);
    text.push(piece[2]);
    text.push(piece[3]);
    assert(text@ =~= move_text(*mv));
    text
}

/// The four attribute marks of a piece.
pub fn piece_to_chars(piece: &Piece) -> (chars: [char; 4])
    ensures
        chars@ == piece_chars(*piece),
{
    let mut chars: [char; 4] = ['.'; 4];
    let symbols: [char; 2] = ['o', 'x'];
    let mut p: usize = 0;
    while p < 4
        invariant
            p <= 4,
            symbols[0] == 'o',
            symbols[1] == 'x',
            forall|q: int| 0 <= q < p ==> chars[q] == prop_symbol(piece.attribute(q as u8)),
        decreases 4 - p,
    {
        let bits = piece.0;
        let index = (bits >> p) as usize & 1;
        assert(index <= 1 && (index == 1 <==> (bits >> (p as u8)) & 1 == 1)) by (bit_vector)
            requires
                index == (bits >> p) as usize & 1,
                p < 4,
        ;
        chars[p] = symbols[index];
        p += 1;
    }
    assert(chars@ =~= piece_chars(*piece));
    chars
}

/// The four attribute marks of a piece, or four dots for none.
pub fn option_piece_to_chars(option_piece: &Option<Piece>) -> (chars: [char; 4])
    ensures
        chars@ == option_piece_chars(*option_piece),
{
    match option_piece {
        Some(piece) => piece_to_chars(piece),
        None => {
            let chars: [char; 4] = ['.'; 4];
            assert(chars@ =~= option_piece_chars(None));
            chars
        },
    }
}

/// The row letter and the column digit of a spot.
pub fn spot_to_chars(spot: &Spot) -> (chars: [char; 2])
    ensures
        chars@ == spot_chars(*spot),
{
    let row_symbols: [char; 4] = ['a', 'b', 'c', 'd'];
    let col_symbols: [char; 4] = ['1', '2', '3', '4'];
    let bits = spot.0;
    let row = (bits >> 2) as usize & 3;
    let col = bits as usize & 3;
    assert(row == (bits >> 2) & 3 && col == bits & 3 && row <= 3 && col <= 3) by (bit_vector)
        requires
            row == (bits >> 2) as usize & 3,
            col == bits as usize & 3,
    ;
    let chars = [row_symbols[row], col_symbols[col]];
    assert(chars@ =~= spot_chars(*spot));
    chars
}

/// The letter and digit of a spot, or two dots for none.
pub fn option_spot_to_chars(option_spot: &Option<Spot>) -> (chars: [char; 2])
    ensures
        chars@ == option_spot_chars(*option_spot),
{
    match option_spot {
        Some(spot) => spot_to_chars(spot),
        None => {
            let chars: [char; 2] = ['.'; 2];
            assert(chars@ =~= option_spot_chars(None));
            chars
        },
    }
}

} // verus!
