use quarto::notation::{
    option_piece_to_chars, option_spot_to_chars, parse_move, parse_piece, parse_prop, parse_spot,
    piece_to_chars, print_move, spot_to_chars, ParseError,
};
use quarto::piece::{Move, Piece, Spot};

fn parts(result: Result<Move, ParseError>) -> Result<(Option<i8>, Option<i8>), ParseError> {
    result.map(|mv| (mv.spot.map(|s| s.0), mv.piece.map(|p| p.0)))
}

#[test]
fn parse_prop_reads_the_three_marks() {
    assert_eq!(parse_prop('o'), Ok(Some(0)));
    assert_eq!(parse_prop('x'), Ok(Some(1)));
    assert_eq!(parse_prop('.'), Ok(None));
    assert_eq!(parse_prop('O'), Err(ParseError::InvalidProp));
    assert_eq!(parse_prop('1'), Err(ParseError::InvalidProp));
    assert_eq!(parse_prop(' '), Err(ParseError::InvalidProp));
}

#[test]
fn parse_piece_reads_the_lowest_attribute_first() {
    assert_eq!(parse_piece(&['o', 'o', 'o', 'o']), Ok(Some(Piece(0x0))));
    assert_eq!(parse_piece(&['x', 'o', 'o', 'o']), Ok(Some(Piece(0x1))));
    assert_eq!(parse_piece(&['o', 'x', 'o', 'o']), Ok(Some(Piece(0x2))));
    assert_eq!(parse_piece(&['o', 'o', 'x', 'o']), Ok(Some(Piece(0x4))));
    assert_eq!(parse_piece(&['o', 'o', 'o', 'x']), Ok(Some(Piece(0x8))));
    assert_eq!(parse_piece(&['x', 'o', 'x', 'x']), Ok(Some(Piece(0xD))));
    assert_eq!(parse_piece(&['x', 'x', 'x', 'x']), Ok(Some(Piece(0xF))));
    assert_eq!(parse_piece(&['.', '.', '.', '.']), Ok(None));
}

#[test]
fn parse_piece_errors() {
    assert_eq!(parse_piece(&['x', '.', 'x', 'x']), Err(ParseError::PropsMismatch));
    assert_eq!(parse_piece(&['.', '.', '.', 'o']), Err(ParseError::PropsMismatch));
    assert_eq!(parse_piece(&['.', 'x', '.', '.']), Err(ParseError::PropsMismatch));
    assert_eq!(parse_piece(&['x', 'x', 'x', 'y']), Err(ParseError::InvalidProp));
    // an invalid mark is reported before a mismatch
    assert_eq!(parse_piece(&['.', 'x', '?', 'x']), Err(ParseError::InvalidProp));
    assert_eq!(parse_piece(&['x', '.', 'x', '?']), Err(ParseError::InvalidProp));
}

#[test]
fn parse_spot_reads_row_and_column() {
    let rows = ['a', 'b', 'c', 'd'];
    let cols = ['1', '2', '3', '4'];
    for r in 0..4 {
        for c in 0..4 {
            assert_eq!(parse_spot(rows[r], cols[c]), Ok(Some(Spot((4 * r + c) as i8))));
        }
    }
    assert_eq!(parse_spot('c', '2'), Ok(Some(Spot(9))));
    assert_eq!(parse_spot('.', '.'), Ok(None));
}

#[test]
fn parse_spot_errors() {
    assert_eq!(parse_spot('e', '1'), Err(ParseError::InvalidRow));
    assert_eq!(parse_spot('A', '1'), Err(ParseError::InvalidRow));
    assert_eq!(parse_spot('1', 'a'), Err(ParseError::InvalidRow));
    assert_eq!(parse_spot('a', '5'), Err(ParseError::InvalidColumn));
    assert_eq!(parse_spot('a', '0'), Err(ParseError::InvalidColumn));
    assert_eq!(parse_spot('.', 'z'), Err(ParseError::InvalidColumn));
    // a bad row is reported before a bad column
    assert_eq!(parse_spot('z', 'z'), Err(ParseError::InvalidRow));
    assert_eq!(parse_spot('a', '.'), Err(ParseError::RowColumnMismatch));
    assert_eq!(parse_spot('.', '3'), Err(ParseError::RowColumnMismatch));
}

#[test]
fn parse_move_reads_six_characters() {
    assert_eq!(parts(parse_move("a1oooo")), Ok((Some(0), Some(0))));
    assert_eq!(parts(parse_move("c2xoxx\n")), Ok((Some(9), Some(0xD))));
    assert_eq!(parts(parse_move("d4xxxx and the rest")), Ok((Some(15), Some(0xF))));
    assert_eq!(parts(parse_move("..oxox")), Ok((None, Some(0xA))));
    assert_eq!(parts(parse_move("b3....")), Ok((Some(6), None)));
    assert_eq!(parts(parse_move("......")), Ok((None, None)));
}

#[test]
fn parse_move_errors() {
    assert_eq!(parts(parse_move("")), Err(ParseError::InputTooShort));
    assert_eq!(parts(parse_move("a1ooo")), Err(ParseError::InputTooShort));
    assert_eq!(parts(parse_move("exit\n")), Err(ParseError::InputTooShort));
    assert_eq!(parts(parse_move("x1oooo")), Err(ParseError::InvalidRow));
    assert_eq!(parts(parse_move("a9oooo")), Err(ParseError::InvalidColumn));
    assert_eq!(parts(parse_move("a.oooo")), Err(ParseError::RowColumnMismatch));
    assert_eq!(parts(parse_move("a1ooo?")), Err(ParseError::InvalidProp));
    assert_eq!(parts(parse_move("a1oo.o")), Err(ParseError::PropsMismatch));
    // the spot is read before the piece
    assert_eq!(parts(parse_move("?1ooo?")), Err(ParseError::InvalidRow));
    assert_eq!(parts(parse_move("a.o.o?")), Err(ParseError::RowColumnMismatch));
}

#[test]
fn parse_move_counts_characters() {
    // six characters, more than six bytes
    assert_eq!(parts(parse_move("a1ooo\u{e9}")), Err(ParseError::InvalidProp));
    assert_eq!(parts(parse_move("\u{e9}1oooo")), Err(ParseError::InvalidRow));
    // six bytes, three characters
    assert_eq!(parts(parse_move("\u{e9}\u{e9}\u{e9}")), Err(ParseError::InputTooShort));
}

#[test]
fn piece_to_chars_marks_each_attribute() {
    assert_eq!(piece_to_chars(&Piece(0x0)), ['o', 'o', 'o', 'o']);
    assert_eq!(piece_to_chars(&Piece(0x1)), ['x', 'o', 'o', 'o']);
    assert_eq!(piece_to_chars(&Piece(0x8)), ['o', 'o', 'o', 'x']);
    assert_eq!(piece_to_chars(&Piece(0xD)), ['x', 'o', 'x', 'x']);
    assert_eq!(piece_to_chars(&Piece(0xF)), ['x', 'x', 'x', 'x']);
    assert_eq!(option_piece_to_chars(&Some(Piece(0x6))), ['o', 'x', 'x', 'o']);
    assert_eq!(option_piece_to_chars(&None), ['.', '.', '.', '.']);
}

#[test]
fn spot_to_chars_names_row_and_column() {
    assert_eq!(spot_to_chars(&Spot(0)), ['a', '1']);
    assert_eq!(spot_to_chars(&Spot(3)), ['a', '4']);
    assert_eq!(spot_to_chars(&Spot(9)), ['c', '2']);
    assert_eq!(spot_to_chars(&Spot(15)), ['d', '4']);
    assert_eq!(option_spot_to_chars(&Some(Spot(4))), ['b', '1']);
    assert_eq!(option_spot_to_chars(&None), ['.', '.']);
}

#[test]
fn print_move_writes_spot_then_piece() {
    let mv = Move { spot: Some(Spot(9)), piece: Some(Piece(0xD)) };
    assert_eq!(print_move(&mv), "c2xoxx");
    assert_eq!(print_move(&Move { spot: None, piece: Some(Piece(0)) }), "..oooo");
    assert_eq!(print_move(&Move { spot: Some(Spot(15)), piece: None }), "d4....");
    assert_eq!(print_move(&Move { spot: None, piece: None }), "......");
}

#[test]
fn printed_moves_parse_back() {
    for s in -1..16i8 {
        for p in -1..16i8 {
            let spot = if s < 0 { None } else { Some(s) };
            let piece = if p < 0 { None } else { Some(p) };
            let mv = Move { spot: spot.map(Spot), piece: piece.map(Piece) };
            assert_eq!(parts(parse_move(&print_move(&mv))), Ok((spot, piece)));
        }
    }
}
