//! Squares and moves written as text.
//!
//! A square is written as its file letter, `a` to `h`, followed by its rank
//! digit, `1` to `8`. Rank 8 is row 0 of the board and file `a` is column 0.
//! A move is written as its two squares, with or without one character
//! between them.

use vstd::prelude::*;
use vstd::string::{StrSliceExecFns, StringExecFns};
use crate::board::{Square, SIDE};

verus! {

/// Why a text is no square and no move.
#[derive(Copy, Clone, PartialEq, Eq, Debug, Structural)]
pub enum ParseError {
    /// The text has the wrong length.
    MalformedInput,
    /// The file is no letter from `a` to `h`.
    InvalidFile,
    /// The rank is no digit from `1` to `8`.
    InvalidRank,
}

/// A move as it is entered: the square it leaves and the square it goes to.
#[derive(Copy, Clone, PartialEq, Eq, Debug, Structural)]
pub struct Input {
    pub src: Square,
    pub dest: Square,
}

/// The column of the file written `letter`, in either case.
pub open spec fn file_column(letter: char) -> Option<usize> {
    if 'a' <= letter <= 'h' {
        Some((letter as int - 'a' as int) as usize)
    } else if 'A' <= letter <= 'H' {
        Some((letter as int - 'A' as int) as usize)
    } else {
        None
    }
}

/// The row of the rank written `digit`.
pub open spec fn rank_row(digit: char) -> Option<usize> {
    if '1' <= digit <= '8' {
        Some(('8' as int - digit as int) as usize)
    } else {
        None
    }
}

/// The square written with the file `letter` and the rank `digit`.
pub open spec fn square_of(letter: char, digit: char) -> Result<Square, ParseError> {
    match (file_column(letter), rank_row(digit)) {
        (None, _) => Err(ParseError::InvalidFile),
        (Some(_), None) => Err(ParseError::InvalidRank),
        (Some(col), Some(row)) => Ok(Square { row, col }),
    }
}

/// The square that `text` writes.
pub open spec fn parsed_square(text: Seq<char>) -> Result<Square, ParseError> {
    if text.len() == 2 {
        square_of(text[0], text[1])
    } else {
        Err(ParseError::MalformedInput)
    }
}

/// Reads a file letter.
fn column_of(letter: char) -> (col: Option<usize>)
    ensures
        col == file_column(letter),
{
    let code = letter as u32;
    if 'a' as u32 <= code && code <= 'h' as u32 {
        Some((code - 'a' as u32) as usize)
    } else if 'A' as u32 <= code && code <= 'H' as u32 {
        Some((code - 'A' as u32) as usize)
    } else {
        None
    }
}

/// Reads a rank digit.
fn row_of(digit: char) -> (row: Option<usize>)
    ensures
        row == rank_row(digit),
{
    let code = digit as u32;
    if '1' as u32 <= code && code <= '8' as u32 {
        Some(('8' as u32 - code) as usize)
    } else {
        None
    }
}

/// Reads a square from its file letter and its rank digit.
pub fn square_from_chars(letter: char, digit: char) -> (square: Result<Square, ParseError>)
    ensures
        square == square_of(letter, digit),
        square matches Ok(sq) ==> sq.on_board(),
{
    match column_of(letter) {
        None => Err(ParseError::InvalidFile),
        Some(col) => match row_of(digit) {
            None => Err(ParseError::InvalidRank),
            Some(row) => Ok(Square { row, col }),
        },
    }
}

/// Reads a square from its two-character notation, such as `c3`.
///
/// The letter may be in either case. A text of another length is
/// `MalformedInput`; a wrong letter is `InvalidFile`; a wrong digit after a
/// right letter is `InvalidRank`.
pub fn string_to_square(chess_notation: String) -> (square: Result<Square, ParseError>)
    ensures
        square == parsed_square(chess_notation@),
        square matches Ok(sq) ==> sq.on_board(),
{
    let text = chess_notation.as_str();
    if text.unicode_len() != 2 {
        return Err(ParseError::MalformedInput);
    }
    square_from_chars(text.get_char(0), text.get_char(1))
}

/// The letter of the file on column `col`.
pub open spec fn file_letter(col: usize) -> char {
    ('a' as int + col) as char
}

/// The digit of the rank on row `row`.
pub open spec fn rank_digit(row: usize) -> char {
    ('8' as int - row) as char
}

/// The notation of `square`: its file letter in lower case, then its rank
/// digit.
pub open spec fn square_text(square: Square) -> Seq<char> {
    seq![file_letter(square.col), rank_digit(square.row)]
}

/// Returns the letter of the file on column `col`, as a text.
pub fn file_name(col: usize) -> (name: &'static str)
    requires
        col < SIDE,
    ensures
        name@ == seq![file_letter(col)],
{
    proof {
        reveal_strlit("a");
        reveal_strlit("b");
        reveal_strlit("c");
        reveal_strlit("d");
        reveal_strlit("e");
        reveal_strlit("f");
        reveal_strlit("g");
        reveal_strlit("h");
    }
    if col == 0 {
        "a"
    } else if col == 1 {
        "b"
    } else if col == 2 {
        "c"
    } else if col == 3 {
        "d"
    } else if col == 4 {
        "e"
    } else if col == 5 {
        "f"
    } else if col == 6 {
        "g"
    } else {
        "h"
    }
}

/// Returns the digit of the rank on row `row`, as a text.
pub fn rank_name(row: usize) -> (name: &'static str)
    requires
        row < SIDE,
    ensures
        name@ == seq![rank_digit(row)],
{
    proof {
        reveal_strlit("8");
        reveal_strlit("7");
        reveal_strlit("6");
        reveal_strlit("5");
        reveal_strlit("4");
        reveal_strlit("3");
        reveal_strlit("2");
        reveal_strlit("1");
    }
    if row == 0 {
        "8"
    } else if row == 1 {
        "7"
    } else if row == 2 {
        "6"
    } else if row == 3 {
        "5"
    } else if row == 4 {
        "4"
    } else if row == 5 {
        "3"
    } else if row == 6 {
        "2"
    } else {
        "1"
    }
}

/// Writes `square` in its two-character notation, such as `c3`.
pub fn square_to_string(square: Square) -> (chess_notation: String)
    requires
        square.on_board(),
    ensures
        chess_notation@ == square_text(square),
{
    let mut chess_notation = String::from_str(file_name(square.col));
    chess_notation.append(rank_name(square.row));
    chess_notation
}

/// Reading the notation of a square gives the square back.
pub proof fn lemma_square_round_trip(square: Square)
    requires
        square.on_board(),
    ensures
        parsed_square(square_text(square)) == Ok::<Square, ParseError>(square),
{
}

/// The move that `text` writes: its first two characters are the square
/// left and its last two the square gone to; a text of five characters has
/// one more between them, which is passed over.
pub open spec fn parsed_move(text: Seq<char>) -> Result<Input, ParseError> {
    if text.len() == 4 || text.len() == 5 {
        match square_of(text[0], text[1]) {
            Err(error) => Err(error),
            Ok(src) => match square_of(text[text.len() - 2], text[text.len() - 1]) {
                Err(error) => Err(error),
                Ok(dest) => Ok(Input { src, dest }),
            },
        }
    } else {
        Err(ParseError::MalformedInput)
    }
}

/// Reads the move written by the characters of `text` from `start` up to
/// `end`.
fn parse_span(text: &str, start: usize, end: usize) -> (input: Result<Input, ParseError>)
    requires
        start <= end <= text@.len(),
    ensures
        input == parsed_move(text@.subrange(start as int, end as int)),
        input matches Ok(read) ==> read.src.on_board() && read.dest.on_board(),
{
    let length = end - start;
    if length != 4 && length != 5 {
        return Err(ParseError::MalformedInput);
    }
    let src = match square_from_chars(text.get_char(start), text.get_char(start + 1)) {
        Err(error) => {
            return Err(error);
        },
        Ok(src) => src,
    };
    match square_from_chars(text.get_char(end - 2), text.get_char(end - 1)) {
        Err(error) => Err(error),
        Ok(dest) => Ok(Input { src, dest }),
    }
}

/// Reads a move from its notation, such as `e2e4`, `e2-e4` or `e2xe4`.
///
/// The text holds the square left and the square gone to, with or without
/// one character between them. A text of another length is
/// `MalformedInput`; otherwise the first square that is wrong gives its
/// error.
pub fn parse_move(text: &str) -> (input: Result<Input, ParseError>)
    ensures
        input == parsed_move(text@),
        input matches Ok(read) ==> read.src.on_board() && read.dest.on_board(),
{
    let end = text.unicode_len();
    parse_span(text, 0, end)
}

/// Whether `c` is white space: one of the characters that have the
/// `White_Space` property of Unicode. They are the tab, the line feed, the
/// vertical tab, the form feed, the carriage return, the blank, and the
/// spaces and separators beyond ASCII.
pub open spec fn white_space(c: char) -> bool {
    ||| '\u{9}' <= c <= '\u{d}'
    ||| c == ' '
    ||| c == '\u{85}'
    ||| c == '\u{a0}'
    ||| c == '\u{1680}'
    ||| '\u{2000}' <= c <= '\u{200a}'
    ||| c == '\u{2028}'
    ||| c == '\u{2029}'
    ||| c == '\u{202f}'
    ||| c == '\u{205f}'
    ||| c == '\u{3000}'
}

/// Tells whether `c` is white space.
pub fn is_white_space(c: char) -> (b: bool)
    ensures
        b == white_space(c),
{
    let code = c as u32;
    (0x9 <= code && code <= 0xd) || code == 0x20 || code == 0x85 || code == 0xa0 || code == 0x1680
        || (0x2000 <= code && code <= 0x200a) || code == 0x2028 || code == 0x2029 || code == 0x202f
        || code == 0x205f || code == 0x3000
}

/// `text` without the white space that it begins with.
pub open spec fn trimmed_start(text: Seq<char>) -> Seq<char>
    decreases text.len(),
{
    if text.len() > 0 && white_space(text.first()) {
        trimmed_start(text.drop_first())
    } else {
        text
    }
}

/// `text` without the white space that it ends with.
pub open spec fn trimmed_end(text: Seq<char>) -> Seq<char>
    decreases text.len(),
{
    if text.len() > 0 && white_space(text.last()) {
        trimmed_end(text.drop_last())
    } else {
        text
    }
}

/// `text` without the white space around it.
pub open spec fn trimmed(text: Seq<char>) -> Seq<char> {
    trimmed_end(trimmed_start(text))
}

/// Reads a move from a line as it was entered: the notation of the move,
/// with or without white space around it.
pub fn parse_input(line: String) -> (input: Result<Input, ParseError>)
    ensures
        input == parsed_move(trimmed(line@)),
        input matches Ok(read) ==> read.src.on_board() && read.dest.on_board(),
{
    let text = line.as_str();
    let length = text.unicode_len();
    let mut start: usize = 0;
    assert(text@.subrange(0, length as int) =~= text@);
    while start < length && is_white_space(text.get_char(start))
        invariant
            start <= length == text@.len(),
            trimmed_start(text@) == trimmed_start(text@.subrange(start as int, length as int)),
        decreases length - start,
    {
        assert(text@.subrange(start as int, length as int).drop_first() =~= text@.subrange(
            start + 1,
            length as int,
        ));
        start = start + 1;
    }
    let mut end: usize = length;
    while end > start && is_white_space(text.get_char(end - 1))
        invariant
            start <= end <= length == text@.len(),
            trimmed(text@) == trimmed_end(text@.subrange(start as int, end as int)),
        decreases end - start,
    {
        assert(text@.subrange(start as int, end as int).drop_last() =~= text@.subrange(
            start as int,
            end - 1,
        ));
        end = end - 1;
    }
    parse_span(text, start, end)
}

} // verus!
