use chessboard::board::Square;
use chessboard::notation::{
    is_white_space, parse_input, parse_move, square_from_chars, square_to_string,
    string_to_square, Input, ParseError,
};

fn sq(row: usize, col: usize) -> Square {
    Square { row, col }
}

fn read(text: &str) -> Result<Square, ParseError> {
    string_to_square(text.to_string())
}

#[test]
fn move_with_and_without_a_capture_mark() {
    let expected = Ok(Input { src: sq(6, 4), dest: sq(4, 4) });
    assert_eq!(parse_move("e2e4"), expected);
    assert_eq!(parse_move("e2xe4"), expected);
    assert_eq!(parse_input("e2e4".to_string()), expected);
    assert_eq!(parse_input("e2xe4".to_string()), expected);
}

#[test]
fn move_of_two_characters_is_malformed() {
    assert_eq!(parse_move("e2"), Err(ParseError::MalformedInput));
    assert_eq!(parse_input("e2".to_string()), Err(ParseError::MalformedInput));
}

#[test]
fn square_is_read_from_its_notation() {
    assert_eq!(read("c3"), Ok(sq(5, 2)));
    assert_eq!(read("e2"), Ok(sq(6, 4)));
    assert_eq!(read("e4"), Ok(sq(4, 4)));
    assert_eq!(read("a1"), Ok(sq(7, 0)));
    assert_eq!(read("a8"), Ok(sq(0, 0)));
    assert_eq!(read("h1"), Ok(sq(7, 7)));
    assert_eq!(read("h8"), Ok(sq(0, 7)));
}

#[test]
fn file_letter_is_read_in_either_case() {
    assert_eq!(read("C3"), Ok(sq(5, 2)));
    assert_eq!(read("A8"), Ok(sq(0, 0)));
    assert_eq!(read("H1"), Ok(sq(7, 7)));
    assert_eq!(parse_move("E2E4"), Ok(Input { src: sq(6, 4), dest: sq(4, 4) }));
    assert_eq!(parse_move("e2Xe4"), Ok(Input { src: sq(6, 4), dest: sq(4, 4) }));
}

#[test]
fn square_of_the_wrong_length_is_malformed() {
    assert_eq!(read(""), Err(ParseError::MalformedInput));
    assert_eq!(read("e"), Err(ParseError::MalformedInput));
    assert_eq!(read("e22"), Err(ParseError::MalformedInput));
    assert_eq!(read("e2e4"), Err(ParseError::MalformedInput));
    assert_eq!(read(" e2"), Err(ParseError::MalformedInput));
    assert_eq!(read("zz9"), Err(ParseError::MalformedInput));
}

#[test]
fn length_is_counted_in_characters() {
    assert_eq!(read("é2"), Err(ParseError::InvalidFile));
    assert_eq!(read("e²"), Err(ParseError::InvalidRank));
    assert_eq!(parse_move("e2→e4"), Ok(Input { src: sq(6, 4), dest: sq(4, 4) }));
}

#[test]
fn wrong_file_is_reported() {
    assert_eq!(read("i1"), Err(ParseError::InvalidFile));
    assert_eq!(read("`1"), Err(ParseError::InvalidFile));
    assert_eq!(read("I1"), Err(ParseError::InvalidFile));
    assert_eq!(read("@1"), Err(ParseError::InvalidFile));
    assert_eq!(read("11"), Err(ParseError::InvalidFile));
    assert_eq!(read(" 1"), Err(ParseError::InvalidFile));
}

#[test]
fn wrong_rank_is_reported() {
    assert_eq!(read("a0"), Err(ParseError::InvalidRank));
    assert_eq!(read("a9"), Err(ParseError::InvalidRank));
    assert_eq!(read("aa"), Err(ParseError::InvalidRank));
    assert_eq!(read("h "), Err(ParseError::InvalidRank));
}

#[test]
fn wrong_file_comes_before_wrong_rank() {
    assert_eq!(read("z9"), Err(ParseError::InvalidFile));
    assert_eq!(read("90"), Err(ParseError::InvalidFile));
}

#[test]
fn square_from_chars_reads_letter_and_digit() {
    assert_eq!(square_from_chars('e', '2'), Ok(sq(6, 4)));
    assert_eq!(square_from_chars('E', '2'), Ok(sq(6, 4)));
    assert_eq!(square_from_chars('x', '2'), Err(ParseError::InvalidFile));
    assert_eq!(square_from_chars('e', 'x'), Err(ParseError::InvalidRank));
    assert_eq!(square_from_chars('2', 'e'), Err(ParseError::InvalidFile));
}

#[test]
fn square_is_written_in_its_notation() {
    assert_eq!(square_to_string(sq(5, 2)), "c3");
    assert_eq!(square_to_string(sq(6, 4)), "e2");
    assert_eq!(square_to_string(sq(0, 0)), "a8");
    assert_eq!(square_to_string(sq(7, 7)), "h1");
    assert_eq!(square_to_string(sq(7, 0)), "a1");
    assert_eq!(square_to_string(sq(0, 7)), "h8");
}

#[test]
fn reading_what_was_written_gives_the_square_back() {
    for row in 0..8 {
        for col in 0..8 {
            assert_eq!(string_to_square(square_to_string(sq(row, col))), Ok(sq(row, col)));
        }
    }
}

#[test]
fn writing_what_was_read_gives_the_notation_back() {
    for file in "abcdefgh".chars() {
        for rank in "12345678".chars() {
            let text = format!("{}{}", file, rank);
            let square = string_to_square(text.clone()).unwrap();
            assert_eq!(square_to_string(square), text);
        }
    }
}

#[test]
fn move_with_a_separator() {
    assert_eq!(parse_move("e2-e4"), Ok(Input { src: sq(6, 4), dest: sq(4, 4) }));
    assert_eq!(parse_move("g1 f3"), Ok(Input { src: sq(7, 6), dest: sq(5, 5) }));
    assert_eq!(parse_move("a7?a5"), Ok(Input { src: sq(1, 0), dest: sq(3, 0) }));
    assert_eq!(parse_move("b8c6"), Ok(Input { src: sq(0, 1), dest: sq(2, 2) }));
}

#[test]
fn move_of_the_wrong_length_is_malformed() {
    assert_eq!(parse_move(""), Err(ParseError::MalformedInput));
    assert_eq!(parse_move("e"), Err(ParseError::MalformedInput));
    assert_eq!(parse_move("e2e"), Err(ParseError::MalformedInput));
    assert_eq!(parse_move("e2--e4"), Err(ParseError::MalformedInput));
    assert_eq!(parse_move("e2 to e4"), Err(ParseError::MalformedInput));
    assert_eq!(parse_move("zzzzzz"), Err(ParseError::MalformedInput));
}

#[test]
fn move_reports_the_first_wrong_square() {
    assert_eq!(parse_move("i2e4"), Err(ParseError::InvalidFile));
    assert_eq!(parse_move("e9e4"), Err(ParseError::InvalidRank));
    assert_eq!(parse_move("e2j4"), Err(ParseError::InvalidFile));
    assert_eq!(parse_move("e2e0"), Err(ParseError::InvalidRank));
    assert_eq!(parse_move("e9j4"), Err(ParseError::InvalidRank));
    assert_eq!(parse_move("e2xe9"), Err(ParseError::InvalidRank));
    assert_eq!(parse_move("x2xe4"), Err(ParseError::InvalidFile));
}

#[test]
fn line_is_trimmed_before_it_is_read() {
    let expected = Ok(Input { src: sq(6, 4), dest: sq(4, 4) });
    assert_eq!(parse_input("e2e4\n".to_string()), expected);
    assert_eq!(parse_input("  e2e4".to_string()), expected);
    assert_eq!(parse_input("\t e2xe4 \r\n".to_string()), expected);
    assert_eq!(parse_input("\u{a0}E2-E4\u{2003}".to_string()), expected);
    assert_eq!(parse_move("e2e4\n"), Err(ParseError::InvalidFile));
    assert_eq!(parse_move(" e2e4"), Err(ParseError::InvalidFile));
}

#[test]
fn line_keeps_the_white_space_inside_it() {
    assert_eq!(parse_input(" e2 e4 ".to_string()), Ok(Input { src: sq(6, 4), dest: sq(4, 4) }));
    assert_eq!(parse_input("e2  e4".to_string()), Err(ParseError::MalformedInput));
    assert_eq!(parse_input("e 2e4".to_string()), Err(ParseError::InvalidRank));
}

#[test]
fn line_of_white_space_is_malformed() {
    assert_eq!(parse_input("".to_string()), Err(ParseError::MalformedInput));
    assert_eq!(parse_input("   ".to_string()), Err(ParseError::MalformedInput));
    assert_eq!(parse_input("\n".to_string()), Err(ParseError::MalformedInput));
    assert_eq!(parse_input(" e2 ".to_string()), Err(ParseError::MalformedInput));
    assert_eq!(parse_input("e2e4e6".to_string()), Err(ParseError::MalformedInput));
}

#[test]
fn line_reports_the_first_wrong_square() {
    assert_eq!(parse_input(" k2e4 ".to_string()), Err(ParseError::InvalidFile));
    assert_eq!(parse_input(" e2e9 ".to_string()), Err(ParseError::InvalidRank));
}

#[test]
fn white_space_is_what_the_standard_library_trims() {
    for code in 0..=0x10ffffu32 {
        if let Some(c) = char::from_u32(code) {
            assert_eq!(is_white_space(c), c.is_whitespace(), "U+{:04X}", code);
        }
    }
}

#[test]
fn white_space_has_twenty_five_characters() {
    let all: Vec<char> = (0..=0x10ffffu32)
        .filter_map(char::from_u32)
        .filter(|c| is_white_space(*c))
        .collect();
    assert_eq!(all.len(), 25);
    assert!(is_white_space(' '));
    assert!(is_white_space('\n'));
    assert!(is_white_space('\u{3000}'));
    assert!(!is_white_space('e'));
    assert!(!is_white_space('2'));
    assert!(!is_white_space('\u{200b}'));
    assert!(!is_white_space('\u{180e}'));
}

#[test]
fn line_is_read_as_its_trimmed_text() {
    for line in [
        "e2e4",
        " e2e4",
        "e2e4 ",
        "\te2xe4\r\n",
        "\u{2028}a7-a5\u{85}",
        "   ",
        "",
        " e2 ",
        "\u{200b}e2e4",
        " h8 h1 \u{1680}",
        "\u{feff}e2e4",
        "e2e4\u{0}",
    ] {
        assert_eq!(parse_input(line.to_string()), parse_move(line.trim()), "{:?}", line);
    }
}
