use chessboard::board::{move_piece, new_chessboard, Board, Square};
use chessboard::moves::get_legal_squares;
use chessboard::piece::{Cell, Colour, Piece, PieceKind};

fn sq(row: usize, col: usize) -> Square {
    Square { row, col }
}

fn empty_board() -> Board {
    Board { cells: [[Cell::Empty; 8]; 8] }
}

fn put(board: &mut Board, row: usize, col: usize, kind: PieceKind, colour: Colour) {
    board.cells[row][col] = Cell::Occupied(Piece { kind, colour });
}

fn coords(squares: &[Square]) -> Vec<(usize, usize)> {
    let mut out: Vec<(usize, usize)> = squares.iter().map(|s| (s.row, s.col)).collect();
    out.sort();
    out
}

fn sorted(mut pairs: Vec<(usize, usize)>) -> Vec<(usize, usize)> {
    pairs.sort();
    pairs
}

fn side_of(cell: Cell) -> Option<Colour> {
    match cell {
        Cell::Empty => None,
        Cell::Occupied(piece) => Some(piece.colour),
    }
}

fn line_is_clear(board: &Board, from: (i32, i32), to: (i32, i32)) -> bool {
    let step = ((to.0 - from.0).signum(), (to.1 - from.1).signum());
    let mut at = (from.0 + step.0, from.1 + step.1);
    while at != to {
        if board.cells[at.0 as usize][at.1 as usize] != Cell::Empty {
            return false;
        }
        at = (at.0 + step.0, at.1 + step.1);
    }
    true
}

/// The destinations from `from`, found by trying every square of the board
/// against the rule of the piece.
fn by_trying_every_square(board: &Board, from: Square) -> Vec<(usize, usize)> {
    let piece = match board.cells[from.row][from.col] {
        Cell::Empty => return Vec::new(),
        Cell::Occupied(piece) => piece,
    };
    let mut out = Vec::new();
    for row in 0..8usize {
        for col in 0..8usize {
            let target = board.cells[row][col];
            let dr = row as i32 - from.row as i32;
            let dc = col as i32 - from.col as i32;
            if dr == 0 && dc == 0 {
                continue;
            }
            let own = side_of(target) == Some(piece.colour);
            let enemy = side_of(target).is_some() && !own;
            let straight = dr == 0 || dc == 0;
            let diagonal = dr.abs() == dc.abs();
            let here = (from.row as i32, from.col as i32);
            let clear = (straight || diagonal) && line_is_clear(board, here, (row as i32, col as i32));
            let ok = match piece.kind {
                PieceKind::Rook => straight && clear && !own,
                PieceKind::Bishop => diagonal && clear && !own,
                PieceKind::Queen => (straight || diagonal) && clear && !own,
                PieceKind::Knight => {
                    ((dr.abs() == 1 && dc.abs() == 2) || (dr.abs() == 2 && dc.abs() == 1)) && !own
                }
                PieceKind::King => dr.abs() <= 1 && dc.abs() <= 1 && !own,
                PieceKind::Pawn => {
                    let ahead = if piece.colour == Colour::White { -1 } else { 1 };
                    let home = if piece.colour == Colour::White { 6 } else { 1 };
                    if dc == 0 && dr == ahead {
                        target == Cell::Empty
                    } else if dc == 0 && dr == 2 * ahead {
                        from.row == home && clear && target == Cell::Empty
                    } else if dc.abs() == 1 && dr == ahead {
                        enemy
                    } else {
                        false
                    }
                }
            };
            if ok {
                out.push((row, col));
            }
        }
    }
    out.sort();
    out
}

fn crowded_board() -> Board {
    let mut board = empty_board();
    put(&mut board, 4, 2, PieceKind::Rook, Colour::White);
    put(&mut board, 4, 6, PieceKind::Pawn, Colour::Black);
    put(&mut board, 2, 2, PieceKind::Pawn, Colour::White);
    put(&mut board, 3, 3, PieceKind::Queen, Colour::Black);
    put(&mut board, 5, 5, PieceKind::Bishop, Colour::White);
    put(&mut board, 0, 0, PieceKind::King, Colour::Black);
    put(&mut board, 7, 7, PieceKind::King, Colour::White);
    put(&mut board, 6, 1, PieceKind::Pawn, Colour::White);
    put(&mut board, 5, 0, PieceKind::Pawn, Colour::Black);
    put(&mut board, 5, 2, PieceKind::Knight, Colour::Black);
    put(&mut board, 1, 4, PieceKind::Pawn, Colour::Black);
    put(&mut board, 2, 5, PieceKind::Knight, Colour::White);
    put(&mut board, 0, 7, PieceKind::Pawn, Colour::White);
    put(&mut board, 7, 0, PieceKind::Pawn, Colour::Black);
    put(&mut board, 1, 1, PieceKind::Bishop, Colour::Black);
    put(&mut board, 6, 6, PieceKind::Rook, Colour::Black);
    board
}

fn all_boards() -> Vec<Board> {
    let start = new_chessboard();
    let opened = move_piece(start, sq(6, 4), sq(4, 4));
    let answered = move_piece(opened, sq(1, 3), sq(3, 3));
    let stirred = move_piece(
        move_piece(move_piece(start, sq(0, 3), sq(4, 2)), sq(0, 1), sq(4, 4)),
        sq(0, 4),
        sq(6, 0),
    );
    vec![start, opened, answered, stirred, crowded_board(), empty_board()]
}

#[test]
fn pawn_on_e2_reaches_e3_and_e4() {
    let board = new_chessboard();
    let found = get_legal_squares(board, sq(6, 4));
    assert_eq!(found, vec![sq(5, 4), sq(4, 4)]);
}

#[test]
fn rook_on_a1_is_shut_in() {
    let board = new_chessboard();
    let found = get_legal_squares(board, sq(7, 0));
    assert_eq!(found, Vec::<Square>::new());
}

#[test]
fn rook_captures_and_stops_at_the_first_piece() {
    let mut board = empty_board();
    put(&mut board, 4, 2, PieceKind::Rook, Colour::White);
    put(&mut board, 4, 6, PieceKind::Pawn, Colour::Black);
    let found = get_legal_squares(board, sq(4, 2));
    assert!(found.contains(&sq(4, 6)));
    assert!(!found.contains(&sq(4, 7)));
    assert_eq!(
        found,
        vec![
            sq(4, 3),
            sq(4, 4),
            sq(4, 5),
            sq(4, 6),
            sq(4, 1),
            sq(4, 0),
            sq(5, 2),
            sq(6, 2),
            sq(7, 2),
            sq(3, 2),
            sq(2, 2),
            sq(1, 2),
            sq(0, 2),
        ]
    );
}

#[test]
fn empty_square_has_no_destinations() {
    let board = new_chessboard();
    assert_eq!(get_legal_squares(board, sq(4, 4)), Vec::<Square>::new());
    assert_eq!(get_legal_squares(empty_board(), sq(0, 0)), Vec::<Square>::new());
}

#[test]
fn rook_stops_before_its_own_piece() {
    let mut board = empty_board();
    put(&mut board, 4, 2, PieceKind::Rook, Colour::White);
    put(&mut board, 4, 5, PieceKind::Pawn, Colour::White);
    let found = get_legal_squares(board, sq(4, 2));
    assert!(found.contains(&sq(4, 4)));
    assert!(!found.contains(&sq(4, 5)));
    assert!(!found.contains(&sq(4, 6)));
    assert_eq!(found.len(), 11);
}

#[test]
fn bishop_slides_along_both_diagonals() {
    let mut board = empty_board();
    put(&mut board, 4, 3, PieceKind::Bishop, Colour::Black);
    put(&mut board, 2, 5, PieceKind::Pawn, Colour::White);
    put(&mut board, 6, 1, PieceKind::Pawn, Colour::Black);
    let found = get_legal_squares(board, sq(4, 3));
    assert_eq!(
        found,
        vec![
            sq(3, 4),
            sq(2, 5),
            sq(5, 2),
            sq(3, 2),
            sq(2, 1),
            sq(1, 0),
            sq(5, 4),
            sq(6, 5),
            sq(7, 6),
        ]
    );
}

#[test]
fn queen_moves_as_rook_and_bishop() {
    let board = crowded_board();
    let from = sq(3, 3);
    let queen = get_legal_squares(board, from);
    let mut as_rook = board;
    put(&mut as_rook, 3, 3, PieceKind::Rook, Colour::Black);
    let mut as_bishop = board;
    put(&mut as_bishop, 3, 3, PieceKind::Bishop, Colour::Black);
    let mut both = get_legal_squares(as_rook, from);
    both.extend(get_legal_squares(as_bishop, from));
    assert_eq!(queen, both);
    assert_eq!(coords(&queen), by_trying_every_square(&board, from));
}

#[test]
fn queen_in_the_open_reaches_twenty_seven_squares() {
    let mut board = empty_board();
    put(&mut board, 4, 4, PieceKind::Queen, Colour::White);
    assert_eq!(get_legal_squares(board, sq(4, 4)).len(), 27);
}

#[test]
fn knight_jumps_over_pieces() {
    let board = new_chessboard();
    let found = get_legal_squares(board, sq(7, 1));
    assert_eq!(found, vec![sq(5, 0), sq(5, 2)]);
}

#[test]
fn knight_in_the_corner_stays_on_the_board() {
    let mut board = empty_board();
    put(&mut board, 0, 0, PieceKind::Knight, Colour::White);
    assert_eq!(get_legal_squares(board, sq(0, 0)), vec![sq(1, 2), sq(2, 1)]);
    let mut board = empty_board();
    put(&mut board, 7, 7, PieceKind::Knight, Colour::Black);
    assert_eq!(get_legal_squares(board, sq(7, 7)), vec![sq(5, 6), sq(6, 5)]);
}

#[test]
fn knight_in_the_open_reaches_eight_squares() {
    let mut board = empty_board();
    put(&mut board, 4, 4, PieceKind::Knight, Colour::White);
    put(&mut board, 2, 3, PieceKind::Pawn, Colour::White);
    put(&mut board, 2, 5, PieceKind::Pawn, Colour::Black);
    let found = get_legal_squares(board, sq(4, 4));
    assert_eq!(
        found,
        vec![sq(2, 5), sq(3, 6), sq(5, 6), sq(6, 5), sq(6, 3), sq(5, 2), sq(3, 2)]
    );
}

#[test]
fn king_steps_one_square_and_captures() {
    let mut board = empty_board();
    put(&mut board, 4, 4, PieceKind::King, Colour::White);
    put(&mut board, 3, 4, PieceKind::Pawn, Colour::White);
    put(&mut board, 5, 5, PieceKind::Pawn, Colour::Black);
    let found = get_legal_squares(board, sq(4, 4));
    assert_eq!(
        found,
        vec![sq(3, 5), sq(4, 5), sq(5, 5), sq(5, 4), sq(5, 3), sq(4, 3), sq(3, 3)]
    );
}

#[test]
fn king_in_the_corner_stays_on_the_board() {
    let mut board = empty_board();
    put(&mut board, 0, 0, PieceKind::King, Colour::Black);
    assert_eq!(get_legal_squares(board, sq(0, 0)), vec![sq(0, 1), sq(1, 1), sq(1, 0)]);
    let mut board = empty_board();
    put(&mut board, 7, 7, PieceKind::King, Colour::White);
    assert_eq!(get_legal_squares(board, sq(7, 7)), vec![sq(6, 7), sq(7, 6), sq(6, 6)]);
}

#[test]
fn king_on_its_first_square_is_shut_in() {
    let board = new_chessboard();
    assert_eq!(get_legal_squares(board, sq(7, 4)), Vec::<Square>::new());
    assert_eq!(get_legal_squares(board, sq(0, 4)), Vec::<Square>::new());
}

#[test]
fn black_pawn_advances_down_the_board() {
    let board = new_chessboard();
    assert_eq!(get_legal_squares(board, sq(1, 3)), vec![sq(2, 3), sq(3, 3)]);
}

#[test]
fn pawn_off_its_home_row_advances_one_square() {
    let board = move_piece(new_chessboard(), sq(6, 4), sq(5, 4));
    assert_eq!(get_legal_squares(board, sq(5, 4)), vec![sq(4, 4)]);
    let board = move_piece(new_chessboard(), sq(1, 4), sq(2, 4));
    assert_eq!(get_legal_squares(board, sq(2, 4)), vec![sq(3, 4)]);
}

#[test]
fn pawn_does_not_jump_over_a_piece() {
    let mut board = new_chessboard();
    put(&mut board, 5, 4, PieceKind::Knight, Colour::Black);
    assert_eq!(get_legal_squares(board, sq(6, 4)), Vec::<Square>::new());
    let mut board = new_chessboard();
    put(&mut board, 5, 4, PieceKind::Knight, Colour::White);
    assert_eq!(get_legal_squares(board, sq(6, 4)), Vec::<Square>::new());
}

#[test]
fn pawn_takes_one_step_when_the_second_square_is_taken() {
    let mut board = new_chessboard();
    put(&mut board, 4, 4, PieceKind::Pawn, Colour::Black);
    assert_eq!(get_legal_squares(board, sq(6, 4)), vec![sq(5, 4)]);
}

#[test]
fn pawn_captures_diagonally_only_an_enemy() {
    let mut board = empty_board();
    put(&mut board, 4, 4, PieceKind::Pawn, Colour::White);
    put(&mut board, 3, 3, PieceKind::Pawn, Colour::Black);
    put(&mut board, 3, 5, PieceKind::Pawn, Colour::White);
    assert_eq!(get_legal_squares(board, sq(4, 4)), vec![sq(3, 4), sq(3, 3)]);
    let mut board = empty_board();
    put(&mut board, 4, 4, PieceKind::Pawn, Colour::Black);
    put(&mut board, 5, 3, PieceKind::Rook, Colour::White);
    put(&mut board, 5, 5, PieceKind::Queen, Colour::White);
    put(&mut board, 5, 4, PieceKind::Pawn, Colour::White);
    assert_eq!(get_legal_squares(board, sq(4, 4)), vec![sq(5, 3), sq(5, 5)]);
}

#[test]
fn pawn_does_not_move_diagonally_onto_an_empty_square() {
    let mut board = empty_board();
    put(&mut board, 4, 4, PieceKind::Pawn, Colour::White);
    let found = get_legal_squares(board, sq(4, 4));
    assert_eq!(found, vec![sq(3, 4)]);
}

#[test]
fn pawn_on_the_edge_captures_on_one_side() {
    let mut board = empty_board();
    put(&mut board, 6, 0, PieceKind::Pawn, Colour::White);
    put(&mut board, 5, 1, PieceKind::Pawn, Colour::Black);
    assert_eq!(get_legal_squares(board, sq(6, 0)), vec![sq(5, 0), sq(4, 0), sq(5, 1)]);
    let mut board = empty_board();
    put(&mut board, 1, 7, PieceKind::Pawn, Colour::Black);
    put(&mut board, 2, 6, PieceKind::Pawn, Colour::White);
    assert_eq!(get_legal_squares(board, sq(1, 7)), vec![sq(2, 7), sq(3, 7), sq(2, 6)]);
}

#[test]
fn pawn_on_the_last_row_has_no_destinations() {
    let mut board = empty_board();
    put(&mut board, 0, 3, PieceKind::Pawn, Colour::White);
    put(&mut board, 7, 3, PieceKind::Pawn, Colour::Black);
    assert_eq!(get_legal_squares(board, sq(0, 3)), Vec::<Square>::new());
    assert_eq!(get_legal_squares(board, sq(7, 3)), Vec::<Square>::new());
}

#[test]
fn pawn_on_the_other_home_row_advances_one_square() {
    let mut board = empty_board();
    put(&mut board, 1, 2, PieceKind::Pawn, Colour::White);
    put(&mut board, 6, 2, PieceKind::Pawn, Colour::Black);
    assert_eq!(get_legal_squares(board, sq(1, 2)), vec![sq(0, 2)]);
    assert_eq!(get_legal_squares(board, sq(6, 2)), vec![sq(7, 2)]);
}

#[test]
fn destinations_agree_with_trying_every_square() {
    for board in all_boards() {
        for row in 0..8 {
            for col in 0..8 {
                let found = get_legal_squares(board, sq(row, col));
                assert_eq!(coords(&found), by_trying_every_square(&board, sq(row, col)));
            }
        }
    }
}

#[test]
fn no_destination_is_listed_twice() {
    for board in all_boards() {
        for row in 0..8 {
            for col in 0..8 {
                let found = coords(&get_legal_squares(board, sq(row, col)));
                let mut once = found.clone();
                once.dedup();
                assert_eq!(found, once);
            }
        }
    }
}

#[test]
fn destinations_lie_on_the_board_and_away_from_the_origin() {
    for board in all_boards() {
        for row in 0..8 {
            for col in 0..8 {
                for to in get_legal_squares(board, sq(row, col)) {
                    assert!(to.row < 8 && to.col < 8);
                    assert_ne!(to, sq(row, col));
                }
            }
        }
    }
}

#[test]
fn sliders_stay_on_their_lines_over_empty_squares() {
    for board in all_boards() {
        for row in 0..8 {
            for col in 0..8 {
                let piece = match board.cells[row][col] {
                    Cell::Occupied(piece) => piece,
                    Cell::Empty => continue,
                };
                if !matches!(piece.kind, PieceKind::Rook | PieceKind::Bishop | PieceKind::Queen) {
                    continue;
                }
                for to in get_legal_squares(board, sq(row, col)) {
                    let dr = to.row as i32 - row as i32;
                    let dc = to.col as i32 - col as i32;
                    assert!(dr == 0 || dc == 0 || dr.abs() == dc.abs());
                    assert!(line_is_clear(
                        &board,
                        (row as i32, col as i32),
                        (to.row as i32, to.col as i32)
                    ));
                    assert_ne!(side_of(board.cells[to.row][to.col]), Some(piece.colour));
                }
            }
        }
    }
}

#[test]
fn knights_and_kings_keep_to_their_offsets() {
    for board in all_boards() {
        for row in 0..8 {
            for col in 0..8 {
                let piece = match board.cells[row][col] {
                    Cell::Occupied(piece) => piece,
                    Cell::Empty => continue,
                };
                for to in get_legal_squares(board, sq(row, col)) {
                    let dr = (to.row as i32 - row as i32).abs();
                    let dc = (to.col as i32 - col as i32).abs();
                    match piece.kind {
                        PieceKind::Knight => assert!((dr, dc) == (1, 2) || (dr, dc) == (2, 1)),
                        PieceKind::King => assert!(dr <= 1 && dc <= 1),
                        _ => continue,
                    }
                    assert_ne!(side_of(board.cells[to.row][to.col]), Some(piece.colour));
                }
            }
        }
    }
}

#[test]
fn pawns_double_step_only_from_home_and_capture_only_enemies() {
    for board in all_boards() {
        for row in 0..8 {
            for col in 0..8 {
                let piece = match board.cells[row][col] {
                    Cell::Occupied(piece) if piece.kind == PieceKind::Pawn => piece,
                    _ => continue,
                };
                let ahead: i32 = if piece.colour == Colour::White { -1 } else { 1 };
                let home = if piece.colour == Colour::White { 6 } else { 1 };
                for to in get_legal_squares(board, sq(row, col)) {
                    let dr = to.row as i32 - row as i32;
                    let dc = to.col as i32 - col as i32;
                    if dc == 0 && dr == 2 * ahead {
                        assert_eq!(row, home);
                        assert_eq!(board.cells[(row as i32 + ahead) as usize][col], Cell::Empty);
                        assert_eq!(board.cells[to.row][to.col], Cell::Empty);
                    } else if dc == 0 {
                        assert_eq!(dr, ahead);
                        assert_eq!(board.cells[to.row][to.col], Cell::Empty);
                    } else {
                        assert_eq!((dr, dc.abs()), (ahead, 1));
                        let taken = side_of(board.cells[to.row][to.col]);
                        assert!(taken.is_some() && taken != Some(piece.colour));
                    }
                }
            }
        }
    }
}

#[test]
fn generating_twice_gives_the_same_destinations() {
    for board in all_boards() {
        let kept = board;
        for row in 0..8 {
            for col in 0..8 {
                let first = get_legal_squares(board, sq(row, col));
                let second = get_legal_squares(board, sq(row, col));
                assert_eq!(first, second);
                assert_eq!(board, kept);
            }
        }
    }
}

#[test]
fn destinations_change_after_a_move() {
    let start = new_chessboard();
    assert_eq!(sorted(coords(&get_legal_squares(start, sq(7, 5)))), vec![]);
    let opened = move_piece(start, sq(6, 4), sq(4, 4));
    assert_eq!(
        coords(&get_legal_squares(opened, sq(7, 5))),
        vec![(2, 0), (3, 1), (4, 2), (5, 3), (6, 4)]
    );
    assert_eq!(
        get_legal_squares(opened, sq(7, 3)),
        vec![sq(6, 4), sq(5, 5), sq(4, 6), sq(3, 7)]
    );
}

/// The lines of a piece in the order in which its destinations are listed.
fn lines_of(piece: Piece) -> Vec<(i32, i32)> {
    let straight = vec![(0, 1), (0, -1), (1, 0), (-1, 0)];
    let diagonal = vec![(-1, 1), (1, -1), (-1, -1), (1, 1)];
    match piece.kind {
        PieceKind::Rook => straight,
        PieceKind::Bishop => diagonal,
        PieceKind::Queen => straight.into_iter().chain(diagonal).collect(),
        PieceKind::Knight => {
            vec![(-2, -1), (-2, 1), (-1, 2), (1, 2), (2, 1), (2, -1), (1, -2), (-1, -2)]
        }
        PieceKind::King => {
            vec![(-1, 0), (-1, 1), (0, 1), (1, 1), (1, 0), (1, -1), (0, -1), (-1, -1)]
        }
        PieceKind::Pawn => {
            let ahead = if piece.colour == Colour::White { -1 } else { 1 };
            vec![(ahead, 0), (ahead, -1), (ahead, 1)]
        }
    }
}

/// The destinations from `from` in the order in which they are listed:
/// found by trying every square, then put in order line by line.
fn in_listing_order(board: &Board, from: Square) -> Vec<Square> {
    let piece = match board.cells[from.row][from.col] {
        Cell::Empty => return Vec::new(),
        Cell::Occupied(piece) => piece,
    };
    let lines = lines_of(piece);
    let mut keyed: Vec<(usize, i32, Square)> = by_trying_every_square(board, from)
        .into_iter()
        .map(|(row, col)| {
            let dr = row as i32 - from.row as i32;
            let dc = col as i32 - from.col as i32;
            let line = match piece.kind {
                PieceKind::Knight | PieceKind::King => (dr, dc),
                _ => (dr.signum(), dc.signum()),
            };
            let index = lines.iter().position(|l| *l == line).unwrap();
            (index, dr.abs().max(dc.abs()), sq(row, col))
        })
        .collect();
    keyed.sort_by_key(|(index, distance, _)| (*index, *distance));
    keyed.into_iter().map(|(_, _, square)| square).collect()
}

#[test]
fn destinations_come_line_by_line_and_nearest_first() {
    for board in all_boards() {
        for row in 0..8 {
            for col in 0..8 {
                assert_eq!(
                    get_legal_squares(board, sq(row, col)),
                    in_listing_order(&board, sq(row, col))
                );
            }
        }
    }
}

#[test]
fn queen_lists_the_lines_of_a_rook_before_those_of_a_bishop() {
    let mut board = empty_board();
    put(&mut board, 1, 1, PieceKind::Queen, Colour::Black);
    put(&mut board, 1, 3, PieceKind::Pawn, Colour::Black);
    put(&mut board, 3, 1, PieceKind::Pawn, Colour::White);
    put(&mut board, 3, 3, PieceKind::Pawn, Colour::White);
    assert_eq!(
        get_legal_squares(board, sq(1, 1)),
        vec![
            sq(1, 2),
            sq(1, 0),
            sq(2, 1),
            sq(3, 1),
            sq(0, 1),
            sq(0, 2),
            sq(2, 0),
            sq(0, 0),
            sq(2, 2),
            sq(3, 3),
        ]
    );
}
