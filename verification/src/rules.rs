//! What the movement rules allow.
//!
//! The rules are stated over the geometry of the board: which squares lie on
//! a line with a square, which lie a jump or a step away from it, and what
//! stands between and on them. [`is_destination`] puts them together for the
//! piece that stands on a square, and [`listing_rank`] gives the order in
//! which the destinations of a piece are listed.

use vstd::prelude::*;
use crate::board::{Board, Square, BLACK_PAWN_ROW, SIDE, WHITE_PAWN_ROW};
use crate::piece::{Cell, Colour, Piece, PieceKind};

verus! {

/// The distance between two coordinates.
pub open spec fn gap(a: int, b: int) -> int {
    if a <= b {
        b - a
    } else {
        a - b
    }
}

/// The coordinate `steps` squares away from `from` on the way to `to`.
pub open spec fn toward(from: int, to: int, steps: int) -> int {
    if from < to {
        from + steps
    } else if from > to {
        from - steps
    } else {
        from
    }
}

/// The number of king steps between two squares.
pub open spec fn distance(from: Square, to: Square) -> int {
    let rows = gap(from.row as int, to.row as int);
    let cols = gap(from.col as int, to.col as int);
    if rows >= cols {
        rows
    } else {
        cols
    }
}

/// `to` is another square on the rank or on the file of `from`.
pub open spec fn same_rank_or_file(from: Square, to: Square) -> bool {
    from != to && (from.row == to.row || from.col == to.col)
}

/// `to` is another square on one of the two diagonals through `from`.
pub open spec fn same_diagonal(from: Square, to: Square) -> bool {
    from != to && gap(from.row as int, to.row as int) == gap(from.col as int, to.col as int)
}

/// Every square strictly between `from` and `to`, along the line that joins
/// them, is empty.
pub open spec fn path_clear(board: Board, from: Square, to: Square) -> bool {
    forall|steps: int|
        1 <= steps < distance(from, to) ==> #[trigger] board.at(
            toward(from.row as int, to.row as int, steps),
            toward(from.col as int, to.col as int, steps),
        ) is Empty
}

/// `to` is a knight's jump away from `from`.
pub open spec fn knight_jump(from: Square, to: Square) -> bool {
    let rows = gap(from.row as int, to.row as int);
    let cols = gap(from.col as int, to.col as int);
    (rows == 1 && cols == 2) || (rows == 2 && cols == 1)
}

/// `to` is next to `from`, in any of the eight directions.
pub open spec fn king_step(from: Square, to: Square) -> bool {
    distance(from, to) == 1
}

/// The change of row when a pawn of side `colour` advances one square.
pub open spec fn forward(colour: Colour) -> int {
    match colour {
        Colour::White => -1,
        Colour::Black => 1,
    }
}

/// The row on which the pawns of side `colour` start.
pub open spec fn pawn_home_row(colour: Colour) -> int {
    match colour {
        Colour::White => WHITE_PAWN_ROW as int,
        Colour::Black => BLACK_PAWN_ROW as int,
    }
}

/// `to` is one square straight ahead of a pawn of side `colour` on `from`.
pub open spec fn pawn_single_step(from: Square, colour: Colour, to: Square) -> bool {
    to.col == from.col && to.row == from.row + forward(colour)
}

/// `to` is two squares straight ahead of a pawn of side `colour` on `from`.
pub open spec fn pawn_double_step(from: Square, colour: Colour, to: Square) -> bool {
    to.col == from.col && to.row == from.row + 2 * forward(colour)
}

/// `to` is one square diagonally ahead of a pawn of side `colour` on `from`.
pub open spec fn pawn_diagonal(from: Square, colour: Colour, to: Square) -> bool {
    gap(from.col as int, to.col as int) == 1 && to.row == from.row + forward(colour)
}

/// A pawn of side `colour` on `from` can move to `to`: one square ahead onto
/// an empty square, two squares ahead from its home row across an empty
/// square onto an empty square, or diagonally ahead onto an enemy piece.
pub open spec fn pawn_destination(board: Board, from: Square, colour: Colour, to: Square) -> bool {
    ||| pawn_single_step(from, colour, to) && board.cell(to) is Empty
    ||| {
        &&& pawn_double_step(from, colour, to)
        &&& from.row == pawn_home_row(colour)
        &&& board.at(from.row + forward(colour), from.col as int) is Empty
        &&& board.cell(to) is Empty
    }
    ||| pawn_diagonal(from, colour, to) && board.cell(to).holds(colour.opponent())
}

/// A sliding piece of side `colour` on `from` can move to `to` along a rank
/// or file.
pub open spec fn slides_straight(board: Board, from: Square, colour: Colour, to: Square) -> bool {
    same_rank_or_file(from, to) && path_clear(board, from, to) && !board.cell(to).holds(colour)
}

/// A sliding piece of side `colour` on `from` can move to `to` along a
/// diagonal.
pub open spec fn slides_diagonally(board: Board, from: Square, colour: Colour, to: Square) -> bool {
    same_diagonal(from, to) && path_clear(board, from, to) && !board.cell(to).holds(colour)
}

/// The piece on `from` can move to `to`.
///
/// Nothing can move from an empty square. A rook, bishop or queen slides
/// along its lines over empty squares and stops on the first piece, which it
/// captures if it is an enemy. A knight and a king reach their fixed
/// neighbours unless a piece of their own side stands there. A pawn moves as
/// [`pawn_destination`] says.
pub open spec fn is_destination(board: Board, from: Square, to: Square) -> bool {
    to.on_board() && match board.cell(from) {
        Cell::Empty => false,
        Cell::Occupied(piece) => match piece.kind {
            PieceKind::Rook => slides_straight(board, from, piece.colour, to),
            PieceKind::Bishop => slides_diagonally(board, from, piece.colour, to),
            PieceKind::Queen => slides_straight(board, from, piece.colour, to)
                || slides_diagonally(board, from, piece.colour, to),
            PieceKind::Knight => knight_jump(from, to) && !board.cell(to).holds(piece.colour),
            PieceKind::King => king_step(from, to) && !board.cell(to).holds(piece.colour),
            PieceKind::Pawn => pawn_destination(board, from, piece.colour, to),
        },
    }
}

/// `kind` is a rook, a bishop or a queen.
pub open spec fn slides(kind: PieceKind) -> bool {
    kind is Rook || kind is Bishop || kind is Queen
}

/// What holds of a move of a rook, a bishop or a queen from `from` to `to`:
/// `to` lies on a rank, file or diagonal through `from`, every square between
/// the two is empty, and `to` is empty or holds an enemy piece.
pub open spec fn slider_rule(board: Board, from: Square, to: Square) -> bool {
    match board.cell(from) {
        Cell::Occupied(piece) if slides(piece.kind) => {
            &&& same_rank_or_file(from, to) || same_diagonal(from, to)
            &&& path_clear(board, from, to)
            &&& board.cell(to) is Empty || board.cell(to).holds(piece.colour.opponent())
        },
        _ => true,
    }
}

/// What holds of a move of a knight or a king from `from` to `to`: `to` is
/// one of the eight squares that the piece jumps or steps to, and is empty
/// or holds an enemy piece.
pub open spec fn leaper_rule(board: Board, from: Square, to: Square) -> bool {
    match board.cell(from) {
        Cell::Occupied(piece) if piece.kind is Knight || piece.kind is King => {
            &&& if piece.kind is Knight {
                knight_jump(from, to)
            } else {
                king_step(from, to)
            }
            &&& board.cell(to) is Empty || board.cell(to).holds(piece.colour.opponent())
        },
        _ => true,
    }
}

/// What holds of a move of a pawn from `from` to `to`: it goes two squares
/// ahead only from the home row of its side and over two empty squares, and
/// it goes diagonally only onto an enemy piece.
pub open spec fn pawn_rule(board: Board, from: Square, to: Square) -> bool {
    match board.cell(from) {
        Cell::Occupied(piece) if piece.kind is Pawn => {
            &&& pawn_single_step(from, piece.colour, to) || pawn_double_step(from, piece.colour, to)
                || pawn_diagonal(from, piece.colour, to)
            &&& pawn_double_step(from, piece.colour, to) ==> {
                &&& from.row == pawn_home_row(piece.colour)
                &&& board.at(from.row + forward(piece.colour), from.col as int) is Empty
                &&& board.cell(to) is Empty
            }
            &&& pawn_diagonal(from, piece.colour, to) ==> board.cell(to).holds(
                piece.colour.opponent(),
            )
        },
        _ => true,
    }
}

/// `squares` lists the destinations from `from`: each of them once, and
/// nothing else.
pub open spec fn lists_destinations(board: Board, from: Square, squares: Seq<Square>) -> bool {
    &&& squares.no_duplicates()
    &&& forall|to: Square| squares.contains(to) <==> is_destination(board, from, to)
}

/// The place of the line toward a square `rows` rows and `cols` columns away
/// among the lines along the rank and the file: toward higher columns,
/// toward lower columns, toward higher rows, toward lower rows.
pub open spec fn straight_line(rows: int, cols: int) -> int {
    if rows == 0 {
        if cols > 0 {
            0
        } else {
            1
        }
    } else if rows > 0 {
        2
    } else {
        3
    }
}

/// The place of the line toward a square `rows` rows and `cols` columns away
/// among the diagonals: toward lower rows and higher columns, toward higher
/// rows and lower columns, toward lower rows and lower columns, toward
/// higher rows and higher columns.
pub open spec fn diagonal_line(rows: int, cols: int) -> int {
    if rows < 0 {
        if cols > 0 {
            0
        } else {
            2
        }
    } else if cols < 0 {
        1
    } else {
        3
    }
}

/// The place of the jump by `rows` rows and `cols` columns among the jumps
/// of a knight: they go round, from the jump by -2 rows and -1 column, by way
/// of the higher columns.
pub open spec fn knight_line(rows: int, cols: int) -> int {
    if rows == -2 {
        if cols == -1 {
            0
        } else {
            1
        }
    } else if rows == -1 {
        if cols == 2 {
            2
        } else {
            7
        }
    } else if rows == 1 {
        if cols == 2 {
            3
        } else {
            6
        }
    } else if cols == 1 {
        4
    } else {
        5
    }
}

/// The place of the step by `rows` rows and `cols` columns among the steps
/// of a king: they go round, from the step by -1 row, by way of the higher
/// columns.
pub open spec fn king_line(rows: int, cols: int) -> int {
    if rows == -1 {
        if cols == 0 {
            0
        } else if cols == 1 {
            1
        } else {
            7
        }
    } else if rows == 0 {
        if cols == 1 {
            2
        } else {
            6
        }
    } else if cols == 1 {
        3
    } else if cols == 0 {
        4
    } else {
        5
    }
}

/// The place of the line from `from` through `to` among the lines along
/// which `piece` moves. A queen has the lines of a rook before those of a
/// bishop; a pawn has the line ahead before the capture toward the lower
/// columns and that toward the higher columns.
pub open spec fn line_index(piece: Piece, from: Square, to: Square) -> int {
    let rows = to.row - from.row;
    let cols = to.col - from.col;
    match piece.kind {
        PieceKind::Rook => straight_line(rows, cols),
        PieceKind::Bishop => diagonal_line(rows, cols),
        PieceKind::Queen => if rows == 0 || cols == 0 {
            straight_line(rows, cols)
        } else {
            4 + diagonal_line(rows, cols)
        },
        PieceKind::Knight => knight_line(rows, cols),
        PieceKind::King => king_line(rows, cols),
        PieceKind::Pawn => if cols == 0 {
            0
        } else if cols < 0 {
            1
        } else {
            2
        },
    }
}

/// The rank by which the destinations of `piece` on `from` are listed: line
/// by line, and along a line the nearest square first.
pub open spec fn listing_rank(piece: Piece, from: Square, to: Square) -> int {
    line_index(piece, from, to) * SIDE + distance(from, to)
}

/// `squares` is in the order in which the destinations from `from` are
/// listed.
pub open spec fn in_listing_order(board: Board, from: Square, squares: Seq<Square>) -> bool {
    match board.cell(from) {
        Cell::Empty => true,
        Cell::Occupied(piece) => forall|i: int, j: int|
            0 <= i < j < squares.len() ==> listing_rank(piece, from, #[trigger] squares[i])
                < listing_rank(piece, from, #[trigger] squares[j]),
    }
}

/// Generating the destinations again from the same board and square gives
/// the same squares: any two lists of them hold the same set, and are of
/// the same length.
pub proof fn lemma_destinations_agree(
    board: Board,
    from: Square,
    first: Seq<Square>,
    second: Seq<Square>,
)
    requires
        lists_destinations(board, from, first),
        lists_destinations(board, from, second),
    ensures
        first.to_set() == second.to_set(),
        first.len() == second.len(),
{
    first.unique_seq_to_set();
    second.unique_seq_to_set();
}

/// Two lists that hold the same squares, each in the order of a rank, agree
/// on their first `count` squares.
proof fn lemma_ranked_alike(
    first: Seq<Square>,
    second: Seq<Square>,
    rank: spec_fn(Square) -> int,
    count: int,
)
    requires
        0 <= count <= first.len() == second.len(),
        forall|to: Square| first.contains(to) <==> second.contains(to),
        forall|i: int, j: int|
            0 <= i < j < first.len() ==> rank(#[trigger] first[i]) < rank(#[trigger] first[j]),
        forall|i: int, j: int|
            0 <= i < j < second.len() ==> rank(#[trigger] second[i]) < rank(#[trigger] second[j]),
    ensures
        forall|i: int| 0 <= i < count ==> first[i] == second[i],
    decreases count,
{
    if count > 0 {
        lemma_ranked_alike(first, second, rank, count - 1);
        let last = count - 1;
        // Each list holds the other's square at `last`, and not before it.
        assert(first.contains(first[last]));
        let there = choose|there: int| 0 <= there < second.len() && second[there] == first[last];
        assert(second.contains(second[last]));
        let here = choose|here: int| 0 <= here < first.len() && first[here] == second[last];
        if there < last {
            assert(rank(first[there]) < rank(first[last]));
        }
        if here < last {
            assert(rank(second[here]) < rank(second[last]));
        }
        // So neither square ranks below the other.
        if there > last {
            assert(rank(second[last]) < rank(second[there]));
        }
        if here > last {
            assert(rank(first[last]) < rank(first[here]));
        }
    }
}

/// Generating the destinations again from the same board and square gives
/// the same list: there is one list only that holds the destinations in the
/// order in which they are listed.
pub proof fn lemma_listing_is_unique(
    board: Board,
    from: Square,
    first: Seq<Square>,
    second: Seq<Square>,
)
    requires
        lists_destinations(board, from, first),
        lists_destinations(board, from, second),
        in_listing_order(board, from, first),
        in_listing_order(board, from, second),
    ensures
        first == second,
{
    lemma_destinations_agree(board, from, first, second);
    match board.cell(from) {
        Cell::Empty => {
            if first.len() > 0 {
                assert(first.contains(first[0]));
            }
        },
        Cell::Occupied(piece) => {
            lemma_ranked_alike(
                first,
                second,
                |to: Square| listing_rank(piece, from, to),
                first.len() as int,
            );
        },
    }
}

} // verus!
