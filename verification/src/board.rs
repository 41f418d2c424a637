//! Squares and the board they belong to.

use vstd::prelude::*;
use crate::piece::{Cell, Colour, Piece, PieceKind};

verus! {

/// The number of rows, and of columns, of the board.
pub const SIDE: usize = 8;

/// The row on which Black's pieces start.
pub const BLACK_NON_PAWN_ROW: usize = 0;

/// The row on which Black's pawns start.
pub const BLACK_PAWN_ROW: usize = 1;

/// The row on which White's pawns start.
pub const WHITE_PAWN_ROW: usize = 6;

/// The row on which White's pieces start.
pub const WHITE_NON_PAWN_ROW: usize = 7;

/// A square of the board.
///
/// Row 0 is the top rank as the board is drawn (rank 8), and column 0 is
/// file `a`.
#[derive(Copy, Clone, PartialEq, Eq, Debug, Structural)]
pub struct Square {
    pub row: usize,
    pub col: usize,
}

impl Square {
    /// Both coordinates lie on the board.
    pub open spec fn on_board(self) -> bool {
        self.row < SIDE && self.col < SIDE
    }

    /// Makes the square at `row` and `col`, if there is one.
    pub fn new(row: usize, col: usize) -> (sq: Option<Square>)
        ensures
            sq == if row < SIDE && col < SIDE {
                Some(Square { row, col })
            } else {
                None
            },
    {
        if row < SIDE && col < SIDE {
            Some(Square { row, col })
        } else {
            None
        }
    }
}

/// The board: eight rows of eight cells, the top row first.
#[derive(Copy, Clone, PartialEq, Eq, Debug)]
pub struct Board {
    pub cells: [[Cell; SIDE]; SIDE],
}

impl View for Board {
    type V = Seq<Seq<Cell>>;

    /// The rows of the board, each a sequence of its cells.
    open spec fn view(&self) -> Seq<Seq<Cell>> {
        Seq::new(SIDE as nat, |row: int| self.cells@[row]@)
    }
}

impl Board {
    /// The cell at `row` and `col`.
    pub open spec fn at(self, row: int, col: int) -> Cell {
        self@[row][col]
    }

    /// The cell on `square`.
    pub open spec fn cell(self, square: Square) -> Cell {
        self.at(square.row as int, square.col as int)
    }

    /// Looks up the cell on `square`.
    pub fn cell_at(&self, square: Square) -> (cell: Cell)
        requires
            square.on_board(),
        ensures
            cell == self.cell(square),
    {
        self.cells[square.row][square.col]
    }
}

/// A board is what its rows hold: two boards with the same view are the
/// same board.
pub proof fn lemma_board_is_its_view(one: Board, other: Board)
    requires
        one@ == other@,
    ensures
        one == other,
{
    assert forall|row: int| 0 <= row < SIDE implies one.cells[row] == other.cells[row] by {
        assert(one@[row] == other@[row]);
    }
    assert(one.cells =~= other.cells);
}

/// The grid `grid` with `cell` put on `square`.
pub open spec fn placed(grid: Seq<Seq<Cell>>, square: Square, cell: Cell) -> Seq<Seq<Cell>> {
    grid.update(square.row as int, grid[square.row as int].update(square.col as int, cell))
}

/// The kind of piece that starts on column `col` of a back row.
pub open spec fn back_row_kind(col: int) -> PieceKind {
    if col == 0 || col == 7 {
        PieceKind::Rook
    } else if col == 1 || col == 6 {
        PieceKind::Knight
    } else if col == 2 || col == 5 {
        PieceKind::Bishop
    } else if col == 3 {
        PieceKind::Queen
    } else {
        PieceKind::King
    }
}

/// What stands on `row` and `col` when a game starts: Black's pieces on the
/// top row and Black's pawns below them, White's pieces on the bottom row
/// and White's pawns above them.
pub open spec fn starting_cell(row: int, col: int) -> Cell {
    if row == BLACK_NON_PAWN_ROW {
        Cell::Occupied(Piece { kind: back_row_kind(col), colour: Colour::Black })
    } else if row == BLACK_PAWN_ROW {
        Cell::Occupied(Piece { kind: PieceKind::Pawn, colour: Colour::Black })
    } else if row == WHITE_PAWN_ROW {
        Cell::Occupied(Piece { kind: PieceKind::Pawn, colour: Colour::White })
    } else if row == WHITE_NON_PAWN_ROW {
        Cell::Occupied(Piece { kind: back_row_kind(col), colour: Colour::White })
    } else {
        Cell::Empty
    }
}

/// The grid at the start of a game.
pub open spec fn starting_position() -> Seq<Seq<Cell>> {
    Seq::new(SIDE as nat, |row: int| Seq::new(SIDE as nat, |col: int| starting_cell(row, col)))
}

/// Returns the kind of piece that starts on column `col` of a back row.
pub fn back_row_piece(col: usize) -> (kind: PieceKind)
    requires
        col < SIDE,
    ensures
        kind == back_row_kind(col as int),
{
    if col == 0 || col == 7 {
        PieceKind::Rook
    } else if col == 1 || col == 6 {
        PieceKind::Knight
    } else if col == 2 || col == 5 {
        PieceKind::Bishop
    } else if col == 3 {
        PieceKind::Queen
    } else {
        PieceKind::King
    }
}

/// Sets up the board for the start of a game.
pub fn new_chessboard() -> (board: Board)
    ensures
        board@ == starting_position(),
{
    let mut cells = [[Cell::Empty; SIDE]; SIDE];
    let mut col: usize = 0;
    while col < SIDE
        invariant
            col <= SIDE,
            forall|r: int, c: int|
                0 <= r < SIDE && 0 <= c < SIDE ==> #[trigger] cells@[r]@[c] == if c < col {
                    starting_cell(r, c)
                } else {
                    Cell::Empty
                },
        decreases SIDE - col,
    {
        let kind = back_row_piece(col);
        let black_pawn = Piece { kind: PieceKind::Pawn, colour: Colour::Black };
        let white_pawn = Piece { kind: PieceKind::Pawn, colour: Colour::White };
        cells[BLACK_NON_PAWN_ROW][col] = Cell::Occupied(Piece { kind, colour: Colour::Black });
        cells[BLACK_PAWN_ROW][col] = Cell::Occupied(black_pawn);
        cells[WHITE_PAWN_ROW][col] = Cell::Occupied(white_pawn);
        cells[WHITE_NON_PAWN_ROW][col] = Cell::Occupied(Piece { kind, colour: Colour::White });
        col = col + 1;
    }
    let board = Board { cells };
    assert(board@ =~~= starting_position());
    board
}

/// Moves whatever stands on `src` to `dest` and leaves `src` empty.
///
/// Nothing is checked: an empty `src` empties `dest`, and a piece on `dest`
/// is lost.
pub fn move_piece(board: Board, src: Square, dest: Square) -> (moved: Board)
    requires
        src.on_board(),
        dest.on_board(),
    ensures
        moved@ == placed(placed(board@, dest, board.cell(src)), src, Cell::Empty),
{
    let mut moved = board;
    let src_piece = moved.cells[src.row][src.col];
    moved.cells[dest.row][dest.col] = src_piece;
    moved.cells[src.row][src.col] = Cell::Empty;
    moved
}

} // verus!
