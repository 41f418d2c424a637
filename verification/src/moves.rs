//! Finding the squares a piece can move to.
//!
//! [`get_legal_squares`] walks away from the origin along the lines of the
//! piece that stands there, and is proved to list exactly the squares that
//! the rules allow, line by line.

use vstd::prelude::*;
use crate::board::{Board, Square, BLACK_PAWN_ROW, SIDE, WHITE_PAWN_ROW};
use crate::piece::{Cell, Colour, Piece, PieceKind};
use crate::rays::{
    extends_with, lemma_advance_step, lemma_advance_unit, lemma_extends_with_both,
    lemma_extends_with_from_empty, lemma_extends_with_nothing, lemma_extends_with_same,
    lemma_ray_of, on_grid, walk_rays, Landing, Stride, Walk,
};
use crate::rules::{
    distance, forward, gap, in_listing_order, is_destination, king_step, knight_jump,
    leaper_rule, line_index, listing_rank, lists_destinations, path_clear, pawn_destination,
    pawn_diagonal, pawn_double_step, pawn_home_row, pawn_rule, pawn_single_step, slider_rule,
    slides_diagonally, slides_straight, toward,
};

verus! {

/// Which way `to` lies from `from` along one axis: 1, -1, or 0 where the
/// two are level.
spec fn direction(from: int, to: int) -> int {
    if from < to {
        1
    } else if from > to {
        -1
    } else {
        0
    }
}

/// `to` lies on the line that leaves the square of `walk` with `stride`, the
/// squares between the two are empty, and the piece may stop on `to`.
spec fn slides_along(walk: Walk, board: Board, stride: Stride, to: Square) -> bool {
    let rows = gap(walk.from.row as int, to.row as int);
    let cols = gap(walk.from.col as int, to.col as int);
    &&& to.on_board()
    &&& direction(walk.from.row as int, to.row as int) == stride.0
    &&& direction(walk.from.col as int, to.col as int) == stride.1
    &&& (rows == 0 || cols == 0 || rows == cols)
    &&& path_clear(board, walk.from, to)
    &&& walk.rule.admits(board.cell(to), walk.mover)
}

/// `to` is the square `times` strides away from the square of `walk`, and
/// the piece may stop there.
spec fn hops_to(walk: Walk, board: Board, stride: Stride, times: int, to: Square) -> bool {
    &&& to.on_board()
    &&& to.row == walk.from.row + times * stride.0
    &&& to.col == walk.from.col + times * stride.1
    &&& walk.rule.admits(board.cell(to), walk.mover)
}

/// The square one stride away from the square of `walk` is on the board and
/// empty.
spec fn first_hop_open(walk: Walk, board: Board, stride: Stride) -> bool {
    let row = walk.from.row + stride.0;
    let col = walk.from.col + stride.1;
    on_grid(row, col) && board.at(row, col) is Empty
}

/// `stride` is a single square in one of the eight directions.
spec fn unit(stride: Stride) -> bool {
    -1 <= stride.0 <= 1 && -1 <= stride.1 <= 1 && (stride.0 != 0 || stride.1 != 0)
}

/// No two of the `strides` are the same.
spec fn differ(strides: Seq<Stride>) -> bool {
    forall|i: int, j: int|
        0 <= i < j < strides.len() ==> #[trigger] strides[i] != #[trigger] strides[j]
}

/// Each of the `strides` is a single square in one of the eight directions,
/// and no two of them are the same.
spec fn compass(strides: Seq<Stride>) -> bool {
    &&& forall|i: int| 0 <= i < strides.len() ==> unit(#[trigger] strides[i])
    &&& differ(strides)
}

/// A walk of single squares that may cross the whole board reaches the
/// squares on its line up to the first piece.
proof fn lemma_slide(walk: Walk, board: Board, stride: Stride, to: Square)
    requires
        walk.from.on_board(),
        walk.reach == SIDE - 1,
        unit(stride),
    ensures
        walk.reaches(board, stride, to) <==> slides_along(walk, board, stride, to),
{
    let from = walk.from;
    if walk.reaches(board, stride, to) {
        // `to` is step `k` of the walk: it lies `k` squares away on the
        // line, and the steps before it are the squares between.
        let k = choose|k: int|
            1 <= k <= walk.reach && #[trigger] walk.lands(board, stride, k, to)
                && walk.clear_before(board, stride, k);
        lemma_advance_unit(from.row as int, stride.0 as int, k);
        lemma_advance_unit(from.col as int, stride.1 as int, k);
        assert forall|steps: int| 1 <= steps < distance(from, to) implies #[trigger] board.at(
            toward(from.row as int, to.row as int, steps),
            toward(from.col as int, to.col as int, steps),
        ) is Empty by {
            lemma_advance_unit(from.row as int, stride.0 as int, steps);
            lemma_advance_unit(from.col as int, stride.1 as int, steps);
            assert(walk.open(board, stride, steps));
        }
    }
    if slides_along(walk, board, stride, to) {
        // `to` lies on the line, so the walk comes to it with as many steps
        // as the two squares are apart, over the squares between.
        let k = distance(from, to);
        lemma_advance_unit(from.row as int, stride.0 as int, k);
        lemma_advance_unit(from.col as int, stride.1 as int, k);
        assert(walk.lands(board, stride, k, to));
        assert forall|j: int| 1 <= j < k implies #[trigger] walk.open(board, stride, j) by {
            lemma_advance_unit(from.row as int, stride.0 as int, j);
            lemma_advance_unit(from.col as int, stride.1 as int, j);
            assert(board.at(
                toward(from.row as int, to.row as int, j),
                toward(from.col as int, to.col as int, j),
            ) is Empty);
        }
    }
}

/// A walk of one step reaches the square one stride away. A walk of two
/// steps reaches that square too, and the square two strides away where the
/// first is empty.
proof fn lemma_hop(walk: Walk, board: Board, stride: Stride, to: Square)
    requires
        walk.reach == 1 || walk.reach == 2,
    ensures
        walk.reaches(board, stride, to) <==> {
            ||| hops_to(walk, board, stride, 1, to)
            ||| walk.reach == 2 && hops_to(walk, board, stride, 2, to) && first_hop_open(
                walk,
                board,
                stride,
            )
        },
{
    let from = walk.from;
    lemma_advance_step(from.row as int, stride.0 as int, 0);
    lemma_advance_step(from.col as int, stride.1 as int, 0);
    lemma_advance_step(from.row as int, stride.0 as int, 1);
    lemma_advance_step(from.col as int, stride.1 as int, 1);
    if walk.reaches(board, stride, to) {
        let k = choose|k: int|
            1 <= k <= walk.reach && #[trigger] walk.lands(board, stride, k, to)
                && walk.clear_before(board, stride, k);
        if k == 2 {
            assert(walk.open(board, stride, 1));
        }
    }
    if hops_to(walk, board, stride, 1, to) {
        assert(walk.lands(board, stride, 1, to));
    } else if walk.reach == 2 && hops_to(walk, board, stride, 2, to) && first_hop_open(
        walk,
        board,
        stride,
    ) {
        assert(walk.lands(board, stride, 2, to));
    }
}

/// Walks of single squares in different directions share no square.
proof fn lemma_slides_apart(walk: Walk, board: Board, strides: Seq<Stride>)
    requires
        walk.from.on_board(),
        walk.reach == SIDE - 1,
        compass(strides),
    ensures
        walk.apart(board, strides),
{
    assert forall|i: int, j: int, to: Square|
        #![trigger walk.nth_reaches(board, strides, i, to), walk.nth_reaches(board, strides, j, to)]
        0 <= i < j < strides.len() implies !(walk.nth_reaches(board, strides, i, to)
        && walk.nth_reaches(board, strides, j, to)) by {
        lemma_slide(walk, board, strides[i], to);
        lemma_slide(walk, board, strides[j], to);
    }
}

/// Walks of one step with different strides share no square.
proof fn lemma_hops_apart(walk: Walk, board: Board, strides: Seq<Stride>)
    requires
        walk.reach == 1,
        differ(strides),
    ensures
        walk.apart(board, strides),
{
    assert forall|i: int, j: int, to: Square|
        #![trigger walk.nth_reaches(board, strides, i, to), walk.nth_reaches(board, strides, j, to)]
        0 <= i < j < strides.len() implies !(walk.nth_reaches(board, strides, i, to)
        && walk.nth_reaches(board, strides, j, to)) by {
        lemma_hop(walk, board, strides[i], to);
        lemma_hop(walk, board, strides[j], to);
    }
}

/// Each walk of single squares across the board reaches the squares on its
/// line up to the first piece.
proof fn lemma_slides(walk: Walk, board: Board, strides: Seq<Stride>, to: Square)
    requires
        walk.from.on_board(),
        walk.reach == SIDE - 1,
        compass(strides),
    ensures
        forall|i: int|
            0 <= i < strides.len() ==> (#[trigger] walk.nth_reaches(board, strides, i, to)
                <==> slides_along(walk, board, strides[i], to)),
{
    assert forall|i: int| 0 <= i < strides.len() implies (#[trigger] walk.nth_reaches(
        board,
        strides,
        i,
        to,
    ) <==> slides_along(walk, board, strides[i], to)) by {
        lemma_slide(walk, board, strides[i], to);
    }
}

/// Each walk of one step reaches the square one stride away.
proof fn lemma_hops(walk: Walk, board: Board, strides: Seq<Stride>, to: Square)
    requires
        walk.reach == 1,
    ensures
        forall|i: int|
            0 <= i < strides.len() ==> (#[trigger] walk.nth_reaches(board, strides, i, to)
                <==> hops_to(walk, board, strides[i], 1, to)),
{
    assert forall|i: int| 0 <= i < strides.len() implies (#[trigger] walk.nth_reaches(
        board,
        strides,
        i,
        to,
    ) <==> hops_to(walk, board, strides[i], 1, to)) by {
        lemma_hop(walk, board, strides[i], to);
    }
}

/// Appends to `found` the squares that the rook or queen `piece` on `from`
/// reaches by sliding along its rank and its file.
fn slide_straight(board: &Board, from: Square, piece: Piece, found: &mut Vec<Square>)
    requires
        from.on_board(),
        piece.kind is Rook || piece.kind is Queen,
    ensures
        extends_with(
            old(found)@,
            final(found)@,
            |to: Square| to.on_board() && slides_straight(*board, from, piece.colour, to),
            |to: Square| listing_rank(piece, from, to),
        ),
{
    let ghost before = found@;
    let walk = Walk { from, mover: piece.colour, reach: SIDE - 1, rule: Landing::MoveOrCapture };
    let strides: [Stride; 4] = [(0, 1), (0, -1), (1, 0), (-1, 0)];
    proof {
        lemma_slides_apart(walk, *board, strides@);
    }
    walk_rays(board, walk, strides.as_slice(), found);
    proof {
        let reached = |to: Square| walk.any_reaches(*board, strides@, 4, to);
        let place = |to: Square| walk.place(*board, strides@, to);
        let wanted = |to: Square| to.on_board() && slides_straight(*board, from, piece.colour, to);
        let rank = |to: Square| listing_rank(piece, from, to);
        assert forall|to: Square| #[trigger] reached(to) <==> #[trigger] wanted(to) by {
            lemma_slides(walk, *board, strides@, to);
            if wanted(to) {
                assert(walk.nth_reaches(*board, strides@, line_index(piece, from, to), to));
            }
        }
        assert forall|to: Square| reached(to) implies #[trigger] place(to) == rank(to) by {
            lemma_slides(walk, *board, strides@, to);
            lemma_ray_of(walk, *board, strides@, line_index(piece, from, to), to);
        }
        lemma_extends_with_same(before, found@, reached, place, wanted, rank);
    }
}

/// Appends to `found` the squares that the bishop or queen `piece` on `from`
/// reaches by sliding along its diagonals.
fn slide_diagonally(board: &Board, from: Square, piece: Piece, found: &mut Vec<Square>)
    requires
        from.on_board(),
        piece.kind is Bishop || piece.kind is Queen,
    ensures
        extends_with(
            old(found)@,
            final(found)@,
            |to: Square| to.on_board() && slides_diagonally(*board, from, piece.colour, to),
            |to: Square| listing_rank(piece, from, to),
        ),
{
    let ghost before = found@;
    let walk = Walk { from, mover: piece.colour, reach: SIDE - 1, rule: Landing::MoveOrCapture };
    let strides: [Stride; 4] = [(-1, 1), (1, -1), (-1, -1), (1, 1)];
    proof {
        lemma_slides_apart(walk, *board, strides@);
    }
    walk_rays(board, walk, strides.as_slice(), found);
    proof {
        let reached = |to: Square| walk.any_reaches(*board, strides@, 4, to);
        let place = |to: Square| walk.place(*board, strides@, to);
        let wanted = |to: Square|
            to.on_board() && slides_diagonally(*board, from, piece.colour, to);
        let rank = |to: Square| listing_rank(piece, from, to);
        // A queen has the four lines of a rook before these.
        let lines_before: int = if piece.kind is Queen {
            4
        } else {
            0
        };
        assert forall|to: Square| #[trigger] reached(to) <==> #[trigger] wanted(to) by {
            lemma_slides(walk, *board, strides@, to);
            if wanted(to) {
                assert(walk.nth_reaches(
                    *board,
                    strides@,
                    line_index(piece, from, to) - lines_before,
                    to,
                ));
            }
        }
        assert forall|to: Square| reached(to) implies #[trigger] place(to) + lines_before * SIDE
            == rank(to) by {
            lemma_slides(walk, *board, strides@, to);
            lemma_ray_of(walk, *board, strides@, line_index(piece, from, to) - lines_before, to);
        }
        lemma_extends_with_same(before, found@, reached, place, wanted, rank);
    }
}

/// Appends to `found` the squares that the queen `piece` on `from` reaches:
/// those of a rook, then those of a bishop.
fn slide_any_way(board: &Board, from: Square, piece: Piece, found: &mut Vec<Square>)
    requires
        from.on_board(),
        piece.kind is Queen,
    ensures
        extends_with(
            old(found)@,
            final(found)@,
            |to: Square|
                to.on_board() && (slides_straight(*board, from, piece.colour, to)
                    || slides_diagonally(*board, from, piece.colour, to)),
            |to: Square| listing_rank(piece, from, to),
        ),
{
    let ghost before = found@;
    slide_straight(board, from, piece, found);
    let ghost between = found@;
    slide_diagonally(board, from, piece, found);
    proof {
        lemma_extends_with_both(
            before,
            between,
            found@,
            |to: Square| to.on_board() && slides_straight(*board, from, piece.colour, to),
            |to: Square| to.on_board() && slides_diagonally(*board, from, piece.colour, to),
            |to: Square|
                to.on_board() && (slides_straight(*board, from, piece.colour, to)
                    || slides_diagonally(*board, from, piece.colour, to)),
            |to: Square| listing_rank(piece, from, to),
        );
    }
}

/// Appends to `found` the squares that the knight `piece` on `from` reaches.
fn jump_as_knight(board: &Board, from: Square, piece: Piece, found: &mut Vec<Square>)
    requires
        from.on_board(),
        piece.kind is Knight,
    ensures
        extends_with(
            old(found)@,
            final(found)@,
            |to: Square|
                to.on_board() && knight_jump(from, to) && !board.cell(to).holds(piece.colour),
            |to: Square| listing_rank(piece, from, to),
        ),
{
    let ghost before = found@;
    let walk = Walk { from, mover: piece.colour, reach: 1, rule: Landing::MoveOrCapture };
    let strides: [Stride; 8] = [
        (-2, -1),
        (-2, 1),
        (-1, 2),
        (1, 2),
        (2, 1),
        (2, -1),
        (1, -2),
        (-1, -2),
    ];
    proof {
        lemma_hops_apart(walk, *board, strides@);
    }
    walk_rays(board, walk, strides.as_slice(), found);
    proof {
        let reached = |to: Square| walk.any_reaches(*board, strides@, 8, to);
        let place = |to: Square| walk.place(*board, strides@, to);
        let wanted = |to: Square|
            to.on_board() && knight_jump(from, to) && !board.cell(to).holds(piece.colour);
        let rank = |to: Square| listing_rank(piece, from, to);
        assert forall|to: Square| #[trigger] reached(to) <==> #[trigger] wanted(to) by {
            lemma_hops(walk, *board, strides@, to);
            if wanted(to) {
                assert(walk.nth_reaches(*board, strides@, line_index(piece, from, to), to));
            }
        }
        assert forall|to: Square| reached(to) implies #[trigger] place(to) == rank(to) by {
            lemma_hops(walk, *board, strides@, to);
            lemma_ray_of(walk, *board, strides@, line_index(piece, from, to), to);
        }
        lemma_extends_with_same(before, found@, reached, place, wanted, rank);
    }
}

/// Appends to `found` the squares that the king `piece` on `from` reaches.
fn step_as_king(board: &Board, from: Square, piece: Piece, found: &mut Vec<Square>)
    requires
        from.on_board(),
        piece.kind is King,
    ensures
        extends_with(
            old(found)@,
            final(found)@,
            |to: Square|
                to.on_board() && king_step(from, to) && !board.cell(to).holds(piece.colour),
            |to: Square| listing_rank(piece, from, to),
        ),
{
    let ghost before = found@;
    let walk = Walk { from, mover: piece.colour, reach: 1, rule: Landing::MoveOrCapture };
    let strides: [Stride; 8] = [
        (-1, 0),
        (-1, 1),
        (0, 1),
        (1, 1),
        (1, 0),
        (1, -1),
        (0, -1),
        (-1, -1),
    ];
    proof {
        lemma_hops_apart(walk, *board, strides@);
    }
    walk_rays(board, walk, strides.as_slice(), found);
    proof {
        let reached = |to: Square| walk.any_reaches(*board, strides@, 8, to);
        let place = |to: Square| walk.place(*board, strides@, to);
        let wanted = |to: Square|
            to.on_board() && king_step(from, to) && !board.cell(to).holds(piece.colour);
        let rank = |to: Square| listing_rank(piece, from, to);
        assert forall|to: Square| #[trigger] reached(to) <==> #[trigger] wanted(to) by {
            lemma_hops(walk, *board, strides@, to);
            if wanted(to) {
                assert(walk.nth_reaches(*board, strides@, line_index(piece, from, to), to));
            }
        }
        assert forall|to: Square| reached(to) implies #[trigger] place(to) == rank(to) by {
            lemma_hops(walk, *board, strides@, to);
            lemma_ray_of(walk, *board, strides@, line_index(piece, from, to), to);
        }
        lemma_extends_with_same(before, found@, reached, place, wanted, rank);
    }
}

/// Appends to `found` the squares that the pawn `piece` on `from` reaches:
/// those straight ahead, then those it captures on.
fn advance_as_pawn(board: &Board, from: Square, piece: Piece, found: &mut Vec<Square>)
    requires
        from.on_board(),
        piece.kind is Pawn,
    ensures
        extends_with(
            old(found)@,
            final(found)@,
            |to: Square| to.on_board() && pawn_destination(*board, from, piece.colour, to),
            |to: Square| listing_rank(piece, from, to),
        ),
{
    let ghost before = found@;
    let mover = piece.colour;
    let ahead: isize = match mover {
        Colour::White => -1,
        Colour::Black => 1,
    };
    let home: usize = match mover {
        Colour::White => WHITE_PAWN_ROW,
        Colour::Black => BLACK_PAWN_ROW,
    };
    let reach: usize = if from.row == home {
        2
    } else {
        1
    };
    let advance = Walk { from, mover, reach, rule: Landing::MoveOnly };
    let capture = Walk { from, mover, reach: 1, rule: Landing::CaptureOnly };
    let straight: [Stride; 1] = [(ahead, 0)];
    let sideways: [Stride; 2] = [(ahead, -1), (ahead, 1)];
    let ghost rank = |to: Square| listing_rank(piece, from, to);
    proof {
        lemma_hops_apart(capture, *board, sideways@);
    }
    walk_rays(board, advance, straight.as_slice(), found);
    let ghost between = found@;
    proof {
        let advances = |to: Square| advance.any_reaches(*board, straight@, 1, to);
        let place = |to: Square| advance.place(*board, straight@, to);
        assert forall|to: Square| advances(to) implies #[trigger] place(to) == rank(to) by {
            lemma_hop(advance, *board, straight@[0], to);
            lemma_ray_of(advance, *board, straight@, 0, to);
        }
        lemma_extends_with_same(before, between, advances, place, advances, rank);
    }
    walk_rays(board, capture, sideways.as_slice(), found);
    proof {
        let advances = |to: Square| advance.any_reaches(*board, straight@, 1, to);
        let captures = |to: Square| capture.any_reaches(*board, sideways@, 2, to);
        let place = |to: Square| capture.place(*board, sideways@, to);
        let wanted = |to: Square| to.on_board() && pawn_destination(*board, from, mover, to);
        assert forall|to: Square| #[trigger] advances(to) <==> to.on_board() && {
            ||| pawn_single_step(from, mover, to) && board.cell(to) is Empty
            ||| {
                &&& pawn_double_step(from, mover, to)
                &&& from.row == pawn_home_row(mover)
                &&& board.at(from.row + forward(mover), from.col as int) is Empty
                &&& board.cell(to) is Empty
            }
        } by {
            lemma_hop(advance, *board, straight@[0], to);
            assert(advance.nth_reaches(*board, straight@, 0, to) == advance.reaches(
                *board,
                straight@[0],
                to,
            ));
        }
        assert forall|to: Square| #[trigger] captures(to) <==> to.on_board() && pawn_diagonal(
            from,
            mover,
            to,
        ) && board.cell(to).holds(mover.opponent()) by {
            lemma_hops(capture, *board, sideways@, to);
            if pawn_diagonal(from, mover, to) {
                assert(capture.nth_reaches(*board, sideways@, line_index(piece, from, to) - 1, to)
                    == capture.reaches(
                    *board,
                    sideways@[line_index(piece, from, to) - 1],
                    to,
                ));
            }
        }
        // The line ahead comes before the two on which the pawn captures.
        assert forall|to: Square| captures(to) implies #[trigger] place(to) + SIDE == rank(to) by {
            lemma_hops(capture, *board, sideways@, to);
            lemma_ray_of(capture, *board, sideways@, line_index(piece, from, to) - 1, to);
        }
        lemma_extends_with_same(between, found@, captures, place, captures, rank);
        lemma_extends_with_both(before, between, found@, advances, captures, wanted, rank);
    }
}

/// Lists the squares that the piece on `src_square` can move to.
///
/// The list is empty where `src_square` is empty. It holds each destination
/// once. The destinations come line by line, in the order of the lines of
/// the piece, and along a line the nearest comes first.
pub fn get_legal_squares(board: Board, src_square: Square) -> (legal_squares: Vec<Square>)
    requires
        src_square.on_board(),
    ensures
        lists_destinations(board, src_square, legal_squares@),
        in_listing_order(board, src_square, legal_squares@),
        board.cell(src_square) is Empty ==> legal_squares@.len() == 0,
        forall|i: int| 0 <= i < legal_squares@.len() ==> (#[trigger] legal_squares@[i]).on_board(),
        forall|i: int|
            0 <= i < legal_squares@.len() ==> slider_rule(
                board,
                src_square,
                #[trigger] legal_squares@[i],
            ),
        forall|i: int|
            0 <= i < legal_squares@.len() ==> leaper_rule(
                board,
                src_square,
                #[trigger] legal_squares@[i],
            ),
        forall|i: int|
            0 <= i < legal_squares@.len() ==> pawn_rule(
                board,
                src_square,
                #[trigger] legal_squares@[i],
            ),
{
    let mut legal_squares: Vec<Square> = Vec::new();
    let ghost none = legal_squares@;
    let ghost wanted = |to: Square| is_destination(board, src_square, to);
    match board.cell_at(src_square) {
        Cell::Empty => {
            proof {
                let rank = |to: Square| 0int;
                lemma_extends_with_nothing(none, wanted, rank);
                lemma_extends_with_from_empty(legal_squares@, wanted, rank);
            }
        },
        Cell::Occupied(piece) => {
            let mover = piece.colour;
            let ghost rank = |to: Square| listing_rank(piece, src_square, to);
            match piece.kind {
                PieceKind::Pawn => {
                    advance_as_pawn(&board, src_square, piece, &mut legal_squares);
                    proof {
                        lemma_extends_with_same(
                            none,
                            legal_squares@,
                            |to: Square|
                                to.on_board() && pawn_destination(board, src_square, mover, to),
                            rank,
                            wanted,
                            rank,
                        );
                    }
                },
                PieceKind::Rook => {
                    slide_straight(&board, src_square, piece, &mut legal_squares);
                    proof {
                        lemma_extends_with_same(
                            none,
                            legal_squares@,
                            |to: Square|
                                to.on_board() && slides_straight(board, src_square, mover, to),
                            rank,
                            wanted,
                            rank,
                        );
                    }
                },
                PieceKind::Knight => {
                    jump_as_knight(&board, src_square, piece, &mut legal_squares);
                    proof {
                        lemma_extends_with_same(
                            none,
                            legal_squares@,
                            |to: Square|
                                to.on_board() && knight_jump(src_square, to) && !board.cell(
                                    to,
                                ).holds(mover),
                            rank,
                            wanted,
                            rank,
                        );
                    }
                },
                PieceKind::Bishop => {
                    slide_diagonally(&board, src_square, piece, &mut legal_squares);
                    proof {
                        lemma_extends_with_same(
                            none,
                            legal_squares@,
                            |to: Square|
                                to.on_board() && slides_diagonally(board, src_square, mover, to),
                            rank,
                            wanted,
                            rank,
                        );
                    }
                },
                PieceKind::Queen => {
                    slide_any_way(&board, src_square, piece, &mut legal_squares);
                    proof {
                        lemma_extends_with_same(
                            none,
                            legal_squares@,
                            |to: Square|
                                to.on_board() && (slides_straight(board, src_square, mover, to)
                                    || slides_diagonally(board, src_square, mover, to)),
                            rank,
                            wanted,
                            rank,
                        );
                    }
                },
                PieceKind::King => {
                    step_as_king(&board, src_square, piece, &mut legal_squares);
                    proof {
                        lemma_extends_with_same(
                            none,
                            legal_squares@,
                            |to: Square|
                                to.on_board() && king_step(src_square, to) && !board.cell(
                                    to,
                                ).holds(mover),
                            rank,
                            wanted,
                            rank,
                        );
                    }
                },
            }
            proof {
                lemma_extends_with_from_empty(legal_squares@, wanted, rank);
            }
        },
    }
    proof {
        assert forall|to: Square|
            legal_squares@.contains(to) <==> is_destination(board, src_square, to) by {
            assert(wanted(to) == is_destination(board, src_square, to));
        }
        assert forall|i: int| 0 <= i < legal_squares@.len() implies is_destination(
            board,
            src_square,
            #[trigger] legal_squares@[i],
        ) by {
            assert(legal_squares@.contains(legal_squares@[i]));
        }
    }
    legal_squares
}

} // verus!
