//! Walking away from a square, one stride at a time.
//!
//! Every piece moves by the same primitive: start on a square, repeat a
//! fixed stride up to a number of steps, and look at the cell reached by each
//! step. The walk passes over empty squares and ends at the first piece or at
//! the edge of the board. A [`Landing`] rule says on which of the squares
//! reached the piece may stop.

use vstd::prelude::*;
use crate::board::{Board, Square, SIDE};
use crate::piece::{Cell, Colour};
use crate::rules::{distance, gap};

verus! {

/// On which of the squares that a walk reaches the piece may stop.
#[derive(Copy, Clone, PartialEq, Eq, Debug, Structural)]
pub(crate) enum Landing {
    /// On an empty square or on an enemy piece.
    MoveOrCapture,
    /// On an empty square only.
    MoveOnly,
    /// On an enemy piece only.
    CaptureOnly,
}

impl Landing {
    /// The rule lets a piece of side `mover` stop on `cell`.
    pub(crate) open spec fn admits(self, cell: Cell, mover: Colour) -> bool {
        match self {
            Landing::MoveOrCapture => !cell.holds(mover),
            Landing::MoveOnly => cell is Empty,
            Landing::CaptureOnly => cell.holds(mover.opponent()),
        }
    }

    /// Returns whether the rule lets a piece of side `mover` stop on `cell`.
    pub(crate) fn allows(&self, cell: Cell, mover: Colour) -> (b: bool)
        ensures
            b == self.admits(cell, mover),
    {
        match cell {
            Cell::Empty => match self {
                Landing::CaptureOnly => false,
                _ => true,
            },
            Cell::Occupied(piece) => match self {
                Landing::MoveOnly => false,
                _ => piece.colour != mover,
            },
        }
    }
}

/// The change of row and of column that one step of a walk makes.
pub(crate) type Stride = (isize, isize);

/// `stride` moves, by at most two squares along either axis.
pub(crate) open spec fn walkable(stride: Stride) -> bool {
    -2 <= stride.0 <= 2 && -2 <= stride.1 <= 2 && (stride.0 != 0 || stride.1 != 0)
}

/// The row and the column lie on the board.
pub(crate) open spec fn on_grid(row: int, col: int) -> bool {
    0 <= row < SIDE && 0 <= col < SIDE
}

/// The coordinate reached from `start` by `steps` steps of `stride` each.
pub(crate) open spec fn advance(start: int, stride: int, steps: int) -> int {
    start + steps * stride
}

/// The walks that a piece makes from its square: who walks from where, for
/// how many steps at most, and where the piece may stop.
#[derive(Copy, Clone, Debug)]
pub(crate) struct Walk {
    pub(crate) from: Square,
    pub(crate) mover: Colour,
    pub(crate) reach: usize,
    pub(crate) rule: Landing,
}

impl Walk {
    /// Step `k` of the walk with `stride` is on the board and empty.
    pub(crate) open spec fn open(self, board: Board, stride: Stride, k: int) -> bool {
        let row = advance(self.from.row as int, stride.0 as int, k);
        let col = advance(self.from.col as int, stride.1 as int, k);
        on_grid(row, col) && board.at(row, col) is Empty
    }

    /// Every step of the walk with `stride` before step `k` is on the board
    /// and empty.
    pub(crate) open spec fn clear_before(self, board: Board, stride: Stride, k: int) -> bool {
        forall|j: int| 1 <= j < k ==> #[trigger] self.open(board, stride, j)
    }

    /// `to` is step `k` of the walk with `stride`, and the piece may stop
    /// there.
    pub(crate) open spec fn lands(self, board: Board, stride: Stride, k: int, to: Square) -> bool {
        &&& to.on_board()
        &&& to.row == advance(self.from.row as int, stride.0 as int, k)
        &&& to.col == advance(self.from.col as int, stride.1 as int, k)
        &&& self.rule.admits(board.cell(to), self.mover)
    }

    /// `to` is one of the first `k` steps of the walk with `stride`, and the
    /// piece may stop there.
    pub(crate) open spec fn lands_within(self, board: Board, stride: Stride, k: int, to: Square) -> bool {
        exists|j: int| 1 <= j <= k && #[trigger] self.lands(board, stride, j, to)
    }

    /// The walk with `stride` reaches `to` over empty squares within its
    /// reach, and the piece may stop there.
    pub(crate) open spec fn reaches(self, board: Board, stride: Stride, to: Square) -> bool {
        exists|k: int|
            1 <= k <= self.reach && #[trigger] self.lands(board, stride, k, to)
                && self.clear_before(board, stride, k)
    }

    /// The walk with the `i`-th of `strides` reaches `to`.
    pub(crate) open spec fn nth_reaches(
        self,
        board: Board,
        strides: Seq<Stride>,
        i: int,
        to: Square,
    ) -> bool {
        self.reaches(board, strides[i], to)
    }

    /// The walk with one of the first `count` of `strides` reaches `to`.
    pub(crate) open spec fn any_reaches(
        self,
        board: Board,
        strides: Seq<Stride>,
        count: int,
        to: Square,
    ) -> bool {
        exists|i: int| 0 <= i < count && #[trigger] self.nth_reaches(board, strides, i, to)
    }

    /// No square is reached by the walks with two of the `strides`.
    pub(crate) open spec fn apart(self, board: Board, strides: Seq<Stride>) -> bool {
        forall|i: int, j: int, to: Square|
            0 <= i < j < strides.len() ==> !(#[trigger] self.nth_reaches(board, strides, i, to)
                && #[trigger] self.nth_reaches(board, strides, j, to))
    }

    /// Which of `strides` it is whose walk reaches `to`.
    pub(crate) open spec fn ray_of(self, board: Board, strides: Seq<Stride>, to: Square) -> int {
        choose|i: int| 0 <= i < strides.len() && #[trigger] self.nth_reaches(board, strides, i, to)
    }

    /// The place of `to` among the squares that the walks with `strides`
    /// reach: those of an earlier stride come first, and of two squares of
    /// one stride the nearer.
    pub(crate) open spec fn place(self, board: Board, strides: Seq<Stride>, to: Square) -> int {
        self.ray_of(board, strides, to) * SIDE + distance(self.from, to)
    }
}

/// `after` is `before` followed by the squares that satisfy `wanted`, in the
/// order of their `rank`.
pub(crate) open spec fn extends_with(
    before: Seq<Square>,
    after: Seq<Square>,
    wanted: spec_fn(Square) -> bool,
    rank: spec_fn(Square) -> int,
) -> bool {
    &&& before.len() <= after.len()
    &&& forall|i: int| 0 <= i < before.len() ==> #[trigger] after[i] == before[i]
    &&& forall|i: int| before.len() <= i < after.len() ==> wanted(#[trigger] after[i])
    &&& forall|i: int, j: int|
        before.len() <= i < j < after.len() ==> rank(#[trigger] after[i]) < rank(
            #[trigger] after[j],
        )
    &&& forall|to: Square| #[trigger]
        wanted(to) ==> exists|i: int| before.len() <= i < after.len() && #[trigger] after[i] == to
}

/// Where nothing is wanted, the list stays as it is.
pub(crate) proof fn lemma_extends_with_nothing(
    list: Seq<Square>,
    wanted: spec_fn(Square) -> bool,
    rank: spec_fn(Square) -> int,
)
    requires
        forall|to: Square| !#[trigger] wanted(to),
    ensures
        extends_with(list, list, wanted, rank),
{
}

/// A predicate that holds of the same squares, with a rank that orders them
/// alike, extends a list alike.
pub(crate) proof fn lemma_extends_with_same(
    before: Seq<Square>,
    after: Seq<Square>,
    wanted: spec_fn(Square) -> bool,
    rank: spec_fn(Square) -> int,
    same: spec_fn(Square) -> bool,
    alike: spec_fn(Square) -> int,
)
    requires
        extends_with(before, after, wanted, rank),
        forall|to: Square| #[trigger] wanted(to) <==> #[trigger] same(to),
        forall|one: Square, other: Square|
            wanted(one) && wanted(other) && rank(one) < rank(other) ==> #[trigger] alike(one)
                < #[trigger] alike(other),
    ensures
        extends_with(before, after, same, alike),
{
    assert forall|to: Square| #[trigger] same(to) implies exists|i: int|
        before.len() <= i < after.len() && #[trigger] after[i] == to by {
        assert(wanted(to));
    }
}

/// Extending by one predicate and then by another whose squares rank higher
/// extends by either.
pub(crate) proof fn lemma_extends_with_both(
    before: Seq<Square>,
    between: Seq<Square>,
    after: Seq<Square>,
    first: spec_fn(Square) -> bool,
    second: spec_fn(Square) -> bool,
    either: spec_fn(Square) -> bool,
    rank: spec_fn(Square) -> int,
)
    requires
        extends_with(before, between, first, rank),
        extends_with(between, after, second, rank),
        forall|one: Square, other: Square|
            #[trigger] first(one) && #[trigger] second(other) ==> rank(one) < rank(other),
        forall|to: Square| #[trigger] either(to) <==> (first(to) || second(to)),
    ensures
        extends_with(before, after, either, rank),
{
    assert forall|to: Square| #[trigger] either(to) implies exists|i: int|
        before.len() <= i < after.len() && #[trigger] after[i] == to by {
        if first(to) {
            let i = choose|i: int| before.len() <= i < between.len() && #[trigger] between[i] == to;
            assert(after[i] == between[i]);
        }
    }
}

/// A list grown from nothing holds the wanted squares, each of them once, in
/// the order of their rank.
pub(crate) proof fn lemma_extends_with_from_empty(
    after: Seq<Square>,
    wanted: spec_fn(Square) -> bool,
    rank: spec_fn(Square) -> int,
)
    requires
        extends_with(Seq::<Square>::empty(), after, wanted, rank),
    ensures
        after.no_duplicates(),
        forall|to: Square| after.contains(to) <==> #[trigger] wanted(to),
        forall|i: int, j: int|
            0 <= i < j < after.len() ==> rank(#[trigger] after[i]) < rank(#[trigger] after[j]),
{
}

/// One more step adds one more stride.
pub(crate) proof fn lemma_advance_step(start: int, stride: int, steps: int)
    ensures
        advance(start, stride, steps + 1) == advance(start, stride, steps) + stride,
        advance(start, stride, 0) == start,
        advance(start, stride, 1) == start + stride,
{
    assert((steps + 1) * stride == steps * stride + stride) by (nonlinear_arith);
    assert(1 * stride == stride) by (nonlinear_arith);
    assert(0 * stride == 0) by (nonlinear_arith);
}

/// With a stride of at most one square, the coordinate moves by the number
/// of steps or not at all.
pub(crate) proof fn lemma_advance_unit(start: int, stride: int, steps: int)
    requires
        -1 <= stride <= 1,
    ensures
        advance(start, stride, steps) == if stride == 1 {
            start + steps
        } else if stride == -1 {
            start - steps
        } else {
            start
        },
{
    assert(steps * stride == if stride == 1 {
        steps
    } else if stride == -1 {
        -steps
    } else {
        0
    }) by (nonlinear_arith)
        requires
            -1 <= stride <= 1,
    ;
}

/// How far a coordinate moves in `steps` steps of `stride` each.
proof fn lemma_advance_gap(start: int, stride: int, steps: int)
    requires
        0 <= steps,
    ensures
        gap(start, advance(start, stride, steps)) == steps * gap(0, stride),
{
    assert(gap(start, start + steps * stride) == steps * gap(0, stride)) by (nonlinear_arith)
        requires
            0 <= steps,
            gap(0, stride) == (if 0 <= stride {
                stride
            } else {
                -stride
            }),
            gap(start, start + steps * stride) == (if 0 <= steps * stride {
                steps * stride
            } else {
                -(steps * stride)
            }),
    ;
}

/// Of two steps of a walk, the earlier lies nearer to where the walk began.
proof fn lemma_steps_in_order(
    from: Square,
    stride: Stride,
    fewer: int,
    more: int,
    near: Square,
    far: Square,
)
    requires
        walkable(stride),
        0 <= fewer < more,
        near.row == advance(from.row as int, stride.0 as int, fewer),
        near.col == advance(from.col as int, stride.1 as int, fewer),
        far.row == advance(from.row as int, stride.0 as int, more),
        far.col == advance(from.col as int, stride.1 as int, more),
    ensures
        distance(from, near) < distance(from, far),
{
    lemma_advance_gap(from.row as int, stride.0 as int, fewer);
    lemma_advance_gap(from.col as int, stride.1 as int, fewer);
    lemma_advance_gap(from.row as int, stride.0 as int, more);
    lemma_advance_gap(from.col as int, stride.1 as int, more);
    let rows = gap(0, stride.0 as int);
    let cols = gap(0, stride.1 as int);
    assert(fewer * rows <= more * rows && fewer * cols <= more * cols && (rows > 0 ==> fewer * rows
        < more * rows) && (cols > 0 ==> fewer * cols < more * cols)) by (nonlinear_arith)
        requires
            0 <= fewer < more,
            0 <= rows,
            0 <= cols,
    ;
}

/// Where a walk has come to its end after `k` steps, the squares it stopped
/// on are the squares it reaches: the walk has used up its steps, or step
/// `k` holds a piece, or the step after it leaves the board.
proof fn lemma_walk_ends(walk: Walk, board: Board, stride: Stride, k: int, to: Square)
    requires
        0 <= k <= walk.reach,
        walk.clear_before(board, stride, k),
        k == walk.reach || (k >= 1 && !walk.open(board, stride, k)) || {
            &&& walk.clear_before(board, stride, k + 1)
            &&& !on_grid(
                advance(walk.from.row as int, stride.0 as int, k + 1),
                advance(walk.from.col as int, stride.1 as int, k + 1),
            )
        },
    ensures
        walk.lands_within(board, stride, k, to) <==> walk.reaches(board, stride, to),
{
    if walk.reaches(board, stride, to) {
        // No step after `k` is reached over empty squares of the board.
        let j = choose|j: int|
            1 <= j <= walk.reach && #[trigger] walk.lands(board, stride, j, to)
                && walk.clear_before(board, stride, j);
        if j > k + 1 {
            assert(walk.open(board, stride, k + 1));
        }
    }
}

/// Appending step `k + 1` of a walk to the squares it stopped on within `k`
/// steps gives the squares it stops on within `k + 1` steps, the nearest
/// first.
proof fn lemma_walk_stops(
    walk: Walk,
    board: Board,
    stride: Stride,
    k: int,
    to: Square,
    before: Seq<Square>,
    earlier: Seq<Square>,
)
    requires
        0 <= k,
        walkable(stride),
        walk.lands(board, stride, k + 1, to),
        extends_with(
            before,
            earlier,
            |other: Square| walk.lands_within(board, stride, k, other),
            |other: Square| distance(walk.from, other),
        ),
    ensures
        extends_with(
            before,
            earlier.push(to),
            |other: Square| walk.lands_within(board, stride, k + 1, other),
            |other: Square| distance(walk.from, other),
        ),
{
    let later = earlier.push(to);
    let within = |other: Square| walk.lands_within(board, stride, k, other);
    let within_next = |other: Square| walk.lands_within(board, stride, k + 1, other);
    // The new square lies farther away than those of the earlier steps.
    assert forall|i: int| before.len() <= i < earlier.len() implies distance(
        walk.from,
        #[trigger] earlier[i],
    ) < distance(walk.from, to) by {
        let s = choose|s: int| 1 <= s <= k && #[trigger] walk.lands(board, stride, s, earlier[i]);
        lemma_steps_in_order(walk.from, stride, s, k + 1, earlier[i], to);
    }
    assert forall|other: Square| #[trigger] within_next(other) implies exists|i: int|
        before.len() <= i < later.len() && #[trigger] later[i] == other by {
        if other == to {
            assert(later[earlier.len() as int] == other);
        } else {
            assert(within(other));
            let i = choose|i: int|
                before.len() <= i < earlier.len() && #[trigger] earlier[i] == other;
            assert(later[i] == earlier[i]);
        }
    }
}

/// The walk that reaches a square is the only one of its strides that does.
pub(crate) proof fn lemma_ray_of(walk: Walk, board: Board, strides: Seq<Stride>, i: int, to: Square)
    requires
        walk.apart(board, strides),
        0 <= i < strides.len(),
        walk.nth_reaches(board, strides, i, to),
    ensures
        walk.ray_of(board, strides, to) == i,
{
}

/// Walks with `stride` and appends to `found` the squares on which the piece
/// may stop, the nearest first.
fn walk_ray(board: &Board, walk: Walk, stride: Stride, found: &mut Vec<Square>)
    requires
        walk.from.on_board(),
        walk.reach < SIDE,
        walkable(stride),
    ensures
        extends_with(
            old(found)@,
            final(found)@,
            |to: Square| walk.reaches(*board, stride, to),
            |to: Square| distance(walk.from, to),
        ),
{
    let ghost before = found@;
    let ghost wanted = |to: Square| walk.reaches(*board, stride, to);
    let ghost rank = |to: Square| distance(walk.from, to);
    let mut row: isize = walk.from.row as isize;
    let mut col: isize = walk.from.col as isize;
    let mut k: usize = 0;
    let mut walking = true;
    proof {
        lemma_advance_step(walk.from.row as int, stride.0 as int, 0);
        lemma_advance_step(walk.from.col as int, stride.1 as int, 0);
    }
    while walking && k < walk.reach
        invariant
            walk.from.on_board(),
            walk.reach < SIDE,
            walkable(stride),
            k <= walk.reach,
            on_grid(row as int, col as int),
            wanted == (|to: Square| walk.reaches(*board, stride, to)),
            rank == (|to: Square| distance(walk.from, to)),
            walking ==> row == advance(walk.from.row as int, stride.0 as int, k as int),
            walking ==> col == advance(walk.from.col as int, stride.1 as int, k as int),
            walking ==> walk.clear_before(*board, stride, k + 1),
            walking ==> extends_with(
                before,
                found@,
                |to: Square| walk.lands_within(*board, stride, k as int, to),
                rank,
            ),
            !walking ==> extends_with(before, found@, wanted, rank),
        decreases walk.reach - k + (if walking { 1int } else { 0int }),
    {
        let ghost within = |to: Square| walk.lands_within(*board, stride, k as int, to);
        let ghost within_next = |to: Square| walk.lands_within(*board, stride, k + 1, to);
        let next_row = row + stride.0;
        let next_col = col + stride.1;
        proof {
            lemma_advance_step(walk.from.row as int, stride.0 as int, k as int);
            lemma_advance_step(walk.from.col as int, stride.1 as int, k as int);
        }
        if next_row < 0 || next_row >= SIDE as isize || next_col < 0 || next_col >= SIDE as isize {
            // The next step would leave the board.
            proof {
                assert forall|to: Square| #[trigger] within(to) <==> #[trigger] wanted(to) by {
                    lemma_walk_ends(walk, *board, stride, k as int, to);
                }
                lemma_extends_with_same(before, found@, within, rank, wanted, rank);
            }
            walking = false;
        } else {
            let to = Square { row: next_row as usize, col: next_col as usize };
            let cell = board.cell_at(to);
            let ghost earlier = found@;
            if walk.rule.allows(cell, walk.mover) {
                found.push(to);
                proof {
                    lemma_walk_stops(walk, *board, stride, k as int, to, before, earlier);
                }
            } else {
                proof {
                    lemma_extends_with_same(before, found@, within, rank, within_next, rank);
                }
            }
            if cell.is_empty() {
                row = next_row;
                col = next_col;
                k = k + 1;
            } else {
                // A piece stands in the way.
                proof {
                    assert forall|other: Square| #[trigger]
                        within_next(other) <==> #[trigger] wanted(other) by {
                        lemma_walk_ends(walk, *board, stride, k + 1, other);
                    }
                    lemma_extends_with_same(before, found@, within_next, rank, wanted, rank);
                }
                walking = false;
            }
        }
    }
    proof {
        if walking {
            // The walk has used up its steps.
            let within = |to: Square| walk.lands_within(*board, stride, k as int, to);
            assert forall|to: Square| #[trigger] within(to) <==> #[trigger] wanted(to) by {
                lemma_walk_ends(walk, *board, stride, k as int, to);
            }
            lemma_extends_with_same(before, found@, within, rank, wanted, rank);
        }
    }
}

/// A square that a walk reaches lies on the board, less than the side of
/// the board away.
proof fn lemma_reached_is_near(walk: Walk, board: Board, stride: Stride, to: Square)
    requires
        walk.from.on_board(),
        walk.reaches(board, stride, to),
    ensures
        0 <= distance(walk.from, to) < SIDE,
{
}

/// Walks with each of `strides` in turn and appends to `found` the squares
/// on which the piece may stop: those of an earlier stride first, and of two
/// squares of one stride the nearer.
pub(crate) fn walk_rays(board: &Board, walk: Walk, strides: &[Stride], found: &mut Vec<Square>)
    requires
        walk.from.on_board(),
        walk.reach < SIDE,
        forall|i: int| 0 <= i < strides@.len() ==> walkable(#[trigger] strides@[i]),
        walk.apart(*board, strides@),
    ensures
        extends_with(
            old(found)@,
            final(found)@,
            |to: Square| walk.any_reaches(*board, strides@, strides@.len() as int, to),
            |to: Square| walk.place(*board, strides@, to),
        ),
{
    let ghost before = found@;
    let ghost place = |to: Square| walk.place(*board, strides@, to);
    let mut i: usize = 0;
    proof {
        lemma_extends_with_nothing(
            before,
            |to: Square| walk.any_reaches(*board, strides@, 0, to),
            place,
        );
    }
    while i < strides.len()
        invariant
            walk.from.on_board(),
            walk.reach < SIDE,
            forall|i: int| 0 <= i < strides@.len() ==> walkable(#[trigger] strides@[i]),
            walk.apart(*board, strides@),
            i <= strides@.len(),
            place == (|to: Square| walk.place(*board, strides@, to)),
            extends_with(
                before,
                found@,
                |to: Square| walk.any_reaches(*board, strides@, i as int, to),
                place,
            ),
        decreases strides@.len() - i,
    {
        let ghost earlier = found@;
        walk_ray(board, walk, strides[i], found);
        proof {
            let first = |to: Square| walk.any_reaches(*board, strides@, i as int, to);
            let second = |to: Square| walk.reaches(*board, strides@[i as int], to);
            let either = |to: Square| walk.any_reaches(*board, strides@, i + 1, to);
            // The squares of this walk rank by their distance alone.
            assert forall|one: Square, other: Square|
                second(one) && second(other) && distance(walk.from, one) < distance(
                    walk.from,
                    other,
                ) implies #[trigger] place(one) < #[trigger] place(other) by {
                lemma_ray_of(walk, *board, strides@, i as int, one);
                lemma_ray_of(walk, *board, strides@, i as int, other);
            }
            lemma_extends_with_same(
                earlier,
                found@,
                second,
                |to: Square| distance(walk.from, to),
                second,
                place,
            );
            // The squares of the walks before rank lower.
            assert forall|one: Square, other: Square| #[trigger]
                first(one) && #[trigger] second(other) implies place(one) < place(other) by {
                let j = choose|j: int|
                    0 <= j < i && #[trigger] walk.nth_reaches(*board, strides@, j, one);
                lemma_ray_of(walk, *board, strides@, j, one);
                lemma_ray_of(walk, *board, strides@, i as int, other);
                lemma_reached_is_near(walk, *board, strides@[j], one);
            }
            assert forall|to: Square| #[trigger] either(to) <==> (first(to) || second(to)) by {
                if first(to) {
                    let j = choose|j: int|
                        0 <= j < i && #[trigger] walk.nth_reaches(*board, strides@, j, to);
                    assert(walk.nth_reaches(*board, strides@, j, to));
                }
                if second(to) {
                    assert(walk.nth_reaches(*board, strides@, i as int, to));
                }
            }
            lemma_extends_with_both(before, earlier, found@, first, second, either, place);
        }
        i = i + 1;
    }
}

} // verus!
