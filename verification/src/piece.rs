//! Pieces, their colours, and the contents of a single square.

use vstd::prelude::*;

verus! {

/// The side a piece plays for.
#[derive(Copy, Clone, PartialEq, Eq, Debug, Structural)]
pub enum Colour {
    Black,
    White,
}

impl Colour {
    /// The other side.
    pub open spec fn opponent(self) -> Colour {
        match self {
            Colour::Black => Colour::White,
            Colour::White => Colour::Black,
        }
    }
}

/// How a piece moves.
#[derive(Copy, Clone, PartialEq, Eq, Debug, Structural)]
pub enum PieceKind {
    Pawn,
    Rook,
    Knight,
    Bishop,
    Queen,
    King,
}

/// A piece: its kind together with the side that owns it.
#[derive(Copy, Clone, PartialEq, Eq, Debug, Structural)]
pub struct Piece {
    pub kind: PieceKind,
    pub colour: Colour,
}

impl Piece {
    /// The side that owns this piece.
    pub fn colour(&self) -> (c: Colour)
        ensures
            c == self.colour,
    {
        self.colour
    }
}

/// What stands on one square of the board.
#[derive(Copy, Clone, PartialEq, Eq, Debug, Structural)]
pub enum Cell {
    Empty,
    Occupied(Piece),
}

impl Cell {
    /// Whether a piece of side `colour` stands here.
    pub open spec fn holds(self, colour: Colour) -> bool {
        self matches Cell::Occupied(p) && p.colour == colour
    }

    /// Returns whether the square is empty.
    pub fn is_empty(&self) -> (b: bool)
        ensures
            b == (*self is Empty),
    {
        match self {
            Cell::Empty => true,
            Cell::Occupied(_) => false,
        }
    }
}

} // verus!
