//! Piece movement on a chessboard.
//!
//! The crate models an 8×8 board of pieces and computes, for an occupied
//! square, the squares its piece can move to under the movement rules alone:
//! blocking and capturing are respected, while check, castling, en passant,
//! promotion and turn order are not considered. It also reads squares and
//! moves from their notation and draws the board as text for a terminal.

pub mod board;
pub mod moves;
pub mod notation;
pub mod piece;
mod rays;
pub mod render;
pub mod rules;

pub use board::{move_piece, new_chessboard, Board, Square, SIDE};
pub use moves::get_legal_squares;
pub use notation::{
    parse_input, parse_move, square_to_string, string_to_square, Input, ParseError,
};
pub use piece::{Cell, Colour, Piece, PieceKind};
pub use render::{chessboard_lines, highlighted_lines, Glyph, Look, Symbol, Tint};
pub use rules::{is_destination, lists_destinations};
