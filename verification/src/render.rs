//! Drawing the board as lines of text for a terminal.
//!
//! What is drawn on a square, and in which colours, is decided here as plain
//! data: a [`Glyph`] for each square. Turning a glyph into text with colour
//! codes is left to the `console` crate; the lines of the picture are then
//! put together here.

use vstd::prelude::*;
use vstd::string::StringExecFns;
use crate::board::{Board, Square, SIDE};
use crate::moves::get_legal_squares;
use crate::notation::{rank_digit, rank_name};
use crate::piece::{Cell, Colour, Piece, PieceKind};
use crate::rules::{is_destination, lists_destinations};

verus! {

/// The grey of the pieces' letters, in the palette of 256 colours.
pub const GREY_39: u8 = 241;

/// The grey behind Black's pieces, in the palette of 256 colours.
pub const GREY_15: u8 = 235;

/// The colour of the letter of a piece that is picked out, in the palette of
/// 256 colours.
pub const OLIVE: u8 = 94;

/// A colour of the terminal.
#[derive(Copy, Clone, PartialEq, Eq, Debug, Structural)]
pub enum Tint {
    Black,
    Red,
    Yellow,
    White,
    /// An entry of the palette of 256 colours.
    Palette(u8),
}

/// In which colours a symbol is drawn.
#[derive(Copy, Clone, PartialEq, Eq, Debug, Structural)]
pub enum Look {
    /// As it is, without any colour.
    Plain,
    /// In a colour.
    Tinted(Tint),
    /// In the first colour, on a ground of the second.
    TintedOn(Tint, Tint),
}

/// What is drawn on a square.
#[derive(Copy, Clone, PartialEq, Eq, Debug, Structural)]
pub enum Symbol {
    /// The letter of a piece.
    Piece(PieceKind),
    /// The dot of an empty square.
    Vacant,
    /// The disc on an empty square that a piece can move to.
    Target,
}

impl Symbol {
    /// The text of the symbol: `p` for a pawn, a capital letter for any
    /// other piece, a dot or a disc.
    pub open spec fn text(self) -> Seq<char> {
        match self {
            Symbol::Piece(PieceKind::Pawn) => seq!['p'],
            Symbol::Piece(PieceKind::Rook) => seq!['R'],
            Symbol::Piece(PieceKind::Knight) => seq!['N'],
            Symbol::Piece(PieceKind::Bishop) => seq!['B'],
            Symbol::Piece(PieceKind::Queen) => seq!['Q'],
            Symbol::Piece(PieceKind::King) => seq!['K'],
            Symbol::Vacant => seq!['·'],
            Symbol::Target => seq!['⬤'],
        }
    }

    /// Returns the text of the symbol.
    pub fn as_str(&self) -> (text: &'static str)
        ensures
            text@ == self.text(),
    {
        proof {
            reveal_strlit("p");
            reveal_strlit("R");
            reveal_strlit("N");
            reveal_strlit("B");
            reveal_strlit("Q");
            reveal_strlit("K");
            reveal_strlit("·");
            reveal_strlit("⬤");
        }
        match self {
            Symbol::Piece(PieceKind::Pawn) => "p",
            Symbol::Piece(PieceKind::Rook) => "R",
            Symbol::Piece(PieceKind::Knight) => "N",
            Symbol::Piece(PieceKind::Bishop) => "B",
            Symbol::Piece(PieceKind::Queen) => "Q",
            Symbol::Piece(PieceKind::King) => "K",
            Symbol::Vacant => "·",
            Symbol::Target => "⬤",
        }
    }
}

/// A symbol together with the colours it is drawn in.
#[derive(Copy, Clone, PartialEq, Eq, Debug, Structural)]
pub struct Glyph {
    pub symbol: Symbol,
    pub look: Look,
}

/// The ground behind the pieces of side `colour`.
pub open spec fn ground_of(colour: Colour) -> Tint {
    match colour {
        Colour::White => Tint::White,
        Colour::Black => Tint::Palette(GREY_15),
    }
}

/// The colour of the letter of a piece of side `colour` that can be
/// captured.
pub open spec fn capture_tint(colour: Colour) -> Tint {
    match colour {
        Colour::White => Tint::White,
        Colour::Black => Tint::Black,
    }
}

/// Returns the ground behind the pieces of side `colour`.
fn ground(colour: Colour) -> (tint: Tint)
    ensures
        tint == ground_of(colour),
{
    match colour {
        Colour::White => Tint::White,
        Colour::Black => Tint::Palette(GREY_15),
    }
}

impl Cell {
    /// What is drawn for this cell: the letter of its piece, or a dot.
    pub open spec fn spec_symbol(&self) -> Symbol {
        match self {
            Cell::Empty => Symbol::Vacant,
            Cell::Occupied(piece) => Symbol::Piece(piece.kind),
        }
    }

    /// How this cell is drawn on a board on which nothing is picked out: an
    /// empty square as a plain dot, a piece as its grey letter on the ground
    /// of its side.
    pub open spec fn spec_glyph(&self) -> Glyph {
        match self {
            Cell::Empty => Glyph { symbol: Symbol::Vacant, look: Look::Plain },
            Cell::Occupied(piece) => Glyph {
                symbol: Symbol::Piece(piece.kind),
                look: Look::TintedOn(Tint::Palette(GREY_39), ground_of(piece.colour)),
            },
        }
    }

    /// Returns what is drawn for this cell.
    #[verifier::when_used_as_spec(spec_symbol)]
    pub fn symbol(&self) -> (symbol: Symbol)
        ensures
            symbol == self.spec_symbol(),
    {
        match self {
            Cell::Empty => Symbol::Vacant,
            Cell::Occupied(piece) => Symbol::Piece(piece.kind),
        }
    }

    /// Returns how this cell is drawn on a board on which nothing is picked
    /// out.
    #[verifier::when_used_as_spec(spec_glyph)]
    pub fn glyph(&self) -> (glyph: Glyph)
        ensures
            glyph == self.spec_glyph(),
    {
        match self {
            Cell::Empty => Glyph { symbol: Symbol::Vacant, look: Look::Plain },
            Cell::Occupied(piece) => Glyph {
                symbol: Symbol::Piece(piece.kind),
                look: Look::TintedOn(Tint::Palette(GREY_39), ground(piece.colour)),
            },
        }
    }
}

/// How `square` is drawn when the piece on `origin` is picked out, where
/// `reached` says whether that piece can move to `square`.
///
/// A square that the piece can move to shows a yellow disc where it is
/// empty, and the letter of its piece on red where the piece can be
/// captured. The piece on `origin` keeps its ground and has its letter in
/// olive. Every other square is drawn as on a plain board.
pub open spec fn highlighted_glyph(
    board: Board,
    origin: Square,
    reached: bool,
    square: Square,
) -> Glyph {
    let cell = board.cell(square);
    match cell {
        Cell::Empty => if reached {
            Glyph { symbol: Symbol::Target, look: Look::Tinted(Tint::Yellow) }
        } else {
            cell.glyph()
        },
        Cell::Occupied(piece) => if reached {
            Glyph {
                symbol: Symbol::Piece(piece.kind),
                look: Look::TintedOn(capture_tint(piece.colour), Tint::Red),
            }
        } else if square == origin {
            Glyph {
                symbol: Symbol::Piece(piece.kind),
                look: Look::TintedOn(Tint::Palette(OLIVE), ground_of(piece.colour)),
            }
        } else {
            cell.glyph()
        },
    }
}

/// Tells whether `square` is among `squares`.
pub fn contains_square(squares: &Vec<Square>, square: Square) -> (found: bool)
    ensures
        found == squares@.contains(square),
{
    let mut i: usize = 0;
    while i < squares.len()
        invariant
            i <= squares@.len(),
            forall|j: int| 0 <= j < i ==> squares@[j] != square,
        decreases squares@.len() - i,
    {
        if squares[i].row == square.row && squares[i].col == square.col {
            return true;
        }
        i = i + 1;
    }
    false
}

/// Decides how `square` is drawn when the piece on `origin` is picked out
/// together with `legal_squares`, the squares that it can move to.
pub fn highlight_glyph(
    board: &Board,
    origin: Square,
    legal_squares: &Vec<Square>,
    square: Square,
) -> (glyph: Glyph)
    requires
        square.on_board(),
    ensures
        glyph == highlighted_glyph(*board, origin, legal_squares@.contains(square), square),
{
    let cell = board.cell_at(square);
    let reached = contains_square(legal_squares, square);
    match cell {
        Cell::Empty => if reached {
            Glyph { symbol: Symbol::Target, look: Look::Tinted(Tint::Yellow) }
        } else {
            cell.glyph()
        },
        Cell::Occupied(piece) => if reached {
            let tint = match piece.colour {
                Colour::White => Tint::White,
                Colour::Black => Tint::Black,
            };
            Glyph { symbol: Symbol::Piece(piece.kind), look: Look::TintedOn(tint, Tint::Red) }
        } else if square.row == origin.row && square.col == origin.col {
            Glyph {
                symbol: Symbol::Piece(piece.kind),
                look: Look::TintedOn(Tint::Palette(OLIVE), ground(piece.colour)),
            }
        } else {
            cell.glyph()
        },
    }
}

/// The colours of the `console` crate.
#[verifier::external_type_specification]
#[verifier::external_body]
pub struct ExColor(console::Color);

/// `codes` holds nothing but the characters of which the codes that switch
/// colours on are made: the escape character, `[`, `;`, `m` and digits.
pub open spec fn colour_codes(codes: Seq<char>) -> bool {
    forall|i: int|
        0 <= i < codes.len() ==> {
            let c = #[trigger] codes[i];
            c == '\u{1b}' || c == '[' || c == ';' || c == 'm' || ('0' <= c <= '9')
        }
}

/// The code that switches all colours off again.
pub open spec fn closing_code() -> Seq<char> {
    seq!['\u{1b}', '[', '0', 'm']
}

/// `text` between `codes` and the closing code.
pub open spec fn coloured(codes: Seq<char>, text: Seq<char>) -> Seq<char> {
    codes + text + closing_code()
}

/// `painted` is `text` written in colours: the text alone, where the
/// terminal takes no colours, or colour codes, then the text, then the
/// closing code.
pub open spec fn tints(painted: Seq<char>, text: Seq<char>) -> bool {
    painted == text || exists|codes: Seq<char>|
        colour_codes(codes) && painted == #[trigger] coloured(codes, text)
}

/// Gives the colour of the `console` crate that stands for `tint`.
///
/// Each tint goes to the variant of `console::Color` of the same name, and a
/// palette entry to `Color256` with the same number. Nothing is claimed of
/// the result, which verified code only hands on.
#[verifier::external_body]
fn terminal_colour(tint: Tint) -> console::Color {
    match tint {
        Tint::Black => console::Color::Black,
        Tint::Red => console::Color::Red,
        Tint::Yellow => console::Color::Yellow,
        Tint::White => console::Color::White,
        Tint::Palette(entry) => console::Color::Color256(entry),
    }
}

/// Writes `text` in the colour `tint`.
///
/// This calls `console::style`, `StyledObject::fg` and the `to_string` of the
/// styled text. Whether colour codes are written depends on the terminal and
/// on environment variables; where they are, they stand before and after
/// the text. The contract claims that the result is the text alone, or the
/// text between characters of colour codes and the closing code; it does
/// not say which colours the codes name.
#[verifier::external_body]
fn paint_tinted(text: &str, tint: console::Color) -> (painted: String)
    ensures
        tints(painted@, text@),
{
    console::style(text).fg(tint).to_string()
}

/// Writes `text` in the colour `tint` on a ground of the colour `ground`.
///
/// This calls `console::style`, `StyledObject::fg`, `StyledObject::bg` and
/// the `to_string` of the styled text. Whether colour codes are written
/// depends on the terminal and on environment variables; where they are,
/// they stand before and after the text. The contract claims that the
/// result is the text alone, or the text between characters of colour codes
/// and the closing code; it does not say which colours the codes name.
#[verifier::external_body]
fn paint_tinted_on(text: &str, tint: console::Color, ground: console::Color) -> (painted: String)
    ensures
        tints(painted@, text@),
{
    console::style(text).fg(tint).bg(ground).to_string()
}

/// Writes `text` with the colours of `look`.
///
/// A plain look leaves the text as it is. With any other look the result
/// depends on whether the terminal takes colours: it is the text alone, or
/// the text between colour codes and the closing code.
pub fn paint(text: &str, look: Look) -> (painted: String)
    ensures
        tints(painted@, text@),
        look is Plain ==> painted@ == text@,
{
    match look {
        Look::Plain => String::from_str(text),
        Look::Tinted(tint) => paint_tinted(text, terminal_colour(tint)),
        Look::TintedOn(tint, ground) => paint_tinted_on(
            text,
            terminal_colour(tint),
            terminal_colour(ground),
        ),
    }
}

impl Glyph {
    /// `painted` shows this glyph: it is the text of the symbol where the
    /// look is plain, and that text written in colours otherwise.
    pub open spec fn shown_by(self, painted: Seq<char>) -> bool {
        if self.look is Plain {
            painted == self.symbol.text()
        } else {
            tints(painted, self.symbol.text())
        }
    }

    /// Writes the symbol with the colours of the look.
    pub fn format(&self) -> (painted: String)
        ensures
            self.shown_by(painted@),
    {
        paint(self.symbol.as_str(), self.look)
    }
}

/// A single character written in colours can be read off the result.
proof fn lemma_tinted_char(painted: Seq<char>, one: char, other: char)
    requires
        tints(painted, seq![one]),
        tints(painted, seq![other]),
    ensures
        one == other,
{
    // With colours the character stands before the four characters of the
    // closing code, and without them it stands alone.
    let at = if painted.len() == 1 {
        0
    } else {
        painted.len() - 5
    };
    if painted != seq![one] {
        let codes = choose|codes: Seq<char>|
            colour_codes(codes) && painted == #[trigger] coloured(codes, seq![one]);
        assert(painted[codes.len() as int] == seq![one][0]);
    }
    if painted != seq![other] {
        let codes = choose|codes: Seq<char>|
            colour_codes(codes) && painted == #[trigger] coloured(codes, seq![other]);
        assert(painted[codes.len() as int] == seq![other][0]);
    }
    assert(seq![one][0] == painted[at] && seq![other][0] == painted[at]);
}

/// A painted cell shows one symbol only: whatever the colours, the letter,
/// dot or disc of the cell can be read off it.
pub proof fn lemma_shown_symbol(painted: Seq<char>, one: Glyph, other: Glyph)
    requires
        one.shown_by(painted),
        other.shown_by(painted),
    ensures
        one.symbol == other.symbol,
{
    let first = one.symbol.text();
    let second = other.symbol.text();
    assert(first =~= seq![first[0]] && second =~= seq![second[0]]);
    lemma_tinted_char(painted, first[0], second[0]);
}

impl Cell {
    /// Writes the cell as it is drawn on a board on which nothing is picked
    /// out.
    pub fn format(&self) -> (painted: String)
        ensures
            self.glyph().shown_by(painted@),
    {
        self.glyph().format()
    }
}

impl Piece {
    /// Writes the piece as it is drawn on a board on which nothing is picked
    /// out: its grey letter on the ground of its side.
    pub fn format(&self) -> (painted: String)
        ensures
            tints(painted@, Symbol::Piece(self.kind).text()),
    {
        Cell::Occupied(*self).format()
    }
}

/// The texts of `strings`.
pub open spec fn texts(strings: Seq<String>) -> Seq<Seq<char>> {
    strings.map_values(|string: String| string@)
}

/// The rows of `grid`.
pub open spec fn glyph_rows(grid: Seq<Vec<Glyph>>) -> Seq<Seq<Glyph>> {
    grid.map_values(|row: Vec<Glyph>| row@)
}

/// The `cells` one after another, each followed by a blank.
pub open spec fn spaced(cells: Seq<Seq<char>>) -> Seq<char>
    decreases cells.len(),
{
    if cells.len() == 0 {
        Seq::empty()
    } else {
        spaced(cells.drop_last()) + cells.last() + seq![' ']
    }
}

/// A row of the picture: a bar, the `cells` with a blank after each, a bar,
/// and the `label` of the rank.
pub open spec fn row_text(cells: Seq<Seq<char>>, label: Seq<char>) -> Seq<char> {
    seq!['│', ' '] + spaced(cells) + seq!['│', ' '] + label
}

/// `line` is a row of the picture that shows `glyphs` and is labelled with
/// the rank of `row`.
pub open spec fn draws_row(line: Seq<char>, glyphs: Seq<Glyph>, row: int) -> bool {
    exists|cells: Seq<Seq<char>>, label: Seq<char>|
        {
            &&& cells.len() == glyphs.len()
            &&& forall|col: int|
                0 <= col < glyphs.len() ==> (#[trigger] glyphs[col]).shown_by(cells[col])
            &&& tints(label, seq![rank_digit(row as usize)])
            &&& line == #[trigger] row_text(cells, label)
        }
}

/// `text` is not empty and holds neither a blank nor a bar.
pub open spec fn solid(text: Seq<char>) -> bool {
    &&& text.len() > 0
    &&& forall|i: int| 0 <= i < text.len() ==> #[trigger] text[i] != ' ' && text[i] != '│'
}

/// Text that holds neither a blank nor a bar holds none when it is written
/// in colours.
proof fn lemma_tinted_is_solid(painted: Seq<char>, text: Seq<char>)
    requires
        tints(painted, text),
        solid(text),
    ensures
        solid(painted),
{
    if painted != text {
        let codes = choose|codes: Seq<char>|
            colour_codes(codes) && painted == #[trigger] coloured(codes, text);
        assert forall|i: int| 0 <= i < painted.len() implies #[trigger] painted[i] != ' '
            && painted[i] != '│' by {
            if i < codes.len() {
                assert(painted[i] == codes[i]);
            } else if i < codes.len() + text.len() {
                assert(painted[i] == text[i - codes.len()]);
            } else {
                assert(painted[i] == closing_code()[i - codes.len() - text.len()]);
            }
        }
    }
}

/// Cells that hold neither blanks nor bars can be read off the text in
/// which they stand with a blank after each.
proof fn lemma_spaced_alike(one: Seq<Seq<char>>, other: Seq<Seq<char>>)
    requires
        spaced(one) == spaced(other),
        forall|i: int| 0 <= i < one.len() ==> solid(#[trigger] one[i]),
        forall|i: int| 0 <= i < other.len() ==> solid(#[trigger] other[i]),
    ensures
        one == other,
    decreases one.len(),
{
    if one.len() == 0 || other.len() == 0 {
        // No cells make an empty text, and any cell makes the text longer.
        assert(one.len() > 0 ==> spaced(one).len() > 0);
        assert(other.len() > 0 ==> spaced(other).len() > 0);
        assert(one =~= other);
    } else {
        let whole = spaced(one);
        let a = one.last();
        let b = other.last();
        let before_a = spaced(one.drop_last());
        let before_b = spaced(other.drop_last());
        assert(whole == before_a + a + seq![' ']);
        assert(whole == before_b + b + seq![' ']);
        assert(solid(a) && solid(b));
        // The blank before the last cell stands at one place only.
        if a.len() < b.len() {
            if one.drop_last().len() > 0 {
                let rest = one.drop_last();
                assert(before_a == spaced(rest.drop_last()) + rest.last() + seq![' ']);
                assert(whole[before_a.len() - 1] == ' ');
                assert(whole[before_a.len() - 1] == b[before_a.len() - 1 - before_b.len()]);
            }
            assert(false);
        }
        if b.len() < a.len() {
            if other.drop_last().len() > 0 {
                let rest = other.drop_last();
                assert(before_b == spaced(rest.drop_last()) + rest.last() + seq![' ']);
                assert(whole[before_b.len() - 1] == ' ');
                assert(whole[before_b.len() - 1] == a[before_b.len() - 1 - before_a.len()]);
            }
            assert(false);
        }
        assert(a =~= whole.subrange(before_a.len() as int, (before_a.len() + a.len()) as int));
        assert(b =~= whole.subrange(before_b.len() as int, (before_b.len() + b.len()) as int));
        assert(before_a =~= whole.subrange(0, before_a.len() as int));
        assert(before_b =~= whole.subrange(0, before_b.len() as int));
        lemma_spaced_alike(one.drop_last(), other.drop_last());
        assert(one =~= one.drop_last().push(a));
        assert(other =~= other.drop_last().push(b));
    }
}

/// A row of the picture shows one row of symbols only, and one rank:
/// whatever the colours, the symbols and the rank can be read off the line.
pub proof fn lemma_row_is_read_one_way(
    line: Seq<char>,
    one: Seq<Glyph>,
    row: int,
    other: Seq<Glyph>,
    other_row: int,
)
    requires
        0 <= row < SIDE,
        0 <= other_row < SIDE,
        draws_row(line, one, row),
        draws_row(line, other, other_row),
    ensures
        row == other_row,
        one.len() == other.len(),
        forall|col: int| 0 <= col < one.len() ==> (#[trigger] one[col]).symbol == other[col].symbol,
{
    let (cells, label) = choose|cells: Seq<Seq<char>>, label: Seq<char>|
        {
            &&& cells.len() == one.len()
            &&& forall|col: int| 0 <= col < one.len() ==> (#[trigger] one[col]).shown_by(cells[col])
            &&& tints(label, seq![rank_digit(row as usize)])
            &&& line == #[trigger] row_text(cells, label)
        };
    let (others, other_label) = choose|cells: Seq<Seq<char>>, label: Seq<char>|
        {
            &&& cells.len() == other.len()
            &&& forall|col: int|
                0 <= col < other.len() ==> (#[trigger] other[col]).shown_by(cells[col])
            &&& tints(label, seq![rank_digit(other_row as usize)])
            &&& line == #[trigger] row_text(cells, label)
        };
    // Neither a cell nor a label holds a blank or a bar.
    assert forall|col: int| 0 <= col < cells.len() implies solid(#[trigger] cells[col]) by {
        assert(one[col].shown_by(cells[col]));
        lemma_tinted_is_solid(cells[col], one[col].symbol.text());
    }
    assert forall|col: int| 0 <= col < others.len() implies solid(#[trigger] others[col]) by {
        assert(other[col].shown_by(others[col]));
        lemma_tinted_is_solid(others[col], other[col].symbol.text());
    }
    lemma_tinted_is_solid(label, seq![rank_digit(row as usize)]);
    lemma_tinted_is_solid(other_label, seq![rank_digit(other_row as usize)]);
    // So the bar before the label is the last one of the line, and the
    // cells stand before it.
    let bar = seq!['│', ' '];
    let here = spaced(cells).len() as int;
    let there = spaced(others).len() as int;
    assert(line == bar + spaced(cells) + bar + label);
    assert(line == bar + spaced(others) + bar + other_label);
    assert(line.len() == 4 + here + label.len() && line.len() == 4 + there + other_label.len());
    assert(line[2 + here] == '│' && line[3 + here] == ' ');
    assert(line[2 + there] == '│' && line[3 + there] == ' ');
    if here < there {
        if there > here + 1 {
            assert(line[2 + there] == label[there - here - 2]);
        }
        assert(false);
    }
    if there < here {
        if here > there + 1 {
            assert(line[2 + here] == other_label[here - there - 2]);
        }
        assert(false);
    }
    assert(spaced(cells) =~= line.subrange(2, 2 + here));
    assert(spaced(others) =~= line.subrange(2, 2 + there));
    assert(label =~= line.subrange(4 + here, line.len() as int));
    assert(other_label =~= line.subrange(4 + there, line.len() as int));
    lemma_spaced_alike(cells, others);
    assert forall|col: int| 0 <= col < one.len() implies (#[trigger] one[col]).symbol
        == other[col].symbol by {
        assert(one[col].shown_by(cells[col]));
        assert(other[col].shown_by(others[col]));
        lemma_shown_symbol(cells[col], one[col], other[col]);
    }
    lemma_tinted_char(label, rank_digit(row as usize), rank_digit(other_row as usize));
}

/// `lines` is the picture of a board that shows `glyphs`: the upper edge,
/// the eight rows, the lower edge, the letters of the files, and an empty
/// line.
pub open spec fn draws_board(lines: Seq<Seq<char>>, glyphs: Seq<Seq<Glyph>>) -> bool {
    &&& lines.len() == SIDE + 4
    &&& lines[0] == "┌─────────────────┐"@
    &&& forall|i: int| 1 <= i <= SIDE ==> draws_row(#[trigger] lines[i], glyphs[i - 1], i - 1)
    &&& lines[SIDE + 1] == "└─────────────────┘"@
    &&& tints(lines[SIDE + 2], "  a b c d e f g h"@)
    &&& lines[SIDE + 3] == Seq::<char>::empty()
}

/// Puts a row of the picture together from its painted `cells` and the
/// painted `label` of its rank.
pub fn assemble_row(cells: &Vec<String>, label: &str) -> (line: String)
    ensures
        line@ == row_text(texts(cells@), label@),
{
    proof {
        reveal_strlit("│ ");
        reveal_strlit(" ");
    }
    let mut line = String::from_str("│ ");
    let mut col: usize = 0;
    while col < cells.len()
        invariant
            col <= cells@.len(),
            " "@ == seq![' '],
            line@ == seq!['│', ' '] + spaced(texts(cells@).take(col as int)),
        decreases cells@.len() - col,
    {
        line.append(cells[col].as_str());
        line.append(" ");
        proof {
            let before = texts(cells@).take(col as int);
            let after = texts(cells@).take(col + 1);
            assert(after.drop_last() =~= before);
        }
        col = col + 1;
    }
    assert(texts(cells@).take(col as int) =~= texts(cells@));
    line.append("│ ");
    line.append(label);
    line
}

/// Draws the row of the picture that shows `glyphs`, labelled with the rank
/// of `row`.
pub fn draw_row(glyphs: &Vec<Glyph>, row: usize) -> (line: String)
    requires
        row < SIDE,
    ensures
        draws_row(line@, glyphs@, row as int),
{
    let mut cells: Vec<String> = Vec::new();
    let mut col: usize = 0;
    while col < glyphs.len()
        invariant
            col <= glyphs@.len(),
            cells@.len() == col,
            forall|j: int| 0 <= j < col ==> (#[trigger] glyphs@[j]).shown_by(cells@[j]@),
        decreases glyphs@.len() - col,
    {
        let painted = glyphs[col].format();
        cells.push(painted);
        col = col + 1;
    }
    let label = paint(rank_name(row), Look::Tinted(Tint::Palette(GREY_39)));
    let line = assemble_row(&cells, label.as_str());
    proof {
        let shown = texts(cells@);
        assert forall|j: int| 0 <= j < glyphs@.len() implies (#[trigger] glyphs@[j]).shown_by(
            shown[j],
        ) by {
            assert(shown[j] == cells@[j]@);
        }
    }
    line
}

/// Draws the picture of a board that shows `glyphs`, one row of them for
/// each row of the board.
pub fn draw_board(glyphs: &Vec<Vec<Glyph>>) -> (lines: Vec<String>)
    requires
        glyphs@.len() == SIDE,
    ensures
        draws_board(texts(lines@), glyph_rows(glyphs@)),
{
    let mut lines: Vec<String> = Vec::new();
    lines.push(String::from_str("┌─────────────────┐"));
    let mut row: usize = 0;
    while row < SIDE
        invariant
            row <= SIDE,
            glyphs@.len() == SIDE,
            lines@.len() == row + 1,
            lines@[0]@ == "┌─────────────────┐"@,
            forall|i: int|
                1 <= i <= row ==> draws_row(#[trigger] lines@[i]@, glyphs@[i - 1]@, i - 1),
        decreases SIDE - row,
    {
        let line = draw_row(&glyphs[row], row);
        lines.push(line);
        row = row + 1;
    }
    lines.push(String::from_str("└─────────────────┘"));
    lines.push(paint("  a b c d e f g h", Look::Tinted(Tint::Palette(GREY_39))));
    lines.push(String::new());
    proof {
        let drawn = texts(lines@);
        let shown = glyph_rows(glyphs@);
        assert forall|i: int| 1 <= i <= SIDE implies draws_row(
            #[trigger] drawn[i],
            shown[i - 1],
            i - 1,
        ) by {
            assert(shown[i - 1] == glyphs@[i - 1]@);
        }
    }
    lines
}

/// How each square of `board` is drawn when nothing is picked out.
pub open spec fn plain_glyphs(board: Board) -> Seq<Seq<Glyph>> {
    Seq::new(SIDE as nat, |row: int| Seq::new(SIDE as nat, |col: int| board.at(row, col).glyph()))
}

/// How the square at `row` and `col` is drawn when the piece on `origin` is
/// picked out together with the squares that it can move to.
pub open spec fn highlighted_at(board: Board, origin: Square, row: int, col: int) -> Glyph {
    let square = Square { row: row as usize, col: col as usize };
    highlighted_glyph(board, origin, is_destination(board, origin, square), square)
}

/// How each square of `board` is drawn when the piece on `origin` is picked
/// out together with the squares that it can move to.
pub open spec fn highlighted_glyphs(board: Board, origin: Square) -> Seq<Seq<Glyph>> {
    Seq::new(
        SIDE as nat,
        |row: int| Seq::new(SIDE as nat, |col: int| highlighted_at(board, origin, row, col)),
    )
}

/// Decides how each square of `board` is drawn when nothing is picked out.
pub fn chessboard_glyphs(board: &Board) -> (glyphs: Vec<Vec<Glyph>>)
    ensures
        glyph_rows(glyphs@) == plain_glyphs(*board),
        glyphs@.len() == SIDE,
        forall|row: int| 0 <= row < SIDE ==> (#[trigger] glyphs@[row])@.len() == SIDE,
        forall|row: int, col: int|
            0 <= row < SIDE && 0 <= col < SIDE ==> #[trigger] glyphs@[row]@[col] == board.at(
                row,
                col,
            ).glyph(),
{
    let mut glyphs: Vec<Vec<Glyph>> = Vec::new();
    let mut row: usize = 0;
    while row < SIDE
        invariant
            row <= SIDE,
            glyphs@.len() == row,
            forall|r: int|
                0 <= r < row ==> (#[trigger] glyphs@[r])@ == Seq::new(
                    SIDE as nat,
                    |col: int| board.at(r, col).glyph(),
                ),
        decreases SIDE - row,
    {
        let mut glyph_row: Vec<Glyph> = Vec::new();
        let mut col: usize = 0;
        while col < SIDE
            invariant
                row < SIDE,
                col <= SIDE,
                glyph_row@.len() == col,
                forall|c: int|
                    0 <= c < col ==> #[trigger] glyph_row@[c] == board.at(row as int, c).glyph(),
            decreases SIDE - col,
        {
            let glyph = board.cell_at(Square { row, col }).glyph();
            glyph_row.push(glyph);
            col = col + 1;
        }
        glyphs.push(glyph_row);
        row = row + 1;
    }
    glyphs
}

/// Decides how each square of `board` is drawn when the piece on
/// `src_square` is picked out together with the squares it can move to.
pub fn highlight_glyphs(board: &Board, src_square: Square) -> (glyphs: Vec<Vec<Glyph>>)
    requires
        src_square.on_board(),
    ensures
        glyph_rows(glyphs@) == highlighted_glyphs(*board, src_square),
        glyphs@.len() == SIDE,
        forall|row: int| 0 <= row < SIDE ==> (#[trigger] glyphs@[row])@.len() == SIDE,
        forall|row: int, col: int|
            0 <= row < SIDE && 0 <= col < SIDE ==> #[trigger] glyphs@[row]@[col] == highlighted_at(
                *board,
                src_square,
                row,
                col,
            ),
{
    let legal_squares = get_legal_squares(*board, src_square);
    let mut glyphs: Vec<Vec<Glyph>> = Vec::new();
    let mut row: usize = 0;
    while row < SIDE
        invariant
            row <= SIDE,
            glyphs@.len() == row,
            lists_destinations(*board, src_square, legal_squares@),
            forall|r: int|
                0 <= r < row ==> (#[trigger] glyphs@[r])@ == Seq::new(
                    SIDE as nat,
                    |col: int| highlighted_at(*board, src_square, r, col),
                ),
        decreases SIDE - row,
    {
        let mut glyph_row: Vec<Glyph> = Vec::new();
        let mut col: usize = 0;
        while col < SIDE
            invariant
                row < SIDE,
                col <= SIDE,
                glyph_row@.len() == col,
                lists_destinations(*board, src_square, legal_squares@),
                forall|c: int|
                    0 <= c < col ==> #[trigger] glyph_row@[c] == highlighted_at(
                        *board,
                        src_square,
                        row as int,
                        c,
                    ),
            decreases SIDE - col,
        {
            let glyph = highlight_glyph(board, src_square, &legal_squares, Square { row, col });
            glyph_row.push(glyph);
            col = col + 1;
        }
        glyphs.push(glyph_row);
        row = row + 1;
    }
    glyphs
}

/// Draws `board` as the lines of a picture.
pub fn chessboard_lines(board: Board) -> (lines: Vec<String>)
    ensures
        draws_board(texts(lines@), plain_glyphs(board)),
{
    let glyphs = chessboard_glyphs(&board);
    draw_board(&glyphs)
}

/// Draws `board` as the lines of a picture in which the piece on
/// `src_square` and the squares it can move to are picked out.
pub fn highlighted_lines(board: Board, src_square: Square) -> (lines: Vec<String>)
    requires
        src_square.on_board(),
    ensures
        draws_board(texts(lines@), highlighted_glyphs(board, src_square)),
{
    let glyphs = highlight_glyphs(&board, src_square);
    draw_board(&glyphs)
}

} // verus!
