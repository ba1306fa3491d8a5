//! The grid of terminal cells that a message is drawn into.
use ratatui::style::Color;
use ratatui::text::Line;
use ratatui::widgets::{Paragraph, Widget, Wrap};
use unicode_width::UnicodeWidthStr;
use vstd::prelude::*;

verus! {

/// A terminal colour: `ratatui::style::Color`, carried through and only ever compared.
#[verifier::external_type_specification]
#[verifier::external_body]
pub struct ExColor(ratatui::style::Color);

/// A line of styled text: `ratatui::text::Line`, carried from a segment to where it is drawn.
#[verifier::external_type_specification]
#[verifier::external_body]
pub struct ExLine<'a>(ratatui::text::Line<'a>);

/// The number of terminal columns that `unicode_width` gives a text.
pub uninterp spec fn display_width(s: Seq<char>) -> nat;

/// `UnicodeWidthStr::width`: the columns that `s` takes up. What the number is, is left to that
/// crate's tables; it depends on the characters alone.
#[verifier::external_body]
pub(crate) fn text_width(s: &str) -> (w: usize)
    ensures
        w == display_width(s@),
{
    UnicodeWidthStr::width(s)
}

/// The `==` of `ratatui::style::Color`, derived there: equal variants with equal fields.
#[verifier::external_body]
fn same_color(a: Color, b: Color) -> (r: bool)
    ensures
        r == (a == b),
{
    a == b
}

/// An area of the terminal, in columns and rows.
#[derive(Clone, Copy, Debug, PartialEq, Eq, Structural)]
pub struct Rect {
    pub x: u16,
    pub y: u16,
    pub width: u16,
    pub height: u16,
}

/// One cell: the text drawn in it and the colour it is drawn in.
pub struct Cell {
    pub symbol: String,
    pub fg: Color,
}

/// What a cell shows.
pub struct CellView {
    pub symbol: Seq<char>,
    pub fg: Color,
}

impl View for Cell {
    type V = CellView;

    open spec fn view(&self) -> CellView {
        CellView { symbol: self.symbol@, fg: self.fg }
    }
}

/// A grid of cells, row by row, over an area of the terminal.
pub struct Buffer {
    pub area: Rect,
    pub rows: Vec<Vec<Cell>>,
}

/// What a buffer shows: the cell in column `x + i` and row `y + j` of the terminal is
/// `cells[j][i]`.
pub struct Grid {
    pub x: int,
    pub y: int,
    pub width: int,
    pub height: int,
    pub cells: Seq<Seq<CellView>>,
}

impl Grid {
    /// The cell at column `col` and row `row` of the terminal.
    pub open spec fn at(self, col: int, row: int) -> CellView {
        self.cells[row - self.y][col - self.x]
    }

    /// The text in the cell at column `col` and row `row`.
    pub open spec fn sym(self, col: int, row: int) -> Seq<char> {
        self.at(col, row).symbol
    }

    /// Whether the grid has a cell at column `col` and row `row`.
    pub open spec fn has(self, col: int, row: int) -> bool {
        &&& self.x <= col < self.x + self.width
        &&& self.y <= row < self.y + self.height
    }
}

impl View for Buffer {
    type V = Grid;

    open spec fn view(&self) -> Grid {
        Grid {
            x: self.area.x as int,
            y: self.area.y as int,
            width: self.area.width as int,
            height: self.area.height as int,
            cells: Seq::new(
                self.rows@.len(),
                |j: int| Seq::new(self.rows@[j]@.len(), |i: int| self.rows@[j]@[i]@),
            ),
        }
    }
}

impl Buffer {
    /// There is a cell for every position of the area, and the area ends within the terminal's
    /// coordinates.
    pub open spec fn wf(&self) -> bool {
        &&& self.area.x + self.area.width <= u16::MAX
        &&& self.area.y + self.area.height <= u16::MAX
        &&& self.rows@.len() == self.area.height
        &&& forall|j: int|
            0 <= j < self.rows@.len() ==> (#[trigger] self.rows@[j])@.len() == self.area.width
    }

    /// The cell at column `col` and row `row`.
    pub fn cell(&self, col: u16, row: u16) -> (r: &Cell)
        requires
            self.wf(),
            self@.has(col as int, row as int),
        ensures
            r@ == self@.at(col as int, row as int),
    {
        &self.rows[(row - self.area.y) as usize][(col - self.area.x) as usize]
    }
}

/// The colours that tell drawn borders from text.
pub struct Theme {
    /// The foreground of the bar at the left of a code block.
    pub code_gutter: Option<Color>,
    /// The foreground of table borders.
    pub table_border: Option<Color>,
}

/// Whether a cell drawn in `fg` is drawn in the theme colour `wanted`; a theme that sets no
/// colour is matched by none.
pub fn drawn_in(fg: Color, wanted: Option<Color>) -> (r: bool)
    ensures
        r == (wanted == Some(fg)),
{
    match wanted {
        Some(c) => same_color(c, fg),
        None => false,
    }
}

/// What `ratatui` draws when a wrapped paragraph of `lines` is rendered into the left `width`
/// columns of an empty buffer of `canvas` columns and `height` rows.
pub uninterp spec fn drawn(lines: Seq<Line<'static>>, width: u16, canvas: u16, height: u16) -> Grid;

/// `Paragraph::render` of `ratatui`, wrapped to `width` columns with leading spaces kept, into an
/// empty `Buffer`, and the symbol and foreground of each cell of that buffer. The buffer covers
/// `canvas` columns and `height` rows; what its cells show depends on the arguments alone.
///
/// A wrapped line can come out wider than `width`: where a wide symbol no longer fits, the symbols
/// behind it join it on the next line uncounted. It stays below three times `width`, and drawing it
/// writes to the cell of every symbol, so the buffer has to have that many columns; the widths that
/// are added up on the way stay below four times `width`, and have to fit in sixteen bits.
#[verifier::external_body]
fn draw_paragraph(lines: &Vec<Line<'static>>, width: u16, canvas: u16, height: u16) -> (r: Buffer)
    requires
        3 * width <= canvas,
        width <= 16383,
    ensures
        r.wf(),
        r.area == (Rect { x: 0, y: 0, width: canvas, height }),
        r@ == drawn(lines@, width, canvas, height),
{
    let mut buf = ratatui::buffer::Buffer::empty(ratatui::layout::Rect::new(0, 0, canvas, height));
    let area = ratatui::layout::Rect::new(0, 0, width, height);
    Paragraph::new(lines.to_vec()).wrap(Wrap { trim: false }).render(area, &mut buf);
    let cell = |x: u16, y: u16| Cell { symbol: buf[(x, y)].symbol().to_string(), fg: buf[(x, y)].fg };
    Buffer {
        area: Rect { x: 0, y: 0, width: canvas, height },
        rows: (0..height).map(|y| (0..canvas).map(|x| cell(x, y)).collect()).collect(),
    }
}

/// Draws a message, `width` columns wide. The columns of the buffer behind those catch the symbols
/// of lines that come out too wide, and are not part of the message.
pub fn draw_message(lines: &Vec<Line<'static>>, width: u16, height: u16) -> (r: Buffer)
    requires
        width <= 16383,
    ensures
        r.wf(),
        r.area == (Rect { x: 0, y: 0, width: (3 * width) as u16, height }),
        r@ == drawn(lines@, width, (3 * width) as u16, height),
{
    draw_paragraph(lines, width, 3 * width, height)
}

} // verus!
