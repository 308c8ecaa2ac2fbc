use vstd::prelude::*;
use crate::point::Point;

verus! {

/// The glyph drawn for a snake segment.
pub const BODY_GLYPH: u8 = 0xFE;

/// The glyph drawn for the food.
pub const FOOD_GLYPH: u8 = 0x2A;

/// The sixteen colours of a text-mode character cell.
#[derive(Clone, Copy, Debug, PartialEq, Eq, Structural)]
pub enum Color {
    Black,
    Blue,
    Green,
    Cyan,
    Red,
    Magenta,
    Brown,
    LightGray,
    DarkGray,
    LightBlue,
    LightGreen,
    LightCyan,
    LightRed,
    Pink,
    Yellow,
    White,
}

/// One write to the display: a glyph in a colour pair at a row and column.
#[derive(Clone, Copy, Debug, PartialEq, Eq, Structural)]
pub struct Cell {
    pub row: usize,
    pub column: usize,
    pub glyph: u8,
    pub foreground: Color,
    pub background: Color,
}

/// The cell that draws a snake segment at `p`.
pub open spec fn body_cell_spec(p: Point) -> Cell {
    Cell { row: p.1 as usize, column: p.0 as usize, glyph: BODY_GLYPH, foreground: Color::LightGreen, background: Color::Black }
}

/// The cell that draws the food at `p`.
pub open spec fn food_cell_spec(p: Point) -> Cell {
    Cell { row: p.1 as usize, column: p.0 as usize, glyph: FOOD_GLYPH, foreground: Color::Red, background: Color::Black }
}

/// A frame: one cell per live segment, head first, then the food, drawn
/// last so that nothing covers it.
pub open spec fn frame_spec(body: Seq<Point>, food: Point) -> Seq<Cell> {
    Seq::new(body.len() + 1, |i: int| if i < body.len() { body_cell_spec(body[i]) } else { food_cell_spec(food) })
}

/// The write that draws a snake segment at `p`.
pub fn body_cell(p: Point) -> (r: Cell)
    ensures
        r == body_cell_spec(p),
{
    Cell { row: p.1 as usize, column: p.0 as usize, glyph: BODY_GLYPH, foreground: Color::LightGreen, background: Color::Black }
}

/// The write that draws the food at `p`.
pub fn food_cell(p: Point) -> (r: Cell)
    ensures
        r == food_cell_spec(p),
{
    Cell { row: p.1 as usize, column: p.0 as usize, glyph: FOOD_GLYPH, foreground: Color::Red, background: Color::Black }
}

} // verus!
