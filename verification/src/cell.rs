use vstd::prelude::*;

verus! {

/// The state of one grid position. The core models no further metadata
/// (no age, no color).
#[derive(Debug, Clone, Copy, PartialEq, Eq, Structural)]
pub enum Cell {
    Empty,
    Living,
}

/// One fully computed generation of the grid, ready for display:
/// `height` rows of `width` cells each.
pub type OwnedCells = Vec<Vec<Cell>>;

/// The glyph a cell is displayed as: a blank for `Empty`, a filled
/// mark for `Living`.
pub open spec fn glyph_of(c: Cell) -> char {
    if c is Living {
        'o'
    } else {
        ' '
    }
}

/// Map one row of cells to the glyphs that display it, in order.
pub fn render_row(row: &Vec<Cell>) -> (glyphs: Vec<char>)
    ensures
        glyphs@.len() == row@.len(),
        forall|i: int| 0 <= i < row@.len() ==> glyphs@[i] == glyph_of(row@[i]),
{
    let mut glyphs: Vec<char> = Vec::new();
    let mut x: usize = 0;
    while x < row.len()
        invariant
            x <= row@.len(),
            glyphs@.len() == x,
            forall|i: int| 0 <= i < x ==> glyphs@[i] == glyph_of(row@[i]),
        decreases row@.len() - x,
    {
        let g: char = match row[x] {
            Cell::Living => 'o',
            Cell::Empty => ' ',
        };
        glyphs.push(g);
        x = x + 1;
    }
    glyphs
}

} // verus!
