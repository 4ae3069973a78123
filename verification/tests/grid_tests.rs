use life_relay::render_row;
use life_relay::Cell;
use life_relay::Screen;

fn grid_of(rows: &[&str]) -> Vec<Vec<Cell>> {
    rows.iter()
        .map(|r| {
            r.chars()
                .map(|c| if c == 'o' { Cell::Living } else { Cell::Empty })
                .collect()
        })
        .collect()
}

fn screen_of(rows: &[&str]) -> Screen {
    let cells = grid_of(rows);
    let height = cells.len() as u16;
    let width = if cells.is_empty() { 0 } else { cells[0].len() as u16 };
    Screen::from_cells(width, height, cells)
}

#[test]
fn toroidal_wrap_births_across_edges() {
    // A full bottom row on a 3x3 torus: every cell of the other two rows
    // sees all three living cells as neighbors (row 0 through the wrap,
    // treating row index -1 as row 2), and each living cell sees exactly
    // its two row-mates. Everything is Living after one step; without the
    // wrap the top row would stay empty.
    let mut s = screen_of(&["...", "...", "ooo"]);
    s.next();
    assert_eq!(s.frame(), grid_of(&["ooo", "ooo", "ooo"]));
    // On a 3x3 torus every cell of the full grid has 8 living neighbors,
    // so the next step empties it entirely.
    s.next();
    assert_eq!(s.frame(), grid_of(&["...", "...", "..."]));
}

#[test]
fn still_life_block_is_unchanged() {
    // A 2x2 block surrounded by Empty cells on a 4x4 torus: each living
    // cell has exactly 3 living neighbors, each empty cell at most 2.
    let block = &["....", ".oo.", ".oo.", "...."];
    let mut s = screen_of(block);
    s.next();
    assert_eq!(s.frame(), grid_of(block));
    s.next();
    assert_eq!(s.frame(), grid_of(block));
}

#[test]
fn blinker_oscillates() {
    // A horizontal blinker centered in a 5x5 grid becomes vertical after
    // one step and returns to horizontal after two.
    let horizontal = &[".....", ".....", ".ooo.", ".....", "....."];
    let vertical = &[".....", "..o..", "..o..", "..o..", "....."];
    let mut s = screen_of(horizontal);
    s.next();
    assert_eq!(s.frame(), grid_of(vertical));
    s.next();
    assert_eq!(s.frame(), grid_of(horizontal));
}

#[test]
fn resize_grow_preserves_cells_and_pads_empty() {
    let mut s = screen_of(&["o.o", ".o."]);
    s.set_aspects(5, 4);
    assert_eq!(s.width(), 5);
    assert_eq!(s.height(), 4);
    assert_eq!(s.frame(), grid_of(&["o.o..", ".o...", ".....", "....."]));
}

#[test]
fn resize_shrink_truncates_without_touching_survivors() {
    let mut s = screen_of(&["o.o", ".oo", "ooo"]);
    s.set_aspects(2, 2);
    assert_eq!(s.frame(), grid_of(&["o.", ".o"]));
}

#[test]
fn resize_same_dimensions_is_noop() {
    let mut s = screen_of(&["o.", ".o"]);
    s.set_aspects(2, 2);
    assert_eq!(s.frame(), grid_of(&["o.", ".o"]));
}

#[test]
fn seed_ratio_zero_gives_empty_grid() {
    let s = Screen::new(7, 4, 0, 1000);
    assert_eq!(s.width(), 7);
    assert_eq!(s.height(), 4);
    assert_eq!(s.frame(), grid_of(&[".......", ".......", ".......", "......."]));
}

#[test]
fn seed_ratio_one_gives_living_grid() {
    let s = Screen::new(3, 2, 1000, 1000);
    assert_eq!(s.frame(), grid_of(&["ooo", "ooo"]));
}

#[test]
fn degenerate_empty_grid_steps_safely() {
    let mut s = Screen::new(0, 0, 1, 2);
    s.next();
    assert_eq!(s.width(), 0);
    assert_eq!(s.height(), 0);
    assert_eq!(s.frame(), Vec::<Vec<Cell>>::new());
    s.set_aspects(2, 1);
    s.next();
    assert_eq!(s.frame(), grid_of(&[".."]));
}

#[test]
fn single_cell_torus_dies() {
    // On a 1x1 torus the cell's 8 neighbor lookups all wrap back to
    // itself: a living cell counts 8 living neighbors and dies.
    let mut s = screen_of(&["o"]);
    s.next();
    assert_eq!(s.frame(), grid_of(&["."]));
}

#[test]
fn get_reads_cells() {
    let s = screen_of(&["o.", ".o"]);
    assert_eq!(s.get(0, 0), Cell::Living);
    assert_eq!(s.get(1, 0), Cell::Empty);
    assert_eq!(s.get(1, 1), Cell::Living);
}

#[test]
fn render_row_maps_cells_to_glyphs() {
    let row = vec![Cell::Living, Cell::Empty, Cell::Empty, Cell::Living];
    assert_eq!(render_row(&row), vec!['o', ' ', ' ', 'o']);
    assert_eq!(render_row(&Vec::new()), Vec::<char>::new());
}
