use vstd::prelude::*;

use crate::cell::Cell;

verus! {

/// Toroidal wrap of an index into `[0, n)`, defined for `i` in `[-n, 2n)`:
/// `-1` wraps to `n - 1` and `n` wraps to `0`.
pub open spec fn wrap_index(i: int, n: int) -> int {
    if i < 0 {
        i + n
    } else if i >= n {
        i - n
    } else {
        i
    }
}

/// A grid is well formed when it has exactly `h` rows of `w` cells each.
pub open spec fn grid_wf(g: Seq<Seq<Cell>>, w: int, h: int) -> bool {
    &&& g.len() == h
    &&& forall|y: int| 0 <= y < h ==> (#[trigger] g[y]).len() == w
}

/// 1 if the cell at toroidal position `(x, y)` is `Living`, else 0.
/// `x` and `y` may run one step outside the grid in either direction;
/// they are wrapped before the lookup.
pub open spec fn live_at(g: Seq<Seq<Cell>>, w: int, h: int, x: int, y: int) -> int {
    if g[wrap_index(y, h)][wrap_index(x, w)] is Living {
        1
    } else {
        0
    }
}

/// Number of `Living` cells among the 8 toroidal neighbors of `(x, y)`.
pub open spec fn neighbor_count(g: Seq<Seq<Cell>>, w: int, h: int, x: int, y: int) -> int {
    live_at(g, w, h, x - 1, y - 1) + live_at(g, w, h, x, y - 1) + live_at(g, w, h, x + 1, y - 1)
        + live_at(g, w, h, x - 1, y) + live_at(g, w, h, x + 1, y) + live_at(g, w, h, x - 1, y + 1)
        + live_at(g, w, h, x, y + 1) + live_at(g, w, h, x + 1, y + 1)
}

/// The standard Life rule: a `Living` cell with 2 or 3 living neighbors
/// stays `Living`, an `Empty` cell with exactly 3 living neighbors becomes
/// `Living`, and every other combination yields `Empty`.
pub open spec fn life_rule(c: Cell, living_neighbors: int) -> Cell {
    if living_neighbors == 3 {
        Cell::Living
    } else if living_neighbors == 2 && c is Living {
        Cell::Living
    } else {
        Cell::Empty
    }
}

/// One synchronous generation step of a `w x h` toroidal grid: every output
/// cell is computed from the input grid alone.
pub open spec fn step_spec(g: Seq<Seq<Cell>>, w: int, h: int) -> Seq<Seq<Cell>> {
    Seq::new(
        h as nat,
        |y: int| Seq::new(w as nat, |x: int| life_rule(g[y][x], neighbor_count(g, w, h, x, y))),
    )
}

/// The mathematical contents of a vector of rows.
pub open spec fn rows_view(rows: Seq<Vec<Cell>>) -> Seq<Seq<Cell>> {
    rows.map_values(|r: Vec<Cell>| r@)
}

/// A row of `w` `Empty` cells.
pub open spec fn empty_row_spec(w: int) -> Seq<Cell> {
    Seq::new(w as nat, |x: int| Cell::Empty)
}

/// `row` brought to length `w`: surviving cells keep their values, cells
/// past the old length are `Empty`.
pub open spec fn resized_row_spec(row: Seq<Cell>, w: int) -> Seq<Cell> {
    Seq::new(w as nat, |x: int| if x < row.len() { row[x] } else { Cell::Empty })
}

/// `g` brought to `h` rows of width `w`: surviving rows keep their values,
/// rows past the old height are all `Empty`.
pub open spec fn resized_grid_spec(g: Seq<Seq<Cell>>, w: int, h: int) -> Seq<Seq<Cell>> {
    Seq::new(h as nat, |y: int| if y < g.len() { g[y] } else { empty_row_spec(w) })
}

/// Toroidal symmetry of the neighborhood: an index one below 0 denotes the
/// last row or column, and an index one past the end denotes row or column 0.
pub proof fn lemma_toroidal_neighbors(g: Seq<Seq<Cell>>, w: int, h: int, x: int, y: int)
    requires
        1 <= w,
        1 <= h,
        0 <= x < w,
        0 <= y < h,
    ensures
        live_at(g, w, h, -1, y) == live_at(g, w, h, w - 1, y),
        live_at(g, w, h, w, y) == live_at(g, w, h, 0, y),
        live_at(g, w, h, x, -1) == live_at(g, w, h, x, h - 1),
        live_at(g, w, h, x, h) == live_at(g, w, h, x, 0),
{
}

/// A fresh copy of `row` brought to length `w`: surviving cells keep their
/// values, cells past the old length are `Empty`.
fn resized_copy(row: &Vec<Cell>, w: usize) -> (out: Vec<Cell>)
    ensures
        out@ == resized_row_spec(row@, w as int),
{
    let mut out: Vec<Cell> = Vec::new();
    let mut x: usize = 0;
    while x < w
        invariant
            x <= w,
            out@.len() == x,
            forall|i: int| 0 <= i < x ==> (#[trigger] out@[i]) == (if i < row@.len() {
                row@[i]
            } else {
                Cell::Empty
            }),
        decreases w - x,
    {
        let c = if x < row.len() {
            row[x]
        } else {
            Cell::Empty
        };
        out.push(c);
        x = x + 1;
    }
    proof {
        assert(out@ =~= resized_row_spec(row@, w as int));
    }
    out
}

/// A fresh row of `w` `Empty` cells.
fn empty_row(w: usize) -> (out: Vec<Cell>)
    ensures
        out@ == empty_row_spec(w as int),
{
    let mut out: Vec<Cell> = Vec::new();
    let mut x: usize = 0;
    while x < w
        invariant
            x <= w,
            out@.len() == x,
            forall|i: int| 0 <= i < x ==> (#[trigger] out@[i]) is Empty,
        decreases w - x,
    {
        out.push(Cell::Empty);
        x = x + 1;
    }
    proof {
        assert(out@ =~= empty_row_spec(w as int));
    }
    out
}

/// The index one below `i` on a ring of size `n`.
fn wrap_dec(i: usize, n: usize) -> (r: usize)
    requires
        0 < n,
        i < n,
    ensures
        r as int == wrap_index(i as int - 1, n as int),
        r < n,
{
    if i == 0 {
        n - 1
    } else {
        i - 1
    }
}

/// The index one above `i` on a ring of size `n`.
fn wrap_inc(i: usize, n: usize) -> (r: usize)
    requires
        0 < n,
        i < n,
    ensures
        r as int == wrap_index(i as int + 1, n as int),
        r < n,
{
    if i + 1 == n {
        0
    } else {
        i + 1
    }
}

/// Relies on rand::random_ratio: a random boolean that is `true` with
/// probability `numerator / denominator`. Its documentation guarantees the
/// result is `false` when the numerator is 0 and `true` when numerator and
/// denominator are equal, and that the call panics when the denominator is 0
/// or the numerator exceeds it, so those inputs are excluded here.
#[verifier::external_body]
fn random_with_ratio(numerator: u32, denominator: u32) -> (alive: bool)
    requires
        0 < denominator,
        numerator <= denominator,
    ensures
        numerator == 0 ==> !alive,
        numerator == denominator ==> alive,
{
    rand::random_ratio(numerator, denominator)
}

/// The live simulation grid: `height` rows of `width` cells on a torus.
pub struct Screen {
    width: u16,
    height: u16,
    cells: Vec<Vec<Cell>>,
}

impl Screen {
    /// The grid as a sequence of rows of cells.
    pub closed spec fn grid(&self) -> Seq<Seq<Cell>> {
        rows_view(self.cells@)
    }

    pub closed spec fn spec_width(&self) -> int {
        self.width as int
    }

    pub closed spec fn spec_height(&self) -> int {
        self.height as int
    }

    pub open spec fn wf(&self) -> bool {
        grid_wf(self.grid(), self.spec_width(), self.spec_height())
    }

    pub fn width(&self) -> (w: u16)
        ensures
            w as int == self.spec_width(),
    {
        self.width
    }

    pub fn height(&self) -> (h: u16)
        ensures
            h as int == self.spec_height(),
    {
        self.height
    }

    /// The cell at column `x` of row `y`.
    pub fn get(&self, x: u16, y: u16) -> (c: Cell)
        requires
            self.wf(),
            (x as int) < self.spec_width(),
            (y as int) < self.spec_height(),
        ensures
            c == self.grid()[y as int][x as int],
    {
        self.cells[y as usize][x as usize]
    }

    /// A new grid seeded at random: each cell is independently `Living`
    /// with probability `numerator / denominator`.
    pub fn new(width: u16, height: u16, numerator: u32, denominator: u32) -> (s: Screen)
        requires
            0 < denominator,
            numerator <= denominator,
        ensures
            s.wf(),
            s.spec_width() == width,
            s.spec_height() == height,
            numerator == 0 ==> forall|y: int, x: int|
                0 <= y < height && 0 <= x < width ==> s.grid()[y][x] is Empty,
            numerator == denominator ==> forall|y: int, x: int|
                0 <= y < height && 0 <= x < width ==> s.grid()[y][x] is Living,
    {
        let w = width as usize;
        let h = height as usize;
        let mut cells: Vec<Vec<Cell>> = Vec::new();
        let mut y: usize = 0;
        while y < h
            invariant
                y <= h,
                0 < denominator,
                numerator <= denominator,
                cells@.len() == y,
                forall|yy: int| 0 <= yy < y ==> (#[trigger] cells@[yy])@.len() == w,
                numerator == 0 ==> forall|yy: int, xx: int|
                    0 <= yy < y && 0 <= xx < w ==> (#[trigger] cells@[yy]@[xx]) is Empty,
                numerator == denominator ==> forall|yy: int, xx: int|
                    0 <= yy < y && 0 <= xx < w ==> (#[trigger] cells@[yy]@[xx]) is Living,
            decreases h - y,
        {
            let mut row: Vec<Cell> = Vec::new();
            let mut x: usize = 0;
            while x < w
                invariant
                    x <= w,
                    0 < denominator,
                    numerator <= denominator,
                    row@.len() == x,
                    numerator == 0 ==> forall|xx: int| 0 <= xx < x ==> (#[trigger] row@[xx]) is Empty,
                    numerator == denominator ==> forall|xx: int|
                        0 <= xx < x ==> (#[trigger] row@[xx]) is Living,
                decreases w - x,
            {
                let alive = random_with_ratio(numerator, denominator);
                row.push(if alive { Cell::Living } else { Cell::Empty });
                x = x + 1;
            }
            cells.push(row);
            y = y + 1;
        }
        let s = Screen { width, height, cells };
        proof {
            assert forall|yy: int| 0 <= yy < height implies (#[trigger] s.grid()[yy]).len()
                == width by {
                assert(s.grid()[yy] == s.cells@[yy]@);
            }
        }
        s
    }

    /// 1 if the cell at `(x, y)` is `Living`, else 0.
    fn live_bit(&self, x: usize, y: usize) -> (b: u8)
        requires
            self.wf(),
            (x as int) < self.spec_width(),
            (y as int) < self.spec_height(),
        ensures
            b as int == (if self.grid()[y as int][x as int] is Living {
                1int
            } else {
                0int
            }),
    {
        match self.cells[y][x] {
            Cell::Living => 1,
            Cell::Empty => 0,
        }
    }

    /// Count the `Living` cells among the 8 toroidal neighbors of `(x, y)`.
    fn count_living_neighbors(&self, x: usize, y: usize) -> (n: u8)
        requires
            self.wf(),
            0 < self.spec_width(),
            0 < self.spec_height(),
            (x as int) < self.spec_width(),
            (y as int) < self.spec_height(),
        ensures
            n as int == neighbor_count(
                self.grid(),
                self.spec_width(),
                self.spec_height(),
                x as int,
                y as int,
            ),
    {
        let w = self.width as usize;
        let h = self.height as usize;
        let xm = wrap_dec(x, w);
        let xp = wrap_inc(x, w);
        let ym = wrap_dec(y, h);
        let yp = wrap_inc(y, h);
        let n = self.live_bit(xm, ym) + self.live_bit(x, ym) + self.live_bit(xp, ym)
            + self.live_bit(xm, y) + self.live_bit(xp, y) + self.live_bit(xm, yp)
            + self.live_bit(x, yp) + self.live_bit(xp, yp);
        proof {
            let g = self.grid();
            let wi = self.spec_width();
            let hi = self.spec_height();
            assert(live_at(g, wi, hi, x - 1, y - 1) == (if g[ym as int][xm as int] is Living {
                1int
            } else {
                0int
            }));
            assert(live_at(g, wi, hi, x + 1, y + 1) == (if g[yp as int][xp as int] is Living {
                1int
            } else {
                0int
            }));
        }
        n
    }

    /// Advance the grid by one generation of the standard Life rule on the
    /// torus. Every output cell is computed from a snapshot of the current
    /// grid, so no update of this step is visible to another cell of the
    /// same step. A grid with no rows or no columns has no cells to update.
    pub fn next(&mut self)
        requires
            old(self).wf(),
        ensures
            final(self).wf(),
            final(self).spec_width() == old(self).spec_width(),
            final(self).spec_height() == old(self).spec_height(),
            final(self).grid() == step_spec(
                old(self).grid(),
                old(self).spec_width(),
                old(self).spec_height(),
            ),
    {
        let w = self.width as usize;
        let h = self.height as usize;
        let ghost g0 = self.grid();
        let ghost wi = self.spec_width();
        let ghost hi = self.spec_height();
        let mut rows: Vec<Vec<Cell>> = Vec::new();
        let mut y: usize = 0;
        while y < h
            invariant
                *self == *old(self),
                self.wf(),
                w == self.spec_width(),
                h == self.spec_height(),
                g0 == self.grid(),
                wi == self.spec_width(),
                hi == self.spec_height(),
                y <= h,
                rows@.len() == y,
                forall|yy: int| 0 <= yy < y ==> (#[trigger] rows@[yy])@ == step_spec(g0, wi, hi)[yy],
            decreases h - y,
        {
            let mut row: Vec<Cell> = Vec::new();
            let mut x: usize = 0;
            while x < w
                invariant
                    *self == *old(self),
                    self.wf(),
                    w == self.spec_width(),
                    h == self.spec_height(),
                    g0 == self.grid(),
                    wi == self.spec_width(),
                    hi == self.spec_height(),
                    y < h,
                    x <= w,
                    row@.len() == x,
                    forall|xx: int| 0 <= xx < x ==> (#[trigger] row@[xx]) == life_rule(
                        g0[y as int][xx],
                        neighbor_count(g0, wi, hi, xx, y as int),
                    ),
                decreases w - x,
            {
                let living_neighbors = self.count_living_neighbors(x, y);
                let c = self.cells[y][x];
                let updated = if living_neighbors == 3 {
                    Cell::Living
                } else if living_neighbors == 2 && c == Cell::Living {
                    Cell::Living
                } else {
                    Cell::Empty
                };
                row.push(updated);
                x = x + 1;
            }
            proof {
                assert(row@ =~= step_spec(g0, wi, hi)[y as int]);
            }
            rows.push(row);
            y = y + 1;
        }
        self.cells = rows;
        proof {
            assert forall|yy: int| 0 <= yy < hi implies (#[trigger] self.grid()[yy]) == step_spec(
                g0,
                wi,
                hi,
            )[yy] by {
                assert(self.grid()[yy] == self.cells@[yy]@);
            }
            assert(self.grid() =~= step_spec(g0, wi, hi));
        }
    }

    /// Bring every row to length `width`: pad new cells with `Empty`,
    /// truncate removed cells, leave surviving cells untouched. A no-op
    /// when the width is unchanged.
    pub fn set_width(&mut self, width: u16)
        requires
            old(self).wf(),
        ensures
            final(self).wf(),
            final(self).spec_width() == width,
            final(self).spec_height() == old(self).spec_height(),
            forall|y: int| 0 <= y < old(self).spec_height() ==> (#[trigger] final(self).grid()[y])
                == resized_row_spec(old(self).grid()[y], width as int),
    {
        let ghost g0 = self.grid();
        if self.width != width {
            self.width = width;
            let w = width as usize;
            let h = self.cells.len();
            let mut rows: Vec<Vec<Cell>> = Vec::new();
            let mut y: usize = 0;
            while y < h
                invariant
                    self.cells@ == old(self).cells@,
                    self.width == width,
                    self.height == old(self).height,
                    g0 == rows_view(self.cells@),
                    grid_wf(g0, old(self).spec_width(), old(self).spec_height()),
                    h == self.cells@.len(),
                    w == width as int,
                    y <= h,
                    rows@.len() == y,
                    forall|yy: int| 0 <= yy < y ==> (#[trigger] rows@[yy])@ == resized_row_spec(
                        g0[yy],
                        w as int,
                    ),
                decreases h - y,
            {
                proof {
                    assert(g0[y as int] == self.cells@[y as int]@);
                }
                let row = resized_copy(&self.cells[y], w);
                rows.push(row);
                y = y + 1;
            }
            self.cells = rows;
            proof {
                assert forall|yy: int| 0 <= yy < old(self).spec_height() implies (
                #[trigger] self.grid()[yy]) == resized_row_spec(g0[yy], width as int) by {
                    assert(self.grid()[yy] == self.cells@[yy]@);
                }
            }
        } else {
            proof {
                assert forall|yy: int| 0 <= yy < old(self).spec_height() implies (
                #[trigger] self.grid()[yy]) == resized_row_spec(g0[yy], width as int) by {
                    assert(self.grid()[yy] =~= resized_row_spec(g0[yy], width as int));
                }
            }
        }
    }

    /// Bring the grid to `height` rows: pad with rows of `Empty` cells,
    /// truncate removed rows, leave surviving rows untouched. A no-op when
    /// the height is unchanged.
    pub fn set_height(&mut self, height: u16)
        requires
            old(self).wf(),
        ensures
            final(self).wf(),
            final(self).spec_width() == old(self).spec_width(),
            final(self).spec_height() == height,
            final(self).grid() == resized_grid_spec(
                old(self).grid(),
                old(self).spec_width(),
                height as int,
            ),
    {
        let ghost g0 = self.grid();
        let ghost wi = self.spec_width();
        if self.height != height {
            self.height = height;
            let h = height as usize;
            if h <= self.cells.len() {
                self.cells.truncate(h);
                proof {
                    assert forall|yy: int| 0 <= yy < h implies (#[trigger] self.grid()[yy])
                        == resized_grid_spec(g0, wi, h as int)[yy] by {
                        assert(self.grid()[yy] == self.cells@[yy]@);
                        assert(g0[yy] == old(self).cells@[yy]@);
                    }
                    assert(self.grid() =~= resized_grid_spec(g0, wi, h as int));
                }
            } else {
                let w = self.width as usize;
                while self.cells.len() < h
                    invariant
                        self.width == old(self).width,
                        self.height == height,
                        w == wi,
                        g0.len() <= self.cells@.len() <= h,
                        g0 == rows_view(self.cells@).subrange(0, g0.len() as int),
                        grid_wf(g0, wi, g0.len() as int),
                        forall|yy: int| g0.len() <= yy < self.cells@.len() ==> (
                        #[trigger] self.cells@[yy])@ == empty_row_spec(wi),
                    decreases h - self.cells@.len(),
                {
                    let row = empty_row(w);
                    self.cells.push(row);
                    proof {
                        assert(g0 =~= rows_view(self.cells@).subrange(0, g0.len() as int));
                    }
                }
                proof {
                    assert forall|yy: int| 0 <= yy < h implies (#[trigger] self.grid()[yy])
                        == resized_grid_spec(g0, wi, h as int)[yy] by {
                        assert(self.grid()[yy] == self.cells@[yy]@);
                        if yy < g0.len() {
                            assert(g0[yy] == rows_view(self.cells@).subrange(0, g0.len() as int)[yy]);
                        }
                    }
                    assert(self.grid() =~= resized_grid_spec(g0, wi, h as int));
                }
            }
        } else {
            proof {
                assert(self.grid() =~= resized_grid_spec(g0, wi, height as int));
            }
        }
    }

    /// Bring the grid to `width` columns and `height` rows. A cell that
    /// exists before and after keeps its value at its coordinates; every
    /// newly created cell is `Empty`.
    pub fn set_aspects(&mut self, width: u16, height: u16)
        requires
            old(self).wf(),
        ensures
            final(self).wf(),
            final(self).spec_width() == width,
            final(self).spec_height() == height,
            forall|y: int, x: int|
                0 <= y < height && 0 <= x < width ==> #[trigger] final(self).grid()[y][x] == (if y
                    < old(self).spec_height() && x < old(self).spec_width() {
                    old(self).grid()[y][x]
                } else {
                    Cell::Empty
                }),
    {
        let ghost g0 = self.grid();
        let ghost w0 = self.spec_width();
        let ghost h0 = self.spec_height();
        self.set_width(width);
        let ghost g1 = self.grid();
        self.set_height(height);
        proof {
            assert forall|y: int, x: int| 0 <= y < height && 0 <= x < width implies #[trigger] self
                .grid()[y][x] == (if y < h0 && x < w0 {
                g0[y][x]
            } else {
                Cell::Empty
            }) by {
                if y < h0 {
                    assert(g1[y] == resized_row_spec(g0[y], width as int));
                }
            }
        }
    }

    /// The current generation as an owned frame, ready to hand to the
    /// relay buffer: a fresh copy, so later steps never mutate a frame a
    /// consumer may hold.
    pub fn frame(&self) -> (f: Vec<Vec<Cell>>)
        requires
            self.wf(),
        ensures
            rows_view(f@) == self.grid(),
    {
        let h = self.cells.len();
        let mut rows: Vec<Vec<Cell>> = Vec::new();
        let mut y: usize = 0;
        while y < h
            invariant
                self.wf(),
                h == self.grid().len(),
                y <= h,
                rows@.len() == y,
                forall|yy: int| 0 <= yy < y ==> (#[trigger] rows@[yy])@ == self.grid()[yy],
            decreases h - y,
        {
            proof {
                assert(self.grid()[y as int] == self.cells@[y as int]@);
            }
            let src_row = &self.cells[y];
            let w = src_row.len();
            let mut row: Vec<Cell> = Vec::new();
            let mut x: usize = 0;
            while x < w
                invariant
                    w == src_row@.len(),
                    x <= w,
                    row@.len() == x,
                    forall|xx: int| 0 <= xx < x ==> (#[trigger] row@[xx]) == src_row@[xx],
                decreases w - x,
            {
                row.push(src_row[x]);
                x = x + 1;
            }
            proof {
                assert(row@ =~= src_row@);
            }
            rows.push(row);
            y = y + 1;
        }
        proof {
            assert(rows_view(rows@) =~= self.grid());
        }
        rows
    }

    /// A grid built from the given rows; `cells` must be `height` rows of
    /// `width` cells each.
    pub fn from_cells(width: u16, height: u16, cells: Vec<Vec<Cell>>) -> (s: Screen)
        requires
            grid_wf(rows_view(cells@), width as int, height as int),
        ensures
            s.wf(),
            s.spec_width() == width,
            s.spec_height() == height,
            s.grid() == rows_view(cells@),
    {
        Screen { width, height, cells }
    }
}

} // verus!
