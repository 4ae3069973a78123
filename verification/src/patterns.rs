use vstd::prelude::*;

use crate::cell::Cell;
use crate::screen::live_at;
use crate::screen::step_spec;
use crate::screen::wrap_index;

verus! {

/// A `w x h` grid whose only `Living` cells form a 2x2 block with
/// upper-left corner `(bx, by)`.
pub open spec fn block_grid(w: int, h: int, bx: int, by: int) -> Seq<Seq<Cell>> {
    Seq::new(
        h as nat,
        |y: int|
            Seq::new(
                w as nat,
                |x: int|
                    if bx <= x <= bx + 1 && by <= y <= by + 1 {
                        Cell::Living
                    } else {
                        Cell::Empty
                    },
            ),
    )
}

/// A `w x h` grid whose only `Living` cells are a horizontal 3-cell
/// blinker centered at `(cx, cy)`.
pub open spec fn blinker_h_grid(w: int, h: int, cx: int, cy: int) -> Seq<Seq<Cell>> {
    Seq::new(
        h as nat,
        |y: int|
            Seq::new(
                w as nat,
                |x: int|
                    if y == cy && cx - 1 <= x <= cx + 1 {
                        Cell::Living
                    } else {
                        Cell::Empty
                    },
            ),
    )
}

/// A `w x h` grid whose only `Living` cells are a vertical 3-cell blinker
/// centered at `(cx, cy)`.
pub open spec fn blinker_v_grid(w: int, h: int, cx: int, cy: int) -> Seq<Seq<Cell>> {
    Seq::new(
        h as nat,
        |y: int|
            Seq::new(
                w as nat,
                |x: int|
                    if x == cx && cy - 1 <= y <= cy + 1 {
                        Cell::Living
                    } else {
                        Cell::Empty
                    },
            ),
    )
}

/// On a block grid whose block keeps one cell of distance from every
/// edge, a neighbor lookup — wrapped or not — sees a living cell exactly
/// at the block's own coordinates.
proof fn lemma_block_live_at(w: int, h: int, bx: int, by: int, xx: int, yy: int)
    requires
        1 <= bx,
        bx + 1 <= w - 2,
        1 <= by,
        by + 1 <= h - 2,
        -1 <= xx <= w,
        -1 <= yy <= h,
    ensures
        live_at(block_grid(w, h, bx, by), w, h, xx, yy) == (if bx <= xx <= bx + 1 && by <= yy <= by
            + 1 {
            1int
        } else {
            0int
        }),
{
    let wx = wrap_index(xx, w);
    let wy = wrap_index(yy, h);
    assert(0 <= wx < w);
    assert(0 <= wy < h);
    assert(block_grid(w, h, bx, by)[wy][wx] == (if bx <= wx <= bx + 1 && by <= wy <= by + 1 {
        Cell::Living
    } else {
        Cell::Empty
    }));
}

/// Still-life invariant: a 2x2 block of `Living` cells surrounded by
/// `Empty` cells is unchanged by one step, on any torus in which the
/// block keeps one cell of distance from every edge — each living cell
/// has exactly 3 living neighbors, and every empty cell sees at most 2.
pub proof fn lemma_block_still_life(w: int, h: int, bx: int, by: int)
    requires
        1 <= bx,
        bx + 1 <= w - 2,
        1 <= by,
        by + 1 <= h - 2,
    ensures
        step_spec(block_grid(w, h, bx, by), w, h) == block_grid(w, h, bx, by),
{
    let g = block_grid(w, h, bx, by);
    assert forall|y: int| 0 <= y < h implies (#[trigger] step_spec(g, w, h)[y]) == g[y] by {
        assert forall|x: int| 0 <= x < w implies (#[trigger] step_spec(g, w, h)[y][x]) == g[y][x] by {
            lemma_block_live_at(w, h, bx, by, x - 1, y - 1);
            lemma_block_live_at(w, h, bx, by, x, y - 1);
            lemma_block_live_at(w, h, bx, by, x + 1, y - 1);
            lemma_block_live_at(w, h, bx, by, x - 1, y);
            lemma_block_live_at(w, h, bx, by, x + 1, y);
            lemma_block_live_at(w, h, bx, by, x - 1, y + 1);
            lemma_block_live_at(w, h, bx, by, x, y + 1);
            lemma_block_live_at(w, h, bx, by, x + 1, y + 1);
        }
        assert(step_spec(g, w, h)[y] =~= g[y]);
    }
    assert(step_spec(g, w, h) =~= g);
}

/// On a horizontal-blinker grid whose blinker keeps two cells of
/// distance from the left and right edges and two rows from the top and
/// bottom, a neighbor lookup sees a living cell exactly at the blinker's
/// own coordinates.
proof fn lemma_blinker_h_live_at(w: int, h: int, cx: int, cy: int, xx: int, yy: int)
    requires
        2 <= cx <= w - 3,
        2 <= cy <= h - 3,
        -1 <= xx <= w,
        -1 <= yy <= h,
    ensures
        live_at(blinker_h_grid(w, h, cx, cy), w, h, xx, yy) == (if yy == cy && cx - 1 <= xx <= cx
            + 1 {
            1int
        } else {
            0int
        }),
{
    let wx = wrap_index(xx, w);
    let wy = wrap_index(yy, h);
    assert(0 <= wx < w);
    assert(0 <= wy < h);
    assert(blinker_h_grid(w, h, cx, cy)[wy][wx] == (if wy == cy && cx - 1 <= wx <= cx + 1 {
        Cell::Living
    } else {
        Cell::Empty
    }));
}

/// The vertical counterpart of `lemma_blinker_h_live_at`.
proof fn lemma_blinker_v_live_at(w: int, h: int, cx: int, cy: int, xx: int, yy: int)
    requires
        2 <= cx <= w - 3,
        2 <= cy <= h - 3,
        -1 <= xx <= w,
        -1 <= yy <= h,
    ensures
        live_at(blinker_v_grid(w, h, cx, cy), w, h, xx, yy) == (if xx == cx && cy - 1 <= yy <= cy
            + 1 {
            1int
        } else {
            0int
        }),
{
    let wx = wrap_index(xx, w);
    let wy = wrap_index(yy, h);
    assert(0 <= wx < w);
    assert(0 <= wy < h);
    assert(blinker_v_grid(w, h, cx, cy)[wy][wx] == (if wx == cx && cy - 1 <= wy <= cy + 1 {
        Cell::Living
    } else {
        Cell::Empty
    }));
}

/// Oscillator invariant: a 3-cell horizontal blinker whose center keeps
/// two cells of distance from every edge — as a blinker centered in a
/// grid of at least 5x5 does — becomes the 3-cell vertical blinker with
/// the same center after one step, becomes horizontal again after the
/// next, and so returns to itself after two steps.
pub proof fn lemma_blinker_oscillates(w: int, h: int, cx: int, cy: int)
    requires
        2 <= cx <= w - 3,
        2 <= cy <= h - 3,
    ensures
        step_spec(blinker_h_grid(w, h, cx, cy), w, h) == blinker_v_grid(w, h, cx, cy),
        step_spec(blinker_v_grid(w, h, cx, cy), w, h) == blinker_h_grid(w, h, cx, cy),
        step_spec(step_spec(blinker_h_grid(w, h, cx, cy), w, h), w, h) == blinker_h_grid(
            w,
            h,
            cx,
            cy,
        ),
{
    let gh = blinker_h_grid(w, h, cx, cy);
    let gv = blinker_v_grid(w, h, cx, cy);
    assert forall|y: int| 0 <= y < h implies (#[trigger] step_spec(gh, w, h)[y]) == gv[y] by {
        assert forall|x: int| 0 <= x < w implies (#[trigger] step_spec(gh, w, h)[y][x])
            == gv[y][x] by {
            lemma_blinker_h_live_at(w, h, cx, cy, x - 1, y - 1);
            lemma_blinker_h_live_at(w, h, cx, cy, x, y - 1);
            lemma_blinker_h_live_at(w, h, cx, cy, x + 1, y - 1);
            lemma_blinker_h_live_at(w, h, cx, cy, x - 1, y);
            lemma_blinker_h_live_at(w, h, cx, cy, x + 1, y);
            lemma_blinker_h_live_at(w, h, cx, cy, x - 1, y + 1);
            lemma_blinker_h_live_at(w, h, cx, cy, x, y + 1);
            lemma_blinker_h_live_at(w, h, cx, cy, x + 1, y + 1);
        }
        assert(step_spec(gh, w, h)[y] =~= gv[y]);
    }
    assert(step_spec(gh, w, h) =~= gv);
    assert forall|y: int| 0 <= y < h implies (#[trigger] step_spec(gv, w, h)[y]) == gh[y] by {
        assert forall|x: int| 0 <= x < w implies (#[trigger] step_spec(gv, w, h)[y][x])
            == gh[y][x] by {
            lemma_blinker_v_live_at(w, h, cx, cy, x - 1, y - 1);
            lemma_blinker_v_live_at(w, h, cx, cy, x, y - 1);
            lemma_blinker_v_live_at(w, h, cx, cy, x + 1, y - 1);
            lemma_blinker_v_live_at(w, h, cx, cy, x - 1, y);
            lemma_blinker_v_live_at(w, h, cx, cy, x + 1, y);
            lemma_blinker_v_live_at(w, h, cx, cy, x - 1, y + 1);
            lemma_blinker_v_live_at(w, h, cx, cy, x, y + 1);
            lemma_blinker_v_live_at(w, h, cx, cy, x + 1, y + 1);
        }
        assert(step_spec(gv, w, h)[y] =~= gh[y]);
    }
    assert(step_spec(gv, w, h) =~= gh);
}

} // verus!
