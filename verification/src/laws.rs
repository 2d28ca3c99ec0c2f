//! Laws of the engine, stated and proved over the grid model: how one `tick`
//! rewrites each cell, that edges wrap, that an isolated cell dies in one
//! step, that wrapped point mutation addresses the expected cell, and that
//! bulk seeding is additive.

use vstd::arithmetic::div_mod::{
    lemma_fundamental_div_mod, lemma_fundamental_div_mod_converse, lemma_mod_bound,
    lemma_mod_self_0, lemma_small_mod,
};
use vstd::prelude::*;

use crate::grid::{
    alive_count, lemma_index_in_range, lemma_wrap_backward, lemma_wrap_forward, next_state,
    GridView,
};

verus! {

/// Decomposition of a flat row-major index into its row and column.
pub proof fn lemma_row_col_of_index(g: GridView, i: int)
    requires
        g.wf(),
        0 <= i < g.cells.len(),
    ensures
        0 <= i / (g.width as int) < g.height,
        0 <= i % (g.width as int) < g.width,
        g.index_of(i / g.width as int, i % g.width as int) == i,
{
    let w = g.width as int;
    let h = g.height as int;
    let q = i / w;
    let r = i % w;
    lemma_fundamental_div_mod(i, w);
    lemma_mod_bound(i, w);
    assert(0 <= q < h) by (nonlinear_arith)
        requires
            1 <= w,
            i == w * q + r,
            0 <= r < w,
            0 <= i < w * h,
    ;
}

/// After a step, a cell's state is the transition rule applied to its prior
/// state and its prior live-neighbor count.
pub proof fn lemma_stepped_cell(g: GridView, row: int, col: int)
    requires
        g.wf(),
        0 <= row < g.height,
        0 <= col < g.width,
    ensures
        g.stepped().cell(row, col) == next_state(g.cell(row, col), g.live_neighbors(row, col)),
{
    lemma_index_in_range(g, row, col);
    lemma_fundamental_div_mod_converse(g.index_of(row, col), g.width as int, row, col);
}

/// Rule correctness, cell by cell: after a step, a cell with exactly three
/// prior live neighbors is alive regardless of its prior state; one with
/// exactly two keeps its prior state; one with fewer than two or more than
/// three is dead.
pub proof fn lemma_rule_correctness(g: GridView, row: int, col: int)
    requires
        g.wf(),
        0 <= row < g.height,
        0 <= col < g.width,
    ensures
        g.live_neighbors(row, col) == 3 ==> g.stepped().cell(row, col),
        g.live_neighbors(row, col) == 2 ==> g.stepped().cell(row, col) == g.cell(row, col),
        g.live_neighbors(row, col) < 2 ==> !g.stepped().cell(row, col),
        g.live_neighbors(row, col) > 3 ==> !g.stepped().cell(row, col),
{
    lemma_stepped_cell(g, row, col);
}

/// Toroidal wraparound: on a square grid of any size, a live cell in the far
/// corner is counted as a neighbor of the cell at the origin — through the
/// `(height - 1, width - 1)` offset pair when the side is at least 2, and on
/// a single-cell grid, where the far corner is the origin itself, through
/// the wrapped `(1, 1)` pair.
pub proof fn lemma_toroidal_wraparound(g: GridView)
    requires
        g.wf(),
        g.width == g.height,
        g.cell(g.height as int - 1, g.width as int - 1),
    ensures
        g.live_neighbors(0, 0) >= 1,
{
    let h = g.height as int;
    let w = g.width as int;
    if h == 1 {
        lemma_mod_self_0(1);
        assert(alive_count(g.cell(1int % h, 1int % w)) == 1);
    } else {
        lemma_small_mod((h - 1) as nat, h as nat);
        lemma_small_mod((w - 1) as nat, w as nat);
        assert(alive_count(g.cell((0 + h - 1) % h, (0 + w - 1) % w)) == 1);
    }
}

/// Exactly one live cell, at `(live_row, live_col)`.
pub open spec fn lone_live_cell(g: GridView, live_row: int, live_col: int) -> bool {
    &&& 0 <= live_row < g.height
    &&& 0 <= live_col < g.width
    &&& forall|r: int, c: int|
        0 <= r < g.height && 0 <= c < g.width ==> ((#[trigger] g.cell(r, c)) == (r == live_row
            && c == live_col))
}

/// On a grid with both dimensions at least 2, a lone live cell has no live
/// neighbor and gives no dead cell three, so one step kills it and births
/// nothing: the generation read during the pass is the prior one throughout.
/// (On a 1-by-N grid with N at least 3 this does not hold: the wraparound
/// makes the lone cell a triple neighbor of each cell beside it, so the lone
/// cell dies but both its row neighbors are born.)
pub proof fn lemma_lone_cell_dies(g: GridView, live_row: int, live_col: int)
    requires
        g.wf(),
        2 <= g.width,
        2 <= g.height,
        lone_live_cell(g, live_row, live_col),
    ensures
        g.stepped().all_dead(),
{
    assert forall|i: int| 0 <= i < g.stepped().cells.len() implies !g.stepped().cells[i] by {
        lemma_row_col_of_index(g, i);
        let w = g.width as int;
        let row = i / w;
        let col = i % w;
        lemma_lone_cell_count(g, live_row, live_col, row, col);
        assert(g.cells[i] == g.cell(row, col));
    }
}

/// Neighbor counts around a lone live cell: zero at the cell itself, and
/// never exactly three anywhere else.
proof fn lemma_lone_cell_count(g: GridView, live_row: int, live_col: int, row: int, col: int)
    requires
        g.wf(),
        2 <= g.width,
        2 <= g.height,
        lone_live_cell(g, live_row, live_col),
        0 <= row < g.height,
        0 <= col < g.width,
    ensures
        row == live_row && col == live_col ==> g.live_neighbors(row, col) == 0,
        !(row == live_row && col == live_col) ==> g.live_neighbors(row, col) != 3,
{
    let h = g.height as int;
    let w = g.width as int;
    let up = (row + h - 1) % h;
    let down = (row + 1) % h;
    let left = (col + w - 1) % w;
    let right = (col + 1) % w;
    lemma_wrap_backward(row, h);
    lemma_wrap_forward(row, h);
    lemma_wrap_backward(col, w);
    lemma_wrap_forward(col, w);
    assert(0 <= up < h && up != row);
    assert(0 <= down < h && down != row);
    assert(0 <= left < w && left != col);
    assert(0 <= right < w && right != col);
    assert(g.cell(up, left) == (up == live_row && left == live_col));
    assert(g.cell(up, col) == (up == live_row && col == live_col));
    assert(g.cell(up, right) == (up == live_row && right == live_col));
    assert(g.cell(row, left) == (row == live_row && left == live_col));
    assert(g.cell(row, right) == (row == live_row && right == live_col));
    assert(g.cell(down, left) == (down == live_row && left == live_col));
    assert(g.cell(down, col) == (down == live_row && col == live_col));
    assert(g.cell(down, right) == (down == live_row && right == live_col));
}

/// Wraparound-safe point mutation: toggling at `(height, width)` — one past
/// the bounds in each direction — flips the same cell as toggling at
/// `(0, 0)`.
pub proof fn lemma_point_mutation_wraps(g: GridView)
    requires
        g.wf(),
    ensures
        g.toggled(g.height as u32, g.width as u32) == g.toggled(0, 0),
{
    assert(g.height <= g.width * g.height) by (nonlinear_arith)
        requires
            1 <= g.width,
    ;
    assert(g.width <= g.width * g.height) by (nonlinear_arith)
        requires
            1 <= g.height,
    ;
    lemma_mod_self_0(g.height as int);
    lemma_mod_self_0(g.width as int);
    lemma_small_mod(0, g.height as nat);
    lemma_small_mod(0, g.width as nat);
}

/// `seed_hits` depends on the grid only through its width.
proof fn lemma_seed_hits_same_width(
    g1: GridView,
    g2: GridView,
    coords: Seq<(u32, u32)>,
    k: int,
    i: int,
)
    requires
        g1.width == g2.width,
    ensures
        g1.seed_hits(coords, k, i) == g2.seed_hits(coords, k, i),
{
    if g1.seed_hits(coords, k, i) {
        let j = choose|j: int|
            0 <= j < k && g1.index_of(coords[j].0 as int, coords[j].1 as int) == i;
        assert(g2.index_of(coords[j].0 as int, coords[j].1 as int) == i);
    }
    if g2.seed_hits(coords, k, i) {
        let j = choose|j: int|
            0 <= j < k && g2.index_of(coords[j].0 as int, coords[j].1 as int) == i;
        assert(g1.index_of(coords[j].0 as int, coords[j].1 as int) == i);
    }
}

/// A coordinate of a concatenated list hits an index exactly when a
/// coordinate of one of the two lists does.
proof fn lemma_seed_hits_concat(g: GridView, a: Seq<(u32, u32)>, b: Seq<(u32, u32)>, i: int)
    ensures
        g.seed_hits(a + b, (a + b).len() as int, i) == (g.seed_hits(a, a.len() as int, i)
            || g.seed_hits(b, b.len() as int, i)),
{
    let ab = a + b;
    if g.seed_hits(ab, ab.len() as int, i) {
        let j = choose|j: int|
            0 <= j < ab.len() && g.index_of(ab[j].0 as int, ab[j].1 as int) == i;
        if j < a.len() {
            assert(g.index_of(a[j].0 as int, a[j].1 as int) == i);
        } else {
            assert(g.index_of(b[j - a.len()].0 as int, b[j - a.len()].1 as int) == i);
        }
    }
    if g.seed_hits(a, a.len() as int, i) {
        let j = choose|j: int| 0 <= j < a.len() && g.index_of(a[j].0 as int, a[j].1 as int) == i;
        assert(ab[j] == a[j]);
        assert(g.index_of(ab[j].0 as int, ab[j].1 as int) == i);
    }
    if g.seed_hits(b, b.len() as int, i) {
        let j = choose|j: int| 0 <= j < b.len() && g.index_of(b[j].0 as int, b[j].1 as int) == i;
        assert(ab[j + a.len()] == b[j]);
        assert(g.index_of(ab[j + a.len()].0 as int, ab[j + a.len()].1 as int) == i);
    }
}

/// Seeding is additive: seeding two coordinate lists in sequence is the same
/// as seeding their concatenation at once, and afterwards every listed
/// coordinate is alive. (Proved for any two lists, disjoint or not.)
pub proof fn lemma_set_cells_additive(g: GridView, a: Seq<(u32, u32)>, b: Seq<(u32, u32)>)
    requires
        g.wf(),
        g.coords_in_range(a),
        g.coords_in_range(b),
    ensures
        g.seeded(a).seeded(b) == g.seeded(a + b),
        forall|k: int|
            0 <= k < a.len() ==> #[trigger] g.seeded(a).seeded(b).cell(
                a[k].0 as int,
                a[k].1 as int,
            ),
        forall|k: int|
            0 <= k < b.len() ==> #[trigger] g.seeded(a).seeded(b).cell(
                b[k].0 as int,
                b[k].1 as int,
            ),
{
    let ga = g.seeded(a);
    let gab = ga.seeded(b);
    let gu = g.seeded(a + b);
    assert forall|i: int| 0 <= i < g.cells.len() implies gab.cells[i] == gu.cells[i] by {
        lemma_seed_hits_same_width(ga, g, b, b.len() as int, i);
        lemma_seed_hits_concat(g, a, b, i);
    }
    assert(gab.cells =~= gu.cells);
    assert(gab =~= gu);
    assert forall|k: int|
        0 <= k < a.len() implies #[trigger] gab.cell(a[k].0 as int, a[k].1 as int) by {
        lemma_index_in_range(g, a[k].0 as int, a[k].1 as int);
        let i = g.index_of(a[k].0 as int, a[k].1 as int);
        assert(g.seed_hits(a, a.len() as int, i));
        assert(ga.cells[i]);
        assert(gab.cells[i]);
    }
    assert forall|k: int|
        0 <= k < b.len() implies #[trigger] gab.cell(b[k].0 as int, b[k].1 as int) by {
        lemma_index_in_range(g, b[k].0 as int, b[k].1 as int);
        let i = g.index_of(b[k].0 as int, b[k].1 as int);
        assert(g.seed_hits(b, b.len() as int, i));
        lemma_seed_hits_same_width(ga, g, b, b.len() as int, i);
        assert(gab.cells[i]);
    }
}



} // verus!
