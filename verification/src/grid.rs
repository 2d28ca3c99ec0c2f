//! The Game of Life engine: a toroidal grid of packed boolean cells.
//!
//! `GridView` is the mathematical model — dimensions plus one `bool` per
//! cell, row-major — and every operation of `Universe` is specified as a
//! function of that model.

use vstd::arithmetic::div_mod::{
    lemma_fundamental_div_mod_converse, lemma_mod_multiples_vanish, lemma_small_mod,
};
use vstd::prelude::*;

use crate::bits::{
    bits_of, bitset_as_slice, bitset_clear, bitset_clone, bitset_contains, bitset_set,
    bitset_toggle, bitset_with_capacity,
};

verus! {

/// The mathematical content of a universe: its dimensions and the alive/dead
/// state of every cell, row-major.
#[verifier::ext_equal]
pub ghost struct GridView {
    pub width: nat,
    pub height: nat,
    pub cells: Seq<bool>,
}

/// The Game of Life transition rule (B3/S23): a live cell survives with two
/// or three live neighbors, a dead cell is born with exactly three, and every
/// other cell is dead in the next generation.
pub open spec fn next_state(alive: bool, live_neighbors: nat) -> bool {
    if alive {
        live_neighbors == 2 || live_neighbors == 3
    } else {
        live_neighbors == 3
    }
}

/// 1 if the cell is alive, 0 otherwise.
pub open spec fn alive_count(alive: bool) -> nat {
    if alive {
        1
    } else {
        0
    }
}

impl GridView {
    /// Dimensions are positive, every flat index fits in `u32`, and the store
    /// holds exactly one bit per cell.
    pub open spec fn wf(self) -> bool {
        &&& 1 <= self.width
        &&& 1 <= self.height
        &&& self.width * self.height <= u32::MAX
        &&& self.cells.len() == self.width * self.height
    }

    /// Flat row-major index of a cell.
    pub open spec fn index_of(self, row: int, col: int) -> int {
        row * self.width + col
    }

    /// Alive/dead state of the cell at `(row, col)`.
    pub open spec fn cell(self, row: int, col: int) -> bool
        recommends
            0 <= row < self.height,
            0 <= col < self.width,
    {
        self.cells[self.index_of(row, col)]
    }

    /// Number of live cells among the toroidally wrapped neighbor slots: row
    /// offsets `{height - 1, 0, 1}` crossed with column offsets
    /// `{width - 1, 0, 1}` as multisets, every pair whose offset value is
    /// `(0, 0)` excluded, each sum reduced modulo the grid dimension, so
    /// edges wrap to the opposite edge. With both dimensions at least 2
    /// these are the eight surrounding slots. Where a dimension is 1, its
    /// offset `dimension - 1` is itself 0, so the pairs it forms with the
    /// other zero offset are excluded as well, and the slots that remain can
    /// wrap back to the cell itself, which is then counted with that
    /// multiplicity.
    pub open spec fn live_neighbors(self, row: int, col: int) -> nat
        recommends
            self.wf(),
            0 <= row < self.height,
            0 <= col < self.width,
    {
        let h = self.height as int;
        let w = self.width as int;
        let up = (row + h - 1) % h;
        let down = (row + 1) % h;
        let left = (col + w - 1) % w;
        let right = (col + 1) % w;
        (if h == 1 && w == 1 {
            0
        } else {
            alive_count(self.cell(up, left))
        }) + (if h == 1 {
            0
        } else {
            alive_count(self.cell(up, col))
        }) + alive_count(self.cell(up, right)) + (if w == 1 {
            0
        } else {
            alive_count(self.cell(row, left))
        }) + alive_count(self.cell(row, right)) + alive_count(self.cell(down, left))
            + alive_count(self.cell(down, col)) + alive_count(self.cell(down, right))
    }

    /// The grid one generation later: every cell is rewritten by `next_state`
    /// from its own state and its live-neighbor count in `self`, so no cell
    /// of the new generation ever depends on another new cell.
    pub open spec fn stepped(self) -> GridView {
        GridView {
            width: self.width,
            height: self.height,
            cells: Seq::new(
                self.cells.len(),
                |i: int|
                    next_state(
                        self.cells[i],
                        self.live_neighbors(i / self.width as int, i % self.width as int),
                    ),
            ),
        }
    }

    /// Some coordinate among the first `k` of the list addresses the flat
    /// index `i`.
    pub open spec fn seed_hits(self, coords: Seq<(u32, u32)>, k: int, i: int) -> bool {
        exists|j: int|
            0 <= j < k && #[trigger] self.index_of(coords[j].0 as int, coords[j].1 as int) == i
    }

    /// The store `cur` is `self.cells` with the first `k` coordinates of the
    /// list seeded and every other cell unchanged.
    pub open spec fn seeded_prefix(self, coords: Seq<(u32, u32)>, k: int, cur: Seq<bool>) -> bool {
        forall|i: int|
            0 <= i < self.cells.len() ==> cur[i] == (self.cells[i] || self.seed_hits(
                coords,
                k,
                i,
            ))
    }

    /// The grid with every listed coordinate set alive and every other cell
    /// unchanged: seeding is purely additive and never kills a cell.
    pub open spec fn seeded(self, coords: Seq<(u32, u32)>) -> GridView {
        GridView {
            width: self.width,
            height: self.height,
            cells: Seq::new(
                self.cells.len(),
                |i: int| self.cells[i] || self.seed_hits(coords, coords.len() as int, i),
            ),
        }
    }

    /// Every coordinate of the list addresses an in-range cell.
    pub open spec fn coords_in_range(self, coords: Seq<(u32, u32)>) -> bool {
        forall|k: int|
            0 <= k < coords.len() ==> (#[trigger] coords[k]).0 < self.height && coords[k].1
                < self.width
    }

    /// Flat index reached by a point mutation: the coordinates are first
    /// reduced modulo the grid dimensions, so any pair lands in range.
    pub open spec fn wrapped_index(self, row: u32, col: u32) -> int
        recommends
            self.wf(),
    {
        self.index_of(row as int % self.height as int, col as int % self.width as int)
    }

    /// The grid with the cell addressed by the wrapped coordinates replaced
    /// by `alive`, every other cell unchanged.
    pub open spec fn written(self, row: u32, col: u32, alive: bool) -> GridView {
        GridView {
            width: self.width,
            height: self.height,
            cells: self.cells.update(self.wrapped_index(row, col), alive),
        }
    }

    /// The grid with the cell addressed by the wrapped coordinates flipped.
    pub open spec fn toggled(self, row: u32, col: u32) -> GridView {
        self.written(row, col, !self.cells[self.wrapped_index(row, col)])
    }

    /// An all-dead grid of the given dimensions.
    pub open spec fn dead_grid(width: nat, height: nat) -> GridView {
        GridView { width, height, cells: Seq::new(width * height, |i: int| false) }
    }

    /// No live cell anywhere.
    pub open spec fn all_dead(self) -> bool {
        forall|i: int| 0 <= i < self.cells.len() ==> !self.cells[i]
    }
}

/// A flat row-major index stays below the cell count.
pub proof fn lemma_index_in_range(g: GridView, row: int, col: int)
    requires
        g.wf(),
        0 <= row < g.height,
        0 <= col < g.width,
    ensures
        0 <= g.index_of(row, col) < g.width * g.height,
{
    let w = g.width as int;
    let h = g.height as int;
    assert(row * w + col < w * h) by (nonlinear_arith)
        requires
            0 <= row,
            0 <= col,
            row < h,
            col < w,
    ;
}

/// Stepping one row or column backwards with wraparound: adding `n - 1` and
/// reducing modulo `n` moves from `x` to `x - 1`, except at the edge, where
/// it wraps to `n - 1`.
pub proof fn lemma_wrap_backward(x: int, n: int)
    requires
        1 <= n,
        0 <= x < n,
    ensures
        (x + n - 1) % n == if x == 0 {
            n - 1
        } else {
            x - 1
        },
{
    if x == 0 {
        lemma_small_mod((n - 1) as nat, n as nat);
    } else {
        lemma_mod_multiples_vanish(1, x - 1, n);
        lemma_small_mod((x - 1) as nat, n as nat);
    }
}

/// Stepping one row or column forwards with wraparound: adding 1 and reducing
/// modulo `n` moves from `x` to `x + 1`, except at the edge, where it wraps
/// to 0.
pub proof fn lemma_wrap_forward(x: int, n: int)
    requires
        1 <= n,
        0 <= x < n,
    ensures
        (x + 1) % n == if x == n - 1 {
            0
        } else {
            x + 1
        },
{
    if x == n - 1 {
        lemma_mod_multiples_vanish(1, 0, n);
        lemma_small_mod(0, n as nat);
    } else {
        lemma_small_mod((x + 1) as nat, n as nat);
    }
}

/// One simulation instance: grid dimensions and a packed bit-per-cell store,
/// row-major, owned exclusively by the universe.
pub struct Universe {
    width: u32,
    height: u32,
    cells: fixedbitset::FixedBitSet,
}

impl View for Universe {
    type V = GridView;

    closed spec fn view(&self) -> GridView {
        GridView {
            width: self.width as nat,
            height: self.height as nat,
            cells: bits_of(self.cells),
        }
    }
}

impl Universe {
    /// A universe of the given dimensions with every cell dead.
    pub fn new(width: u32, height: u32) -> (u: Universe)
        requires
            1 <= width,
            1 <= height,
            width * height <= u32::MAX,
        ensures
            u@ == GridView::dead_grid(width as nat, height as nat),
            u@.wf(),
    {
        let size = (width * height) as usize;
        let u = Universe { width, height, cells: bitset_with_capacity(size) };
        proof {
            assert(u@.cells =~= GridView::dead_grid(width as nat, height as nat).cells);
        }
        u
    }

    /// Flat row-major index of an in-range cell.
    fn get_index(&self, row: u32, col: u32) -> (idx: usize)
        requires
            self@.wf(),
            row < self@.height,
            col < self@.width,
        ensures
            idx == self@.index_of(row as int, col as int),
            idx < self@.cells.len(),
    {
        proof {
            lemma_index_in_range(self@, row as int, col as int);
        }
        (row * self.width + col) as usize
    }

    /// Alive/dead state of an in-range cell.
    fn cell_at(&self, row: u32, col: u32) -> (alive: bool)
        requires
            self@.wf(),
            row < self@.height,
            col < self@.width,
        ensures
            alive == self@.cell(row as int, col as int),
    {
        let idx = self.get_index(row, col);
        bitset_contains(&self.cells, idx)
    }

    /// Live cells among the toroidally wrapped neighbor slots of an in-range
    /// cell: the eight surrounding slots, less the ones whose offset pair
    /// collapses to `(0, 0)` when a dimension is 1.
    #[verifier::rlimit(50)]
    fn live_neighbor_count(&self, row: u32, col: u32) -> (count: u8)
        requires
            self@.wf(),
            row < self@.height,
            col < self@.width,
        ensures
            count == self@.live_neighbors(row as int, col as int),
            count <= 8,
    {
        let up = if row == 0 {
            self.height - 1
        } else {
            row - 1
        };
        let down = if row == self.height - 1 {
            0
        } else {
            row + 1
        };
        let left = if col == 0 {
            self.width - 1
        } else {
            col - 1
        };
        let right = if col == self.width - 1 {
            0
        } else {
            col + 1
        };
        proof {
            lemma_wrap_backward(row as int, self@.height as int);
            lemma_wrap_forward(row as int, self@.height as int);
            lemma_wrap_backward(col as int, self@.width as int);
            lemma_wrap_forward(col as int, self@.width as int);
        }
        let mut count: u8 = 0;
        if !(self.height == 1 && self.width == 1) && self.cell_at(up, left) {
            count = count + 1;
        }
        if self.height != 1 && self.cell_at(up, col) {
            count = count + 1;
        }
        if self.cell_at(up, right) {
            count = count + 1;
        }
        if self.width != 1 && self.cell_at(row, left) {
            count = count + 1;
        }
        if self.cell_at(row, right) {
            count = count + 1;
        }
        if self.cell_at(down, left) {
            count = count + 1;
        }
        if self.cell_at(down, col) {
            count = count + 1;
        }
        if self.cell_at(down, right) {
            count = count + 1;
        }
        count
    }

    /// Advances the whole grid by one generation under the B3/S23 rule.
    ///
    /// Strictly double-buffered: every cell of the new generation is computed
    /// from the current store and written to a second store, which replaces
    /// the current one only after the full pass.
    pub fn tick(&mut self)
        requires
            old(self)@.wf(),
        ensures
            final(self)@ == old(self)@.stepped(),
            final(self)@.wf(),
    {
        let ghost g = self@;
        let mut next = bitset_clone(&self.cells);
        let mut row: u32 = 0;
        while row < self.height
            invariant
                self@ == g,
                g.wf(),
                row <= g.height,
                bits_of(next).len() == g.cells.len(),
                forall|i: int|
                    0 <= i < row * g.width ==> bits_of(next)[i] == g.stepped().cells[i],
            decreases g.height - row,
        {
            let mut col: u32 = 0;
            while col < self.width
                invariant
                    self@ == g,
                    g.wf(),
                    row < g.height,
                    col <= g.width,
                    bits_of(next).len() == g.cells.len(),
                    forall|i: int|
                        0 <= i < row * g.width + col ==> bits_of(next)[i] == g.stepped().cells[i],
                decreases g.width - col,
            {
                let idx = self.get_index(row, col);
                let alive = self.cell_at(row, col);
                let live_neighbors = self.live_neighbor_count(row, col);
                let next_alive = if alive {
                    live_neighbors == 2 || live_neighbors == 3
                } else {
                    live_neighbors == 3
                };
                bitset_set(&mut next, idx, next_alive);
                proof {
                    lemma_fundamental_div_mod_converse(
                        idx as int,
                        g.width as int,
                        row as int,
                        col as int,
                    );
                    assert(bits_of(next)[idx as int] == g.stepped().cells[idx as int]);
                }
                col = col + 1;
            }
            proof {
                assert((row + 1) * g.width == row * g.width + g.width) by (nonlinear_arith);
            }
            row = row + 1;
        }
        self.cells = next;
        proof {
            assert(g.height * g.width == g.width * g.height) by (nonlinear_arith);
            assert(self@.cells =~= g.stepped().cells);
            assert(self@ =~= g.stepped());
        }
    }

    /// Sets every listed cell alive, leaving all other cells unchanged:
    /// purely additive, and idempotent for duplicate coordinates. The
    /// coordinates are trusted to be in range.
    pub fn set_cells(&mut self, coords: &[(u32, u32)])
        requires
            old(self)@.wf(),
            old(self)@.coords_in_range(coords@),
        ensures
            final(self)@ == old(self)@.seeded(coords@),
            final(self)@.wf(),
    {
        let ghost g = self@;
        let mut k: usize = 0;
        while k < coords.len()
            invariant
                g.wf(),
                self@.wf(),
                g.coords_in_range(coords@),
                k <= coords@.len(),
                self@.width == g.width,
                self@.height == g.height,
                self@.cells.len() == g.cells.len(),
                g.seeded_prefix(coords@, k as int, self@.cells),
            decreases coords@.len() - k,
        {
            let (row, col) = coords[k];
            let idx = self.get_index(row, col);
            let ghost before = self@.cells;
            bitset_set(&mut self.cells, idx, true);
            proof {
                assert(g.index_of(coords@[k as int].0 as int, coords@[k as int].1 as int)
                    == idx as int);
                assert(g.seeded_prefix(coords@, k as int, before));
                assert forall|i: int|
                    0 <= i < g.cells.len() implies self@.cells[i] == (g.cells[i] || g.seed_hits(
                    coords@,
                    k as int + 1,
                    i,
                )) by {
                    assert(before[i] == (g.cells[i] || g.seed_hits(coords@, k as int, i)));
                    if i == idx as int {
                        assert(g.seed_hits(coords@, k as int + 1, i));
                        assert(self@.cells[i]);
                    } else {
                        assert(self@.cells[i] == before[i]);
                        if g.seed_hits(coords@, k as int, i) {
                            let j = choose|j: int|
                                0 <= j < k && g.index_of(coords@[j].0 as int, coords@[j].1 as int)
                                    == i;
                            assert(g.seed_hits(coords@, k as int + 1, i));
                        }
                        if g.seed_hits(coords@, k as int + 1, i) {
                            let j = choose|j: int|
                                0 <= j < k + 1 && g.index_of(
                                    coords@[j].0 as int,
                                    coords@[j].1 as int,
                                ) == i;
                            assert(j != k);
                            assert(g.seed_hits(coords@, k as int, i));
                        }
                    }
                }
                assert(g.seeded_prefix(coords@, k as int + 1, self@.cells));
            }
            k = k + 1;
        }
        proof {
            assert forall|i: int|
                0 <= i < g.cells.len() implies self@.cells[i] == g.seeded(coords@).cells[i] by {
                assert(self@.cells[i] == (g.cells[i] || g.seed_hits(
                    coords@,
                    coords@.len() as int,
                    i,
                )));
            }
            assert(self@.cells =~= g.seeded(coords@).cells);
            assert(self@ =~= g.seeded(coords@));
        }
    }

    /// Rewrites every cell from one injected coin flip per cell, row-major.
    /// The caller draws the flips from its randomness source, one per cell;
    /// a flip of `true` makes the cell alive.
    pub fn randomize(&mut self, flips: &[bool])
        requires
            old(self)@.wf(),
            flips@.len() == old(self)@.width * old(self)@.height,
        ensures
            final(self)@.width == old(self)@.width,
            final(self)@.height == old(self)@.height,
            final(self)@.cells == flips@,
            final(self)@.wf(),
    {
        let ghost g = self@;
        let total = (self.width * self.height) as usize;
        let mut i: usize = 0;
        while i < total
            invariant
                g.wf(),
                self@.width == g.width,
                self@.height == g.height,
                self@.cells.len() == g.cells.len(),
                total == g.cells.len(),
                flips@.len() == total,
                i <= total,
                forall|j: int| 0 <= j < i ==> self@.cells[j] == flips@[j],
            decreases total - i,
        {
            let flip = flips[i];
            bitset_set(&mut self.cells, i, flip);
            i = i + 1;
        }
        proof {
            assert(self@.cells =~= flips@);
        }
    }

    /// Resets every cell to dead, keeping the dimensions.
    pub fn clear(&mut self)
        requires
            old(self)@.wf(),
        ensures
            final(self)@ == GridView::dead_grid(old(self)@.width, old(self)@.height),
            final(self)@.wf(),
    {
        bitset_clear(&mut self.cells);
        proof {
            assert(self@.cells =~= GridView::dead_grid(
                old(self)@.width,
                old(self)@.height,
            ).cells);
            assert(self@ =~= GridView::dead_grid(old(self)@.width, old(self)@.height));
        }
    }

    /// Resets every cell to dead, keeping the dimensions. The same operation
    /// as `clear`: the two entry points are an intentional duplication of the
    /// public surface, not distinct behavior.
    pub fn empty(&mut self)
        requires
            old(self)@.wf(),
        ensures
            final(self)@ == GridView::dead_grid(old(self)@.width, old(self)@.height),
            final(self)@.wf(),
    {
        self.clear()
    }

    /// Sets the width and reallocates the store: all prior cell state is
    /// discarded and the new grid is all dead, even when the width is
    /// unchanged.
    pub fn set_width(&mut self, width: u32)
        requires
            old(self)@.wf(),
            1 <= width,
            width * old(self)@.height <= u32::MAX,
        ensures
            final(self)@ == GridView::dead_grid(width as nat, old(self)@.height),
            final(self)@.wf(),
    {
        self.width = width;
        let size = (width * self.height) as usize;
        self.cells = bitset_with_capacity(size);
        proof {
            assert(self@.cells =~= GridView::dead_grid(width as nat, old(self)@.height).cells);
            assert(self@ =~= GridView::dead_grid(width as nat, old(self)@.height));
        }
    }

    /// Sets the height and reallocates the store: all prior cell state is
    /// discarded and the new grid is all dead, even when the height is
    /// unchanged.
    pub fn set_height(&mut self, height: u32)
        requires
            old(self)@.wf(),
            1 <= height,
            old(self)@.width * height <= u32::MAX,
        ensures
            final(self)@ == GridView::dead_grid(old(self)@.width, height as nat),
            final(self)@.wf(),
    {
        self.height = height;
        let size = (self.width * height) as usize;
        self.cells = bitset_with_capacity(size);
        proof {
            assert(self@.cells =~= GridView::dead_grid(old(self)@.width, height as nat).cells);
            assert(self@ =~= GridView::dead_grid(old(self)@.width, height as nat));
        }
    }

    /// Flips the cell addressed by the coordinates. The coordinates are
    /// reduced modulo the grid dimensions first, so any pair is wraparound
    /// safe.
    pub fn toggle_cell(&mut self, row: u32, col: u32)
        requires
            old(self)@.wf(),
        ensures
            final(self)@ == old(self)@.toggled(row, col),
            final(self)@.wf(),
    {
        let r = row % self.height;
        let c = col % self.width;
        let idx = self.get_index(r, c);
        bitset_toggle(&mut self.cells, idx);
        proof {
            assert(self@ =~= old(self)@.toggled(row, col));
        }
    }

    /// Forces the cell addressed by the coordinates alive (idempotent). The
    /// coordinates are reduced modulo the grid dimensions first, so any pair
    /// is wraparound safe.
    pub fn activate_cell(&mut self, row: u32, col: u32)
        requires
            old(self)@.wf(),
        ensures
            final(self)@ == old(self)@.written(row, col, true),
            final(self)@.wf(),
    {
        let r = row % self.height;
        let c = col % self.width;
        let idx = self.get_index(r, c);
        bitset_set(&mut self.cells, idx, true);
        proof {
            assert(self@ =~= old(self)@.written(row, col, true));
        }
    }

    /// Read-only view of the packed cell store for an external renderer:
    /// `u32` blocks, 32 cells per block, least significant bit first,
    /// row-major.
    pub fn cells(&self) -> (r: &[u32])
        ensures
            r@.len() == (self@.cells.len() + 31) / 32,
            forall|i: int|
                0 <= i < self@.cells.len() ==> self@.cells[i] == ((r@[i / 32] >> ((i % 32) as u32))
                    & 1u32 == 1u32),
    {
        bitset_as_slice(&self.cells)
    }

    /// Grid width in cells.
    pub fn width(&self) -> (w: u32)
        ensures
            w == self@.width,
    {
        self.width
    }

    /// Grid height in cells.
    pub fn height(&self) -> (h: u32)
        ensures
            h == self@.height,
    {
        self.height
    }

    /// Read-only handle on the packed cell store.
    pub fn get_cells(&self) -> (r: &fixedbitset::FixedBitSet)
        ensures
            bits_of(*r) == self@.cells,
    {
        &self.cells
    }
}

} // verus!
