//! The mathematical model of the automaton: a toroidal grid of cells and
//! the transition rule B3/S23 stated over it.

use crate::packing::{block_bit, packs};
use vstd::arithmetic::div_mod::{
    lemma_fundamental_div_mod, lemma_fundamental_div_mod_converse, lemma_mod_bound,
};
use vstd::prelude::*;

verus! {

/// `x` folded into `0..n`, so that `-1` is `n - 1` and `n` is `0`.
#[verifier::opaque]
pub open spec fn wrap(x: int, n: nat) -> int {
    x % (n as int)
}

/// Folding the two numbers next to `x` into `0..n`, for `x` in that range.
pub proof fn lemma_wrap_adjacent(x: int, n: nat)
    requires
        0 <= x < n,
    ensures
        x == 0 ==> wrap(x - 1, n) == n - 1,
        x != 0 ==> wrap(x - 1, n) == x - 1,
        x == n - 1 ==> wrap(x + 1, n) == 0,
        x != n - 1 ==> wrap(x + 1, n) == x + 1,
{
    reveal(wrap);
    let m = n as int;
    if x == 0 {
        lemma_fundamental_div_mod_converse(-1, m, -1, m - 1);
    } else {
        lemma_fundamental_div_mod_converse(x - 1, m, 0, x - 1);
    }
    if x == m - 1 {
        lemma_fundamental_div_mod_converse(m, m, 1, 0);
    } else {
        lemma_fundamental_div_mod_converse(x + 1, m, 0, x + 1);
    }
}

/// Whether a cell lives in the next generation, given whether it lives now
/// and how many of its eight neighbours do: a cell with exactly three live
/// neighbours lives, a live cell with exactly two stays alive, every other
/// cell is dead.
pub open spec fn next_state(alive: bool, live_neighbours: nat) -> bool {
    live_neighbours == 3 || (alive && live_neighbours == 2)
}

/// The rule by its cases: a live cell with fewer than two live neighbours
/// dies, one with two or three lives on, one with more than three dies; a
/// dead cell with exactly three live neighbours comes alive, and any other
/// dead cell stays dead.
pub proof fn lemma_next_state_cases(alive: bool, live_neighbours: nat)
    ensures
        alive && live_neighbours < 2 ==> !next_state(alive, live_neighbours),
        alive && (live_neighbours == 2 || live_neighbours == 3)
            ==> next_state(alive, live_neighbours),
        alive && live_neighbours > 3 ==> !next_state(alive, live_neighbours),
        !alive && live_neighbours == 3 ==> next_state(alive, live_neighbours),
        !alive && live_neighbours != 3 ==> !next_state(alive, live_neighbours),
{
}

/// Whether one of `coords` is the pair `(row, col)`.
pub open spec fn names(coords: Seq<(u32, u32)>, row: int, col: int) -> bool {
    exists|k: int| 0 <= k < coords.len() && (#[trigger] coords[k]).0 == row && coords[k].1 == col
}

/// A grid of cells in row-major order: `cells[row * width + col]` tells
/// whether the cell at `(row, col)` is alive.
pub struct Grid {
    pub width: nat,
    pub height: nat,
    pub cells: Seq<bool>,
}

impl Grid {
    /// There is exactly one entry of `cells` for each cell of the grid.
    pub open spec fn wf(self) -> bool {
        self.cells.len() == self.width * self.height
    }

    /// Whether `(row, col)` names a cell of the grid.
    pub open spec fn contains(self, row: int, col: int) -> bool {
        0 <= row < self.height && 0 <= col < self.width
    }

    /// The position of cell `(row, col)` in `cells`.
    pub open spec fn index(self, row: int, col: int) -> int {
        row * self.width + col
    }

    /// Whether the cell at `(row, col)` is alive.
    pub open spec fn alive(self, row: int, col: int) -> bool {
        self.cells[self.index(row, col)]
    }

    /// 1 if the cell at `(row, col)` is alive, 0 if it is dead.
    pub open spec fn population(self, row: int, col: int) -> nat {
        if self.alive(row, col) {
            1
        } else {
            0
        }
    }

    /// The row above `row`; the row above the first is the last.
    pub open spec fn north(self, row: int) -> int {
        wrap(row - 1, self.height)
    }

    /// The row below `row`; the row below the last is the first.
    pub open spec fn south(self, row: int) -> int {
        wrap(row + 1, self.height)
    }

    /// The column left of `col`; the column left of the first is the last.
    pub open spec fn west(self, col: int) -> int {
        wrap(col - 1, self.width)
    }

    /// The column right of `col`; the column right of the last is the first.
    pub open spec fn east(self, col: int) -> int {
        wrap(col + 1, self.width)
    }

    /// How many of the eight neighbours of `(row, col)` are alive. The
    /// neighbours are taken on the torus and are not deduplicated: on a grid
    /// with one row or one column a cell is counted once for each direction
    /// in which it is reached.
    pub open spec fn live_neighbours(self, row: int, col: int) -> nat {
        self.population(self.north(row), self.west(col))
            + self.population(self.north(row), col)
            + self.population(self.north(row), self.east(col))
            + self.population(row, self.west(col))
            + self.population(row, self.east(col))
            + self.population(self.south(row), self.west(col))
            + self.population(self.south(row), col)
            + self.population(self.south(row), self.east(col))
    }

    /// Whether the cell at `(row, col)` is alive in the next generation.
    pub open spec fn next_alive(self, row: int, col: int) -> bool {
        next_state(self.alive(row, col), self.live_neighbours(row, col))
    }

    /// The next generation: every cell is decided from the current grid.
    pub open spec fn step(self) -> Grid {
        Grid {
            width: self.width,
            height: self.height,
            cells: Seq::new(
                self.cells.len(),
                |i: int| self.next_alive(i / (self.width as int), i % (self.width as int)),
            ),
        }
    }

    /// The grid of the given size in which every cell is dead.
    pub open spec fn dead(width: nat, height: nat) -> Grid {
        Grid { width, height, cells: Seq::new(width * height, |i: int| false) }
    }

    /// The grid with the state of the cell at `(row, col)` inverted.
    pub open spec fn toggled(self, row: int, col: int) -> Grid {
        Grid {
            width: self.width,
            height: self.height,
            cells: self.cells.update(self.index(row, col), !self.alive(row, col)),
        }
    }

    /// Whether every pair of `coords` names a cell of the grid.
    pub open spec fn contains_all(self, coords: Seq<(u32, u32)>) -> bool {
        forall|k: int|
            0 <= k < coords.len()
                ==> self.contains((#[trigger] coords[k]).0 as int, coords[k].1 as int)
    }

    /// The grid in which a cell is alive if it is alive in `self` or is
    /// named by one of `coords`.
    pub open spec fn seeded(self, coords: Seq<(u32, u32)>) -> Grid {
        Grid {
            width: self.width,
            height: self.height,
            cells: Seq::new(
                self.cells.len(),
                |i: int|
                    self.cells[i] || names(
                        coords,
                        i / (self.width as int),
                        i % (self.width as int),
                    ),
            ),
        }
    }

    /// Every cell of the grid has a position in `cells`, and the position
    /// tells the cell: it is `row` whole rows and `col` cells further.
    pub proof fn lemma_index_of_cell(self, row: int, col: int)
        requires
            self.wf(),
            self.contains(row, col),
        ensures
            0 <= self.index(row, col) < self.cells.len(),
            self.index(row, col) / (self.width as int) == row,
            self.index(row, col) % (self.width as int) == col,
    {
        let w = self.width as int;
        let h = self.height as int;
        assert(0 <= row * w && row * w + w <= w * h) by (nonlinear_arith)
            requires
                0 <= row < h,
                0 < w,
        ;
        lemma_fundamental_div_mod_converse(self.index(row, col), w, row, col);
    }

    /// Every position in `cells` is the position of one cell of the grid.
    pub proof fn lemma_cell_of_index(self, i: int)
        requires
            self.wf(),
            0 <= i < self.cells.len(),
        ensures
            self.contains(i / (self.width as int), i % (self.width as int)),
            self.index(i / (self.width as int), i % (self.width as int)) == i,
    {
        let w = self.width as int;
        let h = self.height as int;
        assert(w > 0) by (nonlinear_arith)
            requires
                0 <= i < w * h,
                0 <= w,
        ;
        lemma_fundamental_div_mod(i, w);
        lemma_mod_bound(i, w);
        let q = i / w;
        let r = i % w;
        assert(0 <= q < h && q * w + r == i) by (nonlinear_arith)
            requires
                i == w * q + r,
                0 <= r < w,
                0 <= i < w * h,
        ;
    }

    /// Two cells of the grid that share a position in `cells` are the same
    /// cell.
    pub proof fn lemma_index_is_injective(self, row: int, col: int, other_row: int, other_col: int)
        requires
            self.wf(),
            self.contains(row, col),
            self.contains(other_row, other_col),
            self.index(row, col) == self.index(other_row, other_col),
        ensures
            row == other_row,
            col == other_col,
    {
        self.lemma_index_of_cell(row, col);
        self.lemma_index_of_cell(other_row, other_col);
    }

    /// Where a host finds a cell in the packed cells: the cell at
    /// `(row, col)` has bit index `row * width + col`, and it is the bit of
    /// that index modulo 32 in the block of that index divided by 32.
    pub proof fn lemma_packed_cell(self, blocks: Seq<u32>, row: int, col: int)
        requires
            self.wf(),
            self.contains(row, col),
            packs(blocks, self.cells),
        ensures
            0 <= self.index(row, col) / 32 < blocks.len(),
            block_bit(blocks[self.index(row, col) / 32], self.index(row, col) % 32)
                == self.alive(row, col),
    {
        self.lemma_index_of_cell(row, col);
    }

    /// On a grid with at least one cell, the neighbours in the four
    /// directions are the adjacent row or column, except at an edge, where
    /// they are the opposite edge.
    pub proof fn lemma_neighbours_wrap(self, row: int, col: int)
        requires
            self.contains(row, col),
        ensures
            row == 0 ==> self.north(row) == self.height - 1,
            row != 0 ==> self.north(row) == row - 1,
            row == self.height - 1 ==> self.south(row) == 0,
            row != self.height - 1 ==> self.south(row) == row + 1,
            col == 0 ==> self.west(col) == self.width - 1,
            col != 0 ==> self.west(col) == col - 1,
            col == self.width - 1 ==> self.east(col) == 0,
            col != self.width - 1 ==> self.east(col) == col + 1,
    {
        lemma_wrap_adjacent(row, self.height);
        lemma_wrap_adjacent(col, self.width);
    }

    /// The grid wraps: the neighbour to the north-west of the first cell is
    /// the last cell of the last row, and that cell is counted among the
    /// neighbours of the first.
    pub proof fn lemma_first_cell_sees_last(self)
        requires
            self.wf(),
            self.width > 0,
            self.height > 0,
        ensures
            self.north(0) == self.height - 1,
            self.west(0) == self.width - 1,
            self.live_neighbours(0, 0) >= self.population(self.height - 1, self.width - 1),
            self.alive(self.height - 1, self.width - 1) ==> self.live_neighbours(0, 0) >= 1,
    {
        self.lemma_neighbours_wrap(0, 0);
    }

    /// The next generation has the size of this one, and each of its cells
    /// is decided by the rule from that cell and its eight neighbours in
    /// this generation.
    pub proof fn lemma_step_cell(self, row: int, col: int)
        requires
            self.wf(),
            self.contains(row, col),
        ensures
            self.step().wf(),
            self.step().contains(row, col),
            self.step().alive(row, col) == self.next_alive(row, col),
    {
        self.lemma_index_of_cell(row, col);
    }

    /// A grid without cells is its own next generation.
    pub proof fn lemma_step_of_empty(self)
        requires
            self.wf(),
            self.width == 0 || self.height == 0,
        ensures
            self.step() == self,
    {
        assert(self.width * self.height == 0) by (nonlinear_arith)
            requires
                self.width == 0 || self.height == 0,
        ;
        assert(self.step().cells =~= self.cells);
    }

    /// A dead grid is well formed, and none of its cells is alive.
    pub proof fn lemma_dead_cells(width: nat, height: nat)
        ensures
            Grid::dead(width, height).wf(),
            forall|row: int, col: int|
                Grid::dead(width, height).contains(row, col)
                    ==> !Grid::dead(width, height).alive(row, col),
    {
        let dead = Grid::dead(width, height);
        assert forall|row: int, col: int| dead.contains(row, col) implies
            !dead.alive(row, col) by {
            dead.lemma_index_of_cell(row, col);
        }
    }

    /// Toggling inverts the named cell and leaves every other cell of the
    /// grid as it was.
    pub proof fn lemma_toggled_cell(self, row: int, col: int, other_row: int, other_col: int)
        requires
            self.wf(),
            self.contains(row, col),
            self.contains(other_row, other_col),
        ensures
            self.toggled(row, col).wf(),
            self.toggled(row, col).alive(row, col) == !self.alive(row, col),
            other_row != row || other_col != col
                ==> self.toggled(row, col).alive(other_row, other_col)
                    == self.alive(other_row, other_col),
    {
        self.lemma_index_of_cell(row, col);
        self.lemma_index_of_cell(other_row, other_col);
    }

    /// Toggling is its own inverse: toggling a cell twice gives back the
    /// grid, the toggled cell and every other.
    pub proof fn lemma_toggle_twice(self, row: int, col: int)
        requires
            self.wf(),
            self.contains(row, col),
        ensures
            self.toggled(row, col).toggled(row, col) == self,
    {
        self.lemma_index_of_cell(row, col);
        assert(self.toggled(row, col).toggled(row, col).cells =~= self.cells);
    }

    /// Seeding is additive: afterwards a cell is alive exactly if it was
    /// alive before or is one of the named cells. No live cell is cleared.
    pub proof fn lemma_seeded_cell(self, coords: Seq<(u32, u32)>, row: int, col: int)
        requires
            self.wf(),
            self.contains(row, col),
        ensures
            self.seeded(coords).wf(),
            self.seeded(coords).alive(row, col)
                == (self.alive(row, col) || names(coords, row, col)),
    {
        self.lemma_index_of_cell(row, col);
    }

    /// Seeding with one more pair sets the bit of that pair and no other.
    pub proof fn lemma_seeded_one_more(self, coords: Seq<(u32, u32)>, k: int)
        requires
            self.wf(),
            self.contains_all(coords),
            0 <= k < coords.len(),
        ensures
            self.seeded(coords.take(k + 1)).cells
                == self.seeded(coords.take(k)).cells.update(
                    self.index(coords[k].0 as int, coords[k].1 as int),
                    true,
                ),
    {
        let shorter = coords.take(k);
        let longer = coords.take(k + 1);
        let row = coords[k].0 as int;
        let col = coords[k].1 as int;
        let w = self.width as int;
        self.lemma_index_of_cell(row, col);
        assert(longer[k] == coords[k]);
        assert forall|i: int| 0 <= i < self.cells.len() implies self.seeded(longer).cells[i]
            == self.seeded(shorter).cells.update(self.index(row, col), true)[i] by {
            self.lemma_cell_of_index(i);
            if names(longer, i / w, i % w) {
                let j = choose|j: int|
                    0 <= j < longer.len() && (#[trigger] longer[j]).0 == i / w
                        && longer[j].1 == i % w;
                if j < k {
                    assert(shorter[j] == longer[j]);
                }
            }
            if names(shorter, i / w, i % w) {
                let j = choose|j: int|
                    0 <= j < shorter.len() && (#[trigger] shorter[j]).0 == i / w
                        && shorter[j].1 == i % w;
                assert(longer[j] == shorter[j]);
            }
        }
        assert(self.seeded(longer).cells =~= self.seeded(shorter).cells.update(
            self.index(row, col),
            true,
        ));
    }
}

} // verus!
