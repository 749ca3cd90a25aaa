//! The executable automaton.

use crate::bitset::{bit_at, bits_of, blocks_of};
use crate::grid::{names, Grid};
use crate::packing::packs;
use fixedbitset::FixedBitSet;
use vstd::prelude::*;

verus! {

/// A Game of Life universe: a toroidal grid of `width * height` cells, one
/// bit per cell, in row-major order.
pub struct Universe {
    width: u32,
    height: u32,
    cells: FixedBitSet,
}

impl View for Universe {
    type V = Grid;

    closed spec fn view(&self) -> Grid {
        Grid { width: self.width as nat, height: self.height as nat, cells: bits_of(self.cells) }
    }
}

impl Universe {
    /// The universe holds one bit for each cell, and the number of cells is
    /// one that the machine can index. Every universe that this library
    /// hands out is well formed, and every method keeps it so.
    pub open spec fn wf(&self) -> bool {
        self@.wf() && self@.cells.len() <= usize::MAX
    }

    /// A universe of `width * height` cells whose initial state is drawn
    /// by the caller: `draws[row * width + col]` tells whether the cell at
    /// `(row, col)` starts alive.
    pub fn new(width: u32, height: u32, draws: &[bool]) -> (universe: Universe)
        requires
            draws@.len() == width * height,
        ensures
            universe.wf(),
            universe@ == (Grid { width: width as nat, height: height as nat, cells: draws@ }),
    {
        let size = draws.len();
        let mut cells = FixedBitSet::with_capacity(size);

        for i in 0..size
            invariant
                size == draws@.len(),
                bits_of(cells).len() == size,
                forall|j: int| 0 <= j < i ==> bits_of(cells)[j] == draws@[j],
        {
            cells.set(i, draws[i]);
        }

        assert(bits_of(cells) =~= draws@);
        Universe { width, height, cells }
    }

    /// Sets the number of columns and resets every cell to dead.
    pub fn set_width(&mut self, width: u32)
        requires
            width * old(self)@.height <= usize::MAX,
        ensures
            final(self).wf(),
            final(self)@ == Grid::dead(width as nat, old(self)@.height),
            forall|row: int, col: int|
                final(self)@.contains(row, col) ==> !final(self)@.alive(row, col),
    {
        self.width = width;
        let size = width as usize * self.height as usize;
        let cells = FixedBitSet::with_capacity(size);
        self.cells = cells;
        proof {
            Grid::lemma_dead_cells(self.width as nat, self.height as nat);
        }
    }

    /// Sets the number of rows and resets every cell to dead.
    pub fn set_height(&mut self, height: u32)
        requires
            old(self)@.width * height <= usize::MAX,
        ensures
            final(self).wf(),
            final(self)@ == Grid::dead(old(self)@.width, height as nat),
            forall|row: int, col: int|
                final(self)@.contains(row, col) ==> !final(self)@.alive(row, col),
    {
        self.height = height;
        let size = self.width as usize * height as usize;
        let cells = FixedBitSet::with_capacity(size);
        self.cells = cells;
        proof {
            Grid::lemma_dead_cells(self.width as nat, self.height as nat);
        }
    }

    /// The number of columns.
    pub fn width(&self) -> (w: u32)
        ensures
            w == self@.width,
    {
        self.width
    }

    /// The number of rows.
    pub fn height(&self) -> (h: u32)
        ensures
            h == self@.height,
    {
        self.height
    }

    /// The blocks in which the universe holds its cells. They change only
    /// when the universe does.
    pub closed spec fn blocks(&self) -> Seq<u32> {
        blocks_of(self.cells)
    }

    /// The packed cells: one bit per cell in row-major order, 32 cells to a
    /// block, the first cell of a block in its least significant bit. A set
    /// bit is a live cell. What is read is a function of the universe: two
    /// reads with no mutation between them give the same blocks.
    pub fn cells(&self) -> (blocks: &[u32])
        ensures
            blocks@ == self.blocks(),
            packs(blocks@, self@.cells),
    {
        self.cells.as_slice()
    }

    /// The cells as a bit set: bit `row * width + col` is set when the cell
    /// at `(row, col)` is alive.
    pub fn get_cells(&self) -> (cells: &FixedBitSet)
        ensures
            bits_of(*cells) == self@.cells,
            blocks_of(*cells) == self.blocks(),
    {
        &self.cells
    }

    /// Advances the universe by one generation. Every cell is decided from
    /// the generation before the call.
    pub fn tick(&mut self)
        requires
            old(self).wf(),
        ensures
            final(self).wf(),
            final(self)@ == old(self)@.step(),
            forall|row: int, col: int|
                old(self)@.contains(row, col) ==> final(self)@.alive(row, col)
                    == old(self)@.next_alive(row, col),
    {
        let ghost before = self@;
        let mut next = self.cells.clone();

        for row in 0..self.height
            invariant
                *self == *old(self),
                before == self@,
                self.wf(),
                bits_of(next).len() == before.cells.len(),
                forall|r: int, c: int|
                    0 <= r < row && 0 <= c < before.width
                        ==> bits_of(next)[#[trigger] before.index(r, c)]
                            == before.next_alive(r, c),
        {
            for col in 0..self.width
                invariant
                    *self == *old(self),
                    before == self@,
                    self.wf(),
                    row < self.height,
                    bits_of(next).len() == before.cells.len(),
                    forall|r: int, c: int|
                        0 <= r < row && 0 <= c < before.width
                            ==> bits_of(next)[#[trigger] before.index(r, c)]
                                == before.next_alive(r, c),
                    forall|c: int|
                        0 <= c < col ==> bits_of(next)[#[trigger] before.index(row as int, c)]
                            == before.next_alive(row as int, c),
            {
                let idx = self.get_index(row, col);
                let cell = bit_at(&self.cells, idx);
                let live_neighbours = self.live_neighbour_count(row, col);

                let next_cell = match (cell, live_neighbours) {
                    (true, x) if x < 2 => false,
                    (true, 2) | (true, 3) => true,
                    (true, x) if x > 3 => false,
                    (false, 3) => true,
                    (otherwise, _) => otherwise,
                };
                proof {
                    assert forall|r: int, c: int|
                        before.contains(r, c) && (r != row || c != col) implies
                        0 <= #[trigger] before.index(r, c) < before.cells.len()
                        && before.index(r, c) != idx by {
                        before.lemma_index_of_cell(r, c);
                        if before.index(r, c) == idx {
                            before.lemma_index_is_injective(r, c, row as int, col as int);
                        }
                    }
                }
                next.set(idx, next_cell);
            }
        }

        proof {
            assert forall|i: int| 0 <= i < before.cells.len() implies bits_of(next)[i]
                == before.step().cells[i] by {
                before.lemma_cell_of_index(i);
            }
            assert(bits_of(next) =~= before.step().cells);
            assert forall|row: int, col: int| before.contains(row, col) implies
                before.step().alive(row, col) == before.next_alive(row, col) by {
                before.lemma_step_cell(row, col);
            }
        }
        self.cells = next;
    }

    /// The position of the cell at `(row, column)` among the bits.
    pub fn get_index(&self, row: u32, column: u32) -> (idx: usize)
        requires
            self.wf(),
            self@.contains(row as int, column as int),
        ensures
            idx == self@.index(row as int, column as int),
            idx < self@.cells.len(),
    {
        proof {
            self@.lemma_index_of_cell(row as int, column as int);
        }
        row as usize * self.width as usize + column as usize
    }

    /// Flips the state of the cell at `(row, col)` and leaves every other
    /// cell as it is.
    pub fn toggle_cell(&mut self, row: u32, col: u32)
        requires
            old(self).wf(),
            old(self)@.contains(row as int, col as int),
        ensures
            final(self).wf(),
            final(self)@ == old(self)@.toggled(row as int, col as int),
            final(self)@.alive(row as int, col as int) == !old(self)@.alive(row as int, col as int),
            forall|r: int, c: int|
                old(self)@.contains(r, c) && (r != row || c != col) ==> final(self)@.alive(r, c)
                    == old(self)@.alive(r, c),
    {
        let ghost before = self@;
        let idx = self.get_index(row, col);
        let alive = bit_at(&self.cells, idx);
        self.cells.set(idx, !alive);
        proof {
            before.lemma_toggled_cell(row as int, col as int, row as int, col as int);
            assert forall|r: int, c: int|
                before.contains(r, c) && (r != row || c != col) implies
                before.toggled(row as int, col as int).alive(r, c) == before.alive(r, c) by {
                before.lemma_toggled_cell(row as int, col as int, r, c);
            }
        }
    }

    /// Sets each of the named cells alive and leaves every other cell as it
    /// is.
    pub fn set_cells(&mut self, cells: &[(u32, u32)])
        requires
            old(self).wf(),
            old(self)@.contains_all(cells@),
        ensures
            final(self).wf(),
            final(self)@ == old(self)@.seeded(cells@),
            forall|row: int, col: int|
                old(self)@.contains(row, col) ==> final(self)@.alive(row, col)
                    == (old(self)@.alive(row, col) || names(cells@, row, col)),
    {
        let ghost before = self@;
        for k in 0..cells.len()
            invariant
                before == old(self)@,
                before.wf(),
                before.contains_all(cells@),
                self.wf(),
                self.width == old(self).width,
                self.height == old(self).height,
                bits_of(self.cells) == before.seeded(cells@.take(k as int)).cells,
        {
            let (row, col) = cells[k];
            let idx = self.get_index(row, col);
            proof {
                before.lemma_seeded_one_more(cells@, k as int);
            }
            self.cells.set(idx, true);
        }
        proof {
            assert(cells@.take(cells@.len() as int) =~= cells@);
            assert forall|row: int, col: int| before.contains(row, col) implies
                before.seeded(cells@).alive(row, col)
                == (before.alive(row, col) || names(cells@, row, col)) by {
                before.lemma_seeded_cell(cells@, row, col);
            }
        }
    }

    /// 1 if the cell at `(row, col)` is alive, 0 if it is dead.
    fn population(&self, row: u32, col: u32) -> (n: u8)
        requires
            self.wf(),
            self@.contains(row as int, col as int),
        ensures
            n == self@.population(row as int, col as int),
    {
        let idx = self.get_index(row, col);
        bit_at(&self.cells, idx) as u8
    }

    /// The number of live cells among the eight neighbours of the cell at
    /// `(row, col)`. The grid wraps at its edges.
    pub fn live_neighbour_count(&self, row: u32, col: u32) -> (count: u8)
        requires
            self.wf(),
            self@.contains(row as int, col as int),
        ensures
            count == self@.live_neighbours(row as int, col as int),
            count <= 8,
    {
        let north = if row == 0 { self.height - 1 } else { row - 1 };
        let south = if row == self.height - 1 { 0 } else { row + 1 };
        let west = if col == 0 { self.width - 1 } else { col - 1 };
        let east = if col == self.width - 1 { 0 } else { col + 1 };
        proof {
            self@.lemma_neighbours_wrap(row as int, col as int);
        }

        let mut count: u8 = 0;
        count += self.population(north, west);
        count += self.population(north, col);
        count += self.population(north, east);
        count += self.population(row, west);
        count += self.population(row, east);
        count += self.population(south, west);
        count += self.population(south, col);
        count += self.population(south, east);
        count
    }
}

} // verus!
