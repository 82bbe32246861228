//! One generation: a grid of cells stored row by row.

use crate::cell::{
    cleared, count_kind, lemma_count_bounded, lemma_count_partition, lemma_count_take_next,
    lemma_count_update, Cell, CellType,
};
use crate::random::random_below;
use vstd::prelude::*;

verus! {

/// Hunters that one seeding places.
pub const PREDITORS: usize = 100;

/// Prey that one seeding places.
pub const PREY: usize = 300;

/// Draws over the whole grid that one placement may waste on occupied cells
/// before it draws among the empty cells alone.
pub const SEED_RETRIES: usize = 64;

/// Why a grid could not be seeded.
#[derive(Clone, Copy, PartialEq, Eq, Structural, Debug)]
pub enum SeedError {
    /// The grid has fewer empty cells than the population to place.
    InsufficientCapacity,
}

impl SeedError {
    /// The error in words.
    pub fn message(&self) -> (text: &'static str)
        ensures
            text@ == "insufficient capacity for requested population"@,
    {
        match self {
            SeedError::InsufficientCapacity => "insufficient capacity for requested population",
        }
    }
}

/// A census as a count holds it: the number itself, or the largest `u32`
/// where the number is larger.
pub open spec fn capped(n: nat) -> u32 {
    if n > u32::MAX {
        u32::MAX
    } else {
        n as u32
    }
}

/// The occupied cells of a grid with `cols` columns, in the order of their
/// indices: each with its row and column and with its occupant.
pub open spec fn listing(cells: Seq<Cell>, cols: int) -> Seq<((usize, usize), CellType)>
    decreases cells.len(),
{
    if cells.len() == 0 {
        Seq::empty()
    } else {
        let rest = listing(cells.drop_last(), cols);
        let index = cells.len() - 1;
        if cells.last().cell_type == CellType::Empty {
            rest
        } else {
            rest.push((((index / cols) as usize, (index % cols) as usize), cells.last().cell_type))
        }
    }
}

/// `after` is `before` with one population seeded at tick `tick`: a hundred
/// cells that were empty hold hunters, three hundred others that were empty
/// hold prey, all of them stamped `tick`, and every other cell is as it was.
pub open spec fn sown(before: Seq<Cell>, after: Seq<Cell>, tick: u32) -> bool {
    &&& after.len() == before.len()
    &&& forall|i: int|
        0 <= i < before.len() ==> #[trigger] after[i] == before[i] || (before[i].cell_type
            == CellType::Empty && after[i].cell_type != CellType::Empty && after[i].created_at
            == tick)
    &&& count_kind(after, CellType::Preditor) == count_kind(before, CellType::Preditor) + PREDITORS
    &&& count_kind(after, CellType::Prey) == count_kind(before, CellType::Prey) + PREY
}

/// A grid of `size.0` rows and `size.1` columns.
///
/// The cell at `(row, col)` is stored at index `row * size.1 + col`. The two
/// counts are a census taken when a generation has been built; nothing else
/// keeps them up to date.
pub struct World {
    pub size: (usize, usize),
    pub prey_count: u32,
    pub preditor_count: u32,
    pub cells: Vec<Cell>,
}

impl World {
    /// The grid holds exactly one cell for each coordinate.
    pub open spec fn wf(&self) -> bool {
        self.cells.len() == self.size.0 * self.size.1
    }

    /// Index of the cell at `(row, col)`.
    pub open spec fn index_of(&self, row: int, col: int) -> int {
        row * self.size.1 + col
    }

    /// Whether the grid holds exactly one cell for each coordinate.
    pub fn is_well_formed(&self) -> (ok: bool)
        ensures
            ok == self.wf(),
    {
        match self.size.0.checked_mul(self.size.1) {
            Some(cells) => self.cells.len() == cells,
            None => false,
        }
    }

    /// An empty grid of the given shape, with both counts at zero.
    pub fn new(size: (usize, usize)) -> (world: World)
        requires
            size.0 * size.1 <= usize::MAX,
        ensures
            world.wf(),
            world.size == size,
            world.prey_count == 0,
            world.preditor_count == 0,
            forall|i: int|
                0 <= i < world.cells.len() ==> world.cells[i] == (Cell {
                    cell_type: CellType::Empty,
                    created_at: 0,
                }),
    {
        let (rows, cols) = size;
        let cells = vec![Cell { cell_type: CellType::Empty, created_at: 0 }; rows * cols];
        World { size, cells, prey_count: 0, preditor_count: 0 }
    }

    /// Empties every cell. Stored ticks and the two counts stay.
    pub fn clear_cell_types(&mut self)
        ensures
            final(self).cells@ == cleared(old(self).cells@),
            final(self).size == old(self).size,
            final(self).prey_count == old(self).prey_count,
            final(self).preditor_count == old(self).preditor_count,
    {
        let n = self.cells.len();
        let mut i: usize = 0;
        while i < n
            invariant
                i <= n,
                n == self.cells.len(),
                self.cells.len() == old(self).cells.len(),
                self.size == old(self).size,
                self.prey_count == old(self).prey_count,
                self.preditor_count == old(self).preditor_count,
                forall|j: int| 0 <= j < i ==> self.cells[j] == cleared(old(self).cells@)[j],
                forall|j: int| i <= j < n ==> self.cells[j] == old(self).cells[j],
            decreases n - i,
        {
            self.cells[i].cell_type = CellType::Empty;
            i += 1;
        }
        assert(self.cells@ =~= cleared(old(self).cells@));
    }

    /// The cell at `(row, col)`.
    pub fn get_cell(&self, row: usize, col: usize) -> (cell: &Cell)
        requires
            self.wf(),
            row < self.size.0,
            col < self.size.1,
        ensures
            *cell == self.cells[self.index_of(row as int, col as int)],
    {
        proof {
            lemma_index_in_range(row as int, col as int, self.size.0 as int, self.size.1 as int);
        }
        &self.cells[row * self.size.1 + col]
    }

    /// The cell at `(row, col)`, to be changed in place.
    pub fn get_mut_cell(&mut self, row: usize, col: usize) -> (cell: &mut Cell)
        requires
            old(self).wf(),
            row < old(self).size.0,
            col < old(self).size.1,
        ensures
            *cell == old(self).cells[old(self).index_of(row as int, col as int)],
            final(self).cells@ == old(self).cells@.update(
                old(self).index_of(row as int, col as int),
                *final(cell),
            ),
            final(self).size == old(self).size,
            final(self).prey_count == old(self).prey_count,
            final(self).preditor_count == old(self).preditor_count,
    {
        proof {
            lemma_index_in_range(row as int, col as int, self.size.0 as int, self.size.1 as int);
        }
        &mut self.cells[row * self.size.1 + col]
    }

    /// Row and column of the cell stored at `index`.
    pub fn get_cell_x_y(&self, index: usize) -> (at: (usize, usize))
        requires
            self.size.1 > 0,
        ensures
            at.0 == index / self.size.1,
            at.1 == index % self.size.1,
            at.1 < self.size.1,
            self.index_of(at.0 as int, at.1 as int) == index,
            self.wf() && index < self.cells.len() ==> at.0 < self.size.0,
    {
        proof {
            lemma_coordinates(index as int, self.size.0 as int, self.size.1 as int);
        }
        (index / self.size.1, index % self.size.1)
    }

    /// Index of the empty cell that has exactly `rank` empty cells before it.
    pub fn nth_empty(&self, rank: usize) -> (index: usize)
        requires
            rank < count_kind(self.cells@, CellType::Empty),
        ensures
            index < self.cells.len(),
            self.cells[index as int].cell_type == CellType::Empty,
            count_kind(self.cells@.take(index as int), CellType::Empty) == rank,
    {
        let n = self.cells.len();
        let mut seen: usize = 0;
        let mut i: usize = 0;
        loop
            invariant
                n == self.cells.len(),
                i <= n,
                seen <= rank,
                seen == count_kind(self.cells@.take(i as int), CellType::Empty),
                rank < count_kind(self.cells@, CellType::Empty),
            decreases n - i,
        {
            proof {
                if i == n {
                    assert(self.cells@.take(i as int) =~= self.cells@);
                }
                lemma_count_take_next(self.cells@, i as int, CellType::Empty);
            }
            if self.cells[i].cell_type == CellType::Empty {
                if seen == rank {
                    return i;
                }
                seen += 1;
            }
            i += 1;
        }
    }

    /// Puts a creature of the given kind, stamped `tick`, into the cell at
    /// `index` if that cell is empty, and says whether it did.
    pub fn place(&mut self, index: usize, kind: CellType, tick: u32) -> (placed: bool)
        requires
            index < old(self).cells.len(),
        ensures
            placed == (old(self).cells[index as int].cell_type == CellType::Empty),
            placed ==> final(self).cells@ == old(self).cells@.update(
                index as int,
                Cell { cell_type: kind, created_at: tick },
            ),
            !placed ==> final(self).cells@ == old(self).cells@,
            final(self).size == old(self).size,
            final(self).prey_count == old(self).prey_count,
            final(self).preditor_count == old(self).preditor_count,
    {
        if self.cells[index].cell_type == CellType::Empty {
            self.cells[index] = Cell { cell_type: kind, created_at: tick };
            true
        } else {
            false
        }
    }

    /// Puts one creature into an empty cell chosen at random, each empty
    /// cell being as likely as any other, and returns the cell's index.
    ///
    /// Up to `SEED_RETRIES` times a cell is drawn from the whole grid and
    /// taken if it is empty. After that an empty cell is drawn by its rank
    /// among the empty cells.
    fn sow_one(&mut self, kind: CellType, tick: u32) -> (index: usize)
        requires
            count_kind(old(self).cells@, CellType::Empty) > 0,
        ensures
            index < old(self).cells.len(),
            old(self).cells[index as int].cell_type == CellType::Empty,
            final(self).cells@ == old(self).cells@.update(
                index as int,
                Cell { cell_type: kind, created_at: tick },
            ),
            final(self).size == old(self).size,
            final(self).prey_count == old(self).prey_count,
            final(self).preditor_count == old(self).preditor_count,
    {
        proof {
            lemma_count_bounded(self.cells@, CellType::Empty);
        }
        let n = self.cells.len();
        let mut tries: usize = 0;
        while tries < SEED_RETRIES
            invariant
                self.cells@ == old(self).cells@,
                self.size == old(self).size,
                self.prey_count == old(self).prey_count,
                self.preditor_count == old(self).preditor_count,
                n == self.cells.len(),
                n > 0,
            decreases SEED_RETRIES - tries,
        {
            let index = random_below(n);
            if self.place(index, kind, tick) {
                return index;
            }
            tries += 1;
        }
        let empties = self.count(CellType::Empty);
        let rank = random_below(empties);
        let index = self.nth_empty(rank);
        let placed = self.place(index, kind, tick);
        index
    }

    /// Seeds the grid: `PREDITORS` hunters, then `PREY` prey, each into an
    /// empty cell chosen at random and stamped `ticks`.
    ///
    /// A grid with fewer empty cells than that is refused and left as it is.
    pub fn seed_preditor_prey(&mut self, ticks: u32) -> (seeded: Result<(), SeedError>)
        ensures
            seeded.is_ok() <==> count_kind(old(self).cells@, CellType::Empty) >= PREDITORS + PREY,
            seeded.is_ok() ==> sown(old(self).cells@, final(self).cells@, ticks),
            seeded.is_err() ==> final(self).cells@ == old(self).cells@,
            final(self).size == old(self).size,
            final(self).prey_count == old(self).prey_count,
            final(self).preditor_count == old(self).preditor_count,
    {
        let empties = self.count(CellType::Empty);
        if empties < PREDITORS + PREY {
            return Err(SeedError::InsufficientCapacity);
        }
        let ghost before = self.cells@;
        let mut placed: usize = 0;
        while placed < PREDITORS + PREY
            invariant
                placed <= PREDITORS + PREY,
                before == old(self).cells@,
                self.size == old(self).size,
                self.prey_count == old(self).prey_count,
                self.preditor_count == old(self).preditor_count,
                self.cells.len() == before.len(),
                forall|i: int|
                    0 <= i < before.len() ==> #[trigger] self.cells[i] == before[i] || (
                    before[i].cell_type == CellType::Empty && self.cells[i].cell_type
                        != CellType::Empty && self.cells[i].created_at == ticks),
                count_kind(self.cells@, CellType::Empty) + placed == count_kind(
                    before,
                    CellType::Empty,
                ),
                count_kind(before, CellType::Empty) >= PREDITORS + PREY,
                count_kind(self.cells@, CellType::Preditor) == count_kind(
                    before,
                    CellType::Preditor,
                ) + if placed < PREDITORS {
                    placed
                } else {
                    PREDITORS
                },
                count_kind(self.cells@, CellType::Prey) == count_kind(before, CellType::Prey)
                    + if placed < PREDITORS {
                    0
                } else {
                    placed - PREDITORS
                },
            decreases PREDITORS + PREY - placed,
        {
            let kind = if placed < PREDITORS {
                CellType::Preditor
            } else {
                CellType::Prey
            };
            let ghost current = self.cells@;
            let index = self.sow_one(kind, ticks);
            proof {
                let cell = Cell { cell_type: kind, created_at: ticks };
                lemma_count_update(current, index as int, cell, CellType::Empty);
                lemma_count_update(current, index as int, cell, CellType::Preditor);
                lemma_count_update(current, index as int, cell, CellType::Prey);
                assert(current[index as int] == before[index as int]);
            }
            placed += 1;
        }
        Ok(())
    }

    /// Counts the cells of the given kind.
    pub fn count(&self, kind: CellType) -> (total: usize)
        ensures
            total == count_kind(self.cells@, kind),
    {
        let mut total: usize = 0;
        let mut i: usize = 0;
        while i < self.cells.len()
            invariant
                i <= self.cells.len(),
                total == count_kind(self.cells@.take(i as int), kind),
                total <= i,
            decreases self.cells.len() - i,
        {
            proof {
                lemma_count_take_next(self.cells@, i as int, kind);
            }
            if self.cells[i].cell_type == kind {
                total += 1;
            }
            i += 1;
        }
        assert(self.cells@.take(i as int) =~= self.cells@);
        total
    }
    /// Lists the occupied cells in the order of their indices: each with its
    /// row and column and with its occupant.
    pub fn occupied_cells(&self) -> (list: Vec<((usize, usize), CellType)>)
        requires
            self.wf(),
        ensures
            list@ == listing(self.cells@, self.size.1 as int),
    {
        let mut list: Vec<((usize, usize), CellType)> = Vec::new();
        let mut i: usize = 0;
        while i < self.cells.len()
            invariant
                self.wf(),
                i <= self.cells.len(),
                list@ == listing(self.cells@.take(i as int), self.size.1 as int),
            decreases self.cells.len() - i,
        {
            proof {
                assert(self.size.1 > 0) by (nonlinear_arith)
                    requires
                        self.size.0 * self.size.1 > 0,
                ;
                assert(self.cells@.take(i + 1).drop_last() =~= self.cells@.take(i as int));
            }
            let kind = self.cells[i].cell_type;
            if kind != CellType::Empty {
                let at = self.get_cell_x_y(i);
                list.push((at, kind));
            }
            i += 1;
        }
        assert(self.cells@.take(i as int) =~= self.cells@);
        list
    }

    /// Takes a census of the grid and stores it in the two counts.
    pub fn take_census(&mut self)
        ensures
            final(self).prey_count == capped(count_kind(old(self).cells@, CellType::Prey)),
            final(self).preditor_count == capped(
                count_kind(old(self).cells@, CellType::Preditor),
            ),
            final(self).cells@ == old(self).cells@,
            final(self).size == old(self).size,
    {
        let prey = self.count(CellType::Prey);
        let preditors = self.count(CellType::Preditor);
        self.prey_count = if prey > u32::MAX as usize {
            u32::MAX
        } else {
            prey as u32
        };
        self.preditor_count = if preditors > u32::MAX as usize {
            u32::MAX
        } else {
            preditors as u32
        };
    }
}

/// How many cells that were empty in `before` hold a creature of the given
/// kind in `after`.
pub open spec fn count_placed(before: Seq<Cell>, after: Seq<Cell>, kind: CellType) -> nat
    decreases before.len(),
{
    if before.len() == 0 || after.len() != before.len() {
        0
    } else {
        count_placed(before.drop_last(), after.drop_last(), kind) + if before.last().cell_type
            == CellType::Empty && after.last().cell_type == kind {
            1nat
        } else {
            0nat
        }
    }
}

/// Where every cell is either as it was or was empty and is occupied now,
/// each census has grown by exactly the creatures placed.
proof fn lemma_count_placed(before: Seq<Cell>, after: Seq<Cell>, kind: CellType)
    requires
        after.len() == before.len(),
        kind != CellType::Empty,
        forall|i: int|
            0 <= i < before.len() ==> #[trigger] after[i] == before[i] || (before[i].cell_type
                == CellType::Empty && after[i].cell_type != CellType::Empty),
    ensures
        count_kind(after, kind) == count_kind(before, kind) + count_placed(before, after, kind),
    decreases before.len(),
{
    if before.len() > 0 {
        let last = before.len() - 1;
        assert(after.drop_last().len() == before.drop_last().len());
        assert forall|i: int| 0 <= i < before.drop_last().len() implies #[trigger] after.drop_last()[i]
            == before.drop_last()[i] || (before.drop_last()[i].cell_type == CellType::Empty
            && after.drop_last()[i].cell_type != CellType::Empty) by {
            assert(after[i] == before[i] || (before[i].cell_type == CellType::Empty
                && after[i].cell_type != CellType::Empty));
        }
        lemma_count_placed(before.drop_last(), after.drop_last(), kind);
        assert(after[last] == before[last] || (before[last].cell_type == CellType::Empty
            && after[last].cell_type != CellType::Empty));
    }
}

/// Seeding is exact: of the cells that were empty, exactly `PREDITORS` hold
/// a hunter and exactly `PREY` hold prey; every cell that changed was empty
/// and is stamped with the tick of the seeding; and no other cell changed.
pub proof fn lemma_seeding_exact(before: Seq<Cell>, after: Seq<Cell>, tick: u32)
    requires
        sown(before, after, tick),
    ensures
        count_placed(before, after, CellType::Preditor) == PREDITORS,
        count_placed(before, after, CellType::Prey) == PREY,
        count_kind(after, CellType::Empty) + PREDITORS + PREY == count_kind(
            before,
            CellType::Empty,
        ),
        forall|i: int|
            0 <= i < before.len() && #[trigger] after[i] != before[i] ==> before[i].cell_type
                == CellType::Empty && after[i].cell_type != CellType::Empty && after[i].created_at
                == tick,
{
    lemma_count_placed(before, after, CellType::Preditor);
    lemma_count_placed(before, after, CellType::Prey);
    lemma_count_partition(before);
    lemma_count_partition(after);
}

/// A coordinate inside the grid has its index inside the cells.
pub proof fn lemma_index_in_range(row: int, col: int, rows: int, cols: int)
    requires
        0 <= row < rows,
        0 <= col < cols,
    ensures
        0 <= row * cols + col < rows * cols,
        (row * cols + col) / cols == row,
        (row * cols + col) % cols == col,
{
    assert(0 <= row * cols && row * cols + cols <= rows * cols) by (nonlinear_arith)
        requires
            0 <= row < rows,
            0 < cols,
    ;
    vstd::arithmetic::div_mod::lemma_fundamental_div_mod_converse(row * cols + col, cols, row, col);
}

/// Index and coordinate determine each other.
pub proof fn lemma_coordinates(index: int, rows: int, cols: int)
    requires
        0 <= index,
        0 < cols,
    ensures
        0 <= index / cols,
        0 <= index % cols < cols,
        (index / cols) * cols + index % cols == index,
        index < rows * cols ==> index / cols < rows,
{
    vstd::arithmetic::div_mod::lemma_fundamental_div_mod(index, cols);
    assert(0 <= index / cols) by (nonlinear_arith)
        requires
            0 <= index,
            0 < cols,
    ;
    assert((index / cols) * cols == cols * (index / cols)) by (nonlinear_arith);
    if index < rows * cols && index / cols >= rows {
        assert((index / cols) * cols >= rows * cols) by (nonlinear_arith)
            requires
                index / cols >= rows,
                0 < cols,
        ;
    }
}

} // verus!
