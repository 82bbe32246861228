//! One cell of a grid, and the census of a sequence of cells.

use vstd::prelude::*;

verus! {

/// What lives in a cell.
#[derive(Clone, Copy, PartialEq, Eq, Structural, Debug)]
pub enum CellType {
    Empty,
    Preditor,
    Prey,
}

/// A cell: its occupant and the tick stored with it.
///
/// `created_at` is the tick at which the cell was last stamped: when it was
/// seeded, born, claimed, or written as a persisting parent or hunter.
/// Clearing a cell, and a prey that merely moves onto it, leave the stored
/// tick as it was.
#[derive(Clone, Copy, PartialEq, Eq, Structural, Debug)]
pub struct Cell {
    pub cell_type: CellType,
    pub created_at: u32,
}

/// How many cells of `cells` hold an occupant of the given kind.
pub open spec fn count_kind(cells: Seq<Cell>, kind: CellType) -> nat
    decreases cells.len(),
{
    if cells.len() == 0 {
        0
    } else {
        count_kind(cells.drop_last(), kind) + if cells.last().cell_type == kind {
            1nat
        } else {
            0nat
        }
    }
}

/// How many cells of `cells` are occupied.
pub open spec fn count_occupied(cells: Seq<Cell>) -> nat {
    count_kind(cells, CellType::Preditor) + count_kind(cells, CellType::Prey)
}

/// The same cells, every one emptied; stored ticks are kept.
pub open spec fn cleared(cells: Seq<Cell>) -> Seq<Cell> {
    Seq::new(
        cells.len(),
        |i: int| Cell { cell_type: CellType::Empty, created_at: cells[i].created_at },
    )
}

/// Every stored tick in `cells` is at most `tick`.
pub open spec fn stamped_by(cells: Seq<Cell>, tick: u32) -> bool {
    forall|i: int| 0 <= i < cells.len() ==> (#[trigger] cells[i]).created_at <= tick
}

/// A census never exceeds the number of cells.
pub proof fn lemma_count_bounded(cells: Seq<Cell>, kind: CellType)
    ensures
        count_kind(cells, kind) <= cells.len(),
    decreases cells.len(),
{
    if cells.len() > 0 {
        lemma_count_bounded(cells.drop_last(), kind);
    }
}

/// The three kinds partition the cells.
pub proof fn lemma_count_partition(cells: Seq<Cell>)
    ensures
        count_kind(cells, CellType::Empty) + count_kind(cells, CellType::Preditor) + count_kind(
            cells,
            CellType::Prey,
        ) == cells.len(),
    decreases cells.len(),
{
    if cells.len() > 0 {
        lemma_count_partition(cells.drop_last());
    }
}

/// Extending a prefix by one cell adds that cell to the census.
pub proof fn lemma_count_take_next(cells: Seq<Cell>, n: int, kind: CellType)
    requires
        0 <= n < cells.len(),
    ensures
        count_kind(cells.take(n + 1), kind) == count_kind(cells.take(n), kind) + if cells[n].cell_type
            == kind {
            1nat
        } else {
            0nat
        },
{
    assert(cells.take(n + 1).drop_last() =~= cells.take(n));
}

/// Overwriting one cell moves the census by what left and what came.
pub proof fn lemma_count_update(cells: Seq<Cell>, at: int, cell: Cell, kind: CellType)
    requires
        0 <= at < cells.len(),
    ensures
        count_kind(cells.update(at, cell), kind) + (if cells[at].cell_type == kind {
            1nat
        } else {
            0nat
        }) == count_kind(cells, kind) + (if cell.cell_type == kind {
            1nat
        } else {
            0nat
        }),
    decreases cells.len(),
{
    let after = cells.update(at, cell);
    if at == cells.len() - 1 {
        assert(after.drop_last() =~= cells.drop_last());
    } else {
        assert(after.drop_last() =~= cells.drop_last().update(at, cell));
        lemma_count_update(cells.drop_last(), at, cell, kind);
    }
}

/// A cleared grid has no occupant and no cell of any kind but `Empty`.
pub proof fn lemma_count_cleared(cells: Seq<Cell>, kind: CellType)
    ensures
        count_kind(cleared(cells), kind) == if kind == CellType::Empty {
            cells.len()
        } else {
            0
        },
    decreases cells.len(),
{
    if cells.len() > 0 {
        assert(cleared(cells).drop_last() =~= cleared(cells.drop_last()));
        lemma_count_cleared(cells.drop_last(), kind);
    }
}

} // verus!
