//! The rules by which prey and hunters act, from one generation into the next.
//!
//! A creature is given nine trials. Each trial is a pair of offsets, one for
//! the row and one for the column, each of them -1, 0 or 1; the cell it points
//! at is found by wrapping round the edges of the grid. The first trial whose
//! cell, in the generation being built, suits the creature is its target.
//! Nine trials for each cell of the grid, in the order of the cells, make a
//! script.

use crate::cell::{
    count_kind, count_occupied, lemma_count_take_next, lemma_count_update, stamped_by, Cell,
    CellType,
};
use crate::random::random_below;
use crate::world::{lemma_coordinates, lemma_index_in_range, World};
use vstd::prelude::*;

verus! {

/// Trials granted to one creature in one generation.
pub const TRIALS: usize = 9;

/// A prey bears a child whenever its age is a multiple of this.
pub const BREEDING_PERIOD: u32 = 25;

/// A hunter older than this dies.
pub const LIFESPAN: u32 = 55;

/// Both offsets are -1, 0 or 1.
pub open spec fn valid_offset(offset: (i8, i8)) -> bool {
    -1 <= offset.0 <= 1 && -1 <= offset.1 <= 1
}

/// Every offset of `trials` is valid.
pub open spec fn valid_trials(trials: Seq<(i8, i8)>) -> bool {
    forall|j: int| 0 <= j < trials.len() ==> valid_offset(#[trigger] trials[j])
}

/// A script for a grid of `cells` cells: nine valid trials for each.
pub open spec fn valid_script(script: Seq<(i8, i8)>, cells: int) -> bool {
    script.len() == TRIALS * cells && valid_trials(script)
}

/// The trials that `script` holds for the cell at `index`.
pub open spec fn trials_of(script: Seq<(i8, i8)>, index: int) -> Seq<(i8, i8)> {
    script.subrange(TRIALS * index, TRIALS * index + TRIALS)
}

/// The coordinate `offset` steps from `pos` on a ring of `extent` places.
pub open spec fn wrap(pos: int, offset: int, extent: int) -> int {
    (pos + offset + extent) % extent
}

/// Index of the cell that a trial from `(row, col)` points at.
pub open spec fn candidate(rows: int, cols: int, row: int, col: int, offset: (i8, i8)) -> int {
    wrap(row, offset.0 as int, rows) * cols + wrap(col, offset.1 as int, cols)
}

/// Whether a cell of this kind suits the creature: prey want an empty cell,
/// a hunter an empty cell or one with prey.
pub open spec fn accepts(kind: CellType, hunter: bool) -> bool {
    kind == CellType::Empty || (hunter && kind == CellType::Prey)
}

/// The cell that the first successful trial points at, if any trial succeeds.
pub open spec fn first_target(
    cells: Seq<Cell>,
    rows: int,
    cols: int,
    row: int,
    col: int,
    hunter: bool,
    trials: Seq<(i8, i8)>,
) -> Option<int>
    decreases trials.len(),
{
    if trials.len() == 0 {
        None
    } else {
        let at = candidate(rows, cols, row, col, trials[0]);
        if accepts(cells[at].cell_type, hunter) {
            Some(at)
        } else {
            first_target(cells, rows, cols, row, col, hunter, trials.drop_first())
        }
    }
}

/// What a prey at `home`, stamped `born`, leaves behind at tick `tick` once
/// its target is known.
///
/// Without a target it writes nothing and is gone. At a breeding age it
/// writes a child, stamped `tick`, at the target and then itself, with its
/// own stamp, at home. Otherwise it moves: the target becomes prey and keeps
/// the tick that was stored in it.
pub open spec fn prey_outcome(
    cells: Seq<Cell>,
    home: int,
    born: u32,
    tick: u32,
    target: Option<int>,
) -> Seq<Cell> {
    match target {
        None => cells,
        Some(at) => if (tick - born) % (BREEDING_PERIOD as int) == 0 {
            cells.update(at, Cell { cell_type: CellType::Prey, created_at: tick }).update(
                home,
                Cell { cell_type: CellType::Prey, created_at: born },
            )
        } else {
            cells.update(at, Cell { cell_type: CellType::Prey, created_at: cells[at].created_at })
        },
    }
}

/// What a hunter at `home`, stamped `born` and not yet too old, leaves behind
/// at tick `tick` once its target is known.
///
/// Without a target it writes nothing and is gone. Where the target holds
/// prey, the target becomes a hunter stamped `tick` and the hunter is written
/// at home with its own stamp. Where the target is empty the hunter moves
/// there and takes its stamp along. A target that holds a hunter is left
/// alone, and nothing is written.
pub open spec fn preditor_outcome(
    cells: Seq<Cell>,
    home: int,
    born: u32,
    tick: u32,
    target: Option<int>,
) -> Seq<Cell> {
    match target {
        None => cells,
        Some(at) => match cells[at].cell_type {
            CellType::Prey => cells.update(
                at,
                Cell { cell_type: CellType::Preditor, created_at: tick },
            ).update(home, Cell { cell_type: CellType::Preditor, created_at: born }),
            CellType::Preditor => cells,
            CellType::Empty => cells.update(
                at,
                Cell { cell_type: CellType::Preditor, created_at: born },
            ),
        },
    }
}

/// The generation under construction after the prey at `(row, col)` has acted
/// on the given trials.
pub open spec fn prey_step(
    cells: Seq<Cell>,
    rows: int,
    cols: int,
    row: int,
    col: int,
    born: u32,
    tick: u32,
    trials: Seq<(i8, i8)>,
) -> Seq<Cell> {
    prey_outcome(
        cells,
        row * cols + col,
        born,
        tick,
        first_target(cells, rows, cols, row, col, false, trials),
    )
}

/// The generation under construction after the hunter at `(row, col)` has
/// acted on the given trials. One older than `LIFESPAN` does not act.
pub open spec fn preditor_step(
    cells: Seq<Cell>,
    rows: int,
    cols: int,
    row: int,
    col: int,
    born: u32,
    tick: u32,
    trials: Seq<(i8, i8)>,
) -> Seq<Cell> {
    if tick - born > LIFESPAN {
        cells
    } else {
        preditor_outcome(
            cells,
            row * cols + col,
            born,
            tick,
            first_target(cells, rows, cols, row, col, true, trials),
        )
    }
}

/// The generation under construction after the cell of `active` at `index`
/// has had its turn.
pub open spec fn cell_step(
    active: Seq<Cell>,
    cells: Seq<Cell>,
    rows: int,
    cols: int,
    tick: u32,
    script: Seq<(i8, i8)>,
    index: int,
) -> Seq<Cell> {
    let row = index / cols;
    let col = index % cols;
    let born = active[index].created_at;
    match active[index].cell_type {
        CellType::Empty => cells,
        CellType::Prey => prey_step(
            cells,
            rows,
            cols,
            row,
            col,
            born,
            tick,
            trials_of(script, index),
        ),
        CellType::Preditor => preditor_step(
            cells,
            rows,
            cols,
            row,
            col,
            born,
            tick,
            trials_of(script, index),
        ),
    }
}

/// The generation under construction after the first `done` cells of
/// `active` have had their turn, in the order of their indices, starting from
/// `cells`.
pub open spec fn scan(
    active: Seq<Cell>,
    cells: Seq<Cell>,
    rows: int,
    cols: int,
    tick: u32,
    script: Seq<(i8, i8)>,
    done: nat,
) -> Seq<Cell>
    decreases done,
{
    if done == 0 {
        cells
    } else {
        cell_step(
            active,
            scan(active, cells, rows, cols, tick, script, (done - 1) as nat),
            rows,
            cols,
            tick,
            script,
            done - 1,
        )
    }
}

/// The generation that `active` leaves in a grid that starts as `cells`.
pub open spec fn next_generation(
    active: Seq<Cell>,
    cells: Seq<Cell>,
    rows: int,
    cols: int,
    tick: u32,
    script: Seq<(i8, i8)>,
) -> Seq<Cell> {
    scan(active, cells, rows, cols, tick, script, active.len())
}

/// Wrapping keeps a coordinate on the ring: one step back from the first
/// place is the last place, one step on from the last place is the first, and
/// every other step is the plain sum.
pub proof fn lemma_wrap(pos: int, offset: int, extent: int)
    requires
        0 <= pos < extent,
        -1 <= offset <= 1,
    ensures
        0 <= wrap(pos, offset, extent) < extent,
        offset == -1 ==> wrap(pos, offset, extent) == (pos - 1 + extent) % extent,
        pos + offset < 0 ==> wrap(pos, offset, extent) == extent - 1,
        pos + offset >= extent ==> wrap(pos, offset, extent) == 0,
        0 <= pos + offset < extent ==> wrap(pos, offset, extent) == pos + offset,
{
    let sum = pos + offset + extent;
    if pos + offset < 0 {
        vstd::arithmetic::div_mod::lemma_fundamental_div_mod_converse(sum, extent, 0, extent - 1);
    } else if pos + offset >= extent {
        vstd::arithmetic::div_mod::lemma_fundamental_div_mod_converse(sum, extent, 2, 0);
    } else {
        vstd::arithmetic::div_mod::lemma_fundamental_div_mod_converse(
            sum,
            extent,
            1,
            pos + offset,
        );
    }
}

/// A trial from inside the grid points inside the grid.
pub proof fn lemma_candidate_in_range(rows: int, cols: int, row: int, col: int, offset: (i8, i8))
    requires
        0 <= row < rows,
        0 <= col < cols,
        valid_offset(offset),
    ensures
        0 <= candidate(rows, cols, row, col, offset) < rows * cols,
{
    lemma_wrap(row, offset.0 as int, rows);
    lemma_wrap(col, offset.1 as int, cols);
    lemma_index_in_range(
        wrap(row, offset.0 as int, rows),
        wrap(col, offset.1 as int, cols),
        rows,
        cols,
    );
}

/// A target lies inside the grid and suits the creature.
pub proof fn lemma_first_target_suits(
    cells: Seq<Cell>,
    rows: int,
    cols: int,
    row: int,
    col: int,
    hunter: bool,
    trials: Seq<(i8, i8)>,
)
    requires
        0 <= row < rows,
        0 <= col < cols,
        valid_trials(trials),
    ensures
        first_target(cells, rows, cols, row, col, hunter, trials) matches Some(at) ==> 0 <= at
            < rows * cols && accepts(cells[at].cell_type, hunter),
    decreases trials.len(),
{
    if trials.len() > 0 {
        lemma_candidate_in_range(rows, cols, row, col, trials[0]);
        lemma_first_target_suits(cells, rows, cols, row, col, hunter, trials.drop_first());
    }
}

/// Trials are taken in order: the target of two lists, one after the other,
/// is that of the first list, and that of the second where the first has none.
pub proof fn lemma_first_target_concat(
    cells: Seq<Cell>,
    rows: int,
    cols: int,
    row: int,
    col: int,
    hunter: bool,
    head: Seq<(i8, i8)>,
    tail: Seq<(i8, i8)>,
)
    ensures
        first_target(cells, rows, cols, row, col, hunter, head + tail) == match first_target(
            cells,
            rows,
            cols,
            row,
            col,
            hunter,
            head,
        ) {
            Some(at) => Some(at),
            None => first_target(cells, rows, cols, row, col, hunter, tail),
        },
    decreases head.len(),
{
    if head.len() == 0 {
        assert(head + tail =~= tail);
    } else {
        assert((head + tail).drop_first() =~= head.drop_first() + tail);
        lemma_first_target_concat(cells, rows, cols, row, col, hunter, head.drop_first(), tail);
    }
}

/// A scan reads, for each cell that has had its turn, only that cell's nine
/// trials: two scripts that agree on them give the same result.
pub proof fn lemma_scan_reads_prefix(
    active: Seq<Cell>,
    cells: Seq<Cell>,
    rows: int,
    cols: int,
    tick: u32,
    script: Seq<(i8, i8)>,
    other: Seq<(i8, i8)>,
    done: nat,
)
    requires
        TRIALS * done <= script.len(),
        TRIALS * done <= other.len(),
        forall|j: int| 0 <= j < TRIALS * done ==> script[j] == other[j],
    ensures
        scan(active, cells, rows, cols, tick, script, done) == scan(
            active,
            cells,
            rows,
            cols,
            tick,
            other,
            done,
        ),
    decreases done,
{
    if done > 0 {
        lemma_scan_reads_prefix(active, cells, rows, cols, tick, script, other, (done - 1) as nat);
        assert(trials_of(script, done - 1) =~= trials_of(other, done - 1));
    }
}

/// The most that the creature of one kind can add to the occupied cells: a
/// prey itself and a child, a hunter itself.
pub open spec fn growth_of(kind: CellType) -> nat {
    match kind {
        CellType::Empty => 0,
        CellType::Preditor => 1,
        CellType::Prey => 2,
    }
}

/// The occupied cells of `cells` are stamped with ticks that are at most
/// `tick`.
pub open spec fn occupants_born_by(cells: Seq<Cell>, tick: u32) -> bool {
    forall|i: int|
        0 <= i < cells.len() && (#[trigger] cells[i]).cell_type != CellType::Empty
            ==> cells[i].created_at <= tick
}

/// Writing one cell adds at most one to the occupied cells, and nothing
/// where the cell was occupied before.
pub proof fn lemma_occupied_update(cells: Seq<Cell>, at: int, cell: Cell)
    requires
        0 <= at < cells.len(),
        cell.cell_type != CellType::Empty,
    ensures
        count_occupied(cells.update(at, cell)) == count_occupied(cells) + if cells[at].cell_type
            == CellType::Empty {
            1nat
        } else {
            0nat
        },
{
    lemma_count_update(cells, at, cell, CellType::Preditor);
    lemma_count_update(cells, at, cell, CellType::Prey);
}

/// One turn keeps the number of cells and the bound on the stored ticks, and
/// adds to the occupied cells no more than its creature can.
pub proof fn lemma_cell_step_bounds(
    active: Seq<Cell>,
    cells: Seq<Cell>,
    rows: int,
    cols: int,
    tick: u32,
    script: Seq<(i8, i8)>,
    index: int,
)
    requires
        0 <= index < active.len(),
        active.len() == rows * cols,
        cells.len() == rows * cols,
        0 < cols,
        valid_script(script, rows * cols),
        occupants_born_by(active, tick),
    ensures
        cell_step(active, cells, rows, cols, tick, script, index).len() == cells.len(),
        stamped_by(cells, tick) ==> stamped_by(
            cell_step(active, cells, rows, cols, tick, script, index),
            tick,
        ),
        count_occupied(cell_step(active, cells, rows, cols, tick, script, index)) <= count_occupied(
            cells,
        ) + growth_of(active[index].cell_type),
{
    let row = index / cols;
    let col = index % cols;
    let born = active[index].created_at;
    let trials = trials_of(script, index);
    lemma_coordinates(index, rows, cols);
    lemma_index_in_range(row, col, rows, cols);
    assert(valid_trials(trials)) by {
        assert forall|j: int| 0 <= j < trials.len() implies valid_offset(#[trigger] trials[j]) by {
            assert(trials[j] == script[TRIALS * index + j]);
        }
    }
    let after = cell_step(active, cells, rows, cols, tick, script, index);
    match active[index].cell_type {
        CellType::Empty => {},
        CellType::Prey => {
            lemma_first_target_suits(cells, rows, cols, row, col, false, trials);
            match first_target(cells, rows, cols, row, col, false, trials) {
                None => {},
                Some(at) => {
                    if (tick - born) % (BREEDING_PERIOD as int) == 0 {
                        let child = Cell { cell_type: CellType::Prey, created_at: tick };
                        let parent = Cell { cell_type: CellType::Prey, created_at: born };
                        lemma_occupied_update(cells, at, child);
                        lemma_occupied_update(cells.update(at, child), index, parent);
                    } else {
                        lemma_occupied_update(
                            cells,
                            at,
                            Cell { cell_type: CellType::Prey, created_at: cells[at].created_at },
                        );
                    }
                },
            }
        },
        CellType::Preditor => {
            lemma_first_target_suits(cells, rows, cols, row, col, true, trials);
            if tick - born <= LIFESPAN {
                match first_target(cells, rows, cols, row, col, true, trials) {
                    None => {},
                    Some(at) => {
                        let claim = Cell { cell_type: CellType::Preditor, created_at: tick };
                        let same = Cell { cell_type: CellType::Preditor, created_at: born };
                        if cells[at].cell_type == CellType::Prey {
                            lemma_occupied_update(cells, at, claim);
                            lemma_occupied_update(cells.update(at, claim), index, same);
                        } else {
                            lemma_occupied_update(cells, at, same);
                        }
                    },
                }
            }
        },
    }
}

/// A scan keeps the number of cells and the bound on the stored ticks, and
/// the occupied cells grow by no more than what the creatures that have had
/// their turn can add.
pub proof fn lemma_scan_bounds(
    active: Seq<Cell>,
    cells: Seq<Cell>,
    rows: int,
    cols: int,
    tick: u32,
    script: Seq<(i8, i8)>,
    done: nat,
)
    requires
        done <= active.len(),
        active.len() == rows * cols,
        cells.len() == rows * cols,
        0 <= rows,
        0 <= cols,
        valid_script(script, rows * cols),
        occupants_born_by(active, tick),
    ensures
        scan(active, cells, rows, cols, tick, script, done).len() == cells.len(),
        stamped_by(cells, tick) ==> stamped_by(
            scan(active, cells, rows, cols, tick, script, done),
            tick,
        ),
        count_occupied(scan(active, cells, rows, cols, tick, script, done)) <= count_occupied(cells)
            + 2 * count_kind(active.take(done as int), CellType::Prey) + count_kind(
            active.take(done as int),
            CellType::Preditor,
        ),
    decreases done,
{
    if done > 0 {
        let index = (done - 1) as nat;
        lemma_scan_bounds(active, cells, rows, cols, tick, script, index);
        assert(0 < cols) by (nonlinear_arith)
            requires
                0 <= cols,
                0 <= rows,
                0 < rows * cols,
        ;
        lemma_cell_step_bounds(
            active,
            scan(active, cells, rows, cols, tick, script, index),
            rows,
            cols,
            tick,
            script,
            index as int,
        );
        lemma_count_take_next(active, index as int, CellType::Prey);
        lemma_count_take_next(active, index as int, CellType::Preditor);
    }
}

/// One generation cannot grow by more than two cells for each prey and one
/// for each hunter of the generation before: a prey can add a child and
/// itself, a hunter only itself, and nothing else adds a creature.
pub proof fn lemma_growth_bound(
    active: Seq<Cell>,
    cells: Seq<Cell>,
    rows: int,
    cols: int,
    tick: u32,
    script: Seq<(i8, i8)>,
)
    requires
        active.len() == rows * cols,
        cells.len() == rows * cols,
        0 <= rows,
        0 <= cols,
        valid_script(script, rows * cols),
        occupants_born_by(active, tick),
    ensures
        count_occupied(next_generation(active, cells, rows, cols, tick, script)) <= count_occupied(
            cells,
        ) + 2 * count_kind(active, CellType::Prey) + count_kind(active, CellType::Preditor),
{
    lemma_scan_bounds(active, cells, rows, cols, tick, script, active.len());
    assert(active.take(active.len() as int) =~= active);
}

/// A prey of breeding age that finds a target stays where it is, with its
/// stamp unchanged, and leaves one child, stamped with the current tick, on
/// the target; no other cell changes. Where the target is the prey's own
/// cell, which the offset (0, 0) and the wrapping on a grid of one row or one
/// column bring about, the parent is written over the child.
pub proof fn lemma_breeding_prey(
    cells: Seq<Cell>,
    rows: int,
    cols: int,
    row: int,
    col: int,
    born: u32,
    tick: u32,
    trials: Seq<(i8, i8)>,
)
    requires
        0 <= row < rows,
        0 <= col < cols,
        cells.len() == rows * cols,
        valid_trials(trials),
        born <= tick,
        (tick - born) % (BREEDING_PERIOD as int) == 0,
        first_target(cells, rows, cols, row, col, false, trials).is_some(),
    ensures
        ({
            let home = row * cols + col;
            let at = first_target(cells, rows, cols, row, col, false, trials).unwrap();
            let after = prey_step(cells, rows, cols, row, col, born, tick, trials);
            &&& after.len() == cells.len()
            &&& 0 <= at < cells.len()
            &&& cells[at].cell_type == CellType::Empty
            &&& after[home] == Cell { cell_type: CellType::Prey, created_at: born }
            &&& at != home ==> after[at] == Cell { cell_type: CellType::Prey, created_at: tick }
            &&& forall|i: int| 0 <= i < cells.len() && i != home && i != at ==> after[i] == cells[i]
        }),
{
    lemma_index_in_range(row, col, rows, cols);
    lemma_first_target_suits(cells, rows, cols, row, col, false, trials);
}

/// What a breeding prey wrote is still there when the generation is
/// complete, unless the turn of a later cell wrote over it.
pub proof fn lemma_breeding_prey_lasts(
    active: Seq<Cell>,
    cells: Seq<Cell>,
    rows: int,
    cols: int,
    tick: u32,
    script: Seq<(i8, i8)>,
    index: int,
)
    requires
        0 <= index < active.len(),
        active.len() == rows * cols,
        cells.len() == rows * cols,
        0 <= rows,
        0 <= cols,
        valid_script(script, rows * cols),
        occupants_born_by(active, tick),
        active[index].cell_type == CellType::Prey,
        (tick - active[index].created_at) % (BREEDING_PERIOD as int) == 0,
        first_target(
            scan(active, cells, rows, cols, tick, script, index as nat),
            rows,
            cols,
            index / cols,
            index % cols,
            false,
            trials_of(script, index),
        ) matches Some(at) && forall|later: int|
            index < later < active.len() ==> {
                &&& (#[trigger] scan(active, cells, rows, cols, tick, script, (later + 1) as nat))[index]
                    == scan(active, cells, rows, cols, tick, script, later as nat)[index]
                &&& scan(active, cells, rows, cols, tick, script, (later + 1) as nat)[at] == scan(
                    active,
                    cells,
                    rows,
                    cols,
                    tick,
                    script,
                    later as nat,
                )[at]
            },
    ensures
        ({
            let at = first_target(
                scan(active, cells, rows, cols, tick, script, index as nat),
                rows,
                cols,
                index / cols,
                index % cols,
                false,
                trials_of(script, index),
            ).unwrap();
            let after = next_generation(active, cells, rows, cols, tick, script);
            &&& after[index] == Cell {
                cell_type: CellType::Prey,
                created_at: active[index].created_at,
            }
            &&& at != index ==> after[at] == Cell { cell_type: CellType::Prey, created_at: tick }
        }),
{
    let before = scan(active, cells, rows, cols, tick, script, index as nat);
    let trials = trials_of(script, index);
    let at = first_target(before, rows, cols, index / cols, index % cols, false, trials).unwrap();
    assert(0 < cols) by (nonlinear_arith)
        requires
            0 <= cols,
            0 <= rows,
            0 < rows * cols,
    ;
    lemma_coordinates(index, rows, cols);
    lemma_scan_bounds(active, cells, rows, cols, tick, script, index as nat);
    assert(valid_trials(trials)) by {
        assert forall|j: int| 0 <= j < trials.len() implies valid_offset(#[trigger] trials[j]) by {
            assert(trials[j] == script[TRIALS * index + j]);
        }
    }
    lemma_breeding_prey(
        before,
        rows,
        cols,
        index / cols,
        index % cols,
        active[index].created_at,
        tick,
        trials,
    );
    lemma_scan_keeps(active, cells, rows, cols, tick, script, index + 1, active.len() as int, index);
    lemma_scan_keeps(active, cells, rows, cols, tick, script, index + 1, active.len() as int, at);
}

/// A cell that no turn from `from` up to `to` writes is the same after
/// `to` turns as after `from`.
pub proof fn lemma_scan_keeps(
    active: Seq<Cell>,
    cells: Seq<Cell>,
    rows: int,
    cols: int,
    tick: u32,
    script: Seq<(i8, i8)>,
    from: int,
    to: int,
    place: int,
)
    requires
        0 <= from <= to,
        forall|later: int|
            from <= later < to ==> (#[trigger] scan(
                active,
                cells,
                rows,
                cols,
                tick,
                script,
                (later + 1) as nat,
            ))[place] == scan(active, cells, rows, cols, tick, script, later as nat)[place],
    ensures
        scan(active, cells, rows, cols, tick, script, to as nat)[place] == scan(
            active,
            cells,
            rows,
            cols,
            tick,
            script,
            from as nat,
        )[place],
    decreases to - from,
{
    if from < to {
        lemma_scan_keeps(active, cells, rows, cols, tick, script, from, to - 1, place);
        assert(scan(active, cells, rows, cols, tick, script, ((to - 1) + 1) as nat)[place] == scan(
            active,
            cells,
            rows,
            cols,
            tick,
            script,
            (to - 1) as nat,
        )[place]);
    }
}

/// A hunter older than `LIFESPAN`, and one whose nine trials find no target,
/// writes nothing: the generation under construction is after its turn what
/// it was before, so the hunter is nowhere in it.
pub proof fn lemma_preditor_dies(
    cells: Seq<Cell>,
    rows: int,
    cols: int,
    row: int,
    col: int,
    born: u32,
    tick: u32,
    trials: Seq<(i8, i8)>,
)
    requires
        tick - born > LIFESPAN || first_target(cells, rows, cols, row, col, true, trials).is_none(),
    ensures
        preditor_step(cells, rows, cols, row, col, born, tick, trials) == cells,
{
}

/// A prey whose nine trials find no empty cell writes nothing.
pub proof fn lemma_prey_dies(
    cells: Seq<Cell>,
    rows: int,
    cols: int,
    row: int,
    col: int,
    born: u32,
    tick: u32,
    trials: Seq<(i8, i8)>,
)
    requires
        first_target(cells, rows, cols, row, col, false, trials).is_none(),
    ensures
        prey_step(cells, rows, cols, row, col, born, tick, trials) == cells,
{
}

/// Whatever the script, the turn of a hunter older than `LIFESPAN` leaves
/// the generation under construction as it was.
pub proof fn lemma_aged_preditor_leaves_nothing(
    active: Seq<Cell>,
    cells: Seq<Cell>,
    rows: int,
    cols: int,
    tick: u32,
    script: Seq<(i8, i8)>,
    index: int,
)
    requires
        0 <= index < active.len(),
        active[index].cell_type == CellType::Preditor,
        tick - active[index].created_at > LIFESPAN,
    ensures
        cell_step(active, cells, rows, cols, tick, script, index) == cells,
        scan(active, cells, rows, cols, tick, script, (index + 1) as nat) == scan(
            active,
            cells,
            rows,
            cols,
            tick,
            script,
            index as nat,
        ),
{
}

/// Whether the exec target and the target of the model are the same cell.
pub open spec fn same_target(found: Option<usize>, target: Option<int>) -> bool {
    match found {
        Some(at) => target == Some(at as int),
        None => target.is_none(),
    }
}

/// The place `offset` steps from `pos` on a ring of `extent` places.
pub fn wrap_coordinate(pos: usize, offset: i8, extent: usize) -> (wrapped: usize)
    requires
        pos < extent,
        -1 <= offset <= 1,
    ensures
        wrapped == wrap(pos as int, offset as int, extent as int),
        wrapped < extent,
{
    proof {
        lemma_wrap(pos as int, offset as int, extent as int);
    }
    if offset < 0 {
        if pos == 0 {
            extent - 1
        } else {
            pos - 1
        }
    } else if offset > 0 {
        if pos == extent - 1 {
            0
        } else {
            pos + 1
        }
    } else {
        pos
    }
}

/// One trial: an offset pair from the script where there is one, two fresh
/// draws otherwise.
fn next_offset(script: Option<&Vec<(i8, i8)>>, index: usize, trial: usize) -> (offset: (i8, i8))
    requires
        trial < TRIALS,
        script matches Some(s) ==> TRIALS * index + TRIALS <= s.len() && valid_trials(s@),
    ensures
        valid_offset(offset),
        script matches Some(s) ==> offset == s[TRIALS * index + trial],
{
    match script {
        Some(s) => s[TRIALS * index + trial],
        None => {
            let d_row = random_below(3);
            let d_col = random_below(3);
            (d_row as i8 - 1, d_col as i8 - 1)
        },
    }
}

impl World {
    /// Tries one offset from `(row, col)`: the index of the cell it points
    /// at, if that cell suits the creature.
    pub fn try_target(&self, row: usize, col: usize, offset: (i8, i8), hunter: bool) -> (found:
        Option<usize>)
        requires
            self.wf(),
            row < self.size.0,
            col < self.size.1,
            valid_offset(offset),
        ensures
            found == (if accepts(
                self.cells[candidate(
                    self.size.0 as int,
                    self.size.1 as int,
                    row as int,
                    col as int,
                    offset,
                )].cell_type,
                hunter,
            ) {
                Some(
                    candidate(
                        self.size.0 as int,
                        self.size.1 as int,
                        row as int,
                        col as int,
                        offset,
                    ) as usize,
                )
            } else {
                None
            }),
            found matches Some(at) ==> at < self.cells.len(),
    {
        proof {
            lemma_candidate_in_range(
                self.size.0 as int,
                self.size.1 as int,
                row as int,
                col as int,
                offset,
            );
        }
        let to_row = wrap_coordinate(row, offset.0, self.size.0);
        let to_col = wrap_coordinate(col, offset.1, self.size.1);
        let kind = self.get_cell(to_row, to_col).cell_type;
        if kind == CellType::Empty || (hunter && kind == CellType::Prey) {
            Some(to_row * self.size.1 + to_col)
        } else {
            None
        }
    }

    /// Looks for a target from `(row, col)`, one trial after the other, and
    /// stops at the first that succeeds.
    fn search(
        &self,
        row: usize,
        col: usize,
        hunter: bool,
        script: Option<&Vec<(i8, i8)>>,
        index: usize,
    ) -> (found: (Option<usize>, Ghost<Seq<(i8, i8)>>))
        requires
            self.wf(),
            row < self.size.0,
            col < self.size.1,
            script matches Some(s) ==> TRIALS * index + TRIALS <= s.len() && valid_trials(s@),
        ensures
            found.1@.len() == TRIALS,
            valid_trials(found.1@),
            script matches Some(s) ==> found.1@ == trials_of(s@, index as int),
            same_target(
                found.0,
                first_target(
                    self.cells@,
                    self.size.0 as int,
                    self.size.1 as int,
                    row as int,
                    col as int,
                    hunter,
                    found.1@,
                ),
            ),
            found.0 matches Some(at) ==> at < self.cells.len(),
    {
        let ghost rows = self.size.0 as int;
        let ghost cols = self.size.1 as int;
        let ghost mut seen: Seq<(i8, i8)> = Seq::empty();
        let mut trial: usize = 0;
        while trial < TRIALS
            invariant
                trial <= TRIALS,
                self.wf(),
                row < self.size.0,
                col < self.size.1,
                rows == self.size.0,
                cols == self.size.1,
                script matches Some(s) ==> TRIALS * index + TRIALS <= s.len() && valid_trials(s@),
                seen.len() == trial,
                valid_trials(seen),
                script matches Some(s) ==> seen == s@.subrange(
                    TRIALS * index,
                    TRIALS * index + trial,
                ),
                first_target(self.cells@, rows, cols, row as int, col as int, hunter, seen).is_none(),
            decreases TRIALS - trial,
        {
            let offset = next_offset(script, index, trial);
            let hit = self.try_target(row, col, offset, hunter);
            let ghost rest: Seq<(i8, i8)> = match script {
                Some(s) => s@.subrange(TRIALS * index + trial + 1, TRIALS * index + TRIALS),
                None => Seq::new((TRIALS - trial - 1) as nat, |j: int| (0i8, 0i8)),
            };
            proof {
                lemma_candidate_in_range(rows, cols, row as int, col as int, offset);
                let one = seq![offset];
                assert(one.drop_first() =~= Seq::<(i8, i8)>::empty());
                assert(first_target(
                    self.cells@,
                    rows,
                    cols,
                    row as int,
                    col as int,
                    hunter,
                    one.drop_first(),
                ).is_none());
                assert(first_target(self.cells@, rows, cols, row as int, col as int, hunter, one)
                    == if hit.is_some() {
                    Some(candidate(rows, cols, row as int, col as int, offset))
                } else {
                    None
                });
                lemma_first_target_concat(
                    self.cells@,
                    rows,
                    cols,
                    row as int,
                    col as int,
                    hunter,
                    seen,
                    one,
                );
                if let Some(s) = script {
                    assert(seen + one =~= s@.subrange(
                        TRIALS * index,
                        TRIALS * index + trial + 1,
                    ));
                }
                seen = seen + one;
            }
            if hit.is_some() {
                proof {
                    lemma_first_target_concat(
                        self.cells@,
                        rows,
                        cols,
                        row as int,
                        col as int,
                        hunter,
                        seen,
                        rest,
                    );
                    if let Some(s) = script {
                        assert(seen + rest =~= trials_of(s@, index as int));
                    }
                }
                return (hit, Ghost(seen + rest));
            }
            trial += 1;
        }
        proof {
            if let Some(s) = script {
                assert(seen =~= trials_of(s@, index as int));
            }
        }
        (None, Ghost(seen))
    }

    /// Writes what a prey at `(row, col)`, stamped `born`, leaves behind at
    /// tick `tick`, given the target that its trials found.
    pub fn resolve_prey(
        &mut self,
        row: usize,
        col: usize,
        born: u32,
        tick: u32,
        target: Option<usize>,
    )
        requires
            old(self).wf(),
            row < old(self).size.0,
            col < old(self).size.1,
            born <= tick,
            target matches Some(at) ==> at < old(self).cells.len(),
        ensures
            final(self).cells@ == prey_outcome(
                old(self).cells@,
                old(self).index_of(row as int, col as int),
                born,
                tick,
                match target {
                    Some(at) => Some(at as int),
                    None => None,
                },
            ),
            final(self).size == old(self).size,
            final(self).prey_count == old(self).prey_count,
            final(self).preditor_count == old(self).preditor_count,
    {
        proof {
            lemma_index_in_range(row as int, col as int, self.size.0 as int, self.size.1 as int);
        }
        match target {
            None => {},
            Some(at) => {
                if (tick - born) % BREEDING_PERIOD == 0 {
                    self.cells[at] = Cell { cell_type: CellType::Prey, created_at: tick };
                    let home = row * self.size.1 + col;
                    self.cells[home] = Cell { cell_type: CellType::Prey, created_at: born };
                } else {
                    self.cells[at].cell_type = CellType::Prey;
                }
            },
        }
    }

    /// Writes what a hunter at `(row, col)`, stamped `born` and not older than
    /// `LIFESPAN`, leaves behind at tick `tick`, given the target that its
    /// trials found.
    pub fn resolve_preditor(
        &mut self,
        row: usize,
        col: usize,
        born: u32,
        tick: u32,
        target: Option<usize>,
    )
        requires
            old(self).wf(),
            row < old(self).size.0,
            col < old(self).size.1,
            target matches Some(at) ==> at < old(self).cells.len(),
        ensures
            final(self).cells@ == preditor_outcome(
                old(self).cells@,
                old(self).index_of(row as int, col as int),
                born,
                tick,
                match target {
                    Some(at) => Some(at as int),
                    None => None,
                },
            ),
            final(self).size == old(self).size,
            final(self).prey_count == old(self).prey_count,
            final(self).preditor_count == old(self).preditor_count,
    {
        proof {
            lemma_index_in_range(row as int, col as int, self.size.0 as int, self.size.1 as int);
        }
        match target {
            None => {},
            Some(at) => {
                match self.cells[at].cell_type {
                    CellType::Prey => {
                        self.cells[at] = Cell { cell_type: CellType::Preditor, created_at: tick };
                        let home = row * self.size.1 + col;
                        self.cells[home] = Cell { cell_type: CellType::Preditor, created_at: born };
                    },
                    CellType::Preditor => {},
                    CellType::Empty => {
                        self.cells[at] = Cell { cell_type: CellType::Preditor, created_at: born };
                    },
                }
            },
        }
    }
}

/// The trials recorded for a cell whose creature makes none: those of the
/// script where there is one, nine idle ones otherwise.
pub open spec fn idle_trials(script: Option<&Vec<(i8, i8)>>, index: int) -> Seq<(i8, i8)> {
    match script {
        Some(s) => trials_of(s@, index),
        None => Seq::new(TRIALS as nat, |j: int| (0i8, 0i8)),
    }
}

impl World {
    /// Every occupied cell is stamped with a tick that is at most `tick`.
    pub open spec fn born_by(&self, tick: u32) -> bool {
        occupants_born_by(self.cells@, tick)
    }

    /// Gives the cell of `active` at `(row, col)` its turn.
    fn take_turn(
        &mut self,
        active: &World,
        row: usize,
        col: usize,
        tick: u32,
        script: Option<&Vec<(i8, i8)>>,
    ) -> (trials: Ghost<Seq<(i8, i8)>>)
        requires
            old(self).wf(),
            active.wf(),
            active.size == old(self).size,
            active.born_by(tick),
            row < active.size.0,
            col < active.size.1,
            script matches Some(s) ==> valid_script(s@, active.cells.len() as int),
        ensures
            final(self).wf(),
            final(self).size == old(self).size,
            final(self).prey_count == old(self).prey_count,
            final(self).preditor_count == old(self).preditor_count,
            trials@.len() == TRIALS,
            valid_trials(trials@),
            script matches Some(s) ==> trials@ == trials_of(
                s@,
                active.index_of(row as int, col as int),
            ),
            final(self).cells@ == (match active.cells[active.index_of(
                row as int,
                col as int,
            )].cell_type {
                CellType::Empty => old(self).cells@,
                CellType::Prey => prey_step(
                    old(self).cells@,
                    active.size.0 as int,
                    active.size.1 as int,
                    row as int,
                    col as int,
                    active.cells[active.index_of(row as int, col as int)].created_at,
                    tick,
                    trials@,
                ),
                CellType::Preditor => preditor_step(
                    old(self).cells@,
                    active.size.0 as int,
                    active.size.1 as int,
                    row as int,
                    col as int,
                    active.cells[active.index_of(row as int, col as int)].created_at,
                    tick,
                    trials@,
                ),
            }),
    {
        let ghost index = active.index_of(row as int, col as int);
        proof {
            lemma_index_in_range(row as int, col as int, self.size.0 as int, self.size.1 as int);
            if let Some(s) = script {
                assert(valid_trials(trials_of(s@, index))) by {
                    assert forall|j: int| 0 <= j < TRIALS implies valid_offset(
                        #[trigger] trials_of(s@, index)[j],
                    ) by {
                        assert(trials_of(s@, index)[j] == s@[TRIALS * index + j]);
                    }
                }
            }
        }
        let cell = *active.get_cell(row, col);
        let place = row * active.size.1 + col;
        match cell.cell_type {
            CellType::Empty => Ghost(idle_trials(script, index)),
            CellType::Prey => {
                let (target, trials) = self.search(row, col, false, script, place);
                self.resolve_prey(row, col, cell.created_at, tick, target);
                trials
            },
            CellType::Preditor => {
                if tick - cell.created_at > LIFESPAN {
                    Ghost(idle_trials(script, index))
                } else {
                    let (target, trials) = self.search(row, col, true, script, place);
                    self.resolve_preditor(row, col, cell.created_at, tick, target);
                    trials
                }
            },
        }
    }

    /// Gives every cell of `active` its turn, row by row and in each row
    /// column by column.
    pub(crate) fn run_scan(
        &mut self,
        active: &World,
        tick: u32,
        script: Option<&Vec<(i8, i8)>>,
    ) -> (used:
        Ghost<Seq<(i8, i8)>>)
        requires
            old(self).wf(),
            active.wf(),
            active.size == old(self).size,
            active.born_by(tick),
            script matches Some(s) ==> valid_script(s@, active.cells.len() as int),
        ensures
            final(self).wf(),
            final(self).size == old(self).size,
            final(self).prey_count == old(self).prey_count,
            final(self).preditor_count == old(self).preditor_count,
            valid_script(used@, active.cells.len() as int),
            script matches Some(s) ==> used@ == s@,
            final(self).cells@ == next_generation(
                active.cells@,
                old(self).cells@,
                active.size.0 as int,
                active.size.1 as int,
                tick,
                used@,
            ),
    {
        let rows = active.size.0;
        let cols = active.size.1;
        let ghost start = self.cells@;
        let ghost mut used: Seq<(i8, i8)> = Seq::empty();
        let mut row: usize = 0;
        while row < rows
            invariant
                row <= rows,
                rows == active.size.0,
                cols == active.size.1,
                self.wf(),
                active.wf(),
                active.size == self.size,
                active.born_by(tick),
                self.size == old(self).size,
                self.prey_count == old(self).prey_count,
                self.preditor_count == old(self).preditor_count,
                start == old(self).cells@,
                script matches Some(s) ==> valid_script(s@, active.cells.len() as int),
                used.len() == TRIALS * (row * cols),
                valid_trials(used),
                script matches Some(s) ==> used == s@.take(TRIALS * (row * cols)),
                self.cells@ == scan(
                    active.cells@,
                    start,
                    rows as int,
                    cols as int,
                    tick,
                    used,
                    (row * cols) as nat,
                ),
            decreases rows - row,
        {
            let mut col: usize = 0;
            while col < cols
                invariant
                    row < rows,
                    col <= cols,
                    rows == active.size.0,
                    cols == active.size.1,
                    self.wf(),
                    active.wf(),
                    active.size == self.size,
                    active.born_by(tick),
                    self.size == old(self).size,
                    self.prey_count == old(self).prey_count,
                    self.preditor_count == old(self).preditor_count,
                    start == old(self).cells@,
                    script matches Some(s) ==> valid_script(s@, active.cells.len() as int),
                    used.len() == TRIALS * (row * cols + col),
                    valid_trials(used),
                    script matches Some(s) ==> used == s@.take(TRIALS * (row * cols + col)),
                    self.cells@ == scan(
                        active.cells@,
                        start,
                        rows as int,
                        cols as int,
                        tick,
                        used,
                        (row * cols + col) as nat,
                    ),
                decreases cols - col,
            {
                let ghost index = row * cols + col;
                let ghost before = self.cells@;
                let trials = self.take_turn(active, row, col, tick, script);
                proof {
                    lemma_index_in_range(row as int, col as int, rows as int, cols as int);
                    let longer = used + trials@;
                    lemma_scan_reads_prefix(
                        active.cells@,
                        start,
                        rows as int,
                        cols as int,
                        tick,
                        used,
                        longer,
                        index as nat,
                    );
                    assert(trials_of(longer, index) =~= trials@);
                    if let Some(s) = script {
                        assert(longer =~= s@.take(TRIALS * (index + 1)));
                    }
                    assert(self.cells@ == cell_step(
                        active.cells@,
                        before,
                        rows as int,
                        cols as int,
                        tick,
                        longer,
                        index,
                    ));
                    used = longer;
                }
                col += 1;
            }
            proof {
                assert(row * cols + cols == (row + 1) * cols) by (nonlinear_arith);
            }
            row += 1;
        }
        proof {
            assert(self.cells.len() == rows * cols);
            if let Some(s) = script {
                assert(used =~= s@);
            }
        }
        Ghost(used)
    }

    /// Builds the next generation in this grid from `active`, drawing every
    /// trial from the random source.
    ///
    /// The grid may already hold cells; the creatures of `active` see them.
    /// The result is the one that some script gives: which one is left to
    /// chance.
    pub fn evolve(&mut self, active: &World, tick: u32)
        requires
            old(self).wf(),
            active.wf(),
            active.size == old(self).size,
            active.born_by(tick),
        ensures
            final(self).wf(),
            final(self).size == old(self).size,
            final(self).prey_count == old(self).prey_count,
            final(self).preditor_count == old(self).preditor_count,
            exists|script: Seq<(i8, i8)>|
                valid_script(script, active.cells.len() as int) && final(self).cells@
                    == #[trigger] next_generation(
                    active.cells@,
                    old(self).cells@,
                    active.size.0 as int,
                    active.size.1 as int,
                    tick,
                    script,
                ),
    {
        let used = self.run_scan(active, tick, None);
    }

    /// Builds the next generation in this grid from `active`, taking the
    /// trials of each cell from `script`.
    pub fn evolve_scripted(&mut self, active: &World, tick: u32, script: &Vec<(i8, i8)>)
        requires
            old(self).wf(),
            active.wf(),
            active.size == old(self).size,
            active.born_by(tick),
            valid_script(script@, active.cells.len() as int),
        ensures
            final(self).wf(),
            final(self).size == old(self).size,
            final(self).prey_count == old(self).prey_count,
            final(self).preditor_count == old(self).preditor_count,
            final(self).cells@ == next_generation(
                active.cells@,
                old(self).cells@,
                active.size.0 as int,
                active.size.1 as int,
                tick,
                script@,
            ),
    {
        let used = self.run_scan(active, tick, Some(script));
    }
}

} // verus!
