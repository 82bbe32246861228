//! Two grids that take turns: one is read while the other is built.

use crate::cell::{
    cleared, count_kind, count_occupied, lemma_count_cleared, stamped_by, Cell, CellType,
};
use crate::rules::{lemma_growth_bound, lemma_scan_bounds, next_generation, valid_script};
use crate::world::{capped, listing, sown, SeedError, World, PREDITORS, PREY};
use vstd::prelude::*;

verus! {

/// The two grids, which of them is the current generation, and the number of
/// generations built so far.
pub struct Simulation {
    pub worlds: [World; 2],
    pub active_world: usize,
    pub ticks: u32,
}

impl Simulation {
    /// The current generation.
    pub open spec fn active(&self) -> World {
        self.worlds[self.active_world as int]
    }

    /// The grid in which the next generation will be built.
    pub open spec fn inactive(&self) -> World {
        self.worlds[1 - self.active_world]
    }

    /// Both grids are well formed and of one shape, one of them is active,
    /// and no cell is stamped with a tick that is still to come.
    pub open spec fn wf(&self) -> bool {
        &&& self.active_world < 2
        &&& self.worlds[0].wf()
        &&& self.worlds[1].wf()
        &&& self.worlds[0].size == self.worlds[1].size
        &&& stamped_by(self.worlds[0].cells@, self.ticks)
        &&& stamped_by(self.worlds[1].cells@, self.ticks)
    }

    /// Whether every stored tick of `world` is at most `self.ticks`.
    fn stamps_are_past(&self, world: &World) -> (ok: bool)
        ensures
            ok == stamped_by(world.cells@, self.ticks),
    {
        let mut i: usize = 0;
        while i < world.cells.len()
            invariant
                i <= world.cells.len(),
                forall|j: int| 0 <= j < i ==> (#[trigger] world.cells[j]).created_at <= self.ticks,
            decreases world.cells.len() - i,
        {
            if world.cells[i].created_at > self.ticks {
                return false;
            }
            i += 1;
        }
        true
    }

    /// Whether the simulation is well formed. Callers that have written to
    /// the fields themselves can ask before they go on.
    pub fn is_well_formed(&self) -> (ok: bool)
        ensures
            ok == self.wf(),
    {
        self.active_world < 2 && self.worlds[0].is_well_formed()
            && self.worlds[1].is_well_formed() && self.worlds[0].size.0 == self.worlds[1].size.0
            && self.worlds[0].size.1 == self.worlds[1].size.1 && self.stamps_are_past(
            &self.worlds[0],
        ) && self.stamps_are_past(&self.worlds[1])
    }

    /// Two empty grids of the given shape; the first is active, and no
    /// generation has been built.
    pub fn new(size: (usize, usize)) -> (simulation: Simulation)
        requires
            size.0 * size.1 <= usize::MAX,
        ensures
            simulation.wf(),
            simulation.active_world == 0,
            simulation.ticks == 0,
            forall|w: int|
                0 <= w < 2 ==> {
                    &&& (#[trigger] simulation.worlds[w]).size == size
                    &&& simulation.worlds[w].prey_count == 0
                    &&& simulation.worlds[w].preditor_count == 0
                    &&& forall|i: int|
                        0 <= i < simulation.worlds[w].cells.len() ==> simulation.worlds[w].cells[i]
                            == (Cell { cell_type: CellType::Empty, created_at: 0 })
                },
    {
        Simulation { worlds: [World::new(size), World::new(size)], active_world: 0, ticks: 0 }
    }

    /// Counts one generation more.
    pub fn tick(&mut self)
        requires
            old(self).ticks < u32::MAX,
        ensures
            final(self).ticks == old(self).ticks + 1,
            final(self).worlds == old(self).worlds,
            final(self).active_world == old(self).active_world,
    {
        self.ticks += 1;
    }

    /// The current generation, to be read, and the other grid, to be written.
    pub fn get_active_inactive(&mut self) -> (pair: (&World, &mut World))
        requires
            old(self).active_world < 2,
        ensures
            *pair.0 == old(self).active(),
            *pair.1 == old(self).inactive(),
            final(self).active() == old(self).active(),
            final(self).inactive() == *final(pair.1),
            final(self).active_world == old(self).active_world,
            final(self).ticks == old(self).ticks,
    {
        if self.active_world == 0 {
            let (first, second) = self.worlds.split_at_mut(1);
            (&first[0], &mut second[0])
        } else {
            let (first, second) = self.worlds.split_at_mut(1);
            (&second[0], &mut first[0])
        }
    }
    /// `after` is what one generation step makes of `self`, where the grid to
    /// be built starts the scan as `start` and the creatures take their
    /// trials from `script`.
    ///
    /// The grid to be built is cleared first, and seeded as well at tick 0.
    /// Then every creature of the current generation has its turn. The grid
    /// that was built becomes the current generation, with its two counts a
    /// census of it, and the tick goes up by one. The generation that was
    /// read stays as it was.
    pub open spec fn steps_to(
        &self,
        after: &Simulation,
        start: Seq<Cell>,
        script: Seq<(i8, i8)>,
    ) -> bool {
        &&& after.wf()
        &&& after.ticks == self.ticks + 1
        &&& after.active_world == 1 - self.active_world
        &&& after.inactive() == self.active()
        &&& after.active().size == self.inactive().size
        &&& valid_script(script, self.active().cells.len() as int)
        &&& if self.ticks == 0 {
            sown(cleared(self.inactive().cells@), start, 0)
        } else {
            start == cleared(self.inactive().cells@)
        }
        &&& after.active().cells@ == next_generation(
            self.active().cells@,
            start,
            self.active().size.0 as int,
            self.active().size.1 as int,
            self.ticks,
            script,
        )
        &&& after.active().prey_count == capped(count_kind(after.active().cells@, CellType::Prey))
        &&& after.active().preditor_count == capped(
            count_kind(after.active().cells@, CellType::Preditor),
        )
    }

    /// `after` is `self` with both grids seeded at the current tick, and
    /// nothing else changed.
    pub open spec fn reseeds_to(&self, after: &Simulation) -> bool {
        forall|w: int|
            0 <= w < 2 ==> {
                &&& sown(self.worlds[w].cells@, (#[trigger] after.worlds[w]).cells@, self.ticks)
                &&& after.worlds[w].size == self.worlds[w].size
                &&& after.worlds[w].prey_count == self.worlds[w].prey_count
                &&& after.worlds[w].preditor_count == self.worlds[w].preditor_count
            }
    }

    /// Seeds both grids, stamping the creatures with the current tick.
    ///
    /// Where either grid has too few empty cells, neither is touched.
    pub fn reset_simulation(&mut self) -> (seeded: Result<(), SeedError>)
        requires
            old(self).wf(),
        ensures
            seeded.is_ok() <==> count_kind(old(self).worlds[0].cells@, CellType::Empty) >= PREDITORS
                + PREY && count_kind(old(self).worlds[1].cells@, CellType::Empty) >= PREDITORS
                + PREY,
            seeded.is_ok() ==> final(self).wf() && old(self).reseeds_to(final(self)),
            seeded.is_err() ==> *final(self) == *old(self),
            final(self).active_world == old(self).active_world,
            final(self).ticks == old(self).ticks,
    {
        if self.worlds[0].count(CellType::Empty) < PREDITORS + PREY || self.worlds[1].count(
            CellType::Empty,
        ) < PREDITORS + PREY {
            return Err(SeedError::InsufficientCapacity);
        }
        let ticks = self.ticks;
        let first = self.worlds[0].seed_preditor_prey(ticks);
        let second = self.worlds[1].seed_preditor_prey(ticks);
        Ok(())
    }

    /// One generation step, with the trials drawn where `script` is `None`.
    fn step(&mut self, script: Option<&Vec<(i8, i8)>>) -> (stepped: (
        Result<(), SeedError>,
        Ghost<Seq<Cell>>,
        Ghost<Seq<(i8, i8)>>,
    ))
        requires
            old(self).wf(),
            old(self).ticks < u32::MAX,
            script matches Some(s) ==> valid_script(s@, old(self).active().cells.len() as int),
        ensures
            stepped.0.is_err() <==> old(self).ticks == 0 && old(self).inactive().cells.len()
                < PREDITORS + PREY,
            stepped.0.is_err() ==> *final(self) == *old(self),
            stepped.0.is_ok() ==> old(self).steps_to(final(self), stepped.1@, stepped.2@),
            stepped.0.is_ok() ==> (script matches Some(s) ==> stepped.2@ == s@),
    {
        let ticks = self.ticks;
        if ticks == 0 && self.worlds[1 - self.active_world].cells.len() < PREDITORS + PREY {
            return (Err(SeedError::InsufficientCapacity), Ghost(Seq::empty()), Ghost(Seq::empty()));
        }
        let (active, inactive) = self.get_active_inactive();
        let ghost before = inactive.cells@;
        inactive.clear_cell_types();
        proof {
            lemma_count_cleared(before, CellType::Empty);
        }
        if ticks == 0 {
            let seeded = inactive.seed_preditor_prey(ticks);
        }
        let ghost start = inactive.cells@;
        let used = inactive.run_scan(active, ticks, script);
        proof {
            lemma_scan_bounds(
                active.cells@,
                start,
                active.size.0 as int,
                active.size.1 as int,
                ticks,
                used@,
                active.cells@.len(),
            );
        }
        inactive.take_census();
        self.active_world = 1 - self.active_world;
        self.tick();
        (Ok(()), Ghost(start), used)
    }

    /// Builds the next generation and makes it the current one.
    ///
    /// At tick 0 the grid to be built is seeded before the scan; a grid too
    /// small for that is refused, and nothing changes. The trials are drawn
    /// from the random source, so the result is the one that some seeding and
    /// some script give.
    pub fn update(&mut self) -> (stepped: Result<(), SeedError>)
        requires
            old(self).wf(),
            old(self).ticks < u32::MAX,
        ensures
            stepped.is_err() <==> old(self).ticks == 0 && old(self).inactive().cells.len()
                < PREDITORS + PREY,
            stepped.is_err() ==> *final(self) == *old(self),
            stepped.is_ok() ==> exists|start: Seq<Cell>, script: Seq<(i8, i8)>| #[trigger]
                old(self).steps_to(final(self), start, script),
    {
        let (stepped, start, used) = self.step(None);
        stepped
    }

    /// Builds the next generation from the trials of `script`, nine for each
    /// cell, and makes it the current one.
    ///
    /// At tick 0 the grid to be built is seeded at random before the scan; at
    /// every other tick the result is fixed by the script.
    pub fn update_scripted(&mut self, script: &Vec<(i8, i8)>) -> (stepped: Result<(), SeedError>)
        requires
            old(self).wf(),
            old(self).ticks < u32::MAX,
            valid_script(script@, old(self).active().cells.len() as int),
        ensures
            stepped.is_err() <==> old(self).ticks == 0 && old(self).inactive().cells.len()
                < PREDITORS + PREY,
            stepped.is_err() ==> *final(self) == *old(self),
            stepped.is_ok() ==> exists|start: Seq<Cell>| #[trigger]
                old(self).steps_to(final(self), start, script@),
            stepped.is_ok() && old(self).ticks != 0 ==> old(self).steps_to(
                final(self),
                cleared(old(self).inactive().cells@),
                script@,
            ),
    {
        let (stepped, start, used) = self.step(Some(script));
        stepped
    }
    /// Lists the occupied cells of the current generation in the order of
    /// their indices: each with its row and column and with its occupant.
    pub fn active_cells(&self) -> (list: Vec<((usize, usize), CellType)>)
        requires
            self.wf(),
        ensures
            list@ == listing(self.active().cells@, self.active().size.1 as int),
    {
        self.worlds[self.active_world].occupied_cells()
    }
}

/// One step cannot leave more occupied cells than two for each prey and one
/// for each hunter of the generation before. The step at tick 0 is the one
/// exception: there the new grid is seeded before the scan, and the seeded
/// population comes on top.
pub proof fn lemma_step_growth(
    before: Simulation,
    after: Simulation,
    start: Seq<Cell>,
    script: Seq<(i8, i8)>,
)
    requires
        before.wf(),
        before.steps_to(&after, start, script),
    ensures
        count_occupied(after.active().cells@) <= 2 * count_kind(
            before.active().cells@,
            CellType::Prey,
        ) + count_kind(before.active().cells@, CellType::Preditor) + if before.ticks == 0 {
            PREDITORS + PREY
        } else {
            0
        },
{
    let emptied = cleared(before.inactive().cells@);
    lemma_count_cleared(before.inactive().cells@, CellType::Preditor);
    lemma_count_cleared(before.inactive().cells@, CellType::Prey);
    lemma_growth_bound(
        before.active().cells@,
        start,
        before.active().size.0 as int,
        before.active().size.1 as int,
        before.ticks,
        script,
    );
}

} // verus!
