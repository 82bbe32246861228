use desktop_automata::cell::{Cell, CellType};
use desktop_automata::simulation::Simulation;
use desktop_automata::world::SeedError;

fn occupied(sim: &Simulation, world: usize) -> usize {
    sim.worlds[world].count(CellType::Prey) + sim.worlds[world].count(CellType::Preditor)
}

#[test]
fn new_simulation_is_empty() {
    let sim = Simulation::new((4, 5));
    assert_eq!(sim.active_world, 0);
    assert_eq!(sim.ticks, 0);
    for world in &sim.worlds {
        assert_eq!(world.size, (4, 5));
        assert_eq!(world.cells.len(), 20);
        assert_eq!(world.count(CellType::Empty), 20);
        assert_eq!(world.prey_count, 0);
        assert_eq!(world.preditor_count, 0);
    }
    assert_eq!(sim.active_cells(), vec![]);
}

#[test]
fn tick_counts_one_generation() {
    let mut sim = Simulation::new((2, 2));
    sim.tick();
    assert_eq!(sim.ticks, 1);
    sim.tick();
    sim.tick();
    assert_eq!(sim.ticks, 3);
    assert_eq!(sim.active_world, 0);
}

#[test]
fn active_and_inactive_follow_the_selector() {
    let mut sim = Simulation::new((1, 2));
    sim.worlds[0].prey_count = 5;
    sim.worlds[1].prey_count = 6;
    {
        let (active, inactive) = sim.get_active_inactive();
        assert_eq!(active.prey_count, 5);
        assert_eq!(inactive.prey_count, 6);
        inactive.prey_count = 7;
    }
    assert_eq!(sim.worlds[1].prey_count, 7);
    sim.active_world = 1;
    let (active, inactive) = sim.get_active_inactive();
    assert_eq!(active.prey_count, 7);
    assert_eq!(inactive.prey_count, 5);
}

#[test]
fn reset_seeds_both_grids() {
    let mut sim = Simulation::new((30, 30));
    sim.tick();
    sim.tick();
    assert_eq!(sim.reset_simulation(), Ok(()));
    assert_eq!(sim.ticks, 2);
    assert_eq!(sim.active_world, 0);
    for world in &sim.worlds {
        assert_eq!(world.count(CellType::Preditor), 100);
        assert_eq!(world.count(CellType::Prey), 300);
        for cell in &world.cells {
            if cell.cell_type != CellType::Empty {
                assert_eq!(cell.created_at, 2);
            }
        }
    }
}

#[test]
fn reset_refuses_a_small_grid() {
    let mut sim = Simulation::new((10, 10));
    assert_eq!(sim.reset_simulation(), Err(SeedError::InsufficientCapacity));
    assert_eq!(occupied(&sim, 0), 0);
    assert_eq!(occupied(&sim, 1), 0);
}

#[test]
fn reset_touches_neither_grid_when_one_is_full() {
    let mut sim = Simulation::new((20, 25));
    assert_eq!(sim.worlds[1].seed_preditor_prey(0), Ok(()));
    let second = sim.worlds[1].cells.clone();
    assert_eq!(sim.reset_simulation(), Err(SeedError::InsufficientCapacity));
    assert_eq!(occupied(&sim, 0), 0);
    assert_eq!(sim.worlds[1].cells, second);
}

#[test]
fn first_update_seeds_the_new_generation() {
    let mut sim = Simulation::new((30, 30));
    assert_eq!(sim.update(), Ok(()));
    assert_eq!(sim.ticks, 1);
    assert_eq!(sim.active_world, 1);
    assert_eq!(sim.worlds[1].count(CellType::Preditor), 100);
    assert_eq!(sim.worlds[1].count(CellType::Prey), 300);
    assert_eq!(sim.worlds[1].preditor_count, 100);
    assert_eq!(sim.worlds[1].prey_count, 300);
    assert_eq!(occupied(&sim, 0), 0);
    assert_eq!(sim.active_cells().len(), 400);
}

#[test]
fn first_update_refuses_a_small_grid() {
    let mut sim = Simulation::new((19, 21));
    assert_eq!(sim.update(), Err(SeedError::InsufficientCapacity));
    assert_eq!(sim.ticks, 0);
    assert_eq!(sim.active_world, 0);
    assert_eq!(occupied(&sim, 0), 0);
    assert_eq!(occupied(&sim, 1), 0);
}

#[test]
fn later_updates_need_no_capacity() {
    let mut sim = Simulation::new((2, 2));
    sim.tick();
    sim.worlds[0].cells[0] = Cell { cell_type: CellType::Prey, created_at: 0 };
    assert_eq!(sim.update(), Ok(()));
    assert_eq!(sim.ticks, 2);
    assert_eq!(sim.active_world, 1);
    assert_eq!(sim.worlds[1].count(CellType::Prey), 1);
    assert_eq!(sim.worlds[1].prey_count, 1);
    assert_eq!(sim.worlds[1].preditor_count, 0);
    assert_eq!(sim.worlds[0].cells[0], Cell { cell_type: CellType::Prey, created_at: 0 });
}

#[test]
fn update_swaps_back_and_forth() {
    let mut sim = Simulation::new((30, 30));
    for step in 0..6u32 {
        assert_eq!(sim.ticks, step);
        assert_eq!(sim.active_world, (step % 2) as usize);
        assert_eq!(sim.update(), Ok(()));
    }
    assert_eq!(sim.ticks, 6);
    for world in &sim.worlds {
        for cell in &world.cells {
            assert!(cell.created_at <= 6);
        }
    }
}

#[test]
fn update_leaves_the_generation_it_read() {
    let mut sim = Simulation::new((30, 30));
    assert_eq!(sim.update(), Ok(()));
    let read = sim.worlds[1].cells.clone();
    assert_eq!(sim.update(), Ok(()));
    assert_eq!(sim.active_world, 0);
    assert_eq!(sim.worlds[1].cells, read);
}

#[test]
fn step_after_reset_at_tick_zero_adds_the_seeded_population() {
    let mut sim = Simulation::new((30, 30));
    assert_eq!(sim.reset_simulation(), Ok(()));
    let prey = sim.worlds[0].count(CellType::Prey);
    let hunters = sim.worlds[0].count(CellType::Preditor);
    assert_eq!((prey, hunters), (300, 100));
    assert_eq!(sim.update(), Ok(()));
    let after = occupied(&sim, 1);
    assert!(after >= 400);
    assert!(after <= 2 * prey + hunters + 400);
    assert!(after <= 900);
}

#[test]
fn step_after_reset_keeps_within_the_growth_bound() {
    let mut sim = Simulation::new((30, 30));
    assert_eq!(sim.reset_simulation(), Ok(()));
    sim.tick();
    let prey = sim.worlds[0].count(CellType::Prey);
    let hunters = sim.worlds[0].count(CellType::Preditor);
    assert_eq!(sim.update(), Ok(()));
    let after = occupied(&sim, 1);
    assert!(after <= 2 * prey + hunters);
    assert_eq!(sim.worlds[1].prey_count as usize, sim.worlds[1].count(CellType::Prey));
    assert_eq!(sim.worlds[1].preditor_count as usize, sim.worlds[1].count(CellType::Preditor));
}

#[test]
fn scripted_update_is_repeatable() {
    let mut first = Simulation::new((3, 3));
    first.tick();
    first.worlds[0].cells[0] = Cell { cell_type: CellType::Prey, created_at: 1 };
    first.worlds[0].cells[4] = Cell { cell_type: CellType::Preditor, created_at: 0 };
    first.worlds[1].cells[8] = Cell { cell_type: CellType::Prey, created_at: 1 };
    let mut script = vec![(0i8, 0i8); 81];
    script[0] = (1, 1);
    script[9 * 4] = (-1, -1);
    script[9 * 4 + 1] = (0, 1);
    assert_eq!(first.update_scripted(&script), Ok(()));
    assert_eq!(first.ticks, 2);
    assert_eq!(first.active_world, 1);
    // The prey breeds at age 0: a child on the hunter's cell, itself at home.
    // The hunter then claims the prey's home and stays where the child was.
    let cells = &first.worlds[1].cells;
    assert_eq!(cells[0], Cell { cell_type: CellType::Preditor, created_at: 1 });
    assert_eq!(cells[4], Cell { cell_type: CellType::Preditor, created_at: 0 });
    assert_eq!(cells[8].cell_type, CellType::Empty);
    assert_eq!(first.worlds[1].preditor_count, 2);
    assert_eq!(first.worlds[1].prey_count, 0);
    assert_eq!(
        first.active_cells(),
        vec![((0, 0), CellType::Preditor), ((1, 1), CellType::Preditor)]
    );
}

#[test]
fn scripted_first_update_refuses_a_small_grid() {
    let mut sim = Simulation::new((1, 3));
    let script = vec![(0i8, 0i8); 27];
    assert_eq!(sim.update_scripted(&script), Err(SeedError::InsufficientCapacity));
    assert_eq!(sim.ticks, 0);
}

#[test]
fn active_cells_follow_the_active_grid() {
    let mut sim = Simulation::new((2, 2));
    sim.worlds[0].cells[1] = Cell { cell_type: CellType::Prey, created_at: 0 };
    sim.worlds[1].cells[2] = Cell { cell_type: CellType::Preditor, created_at: 0 };
    assert_eq!(sim.active_cells(), vec![((0, 1), CellType::Prey)]);
    sim.active_world = 1;
    assert_eq!(sim.active_cells(), vec![((1, 0), CellType::Preditor)]);
}

#[test]
fn well_formedness_is_checked_field_by_field() {
    let mut sim = Simulation::new((2, 3));
    assert!(sim.is_well_formed());
    sim.worlds[0].cells[1].created_at = 1;
    assert!(!sim.is_well_formed());
    sim.tick();
    assert!(sim.is_well_formed());
    sim.active_world = 2;
    assert!(!sim.is_well_formed());
    sim.active_world = 1;
    assert!(sim.is_well_formed());
    sim.worlds[1].size = (3, 2);
    assert!(!sim.is_well_formed());
    sim.worlds[1].size = (2, 3);
    sim.worlds[1].cells.pop();
    assert!(!sim.is_well_formed());
}
