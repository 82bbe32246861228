use desktop_automata::cell::{Cell, CellType};
use desktop_automata::world::{SeedError, World, PREDITORS, PREY};

#[test]
fn seeding_places_the_whole_population() {
    let mut world = World::new((30, 30));
    assert_eq!(world.seed_preditor_prey(17), Ok(()));
    assert_eq!(world.count(CellType::Preditor), 100);
    assert_eq!(world.count(CellType::Prey), 300);
    assert_eq!(world.count(CellType::Empty), 500);
    for cell in &world.cells {
        if cell.cell_type == CellType::Empty {
            assert_eq!(cell.created_at, 0);
        } else {
            assert_eq!(cell.created_at, 17);
        }
    }
    assert_eq!(world.prey_count, 0);
    assert_eq!(world.preditor_count, 0);
    assert_eq!(world.size, (30, 30));
}

#[test]
fn population_constants() {
    assert_eq!(PREDITORS, 100);
    assert_eq!(PREY, 300);
}

#[test]
fn seeding_uses_empty_cells_only() {
    let mut world = World::new((30, 30));
    world.cells[0] = Cell { cell_type: CellType::Prey, created_at: 3 };
    world.cells[899] = Cell { cell_type: CellType::Preditor, created_at: 4 };
    let before = world.cells.clone();
    assert_eq!(world.seed_preditor_prey(9), Ok(()));
    assert_eq!(world.cells[0], before[0]);
    assert_eq!(world.cells[899], before[899]);
    assert_eq!(world.count(CellType::Preditor), 101);
    assert_eq!(world.count(CellType::Prey), 301);
    for (old, new) in before.iter().zip(world.cells.iter()) {
        if old != new {
            assert_eq!(old.cell_type, CellType::Empty);
            assert_ne!(new.cell_type, CellType::Empty);
            assert_eq!(new.created_at, 9);
        }
    }
}

#[test]
fn seeding_twice_adds_a_second_population() {
    let mut world = World::new((30, 30));
    assert_eq!(world.seed_preditor_prey(1), Ok(()));
    assert_eq!(world.seed_preditor_prey(2), Ok(()));
    assert_eq!(world.count(CellType::Preditor), 200);
    assert_eq!(world.count(CellType::Prey), 600);
    let stamped_two = world.cells.iter().filter(|c| c.created_at == 2).count();
    assert_eq!(stamped_two, 400);
}

#[test]
fn seeding_fills_a_grid_of_exactly_the_population() {
    let mut world = World::new((20, 20));
    assert_eq!(world.seed_preditor_prey(5), Ok(()));
    assert_eq!(world.count(CellType::Empty), 0);
    assert_eq!(world.count(CellType::Preditor), 100);
    assert_eq!(world.count(CellType::Prey), 300);
}

#[test]
fn seeding_refuses_a_grid_that_is_too_small() {
    let mut world = World::new((19, 21));
    assert_eq!(world.cells.len(), 399);
    assert_eq!(world.seed_preditor_prey(5), Err(SeedError::InsufficientCapacity));
    assert_eq!(world.count(CellType::Empty), 399);
}

#[test]
fn seeding_refuses_a_grid_with_too_few_empty_cells() {
    let mut world = World::new((30, 30));
    assert_eq!(world.seed_preditor_prey(1), Ok(()));
    assert_eq!(world.seed_preditor_prey(2), Ok(()));
    let before = world.cells.clone();
    assert_eq!(world.seed_preditor_prey(3), Err(SeedError::InsufficientCapacity));
    assert_eq!(world.cells, before);
}

#[test]
fn seeding_refuses_a_grid_without_cells() {
    let mut world = World::new((0, 0));
    assert_eq!(world.seed_preditor_prey(0), Err(SeedError::InsufficientCapacity));
}

#[test]
fn seed_error_in_words() {
    assert_eq!(
        SeedError::InsufficientCapacity.message(),
        "insufficient capacity for requested population"
    );
}

#[test]
fn seeding_changes_exactly_the_population() {
    let mut world = World::new((25, 40));
    for index in 0..200 {
        world.cells[index * 5] = Cell { cell_type: CellType::Prey, created_at: 1 };
    }
    let before = world.cells.clone();
    assert_eq!(world.seed_preditor_prey(8), Ok(()));
    let mut hunters = 0;
    let mut prey = 0;
    for (old, new) in before.iter().zip(world.cells.iter()) {
        if old != new {
            assert_eq!(old.cell_type, CellType::Empty);
            assert_eq!(new.created_at, 8);
            match new.cell_type {
                CellType::Preditor => hunters += 1,
                CellType::Prey => prey += 1,
                CellType::Empty => panic!("an empty cell was stamped"),
            }
        }
    }
    assert_eq!((hunters, prey), (100, 300));
    assert_eq!(world.count(CellType::Empty), 400);
}
