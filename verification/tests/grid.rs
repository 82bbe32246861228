use desktop_automata::cell::{Cell, CellType};
use desktop_automata::world::World;

fn prey(tick: u32) -> Cell {
    Cell { cell_type: CellType::Prey, created_at: tick }
}

fn hunter(tick: u32) -> Cell {
    Cell { cell_type: CellType::Preditor, created_at: tick }
}

#[test]
fn new_world_is_empty() {
    let world = World::new((3, 4));
    assert_eq!(world.size, (3, 4));
    assert_eq!(world.cells.len(), 12);
    assert_eq!(world.prey_count, 0);
    assert_eq!(world.preditor_count, 0);
    for cell in &world.cells {
        assert_eq!(*cell, Cell { cell_type: CellType::Empty, created_at: 0 });
    }
}

#[test]
fn new_world_without_rows_has_no_cells() {
    let world = World::new((0, 7));
    assert_eq!(world.cells.len(), 0);
    assert_eq!(world.count(CellType::Empty), 0);
}

#[test]
fn cells_are_stored_row_by_row() {
    let mut world = World::new((3, 4));
    *world.get_mut_cell(1, 3) = prey(5);
    assert_eq!(world.cells[7], prey(5));
    assert_eq!(*world.get_cell(1, 3), prey(5));
    assert_eq!(world.get_cell(0, 0).cell_type, CellType::Empty);
    assert_eq!(world.get_cell_x_y(7), (1, 3));
}

#[test]
fn get_mut_cell_changes_one_cell_only() {
    let mut world = World::new((2, 2));
    world.get_mut_cell(1, 0).cell_type = CellType::Preditor;
    world.get_mut_cell(1, 0).created_at = 9;
    assert_eq!(world.cells[2], hunter(9));
    assert_eq!(world.cells[0].cell_type, CellType::Empty);
    assert_eq!(world.cells[1].cell_type, CellType::Empty);
    assert_eq!(world.cells[3].cell_type, CellType::Empty);
}

#[test]
fn coordinates_and_index_are_inverse() {
    let world = World::new((5, 7));
    for index in 0..35 {
        let (row, col) = world.get_cell_x_y(index);
        assert!(row < 5 && col < 7);
        assert_eq!(row * 7 + col, index);
        assert_eq!((row, col), (index / 7, index % 7));
    }
    assert_eq!(world.get_cell_x_y(0), (0, 0));
    assert_eq!(world.get_cell_x_y(34), (4, 6));
    assert_eq!(world.get_cell_x_y(13), (1, 6));
    assert_eq!(world.get_cell_x_y(14), (2, 0));
}

#[test]
fn clear_empties_cells_and_keeps_ticks_and_counts() {
    let mut world = World::new((2, 3));
    world.cells[0] = prey(4);
    world.cells[5] = hunter(6);
    world.prey_count = 11;
    world.preditor_count = 12;
    world.clear_cell_types();
    assert_eq!(world.cells[0], Cell { cell_type: CellType::Empty, created_at: 4 });
    assert_eq!(world.cells[5], Cell { cell_type: CellType::Empty, created_at: 6 });
    assert_eq!(world.cells[1], Cell { cell_type: CellType::Empty, created_at: 0 });
    assert_eq!(world.count(CellType::Empty), 6);
    assert_eq!(world.prey_count, 11);
    assert_eq!(world.preditor_count, 12);
    assert_eq!(world.size, (2, 3));
}

#[test]
fn count_tells_the_kinds_apart() {
    let mut world = World::new((2, 3));
    world.cells[0] = prey(0);
    world.cells[2] = prey(0);
    world.cells[3] = hunter(0);
    assert_eq!(world.count(CellType::Prey), 2);
    assert_eq!(world.count(CellType::Preditor), 1);
    assert_eq!(world.count(CellType::Empty), 3);
}

#[test]
fn census_is_stored_in_the_counts() {
    let mut world = World::new((2, 3));
    world.cells[0] = prey(0);
    world.cells[2] = prey(0);
    world.cells[3] = hunter(0);
    world.take_census();
    assert_eq!(world.prey_count, 2);
    assert_eq!(world.preditor_count, 1);
    assert_eq!(world.cells[0], prey(0));
}

#[test]
fn occupied_cells_are_listed_in_index_order() {
    let mut world = World::new((2, 3));
    world.cells[5] = hunter(1);
    world.cells[1] = prey(2);
    let list = world.occupied_cells();
    assert_eq!(list, vec![((0, 1), CellType::Prey), ((1, 2), CellType::Preditor)]);
    assert_eq!(World::new((4, 4)).occupied_cells(), vec![]);
}

#[test]
fn nth_empty_skips_occupied_cells() {
    let mut world = World::new((1, 6));
    world.cells[0] = prey(0);
    world.cells[2] = hunter(0);
    world.cells[3] = prey(0);
    assert_eq!(world.nth_empty(0), 1);
    assert_eq!(world.nth_empty(1), 4);
    assert_eq!(world.nth_empty(2), 5);
}

#[test]
fn place_takes_an_empty_cell_only() {
    let mut world = World::new((1, 3));
    assert!(world.place(1, CellType::Prey, 7));
    assert_eq!(world.cells[1], prey(7));
    assert!(!world.place(1, CellType::Preditor, 8));
    assert_eq!(world.cells[1], prey(7));
    assert!(world.place(2, CellType::Preditor, 8));
    assert_eq!(world.cells[2], hunter(8));
    assert_eq!(world.cells[0].cell_type, CellType::Empty);
}

#[test]
fn a_grid_is_well_formed_when_its_cells_match_its_shape() {
    let mut world = World::new((3, 4));
    assert!(world.is_well_formed());
    world.cells.pop();
    assert!(!world.is_well_formed());
    world.size = (1, 11);
    assert!(world.is_well_formed());
    world.size = (usize::MAX, 2);
    assert!(!world.is_well_formed());
}
