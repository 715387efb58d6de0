use sudoku::cell_state::{CellSelection, CellState};

fn init_assert(cell: &CellState) {
    assert_eq!(cell.number, None);
    assert!(cell.selection == CellSelection::Unselected);
}

#[test]
fn cell_state_cell_default() {
    let cell = CellState::default();
    init_assert(&cell);
}

#[test]
fn cell_state_cell_init() {
    let cell = CellState::new();
    init_assert(&cell);
}

#[test]
fn cell_state_cell_clear() {
    let mut cell = CellState::new();
    init_assert(&cell);

    cell.clear_selection();
    assert!(cell.selection == CellSelection::Unselected);
}

#[test]
fn number_test() {
    let mut cell = CellState::new();
    assert!(!cell.has_number());
    assert!(!cell.is_number(1));

    cell.set_number(1);
    assert!(cell.has_number());
    assert!(cell.is_number(1));
    assert!(!cell.is_number(2));

    cell.set_number(2);
    assert!(cell.has_number());
    assert!(cell.is_number(2));
    assert!(!cell.is_number(1));

    cell.set_number(12);
    assert!(cell.has_number());
    assert!(cell.is_number(2));
    assert!(!cell.is_number(1));

    cell.clear_number();
    assert!(!cell.has_number());
    assert!(!cell.is_number(1));

    cell.set_initial_number(1);
    assert!(cell.has_number());
    assert!(cell.is_number(1));
    assert!(!cell.is_number(2));

    cell.set_initial_number(2);
    assert!(cell.has_number());
    assert!(cell.is_number(1));
    assert!(!cell.is_number(2));

    cell.clear_number();
    assert!(cell.has_number());
    assert!(cell.is_number(1));
    assert!(!cell.is_number(2));
}

#[test]
fn cell_state_pencil_test() {
    let mut cell = CellState::new();
    assert!(!cell.has_pencil());

    cell.clear_pencil();
    assert!(!cell.has_pencil());

    cell.remove_pencil(1);
    assert!(!cell.has_pencil());

    cell.set_pencil(1);
    assert!(cell.has_pencil());
    assert_eq!(cell.pencil[0], Some(1));

    cell.remove_pencil(1);
    assert!(!cell.has_pencil());

    cell.set_pencil(1);
    assert!(cell.has_pencil());
    assert!(cell.has_this_pencil(1));
    assert!(!cell.has_this_pencil(2));

    cell.clear_pencil();
    assert!(!cell.has_pencil());
    assert!(!cell.has_this_pencil(1));
    assert!(!cell.has_this_pencil(2));

    cell.set_number(1);
    assert!(cell.has_number());
    assert!(!cell.has_pencil());

    cell.set_pencil(1);
    assert!(!cell.has_number());
    assert!(cell.has_pencil());

    cell.clear_pencil();

    for i in 0..9 {
        assert!(!cell.has_pencil());

        cell.set_pencil(i + 1);
        assert!(cell.has_pencil());
        assert_eq!(cell.pencil[i as usize], Some(i + 1));

        cell.remove_pencil(i + 1);
        assert_eq!(cell.pencil[i as usize], None);
    }

    cell.clear_pencil();
    assert!(!cell.has_pencil());
    assert!(!cell.has_number());

    cell.set_initial_number(1);
    assert!(cell.has_number());
    assert!(!cell.has_pencil());
    assert!(cell.is_number(1));

    cell.set_pencil(2);
    assert!(cell.has_number());
    assert!(!cell.has_pencil());
    assert!(cell.is_number(1));

    cell.remove_pencil(2);
    assert!(cell.has_number());
    assert!(!cell.has_pencil());
    assert!(cell.is_number(1));
}

#[test]
fn initial_number_is_told_apart() {
    let mut cell = CellState::new();
    assert!(!cell.has_initial_number());
    cell.set_number(4);
    assert!(!cell.has_initial_number());
    cell.clear_number();
    cell.set_initial_number(4);
    assert!(cell.has_initial_number());
    assert!(cell.initial);
    cell.set_number(5);
    assert!(cell.is_number(4));
}

#[test]
fn illegal_digits_change_nothing() {
    let mut cell = CellState::new();
    cell.set_number(0);
    assert_eq!(cell.number, None);
    cell.set_number(10);
    assert_eq!(cell.number, None);
    cell.set_pencil(0);
    cell.set_pencil(10);
    assert!(!cell.has_pencil());
    cell.set_initial_number(0);
    assert!(!cell.initial);
    cell.set_pencil(3);
    cell.remove_pencil(11);
    assert_eq!(cell.pencil[2], Some(3));
}

#[test]
fn well_formed_cells_are_told_from_others() {
    let mut cell = CellState::new();
    assert!(cell.is_well_formed());
    cell.set_pencil(3);
    cell.set_pencil(9);
    assert!(cell.is_well_formed());
    cell.set_number(7);
    assert!(cell.is_well_formed());
    cell.pencil[0] = Some(1);
    assert!(!cell.is_well_formed());
    cell.pencil[0] = None;
    cell.number = Some(10);
    assert!(!cell.is_well_formed());
    cell.number = None;
    cell.pencil[4] = Some(4);
    assert!(!cell.is_well_formed());
    cell.pencil[4] = Some(5);
    assert!(cell.is_well_formed());
    cell.initial = true;
    assert!(!cell.is_well_formed());
    let mut given = CellState::new();
    given.set_initial_number(2);
    assert!(given.is_well_formed());
}
