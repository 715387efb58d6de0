use sudoku::board::BoardMode;
use sudoku::board_history::BoardHistory;
use sudoku::cell_state::CellState;

#[test]
fn history_is_a_stack() {
    let mut history = BoardHistory::new();
    assert_eq!(history.len(), 0);
    assert!(history.undo().is_none());
    assert_eq!(history.len(), 0);

    let mut cells = [CellState::new(); 81];
    history.add_undo_point(&cells, BoardMode::Normal, None, None);
    cells[5].set_number(3);
    history.add_undo_point(&cells, BoardMode::Pencil, Some(5), Some(3));
    cells[6].set_pencil(4);
    history.add_undo_point(&cells, BoardMode::Normal, Some(6), Some(4));
    assert_eq!(history.len(), 3);

    let point = history.undo().unwrap();
    assert_eq!(history.len(), 2);
    assert!(point.mode == BoardMode::Normal);
    assert_eq!(point.selected_index, Some(6));
    assert_eq!(point.selected_number, Some(4));
    assert_eq!(point.cell_state[5].number, Some(3));
    assert_eq!(point.cell_state[6].pencil[3], Some(4));

    let point = history.undo().unwrap();
    assert_eq!(history.len(), 1);
    assert!(point.mode == BoardMode::Pencil);
    assert_eq!(point.selected_index, Some(5));
    assert_eq!(point.selected_number, Some(3));
    assert_eq!(point.cell_state[5].number, Some(3));
    assert!(!point.cell_state[6].has_pencil());

    let point = history.undo().unwrap();
    assert_eq!(history.len(), 0);
    assert_eq!(point.selected_index, None);
    assert_eq!(point.selected_number, None);
    assert_eq!(point.cell_state[5].number, None);
    assert!(history.undo().is_none());
}
