use sudoku::board::{Board, BoardMode};
use sudoku::input::{handle_input, InputEvent, InputOutcome};
use sudoku::menu::{is_menu_action_number, menu_action_from_u8, menu_action_number, MenuActions};
use sudoku::puzzle::{board_from_grid, generate_new_board};

#[test]
fn menu_actions_are_numbered() {
    assert_eq!(menu_action_from_u8(1), Some(MenuActions::One));
    assert_eq!(menu_action_from_u8(5), Some(MenuActions::Five));
    assert_eq!(menu_action_from_u8(9), Some(MenuActions::Nine));
    assert_eq!(menu_action_from_u8(0), None);
    assert_eq!(menu_action_from_u8(10), None);
    assert_eq!(menu_action_from_u8(13), None);
    assert_eq!(menu_action_number(MenuActions::One), 1);
    assert_eq!(menu_action_number(MenuActions::Nine), 9);
    assert_eq!(menu_action_number(MenuActions::Pencil), 10);
    assert_eq!(menu_action_number(MenuActions::Undo), 11);
    assert_eq!(menu_action_number(MenuActions::New), 12);
    assert_eq!(menu_action_number(MenuActions::Delete), 13);
    for value in 1..=9 {
        let action = menu_action_from_u8(value).unwrap();
        assert_eq!(menu_action_number(action), value);
        assert!(is_menu_action_number(action));
    }
    assert!(!is_menu_action_number(MenuActions::Pencil));
    assert!(!is_menu_action_number(MenuActions::Undo));
    assert!(!is_menu_action_number(MenuActions::New));
    assert!(!is_menu_action_number(MenuActions::Delete));
}

#[test]
fn menu_digit_arms_the_digit() {
    let mut board = Board::new();
    board.toggle_delete_mode();
    let outcome = handle_input(&mut board, InputEvent::MenuClick(MenuActions::Four));
    assert!(outcome == InputOutcome::Save);
    assert_eq!(board.selected_number, Some(4));
    assert!(!board.delete_mode);
    let outcome = handle_input(&mut board, InputEvent::DigitKey(6));
    assert!(outcome == InputOutcome::Save);
    assert_eq!(board.selected_number, Some(6));
    let outcome = handle_input(&mut board, InputEvent::DigitKey(0));
    assert!(outcome == InputOutcome::Ignored);
    assert_eq!(board.selected_number, Some(6));
}

#[test]
fn a_digit_that_is_done_is_not_armed() {
    let mut grid = [[0u8; 9]; 9];
    let solved: [[u8; 9]; 9] = [
        [5, 3, 4, 6, 7, 8, 9, 1, 2],
        [6, 7, 2, 1, 9, 5, 3, 4, 8],
        [1, 9, 8, 3, 4, 2, 5, 6, 7],
        [8, 5, 9, 7, 6, 1, 4, 2, 3],
        [4, 2, 6, 8, 5, 3, 7, 9, 1],
        [7, 1, 3, 9, 2, 4, 8, 5, 6],
        [9, 6, 1, 5, 3, 7, 2, 8, 4],
        [2, 8, 7, 4, 1, 9, 6, 3, 5],
        [3, 4, 5, 2, 8, 6, 1, 7, 9],
    ];
    for r in 0..9 {
        for c in 0..9 {
            if solved[r][c] == 1 || r < 8 {
                grid[r][c] = solved[r][c];
            }
        }
    }
    let mut board = board_from_grid(&grid);
    board.toggle_delete_mode();
    let outcome = handle_input(&mut board, InputEvent::MenuClick(MenuActions::One));
    assert!(outcome == InputOutcome::Ignored);
    assert_eq!(board.selected_number, None);
    assert!(board.delete_mode);
    let outcome = handle_input(&mut board, InputEvent::DigitKey(3));
    assert!(outcome == InputOutcome::Save);
    assert_eq!(board.selected_number, Some(3));
    let outcome = handle_input(&mut board, InputEvent::BoardClick(Some(72)));
    assert!(outcome == InputOutcome::Save);
    assert_eq!(board.cell_state[72].number, Some(3));
    for (digit, index) in [(4, 73), (5, 74), (2, 75), (8, 76), (6, 77), (7, 79)] {
        assert!(handle_input(&mut board, InputEvent::DigitKey(digit)) == InputOutcome::Save);
        assert!(handle_input(&mut board, InputEvent::BoardClick(Some(index))) == InputOutcome::Save);
    }
    assert!(handle_input(&mut board, InputEvent::DigitKey(9)) == InputOutcome::Save);
    let outcome = handle_input(&mut board, InputEvent::BoardClick(Some(80)));
    assert!(outcome == InputOutcome::SaveAndShowVictory);
    assert!(board.is_victory());
}

#[test]
fn menu_commands() {
    let mut board = Board::new();
    assert!(handle_input(&mut board, InputEvent::MenuClick(MenuActions::Delete)) == InputOutcome::Save);
    assert!(board.delete_mode);
    assert!(handle_input(&mut board, InputEvent::MenuClick(MenuActions::Pencil)) == InputOutcome::Save);
    assert!(!board.delete_mode);
    assert!(board.mode == BoardMode::Pencil);
    assert!(handle_input(&mut board, InputEvent::MenuClick(MenuActions::Pencil)) == InputOutcome::Save);
    assert!(board.mode == BoardMode::Normal);
    assert!(handle_input(&mut board, InputEvent::MenuClick(MenuActions::New)) == InputOutcome::ShowNewGame);
    assert!(handle_input(&mut board, InputEvent::DigitKey(2)) == InputOutcome::Save);
    assert!(handle_input(&mut board, InputEvent::BoardClick(Some(33))) == InputOutcome::Save);
    assert_eq!(board.cell_state[33].number, Some(2));
    board.toggle_delete_mode();
    assert!(handle_input(&mut board, InputEvent::MenuClick(MenuActions::Undo)) == InputOutcome::Save);
    assert!(!board.delete_mode);
    assert_eq!(board.cell_state[33].number, None);
    board.toggle_delete_mode();
    assert!(handle_input(&mut board, InputEvent::UndoKey) == InputOutcome::Save);
    assert!(!board.delete_mode);
    assert_eq!(board.selected_number, None);
}

#[test]
fn new_board_has_the_blanks_of_its_difficulty() {
    for (difficulty, blanks) in [(1u8, 35usize), (2, 45), (3, 50)] {
        let board = generate_new_board(difficulty).unwrap();
        let given = board.cell_state.iter().filter(|cell| cell.initial).count();
        assert_eq!(given, 81 - blanks);
        let filled = board.cell_state.iter().filter(|cell| cell.number.is_some()).count();
        assert_eq!(filled, 81 - blanks);
        let counted: usize = board.number_count.iter().map(|&n| n as usize).sum();
        assert_eq!(counted, 81 - blanks);
        assert!(board.is_valid());
        assert_eq!(board.history.len(), 0);
        assert_eq!(board.cell_initial_to_string().chars().filter(|&c| c == '0').count(), blanks);
    }
}
