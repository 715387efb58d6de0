use sudoku::board::{Board, BoardMode};
use sudoku::cell_state::{CellSelection, CellState};
use sudoku::puzzle::{board_from_grid, grid_from_string};

const SOLVED: [[u8; 9]; 9] = [
    [5, 3, 4, 6, 7, 8, 9, 1, 2],
    [6, 7, 2, 1, 9, 5, 3, 4, 8],
    [1, 9, 8, 3, 4, 2, 5, 6, 7],
    [8, 5, 9, 7, 6, 1, 4, 2, 3],
    [4, 2, 6, 8, 5, 3, 7, 9, 1],
    [7, 1, 3, 9, 2, 4, 8, 5, 6],
    [9, 6, 1, 5, 3, 7, 2, 8, 4],
    [2, 8, 7, 4, 1, 9, 6, 3, 5],
    [3, 4, 5, 2, 8, 6, 1, 7, 9],
];

const PUZZLE: [[u8; 9]; 9] = [
    [5, 3, 0, 0, 7, 0, 0, 0, 0],
    [6, 0, 0, 1, 9, 5, 0, 0, 0],
    [0, 9, 8, 0, 0, 0, 0, 6, 0],
    [8, 0, 0, 0, 6, 0, 0, 0, 3],
    [4, 0, 0, 8, 0, 3, 0, 0, 1],
    [7, 0, 0, 0, 2, 0, 0, 0, 6],
    [0, 6, 0, 0, 0, 0, 2, 8, 0],
    [0, 0, 0, 4, 1, 9, 0, 0, 5],
    [0, 0, 0, 0, 8, 0, 0, 7, 9],
];

const PUZZLE_TEXT: &str =
    "530070000600195000098000060800060003400803001700020006060000280000419005000080079";

fn same_cell(a: &CellState, b: &CellState) -> bool {
    a.number == b.number && a.pencil == b.pencil && a.selection == b.selection
        && a.initial == b.initial
}

fn same_cells(a: &[CellState; 81], b: &[CellState; 81]) -> bool {
    a.iter().zip(b.iter()).all(|(x, y)| same_cell(x, y))
}

fn shares_area(i: usize, j: usize) -> bool {
    i / 9 == j / 9 || i % 9 == j % 9 || (i / 27 == j / 27 && (i % 9) / 3 == (j % 9) / 3)
}

#[test]
fn test_new_board() {}

#[test]
fn new_board_is_empty() {
    let board = Board::new();
    assert!(board.mode == BoardMode::Normal);
    assert!(!board.delete_mode);
    assert_eq!(board.selected_index, None);
    assert_eq!(board.selected_number, None);
    assert_eq!(board.number_count, [0; 9]);
    assert_eq!(board.history.len(), 0);
    assert!(board.cell_state.iter().all(|cell| same_cell(cell, &CellState::new())));
    assert!(!board.is_victory());
}

#[test]
fn placing_a_digit_on_a_fresh_board() {
    let mut board = Board::new();
    board.set_selected_number(5);
    let before = board.number_count[4];
    board.click(Some(40));
    assert_eq!(board.cell_state[40].number, Some(5));
    assert_eq!(board.number_count[4], before + 1);
    assert_eq!(board.number_count, [0, 0, 0, 0, 1, 0, 0, 0, 0]);
    assert_eq!(board.selected_index, Some(40));
    for i in 0..81 {
        let expected = if i == 40 {
            CellSelection::Emphasized
        } else if shares_area(i, 40) {
            CellSelection::Highlighted
        } else {
            CellSelection::Unselected
        };
        assert!(board.cell_state[i].selection == expected, "cell {}", i);
    }
    // Row 4, column 4 and box 4 by their indices.
    for i in [36, 37, 38, 39, 41, 42, 43, 44, 4, 13, 22, 31, 49, 58, 67, 76, 30, 32, 48, 50] {
        assert!(board.cell_state[i].selection == CellSelection::Highlighted);
    }
    assert!(board.cell_state[0].selection == CellSelection::Unselected);
    assert_eq!(board.history.len(), 2);
}

#[test]
fn placing_the_same_digit_again_turns_it_into_a_pencil_mark() {
    let mut board = Board::new();
    board.set_selected_number(5);
    board.click(Some(40));
    assert_eq!(board.number_count[4], 1);
    board.click(Some(40));
    assert_eq!(board.cell_state[40].number, None);
    assert_eq!(
        board.cell_state[40].pencil,
        [None, None, None, None, Some(5), None, None, None, None]
    );
    assert_eq!(board.number_count[4], 0);
    assert!(board.cell_state[40].selection == CellSelection::Emphasized);
    assert!(board.cell_state[41].selection == CellSelection::Highlighted);
}

#[test]
fn a_digit_that_stands_in_the_row_is_rejected() {
    let mut board = Board::new();
    board.set_selected_number(5);
    board.click(Some(3));
    assert_eq!(board.cell_state[3].number, Some(5));
    let history = board.history.len();
    let cells = board.cell_state;
    let selected = board.selected_index;
    board.click(Some(0));
    assert_eq!(board.cell_state[0].number, None);
    assert_eq!(board.history.len(), history);
    assert!(same_cells(&board.cell_state, &cells));
    assert_eq!(board.selected_index, selected);
    // The same in a column and in a box.
    board.click(Some(75));
    assert_eq!(board.cell_state[75].number, None);
    board.click(Some(13));
    assert_eq!(board.cell_state[13].number, None);
    assert_eq!(board.history.len(), history);
    // A cell that shares no area takes the digit.
    board.click(Some(10));
    assert_eq!(board.cell_state[10].number, Some(5));
    assert_eq!(board.history.len(), history + 1);
}

#[test]
fn undo_takes_back_every_accepted_action() {
    let mut board = board_from_grid(&PUZZLE);
    let cells = board.cell_state;
    let counts = board.number_count;
    board.set_selected_number(4);
    board.click(Some(2));
    board.toggle_pencil_mode();
    board.click(Some(3));
    board.set_selected_number(2);
    board.click(Some(3));
    board.toggle_pencil_mode();
    board.toggle_delete_mode();
    board.click(Some(2));
    board.click(Some(3));
    assert_eq!(board.history.len(), 7);
    assert!(!same_cells(&board.cell_state, &cells));
    for _ in 0..7 {
        board.undo();
    }
    assert_eq!(board.history.len(), 0);
    assert!(same_cells(&board.cell_state, &cells));
    assert_eq!(board.number_count, counts);
    assert_eq!(board.selected_index, None);
    assert_eq!(board.selected_number, None);
    // Nothing is left to take back.
    board.undo();
    assert!(same_cells(&board.cell_state, &cells));
    assert_eq!(board.history.len(), 0);
}

#[test]
fn undo_restores_one_step_at_a_time() {
    let mut board = Board::new();
    board.set_selected_number(7);
    board.click(Some(10));
    let after_first = board.cell_state;
    board.click(Some(50));
    assert_eq!(board.cell_state[50].number, Some(7));
    assert_eq!(board.number_count[6], 2);
    board.undo();
    assert!(same_cells(&board.cell_state, &after_first));
    assert_eq!(board.selected_index, Some(10));
    assert_eq!(board.selected_number, Some(7));
    assert_eq!(board.number_count[6], 1);
    board.undo();
    assert_eq!(board.cell_state[10].number, None);
    assert_eq!(board.selected_index, None);
    assert_eq!(board.selected_number, Some(7));
    board.undo();
    assert_eq!(board.selected_number, None);
    assert!(board.cell_state.iter().all(|cell| cell.selection == CellSelection::Unselected));
}

#[test]
fn highlight_twice_is_highlight_once() {
    let mut board = board_from_grid(&PUZZLE);
    board.set_selected_number(6);
    board.click(Some(2));
    board.highlight();
    let once = board.cell_state;
    board.highlight();
    assert!(same_cells(&board.cell_state, &once));
    assert!(board.cell_state[9].selection == CellSelection::Emphasized);
}

#[test]
fn highlight_marks_the_armed_digit_and_its_areas() {
    let mut board = board_from_grid(&PUZZLE);
    board.set_selected_number(9);
    // The nines of the puzzle stand at 13, 19, 68 and 80.
    for i in 0..81 {
        let seed = [13, 19, 68, 80].contains(&i);
        let near = [13, 19, 68, 80].iter().any(|&j| shares_area(i, j));
        let expected = if seed {
            CellSelection::Emphasized
        } else if near {
            CellSelection::Highlighted
        } else {
            CellSelection::Unselected
        };
        assert!(board.cell_state[i].selection == expected, "cell {}", i);
    }
    assert!(board.cell_state[38].selection == CellSelection::Unselected);
}

#[test]
fn a_given_cell_is_selected_and_not_changed() {
    let mut board = board_from_grid(&PUZZLE);
    board.set_selected_number(1);
    let history = board.history.len();
    board.click(Some(0));
    assert_eq!(board.cell_state[0].number, Some(5));
    assert!(board.cell_state[0].initial);
    assert_eq!(board.selected_index, Some(0));
    assert!(board.cell_state[0].selection == CellSelection::Emphasized);
    assert!(board.cell_state[8].selection == CellSelection::Highlighted);
    assert_eq!(board.history.len(), history);
    board.toggle_delete_mode();
    board.click(Some(1));
    assert_eq!(board.cell_state[1].number, Some(3));
    assert_eq!(board.selected_index, Some(1));
    assert_eq!(board.history.len(), history);
}

#[test]
fn a_click_outside_every_cell_clears_the_selection() {
    let mut board = Board::new();
    board.set_selected_number(2);
    board.click(Some(30));
    assert_eq!(board.selected_index, Some(30));
    let history = board.history.len();
    board.click(None);
    assert_eq!(board.selected_index, None);
    assert_eq!(board.cell_state[30].number, Some(2));
    assert!(board.cell_state[30].selection == CellSelection::Emphasized);
    assert_eq!(board.history.len(), history);
    board.toggle_delete_mode();
    board.click(Some(30));
    board.click(None);
    assert!(board.cell_state.iter().all(|cell| cell.selection == CellSelection::Unselected));
}

#[test]
fn an_index_outside_the_board_is_ignored() {
    let mut board = Board::new();
    board.set_selected_number(2);
    board.click(Some(30));
    let cells = board.cell_state;
    let history = board.history.len();
    board.click(Some(81));
    board.click(Some(usize::MAX));
    assert!(same_cells(&board.cell_state, &cells));
    assert_eq!(board.selected_index, Some(30));
    assert_eq!(board.history.len(), history);
}

#[test]
fn a_digit_that_is_no_digit_is_not_armed() {
    let mut board = Board::new();
    board.set_selected_number(0);
    assert_eq!(board.selected_number, None);
    board.set_selected_number(10);
    assert_eq!(board.selected_number, None);
    assert_eq!(board.history.len(), 0);
    board.set_selected_number(9);
    assert_eq!(board.selected_number, Some(9));
    assert_eq!(board.history.len(), 1);
    board.set_selected_number(9);
    assert_eq!(board.history.len(), 1);
}

#[test]
fn without_an_armed_digit_a_click_enters_nothing() {
    let mut board = Board::new();
    board.click(Some(12));
    assert_eq!(board.cell_state[12].number, None);
    assert_eq!(board.selected_index, None);
    assert_eq!(board.history.len(), 0);
    board.toggle_pencil_mode();
    board.click(Some(12));
    assert!(!board.cell_state[12].has_pencil());
    assert_eq!(board.history.len(), 0);
}

#[test]
fn pencil_mode_toggles_the_mark() {
    let mut board = Board::new();
    board.toggle_pencil_mode();
    assert!(board.mode == BoardMode::Pencil);
    board.set_selected_number(3);
    board.click(Some(20));
    assert_eq!(board.cell_state[20].pencil[2], Some(3));
    assert_eq!(board.cell_state[20].number, None);
    assert_eq!(board.selected_index, Some(20));
    board.set_selected_number(8);
    board.click(Some(20));
    assert_eq!(board.cell_state[20].pencil[2], Some(3));
    assert_eq!(board.cell_state[20].pencil[7], Some(8));
    board.click(Some(20));
    assert_eq!(board.cell_state[20].pencil[7], None);
    assert_eq!(board.cell_state[20].pencil[2], Some(3));
    assert_eq!(board.number_count, [0; 9]);
    // A cell with a number takes no pencil mark.
    board.toggle_pencil_mode();
    assert!(board.mode == BoardMode::Normal);
    board.click(Some(60));
    assert_eq!(board.cell_state[60].number, Some(8));
    board.toggle_pencil_mode();
    let history = board.history.len();
    board.click(Some(60));
    assert_eq!(board.cell_state[60].number, Some(8));
    assert!(!board.cell_state[60].has_pencil());
    assert_eq!(board.history.len(), history);
}

#[test]
fn placing_a_digit_clears_its_pencil_marks_nearby() {
    let mut board = Board::new();
    board.toggle_pencil_mode();
    board.set_selected_number(5);
    board.click(Some(41));
    board.click(Some(4));
    board.click(Some(80));
    board.set_selected_number(6);
    board.click(Some(41));
    board.set_selected_number(5);
    board.toggle_pencil_mode();
    board.click(Some(40));
    assert_eq!(board.cell_state[40].number, Some(5));
    // Cell 41 lies in the row, cell 4 in the column; cell 80 shares no area.
    assert_eq!(board.cell_state[41].pencil[4], None);
    assert_eq!(board.cell_state[41].pencil[5], Some(6));
    assert_eq!(board.cell_state[4].pencil[4], None);
    assert_eq!(board.cell_state[80].pencil[4], Some(5));
}

#[test]
fn delete_mode_erases_numbers_and_pencil_marks() {
    let mut board = Board::new();
    board.set_selected_number(4);
    board.click(Some(11));
    board.toggle_pencil_mode();
    board.click(Some(70));
    board.set_selected_number(1);
    board.click(Some(70));
    board.toggle_pencil_mode();
    board.toggle_delete_mode();
    assert!(board.delete_mode);
    let history = board.history.len();
    board.click(Some(11));
    assert_eq!(board.cell_state[11].number, None);
    assert_eq!(board.selected_index, Some(11));
    assert_eq!(board.selected_number, Some(4));
    assert_eq!(board.number_count, [0; 9]);
    assert_eq!(board.history.len(), history + 1);
    board.click(Some(70));
    assert!(!board.cell_state[70].has_pencil());
    assert_eq!(board.selected_index, Some(70));
    assert_eq!(board.history.len(), history + 2);
    // An empty cell: nothing to erase, nothing recorded.
    board.click(Some(0));
    assert_eq!(board.selected_index, Some(70));
    assert_eq!(board.history.len(), history + 2);
    board.disable_delete_mode();
    assert!(!board.delete_mode);
    board.toggle_delete_mode();
    board.toggle_delete_mode();
    assert!(!board.delete_mode);
}

#[test]
fn victory_needs_every_digit_nine_times() {
    let board = board_from_grid(&SOLVED);
    assert_eq!(board.number_count, [9; 9]);
    assert!(board.is_victory());
    for number in 1..=9 {
        assert!(board.is_number_done(number));
    }

    let mut grid = SOLVED;
    grid[8][8] = 0;
    let mut board = board_from_grid(&grid);
    assert!(!board.is_victory());
    assert!(!board.is_number_done(9));
    assert!(board.is_number_done(1));
    assert_eq!(board.number_count[8], 8);
    board.set_selected_number(9);
    board.click(Some(80));
    assert!(board.is_victory());
    assert!(board.is_valid());
}

#[test]
fn update_number_count_counts_each_digit() {
    let mut board = board_from_grid(&PUZZLE);
    assert_eq!(board.number_count, [3, 2, 3, 2, 3, 5, 3, 5, 4]);
    board.number_count = [0; 9];
    board.update_number_count();
    assert_eq!(board.number_count, [3, 2, 3, 2, 3, 5, 3, 5, 4]);
}

#[test]
fn is_valid_finds_a_repeated_number() {
    let mut board = board_from_grid(&PUZZLE);
    assert!(board.is_valid());
    board.cell_state[2].number = Some(3);
    assert!(!board.is_valid());
    board.cell_state[2].number = Some(8);
    assert!(!board.is_valid());
    board.cell_state[2].number = Some(4);
    assert!(board.is_valid());
    board.cell_state[72].number = Some(4);
    assert!(!board.is_valid());
}

#[test]
fn fingerprint_holds_the_given_digits() {
    let mut board = board_from_grid(&PUZZLE);
    assert_eq!(board.cell_initial_to_string(), PUZZLE_TEXT);
    board.set_selected_number(4);
    board.click(Some(2));
    assert_eq!(board.cell_state[2].number, Some(4));
    assert_eq!(board.cell_initial_to_string(), PUZZLE_TEXT);
    assert_eq!(Board::new().cell_initial_to_string(), "0".repeat(81));
}

#[test]
fn fingerprint_round_trip() {
    let mut board = board_from_grid(&PUZZLE);
    board.set_selected_number(4);
    board.click(Some(2));
    let text = board.cell_initial_to_string();
    let grid = grid_from_string(&text).unwrap();
    assert_eq!(grid, PUZZLE);
    let again = board_from_grid(&grid);
    for i in 0..81 {
        assert_eq!(again.cell_state[i].initial, board.cell_state[i].initial);
        if board.cell_state[i].initial {
            assert_eq!(again.cell_state[i].number, board.cell_state[i].number);
        } else {
            assert_eq!(again.cell_state[i].number, None);
        }
    }
    assert_eq!(again.cell_initial_to_string(), text);
}

#[test]
fn grid_from_string_wants_81_digits() {
    assert_eq!(grid_from_string(PUZZLE_TEXT), Some(PUZZLE));
    assert_eq!(grid_from_string(""), None);
    assert_eq!(grid_from_string(&PUZZLE_TEXT[1..]), None);
    assert_eq!(grid_from_string(&format!("{}0", PUZZLE_TEXT)), None);
    assert_eq!(grid_from_string(&format!("x{}", &PUZZLE_TEXT[1..])), None);
    assert_eq!(grid_from_string(&format!("{}a", &PUZZLE_TEXT[..80])), None);
}

#[test]
fn board_from_grid_gives_the_digits_as_given_numbers() {
    let board = board_from_grid(&PUZZLE);
    for r in 0..9 {
        for c in 0..9 {
            let cell = &board.cell_state[9 * r + c];
            if PUZZLE[r][c] == 0 {
                assert!(same_cell(cell, &CellState::new()));
            } else {
                assert_eq!(cell.number, Some(PUZZLE[r][c]));
                assert!(cell.initial);
                assert!(!cell.has_pencil());
            }
        }
    }
    assert_eq!(board.history.len(), 0);
    assert_eq!(board.selected_index, None);
    assert!(board.mode == BoardMode::Normal);
}

#[test]
fn well_formed_boards_are_told_from_others() {
    assert!(Board::new().is_well_formed());
    let mut board = board_from_grid(&PUZZLE);
    assert!(board.is_well_formed());
    board.set_selected_number(4);
    board.click(Some(2));
    board.toggle_pencil_mode();
    board.set_selected_number(1);
    board.click(Some(3));
    board.toggle_delete_mode();
    board.click(Some(2));
    board.click(None);
    board.undo();
    assert!(board.is_well_formed());

    let good = board_from_grid(&PUZZLE);
    // A wrong count.
    let mut broken = board_from_grid(&PUZZLE);
    broken.number_count[0] += 1;
    assert!(!broken.is_well_formed());
    // A mark that highlighting would not give.
    let mut broken = board_from_grid(&PUZZLE);
    broken.cell_state[7].selection = CellSelection::Highlighted;
    assert!(!broken.is_well_formed());
    // A number twice in a row.
    let mut broken = board_from_grid(&PUZZLE);
    broken.cell_state[2].number = Some(5);
    broken.update_number_count();
    assert!(!broken.is_well_formed());
    // A selection outside the board, and a digit that is none.
    let mut broken = board_from_grid(&PUZZLE);
    broken.selected_index = Some(81);
    assert!(!broken.is_well_formed());
    let mut broken = board_from_grid(&PUZZLE);
    broken.selected_number = Some(0);
    assert!(!broken.is_well_formed());
    // A cell with a number and a pencil mark.
    let mut broken = board_from_grid(&PUZZLE);
    broken.cell_state[0].pencil[3] = Some(4);
    assert!(!broken.is_well_formed());
    // A record that is not well formed.
    let mut broken = board_from_grid(&PUZZLE);
    broken.set_selected_number(4);
    broken.click(Some(2));
    assert!(broken.is_well_formed());
    broken.history.points[0].cell_state[2].initial = true;
    assert!(!broken.is_well_formed());
    assert!(good.is_well_formed());
}
