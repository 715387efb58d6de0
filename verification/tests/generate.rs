use sudoku::generate::{
    create_puzzle, fill_diagonal, fill_subgrid, find_empty_cell, generate_board,
    has_unique_solution, is_valid, shuffle, solve, try_remove_cell,
};

#[test]
fn test_create_easy() {
    let mut board = [[0; 9]; 9];
    generate_board(&mut board);

    create_puzzle(&mut board, 1); // Easy difficulty

    // Count the number of filled cells
    let num_filled_cells = board.iter().flatten().filter(|&&value| value != 0).count();

    // Check that the number of filled cells matches the expected difficulty level
    assert_eq!(num_filled_cells, 81 - 35); // 81 is the total number of cells in the board

    // Check that the puzzle is still solvable and has a unique solution
    let mut puzzle_board = board;
    assert!(has_unique_solution(&mut puzzle_board));
}

#[test]
fn test_create_medium() {
    let mut board = [[0; 9]; 9];
    generate_board(&mut board);

    create_puzzle(&mut board, 2); // Medium difficulty

    // Count the number of filled cells
    let num_filled_cells = board.iter().flatten().filter(|&&value| value != 0).count();

    // Check that the number of filled cells matches the expected difficulty level
    assert_eq!(num_filled_cells, 81 - 45); // 81 is the total number of cells in the board

    // Check that the puzzle is still solvable and has a unique solution
    let mut puzzle_board = board;
    assert!(has_unique_solution(&mut puzzle_board));
}

#[test]
fn test_create_hard() {
    let mut board = [[0; 9]; 9];
    generate_board(&mut board);

    create_puzzle(&mut board, 3); // Hard difficulty

    // Count the number of filled cells
    let num_filled_cells = board.iter().flatten().filter(|&&value| value != 0).count();

    // Check that the number of filled cells matches the expected difficulty level
    assert_eq!(num_filled_cells, 81 - 50); // 81 is the total number of cells in the board

    // Check that the puzzle is still solvable and has a unique solution
    let mut puzzle_board = board;
    assert!(has_unique_solution(&mut puzzle_board));
}

const SOLVED: [[u8; 9]; 9] = [
    [5, 3, 4, 6, 7, 8, 9, 1, 2],
    [6, 7, 2, 1, 9, 5, 3, 4, 8],
    [1, 9, 8, 3, 4, 2, 5, 6, 7],
    [8, 5, 9, 7, 6, 1, 4, 2, 3],
    [4, 2, 6, 8, 5, 3, 7, 9, 1],
    [7, 1, 3, 9, 2, 4, 8, 5, 6],
    [9, 6, 1, 5, 3, 7, 2, 8, 4],
    [2, 8, 7, 4, 1, 9, 6, 3, 5],
    [3, 4, 5, 2, 8, 6, 1, 7, 9],
];

const PUZZLE: [[u8; 9]; 9] = [
    [5, 3, 0, 0, 7, 0, 0, 0, 0],
    [6, 0, 0, 1, 9, 5, 0, 0, 0],
    [0, 9, 8, 0, 0, 0, 0, 6, 0],
    [8, 0, 0, 0, 6, 0, 0, 0, 3],
    [4, 0, 0, 8, 0, 3, 0, 0, 1],
    [7, 0, 0, 0, 2, 0, 0, 0, 6],
    [0, 6, 0, 0, 0, 0, 2, 8, 0],
    [0, 0, 0, 4, 1, 9, 0, 0, 5],
    [0, 0, 0, 0, 8, 0, 0, 7, 9],
];

fn is_solved(board: &[[u8; 9]; 9]) -> bool {
    for k in 0..9 {
        let mut row = [false; 10];
        let mut column = [false; 10];
        let mut boxed = [false; 10];
        for i in 0..9 {
            let cells = [
                board[k][i],
                board[i][k],
                board[3 * (k / 3) + i / 3][3 * (k % 3) + i % 3],
            ];
            for value in cells {
                if value < 1 || value > 9 {
                    return false;
                }
            }
            if row[cells[0] as usize] || column[cells[1] as usize] || boxed[cells[2] as usize] {
                return false;
            }
            row[cells[0] as usize] = true;
            column[cells[1] as usize] = true;
            boxed[cells[2] as usize] = true;
        }
    }
    true
}

#[test]
fn generated_grid_is_solved() {
    for _ in 0..5 {
        let mut board = [[0; 9]; 9];
        generate_board(&mut board);
        assert!(is_solved(&board));
    }
}

#[test]
fn solve_completes_a_puzzle() {
    let mut board = PUZZLE;
    assert!(solve(&mut board));
    assert_eq!(board, SOLVED);
}

#[test]
fn solve_leaves_a_hopeless_grid_alone() {
    let mut board = [[0; 9]; 9];
    // The first cell can take no digit: 1 to 8 stand in its row, 9 in its column.
    for (c, value) in (1..=8).enumerate() {
        board[0][c + 1] = value;
    }
    board[1][0] = 9;
    let before = board;
    assert!(!solve(&mut board));
    assert_eq!(board, before);
}

#[test]
fn unique_solution_is_told_from_none_and_from_two() {
    let mut one = PUZZLE;
    assert!(has_unique_solution(&mut one));
    assert_eq!(one, PUZZLE);

    let mut many = [[0; 9]; 9];
    assert!(!has_unique_solution(&mut many));

    let mut none = [[0; 9]; 9];
    for (c, value) in (1..=8).enumerate() {
        none[0][c + 1] = value;
    }
    none[1][0] = 9;
    assert!(!has_unique_solution(&mut none));
    let mut full = SOLVED;
    assert!(has_unique_solution(&mut full));
}

#[test]
fn find_empty_cell_reads_row_by_row() {
    assert_eq!(find_empty_cell(&PUZZLE), Some((0, 2)));
    assert_eq!(find_empty_cell(&SOLVED), None);
    let mut board = SOLVED;
    board[8][8] = 0;
    board[4][7] = 0;
    assert_eq!(find_empty_cell(&board), Some((4, 7)));
}

#[test]
fn is_valid_looks_at_row_column_and_box() {
    // Row 0 holds 5, 3, 7; column 2 holds 8; the box holds 5, 3, 6, 9, 8.
    assert!(!is_valid(&PUZZLE, 0, 2, 5));
    assert!(!is_valid(&PUZZLE, 0, 2, 7));
    assert!(!is_valid(&PUZZLE, 0, 2, 8));
    assert!(!is_valid(&PUZZLE, 0, 2, 6));
    assert!(is_valid(&PUZZLE, 0, 2, 4));
    assert!(is_valid(&PUZZLE, 0, 2, 1));
    assert!(is_valid(&PUZZLE, 0, 2, 2));
}

#[test]
fn fill_subgrid_writes_nine_different_digits() {
    let mut board = [[0; 9]; 9];
    fill_subgrid(&mut board, 3, 6);
    let mut seen = [false; 10];
    for r in 0..9 {
        for c in 0..9 {
            let value = board[r][c];
            if (3..6).contains(&r) && (6..9).contains(&c) {
                assert!((1..=9).contains(&value));
                assert!(!seen[value as usize]);
                seen[value as usize] = true;
            } else {
                assert_eq!(value, 0);
            }
        }
    }
}

#[test]
fn fill_diagonal_leaves_the_rest_alone() {
    let mut board = [[0; 9]; 9];
    board[0][5] = 7;
    fill_diagonal(&mut board);
    for r in 0..9 {
        for c in 0..9 {
            if r / 3 == c / 3 {
                assert!((1..=9).contains(&board[r][c]));
            } else if (r, c) == (0, 5) {
                assert_eq!(board[r][c], 7);
            } else {
                assert_eq!(board[r][c], 0);
            }
        }
    }
}

#[test]
fn shuffle_keeps_the_elements() {
    let mut values: Vec<u8> = vec![1, 2, 3, 4, 5, 6, 7, 8, 9, 9, 9];
    let mut changed = false;
    for _ in 0..20 {
        let before = values.clone();
        shuffle(&mut values);
        changed = changed || values != before;
        let mut sorted = values.clone();
        sorted.sort();
        assert_eq!(sorted, vec![1, 2, 3, 4, 5, 6, 7, 8, 9, 9, 9]);
    }
    assert!(changed);
    let mut empty: Vec<u8> = vec![];
    shuffle(&mut empty);
    assert!(empty.is_empty());
    let mut single: Vec<u8> = vec![3];
    shuffle(&mut single);
    assert_eq!(single, vec![3]);
}

#[test]
fn try_remove_cell_keeps_the_solution_unique() {
    let mut board = SOLVED;
    assert!(try_remove_cell(&mut board, 4, 4));
    assert_eq!(board[4][4], 0);
    // A blank cell is not removed again.
    assert!(!try_remove_cell(&mut board, 4, 4));

    // Two rows of a band that are blank except for matching gaps can be
    // swapped digit for digit, so the last filled cell of a pair must stay.
    let mut sparse = PUZZLE;
    let mut copy = sparse;
    assert!(has_unique_solution(&mut copy));
    let mut removed = 0;
    for r in 0..9 {
        for c in 0..9 {
            let before = sparse;
            if try_remove_cell(&mut sparse, r, c) {
                removed += 1;
                assert_eq!(sparse[r][c], 0);
            } else {
                assert_eq!(sparse, before);
            }
            let mut scratch = sparse;
            assert!(has_unique_solution(&mut scratch));
        }
    }
    assert!(removed < 30);
}

#[test]
fn create_puzzle_reports_whether_it_reached_the_target() {
    let mut board = SOLVED;
    assert!(create_puzzle(&mut board, 1));
    let blanks = board.iter().flatten().filter(|&&value| value == 0).count();
    assert_eq!(blanks, 35);
    for r in 0..9 {
        for c in 0..9 {
            assert!(board[r][c] == 0 || board[r][c] == SOLVED[r][c]);
        }
    }
    let mut scratch = board;
    assert!(solve(&mut scratch));
    assert_eq!(scratch, SOLVED);

    // A blank grid has many completions: no cell can go.
    let mut blank = [[0; 9]; 9];
    assert!(!create_puzzle(&mut blank, 1));
    assert_eq!(blank, [[0; 9]; 9]);
}
