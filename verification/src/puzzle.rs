//! From a grid to a board: seeding the cells that the puzzle gives, making
//! a new puzzle, and reading a board's fingerprint back.

use vstd::prelude::*;
use vstd::string::StrSliceExecFns;
use crate::areas::shares_area;
use crate::board::Board;
use crate::board_model::{
    counted, digit_char, fingerprint, highlighted, initial_digit, is_seed, near_seed, BoardModel,
};
use crate::cell_state::CellModel;
use crate::generate::{
    carving, create_puzzle, find_empty_cell, generate_board, generated, lemma_grid_view_shaped,
    removal_target,
};
use crate::grid::{
    after_draws, blank_count, blank_off_diagonal, carved, consistent, diagonal_seed, fits, get,
    grid_view, has_completion, in_grid, peers, shaped, solved, unique_completion, Grid, GridModel,
};
use crate::grid_lemmas::{lemma_blanks_before_bound, lemma_carved_consistent, lemma_grid_ext};
use crate::index::xy_to_index;

verus! {

/// The cell that seeding makes of a cell of the grid: a given number for
/// a digit, an empty cell for a blank.
pub open spec fn seeded_cell(v: u8) -> CellModel {
    CellModel::empty().set_initial_number(v)
}

/// The 81 cells that seeding makes of a grid, row by row.
pub open spec fn seeded_cells(g: GridModel) -> Seq<CellModel> {
    Seq::new(81, |i: int| seeded_cell(get(g, i / 9, i % 9)))
}

impl BoardModel {
    /// The board at the start of the puzzle `g`.
    pub open spec fn seeded(g: GridModel) -> BoardModel {
        BoardModel {
            cells: seeded_cells(g),
            number_count: counted(seeded_cells(g)),
            ..BoardModel::empty()
        }
    }

    /// The board at the start of a consistent puzzle is well formed.
    pub proof fn lemma_seeded_wf(g: GridModel)
        requires
            consistent(g),
        ensures
            BoardModel::seeded(g).wf(),
    {
        let cells = seeded_cells(g);
        assert forall|i: int| 0 <= i < 81 implies (#[trigger] cells[i]).wf() by {
            assert(in_grid(i / 9, i % 9));
        }
        assert forall|i: int, j: int|
            #![trigger cells[i], cells[j]]
            0 <= i < 81 && 0 <= j < 81 && i != j && shares_area(i, j)
                && cells[i].number is Some implies cells[i].number != cells[j].number by {
            assert(in_grid(i / 9, i % 9) && in_grid(j / 9, j % 9));
            assert(peers(i / 9, i % 9, j / 9, j % 9));
            assert(get(g, i / 9, i % 9) <= 9);
            assert(get(g, j / 9, j % 9) != get(g, i / 9, i % 9));
        }
        assert forall|i: int| 0 <= i < 81 implies #[trigger] highlighted(cells, None, None)[i]
            == cells[i] by {
            if near_seed(cells, None, None, i) {
                let j = choose|j: int| #[trigger] is_seed(cells, None, None, j) && shares_area(i, j);
                assert(false);
            }
        }
        assert(highlighted(cells, None, None) =~= cells);
    }
}

/// Makes the board at the start of the puzzle `grid`: each digit of the
/// grid becomes a number that the puzzle gave, each blank an empty cell.
pub fn board_from_grid(grid: &Grid) -> (board: Board)
    ensures
        board@ == BoardModel::seeded(grid_view(*grid)),
        consistent(grid_view(*grid)) ==> board@.wf(),
{
    let ghost g = grid_view(*grid);
    let mut board = Board::new();
    proof {
        lemma_grid_view_shaped(*grid);
    }
    let mut y: usize = 0;
    while y < 9
        invariant
            y <= 9,
            g == grid_view(*grid),
            board@.history == BoardModel::empty().history,
            board.mode == BoardModel::empty().mode,
            board.delete_mode == false,
            board.selected_index == None::<usize>,
            board.selected_number == None::<u8>,
            forall|i: int| 0 <= i < 9 * y ==> #[trigger] board@.cells[i] == seeded_cells(g)[i],
            forall|i: int| 9 * y <= i < 81 ==> #[trigger] board@.cells[i] == CellModel::empty(),
        decreases 9 - y,
    {
        let mut x: usize = 0;
        while x < 9
            invariant
                y < 9,
                x <= 9,
                g == grid_view(*grid),
                board@.history == BoardModel::empty().history,
                board.mode == BoardModel::empty().mode,
                board.delete_mode == false,
                board.selected_index == None::<usize>,
                board.selected_number == None::<u8>,
                forall|i: int|
                    0 <= i < 9 * y + x ==> #[trigger] board@.cells[i] == seeded_cells(g)[i],
                forall|i: int|
                    9 * y + x <= i < 81 ==> #[trigger] board@.cells[i] == CellModel::empty(),
            decreases 9 - x,
        {
            let index = xy_to_index(x, y, 9);
            let ghost before = board@.cells;
            proof {
                assert(before[index as int] == board.cell_state[index as int]@);
                assert(get(g, y as int, x as int) == grid[y as int][x as int]);
            }
            board.cell_state[index].set_initial_number(grid[y][x]);
            proof {
                assert forall|i: int| 0 <= i < 81 && i != index implies #[trigger] board@.cells[i]
                    == before[i] by {
                    assert(board@.cells[i] == board.cell_state[i]@);
                }
                assert(board@.cells[index as int] == board.cell_state[index as int]@);
                assert(index as int / 9 == y && index as int % 9 == x);
            }
            x += 1;
        }
        y += 1;
    }
    proof {
        assert(board@.cells =~= seeded_cells(g));
    }
    board.update_number_count();
    proof {
        assert(board@ =~= BoardModel::seeded(g));
        if consistent(g) {
            BoardModel::lemma_seeded_wf(g);
        }
    }
    board
}

/// The grid of 81 blank cells.
pub open spec fn blank_grid() -> GridModel {
    Seq::new(9, |r: int| Seq::new(9, |c: int| 0u8))
}

/// The model of the board, where there is one.
pub open spec fn made_model(made: Option<Board>) -> Option<BoardModel> {
    match made {
        Some(board) => Some(board@),
        None => None,
    }
}

/// `made` is what making a new board gives where generating gave the
/// grid `full` and carving drew the cells `draws`: there is no board
/// unless `full` is solved and carving reached the number of blanks of
/// the difficulty, and then it is the board at the start of the carved
/// puzzle.
pub open spec fn new_board_outcome(
    full: GridModel,
    draws: Seq<(int, int)>,
    difficulty: u8,
    made: Option<BoardModel>,
) -> bool {
    &&& generated(blank_grid(), full)
    &&& if solved(full) {
        let puzzle = after_draws(full, draws);
        let reached = blank_count(puzzle) == removal_target(difficulty);
        carving(full, removal_target(difficulty), draws, puzzle, reached) && made == if reached {
            Some(BoardModel::seeded(puzzle))
        } else {
            None::<BoardModel>
        }
    } else {
        made is None
    }
}

/// Makes a new puzzle of the given difficulty and the board at its
/// start: a grid is generated, cells are carved out of it, and what is
/// left seeds the board.
///
/// Returns no board where the generated grid was left incomplete or the
/// carving did not reach the number of blanks that the difficulty asks
/// for. A board that is returned starts a puzzle with that number of
/// blanks, whose only solution is the generated grid.
pub fn generate_new_board(difficulty: u8) -> (made: Option<Board>)
    requires
        1 <= difficulty <= 3,
    ensures
        exists|full: GridModel, draws: Seq<(int, int)>| #[trigger]
            new_board_outcome(full, draws, difficulty, made_model(made)),
        made matches Some(board) ==> board@.wf() && exists|full: GridModel, puzzle: GridModel|
            #![trigger carved(full, puzzle)]
            solved(full) && carved(full, puzzle) && blank_count(puzzle) == removal_target(
                difficulty,
            ) && unique_completion(puzzle) && board@ == BoardModel::seeded(puzzle),
{
    let mut board_gen: Grid = [[0;9];9];
    proof {
        lemma_grid_view_shaped(board_gen);
        assert(blank_off_diagonal(grid_view(board_gen)));
        assert(shaped(blank_grid())) by {
            assert forall|r: int| 0 <= r < 9 implies (#[trigger] blank_grid()[r]).len() == 9 by {}
        }
        lemma_grid_ext(grid_view(board_gen), blank_grid());
    }
    generate_board(&mut board_gen);
    let ghost full = grid_view(board_gen);
    proof {
        lemma_grid_view_shaped(board_gen);
        assert(generated(blank_grid(), full));
    }
    match find_empty_cell(&board_gen) {
        Some((row, col)) => {
            proof {
                assert(!fits(full, row as int, col as int));
                assert(new_board_outcome(
                    full,
                    Seq::<(int, int)>::empty(),
                    difficulty,
                    None::<BoardModel>,
                ));
            }
            return None;
        },
        None => {},
    }
    proof {
        let seed = diagonal_seed(blank_grid(), full);
        if !has_completion(seed) {
            // The grid would be the seed, which is blank outside the diagonal boxes.
            assert(get(seed, 0, 3) == 0);
            assert(get(full, 0, 3) != 0);
        }
        assert(solved(full));
        lemma_blanks_before_bound(full, 81);
        assert forall|r: int, c: int| in_grid(r, c) implies #[trigger] get(full, r, c) != 0 by {
            assert(fits(full, r, c));
        }
    }
    let reached = create_puzzle(&mut board_gen, difficulty);
    let ghost puzzle = grid_view(board_gen);
    let ghost draws = choose|draws: Seq<(int, int)>| #[trigger]
        carving(full, removal_target(difficulty), draws, puzzle, reached);
    if !reached {
        proof {
            assert(new_board_outcome(full, draws, difficulty, None::<BoardModel>));
        }
        return None;
    }
    let board = board_from_grid(&board_gen);
    proof {
        assert(carved(full, puzzle));
        lemma_carved_consistent(full, puzzle);
        assert(new_board_outcome(full, draws, difficulty, Some(board@)));
    }
    Some(board)
}

/// The digit that a character stands for, if it is one of `0` to `9`.
pub open spec fn digit_value(c: char) -> Option<u8> {
    if c == '0' {
        Some(0u8)
    } else if c == '1' {
        Some(1u8)
    } else if c == '2' {
        Some(2u8)
    } else if c == '3' {
        Some(3u8)
    } else if c == '4' {
        Some(4u8)
    } else if c == '5' {
        Some(5u8)
    } else if c == '6' {
        Some(6u8)
    } else if c == '7' {
        Some(7u8)
    } else if c == '8' {
        Some(8u8)
    } else if c == '9' {
        Some(9u8)
    } else {
        None
    }
}

/// `g` holds, row by row, the digits that the 81 characters of `text` stand for.
pub open spec fn spells(text: Seq<char>, g: GridModel) -> bool {
    text.len() == 81 && shaped(g) && forall|i: int|
        0 <= i < 81 ==> digit_value(#[trigger] text[i]) == Some(get(g, i / 9, i % 9))
}

/// Computes the digit that a character stands for.
fn char_digit(c: char) -> (d: Option<u8>)
    ensures
        d == digit_value(c),
{
    if c == '0' {
        Some(0)
    } else if c == '1' {
        Some(1)
    } else if c == '2' {
        Some(2)
    } else if c == '3' {
        Some(3)
    } else if c == '4' {
        Some(4)
    } else if c == '5' {
        Some(5)
    } else if c == '6' {
        Some(6)
    } else if c == '7' {
        Some(7)
    } else if c == '8' {
        Some(8)
    } else if c == '9' {
        Some(9)
    } else {
        None
    }
}

/// Reads a fingerprint back into the grid that it spells; there is none
/// unless the text has 81 characters, each one of `0` to `9`.
pub fn grid_from_string(text: &str) -> (grid: Option<Grid>)
    ensures
        match grid {
            Some(g) => spells(text@, grid_view(g)),
            None => text@.len() != 81 || exists|i: int|
                0 <= i < 81 && digit_value(#[trigger] text@[i]) is None,
        },
{
    if text.unicode_len() != 81 {
        return None;
    }
    let mut grid: Grid = [[0;9];9];
    let mut index: usize = 0;
    while index < 81
        invariant
            index <= 81,
            text@.len() == 81,
            forall|i: int|
                0 <= i < index ==> digit_value(#[trigger] text@[i]) == Some(
                    get(grid_view(grid), i / 9, i % 9),
                ),
        decreases 81 - index,
    {
        let digit = match char_digit(text.get_char(index)) {
            Some(digit) => digit,
            None => { return None; },
        };
        let ghost before = grid_view(grid);
        grid[index / 9][index % 9] = digit;
        proof {
            lemma_grid_view_shaped(grid);
            assert forall|i: int| 0 <= i < index + 1 implies digit_value(#[trigger] text@[i])
                == Some(get(grid_view(grid), i / 9, i % 9)) by {
                if i < index {
                    assert(i / 9 != index as int / 9 || i % 9 != index as int % 9);
                    assert(get(grid_view(grid), i / 9, i % 9) == get(before, i / 9, i % 9));
                }
            }
        }
        index += 1;
    }
    proof {
        lemma_grid_view_shaped(grid);
    }
    Some(grid)
}

/// A board's fingerprint, read back and seeded anew, gives the cells that
/// the puzzle gave, with the same digits at the same places, and leaves
/// every other cell empty; so the new board has the same fingerprint.
pub proof fn law_fingerprint_round_trip(cells: Seq<CellModel>, g: GridModel)
    requires
        cells.len() == 81,
        forall|i: int| 0 <= i < 81 ==> (#[trigger] cells[i]).wf(),
        spells(fingerprint(cells), g),
    ensures
        forall|i: int|
            0 <= i < 81 ==> (#[trigger] seeded_cells(g)[i]).initial == cells[i].initial && (
            cells[i].initial ==> seeded_cells(g)[i].number == cells[i].number) && (!cells[i].initial
                ==> seeded_cells(g)[i] == CellModel::empty()),
        fingerprint(seeded_cells(g)) == fingerprint(cells),
{
    let again = seeded_cells(g);
    assert forall|i: int| 0 <= i < 81 implies (#[trigger] again[i]).initial == cells[i].initial && (
    cells[i].initial ==> again[i].number == cells[i].number) && (!cells[i].initial ==> again[i]
        == CellModel::empty()) && initial_digit(again[i]) == initial_digit(cells[i]) by {
        assert(cells[i].wf());
        let d = initial_digit(cells[i]);
        assert(fingerprint(cells)[i] == digit_char(d));
        assert(digit_value(fingerprint(cells)[i]) == Some(get(g, i / 9, i % 9)));
        assert(d <= 9);
        assert(get(g, i / 9, i % 9) == d);
    }
    assert(fingerprint(again) =~= fingerprint(cells));
}

} // verus!
