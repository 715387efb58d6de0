//! Puzzle generation: a randomized backtracking solver fills a grid, and
//! carving blanks cells for as long as the puzzle keeps a single solution.

use vstd::prelude::*;
use crate::grid::{
    after_draw, after_draws, at_most_two, blank_count, blank_off_diagonal, box_filled, carved, completes,
    completion_count, completion_count_with, consistent, diagonal_seed, differ, exchanged,
    extends, get, shuffle_picks, shuffled_by,
    grid_view, has_completion, has_two_completions, holds_each_digit_once, in_box, in_grid,
    on_diagonal, peers, placeable, same_unit, shaped, solved, unique_completion, with_cell, Grid,
    GridModel,
};
use crate::grid_lemmas::{
    lemma_blank_count_clear, lemma_blank_count_fill, lemma_carved_consistent,
    lemma_completions_of_consistent, lemma_completes_fill, lemma_count_with_all,
    lemma_count_with_bounded, lemma_count_with_none, lemma_count_with_placeable,
    lemma_count_with_unplaceable, lemma_full_grid, lemma_grid_ext, lemma_with_cell,
    lemma_with_cell_same, lemma_with_cell_twice,
};
use crate::random::{random_below, RANDOM_LIMIT};
use vstd::seq_lib::to_multiset_update;

verus! {

/// The model of any board has nine rows of nine cells.
pub proof fn lemma_grid_view_shaped(board: Grid)
    ensures
        shaped(grid_view(board)),
        forall|r: int, c: int| in_grid(r, c) ==> #[trigger] get(grid_view(board), r, c) == board[r][c],
{
}

/// Writes `value` into the cell in row `row` and column `col`.
fn put(board: &mut Grid, row: usize, col: usize, value: u8)
    requires
        row < 9,
        col < 9,
    ensures
        grid_view(*final(board)) == with_cell(grid_view(*old(board)), row as int, col as int, value),
{
    board[row][col] = value;
    proof {
        let g = grid_view(*old(board));
        lemma_grid_view_shaped(*old(board));
        lemma_grid_view_shaped(*board);
        lemma_with_cell(g, row as int, col as int, value);
        assert forall|r: int, c: int| in_grid(r, c) implies #[trigger] get(grid_view(*board), r, c)
            == get(with_cell(g, row as int, col as int, value), r, c) by {
            if r == row && c == col {
            } else {
                assert(get(with_cell(g, row as int, col as int, value), r, c) == get(g, r, c));
            }
        }
        lemma_grid_ext(grid_view(*board), with_cell(g, row as int, col as int, value));
    }
}

/// `(r1, c1)` comes before `(r2, c2)` when the grid is read row by row.
pub open spec fn before(r1: int, c1: int, r2: int, c2: int) -> bool {
    r1 < r2 || (r1 == r2 && c1 < c2)
}

/// Finds the first blank cell, reading the grid row by row, as `(row, column)`.
pub fn find_empty_cell(board: &Grid) -> (cell: Option<(usize, usize)>)
    ensures
        match cell {
            Some((row, col)) => in_grid(row as int, col as int) && get(
                grid_view(*board),
                row as int,
                col as int,
            ) == 0 && forall|r: int, c: int|
                in_grid(r, c) && before(r, c, row as int, col as int) ==> #[trigger] get(
                    grid_view(*board),
                    r,
                    c,
                ) != 0,
            None => forall|r: int, c: int|
                in_grid(r, c) ==> #[trigger] get(grid_view(*board), r, c) != 0,
        },
{
    proof {
        lemma_grid_view_shaped(*board);
    }
    let mut row: usize = 0;
    while row < 9
        invariant
            row <= 9,
            forall|r: int, c: int|
                in_grid(r, c) && r < row ==> #[trigger] get(grid_view(*board), r, c) != 0,
        decreases 9 - row,
    {
        let mut col: usize = 0;
        while col < 9
            invariant
                row < 9,
                col <= 9,
                forall|r: int, c: int|
                    in_grid(r, c) && before(r, c, row as int, col as int) ==> #[trigger] get(
                        grid_view(*board),
                        r,
                        c,
                    ) != 0,
            decreases 9 - col,
        {
            if board[row][col] == 0 {
                return Some((row, col));
            }
            col += 1;
        }
        row += 1;
    }
    None
}

/// Tells whether `value` is absent from the row, the column and the 3×3
/// box of the cell in row `row` and column `col`.
pub fn is_valid(board: &Grid, row: usize, col: usize, value: u8) -> (valid: bool)
    requires
        row < 9,
        col < 9,
    ensures
        valid == placeable(grid_view(*board), row as int, col as int, value),
{
    let ghost g = grid_view(*board);
    proof {
        lemma_grid_view_shaped(*board);
    }
    let mut i: usize = 0;
    while i < 9
        invariant
            i <= 9,
            row < 9,
            col < 9,
            g == grid_view(*board),
            forall|k: int| 0 <= k < i ==> #[trigger] get(g, row as int, k) != value,
            forall|k: int| 0 <= k < i ==> #[trigger] get(g, k, col as int) != value,
        decreases 9 - i,
    {
        if board[row][i] == value || board[i][col] == value {
            proof {
                if board[row as int][i as int] == value {
                    assert(same_unit(row as int, col as int, row as int, i as int));
                    assert(get(g, row as int, i as int) == value);
                } else {
                    assert(same_unit(row as int, col as int, i as int, col as int));
                    assert(get(g, i as int, col as int) == value);
                }
            }
            return false;
        }
        i += 1;
    }
    let subgrid_row: usize = 3 * (row / 3);
    let subgrid_col: usize = 3 * (col / 3);
    let mut i: usize = 0;
    while i < 3
        invariant
            i <= 3,
            row < 9,
            col < 9,
            subgrid_row == 3 * (row / 3),
            subgrid_col == 3 * (col / 3),
            g == grid_view(*board),
            forall|r2: int, c2: int|
                subgrid_row <= r2 < subgrid_row + i && subgrid_col <= c2 < subgrid_col + 3
                    ==> #[trigger] get(g, r2, c2) != value,
        decreases 3 - i,
    {
        let mut j: usize = 0;
        while j < 3
            invariant
                i < 3,
                j <= 3,
                row < 9,
                col < 9,
                subgrid_row == 3 * (row / 3),
                subgrid_col == 3 * (col / 3),
                g == grid_view(*board),
                forall|r2: int, c2: int|
                    subgrid_row <= r2 < subgrid_row + i && subgrid_col <= c2 < subgrid_col + 3
                        ==> #[trigger] get(g, r2, c2) != value,
                forall|c2: int|
                    subgrid_col <= c2 < subgrid_col + j ==> #[trigger] get(
                        g,
                        subgrid_row + i,
                        c2,
                    ) != value,
            decreases 3 - j,
        {
            if board[subgrid_row + i][subgrid_col + j] == value {
                proof {
                    assert(same_unit(row as int, col as int, subgrid_row + i, subgrid_col + j));
                    assert(get(g, subgrid_row + i, subgrid_col + j) == value);
                }
                return false;
            }
            j += 1;
        }
        i += 1;
    }
    proof {
        assert forall|r2: int, c2: int|
            in_grid(r2, c2) && same_unit(row as int, col as int, r2, c2) implies #[trigger] get(
            g,
            r2,
            c2,
        ) != value by {
            if r2 == row {
                assert(get(g, row as int, c2) != value);
            } else if c2 == col {
                assert(get(g, r2, col as int) != value);
            } else {
                assert(subgrid_row <= r2 < subgrid_row + 3 && subgrid_col <= c2 < subgrid_col + 3);
            }
        }
    }
    true
}

/// The digits one to nine in rising order.
pub open spec fn digits_in_order() -> Seq<u8> {
    seq![1u8, 2u8, 3u8, 4u8, 5u8, 6u8, 7u8, 8u8, 9u8]
}

/// A rearrangement of the digits one to nine holds each of them exactly once.
pub proof fn lemma_rearranged_digits(s: Seq<u8>)
    requires
        s.to_multiset() == digits_in_order().to_multiset(),
    ensures
        holds_each_digit_once(s),
        forall|i: int| 0 <= i < 9 ==> 1 <= #[trigger] s[i] <= 9,
{
    let d = digits_in_order();
    s.to_multiset_ensures();
    d.to_multiset_ensures();
    assert(d.no_duplicates());
    d.lemma_multiset_has_no_duplicates();
    s.lemma_multiset_has_no_duplicates_conv();
    assert forall|x: u8| 1 <= x <= 9 implies s.contains(x) by {
        assert(d[x - 1] == x);
        assert(d.contains(x));
        assert(d.to_multiset().count(x) > 0);
        assert(s.to_multiset().count(x) > 0);
    }
    assert forall|i: int| 0 <= i < 9 implies 1 <= #[trigger] s[i] <= 9 by {
        assert(s.contains(s[i]));
        assert(s.to_multiset().count(s[i]) > 0);
        assert(d.to_multiset().count(s[i]) > 0);
        assert(d.contains(s[i]));
    }
}

/// The digits one to nine in rising order.
fn digits() -> (values: Vec<u8>)
    ensures
        values@ == digits_in_order(),
{
    let values: Vec<u8> = vec![1, 2, 3, 4, 5, 6, 7, 8, 9];
    assert(values@ =~= digits_in_order());
    values
}

/// Rearranges `array` at random: each position from the last down to the
/// second is exchanged with a randomly drawn earlier position.
///
/// The result is what these exchanges make of the array, whatever was
/// drawn; it holds the same elements as before.
pub fn shuffle(array: &mut Vec<u8>)
    requires
        old(array).len() <= RANDOM_LIMIT,
    ensures
        exists|picks: Seq<int>|
            shuffle_picks(old(array)@.len() as int, picks) && final(array)@ == #[trigger] shuffled_by(
                old(array)@,
                picks,
            ),
        final(array)@.to_multiset() == old(array)@.to_multiset(),
{
    let ghost mut picks: Seq<int> = Seq::empty();
    let mut i: usize = array.len();
    while i >= 2
        invariant
            i <= array.len(),
            array.len() == old(array).len(),
            array.len() <= RANDOM_LIMIT,
            array@.to_multiset() == old(array)@.to_multiset(),
            picks.len() == array.len() - i,
            forall|k: int| 0 <= k < picks.len() ==> 0 <= #[trigger] picks[k] < array.len() - 1 - k,
            array@ == shuffled_by(old(array)@, picks),
        decreases i,
    {
        i -= 1;
        let j: usize = random_below(0, i);
        let upper: u8 = array[i];
        let lower: u8 = array[j];
        let ghost before = array@;
        let ghost drawn = picks;
        array[i] = lower;
        array[j] = upper;
        proof {
            broadcast use vstd::multiset::group_multiset_axioms;

            let middle = before.update(i as int, lower);
            to_multiset_update(before, i as int, lower);
            to_multiset_update(middle, j as int, upper);
            before.to_multiset_ensures();
            assert(before.contains(upper));
            assert(before.to_multiset().count(upper) > 0);
            assert(array@ == middle.update(j as int, upper));
            assert(array@.to_multiset() =~= before.to_multiset());
            picks = drawn.push(j as int);
            assert(picks.drop_last() =~= drawn);
            assert(array@ == exchanged(before, i as int, j as int));
        }
    }
    proof {
        assert(shuffle_picks(old(array)@.len() as int, picks));
    }
}

/// The digits tried so far grow by the next one, which is none of them.
proof fn lemma_next_digit(values: Seq<u8>, k: int)
    requires
        values.no_duplicates(),
        0 <= k < values.len(),
    ensures
        values.take(k + 1) == values.take(k).push(values[k]),
        !values.take(k).contains(values[k]),
{
    assert(values.take(k + 1) =~= values.take(k).push(values[k]));
    if values.take(k).contains(values[k]) {
        let j = choose|j: int| 0 <= j < values.take(k).len() && values.take(k)[j] == values[k];
        assert(values[j] == values[k]);
    }
}

/// Fills the blank cells of `board` by backtracking: the first blank cell,
/// read row by row, takes the digits one to nine in random order, each one
/// only where its row, column and box do not hold it yet.
///
/// Returns whether the grid can be completed. If it can, `board` holds a
/// completion; if it cannot, `board` is left as it was.
pub fn solve(board: &mut Grid) -> (found: bool)
    ensures
        found == has_completion(grid_view(*old(board))),
        found ==> completes(grid_view(*old(board)), grid_view(*final(board))),
        !found ==> grid_view(*final(board)) == grid_view(*old(board)),
    decreases blank_count(grid_view(*old(board))),
{
    let ghost g = grid_view(*board);
    proof {
        lemma_grid_view_shaped(*board);
    }
    if let Some((row, col)) = find_empty_cell(board) {
        let mut values = digits();
        shuffle(&mut values);
        proof {
            lemma_rearranged_digits(values@);
            lemma_count_with_none(g, row as int, col as int);
            assert(values@.take(0) =~= Seq::<u8>::empty());
        }
        let mut k: usize = 0;
        while k < values.len()
            invariant
                k <= values.len() == 9,
                holds_each_digit_once(values@),
                forall|i: int| 0 <= i < 9 ==> 1 <= #[trigger] values@[i] <= 9,
                row < 9,
                col < 9,
                g == grid_view(*old(board)),
                grid_view(*board) == g,
                shaped(g),
                get(g, row as int, col as int) == 0,
                completion_count_with(g, row as int, col as int, values@.take(k as int)) == 0,
            decreases 9 - k,
        {
            let value = values[k];
            proof {
                lemma_next_digit(values@, k as int);
            }
            if is_valid(board, row, col, value) {
                put(board, row, col, value);
                proof {
                    lemma_blank_count_fill(g, row as int, col as int, value);
                }
                if solve(board) {
                    proof {
                        lemma_completes_fill(g, row as int, col as int, value, grid_view(*board));
                    }
                    return true;
                }
                put(board, row, col, 0);
                proof {
                    lemma_with_cell_twice(g, row as int, col as int, value, 0);
                    lemma_with_cell_same(g, row as int, col as int);
                    lemma_count_with_placeable(
                        g,
                        row as int,
                        col as int,
                        values@.take(k as int),
                        value,
                    );
                }
            } else {
                proof {
                    lemma_count_with_unplaceable(
                        g,
                        row as int,
                        col as int,
                        values@.take(k as int),
                        value,
                    );
                }
            }
            k += 1;
        }
        proof {
            assert(values@.take(9) =~= values@);
            lemma_count_with_all(g, row as int, col as int, values@);
        }
        false
    } else {
        proof {
            lemma_full_grid(g);
        }
        true
    }
}

/// Counts the completions of `board` by the same backtracking search, and
/// stops as soon as the count reaches two.
///
/// While the count stays below two, `board` is left as it was; once it
/// reaches two, `board` keeps the cells that the search had filled.
fn solve_with_unique_solution(board: &mut Grid, solution_count: &mut usize)
    requires
        *old(solution_count) < 2,
    ensures
        *final(solution_count) == at_most_two(
            *old(solution_count) + completion_count(grid_view(*old(board))),
        ),
        *final(solution_count) < 2 ==> grid_view(*final(board)) == grid_view(*old(board)),
        extends(grid_view(*old(board)), grid_view(*final(board))),
    decreases blank_count(grid_view(*old(board))),
{
    let ghost g = grid_view(*board);
    let ghost start = *solution_count;
    proof {
        lemma_grid_view_shaped(*board);
    }
    if let Some((row, col)) = find_empty_cell(board) {
        let mut values = digits();
        shuffle(&mut values);
        proof {
            lemma_rearranged_digits(values@);
            lemma_count_with_none(g, row as int, col as int);
            assert(values@.take(0) =~= Seq::<u8>::empty());
        }
        let mut k: usize = 0;
        while k < values.len()
            invariant
                k <= values.len() == 9,
                holds_each_digit_once(values@),
                forall|i: int| 0 <= i < 9 ==> 1 <= #[trigger] values@[i] <= 9,
                row < 9,
                col < 9,
                g == grid_view(*old(board)),
                start == *old(solution_count),
                grid_view(*board) == g,
                shaped(g),
                get(g, row as int, col as int) == 0,
                *solution_count < 2,
                *solution_count == start + completion_count_with(
                    g,
                    row as int,
                    col as int,
                    values@.take(k as int),
                ),
            decreases 9 - k,
        {
            let value = values[k];
            proof {
                lemma_next_digit(values@, k as int);
                lemma_count_with_bounded(
                    g,
                    row as int,
                    col as int,
                    values@.take(k as int + 1),
                );
            }
            if is_valid(board, row, col, value) {
                put(board, row, col, value);
                proof {
                    lemma_blank_count_fill(g, row as int, col as int, value);
                    lemma_with_cell(g, row as int, col as int, value);
                    lemma_count_with_placeable(
                        g,
                        row as int,
                        col as int,
                        values@.take(k as int),
                        value,
                    );
                }
                if *solution_count < 2 {
                    solve_with_unique_solution(board, solution_count);
                    if *solution_count > 1 {
                        proof {
                            lemma_grid_view_shaped(*board);
                        }
                        return ;
                    }
                }
                put(board, row, col, 0);
                proof {
                    lemma_with_cell_twice(g, row as int, col as int, value, 0);
                    lemma_with_cell_same(g, row as int, col as int);
                }
            } else {
                proof {
                    lemma_count_with_unplaceable(
                        g,
                        row as int,
                        col as int,
                        values@.take(k as int),
                        value,
                    );
                }
            }
            k += 1;
        }
        proof {
            assert(values@.take(9) =~= values@);
            lemma_count_with_all(g, row as int, col as int, values@);
        }
    } else {
        proof {
            lemma_full_grid(g);
        }
        *solution_count += 1;
    }
}

/// Tells whether exactly one grid completes `board`.
///
/// `board` is the search's scratch space: it comes back as it was unless
/// two completions were found, and then it keeps the cells that the search
/// had filled.
pub fn has_unique_solution(board: &mut Grid) -> (unique: bool)
    ensures
        unique == unique_completion(grid_view(*old(board))),
        completion_count(grid_view(*old(board))) < 2 ==> grid_view(*final(board)) == grid_view(
            *old(board),
        ),
        extends(grid_view(*old(board)), grid_view(*final(board))),
{
    let mut solutions: usize = 0;
    solve_with_unique_solution(board, &mut solutions);
    solutions == 1
}

/// Fills the 3×3 box whose top left cell is `(row, col)` with the digits
/// one to nine in random order.
pub fn fill_subgrid(board: &mut Grid, row: usize, col: usize)
    requires
        row <= 6,
        col <= 6,
    ensures
        box_filled(grid_view(*final(board)), row as int, col as int),
        forall|r: int, c: int|
            in_grid(r, c) && !in_box(r, c, row as int, col as int) ==> #[trigger] get(
                grid_view(*final(board)),
                r,
                c,
            ) == get(grid_view(*old(board)), r, c),
{
    let mut values = digits();
    shuffle(&mut values);
    let ghost drawn = values@;
    let ghost g0 = grid_view(*board);
    proof {
        lemma_rearranged_digits(drawn);
        lemma_grid_view_shaped(*board);
        assert(drawn.take(9) =~= drawn);
    }
    let mut i: usize = 0;
    while i < 3
        invariant
            i <= 3,
            row <= 6,
            col <= 6,
            drawn.len() == 9,
            values@ == drawn.take(9 - 3 * i),
            shaped(grid_view(*board)),
            forall|r: int, c: int|
                in_grid(r, c) && !in_box(r, c, row as int, col as int) ==> #[trigger] get(
                    grid_view(*board),
                    r,
                    c,
                ) == get(g0, r, c),
            forall|r: int, c: int|
                in_box(r, c, row as int, col as int) && r < row + i ==> #[trigger] get(
                    grid_view(*board),
                    r,
                    c,
                ) == drawn[8 - (3 * (r - row) + (c - col))],
        decreases 3 - i,
    {
        let mut j: usize = 0;
        while j < 3
            invariant
                i < 3,
                j <= 3,
                row <= 6,
                col <= 6,
                drawn.len() == 9,
                values@ == drawn.take(9 - 3 * i - j),
                shaped(grid_view(*board)),
                forall|r: int, c: int|
                    in_grid(r, c) && !in_box(r, c, row as int, col as int) ==> #[trigger] get(
                        grid_view(*board),
                        r,
                        c,
                    ) == get(g0, r, c),
                forall|r: int, c: int|
                    in_box(r, c, row as int, col as int) && (r < row + i || (r == row + i && c < col
                        + j)) ==> #[trigger] get(grid_view(*board), r, c) == drawn[8 - (3 * (r
                        - row) + (c - col))],
            decreases 3 - j,
        {
            let ghost before = grid_view(*board);
            let value = values.pop().unwrap();
            put(board, row + i, col + j, value);
            proof {
                lemma_with_cell(before, row + i, col + j, value);
                assert(values@ =~= drawn.take(9 - 3 * i - (j + 1)));
            }
            j += 1;
        }
        i += 1;
    }
    proof {
        let g = grid_view(*board);
        assert forall|r: int, c: int| in_box(r, c, row as int, col as int) implies 1 <= #[trigger] get(
            g,
            r,
            c,
        ) <= 9 && forall|r2: int, c2: int|
            in_box(r2, c2, row as int, col as int) && (r2 != r || c2 != c) ==> #[trigger] get(
                g,
                r2,
                c2,
            ) != get(g, r, c) by {
            let n = 8 - (3 * (r - row) + (c - col));
            assert(get(g, r, c) == drawn[n]);
            assert forall|r2: int, c2: int|
                in_box(r2, c2, row as int, col as int) && (r2 != r || c2 != c) implies #[trigger] get(
                g,
                r2,
                c2,
            ) != get(g, r, c) by {
                let m = 8 - (3 * (r2 - row) + (c2 - col));
                assert(get(g, r2, c2) == drawn[m]);
                assert(m != n);
            }
        }
    }
}

/// Fills the three boxes on the main diagonal, each with the digits one to
/// nine in random order. No two of these boxes share a row or a column.
pub fn fill_diagonal(board: &mut Grid)
    ensures
        box_filled(grid_view(*final(board)), 0, 0),
        box_filled(grid_view(*final(board)), 3, 3),
        box_filled(grid_view(*final(board)), 6, 6),
        forall|r: int, c: int|
            in_grid(r, c) && !on_diagonal(r, c) ==> #[trigger] get(grid_view(*final(board)), r, c)
                == get(grid_view(*old(board)), r, c),
{
    let ghost g0 = grid_view(*board);
    let mut i: usize = 0;
    while i < 9
        invariant
            i == 0 || i == 3 || i == 6 || i == 9,
            i > 0 ==> box_filled(grid_view(*board), 0, 0),
            i > 3 ==> box_filled(grid_view(*board), 3, 3),
            i > 6 ==> box_filled(grid_view(*board), 6, 6),
            forall|r: int, c: int|
                in_grid(r, c) && !on_diagonal(r, c) ==> #[trigger] get(grid_view(*board), r, c)
                    == get(g0, r, c),
        decreases 9 - i,
    {
        let ghost before = grid_view(*board);
        fill_subgrid(board, i, i);
        proof {
            let after = grid_view(*board);
            assert forall|r: int, c: int| in_grid(r, c) && !on_diagonal(r, c) implies #[trigger] get(
                after,
                r,
                c,
            ) == get(g0, r, c) by {
                assert(!in_box(r, c, i as int, i as int));
                assert(get(after, r, c) == get(before, r, c));
            }
            if i > 0 {
                lemma_box_kept(before, after, 0, 0);
            }
            if i > 3 {
                lemma_box_kept(before, after, 3, 3);
            }
        }
        i += 3;
    }
}

/// A box that holds nine different digits still does so in a grid that
/// holds the same cells in that box.
proof fn lemma_box_kept(g: GridModel, h: GridModel, row: int, col: int)
    requires
        box_filled(g, row, col),
        forall|r: int, c: int| in_box(r, c, row, col) ==> #[trigger] get(h, r, c) == get(g, r, c),
    ensures
        box_filled(h, row, col),
{
    assert forall|r: int, c: int| in_box(r, c, row, col) implies 1 <= #[trigger] get(h, r, c) <= 9
        && forall|r2: int, c2: int|
        in_box(r2, c2, row, col) && (r2 != r || c2 != c) ==> #[trigger] get(h, r2, c2) != get(
            h,
            r,
            c,
        ) by {
        assert(get(h, r, c) == get(g, r, c));
        assert forall|r2: int, c2: int|
            in_box(r2, c2, row, col) && (r2 != r || c2 != c) implies #[trigger] get(h, r2, c2)
            != get(h, r, c) by {
            assert(get(h, r2, c2) == get(g, r2, c2));
            assert(get(g, r2, c2) != get(g, r, c));
        }
    }
}

/// A grid whose diagonal boxes each hold nine different digits, and whose
/// other cells are blank, is consistent.
pub proof fn lemma_seed_consistent(g: GridModel)
    requires
        shaped(g),
        box_filled(g, 0, 0),
        box_filled(g, 3, 3),
        box_filled(g, 6, 6),
        blank_off_diagonal(g),
    ensures
        consistent(g),
{
    assert forall|r: int, c: int| in_grid(r, c) implies #[trigger] get(g, r, c) <= 9 && (get(
        g,
        r,
        c,
    ) == 0 || forall|r2: int, c2: int|
        in_grid(r2, c2) && peers(r, c, r2, c2) ==> #[trigger] get(g, r2, c2) != get(g, r, c)) by {
        if on_diagonal(r, c) {
            let b = 3 * (r / 3);
            assert(in_box(r, c, b, b));
            assert(b == 0 || b == 3 || b == 6);
            assert(1 <= get(g, r, c) <= 9);
            assert forall|r2: int, c2: int| in_grid(r2, c2) && peers(r, c, r2, c2) implies #[trigger] get(
                g,
                r2,
                c2,
            ) != get(g, r, c) by {
                if on_diagonal(r2, c2) {
                    assert(in_box(r2, c2, b, b));
                } else {
                    assert(get(g, r2, c2) == 0);
                }
            }
        } else {
            assert(get(g, r, c) == 0);
        }
    }
}

/// `g` is what generating can make of `start`: the diagonal boxes each
/// hold nine different digits; where the grid with these boxes and the
/// other cells of `start` has a completion, `g` is one, and where it has
/// none, `g` is that grid.
pub open spec fn generated(start: GridModel, g: GridModel) -> bool {
    &&& box_filled(g, 0, 0)
    &&& box_filled(g, 3, 3)
    &&& box_filled(g, 6, 6)
    &&& has_completion(diagonal_seed(start, g)) ==> completes(diagonal_seed(start, g), g)
    &&& !has_completion(diagonal_seed(start, g)) ==> g == diagonal_seed(start, g)
}

/// Produces a grid for a new puzzle: the three diagonal boxes are filled at
/// random, and [`solve`] fills the rest.
///
/// The grid that `solve` starts from holds the new diagonal boxes and,
/// outside them, what `board` held before. If that grid can be completed,
/// `board` holds a completion of it; if it cannot, `board` holds that grid.
/// Starting from a board that is blank outside the diagonal boxes, a
/// completion is a solved grid.
pub fn generate_board(board: &mut Grid)
    ensures
        box_filled(grid_view(*final(board)), 0, 0),
        box_filled(grid_view(*final(board)), 3, 3),
        box_filled(grid_view(*final(board)), 6, 6),
        has_completion(diagonal_seed(grid_view(*old(board)), grid_view(*final(board))))
            ==> completes(
            diagonal_seed(grid_view(*old(board)), grid_view(*final(board))),
            grid_view(*final(board)),
        ),
        !has_completion(diagonal_seed(grid_view(*old(board)), grid_view(*final(board))))
            ==> grid_view(*final(board)) == diagonal_seed(
            grid_view(*old(board)),
            grid_view(*final(board)),
        ),
        blank_off_diagonal(grid_view(*old(board))) && has_completion(
            diagonal_seed(grid_view(*old(board)), grid_view(*final(board))),
        ) ==> solved(grid_view(*final(board))),
{
    let ghost g0 = grid_view(*board);
    fill_diagonal(board);
    let ghost seed = grid_view(*board);
    solve(board);
    proof {
        let last = grid_view(*board);
        lemma_grid_view_shaped(*old(board));
        lemma_grid_view_shaped(*board);
        assert(shaped(seed));
        assert forall|r: int, c: int| in_grid(r, c) && on_diagonal(r, c) implies #[trigger] get(
            seed,
            r,
            c,
        ) != 0 by {
            let b = 3 * (r / 3);
            assert(in_box(r, c, b, b));
            assert(b == 0 || b == 3 || b == 6);
        }
        assert forall|r: int, c: int| in_grid(r, c) implies #[trigger] get(
            diagonal_seed(g0, last),
            r,
            c,
        ) == get(seed, r, c) by {
            if on_diagonal(r, c) {
                assert(get(last, r, c) == get(seed, r, c));
            }
        }
        lemma_grid_ext(diagonal_seed(g0, last), seed);
        lemma_box_kept(seed, last, 0, 0);
        lemma_box_kept(seed, last, 3, 3);
        lemma_box_kept(seed, last, 6, 6);
        if blank_off_diagonal(g0) && has_completion(seed) {
            lemma_seed_consistent(seed);
            lemma_completions_of_consistent(seed, last);
        }
    }
}

/// The largest number of cells that [`create_puzzle`] tries to blank
/// before it gives up.
pub const MAX_CARVING_ATTEMPTS: usize = 100_000;

/// The number of cells to blank at each difficulty: 35 at the first (easy),
/// 45 at the second (medium) and 50 at the third (hard).
pub open spec fn removal_target(difficulty: u8) -> int {
    if difficulty == 1 {
        35
    } else if difficulty == 2 {
        45
    } else {
        50
    }
}

/// Blanks the cell in row `row` and column `col` if it is filled and the
/// grid without it has exactly one completion; otherwise leaves the grid
/// as it is. Returns whether the cell was blanked.
pub fn try_remove_cell(board: &mut Grid, row: usize, col: usize) -> (removed: bool)
    requires
        row < 9,
        col < 9,
    ensures
        removed == (get(grid_view(*old(board)), row as int, col as int) != 0 && unique_completion(
            with_cell(grid_view(*old(board)), row as int, col as int, 0),
        )),
        removed ==> grid_view(*final(board)) == with_cell(
            grid_view(*old(board)),
            row as int,
            col as int,
            0,
        ),
        !removed ==> grid_view(*final(board)) == grid_view(*old(board)),
{
    let ghost g = grid_view(*board);
    proof {
        lemma_grid_view_shaped(*board);
    }
    if board[row][col] != 0 {
        let backup = board[row][col];
        put(board, row, col, 0);
        let mut temp_board = *board;
        if has_unique_solution(&mut temp_board) {
            true
        } else {
            put(board, row, col, backup);
            proof {
                lemma_with_cell_twice(g, row as int, col as int, 0, backup);
                lemma_with_cell_same(g, row as int, col as int);
            }
            false
        }
    } else {
        false
    }
}

/// Carving that drew the cells `draws` has turned `g` into `h`, and
/// `reached` tells whether `target` cells were carved out: no more than
/// [`MAX_CARVING_ATTEMPTS`] cells were drawn, each drawn cell was blanked
/// where it could be carved out, no cell was drawn once the target was
/// reached, and drawing stopped short of the target only at the limit.
pub open spec fn carving(
    g: GridModel,
    target: int,
    draws: Seq<(int, int)>,
    h: GridModel,
    reached: bool,
) -> bool {
    &&& draws.len() <= MAX_CARVING_ATTEMPTS
    &&& forall|k: int| 0 <= k < draws.len() ==> in_grid((#[trigger] draws[k]).0, draws[k].1)
    &&& h == after_draws(g, draws)
    &&& forall|k: int|
        0 <= k < draws.len() ==> blank_count(#[trigger] after_draws(g, draws.take(k)))
            < blank_count(g) + target
    &&& blank_count(h) <= blank_count(g) + target
    &&& reached == (blank_count(h) == blank_count(g) + target)
    &&& !reached ==> draws.len() == MAX_CARVING_ATTEMPTS
}

/// Turns a filled grid into a puzzle: cells drawn at random are blanked,
/// each one only if the grid keeps exactly one completion without it,
/// until as many cells are blank as the difficulty asks for.
///
/// Returns whether that number was reached within
/// [`MAX_CARVING_ATTEMPTS`] draws. The grid that is left is the one that
/// the drawn cells make of the grid that was given. Whatever was drawn,
/// each cell holds what it held or is blank, and a grid that lost a cell
/// has exactly one completion.
pub fn create_puzzle(board: &mut Grid, difficulty: u8) -> (reached: bool)
    requires
        1 <= difficulty <= 3,
    ensures
        exists|draws: Seq<(int, int)>| #[trigger]
            carving(
                grid_view(*old(board)),
                removal_target(difficulty),
                draws,
                grid_view(*final(board)),
                reached,
            ),
        carved(grid_view(*old(board)), grid_view(*final(board))),
        blank_count(grid_view(*final(board))) <= blank_count(grid_view(*old(board)))
            + removal_target(difficulty),
        reached == (blank_count(grid_view(*final(board))) == blank_count(grid_view(*old(board)))
            + removal_target(difficulty)),
        blank_count(grid_view(*final(board))) > blank_count(grid_view(*old(board)))
            ==> unique_completion(grid_view(*final(board))),
{
    let num_cells_to_remove: usize = if difficulty == 1 {
        35
    } else if difficulty == 2 {
        45
    } else {
        50
    };
    let ghost g0 = grid_view(*board);
    let ghost mut draws: Seq<(int, int)> = Seq::empty();
    proof {
        lemma_grid_view_shaped(*board);
    }
    let mut cells_removed: usize = 0;
    let mut attempts: usize = 0;
    while cells_removed < num_cells_to_remove && attempts < MAX_CARVING_ATTEMPTS
        invariant
            num_cells_to_remove == removal_target(difficulty),
            cells_removed <= num_cells_to_remove,
            attempts <= MAX_CARVING_ATTEMPTS,
            carved(g0, grid_view(*board)),
            blank_count(grid_view(*board)) == blank_count(g0) + cells_removed,
            cells_removed > 0 ==> unique_completion(grid_view(*board)),
            draws.len() == attempts,
            forall|k: int| 0 <= k < draws.len() ==> in_grid((#[trigger] draws[k]).0, draws[k].1),
            grid_view(*board) == after_draws(g0, draws),
            forall|k: int|
                0 <= k < draws.len() ==> blank_count(#[trigger] after_draws(g0, draws.take(k)))
                    < blank_count(g0) + num_cells_to_remove,
        decreases MAX_CARVING_ATTEMPTS - attempts,
    {
        let row = random_below(0, 9);
        let col = random_below(0, 9);
        let ghost before = grid_view(*board);
        let ghost drawn = draws;
        if try_remove_cell(board, row, col) {
            proof {
                lemma_with_cell(before, row as int, col as int, 0);
                lemma_blank_count_clear(before, row as int, col as int);
                assert forall|r: int, c: int| in_grid(r, c) implies #[trigger] get(
                    grid_view(*board),
                    r,
                    c,
                ) == get(g0, r, c) || get(grid_view(*board), r, c) == 0 by {
                    if r != row || c != col {
                        assert(get(grid_view(*board), r, c) == get(before, r, c));
                    }
                }
            }
            cells_removed += 1;
        }
        proof {
            draws = drawn.push((row as int, col as int));
            assert(draws.drop_last() =~= drawn);
            assert(grid_view(*board) == after_draw(before, row as int, col as int));
            assert forall|k: int| 0 <= k < draws.len() implies blank_count(
                #[trigger] after_draws(g0, draws.take(k)),
            ) < blank_count(g0) + num_cells_to_remove by {
                if k < drawn.len() {
                    assert(draws.take(k) =~= drawn.take(k));
                } else {
                    assert(draws.take(k) =~= drawn);
                }
            }
        }
        attempts += 1;
    }
    proof {
        assert(carving(
            g0,
            removal_target(difficulty),
            draws,
            grid_view(*board),
            cells_removed == num_cells_to_remove,
        ));
    }
    cells_removed == num_cells_to_remove
}

/// A puzzle that was carved from a solved grid and has exactly one
/// completion has that grid as its only solution.
pub proof fn law_carved_puzzle_has_one_solution(full: GridModel, puzzle: GridModel, s: GridModel)
    requires
        solved(full),
        carved(full, puzzle),
        unique_completion(puzzle),
        solved(s),
        extends(puzzle, s),
    ensures
        completes(puzzle, full),
        s == full,
{
    lemma_carved_consistent(full, puzzle);
    assert(extends(puzzle, full));
    lemma_completions_of_consistent(puzzle, full);
    lemma_completions_of_consistent(puzzle, s);
    if s != full {
        if !differ(s, full) {
            lemma_grid_ext(s, full);
        }
        assert(has_two_completions(puzzle));
    }
}

} // verus!
