//! The mathematical model of a 9×9 grid of digits, and what it means to
//! complete one.
//!
//! A grid is modelled as nine rows of nine cells. A cell holds `0` when it
//! is blank and a digit `1..=9` otherwise.

use vstd::prelude::*;

verus! {

/// A 9×9 grid as the generator and the solver hold it.
pub type Grid = [[u8; 9]; 9];

/// The model of a grid: a sequence of nine rows, each a sequence of nine cells.
pub type GridModel = Seq<Seq<u8>>;

/// The model of `board`.
pub open spec fn grid_view(board: Grid) -> GridModel {
    Seq::new(9, |r: int| board[r]@)
}

/// The cell in row `r` and column `c`.
pub open spec fn get(g: GridModel, r: int, c: int) -> u8 {
    g[r][c]
}

/// `g` with the cell in row `r` and column `c` replaced by `v`.
pub open spec fn with_cell(g: GridModel, r: int, c: int, v: u8) -> GridModel {
    g.update(r, g[r].update(c, v))
}

/// `(r, c)` names a cell of the grid.
pub open spec fn in_grid(r: int, c: int) -> bool {
    0 <= r < 9 && 0 <= c < 9
}

/// `g` has nine rows of nine cells.
pub open spec fn shaped(g: GridModel) -> bool {
    g.len() == 9 && forall|r: int| 0 <= r < 9 ==> (#[trigger] g[r]).len() == 9
}

/// The two cells lie in one row, one column or one 3×3 box.
pub open spec fn same_unit(r1: int, c1: int, r2: int, c2: int) -> bool {
    r1 == r2 || c1 == c2 || (r1 / 3 == r2 / 3 && c1 / 3 == c2 / 3)
}

/// The two cells are different cells of one row, column or box.
pub open spec fn peers(r1: int, c1: int, r2: int, c2: int) -> bool {
    (r1 != r2 || c1 != c2) && same_unit(r1, c1, r2, c2)
}

/// No cell in the row, the column or the box of `(r, c)` holds `v`.
pub open spec fn placeable(g: GridModel, r: int, c: int, v: u8) -> bool {
    forall|r2: int, c2: int|
        in_grid(r2, c2) && same_unit(r, c, r2, c2) ==> #[trigger] get(g, r2, c2) != v
}

/// The cell `(r, c)` holds a digit that none of its peers holds.
pub open spec fn fits(g: GridModel, r: int, c: int) -> bool {
    1 <= get(g, r, c) <= 9 && forall|r2: int, c2: int|
        in_grid(r2, c2) && peers(r, c, r2, c2) ==> #[trigger] get(g, r2, c2) != get(g, r, c)
}

/// Every cell holds a digit and no row, column or box holds a digit twice.
pub open spec fn solved(s: GridModel) -> bool {
    shaped(s) && forall|r: int, c: int| in_grid(r, c) ==> #[trigger] fits(s, r, c)
}

/// Every cell is blank or a digit, and no two filled peers hold the same digit.
pub open spec fn consistent(g: GridModel) -> bool {
    shaped(g) && forall|r: int, c: int|
        in_grid(r, c) ==> #[trigger] get(g, r, c) <= 9 && (get(g, r, c) == 0 || forall|
            r2: int,
            c2: int,
        |
            in_grid(r2, c2) && peers(r, c, r2, c2) ==> #[trigger] get(g, r2, c2) != get(g, r, c))
}

/// `s` keeps every filled cell of `g`.
pub open spec fn extends(g: GridModel, s: GridModel) -> bool {
    shaped(s) && forall|r: int, c: int|
        in_grid(r, c) && get(g, r, c) != 0 ==> #[trigger] get(s, r, c) == get(g, r, c)
}

/// `s` completes `g`: it keeps every filled cell of `g` and gives every
/// blank cell of `g` a digit that none of that cell's peers holds in `s`.
///
/// For a consistent `g` these are exactly the solved grids that extend `g`
/// (see [`lemma_completions_of_consistent`]).
pub open spec fn completes(g: GridModel, s: GridModel) -> bool {
    extends(g, s) && forall|r: int, c: int|
        in_grid(r, c) && get(g, r, c) == 0 ==> #[trigger] fits(s, r, c)
}

/// The two grids hold different values in some cell.
pub open spec fn differ(s1: GridModel, s2: GridModel) -> bool {
    exists|r: int, c: int| in_grid(r, c) && #[trigger] get(s1, r, c) != get(s2, r, c)
}

/// Some grid completes `g`.
pub open spec fn has_completion(g: GridModel) -> bool {
    exists|s: GridModel| completes(g, s)
}

/// Two different grids complete `g`.
pub open spec fn has_two_completions(g: GridModel) -> bool {
    exists|s1: GridModel, s2: GridModel|
        #![trigger completes(g, s1), completes(g, s2)]
        completes(g, s1) && completes(g, s2) && differ(s1, s2)
}

/// Exactly one grid completes `g`.
pub open spec fn unique_completion(g: GridModel) -> bool {
    has_completion(g) && !has_two_completions(g)
}

/// The number of grids that complete `g`, counted no further than two.
pub open spec fn completion_count(g: GridModel) -> nat {
    if has_two_completions(g) {
        2
    } else if has_completion(g) {
        1
    } else {
        0
    }
}

/// `s` completes `g` and holds one of `digits` in the cell `(r, c)`.
pub open spec fn completes_with(g: GridModel, r: int, c: int, digits: Seq<u8>, s: GridModel) -> bool {
    completes(g, s) && digits.contains(get(s, r, c))
}

/// Some completion of `g` holds one of `digits` in the cell `(r, c)`.
pub open spec fn has_completion_with(g: GridModel, r: int, c: int, digits: Seq<u8>) -> bool {
    exists|s: GridModel| completes_with(g, r, c, digits, s)
}

/// Two different completions of `g` hold one of `digits` in the cell `(r, c)`.
pub open spec fn has_two_completions_with(g: GridModel, r: int, c: int, digits: Seq<u8>) -> bool {
    exists|s1: GridModel, s2: GridModel|
        #![trigger completes_with(g, r, c, digits, s1), completes_with(g, r, c, digits, s2)]
        completes_with(g, r, c, digits, s1) && completes_with(g, r, c, digits, s2) && differ(
            s1,
            s2,
        )
}

/// The number of completions of `g` that hold one of `digits` in the cell
/// `(r, c)`, counted no further than two.
pub open spec fn completion_count_with(g: GridModel, r: int, c: int, digits: Seq<u8>) -> nat {
    if has_two_completions_with(g, r, c, digits) {
        2
    } else if has_completion_with(g, r, c, digits) {
        1
    } else {
        0
    }
}

/// `n`, counted no further than two.
pub open spec fn at_most_two(n: int) -> int {
    if n >= 2 {
        2
    } else {
        n
    }
}

/// The number of blank cells among the first `n` cells in row-major order.
pub open spec fn blanks_before(g: GridModel, n: int) -> nat
    decreases n,
{
    if n <= 0 {
        0
    } else {
        blanks_before(g, n - 1) + if get(g, (n - 1) / 9, (n - 1) % 9) == 0 {
            1nat
        } else {
            0nat
        }
    }
}

/// The number of blank cells of `g`.
pub open spec fn blank_count(g: GridModel) -> nat {
    blanks_before(g, 81)
}

/// `(r, c)` lies in the 3×3 box whose top left cell is `(row, col)`.
pub open spec fn in_box(r: int, c: int, row: int, col: int) -> bool {
    row <= r < row + 3 && col <= c < col + 3
}

/// The 3×3 box whose top left cell is `(row, col)` holds nine different digits.
pub open spec fn box_filled(g: GridModel, row: int, col: int) -> bool {
    forall|r: int, c: int|
        in_box(r, c, row, col) ==> 1 <= #[trigger] get(g, r, c) <= 9 && forall|r2: int, c2: int|
            in_box(r2, c2, row, col) && (r2 != r || c2 != c) ==> #[trigger] get(g, r2, c2) != get(
                g,
                r,
                c,
            )
}

/// `(r, c)` lies in one of the three boxes on the main diagonal.
pub open spec fn on_diagonal(r: int, c: int) -> bool {
    r / 3 == c / 3
}

/// Every cell outside the three diagonal boxes is blank.
pub open spec fn blank_off_diagonal(g: GridModel) -> bool {
    forall|r: int, c: int| in_grid(r, c) && !on_diagonal(r, c) ==> #[trigger] get(g, r, c) == 0
}

/// The grid that holds the diagonal boxes of `filled` and, everywhere
/// else, the cells of `rest`.
pub open spec fn diagonal_seed(rest: GridModel, filled: GridModel) -> GridModel {
    Seq::new(
        9,
        |r: int|
            Seq::new(
                9,
                |c: int|
                    if on_diagonal(r, c) {
                        get(filled, r, c)
                    } else {
                        get(rest, r, c)
                    },
            ),
    )
}

/// Every cell of `h` holds what it holds in `g`, or is blank.
pub open spec fn carved(g: GridModel, h: GridModel) -> bool {
    shaped(h) && forall|r: int, c: int|
        in_grid(r, c) ==> #[trigger] get(h, r, c) == get(g, r, c) || get(h, r, c) == 0
}

/// The digits of row `k`, from left to right.
pub open spec fn row_digits(s: GridModel, k: int) -> Seq<u8> {
    Seq::new(9, |c: int| get(s, k, c))
}

/// The digits of column `k`, from top to bottom.
pub open spec fn column_digits(s: GridModel, k: int) -> Seq<u8> {
    Seq::new(9, |r: int| get(s, r, k))
}

/// The digits of box `k`, row by row; the boxes are numbered row by row too.
pub open spec fn box_digits(s: GridModel, k: int) -> Seq<u8> {
    Seq::new(9, |i: int| get(s, 3 * (k / 3) + i / 3, 3 * (k % 3) + i % 3))
}

/// `digits` holds each of the digits one to nine exactly once.
pub open spec fn holds_each_digit_once(digits: Seq<u8>) -> bool {
    digits.len() == 9 && digits.no_duplicates() && forall|d: u8|
        1 <= d <= 9 ==> digits.contains(d)
}

/// The cell `(r, c)` can be carved out of `g`: it is filled, and `g`
/// without it has exactly one completion.
pub open spec fn removable(g: GridModel, r: int, c: int) -> bool {
    get(g, r, c) != 0 && unique_completion(with_cell(g, r, c, 0))
}

/// `g` after carving has drawn the cell `(r, c)`: the cell is blanked if
/// it can be carved out, and nothing changes if it cannot.
pub open spec fn after_draw(g: GridModel, r: int, c: int) -> GridModel {
    if removable(g, r, c) {
        with_cell(g, r, c, 0)
    } else {
        g
    }
}

/// `g` after carving has drawn the cells `draws`, each given as
/// `(row, column)`, one after the other.
pub open spec fn after_draws(g: GridModel, draws: Seq<(int, int)>) -> GridModel
    decreases draws.len(),
{
    if draws.len() == 0 {
        g
    } else {
        after_draw(after_draws(g, draws.drop_last()), draws.last().0, draws.last().1)
    }
}

/// `s` with the elements at the positions `i` and `j` exchanged.
pub open spec fn exchanged(s: Seq<u8>, i: int, j: int) -> Seq<u8> {
    s.update(i, s[j]).update(j, s[i])
}

/// `s` after a shuffle that drew `picks`: the first pick is exchanged with
/// the last position, the next one with the position before it, and so on
/// downwards.
pub open spec fn shuffled_by(s: Seq<u8>, picks: Seq<int>) -> Seq<u8>
    decreases picks.len(),
{
    if picks.len() == 0 {
        s
    } else {
        exchanged(shuffled_by(s, picks.drop_last()), s.len() - picks.len(), picks.last())
    }
}

/// `picks` can be the draws of a shuffle of `len` elements: there is one
/// for each position but the first, and each lies before the position
/// that it is exchanged with.
pub open spec fn shuffle_picks(len: int, picks: Seq<int>) -> bool {
    picks.len() == (if len >= 1 {
        len - 1
    } else {
        0
    }) && forall|k: int| 0 <= k < picks.len() ==> 0 <= #[trigger] picks[k] < len - 1 - k
}

} // verus!
