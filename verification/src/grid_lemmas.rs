//! Facts about grids and their completions on which the solver's proofs rest.

use vstd::prelude::*;
use vstd::set_lib::{lemma_int_range, lemma_len_subset, set_int_range};
use crate::grid::{
    at_most_two, blank_count, blanks_before, box_digits, carved, column_digits, completes,
    completes_with, completion_count, completion_count_with, consistent, differ, extends, fits,
    get, has_completion, has_completion_with, has_two_completions, has_two_completions_with,
    holds_each_digit_once, in_grid, peers, placeable, row_digits, same_unit, shaped, solved,
    with_cell, GridModel,
};

verus! {

/// Replacing one cell changes that cell and no other.
pub proof fn lemma_with_cell(g: GridModel, r: int, c: int, v: u8)
    requires
        shaped(g),
        in_grid(r, c),
    ensures
        shaped(with_cell(g, r, c, v)),
        get(with_cell(g, r, c, v), r, c) == v,
        forall|r2: int, c2: int|
            in_grid(r2, c2) && (r2 != r || c2 != c) ==> #[trigger] get(
                with_cell(g, r, c, v),
                r2,
                c2,
            ) == get(g, r2, c2),
{
    let h = with_cell(g, r, c, v);
    assert forall|r2: int| 0 <= r2 < 9 implies (#[trigger] h[r2]).len() == 9 by {
        assert(g[r2].len() == 9);
    }
    assert forall|r2: int, c2: int| in_grid(r2, c2) && (r2 != r || c2 != c) implies #[trigger] get(
        h,
        r2,
        c2,
    ) == get(g, r2, c2) by {
        assert(g[r2].len() == 9);
    }
    assert(g[r].len() == 9);
}

/// Two shaped grids that agree in every cell are the same grid.
pub proof fn lemma_grid_ext(g: GridModel, h: GridModel)
    requires
        shaped(g),
        shaped(h),
        forall|r: int, c: int| in_grid(r, c) ==> #[trigger] get(g, r, c) == get(h, r, c),
    ensures
        g == h,
{
    assert forall|r: int| 0 <= r < 9 implies #[trigger] g[r] == h[r] by {
        assert(g[r].len() == 9);
        assert(h[r].len() == 9);
        assert forall|c: int| 0 <= c < 9 implies g[r][c] == h[r][c] by {
            assert(get(g, r, c) == get(h, r, c));
        }
        assert(g[r] =~= h[r]);
    }
    assert(g =~= h);
}

/// Writing back the value a cell holds leaves the grid as it is.
pub proof fn lemma_with_cell_same(g: GridModel, r: int, c: int)
    requires
        shaped(g),
        in_grid(r, c),
    ensures
        with_cell(g, r, c, get(g, r, c)) == g,
{
    lemma_with_cell(g, r, c, get(g, r, c));
    lemma_grid_ext(with_cell(g, r, c, get(g, r, c)), g);
}

/// Writing a cell twice is writing it once.
pub proof fn lemma_with_cell_twice(g: GridModel, r: int, c: int, v: u8, w: u8)
    requires
        shaped(g),
        in_grid(r, c),
    ensures
        with_cell(with_cell(g, r, c, v), r, c, w) == with_cell(g, r, c, w),
{
    lemma_with_cell(g, r, c, v);
    lemma_with_cell(g, r, c, w);
    lemma_with_cell(with_cell(g, r, c, v), r, c, w);
    lemma_grid_ext(with_cell(with_cell(g, r, c, v), r, c, w), with_cell(g, r, c, w));
}

/// A completion of `g` with a placeable digit written into a blank cell
/// completes `g` and holds that digit there.
pub proof fn lemma_completes_fill(g: GridModel, r: int, c: int, v: u8, s: GridModel)
    requires
        shaped(g),
        in_grid(r, c),
        get(g, r, c) == 0,
        1 <= v <= 9,
        placeable(g, r, c, v),
        completes(with_cell(g, r, c, v), s),
    ensures
        completes(g, s),
        get(s, r, c) == v,
{
    let h = with_cell(g, r, c, v);
    lemma_with_cell(g, r, c, v);
    assert(get(h, r, c) == v);
    assert(get(s, r, c) == v);
    assert forall|r1: int, c1: int| in_grid(r1, c1) && get(g, r1, c1) == 0 implies #[trigger] fits(
        s,
        r1,
        c1,
    ) by {
        if r1 == r && c1 == c {
            assert forall|r2: int, c2: int| in_grid(r2, c2) && peers(r, c, r2, c2) implies #[trigger] get(
                s,
                r2,
                c2,
            ) != get(s, r, c) by {
                assert(get(h, r2, c2) == get(g, r2, c2));
                if get(g, r2, c2) != 0 {
                    assert(get(s, r2, c2) == get(h, r2, c2));
                    assert(get(g, r2, c2) != v);
                } else {
                    assert(fits(s, r2, c2));
                    assert(peers(r2, c2, r, c));
                }
            }
        } else {
            assert(get(h, r1, c1) == get(g, r1, c1));
        }
    }
    assert forall|r1: int, c1: int| in_grid(r1, c1) && get(g, r1, c1) != 0 implies #[trigger] get(
        s,
        r1,
        c1,
    ) == get(g, r1, c1) by {
        assert(get(h, r1, c1) == get(g, r1, c1));
    }
}

/// A completion of `g` holds, in each blank cell of `g`, a digit that is
/// placeable there, and completes `g` with that digit written in.
pub proof fn lemma_completes_restrict(g: GridModel, r: int, c: int, s: GridModel)
    requires
        shaped(g),
        in_grid(r, c),
        get(g, r, c) == 0,
        completes(g, s),
    ensures
        1 <= get(s, r, c) <= 9,
        placeable(g, r, c, get(s, r, c)),
        completes(with_cell(g, r, c, get(s, r, c)), s),
{
    let v = get(s, r, c);
    let h = with_cell(g, r, c, v);
    lemma_with_cell(g, r, c, v);
    assert(fits(s, r, c));
    assert forall|r2: int, c2: int| in_grid(r2, c2) && same_unit(r, c, r2, c2) implies #[trigger] get(
        g,
        r2,
        c2,
    ) != v by {
        if r2 == r && c2 == c {
        } else {
            assert(peers(r, c, r2, c2));
            assert(get(s, r2, c2) != get(s, r, c));
            if get(g, r2, c2) != 0 {
                assert(get(s, r2, c2) == get(g, r2, c2));
            }
        }
    }
    assert forall|r1: int, c1: int| in_grid(r1, c1) && get(h, r1, c1) != 0 implies #[trigger] get(
        s,
        r1,
        c1,
    ) == get(h, r1, c1) by {
        if r1 == r && c1 == c {
        } else {
            assert(get(h, r1, c1) == get(g, r1, c1));
        }
    }
    assert forall|r1: int, c1: int| in_grid(r1, c1) && get(h, r1, c1) == 0 implies #[trigger] fits(
        s,
        r1,
        c1,
    ) by {
        if r1 == r && c1 == c {
        } else {
            assert(get(h, r1, c1) == get(g, r1, c1));
        }
    }
}

/// A grid without a blank cell has itself as its only completion.
pub proof fn lemma_full_grid(g: GridModel)
    requires
        shaped(g),
        forall|r: int, c: int| in_grid(r, c) ==> #[trigger] get(g, r, c) != 0,
    ensures
        completes(g, g),
        completion_count(g) == 1,
{
    assert(completes(g, g));
    if has_two_completions(g) {
        let (s1, s2) = choose|s1: GridModel, s2: GridModel|
            #![trigger completes(g, s1), completes(g, s2)]
            completes(g, s1) && completes(g, s2) && differ(s1, s2);
        let (r, c) = choose|r: int, c: int| in_grid(r, c) && #[trigger] get(s1, r, c) != get(s2, r, c);
        assert(get(s1, r, c) == get(g, r, c));
        assert(get(s2, r, c) == get(g, r, c));
    }
}

/// No completion is counted while no digit has been tried.
pub proof fn lemma_count_with_none(g: GridModel, r: int, c: int)
    ensures
        completion_count_with(g, r, c, Seq::<u8>::empty()) == 0,
{
    let e = Seq::<u8>::empty();
    if has_completion_with(g, r, c, e) {
        let s = choose|s: GridModel| completes_with(g, r, c, e, s);
        assert(e.contains(get(s, r, c)));
    }
    if has_two_completions_with(g, r, c, e) {
        let (s1, s2) = choose|s1: GridModel, s2: GridModel|
            #![trigger completes_with(g, r, c, e, s1), completes_with(g, r, c, e, s2)]
            completes_with(g, r, c, e, s1) && completes_with(g, r, c, e, s2) && differ(s1, s2);
        assert(e.contains(get(s1, r, c)));
    }
}

/// Once every digit has been tried in a blank cell, every completion is counted.
pub proof fn lemma_count_with_all(g: GridModel, r: int, c: int, digits: Seq<u8>)
    requires
        shaped(g),
        in_grid(r, c),
        get(g, r, c) == 0,
        forall|d: u8| 1 <= d <= 9 ==> digits.contains(d),
    ensures
        completion_count_with(g, r, c, digits) == completion_count(g),
{
    if has_completion(g) {
        let s = choose|s: GridModel| completes(g, s);
        assert(fits(s, r, c));
        assert(completes_with(g, r, c, digits, s));
    }
    if has_completion_with(g, r, c, digits) {
        let s = choose|s: GridModel| completes_with(g, r, c, digits, s);
        assert(completes(g, s));
    }
    if has_two_completions(g) {
        let (s1, s2) = choose|s1: GridModel, s2: GridModel|
            #![trigger completes(g, s1), completes(g, s2)]
            completes(g, s1) && completes(g, s2) && differ(s1, s2);
        assert(fits(s1, r, c));
        assert(fits(s2, r, c));
        assert(completes_with(g, r, c, digits, s1) && completes_with(g, r, c, digits, s2));
    }
    if has_two_completions_with(g, r, c, digits) {
        let (s1, s2) = choose|s1: GridModel, s2: GridModel|
            #![trigger completes_with(g, r, c, digits, s1), completes_with(g, r, c, digits, s2)]
            completes_with(g, r, c, digits, s1) && completes_with(g, r, c, digits, s2) && differ(
                s1,
                s2,
            );
        assert(completes(g, s1) && completes(g, s2));
    }
}

/// The completions that hold one of `digits` in a cell are among all completions.
pub proof fn lemma_count_with_bounded(g: GridModel, r: int, c: int, digits: Seq<u8>)
    ensures
        completion_count_with(g, r, c, digits) <= completion_count(g),
{
    if has_completion_with(g, r, c, digits) {
        let s = choose|s: GridModel| completes_with(g, r, c, digits, s);
        assert(completes(g, s));
    }
    if has_two_completions_with(g, r, c, digits) {
        let (s1, s2) = choose|s1: GridModel, s2: GridModel|
            #![trigger completes_with(g, r, c, digits, s1), completes_with(g, r, c, digits, s2)]
            completes_with(g, r, c, digits, s1) && completes_with(g, r, c, digits, s2) && differ(
                s1,
                s2,
            );
        assert(completes(g, s1) && completes(g, s2));
    }
}

/// Trying a digit that is not placeable in a blank cell adds no completion.
pub proof fn lemma_count_with_unplaceable(g: GridModel, r: int, c: int, digits: Seq<u8>, v: u8)
    requires
        shaped(g),
        in_grid(r, c),
        get(g, r, c) == 0,
        !placeable(g, r, c, v),
    ensures
        completion_count_with(g, r, c, digits.push(v)) == completion_count_with(g, r, c, digits),
{
    let more = digits.push(v);
    assert forall|s: GridModel| completes_with(g, r, c, more, s) == completes_with(
        g,
        r,
        c,
        digits,
        s,
    ) by {
        if completes(g, s) {
            lemma_completes_restrict(g, r, c, s);
            let i = choose|i: int| 0 <= i < more.len() && more[i] == get(s, r, c);
            if more.contains(get(s, r, c)) && i == digits.len() {
                assert(false);
            }
            if more.contains(get(s, r, c)) {
                assert(digits[i] == get(s, r, c));
            }
            if digits.contains(get(s, r, c)) {
                let j = choose|j: int| 0 <= j < digits.len() && digits[j] == get(s, r, c);
                assert(more[j] == get(s, r, c));
            }
        }
    }
    if has_completion_with(g, r, c, more) {
        let s = choose|s: GridModel| completes_with(g, r, c, more, s);
        assert(completes_with(g, r, c, digits, s));
    }
    if has_completion_with(g, r, c, digits) {
        let s = choose|s: GridModel| completes_with(g, r, c, digits, s);
        assert(completes_with(g, r, c, more, s));
    }
    if has_two_completions_with(g, r, c, more) {
        let (s1, s2) = choose|s1: GridModel, s2: GridModel|
            #![trigger completes_with(g, r, c, more, s1), completes_with(g, r, c, more, s2)]
            completes_with(g, r, c, more, s1) && completes_with(g, r, c, more, s2) && differ(
                s1,
                s2,
            );
        assert(completes_with(g, r, c, digits, s1) && completes_with(g, r, c, digits, s2));
    }
    if has_two_completions_with(g, r, c, digits) {
        let (s1, s2) = choose|s1: GridModel, s2: GridModel|
            #![trigger completes_with(g, r, c, digits, s1), completes_with(g, r, c, digits, s2)]
            completes_with(g, r, c, digits, s1) && completes_with(g, r, c, digits, s2) && differ(
                s1,
                s2,
            );
        assert(completes_with(g, r, c, more, s1) && completes_with(g, r, c, more, s2));
    }
}

/// Trying a fresh placeable digit in a blank cell adds exactly the
/// completions of the grid with that digit written in.
pub proof fn lemma_count_with_placeable(g: GridModel, r: int, c: int, digits: Seq<u8>, v: u8)
    requires
        shaped(g),
        in_grid(r, c),
        get(g, r, c) == 0,
        1 <= v <= 9,
        placeable(g, r, c, v),
        !digits.contains(v),
    ensures
        completion_count_with(g, r, c, digits.push(v)) == at_most_two(
            (completion_count_with(g, r, c, digits) + completion_count(with_cell(g, r, c, v)))
                as int,
        ),
{
    let more = digits.push(v);
    let h = with_cell(g, r, c, v);
    assert(more[digits.len() as int] == v);
    // Each completion counted after the push was counted before it, or completes `h`.
    assert forall|s: GridModel| completes_with(g, r, c, more, s) implies completes_with(
        g,
        r,
        c,
        digits,
        s,
    ) || (completes(h, s) && get(s, r, c) == v) by {
        let i = choose|i: int| 0 <= i < more.len() && more[i] == get(s, r, c);
        if i < digits.len() {
            assert(digits[i] == get(s, r, c));
        } else {
            lemma_completes_restrict(g, r, c, s);
        }
    }
    assert forall|s: GridModel| completes_with(g, r, c, digits, s) implies completes_with(
        g,
        r,
        c,
        more,
        s,
    ) && get(s, r, c) != v by {
        let j = choose|j: int| 0 <= j < digits.len() && digits[j] == get(s, r, c);
        assert(more[j] == get(s, r, c));
    }
    assert forall|s: GridModel| completes(h, s) implies completes_with(g, r, c, more, s) && get(
        s,
        r,
        c,
    ) == v by {
        lemma_completes_fill(g, r, c, v, s);
    }
    let a1 = has_completion_with(g, r, c, digits);
    let a2 = has_two_completions_with(g, r, c, digits);
    let b1 = has_completion(h);
    let b2 = has_two_completions(h);
    let m1 = has_completion_with(g, r, c, more);
    let m2 = has_two_completions_with(g, r, c, more);
    if a1 {
        let s = choose|s: GridModel| completes_with(g, r, c, digits, s);
        assert(completes_with(g, r, c, more, s));
    }
    if b1 {
        let s = choose|s: GridModel| completes(h, s);
        assert(completes_with(g, r, c, more, s));
    }
    if m1 {
        let s = choose|s: GridModel| completes_with(g, r, c, more, s);
        assert(completes_with(g, r, c, digits, s) || completes(h, s));
    }
    assert(m1 == (a1 || b1));
    if a2 {
        let (s1, s2) = choose|s1: GridModel, s2: GridModel|
            #![trigger completes_with(g, r, c, digits, s1), completes_with(g, r, c, digits, s2)]
            completes_with(g, r, c, digits, s1) && completes_with(g, r, c, digits, s2) && differ(
                s1,
                s2,
            );
        assert(completes_with(g, r, c, more, s1) && completes_with(g, r, c, more, s2));
    }
    if b2 {
        let (s1, s2) = choose|s1: GridModel, s2: GridModel|
            #![trigger completes(h, s1), completes(h, s2)]
            completes(h, s1) && completes(h, s2) && differ(s1, s2);
        assert(completes_with(g, r, c, more, s1) && completes_with(g, r, c, more, s2));
    }
    if a1 && b1 {
        let s1 = choose|s: GridModel| completes_with(g, r, c, digits, s);
        let s2 = choose|s: GridModel| completes(h, s);
        assert(get(s1, r, c) != v);
        assert(get(s2, r, c) == v);
        assert(differ(s1, s2));
        assert(completes_with(g, r, c, more, s1) && completes_with(g, r, c, more, s2));
    }
    if m2 {
        let (s1, s2) = choose|s1: GridModel, s2: GridModel|
            #![trigger completes_with(g, r, c, more, s1), completes_with(g, r, c, more, s2)]
            completes_with(g, r, c, more, s1) && completes_with(g, r, c, more, s2) && differ(
                s1,
                s2,
            );
        let in1 = completes_with(g, r, c, digits, s1);
        let in2 = completes_with(g, r, c, digits, s2);
        if in1 && in2 {
            assert(a2);
        } else if !in1 && !in2 {
            assert(completes(h, s1) && completes(h, s2));
            assert(b2);
        } else if in1 {
            assert(completes(h, s2));
            assert(a1 && b1);
        } else {
            assert(completes(h, s1));
            assert(a1 && b1);
        }
    }
    assert(m2 == (a2 || b2 || (a1 && b1)));
}

/// What replacing one cell does to the number of blanks among the first `n` cells.
pub proof fn lemma_blanks_before_with_cell(g: GridModel, r: int, c: int, v: u8, n: int)
    requires
        shaped(g),
        in_grid(r, c),
        0 <= n <= 81,
    ensures
        blanks_before(with_cell(g, r, c, v), n) + (if n > 9 * r + c && get(g, r, c) == 0 {
            1int
        } else {
            0int
        }) == blanks_before(g, n) + (if n > 9 * r + c && v == 0 {
            1int
        } else {
            0int
        }),
    decreases n,
{
    if n > 0 {
        lemma_blanks_before_with_cell(g, r, c, v, n - 1);
        lemma_with_cell(g, r, c, v);
        let r2 = (n - 1) / 9;
        let c2 = (n - 1) % 9;
        assert(in_grid(r2, c2));
        if n - 1 == 9 * r + c {
            assert(r2 == r && c2 == c);
        } else {
            assert(r2 != r || c2 != c);
            assert(get(with_cell(g, r, c, v), r2, c2) == get(g, r2, c2));
        }
    }
}

/// Filling a blank cell leaves one blank cell fewer.
pub proof fn lemma_blank_count_fill(g: GridModel, r: int, c: int, v: u8)
    requires
        shaped(g),
        in_grid(r, c),
        get(g, r, c) == 0,
        v != 0,
    ensures
        blank_count(with_cell(g, r, c, v)) + 1 == blank_count(g),
{
    lemma_blanks_before_with_cell(g, r, c, v, 81);
}

/// Blanking a filled cell leaves one blank cell more.
pub proof fn lemma_blank_count_clear(g: GridModel, r: int, c: int)
    requires
        shaped(g),
        in_grid(r, c),
        get(g, r, c) != 0,
    ensures
        blank_count(with_cell(g, r, c, 0)) == blank_count(g) + 1,
{
    lemma_blanks_before_with_cell(g, r, c, 0, 81);
}

/// No more than `n` of the first `n` cells are blank, and none is where
/// every cell is filled.
pub proof fn lemma_blanks_before_bound(g: GridModel, n: int)
    requires
        0 <= n <= 81,
    ensures
        blanks_before(g, n) <= n,
        (forall|r: int, c: int| in_grid(r, c) ==> #[trigger] get(g, r, c) != 0) ==> blanks_before(
            g,
            n,
        ) == 0,
    decreases n,
{
    if n > 0 {
        lemma_blanks_before_bound(g, n - 1);
        assert(in_grid((n - 1) / 9, (n - 1) % 9));
    }
}

/// The completions of a consistent grid are the solved grids that keep its
/// filled cells.
pub proof fn lemma_completions_of_consistent(g: GridModel, s: GridModel)
    requires
        consistent(g),
    ensures
        completes(g, s) <==> solved(s) && extends(g, s),
{
    if completes(g, s) {
        assert forall|r: int, c: int| in_grid(r, c) implies #[trigger] fits(s, r, c) by {
            if get(g, r, c) != 0 {
                assert(get(s, r, c) == get(g, r, c));
                assert forall|r2: int, c2: int| in_grid(r2, c2) && peers(r, c, r2, c2) implies #[trigger] get(
                    s,
                    r2,
                    c2,
                ) != get(s, r, c) by {
                    if get(g, r2, c2) != 0 {
                        assert(get(s, r2, c2) == get(g, r2, c2));
                    } else {
                        assert(fits(s, r2, c2));
                        assert(peers(r2, c2, r, c));
                    }
                }
            }
        }
    }
    if solved(s) && extends(g, s) {
        assert forall|r: int, c: int| in_grid(r, c) && get(g, r, c) == 0 implies #[trigger] fits(
            s,
            r,
            c,
        ) by {}
    }
}

/// Nine different digits are all the digits.
pub proof fn lemma_nine_digits(found: Seq<u8>, d: u8)
    requires
        found.len() == 9,
        found.no_duplicates(),
        forall|i: int| 0 <= i < 9 ==> 1 <= #[trigger] found[i] <= 9,
        1 <= d <= 9,
    ensures
        found.contains(d),
{
    if !found.contains(d) {
        // Nine different values would lie among the eight digits other than `d`.
        let numbers = found.map_values(|v: u8| v as int);
        let others = set_int_range(1, 10).remove(d as int);
        assert(numbers.no_duplicates());
        numbers.unique_seq_to_set();
        lemma_int_range(1, 10);
        assert forall|v: int| numbers.to_set().contains(v) implies others.contains(v) by {
            let i = choose|i: int| 0 <= i < numbers.len() && numbers[i] == v;
            assert(1 <= found[i] <= 9);
            assert(found.contains(found[i]));
        }
        lemma_len_subset(numbers.to_set(), others);
    }
}

/// In a solved grid every row, every column and every box holds each of
/// the digits one to nine exactly once.
pub proof fn law_solved_units_are_permutations(s: GridModel, k: int)
    requires
        solved(s),
        0 <= k < 9,
    ensures
        holds_each_digit_once(row_digits(s, k)),
        holds_each_digit_once(column_digits(s, k)),
        holds_each_digit_once(box_digits(s, k)),
{
    let row = row_digits(s, k);
    let column = column_digits(s, k);
    let boxed = box_digits(s, k);
    assert forall|i: int| 0 <= i < 9 implies 1 <= #[trigger] row[i] <= 9 by {
        assert(fits(s, k, i));
    }
    assert forall|i: int| 0 <= i < 9 implies 1 <= #[trigger] column[i] <= 9 by {
        assert(fits(s, i, k));
    }
    assert forall|i: int| 0 <= i < 9 implies 1 <= #[trigger] boxed[i] <= 9 by {
        assert(fits(s, 3 * (k / 3) + i / 3, 3 * (k % 3) + i % 3));
    }
    assert forall|i: int, j: int| 0 <= i < 9 && 0 <= j < 9 && i != j implies row[i] != row[j] by {
        assert(fits(s, k, i));
        assert(peers(k, i, k, j));
        assert(get(s, k, j) != get(s, k, i));
    }
    assert forall|i: int, j: int| 0 <= i < 9 && 0 <= j < 9 && i != j implies column[i]
        != column[j] by {
        assert(fits(s, i, k));
        assert(peers(i, k, j, k));
        assert(get(s, j, k) != get(s, i, k));
    }
    assert forall|i: int, j: int| 0 <= i < 9 && 0 <= j < 9 && i != j implies boxed[i]
        != boxed[j] by {
        let r1 = 3 * (k / 3) + i / 3;
        let c1 = 3 * (k % 3) + i % 3;
        let r2 = 3 * (k / 3) + j / 3;
        let c2 = 3 * (k % 3) + j % 3;
        assert(fits(s, r1, c1));
        assert(in_grid(r2, c2));
        assert(peers(r1, c1, r2, c2));
        assert(get(s, r2, c2) != get(s, r1, c1));
    }
    assert forall|d: u8| 1 <= d <= 9 implies row.contains(d) by {
        lemma_nine_digits(row, d);
    }
    assert forall|d: u8| 1 <= d <= 9 implies column.contains(d) by {
        lemma_nine_digits(column, d);
    }
    assert forall|d: u8| 1 <= d <= 9 implies boxed.contains(d) by {
        lemma_nine_digits(boxed, d);
    }
}

/// A grid carved from a solved grid is consistent.
pub proof fn lemma_carved_consistent(full: GridModel, puzzle: GridModel)
    requires
        solved(full),
        carved(full, puzzle),
    ensures
        consistent(puzzle),
{
    assert forall|r: int, c: int| in_grid(r, c) implies #[trigger] get(puzzle, r, c) <= 9 && (get(
        puzzle,
        r,
        c,
    ) == 0 || forall|r2: int, c2: int|
        in_grid(r2, c2) && peers(r, c, r2, c2) ==> #[trigger] get(puzzle, r2, c2) != get(
            puzzle,
            r,
            c,
        )) by {
        assert(fits(full, r, c));
        if get(puzzle, r, c) != 0 {
            assert forall|r2: int, c2: int| in_grid(r2, c2) && peers(r, c, r2, c2) implies #[trigger] get(
                puzzle,
                r2,
                c2,
            ) != get(puzzle, r, c) by {
                assert(get(full, r2, c2) != get(full, r, c));
            }
        }
    }
}

} // verus!
