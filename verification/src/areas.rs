//! The 27 areas of the board: nine rows, nine columns and nine boxes, each
//! a group of nine of the 81 cell indices.
//!
//! Cells are numbered row by row: the cell in row `r` and column `c` has
//! the index `9 * r + c`. Boxes are numbered row by row too.

use vstd::prelude::*;
use crate::grid::same_unit;

verus! {

/// The three ways in which the board is divided into nine groups of nine cells.
#[derive(Debug, Clone, Copy, PartialEq, Eq, Structural)]
pub enum Area {
    Boxes,
    Rows,
    Columns,
}

/// The number of the group of `area` in which the cell `index` lies.
pub open spec fn group_of(area: Area, index: int) -> int {
    match area {
        Area::Boxes => 3 * ((index / 9) / 3) + (index % 9) / 3,
        Area::Rows => index / 9,
        Area::Columns => index % 9,
    }
}

/// The place of the cell `index` within its group of `area`.
pub open spec fn position_of(area: Area, index: int) -> int {
    match area {
        Area::Boxes => 3 * ((index / 9) % 3) + (index % 9) % 3,
        Area::Rows => index % 9,
        Area::Columns => index / 9,
    }
}

/// The index of the cell at place `position` of the group `group` of `area`.
pub open spec fn member_of(area: Area, group: int, position: int) -> int {
    match area {
        Area::Boxes => 9 * (3 * (group / 3) + position / 3) + 3 * (group % 3) + position % 3,
        Area::Rows => 9 * group + position,
        Area::Columns => 9 * position + group,
    }
}

/// The two cells lie in one row, one column or one box.
pub open spec fn shares_area(i: int, j: int) -> bool {
    same_unit(i / 9, i % 9, j / 9, j % 9)
}

/// Each cell is the member of its group at its place.
pub proof fn lemma_cell_in_area(area: Area, i: int)
    requires
        0 <= i < 81,
    ensures
        0 <= group_of(area, i) < 9,
        0 <= position_of(area, i) < 9,
        member_of(area, group_of(area, i), position_of(area, i)) == i,
{
    let r = i / 9;
    let c = i % 9;
    assert(i == 9 * r + c && 0 <= r < 9 && 0 <= c < 9);
    let g = 3 * (r / 3) + c / 3;
    let k = 3 * (r % 3) + c % 3;
    assert(0 <= r / 3 < 3 && 0 <= c / 3 < 3 && 0 <= r % 3 < 3 && 0 <= c % 3 < 3);
    assert(g / 3 == r / 3 && g % 3 == c / 3);
    assert(k / 3 == r % 3 && k % 3 == c % 3);
    assert(3 * (r / 3) + r % 3 == r);
    assert(3 * (c / 3) + c % 3 == c);
}

/// Each member of a group lies in that group at its place.
pub proof fn lemma_member_in_area(area: Area, g: int, k: int)
    requires
        0 <= g < 9,
        0 <= k < 9,
    ensures
        0 <= member_of(area, g, k) < 81,
        group_of(area, member_of(area, g, k)) == g,
        position_of(area, member_of(area, g, k)) == k,
{
    assert(0 <= g / 3 < 3 && 0 <= g % 3 < 3 && 0 <= k / 3 < 3 && 0 <= k % 3 < 3);
    let r = 3 * (g / 3) + k / 3;
    let c = 3 * (g % 3) + k % 3;
    assert(0 <= r < 9 && 0 <= c < 9);
    assert((9 * r + c) / 9 == r && (9 * r + c) % 9 == c);
    assert(r / 3 == g / 3 && r % 3 == k / 3);
    assert(c / 3 == g % 3 && c % 3 == k % 3);
    assert(3 * (g / 3) + g % 3 == g);
    assert(3 * (k / 3) + k % 3 == k);
    assert((9 * g + k) / 9 == g && (9 * g + k) % 9 == k);
    assert((9 * k + g) / 9 == k && (9 * k + g) % 9 == g);
}

/// Two cells share an area exactly if they lie in the same box, row or column.
pub proof fn lemma_shares_area(i: int, j: int)
    requires
        0 <= i < 81,
        0 <= j < 81,
    ensures
        shares_area(i, j) <==> group_of(Area::Boxes, i) == group_of(Area::Boxes, j) || group_of(
            Area::Rows,
            i,
        ) == group_of(Area::Rows, j) || group_of(Area::Columns, i) == group_of(Area::Columns, j),
{
    let r1 = i / 9;
    let c1 = i % 9;
    let r2 = j / 9;
    let c2 = j % 9;
    assert(0 <= r1 / 3 < 3 && 0 <= c1 / 3 < 3 && 0 <= r2 / 3 < 3 && 0 <= c2 / 3 < 3);
}

/// Computes the number of the group of `area` in which the cell `index` lies.
pub fn area_group(area: Area, index: usize) -> (group: usize)
    requires
        index < 81,
    ensures
        group == group_of(area, index as int),
        group < 9,
{
    match area {
        Area::Boxes => 3 * ((index / 9) / 3) + (index % 9) / 3,
        Area::Rows => index / 9,
        Area::Columns => index % 9,
    }
}

/// Computes the index of the cell at place `position` of the group `group` of `area`.
pub fn area_member(area: Area, group: usize, position: usize) -> (index: usize)
    requires
        group < 9,
        position < 9,
    ensures
        index == member_of(area, group as int, position as int),
        index < 81,
{
    proof {
        lemma_member_in_area(area, group as int, position as int);
    }
    match area {
        Area::Boxes => 9 * (3 * (group / 3) + position / 3) + 3 * (group % 3) + position % 3,
        Area::Rows => 9 * group + position,
        Area::Columns => 9 * position + group,
    }
}

} // verus!
