//! Conversions between a flat cell index and column/row coordinates.

use vstd::prelude::*;

verus! {

/// Splits a flat index into `(column, row)` for a grid that is `width` cells wide.
pub fn index_to_xy(index: usize, width: usize) -> (xy: (usize, usize))
    requires
        width > 0,
    ensures
        xy.0 == index as int % width as int,
        xy.1 == index as int / width as int,
{
    (index % width, index / width)
}

/// Joins a column `x` and a row `y` into the flat index of a grid that is `width` cells wide.
pub fn xy_to_index(x: usize, y: usize, width: usize) -> (index: usize)
    requires
        width * y + x <= usize::MAX,
    ensures
        index == width * y + x,
{
    assert(width * y <= usize::MAX) by (nonlinear_arith)
        requires
            width * y + x <= usize::MAX,
            x >= 0,
    ;
    width * y + x
}

} // verus!
