//! Row-major addressing of two- and three-dimensional arrays.

use vstd::arithmetic::div_mod::{lemma_fundamental_div_mod_converse_div, lemma_fundamental_div_mod_converse_mod};
use vstd::prelude::*;

verus! {

/// The position of column `x` of row `y` in rows of `width` cells.
pub open spec fn flat2(width: int, x: int, y: int) -> int {
    y * width + x
}

/// The position of cell (`x`, `y`, `z`) in layers of `height` rows of `width` cells.
pub open spec fn flat3(width: int, height: int, x: int, y: int, z: int) -> int {
    (z * height + y) * width + x
}

/// How many cells a box of the given extent holds.
pub open spec fn cells3(width: int, height: int, depth: int) -> int {
    (depth * height) * width
}

/// A cell inside the rows lies inside the array.
pub proof fn lemma_flat2_bound(width: int, height: int, x: int, y: int)
    requires
        0 <= x < width,
        0 <= y < height,
    ensures
        0 <= flat2(width, x, y) < height * width,
{
    assert(0 <= y * width) by (nonlinear_arith)
        requires
            0 <= y,
            0 < width,
    ;
    assert(y * width + width <= height * width) by (nonlinear_arith)
        requires
            y + 1 <= height,
            0 < width,
    ;
}

/// The position determines the column and the row.
pub proof fn lemma_flat2_parts(width: int, x: int, y: int)
    requires
        0 <= x < width,
    ensures
        flat2(width, x, y) / width == y,
        flat2(width, x, y) % width == x,
{
    lemma_fundamental_div_mod_converse_div(flat2(width, x, y), width, y, x);
    lemma_fundamental_div_mod_converse_mod(flat2(width, x, y), width, y, x);
}

/// Different cells of the rows have different positions.
pub proof fn lemma_flat2_injective(width: int, x: int, y: int, x2: int, y2: int)
    requires
        0 <= x < width,
        0 <= x2 < width,
        flat2(width, x, y) == flat2(width, x2, y2),
    ensures
        x == x2,
        y == y2,
{
    lemma_flat2_parts(width, x, y);
    lemma_flat2_parts(width, x2, y2);
}

/// A cell inside the box lies inside the array.
pub proof fn lemma_flat3_bound(width: int, height: int, depth: int, x: int, y: int, z: int)
    requires
        0 <= x < width,
        0 <= y < height,
        0 <= z < depth,
    ensures
        0 <= z * height + y < depth * height,
        0 <= flat3(width, height, x, y, z) < cells3(width, height, depth),
        flat3(width, height, x, y, z) >= z * height + y,
{
    lemma_flat2_bound(height, depth, y, z);
    lemma_flat2_bound(width, depth * height, x, z * height + y);
    let row = z * height + y;
    assert(row <= row * width) by (nonlinear_arith)
        requires
            0 <= row,
            1 <= width,
    ;
}

/// Different cells of the box have different positions.
pub proof fn lemma_flat3_injective(
    width: int,
    height: int,
    x: int,
    y: int,
    z: int,
    x2: int,
    y2: int,
    z2: int,
)
    requires
        0 <= x < width,
        0 <= x2 < width,
        0 <= y < height,
        0 <= y2 < height,
        flat3(width, height, x, y, z) == flat3(width, height, x2, y2, z2),
    ensures
        x == x2,
        y == y2,
        z == z2,
{
    lemma_flat2_injective(width, x, z * height + y, x2, z2 * height + y2);
    lemma_flat2_injective(height, y, z, y2, z2);
}

/// Computes [`flat2`].
pub fn index2(width: usize, height: usize, x: usize, y: usize) -> (index: usize)
    requires
        x < width,
        y < height,
        height * width <= usize::MAX,
    ensures
        index == flat2(width as int, x as int, y as int),
        index < height * width,
{
    proof {
        lemma_flat2_bound(width as int, height as int, x as int, y as int);
        assert(0 <= y * width) by (nonlinear_arith);
    }
    y * width + x
}

/// Computes [`flat3`].
pub fn index3(width: usize, height: usize, depth: usize, x: usize, y: usize, z: usize) -> (index: usize)
    requires
        x < width,
        y < height,
        z < depth,
        cells3(width as int, height as int, depth as int) <= usize::MAX,
    ensures
        index == flat3(width as int, height as int, x as int, y as int, z as int),
        index < cells3(width as int, height as int, depth as int),
{
    proof {
        lemma_flat3_bound(width as int, height as int, depth as int, x as int, y as int, z as int);
        assert(0 <= z * height) by (nonlinear_arith);
        assert(0 <= (z * height + y) * width) by (nonlinear_arith);
        let rows = depth * height;
        assert(rows <= rows * width) by (nonlinear_arith)
            requires
                0 <= rows,
                1 <= width,
        ;
        assert(0 <= depth * height) by (nonlinear_arith);
    }
    (z * height + y) * width + x
}

/// The next column stands directly behind a cell, the next row follows after `width` cells, and
/// the next layer after as many cells as a layer has. The first cell stands at the start.
pub proof fn cells_stand_row_by_row(width: int, height: int, x: int, y: int, z: int)
    ensures
        flat2(width, 0, 0) == 0,
        flat2(width, x + 1, y) == flat2(width, x, y) + 1,
        flat2(width, x, y + 1) == flat2(width, x, y) + width,
        flat3(width, height, 0, 0, 0) == 0,
        flat3(width, height, x + 1, y, z) == flat3(width, height, x, y, z) + 1,
        flat3(width, height, x, y + 1, z) == flat3(width, height, x, y, z) + width,
        flat3(width, height, x, y, z + 1) == flat3(width, height, x, y, z) + height * width,
        cells3(width, height, 0) == 0,
        cells3(width, height, z + 1) == cells3(width, height, z) + height * width,
{
    assert((y + 1) * width == y * width + width) by (nonlinear_arith);
    assert((z * height + (y + 1)) * width == (z * height + y) * width + width) by (nonlinear_arith);
    assert(((z + 1) * height + y) * width == (z * height + y) * width + height * width)
        by (nonlinear_arith);
    assert(((z + 1) * height) * width == (z * height) * width + height * width) by (nonlinear_arith);
    assert((0 * height + 0) * width == 0) by (nonlinear_arith);
    assert((0 * height) * width == 0) by (nonlinear_arith);
}

} // verus!
