//! The tiles that an image is cast in.

use crate::grid::{flat2, lemma_flat2_bound, lemma_flat2_parts};
use vstd::prelude::*;

verus! {

/// The tiles of an image of some size.
pub struct TileGrid {
    pub width: usize,
    pub height: usize,
    pub tile_size: usize,
}

/// The columns and rows of a tile; the ends are not part of it.
#[derive(Clone, Copy, PartialEq, Eq, Structural)]
pub struct TileBounds {
    pub x_start: usize,
    pub x_end: usize,
    pub z_start: usize,
    pub z_end: usize,
}

/// How many tiles are needed for `n` pixels.
pub open spec fn tiles_for(n: int, tile_size: int) -> int {
    (n + tile_size - 1) / tile_size
}

/// The smaller of two numbers.
pub open spec fn smaller(a: int, b: int) -> int {
    if a < b {
        a
    } else {
        b
    }
}

impl TileGrid {
    pub open spec fn valid(&self) -> bool {
        &&& self.tile_size > 0
        &&& self.width + self.tile_size <= usize::MAX
        &&& self.height + self.tile_size <= usize::MAX
        &&& self.count() <= usize::MAX
    }

    /// How many tiles there are.
    pub open spec fn count(&self) -> int {
        tiles_for(self.width as int, self.tile_size as int) * tiles_for(
            self.height as int,
            self.tile_size as int,
        )
    }

    /// The pixel lies in the tile with a number, row by row. Tiles at the edges end with the image.
    pub open spec fn has_pixel(&self, tile_idx: int, x: int, z: int) -> bool {
        let n = tiles_for(self.width as int, self.tile_size as int);
        let tile_x = tile_idx % n;
        let tile_z = tile_idx / n;
        &&& tile_x * self.tile_size <= x < tile_x * self.tile_size + self.tile_size
        &&& tile_z * self.tile_size <= z < tile_z * self.tile_size + self.tile_size
        &&& x < self.width
        &&& z < self.height
    }

    pub fn tiles_x(&self) -> (r: usize)
        requires
            self.valid(),
        ensures
            r == tiles_for(self.width as int, self.tile_size as int),
    {
        (self.width + self.tile_size - 1) / self.tile_size
    }

    pub fn tiles_z(&self) -> (r: usize)
        requires
            self.valid(),
        ensures
            r == tiles_for(self.height as int, self.tile_size as int),
    {
        (self.height + self.tile_size - 1) / self.tile_size
    }

    /// The number of all tiles.
    pub fn total_tiles(&self) -> (r: usize)
        requires
            self.valid(),
        ensures
            r == self.count(),
    {
        self.tiles_x() * self.tiles_z()
    }

    /// The pixels of the tile with a number.
    pub fn bounds(&self, tile_idx: usize) -> (r: TileBounds)
        requires
            self.valid(),
            tile_idx < self.count(),
        ensures
            forall|x: int, z: int| #[trigger]
                self.has_pixel(tile_idx as int, x, z) <==> r.x_start <= x < r.x_end && r.z_start <= z
                    < r.z_end,
            ({
                let n = tiles_for(self.width as int, self.tile_size as int);
                let tile_x = tile_idx as int % n;
                let tile_z = tile_idx as int / n;
                &&& r.x_start == tile_x * self.tile_size
                &&& r.x_end == smaller(r.x_start + self.tile_size, self.width as int)
                &&& r.z_start == tile_z * self.tile_size
                &&& r.z_end == smaller(r.z_start + self.tile_size, self.height as int)
                &&& r.x_start < r.x_end <= self.width
                &&& r.z_start < r.z_end <= self.height
            }),
    {
        let tiles_x: usize = self.tiles_x();
        let ghost tiles_z = tiles_for(self.height as int, self.tile_size as int);
        proof {
            assert(tiles_x > 0) by (nonlinear_arith)
                requires
                    tile_idx < tiles_x * tiles_z,
                    tile_idx >= 0,
                    tiles_z >= 0 || tiles_z < 0,
                    tiles_x >= 0,
            ;
            let n = tiles_x as int;
            vstd::arithmetic::div_mod::lemma_fundamental_div_mod(tile_idx as int, n);
            let q = tile_idx as int / n;
            assert(0 <= q < tiles_z) by (nonlinear_arith)
                requires
                    n > 0,
                    0 <= tile_idx < n * tiles_z,
                    tile_idx == n * q + tile_idx as int % n,
                    0 <= tile_idx as int % n < n,
            ;
            lemma_tile_begins(self.width as int, self.tile_size as int, tile_idx as int % n);
            lemma_tile_begins(self.height as int, self.tile_size as int, q);
        }
        let tile_x: usize = tile_idx % tiles_x;
        let tile_z: usize = tile_idx / tiles_x;
        let x_start: usize = tile_x * self.tile_size;
        let z_start: usize = tile_z * self.tile_size;
        let x_end: usize = if x_start + self.tile_size < self.width {
            x_start + self.tile_size
        } else {
            self.width
        };
        let z_end: usize = if z_start + self.tile_size < self.height {
            z_start + self.tile_size
        } else {
            self.height
        };
        TileBounds { x_start, x_end, z_start, z_end }
    }
}

/// Each tile begins inside the image.
proof fn lemma_tile_begins(n: int, tile_size: int, t: int)
    requires
        tile_size > 0,
        n >= 0,
        0 <= t < tiles_for(n, tile_size),
    ensures
        0 <= t * tile_size < n,
{
    let k = tiles_for(n, tile_size);
    vstd::arithmetic::div_mod::lemma_fundamental_div_mod(n + tile_size - 1, tile_size);
    assert(0 <= t * tile_size < n) by (nonlinear_arith)
        requires
            tile_size > 0,
            0 <= t <= k - 1,
            n + tile_size - 1 == tile_size * k + (n + tile_size - 1) % tile_size,
            0 <= (n + tile_size - 1) % tile_size < tile_size,
    ;
}

/// Each pixel lies in exactly one of the tiles.
pub proof fn every_pixel_is_cast(grid: TileGrid, x: int, z: int) -> (tile_idx: int)
    requires
        grid.valid(),
        0 <= x < grid.width,
        0 <= z < grid.height,
    ensures
        0 <= tile_idx < grid.count(),
        grid.has_pixel(tile_idx, x, z),
        forall|other: int| #[trigger]
            grid.has_pixel(other, x, z) && 0 <= other < grid.count() ==> other == tile_idx,
{
    let s = grid.tile_size as int;
    let n = tiles_for(grid.width as int, s);
    let m = tiles_for(grid.height as int, s);
    lemma_in_tile(x, grid.width as int, s);
    lemma_in_tile(z, grid.height as int, s);
    lemma_flat2_bound(n, m, x / s, z / s);
    lemma_flat2_parts(n, x / s, z / s);
    assert(m * n == n * m) by (nonlinear_arith);
    assert forall|other: int| #[trigger]
        grid.has_pixel(other, x, z) && 0 <= other < grid.count() implies other == flat2(n, x / s, z / s) by {
        vstd::arithmetic::div_mod::lemma_fundamental_div_mod(other, n);
        lemma_tile_of(x, s, other % n);
        lemma_tile_of(z, s, other / n);
        assert(n * (other / n) == (other / n) * n) by (nonlinear_arith);
    }
    flat2(n, x / s, z / s)
}

/// A pixel determines the tile that it lies in.
proof fn lemma_tile_of(x: int, s: int, t: int)
    requires
        s > 0,
        t * s <= x < t * s + s,
    ensures
        t == x / s,
{
    vstd::arithmetic::div_mod::lemma_fundamental_div_mod_converse_div(x, s, t, x - t * s);
}

proof fn lemma_in_tile(x: int, n: int, s: int)
    requires
        s > 0,
        0 <= x < n,
    ensures
        0 <= x / s < tiles_for(n, s),
        x / s * s <= x < x / s * s + s,
{
    vstd::arithmetic::div_mod::lemma_fundamental_div_mod(x, s);
    vstd::arithmetic::div_mod::lemma_fundamental_div_mod(n + s - 1, s);
    let q = x / s;
    let k = tiles_for(n, s);
    assert(0 <= q && q * s <= x < q * s + s) by (nonlinear_arith)
        requires
            s > 0,
            x >= 0,
            x == s * q + x % s,
            0 <= x % s < s,
    ;
    assert(q < k) by (nonlinear_arith)
        requires
            s > 0,
            q * s <= x < n,
            n + s - 1 == s * k + (n + s - 1) % s,
            0 <= (n + s - 1) % s < s,
    ;
}

/// There are just enough tiles: the last one is needed, and no pixel is left over.
pub proof fn tiles_are_just_enough(n: int, tile_size: int)
    requires
        n >= 0,
        tile_size >= 1,
    ensures
        n <= tiles_for(n, tile_size) * tile_size < n + tile_size,
        smaller(n, tile_size) <= n,
        smaller(n, tile_size) <= tile_size,
        smaller(n, tile_size) == n || smaller(n, tile_size) == tile_size,
{
    let q = tiles_for(n, tile_size);
    vstd::arithmetic::div_mod::lemma_fundamental_div_mod(n + tile_size - 1, tile_size);
    vstd::arithmetic::div_mod::lemma_mod_bound(n + tile_size - 1, tile_size);
    assert(tile_size * q == q * tile_size) by (nonlinear_arith);
}

/// Tiles are numbered row by row: the pixel that lies `i` to the right and `j` below the corner of the
/// tile in a column and a row belongs to the tile that comes after all rows above and all columns to
/// the left.
pub proof fn cast_tiles_are_numbered_row_by_row(grid: TileGrid, column: int, row: int, i: int, j: int)
    requires
        grid.valid(),
        0 <= column < tiles_for(grid.width as int, grid.tile_size as int),
        0 <= row < tiles_for(grid.height as int, grid.tile_size as int),
        0 <= i < grid.tile_size,
        0 <= j < grid.tile_size,
        column * grid.tile_size + i < grid.width,
        row * grid.tile_size + j < grid.height,
    ensures
        grid.has_pixel(
            row * tiles_for(grid.width as int, grid.tile_size as int) + column,
            column * grid.tile_size + i,
            row * grid.tile_size + j,
        ),
        grid.count() == tiles_for(grid.width as int, grid.tile_size as int) * tiles_for(
            grid.height as int,
            grid.tile_size as int,
        ),
{
    let n = tiles_for(grid.width as int, grid.tile_size as int);
    vstd::arithmetic::div_mod::lemma_fundamental_div_mod_converse(row * n + column, n, row, column);
}

} // verus!
