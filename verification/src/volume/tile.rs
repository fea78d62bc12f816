//! Tiles of 64 by 64 by 64 voxels, stored as blocks of 4 by 4 by 4, and how a slice of one is
//! painted.

use crate::grid::flat2;
use crate::volume::image::{Color32, Image};
use crate::volume::DrawingConfig;
use vstd::prelude::*;

verus! {

/// How many voxels a tile has.
pub const TILE_BYTES: usize = 262144;

/// Where the voxel (`x`, `y`, `z`) of a tile is stored: block by block, and in each block row by
/// row.
pub open spec fn tile_offset(x: int, y: int, z: int) -> int {
    x % 4 + (y % 4) * 4 + (z % 4) * 16 + ((z / 4) * 256 + (y / 4) * 16 + x / 4) * 64
}

/// The voxel that is stored at an offset.
pub open spec fn tile_voxel(offset: int) -> (int, int, int) {
    (
        (offset / 64) % 16 * 4 + offset % 4,
        (offset / 1024) % 16 * 4 + (offset / 4) % 4,
        (offset / 16384) % 16 * 4 + (offset / 16) % 4,
    )
}

/// Each voxel of a tile has a place of its own in the tile, and each place holds a voxel.
pub proof fn tile_offset_is_one_to_one(x: int, y: int, z: int, offset: int)
    ensures
        0 <= x < 64 && 0 <= y < 64 && 0 <= z < 64 ==> {
            &&& 0 <= tile_offset(x, y, z) < TILE_BYTES
            &&& tile_voxel(tile_offset(x, y, z)) == (x, y, z)
        },
        0 <= offset < TILE_BYTES ==> {
            let (i, j, k) = tile_voxel(offset);
            &&& 0 <= i < 64 && 0 <= j < 64 && 0 <= k < 64
            &&& tile_offset(i, j, k) == offset
        },
{
    if 0 <= x < 64 && 0 <= y < 64 && 0 <= z < 64 {
        lemma_digits(x % 4, y % 4, z % 4, x / 4, y / 4, z / 4);
    }
    if 0 <= offset < TILE_BYTES {
        let a = offset / 4;
        let b = offset / 16;
        let c = offset / 64;
        let d = offset / 1024;
        let e = offset / 16384;
        assert(b == a / 4 && c == b / 4 && d == c / 16 && e == d / 16);
        assert(0 <= e < 16);
        lemma_digits(offset % 4, a % 4, b % 4, c % 16, d % 16, e);
        lemma_two_digits(c % 16, offset % 4);
        lemma_two_digits(d % 16, a % 4);
        lemma_two_digits(e, b % 4);
    }
}

proof fn lemma_two_digits(hi: int, lo: int)
    requires
        0 <= lo < 4,
        0 <= hi < 16,
    ensures
        (hi * 4 + lo) / 4 == hi,
        (hi * 4 + lo) % 4 == lo,
        0 <= hi * 4 + lo < 64,
{
}

/// The digits of an offset: three of base 4, then three of base 16.
proof fn lemma_digits(x0: int, y0: int, z0: int, x1: int, y1: int, z1: int)
    requires
        0 <= x0 < 4 && 0 <= y0 < 4 && 0 <= z0 < 4,
        0 <= x1 < 16 && 0 <= y1 < 16 && 0 <= z1 < 16,
    ensures
        ({
            let o = x0 + y0 * 4 + z0 * 16 + (z1 * 256 + y1 * 16 + x1) * 64;
            &&& 0 <= o < TILE_BYTES
            &&& o % 4 == x0
            &&& (o / 4) % 4 == y0
            &&& (o / 16) % 4 == z0
            &&& (o / 64) % 16 == x1
            &&& (o / 1024) % 16 == y1
            &&& (o / 16384) % 16 == z1
        }),
{
    let e = z1;
    let d = e * 16 + y1;
    let c = d * 16 + x1;
    let b = c * 4 + z0;
    let a = b * 4 + y0;
    let o = a * 4 + x0;
    assert(o == x0 + y0 * 4 + z0 * 16 + (z1 * 256 + y1 * 16 + x1) * 64);
    assert(o / 4 == a && o % 4 == x0);
    assert(a / 4 == b && a % 4 == y0);
    assert(b / 4 == c && b % 4 == z0);
    assert(c / 16 == d && c % 16 == x1);
    assert(d / 16 == e && d % 16 == y1);
    assert(o / 16 == a / 4);
    assert(o / 64 == b / 4);
    assert(o / 1024 == c / 16);
    assert(o / 16384 == d / 16);
}

/// How a tile is laid out. In a block of 4 by 4 by 4 voxels the next voxel in x is 1 byte further,
/// the next in y 4 bytes and the next in z 16 bytes. The next block in x is 64 bytes further, the
/// next in y 1024 bytes and the next in z 16384 bytes.
pub proof fn tiles_are_stored_block_by_block(x: int, y: int, z: int)
    requires
        0 <= x < 64,
        0 <= y < 64,
        0 <= z < 64,
    ensures
        tile_offset(0, 0, 0) == 0,
        x % 4 != 3 ==> tile_offset(x + 1, y, z) == tile_offset(x, y, z) + 1,
        y % 4 != 3 ==> tile_offset(x, y + 1, z) == tile_offset(x, y, z) + 4,
        z % 4 != 3 ==> tile_offset(x, y, z + 1) == tile_offset(x, y, z) + 16,
        tile_offset(x + 4, y, z) == tile_offset(x, y, z) + 64,
        tile_offset(x, y + 4, z) == tile_offset(x, y, z) + 1024,
        tile_offset(x, y, z + 4) == tile_offset(x, y, z) + 16384,
{
    assert((x + 4) / 4 == x / 4 + 1 && (x + 4) % 4 == x % 4);
    assert((y + 4) / 4 == y / 4 + 1 && (y + 4) % 4 == y % 4);
    assert((z + 4) / 4 == z / 4 + 1 && (z + 4) % 4 == z % 4);
}

/// Computes [`tile_offset`].
pub fn tile_index(x: usize, y: usize, z: usize) -> (index: usize)
    requires
        x < 64,
        y < 64,
        z < 64,
    ensures
        index == tile_offset(x as int, y as int, z as int),
        index < TILE_BYTES,
{
    proof {
        lemma_digits(
            x as int % 4,
            y as int % 4,
            z as int % 4,
            x as int / 4,
            y as int / 4,
            z as int / 4,
        );
    }
    let block: usize = z / 4 * 256 + y / 4 * 16 + x / 4;
    x % 4 + y % 4 * 4 + z % 4 * 16 + block * 64
}

/// Division that rounds towards zero.
pub open spec fn trunc_div(a: int, b: int) -> int {
    if a >= 0 {
        a / b
    } else {
        -((-a) / b)
    }
}

/// One direction of a canvas: the world coordinate in its middle, the number of its pixels, and
/// how many world units a pixel covers.
#[derive(Clone, Copy, PartialEq, Eq, Structural)]
pub struct Axis {
    pub center: i32,
    pub pixels: usize,
    pub zoom: u8,
}

impl Axis {
    /// Half of the world units that the canvas covers.
    pub open spec fn half(&self) -> int {
        (self.zoom * self.pixels) / 2
    }

    /// The canvas starts here.
    pub open spec fn low(&self) -> int {
        self.center - self.half()
    }

    /// The canvas ends here.
    pub open spec fn high(&self) -> int {
        self.center + self.half()
    }

    /// A pixel covers something, and the canvas lies in the range of coordinates.
    pub open spec fn valid(&self) -> bool {
        &&& self.zoom >= 1
        &&& self.zoom * self.pixels <= i32::MAX
        &&& i32::MIN <= self.low()
        &&& self.high() <= i32::MAX
    }

    /// The pixel that shows the world coordinate `w`.
    pub open spec fn pixel_of(&self, w: int) -> int {
        trunc_div(w - self.low(), self.zoom as int)
    }

    /// The first and the last tile that the canvas touches, at a resolution of `scale` world units
    /// to a voxel.
    pub open spec fn first_tile(&self, scale: int) -> int {
        let t = trunc_div(self.low(), 64 * scale);
        if t > 0 {
            t
        } else {
            0
        }
    }

    pub open spec fn last_tile(&self, scale: int) -> int {
        trunc_div(self.high(), 64 * scale)
    }

    /// The world coordinate `w` is looked at in tile `t`: it lies in a block of the tile that the
    /// canvas touches, a whole number of pixels from the start of that block.
    pub open spec fn sampled(&self, scale: int, t: int, w: int) -> bool {
        let tile = 64 * scale;
        let block = 4 * scale;
        let first = if t * tile > self.low() { t * tile } else { self.low() };
        let end = if t * tile + tile < self.high() { t * tile + tile } else { self.high() };
        &&& first / block * block <= w < (end + (block - 1)) / block * block
        &&& w % block % (self.zoom as int) == 0
    }

    /// Pixel `u` shows the world coordinate `w` of tile `t`: no later one falls on that pixel.
    pub open spec fn shows(&self, scale: int, t: int, u: int, w: int) -> bool {
        &&& self.sampled(scale, t, w)
        &&& self.pixel_of(w) == u
        &&& forall|later: int| #[trigger]
            self.sampled(scale, t, later) && self.pixel_of(later) == u ==> later <= w
    }

    /// Tile `t` has nothing for pixel `u`.
    pub open spec fn blank(&self, scale: int, t: int, u: int) -> bool {
        forall|w: int| #[trigger] self.sampled(scale, t, w) ==> self.pixel_of(w) != u
    }
}

/// The scan of one block and the statement over world coordinates speak of the same samples.
proof fn lemma_sampled(axis: Axis, scale: int, t: int, w: int)
    requires
        axis.valid(),
        1 <= scale,
        0 <= t,
    ensures
        axis.sampled(scale, t, w) <==> {
            let tile = 64 * scale;
            let block = 4 * scale;
            let first = if t * tile > axis.low() { 0 } else { axis.low() - t * tile };
            let end = if t * tile + tile < axis.high() { tile } else { axis.high() - t * tile };
            let b = (w - t * tile) / block;
            let k = (w - t * tile) % block;
            first / block <= b < (end + (block - 1)) / block && k % (axis.zoom as int) == 0
        },
        axis.sampled(scale, t, w) ==> t * (64 * scale) <= w < t * (64 * scale) + 64 * scale,
{
    let tile = 64 * scale;
    let block = 4 * scale;
    let base = t * tile;
    let base_blocks = 16 * t;
    assert(base == base_blocks * block) by (nonlinear_arith)
        requires
            base == t * tile,
            tile == 64 * scale,
            block == 4 * scale,
            base_blocks == 16 * t,
    ;
    let first = if base > axis.low() { 0 } else { axis.low() - base };
    let end = if base + tile < axis.high() { tile } else { axis.high() - base };
    lemma_shift_blocks(w - base, base_blocks, block);
    lemma_shift_blocks(first, base_blocks, block);
    lemma_shift_blocks(end + (block - 1), base_blocks, block);
    let b = (w - base) / block;
    lemma_block_order(w - base, first / block, block);
    lemma_block_order(w - base, (end + (block - 1)) / block, block);
    assert((first / block + base_blocks) * block == first / block * block + base_blocks * block)
        by (nonlinear_arith);
    assert(((end + (block - 1)) / block + base_blocks) * block == (end + (block - 1)) / block * block
        + base_blocks * block) by (nonlinear_arith);
    if axis.sampled(scale, t, w) {
        assert(first / block >= 0) by (nonlinear_arith)
            requires
                first >= 0,
                block >= 1,
        ;
        assert(first / block * block >= 0) by (nonlinear_arith)
            requires
                first / block >= 0,
                block >= 1,
        ;
        assert((tile + (block - 1)) / block == 16) by (nonlinear_arith)
            requires
                tile == 16 * block,
                block >= 1,
        ;
        assert((end + (block - 1)) / block <= (tile + (block - 1)) / block) by {
            vstd::arithmetic::div_mod::lemma_div_is_ordered(
                end + (block - 1),
                tile + (block - 1),
                block,
            );
        }
        assert((end + (block - 1)) / block * block <= 16 * block) by (nonlinear_arith)
            requires
                (end + (block - 1)) / block <= 16,
                block >= 1,
        ;
    }
}

/// Moving by whole blocks moves the quotient and keeps the remainder.
proof fn lemma_shift_blocks(a: int, n: int, block: int)
    requires
        block >= 1,
    ensures
        (a + n * block) / block == a / block + n,
        (a + n * block) % block == a % block,
{
    vstd::arithmetic::div_mod::lemma_hoist_over_denominator(a, n, block as nat);
    vstd::arithmetic::div_mod::lemma_mod_multiples_vanish(n, a, block);
    assert(block * n + a == a + n * block) by (nonlinear_arith);
}

/// A coordinate is in block `n` or later exactly if it is not before the start of that block.
proof fn lemma_block_order(a: int, n: int, block: int)
    requires
        block >= 1,
    ensures
        n <= a / block <==> n * block <= a,
{
    vstd::arithmetic::div_mod::lemma_fundamental_div_mod(a, block);
    vstd::arithmetic::div_mod::lemma_mod_bound(a, block);
    if n <= a / block {
        assert(n * block <= block * (a / block)) by (nonlinear_arith)
            requires
                n <= a / block,
                block >= 1,
        ;
    } else {
        assert((a / block + 1) * block <= n * block) by (nonlinear_arith)
            requires
                a / block + 1 <= n,
                block >= 1,
        ;
        assert((a / block + 1) * block == block * (a / block) + block) by (nonlinear_arith);
    }
}

/// What is known of pixel `u` when the samples before `upto` have been looked at.
spec fn seen(axis: Axis, scale: int, t: int, upto: int, u: int, sample: Option<usize>) -> bool {
    match sample {
        Some(w) => {
            &&& axis.sampled(scale, t, w as int)
            &&& axis.pixel_of(w as int) == u
            &&& w < upto
            &&& forall|x: int| #[trigger]
                axis.sampled(scale, t, x) && x < upto && axis.pixel_of(x) == u ==> x <= w
        },
        None => forall|x: int| #[trigger]
            axis.sampled(scale, t, x) && x < upto ==> axis.pixel_of(x) != u,
    }
}

/// The samples of a tile lie between the start of its first and the end of its last block.
proof fn lemma_sample_range(axis: Axis, scale: int, t: int, first: int, end: int, w: int)
    requires
        axis.valid(),
        1 <= scale,
        0 <= t,
        first == (if t * (64 * scale) > axis.low() { 0 } else { axis.low() - t * (64 * scale) }),
        end == (if t * (64 * scale) + 64 * scale < axis.high() {
            64 * scale
        } else {
            axis.high() - t * (64 * scale)
        }),
        axis.sampled(scale, t, w),
    ensures
        t * (64 * scale) + first / (4 * scale) * (4 * scale) <= w,
        w < t * (64 * scale) + (end + (4 * scale - 1)) / (4 * scale) * (4 * scale),
        first / (4 * scale) < (end + (4 * scale - 1)) / (4 * scale),
{
    let block = 4 * scale;
    lemma_sampled(axis, scale, t, w);
    lemma_block_order(w - t * (64 * scale), first / block, block);
    lemma_block_order(w - t * (64 * scale), (end + (block - 1)) / block, block);
}

/// Inside a block the samples are a pixel apart.
proof fn lemma_no_sample_between(axis: Axis, scale: int, t: int, b: int, k: int, x: int)
    requires
        axis.valid(),
        1 <= scale,
        0 <= t,
        0 <= k,
        k % (axis.zoom as int) == 0,
        t * (64 * scale) + b * (4 * scale) + k < x,
        x < t * (64 * scale) + b * (4 * scale) + k + axis.zoom,
        x < t * (64 * scale) + b * (4 * scale) + 4 * scale,
    ensures
        !axis.sampled(scale, t, x),
{
    let zoom = axis.zoom as int;
    let base = t * (64 * scale);
    let k2 = x - base - b * (4 * scale);
    vstd::arithmetic::div_mod::lemma_fundamental_div_mod_converse(x - base, 4 * scale, b, k2);
    lemma_sampled(axis, scale, t, x);
    vstd::arithmetic::div_mod::lemma_fundamental_div_mod(k, zoom);
    assert(zoom * (k / zoom) == (k / zoom) * zoom) by (nonlinear_arith);
    vstd::arithmetic::div_mod::lemma_fundamental_div_mod_converse(k2, zoom, k / zoom, k2 - k);
}

/// What one direction of the canvas shows of tile `t`: for each pixel the last world coordinate
/// that falls on it.
pub fn last_samples(axis: &Axis, scale: u8, t: usize) -> (samples: Vec<Option<usize>>)
    requires
        axis.valid(),
        scale >= 1,
        t <= axis.last_tile(scale as int),
    ensures
        samples@.len() == axis.pixels,
        forall|u: int|
            0 <= u < axis.pixels ==> match #[trigger] samples@[u] {
                Some(w) => axis.shows(scale as int, t as int, u, w as int),
                None => axis.blank(scale as int, t as int, u),
            },
{
    let tile: i64 = 64 * scale as i64;
    let block: i64 = 4 * scale as i64;
    let zoom: i64 = axis.zoom as i64;
    let n: usize = axis.pixels;
    proof {
        assert(n <= axis.zoom * n) by (nonlinear_arith)
            requires
                axis.zoom >= 1,
        ;
    }
    let half: i64 = (zoom * n as i64) / 2;
    let low: i64 = axis.center as i64 - half;
    let high: i64 = axis.center as i64 + half;
    proof {
        assert(low == axis.low() && high == axis.high());
        assert(t * tile <= i32::MAX) by {
            assert(t <= trunc_div(high as int, tile as int));
            let q = high as int / (tile as int);
            if high >= 0 {
                vstd::arithmetic::div_mod::lemma_fundamental_div_mod(high as int, tile as int);
                vstd::arithmetic::div_mod::lemma_mod_bound(high as int, tile as int);
                assert(t * tile <= tile * q) by (nonlinear_arith)
                    requires
                        t <= q,
                        tile >= 0,
                ;
            } else {
                vstd::arithmetic::div_mod::lemma_div_pos_is_pos(-high, tile as int);
                assert(t * tile == 0) by (nonlinear_arith)
                    requires
                        t == 0,
                ;
            }
        }
        assert(t <= t * tile) by (nonlinear_arith)
            requires
                tile >= 1,
        ;
    }
    let base: i64 = t as i64 * tile;
    let first: i64 = if base > low {
        0
    } else {
        low - base
    };
    let end: i64 = if base + tile < high {
        tile
    } else {
        high - base
    };
    let ghost first_block = first as int / (block as int);
    let ghost end_block = (end + (block - 1)) / (block as int);
    let mut samples: Vec<Option<usize>> = vec![None; n];
    let mut b: i64 = first / block;
    proof {
        vstd::arithmetic::div_mod::lemma_div_pos_is_pos(first as int, block as int);
    }
    // A canvas that ends before the tile leaves no block.
    let last: i64 = if end > 0 {
        (end + (block - 1)) / block
    } else {
        0
    };
    proof {
        if end <= 0 {
            vstd::arithmetic::div_mod::lemma_div_is_ordered(
                end + (block - 1),
                block - 1,
                block as int,
            );
            vstd::arithmetic::div_mod::lemma_basic_div(block - 1, block as int);
        } else {
            vstd::arithmetic::div_mod::lemma_div_pos_is_pos(end + (block - 1), block as int);
        }
        vstd::arithmetic::div_mod::lemma_div_is_ordered(
            end + (block - 1),
            tile + (block - 1),
            block as int,
        );
        assert((tile + (block - 1)) / (block as int) == 16) by (nonlinear_arith)
            requires
                tile == 16 * block,
                block >= 1,
        ;
    }
    proof {
        assert forall|u: int| 0 <= u < n implies seen(
            *axis,
            scale as int,
            t as int,
            base + b * block,
            u,
            #[trigger] samples@[u],
        ) by {
            assert forall|x: int| #[trigger] axis.sampled(scale as int, t as int, x) implies x >= base
                + b * block by {
                lemma_sample_range(*axis, scale as int, t as int, first as int, end as int, x);
            }
        }
    }
    while b < last
        invariant
            axis.valid(),
            scale >= 1,
            n == axis.pixels && n <= i32::MAX,
            samples@.len() == n,
            tile == 64 * scale && block == 4 * scale && zoom == axis.zoom,
            low == axis.low() && high == axis.high(),
            base == t * tile,
            0 <= base <= i32::MAX,
            first == (if base > low { 0 } else { low - base }),
            end == (if base + tile < high { tile as int } else { high - base }),
            first_block == first as int / (block as int),
            end_block == (end + (block - 1)) / (block as int),
            0 <= first_block <= b,
            end_block <= last,
            last <= 16,
            last == end_block || last == 0,
            forall|u: int|
                0 <= u < n ==> seen(
                    *axis,
                    scale as int,
                    t as int,
                    base + b * block,
                    u,
                    #[trigger] samples@[u],
                ),
        decreases last - b,
    {
        let mut k: i64 = 0;
        assert(b * block <= 16 * block) by (nonlinear_arith)
            requires
                b <= 16,
                block >= 1,
        ;
        assert(0 <= b * block) by (nonlinear_arith)
            requires
                b >= 0,
                block >= 1,
        ;
        while k < block
            invariant
                axis.valid(),
                scale >= 1,
                n == axis.pixels && n <= i32::MAX,
                samples@.len() == n,
                tile == 64 * scale && block == 4 * scale && zoom == axis.zoom,
                low == axis.low() && high == axis.high(),
                base == t * tile,
                0 <= base <= i32::MAX,
                first == (if base > low { 0 } else { low - base }),
                end == (if base + tile < high { tile as int } else { high - base }),
                first_block == first as int / (block as int),
                end_block == (end + (block - 1)) / (block as int),
                0 <= first_block <= b < end_block <= 16,
                0 <= b * block <= 16 * block,
                0 <= k < block + zoom,
                k as int % (zoom as int) == 0,
                forall|u: int|
                    0 <= u < n ==> seen(
                        *axis,
                        scale as int,
                        t as int,
                        base + b * block + (if k < block { k } else { block }),
                        u,
                        #[trigger] samples@[u],
                    ),
            decreases block + zoom - k,
        {
            let w: i64 = base + b * block + k;
            let u: i64 = (w - low) / zoom;
            let ghost before = samples@;
            proof {
                vstd::arithmetic::div_mod::lemma_fundamental_div_mod_converse(
                    w - base,
                    block as int,
                    b as int,
                    k as int,
                );
                lemma_sampled(*axis, scale as int, t as int, w as int);
                assert(u == axis.pixel_of(w as int));
            }
            if 0 <= u && u < n as i64 {
                samples[u as usize] = Some(w as usize);
            }
            proof {
                vstd::arithmetic::div_mod::lemma_mod_multiples_vanish(1, k as int, zoom as int);
                let next = base + b * block + (if k + zoom < block { k + zoom } else { block as int });
                assert forall|x: int| w < x < next implies !#[trigger] axis.sampled(
                    scale as int,
                    t as int,
                    x,
                ) by {
                    lemma_no_sample_between(*axis, scale as int, t as int, b as int, k as int, x);
                }
                assert forall|p: int| 0 <= p < n implies seen(
                    *axis,
                    scale as int,
                    t as int,
                    next,
                    p,
                    #[trigger] samples@[p],
                ) by {
                    assert(seen(*axis, scale as int, t as int, w as int, p, before[p]));
                }
            }
            k = k + zoom;
        }
        proof {
            assert((b + 1) * block == b * block + block) by (nonlinear_arith);
        }
        b += 1;
    }
    proof {
        assert forall|u: int| 0 <= u < n implies match #[trigger] samples@[u] {
            Some(w) => axis.shows(scale as int, t as int, u, w as int),
            None => axis.blank(scale as int, t as int, u),
        } by {
            assert(seen(*axis, scale as int, t as int, base + b * block, u, samples@[u]));
            assert forall|x: int| #[trigger] axis.sampled(scale as int, t as int, x) implies x < base
                + b * block by {
                lemma_sample_range(*axis, scale as int, t as int, first as int, end as int, x);
                assert(end_block * block <= b * block) by (nonlinear_arith)
                    requires
                        end_block <= b,
                        block >= 1,
                ;
            }
        }
    }
    samples
}

/// What a tile is painted with: where the canvas lies, which coordinates run along its rows and
/// its columns and which one is fixed, and how many world units a voxel of the tile covers.
pub struct Slice {
    pub u: Axis,
    pub v: Axis,
    pub u_coord: usize,
    pub v_coord: usize,
    pub plane_coord: usize,
    pub plane: i32,
    pub scale: u8,
}

/// The coordinates are the three of a volume, in some order.
pub open spec fn three_coords(u_coord: usize, v_coord: usize, plane_coord: usize) -> bool {
    &&& u_coord < 3 && v_coord < 3 && plane_coord < 3
    &&& u_coord != v_coord && v_coord != plane_coord && u_coord != plane_coord
}

/// The point with the given coordinate values.
pub open spec fn on_coords(slice: Slice, u: int, v: int, plane: int) -> Seq<int> {
    seq![0int, 0, 0].update(slice.u_coord as int, u).update(slice.v_coord as int, v).update(
        slice.plane_coord as int,
        plane,
    )
}

/// The coordinates of a tile as numbers.
pub open spec fn as_point(p: [usize; 3]) -> Seq<int> {
    seq![p@[0] as int, p@[1] as int, p@[2] as int]
}

impl Slice {
    pub open spec fn valid(&self) -> bool {
        &&& three_coords(self.u_coord, self.v_coord, self.plane_coord)
        &&& self.u.valid()
        &&& self.v.valid()
        &&& self.scale >= 1
    }

    /// The fixed world coordinate. Nothing lies below zero.
    pub open spec fn depth(&self) -> int {
        if self.plane > 0 {
            self.plane as int
        } else {
            0
        }
    }

    /// Where a tile stores the voxel at a world position.
    pub open spec fn stored(&self, wu: int, wv: int) -> int {
        let s = self.scale as int;
        let p = on_coords(*self, wu / s % 64, wv / s % 64, self.depth() / s % 64);
        tile_offset(p[0], p[1], p[2])
    }

    /// What is painted at (`x`, `y`) of a canvas that showed `before`, given a tile.
    pub open spec fn painted(
        &self,
        tile: Seq<u8>,
        tu: int,
        tv: int,
        config: DrawingConfig,
        x: int,
        y: int,
        before: Color32,
        after: Color32,
    ) -> bool {
        let s = self.scale as int;
        if self.u.blank(s, tu, x) || self.v.blank(s, tv, y) {
            after == before
        } else {
            exists|wu: int, wv: int|
                {
                    &&& #[trigger] self.u.shows(s, tu, x, wu)
                    &&& #[trigger] self.v.shows(s, tv, y, wv)
                    &&& after == Color32::gray(config.shown(tile[self.stored(wu, wv)]))
                }
        }
    }
}

impl Axis {
    /// The first and the last tile that the canvas touches; the last one is negative if there is
    /// none.
    fn tile_range(&self, scale: u8) -> (range: (i64, i64))
        requires
            self.valid(),
            scale >= 1,
        ensures
            range.0 == self.first_tile(scale as int),
            range.1 == self.last_tile(scale as int),
            0 <= range.0 <= i32::MAX,
            i32::MIN <= range.1 <= i32::MAX,
    {
        let tile: i64 = 64 * scale as i64;
        proof {
            assert(self.pixels <= self.zoom * self.pixels) by (nonlinear_arith)
                requires
                    self.zoom >= 1,
            ;
        }
        let half: i64 = (self.zoom as i64 * self.pixels as i64) / 2;
        let low: i64 = self.center as i64 - half;
        let high: i64 = self.center as i64 + half;
        proof {
            lemma_trunc_div_shrinks(low as int, tile as int);
            lemma_trunc_div_shrinks(high as int, tile as int);
        }
        let first: i64 = low / tile;
        let last: i64 = high / tile;
        if first > 0 {
            (first, last)
        } else {
            (0, last)
        }
    }
}

proof fn lemma_trunc_div_shrinks(a: int, b: int)
    requires
        b >= 1,
    ensures
        a >= 0 ==> 0 <= trunc_div(a, b) <= a,
        a < 0 ==> a <= trunc_div(a, b) <= 0,
{
    let m = if a >= 0 { a } else { -a };
    vstd::arithmetic::div_mod::lemma_div_pos_is_pos(m, b);
    vstd::arithmetic::div_mod::lemma_div_nonincreasing(m, b);
}

/// The tiles that the slice touches, column after column.
pub fn visible_tiles(slice: &Slice) -> (tiles: Vec<[usize; 3]>)
    requires
        slice.valid(),
    ensures
        tiles@.len() == slice.tile_count(),
        forall|i: int, j: int|
            0 <= i < slice.tile_columns() && 0 <= j < slice.tile_rows() ==> as_point(
                #[trigger] tiles@[flat2(slice.tile_rows(), j, i)],
            ) == on_coords(
                *slice,
                slice.u.first_tile(slice.scale as int) + i,
                slice.v.first_tile(slice.scale as int) + j,
                slice.depth() / (slice.scale as int) / 64,
            ),
{
    let mut tiles: Vec<[usize; 3]> = Vec::new();
    let ghost s = slice.scale as int;
    let (first_u, last_u) = slice.u.tile_range(slice.scale);
    let (first_v, last_v) = slice.v.tile_range(slice.scale);
    let depth: i32 = if slice.plane > 0 {
        slice.plane
    } else {
        0
    };
    let plane: usize = (depth / slice.scale as i32 / 64) as usize;
    if last_v < first_v {
        return tiles;
    }
    let ghost rows = last_v - first_v + 1;
    let mut tu: i64 = first_u;
    assert(0 * rows == 0) by (nonlinear_arith);
    while tu <= last_u
        invariant
            slice.valid(),
            s == slice.scale,
            first_u == slice.u.first_tile(s) && last_u == slice.u.last_tile(s),
            first_v == slice.v.first_tile(s) && last_v == slice.v.last_tile(s),
            0 <= first_u <= tu,
            tu <= last_u + 1 || tu == first_u,
            last_u <= i32::MAX,
            0 <= first_v <= last_v <= i32::MAX,
            rows == last_v - first_v + 1,
            plane == slice.depth() / s / 64,
            tiles@.len() == (tu - first_u) * rows,
            forall|i: int, j: int|
                0 <= i < tu - first_u && 0 <= j < rows ==> as_point(
                    #[trigger] tiles@[flat2(rows, j, i)],
                ) == on_coords(*slice, first_u + i, first_v + j, plane as int),
        decreases last_u + 1 - tu,
    {
        let mut tv: i64 = first_v;
        let ghost i0 = tu - first_u;
        while tv <= last_v
            invariant
                slice.valid(),
                s == slice.scale,
                0 <= first_u <= tu <= last_u <= i32::MAX,
                0 <= first_v <= tv <= last_v + 1,
                last_v <= i32::MAX,
                rows == last_v - first_v + 1,
                i0 == tu - first_u,
                tiles@.len() == i0 * rows + (tv - first_v),
                forall|i: int, j: int|
                    0 <= j < rows && (0 <= i < i0 || (i == i0 && j < tv - first_v)) ==> as_point(
                        #[trigger] tiles@[flat2(rows, j, i)],
                    ) == on_coords(*slice, first_u + i, first_v + j, plane as int),
            decreases last_v + 1 - tv,
        {
            let mut p: [usize; 3] = [0; 3];
            p[slice.u_coord] = tu as usize;
            p[slice.v_coord] = tv as usize;
            p[slice.plane_coord] = plane;
            let ghost before = tiles@;
            tiles.push(p);
            proof {
                assert(as_point(p) =~= on_coords(*slice, tu as int, tv as int, plane as int));
                assert forall|i: int, j: int|
                    0 <= j < rows && (0 <= i < i0 || (i == i0 && j < tv + 1 - first_v)) implies as_point(
                    #[trigger] tiles@[flat2(rows, j, i)],
                ) == on_coords(*slice, first_u + i, first_v + j, plane as int) by {
                    crate::grid::lemma_flat2_bound(rows, i0 + 1, j, i);
                    if i < i0 {
                        crate::grid::lemma_flat2_bound(rows, i0, j, i);
                    }
                    if flat2(rows, j, i) < before.len() {
                        assert(tiles@[flat2(rows, j, i)] == before[flat2(rows, j, i)]);
                    }
                }
            }
            tv += 1;
        }
        proof {
            assert((i0 + 1) * rows == i0 * rows + rows) by (nonlinear_arith);
        }
        tu += 1;
    }
    tiles
}

impl Slice {
    /// How many columns and rows of tiles the slice touches.
    pub open spec fn tile_columns(&self) -> int {
        self.u.last_tile(self.scale as int) - self.u.first_tile(self.scale as int) + 1
    }

    pub open spec fn tile_rows(&self) -> int {
        self.v.last_tile(self.scale as int) - self.v.first_tile(self.scale as int) + 1
    }

    /// How many tiles the slice touches.
    pub open spec fn tile_count(&self) -> int {
        if self.tile_columns() > 0 && self.tile_rows() > 0 {
            self.tile_columns() * self.tile_rows()
        } else {
            0
        }
    }

    /// The place of the tile that comes after `k` others, column after column.
    pub open spec fn nth_tile(&self, k: int) -> (int, int) {
        (
            self.u.first_tile(self.scale as int) + k / self.tile_rows(),
            self.v.first_tile(self.scale as int) + k % self.tile_rows(),
        )
    }

    /// What is painted at (`x`, `y`) of a canvas that showed `before`, given the first `n` of the
    /// tiles as far as they are there: of those that have something for the pixel the last is seen.
    pub open spec fn drawn(
        &self,
        tiles: spec_fn(int) -> Option<Seq<u8>>,
        n: int,
        config: DrawingConfig,
        x: int,
        y: int,
        before: Color32,
        after: Color32,
    ) -> bool
        decreases n,
    {
        if n <= 0 {
            after == before
        } else {
            let (tu, tv) = self.nth_tile(n - 1);
            let s = self.scale as int;
            if tiles(n - 1) is None || self.u.blank(s, tu, x) || self.v.blank(s, tv, y) {
                self.drawn(tiles, n - 1, config, x, y, before, after)
            } else {
                self.painted(tiles(n - 1)->0, tu, tv, config, x, y, before, after)
            }
        }
    }
}

/// The tiles of a slice stand at their places.
pub(crate) proof fn lemma_nth_tile(slice: Slice, tiles: Seq<[usize; 3]>, k: int)
    requires
        slice.valid(),
        tiles.len() == slice.tile_count(),
        forall|i: int, j: int|
            0 <= i < slice.tile_columns() && 0 <= j < slice.tile_rows() ==> as_point(
                #[trigger] tiles[flat2(slice.tile_rows(), j, i)],
            ) == on_coords(
                slice,
                slice.u.first_tile(slice.scale as int) + i,
                slice.v.first_tile(slice.scale as int) + j,
                slice.depth() / (slice.scale as int) / 64,
            ),
        0 <= k < tiles.len(),
    ensures
        tiles[k]@[slice.u_coord as int] == slice.nth_tile(k).0 <= slice.u.last_tile(slice.scale as int),
        tiles[k]@[slice.v_coord as int] == slice.nth_tile(k).1 <= slice.v.last_tile(slice.scale as int),
{
    let rows = slice.tile_rows();
    let columns = slice.tile_columns();
    let i = k / rows;
    let j = k % rows;
    assert(k == i * rows + j && 0 <= j < rows && 0 <= i < columns) by (nonlinear_arith)
        requires
            rows > 0,
            columns > 0,
            0 <= k < columns * rows,
            i == k / rows,
            j == k % rows,
    ;
    assert(flat2(rows, j, i) == k);
    assert(as_point(tiles[flat2(rows, j, i)]) == on_coords(
        slice,
        slice.u.first_tile(slice.scale as int) + i,
        slice.v.first_tile(slice.scale as int) + j,
        slice.depth() / (slice.scale as int) / 64,
    ));
    assert(as_point(tiles[k])[slice.u_coord as int] == slice.u.first_tile(slice.scale as int) + i);
    assert(as_point(tiles[k])[slice.v_coord as int] == slice.v.first_tile(slice.scale as int) + j);
}

/// Paints what the slice shows of the tile at (`tu`, `tv`).
pub fn paint_tile(
    slice: &Slice,
    tile: &[u8],
    tu: usize,
    tv: usize,
    config: &DrawingConfig,
    buffer: &mut Image,
)
    requires
        slice.valid(),
        tile@.len() == TILE_BYTES,
        tu <= slice.u.last_tile(slice.scale as int),
        tv <= slice.v.last_tile(slice.scale as int),
        config.usable(),
        old(buffer).valid(),
        slice.u.pixels <= old(buffer).width,
        slice.v.pixels <= old(buffer).height,
    ensures
        old(buffer).same_size(*final(buffer)),
        forall|x: int, y: int|
            old(buffer).inside(x, y) && (x >= slice.u.pixels || y >= slice.v.pixels)
                ==> #[trigger] final(buffer).pixel(x, y) == old(buffer).pixel(x, y),
        forall|x: int, y: int|
            0 <= x < slice.u.pixels && 0 <= y < slice.v.pixels ==> slice.painted(
                tile@,
                tu as int,
                tv as int,
                *config,
                x,
                y,
                old(buffer).pixel(x, y),
                #[trigger] final(buffer).pixel(x, y),
            ),
{
    let columns: Vec<Option<usize>> = last_samples(&slice.u, slice.scale, tu);
    let rows: Vec<Option<usize>> = last_samples(&slice.v, slice.scale, tv);
    let depth: usize = if slice.plane > 0 {
        slice.plane as usize
    } else {
        0
    };
    let scale: usize = slice.scale as usize;
    let ghost before = *buffer;
    let mut y: usize = 0;
    while y < rows.len()
        invariant
            slice.valid(),
            tile@.len() == TILE_BYTES,
            config.usable(),
            scale == slice.scale,
            depth == slice.depth(),
            before.same_size(*buffer),
            columns@.len() == slice.u.pixels <= before.width,
            rows@.len() == slice.v.pixels <= before.height,
            y <= rows@.len(),
            forall|i: int|
                0 <= i < columns@.len() ==> match #[trigger] columns@[i] {
                    Some(w) => slice.u.shows(scale as int, tu as int, i, w as int),
                    None => slice.u.blank(scale as int, tu as int, i),
                },
            forall|j: int|
                0 <= j < rows@.len() ==> match #[trigger] rows@[j] {
                    Some(w) => slice.v.shows(scale as int, tv as int, j, w as int),
                    None => slice.v.blank(scale as int, tv as int, j),
                },
            forall|i: int, j: int|
                before.inside(i, j) && (i >= slice.u.pixels || j >= y) ==> #[trigger] buffer.pixel(
                    i,
                    j,
                ) == before.pixel(i, j),
            forall|i: int, j: int|
                0 <= i < slice.u.pixels && 0 <= j < y ==> slice.painted(
                    tile@,
                    tu as int,
                    tv as int,
                    *config,
                    i,
                    j,
                    before.pixel(i, j),
                    #[trigger] buffer.pixel(i, j),
                ),
        decreases rows@.len() - y,
    {
        let mut x: usize = 0;
        while x < columns.len()
            invariant
                slice.valid(),
                tile@.len() == TILE_BYTES,
                config.usable(),
                scale == slice.scale,
                depth == slice.depth(),
                before.same_size(*buffer),
                columns@.len() == slice.u.pixels <= before.width,
                rows@.len() == slice.v.pixels <= before.height,
                y < rows@.len(),
                x <= columns@.len(),
                forall|i: int|
                    0 <= i < columns@.len() ==> match #[trigger] columns@[i] {
                        Some(w) => slice.u.shows(scale as int, tu as int, i, w as int),
                        None => slice.u.blank(scale as int, tu as int, i),
                    },
                forall|j: int|
                    0 <= j < rows@.len() ==> match #[trigger] rows@[j] {
                        Some(w) => slice.v.shows(scale as int, tv as int, j, w as int),
                        None => slice.v.blank(scale as int, tv as int, j),
                    },
                forall|i: int, j: int|
                    before.inside(i, j) && (i >= slice.u.pixels || j > y || (j == y && i >= x))
                        ==> #[trigger] buffer.pixel(i, j) == before.pixel(i, j),
                forall|i: int, j: int|
                    0 <= i < slice.u.pixels && (0 <= j < y || (j == y && i < x)) ==> slice.painted(
                        tile@,
                        tu as int,
                        tv as int,
                        *config,
                        i,
                        j,
                        before.pixel(i, j),
                        #[trigger] buffer.pixel(i, j),
                    ),
            decreases columns@.len() - x,
        {
            let ghost current = *buffer;
            assert(current.pixel(x as int, y as int) == before.pixel(x as int, y as int));
            if let (Some(wu), Some(wv)) = (columns[x], rows[y]) {
                let mut p: [usize; 3] = [0; 3];
                p[slice.u_coord] = wu / scale % 64;
                p[slice.v_coord] = wv / scale % 64;
                p[slice.plane_coord] = depth / scale % 64;
                let value: u8 = tile[tile_index(p[0], p[1], p[2])];
                let gray: u8 = config.filter(value);
                buffer.set_gray(x, y, gray);
                proof {
                    let q = on_coords(
                        *slice,
                        wu as int / scale as int % 64,
                        wv as int / scale as int % 64,
                        slice.depth() / scale as int % 64,
                    );
                    assert(as_point(p) =~= q);
                    assert(q[0] == p@[0] && q[1] == p@[1] && q[2] == p@[2]);
                    assert(slice.u.shows(scale as int, tu as int, x as int, wu as int));
                    assert(slice.v.shows(scale as int, tv as int, y as int, wv as int));
                    assert(slice.painted(
                        tile@,
                        tu as int,
                        tv as int,
                        *config,
                        x as int,
                        y as int,
                        before.pixel(x as int, y as int),
                        buffer.pixel(x as int, y as int),
                    ));
                }
            }
            x += 1;
        }
        y += 1;
    }
}

/// The voxel of a volume at (`x`, `y`, `z`), read from the tile that it lies in.
pub open spec fn voxel_in(tile: Seq<u8>, x: int, y: int, z: int) -> u8 {
    tile[tile_offset(x % 64, y % 64, z % 64)]
}

/// Computes [`voxel_in`].
pub fn get_voxel(tile: &[u8], x: usize, y: usize, z: usize) -> (v: u8)
    requires
        tile@.len() == TILE_BYTES,
    ensures
        v == voxel_in(tile@, x as int, y as int, z as int),
{
    tile[tile_index(x % 64, y % 64, z % 64)]
}

/// The corner `i` of the cube that starts at (`x`, `y`, `z`): bit 0 stands for x, bit 1 for y and
/// bit 2 for z.
pub open spec fn cube_corner(x: int, y: int, z: int, i: int) -> (int, int, int) {
    (x + i % 2, y + i / 2 % 2, z + i / 4)
}

/// All corners of the cube that starts at (`x`, `y`, `z`) lie in the same tile.
pub open spec fn in_one_tile(x: int, y: int, z: int) -> bool {
    x % 64 != 63 && y % 64 != 63 && z % 64 != 63
}

/// Tells whether all corners of a cube lie in the same tile.
pub fn fast_path(x: usize, y: usize, z: usize) -> (r: bool)
    ensures
        r == in_one_tile(x as int, y as int, z as int),
{
    x % 64 != 63 && y % 64 != 63 && z % 64 != 63
}

/// The eight voxels at the corners of a cube that lies in one tile.
pub fn corner_values(tile: &[u8], x: usize, y: usize, z: usize) -> (values: [u8; 8])
    requires
        tile@.len() == TILE_BYTES,
        in_one_tile(x as int, y as int, z as int),
    ensures
        forall|i: int|
            0 <= i < 8 ==> #[trigger] values@[i] == voxel_in(
                tile@,
                cube_corner(x as int, y as int, z as int, i).0,
                cube_corner(x as int, y as int, z as int, i).1,
                cube_corner(x as int, y as int, z as int, i).2,
            ),
{
    let tx: usize = x % 64;
    let ty: usize = y % 64;
    let tz: usize = z % 64;
    let mut values: [u8; 8] = [0; 8];
    let mut i: usize = 0;
    while i < 8
        invariant
            i <= 8,
            tile@.len() == TILE_BYTES,
            tx == x % 64 && ty == y % 64 && tz == z % 64,
            tx < 63 && ty < 63 && tz < 63,
            forall|k: int|
                0 <= k < i ==> #[trigger] values@[k] == voxel_in(
                    tile@,
                    cube_corner(x as int, y as int, z as int, k).0,
                    cube_corner(x as int, y as int, z as int, k).1,
                    cube_corner(x as int, y as int, z as int, k).2,
                ),
        decreases 8 - i,
    {
        let value: u8 = tile[tile_index(tx + i % 2, ty + i / 2 % 2, tz + i / 4)];
        proof {
            lemma_same_tile(x as int, i as int % 2);
            lemma_same_tile(y as int, i as int / 2 % 2);
            lemma_same_tile(z as int, i as int / 4);
        }
        values[i] = value;
        i += 1;
    }
    values
}

proof fn lemma_same_tile(x: int, d: int)
    requires
        0 <= x,
        x % 64 != 63,
        0 <= d <= 1,
    ensures
        (x + d) % 64 == x % 64 + d,
        (x + d) / 64 == x / 64,
{
}

/// The voxels at the corners of a cube.
pub fn cube_corners(x: usize, y: usize, z: usize) -> (corners: [[usize; 3]; 8])
    requires
        x < usize::MAX,
        y < usize::MAX,
        z < usize::MAX,
    ensures
        forall|i: int|
            0 <= i < 8 ==> ({
                let c = #[trigger] corners@[i];
                (c@[0] as int, c@[1] as int, c@[2] as int) == cube_corner(x as int, y as int, z as int, i)
            }),
{
    [
        [x, y, z],
        [x + 1, y, z],
        [x, y + 1, z],
        [x + 1, y + 1, z],
        [x, y, z + 1],
        [x + 1, y, z + 1],
        [x, y + 1, z + 1],
        [x + 1, y + 1, z + 1],
    ]
}

/// The corners of a cube that does not reach into the next tile all lie in the tile of its first
/// corner.
pub proof fn corners_lie_in_one_tile(x: int, y: int, z: int, i: int)
    requires
        0 <= x && 0 <= y && 0 <= z,
        in_one_tile(x, y, z),
        0 <= i < 8,
    ensures
        cube_corner(x, y, z, i).0 / 64 == x / 64,
        cube_corner(x, y, z, i).1 / 64 == y / 64,
        cube_corner(x, y, z, i).2 / 64 == z / 64,
{
    lemma_same_tile(x, i % 2);
    lemma_same_tile(y, i / 2 % 2);
    lemma_same_tile(z, i / 4);
}

/// A pixel whose world units do not lie below zero is shown by one of the visible tiles. The last
/// pixel of a canvas that covers an odd number of world units may be cut off by one unit.
pub proof fn visible_tiles_cover_the_canvas(axis: Axis, scale: int, u: int) -> (r: (int, int))
    requires
        axis.valid(),
        scale >= 1,
        0 <= u < axis.pixels,
        axis.low() + u * axis.zoom >= 0,
        axis.low() + (u + 1) * axis.zoom <= axis.high(),
    ensures
        axis.first_tile(scale) <= r.0 <= axis.last_tile(scale),
        axis.sampled(scale, r.0, r.1),
        axis.pixel_of(r.1) == u,
{
    let zoom = axis.zoom as int;
    let block = 4 * scale;
    let tile = 64 * scale;
    let start = axis.low() + u * zoom;
    assert((u + 1) * zoom == u * zoom + zoom) by (nonlinear_arith);
    assert(u * zoom >= 0) by (nonlinear_arith)
        requires
            u >= 0,
            zoom >= 1,
    ;
    // the first sample at or behind the start of the pixel
    let k = start % block;
    vstd::arithmetic::div_mod::lemma_fundamental_div_mod(start, block);
    vstd::arithmetic::div_mod::lemma_mod_bound(start, block);
    vstd::arithmetic::div_mod::lemma_fundamental_div_mod(k, zoom);
    vstd::arithmetic::div_mod::lemma_mod_bound(k, zoom);
    let next = if k % zoom == 0 { k } else { k - k % zoom + zoom };
    assert(next % zoom == 0) by {
        if k % zoom != 0 {
            assert(next == (k / zoom + 1) * zoom + 0) by (nonlinear_arith)
                requires
                    next == k - k % zoom + zoom,
                    k == zoom * (k / zoom) + k % zoom,
            ;
            vstd::arithmetic::div_mod::lemma_fundamental_div_mod_converse(next, zoom, k / zoom + 1, 0);
        }
    }
    let w = if next < block { start - k + next } else { start - k + block };
    assert(start <= w < start + zoom);
    let q = start / block;
    assert(w % block % zoom == 0) by {
        if next < block {
            assert(w == q * block + next) by (nonlinear_arith)
                requires
                    w == start - k + next,
                    start == block * q + k,
            ;
            vstd::arithmetic::div_mod::lemma_fundamental_div_mod_converse(w, block, q, next);
        } else {
            assert(w == (q + 1) * block + 0) by (nonlinear_arith)
                requires
                    w == start - k + block,
                    start == block * q + k,
            ;
            vstd::arithmetic::div_mod::lemma_fundamental_div_mod_converse(w, block, q + 1, 0);
            vstd::arithmetic::div_mod::lemma_small_mod(0, zoom as nat);
        }
    }
    let t = w / tile;
    vstd::arithmetic::div_mod::lemma_fundamental_div_mod(w, tile);
    vstd::arithmetic::div_mod::lemma_mod_bound(w, tile);
    assert(tile * t == t * tile) by (nonlinear_arith);
    // the pixel
    vstd::arithmetic::div_mod::lemma_fundamental_div_mod_converse(
        w - axis.low(),
        zoom,
        u,
        w - start,
    );
    // the block that the sample lies in
    let first = if t * tile > axis.low() { t * tile } else { axis.low() };
    let end = if t * tile + tile < axis.high() { t * tile + tile } else { axis.high() };
    assert(first <= w < end);
    vstd::arithmetic::div_mod::lemma_fundamental_div_mod(first, block);
    vstd::arithmetic::div_mod::lemma_mod_bound(first, block);
    assert(first / block * block == block * (first / block)) by (nonlinear_arith);
    vstd::arithmetic::div_mod::lemma_fundamental_div_mod(end + (block - 1), block);
    vstd::arithmetic::div_mod::lemma_mod_bound(end + (block - 1), block);
    let over = (end + (block - 1)) / block;
    assert(over * block == block * over) by (nonlinear_arith);
    // the tile is one of the visible ones
    vstd::arithmetic::div_mod::lemma_div_pos_is_pos(w, tile);
    if axis.low() >= 0 {
        vstd::arithmetic::div_mod::lemma_div_is_ordered(axis.low(), w, tile);
    } else {
        vstd::arithmetic::div_mod::lemma_div_pos_is_pos(-axis.low(), tile);
    }
    vstd::arithmetic::div_mod::lemma_div_is_ordered(w, axis.high(), tile);
    (t, w)
}

/// Division goes towards zero, and what is left over is smaller than the divisor.
pub proof fn quotients_go_towards_zero(a: int, b: int)
    requires
        b >= 1,
    ensures
        a >= 0 ==> trunc_div(a, b) >= 0 && trunc_div(a, b) * b <= a < (trunc_div(a, b) + 1) * b,
        a <= 0 ==> trunc_div(a, b) <= 0 && (trunc_div(a, b) - 1) * b < a <= trunc_div(a, b) * b,
        trunc_div(-a, b) == -trunc_div(a, b),
{
    let m = if a >= 0 { a } else { -a };
    vstd::arithmetic::div_mod::lemma_fundamental_div_mod(m, b);
    vstd::arithmetic::div_mod::lemma_mod_bound(m, b);
    vstd::arithmetic::div_mod::lemma_div_pos_is_pos(m, b);
    let q = m / b;
    assert(b * q == q * b) by (nonlinear_arith);
    assert((q + 1) * b == q * b + b) by (nonlinear_arith);
    assert((-q - 1) * b == -(q * b) - b) by (nonlinear_arith);
    assert((-q) * b == -(q * b)) by (nonlinear_arith);
    if a == 0 {
        vstd::arithmetic::div_mod::lemma_div_of0(b);
    }
}

/// The middle of a canvas shows the world coordinate that it is around, its first pixel the
/// coordinate where it starts, and each pixel covers `zoom` world units.
pub proof fn canvases_show_their_middle(axis: Axis, w: int)
    requires
        axis.valid(),
    ensures
        axis.pixel_of(axis.center as int) == axis.pixels as int / 2,
        axis.pixel_of(axis.low()) == 0,
        w >= axis.low() ==> axis.pixel_of(w + axis.zoom) == axis.pixel_of(w) + 1,
        w >= axis.low() ==> axis.low() + axis.pixel_of(w) * axis.zoom <= w < axis.low() + (
        axis.pixel_of(w) + 1) * axis.zoom,
        axis.center - axis.low() == axis.high() - axis.center,
        axis.zoom * axis.pixels - 1 <= axis.high() - axis.low() <= axis.zoom * axis.pixels,
{
    let zoom = axis.zoom as int;
    let n = axis.pixels as int;
    let total = zoom * n;
    assert(0 <= total) by (nonlinear_arith)
        requires
            zoom >= 1,
            n >= 0,
            total == zoom * n,
    ;
    let r = axis.half() - (n / 2) * zoom;
    assert(0 <= r < zoom) by {
        let h = n / 2;
        assert(zoom * n == 2 * (h * zoom) + zoom * (n % 2)) by (nonlinear_arith)
            requires
                n == 2 * h + n % 2,
        ;
        assert(zoom * 0 == 0 && zoom * 1 == zoom) by (nonlinear_arith);
        assert(n % 2 == 0 || n % 2 == 1);
    }
    vstd::arithmetic::div_mod::lemma_fundamental_div_mod_converse(axis.half(), zoom, n / 2, r);
    vstd::arithmetic::div_mod::lemma_div_of0(zoom);
    if w >= axis.low() {
        let d = w - axis.low();
        quotients_go_towards_zero(d, zoom);
        quotients_go_towards_zero(d + zoom, zoom);
        let (q, q2) = (trunc_div(d, zoom), trunc_div(d + zoom, zoom));
        assert(q2 == q + 1) by (nonlinear_arith)
            requires
                q * zoom <= d < (q + 1) * zoom,
                q2 * zoom <= d + zoom < (q2 + 1) * zoom,
                zoom >= 1,
        ;
    }
}

/// The first visible tile holds the start of the canvas and the last one its end. Nothing lies below
/// zero.
pub proof fn visible_tiles_hold_the_ends(axis: Axis, scale: int)
    requires
        axis.valid(),
        scale >= 1,
    ensures
        axis.low() <= 0 ==> axis.first_tile(scale) == 0,
        axis.low() >= 0 ==> axis.first_tile(scale) * (64 * scale) <= axis.low() < (axis.first_tile(
            scale,
        ) + 1) * (64 * scale),
        axis.high() >= 0 ==> axis.last_tile(scale) * (64 * scale) <= axis.high() < (axis.last_tile(
            scale,
        ) + 1) * (64 * scale),
{
    quotients_go_towards_zero(axis.low(), 64 * scale);
    quotients_go_towards_zero(axis.high(), 64 * scale);
}

/// What is looked at in a tile lies in that tile, and less than a block away from the canvas.
pub proof fn samples_lie_in_their_tile(axis: Axis, scale: int, t: int, w: int)
    requires
        scale >= 1,
        axis.sampled(scale, t, w),
    ensures
        t * (64 * scale) <= w < (t + 1) * (64 * scale),
        axis.low() - 4 * scale < w < axis.high() + 4 * scale,
{
    let tile = 64 * scale;
    let block = 4 * scale;
    let first = if t * tile > axis.low() { t * tile } else { axis.low() };
    let end = if t * tile + tile < axis.high() { t * tile + tile } else { axis.high() };
    assert((t + 1) * tile == t * tile + tile) by (nonlinear_arith);
    let (a, b) = (first / block, (end + (block - 1)) / block);
    vstd::arithmetic::div_mod::lemma_fundamental_div_mod(first, block);
    vstd::arithmetic::div_mod::lemma_mod_bound(first, block);
    vstd::arithmetic::div_mod::lemma_fundamental_div_mod(end + (block - 1), block);
    vstd::arithmetic::div_mod::lemma_mod_bound(end + (block - 1), block);
    assert(block * a == a * block && block * b == b * block) by (nonlinear_arith);
    assert(t * tile == (16 * t) * block) by (nonlinear_arith)
        requires
            tile == 64 * scale,
            block == 4 * scale,
    ;
    assert(t * tile + tile == (16 * t + 16) * block) by (nonlinear_arith)
        requires
            t * tile == (16 * t) * block,
            tile == 16 * block,
    ;
    let s = 16 * t;
    assert(a >= s) by (nonlinear_arith)
        requires
            first >= s * block,
            first < a * block + block,
            block >= 1,
    ;
    assert(b <= s + 16) by (nonlinear_arith)
        requires
            end <= (s + 16) * block,
            b * block <= end + (block - 1),
            block >= 1,
    ;
    assert(a * block >= s * block && b * block <= (s + 16) * block) by (nonlinear_arith)
        requires
            a >= s,
            b <= s + 16,
            block >= 1,
    ;
}

/// A tile that has something for a pixel shows there the voxel of a point that lies in the tile and,
/// unless it lies before the canvas, in the pixel. The brightness is what the filters make of it.
pub proof fn painted_pixels_show_their_voxels(
    slice: Slice,
    tile: Seq<u8>,
    tu: int,
    tv: int,
    config: DrawingConfig,
    x: int,
    y: int,
    before: Color32,
    after: Color32,
    a: int,
    b: int,
)
    requires
        slice.valid(),
        slice.painted(tile, tu, tv, config, x, y, before, after),
        slice.u.sampled(slice.scale as int, tu, a),
        slice.u.pixel_of(a) == x,
        slice.v.sampled(slice.scale as int, tv, b),
        slice.v.pixel_of(b) == y,
    ensures
        exists|wu: int, wv: int|
            #![trigger slice.u.pixel_of(wu), slice.v.pixel_of(wv)]
            {
                let s = slice.scale as int;
                let p = on_coords(slice, wu / s, wv / s, slice.depth() / s);
                &&& a <= wu
                &&& b <= wv
                &&& tu * (64 * s) <= wu < (tu + 1) * (64 * s)
                &&& tv * (64 * s) <= wv < (tv + 1) * (64 * s)
                &&& wu >= slice.u.low() ==> slice.u.low() + x * slice.u.zoom <= wu < slice.u.low() + (x
                    + 1) * slice.u.zoom
                &&& wv >= slice.v.low() ==> slice.v.low() + y * slice.v.zoom <= wv < slice.v.low() + (y
                    + 1) * slice.v.zoom
                &&& after == Color32::gray(config.shown(voxel_in(tile, p[0], p[1], p[2])))
            },
{
    let s = slice.scale as int;
    assert(!slice.u.blank(s, tu, x));
    assert(!slice.v.blank(s, tv, y));
    let (wu, wv) = choose|wu: int, wv: int|
        {
            &&& #[trigger] slice.u.shows(s, tu, x, wu)
            &&& #[trigger] slice.v.shows(s, tv, y, wv)
            &&& after == Color32::gray(config.shown(tile[slice.stored(wu, wv)]))
        };
    samples_lie_in_their_tile(slice.u, s, tu, wu);
    samples_lie_in_their_tile(slice.v, s, tv, wv);
    canvases_show_their_middle(slice.u, wu);
    canvases_show_their_middle(slice.v, wv);
    let p = on_coords(slice, wu / s, wv / s, slice.depth() / s);
    let q = on_coords(slice, wu / s % 64, wv / s % 64, slice.depth() / s % 64);
    assert(q[0] == p[0] % 64 && q[1] == p[1] % 64 && q[2] == p[2] % 64);
    assert(after == Color32::gray(config.shown(voxel_in(tile, p[0], p[1], p[2]))));
}

/// A point has the given values along the coordinates of the slice, and a slice below zero is read at
/// zero.
pub proof fn points_have_their_coordinates(slice: Slice, u: int, v: int, plane: int)
    requires
        slice.valid(),
    ensures
        on_coords(slice, u, v, plane).len() == 3,
        on_coords(slice, u, v, plane)[slice.u_coord as int] == u,
        on_coords(slice, u, v, plane)[slice.v_coord as int] == v,
        on_coords(slice, u, v, plane)[slice.plane_coord as int] == plane,
        slice.plane >= 0 ==> slice.depth() == slice.plane,
        slice.plane <= 0 ==> slice.depth() == 0,
{
}

/// A voxel is the byte of its tile that its block and its place in the block name, and the tiles
/// follow each other every 64 voxels.
pub proof fn voxels_are_read_block_by_block(
    tile: Seq<u8>,
    t: (int, int, int),
    block: (int, int, int),
    place: (int, int, int),
)
    requires
        0 <= block.0 < 16 && 0 <= block.1 < 16 && 0 <= block.2 < 16,
        0 <= place.0 < 4 && 0 <= place.1 < 4 && 0 <= place.2 < 4,
    ensures
        voxel_in(
            tile,
            t.0 * 64 + block.0 * 4 + place.0,
            t.1 * 64 + block.1 * 4 + place.1,
            t.2 * 64 + block.2 * 4 + place.2,
        ) == tile[block.0 * 64 + block.1 * 1024 + block.2 * 16384 + place.0 + place.1 * 4 + place.2 * 16],
{
    assert((t.0 * 64 + block.0 * 4 + place.0) % 64 == block.0 * 4 + place.0);
    assert((t.1 * 64 + block.1 * 4 + place.1) % 64 == block.1 * 4 + place.1);
    assert((t.2 * 64 + block.2 * 4 + place.2) % 64 == block.2 * 4 + place.2);
}

/// The corner that lies `dx`, `dy` and `dz` steps along the three coordinates has the number that
/// has these as its bits, the one of x being the lowest.
pub proof fn cube_corners_are_numbered_by_their_bits(x: int, y: int, z: int, dx: int, dy: int, dz: int)
    requires
        0 <= dx <= 1,
        0 <= dy <= 1,
        0 <= dz <= 1,
    ensures
        cube_corner(x, y, z, dx + 2 * dy + 4 * dz) == (x + dx, y + dy, z + dz),
        in_one_tile(x, y, z) <==> (x + 1) / 64 == x / 64 && (y + 1) / 64 == y / 64 && (z + 1) / 64 == z
            / 64,
{
}

/// The tiles of a slice come column by column, and in a column from top to bottom.
pub proof fn slice_tiles_come_column_by_column(slice: Slice, i: int, j: int)
    requires
        0 <= i,
        0 <= j < slice.tile_rows(),
    ensures
        slice.nth_tile(i * slice.tile_rows() + j) == (
            slice.u.first_tile(slice.scale as int) + i,
            slice.v.first_tile(slice.scale as int) + j,
        ),
        i < slice.tile_columns() <==> slice.nth_tile(i * slice.tile_rows() + j).0 <= slice.u.last_tile(
            slice.scale as int,
        ),
        slice.v.first_tile(slice.scale as int) <= slice.nth_tile(i * slice.tile_rows() + j).1
            <= slice.v.last_tile(slice.scale as int),
        i < slice.tile_columns() ==> i * slice.tile_rows() + j < slice.tile_count(),
{
    let rows = slice.tile_rows();
    vstd::arithmetic::div_mod::lemma_fundamental_div_mod_converse(i * rows + j, rows, i, j);
    if i < slice.tile_columns() {
        let columns = slice.tile_columns();
        assert(i * rows + j < columns * rows) by (nonlinear_arith)
            requires
                0 <= i < columns,
                0 <= j < rows,
        ;
    }
}

/// Where tiles have something for the same pixel the last one is seen. A pixel for which no tile has
/// anything keeps its colour.
pub proof fn later_tiles_are_seen(
    slice: Slice,
    tiles: spec_fn(int) -> Option<Seq<u8>>,
    k: int,
    n: int,
    config: DrawingConfig,
    x: int,
    y: int,
    before: Color32,
    after: Color32,
)
    requires
        k < n,
        0 <= n,
        -1 <= k,
        forall|j: int|
            k < j < n ==> (#[trigger] tiles(j)) is None || slice.u.blank(
                slice.scale as int,
                slice.nth_tile(j).0,
                x,
            ) || slice.v.blank(slice.scale as int, slice.nth_tile(j).1, y),
        k >= 0 ==> {
            &&& tiles(k) is Some
            &&& !slice.u.blank(slice.scale as int, slice.nth_tile(k).0, x)
            &&& !slice.v.blank(slice.scale as int, slice.nth_tile(k).1, y)
        },
    ensures
        k < 0 ==> (slice.drawn(tiles, n, config, x, y, before, after) <==> after == before),
        k >= 0 ==> (slice.drawn(tiles, n, config, x, y, before, after) <==> slice.painted(
            tiles(k)->0,
            slice.nth_tile(k).0,
            slice.nth_tile(k).1,
            config,
            x,
            y,
            before,
            after,
        )),
    decreases n,
{
    if n > 0 && n - 1 > k {
        assert(tiles(n - 1) is None || slice.u.blank(
            slice.scale as int,
            slice.nth_tile(n - 1).0,
            x,
        ) || slice.v.blank(slice.scale as int, slice.nth_tile(n - 1).1, y));
        later_tiles_are_seen(slice, tiles, k, n - 1, config, x, y, before, after);
    }
}

/// A block is looked at from its start on, in steps of a pixel: what is looked at lies a whole number of
/// pixels behind the start of its block, and every such place of the block is looked at too.
pub proof fn samples_are_a_pixel_apart(axis: Axis, scale: int, t: int, w: int, k: int)
    requires
        axis.valid(),
        scale >= 1,
        axis.sampled(scale, t, w),
        0 <= k,
        k * axis.zoom < 4 * scale,
    ensures
        exists|n: int| 0 <= n && #[trigger] (n * axis.zoom) == w - w / (4 * scale) * (4 * scale),
        axis.sampled(scale, t, w / (4 * scale) * (4 * scale) + k * axis.zoom),
{
    let block = 4 * scale;
    let zoom = axis.zoom as int;
    let (q, m) = (w / block, w % block);
    vstd::arithmetic::div_mod::lemma_fundamental_div_mod(w, block);
    vstd::arithmetic::div_mod::lemma_mod_bound(w, block);
    vstd::arithmetic::div_mod::lemma_fundamental_div_mod(m, zoom);
    vstd::arithmetic::div_mod::lemma_div_pos_is_pos(m, zoom);
    assert(block * q == q * block) by (nonlinear_arith);
    let n = m / zoom;
    assert(zoom * n == n * zoom) by (nonlinear_arith);
    assert(n * axis.zoom == w - q * block);
    let other = q * block + k * zoom;
    assert(0 <= k * zoom) by (nonlinear_arith)
        requires
            0 <= k,
            1 <= zoom,
    ;
    vstd::arithmetic::div_mod::lemma_fundamental_div_mod_converse(other, block, q, k * zoom);
    vstd::arithmetic::div_mod::lemma_mod_multiples_basic(k, zoom);
    let tile = 64 * scale;
    let first = if t * tile > axis.low() { t * tile } else { axis.low() };
    let end = if t * tile + tile < axis.high() { t * tile + tile } else { axis.high() };
    let (a, b) = (first / block, (end + (block - 1)) / block);
    assert(a <= q < b) by (nonlinear_arith)
        requires
            a * block <= w < b * block,
            w == q * block + m,
            0 <= m < block,
    ;
    assert(a * block <= q * block && q * block + block <= b * block) by (nonlinear_arith)
        requires
            a <= q,
            q + 1 <= b,
            block >= 1,
    ;
}

} // verus!
