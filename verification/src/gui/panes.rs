//! The panes that show a volume, tile by tile.

use crate::text::{push_number, push_signed, signed_digits, digits};
use crate::volume::generic::{in_range, Canvas, PaintVolume};
use crate::volume::image::{Color32, Image};
use crate::volume::DrawingConfig;
use vstd::prelude::*;
use vstd::string::*;

verus! {

/// Which plane a pane shows.
#[derive(Clone, Copy, PartialEq, Eq, Structural)]
pub enum PaneType {
    XY,
    XZ,
    YZ,
    /// The surface of a segment.
    UV,
}

impl PaneType {
    /// The coordinate that runs to the right, the one that runs down, and the one that is fixed.
    pub open spec fn axes(&self) -> (usize, usize, usize) {
        match self {
            PaneType::XY => (0, 1, 2),
            PaneType::XZ => (0, 2, 1),
            PaneType::YZ => (2, 1, 0),
            PaneType::UV => (0, 1, 2),
        }
    }

    pub open spec fn name(&self) -> Seq<char> {
        match self {
            PaneType::XY => "XY"@,
            PaneType::XZ => "XZ"@,
            PaneType::YZ => "YZ"@,
            PaneType::UV => "UV"@,
        }
    }

    pub fn coordinates(&self) -> (r: (usize, usize, usize))
        ensures
            r == self.axes(),
            r.0 < 3 && r.1 < 3 && r.2 < 3,
            r.0 != r.1 && r.1 != r.2 && r.0 != r.2,
    {
        match self {
            PaneType::XY => (0, 1, 2),
            PaneType::XZ => (0, 2, 1),
            PaneType::YZ => (2, 1, 0),
            PaneType::UV => (0, 1, 2),
        }
    }

    pub fn label(&self) -> (r: &'static str)
        ensures
            r@ == self.name(),
    {
        match self {
            PaneType::XY => "XY",
            PaneType::XZ => "XZ",
            PaneType::YZ => "YZ",
            PaneType::UV => "UV",
        }
    }
}

/// The length of a tile's side in pixels.
pub const TILE_SIZE: usize = 256;

/// The coarsest resolution level.
pub const MAX_LEVEL: u32 = 4;

/// The smallest and the largest value of a coordinate.
#[derive(Clone, Copy, PartialEq, Eq, Structural)]
pub struct CoordRange {
    pub start: i32,
    pub end: i32,
}

impl CoordRange {
    pub open spec fn valid(&self) -> bool {
        self.start <= self.end
    }

    pub open spec fn contains(&self, c: int) -> bool {
        self.start <= c <= self.end
    }

    /// The value of the range that is nearest.
    pub open spec fn nearest(&self, c: int) -> int {
        if c < self.start {
            self.start as int
        } else if c > self.end {
            self.end as int
        } else {
            c
        }
    }

    /// Computes [`Self::nearest`].
    pub fn clamp_to(&self, c: i64) -> (r: i32)
        requires
            self.valid(),
        ensures
            r == self.nearest(c as int),
            self.contains(r as int),
    {
        if c < self.start as i64 {
            self.start
        } else if c > self.end as i64 {
            self.end
        } else {
            c as i32
        }
    }
}

/// The ranges of three coordinates.
pub open spec fn ranges_valid(ranges: [CoordRange; 3]) -> bool {
    ranges@[0].valid() && ranges@[1].valid() && ranges@[2].valid()
}

/// Every coordinate lies in its range.
pub open spec fn in_ranges(coord: [i32; 3], ranges: [CoordRange; 3]) -> bool {
    &&& ranges@[0].contains(coord@[0] as int)
    &&& ranges@[1].contains(coord@[1] as int)
    &&& ranges@[2].contains(coord@[2] as int)
}

/// How many bits a number has.
pub open spec fn bit_length(n: int) -> int
    decreases n,
{
    if n <= 0 {
        0
    } else {
        1 + bit_length(n / 2)
    }
}

/// The finest level that is painted. `ratio` tells how many voxels fall on a pixel.
pub open spec fn min_level(ratio: u32) -> int {
    if bit_length(ratio as int) < MAX_LEVEL {
        bit_length(ratio as int)
    } else {
        MAX_LEVEL as int
    }
}

/// The coarsest level that is painted.
pub open spec fn max_level(ratio: u32, extra_resolutions: u32) -> int {
    if min_level(ratio) + extra_resolutions < MAX_LEVEL {
        min_level(ratio) + extra_resolutions
    } else {
        MAX_LEVEL as int
    }
}

/// Two to the power of a small number.
pub open spec fn factor(level: int) -> int
    decreases level,
{
    if level <= 0 {
        1
    } else {
        2 * factor(level - 1)
    }
}

fn finest_level(ratio: u32) -> (r: u32)
    ensures
        r == min_level(ratio),
{
    proof {
        reveal_with_fuel(bit_length, 5);
        lemma_bit_length(ratio as int / 16);
    }
    if ratio == 0 {
        0
    } else if ratio < 2 {
        1
    } else if ratio < 4 {
        2
    } else if ratio < 8 {
        3
    } else {
        4
    }
}

proof fn lemma_bit_length(n: int)
    ensures
        bit_length(n) >= 0,
    decreases n,
{
    if n > 0 {
        lemma_bit_length(n / 2);
    }
}

/// The scale factors of the levels that are painted, the coarsest first, so that what is known in
/// more detail covers it.
pub fn paint_factors(ratio: u32, extra_resolutions: u32) -> (r: Vec<u8>)
    ensures
        r@.len() == max_level(ratio, extra_resolutions) - min_level(ratio) + 1,
        forall|i: int|
            0 <= i < r@.len() ==> #[trigger] r@[i] == factor(max_level(ratio, extra_resolutions) - i),
        forall|i: int| 0 <= i < r@.len() ==> 1 <= #[trigger] r@[i] <= 16,
{
    let lowest: u32 = finest_level(ratio);
    proof {
        lemma_bit_length(ratio as int);
    }
    let highest: u32 = if extra_resolutions < MAX_LEVEL - lowest {
        lowest + extra_resolutions
    } else {
        MAX_LEVEL
    };
    let mut r: Vec<u8> = Vec::new();
    let mut level: u32 = highest + 1;
    while level > lowest
        invariant
            lowest == min_level(ratio),
            highest == max_level(ratio, extra_resolutions),
            0 <= lowest <= highest <= 4,
            lowest <= level <= highest + 1,
            r@.len() == highest + 1 - level,
            forall|i: int| 0 <= i < r@.len() ==> #[trigger] r@[i] == factor(highest - i),
            forall|i: int| 0 <= i < r@.len() ==> 1 <= #[trigger] r@[i] <= 16,
        decreases level,
    {
        level = level - 1;
        reveal_with_fuel(factor, 5);
        let f: u8 = if level == 0 {
            1
        } else if level == 1 {
            2
        } else if level == 2 {
            4
        } else if level == 3 {
            8
        } else {
            16
        };
        assert(f == factor(level as int));
        r.push(f);
    }
    r
}

/// How far one turn of the wheel goes: as far as a voxel of the level that is shown.
pub open spec fn scroll_step(ratio: u32) -> int {
    factor(
        if ratio < MAX_LEVEL {
            ratio as int
        } else {
            MAX_LEVEL as int
        },
    )
}

/// Division that goes towards zero.
pub open spec fn towards_zero(a: int, b: int) -> int {
    if a >= 0 {
        a / b
    } else {
        -((-a) / b)
    }
}

/// The multiple of the step that is reached from `c`.
pub open spec fn scrolled(c: int, up: bool, step: int) -> int {
    towards_zero(
        if up {
            c + step
        } else {
            c - step
        },
        step,
    ) * step
}

/// A pane, and whether it shows the surface of a segment.
#[derive(Clone, Copy, PartialEq, Eq, Structural)]
pub struct VolumePane {
    pub pane_type: PaneType,
    pub is_segment_pane: bool,
}

/// A tile of a pane, counted from the origin of the world.
#[derive(Clone, Copy, PartialEq, Eq, Structural)]
pub struct PaneTile {
    pub tile_x: i32,
    pub tile_y: i32,
}

/// How many world units a tile covers.
pub open spec fn tile_extent(paint_zoom: u8) -> int {
    TILE_SIZE * paint_zoom
}

/// The tiles from one before the first to one behind the last.
pub open spec fn tile_listed(t: PaneTile, start_x: int, end_x: int, start_y: int, end_y: int) -> bool {
    &&& start_x - 1 <= t.tile_x <= end_x
    &&& start_y - 1 <= t.tile_y <= end_y
}

/// Row by row, from left to right.
pub open spec fn tile_precedes(a: PaneTile, b: PaneTile) -> bool {
    a.tile_y < b.tile_y || (a.tile_y == b.tile_y && a.tile_x < b.tile_x)
}

impl VolumePane {
    pub fn new(pane_type: PaneType, is_segment_pane: bool) -> (r: VolumePane)
        ensures
            r.pane_type == pane_type,
            r.is_segment_pane == is_segment_pane,
    {
        VolumePane { pane_type, is_segment_pane }
    }

    /// The tiles that can be seen, with one more on each side. The tiles from `start` to before
    /// `end` touch the view.
    pub fn calculate_visible_tiles(&self, start_x: i32, end_x: i32, start_y: i32, end_y: i32) -> (r: Vec<
        PaneTile,
    >)
        requires
            i32::MIN < start_x,
            i32::MIN < start_y,
            end_x < i32::MAX,
            end_y < i32::MAX,
        ensures
            forall|t: PaneTile|
                r@.contains(t) <==> #[trigger] tile_listed(
                    t,
                    start_x as int,
                    end_x as int,
                    start_y as int,
                    end_y as int,
                ),
            forall|i: int, j: int|
                0 <= i < j < r@.len() ==> tile_precedes(#[trigger] r@[i], #[trigger] r@[j]),
    {
        let mut r: Vec<PaneTile> = Vec::new();
        let mut y: i32 = start_y - 1;
        while y < end_y + 1
            invariant
                i32::MIN < start_x,
                end_x < i32::MAX,
                end_y < i32::MAX,
                start_y - 1 <= y,
                y <= end_y + 1 || y == start_y - 1,
                forall|t: PaneTile|
                    r@.contains(t) <==> #[trigger] tile_listed(
                        t,
                        start_x as int,
                        end_x as int,
                        start_y as int,
                        end_y as int,
                    ) && t.tile_y < y,
                forall|i: int, j: int|
                    0 <= i < j < r@.len() ==> tile_precedes(#[trigger] r@[i], #[trigger] r@[j]),
                forall|i: int| 0 <= i < r@.len() ==> (#[trigger] r@[i]).tile_y < y,
            decreases end_y + 1 - y,
        {
            let mut x: i32 = start_x - 1;
            while x < end_x + 1
                invariant
                    i32::MIN < start_x,
                    end_x < i32::MAX,
                    start_y - 1 <= y <= end_y,
                    start_x - 1 <= x,
                    x <= end_x + 1 || x == start_x - 1,
                    forall|t: PaneTile|
                        r@.contains(t) <==> #[trigger] tile_listed(
                            t,
                            start_x as int,
                            end_x as int,
                            start_y as int,
                            end_y as int,
                        ) && (t.tile_y < y || (t.tile_y == y && t.tile_x < x)),
                    forall|i: int, j: int|
                        0 <= i < j < r@.len() ==> tile_precedes(#[trigger] r@[i], #[trigger] r@[j]),
                    forall|i: int|
                        0 <= i < r@.len() ==> (#[trigger] r@[i]).tile_y < y || (r@[i].tile_y == y
                            && r@[i].tile_x < x),
                decreases end_x + 1 - x,
            {
                let ghost before = r@;
                let tile = PaneTile { tile_x: x, tile_y: y };
                r.push(tile);
                assert forall|t: PaneTile| #[trigger] r@.contains(t) <==> before.contains(t) || t == tile by {
                    if before.contains(t) {
                        let k = choose|k: int| 0 <= k < before.len() && before[k] == t;
                        assert(r@[k] == t);
                    }
                    assert(r@[before.len() as int] == tile);
                    if r@.contains(t) && t != tile {
                        let k = choose|k: int| 0 <= k < r@.len() && r@[k] == t;
                        assert(before[k] == t);
                    }
                }
                x += 1;
            }
            y += 1;
        }
        r
    }

    /// The middle of a tile in the world.
    pub fn tile_center(&self, tile: PaneTile, coord: [i32; 3], paint_zoom: u8) -> (r: [i32; 3])
        requires
            i32::MIN <= tile.tile_x * tile_extent(paint_zoom),
            (tile.tile_x + 1) * tile_extent(paint_zoom) <= i32::MAX,
            i32::MIN <= tile.tile_y * tile_extent(paint_zoom),
            (tile.tile_y + 1) * tile_extent(paint_zoom) <= i32::MAX,
        ensures
            is_tile_of(*self, tile, coord, paint_zoom, r),
    {
        let (u, v, _) = self.pane_type.coordinates();
        let extent: i64 = 256 * paint_zoom as i64;
        proof {
            lemma_center_fits(tile.tile_x as int, extent as int);
            lemma_center_fits(tile.tile_y as int, extent as int);
        }
        let mut r: [i32; 3] = coord;
        r[u] = (tile.tile_x as i64 * extent + extent / 2) as i32;
        r[v] = (tile.tile_y as i64 * extent + extent / 2) as i32;
        r
    }

    /// Moves along the fixed coordinate.
    pub fn handle_scroll(&self, coord: &mut [i32; 3], ranges: &[CoordRange; 3], ratio: u32, up: bool)
        requires
            ranges_valid(*ranges),
        ensures
            final(coord)@ == old(coord)@.update(
                self.pane_type.axes().2 as int,
                ranges@[self.pane_type.axes().2 as int].nearest(
                    scrolled(old(coord)@[self.pane_type.axes().2 as int] as int, up, scroll_step(ratio)),
                ) as i32,
            ),
    {
        let (_, _, d) = self.pane_type.coordinates();
        proof {
            reveal_with_fuel(factor, 5);
        }
        let step: i64 = if ratio == 0 {
            1
        } else if ratio == 1 {
            2
        } else if ratio == 2 {
            4
        } else if ratio == 3 {
            8
        } else {
            16
        };
        assert(step == scroll_step(ratio));
        let target: i64 = if up {
            coord[d] as i64 + step
        } else {
            coord[d] as i64 - step
        };
        proof {
            lemma_scrolled_fits(target as int, step as int);
        }
        let reached: i64 = if target >= 0 {
            target / step * step
        } else {
            -((-target) / step) * step
        };
        coord[d] = ranges[d].clamp_to(reached);
    }

    /// Moves the pane by a number of world units.
    pub fn handle_drag(&self, coord: &mut [i32; 3], ranges: &[CoordRange; 3], du: i32, dv: i32)
        requires
            ranges_valid(*ranges),
        ensures
            final(coord)@ == old(coord)@.update(
                self.pane_type.axes().0 as int,
                ranges@[self.pane_type.axes().0 as int].nearest(
                    old(coord)@[self.pane_type.axes().0 as int] + du,
                ) as i32,
            ).update(
                self.pane_type.axes().1 as int,
                ranges@[self.pane_type.axes().1 as int].nearest(
                    old(coord)@[self.pane_type.axes().1 as int] + dv,
                ) as i32,
            ),
    {
        let (u, v, _) = self.pane_type.coordinates();
        let moved_u: i32 = ranges[u].clamp_to(coord[u] as i64 + du as i64);
        let moved_v: i32 = ranges[v].clamp_to(coord[v] as i64 + dv as i64);
        coord[u] = moved_u;
        coord[v] = moved_v;
    }
}

proof fn lemma_center_fits(t: int, extent: int)
    requires
        0 <= extent <= 65280,
        i32::MIN <= t * extent,
        (t + 1) * extent <= i32::MAX,
    ensures
        i32::MIN <= t * extent + extent / 2 <= i32::MAX,
        (t + 1) * extent == t * extent + extent,
{
    assert((t + 1) * extent == t * extent + extent) by (nonlinear_arith);
}

proof fn lemma_scrolled_fits(target: int, step: int)
    requires
        -0x1_0000_0000 <= target <= 0x1_0000_0000,
        1 <= step <= 16,
    ensures
        target >= 0 ==> 0 <= target / step <= target && 0 <= target / step * step <= target,
        target < 0 ==> 0 <= (-target) / step <= -target && target <= -((-target) / step) * step <= 0,
        target < 0 ==> (-((-target) / step)) * step == towards_zero(target, step) * step,
{
    let a = if target >= 0 {
        target
    } else {
        -target
    };
    vstd::arithmetic::div_mod::lemma_fundamental_div_mod(a, step);
    assert(0 <= a / step <= a && 0 <= a / step * step <= a && (-(a / step)) * step == -(a / step * step))
        by (nonlinear_arith)
        requires
            a >= 0,
            step >= 1,
            a == step * (a / step) + a % step,
            0 <= a % step < step,
    ;
}

/// Scrolling and dragging keep every coordinate in its range.
pub proof fn panes_stay_in_range(
    pane: VolumePane,
    coord: [i32; 3],
    ranges: [CoordRange; 3],
    after: [i32; 3],
    ratio: u32,
    up: bool,
    du: i32,
    dv: i32,
)
    requires
        ranges_valid(ranges),
        in_ranges(coord, ranges),
        ({
            let (u, v, d) = pane.pane_type.axes();
            ||| after@ == coord@.update(
                d as int,
                ranges@[d as int].nearest(scrolled(coord@[d as int] as int, up, scroll_step(ratio))) as i32,
            )
            ||| after@ == coord@.update(u as int, ranges@[u as int].nearest(coord@[u as int] + du) as i32).update(
                v as int,
                ranges@[v as int].nearest(coord@[v as int] + dv) as i32,
            )
        }),
    ensures
        in_ranges(after, ranges),
{
}

/// Every point of the view lies in one of the tiles that are listed.
pub proof fn visible_tiles_cover_the_view(
    paint_zoom: u8,
    u: int,
    v: int,
    start_x: int,
    end_x: int,
    start_y: int,
    end_y: int,
    t: PaneTile,
)
    requires
        paint_zoom >= 1,
        start_x * tile_extent(paint_zoom) <= u < end_x * tile_extent(paint_zoom),
        start_y * tile_extent(paint_zoom) <= v < end_y * tile_extent(paint_zoom),
        t.tile_x == u / tile_extent(paint_zoom),
        t.tile_y == v / tile_extent(paint_zoom),
    ensures
        tile_listed(t, start_x, end_x, start_y, end_y),
{
    let n = tile_extent(paint_zoom);
    lemma_between(u, n, start_x, end_x);
    lemma_between(v, n, start_y, end_y);
}

proof fn lemma_between(u: int, n: int, start: int, end: int)
    requires
        n > 0,
        start * n <= u < end * n,
    ensures
        start <= u / n < end,
{
    vstd::arithmetic::div_mod::lemma_fundamental_div_mod(u, n);
    let q = u / n;
    assert(start <= q < end) by (nonlinear_arith)
        requires
            n > 0,
            start * n <= u < end * n,
            u == n * q + u % n,
            0 <= u % n < n,
    ;
}

/// What a tile is kept under. Of the place in the world only the fixed coordinate counts: the others
/// follow from the tile.
pub struct TileCacheKey {
    pub pane_type: PaneType,
    pub tile_x: i32,
    pub tile_y: i32,
    pub coord: [i32; 3],
    pub paint_zoom: u8,
    pub drawing_config: DrawingConfig,
    pub segment_outlines_coord: Option<[i32; 3]>,
    pub extra_resolutions: u32,
    pub volume_id: usize,
}

impl TileCacheKey {
    /// The key is the one that a tile of a pane is kept under.
    pub open spec fn is_for(
        &self,
        pane_type: PaneType,
        tile_x: i32,
        tile_y: i32,
        coord: [i32; 3],
        paint_zoom: u8,
        drawing_config: DrawingConfig,
        segment_outlines_coord: Option<[i32; 3]>,
        extra_resolutions: u32,
        volume_id: usize,
    ) -> bool {
        &&& self.pane_type == pane_type
        &&& self.tile_x == tile_x
        &&& self.tile_y == tile_y
        &&& self.coord@ == seq![0i32, 0, 0].update(
            pane_type.axes().2 as int,
            coord@[pane_type.axes().2 as int],
        )
        &&& self.paint_zoom == paint_zoom
        &&& self.drawing_config == drawing_config
        &&& self.segment_outlines_coord == segment_outlines_coord
        &&& self.extra_resolutions == extra_resolutions
        &&& self.volume_id == volume_id
    }

    pub fn new(
        pane_type: PaneType,
        tile_x: i32,
        tile_y: i32,
        coord: [i32; 3],
        paint_zoom: u8,
        drawing_config: DrawingConfig,
        segment_outlines_coord: Option<[i32; 3]>,
        extra_resolutions: u32,
        volume_id: usize,
    ) -> (r: TileCacheKey)
        ensures
            r.is_for(
                pane_type,
                tile_x,
                tile_y,
                coord,
                paint_zoom,
                drawing_config,
                segment_outlines_coord,
                extra_resolutions,
                volume_id,
            ),
    {
        let (_, _, d) = pane_type.coordinates();
        let mut cache_coord: [i32; 3] = [0; 3];
        cache_coord[d] = coord[d];
        assert(cache_coord@ =~= seq![0i32, 0, 0].update(d as int, coord@[d as int]));
        TileCacheKey {
            pane_type,
            tile_x,
            tile_y,
            coord: cache_coord,
            paint_zoom,
            drawing_config,
            segment_outlines_coord,
            extra_resolutions,
            volume_id,
        }
    }
}

/// Two tiles are kept under the same key exactly where their planes have the same place in the
/// world and everything else agrees: moving along the plane does not change the key of a tile.
pub proof fn keys_ignore_the_place_in_the_plane(
    a: TileCacheKey,
    b: TileCacheKey,
    pane_type: PaneType,
    tile_x: i32,
    tile_y: i32,
    coord: [i32; 3],
    paint_zoom: u8,
    drawing_config: DrawingConfig,
    segment_outlines_coord: Option<[i32; 3]>,
    extra_resolutions: u32,
    volume_id: usize,
    other_pane_type: PaneType,
    other_tile_x: i32,
    other_tile_y: i32,
    other_coord: [i32; 3],
    other_paint_zoom: u8,
    other_drawing_config: DrawingConfig,
    other_segment_outlines_coord: Option<[i32; 3]>,
    other_extra_resolutions: u32,
    other_volume_id: usize,
)
    requires
        a.is_for(
            pane_type,
            tile_x,
            tile_y,
            coord,
            paint_zoom,
            drawing_config,
            segment_outlines_coord,
            extra_resolutions,
            volume_id,
        ),
        b.is_for(
            other_pane_type,
            other_tile_x,
            other_tile_y,
            other_coord,
            other_paint_zoom,
            other_drawing_config,
            other_segment_outlines_coord,
            other_extra_resolutions,
            other_volume_id,
        ),
    ensures
        a == b <==> {
            &&& pane_type == other_pane_type
            &&& tile_x == other_tile_x
            &&& tile_y == other_tile_y
            &&& coord@[pane_type.axes().2 as int] == other_coord@[pane_type.axes().2 as int]
            &&& paint_zoom == other_paint_zoom
            &&& drawing_config == other_drawing_config
            &&& segment_outlines_coord == other_segment_outlines_coord
            &&& extra_resolutions == other_extra_resolutions
            &&& volume_id == other_volume_id
        },
{
    let d = pane_type.axes().2 as int;
    if a == b {
        assert(a.coord@[d] == coord@[d]);
        assert(b.coord@[d] == other_coord@[d]);
    }
    if pane_type == other_pane_type && coord@[d] == other_coord@[d] {
        assert(a.coord =~= b.coord);
    }
}

/// What is known of a tile.
#[derive(Clone, Copy, PartialEq, Eq, Structural)]
pub enum AsyncTexture {
    /// It is being painted.
    Loading,
    /// There is a texture for it.
    Ready,
}

/// What to do about a tile.
#[derive(Clone, Copy, PartialEq, Eq, Structural)]
pub enum TileAction {
    /// Begin to paint it, and come back later.
    Start,
    /// Come back later.
    Wait,
    /// Make a texture of the finished picture, and show it.
    Upload,
    /// Show the texture.
    Show,
}

/// What to do about a tile, and what is known of it from then on. `finished` tells whether a tile
/// that is being painted is done.
pub fn get_or_create_tile_async(cached: Option<AsyncTexture>, finished: bool) -> (r: (AsyncTexture, TileAction))
    ensures
        r == (match cached {
            None => (AsyncTexture::Loading, TileAction::Start),
            Some(AsyncTexture::Loading) => if finished {
                (AsyncTexture::Ready, TileAction::Upload)
            } else {
                (AsyncTexture::Loading, TileAction::Wait)
            },
            Some(AsyncTexture::Ready) => (AsyncTexture::Ready, TileAction::Show),
        }),
{
    match cached {
        None => (AsyncTexture::Loading, TileAction::Start),
        Some(AsyncTexture::Loading) => if finished {
            (AsyncTexture::Ready, TileAction::Upload)
        } else {
            (AsyncTexture::Loading, TileAction::Wait)
        },
        Some(AsyncTexture::Ready) => (AsyncTexture::Ready, TileAction::Show),
    }
}

/// The name of the texture of a tile.
pub fn texture_name(pane_type: PaneType, tile: PaneTile) -> (r: String)
    ensures
        r@ == pane_type.name() + "_"@ + signed_digits(tile.tile_x as int) + "_"@ + signed_digits(
            tile.tile_y as int,
        ) + "_"@ + digits(pane_type.axes().2 as nat),
{
    let mut r = pane_type.label().to_string();
    r.append("_");
    push_signed(&mut r, tile.tile_x as i64);
    r.append("_");
    push_signed(&mut r, tile.tile_y as i64);
    r.append("_");
    let (_, _, d) = pane_type.coordinates();
    push_number(&mut r, d as u64);
    r
}

/// `after` is what is left when the volume paints at one scale after the other.
pub open spec fn paints_in_turn<V: PaintVolume>(
    world: V,
    canvas: Canvas,
    factors: Seq<u8>,
    config: DrawingConfig,
    before: Image,
    after: Image,
) -> bool
    decreases factors.len(),
{
    if factors.len() == 0 {
        before == after
    } else {
        exists|middle: Image|
            {
                &&& paints_in_turn(world, canvas, factors.drop_last(), config, before, middle)
                &&& #[trigger] world.paints(canvas, factors.last(), config, middle, after)
            }
    }
}

/// The canvas of a tile.
pub open spec fn tile_canvas(pane_type: PaneType, xyz: [i32; 3], paint_zoom: u8) -> Canvas {
    Canvas {
        xyz,
        u_coord: pane_type.axes().0,
        v_coord: pane_type.axes().1,
        plane_coord: pane_type.axes().2,
        width: TILE_SIZE,
        height: TILE_SIZE,
        paint_zoom,
    }
}

/// A picture that is black all over.
pub open spec fn black(image: Image, width: int, height: int) -> bool {
    &&& image.valid()
    &&& image.width == width
    &&& image.height == height
    &&& forall|x: int, y: int|
        image.inside(x, y) ==> #[trigger] image.pixel(x, y) == Color32::rgb(0, 0, 0)
}

impl VolumePane {
    /// Paints a tile, from the coarsest scale to the finest.
    pub fn create_tile_sync<V: PaintVolume>(
        &self,
        tile: PaneTile,
        coord: [i32; 3],
        world: &V,
        paint_zoom: u8,
        ratio: u32,
        drawing_config: &DrawingConfig,
        extra_resolutions: u32,
    ) -> (r: Image)
        requires
            1 <= paint_zoom <= 8,
            i32::MIN <= tile.tile_x * tile_extent(paint_zoom),
            (tile.tile_x + 1) * tile_extent(paint_zoom) <= i32::MAX,
            i32::MIN <= tile.tile_y * tile_extent(paint_zoom),
            (tile.tile_y + 1) * tile_extent(paint_zoom) <= i32::MAX,
        ensures
            r.valid(),
            r.width == TILE_SIZE,
            r.height == TILE_SIZE,
            tile_painted(*self, tile, coord, *world, paint_zoom, ratio, *drawing_config, extra_resolutions, r),
    {
        let (u, v, d) = self.pane_type.coordinates();
        let xyz = self.tile_center(tile, coord, paint_zoom);
        let ghost canvas = tile_canvas(self.pane_type, xyz, paint_zoom);
        proof {
            lemma_tile_in_range(tile.tile_x as int, paint_zoom as int);
            lemma_tile_in_range(tile.tile_y as int, paint_zoom as int);
            assert(canvas.valid());
        }
        let factors = paint_factors(ratio, extra_resolutions);
        let mut image = Image::new(TILE_SIZE, TILE_SIZE);
        let ghost start = image;
        assert(factors@.take(0) =~= Seq::<u8>::empty());
        let mut i: usize = 0;
        while i < factors.len()
            invariant
                i <= factors@.len(),
                canvas == tile_canvas(self.pane_type, xyz, paint_zoom),
                canvas.valid(),
                u == self.pane_type.axes().0 && v == self.pane_type.axes().1 && d == self.pane_type.axes().2,
                image.valid(),
                image.width == TILE_SIZE,
                image.height == TILE_SIZE,
                forall|k: int| 0 <= k < factors@.len() ==> 1 <= #[trigger] factors@[k] <= 16,
                paints_in_turn(*world, canvas, factors@.take(i as int), *drawing_config, start, image),
            decreases factors@.len() - i,
        {
            let ghost before = image;
            let sfactor: u8 = factors[i];
            world.paint(xyz, u, v, d, TILE_SIZE, TILE_SIZE, sfactor, paint_zoom, drawing_config, &mut image);
            proof {
                let now = factors@.take(i + 1);
                assert(now.drop_last() =~= factors@.take(i as int));
                assert(now.last() == sfactor);
                assert(world.paints(canvas, sfactor, *drawing_config, before, image));
                assert(paints_in_turn(*world, canvas, now.drop_last(), *drawing_config, start, before));
                assert(paints_in_turn(*world, canvas, now, *drawing_config, start, image));
            }
            i += 1;
        }
        proof {
            assert(factors@.take(i as int) =~= factors@);
            assert(black(start, TILE_SIZE as int, TILE_SIZE as int));
            assert(is_tile_of(*self, tile, coord, paint_zoom, xyz));
        }
        image
    }
}

/// The middle of a tile.
pub open spec fn is_tile_of(pane: VolumePane, tile: PaneTile, coord: [i32; 3], paint_zoom: u8, xyz: [i32; 3]) -> bool {
    xyz@ == coord@.update(
        pane.pane_type.axes().0 as int,
        (tile.tile_x * tile_extent(paint_zoom) + tile_extent(paint_zoom) / 2) as i32,
    ).update(
        pane.pane_type.axes().1 as int,
        (tile.tile_y * tile_extent(paint_zoom) + tile_extent(paint_zoom) / 2) as i32,
    )
}

/// The picture began black and was painted at every scale in turn.
pub open spec fn tile_painted<V: PaintVolume>(
    pane: VolumePane,
    tile: PaneTile,
    coord: [i32; 3],
    world: V,
    paint_zoom: u8,
    ratio: u32,
    config: DrawingConfig,
    extra_resolutions: u32,
    r: Image,
) -> bool {
    exists|xyz: [i32; 3], factors: Seq<u8>, start: Image|
        {
            &&& is_tile_of(pane, tile, coord, paint_zoom, xyz)
            &&& factors.len() == max_level(ratio, extra_resolutions) - min_level(ratio) + 1
            &&& forall|i: int|
                0 <= i < factors.len() ==> #[trigger] factors[i] == factor(
                    max_level(ratio, extra_resolutions) - i,
                )
            &&& black(start, TILE_SIZE as int, TILE_SIZE as int)
            &&& #[trigger] paints_in_turn(
                world,
                tile_canvas(pane.pane_type, xyz, paint_zoom),
                factors,
                config,
                start,
                r,
            )
        }
}

proof fn lemma_tile_in_range(t: int, zoom: int)
    requires
        1 <= zoom <= 8,
        i32::MIN <= t * (256 * zoom),
        (t + 1) * (256 * zoom) <= i32::MAX,
    ensures
        in_range(t * (256 * zoom) + 256 * zoom / 2, 256, zoom),
{
    lemma_center_fits(t, 256 * zoom);
    assert(256 * zoom / 2 == 128 * zoom);
}

/// The letters of a pane name the coordinate that runs to the right and the one that runs down, where
/// 0, 1 and 2 are x, y and z; the pane of y and z runs along z. A surface runs as the pane of x and y.
pub proof fn panes_run_along_their_axes(pane_type: PaneType)
    ensures
        ({
            let (u, v, d) = pane_type.axes();
            &&& u + v + d == 3
            &&& d == 2 <==> pane_type is XY || pane_type is UV
            &&& d == 1 <==> pane_type is XZ
            &&& d == 0 <==> pane_type is YZ
            &&& v == 1 <==> !(pane_type is XZ)
            &&& v == 1 || v == 2
        }),
{
}

/// The nearest value lies in the range; a value of the range is its own nearest, and no value of the
/// range is nearer.
pub proof fn nearest_values_are_nearest(range: CoordRange, c: int, other: int)
    requires
        range.valid(),
        range.contains(other),
    ensures
        range.contains(range.nearest(c)),
        range.contains(c) ==> range.nearest(c) == c,
        c <= range.nearest(c) ==> other <= c || range.nearest(c) <= other,
        c >= range.nearest(c) ==> other >= c || range.nearest(c) >= other,
        range.contains(range.start as int) && range.contains(range.end as int),
        !range.contains(range.start - 1) && !range.contains(range.end + 1),
{
}

/// The bit length is the number of bits that a number needs, and factors are the powers of two.
pub proof fn factors_are_powers_of_two(n: int, level: int)
    requires
        n > 0,
        level >= 0,
    ensures
        factor(bit_length(n) - 1) <= n < factor(bit_length(n)),
        bit_length(n) >= 1,
        bit_length(0) == 0,
        factor(0) == 1,
        factor(level + 1) == factor(level) + factor(level),
    decreases n,
{
    if n >= 2 {
        factors_are_powers_of_two(n / 2, level);
    } else {
        assert(bit_length(0) == 0);
        assert(bit_length(1) == 1 + bit_length(1int / 2));
        assert(factor(0) == 1 && factor(1) == 2 * factor(0));
    }
}

/// The finest resolution that is painted is the first whose voxels are larger than the ratio, but not
/// coarser than sixteen. The coarser ones that come on top stay within that limit too.
pub proof fn levels_follow_the_ratio(ratio: u32, extra_resolutions: u32)
    ensures
        0 <= min_level(ratio) <= max_level(ratio, extra_resolutions) <= 4,
        ratio < factor(min_level(ratio)) || min_level(ratio) == 4,
        min_level(ratio) > 0 ==> factor(min_level(ratio) - 1) <= ratio,
        max_level(ratio, 0) == min_level(ratio),
        max_level(ratio, extra_resolutions) < 4 ==> max_level(ratio, extra_resolutions) - min_level(ratio)
            == extra_resolutions,
        max_level(ratio, extra_resolutions) - min_level(ratio) <= extra_resolutions,
{
    if ratio > 0 {
        factors_are_powers_of_two(ratio as int, 0);
        if bit_length(ratio as int) > 4 {
            lemma_factor_grows(3, bit_length(ratio as int) - 1);
        }
    } else {
        assert(factor(0) == 1);
    }
}

proof fn lemma_factor_grows(a: int, b: int)
    requires
        0 <= a <= b,
    ensures
        1 <= factor(a) <= factor(b),
    decreases b,
{
    if a < b {
        lemma_factor_grows(a, b - 1);
    } else if a > 0 {
        lemma_factor_grows(a - 1, a - 1);
    }
}

/// A step of the wheel goes to a multiple of the step: up to one above, at most a step away, and down to
/// one below. From a multiple it goes exactly one step. At most sixteen voxels are passed.
pub proof fn scrolling_goes_step_by_step(c: int, k: int, ratio: u32)
    ensures
        1 <= scroll_step(ratio) <= 16,
        scrolled(k * scroll_step(ratio), true, scroll_step(ratio)) == (k + 1) * scroll_step(ratio),
        scrolled(k * scroll_step(ratio), false, scroll_step(ratio)) == (k - 1) * scroll_step(ratio),
        c >= 0 ==> c < scrolled(c, true, scroll_step(ratio)) <= c + scroll_step(ratio),
        c >= scroll_step(ratio) ==> c - 2 * scroll_step(ratio) < scrolled(c, false, scroll_step(ratio)) < c,
{
    let step = scroll_step(ratio);
    reveal_with_fuel(factor, 5);
    assert(factor(0) == 1 && factor(1) == 2 && factor(2) == 4 && factor(3) == 8 && factor(4) == 16);
    assert((k + 1) * step == k * step + step && (k - 1) * step == k * step - step) by (nonlinear_arith);
    lemma_whole_quotient(k + 1, step);
    lemma_whole_quotient(k - 1, step);
    if c >= 0 {
        crate::volume::tile::quotients_go_towards_zero(c + step, step);
        let q = (c + step) / step;
        assert((q + 1) * step == q * step + step) by (nonlinear_arith);
    }
    if c >= step {
        crate::volume::tile::quotients_go_towards_zero(c - step, step);
        let q = (c - step) / step;
        assert((q + 1) * step == q * step + step) by (nonlinear_arith);
    }
}

proof fn lemma_whole_quotient(k: int, step: int)
    requires
        step >= 1,
    ensures
        towards_zero(k * step, step) * step == k * step,
{
    let m = if k >= 0 { k } else { -k };
    vstd::arithmetic::div_mod::lemma_div_multiples_vanish(m, step);
    assert(step * m == m * step) by (nonlinear_arith);
    assert((-k) * step == -(k * step)) by (nonlinear_arith);
    if k >= 0 {
        assert(k * step >= 0) by (nonlinear_arith)
            requires
                k >= 0,
                step >= 1,
        ;
    } else {
        assert(k * step < 0) by (nonlinear_arith)
            requires
                k < 0,
                step >= 1,
        ;
    }
}

/// Tiles join without gaps: pixel (`i`, `j`) of a tile shows the point that lies `i` and `j` pixels behind
/// the tile's corner, tiles being 256 pixels wide and high, on the plane that is shown.
pub proof fn tiles_join_without_gaps(
    pane: VolumePane,
    tile: PaneTile,
    coord: [i32; 3],
    paint_zoom: u8,
    xyz: [i32; 3],
    i: int,
    j: int,
)
    requires
        is_tile_of(pane, tile, coord, paint_zoom, xyz),
        paint_zoom >= 1,
        i32::MIN <= tile.tile_x * tile_extent(paint_zoom),
        (tile.tile_x + 1) * tile_extent(paint_zoom) <= i32::MAX,
        i32::MIN <= tile.tile_y * tile_extent(paint_zoom),
        (tile.tile_y + 1) * tile_extent(paint_zoom) <= i32::MAX,
    ensures
        ({
            let (u, v, d) = pane.pane_type.axes();
            let p = tile_canvas(pane.pane_type, xyz, paint_zoom).point(i, j);
            &&& p[u as int] == (tile.tile_x * 256 + i) * paint_zoom
            &&& p[v as int] == (tile.tile_y * 256 + j) * paint_zoom
            &&& p[d as int] == coord@[d as int]
        }),
        tile_canvas(pane.pane_type, xyz, paint_zoom).width == 256,
        tile_canvas(pane.pane_type, xyz, paint_zoom).height == 256,
{
    let (u, v, d) = pane.pane_type.axes();
    let zoom = paint_zoom as int;
    let extent = tile_extent(paint_zoom);
    let (x, y) = (tile.tile_x as int, tile.tile_y as int);
    assert(extent == 256 * zoom);
    assert(extent / 2 == 128 * zoom);
    assert((x + 1) * extent == x * extent + extent && (y + 1) * extent == y * extent + extent)
        by (nonlinear_arith);
    assert(xyz@[u as int] == x * extent + extent / 2);
    assert(xyz@[v as int] == y * extent + extent / 2);
    assert(x * extent + 128 * zoom + (i - 128) * zoom == (x * 256 + i) * zoom) by (nonlinear_arith)
        requires
            extent == 256 * zoom,
    ;
    assert(y * extent + 128 * zoom + (j - 128) * zoom == (y * 256 + j) * zoom) by (nonlinear_arith)
        requires
            extent == 256 * zoom,
    ;
}

/// Tiles are listed row by row, each row from left to right, from one before the first to the last.
pub proof fn pane_tiles_come_row_by_row(
    a: PaneTile,
    b: PaneTile,
    start_x: int,
    end_x: int,
    start_y: int,
    end_y: int,
)
    ensures
        a.tile_y < b.tile_y ==> tile_precedes(a, b) && !tile_precedes(b, a),
        a.tile_y == b.tile_y ==> (tile_precedes(a, b) <==> a.tile_x < b.tile_x),
        tile_listed(a, start_x, end_x, start_y, end_y) <==> start_x - 1 <= a.tile_x < end_x + 1 && start_y - 1
            <= a.tile_y < end_y + 1,
{
}

/// Resolutions are painted one over the other: what a single one paints is what it paints on the
/// background, and what comes last is painted over all before.
pub proof fn resolutions_are_painted_over_each_other<V: PaintVolume>(
    world: V,
    canvas: Canvas,
    factors: Seq<u8>,
    sfactor: u8,
    config: DrawingConfig,
    before: Image,
    middle: Image,
    after: Image,
)
    requires
        paints_in_turn(world, canvas, factors, config, before, middle),
        world.paints(canvas, sfactor, config, middle, after),
    ensures
        paints_in_turn(world, canvas, factors.push(sfactor), config, before, after),
        paints_in_turn(world, canvas, Seq::empty(), config, before, after) <==> before == after,
{
    let all = factors.push(sfactor);
    assert(all.drop_last() =~= factors);
    assert(all.last() == sfactor);
    assert(paints_in_turn(world, canvas, all.drop_last(), config, before, middle));
    assert(world.paints(canvas, all.last(), config, middle, after));
}

} // verus!
