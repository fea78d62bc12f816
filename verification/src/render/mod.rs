//! Rendering a segment into images, one for each layer around its surface.

pub mod chunks;
pub mod layer;
pub mod raycast;

use crate::outside::{group_texts, regex_captures, regex_groups};
use crate::render::raycast::tiles_for;
use crate::text::{padded, push_padded};
use crate::volume::grid500::{group_number, number_of_group};
use vstd::prelude::*;
use vstd::string::*;

verus! {

/// A part of a segment.
#[derive(Clone, Copy, PartialEq, Eq, Structural)]
pub struct Crop {
    pub top: usize,
    pub left: usize,
    pub width: usize,
    pub height: usize,
}

/// How a part is written: left, top, width and height.
pub open spec fn crop_pattern() -> Seq<char> {
    r"(\d+)\+(\d+)-(\d+)x(\d+)"@
}

/// The part that the groups of a match name.
pub open spec fn crop_of_groups(groups: Option<Seq<Option<Seq<char>>>>) -> Option<Crop> {
    match groups {
        Some(g) => match (group_number(g, 1), group_number(g, 2), group_number(g, 3), group_number(g, 4)) {
            (Some(left), Some(top), Some(width), Some(height)) => Some(
                Crop {
                    top: top as usize,
                    left: left as usize,
                    width: width as usize,
                    height: height as usize,
                },
            ),
            _ => None,
        },
        None => None,
    }
}

/// Reads the part that the groups of a match name.
pub fn read_crop_groups(groups: &Option<Vec<Option<String>>>) -> (r: Option<Crop>)
    ensures
        r == crop_of_groups(
            match groups {
                Some(g) => Some(group_texts(g@)),
                None => None,
            },
        ),
{
    match groups {
        Some(g) => {
            let left = number_of_group(g, 1);
            let top = number_of_group(g, 2);
            let width = number_of_group(g, 3);
            let height = number_of_group(g, 4);
            match (left, top, width, height) {
                (Some(left), Some(top), Some(width), Some(height)) => Some(
                    Crop { top, left, width, height },
                ),
                _ => None,
            }
        },
        None => None,
    }
}

/// Reads a part that is written as `<left>+<top>-<width>x<height>`; `None` if it is not written so,
/// or if a number is too large.
pub fn parse_crop(value: &str) -> (r: Option<Crop>)
    ensures
        r == crop_of_groups(regex_groups(crop_pattern(), value@)),
{
    let groups = regex_captures(r"(\d+)\+(\d+)-(\d+)x(\d+)", value);
    read_crop_groups(&groups)
}

/// The command line of the renderer.
pub struct Args {
    pub obj: String,
    pub width: u32,
    pub height: u32,
    pub target_dir: String,
    pub middle_layer: Option<u8>,
    pub min_layer: Option<u8>,
    pub max_layer: Option<u8>,
    pub crop: Option<Crop>,
    pub target_format: Option<String>,
    pub volume: Option<String>,
    pub data_directory: Option<String>,
    pub tile_size: Option<u32>,
    pub concurrent_downloads: Option<u8>,
    pub retries: Option<u8>,
    pub stream_buffer_size: Option<usize>,
    pub worker_threads: Option<usize>,
}

/// What to render.
pub struct RenderParams {
    pub obj_file: String,
    pub width: usize,
    pub height: usize,
    pub tile_size: usize,
    pub min_layer: usize,
    pub max_layer: usize,
    pub crop: Option<Crop>,
    pub mid_layer: usize,
    pub target_dir: String,
    pub target_format: String,
    pub stream_buffer_size: usize,
}

/// A tile of a layer.
#[derive(Clone, Copy, PartialEq, Eq, Structural)]
pub struct UVTile {
    pub u: usize,
    pub v: usize,
    pub w: usize,
}

fn or_else(v: Option<u8>, default: u8) -> (r: usize)
    ensures
        r == (match v {
            Some(v) => v,
            None => default,
        }),
{
    match v {
        Some(v) => v as usize,
        None => default as usize,
    }
}

impl RenderParams {
    pub fn from_args(args: &Args) -> (r: RenderParams)
        ensures
            r.obj_file == args.obj,
            r.width == args.width,
            r.height == args.height,
            r.tile_size == (match args.tile_size {
                Some(n) => n,
                None => 1024u32,
            }),
            r.min_layer == (match args.min_layer {
                Some(n) => n,
                None => 25u8,
            }),
            r.max_layer == (match args.max_layer {
                Some(n) => n,
                None => 41u8,
            }),
            r.crop == args.crop,
            r.mid_layer == (match args.middle_layer {
                Some(n) => n,
                None => 32u8,
            }),
            r.target_dir == args.target_dir,
            r.target_format@ == (match args.target_format {
                Some(f) => f@,
                None => "png"@,
            }),
            r.stream_buffer_size == (match args.stream_buffer_size {
                Some(n) => n,
                None => 1024usize,
            }),
    {
        RenderParams {
            obj_file: args.obj.clone(),
            width: args.width as usize,
            height: args.height as usize,
            tile_size: match args.tile_size {
                Some(n) => n as usize,
                None => 1024,
            },
            min_layer: or_else(args.min_layer, 25),
            max_layer: or_else(args.max_layer, 41),
            crop: args.crop,
            mid_layer: or_else(args.middle_layer, 32),
            target_dir: args.target_dir.clone(),
            target_format: match &args.target_format {
                Some(f) => f.clone(),
                None => "png".to_string(),
            },
            stream_buffer_size: match args.stream_buffer_size {
                Some(n) => n,
                None => 1024,
            },
        }
    }

    /// The part that is rendered: the crop, or all of the segment.
    pub open spec fn area(&self) -> Crop {
        match self.crop {
            Some(c) => c,
            None => Crop { top: 0, left: 0, width: self.width, height: self.height },
        }
    }

    pub fn render_left(&self) -> (r: usize)
        ensures
            r == self.area().left,
    {
        match self.crop {
            Some(c) => c.left,
            None => 0,
        }
    }

    pub fn render_top(&self) -> (r: usize)
        ensures
            r == self.area().top,
    {
        match self.crop {
            Some(c) => c.top,
            None => 0,
        }
    }

    pub fn render_width(&self) -> (r: usize)
        ensures
            r == self.area().width,
    {
        match self.crop {
            Some(c) => c.width,
            None => self.width,
        }
    }

    pub fn render_height(&self) -> (r: usize)
        ensures
            r == self.area().height,
    {
        match self.crop {
            Some(c) => c.height,
            None => self.height,
        }
    }

    /// The tiles are not empty, and the part can be counted through.
    pub open spec fn valid(&self) -> bool {
        &&& self.tile_size > 0
        &&& self.area().left + self.area().width <= usize::MAX
        &&& self.area().top + self.area().height <= usize::MAX
        &&& self.max_layer < usize::MAX
    }

    /// A tile of one of the layers.
    pub open spec fn has_tile(&self, t: UVTile) -> bool {
        &&& self.min_layer <= t.w <= self.max_layer
        &&& on_raster(t.v as int, self.area().top as int, self.area().height as int, self.tile_size as int)
        &&& on_raster(t.u as int, self.area().left as int, self.area().width as int, self.tile_size as int)
    }

    /// How many tiles each layer has.
    pub open spec fn layer_tiles(&self) -> int {
        tiles_for(self.area().height as int, self.tile_size as int) * tiles_for(
            self.area().width as int,
            self.tile_size as int,
        )
    }

    /// How many layers there are.
    pub open spec fn layers(&self) -> int {
        if self.min_layer <= self.max_layer {
            self.max_layer - self.min_layer + 1
        } else {
            0
        }
    }

    /// How many of the tiles belong to each layer.
    pub fn tiles_per_layer(&self, tiles: &Vec<UVTile>) -> (r: usize)
        requires
            self.valid(),
            self.min_layer <= self.max_layer,
            tiles@.len() == self.layers() * self.layer_tiles(),
        ensures
            r == self.layer_tiles(),
    {
        let layers: usize = self.max_layer - self.min_layer + 1;
        proof {
            let n = self.layer_tiles();
            assert(layers * n == n * layers) by (nonlinear_arith);
            vstd::arithmetic::div_mod::lemma_div_by_multiple(n, layers as int);
        }
        tiles.len() / layers
    }

    /// The tiles of all layers: layer by layer, row by row.
    pub fn uv_tiles(&self) -> (r: Vec<UVTile>)
        requires
            self.valid(),
        ensures
            forall|t: UVTile|
                #![trigger r@.contains(t)]
                #![trigger self.has_tile(t)]
                r@.contains(t) <==> self.has_tile(t),
            forall|i: int, j: int|
                0 <= i < j < r@.len() ==> follows(#[trigger] r@[i], #[trigger] r@[j]),
            r@.len() == self.layers() * self.layer_tiles(),
            forall|i: int|
                0 <= i < r@.len() ==> (#[trigger] r@[i]).w == self.min_layer + i / self.layer_tiles(),
    {
        let left: usize = self.render_left();
        let top: usize = self.render_top();
        let right: usize = left + self.render_width();
        let bottom: usize = top + self.render_height();
        let columns = raster(left, right, self.tile_size);
        let rows = raster(top, bottom, self.tile_size);
        let mut r: Vec<UVTile> = Vec::new();
        let mut w: usize = self.min_layer;
        let ghost per = self.layer_tiles();
        while w <= self.max_layer
            invariant
                self.valid(),
                per == self.layer_tiles(),
                per == rows@.len() * columns@.len(),
                r@.len() == (w - self.min_layer) * per,
                forall|i: int| 0 <= i < r@.len() ==> (#[trigger] r@[i]).w == self.min_layer + i / per,
                self.min_layer <= w,
                w <= self.max_layer + 1 || w == self.min_layer,
                raster_of(columns@, left as int, (right - left) as int, self.tile_size as int),
                raster_of(rows@, top as int, (bottom - top) as int, self.tile_size as int),
                left == self.area().left && top == self.area().top,
                right - left == self.area().width && bottom - top == self.area().height,
                forall|t: UVTile|
                    #![trigger r@.contains(t)]
                    #![trigger self.has_tile(t)]
                    r@.contains(t) <==> self.has_tile(t) && t.w < w,
                forall|i: int, j: int|
                    0 <= i < j < r@.len() ==> follows(#[trigger] r@[i], #[trigger] r@[j]),
            decreases self.max_layer + 1 - w,
        {
            let mut b: usize = 0;
            assert(rows@.take(0) =~= Seq::<usize>::empty());
            let ghost start = r@.len() as int;
            while b < rows.len()
                invariant
                    self.valid(),
                    per == rows@.len() * columns@.len(),
                    start == (w - self.min_layer) * per,
                    r@.len() == start + b * columns@.len(),
                    forall|i: int| 0 <= i < r@.len() ==> (#[trigger] r@[i]).w == self.min_layer + i / per,
                    self.min_layer <= w <= self.max_layer,
                    b <= rows@.len(),
                    raster_of(columns@, left as int, (right - left) as int, self.tile_size as int),
                    raster_of(rows@, top as int, (bottom - top) as int, self.tile_size as int),
                    left == self.area().left && top == self.area().top,
                    right - left == self.area().width && bottom - top == self.area().height,
                    forall|t: UVTile|
                        #![trigger r@.contains(t)]
                        #![trigger self.has_tile(t)]
                        r@.contains(t) <==> self.has_tile(t) && (t.w < w || (t.w == w && rows@.take(
                            b as int,
                        ).contains(t.v))),
                    forall|i: int, j: int|
                        0 <= i < j < r@.len() ==> follows(#[trigger] r@[i], #[trigger] r@[j]),
                decreases rows@.len() - b,
            {
                let ghost was = r@;
                push_row(&mut r, &columns, rows[b], w);
                proof {
                    let v = rows@[b as int];
                    let row = columns@.map_values(|u: usize| UVTile { u, v, w });
                    assert(r@.take(r@.len() - columns@.len()) =~= was);
                    assert(r@.skip(r@.len() - columns@.len()) =~= row);
                    assert(row =~= columns@.map_values(|u: usize| UVTile { u, v: rows@[b as int], w }));
                    lemma_row_pushed(*self, r@, columns@, rows@, b as int, w);
                    assert((b + 1) * columns@.len() == b * columns@.len() + columns@.len()) by (nonlinear_arith);
                    assert forall|i: int| 0 <= i < r@.len() implies (#[trigger] r@[i]).w == self.min_layer + i
                        / per by {
                        if i < was.len() {
                            assert(r@[i] == was[i]);
                        } else {
                            assert(r@[i] == row[i - was.len()]);
                            lemma_layer_of(
                                i,
                                per,
                                w - self.min_layer,
                                b as int,
                                columns@.len() as int,
                                rows@.len() as int,
                            );
                        }
                    }
                }
                b += 1;
            }
            assert(rows@.take(b as int) =~= rows@);
            assert((w + 1 - self.min_layer) * per == (w - self.min_layer) * per + per) by (nonlinear_arith);
            w += 1;
        }
        r
    }

    /// Where the middle of a tile lies: on the surface, and how far from it.
    pub fn tile_center(&self, tile: UVTile) -> (r: [i32; 3])
        requires
            tile.u + self.tile_size / 2 <= i32::MAX,
            tile.v + self.tile_size / 2 <= i32::MAX,
            tile.w <= i32::MAX,
            self.mid_layer <= i32::MAX,
        ensures
            r@ == seq![
                (tile.u + self.tile_size as int / 2) as i32,
                (tile.v + self.tile_size as int / 2) as i32,
                (tile.w - self.mid_layer) as i32,
            ],
    {
        let r: [i32; 3] = [
            (tile.u + self.tile_size / 2) as i32,
            (tile.v + self.tile_size / 2) as i32,
            (tile.w as i64 - self.mid_layer as i64) as i32,
        ];
        assert(r@ =~= seq![
            (tile.u + self.tile_size as int / 2) as i32,
            (tile.v + self.tile_size as int / 2) as i32,
            (tile.w - self.mid_layer) as i32,
        ]);
        r
    }

    /// The file of a layer.
    pub fn layer_file(&self, w: usize) -> (r: String)
        ensures
            r@ == self.target_dir@ + "/"@ + padded(w as nat, 2) + "."@ + self.target_format@,
    {
        let mut r = self.target_dir.clone();
        r.append("/");
        push_padded(&mut r, w as u64, 2);
        r.append(".");
        r.append(self.target_format.as_str());
        r
    }
}

/// The place in the list tells the layer.
proof fn lemma_layer_of(i: int, per: int, layer: int, b: int, columns: int, rows: int)
    requires
        per == rows * columns,
        0 <= b < rows,
        layer >= 0,
        layer * per + b * columns <= i < layer * per + b * columns + columns,
    ensures
        i / per == layer,
{
    assert(0 <= b * columns && b * columns + columns <= rows * columns) by (nonlinear_arith)
        requires
            0 <= b < rows,
            columns > 0,
    ;
    vstd::arithmetic::div_mod::lemma_fundamental_div_mod_converse_div(i, per, layer, i - layer * per);
}

/// A place from `start` on, at a multiple of `step`, before the end.
pub open spec fn on_raster(p: int, start: int, len: int, step: int) -> bool {
    &&& start <= p < start + len
    &&& (p - start) % step == 0
}

/// Layer by layer, row by row, from left to right.
pub open spec fn follows(a: UVTile, b: UVTile) -> bool {
    ||| a.w < b.w
    ||| a.w == b.w && a.v < b.v
    ||| a.w == b.w && a.v == b.v && a.u < b.u
}

/// All places of a raster, in order.
pub open spec fn raster_of(places: Seq<usize>, start: int, len: int, step: int) -> bool {
    &&& forall|p: usize| places.contains(p) <==> #[trigger] on_raster(p as int, start, len, step)
    &&& forall|i: int, j: int| 0 <= i < j < places.len() ==> #[trigger] places[i] < #[trigger] places[j]
}

/// `p` is reached from `start` in `k` steps.
proof fn lemma_on_raster(p: int, start: int, step: int, k: int)
    requires
        step > 0,
        start + k * step <= p < start + (k + 1) * step,
        (p - start) % step == 0,
    ensures
        p == start + k * step,
{
    vstd::arithmetic::div_mod::lemma_fundamental_div_mod(p - start, step);
    let q = (p - start) / step;
    assert(q == k) by (nonlinear_arith)
        requires
            step > 0,
            p - start == step * q,
            start + k * step <= p < start + (k + 1) * step,
    ;
    assert(step * q == k * step) by (nonlinear_arith)
        requires
            q == k,
    ;
}

fn raster(start: usize, end: usize, step: usize) -> (r: Vec<usize>)
    requires
        start <= end,
        step > 0,
    ensures
        raster_of(r@, start as int, end - start, step as int),
        r@.len() == tiles_for(end - start, step as int),
{
    let mut r: Vec<usize> = Vec::new();
    let mut p: usize = start;
    let ghost mut k: int = 0;
    let ghost mut next: int = start as int;
    while p < end
        invariant
            step > 0,
            start <= end,
            0 <= k,
            start <= p <= end,
            next == start + k * step,
            p == (if next < end {
                next
            } else {
                end as int
            }),
            forall|q: usize|
                r@.contains(q) <==> #[trigger] on_raster(q as int, start as int, end - start, step as int)
                    && q < next,
            forall|i: int, j: int| 0 <= i < j < r@.len() ==> #[trigger] r@[i] < #[trigger] r@[j],
            forall|i: int| 0 <= i < r@.len() ==> #[trigger] r@[i] < next,
            r@.len() == k,
            k == 0 || start + (k - 1) * step < end,
        decreases end - p,
    {
        let ghost before = r@;
        let ghost now = next;
        r.push(p);
        proof {
            next = next + step;
            assert((k + 1) * step == k * step + step) by (nonlinear_arith);
            assert((k * step) % (step as int) == 0) by {
                vstd::arithmetic::div_mod::lemma_mod_multiples_basic(k, step as int);
            }
            assert forall|q: usize|
                r@.contains(q) <==> #[trigger] on_raster(q as int, start as int, end - start, step as int)
                    && q < next by {
                assert(r@[before.len() as int] == p);
                if before.contains(q) {
                    let i = choose|i: int| 0 <= i < before.len() && before[i] == q;
                    assert(r@[i] == q);
                }
                if r@.contains(q) && q != p {
                    let i = choose|i: int| 0 <= i < r@.len() && r@[i] == q;
                    assert(before[i] == q);
                }
                if on_raster(q as int, start as int, end - start, step as int) && now <= q < next {
                    lemma_on_raster(q as int, start as int, step as int, k);
                }
            }
            k = k + 1;
        }
        p = if end - p > step {
            p + step
        } else {
            end
        };
    }
    proof {
        lemma_tile_count(end - start, step as int, k);
    }
    r
}

proof fn lemma_tile_count(len: int, step: int, k: int)
    requires
        step > 0,
        len >= 0,
        k >= 0,
        k * step >= len,
        k == 0 || (k - 1) * step < len,
    ensures
        k == tiles_for(len, step),
{
    let t = tiles_for(len, step);
    vstd::arithmetic::div_mod::lemma_fundamental_div_mod(len + step - 1, step);
    let rest = (len + step - 1) % step;
    assert(t <= k) by (nonlinear_arith)
        requires
            step > 0,
            len + step - 1 == step * t + rest,
            0 <= rest < step,
            k * step >= len,
    ;
    assert(k <= t) by (nonlinear_arith)
        requires
            step > 0,
            len >= 0,
            len + step - 1 == step * t + rest,
            0 <= rest < step,
            k == 0 || (k - 1) * step < len,
    ;
}

fn push_row(r: &mut Vec<UVTile>, columns: &Vec<usize>, v: usize, w: usize)
    ensures
        final(r)@ == old(r)@ + columns@.map_values(|u: usize| UVTile { u, v, w }),
{
    let ghost before = r@;
    let ghost row = columns@.map_values(|u: usize| UVTile { u, v, w });
    let mut a: usize = 0;
    assert(before + row.take(0) =~= before);
    while a < columns.len()
        invariant
            a <= columns@.len(),
            row == columns@.map_values(|u: usize| UVTile { u, v, w }),
            r@ == before + row.take(a as int),
        decreases columns@.len() - a,
    {
        r.push(UVTile { u: columns[a], v, w });
        a += 1;
        assert(r@ =~= before + row.take(a as int));
    }
    assert(row.take(a as int) =~= row);
}

/// What one more row adds.
proof fn lemma_row_pushed(params: RenderParams, r: Seq<UVTile>, columns: Seq<usize>, rows: Seq<usize>, b: int, w: usize)
    requires
        raster_of(
            columns,
            params.area().left as int,
            params.area().width as int,
            params.tile_size as int,
        ),
        raster_of(rows, params.area().top as int, params.area().height as int, params.tile_size as int),
        params.min_layer <= w <= params.max_layer,
        0 <= b < rows.len(),
        r.len() >= columns.len(),
        r.skip(r.len() - columns.len()) == columns.map_values(|u: usize| UVTile { u, v: rows[b], w }),
        forall|t: UVTile|
            #![trigger r.take(r.len() - columns.len()).contains(t)]
            #![trigger params.has_tile(t)]
            r.take(r.len() - columns.len()).contains(t) <==> params.has_tile(t) && (t.w < w || (t.w == w
                && rows.take(b).contains(t.v))),
        forall|i: int, j: int|
            0 <= i < j < r.len() - columns.len() ==> follows(#[trigger] r[i], #[trigger] r[j]),
    ensures
        forall|t: UVTile|
            #![trigger r.contains(t)]
            #![trigger params.has_tile(t)]
            r.contains(t) <==> params.has_tile(t) && (t.w < w || (t.w == w && rows.take(b + 1).contains(
                t.v,
            ))),
        forall|i: int, j: int| 0 <= i < j < r.len() ==> follows(#[trigger] r[i], #[trigger] r[j]),
{
    let n = r.len() - columns.len();
    let v = rows[b];
    let before = r.take(n);
    let row = columns.map_values(|u: usize| UVTile { u, v, w });
    assert(r =~= before + row);
    let more = rows.take(b + 1);
    assert(more =~= rows.take(b).push(v));
    assert(rows.contains(v));
    assert(on_raster(v as int, params.area().top as int, params.area().height as int, params.tile_size as int));
    assert forall|x: usize| #[trigger] rows.take(b + 1).contains(x) <==> rows.take(b).contains(x) || x
        == v by {
        assert(rows.take(b + 1)[b] == v);
        if rows.take(b).contains(x) {
            let k = choose|k: int| 0 <= k < b && rows.take(b)[k] == x;
            assert(rows.take(b + 1)[k] == x);
        }
        if rows.take(b + 1).contains(x) && x != v {
            let k = choose|k: int| 0 <= k < more.len() && more[k] == x;
            assert(rows.take(b)[k] == x);
        }
    }
    assert forall|t: UVTile|
        #![trigger r.contains(t)]
        #![trigger params.has_tile(t)]
        r.contains(t) <==> params.has_tile(t) && (t.w < w || (t.w == w && rows.take(b + 1).contains(
            t.v,
        ))) by {
        if r.contains(t) {
            let i = choose|i: int| 0 <= i < r.len() && r[i] == t;
            if i < n {
                assert(before[i] == t);
                assert(before.contains(t));
            } else {
                assert(row[i - n] == t);
                assert(columns.contains(columns[i - n]));
                assert(on_raster(
                    t.u as int,
                    params.area().left as int,
                    params.area().width as int,
                    params.tile_size as int,
                ));
            }
        }
        if params.has_tile(t) && (t.w < w || (t.w == w && rows.take(b + 1).contains(t.v))) {
            if t.w == w && t.v == v && !rows.take(b).contains(v) {
                assert(columns.contains(t.u));
                let i = choose|i: int| 0 <= i < columns.len() && columns[i] == t.u;
                assert(row[i] == t);
                assert(r[n + i] == t);
            } else {
                assert(before.contains(t));
                let i = choose|i: int| 0 <= i < before.len() && before[i] == t;
                assert(r[i] == t);
            }
        }
    }
    assert forall|i: int, j: int| 0 <= i < j < r.len() implies follows(#[trigger] r[i], #[trigger] r[j]) by {
        if j >= n {
            assert(r[j] == row[j - n]);
            if i >= n {
                assert(r[i] == row[i - n]);
                assert(columns[i - n] < columns[j - n]);
            } else {
                assert(before[i] == r[i]);
                assert(before.contains(r[i]));
                if r[i].w == w {
                    let k = choose|k: int| 0 <= k < b && rows.take(b)[k] == r[i].v;
                    assert(rows[k] < rows[b]);
                }
            }
        }
    }
}

/// The point lies in the tile.
pub open spec fn tile_covers(t: UVTile, tile_size: int, u: int, v: int) -> bool {
    &&& t.u <= u < t.u + tile_size
    &&& t.v <= v < t.v + tile_size
}

/// Each point of the part that is rendered lies in exactly one tile of each layer.
pub proof fn tiles_cover_the_area(params: RenderParams, u: int, v: int, w: usize, t: UVTile)
    requires
        params.valid(),
        params.min_layer <= w <= params.max_layer,
        params.area().left <= u < params.area().left + params.area().width,
        params.area().top <= v < params.area().top + params.area().height,
        t.w == w,
        t.u == u - (u - params.area().left) % (params.tile_size as int),
        t.v == v - (v - params.area().top) % (params.tile_size as int),
    ensures
        params.has_tile(t),
        tile_covers(t, params.tile_size as int, u, v),
        forall|s: UVTile|
            #![trigger params.has_tile(s)]
            params.has_tile(s) && s.w == w && tile_covers(s, params.tile_size as int, u, v) ==> s == t,
{
    let n = params.tile_size as int;
    let left = params.area().left as int;
    let top = params.area().top as int;
    lemma_tile_at(u, left, n);
    lemma_tile_at(v, top, n);
    assert forall|s: UVTile|
        #![trigger params.has_tile(s)]
        params.has_tile(s) && s.w == w && tile_covers(s, n, u, v) implies s == t by {
        lemma_tile_start(u, left, n, s.u as int);
        lemma_tile_start(v, top, n, s.v as int);
    }
}

pub proof fn lemma_tile_at(u: int, start: int, n: int)
    requires
        n > 0,
        start <= u,
    ensures
        start <= u - (u - start) % n <= u,
        (u - (u - start) % n - start) % n == 0,
        0 <= (u - start) % n < n,
{
    vstd::arithmetic::div_mod::lemma_fundamental_div_mod(u - start, n);
    let k = (u - start) / n;
    assert(k >= 0 && k * n >= 0 && n * k == k * n) by (nonlinear_arith)
        requires
            n > 0,
            u - start >= 0,
            u - start == n * k + (u - start) % n,
            0 <= (u - start) % n < n,
    ;
    vstd::arithmetic::div_mod::lemma_mod_multiples_basic(k, n);
}

proof fn lemma_tile_start(u: int, start: int, n: int, s: int)
    requires
        n > 0,
        start <= u,
        start <= s <= u < s + n,
        (s - start) % n == 0,
    ensures
        s == u - (u - start) % n,
{
    vstd::arithmetic::div_mod::lemma_fundamental_div_mod(s - start, n);
    let k = (s - start) / n;
    assert(u - start == k * n + (u - s)) by (nonlinear_arith)
        requires
            s - start == n * k,
    ;
    vstd::arithmetic::div_mod::lemma_fundamental_div_mod_converse_mod(u - start, n, k, u - s);
}

/// A part is written with its left side first, then its top, its width and its height. A number that
/// is missing leaves nothing.
pub proof fn crops_are_read_back(
    text: Option<Seq<char>>,
    left: nat,
    top: nat,
    width: nat,
    height: nat,
    zeros: int,
)
    requires
        left <= usize::MAX,
        top <= usize::MAX,
        width <= usize::MAX,
        height <= usize::MAX,
    ensures
        ({
            let crop = crop_of_groups(
                Some(
                    seq![
                        text,
                        Some(padded(left, zeros)),
                        Some(padded(top, zeros)),
                        Some(padded(width, zeros)),
                        Some(padded(height, zeros)),
                    ],
                ),
            );
            &&& crop is Some
            &&& crop->0.left == left
            &&& crop->0.top == top
            &&& crop->0.width == width
            &&& crop->0.height == height
        }),
        crop_of_groups(
            Some(seq![text, Some(padded(left, zeros)), Some(padded(top, zeros)), Some(padded(width, zeros)), None]),
        ) is None,
        crop_of_groups(None) is None,
{
    crate::text::written_numbers_are_read_back(left, zeros, usize::MAX as nat);
    crate::text::written_numbers_are_read_back(top, zeros, usize::MAX as nat);
    crate::text::written_numbers_are_read_back(width, zeros, usize::MAX as nat);
    crate::text::written_numbers_are_read_back(height, zeros, usize::MAX as nat);
}

/// What is rendered is the crop, and without one all of the segment.
pub proof fn everything_is_rendered_without_a_crop(params: RenderParams)
    ensures
        params.crop is Some ==> params.area() == params.crop->0,
        params.crop is None ==> params.area().left == 0 && params.area().top == 0 && params.area().width
            == params.width && params.area().height == params.height,
{
}

/// A point lies in a tile exactly if it is neither left of it nor above it, and closer than the side
/// of a tile to its corner. Tiles come layer by layer from the lowest, row by row from the top and
/// from left to right.
pub proof fn tiles_come_layer_by_layer(a: UVTile, b: UVTile, tile_size: int, du: int, dv: int)
    ensures
        tile_covers(a, tile_size, a.u + du, a.v + dv) <==> 0 <= du < tile_size && 0 <= dv < tile_size,
        a.w < b.w ==> follows(a, b) && !follows(b, a),
        a.w == b.w && a.v < b.v ==> follows(a, b) && !follows(b, a),
        a.w == b.w && a.v == b.v ==> (follows(a, b) <==> a.u < b.u),
{
}

/// There is one layer for each number from the lowest to the highest, and none if the lowest is above
/// the highest. Each layer has a tile for every row and column that is begun.
pub proof fn layers_are_counted(params: RenderParams, t: UVTile)
    requires
        params.valid(),
    ensures
        params.layers() >= 0,
        params.layers() == 0 <==> params.min_layer > params.max_layer,
        params.min_layer <= params.max_layer ==> params.min_layer + params.layers() - 1
            == params.max_layer,
        params.has_tile(t) ==> params.min_layer <= t.w < params.min_layer + params.layers(),
        params.has_tile(t) ==> (t.u - params.area().left) % (params.tile_size as int) == 0 && (t.v
            - params.area().top) % (params.tile_size as int) == 0,
{
}

/// The middle of a tile lies half a tile behind its corner in both directions of the surface. Along the
/// layers it is counted from the middle layer.
pub proof fn tile_centers_lie_in_the_middle(params: RenderParams, tile: UVTile, r: [i32; 3])
    requires
        tile.u + params.tile_size / 2 <= i32::MAX,
        tile.v + params.tile_size / 2 <= i32::MAX,
        tile.w <= i32::MAX,
        params.mid_layer <= i32::MAX,
        params.tile_size > 0,
        call_ensures(RenderParams::tile_center, (&params, tile), r),
    ensures
        tile_covers(tile, params.tile_size as int, r@[0] as int, r@[1] as int),
        tile.u + params.tile_size - 1 <= r@[0] + (r@[0] - tile.u) <= tile.u + params.tile_size,
        tile.v + params.tile_size - 1 <= r@[1] + (r@[1] - tile.v) <= tile.v + params.tile_size,
        tile.w == params.mid_layer + r@[2],
{
}

} // verus!
