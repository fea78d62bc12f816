//! Putting the tiles of a layer together.

use crate::grid::{flat2, index2, lemma_flat2_bound, lemma_flat2_injective};
use crate::render::{tile_covers, tiles_cover_the_area, RenderParams, UVTile};
use crate::volume::image::Image;
use vstd::prelude::*;

verus! {

/// A picture in shades of grey, row by row.
pub struct GrayImage {
    pub width: usize,
    pub height: usize,
    pub data: Vec<u8>,
}

impl GrayImage {
    pub open spec fn valid(&self) -> bool {
        self.data@.len() == self.height * self.width
    }

    pub open spec fn inside(&self, x: int, y: int) -> bool {
        0 <= x < self.width && 0 <= y < self.height
    }

    pub open spec fn pixel(&self, x: int, y: int) -> u8 {
        self.data@[flat2(self.width as int, x, y)]
    }

    /// A picture that is black all over.
    pub fn new(width: usize, height: usize) -> (r: GrayImage)
        requires
            height * width <= usize::MAX,
        ensures
            r.valid(),
            r.width == width,
            r.height == height,
            forall|x: int, y: int| r.inside(x, y) ==> #[trigger] r.pixel(x, y) == 0,
    {
        let r = GrayImage { width, height, data: vec![0u8; height * width] };
        assert forall|x: int, y: int| r.inside(x, y) implies #[trigger] r.pixel(x, y) == 0 by {
            lemma_flat2_bound(width as int, height as int, x, y);
        }
        r
    }

    /// Sets one pixel.
    pub fn put_pixel(&mut self, x: usize, y: usize, value: u8)
        requires
            old(self).valid(),
            old(self).inside(x as int, y as int),
        ensures
            final(self).valid(),
            final(self).width == old(self).width,
            final(self).height == old(self).height,
            forall|i: int, j: int|
                old(self).inside(i, j) ==> #[trigger] final(self).pixel(i, j) == (if i == x && j == y {
                    value
                } else {
                    old(self).pixel(i, j)
                }),
    {
        let ghost before = *self;
        proof {
            lemma_flat2_bound(self.width as int, self.height as int, x as int, y as int);
        }
        assert(self.data.len() <= usize::MAX);
        let index: usize = index2(self.width, self.height, x, y);
        self.data[index] = value;
        assert forall|i: int, j: int| before.inside(i, j) implies #[trigger] self.pixel(i, j) == (if i == x
            && j == y {
            value
        } else {
            before.pixel(i, j)
        }) by {
            lemma_flat2_bound(self.width as int, self.height as int, i, j);
            if flat2(self.width as int, i, j) == index {
                lemma_flat2_injective(self.width as int, i, j, x as int, y as int);
            }
        }
    }
}

/// A tile with its picture.
pub struct RenderedTile {
    pub tile: UVTile,
    pub image: Image,
}

impl RenderedTile {
    /// The picture fills the tile, which begins in the part that is rendered.
    pub open spec fn valid(&self, params: RenderParams) -> bool {
        &&& self.image.valid()
        &&& self.image.width == params.tile_size
        &&& self.image.height == params.tile_size
        &&& self.tile.u >= params.area().left
        &&& self.tile.v >= params.area().top
        &&& self.tile.u + params.tile_size <= usize::MAX
        &&& self.tile.v + params.tile_size <= usize::MAX
    }
}

/// The value of a pixel of a layer: that of the last of the first `n` tiles that cover it.
pub open spec fn layer_pixel(params: RenderParams, tiles: Seq<RenderedTile>, n: int, x: int, y: int) -> u8
    decreases n,
{
    let u = params.area().left + x;
    let v = params.area().top + y;
    if n <= 0 {
        0
    } else if tile_covers(tiles[n - 1].tile, params.tile_size as int, u, v) {
        tiles[n - 1].image.pixel(u - tiles[n - 1].tile.u, v - tiles[n - 1].tile.v).r
    } else {
        layer_pixel(params, tiles, n - 1, x, y)
    }
}

/// Copies a tile into the picture of a layer. What lies beyond the edges is left out.
fn blit(params: &RenderParams, t: &RenderedTile, image: &mut GrayImage)
    requires
        old(image).valid(),
        t.valid(*params),
        params.tile_size > 0,
    ensures
        final(image).valid(),
        final(image).width == old(image).width,
        final(image).height == old(image).height,
        forall|x: int, y: int|
            old(image).inside(x, y) ==> #[trigger] final(image).pixel(x, y) == (if tile_covers(
                t.tile,
                params.tile_size as int,
                params.area().left + x,
                params.area().top + y,
            ) {
                t.image.pixel(params.area().left + x - t.tile.u, params.area().top + y - t.tile.v).r
            } else {
                old(image).pixel(x, y)
            }),
{
    let left: usize = params.render_left();
    let top: usize = params.render_top();
    let n: usize = params.tile_size;
    let du: usize = t.tile.u - left;
    let dv: usize = t.tile.v - top;
    let ghost before = *image;
    let mut lu: usize = 0;
    while lu < n
        invariant
            n == params.tile_size,
            left == params.area().left && top == params.area().top,
            t.valid(*params),
            du == t.tile.u - left && dv == t.tile.v - top,
            lu <= n,
            image.valid(),
            image.width == before.width && image.height == before.height,
            forall|x: int, y: int|
                before.inside(x, y) ==> #[trigger] image.pixel(x, y) == (if du <= x < du + lu && dv <= y < dv
                    + n {
                    t.image.pixel(x - du, y - dv).r
                } else {
                    before.pixel(x, y)
                }),
        decreases n - lu,
    {
        let gu: usize = du + lu;
        let mut lv: usize = 0;
        while lv < n
            invariant
                n == params.tile_size,
                left == params.area().left && top == params.area().top,
                t.valid(*params),
                du == t.tile.u - left && dv == t.tile.v - top,
                lu < n,
                gu == du + lu,
                lv <= n,
                image.valid(),
                image.width == before.width && image.height == before.height,
                forall|x: int, y: int|
                    before.inside(x, y) ==> #[trigger] image.pixel(x, y) == (if (du <= x < du + lu && dv <= y
                        < dv + n) || (x == du + lu && dv <= y < dv + lv) {
                        t.image.pixel(x - du, y - dv).r
                    } else {
                        before.pixel(x, y)
                    }),
            decreases n - lv,
        {
            let gv: usize = dv + lv;
            if gu < image.width && gv < image.height {
                proof {
                    lemma_flat2_bound(n as int, n as int, lu as int, lv as int);
                }
                assert(t.image.data.len() <= usize::MAX);
                let at: usize = index2(n, n, lu, lv);
                image.put_pixel(gu, gv, t.image.data[at].r);
            }
            lv += 1;
        }
        lu += 1;
    }
}

/// Puts the tiles of a layer together.
pub fn render_layer_from_tiles(params: &RenderParams, tiles: &Vec<RenderedTile>) -> (image: GrayImage)
    requires
        params.tile_size > 0,
        params.area().height * params.area().width <= usize::MAX,
        forall|i: int| 0 <= i < tiles@.len() ==> (#[trigger] tiles@[i]).valid(*params),
    ensures
        image.valid(),
        image.width == params.area().width,
        image.height == params.area().height,
        forall|x: int, y: int|
            image.inside(x, y) ==> #[trigger] image.pixel(x, y) == layer_pixel(
                *params,
                tiles@,
                tiles@.len() as int,
                x,
                y,
            ),
{
    let mut image = GrayImage::new(params.render_width(), params.render_height());
    let mut i: usize = 0;
    while i < tiles.len()
        invariant
            params.tile_size > 0,
            i <= tiles@.len(),
            image.valid(),
            image.width == params.area().width,
            image.height == params.area().height,
            forall|k: int| 0 <= k < tiles@.len() ==> (#[trigger] tiles@[k]).valid(*params),
            forall|x: int, y: int|
                image.inside(x, y) ==> #[trigger] image.pixel(x, y) == layer_pixel(
                    *params,
                    tiles@,
                    i as int,
                    x,
                    y,
                ),
        decreases tiles@.len() - i,
    {
        let ghost before = image;
        blit(params, &tiles[i], &mut image);
        assert forall|x: int, y: int| image.inside(x, y) implies #[trigger] image.pixel(x, y)
            == layer_pixel(*params, tiles@, i + 1, x, y) by {
            assert(before.inside(x, y));
            assert(before.pixel(x, y) == layer_pixel(*params, tiles@, i as int, x, y));
        }
        i += 1;
    }
    image
}

/// A layer of which all tiles are there shows at each pixel the tile that lies there.
pub proof fn layers_are_complete(params: RenderParams, tiles: Seq<RenderedTile>, w: usize, k: int, x: int, y: int)
    requires
        params.valid(),
        params.min_layer <= w <= params.max_layer,
        0 <= x < params.area().width,
        0 <= y < params.area().height,
        forall|i: int| 0 <= i < tiles.len() ==> params.has_tile((#[trigger] tiles[i]).tile) && tiles[i].tile.w == w,
        0 <= k < tiles.len(),
        forall|i: int, j: int|
            0 <= i < j < tiles.len() ==> (#[trigger] tiles[i]).tile != (#[trigger] tiles[j]).tile,
        tile_covers(
            tiles[k].tile,
            params.tile_size as int,
            params.area().left + x,
            params.area().top + y,
        ),
    ensures
        layer_pixel(params, tiles, tiles.len() as int, x, y) == tiles[k].image.pixel(
            params.area().left + x - tiles[k].tile.u,
            params.area().top + y - tiles[k].tile.v,
        ).r,
{
    lemma_last_cover(params, tiles, w, k, x, y, tiles.len() as int);
}

proof fn lemma_last_cover(
    params: RenderParams,
    tiles: Seq<RenderedTile>,
    w: usize,
    k: int,
    x: int,
    y: int,
    n: int,
)
    requires
        params.valid(),
        params.min_layer <= w <= params.max_layer,
        0 <= x < params.area().width,
        0 <= y < params.area().height,
        forall|i: int| 0 <= i < tiles.len() ==> params.has_tile((#[trigger] tiles[i]).tile) && tiles[i].tile.w == w,
        0 <= k < n <= tiles.len(),
        forall|i: int, j: int|
            0 <= i < j < tiles.len() ==> (#[trigger] tiles[i]).tile != (#[trigger] tiles[j]).tile,
        tile_covers(
            tiles[k].tile,
            params.tile_size as int,
            params.area().left + x,
            params.area().top + y,
        ),
    ensures
        layer_pixel(params, tiles, n, x, y) == tiles[k].image.pixel(
            params.area().left + x - tiles[k].tile.u,
            params.area().top + y - tiles[k].tile.v,
        ).r,
    decreases n,
{
    let u = params.area().left + x;
    let v = params.area().top + y;
    if n - 1 != k {
        let size = params.tile_size as int;
        let t = UVTile {
            u: (u - (u - params.area().left) % size) as usize,
            v: (v - (v - params.area().top) % size) as usize,
            w,
        };
        crate::render::lemma_tile_at(u, params.area().left as int, size);
        crate::render::lemma_tile_at(v, params.area().top as int, size);
        tiles_cover_the_area(params, u, v, w, t);
        assert(params.has_tile(tiles[k].tile));
        assert(params.has_tile(tiles[n - 1].tile));
        assert(tiles[k].tile != tiles[n - 1].tile);
        lemma_last_cover(params, tiles, w, k, x, y, n - 1);
    }
}

/// The pixels of a picture stand row by row, each row from left to right.
pub proof fn gray_pixels_stand_row_by_row(image: GrayImage, x: int, y: int)
    requires
        image.valid(),
        image.inside(x, y),
    ensures
        0 <= y * image.width + x < image.data@.len(),
        image.pixel(x, y) == image.data@[y * image.width + x],
{
    lemma_flat2_bound(image.width as int, image.height as int, x, y);
    crate::grid::cells_stand_row_by_row(image.width as int, image.height as int, x, y, 0);
}

/// A pixel that no tile covers is black.
pub proof fn uncovered_pixels_are_black(
    params: RenderParams,
    tiles: Seq<RenderedTile>,
    n: int,
    x: int,
    y: int,
)
    requires
        n <= tiles.len(),
        forall|i: int|
            0 <= i < n ==> !tile_covers(
                (#[trigger] tiles[i]).tile,
                params.tile_size as int,
                params.area().left + x,
                params.area().top + y,
            ),
    ensures
        layer_pixel(params, tiles, n, x, y) == 0,
    decreases n,
{
    if n > 0 {
        uncovered_pixels_are_black(params, tiles, n - 1, x, y);
    }
}

} // verus!
