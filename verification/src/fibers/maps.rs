//! The voxels of the fibers as they are kept in map files, and how these are painted.

use crate::fibers::clouds::{le_u16, point_bytes};
use crate::fibers::flood::{index_of, map_index};
use crate::volume::generic::Canvas;
use crate::volume::image::{Color32, Image};
use crate::volume::overlay::{color_of, has_pixel, has_voxel, is_plane_pixel, overlay_color, paint_colors, plane_pixels, FourColors, PlanePixel};
use vstd::prelude::*;

verus! {

/// A coordinate in 16 bits: larger ones become the largest.
pub open spec fn clamped(c: int) -> int {
    if c > 0xffff {
        0xffff
    } else {
        c
    }
}

fn clamp(c: usize) -> (r: u16)
    ensures
        r == clamped(c as int),
{
    if c > 0xffff {
        0xffff
    } else {
        c as u16
    }
}

/// The byte of a map for a voxel; 0 behind the end of the map.
pub open spec fn map_byte(map: Seq<u8>, x: int, y: int, z: int) -> u8 {
    let index = map_index(clamped(x), clamped(y), clamped(z));
    if index < map.len() {
        map[index]
    } else {
        0
    }
}

fn read_map(map: &[u8], x: usize, y: usize, z: usize) -> (v: u8)
    ensures
        v == map_byte(map@, x as int, y as int, z as int),
{
    let index: u64 = index_of(clamp(x), clamp(y), clamp(z));
    let n: usize = map.len();
    if index < n as u64 {
        map[index as usize]
    } else {
        0
    }
}

/// Pixels of `canvas` whose voxel has a colour were set, all others kept.
pub open spec fn painted_over(
    canvas: Canvas,
    color: spec_fn(Seq<int>) -> Option<Color32>,
    before: Image,
    after: Image,
) -> bool {
    &&& before.same_size(after)
    &&& forall|x: int, y: int|
        before.inside(x, y) ==> #[trigger] after.pixel(x, y) == (match (if has_voxel(canvas, x, y) {
            color(canvas.point(x, y))
        } else {
            None
        }) {
            Some(c) => c,
            None => before.pixel(x, y),
        })
}

proof fn lemma_painted_over(
    canvas: Canvas,
    color: spec_fn(Seq<int>) -> Option<Color32>,
    before: Image,
    after: Image,
    pixels: Seq<PlanePixel>,
    colors: Seq<Option<Color32>>,
)
    requires
        before.same_size(after),
        pixels.len() == colors.len(),
        forall|i: int| 0 <= i < pixels.len() ==> is_plane_pixel(canvas, #[trigger] pixels[i]),
        forall|x: int, y: int| #[trigger] has_voxel(canvas, x, y) ==> has_pixel(pixels, x, y),
        forall|i: int|
            0 <= i < pixels.len() ==> #[trigger] colors[i] == color(
                canvas.point(pixels[i].x as int, pixels[i].y as int),
            ),
        forall|i: int|
            0 <= i < pixels.len() ==> after.pixel((#[trigger] pixels[i]).x as int, pixels[i].y as int)
                == (match colors[i] {
                Some(c) => c,
                None => before.pixel(pixels[i].x as int, pixels[i].y as int),
            }),
        forall|x: int, y: int|
            before.inside(x, y) && !has_pixel(pixels, x, y) ==> #[trigger] after.pixel(x, y)
                == before.pixel(x, y),
    ensures
        painted_over(canvas, color, before, after),
{
    assert forall|x: int, y: int| before.inside(x, y) implies #[trigger] after.pixel(x, y) == (match (
    if has_voxel(canvas, x, y) {
        color(canvas.point(x, y))
    } else {
        None
    }) {
        Some(c) => c,
        None => before.pixel(x, y),
    }) by {
        if has_pixel(pixels, x, y) {
            let i = choose|i: int| 0 <= i < pixels.len() && (#[trigger] pixels[i]).x == x && pixels[i].y == y;
            assert(colors[i] == color(canvas.point(x, y)));
        }
    }
}

/// Where the map of all fibers begins in the scroll.
pub const MAP_X: usize = 1961;

pub const MAP_Y: usize = 2135;

pub const MAP_Z: usize = 7000;

/// All fibers: a class for each voxel of the map.
pub struct FullMapVolume<'a> {
    pub mmap: &'a [u8],
}

impl<'a> FullMapVolume<'a> {
    /// The class of a voxel of the scroll; none before the map begins.
    pub open spec fn class_at(&self, p: Seq<int>) -> Option<u8> {
        if p[0] < MAP_X || p[1] < MAP_Y || p[2] < MAP_Z {
            None
        } else {
            Some(map_byte(self.mmap@, p[0] - MAP_X, p[1] - MAP_Y, p[2] - MAP_Z))
        }
    }

    pub fn new(mmap: &'a [u8]) -> (r: FullMapVolume<'a>)
        ensures
            r.mmap == mmap,
    {
        FullMapVolume { mmap }
    }

    fn class_of(&self, voxel: [usize; 3]) -> (v: Option<u8>)
        ensures
            v == self.class_at(voxel@.map_values(|c: usize| c as int)),
    {
        if voxel[0] < MAP_X || voxel[1] < MAP_Y || voxel[2] < MAP_Z {
            None
        } else {
            Some(read_map(self.mmap, voxel[0] - MAP_X, voxel[1] - MAP_Y, voxel[2] - MAP_Z))
        }
    }

    /// Paints the fibers on a plane, in one colour for each class.
    pub fn paint(
        &self,
        xyz: [i32; 3],
        u_coord: usize,
        v_coord: usize,
        plane_coord: usize,
        width: usize,
        height: usize,
        sfactor: u8,
        paint_zoom: u8,
        buffer: &mut Image,
    )
        requires
            sfactor == 1,
            (Canvas { xyz, u_coord, v_coord, plane_coord, width, height, paint_zoom }).valid(),
            old(buffer).valid(),
            width <= old(buffer).width,
            height <= old(buffer).height,
        ensures
            painted_over(
                (Canvas { xyz, u_coord, v_coord, plane_coord, width, height, paint_zoom }),
                |p: Seq<int>| overlay_color::<FourColors>(self.class_at(p)),
                *old(buffer),
                *final(buffer),
            ),
    {
        let canvas = Canvas { xyz, u_coord, v_coord, plane_coord, width, height, paint_zoom };
        let ghost color = |p: Seq<int>| overlay_color::<FourColors>(self.class_at(p));
        let ghost before = *buffer;
        let pixels = plane_pixels(&canvas);
        let mut colors: Vec<Option<Color32>> = Vec::new();
        let mut i: usize = 0;
        while i < pixels.len()
            invariant
                canvas.valid(),
                i <= pixels@.len(),
                colors@.len() == i,
                color == (|p: Seq<int>| overlay_color::<FourColors>(self.class_at(p))),
                forall|k: int| 0 <= k < pixels@.len() ==> is_plane_pixel(canvas, #[trigger] pixels@[k]),
                forall|k: int|
                    0 <= k < i ==> #[trigger] colors@[k] == color(
                        canvas.point(pixels@[k].x as int, pixels@[k].y as int),
                    ),
            decreases pixels.len() - i,
        {
            let pixel = pixels[i];
            assert(pixel.voxel@.map_values(|c: usize| c as int) =~= canvas.point(
                pixel.x as int,
                pixel.y as int,
            ));
            colors.push(color_of::<FourColors>(self.class_of(pixel.voxel)));
            i += 1;
        }
        paint_colors(&pixels, &colors, buffer);
        proof {
            lemma_painted_over(canvas, color, before, *buffer, pixels@, colors@);
        }
    }
}

/// How many colours the palette of the components has.
pub const PALETTE: usize = 60;

/// The fibers after they were parted into components: a number for each voxel of the map. The
/// number 1 stands for all small components.
pub struct ConnectedFullMapVolume<'a> {
    pub mmap: &'a [u8],
    pub palette: Vec<Color32>,
}

impl<'a> ConnectedFullMapVolume<'a> {
    pub open spec fn valid(&self) -> bool {
        self.palette@.len() == PALETTE
    }

    /// The colour of a voxel; none for what is empty or small.
    pub open spec fn color_at(&self, p: Seq<int>) -> Option<Color32> {
        let v = map_byte(self.mmap@, p[0], p[1], p[2]);
        if v > 1 {
            Some(self.palette@[v as int % PALETTE as int])
        } else {
            None
        }
    }

    pub fn new(mmap: &'a [u8], palette: Vec<Color32>) -> (r: ConnectedFullMapVolume<'a>)
        requires
            palette@.len() == PALETTE,
        ensures
            r.valid(),
            r.mmap == mmap,
            r.palette == palette,
    {
        ConnectedFullMapVolume { mmap, palette }
    }

    /// Paints the large components on a plane.
    pub fn paint(
        &self,
        xyz: [i32; 3],
        u_coord: usize,
        v_coord: usize,
        plane_coord: usize,
        width: usize,
        height: usize,
        sfactor: u8,
        paint_zoom: u8,
        buffer: &mut Image,
    )
        requires
            sfactor == 1,
            self.valid(),
            (Canvas { xyz, u_coord, v_coord, plane_coord, width, height, paint_zoom }).valid(),
            old(buffer).valid(),
            width <= old(buffer).width,
            height <= old(buffer).height,
        ensures
            painted_over(
                (Canvas { xyz, u_coord, v_coord, plane_coord, width, height, paint_zoom }),
                |p: Seq<int>| self.color_at(p),
                *old(buffer),
                *final(buffer),
            ),
    {
        let canvas = Canvas { xyz, u_coord, v_coord, plane_coord, width, height, paint_zoom };
        let ghost color = |p: Seq<int>| self.color_at(p);
        let ghost before = *buffer;
        let pixels = plane_pixels(&canvas);
        let mut colors: Vec<Option<Color32>> = Vec::new();
        let mut i: usize = 0;
        while i < pixels.len()
            invariant
                self.valid(),
                i <= pixels@.len(),
                colors@.len() == i,
                color == (|p: Seq<int>| self.color_at(p)),
                forall|k: int| 0 <= k < pixels@.len() ==> is_plane_pixel(canvas, #[trigger] pixels@[k]),
                forall|k: int|
                    0 <= k < i ==> #[trigger] colors@[k] == color(
                        canvas.point(pixels@[k].x as int, pixels@[k].y as int),
                    ),
            decreases pixels.len() - i,
        {
            let pixel = pixels[i];
            let v: u8 = read_map(self.mmap, pixel.voxel[0], pixel.voxel[1], pixel.voxel[2]);
            if v > 1 {
                colors.push(Some(self.palette[v as usize % PALETTE]));
            } else {
                colors.push(None);
            }
            i += 1;
        }
        paint_colors(&pixels, &colors, buffer);
        proof {
            lemma_painted_over(canvas, color, before, *buffer, pixels@, colors@);
        }
    }
}

/// The part of the scroll whose components are numbered one by one: where it begins, and its size.
pub const CROP_X: usize = 2400;

pub const CROP_Y: usize = 3000;

pub const CROP_Z: usize = 9300;

pub const CROP_WIDTH: usize = 1000;

pub const CROP_HEIGHT: usize = 1000;

pub const CROP_DEPTH: usize = 5000;

/// The components of the cropped part: a number for each of its voxels.
pub struct ConnectedFullMapVolume2<'a> {
    pub ids: &'a [u32],
}

impl<'a> ConnectedFullMapVolume2<'a> {
    /// The voxel lies in the cropped part.
    pub open spec fn covers(x: int, y: int, z: int) -> bool {
        &&& CROP_X <= x < CROP_X + CROP_WIDTH
        &&& CROP_Y <= y < CROP_Y + CROP_HEIGHT
        &&& CROP_Z <= z < CROP_Z + CROP_DEPTH
    }

    /// Where the number of a voxel stands.
    pub open spec fn place(x: int, y: int, z: int) -> int {
        ((z + 1 - CROP_Z) * CROP_HEIGHT + (y + 1 - CROP_Y)) * CROP_WIDTH + (x + 1 - CROP_X)
    }

    /// The number of a voxel's component: 0 outside the cropped part and behind the last number.
    pub open spec fn class(&self, x: int, y: int, z: int) -> u32 {
        if Self::covers(x, y, z) && Self::place(x, y, z) < self.ids@.len() {
            self.ids@[Self::place(x, y, z)]
        } else {
            0
        }
    }

    pub fn new(ids: &'a [u32]) -> (r: ConnectedFullMapVolume2<'a>)
        ensures
            r.ids == ids,
    {
        ConnectedFullMapVolume2 { ids }
    }

    /// Computes [`Self::class`].
    pub fn get_class(&self, x: usize, y: usize, z: usize) -> (r: u32)
        ensures
            r == self.class(x as int, y as int, z as int),
    {
        if x < CROP_X || y < CROP_Y || z < CROP_Z || x >= CROP_X + CROP_WIDTH || y >= CROP_Y
            + CROP_HEIGHT || z >= CROP_Z + CROP_DEPTH {
            return 0;
        }
        let layer: u64 = (z + 1 - CROP_Z) as u64;
        let row: u64 = (y + 1 - CROP_Y) as u64;
        let column: u64 = (x + 1 - CROP_X) as u64;
        let place: u64 = (layer * 1000 + row) * 1000 + column;
        let n: usize = self.ids.len();
        if place < n as u64 {
            self.ids[place as usize]
        } else {
            0
        }
    }

    /// The place in the palette for the colour of a voxel of the plane; none outside of every
    /// component.
    pub fn palette_index(&self, voxel: [usize; 3]) -> (r: Option<usize>)
        ensures
            r == (if self.class(voxel@[0] as int, voxel@[1] as int, voxel@[2] as int) != 0 {
                Some(
                    (self.class(voxel@[0] as int, voxel@[1] as int, voxel@[2] as int) as int
                        % PALETTE as int) as usize,
                )
            } else {
                None
            }),
    {
        let class: u32 = self.get_class(voxel[0], voxel[1], voxel[2]);
        if class != 0 {
            Some(class as usize % PALETTE)
        } else {
            None
        }
    }
}

/// The points of all voxels, parted by class: those of class 1, and the others.
pub struct PointFiles {
    pub first: Vec<u8>,
    pub second: Vec<u8>,
    pub count: u64,
}

/// The six bytes of a point.
pub open spec fn is_point(bytes: Seq<u8>, x: u16, y: u16, z: u16) -> bool {
    &&& bytes.len() == 6
    &&& le_u16(bytes, 0) == x
    &&& le_u16(bytes, 2) == y
    &&& le_u16(bytes, 4) == z
}

/// `after` is `before` with the bytes of a point behind it.
pub open spec fn point_added(before: Seq<u8>, after: Seq<u8>, x: u16, y: u16, z: u16) -> bool {
    &&& after.len() == before.len() + 6
    &&& before.is_prefix_of(after)
    &&& is_point(after.skip(before.len() as int), x, y, z)
}

fn push_point(bytes: &mut Vec<u8>, x: u16, y: u16, z: u16)
    ensures
        point_added(old(bytes)@, final(bytes)@, x, y, z),
{
    let ghost before = bytes@;
    let point: [u8; 6] = point_bytes([x, y, z]);
    let mut i: usize = 0;
    while i < 6
        invariant
            i <= 6,
            point@.len() == 6,
            bytes@ =~= before + point@.take(i as int),
        decreases 6 - i,
    {
        bytes.push(point[i]);
        i += 1;
    }
    assert(bytes@.skip(before.len() as int) =~= point@);
    assert(le_u16(point@, 2 * 0int) == x);
    assert(le_u16(point@, 2 * 1int) == y);
    assert(le_u16(point@, 2 * 2int) == z);
}

impl PointFiles {
    pub fn new() -> (r: PointFiles)
        ensures
            r.first@.len() == 0,
            r.second@.len() == 0,
            r.count == 0,
    {
        PointFiles { first: Vec::new(), second: Vec::new(), count: 0 }
    }

    /// Takes one voxel; one without a value is passed over. Coordinates are kept in 16 bits.
    pub fn visit(&mut self, x: usize, y: usize, z: usize, v: Option<u8>)
        requires
            old(self).count < u64::MAX,
        ensures
            match v {
                None => *final(self) == *old(self),
                Some(v) => {
                    &&& final(self).count == old(self).count + 1
                    &&& if v == 1 {
                        &&& point_added(old(self).first@, final(self).first@, x as u16, y as u16, z as u16)
                        &&& final(self).second@ == old(self).second@
                    } else {
                        &&& point_added(
                            old(self).second@,
                            final(self).second@,
                            x as u16,
                            y as u16,
                            z as u16,
                        )
                        &&& final(self).first@ == old(self).first@
                    }
                },
            },
    {
        if let Some(v) = v {
            self.count = self.count + 1;
            if v == 1 {
                push_point(&mut self.first, x as u16, y as u16, z as u16);
            } else {
                push_point(&mut self.second, x as u16, y as u16, z as u16);
            }
        }
    }
}

/// Enters a voxel into a map of all fibers; one without a value is passed over.
pub fn enter_voxel(map: &mut [u8], x: u16, y: u16, z: u16, v: Option<u8>)
    requires
        map_index(x as int, y as int, z as int) < old(map)@.len(),
    ensures
        match v {
            Some(v) => final(map)@ == old(map)@.update(map_index(x as int, y as int, z as int), v),
            None => final(map)@ == old(map)@,
        },
{
    if let Some(v) = v {
        let index: u64 = index_of(x, y, z);
        assert(map@.len() == map.len());
        map[index as usize] = v;
    }
}

/// A map of all fibers begins at the point (1961, 2135, 7000) of the scroll. Before it there is nothing.
pub proof fn maps_begin_at_their_corner(volume: FullMapVolume<'_>, x: int, y: int, z: int)
    ensures
        volume.class_at(seq![x, y, z]) is Some <==> x >= 1961 && y >= 2135 && z >= 7000,
        0 <= x <= 0xffff && 0 <= y <= 0xffff && 0 <= z <= 0xffff ==> volume.class_at(
            seq![1961 + x, 2135 + y, 7000 + z],
        ) == Some(
            if map_index(x, y, z) < volume.mmap@.len() {
                volume.mmap@[map_index(x, y, z)]
            } else {
                0
            },
        ),
{
}

/// Components show in the colours of the palette, one after the other, and what is empty or small does
/// not show.
pub proof fn components_have_palette_colors(volume: ConnectedFullMapVolume<'_>, x: int, y: int, z: int, i: int)
    requires
        volume.valid(),
        0 <= x <= 0xffff,
        0 <= y <= 0xffff,
        0 <= z <= 0xffff,
        map_index(x, y, z) < volume.mmap@.len(),
    ensures
        volume.mmap@[map_index(x, y, z)] <= 1 <==> volume.color_at(seq![x, y, z]) is None,
        0 <= i < 60 && volume.mmap@[map_index(x, y, z)] > 1 && (volume.mmap@[map_index(x, y, z)] - i) % 60
            == 0 ==> volume.color_at(seq![x, y, z]) == Some(volume.palette@[i]),
{
    let v = volume.mmap@[map_index(x, y, z)];
    assert(map_byte(volume.mmap@, x, y, z) == v);
    lemma_palette_place(v as int, i);
}

proof fn lemma_palette_place(v: int, i: int)
    ensures
        0 <= i < 60 && (v - i) % 60 == 0 ==> v % 60 == i,
{
}

/// The cropped part is a box of 1000 by 1000 by 5000 voxels, of which the numbers stand row by row. In
/// front there is one more column, row and layer.
pub proof fn cropped_numbers_stand_row_by_row(x: int, y: int, z: int)
    ensures
        ConnectedFullMapVolume2::covers(2400 + x, 3000 + y, 9300 + z) <==> 0 <= x < 1000 && 0 <= y < 1000
            && 0 <= z < 5000,
        ConnectedFullMapVolume2::place(2399, 2999, 9299) == 0,
        ConnectedFullMapVolume2::place(x + 1, y, z) == ConnectedFullMapVolume2::place(x, y, z) + 1,
        ConnectedFullMapVolume2::place(x, y + 1, z) == ConnectedFullMapVolume2::place(x, y, z) + 1000,
        ConnectedFullMapVolume2::place(x, y, z + 1) == ConnectedFullMapVolume2::place(x, y, z) + 1000000,
{
}

/// A voxel outside of the cropped part, or behind the last number, belongs to no component.
pub proof fn components_end_with_the_crop(volume: ConnectedFullMapVolume2<'_>, x: int, y: int, z: int)
    ensures
        x < 2400 || x >= 3400 || y < 3000 || y >= 4000 || z < 9300 || z >= 14300 ==> volume.class(x, y, z)
            == 0,
        ConnectedFullMapVolume2::covers(x, y, z) ==> volume.class(x, y, z) == (
        if ConnectedFullMapVolume2::place(x, y, z) < volume.ids@.len() {
            volume.ids@[ConnectedFullMapVolume2::place(x, y, z)]
        } else {
            0
        }),
{
}

/// Painting over sets the pixels whose voxel has a colour, and leaves all others.
pub proof fn painting_over_keeps_the_rest(
    canvas: Canvas,
    color: spec_fn(Seq<int>) -> Option<Color32>,
    before: Image,
    after: Image,
    x: int,
    y: int,
)
    requires
        painted_over(canvas, color, before, after),
        before.inside(x, y),
    ensures
        x >= canvas.width || y >= canvas.height ==> after.pixel(x, y) == before.pixel(x, y),
        color(canvas.point(x, y)) is None ==> after.pixel(x, y) == before.pixel(x, y),
        x < canvas.width && y < canvas.height && canvas.point(x, y)[0] >= 0 && canvas.point(x, y)[1] >= 0
            && canvas.point(x, y)[2] >= 0 && color(canvas.point(x, y)) is Some ==> after.pixel(x, y)
            == color(canvas.point(x, y))->0,
{
}

/// The bytes of a point give its coordinates in their order, each with the lower byte first.
pub proof fn points_are_written_in_order(bytes: Seq<u8>, x: u16, y: u16, z: u16)
    requires
        is_point(bytes, x, y, z),
    ensures
        bytes == seq![
            (x % 256) as u8,
            (x / 256) as u8,
            (y % 256) as u8,
            (y / 256) as u8,
            (z % 256) as u8,
            (z / 256) as u8,
        ],
{
    assert(bytes =~= seq![
        (x % 256) as u8,
        (x / 256) as u8,
        (y % 256) as u8,
        (y / 256) as u8,
        (z % 256) as u8,
        (z / 256) as u8,
    ]);
}

/// A coordinate that fits into 16 bits stays, and a larger one becomes the largest that does.
pub proof fn coordinates_fit_into_sixteen_bits(c: int, map: Seq<u8>, y: int, z: int)
    ensures
        c <= 65535 ==> clamped(c) == c,
        c >= 65535 ==> clamped(c) == 65535 && map_byte(map, c, y, z) == map_byte(map, 65535, y, z),
{
}

} // verus!
