//! Painting over an image, pixel by pixel, whatever has a colour on a plane.

use crate::volume::generic::Canvas;
use crate::volume::image::{Color32, Image};
use vstd::prelude::*;

verus! {

/// How the values of voxels are coloured.
pub trait ColorScheme {
    spec fn color(value: u8) -> Color32;

    fn get_color(value: u8) -> (c: Color32)
        ensures
            c == Self::color(value),
    ;
}

/// Red, green and yellow for the first three values, blue for all others.
pub struct FourColors {}

impl ColorScheme for FourColors {
    open spec fn color(value: u8) -> Color32 {
        if value == 1 {
            Color32::rgb(255, 0, 0)
        } else if value == 2 {
            Color32::rgb(0, 255, 0)
        } else if value == 3 {
            Color32::rgb(255, 255, 0)
        } else {
            Color32::rgb(0, 0, 255)
        }
    }

    fn get_color(value: u8) -> (c: Color32) {
        match value {
            1 => Color32::from_rgb(255, 0, 0),
            2 => Color32::from_rgb(0, 255, 0),
            3 => Color32::from_rgb(255, 255, 0),
            _ => Color32::from_rgb(0, 0, 255),
        }
    }
}

/// The value as a shade of grey.
pub struct GrayScale {}

impl ColorScheme for GrayScale {
    open spec fn color(value: u8) -> Color32 {
        Color32::gray(value)
    }

    fn get_color(value: u8) -> (c: Color32) {
        Color32::from_gray(value)
    }
}

/// The colour in which a voxel is painted over; none for a voxel that is missing or zero.
pub open spec fn overlay_color<C: ColorScheme>(value: Option<u8>) -> Option<Color32> {
    match value {
        Some(v) if v != 0 => Some(C::color(v)),
        _ => None,
    }
}

/// Computes [`overlay_color`].
pub fn color_of<C: ColorScheme>(value: Option<u8>) -> (c: Option<Color32>)
    ensures
        c == overlay_color::<C>(value),
{
    match value {
        Some(v) => if v != 0 {
            Some(C::get_color(v))
        } else {
            None
        },
        None => None,
    }
}

/// A pixel of a canvas and the voxel that lies under it.
#[derive(Clone, Copy)]
pub struct PlanePixel {
    pub x: usize,
    pub y: usize,
    pub voxel: [usize; 3],
}

/// There can be a voxel under the pixel: none of its coordinates is negative.
pub open spec fn has_voxel(canvas: Canvas, x: int, y: int) -> bool {
    &&& 0 <= x < canvas.width
    &&& 0 <= y < canvas.height
    &&& canvas.point(x, y)[0] >= 0
    &&& canvas.point(x, y)[1] >= 0
    &&& canvas.point(x, y)[2] >= 0
}

/// The pixel is one of the canvas, with the voxel under it.
pub open spec fn is_plane_pixel(canvas: Canvas, pixel: PlanePixel) -> bool {
    &&& has_voxel(canvas, pixel.x as int, pixel.y as int)
    &&& pixel.voxel@[0] == canvas.point(pixel.x as int, pixel.y as int)[0]
    &&& pixel.voxel@[1] == canvas.point(pixel.x as int, pixel.y as int)[1]
    &&& pixel.voxel@[2] == canvas.point(pixel.x as int, pixel.y as int)[2]
}

/// Column by column, from top to bottom.
pub open spec fn comes_before(a: PlanePixel, x: int, y: int) -> bool {
    a.x < x || (a.x == x && a.y < y)
}

/// No pixel stands twice, and they stand column by column.
pub open spec fn in_order(pixels: Seq<PlanePixel>) -> bool {
    forall|i: int, j: int|
        0 <= i < j < pixels.len() ==> comes_before(
            #[trigger] pixels[i],
            (#[trigger] pixels[j]).x as int,
            pixels[j].y as int,
        )
}

/// One of the pixels is (`x`, `y`).
pub open spec fn has_pixel(pixels: Seq<PlanePixel>, x: int, y: int) -> bool {
    exists|i: int| 0 <= i < pixels.len() && (#[trigger] pixels[i]).x == x && pixels[i].y == y
}

/// Lists the pixels of a canvas under which there can be a voxel.
pub fn plane_pixels(canvas: &Canvas) -> (r: Vec<PlanePixel>)
    requires
        canvas.valid(),
    ensures
        forall|i: int| 0 <= i < r@.len() ==> is_plane_pixel(*canvas, #[trigger] r@[i]),
        forall|x: int, y: int| #[trigger] has_voxel(*canvas, x, y) ==> has_pixel(r@, x, y),
        in_order(r@),
{
    let mut r: Vec<PlanePixel> = Vec::new();
    let mut x: usize = 0;
    while x < canvas.width
        invariant
            canvas.valid(),
            x <= canvas.width,
            forall|i: int| 0 <= i < r@.len() ==> is_plane_pixel(*canvas, #[trigger] r@[i]),
            forall|a: int, b: int| #[trigger] has_voxel(*canvas, a, b) && a < x ==> has_pixel(r@, a, b),
            forall|i: int| 0 <= i < r@.len() ==> (#[trigger] r@[i]).x < x,
            in_order(r@),
        decreases canvas.width - x,
    {
        let mut y: usize = 0;
        while y < canvas.height
            invariant
                canvas.valid(),
                x < canvas.width,
                y <= canvas.height,
                forall|i: int| 0 <= i < r@.len() ==> is_plane_pixel(*canvas, #[trigger] r@[i]),
                forall|a: int, b: int| #[trigger]
                    has_voxel(*canvas, a, b) && (a < x || (a == x && b < y)) ==> has_pixel(r@, a, b),
                forall|i: int|
                    0 <= i < r@.len() ==> comes_before(#[trigger] r@[i], x as int, y as int),
                in_order(r@),
            decreases canvas.height - y,
        {
            let p = canvas.world(x, y);
            let ghost before = r@;
            if p[0] >= 0 && p[1] >= 0 && p[2] >= 0 {
                let voxel: [usize; 3] = [p[0] as usize, p[1] as usize, p[2] as usize];
                r.push(PlanePixel { x, y, voxel });
                assert(r@[before.len() as int].x == x);
            }
            assert forall|a: int, b: int| #[trigger] has_pixel(before, a, b) implies has_pixel(
                r@,
                a,
                b,
            ) by {
                let i = choose|i: int|
                    0 <= i < before.len() && (#[trigger] before[i]).x == a && before[i].y == b;
                assert(r@[i] == before[i]);
            }
            y += 1;
        }
        x += 1;
    }
    r
}

/// Sets each pixel that has a colour.
pub fn paint_colors(pixels: &[PlanePixel], colors: &[Option<Color32>], buffer: &mut Image)
    requires
        old(buffer).valid(),
        in_order(pixels@),
        pixels@.len() == colors@.len(),
        forall|i: int|
            0 <= i < pixels@.len() ==> old(buffer).inside(
                (#[trigger] pixels@[i]).x as int,
                pixels@[i].y as int,
            ),
    ensures
        old(buffer).same_size(*final(buffer)),
        forall|i: int|
            0 <= i < pixels@.len() ==> final(buffer).pixel(
                (#[trigger] pixels@[i]).x as int,
                pixels@[i].y as int,
            ) == (match colors@[i] {
                Some(c) => c,
                None => old(buffer).pixel(pixels@[i].x as int, pixels@[i].y as int),
            }),
        forall|x: int, y: int|
            old(buffer).inside(x, y) && !has_pixel(pixels@, x, y) ==> #[trigger] final(buffer).pixel(x, y)
                == old(buffer).pixel(x, y),
{
    let ghost before = *buffer;
    let mut k: usize = 0;
    while k < pixels.len()
        invariant
            k <= pixels@.len(),
            before.same_size(*buffer),
            in_order(pixels@),
            pixels@.len() == colors@.len(),
            forall|i: int|
                0 <= i < pixels@.len() ==> before.inside(
                    (#[trigger] pixels@[i]).x as int,
                    pixels@[i].y as int,
                ),
            forall|i: int|
                0 <= i < pixels@.len() ==> buffer.pixel(
                    (#[trigger] pixels@[i]).x as int,
                    pixels@[i].y as int,
                ) == (match colors@[i] {
                    Some(c) if i < k => c,
                    _ => before.pixel(pixels@[i].x as int, pixels@[i].y as int),
                }),
            forall|x: int, y: int|
                before.inside(x, y) && !has_pixel(pixels@, x, y) ==> #[trigger] buffer.pixel(x, y)
                    == before.pixel(x, y),
        decreases pixels.len() - k,
    {
        let p = pixels[k];
        let ghost was = *buffer;
        assert(before.inside(p.x as int, p.y as int));
        if let Some(c) = colors[k] {
            buffer.set(p.x, p.y, c);
            proof {
                assert(has_pixel(pixels@, p.x as int, p.y as int)) by {
                    assert(pixels@[k as int] == p);
                }
                assert forall|i: int| 0 <= i < pixels@.len() && i != k implies !((#[trigger] pixels@[i]).x
                    == p.x && pixels@[i].y == p.y) by {
                    let q = pixels@[k as int];
                    if i < k {
                        assert(comes_before(pixels@[i], q.x as int, q.y as int));
                    } else {
                        assert(comes_before(q, pixels@[i].x as int, pixels@[i].y as int));
                    }
                }
                assert forall|i: int| 0 <= i < pixels@.len() implies buffer.pixel(
                    (#[trigger] pixels@[i]).x as int,
                    pixels@[i].y as int,
                ) == (match colors@[i] {
                    Some(c) if i < k + 1 => c,
                    _ => before.pixel(pixels@[i].x as int, pixels@[i].y as int),
                }) by {
                    assert(was.inside(pixels@[i].x as int, pixels@[i].y as int));
                }
            }
        }
        k += 1;
    }
}

/// Of the four colours red shows for 1 and 3, green for 2 and 3, and blue for all values that show
/// neither. Grey shows the value itself. Nothing is painted for a missing voxel or a zero.
pub proof fn values_have_their_colors(value: u8)
    ensures
        FourColors::color(value).r == (if value == 1 || value == 3 { 255u8 } else { 0 }),
        FourColors::color(value).g == (if value == 2 || value == 3 { 255u8 } else { 0 }),
        FourColors::color(value).b == (if 1 <= value <= 3 { 0u8 } else { 255 }),
        FourColors::color(value).a == 255,
        GrayScale::color(value) == (Color32 { r: value, g: value, b: value, a: 255 }),
        overlay_color::<FourColors>(None) is None,
        overlay_color::<FourColors>(Some(value)) is None <==> value == 0,
        overlay_color::<GrayScale>(None) is None,
        overlay_color::<GrayScale>(Some(value)) is None <==> value == 0,
        value != 0 ==> overlay_color::<FourColors>(Some(value)) == Some(FourColors::color(value)),
        value != 0 ==> overlay_color::<GrayScale>(Some(value)) == Some(GrayScale::color(value)),
{
}

/// The pixels of a column come from top to bottom, and before those of the columns to its right.
pub proof fn columns_come_from_left_to_right(a: PlanePixel, x: int, y: int)
    ensures
        comes_before(a, a.x as int, a.y + 1),
        x > a.x ==> comes_before(a, x, y),
        x < a.x ==> !comes_before(a, x, y),
        x == a.x && y <= a.y ==> !comes_before(a, x, y),
{
}

/// A pixel whose point has no negative coordinate lies over the voxel of that point.
pub proof fn plane_pixels_lie_over_their_voxels(canvas: Canvas, pixel: PlanePixel)
    requires
        canvas.valid(),
        is_plane_pixel(canvas, pixel),
    ensures
        pixel.x < canvas.width,
        pixel.y < canvas.height,
        pixel.voxel@.map_values(|c: usize| c as int) == canvas.point(pixel.x as int, pixel.y as int),
{
    assert(pixel.voxel@.map_values(|c: usize| c as int) =~= canvas.point(pixel.x as int, pixel.y as int));
}

} // verus!
