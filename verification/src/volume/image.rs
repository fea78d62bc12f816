//! Colours and the image that volumes are painted into.

use crate::grid::{flat2, index2, lemma_flat2_bound, lemma_flat2_injective};
use vstd::prelude::*;

verus! {

/// A colour of red, green, blue and opacity.
#[derive(Clone, Copy, PartialEq, Eq, Structural)]
pub struct Color32 {
    pub r: u8,
    pub g: u8,
    pub b: u8,
    pub a: u8,
}

impl Color32 {
    pub open spec fn rgb(r: u8, g: u8, b: u8) -> Color32 {
        Color32 { r, g, b, a: 255 }
    }

    pub open spec fn gray(l: u8) -> Color32 {
        Color32 { r: l, g: l, b: l, a: 255 }
    }

    /// An opaque colour.
    pub fn from_rgb(r: u8, g: u8, b: u8) -> (c: Color32)
        ensures
            c == Color32::rgb(r, g, b),
    {
        Color32 { r, g, b, a: 255 }
    }

    /// An opaque shade of grey.
    pub fn from_gray(l: u8) -> (c: Color32)
        ensures
            c == Color32::gray(l),
    {
        Color32 { r: l, g: l, b: l, a: 255 }
    }
}

/// A picture of `width` by `height` pixels, row by row.
pub struct Image {
    pub width: usize,
    pub height: usize,
    pub data: Vec<Color32>,
}

impl Image {
    /// One pixel for each place.
    pub open spec fn valid(&self) -> bool {
        self.data@.len() == self.height * self.width
    }

    /// The place is inside the picture.
    pub open spec fn inside(&self, x: int, y: int) -> bool {
        0 <= x < self.width && 0 <= y < self.height
    }

    pub open spec fn pixel(&self, x: int, y: int) -> Color32 {
        self.data@[flat2(self.width as int, x, y)]
    }

    /// `after` is this picture with at most one pixel changed.
    pub open spec fn with_pixel(&self, x: int, y: int, color: Color32, after: Image) -> bool {
        &&& self.same_size(after)
        &&& forall|i: int, j: int|
            self.inside(i, j) ==> #[trigger] after.pixel(i, j) == (if i == x && j == y {
                color
            } else {
                self.pixel(i, j)
            })
    }

    pub open spec fn same_size(&self, other: Image) -> bool {
        &&& other.valid()
        &&& other.width == self.width
        &&& other.height == self.height
    }

    /// A black picture.
    pub fn new(width: usize, height: usize) -> (image: Image)
        requires
            height * width <= usize::MAX,
        ensures
            image.valid(),
            image.width == width,
            image.height == height,
            forall|i: int, j: int|
                image.inside(i, j) ==> #[trigger] image.pixel(i, j) == Color32::gray(0),
    {
        let black = Color32::from_gray(0);
        let ghost total = height * width;
        assert(width * height == height * width) by (nonlinear_arith);
        let image = Image { width, height, data: vec![black; height * width] };
        proof {
            assert forall|i: int, j: int| image.inside(i, j) implies #[trigger] image.pixel(i, j)
                == Color32::gray(0) by {
                lemma_flat2_bound(width as int, height as int, i, j);
            }
        }
        image
    }

    /// Colours one pixel.
    pub fn set(&mut self, x: usize, y: usize, value: Color32)
        requires
            old(self).valid(),
            old(self).inside(x as int, y as int),
        ensures
            old(self).with_pixel(x as int, y as int, value, *final(self)),
    {
        proof {
            lemma_flat2_bound(self.width as int, self.height as int, x as int, y as int);
        }
        let ghost before = *self;
        assert(self.data.len() <= usize::MAX);
        let index: usize = index2(self.width, self.height, x, y);
        self.data[index] = value;
        proof {
            assert forall|i: int, j: int| before.inside(i, j) implies #[trigger] self.pixel(i, j) == (
            if i == x && j == y {
                value
            } else {
                before.pixel(i, j)
            }) by {
                lemma_flat2_bound(self.width as int, self.height as int, i, j);
                if flat2(self.width as int, i, j) == index {
                    lemma_flat2_injective(self.width as int, i, j, x as int, y as int);
                }
            }
        }
    }

    pub fn set_rgb(&mut self, x: usize, y: usize, r: u8, g: u8, b: u8)
        requires
            old(self).valid(),
            old(self).inside(x as int, y as int),
        ensures
            old(self).with_pixel(x as int, y as int, Color32::rgb(r, g, b), *final(self)),
    {
        self.set(x, y, Color32::from_rgb(r, g, b));
    }

    pub fn set_gray(&mut self, x: usize, y: usize, value: u8)
        requires
            old(self).valid(),
            old(self).inside(x as int, y as int),
        ensures
            old(self).with_pixel(x as int, y as int, Color32::gray(value), *final(self)),
    {
        self.set(x, y, Color32::from_gray(value));
    }
}

/// The pixels of a picture stand row by row, each row from left to right.
pub proof fn pixels_stand_row_by_row(image: Image, x: int, y: int)
    requires
        image.valid(),
        image.inside(x, y),
    ensures
        0 <= y * image.width + x < image.data@.len(),
        image.pixel(x, y) == image.data@[y * image.width + x],
{
    lemma_flat2_bound(image.width as int, image.height as int, x, y);
    crate::grid::cells_stand_row_by_row(image.width as int, image.height as int, x, y, 0);
}

/// Colours are opaque and keep what they are made of; a shade of grey has the same of each.
pub proof fn colors_are_opaque(r: u8, g: u8, b: u8)
    ensures
        Color32::rgb(r, g, b).r == r,
        Color32::rgb(r, g, b).g == g,
        Color32::rgb(r, g, b).b == b,
        Color32::rgb(r, g, b).a == 255,
        Color32::gray(g) == Color32::rgb(g, g, g),
{
}

/// Setting a pixel gives it its colour and keeps all others, and the size. Set twice, the later colour
/// stays.
pub proof fn one_pixel_is_set(
    before: Image,
    middle: Image,
    after: Image,
    x: int,
    y: int,
    i: int,
    j: int,
    first: Color32,
    second: Color32,
)
    requires
        before.valid(),
        before.inside(x, y),
        before.inside(i, j),
        before.with_pixel(x, y, first, middle),
        middle.with_pixel(x, y, second, after),
    ensures
        middle.pixel(x, y) == first,
        after.pixel(x, y) == second,
        i != x || j != y ==> middle.pixel(i, j) == before.pixel(i, j) && after.pixel(i, j) == before.pixel(
            i,
            j,
        ),
        after.width == before.width && after.height == before.height,
{
    assert(middle.inside(i, j));
    let a = middle.pixel(i, j);
    let b = middle.pixel(x, y);
    let c = after.pixel(i, j);
    let d = after.pixel(x, y);
}

} // verus!
