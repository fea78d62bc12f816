//! Triangles of a flattened surface: which pixels they cover, and with which weights of their
//! corners.

use crate::volume::tile::trunc_div;
use vstd::arithmetic::div_mod::{lemma_div_pos_is_pos, lemma_fundamental_div_mod, lemma_mod_bound};
use vstd::prelude::*;

verus! {

/// Twice the area of the triangle of three points; negative if they go round the other way.
pub open spec fn orient(u1: int, v1: int, u2: int, v2: int, u3: int, v3: int) -> int {
    (u2 - u1) * (v3 - v1) - (v2 - v1) * (u3 - u1)
}

fn orient_wide(u1: i64, v1: i64, u2: i64, v2: i64, u3: i64, v3: i64) -> (r: i128)
    requires
        -0x4_0000_0000 <= u1 <= 0x4_0000_0000 && -0x4_0000_0000 <= v1 <= 0x4_0000_0000,
        -0x4_0000_0000 <= u2 <= 0x4_0000_0000 && -0x4_0000_0000 <= v2 <= 0x4_0000_0000,
        -0x4_0000_0000 <= u3 <= 0x4_0000_0000 && -0x4_0000_0000 <= v3 <= 0x4_0000_0000,
    ensures
        r == orient(u1 as int, v1 as int, u2 as int, v2 as int, u3 as int, v3 as int),
        -0x100_0000_0000_0000_0000 <= r <= 0x100_0000_0000_0000_0000,
{
    let a: i128 = u2 as i128 - u1 as i128;
    let b: i128 = v3 as i128 - v1 as i128;
    let c: i128 = v2 as i128 - v1 as i128;
    let d: i128 = u3 as i128 - u1 as i128;
    proof {
        lemma_product_bound(a as int, b as int);
        lemma_product_bound(c as int, d as int);
    }
    a * b - c * d
}

proof fn lemma_product_bound(a: int, b: int)
    requires
        -0x8_0000_0000 <= a <= 0x8_0000_0000,
        -0x8_0000_0000 <= b <= 0x8_0000_0000,
    ensures
        -0x40_0000_0000_0000_0000 <= a * b <= 0x40_0000_0000_0000_0000,
{
    assert(-0x8_0000_0000 * 0x8_0000_0000 <= a * b <= 0x8_0000_0000 * 0x8_0000_0000) by (nonlinear_arith)
        requires
            -0x8_0000_0000 <= a <= 0x8_0000_0000,
            -0x8_0000_0000 <= b <= 0x8_0000_0000,
    ;
}

/// Computes [`orient`].
pub fn orient2d(u1: i32, v1: i32, u2: i32, v2: i32, u3: i32, v3: i32) -> (r: i128)
    ensures
        r == orient(u1 as int, v1 as int, u2 as int, v2 as int, u3 as int, v3 as int),
{
    orient_wide(u1 as i64, v1 as i64, u2 as i64, v2 as i64, u3 as i64, v3 as i64)
}

/// Exchanging two points turns the triangle round; moving on by one point does not.
pub proof fn orientation_follows_the_order(u1: int, v1: int, u2: int, v2: int, u3: int, v3: int)
    ensures
        orient(u2, v2, u1, v1, u3, v3) == -orient(u1, v1, u2, v2, u3, v3),
        orient(u2, v2, u3, v3, u1, v1) == orient(u1, v1, u2, v2, u3, v3),
{
    assert((u1 - u2) * (v3 - v2) - (v1 - v2) * (u3 - u2) == -((u2 - u1) * (v3 - v1) - (v2 - v1) * (u3
        - u1))) by (nonlinear_arith);
    assert((u3 - u2) * (v1 - v2) - (v3 - v2) * (u1 - u2) == (u2 - u1) * (v3 - v1) - (v2 - v1) * (u3
        - u1)) by (nonlinear_arith);
}

/// A triangle in pixels of the flattened surface.
#[derive(Clone, Copy, PartialEq, Eq, Structural)]
pub struct Triangle {
    pub u1: i32,
    pub v1: i32,
    pub u2: i32,
    pub v2: i32,
    pub u3: i32,
    pub v3: i32,
}

pub open spec fn min3(a: int, b: int, c: int) -> int {
    let m = if a < b { a } else { b };
    if m < c {
        m
    } else {
        c
    }
}

pub open spec fn max3(a: int, b: int, c: int) -> int {
    let m = if a > b { a } else { b };
    if m > c {
        m
    } else {
        c
    }
}

fn least3(a: i64, b: i64, c: i64) -> (r: i64)
    ensures
        r == min3(a as int, b as int, c as int),
{
    let m: i64 = if a < b {
        a
    } else {
        b
    };
    if m < c {
        m
    } else {
        c
    }
}

fn greatest3(a: i64, b: i64, c: i64) -> (r: i64)
    ensures
        r == max3(a as int, b as int, c as int),
{
    let m: i64 = if a > b {
        a
    } else {
        b
    };
    if m > c {
        m
    } else {
        c
    }
}

impl Triangle {
    /// How much the first, second and third corner weigh at a point.
    pub open spec fn weights(&self, u: int, v: int) -> (int, int, int) {
        (
            orient(self.u2 as int, self.v2 as int, self.u3 as int, self.v3 as int, u, v),
            orient(self.u3 as int, self.v3 as int, self.u1 as int, self.v1 as int, u, v),
            orient(self.u1 as int, self.v1 as int, self.u2 as int, self.v2 as int, u, v),
        )
    }

    /// The point is not outside of any side.
    pub open spec fn inside(&self, u: int, v: int) -> bool {
        let w = self.weights(u, v);
        w.0 >= 0 && w.1 >= 0 && w.2 >= 0
    }

    /// Twice the area of the triangle.
    pub open spec fn area(&self) -> int {
        orient(
            self.u1 as int,
            self.v1 as int,
            self.u2 as int,
            self.v2 as int,
            self.u3 as int,
            self.v3 as int,
        )
    }

    pub open spec fn min_u(&self) -> int {
        min3(self.u1 as int, self.u2 as int, self.u3 as int)
    }

    pub open spec fn max_u(&self) -> int {
        max3(self.u1 as int, self.u2 as int, self.u3 as int)
    }

    pub open spec fn min_v(&self) -> int {
        min3(self.v1 as int, self.v2 as int, self.v3 as int)
    }

    pub open spec fn max_v(&self) -> int {
        max3(self.v1 as int, self.v2 as int, self.v3 as int)
    }

    /// The weights of a point that lies in the triangle and in its bounding box.
    pub fn hit(&self, u: i32, v: i32) -> (r: Option<(i128, i128, i128)>)
        ensures
            r is Some <==> {
                &&& self.min_u() <= u <= self.max_u()
                &&& self.min_v() <= v <= self.max_v()
                &&& self.inside(u as int, v as int)
            },
            r matches Some(w) ==> (w.0 as int, w.1 as int, w.2 as int) == self.weights(u as int, v as int),
    {
        let min_u: i64 = least3(self.u1 as i64, self.u2 as i64, self.u3 as i64);
        let max_u: i64 = greatest3(self.u1 as i64, self.u2 as i64, self.u3 as i64);
        let min_v: i64 = least3(self.v1 as i64, self.v2 as i64, self.v3 as i64);
        let max_v: i64 = greatest3(self.v1 as i64, self.v2 as i64, self.v3 as i64);
        if min_u <= u as i64 && u as i64 <= max_u && min_v <= v as i64 && v as i64 <= max_v {
            let w0: i128 = orient2d(self.u2, self.v2, self.u3, self.v3, u, v);
            let w1: i128 = orient2d(self.u3, self.v3, self.u1, self.v1, u, v);
            let w2: i128 = orient2d(self.u1, self.v1, self.u2, self.v2, u, v);
            if w0 >= 0 && w1 >= 0 && w2 >= 0 {
                return Some((w0, w1, w2));
            }
        }
        None
    }

    /// The middle of the triangle lies inside: its corners go round as they do in the picture.
    pub fn contains_its_middle(&self) -> (r: bool)
        ensures
            r == self.inside(
                trunc_div(self.u1 + self.u2 + self.u3, 3),
                trunc_div(self.v1 + self.v2 + self.v3, 3),
            ),
    {
        let u: i64 = (self.u1 as i64 + self.u2 as i64 + self.u3 as i64) / 3;
        let v: i64 = (self.v1 as i64 + self.v2 as i64 + self.v3 as i64) / 3;
        let (u1, v1) = (self.u1 as i64, self.v1 as i64);
        let (u2, v2) = (self.u2 as i64, self.v2 as i64);
        let (u3, v3) = (self.u3 as i64, self.v3 as i64);
        let w0: i128 = orient_wide(u2, v2, u3, v3, u, v);
        let w1: i128 = orient_wide(u3, v3, u1, v1, u, v);
        let w2: i128 = orient_wide(u1, v1, u2, v2, u, v);
        w0 >= 0 && w1 >= 0 && w2 >= 0
    }
}

/// The value rounded towards zero to a whole number of pixels.
pub open spec fn aligned(v: int, zoom: int) -> int {
    trunc_div(v, zoom) * zoom
}

/// Computes [`aligned`], to avoid gaps because of integer processing.
pub fn paint_zoom_align(v: i64, paint_zoom: u8) -> (r: i64)
    requires
        paint_zoom >= 1,
    ensures
        r == aligned(v as int, paint_zoom as int),
{
    let q: i64 = v / paint_zoom as i64;
    proof {
        lemma_aligned(v as int, paint_zoom as int);
    }
    q * paint_zoom as i64
}

/// The value rounded to a whole number of pixels, up if it is positive.
pub fn paint_zoom_align_up(v: i64, paint_zoom: u8) -> (r: i64)
    requires
        paint_zoom >= 1,
        v + paint_zoom - 1 <= i64::MAX,
    ensures
        r == aligned(v + paint_zoom - 1, paint_zoom as int),
{
    paint_zoom_align(v + (paint_zoom as i64 - 1), paint_zoom)
}

proof fn lemma_aligned(v: int, zoom: int)
    requires
        zoom >= 1,
    ensures
        v >= 0 ==> 0 <= aligned(v, zoom) <= v,
        v <= 0 ==> v <= aligned(v, zoom) <= 0,
        v - zoom < aligned(v, zoom) < v + zoom,
{
    let m = if v >= 0 { v } else { -v };
    lemma_fundamental_div_mod(m, zoom);
    lemma_mod_bound(m, zoom);
    lemma_div_pos_is_pos(m, zoom);
    let q = m / zoom;
    assert(q * zoom == zoom * q) by (nonlinear_arith);
    assert(0 <= q * zoom) by (nonlinear_arith)
        requires
            0 <= q,
            zoom >= 1,
    ;
    assert((-q) * zoom == -(q * zoom)) by (nonlinear_arith);
}

/// Aligning moves a value by less than a pixel, towards zero, and aligning up never lowers it.
pub proof fn alignment_is_close(v: int, zoom: int)
    requires
        zoom >= 1,
    ensures
        v >= 0 ==> v - zoom < aligned(v, zoom) <= v,
        v <= 0 ==> v <= aligned(v, zoom) < v + zoom,
        v <= aligned(v + zoom - 1, zoom) < v + 2 * zoom - 1,
{
    lemma_aligned(v, zoom);
    lemma_aligned(v + zoom - 1, zoom);
}

/// The part of the flattened surface that is painted: where it starts, its size in pixels, and how
/// many units a pixel covers.
#[derive(Clone, Copy, PartialEq, Eq, Structural)]
pub struct Window {
    pub min_u: i32,
    pub min_v: i32,
    pub width: usize,
    pub height: usize,
    pub zoom: u8,
}

/// A pixel that a triangle covers, and the weights of the triangle's corners there.
#[derive(Clone, Copy, PartialEq, Eq, Structural)]
pub struct RasterPoint {
    pub x: usize,
    pub y: usize,
    pub w0: i128,
    pub w1: i128,
    pub w2: i128,
}

impl Window {
    pub open spec fn valid(&self) -> bool {
        &&& self.zoom >= 1
        &&& self.width * self.zoom <= i32::MAX
        &&& self.height * self.zoom <= i32::MAX
    }

    /// The surface point that a pixel stands for.
    pub open spec fn at(&self, x: int, y: int) -> (int, int) {
        (self.min_u + x * self.zoom, self.min_v + y * self.zoom)
    }

    /// The pixel lies in the window and in the triangle's bounding box, which is widened to whole
    /// pixels, and the point that it stands for lies in the triangle.
    pub open spec fn covers(&self, tri: Triangle, x: int, y: int) -> bool {
        let zoom = self.zoom as int;
        let p = self.at(x, y);
        &&& 0 <= x < self.width
        &&& 0 <= y < self.height
        &&& aligned(tri.min_u() - self.min_u, zoom) <= x * zoom <= aligned(
            tri.max_u() - self.min_u + zoom - 1,
            zoom,
        )
        &&& aligned(tri.min_v() - self.min_v, zoom) <= y * zoom <= aligned(
            tri.max_v() - self.min_v + zoom - 1,
            zoom,
        )
        &&& tri.inside(p.0, p.1)
    }

    /// The point lists the pixel with the right weights.
    pub open spec fn lists(&self, tri: Triangle, p: RasterPoint) -> bool {
        let at = self.at(p.x as int, p.y as int);
        &&& self.covers(tri, p.x as int, p.y as int)
        &&& (p.w0 as int, p.w1 as int, p.w2 as int) == tri.weights(at.0, at.1)
    }
}

/// Row by row, and in a row from left to right.
pub open spec fn raster_order(a: RasterPoint, b: RasterPoint) -> bool {
    a.y < b.y || (a.y == b.y && a.x < b.x)
}

/// The points of the sum of weights: they are a share of the whole, and the corners weighted with
/// them give the point back.
proof fn lemma_barycentric(u1: int, v1: int, u2: int, v2: int, u3: int, v3: int, u: int, v: int)
    ensures
        ({
            let w0 = orient(u2, v2, u3, v3, u, v);
            let w1 = orient(u3, v3, u1, v1, u, v);
            let w2 = orient(u1, v1, u2, v2, u, v);
            let area = orient(u1, v1, u2, v2, u3, v3);
            &&& w0 + w1 + w2 == area
            &&& w0 * u1 + w1 * u2 + w2 * u3 == area * u
            &&& w0 * v1 + w1 * v2 + w2 * v3 == area * v
        }),
{
    let w0 = orient(u2, v2, u3, v3, u, v);
    let w1 = orient(u3, v3, u1, v1, u, v);
    let w2 = orient(u1, v1, u2, v2, u, v);
    let area = orient(u1, v1, u2, v2, u3, v3);
    let (a1, b1) = (u1 - u, v1 - v);
    let (a2, b2) = (u2 - u, v2 - v);
    let (a3, b3) = (u3 - u, v3 - v);
    lemma_cross(a2, b2, a3, b3);
    lemma_cross(a3, b3, a1, b1);
    lemma_cross(a1, b1, a2, b2);
    assert(w0 == a2 * b3 - a3 * b2);
    assert(w1 == a3 * b1 - a1 * b3);
    assert(w2 == a1 * b2 - a2 * b1);
    assert((a2 - a1) * (b3 - b1) == a2 * b3 - a2 * b1 - a1 * b3 + a1 * b1) by (nonlinear_arith);
    assert((b2 - b1) * (a3 - a1) == a3 * b2 - a1 * b2 - a3 * b1 + a1 * b1) by (nonlinear_arith);
    assert(area == (a2 - a1) * (b3 - b1) - (b2 - b1) * (a3 - a1));
    lemma_vanishes(a1, a2, a3, b1, b2, b3);
    lemma_vanishes(b1, b2, b3, a1, a2, a3);
    assert(w0 * u1 == w0 * a1 + w0 * u && w1 * u2 == w1 * a2 + w1 * u && w2 * u3 == w2 * a3 + w2 * u)
        by (nonlinear_arith)
        requires
            u1 == a1 + u,
            u2 == a2 + u,
            u3 == a3 + u,
    ;
    assert(w0 * v1 == w0 * b1 + w0 * v && w1 * v2 == w1 * b2 + w1 * v && w2 * v3 == w2 * b3 + w2 * v)
        by (nonlinear_arith)
        requires
            v1 == b1 + v,
            v2 == b2 + v,
            v3 == b3 + v,
    ;
    assert(w0 * u + w1 * u + w2 * u == area * u && w0 * v + w1 * v + w2 * v == area * v)
        by (nonlinear_arith)
        requires
            w0 + w1 + w2 == area,
    ;
    assert(w0 * b1 == -((a3 * b2 - a2 * b3) * b1)) by (nonlinear_arith)
        requires
            w0 == a2 * b3 - a3 * b2,
    ;
    assert(w1 * b2 == -((a1 * b3 - a3 * b1) * b2)) by (nonlinear_arith)
        requires
            w1 == a3 * b1 - a1 * b3,
    ;
    assert(w2 * b3 == -((a2 * b1 - a1 * b2) * b3)) by (nonlinear_arith)
        requires
            w2 == a1 * b2 - a2 * b1,
    ;
    assert(b2 * a3 == a3 * b2 && b3 * a2 == a2 * b3 && b3 * a1 == a1 * b3 && b1 * a3 == a3 * b1 && b1
        * a2 == a2 * b1 && b2 * a1 == a1 * b2) by (nonlinear_arith);
}

/// Seen from a point, the area of two corners is their cross product.
proof fn lemma_cross(a: int, b: int, c: int, d: int)
    ensures
        (c - a) * (0 - b) - (d - b) * (0 - a) == a * d - c * b,
{
    assert((c - a) * (0 - b) == a * b - c * b) by (nonlinear_arith);
    assert((d - b) * (0 - a) == b * a - d * a) by (nonlinear_arith);
    assert(b * a == a * b && d * a == a * d) by (nonlinear_arith);
}

proof fn lemma_vanishes(a1: int, a2: int, a3: int, b1: int, b2: int, b3: int)
    ensures
        (a2 * b3 - a3 * b2) * a1 + (a3 * b1 - a1 * b3) * a2 + (a1 * b2 - a2 * b1) * a3 == 0,
{
    assert((a2 * b3 - a3 * b2) * a1 == (a1 * a2) * b3 - (a1 * a3) * b2) by (nonlinear_arith);
    assert((a3 * b1 - a1 * b3) * a2 == (a2 * a3) * b1 - (a1 * a2) * b3) by (nonlinear_arith);
    assert((a1 * b2 - a2 * b1) * a3 == (a1 * a3) * b2 - (a2 * a3) * b1) by (nonlinear_arith);
}

/// A weighted mean lies between the least and the greatest value.
proof fn lemma_mean(w0: int, w1: int, w2: int, a: int, b: int, c: int, area: int, m: int)
    requires
        w0 >= 0,
        w1 >= 0,
        w2 >= 0,
        w0 + w1 + w2 == area,
        area > 0,
        w0 * a + w1 * b + w2 * c == area * m,
    ensures
        min3(a, b, c) <= m <= max3(a, b, c),
{
    let lo = min3(a, b, c);
    let hi = max3(a, b, c);
    assert(w0 * lo <= w0 * a <= w0 * hi) by (nonlinear_arith)
        requires
            w0 >= 0,
            lo <= a <= hi,
    ;
    assert(w1 * lo <= w1 * b <= w1 * hi) by (nonlinear_arith)
        requires
            w1 >= 0,
            lo <= b <= hi,
    ;
    assert(w2 * lo <= w2 * c <= w2 * hi) by (nonlinear_arith)
        requires
            w2 >= 0,
            lo <= c <= hi,
    ;
    assert(w0 * lo + w1 * lo + w2 * lo == area * lo) by (nonlinear_arith)
        requires
            w0 + w1 + w2 == area,
    ;
    assert(w0 * hi + w1 * hi + w2 * hi == area * hi) by (nonlinear_arith)
        requires
            w0 + w1 + w2 == area,
    ;
    assert(lo <= m) by (nonlinear_arith)
        requires
            area * lo <= area * m,
            area > 0,
    ;
    assert(m <= hi) by (nonlinear_arith)
        requires
            area * m <= area * hi,
            area > 0,
    ;
}

/// No pixel of the window is left out whose point lies in a triangle that is not turned round and
/// not flat.
pub proof fn covered_pixels_are_complete(window: Window, tri: Triangle, x: int, y: int)
    requires
        window.valid(),
        tri.area() > 0,
        0 <= x < window.width,
        0 <= y < window.height,
        tri.inside(window.at(x, y).0, window.at(x, y).1),
    ensures
        window.covers(tri, x, y),
{
    let (u, v) = window.at(x, y);
    let zoom = window.zoom as int;
    let w = tri.weights(u, v);
    lemma_barycentric(
        tri.u1 as int,
        tri.v1 as int,
        tri.u2 as int,
        tri.v2 as int,
        tri.u3 as int,
        tri.v3 as int,
        u,
        v,
    );
    lemma_mean(
        w.0,
        w.1,
        w.2,
        tri.u1 as int,
        tri.u2 as int,
        tri.u3 as int,
        tri.area(),
        u,
    );
    lemma_mean(
        w.0,
        w.1,
        w.2,
        tri.v1 as int,
        tri.v2 as int,
        tri.v3 as int,
        tri.area(),
        v,
    );
    assert(x * zoom >= 0 && y * zoom >= 0) by (nonlinear_arith)
        requires
            x >= 0,
            y >= 0,
            zoom >= 1,
    ;
    lemma_aligned(tri.min_u() - window.min_u, zoom);
    lemma_aligned(tri.min_v() - window.min_v, zoom);
    alignment_is_close(tri.max_u() - window.min_u, zoom);
    alignment_is_close(tri.max_v() - window.min_v, zoom);
}

/// The first and the last multiple of a pixel, in units, that a range of the surface touches.
fn pixel_range(low: i64, high: i64, pixels: usize, zoom: u8) -> (r: (i64, i64))
    requires
        zoom >= 1,
        pixels * zoom <= i32::MAX,
        -0x1_0000_0000 <= low <= 0x1_0000_0000,
        -0x1_0000_0000 <= high <= 0x1_0000_0000,
    ensures
        0 <= r.0 <= 0x1_0000_0000,
        -0x2_0000_0000 <= r.1 < pixels * zoom,
        r.1 < i32::MAX,
        forall|i: int|
            #![trigger i * zoom]
            0 <= i < pixels && aligned(low as int, zoom as int) <= i * zoom <= aligned(
                high + zoom - 1,
                zoom as int,
            ) <==> 0 <= i && r.0 * zoom <= i * zoom <= r.1,
{
    let align_low: i64 = paint_zoom_align(low, zoom);
    let align_high: i64 = paint_zoom_align_up(high, zoom);
    let z: i64 = zoom as i64;
    let ghost zi = zoom as int;
    proof {
        lemma_scaled(pixels as int, zi);
    }
    let total: i64 = pixels as i64 * z;
    proof {
        lemma_aligned(low as int, zi);
        lemma_aligned(high + zoom - 1, zi);
    }
    let first: i64 = if align_low > 0 {
        align_low / z
    } else {
        0
    };
    let last: i64 = if align_high < total - 1 {
        align_high
    } else {
        total - 1
    };
    proof {
        let q = trunc_div(low as int, zi);
        if align_low > 0 {
            vstd::arithmetic::div_mod::lemma_div_multiples_vanish(q, zi);
            assert(zi * q == q * zi) by (nonlinear_arith);
            assert(first == q);
            vstd::arithmetic::div_mod::lemma_div_nonincreasing(align_low as int, zi);
        }
        assert(0 * zi == 0) by (nonlinear_arith);
        assert forall|i: int|
            #![trigger i * zoom]
            (0 <= i < pixels && aligned(low as int, zi) <= i * zoom <= aligned(high + zoom - 1, zi))
                == (0 <= i && first * zoom <= i * zoom <= last) by {
            if 0 <= i {
                assert(0 <= i * zi) by (nonlinear_arith)
                    requires
                        0 <= i,
                        zi >= 1,
                ;
                assert(i < pixels <==> i * zi <= pixels * zi - 1) by (nonlinear_arith)
                    requires
                        zi >= 1,
                ;
            }
        }
    }
    (first, last)
}

/// The pixels that a triangle covers, row by row.
pub fn raster_triangle(window: &Window, tri: &Triangle) -> (points: Vec<RasterPoint>)
    requires
        window.valid(),
    ensures
        forall|i: int| 0 <= i < points@.len() ==> window.lists(*tri, #[trigger] points@[i]),
        forall|i: int, j: int|
            0 <= i < j < points@.len() ==> raster_order(#[trigger] points@[i], #[trigger] points@[j]),
        forall|x: int, y: int| #[trigger]
            window.covers(*tri, x, y) ==> exists|i: int|
                0 <= i < points@.len() && (#[trigger] points@[i]).x == x && points@[i].y == y,
{
    let zoom: i64 = window.zoom as i64;
    let (u1, v1) = (tri.u1 as i64, tri.v1 as i64);
    let (u2, v2) = (tri.u2 as i64, tri.v2 as i64);
    let (u3, v3) = (tri.u3 as i64, tri.v3 as i64);
    let min_u: i64 = window.min_u as i64;
    let min_v: i64 = window.min_v as i64;
    let (first_x, last_u) = pixel_range(
        least3(u1, u2, u3) - min_u,
        greatest3(u1, u2, u3) - min_u,
        window.width,
        window.zoom,
    );
    let (first_y, last_v) = pixel_range(
        least3(v1, v2, v3) - min_v,
        greatest3(v1, v2, v3) - min_v,
        window.height,
        window.zoom,
    );
    let mut points: Vec<RasterPoint> = Vec::new();
    let mut y: i64 = first_y;
    proof {
        lemma_scaled(first_y as int, zoom as int);
        lemma_scaled(first_x as int, zoom as int);
        assert forall|px: int, py: int| #[trigger] window.covers(*tri, px, py) implies py >= first_y by {
            assert(first_y * window.zoom <= py * window.zoom);
            if py < first_y {
                lemma_before(py, first_y as int, zoom as int);
            }
        }
    }
    let mut v: i64 = first_y * zoom;
    while v <= last_v
        invariant
            window.valid(),
            zoom == window.zoom,
            u1 == tri.u1 && v1 == tri.v1 && u2 == tri.u2 && v2 == tri.v2 && u3 == tri.u3 && v3 == tri.v3,
            min_u == window.min_u && min_v == window.min_v,
            0 <= first_x <= 0x1_0000_0000,
            0 <= first_y <= y,
            first_x * zoom <= 0x100_0000_0000,
            v == y * zoom,
            0 <= v <= 0x100_0000_0000,
            last_u < window.width * window.zoom && last_u < i32::MAX,
            last_v < window.height * window.zoom && last_v < i32::MAX,
            forall|i: int|
                #![trigger i * window.zoom]
                0 <= i < window.width && aligned(tri.min_u() - window.min_u, zoom as int) <= i
                    * window.zoom <= aligned(tri.max_u() - window.min_u + zoom - 1, zoom as int)
                    <==> 0 <= i && first_x * window.zoom <= i * window.zoom <= last_u,
            forall|i: int|
                #![trigger i * window.zoom]
                0 <= i < window.height && aligned(tri.min_v() - window.min_v, zoom as int) <= i
                    * window.zoom <= aligned(tri.max_v() - window.min_v + zoom - 1, zoom as int)
                    <==> 0 <= i && first_y * window.zoom <= i * window.zoom <= last_v,
            forall|i: int| 0 <= i < points@.len() ==> window.lists(*tri, #[trigger] points@[i]),
            forall|i: int, j: int|
                0 <= i < j < points@.len() ==> raster_order(
                    #[trigger] points@[i],
                    #[trigger] points@[j],
                ),
            forall|i: int| 0 <= i < points@.len() ==> (#[trigger] points@[i]).y < y,
            forall|px: int, py: int| #[trigger]
                window.covers(*tri, px, py) && py < y ==> exists|i: int|
                    0 <= i < points@.len() && (#[trigger] points@[i]).x == px && points@[i].y == py,
        decreases last_v + zoom - v,
    {
        let mut x: i64 = first_x;
        let mut u: i64 = first_x * zoom;
        proof {
            lemma_scaled(first_x as int, zoom as int);
            lemma_scaled(y as int, zoom as int);
            assert forall|px: int, py: int| #[trigger] window.covers(*tri, px, py) implies px >= first_x by {
                assert(first_x * window.zoom <= px * window.zoom);
                if px < first_x {
                    lemma_before(px, first_x as int, zoom as int);
                }
            }
        }
        while u <= last_u
            invariant
                window.valid(),
                zoom == window.zoom,
                u1 == tri.u1 && v1 == tri.v1 && u2 == tri.u2 && v2 == tri.v2 && u3 == tri.u3 && v3
                    == tri.v3,
                min_u == window.min_u && min_v == window.min_v,
                0 <= first_x <= x,
                0 <= first_y <= y,
                v == y * zoom,
                u == x * zoom,
                0 <= y <= v <= last_v,
                0 <= u <= 0x100_0000_0000,
                last_u < window.width * window.zoom && last_u < i32::MAX,
                last_v < window.height * window.zoom && last_v < i32::MAX,
                forall|i: int|
                    #![trigger i * window.zoom]
                    0 <= i < window.width && aligned(tri.min_u() - window.min_u, zoom as int) <= i
                        * window.zoom <= aligned(tri.max_u() - window.min_u + zoom - 1, zoom as int)
                        <==> 0 <= i && first_x * window.zoom <= i * window.zoom <= last_u,
                forall|i: int|
                    #![trigger i * window.zoom]
                    0 <= i < window.height && aligned(tri.min_v() - window.min_v, zoom as int) <= i
                        * window.zoom <= aligned(tri.max_v() - window.min_v + zoom - 1, zoom as int)
                        <==> 0 <= i && first_y * window.zoom <= i * window.zoom <= last_v,
                forall|i: int| 0 <= i < points@.len() ==> window.lists(*tri, #[trigger] points@[i]),
                forall|i: int, j: int|
                    0 <= i < j < points@.len() ==> raster_order(
                        #[trigger] points@[i],
                        #[trigger] points@[j],
                    ),
                forall|i: int|
                    0 <= i < points@.len() ==> (#[trigger] points@[i]).y < y || (points@[i].y == y
                        && points@[i].x < x),
                forall|px: int, py: int| #[trigger]
                    window.covers(*tri, px, py) && (py < y || (py == y && px < x)) ==> exists|i: int|
                        0 <= i < points@.len() && (#[trigger] points@[i]).x == px && points@[i].y == py,
            decreases last_u + zoom - u,
        {
            let pu: i64 = min_u + u;
            let pv: i64 = min_v + v;
            let w0: i128 = orient_wide(u2, v2, u3, v3, pu, pv);
            let w1: i128 = orient_wide(u3, v3, u1, v1, pu, pv);
            let w2: i128 = orient_wide(u1, v1, u2, v2, pu, pv);
            let ghost before = points@;
            proof {
                lemma_scaled(x as int, zoom as int);
                lemma_scaled(y as int, zoom as int);
                lemma_step(first_x as int, x as int, zoom as int);
                lemma_step(first_y as int, y as int, zoom as int);
                assert(x as int * window.zoom == u);
                assert(y as int * window.zoom == v);
                assert(window.covers(*tri, x as int, y as int) <==> w0 >= 0 && w1 >= 0 && w2 >= 0);
            }
            if w0 >= 0 && w1 >= 0 && w2 >= 0 {
                points.push(RasterPoint { x: x as usize, y: y as usize, w0, w1, w2 });
            }
            proof {
                assert forall|px: int, py: int| #[trigger]
                    window.covers(*tri, px, py) && (py < y || (py == y && px < x + 1)) implies exists|
                    i: int,
                | 0 <= i < points@.len() && (#[trigger] points@[i]).x == px && points@[i].y == py by {
                    if py == y && px == x {
                        assert(points@[points@.len() - 1].x == px);
                    } else {
                        let i = choose|i: int|
                            0 <= i < before.len() && (#[trigger] before[i]).x == px && before[i].y == py;
                        assert(points@[i] == before[i]);
                    }
                }
            }
            assert((x + 1) * zoom == x * zoom + zoom) by (nonlinear_arith);
            x = x + 1;
            u = u + zoom;
        }
        proof {
            assert forall|px: int, py: int| #[trigger]
                window.covers(*tri, px, py) && py < y + 1 implies exists|i: int|
                0 <= i < points@.len() && (#[trigger] points@[i]).x == px && points@[i].y == py by {
                if py == y {
                    assert(px * window.zoom <= last_u);
                    lemma_ordered(px, x as int, zoom as int);
                }
            }
            assert((y + 1) * zoom == y * zoom + zoom) by (nonlinear_arith);
        }
        y = y + 1;
        v = v + zoom;
    }
    proof {
        assert forall|px: int, py: int| #[trigger] window.covers(*tri, px, py) implies exists|i: int|
            0 <= i < points@.len() && (#[trigger] points@[i]).x == px && points@[i].y == py by {
            assert(py * window.zoom <= last_v);
            lemma_ordered(py, y as int, zoom as int);
        }
    }
    points
}

proof fn lemma_scaled(i: int, zoom: int)
    requires
        0 <= i,
        1 <= zoom <= 255,
    ensures
        i <= i * zoom <= i * 255,
{
    assert(i <= i * zoom <= i * 255) by (nonlinear_arith)
        requires
            0 <= i,
            1 <= zoom <= 255,
    ;
}

proof fn lemma_step(a: int, b: int, zoom: int)
    requires
        a <= b,
        1 <= zoom,
    ensures
        a * zoom <= b * zoom,
{
    assert(a * zoom <= b * zoom) by (nonlinear_arith)
        requires
            a <= b,
            1 <= zoom,
    ;
}

proof fn lemma_before(a: int, b: int, zoom: int)
    requires
        a < b,
        1 <= zoom,
    ensures
        a * zoom < b * zoom,
{
    assert(a * zoom < b * zoom) by (nonlinear_arith)
        requires
            a < b,
            1 <= zoom,
    ;
}

proof fn lemma_ordered(a: int, b: int, zoom: int)
    requires
        a * zoom < b * zoom,
        1 <= zoom,
    ensures
        a < b,
{
    assert(a < b) by (nonlinear_arith)
        requires
            a * zoom < b * zoom,
            1 <= zoom,
    ;
}

impl Window {
    /// The window of a canvas around a point of the surface.
    pub fn around(u: i32, v: i32, width: usize, height: usize, zoom: u8) -> (r: Window)
        requires
            zoom >= 1,
            width * zoom <= i32::MAX,
            height * zoom <= i32::MAX,
            i32::MIN <= u - width as int / 2 * zoom,
            i32::MIN <= v - height as int / 2 * zoom,
        ensures
            r.valid(),
            r.min_u == u - width as int / 2 * zoom,
            r.min_v == v - height as int / 2 * zoom,
            r.width == width,
            r.height == height,
            r.zoom == zoom,
    {
        proof {
            lemma_half(width as int, zoom as int);
            lemma_half(height as int, zoom as int);
        }
        let left: i64 = (width / 2) as i64 * zoom as i64;
        let up: i64 = (height / 2) as i64 * zoom as i64;
        Window { min_u: (u as i64 - left) as i32, min_v: (v as i64 - up) as i32, width, height, zoom }
    }
}

proof fn lemma_half(n: int, zoom: int)
    requires
        zoom >= 1,
        n >= 0,
        n * zoom <= i32::MAX,
    ensures
        0 <= n <= i32::MAX,
        0 <= n / 2 * zoom <= i32::MAX,
{
    assert(n <= n * zoom && 0 <= n / 2 * zoom <= n * zoom) by (nonlinear_arith)
        requires
            zoom >= 1,
            n >= 0,
    ;
}

/// A pixel that a face covers.
#[derive(Clone, Copy, PartialEq, Eq, Structural)]
pub struct FacePoint {
    pub face: usize,
    pub point: RasterPoint,
}

/// One face after the other, and the points of each face in their order.
pub open spec fn face_order(a: FacePoint, b: FacePoint) -> bool {
    a.face < b.face || (a.face == b.face && raster_order(a.point, b.point))
}

/// Some point lists the pixel for the face.
pub open spec fn has_point(points: Seq<FacePoint>, face: int, x: int, y: int) -> bool {
    exists|i: int|
        0 <= i < points.len() && (#[trigger] points[i]).face == face && points[i].point.x == x
            && points[i].point.y == y
}

/// The pixels that the faces of a surface cover, in the order in which they are painted. Where
/// faces lie over each other the later one is seen.
pub fn raster_faces(window: &Window, faces: &[Triangle]) -> (points: Vec<FacePoint>)
    requires
        window.valid(),
    ensures
        forall|i: int|
            0 <= i < points@.len() ==> (#[trigger] points@[i]).face < faces@.len() && window.lists(
                faces@[points@[i].face as int],
                points@[i].point,
            ),
        forall|i: int, j: int|
            0 <= i < j < points@.len() ==> face_order(#[trigger] points@[i], #[trigger] points@[j]),
        forall|f: int, x: int, y: int|
            0 <= f < faces@.len() && #[trigger] window.covers(faces@[f], x, y) ==> has_point(points@, f, x, y),
{
    let mut points: Vec<FacePoint> = Vec::new();
    let mut f: usize = 0;
    while f < faces.len()
        invariant
            window.valid(),
            f <= faces@.len(),
            forall|i: int|
                0 <= i < points@.len() ==> (#[trigger] points@[i]).face < f && window.lists(
                    faces@[points@[i].face as int],
                    points@[i].point,
                ),
            forall|i: int, j: int|
                0 <= i < j < points@.len() ==> face_order(#[trigger] points@[i], #[trigger] points@[j]),
            forall|g: int, x: int, y: int|
                0 <= g < f && #[trigger] window.covers(faces@[g], x, y) ==> has_point(points@, g, x, y),
        decreases faces@.len() - f,
    {
        let row = raster_triangle(window, &faces[f]);
        let ghost before = points@;
        let mut k: usize = 0;
        while k < row.len()
            invariant
                f < faces@.len(),
                k <= row@.len(),
                forall|i: int| 0 <= i < row@.len() ==> window.lists(faces@[f as int], #[trigger] row@[i]),
                forall|i: int, j: int|
                    0 <= i < j < row@.len() ==> raster_order(#[trigger] row@[i], #[trigger] row@[j]),
                points@.len() == before.len() + k,
                forall|i: int| 0 <= i < before.len() ==> #[trigger] points@[i] == before[i],
                forall|i: int|
                    before.len() <= i < points@.len() ==> (#[trigger] points@[i]).face == f
                        && points@[i].point == row@[i - before.len()],
            decreases row@.len() - k,
        {
            points.push(FacePoint { face: f, point: row[k] });
            k += 1;
        }
        proof {
            assert forall|i: int| 0 <= i < points@.len() implies (#[trigger] points@[i]).face < f + 1
                && window.lists(faces@[points@[i].face as int], points@[i].point) by {
                if i < before.len() {
                    assert(points@[i] == before[i]);
                } else {
                    assert(window.lists(faces@[f as int], row@[i - before.len()]));
                }
            }
            assert forall|i: int, j: int| 0 <= i < j < points@.len() implies face_order(
                #[trigger] points@[i],
                #[trigger] points@[j],
            ) by {
                if j < before.len() {
                    assert(face_order(before[i], before[j]));
                } else if i < before.len() {
                    assert(before[i].face < f);
                } else {
                    assert(raster_order(row@[i - before.len()], row@[j - before.len()]));
                }
            }
            assert forall|g: int, x: int, y: int|
                0 <= g < f + 1 && #[trigger] window.covers(faces@[g], x, y) implies has_point(
                points@,
                g,
                x,
                y,
            ) by {
                if g < f {
                    let i = choose|i: int|
                        0 <= i < before.len() && (#[trigger] before[i]).face == g && before[i].point.x == x
                            && before[i].point.y == y;
                    assert(points@[i] == before[i]);
                } else {
                    let i = choose|i: int|
                        0 <= i < row@.len() && (#[trigger] row@[i]).x == x && row@[i].y == y;
                    assert(points@[before.len() + i].face == g);
                }
            }
        }
        f += 1;
    }
    points
}

/// A face that was hit, and the weights of its corners there.
#[derive(Clone, Copy, PartialEq, Eq, Structural)]
pub struct FaceHit {
    pub face: usize,
    pub w0: i128,
    pub w1: i128,
    pub w2: i128,
}

/// The first face in which a point of the surface lies.
pub fn first_hit(faces: &[Triangle], u: i32, v: i32) -> (r: Option<FaceHit>)
    ensures
        match r {
            Some(hit) => {
                &&& hit.face < faces@.len()
                &&& faces@[hit.face as int].inside(u as int, v as int)
                &&& (hit.w0 as int, hit.w1 as int, hit.w2 as int) == faces@[hit.face as int].weights(
                    u as int,
                    v as int,
                )
                &&& faces@[hit.face as int].min_u() <= u <= faces@[hit.face as int].max_u()
                &&& faces@[hit.face as int].min_v() <= v <= faces@[hit.face as int].max_v()
                &&& forall|i: int| 0 <= i < hit.face ==> !boxed_inside(#[trigger] faces@[i], u as int, v as int)
            },
            None => forall|i: int|
                0 <= i < faces@.len() ==> !boxed_inside(#[trigger] faces@[i], u as int, v as int),
        },
{
    let mut i: usize = 0;
    while i < faces.len()
        invariant
            i <= faces@.len(),
            forall|k: int| 0 <= k < i ==> !boxed_inside(#[trigger] faces@[k], u as int, v as int),
        decreases faces@.len() - i,
    {
        if let Some((w0, w1, w2)) = faces[i].hit(u, v) {
            return Some(FaceHit { face: i, w0, w1, w2 });
        }
        i += 1;
    }
    None
}

/// The point lies in the triangle and in its bounding box.
pub open spec fn boxed_inside(tri: Triangle, u: int, v: int) -> bool {
    &&& tri.min_u() <= u <= tri.max_u()
    &&& tri.min_v() <= v <= tri.max_v()
    &&& tri.inside(u, v)
}

/// The weights of the corners at a point are shares of the whole triangle, and the corners weighted
/// with them give the point back.
pub proof fn weights_give_the_point_back(tri: Triangle, u: int, v: int)
    ensures
        ({
            let w = tri.weights(u, v);
            &&& w.0 + w.1 + w.2 == tri.area()
            &&& w.0 * tri.u1 + w.1 * tri.u2 + w.2 * tri.u3 == tri.area() * u
            &&& w.0 * tri.v1 + w.1 * tri.v2 + w.2 * tri.v3 == tri.area() * v
        }),
{
    lemma_barycentric(
        tri.u1 as int,
        tri.v1 as int,
        tri.u2 as int,
        tri.v2 as int,
        tri.u3 as int,
        tri.v3 as int,
        u,
        v,
    );
}

/// Twice the area of a triangle with a right angle is the product of the sides at that angle, counted
/// positive if it turns from the first coordinate to the second. Moving a triangle does not change its area.
pub proof fn areas_are_those_of_triangles(u: int, v: int, a: int, b: int, u2: int, v2: int, u3: int, v3: int)
    ensures
        orient(u, v, u + a, v, u, v + b) == a * b,
        orient(u + a, v + b, u2 + a, v2 + b, u3 + a, v3 + b) == orient(u, v, u2, v2, u3, v3),
{
    assert((u + a - u) * (v + b - v) == a * b) by (nonlinear_arith);
    assert((v - v) * (u - u) == 0) by (nonlinear_arith);
}

/// The box around a triangle holds all corners, and each of its sides touches one.
pub proof fn boxes_fit_their_triangles(tri: Triangle)
    ensures
        tri.min_u() <= tri.u1 <= tri.max_u() && tri.min_v() <= tri.v1 <= tri.max_v(),
        tri.min_u() <= tri.u2 <= tri.max_u() && tri.min_v() <= tri.v2 <= tri.max_v(),
        tri.min_u() <= tri.u3 <= tri.max_u() && tri.min_v() <= tri.v3 <= tri.max_v(),
        tri.min_u() == tri.u1 || tri.min_u() == tri.u2 || tri.min_u() == tri.u3,
        tri.max_u() == tri.u1 || tri.max_u() == tri.u2 || tri.max_u() == tri.u3,
        tri.min_v() == tri.v1 || tri.min_v() == tri.v2 || tri.min_v() == tri.v3,
        tri.max_v() == tri.v1 || tri.max_v() == tri.v2 || tri.max_v() == tri.v3,
{
}

/// A window starts at its first pixel; the next pixel to the right stands for the point one pixel
/// further along the first coordinate, the next one below for that along the second.
pub proof fn window_pixels_are_evenly_spaced(window: Window, x: int, y: int)
    ensures
        window.at(0, 0) == (window.min_u as int, window.min_v as int),
        window.at(x + 1, y) == (window.at(x, y).0 + window.zoom, window.at(x, y).1),
        window.at(x, y + 1) == (window.at(x, y).0, window.at(x, y).1 + window.zoom),
{
    let zoom = window.zoom as int;
    assert((x + 1) * zoom == x * zoom + zoom) by (nonlinear_arith);
    assert((y + 1) * zoom == y * zoom + zoom) by (nonlinear_arith);
    assert(0 * zoom == 0) by (nonlinear_arith);
}

/// A covered pixel lies in the window, and no corner of the triangle has a negative weight there.
pub proof fn covered_pixels_lie_in_their_triangle(window: Window, tri: Triangle, x: int, y: int)
    requires
        window.covers(tri, x, y),
    ensures
        0 <= x < window.width,
        0 <= y < window.height,
        tri.weights(window.at(x, y).0, window.at(x, y).1).0 >= 0,
        tri.weights(window.at(x, y).0, window.at(x, y).1).1 >= 0,
        tri.weights(window.at(x, y).0, window.at(x, y).1).2 >= 0,
{
}

/// Pixels come row by row from the top and in a row from the left, and all those of a face before
/// those of the faces behind it.
pub proof fn pixels_come_row_by_row(a: FacePoint, b: FacePoint)
    ensures
        a.point.y < b.point.y ==> raster_order(a.point, b.point) && !raster_order(b.point, a.point),
        a.point.y == b.point.y ==> (raster_order(a.point, b.point) <==> a.point.x < b.point.x),
        a.face < b.face ==> face_order(a, b) && !face_order(b, a),
        a.face == b.face ==> (face_order(a, b) <==> raster_order(a.point, b.point)),
{
}

/// Every point that lies in a triangle that is not turned round and not flat is hit.
pub proof fn inner_points_are_hit(tri: Triangle, u: int, v: int)
    requires
        tri.area() > 0,
    ensures
        boxed_inside(tri, u, v) <==> tri.weights(u, v).0 >= 0 && tri.weights(u, v).1 >= 0
            && tri.weights(u, v).2 >= 0,
{
    let w = tri.weights(u, v);
    if w.0 >= 0 && w.1 >= 0 && w.2 >= 0 {
        weights_give_the_point_back(tri, u, v);
        lemma_mean(w.0, w.1, w.2, tri.u1 as int, tri.u2 as int, tri.u3 as int, tri.area(), u);
        lemma_mean(w.0, w.1, w.2, tri.v1 as int, tri.v2 as int, tri.v3 as int, tri.area(), v);
    }
}

} // verus!
