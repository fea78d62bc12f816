//! Lines and points of the outlines that surfaces leave on a plane.

use crate::volume::image::{Color32, Image};
use vstd::arithmetic::div_mod::{
    lemma_fundamental_div_mod, lemma_fundamental_div_mod_converse, lemma_mod_bound,
};
use vstd::prelude::*;

verus! {

pub open spec fn distance(a: int, b: int) -> int {
    if a < b {
        b - a
    } else {
        a - b
    }
}

/// The step from `a` towards `b`.
pub open spec fn towards(a: int, b: int) -> int {
    if a < b {
        1
    } else {
        -1
    }
}

/// The quotient rounded to the nearest integer, halves up.
pub open spec fn rounded(n: int, d: int) -> int {
    (2 * n + d) / (2 * d)
}

/// The point `k` of a line that goes `a` to the right and `b` down: along the longer side point by
/// point, along the other as near to the ideal line as points go.
pub open spec fn line_point(a: int, b: int, k: int) -> (int, int) {
    if a >= b {
        (k, rounded(k * b, a))
    } else {
        (rounded(k * a, b), k)
    }
}

/// How many points a line has. Its end is not one of them.
pub open spec fn line_length(a: int, b: int) -> int {
    if a >= b {
        a
    } else {
        b
    }
}

/// (`x`, `y`) is point `k` of the line from (`x0`, `y0`) to (`x1`, `y1`).
pub open spec fn is_point(x0: int, y0: int, x1: int, y1: int, k: int, x: int, y: int) -> bool {
    let p = line_point(distance(x0, x1), distance(y0, y1), k);
    x == x0 + towards(x0, x1) * p.0 && y == y0 + towards(y0, y1) * p.1
}

/// (`x`, `y`) is one of the first `n` points of the line.
pub open spec fn among_first(x0: int, y0: int, x1: int, y1: int, n: int, x: int, y: int) -> bool {
    exists|k: int| 0 <= k < n && #[trigger] is_point(x0, y0, x1, y1, k, x, y)
}

/// (`x`, `y`) belongs to the line.
pub open spec fn on_line(x0: int, y0: int, x1: int, y1: int, x: int, y: int) -> bool {
    among_first(x0, y0, x1, y1, line_length(distance(x0, x1), distance(y0, y1)), x, y)
}

/// The nearest integer is not more than half away, and above if both neighbours are.
proof fn lemma_rounded(n: int, d: int, m: int)
    requires
        d > 0,
    ensures
        m == rounded(n, d) <==> -d < 2 * (m * d - n) <= d,
{
    let num = 2 * n + d;
    let den = 2 * d;
    lemma_fundamental_div_mod(num, den);
    lemma_mod_bound(num, den);
    let q = rounded(n, d);
    assert(den * q == 2 * (q * d)) by (nonlinear_arith)
        requires
            den == 2 * d,
    ;
    if -d < 2 * (m * d - n) <= d {
        let r = num - m * den;
        assert(m * den == 2 * (m * d)) by (nonlinear_arith)
            requires
                den == 2 * d,
        ;
        lemma_fundamental_div_mod_converse(num, den, m, r);
    }
}

/// Every point of a line is at most half a pixel away from the ideal line.
pub proof fn line_points_are_nearest(a: int, b: int, k: int)
    requires
        0 <= a,
        0 <= b,
        0 <= k < line_length(a, b),
    ensures
        ({
            let p = line_point(a, b, k);
            let deviation = p.1 * a - p.0 * b;
            &&& -line_length(a, b) <= 2 * deviation <= line_length(a, b)
            &&& 0 <= p.0 <= a
            &&& 0 <= p.1 <= b
        }),
{
    if a >= b {
        let m = rounded(k * b, a);
        lemma_rounded(k * b, a, m);
        lemma_rounded_in_range(k, b, a, m);
    } else {
        let m = rounded(k * a, b);
        lemma_rounded(k * a, b, m);
        lemma_rounded_in_range(k, a, b, m);
    }
}

proof fn lemma_rounded_in_range(k: int, n: int, d: int, m: int)
    requires
        d > 0,
        0 <= k < d,
        0 <= n <= d,
        m == rounded(k * n, d),
    ensures
        0 <= m <= n,
{
    assert(0 <= k * n) by (nonlinear_arith)
        requires
            0 <= k,
            0 <= n,
    ;
    lemma_rounded(k * n, d, m);
    assert(0 <= m) by (nonlinear_arith)
        requires
            -d < 2 * (m * d - k * n),
            0 <= k * n,
            2 * (m * d - k * n) <= d,
            d > 0,
            -d < 2 * (m * d),
    ;
    assert(k * n <= d * n) by (nonlinear_arith)
        requires
            k <= d,
            0 <= n,
    ;
    assert(m <= n) by (nonlinear_arith)
        requires
            2 * (m * d - k * n) <= d,
            k * n <= d * n,
            d > 0,
    ;
}

/// A line starts at its first point and goes from each point to a neighbouring one, and from the
/// last one to its end.
pub proof fn lines_have_no_gaps(a: int, b: int, k: int)
    requires
        0 <= a,
        0 <= b,
        0 <= k < line_length(a, b),
    ensures
        line_point(a, b, 0) == (0int, 0int),
        ({
            let p = line_point(a, b, k);
            let q = if k + 1 < line_length(a, b) { line_point(a, b, k + 1) } else { (a, b) };
            0 <= q.0 - p.0 <= 1 && 0 <= q.1 - p.1 <= 1
        }),
{
    let d = line_length(a, b);
    let n = if a >= b { b } else { a };
    let m = rounded(k * n, d);
    let m2 = rounded((k + 1) * n, d);
    lemma_rounded(0 * n, d, 0);
    assert(0 * n == 0) by (nonlinear_arith);
    lemma_rounded(k * n, d, m);
    lemma_rounded((k + 1) * n, d, m2);
    assert((k + 1) * n == k * n + n) by (nonlinear_arith);
    assert(0 <= m2 - m <= 1) by (nonlinear_arith)
        requires
            -d < 2 * (m * d - k * n) <= d,
            -d < 2 * (m2 * d - (k * n + n)) <= d,
            0 <= n <= d,
            d > 0,
    ;
    if k + 1 == d {
        lemma_rounded(d * n, d, n);
        assert(n * d - d * n == 0) by (nonlinear_arith);
        assert(m2 == n);
    }
}

/// What the error term of the algorithm is after `i` steps to the right and `j` steps down, where
/// the line goes `a` to the right and `b` down.
spec fn error_at(a: int, b: int, i: int, j: int) -> int {
    (j + 1) * a - (i + 1) * b
}

/// One step of the algorithm leads from a point to the next one.
proof fn lemma_next_point(a: int, b: int, k: int)
    requires
        0 <= a,
        0 <= b,
        0 <= k < line_length(a, b),
    ensures
        ({
            let p = line_point(a, b, k);
            let e2 = 2 * error_at(a, b, p.0, p.1);
            let q = (if e2 >= -b { p.0 + 1 } else { p.0 }, if e2 <= a { p.1 + 1 } else { p.1 });
            &&& q == (if k + 1 < line_length(a, b) { line_point(a, b, k + 1) } else { (a, b) })
            &&& -3 * (a + b) <= e2 <= 3 * (a + b)
        }),
{
    if a >= b {
        let m = rounded(k * b, a);
        lemma_next_minor(k, b, a, m);
        assert(error_at(a, b, k, m) == (m * a - k * b) + a - b) by (nonlinear_arith)
            requires
                error_at(a, b, k, m) == (m + 1) * a - (k + 1) * b,
        ;
    } else {
        let m = rounded(k * a, b);
        lemma_next_minor(k, a, b, m);
        assert(error_at(a, b, m, k) == a - b - (m * b - k * a)) by (nonlinear_arith)
            requires
                error_at(a, b, m, k) == (k + 1) * a - (m + 1) * b,
        ;
    }
}

/// The shorter side takes a step exactly if the deviation allows it.
proof fn lemma_next_minor(k: int, n: int, d: int, m: int)
    requires
        d > 0,
        0 <= k < d,
        0 <= n <= d,
        m == rounded(k * n, d),
    ensures
        -d < 2 * (m * d - k * n) <= d,
        2 * (m * d - k * n) <= 2 * n - d ==> rounded((k + 1) * n, d) == m + 1,
        2 * (m * d - k * n) > 2 * n - d ==> rounded((k + 1) * n, d) == m,
        k + 1 == d ==> rounded((k + 1) * n, d) == n,
{
    lemma_rounded(k * n, d, m);
    assert((k + 1) * n == k * n + n) by (nonlinear_arith);
    assert((m + 1) * d == m * d + d) by (nonlinear_arith);
    lemma_rounded((k + 1) * n, d, m);
    lemma_rounded((k + 1) * n, d, m + 1);
    if k + 1 == d {
        assert(n * d - (k + 1) * n == 0) by (nonlinear_arith)
            requires
                k + 1 == d,
        ;
        lemma_rounded((k + 1) * n, d, n);
    }
}

/// Draws a line, without its end, as far as it lies in the first `width` columns and `height` rows.
pub fn line(
    x0: i32,
    y0: i32,
    x1: i32,
    y1: i32,
    buffer: &mut Image,
    width: usize,
    height: usize,
    r: u8,
    g: u8,
    b: u8,
)
    requires
        old(buffer).valid(),
        width <= old(buffer).width,
        height <= old(buffer).height,
    ensures
        old(buffer).same_size(*final(buffer)),
        forall|x: int, y: int|
            old(buffer).inside(x, y) ==> #[trigger] final(buffer).pixel(x, y) == (if x < width && y
                < height && on_line(x0 as int, y0 as int, x1 as int, y1 as int, x, y) {
                Color32::rgb(r, g, b)
            } else {
                old(buffer).pixel(x, y)
            }),
{
    let ghost before = *buffer;
    let ghost da = distance(x0 as int, x1 as int);
    let ghost db = distance(y0 as int, y1 as int);
    let dx: i64 = if x0 < x1 {
        x1 as i64 - x0 as i64
    } else {
        x0 as i64 - x1 as i64
    };
    let sx: i64 = if x0 < x1 {
        1
    } else {
        -1
    };
    let dy: i64 = if y0 < y1 {
        y0 as i64 - y1 as i64
    } else {
        y1 as i64 - y0 as i64
    };
    let sy: i64 = if y0 < y1 {
        1
    } else {
        -1
    };
    let mut error: i64 = dx + dy;
    let mut x: i64 = x0 as i64;
    let mut y: i64 = y0 as i64;
    let ghost mut k: int = 0;
    let ghost mut p: (int, int) = (0, 0);
    proof {
        if line_length(da, db) > 0 {
            lines_have_no_gaps(da, db, 0);
        }
    }
    while x != x1 as i64 || y != y1 as i64
        invariant
            before.same_size(*buffer),
            width <= before.width,
            height <= before.height,
            da == distance(x0 as int, x1 as int),
            db == distance(y0 as int, y1 as int),
            dx == da && dy == -db,
            sx == towards(x0 as int, x1 as int),
            sy == towards(y0 as int, y1 as int),
            0 <= k <= line_length(da, db),
            p == (if k < line_length(da, db) {
                line_point(da, db, k)
            } else {
                (da, db)
            }),
            0 <= p.0 <= da && 0 <= p.1 <= db,
            x == x0 + sx * p.0,
            y == y0 + sy * p.1,
            error == error_at(da, db, p.0, p.1),
            forall|i: int, j: int|
                before.inside(i, j) ==> #[trigger] buffer.pixel(i, j) == (if i < width && j < height
                    && among_first(x0 as int, y0 as int, x1 as int, y1 as int, k, i, j) {
                    Color32::rgb(r, g, b)
                } else {
                    before.pixel(i, j)
                }),
        decreases line_length(da, db) - k,
    {
        proof {
            assert(k < line_length(da, db)) by {
                assert(x0 + sx * da == x1) by (nonlinear_arith)
                    requires
                        sx == towards(x0 as int, x1 as int),
                        da == distance(x0 as int, x1 as int),
                ;
                assert(y0 + sy * db == y1) by (nonlinear_arith)
                    requires
                        sy == towards(y0 as int, y1 as int),
                        db == distance(y0 as int, y1 as int),
                ;
            }
            lemma_next_point(da, db, k);
        }
        let ghost current = *buffer;
        if x >= 0 && (x as u64) < width as u64 && y >= 0 && (y as u64) < height as u64 {
            buffer.set_rgb(x as usize, y as usize, r, g, b);
        }
        proof {
            assert(is_point(x0 as int, y0 as int, x1 as int, y1 as int, k, x as int, y as int));
            assert forall|i: int, j: int| before.inside(i, j) implies #[trigger] buffer.pixel(i, j)
                == (if i < width && j < height && among_first(
                x0 as int,
                y0 as int,
                x1 as int,
                y1 as int,
                k + 1,
                i,
                j,
            ) {
                Color32::rgb(r, g, b)
            } else {
                before.pixel(i, j)
            }) by {
                let was = among_first(x0 as int, y0 as int, x1 as int, y1 as int, k, i, j);
                let is = among_first(x0 as int, y0 as int, x1 as int, y1 as int, k + 1, i, j);
                assert(current.pixel(i, j) == (if i < width && j < height && was {
                    Color32::rgb(r, g, b)
                } else {
                    before.pixel(i, j)
                }));
                assert(is <==> was || (i == x && j == y));
            }
        }
        let ghost old_p = p;
        let e2: i64 = 2 * error;
        if e2 >= dy {
            error = error + dy;
            x = x + sx;
            proof {
                p = (p.0 + 1, p.1);
            }
        }
        if e2 <= dx {
            error = error + dx;
            y = y + sy;
            proof {
                p = (p.0, p.1 + 1);
            }
        }
        proof {
            assert(sx * (old_p.0 + 1) == sx * old_p.0 + sx) by (nonlinear_arith);
            assert(sy * (old_p.1 + 1) == sy * old_p.1 + sy) by (nonlinear_arith);
            assert((old_p.0 + 2) * db == (old_p.0 + 1) * db + db) by (nonlinear_arith);
            assert((old_p.1 + 2) * da == (old_p.1 + 1) * da + da) by (nonlinear_arith);
            k = k + 1;
            if k < line_length(da, db) {
                line_points_are_nearest(da, db, k);
            }
        }
    }
    proof {
        lemma_signed(sx as int, p.0);
        lemma_signed(sy as int, p.1);
        assert(k == line_length(da, db));
    }
}

proof fn lemma_signed(s: int, n: int)
    ensures
        s == 1 ==> s * n == n,
        s == -1 ==> s * n == -n,
{
    assert(1 * n == n && -1 * n == -n) by (nonlinear_arith);
}

/// Draws a square of `width` pixels around a point, as far as it lies in the picture.
pub fn point(x0: i32, y0: i32, buffer: &mut Image, width: u32, r: u8, g: u8, b: u8)
    requires
        old(buffer).valid(),
    ensures
        old(buffer).same_size(*final(buffer)),
        forall|x: int, y: int|
            old(buffer).inside(x, y) ==> #[trigger] final(buffer).pixel(x, y) == (if x0 - width / 2
                <= x < x0 + width / 2 && y0 - width / 2 <= y < y0 + width / 2 {
                Color32::rgb(r, g, b)
            } else {
                old(buffer).pixel(x, y)
            }),
{
    let ghost before = *buffer;
    let half: i64 = width as i64 / 2;
    let end_x: i64 = x0 as i64 + half;
    let end_y: i64 = y0 as i64 + half;
    let ghost h = width as int / 2;
    let mut x: i64 = x0 as i64 - half;
    while x < end_x
        invariant
            before.same_size(*buffer),
            half == h,
            h <= u32::MAX,
            end_x == x0 + h && end_y == y0 + h,
            x0 - h <= x <= end_x,
            forall|i: int, j: int|
                before.inside(i, j) ==> #[trigger] buffer.pixel(i, j) == (if x0 - h <= i < x && y0 - h
                    <= j < y0 + h {
                    Color32::rgb(r, g, b)
                } else {
                    before.pixel(i, j)
                }),
        decreases end_x - x,
    {
        let mut y: i64 = y0 as i64 - half;
        while y < end_y
            invariant
                before.same_size(*buffer),
                half == h,
                h <= u32::MAX,
                end_x == x0 + h && end_y == y0 + h,
                x0 - h <= x < end_x,
                y0 - h <= y <= end_y,
                forall|i: int, j: int|
                    before.inside(i, j) ==> #[trigger] buffer.pixel(i, j) == (if (x0 - h <= i < x && y0
                        - h <= j < y0 + h) || (i == x && y0 - h <= j < y) {
                        Color32::rgb(r, g, b)
                    } else {
                        before.pixel(i, j)
                    }),
            decreases end_y - y,
        {
            if x >= 0 && (x as u64) < buffer.width as u64 && y >= 0 && (y as u64)
                < buffer.height as u64 {
                buffer.set_rgb(x as usize, y as usize, r, g, b);
            }
            y += 1;
        }
        x += 1;
    }
}

/// A line starts at its first end, never leaves the box of its two ends, and no point of it is
/// further than half a pixel from the ideal line.
pub proof fn lines_run_between_their_ends(x0: int, y0: int, x1: int, y1: int, x: int, y: int)
    ensures
        x0 != x1 || y0 != y1 ==> on_line(x0, y0, x1, y1, x0, y0),
        !on_line(x0, y0, x1, y1, x1, y1),
        on_line(x0, y0, x1, y1, x, y) ==> {
            let cross = (y - y0) * (x1 - x0) - (x - x0) * (y1 - y0);
            &&& x0 <= x <= x1 || x1 <= x <= x0
            &&& y0 <= y <= y1 || y1 <= y <= y0
            &&& 2 * cross <= x1 - x0 || 2 * cross <= x0 - x1 || 2 * cross <= y1 - y0 || 2 * cross <= y0
                - y1
            &&& -2 * cross <= x1 - x0 || -2 * cross <= x0 - x1 || -2 * cross <= y1 - y0 || -2 * cross
                <= y0 - y1
        },
{
    let (a, b) = (distance(x0, x1), distance(y0, y1));
    let n = line_length(a, b);
    let (s, t) = (towards(x0, x1), towards(y0, y1));
    if n > 0 {
        lines_have_no_gaps(a, b, 0);
        assert(s * 0 == 0 && t * 0 == 0) by (nonlinear_arith);
        assert(is_point(x0, y0, x1, y1, 0, x0, y0));
    }
    if on_line(x0, y0, x1, y1, x1, y1) {
        let k = choose|k: int| 0 <= k < n && #[trigger] is_point(x0, y0, x1, y1, k, x1, y1);
        let p = line_point(a, b, k);
        line_points_are_nearest(a, b, k);
        lemma_signed(s, p.0);
        lemma_signed(t, p.1);
        assert(p.0 == a && p.1 == b);
    }
    if on_line(x0, y0, x1, y1, x, y) {
        let k = choose|k: int| 0 <= k < n && #[trigger] is_point(x0, y0, x1, y1, k, x, y);
        let p = line_point(a, b, k);
        line_points_are_nearest(a, b, k);
        lemma_signed(s, p.0);
        lemma_signed(t, p.1);
        let (dx, dy) = (x1 - x0, y1 - y0);
        lemma_signed(s, a);
        lemma_signed(t, b);
        assert(dx == s * a && dy == t * b);
        let cross = (y - y0) * dx - (x - x0) * dy;
        let deviation = p.1 * a - p.0 * b;
        assert((t * p.1) * (s * a) == (s * t) * (p.1 * a)) by (nonlinear_arith);
        assert((s * p.0) * (t * b) == (s * t) * (p.0 * b)) by (nonlinear_arith);
        assert((s * t) * (p.1 * a) - (s * t) * (p.0 * b) == (s * t) * deviation) by (nonlinear_arith)
            requires
                deviation == p.1 * a - p.0 * b,
        ;
        assert(cross == (s * t) * deviation);
        lemma_signed(s, t);
        lemma_signed(s * t, deviation);
    }
}

/// Along its longer side a line has a point in each column, or in each row, up to its end.
pub proof fn lines_have_one_point_a_step(x0: int, y0: int, x1: int, y1: int, k: int)
    requires
        0 <= k,
    ensures
        y0 - y1 <= x1 - x0 && y1 - y0 <= x1 - x0 && k < x1 - x0 ==> exists|y: int| #[trigger]
            on_line(x0, y0, x1, y1, x0 + k, y),
        y0 - y1 <= x0 - x1 && y1 - y0 <= x0 - x1 && k < x0 - x1 ==> exists|y: int| #[trigger]
            on_line(x0, y0, x1, y1, x0 - k, y),
        x0 - x1 < y1 - y0 && x1 - x0 < y1 - y0 && k < y1 - y0 ==> exists|x: int| #[trigger]
            on_line(x0, y0, x1, y1, x, y0 + k),
        x0 - x1 < y0 - y1 && x1 - x0 < y0 - y1 && k < y0 - y1 ==> exists|x: int| #[trigger]
            on_line(x0, y0, x1, y1, x, y0 - k),
{
    let (a, b) = (distance(x0, x1), distance(y0, y1));
    let (s, t) = (towards(x0, x1), towards(y0, y1));
    let p = line_point(a, b, k);
    lemma_signed(s, p.0);
    lemma_signed(t, p.1);
    let (x, y) = (x0 + s * p.0, y0 + t * p.1);
    assert(is_point(x0, y0, x1, y1, k, x, y));
    if k < line_length(a, b) {
        assert(on_line(x0, y0, x1, y1, x, y));
        if a >= b {
            assert(x == (if s == 1 { x0 + k } else { x0 - k }));
            assert(s == 1 ==> on_line(x0, y0, x1, y1, x0 + k, y));
            assert(s == -1 ==> on_line(x0, y0, x1, y1, x0 - k, y));
        } else {
            assert(y == (if t == 1 { y0 + k } else { y0 - k }));
            assert(t == 1 ==> on_line(x0, y0, x1, y1, x, y0 + k));
            assert(t == -1 ==> on_line(x0, y0, x1, y1, x, y0 - k));
        }
    }
}

/// Where a line passes in the middle between two pixels, the one further on is taken.
pub proof fn halves_go_further_on(a: int, b: int, k: int)
    requires
        0 <= a,
        0 <= b,
        0 <= k < line_length(a, b),
    ensures
        ({
            let p = line_point(a, b, k);
            let deviation = p.1 * a - p.0 * b;
            &&& a >= b ==> p.0 == k && -a < 2 * deviation <= a
            &&& a < b ==> p.1 == k && -b <= 2 * deviation < b
        }),
        a >= b ==> line_length(a, b) == a,
        a <= b ==> line_length(a, b) == b,
{
    if a >= b {
        lemma_rounded(k * b, a, rounded(k * b, a));
    } else {
        lemma_rounded(k * a, b, rounded(k * a, b));
    }
}

} // verus!
