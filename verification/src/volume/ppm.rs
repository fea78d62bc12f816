//! PPM files, which give a point and a normal of a surface for each pixel of its flattened image.

use crate::text::{chars_of, find_chars, find_from, occurs_at, parse_chars, parsed, sub_chars, trim_chars, trimmed};
use crate::text::{first_places_are_found, nothing_is_found_elsewhere};
use vstd::prelude::*;

verus! {

/// What a line of the header says: the parts before and behind the first `": "`, up to a second
/// one. `None` if it has no such separator.
pub open spec fn line_entry(line: Seq<char>) -> Option<(Seq<char>, Seq<char>)> {
    match find_from(line, ": "@, 0) {
        None => None,
        Some(i) => {
            let end = match find_from(line, ": "@, i + 2) {
                Some(end) => end,
                None => line.len() as int,
            };
            Some((trimmed(line.subrange(0, i)), trimmed(line.subrange(i + 2, end))))
        },
    }
}

fn read_line(line: &str) -> (r: Option<(Vec<char>, Vec<char>)>)
    ensures
        match r {
            Some((key, value)) => line_entry(line@) == Some((key@, value@)),
            None => line_entry(line@) is None,
        },
{
    let chars = chars_of(line);
    let sep = chars_of(": ");
    match find_chars(&chars, &sep, 0) {
        None => None,
        Some(i) => {
            proof {
                reveal_strlit(": ");
                assert(i + 2 <= chars.len());
            }
            let end: usize = match find_chars(&chars, &sep, i + 2) {
                Some(end) => end,
                None => chars.len(),
            };
            let key_part = sub_chars(&chars, 0, i);
            let value_part = sub_chars(&chars, i + 2, end);
            Some((trim_chars(&key_part), trim_chars(&value_part)))
        },
    }
}

/// The value of `key` in a header: what the last line says that has that key.
pub open spec fn header_value(lines: Seq<String>, key: Seq<char>) -> Option<Seq<char>>
    decreases lines.len(),
{
    if lines.len() == 0 {
        None
    } else {
        match line_entry(lines.last()@) {
            Some((k, v)) => if k == key {
                Some(v)
            } else {
                header_value(lines.drop_last(), key)
            },
            None => header_value(lines.drop_last(), key),
        }
    }
}

/// The number that a header gives for `key`.
pub open spec fn header_number(lines: Seq<String>, key: Seq<char>) -> Option<nat> {
    match header_value(lines, key) {
        Some(v) => parsed(v, usize::MAX as nat),
        None => None,
    }
}

/// Every line has a key and a value.
pub open spec fn well_formed(lines: Seq<String>) -> bool {
    forall|i: int| 0 <= i < lines.len() ==> line_entry((#[trigger] lines[i])@) is Some
}

fn same_chars(a: &Vec<char>, b: &Vec<char>) -> (r: bool)
    ensures
        r == (a@ == b@),
{
    if a.len() != b.len() {
        return false;
    }
    let mut i: usize = 0;
    while i < a.len()
        invariant
            i <= a@.len() == b@.len(),
            forall|j: int| 0 <= j < i ==> #[trigger] a@[j] == b@[j],
        decreases a@.len() - i,
    {
        if a[i] != b[i] {
            return false;
        }
        i += 1;
    }
    assert(a@ =~= b@);
    true
}

fn read_number(value: &Option<Vec<char>>) -> (r: Option<usize>)
    ensures
        match *value {
            Some(v) => match r {
                Some(n) => parsed(v@, usize::MAX as nat) == Some(n as nat),
                None => parsed(v@, usize::MAX as nat) is None,
            },
            None => r is None,
        },
{
    match value {
        Some(v) => match parse_chars(v, usize::MAX as u64) {
            Some(n) => Some(n as usize),
            None => None,
        },
        None => None,
    }
}

/// The width and the height that the lines of a header give, which stand before the line `<>`.
pub fn parse_header(lines: &Vec<String>) -> (r: Option<(usize, usize)>)
    ensures
        match r {
            Some((width, height)) => {
                &&& well_formed(lines@)
                &&& header_number(lines@, "width"@) == Some(width as nat)
                &&& header_number(lines@, "height"@) == Some(height as nat)
            },
            None => {
                ||| !well_formed(lines@)
                ||| header_number(lines@, "width"@) is None
                ||| header_number(lines@, "height"@) is None
            },
        },
{
    let width_key = chars_of("width");
    let height_key = chars_of("height");
    let mut width: Option<Vec<char>> = None;
    let mut height: Option<Vec<char>> = None;
    let mut i: usize = 0;
    while i < lines.len()
        invariant
            i <= lines@.len(),
            width_key@ == "width"@,
            height_key@ == "height"@,
            forall|j: int| 0 <= j < i ==> line_entry((#[trigger] lines@[j])@) is Some,
            match width {
                Some(v) => header_value(lines@.take(i as int), "width"@) == Some(v@),
                None => header_value(lines@.take(i as int), "width"@) is None,
            },
            match height {
                Some(v) => header_value(lines@.take(i as int), "height"@) == Some(v@),
                None => header_value(lines@.take(i as int), "height"@) is None,
            },
        decreases lines@.len() - i,
    {
        proof {
            assert(lines@.take(i + 1).drop_last() =~= lines@.take(i as int));
            assert(lines@.take(i + 1).last() == lines@[i as int]);
            reveal_strlit("width");
            reveal_strlit("height");
            assert("width"@.len() != "height"@.len());
        }
        match read_line(lines[i].as_str()) {
            Some((key, value)) => {
                if same_chars(&key, &width_key) {
                    width = Some(value);
                } else if same_chars(&key, &height_key) {
                    height = Some(value);
                }
            },
            None => {
                return None;
            },
        }
        i += 1;
    }
    assert(lines@.take(i as int) =~= lines@);
    match (read_number(&width), read_number(&height)) {
        (Some(w), Some(h)) => Some((w, h)),
        _ => None,
    }
}

/// Where the six numbers of a pixel start.
pub open spec fn pixel_offset(width: int, u: int, v: int) -> int {
    (v * width + u) * 6
}

/// Where the six numbers of a pixel start, if `count` numbers reach that far.
pub fn numbers_of_pixel(width: usize, u: usize, v: usize, count: usize) -> (r: Option<usize>)
    ensures
        r is Some <==> pixel_offset(width as int, u as int, v as int) + 6 <= count,
        r matches Some(i) ==> i == pixel_offset(width as int, u as int, v as int),
{
    proof {
        let (a, b) = (v as int, width as int);
        assert(0 <= a * b <= 0xffff_ffff_ffff_ffff * 0xffff_ffff_ffff_ffff) by (nonlinear_arith)
            requires
                0 <= a <= 0xffff_ffff_ffff_ffff,
                0 <= b <= 0xffff_ffff_ffff_ffff,
        ;
    }
    let row: u128 = v as u128 * width as u128;
    if row >= count as u128 {
        return None;
    }
    let off: u128 = (row + u as u128) * 6;
    if off + 6 <= count as u128 {
        Some(off as usize)
    } else {
        None
    }
}

/// The point lies inside of the flattened image and close to the surface.
pub open spec fn near_surface(uvw: Seq<int>, width: int, height: int) -> bool {
    &&& 0 < uvw[0] < width
    &&& 0 < uvw[1] < height
    &&& -45 <= uvw[2] <= 45
}

/// The point of the full resolution that is read, if it lies close to the surface.
pub fn surface_point(xyz: [i32; 3], downsampling: i32, width: usize, height: usize) -> (r: Option<
    [i64; 3],
>)
    ensures
        ({
            let uvw = seq![
                xyz@[0] * downsampling,
                xyz@[1] * downsampling,
                xyz@[2] * downsampling,
            ];
            &&& r is Some <==> near_surface(uvw, width as int, height as int)
            &&& r matches Some(p) ==> p@.map_values(|c: i64| c as int) == uvw
        }),
{
    let u: i64 = crate::volume::grid500::wide_product(xyz[0], downsampling);
    let v: i64 = crate::volume::grid500::wide_product(xyz[1], downsampling);
    let w: i64 = crate::volume::grid500::wide_product(xyz[2], downsampling);
    if u <= 0 || u as u64 >= width as u64 || v <= 0 || v as u64 >= height as u64 || w < -45 || w > 45 {
        None
    } else {
        let p: [i64; 3] = [u, v, w];
        assert(p@.map_values(|c: i64| c as int) =~= seq![
            xyz@[0] * downsampling,
            xyz@[1] * downsampling,
            xyz@[2] * downsampling,
        ]);
        Some(p)
    }
}

/// A line is parted at its first colon with a blank behind it. What stands behind a second one does
/// not count, and a line without one says nothing.
pub proof fn lines_are_parted_at_the_colon(key: Seq<char>, value: Seq<char>, rest: Seq<char>)
    requires
        forall|i: int| 0 <= i < key.len() - 1 ==> !(#[trigger] key[i] == ':' && key[i + 1] == ' '),
        forall|i: int| 0 <= i < value.len() - 1 ==> !(#[trigger] value[i] == ':' && value[i + 1] == ' '),
        key.len() > 0 ==> key.last() != ':',
        value.len() > 0 ==> value.last() != ':',
    ensures
        line_entry(key + seq![':', ' '] + value) == Some((trimmed(key), trimmed(value))),
        line_entry(key + seq![':', ' '] + value + seq![':', ' '] + rest) == Some(
            (trimmed(key), trimmed(value)),
        ),
        line_entry(key) is None,
{
    lemma_one_colon(key, value);
    lemma_two_colons(key, value, rest);
    reveal_strlit(": ");
    let sep = ": "@;
    assert forall|i: int| 0 <= i implies !#[trigger] occurs_at(key, sep, i) by {
        if i <= key.len() - 2 {
            let part = key.subrange(i, i + 2);
            assert(part[0] == key[i] && part[1] == key[i + 1]);
        }
    }
    nothing_is_found_elsewhere(key, sep, 0);
}

proof fn lemma_one_colon(key: Seq<char>, value: Seq<char>)
    requires
        forall|i: int| 0 <= i < key.len() - 1 ==> !(#[trigger] key[i] == ':' && key[i + 1] == ' '),
        forall|i: int| 0 <= i < value.len() - 1 ==> !(#[trigger] value[i] == ':' && value[i + 1] == ' '),
        key.len() > 0 ==> key.last() != ':',
    ensures
        line_entry(key + seq![':', ' '] + value) == Some((trimmed(key), trimmed(value))),
{
    reveal_strlit(": ");
    let sep = ": "@;
    let colon = seq![':', ' '];
    let n = key.len() as int;
    let one = key + colon + value;
    lemma_first_colon(key, colon + value, 0);
    assert(one =~= key + (colon + value));
    assert forall|i: int| n + 2 <= i implies !#[trigger] occurs_at(one, sep, i) by {
        if i <= one.len() - 2 {
            let part = one.subrange(i, i + 2);
            assert(part[0] == value[i - n - 2] && part[1] == value[i - n - 1]);
        }
    }
    nothing_is_found_elsewhere(one, sep, n + 2);
    assert(one.subrange(0, n) =~= key);
    assert(one.subrange(n + 2, one.len() as int) =~= value);
}

proof fn lemma_two_colons(key: Seq<char>, value: Seq<char>, rest: Seq<char>)
    requires
        forall|i: int| 0 <= i < key.len() - 1 ==> !(#[trigger] key[i] == ':' && key[i + 1] == ' '),
        forall|i: int| 0 <= i < value.len() - 1 ==> !(#[trigger] value[i] == ':' && value[i + 1] == ' '),
        key.len() > 0 ==> key.last() != ':',
        value.len() > 0 ==> value.last() != ':',
    ensures
        line_entry(key + seq![':', ' '] + value + seq![':', ' '] + rest) == Some(
            (trimmed(key), trimmed(value)),
        ),
{
    reveal_strlit(": ");
    let colon = seq![':', ' '];
    let n = key.len() as int;
    let head = key + colon + value;
    let two = head + colon + rest;
    assert(two =~= key + (colon + value + colon + rest));
    assert(two =~= head + (colon + rest));
    lemma_first_colon(key, colon + value + colon + rest, 0);
    assert forall|i: int| n + 2 <= i < head.len() - 1 implies !(#[trigger] head[i] == ':' && head[i + 1]
        == ' ') by {
        assert(head[i] == value[i - n - 2] && head[i + 1] == value[i - n - 1]);
    }
    lemma_first_colon(head, colon + rest, n + 2);
    assert(two.subrange(0, n) =~= key);
    assert(two.subrange(n + 2, head.len() as int) =~= value);
}

proof fn lemma_first_colon(head: Seq<char>, rest: Seq<char>, from: int)
    requires
        0 <= from <= head.len(),
        forall|i: int| from <= i < head.len() - 1 ==> !(#[trigger] head[i] == ':' && head[i + 1] == ' '),
        head.len() > from ==> head.last() != ':',
        rest.len() >= 2 && rest[0] == ':' && rest[1] == ' ',
    ensures
        find_from(head + rest, ": "@, from) == Some(head.len() as int),
{
    reveal_strlit(": ");
    let s = head + rest;
    let n = head.len() as int;
    assert(s.subrange(n, n + 2) =~= ": "@);
    assert(occurs_at(s, ": "@, n));
    first_places_are_found(s, ": "@, from, n);
    let found = find_from(s, ": "@, from)->0;
    if found < n {
        let part = s.subrange(found, found + 2);
        assert(part[0] == ':' && part[1] == ' ');
        assert(part[0] == head[found]);
        if found + 1 < n {
            assert(part[1] == head[found + 1]);
        }
    }
}

/// Of several lines with a key the last one counts: a line that is added sets the value of its own
/// key and leaves those of all others.
pub proof fn later_lines_count(lines: Seq<String>, line: String, key: Seq<char>)
    ensures
        line_entry(line@) matches Some((k, v)) ==> header_value(lines.push(line), k) == Some(v),
        !(line_entry(line@) matches Some((k, v)) && k == key) ==> header_value(lines.push(line), key)
            == header_value(lines, key),
        header_value(Seq::empty(), key) is None,
{
    assert(lines.push(line).drop_last() =~= lines);
}

/// Every pixel has six numbers. The next column follows directly, the next row after all columns.
pub proof fn pixels_have_six_numbers(width: int, u: int, v: int)
    ensures
        pixel_offset(width, 0, 0) == 0,
        pixel_offset(width, u + 1, v) == pixel_offset(width, u, v) + 6,
        pixel_offset(width, u, v + 1) == pixel_offset(width, u, v) + 6 * width,
{
    assert((v + 1) * width == v * width + width) by (nonlinear_arith);
    assert(0 * width == 0) by (nonlinear_arith);
}

/// The surface is read on both sides alike, and what is near to it lies inside the image.
pub proof fn both_sides_are_near(u: int, v: int, w: int, width: int, height: int)
    ensures
        near_surface(seq![u, v, w], width, height) == near_surface(seq![u, v, -w], width, height),
        near_surface(seq![u, v, w], width, height) == near_surface(seq![v, u, w], height, width),
        near_surface(seq![u, v, w], width, height) ==> 1 <= u <= width - 1 && 1 <= v <= height - 1 && w
            * w <= 2025,
        1 <= u <= width - 1 && 1 <= v <= height - 1 && w * w <= 2025 ==> near_surface(
            seq![u, v, w],
            width,
            height,
        ),
{
    assert(w * w <= 2025 <==> -45 <= w <= 45) by {
        assert(-45 <= w <= 45 ==> w * w <= 2025) by (nonlinear_arith);
        assert(w * w <= 2025 ==> -45 <= w <= 45) by (nonlinear_arith);
    }
}

/// A point is read at full resolution: it is the given one, as many times as far from the corner as voxels
/// are put together, and only if that lies close to the surface.
pub proof fn surface_points_are_scaled(
    xyz: [i32; 3],
    downsampling: i32,
    width: usize,
    height: usize,
    r: Option<[i64; 3]>,
    i: int,
)
    requires
        call_ensures(surface_point, (xyz, downsampling, width, height), r),
        0 <= i < 3,
    ensures
        r matches Some(p) ==> p@[i] == xyz@[i] * downsampling,
        r matches Some(p) ==> 0 < p@[0] < width && 0 < p@[1] < height && -45 <= p@[2] <= 45,
        0 < xyz@[0] * downsampling < width && 0 < xyz@[1] * downsampling < height && -45 <= xyz@[2]
            * downsampling <= 45 ==> r is Some,
{
    if r is Some {
        let p = r->0;
        let q = p@.map_values(|c: i64| c as int);
        assert(q[i] == p@[i]);
        assert(q[0] == p@[0] && q[1] == p@[1] && q[2] == p@[2]);
    }
}

} // verus!
