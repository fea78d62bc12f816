//! Where horizontal and vertical fibers meet, and looking at the meeting points of one fiber.

use crate::text::{chars_of, parse_chars, parsed, split_words, sub_chars, texts, words};
use crate::text::{digits, padded, written_numbers_are_read_back};
use crate::volume::image::Color32;
use vstd::prelude::*;

verus! {

/// A horizontal and a vertical fiber meet at a point.
#[derive(Clone, Copy, PartialEq, Eq, Structural)]
pub struct Collision {
    pub id1: u32,
    pub id2: u32,
    pub x: u16,
    pub y: u16,
    pub z: u16,
}

/// The number behind the letter of a fiber's name.
pub open spec fn fiber_number(word: Seq<char>) -> Option<nat> {
    if word.len() > 0 && (word[0] as u32) < 128 {
        parsed(word.skip(1), u32::MAX as nat)
    } else {
        None
    }
}

fn parse_fiber(word: &[char]) -> (r: Option<u32>)
    ensures
        r is Some <==> fiber_number(word@) is Some,
        r matches Some(n) ==> fiber_number(word@) == Some(n as nat),
{
    if word.len() > 0 && (word[0] as u32) < 128 {
        let number = sub_chars(word, 1, word.len());
        assert(number@ =~= word@.skip(1));
        match parse_chars(&number, u32::MAX as u64) {
            Some(n) => Some(n as u32),
            None => None,
        }
    } else {
        None
    }
}

fn parse_coordinate(word: &[char]) -> (r: Option<u16>)
    ensures
        r is Some <==> parsed(word@, u16::MAX as nat) is Some,
        r matches Some(n) ==> parsed(word@, u16::MAX as nat) == Some(n as nat),
{
    match parse_chars(word, u16::MAX as u64) {
        Some(n) => Some(n as u16),
        None => None,
    }
}

/// What a line says: the names of the two fibers, each with a letter in front of its number, and
/// the point. What follows does not count.
pub open spec fn line_collision(line: Seq<char>) -> Option<Collision> {
    let w = words(line, 0);
    if w.len() < 5 {
        None
    } else {
        match (
            fiber_number(w[0]),
            fiber_number(w[1]),
            parsed(w[2], u16::MAX as nat),
            parsed(w[3], u16::MAX as nat),
            parsed(w[4], u16::MAX as nat),
        ) {
            (Some(id1), Some(id2), Some(x), Some(y), Some(z)) => Some(
                Collision { id1: id1 as u32, id2: id2 as u32, x: x as u16, y: y as u16, z: z as u16 },
            ),
            _ => None,
        }
    }
}

/// Computes [`line_collision`].
pub fn parse_collision(line: &str) -> (r: Option<Collision>)
    ensures
        r == line_collision(line@),
{
    let chars = chars_of(line);
    let w = split_words(&chars);
    let ghost all = words(line@, 0);
    assert(texts(w@).len() == w@.len());
    if w.len() < 5 {
        return None;
    }
    assert(w@[0]@ == all[0] && w@[1]@ == all[1] && w@[2]@ == all[2] && w@[3]@ == all[3] && w@[4]@
        == all[4]) by {
        assert(texts(w@)[0] == w@[0]@);
        assert(texts(w@)[1] == w@[1]@);
        assert(texts(w@)[2] == w@[2]@);
        assert(texts(w@)[3] == w@[3]@);
        assert(texts(w@)[4] == w@[4]@);
    }
    let id1 = parse_fiber(&w[0]);
    let id2 = parse_fiber(&w[1]);
    let x = parse_coordinate(&w[2]);
    let y = parse_coordinate(&w[3]);
    let z = parse_coordinate(&w[4]);
    match (id1, id2, x, y, z) {
        (Some(id1), Some(id2), Some(x), Some(y), Some(z)) => Some(Collision { id1, id2, x, y, z }),
        _ => None,
    }
}

/// A horizontal fiber and how often it meets another one.
#[derive(Clone, Copy, PartialEq, Eq, Structural)]
pub struct Rank {
    pub id: u32,
    pub count: usize,
}

/// How many of the collisions belong to a horizontal fiber.
pub open spec fn meetings(collisions: Seq<Collision>, id: u32) -> int
    decreases collisions.len(),
{
    if collisions.len() == 0 {
        0
    } else {
        meetings(collisions.drop_last(), id) + (if collisions.last().id1 == id {
            1int
        } else {
            0
        })
    }
}

/// Some entry belongs to the fiber.
pub open spec fn has_rank(ranks: Seq<Rank>, id: u32) -> bool {
    exists|i: int| 0 <= i < ranks.len() && (#[trigger] ranks[i]).id == id
}

/// Each fiber that meets another one has one entry, with the number of its meetings.
pub open spec fn counts_all(collisions: Seq<Collision>, ranks: Seq<Rank>) -> bool {
    &&& forall|i: int|
        0 <= i < ranks.len() ==> (#[trigger] ranks[i]).count == meetings(collisions, ranks[i].id)
            && ranks[i].count > 0
    &&& forall|i: int, j: int|
        0 <= i < j < ranks.len() ==> (#[trigger] ranks[i]).id != (#[trigger] ranks[j]).id
    &&& forall|id: u32| #[trigger] meetings(collisions, id) > 0 ==> has_rank(ranks, id)
}

/// The collisions of a horizontal fiber, in their order.
pub open spec fn shown_of(collisions: Seq<Collision>, selected: Option<u32>) -> Seq<Collision>
    decreases collisions.len(),
{
    if collisions.len() == 0 {
        Seq::empty()
    } else {
        let before = shown_of(collisions.drop_last(), selected);
        if selected == Some(collisions.last().id1) {
            before.push(collisions.last())
        } else {
            before
        }
    }
}

/// How far a point of the picture is from a collision, along the axes.
pub open spec fn distance(c: Collision, mx: int, my: int) -> int {
    (if mx < c.x {
        c.x - mx
    } else {
        mx - c.x
    }) + (if my < c.y {
        c.y - my
    } else {
        my - c.y
    })
}

/// The first of the nearest ones stands at `k`.
pub open spec fn is_nearest(collisions: Seq<Collision>, mx: int, my: int, k: int) -> bool {
    &&& 0 <= k < collisions.len()
    &&& forall|i: int|
        0 <= i < collisions.len() ==> distance(collisions[k], mx, my) <= distance(
            #[trigger] collisions[i],
            mx,
            my,
        )
    &&& forall|i: int|
        0 <= i < k ==> distance(collisions[k], mx, my) < distance(#[trigger] collisions[i], mx, my)
}

/// Finds the collision that is nearest to a point; `None` if there is none at all.
pub fn nearest(collisions: &[Collision], mx: u16, my: u16) -> (r: Option<Collision>)
    ensures
        match r {
            Some(c) => exists|k: int|
                #[trigger] is_nearest(collisions@, mx as int, my as int, k) && c == collisions@[k],
            None => collisions@.len() == 0,
        },
{
    if collisions.len() == 0 {
        return None;
    }
    let mut best: usize = 0;
    let mut best_distance: i32 = distance_to(&collisions[0], mx, my);
    let mut i: usize = 1;
    while i < collisions.len()
        invariant
            best < i <= collisions@.len(),
            best_distance == distance(collisions@[best as int], mx as int, my as int),
            forall|j: int|
                0 <= j < i ==> best_distance <= distance(#[trigger] collisions@[j], mx as int, my as int),
            forall|j: int|
                0 <= j < best ==> best_distance < distance(
                    #[trigger] collisions@[j],
                    mx as int,
                    my as int,
                ),
        decreases collisions@.len() - i,
    {
        let d: i32 = distance_to(&collisions[i], mx, my);
        if d < best_distance {
            best = i;
            best_distance = d;
        }
        i += 1;
    }
    assert(is_nearest(collisions@, mx as int, my as int, best as int));
    Some(collisions[best])
}

/// Where a click at a point of the picture leads: to the nearest collision, if there is one.
pub fn clicked_position(collisions: &[Collision], mx: u16, my: u16) -> (r: Option<[i32; 3]>)
    ensures
        match r {
            Some(xyz) => exists|k: int| #[trigger]
                is_nearest(collisions@, mx as int, my as int, k) && xyz@ == seq![
                    collisions@[k].x as i32,
                    collisions@[k].y as i32,
                    collisions@[k].z as i32,
                ],
            None => collisions@.len() == 0,
        },
{
    match nearest(collisions, mx, my) {
        Some(c) => {
            let xyz: [i32; 3] = [c.x as i32, c.y as i32, c.z as i32];
            assert(xyz@ =~= seq![c.x as i32, c.y as i32, c.z as i32]);
            Some(xyz)
        },
        None => None,
    }
}

fn distance_to(c: &Collision, mx: u16, my: u16) -> (d: i32)
    ensures
        d == distance(*c, mx as int, my as int),
{
    let dx: i32 = if mx < c.x {
        c.x as i32 - mx as i32
    } else {
        mx as i32 - c.x as i32
    };
    let dy: i32 = if my < c.y {
        c.y as i32 - my as i32
    } else {
        my as i32 - c.y as i32
    };
    dx + dy
}

/// The part of the world that the picture shows: from `min` on, `range` wide.
#[derive(Clone, Copy, PartialEq, Eq, Structural)]
pub struct Extent {
    pub min_x: u16,
    pub min_y: u16,
    pub min_z: u16,
    pub range_x: u16,
    pub range_y: u16,
    pub range_z: u16,
}

/// Smallest and largest are reached, and nothing lies outside.
pub open spec fn spans(values: Seq<u16>, min: u16, max: u16) -> bool {
    &&& values.contains(min)
    &&& values.contains(max)
    &&& forall|i: int| 0 <= i < values.len() ==> min <= #[trigger] values[i] <= max
}

pub open spec fn xs(collisions: Seq<Collision>) -> Seq<u16> {
    collisions.map_values(|c: Collision| c.x)
}

pub open spec fn ys(collisions: Seq<Collision>) -> Seq<u16> {
    collisions.map_values(|c: Collision| c.y)
}

pub open spec fn zs(collisions: Seq<Collision>) -> Seq<u16> {
    collisions.map_values(|c: Collision| c.z)
}

/// The margin around the points.
pub const MARGIN: u16 = 10;

/// The part with a margin around the values from `min` to `max`.
pub open spec fn framed(min: u16, max: u16, from: u16, range: u16) -> bool {
    &&& from == min - MARGIN
    &&& from + range == max + MARGIN
}

/// The margin fits on both sides.
pub open spec fn margin_fits(values: Seq<u16>) -> bool {
    forall|i: int| 0 <= i < values.len() ==> MARGIN <= #[trigger] values[i] <= u16::MAX - MARGIN
}

fn limits(values: &[u16]) -> (r: (u16, u16))
    requires
        values@.len() > 0,
    ensures
        spans(values@, r.0, r.1),
{
    let mut min: u16 = values[0];
    let mut max: u16 = values[0];
    let mut i: usize = 1;
    assert(values@.take(1)[0] == min);
    while i < values.len()
        invariant
            1 <= i <= values@.len(),
            values@.take(i as int).contains(min),
            values@.take(i as int).contains(max),
            forall|j: int| 0 <= j < i ==> min <= #[trigger] values@[j] <= max,
        decreases values@.len() - i,
    {
        let v: u16 = values[i];
        assert(values@.take(i + 1) =~= values@.take(i as int).push(v));
        assert(values@.take(i + 1)[i as int] == v);
        assert forall|w: u16| values@.take(i as int).contains(w) implies values@.take(i + 1).contains(
            w,
        ) by {
            let k = choose|k: int| 0 <= k < i && values@.take(i as int)[k] == w;
            assert(values@.take(i + 1)[k] == w);
        }
        if v < min {
            min = v;
        }
        if v > max {
            max = v;
        }
        i += 1;
    }
    assert(values@.take(i as int) =~= values@);
    (min, max)
}

/// All collisions, and the horizontal fiber that is looked at.
pub struct CollisionPanel {
    pub collisions: Vec<Collision>,
    pub selected_h: Option<u32>,
}

impl CollisionPanel {
    /// Reads all lines; `None` if one of them is no collision.
    pub fn new(lines: &[String]) -> (r: Option<CollisionPanel>)
        ensures
            match r {
                Some(panel) => {
                    &&& panel.selected_h is None
                    &&& panel.collisions@.len() == lines@.len()
                    &&& forall|i: int|
                        0 <= i < lines@.len() ==> line_collision((#[trigger] lines@[i])@) == Some(
                            panel.collisions@[i],
                        )
                },
                None => exists|i: int|
                    0 <= i < lines@.len() && line_collision((#[trigger] lines@[i])@) is None,
            },
    {
        let mut collisions: Vec<Collision> = Vec::new();
        let mut i: usize = 0;
        while i < lines.len()
            invariant
                i <= lines@.len(),
                collisions@.len() == i,
                forall|k: int|
                    0 <= k < i ==> line_collision((#[trigger] lines@[k])@) == Some(collisions@[k]),
            decreases lines@.len() - i,
        {
            match parse_collision(lines[i].as_str()) {
                Some(c) => collisions.push(c),
                None => {
                    return None;
                },
            }
            i += 1;
        }
        Some(CollisionPanel { collisions, selected_h: None })
    }

    /// Looks at another horizontal fiber.
    pub fn select(&mut self, id: u32)
        ensures
            final(self).collisions == old(self).collisions,
            final(self).selected_h == Some(id),
    {
        self.selected_h = Some(id);
    }

    /// The horizontal fibers, those with the most meetings first.
    pub fn ranking(&self) -> (r: Vec<Rank>)
        ensures
            counts_all(self.collisions@, r@),
            forall|i: int, j: int|
                0 <= i < j < r@.len() ==> (#[trigger] r@[i]).count >= (#[trigger] r@[j]).count,
    {
        let mut r: Vec<Rank> = Vec::new();
        let mut i: usize = 0;
        while i < self.collisions.len()
            invariant
                i <= self.collisions@.len(),
                counts_all(self.collisions@.take(i as int), r@),
            decreases self.collisions@.len() - i,
        {
            count_one(&mut r, self.collisions[i], Ghost(self.collisions@.take(i as int)));
            assert(self.collisions@.take(i + 1) =~= self.collisions@.take(i as int).push(
                self.collisions@[i as int],
            ));
            i += 1;
        }
        assert(self.collisions@.take(i as int) =~= self.collisions@);
        sort_ranks(&mut r, Ghost(self.collisions@));
        r
    }

    /// The collisions of the fiber that is looked at.
    pub fn shown(&self) -> (r: Vec<Collision>)
        ensures
            r@ == shown_of(self.collisions@, self.selected_h),
    {
        let mut r: Vec<Collision> = Vec::new();
        let mut i: usize = 0;
        while i < self.collisions.len()
            invariant
                i <= self.collisions@.len(),
                r@ == shown_of(self.collisions@.take(i as int), self.selected_h),
            decreases self.collisions@.len() - i,
        {
            let c = self.collisions[i];
            assert(self.collisions@.take(i + 1).drop_last() =~= self.collisions@.take(i as int));
            if let Some(id) = self.selected_h {
                if id == c.id1 {
                    r.push(c);
                }
            }
            i += 1;
        }
        assert(self.collisions@.take(i as int) =~= self.collisions@);
        r
    }
}

/// Counts one more collision.
fn count_one(ranks: &mut Vec<Rank>, c: Collision, Ghost(seen): Ghost<Seq<Collision>>)
    requires
        counts_all(seen, old(ranks)@),
        seen.len() < usize::MAX,
    ensures
        counts_all(seen.push(c), final(ranks)@),
{
    let ghost before = ranks@;
    let ghost all = seen.push(c);
    proof {
        assert(all.drop_last() =~= seen);
        assert forall|id: u32| #[trigger] meetings(all, id) == meetings(seen, id) + (if c.id1 == id {
            1int
        } else {
            0
        }) by {}
        lemma_meetings_bound(seen, c.id1);
    }
    let mut i: usize = 0;
    while i < ranks.len()
        invariant
            i <= ranks@.len(),
            ranks@ == before,
            forall|k: int| 0 <= k < i ==> (#[trigger] ranks@[k]).id != c.id1,
            counts_all(seen, before),
            seen.len() < usize::MAX,
            0 <= meetings(seen, c.id1) <= seen.len(),
            all == seen.push(c),
            forall|id: u32| #[trigger]
                meetings(all, id) == meetings(seen, id) + (if c.id1 == id {
                    1int
                } else {
                    0
                }),
        decreases ranks@.len() - i,
    {
        let rank = ranks[i];
        if rank.id == c.id1 {
            ranks.set(i, Rank { id: rank.id, count: rank.count + 1 });
            proof {
                assert forall|id: u32| #[trigger] meetings(all, id) > 0 implies has_rank(ranks@, id) by {
                    if id == c.id1 {
                        assert(ranks@[i as int].id == id);
                    } else {
                        assert(has_rank(before, id));
                        let k = choose|k: int| 0 <= k < before.len() && (#[trigger] before[k]).id == id;
                        assert(ranks@[k].id == id);
                    }
                }
            }
            return;
        }
        i += 1;
    }
    proof {
        if meetings(seen, c.id1) > 0 {
            assert(has_rank(before, c.id1));
        }
    }
    ranks.push(Rank { id: c.id1, count: 1 });
    proof {
        assert forall|id: u32| #[trigger] meetings(all, id) > 0 implies has_rank(ranks@, id) by {
            if id == c.id1 {
                assert(ranks@[before.len() as int].id == id);
            } else {
                assert(has_rank(before, id));
                let k = choose|k: int| 0 <= k < before.len() && (#[trigger] before[k]).id == id;
                assert(ranks@[k].id == id);
            }
        }
    }
}

proof fn lemma_meetings_bound(collisions: Seq<Collision>, id: u32)
    ensures
        0 <= meetings(collisions, id) <= collisions.len(),
    decreases collisions.len(),
{
    if collisions.len() > 0 {
        lemma_meetings_bound(collisions.drop_last(), id);
    }
}

/// Swapping two entries keeps each of them.
proof fn lemma_swap_keeps_ranks(collisions: Seq<Collision>, before: Seq<Rank>, a: int, b: int)
    requires
        counts_all(collisions, before),
        0 <= a < before.len(),
        0 <= b < before.len(),
    ensures
        counts_all(collisions, before.update(a, before[b]).update(b, before[a])),
{
    let after = before.update(a, before[b]).update(b, before[a]);
    assert forall|id: u32| #[trigger] meetings(collisions, id) > 0 implies has_rank(after, id) by {
        assert(has_rank(before, id));
        let k = choose|k: int| 0 <= k < before.len() && (#[trigger] before[k]).id == id;
        let l = if k == a {
            b
        } else if k == b {
            a
        } else {
            k
        };
        assert(after[l].id == id);
    }
    assert forall|i: int, j: int| 0 <= i < j < after.len() implies (#[trigger] after[i]).id != (
    #[trigger] after[j]).id by {
        let i2 = if i == a {
            b
        } else if i == b {
            a
        } else {
            i
        };
        let j2 = if j == a {
            b
        } else if j == b {
            a
        } else {
            j
        };
        assert(after[i] == before[i2] && after[j] == before[j2] && i2 != j2);
        if i2 < j2 {
            assert(before[i2].id != before[j2].id);
        } else {
            assert(before[j2].id != before[i2].id);
        }
    }
}

/// Puts the largest counts first.
fn sort_ranks(ranks: &mut Vec<Rank>, Ghost(collisions): Ghost<Seq<Collision>>)
    requires
        counts_all(collisions, old(ranks)@),
    ensures
        counts_all(collisions, final(ranks)@),
        forall|i: int, j: int|
            0 <= i < j < final(ranks)@.len() ==> (#[trigger] final(ranks)@[i]).count >= (
            #[trigger] final(ranks)@[j]).count,
{
    let n: usize = ranks.len();
    let mut i: usize = 0;
    while i < n
        invariant
            i <= n,
            ranks@.len() == n,
            counts_all(collisions, ranks@),
            forall|a: int, b: int|
                0 <= a < i && a < b < n ==> (#[trigger] ranks@[a]).count >= (#[trigger] ranks@[b]).count,
        decreases n - i,
    {
        let mut best: usize = i;
        let mut j: usize = i + 1;
        while j < n
            invariant
                i <= best < j <= n,
                ranks@.len() == n,
                forall|a: int| i <= a < j ==> (#[trigger] ranks@[a]).count <= ranks@[best as int].count,
            decreases n - j,
        {
            if ranks[j].count > ranks[best].count {
                best = j;
            }
            j += 1;
        }
        let ghost before = ranks@;
        let first = ranks[i];
        let largest = ranks[best];
        ranks.set(i, largest);
        ranks.set(best, first);
        proof {
            lemma_swap_keeps_ranks(collisions, before, i as int, best as int);
            assert(ranks@ =~= before.update(i as int, before[best as int]).update(
                best as int,
                before[i as int],
            ));
        }
        i += 1;
    }
}

/// The part of the world that shows all of these collisions with a margin; `None` if there are
/// none, or if the margin reaches beyond what 16 bits can hold.
pub fn extent_of(collisions: &[Collision]) -> (r: Option<Extent>)
    ensures
        r is Some <==> collisions@.len() > 0 && margin_fits(xs(collisions@)) && margin_fits(
            ys(collisions@),
        ) && margin_fits(zs(collisions@)),
        r matches Some(e) ==> {
            &&& framed_by(xs(collisions@), e.min_x, e.range_x)
            &&& framed_by(ys(collisions@), e.min_y, e.range_y)
            &&& framed_by(zs(collisions@), e.min_z, e.range_z)
        },
{
    if collisions.len() == 0 {
        return None;
    }
    let mut x: Vec<u16> = Vec::new();
    let mut y: Vec<u16> = Vec::new();
    let mut z: Vec<u16> = Vec::new();
    let mut i: usize = 0;
    while i < collisions.len()
        invariant
            i <= collisions@.len(),
            x@ =~= xs(collisions@.take(i as int)),
            y@ =~= ys(collisions@.take(i as int)),
            z@ =~= zs(collisions@.take(i as int)),
        decreases collisions@.len() - i,
    {
        x.push(collisions[i].x);
        y.push(collisions[i].y);
        z.push(collisions[i].z);
        i += 1;
    }
    assert(collisions@.take(i as int) =~= collisions@);
    let fx = frame(&x);
    let fy = frame(&y);
    let fz = frame(&z);
    match (fx, fy, fz) {
        (Some(fx), Some(fy), Some(fz)) => Some(
            Extent { min_x: fx.0, min_y: fy.0, min_z: fz.0, range_x: fx.1, range_y: fy.1, range_z: fz.1 },
        ),
        _ => None,
    }
}

/// The frame lies around the values with a margin.
pub open spec fn framed_by(values: Seq<u16>, from: u16, range: u16) -> bool {
    exists|min: u16, max: u16| #[trigger] spans(values, min, max) && framed(min, max, from, range)
}

fn frame(values: &[u16]) -> (r: Option<(u16, u16)>)
    requires
        values@.len() > 0,
    ensures
        r is Some <==> margin_fits(values@),
        r matches Some(f) ==> framed_by(values@, f.0, f.1),
{
    let (min, max) = limits(values);
    if min < MARGIN || max > u16::MAX - MARGIN {
        proof {
            let k = choose|k: int| 0 <= k < values@.len() && values@[k] == min;
            let l = choose|l: int| 0 <= l < values@.len() && values@[l] == max;
            assert(values@[k] == min && values@[l] == max);
        }
        None
    } else {
        assert(spans(values@, min, max) && framed(min, max, (min - MARGIN) as u16, (max - min + 2 * MARGIN) as u16));
        Some((min - MARGIN, max - min + 2 * MARGIN))
    }
}

/// The colour of a collision: green if it is the one under the pointer, else red.
pub fn collision_color(c: &Collision, hovered: Option<Collision>) -> (color: Color32)
    ensures
        color == (if hovered is Some && hovered->0.id1 == c.id1 && hovered->0.id2 == c.id2 {
            Color32::rgb(0, 255, 0)
        } else {
            Color32::rgb(255, 0, 0)
        }),
{
    match hovered {
        Some(h) => if h.id1 == c.id1 && h.id2 == c.id2 {
            Color32::from_rgb(0, 255, 0)
        } else {
            Color32::from_rgb(255, 0, 0)
        },
        None => Color32::from_rgb(255, 0, 0),
    }
}

/// A fiber is named by a letter and its number.
pub proof fn fibers_are_named_by_number(letter: char, n: nat, zeros: int)
    requires
        n <= u32::MAX,
        (letter as u32) < 128,
    ensures
        fiber_number(seq![letter] + padded(n, zeros)) == Some(n),
        fiber_number(Seq::empty()) is None,
{
    let word = seq![letter] + padded(n, zeros);
    assert(word.skip(1) =~= padded(n, zeros));
    written_numbers_are_read_back(n, zeros, u32::MAX as nat);
}

/// A line names the two fibers first, then the three coordinates. Words behind them do not count, and a
/// line with fewer words is none.
pub proof fn collisions_are_read_back(line: Seq<char>, a: char, b: char, c: Collision)
    requires
        (a as u32) < 128,
        (b as u32) < 128,
        words(line, 0).len() >= 5 ==> {
            &&& words(line, 0)[0] == seq![a] + digits(c.id1 as nat)
            &&& words(line, 0)[1] == seq![b] + digits(c.id2 as nat)
            &&& words(line, 0)[2] == digits(c.x as nat)
            &&& words(line, 0)[3] == digits(c.y as nat)
            &&& words(line, 0)[4] == digits(c.z as nat)
        },
    ensures
        words(line, 0).len() >= 5 ==> line_collision(line) == Some(c),
        words(line, 0).len() < 5 ==> line_collision(line) is None,
{
    let first = seq![a] + digits(c.id1 as nat);
    let second = seq![b] + digits(c.id2 as nat);
    assert(first.skip(1) =~= digits(c.id1 as nat));
    assert(second.skip(1) =~= digits(c.id2 as nat));
    written_numbers_are_read_back(c.id1 as nat, 0, u32::MAX as nat);
    written_numbers_are_read_back(c.id2 as nat, 0, u32::MAX as nat);
    written_numbers_are_read_back(c.x as nat, 0, u16::MAX as nat);
    written_numbers_are_read_back(c.y as nat, 0, u16::MAX as nat);
    written_numbers_are_read_back(c.z as nat, 0, u16::MAX as nat);
}

/// What is shown are the collisions whose first fiber is the selected one, in their order; their number
/// is that of the fiber's meetings. Without a selection nothing is shown.
pub proof fn shown_collisions_are_the_meetings(collisions: Seq<Collision>, id: u32)
    ensures
        shown_of(collisions, Some(id)) == collisions.filter(|c: Collision| c.id1 == id),
        shown_of(collisions, Some(id)).len() == meetings(collisions, id),
        shown_of(collisions, None).len() == 0,
    decreases collisions.len(),
{
    reveal(Seq::filter);
    if collisions.len() > 0 {
        shown_collisions_are_the_meetings(collisions.drop_last(), id);
    }
}

/// How far a collision is away is counted along the axes of the picture, to either side alike.
pub proof fn distances_are_counted_along_the_axes(c: Collision, dx: int, dy: int)
    requires
        dx >= 0,
        dy >= 0,
    ensures
        distance(c, c.x + dx, c.y + dy) == dx + dy,
        distance(c, c.x - dx, c.y + dy) == dx + dy,
        distance(c, c.x + dx, c.y - dy) == dx + dy,
        distance(c, c.x - dx, c.y - dy) == dx + dy,
{
}

/// A frame reaches ten beyond the values on both sides, and no further.
pub proof fn frames_have_a_margin_of_ten(values: Seq<u16>, from: u16, range: u16, i: int)
    requires
        framed_by(values, from, range),
        0 <= i < values.len(),
    ensures
        from + 10 <= values[i] <= from + range - 10,
        values.contains((from + 10) as u16),
        values.contains((from + range - 10) as u16),
{
}

/// Of collisions that are equally near the first one is found, and none is nearer.
pub proof fn the_first_of_the_nearest_is_found(collisions: Seq<Collision>, mx: int, my: int, k: int, i: int)
    requires
        is_nearest(collisions, mx, my, k),
        0 <= i < collisions.len(),
    ensures
        distance(collisions[k], mx, my) <= distance(collisions[i], mx, my),
        distance(collisions[k], mx, my) == distance(collisions[i], mx, my) ==> k <= i,
{
    let d = collisions[i];
}

} // verus!
