//! Flooding the connected region of a voxel, and the numbers that the regions get.

use crate::fibers::clouds::Point;
use std::collections::HashSet;
use vstd::prelude::*;

verus! {

/// Where a voxel stands in a map of 8192 by 8192 by 8192 voxels. Voxels that are close to each
/// other stand close to each other: pages of 256 by 256 by 256 hold lines of 16 by 16 by 16.
pub open spec fn map_index(x: int, y: int, z: int) -> int {
    let page = z / 256 % 32 * 1024 + y / 256 % 32 * 32 + x / 256 % 32;
    let line = z / 16 % 16 * 256 + y / 16 % 16 * 16 + x / 16 % 16;
    let addr = z % 16 * 256 + y % 16 * 16 + x % 16;
    page * 0x100_0000 + line * 0x1000 + addr
}

/// Computes [`map_index`].
pub fn index_of(x: u16, y: u16, z: u16) -> (r: u64)
    ensures
        r == map_index(x as int, y as int, z as int),
        r < 0x80_0000_0000,
{
    let x: u64 = x as u64;
    let y: u64 = y as u64;
    let z: u64 = z as u64;
    let page: u64 = ((z & 0x1f00) << 2) | ((y & 0x1f00) >> 3) | ((x & 0x1f00) >> 8);
    let line: u64 = ((z & 0xf0) << 4) | (y & 0xf0) | ((x & 0xf0) >> 4);
    let addr: u64 = ((z & 0xf) << 8) | ((y & 0xf) << 4) | (x & 0xf);
    proof {
        assert(page == z / 256 % 32 * 1024 + y / 256 % 32 * 32 + x / 256 % 32) by (bit_vector)
            requires
                page == ((z & 0x1f00) << 2) | ((y & 0x1f00) >> 3) | ((x & 0x1f00) >> 8),
                x < 0x1_0000,
                y < 0x1_0000,
                z < 0x1_0000,
        ;
        assert(line == z / 16 % 16 * 256 + y / 16 % 16 * 16 + x / 16 % 16) by (bit_vector)
            requires
                line == ((z & 0xf0) << 4) | (y & 0xf0) | ((x & 0xf0) >> 4),
                x < 0x1_0000,
                y < 0x1_0000,
                z < 0x1_0000,
        ;
        assert(addr == z % 16 * 256 + y % 16 * 16 + x % 16) by (bit_vector)
            requires
                addr == ((z & 0xf) << 8) | ((y & 0xf) << 4) | (x & 0xf),
                x < 0x1_0000,
                y < 0x1_0000,
                z < 0x1_0000,
        ;
        assert((page << 24) | (line << 12) | addr == page * 0x100_0000 + line * 0x1000 + addr)
            by (bit_vector)
            requires
                page < 0x8000,
                line < 0x1000,
                addr < 0x1000,
        ;
    }
    (page << 24) | (line << 12) | addr
}

/// Different voxels of the map have different places.
pub proof fn map_index_is_one_to_one(x: int, y: int, z: int, x2: int, y2: int, z2: int)
    requires
        0 <= x < 8192 && 0 <= y < 8192 && 0 <= z < 8192,
        0 <= x2 < 8192 && 0 <= y2 < 8192 && 0 <= z2 < 8192,
        map_index(x, y, z) == map_index(x2, y2, z2),
    ensures
        x == x2 && y == y2 && z == z2,
{
    lemma_map_digits(x, y, z);
    lemma_map_digits(x2, y2, z2);
    lemma_three_digits(x);
    lemma_three_digits(y);
    lemma_three_digits(z);
    lemma_three_digits(x2);
    lemma_three_digits(y2);
    lemma_three_digits(z2);
}

proof fn lemma_three_digits(x: int)
    requires
        0 <= x < 8192,
    ensures
        x == x / 256 % 32 * 256 + x / 16 % 16 * 16 + x % 16,
{
}

/// The parts of a place can be read off it.
proof fn lemma_map_digits(x: int, y: int, z: int)
    requires
        0 <= x && 0 <= y && 0 <= z,
    ensures
        ({
            let i = map_index(x, y, z);
            &&& i % 16 == x % 16 && i / 16 % 16 == y % 16 && i / 256 % 16 == z % 16
            &&& i / 0x1000 % 16 == x / 16 % 16
            &&& i / 0x1_0000 % 16 == y / 16 % 16
            &&& i / 0x10_0000 % 16 == z / 16 % 16
            &&& i / 0x100_0000 % 32 == x / 256 % 32
            &&& i / 0x2000_0000 % 32 == y / 256 % 32
            &&& i / 0x4_0000_0000 % 32 == z / 256 % 32
        }),
{
    let (a, b, c) = (x % 16, y % 16, z % 16);
    let (d, e, f) = (x / 16 % 16, y / 16 % 16, z / 16 % 16);
    let (g, h, k) = (x / 256 % 32, y / 256 % 32, z / 256 % 32);
    let i8 = k;
    let i7 = i8 * 32 + h;
    let i6 = i7 * 32 + g;
    let i5 = i6 * 16 + f;
    let i4 = i5 * 16 + e;
    let i3 = i4 * 16 + d;
    let i2 = i3 * 16 + c;
    let i1 = i2 * 16 + b;
    let i = i1 * 16 + a;
    assert(i == map_index(x, y, z));
    assert(i / 16 == i1 && i % 16 == a);
    assert(i1 / 16 == i2 && i1 % 16 == b);
    assert(i2 / 16 == i3 && i2 % 16 == c);
    assert(i3 / 16 == i4 && i3 % 16 == d);
    assert(i4 / 16 == i5 && i4 % 16 == e);
    assert(i5 / 16 == i6 && i5 % 16 == f);
    assert(i6 / 32 == i7 && i6 % 32 == g);
    assert(i7 / 32 == i8 && i7 % 32 == h);
    assert(i / 256 == i1 / 16);
    assert(i / 0x1000 == i2 / 16);
    assert(i / 0x1_0000 == i3 / 16);
    assert(i / 0x10_0000 == i4 / 16);
    assert(i / 0x100_0000 == i5 / 16);
    assert(i / 0x2000_0000 == i6 / 32);
    assert(i / 0x4_0000_0000 == i7 / 32);
}

/// The layers before this one are not searched for regions.
pub const FIRST_LAYER: u16 = 20;

/// Whether a region is flooded from a voxel: it lies in a layer that is searched, has a value, and
/// the map has no mark for it yet.
pub fn starts_flood(z: u16, value: Option<u8>, mark: u8) -> (r: bool)
    ensures
        r == (z >= 20 && value is Some && mark == 0),
{
    z >= FIRST_LAYER && value.is_some() && mark == 0
}

/// The values of the voxels; `None` where there is none.
pub type Field = spec_fn(Point) -> Option<u8>;

/// Two voxels that share a face.
pub open spec fn faces_touch(p: Point, q: Point) -> bool {
    ||| p@[1] == q@[1] && p@[2] == q@[2] && (p@[0] + 1 == q@[0] || q@[0] + 1 == p@[0])
    ||| p@[0] == q@[0] && p@[2] == q@[2] && (p@[1] + 1 == q@[1] || q@[1] + 1 == p@[1])
    ||| p@[0] == q@[0] && p@[1] == q@[1] && (p@[2] + 1 == q@[2] || q@[2] + 1 == p@[2])
}

/// A walk from face to face through voxels with the value `v`.
pub open spec fn trail(field: Field, v: u8, path: Seq<Point>, p: Point, q: Point) -> bool {
    &&& path.len() > 0
    &&& path[0] == p
    &&& path[path.len() - 1] == q
    &&& forall|i: int| 0 <= i < path.len() ==> field(#[trigger] path[i]) == Some(v)
    &&& forall|i: int, j: int|
        0 <= i < path.len() && j == i + 1 && j < path.len() ==> faces_touch(
            #[trigger] path[i],
            #[trigger] path[j],
        )
}

/// `q` belongs to the same region as `p`.
pub open spec fn same_region(field: Field, v: u8, p: Point, q: Point) -> bool {
    exists|path: Seq<Point>| trail(field, v, path, p, q)
}

/// Where a voxel stands in the map.
pub open spec fn place_of(p: Point) -> int {
    map_index(p@[0] as int, p@[1] as int, p@[2] as int)
}

/// One of the points stands at this place.
pub open spec fn stands_at(points: Seq<Point>, index: int) -> bool {
    exists|p: Point| #[trigger] points.contains(p) && place_of(p) == index
}

/// All voxels with a value, and their neighbours, lie in the map.
pub open spec fn fits_map(field: Field) -> bool {
    forall|p: Point| #[trigger] field(p) is Some ==> p@[0] < 8191 && p@[1] < 8191 && p@[2] < 8191
}

/// A flood has selected voxels of the start's region only, each once; whatever it has seen of the
/// value is selected; and every neighbour of a selected voxel is seen or waits.
pub open spec fn on_its_way(
    field: Field,
    v: u8,
    start: Point,
    waiting: Seq<Point>,
    selected: Seq<Point>,
    seen: spec_fn(Point) -> bool,
) -> bool {
    &&& field(start) == Some(v)
    &&& seen(start) || waiting.contains(start)
    &&& selected.no_duplicates()
    &&& forall|p: Point| #[trigger]
        selected.contains(p) ==> seen(p) && same_region(field, v, start, p)
    &&& forall|p: Point| #[trigger] seen(p) && field(p) == Some(v) ==> selected.contains(p)
    &&& forall|p: Point, q: Point|
        #![trigger selected.contains(p), faces_touch(p, q)]
        selected.contains(p) && faces_touch(p, q) ==> seen(q) || waiting.contains(q)
    &&& forall|q: Point| #[trigger]
        waiting.contains(q) ==> q == start || exists|p: Point|
            #![trigger selected.contains(p)]
            selected.contains(p) && faces_touch(p, q)
}

/// A flood that starts at one voxel and asks for the value of one voxel after the other.
pub struct Flood {
    pub start: Point,
    pub value: u8,
    pub work_list: Vec<Point>,
    pub visited: HashSet<u64>,
    pub selected: Vec<Point>,
}

impl Flood {
    /// The place of the voxel in the map was visited.
    pub open spec fn seen(&self, p: Point) -> bool {
        self.visited@.contains(place_of(p) as u64)
    }

    /// The voxel whose value is needed next.
    pub open spec fn asks_for(&self) -> Option<Point> {
        if self.work_list@.len() == 0 {
            None
        } else {
            Some(self.work_list@.last())
        }
    }

    /// The flood is on its way through a field.
    pub open spec fn progress(&self, field: Field) -> bool {
        on_its_way(field, self.value, self.start, self.work_list@, self.selected@, |p: Point| self.seen(p))
    }

    /// Begins a flood at a voxel with the given value.
    pub fn new(start: Point, value: u8) -> (r: Flood)
        ensures
            r.start == start,
            r.value == value,
            r.work_list@ == seq![start],
            r.selected@.len() == 0,
            r.visited@ == Set::<u64>::empty(),
            forall|field: Field| #[trigger] field(start) == Some(value) ==> r.progress(field),
    {
        broadcast use vstd::std_specs::hash::group_hash_axioms;

        let mut work_list: Vec<Point> = Vec::new();
        work_list.push(start);
        let r = Flood {
            start,
            value,
            work_list,
            visited: HashSet::new(),
            selected: Vec::new(),
        };
        proof {
            assert(r.work_list@ =~= seq![start]);
            assert(r.work_list@[0] == start);
        }
        r
    }

    /// The voxel whose value is needed next; `None` if the flood is over.
    pub fn next(&self) -> (r: Option<Point>)
        ensures
            r == self.asks_for(),
    {
        let n: usize = self.work_list.len();
        if n == 0 {
            None
        } else {
            Some(self.work_list[n - 1])
        }
    }

    /// Takes the value of the voxel that was asked for.
    pub fn answer(&mut self, value: Option<u8>)
        requires
            old(self).asks_for() is Some,
        ensures
            final(self).start == old(self).start,
            final(self).value == old(self).value,
            final(self).visited@ == old(self).visited@.insert(place_of(old(self).asks_for()->0) as u64),
            if value == Some(old(self).value) && !old(self).seen(old(self).asks_for()->0) {
                &&& final(self).selected@ == old(self).selected@.push(old(self).asks_for()->0)
                &&& forall|q: Point| #[trigger]
                    final(self).work_list@.contains(q) <==> old(self).work_list@.drop_last().contains(q)
                        || faces_touch(old(self).asks_for()->0, q)
            } else {
                &&& final(self).selected@ == old(self).selected@
                &&& final(self).work_list@ == old(self).work_list@.drop_last()
            },
            forall|field: Field|
                #![trigger old(self).progress(field)]
                fits_map(field) && old(self).progress(field) && field(old(self).asks_for()->0) == value
                    ==> final(self).progress(field),
    {
        broadcast use vstd::std_specs::hash::group_hash_axioms;

        let ghost before = *self;
        let p: Point = match self.work_list.pop() {
            Some(p) => p,
            None => [0, 0, 0],
        };
        let key: u64 = index_of(p[0], p[1], p[2]);
        let matches = match value {
            Some(v) => v == self.value,
            None => false,
        };
        if matches && !self.visited.contains(&key) {
            self.selected.push(p);
            push_neighbours(&mut self.work_list, p);
        }
        self.visited.insert(key);
        proof {
            assert forall|field: Field|
                #![trigger before.progress(field)]
                fits_map(field) && before.progress(field) && field(p) == value implies self.progress(
                field,
            ) by {
                lemma_seen_after(before, *self, field);
                lemma_answer_keeps_progress(
                    field,
                    before.value,
                    before.start,
                    before.work_list@,
                    before.selected@,
                    |q: Point| before.seen(q),
                    self.work_list@,
                    self.selected@,
                    |q: Point| self.seen(q),
                );
            }
        }
    }
}

/// One more voxel of a walk.
proof fn lemma_longer_trail(field: Field, v: u8, start: Point, p: Point, q: Point)
    requires
        same_region(field, v, start, p),
        faces_touch(p, q),
        field(q) == Some(v),
    ensures
        same_region(field, v, start, q),
{
    let path = choose|path: Seq<Point>| trail(field, v, path, start, p);
    assert(trail(field, v, path.push(q), start, q));
}

/// A walk of one voxel.
proof fn lemma_short_trail(field: Field, v: u8, start: Point)
    requires
        field(start) == Some(v),
    ensures
        same_region(field, v, start, start),
{
    assert(trail(field, v, seq![start], start, start));
}

proof fn lemma_answer_keeps_progress(
    field: Field,
    v: u8,
    start: Point,
    waiting: Seq<Point>,
    selected: Seq<Point>,
    seen: spec_fn(Point) -> bool,
    rest: Seq<Point>,
    chosen: Seq<Point>,
    seen_now: spec_fn(Point) -> bool,
)
    requires
        on_its_way(field, v, start, waiting, selected, seen),
        waiting.len() > 0,
        forall|q: Point| #[trigger] seen(q) ==> seen_now(q),
        seen_now(waiting.last()),
        forall|q: Point| #[trigger] seen_now(q) && field(q) == Some(v) ==> seen(q) || q == waiting.last(),
        if field(waiting.last()) == Some(v) && !seen(waiting.last()) {
            &&& chosen == selected.push(waiting.last())
            &&& forall|q: Point| #[trigger]
                rest.contains(q) <==> waiting.drop_last().contains(q) || faces_touch(waiting.last(), q)
        } else {
            &&& chosen == selected
            &&& rest == waiting.drop_last()
        },
    ensures
        on_its_way(field, v, start, rest, chosen, seen_now),
{
    let p = waiting.last();
    let others = waiting.drop_last();
    assert(waiting =~= others.push(p));
    lemma_pushed(others, p);
    if field(p) == Some(v) && !seen(p) {
        lemma_pushed(selected, p);
        if p == start {
            lemma_short_trail(field, v, start);
        } else {
            assert(waiting.contains(p));
            let o = choose|o: Point|
                #![trigger selected.contains(o)]
                selected.contains(o) && faces_touch(o, p);
            lemma_longer_trail(field, v, start, o, p);
        }
        assert(!selected.contains(p));
        assert(chosen.no_duplicates());
        assert forall|q: Point| #[trigger] rest.contains(q) implies q == start || exists|o: Point|
            #![trigger chosen.contains(o)]
            chosen.contains(o) && faces_touch(o, q) by {
            if others.contains(q) {
                assert(waiting.contains(q));
                if q != start {
                    let o = choose|o: Point|
                        #![trigger selected.contains(o)]
                        selected.contains(o) && faces_touch(o, q);
                    assert(chosen.contains(o));
                }
            } else {
                assert(chosen.contains(p));
            }
        }
    } else {
        assert forall|q: Point| #[trigger] rest.contains(q) implies waiting.contains(q) by {}
    }
}

proof fn lemma_place_fits(p: Point)
    ensures
        0 <= place_of(p) < 0x80_0000_0000,
{
}

/// What is seen once the voxel that was asked for is marked.
proof fn lemma_seen_after(before: Flood, after: Flood, field: Field)
    requires
        fits_map(field),
        before.progress(field),
        before.asks_for() is Some,
        after.visited@ == before.visited@.insert(place_of(before.asks_for()->0) as u64),
    ensures
        forall|q: Point| #[trigger] before.seen(q) ==> after.seen(q),
        after.seen(before.asks_for()->0),
        forall|q: Point| #[trigger]
            after.seen(q) && field(q) == Some(before.value) ==> before.seen(q) || q
                == before.asks_for()->0,
{
    let p = before.asks_for()->0;
    assert(before.work_list@.contains(p));
    if p == before.start {
        assert(field(p) is Some);
    } else {
        let o = choose|o: Point|
            #![trigger before.selected@.contains(o)]
            before.selected@.contains(o) && faces_touch(o, p);
        let path = choose|path: Seq<Point>| trail(field, before.value, path, before.start, o);
        assert(field(path[path.len() - 1]) is Some);
    }
    assert(p@[0] < 8192 && p@[1] < 8192 && p@[2] < 8192);
    assert forall|q: Point| #[trigger] after.seen(q) && field(q) == Some(before.value) implies before.seen(
        q,
    ) || q == p by {
        if !before.seen(q) {
            lemma_place_fits(p);
            lemma_place_fits(q);
            assert(place_of(q) == place_of(p));
            assert(field(q) is Some);
            map_index_is_one_to_one(
                q@[0] as int,
                q@[1] as int,
                q@[2] as int,
                p@[0] as int,
                p@[1] as int,
                p@[2] as int,
            );
            assert(q@ =~= p@);
        }
    }
}

/// A flood that is over has selected exactly the region of its start.
pub proof fn finished_floods_are_regions(flood: Flood, field: Field, q: Point)
    requires
        fits_map(field),
        flood.progress(field),
        flood.asks_for() is None,
    ensures
        flood.selected@.contains(q) <==> same_region(field, flood.value, flood.start, q),
        flood.selected@.no_duplicates(),
{
    if same_region(field, flood.value, flood.start, q) {
        let path = choose|path: Seq<Point>| trail(field, flood.value, path, flood.start, q);
        lemma_trail_is_selected(flood, field, path, q, path.len() - 1);
    }
}

proof fn lemma_trail_is_selected(flood: Flood, field: Field, path: Seq<Point>, q: Point, i: int)
    requires
        flood.progress(field),
        flood.work_list@.len() == 0,
        trail(field, flood.value, path, flood.start, q),
        0 <= i < path.len(),
    ensures
        flood.selected@.contains(path[i]),
    decreases i,
{
    if i == 0 {
        assert(flood.seen(flood.start));
    } else {
        lemma_trail_is_selected(flood, field, path, q, i - 1);
        assert(faces_touch(path[i - 1], path[i]));
        assert(flood.seen(path[i]));
    }
}

/// From this many voxels on, a region gets a number of its own.
pub const LARGE_REGION: usize = 200000;

/// The numbers that were handed out last: the one that is stored in the map, and the one under
/// which the region's points are saved.
pub struct RegionNumbers {
    pub id: u8,
    pub global_id: u32,
}

impl RegionNumbers {
    pub open spec fn valid(&self) -> bool {
        2 <= self.id
    }

    pub fn new() -> (r: RegionNumbers)
        ensures
            r.valid(),
            r.id == 2,
            r.global_id == 1,
    {
        RegionNumbers { id: 2, global_id: 1 }
    }

    /// Enters a region into the map and tells the number under which its points are saved. A
    /// region that is in the map already, or is not large, gets the number 1 and is not saved.
    pub fn assign(&mut self, map: &mut [u8], selected: &[Point]) -> (r: u32)
        requires
            old(self).valid(),
            selected@.len() > 0,
            forall|i: int|
                0 <= i < selected@.len() ==> place_of(#[trigger] selected@[i]) < old(map)@.len(),
            selected@.len() > LARGE_REGION ==> old(self).id < u8::MAX && old(self).global_id < u32::MAX,
        ensures
            final(self).valid(),
            final(map)@.len() == old(map)@.len(),
            if old(map)@[place_of(selected@[0])] != 0 {
                r == 1 && *final(self) == *old(self) && final(map)@ == old(map)@
            } else {
                &&& forall|i: int|
                    0 <= i < final(map)@.len() ==> #[trigger] final(map)@[i] == (if stands_at(selected@, i) {
                        if selected@.len() > LARGE_REGION {
                            final(self).id
                        } else {
                            1
                        }
                    } else {
                        old(map)@[i]
                    })
                &&& if selected@.len() > LARGE_REGION {
                    &&& r == old(self).global_id + 1
                    &&& final(self).global_id == r
                    &&& final(self).id == old(self).id + 1
                } else {
                    r == 1 && *final(self) == *old(self)
                }
            },
    {
        proof {
            lemma_place_fits(selected@[0]);
        }
        assert(place_of(selected@[0]) < map@.len());
        assert(map@.len() == map.len());
        let first: u64 = index_of(selected[0][0], selected[0][1], selected[0][2]);
        if map[first as usize] != 0 {
            return 1;
        }
        let large = selected.len() > LARGE_REGION;
        let number: u8 = if large {
            self.id = self.id + 1;
            self.id
        } else {
            1
        };
        let ghost before = map@;
        let mut k: usize = 0;
        while k < selected.len()
            invariant
                k <= selected@.len(),
                map@.len() == before.len(),
                forall|i: int|
                    0 <= i < selected@.len() ==> place_of(#[trigger] selected@[i]) < before.len(),
                forall|i: int|
                    0 <= i < map@.len() ==> #[trigger] map@[i] == (if stands_at(
                        selected@.take(k as int),
                        i,
                    ) {
                        number
                    } else {
                        before[i]
                    }),
            decreases selected.len() - k,
        {
            let p: Point = selected[k];
            let index: u64 = index_of(p[0], p[1], p[2]);
            proof {
                lemma_place_fits(p);
            }
            assert(selected@[k as int] == p);
            assert(map@.len() == map.len());
            map[index as usize] = number;
            proof {
                let was = selected@.take(k as int);
                assert(selected@.take(k + 1) =~= was.push(p));
                lemma_pushed(was, p);
                assert forall|i: int| #[trigger] stands_at(was.push(p), i) <==> stands_at(was, i) || place_of(
                    p,
                ) == i by {
                    if stands_at(was, i) {
                        let q = choose|q: Point| #[trigger] was.contains(q) && place_of(q) == i;
                        assert(was.push(p).contains(q));
                    }
                    if place_of(p) == i {
                        assert(was.push(p).contains(p));
                    }
                }
            }
            k += 1;
        }
        assert(selected@.take(k as int) =~= selected@);
        if large {
            self.global_id = self.global_id + 1;
            self.global_id
        } else {
            1
        }
    }
}

/// Adds a point at the end.
proof fn lemma_pushed(list: Seq<Point>, q: Point)
    ensures
        forall|r: Point| #[trigger] list.push(q).contains(r) <==> list.contains(r) || r == q,
{
    assert forall|r: Point| #[trigger] list.push(q).contains(r) <==> list.contains(r) || r == q by {
        if list.push(q).contains(r) {
            let k = choose|k: int| 0 <= k < list.push(q).len() && list.push(q)[k] == r;
            if k < list.len() {
                assert(list[k] == r);
            }
        }
        if list.contains(r) {
            let k = choose|k: int| 0 <= k < list.len() && list[k] == r;
            assert(list.push(q)[k] == r);
        }
        assert(list.push(q)[list.len() as int] == q);
    }
}

/// Adds the voxels that share a face with `p`: left and right, above and below, before and behind.
fn push_neighbours(list: &mut Vec<Point>, p: Point)
    ensures
        forall|q: Point| #[trigger]
            final(list)@.contains(q) <==> old(list)@.contains(q) || faces_touch(p, q),
        old(list)@.is_prefix_of(final(list)@),
{
    let ghost start = list@;
    let mut axis: usize = 0;
    while axis < 3
        invariant
            axis <= 3,
            start.is_prefix_of(list@),
            forall|q: Point| #[trigger]
                list@.contains(q) <==> start.contains(q) || (faces_touch(p, q) && exists|a: int|
                    0 <= a < axis && #[trigger] q@[a] != p@[a]),
        decreases 3 - axis,
    {
        let ghost before = list@;
        let ghost mut lower: Option<Point> = None;
        let ghost mut upper: Option<Point> = None;
        if p[axis] > 0 {
            let mut q: Point = p;
            q[axis] = p[axis] - 1;
            proof {
                lower = Some(q);
                lemma_pushed(list@, q);
            }
            list.push(q);
        }
        if p[axis] < u16::MAX {
            let mut q: Point = p;
            q[axis] = p[axis] + 1;
            proof {
                upper = Some(q);
                lemma_pushed(list@, q);
            }
            list.push(q);
        }
        proof {
            assert forall|q: Point| #[trigger] list@.contains(q) <==> start.contains(q) || (faces_touch(
                p,
                q,
            ) && exists|a: int| 0 <= a < axis + 1 && #[trigger] q@[a] != p@[a]) by {
                assert(list@.contains(q) <==> before.contains(q) || (lower is Some && q == lower->0) || (
                upper is Some && q == upper->0));
                if lower is Some {
                    let l = lower->0;
                    assert(l@ =~= p@.update(axis as int, (p@[axis as int] - 1) as u16));
                    assert(faces_touch(p, l) && l@[axis as int] != p@[axis as int]);
                }
                if upper is Some {
                    let u = upper->0;
                    assert(u@ =~= p@.update(axis as int, (p@[axis as int] + 1) as u16));
                    assert(faces_touch(p, u) && u@[axis as int] != p@[axis as int]);
                }
                if faces_touch(p, q) && q@[axis as int] != p@[axis as int] {
                    if q@[axis as int] < p@[axis as int] {
                        assert(q@ =~= lower->0@);
                        assert(q == lower->0);
                    } else {
                        assert(q@ =~= upper->0@);
                        assert(q == upper->0);
                    }
                }
                if faces_touch(p, q) && exists|a: int| 0 <= a < axis && #[trigger] q@[a] != p@[a] {
                    let a = choose|a: int| 0 <= a < axis && #[trigger] q@[a] != p@[a];
                    assert(q@[a] != p@[a]);
                }
            }
        }
        axis += 1;
    }
    assert forall|q: Point| #[trigger] list@.contains(q) <==> start.contains(q) || faces_touch(p, q) by {
        if faces_touch(p, q) {
            if q@[0] != p@[0] {
            } else if q@[1] != p@[1] {
            } else {
                assert(q@[2] != p@[2]);
            }
        }
    }
}

/// Inside a line the next voxel along x, y and z stands 1, 16 and 256 bytes further, the next line
/// 4096, 65536 and 1048576 bytes, and the next page as many pages of 16777216 bytes as there are before
/// it: 1, 32 and 1024.
pub proof fn maps_hold_pages_of_lines(x: int, y: int, z: int)
    requires
        0 <= x < 8192 && 0 <= y < 8192 && 0 <= z < 8192,
    ensures
        map_index(0, 0, 0) == 0,
        x % 16 != 15 ==> map_index(x + 1, y, z) == map_index(x, y, z) + 1,
        y % 16 != 15 ==> map_index(x, y + 1, z) == map_index(x, y, z) + 16,
        z % 16 != 15 ==> map_index(x, y, z + 1) == map_index(x, y, z) + 256,
        x / 16 % 16 != 15 ==> map_index(x + 16, y, z) == map_index(x, y, z) + 4096,
        y / 16 % 16 != 15 ==> map_index(x, y + 16, z) == map_index(x, y, z) + 65536,
        z / 16 % 16 != 15 ==> map_index(x, y, z + 16) == map_index(x, y, z) + 1048576,
        x < 7936 ==> map_index(x + 256, y, z) == map_index(x, y, z) + 16777216,
        y < 7936 ==> map_index(x, y + 256, z) == map_index(x, y, z) + 32 * 16777216,
        z < 7936 ==> map_index(x, y, z + 256) == map_index(x, y, z) + 1024 * 16777216,
{
    lemma_steps_in_x(x, y, z);
    lemma_steps_in_y(x, y, z);
    lemma_steps_in_z(x, y, z);
}

/// How the place of a coordinate in its line, of the line in its page and of the page go on.
proof fn lemma_steps(c: int)
    requires
        0 <= c < 8192,
    ensures
        c % 16 != 15 ==> (c + 1) % 16 == c % 16 + 1 && (c + 1) / 16 == c / 16 && (c + 1) / 256 == c / 256,
        c / 16 % 16 != 15 ==> (c + 16) % 16 == c % 16 && (c + 16) / 16 % 16 == c / 16 % 16 + 1 && (c + 16)
            / 256 == c / 256,
        c < 7936 ==> (c + 256) % 16 == c % 16 && (c + 256) / 16 % 16 == c / 16 % 16 && (c + 256) / 256 % 32
            == c / 256 % 32 + 1,
{
    assert((c + 16) / 16 == c / 16 + 1);
    assert((c + 256) / 16 == c / 16 + 16);
    assert((c + 256) / 256 == c / 256 + 1);
    assert(c / 256 == c / 16 / 16);
    assert((c + 16) / 256 == (c + 16) / 16 / 16);
}

proof fn lemma_steps_in_x(x: int, y: int, z: int)
    requires
        0 <= x < 8192,
    ensures
        x % 16 != 15 ==> map_index(x + 1, y, z) == map_index(x, y, z) + 1,
        x / 16 % 16 != 15 ==> map_index(x + 16, y, z) == map_index(x, y, z) + 4096,
        x < 7936 ==> map_index(x + 256, y, z) == map_index(x, y, z) + 16777216,
{
    lemma_steps(x);
}

proof fn lemma_steps_in_y(x: int, y: int, z: int)
    requires
        0 <= y < 8192,
    ensures
        y % 16 != 15 ==> map_index(x, y + 1, z) == map_index(x, y, z) + 16,
        y / 16 % 16 != 15 ==> map_index(x, y + 16, z) == map_index(x, y, z) + 65536,
        y < 7936 ==> map_index(x, y + 256, z) == map_index(x, y, z) + 32 * 16777216,
{
    lemma_steps(y);
}

proof fn lemma_steps_in_z(x: int, y: int, z: int)
    requires
        0 <= z < 8192,
    ensures
        z % 16 != 15 ==> map_index(x, y, z + 1) == map_index(x, y, z) + 256,
        z / 16 % 16 != 15 ==> map_index(x, y, z + 16) == map_index(x, y, z) + 1048576,
        z < 7936 ==> map_index(x, y, z + 256) == map_index(x, y, z) + 1024 * 16777216,
{
    lemma_steps(z);
}

/// Voxels that share a face lie one step apart along one axis.
pub proof fn touching_voxels_are_one_step_apart(p: Point, q: Point)
    ensures
        faces_touch(p, q) == faces_touch(q, p),
        faces_touch(p, q) <==> ({
            let d = seq![q@[0] - p@[0], q@[1] - p@[1], q@[2] - p@[2]];
            d == seq![1int, 0, 0] || d == seq![-1int, 0, 0] || d == seq![0int, 1, 0] || d == seq![
                0int,
                -1,
                0,
            ] || d == seq![0int, 0, 1] || d == seq![0int, 0, -1]
        }),
{
    let d = seq![q@[0] - p@[0], q@[1] - p@[1], q@[2] - p@[2]];
    assert(d == seq![1int, 0, 0] <==> d[0] == 1 && d[1] == 0 && d[2] == 0) by {
        if d[0] == 1 && d[1] == 0 && d[2] == 0 {
            assert(d =~= seq![1int, 0, 0]);
        }
    }
    assert(d == seq![-1int, 0, 0] <==> d[0] == -1 && d[1] == 0 && d[2] == 0) by {
        if d[0] == -1 && d[1] == 0 && d[2] == 0 {
            assert(d =~= seq![-1int, 0, 0]);
        }
    }
    assert(d == seq![0int, 1, 0] <==> d[0] == 0 && d[1] == 1 && d[2] == 0) by {
        if d[0] == 0 && d[1] == 1 && d[2] == 0 {
            assert(d =~= seq![0int, 1, 0]);
        }
    }
    assert(d == seq![0int, -1, 0] <==> d[0] == 0 && d[1] == -1 && d[2] == 0) by {
        if d[0] == 0 && d[1] == -1 && d[2] == 0 {
            assert(d =~= seq![0int, -1, 0]);
        }
    }
    assert(d == seq![0int, 0, 1] <==> d[0] == 0 && d[1] == 0 && d[2] == 1) by {
        if d[0] == 0 && d[1] == 0 && d[2] == 1 {
            assert(d =~= seq![0int, 0, 1]);
        }
    }
    assert(d == seq![0int, 0, -1] <==> d[0] == 0 && d[1] == 0 && d[2] == -1) by {
        if d[0] == 0 && d[1] == 0 && d[2] == -1 {
            assert(d =~= seq![0int, 0, -1]);
        }
    }
}

/// Regions are made of touching voxels: the start belongs to its own region, and so does every voxel of
/// the value that touches one of the region. All voxels of a region have the value.
pub proof fn regions_grow_over_touching_voxels(field: Field, v: u8, start: Point, p: Point, q: Point)
    requires
        field(start) == Some(v),
    ensures
        same_region(field, v, start, start),
        same_region(field, v, start, p) && faces_touch(p, q) && field(q) == Some(v) ==> same_region(
            field,
            v,
            start,
            q,
        ),
        same_region(field, v, start, p) ==> field(p) == Some(v),
{
    lemma_short_trail(field, v, start);
    if same_region(field, v, start, p) {
        let path = choose|path: Seq<Point>| trail(field, v, path, start, p);
        assert(field(path[path.len() - 1]) == Some(v));
        if faces_touch(p, q) && field(q) == Some(v) {
            let longer = path.push(q);
            assert(trail(field, v, longer, start, q));
        }
    }
}

} // verus!
