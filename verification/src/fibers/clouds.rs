//! Point clouds of single fibres, the cells of space that they touch, and where two of them meet.

use std::collections::{HashMap, HashSet};
use vstd::prelude::*;

verus! {

/// A point of a cloud.
pub type Point = [u16; 3];

/// One number for a point.
pub open spec fn packed(p: Point) -> int {
    p@[0] + p@[1] * 0x1_0000 + p@[2] * 0x1_0000_0000
}

/// Computes [`packed`].
pub fn pack(p: Point) -> (r: u64)
    ensures
        r == packed(p),
        r < 0x1_0000_0000_0000,
{
    p[0] as u64 + p[1] as u64 * 0x1_0000 + p[2] as u64 * 0x1_0000_0000
}

/// Different points have different numbers.
pub proof fn packing_is_one_to_one(a: Point, b: Point)
    requires
        packed(a) == packed(b),
    ensures
        a@ == b@,
        a == b,
{
    assert(a@[2] == b@[2]);
    assert(a@[1] == b@[1]);
    assert(a@ =~= b@);
}

/// The little-endian number in the two bytes at `at`.
pub open spec fn le_u16(bytes: Seq<u8>, at: int) -> int {
    bytes[at] + bytes[at + 1] * 256
}

/// The six bytes of a point in a file.
pub fn point_bytes(p: Point) -> (r: [u8; 6])
    ensures
        forall|i: int| 0 <= i < 3 ==> #[trigger] le_u16(r@, 2 * i) == p@[i],
{
    let r: [u8; 6] = [
        (p[0] % 256) as u8,
        (p[0] / 256) as u8,
        (p[1] % 256) as u8,
        (p[1] / 256) as u8,
        (p[2] % 256) as u8,
        (p[2] / 256) as u8,
    ];
    assert forall|i: int| 0 <= i < 3 implies #[trigger] le_u16(r@, 2 * i) == p@[i] by {
        assert(i == 0 || i == 1 || i == 2);
    }
    r
}

/// A point cloud as it is stored: six bytes for each point.
pub struct PointCloudFile<'a> {
    pub id: u32,
    pub map: &'a [u8],
    pub num_elements: usize,
}

impl<'a> PointCloudFile<'a> {
    /// The number of points fits the bytes.
    pub open spec fn valid(&self) -> bool {
        self.num_elements * 6 <= self.map@.len()
    }

    /// Point `i`.
    pub open spec fn is_point(&self, i: int, p: Point) -> bool {
        &&& p@[0] == le_u16(self.map@, i * 6)
        &&& p@[1] == le_u16(self.map@, i * 6 + 2)
        &&& p@[2] == le_u16(self.map@, i * 6 + 4)
    }

    /// The cloud has the point.
    pub open spec fn has(&self, p: Point) -> bool {
        exists|i: int| 0 <= i < self.num_elements && #[trigger] self.is_point(i, p)
    }

    pub fn new(id: u32, map: &'a [u8]) -> (r: PointCloudFile<'a>)
        ensures
            r.valid(),
            r.id == id,
            r.map@ == map@,
            r.num_elements == map@.len() / 6,
    {
        PointCloudFile { id, map, num_elements: map.len() / 6 }
    }

    pub fn at_idx(&self, idx: usize) -> (p: Point)
        requires
            self.valid(),
            idx < self.num_elements,
        ensures
            self.is_point(idx as int, p),
    {
        assert(idx * 6 + 6 <= self.map.len());
        let at: usize = idx * 6;
        let x: u16 = self.map[at] as u16 + self.map[at + 1] as u16 * 256;
        let y: u16 = self.map[at + 2] as u16 + self.map[at + 3] as u16 * 256;
        let z: u16 = self.map[at + 4] as u16 + self.map[at + 5] as u16 * 256;
        [x, y, z]
    }

    /// All points, in their order.
    pub fn points(&self) -> (r: Vec<Point>)
        requires
            self.valid(),
        ensures
            r@.len() == self.num_elements,
            forall|i: int| 0 <= i < r@.len() ==> self.is_point(i, #[trigger] r@[i]),
    {
        let mut r: Vec<Point> = Vec::new();
        let mut i: usize = 0;
        while i < self.num_elements
            invariant
                self.valid(),
                i <= self.num_elements,
                r@.len() == i,
                forall|k: int| 0 <= k < i ==> self.is_point(k, #[trigger] r@[k]),
            decreases self.num_elements - i,
        {
            r.push(self.at_idx(i));
            i += 1;
        }
        r
    }
}

/// What is written for a point is read back as that point.
pub proof fn stored_points_are_read_back(bytes: Seq<u8>, i: int, p: Point, q: Point, cloud: PointCloudFile<'_>)
    requires
        cloud.valid(),
        0 <= i < cloud.num_elements,
        bytes == cloud.map@.subrange(i * 6, i * 6 + 6),
        forall|k: int| 0 <= k < 3 ==> #[trigger] le_u16(bytes, 2 * k) == p@[k],
        cloud.is_point(i, q),
    ensures
        p == q,
{
    assert(le_u16(bytes, 2 * 0int) == p@[0]);
    assert(le_u16(bytes, 2 * 1int) == p@[1]);
    assert(le_u16(bytes, 2 * 2int) == p@[2]);
    assert(p@ =~= q@);
}

/// The cell of 32 by 32 by 32 that a point lies in, or that it lies in when all cells are moved by
/// `shift`.
pub open spec fn cell_of(p: Point, shift: int) -> (int, int, int) {
    (
        p@[0] as int / 32 * 32 + shift,
        p@[1] as int / 32 * 32 + shift,
        p@[2] as int / 32 * 32 + shift,
    )
}

/// The number of a cell.
pub open spec fn cell_number(cell: (int, int, int)) -> int {
    cell.0 + cell.1 * 0x1_0000 + cell.2 * 0x1_0000_0000
}

/// The cloud has a point in the cell with this number.
pub open spec fn reaches(cloud: PointCloudFile<'_>, n: int, cell: u64) -> bool {
    exists|i: int, p: Point|
        0 <= i < n && #[trigger] cloud.is_point(i, p) && (cell_number(cell_of(p, 0)) == cell
            || cell_number(cell_of(p, 16)) == cell)
}

/// The ids of those of the first `n` clouds that have a point in a cell.
pub open spec fn ids_in(clouds: Seq<PointCloudFile<'_>>, n: int, cell: u64) -> Seq<u32>
    decreases n,
{
    if n <= 0 {
        Seq::empty()
    } else if reaches(clouds[n - 1], clouds[n - 1].num_elements as int, cell) {
        ids_in(clouds, n - 1, cell).push(clouds[n - 1].id)
    } else {
        ids_in(clouds, n - 1, cell)
    }
}

/// What the grid lists for a cell. A cell that no cloud reaches has no entry.
pub open spec fn listed(grid: Map<u64, Vec<u32>>, cell: u64) -> Seq<u32> {
    if grid.contains_key(cell) {
        grid[cell]@
    } else {
        Seq::empty()
    }
}

/// Clouds, and for each cell of space the ids of the clouds that touch it.
pub struct PointCloudCollection<'a> {
    pub clouds: Vec<PointCloudFile<'a>>,
    pub grid: HashMap<u64, Vec<u32>>,
}

/// No two clouds have the same id.
pub open spec fn ids_differ(clouds: Seq<PointCloudFile<'_>>) -> bool {
    forall|i: int, j: int| 0 <= i < j < clouds.len() ==> (#[trigger] clouds[i]).id != (#[trigger] clouds[j]).id
}

fn cell_key(p: Point, shift: u16) -> (r: u64)
    requires
        shift == 0 || shift == 16,
    ensures
        r == cell_number(cell_of(p, shift as int)),
{
    let x: u64 = p[0] as u64 / 32 * 32 + shift as u64;
    let y: u64 = p[1] as u64 / 32 * 32 + shift as u64;
    let z: u64 = p[2] as u64 / 32 * 32 + shift as u64;
    x + y * 0x1_0000 + z * 0x1_0000_0000
}

/// Adds an id to a cell unless it is the last one there.
fn enter(grid: &mut HashMap<u64, Vec<u32>>, cell: u64, id: u32)
    ensures
        forall|c: u64|
            #![trigger listed(final(grid)@, c)]
            listed(final(grid)@, c) == (if c == cell && !(listed(old(grid)@, c).len() > 0 && listed(
                old(grid)@,
                c,
            ).last() == id) {
                listed(old(grid)@, c).push(id)
            } else {
                listed(old(grid)@, c)
            }),
        forall|c: u64| #[trigger]
            final(grid)@.contains_key(c) <==> old(grid)@.contains_key(c) || c == cell,
{
    broadcast use vstd::std_specs::hash::group_hash_axioms;

    let ghost before = grid@;
    let mut ids: Vec<u32> = Vec::new();
    if let Some(present) = grid.get(&cell) {
        let mut i: usize = 0;
        while i < present.len()
            invariant
                i <= present@.len(),
                ids@ == present@.take(i as int),
            decreases present@.len() - i,
        {
            ids.push(present[i]);
            i += 1;
            assert(ids@ =~= present@.take(i as int));
        }
        assert(present@.take(i as int) =~= present@);
    }
    assert(ids@ =~= listed(before, cell));
    if ids.len() == 0 || ids[ids.len() - 1] != id {
        ids.push(id);
    }
    grid.insert(cell, ids);
}

/// The ids of a cell while cloud `n` is being entered, of which `i` points have been.
spec fn partly(clouds: Seq<PointCloudFile<'_>>, n: int, i: int, cell: u64) -> Seq<u32> {
    if reaches(clouds[n], i, cell) {
        ids_in(clouds, n, cell).push(clouds[n].id)
    } else {
        ids_in(clouds, n, cell)
    }
}

proof fn lemma_ids_are_of_clouds(clouds: Seq<PointCloudFile<'_>>, n: int, cell: u64, k: int)
    requires
        0 <= n <= clouds.len(),
        0 <= k < ids_in(clouds, n, cell).len(),
    ensures
        exists|i: int| 0 <= i < n && #[trigger] clouds[i].id == ids_in(clouds, n, cell)[k],
    decreases n,
{
    if n > 0 {
        let rest = ids_in(clouds, n - 1, cell);
        if k < rest.len() {
            lemma_ids_are_of_clouds(clouds, n - 1, cell, k);
        } else {
            assert(clouds[n - 1].id == ids_in(clouds, n, cell)[k]);
        }
    }
}

impl<'a> PointCloudCollection<'a> {
    /// The collection of some clouds.
    pub fn from_clouds(clouds: Vec<PointCloudFile<'a>>) -> (r: PointCloudCollection<'a>)
        requires
            ids_differ(clouds@),
            forall|i: int| 0 <= i < clouds@.len() ==> (#[trigger] clouds@[i]).valid(),
        ensures
            r.clouds == clouds,
            forall|cell: u64| #[trigger]
                listed(r.grid@, cell) == ids_in(clouds@, clouds@.len() as int, cell),
            forall|cell: u64| #[trigger]
                r.grid@.contains_key(cell) <==> ids_in(clouds@, clouds@.len() as int, cell).len() > 0,
    {
        let mut grid: HashMap<u64, Vec<u32>> = HashMap::new();
        let mut n: usize = 0;
        while n < clouds.len()
            invariant
                n <= clouds@.len(),
                ids_differ(clouds@),
                forall|i: int| 0 <= i < clouds@.len() ==> (#[trigger] clouds@[i]).valid(),
                forall|cell: u64| #[trigger] listed(grid@, cell) == ids_in(clouds@, n as int, cell),
                forall|cell: u64| #[trigger]
                    grid@.contains_key(cell) <==> ids_in(clouds@, n as int, cell).len() > 0,
            decreases clouds@.len() - n,
        {
            let cloud: &PointCloudFile<'a> = &clouds[n];
            let mut i: usize = 0;
            while i < cloud.num_elements
                invariant
                    n < clouds@.len(),
                    *cloud == clouds@[n as int],
                    ids_differ(clouds@),
                    cloud.valid(),
                    i <= cloud.num_elements,
                    forall|cell: u64| #[trigger]
                        listed(grid@, cell) == partly(clouds@, n as int, i as int, cell),
                    forall|cell: u64| #[trigger]
                        grid@.contains_key(cell) <==> partly(clouds@, n as int, i as int, cell).len() > 0,
                decreases cloud.num_elements - i,
            {
                let p = cloud.at_idx(i);
                let first: u64 = cell_key(p, 0);
                let second: u64 = cell_key(p, 16);
                let ghost before = grid@;
                enter(&mut grid, first, cloud.id);
                enter(&mut grid, second, cloud.id);
                proof {
                    assert forall|cell: u64| reaches(*cloud, i + 1, cell) <==> (reaches(
                        *cloud,
                        i as int,
                        cell,
                    ) || cell == first || cell == second) by {
                        if reaches(*cloud, i + 1, cell) {
                            let (k, q) = choose|k: int, q: Point|
                                0 <= k < i + 1 && #[trigger] cloud.is_point(k, q) && (cell_number(
                                    cell_of(q, 0),
                                ) == cell || cell_number(cell_of(q, 16)) == cell);
                            if k == i {
                                assert(p@ =~= q@);
                            }
                        }
                        if cell == first || cell == second {
                            assert(cloud.is_point(i as int, p));
                        }
                        if reaches(*cloud, i as int, cell) {
                            let (k, q) = choose|k: int, q: Point|
                                0 <= k < i && #[trigger] cloud.is_point(k, q) && (cell_number(
                                    cell_of(q, 0),
                                ) == cell || cell_number(cell_of(q, 16)) == cell);
                            assert(cloud.is_point(k, q));
                        }
                    }
                    assert forall|cell: u64| #[trigger] listed(grid@, cell) == partly(
                        clouds@,
                        n as int,
                        i + 1,
                        cell,
                    ) by {
                        let was = listed(before, cell);
                        assert(was == partly(clouds@, n as int, i as int, cell));
                        let earlier = ids_in(clouds@, n as int, cell);
                        if earlier.len() > 0 {
                            lemma_ids_are_of_clouds(clouds@, n as int, cell, earlier.len() - 1);
                        }
                        assert(reaches(*cloud, i + 1, cell) <==> (reaches(*cloud, i as int, cell) || cell
                            == first || cell == second));
                    }
                    assert forall|cell: u64| #[trigger] grid@.contains_key(cell) <==> partly(
                        clouds@,
                        n as int,
                        i + 1,
                        cell,
                    ).len() > 0 by {
                        assert(before.contains_key(cell) <==> partly(
                            clouds@,
                            n as int,
                            i as int,
                            cell,
                        ).len() > 0);
                        assert(reaches(*cloud, i + 1, cell) <==> (reaches(*cloud, i as int, cell) || cell
                            == first || cell == second));
                    }
                }
                i += 1;
            }
            n += 1;
        }
        PointCloudCollection { clouds, grid }
    }

    /// The cloud with an id.
    pub fn cloud(&self, id: u32) -> (r: Option<&PointCloudFile<'a>>)
        ensures
            match r {
                Some(c) => c.id == id && self.clouds@.contains(*c),
                None => forall|i: int| 0 <= i < self.clouds@.len() ==> (#[trigger] self.clouds@[i]).id != id,
            },
    {
        let mut i: usize = 0;
        while i < self.clouds.len()
            invariant
                i <= self.clouds@.len(),
                forall|k: int| 0 <= k < i ==> (#[trigger] self.clouds@[k]).id != id,
            decreases self.clouds@.len() - i,
        {
            if self.clouds[i].id == id {
                return Some(&self.clouds[i]);
            }
            i += 1;
        }
        None
    }
}

/// The points are those that both clouds have, each once.
pub open spec fn common_points(a: PointCloudFile<'_>, b: PointCloudFile<'_>, points: Seq<Point>) -> bool {
    &&& points.no_duplicates()
    &&& forall|p: Point| #[trigger] points.contains(p) <==> a.has(p) && b.has(p)
}

/// The sum of a coordinate of some points.
pub open spec fn sum_of(points: Seq<Point>, axis: int) -> int
    decreases points.len(),
{
    if points.len() == 0 {
        0
    } else {
        sum_of(points.drop_last(), axis) + points.last()@[axis]
    }
}

/// A coordinate of the middle of some points, rounded down.
pub open spec fn middle_of(points: Seq<Point>, axis: int) -> int {
    sum_of(points, axis) / (points.len() as int)
}

pub open spec fn difference(a: int, b: int) -> int {
    if a < b {
        b - a
    } else {
        a - b
    }
}

/// How far a point is from the middle of some points, along the axes.
pub open spec fn off_middle(points: Seq<Point>, p: Point) -> int {
    difference(p@[0] as int, middle_of(points, 0)) + difference(p@[1] as int, middle_of(points, 1))
        + difference(p@[2] as int, middle_of(points, 2))
}

/// `p` is one of the points, and none is closer to their middle.
pub open spec fn is_medoid(points: Seq<Point>, p: Point) -> bool {
    &&& points.contains(p)
    &&& forall|q: Point| #[trigger] points.contains(q) ==> off_middle(points, p) <= off_middle(points, q)
}

proof fn lemma_sum_bound(points: Seq<Point>, axis: int)
    requires
        0 <= axis < 3,
    ensures
        0 <= sum_of(points, axis) <= points.len() * 0xffff,
    decreases points.len(),
{
    if points.len() > 0 {
        lemma_sum_bound(points.drop_last(), axis);
    }
}

/// A coordinate of the middle of some points.
fn middle(points: &Vec<Point>, axis: usize) -> (r: i64)
    requires
        points@.len() > 0,
        axis < 3,
    ensures
        r == middle_of(points@, axis as int),
        0 <= r <= 0xffff,
{
    let mut sum: u128 = 0;
    let mut i: usize = 0;
    while i < points.len()
        invariant
            i <= points@.len(),
            axis < 3,
            sum == sum_of(points@.take(i as int), axis as int),
        decreases points@.len() - i,
    {
        proof {
            assert(points@.take(i + 1).drop_last() =~= points@.take(i as int));
            assert(points@.take(i + 1).last() == points@[i as int]);
            lemma_sum_bound(points@.take(i as int), axis as int);
            assert(points.len() <= 0xffff_ffff_ffff_ffff);
        }
        sum = sum + points[i][axis] as u128;
        i += 1;
    }
    proof {
        assert(points@.take(i as int) =~= points@);
        lemma_sum_bound(points@, axis as int);
        let n = points@.len() as int;
        assert(0 <= sum as int / n <= 0xffff) by (nonlinear_arith)
            requires
                0 <= sum as int <= n * 0xffff,
                n > 0,
        ;
    }
    (sum / points.len() as u128) as i64
}

fn apart(a: u16, b: i64) -> (r: i64)
    requires
        0 <= b <= 0xffff,
    ensures
        r == difference(a as int, b as int),
        0 <= r <= 0xffff,
{
    if (a as i64) < b {
        b - a as i64
    } else {
        a as i64 - b
    }
}

/// The points that two clouds have in common.
fn intersection(a: &PointCloudFile<'_>, b: &PointCloudFile<'_>) -> (r: Vec<Point>)
    requires
        a.valid(),
        b.valid(),
    ensures
        common_points(*a, *b, r@),
{
    broadcast use vstd::std_specs::hash::group_hash_axioms;

    let mut first: HashSet<u64> = HashSet::new();
    let mut i: usize = 0;
    while i < a.num_elements
        invariant
            a.valid(),
            i <= a.num_elements,
            forall|k: u64| #[trigger]
                first@.contains(k) <==> exists|j: int, p: Point|
                    0 <= j < i && #[trigger] a.is_point(j, p) && packed(p) == k,
        decreases a.num_elements - i,
    {
        let p = a.at_idx(i);
        let key: u64 = pack(p);
        let ghost before = first@;
        first.insert(key);
        proof {
            assert forall|k: u64| #[trigger] first@.contains(k) <==> exists|j: int, q: Point|
                0 <= j < i + 1 && #[trigger] a.is_point(j, q) && packed(q) == k by {
                assert(a.is_point(i as int, p));
                if exists|j: int, q: Point| 0 <= j < i + 1 && #[trigger] a.is_point(j, q) && packed(q) == k {
                    let (j, q) = choose|j: int, q: Point|
                        0 <= j < i + 1 && #[trigger] a.is_point(j, q) && packed(q) == k;
                    if j == i {
                        assert(p@ =~= q@);
                    }
                }
                if before.contains(k) {
                    let (j, q) = choose|j: int, q: Point|
                        0 <= j < i && #[trigger] a.is_point(j, q) && packed(q) == k;
                    assert(a.is_point(j, q));
                }
            }
        }
        i += 1;
    }
    assert forall|p: Point| first@.contains(packed(p) as u64) <==> #[trigger] a.has(p) by {
        let k = packed(p) as u64;
        assert(packed(p) == k);
        if first@.contains(k) {
            let (j, q) = choose|j: int, q: Point|
                0 <= j < i && #[trigger] a.is_point(j, q) && packed(q) == k;
            packing_is_one_to_one(p, q);
        }
        if a.has(p) {
            let j = choose|j: int| 0 <= j < a.num_elements && #[trigger] a.is_point(j, p);
            assert(a.is_point(j, p));
        }
    }
    let mut seen: HashSet<u64> = HashSet::new();
    let mut r: Vec<Point> = Vec::new();
    let mut n: usize = 0;
    while n < b.num_elements
        invariant
            b.valid(),
            n <= b.num_elements,
            forall|p: Point| first@.contains(packed(p) as u64) <==> #[trigger] a.has(p),
            r@.no_duplicates(),
            forall|p: Point| #[trigger]
                r@.contains(p) <==> a.has(p) && exists|j: int|
                    0 <= j < n && #[trigger] b.is_point(j, p),
            forall|p: Point| seen@.contains(packed(p) as u64) <==> #[trigger] r@.contains(p),
        decreases b.num_elements - n,
    {
        let p = b.at_idx(n);
        let key: u64 = pack(p);
        let ghost before = r@;
        let ghost seen_before = seen@;
        assert(first@.contains(key) <==> a.has(p));
        assert(seen@.contains(key) <==> r@.contains(p));
        if first.contains(&key) && !seen.contains(&key) {
            seen.insert(key);
            r.push(p);
            proof {
                assert forall|q: Point| #[trigger] r@.contains(q) <==> before.contains(q) || q == p by {
                    if r@.contains(q) && q != p {
                        let k = choose|k: int| 0 <= k < r@.len() && r@[k] == q;
                        assert(before[k] == q);
                    }
                    if before.contains(q) {
                        let k = choose|k: int| 0 <= k < before.len() && before[k] == q;
                        assert(r@[k] == q);
                    }
                    if q == p {
                        assert(r@[before.len() as int] == p);
                    }
                }
                assert forall|q: Point| seen@.contains(packed(q) as u64) <==> #[trigger] r@.contains(q) by {
                    assert(before.contains(q) <==> seen_before.contains(packed(q) as u64));
                    if packed(q) as u64 == key {
                        packing_is_one_to_one(q, p);
                    }
                }
            }
        }
        proof {
            assert forall|q: Point| #[trigger] r@.contains(q) <==> a.has(q) && exists|j: int|
                0 <= j < n + 1 && #[trigger] b.is_point(j, q) by {
                assert(before.contains(q) <==> a.has(q) && exists|j: int|
                    0 <= j < n && #[trigger] b.is_point(j, q));
                if q == p {
                    assert(b.is_point(n as int, q));
                }
                if exists|j: int| 0 <= j < n + 1 && #[trigger] b.is_point(j, q) {
                    let j = choose|j: int| 0 <= j < n + 1 && #[trigger] b.is_point(j, q);
                    if j == n {
                        assert(p@ =~= q@);
                        assert(p == q);
                    }
                }
            }
        }
        n += 1;
    }
    r
}

/// `p` is as close as possible to the middle of the points that two clouds have in common.
pub open spec fn meet_at(a: PointCloudFile<'_>, b: PointCloudFile<'_>, p: Point) -> bool {
    exists|points: Seq<Point>| #[trigger] common_points(a, b, points) && is_medoid(points, p)
}

/// A point that two clouds have in common, as close as possible to the middle of all such points;
/// `None` if there is none. Of points that are equally close any may be chosen.
pub fn collide(cloud1: &PointCloudFile<'_>, cloud2: &PointCloudFile<'_>) -> (r: Option<Point>)
    requires
        cloud1.valid(),
        cloud2.valid(),
    ensures
        match r {
            Some(p) => meet_at(*cloud1, *cloud2, p),
            None => forall|p: Point| !(#[trigger] cloud1.has(p) && cloud2.has(p)),
        },
{
    let points = intersection(cloud1, cloud2);
    if points.len() == 0 {
        assert forall|p: Point| !(#[trigger] cloud1.has(p) && cloud2.has(p)) by {
            assert(!points@.contains(p));
        }
        return None;
    }
    let cx: i64 = middle(&points, 0);
    let cy: i64 = middle(&points, 1);
    let cz: i64 = middle(&points, 2);
    let mut best: usize = 0;
    let mut best_distance: i64 = apart(points[0][0], cx) + apart(points[0][1], cy) + apart(
        points[0][2],
        cz,
    );
    let mut i: usize = 1;
    while i < points.len()
        invariant
            1 <= i <= points@.len(),
            best < i,
            cx == middle_of(points@, 0) && cy == middle_of(points@, 1) && cz == middle_of(points@, 2),
            0 <= cx <= 0xffff && 0 <= cy <= 0xffff && 0 <= cz <= 0xffff,
            best_distance == off_middle(points@, points@[best as int]),
            forall|k: int|
                0 <= k < i ==> best_distance <= off_middle(points@, #[trigger] points@[k]),
        decreases points@.len() - i,
    {
        let d: i64 = apart(points[i][0], cx) + apart(points[i][1], cy) + apart(points[i][2], cz);
        if d < best_distance {
            best = i;
            best_distance = d;
        }
        i += 1;
    }
    let medoid: Point = points[best];
    proof {
        let p = medoid;
        assert(p == points@[best as int]);
        assert forall|q: Point| #[trigger] points@.contains(q) implies off_middle(points@, p)
            <= off_middle(points@, q) by {
            let k = choose|k: int| 0 <= k < points@.len() && points@[k] == q;
            assert(best_distance <= off_middle(points@, points@[k]));
        }
        assert(points@.contains(p));
        assert(common_points(*cloud1, *cloud2, points@));
        assert(is_medoid(points@, p));
        assert(meet_at(*cloud1, *cloud2, p));
    }
    Some(medoid)
}

/// The number of a point has the coordinates in 16 bits each, the one of x lowest. A point of a file is
/// six bytes, with the coordinates in their order.
pub proof fn points_have_sixteen_bits_each(p: Point, cloud: PointCloudFile<'_>, i: int)
    requires
        cloud.valid(),
        0 <= i < cloud.num_elements,
    ensures
        packed(p) % 0x1_0000 == p@[0],
        packed(p) / 0x1_0000 % 0x1_0000 == p@[1],
        packed(p) / 0x1_0000_0000 == p@[2],
        cloud.is_point(i, p) ==> cloud.map@.subrange(6 * i, 6 * i + 6) == seq![
            (p@[0] % 256) as u8,
            (p@[0] / 256) as u8,
            (p@[1] % 256) as u8,
            (p@[1] / 256) as u8,
            (p@[2] % 256) as u8,
            (p@[2] / 256) as u8,
        ],
{
    if cloud.is_point(i, p) {
        let at = 6 * i;
        let six = cloud.map@.subrange(at, at + 6);
        assert(six[0] == cloud.map@[at] && six[1] == cloud.map@[at + 1] && six[2] == cloud.map@[at + 2]
            && six[3] == cloud.map@[at + 3] && six[4] == cloud.map@[at + 4] && six[5] == cloud.map@[at
            + 5]);
        assert(six =~= seq![
            (p@[0] % 256) as u8,
            (p@[0] / 256) as u8,
            (p@[1] % 256) as u8,
            (p@[1] / 256) as u8,
            (p@[2] % 256) as u8,
            (p@[2] / 256) as u8,
        ]);
    }
}

/// A point lies in its cell, which is a cube of 32 along each side; the cells that are moved are moved
/// alike along all axes. Cells have numbers like points.
pub proof fn points_lie_in_their_cells(p: Point, shift: int)
    ensures
        cell_of(p, 0).0 <= p@[0] < cell_of(p, 0).0 + 32,
        cell_of(p, 0).1 <= p@[1] < cell_of(p, 0).1 + 32,
        cell_of(p, 0).2 <= p@[2] < cell_of(p, 0).2 + 32,
        cell_of(p, 0).0 % 32 == 0 && cell_of(p, 0).1 % 32 == 0 && cell_of(p, 0).2 % 32 == 0,
        cell_of(p, shift) == (
            cell_of(p, 0).0 + shift,
            cell_of(p, 0).1 + shift,
            cell_of(p, 0).2 + shift,
        ),
        cell_number(cell_of(p, 0)) % 0x1_0000 == cell_of(p, 0).0,
        cell_number(cell_of(p, 0)) / 0x1_0000 % 0x1_0000 == cell_of(p, 0).1,
        cell_number(cell_of(p, 0)) / 0x1_0000_0000 == cell_of(p, 0).2,
{
}

/// A cell lists a cloud exactly if one of its points lies there, by the plain cells or by the moved
/// ones, and the clouds come in their order.
pub proof fn cells_list_their_clouds(clouds: Seq<PointCloudFile<'_>>, n: int, cell: u64, k: int)
    requires
        0 <= k < n <= clouds.len(),
    ensures
        ids_in(clouds, 0, cell).len() == 0,
        ({
            let before = ids_in(clouds, k, cell).len() as int;
            let all = ids_in(clouds, n, cell);
            let there = exists|i: int, p: Point|
                0 <= i < clouds[k].num_elements && #[trigger] clouds[k].is_point(i, p) && (cell_number(
                    cell_of(p, 0),
                ) == cell || cell_number(cell_of(p, 16)) == cell);
            &&& before <= all.len()
            &&& there ==> before < all.len() && all[before] == clouds[k].id
            &&& k + 1 == n ==> all.len() == before + (if there {
                1int
            } else {
                0
            })
        }),
    decreases n,
{
    if k + 1 < n {
        cells_list_their_clouds(clouds, n - 1, cell, k);
    }
}

/// The middle of some points is their mean, rounded down: the sum goes over all points, however they
/// are parted.
pub proof fn the_middle_is_the_mean(a: Seq<Point>, b: Seq<Point>, p: Point, axis: int)
    requires
        a.len() > 0,
    ensures
        sum_of(seq![p], axis) == p@[axis],
        sum_of(a + b, axis) == sum_of(a, axis) + sum_of(b, axis),
        middle_of(a, axis) * a.len() <= sum_of(a, axis) < (middle_of(a, axis) + 1) * a.len(),
    decreases b.len(),
{
    let one = seq![p];
    assert(one.drop_last() =~= Seq::<Point>::empty());
    assert(sum_of(one.drop_last(), axis) == 0);
    if b.len() == 0 {
        assert(a + b =~= a);
    } else {
        the_middle_is_the_mean(a, b.drop_last(), p, axis);
        assert((a + b).drop_last() =~= a + b.drop_last());
    }
    let (s, n) = (sum_of(a, axis), a.len() as int);
    vstd::arithmetic::div_mod::lemma_fundamental_div_mod(s, n);
    vstd::arithmetic::div_mod::lemma_mod_bound(s, n);
    let q = s / n;
    assert(n * q == q * n && (q + 1) * n == q * n + n) by (nonlinear_arith);
}

/// How far a point is off the middle is counted along the axes, to either side alike.
pub proof fn both_sides_count_alike(points: Seq<Point>, p: Point, a: int, d: int)
    ensures
        d >= 0 ==> difference(a + d, a) == d && difference(a, a + d) == d,
        off_middle(points, p) >= 0,
        off_middle(points, p) == 0 <==> p@[0] == middle_of(points, 0) && p@[1] == middle_of(points, 1)
            && p@[2] == middle_of(points, 2),
        off_middle(points, p) == difference(p@[0] as int, middle_of(points, 0)) + difference(
            p@[1] as int,
            middle_of(points, 1),
        ) + difference(p@[2] as int, middle_of(points, 2)),
{
}

} // verus!
