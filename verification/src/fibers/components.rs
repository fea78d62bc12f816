//! Labelling of the voxels of one class by a single raster scan.
//!
//! Every voxel of the class takes over the label of a neighbour that the scan has already passed
//! (to the left, above, below the current layer). Where such neighbours carry different labels,
//! the larger ones become aliases of the smallest. Afterwards each label is replaced by the label
//! at the end of its chain of aliases.

use crate::grid::{cells3, flat3, index3, lemma_flat3_bound, lemma_flat3_injective};
use vstd::prelude::*;

verus! {

/// A voxel position: column, row and layer.
pub type Voxel = (int, int, int);

/// The voxels to label: `size` is the number of columns, rows and layers.
pub struct Region<'a> {
    pub size: [usize; 3],
    pub voxels: &'a [u8],
}

impl<'a> Region<'a> {
    pub open spec fn width(&self) -> int {
        self.size@[0] as int
    }

    pub open spec fn height(&self) -> int {
        self.size@[1] as int
    }

    pub open spec fn depth(&self) -> int {
        self.size@[2] as int
    }

    /// One value for each voxel, and room in memory for the labels, which have one more column,
    /// row and layer than the voxels.
    pub open spec fn valid(&self) -> bool {
        &&& self.voxels@.len() == cells3(self.width(), self.height(), self.depth())
        &&& self.voxels@.len() <= usize::MAX
        &&& cells3(self.width() + 1, self.height() + 1, self.depth() + 1) <= usize::MAX
    }

    pub open spec fn contains(&self, p: Voxel) -> bool {
        &&& 0 <= p.0 < self.width()
        &&& 0 <= p.1 < self.height()
        &&& 0 <= p.2 < self.depth()
    }

    /// The voxel has the class that is being labelled.
    pub open spec fn hit(&self, target_class: u8, p: Voxel) -> bool {
        self.contains(p) && self.voxels@[flat3(self.width(), self.height(), p.0, p.1, p.2)]
            == target_class
    }

    /// Where the label of a voxel stands. Position 0 of each axis belongs to no voxel.
    pub open spec fn label_index(&self, p: Voxel) -> int {
        flat3(self.width() + 1, self.height() + 1, p.0 + 1, p.1 + 1, p.2 + 1)
    }
}

/// What the scan knows: a label for each position (0 for none), the next free label, for each
/// label another one that it is an alias of (0 for none), and the voxel that a label was made for.
pub struct Labels {
    pub ids: Seq<int>,
    pub next_id: int,
    pub aliases: Seq<int>,
    pub first: Seq<Voxel>,
}

/// The smaller of two labels, of which 0 is none.
pub open spec fn least_label(a: int, b: int) -> int {
    if a == 0 || (b != 0 && b < a) {
        b
    } else {
        a
    }
}

/// Makes `id` an alias of `target`, unless there is nothing to say.
pub open spec fn with_alias(aliases: Seq<int>, id: int, target: int) -> Seq<int> {
    if id == 0 || id == target {
        aliases
    } else {
        aliases.update(id, target)
    }
}

/// The label that a voxel takes when its neighbours are labelled with `nx`, `ny` and `nz`.
pub open spec fn merged_label(aliases: Seq<int>, nx: int, ny: int, nz: int) -> int {
    let least = least_label(least_label(nx, ny), nz);
    let single = (nx == 0 || nx == least) && (ny == 0 || ny == least) && (nz == 0 || nz == least);
    if !single && aliases[least] != 0 {
        aliases[least]
    } else {
        least
    }
}

/// The scan's state after it has looked at voxel `p`.
pub open spec fn visit(crop: Region<'_>, target_class: u8, labels: Labels, p: Voxel) -> Labels {
    let at = crop.label_index(p);
    let nx = labels.ids[crop.label_index((p.0 - 1, p.1, p.2))];
    let ny = labels.ids[crop.label_index((p.0, p.1 - 1, p.2))];
    let nz = labels.ids[crop.label_index((p.0, p.1, p.2 - 1))];
    if !crop.hit(target_class, p) {
        labels
    } else if nx == 0 && ny == 0 && nz == 0 {
        Labels {
            ids: labels.ids.update(at, labels.next_id),
            next_id: labels.next_id + 1,
            aliases: labels.aliases.push(0),
            first: labels.first.push(p),
        }
    } else {
        let label = merged_label(labels.aliases, nx, ny, nz);
        Labels {
            ids: labels.ids.update(at, label),
            aliases: with_alias(
                with_alias(with_alias(labels.aliases, nx, label), ny, label),
                nz,
                label,
            ),
            ..labels
        }
    }
}

/// The state before the scan.
pub open spec fn no_labels(crop: Region<'_>) -> Labels {
    Labels {
        ids: Seq::new(
            cells3(crop.width() + 1, crop.height() + 1, crop.depth() + 1) as nat,
            |i: int| 0int,
        ),
        next_id: 1,
        aliases: seq![0int],
        first: seq![(0int, 0int, 0int)],
    }
}

/// The state when `z` layers, `y` rows of the next layer and `x` voxels of the next row have been
/// scanned.
pub open spec fn scanned(crop: Region<'_>, target_class: u8, z: int, y: int, x: int) -> Labels
    decreases z, y, x,
{
    if x > 0 {
        visit(crop, target_class, scanned(crop, target_class, z, y, x - 1), (x - 1, y, z))
    } else if y > 0 {
        scanned(crop, target_class, z, y - 1, crop.width())
    } else if z > 0 {
        scanned(crop, target_class, z - 1, crop.height(), 0)
    } else {
        no_labels(crop)
    }
}

/// The state after the scan.
pub open spec fn all_scanned(crop: Region<'_>, target_class: u8) -> Labels {
    scanned(crop, target_class, crop.depth(), 0, 0)
}

/// The end of the chain of aliases that starts at `id`.
pub open spec fn root(aliases: Seq<int>, id: int) -> int
    decreases id,
{
    if 0 < aliases[id] < id {
        root(aliases, aliases[id])
    } else {
        id
    }
}

/// The label that a voxel ends up with: 0 for a voxel of another class.
pub open spec fn final_label(crop: Region<'_>, target_class: u8, p: Voxel) -> int {
    let labels = all_scanned(crop, target_class);
    root(labels.aliases, labels.ids[crop.label_index(p)])
}

/// Two voxels that share a face.
pub open spec fn adjacent(p: Voxel, q: Voxel) -> bool {
    let dx = if p.0 < q.0 { q.0 - p.0 } else { p.0 - q.0 };
    let dy = if p.1 < q.1 { q.1 - p.1 } else { p.1 - q.1 };
    let dz = if p.2 < q.2 { q.2 - p.2 } else { p.2 - q.2 };
    dx + dy + dz == 1
}

/// A walk from face to face through voxels of the class.
pub open spec fn walk(crop: Region<'_>, target_class: u8, path: Seq<Voxel>, p: Voxel, q: Voxel) -> bool {
    &&& path.len() > 0
    &&& path[0] == p
    &&& path[path.len() - 1] == q
    &&& forall|i: int| 0 <= i < path.len() ==> crop.hit(target_class, #[trigger] path[i])
    &&& forall|i: int, j: int|
        0 <= i < path.len() && j == i + 1 && j < path.len() ==> adjacent(
            #[trigger] path[i],
            #[trigger] path[j],
        )
}

/// Some walk leads from `p` to `q`.
pub open spec fn connected(crop: Region<'_>, target_class: u8, p: Voxel, q: Voxel) -> bool {
    exists|path: Seq<Voxel>| walk(crop, target_class, path, p, q)
}

proof fn lemma_connected_self(crop: Region<'_>, target_class: u8, p: Voxel)
    requires
        crop.hit(target_class, p),
    ensures
        connected(crop, target_class, p, p),
{
    assert(walk(crop, target_class, seq![p], p, p));
}

proof fn lemma_connected_adjacent(crop: Region<'_>, target_class: u8, p: Voxel, q: Voxel)
    requires
        crop.hit(target_class, p),
        crop.hit(target_class, q),
        adjacent(p, q),
    ensures
        connected(crop, target_class, p, q),
{
    assert(walk(crop, target_class, seq![p, q], p, q));
}

proof fn lemma_connected_symmetric(crop: Region<'_>, target_class: u8, p: Voxel, q: Voxel)
    requires
        connected(crop, target_class, p, q),
    ensures
        connected(crop, target_class, q, p),
{
    let path = choose|path: Seq<Voxel>| walk(crop, target_class, path, p, q);
    let n = path.len();
    let back = Seq::new(n, |i: int| path[n - 1 - i]);
    assert forall|i: int, j: int| 0 <= i < n && j == i + 1 && j < n implies adjacent(
        #[trigger] back[i],
        #[trigger] back[j],
    ) by {
        assert(adjacent(path[n - 1 - j], path[n - 1 - i]));
    }
    assert(walk(crop, target_class, back, q, p));
}

proof fn lemma_connected_transitive(crop: Region<'_>, target_class: u8, p: Voxel, q: Voxel, r: Voxel)
    requires
        connected(crop, target_class, p, q),
        connected(crop, target_class, q, r),
    ensures
        connected(crop, target_class, p, r),
{
    let a = choose|path: Seq<Voxel>| walk(crop, target_class, path, p, q);
    let b = choose|path: Seq<Voxel>| walk(crop, target_class, path, q, r);
    let tail = b.subrange(1, b.len() as int);
    let path = a + tail;
    assert forall|i: int, j: int| 0 <= i < path.len() && j == i + 1 && j < path.len() implies adjacent(
        #[trigger] path[i],
        #[trigger] path[j],
    ) by {
        if j < a.len() {
            assert(adjacent(a[i], a[j]));
        } else if i == a.len() - 1 {
            assert(a[i] == b[0]);
            assert(adjacent(b[0], b[1]));
        } else {
            assert(adjacent(b[i - a.len() + 1], b[j - a.len() + 1]));
        }
    }
    assert forall|i: int| 0 <= i < path.len() implies crop.hit(target_class, #[trigger] path[i]) by {
        if i < a.len() {
            assert(crop.hit(target_class, a[i]));
        } else {
            assert(crop.hit(target_class, b[i - a.len() + 1]));
        }
    }
    assert(path[path.len() - 1] == r);
    assert(walk(crop, target_class, path, p, r));
}

/// The labels are in order when `z` layers, `y` rows and `x` voxels have been scanned: exactly
/// the scanned voxels of the class are labelled, each is connected to the first voxel of its
/// label, and an alias is a smaller label whose first voxel is connected too.
spec fn labels_ok(crop: Region<'_>, target_class: u8, labels: Labels, z: int, y: int, x: int) -> bool {
    &&& labels.ids.len() == cells3(crop.width() + 1, crop.height() + 1, crop.depth() + 1)
    &&& labels.next_id >= 1
    &&& labels.first.len() == labels.next_id
    &&& aliases_ok(crop, target_class, labels.aliases, labels.first)
    &&& forall|i: int| 0 <= i < labels.ids.len() ==> 0 <= #[trigger] labels.ids[i] < labels.next_id
    &&& forall|p: Voxel|
        around(crop, p) ==> (labels.ids[#[trigger] crop.label_index(p)] != 0 <==> passed(p, z, y, x)
            && crop.hit(target_class, p))
    &&& forall|p: Voxel|
        around(crop, p) && labels.ids[#[trigger] crop.label_index(p)] != 0 ==> connected(
            crop,
            target_class,
            p,
            labels.first[labels.ids[crop.label_index(p)]],
        )
}

spec fn aliases_ok(crop: Region<'_>, target_class: u8, aliases: Seq<int>, first: Seq<Voxel>) -> bool {
    &&& aliases.len() == first.len()
    &&& forall|l: int| 1 <= l < first.len() ==> crop.hit(target_class, #[trigger] first[l])
    &&& forall|l: int|
        0 <= l < aliases.len() && #[trigger] aliases[l] != 0 ==> 1 <= aliases[l] < l && connected(
            crop,
            target_class,
            first[l],
            first[aliases[l]],
        )
}

/// The voxel is in the box or touches it from the left, above or below.
spec fn around(crop: Region<'_>, p: Voxel) -> bool {
    &&& -1 <= p.0 < crop.width()
    &&& -1 <= p.1 < crop.height()
    &&& -1 <= p.2 < crop.depth()
}

spec fn passed(p: Voxel, z: int, y: int, x: int) -> bool {
    p.2 < z || (p.2 == z && (p.1 < y || (p.1 == y && p.0 < x)))
}

proof fn lemma_label_index(crop: Region<'_>, p: Voxel)
    requires
        around(crop, p),
    ensures
        0 <= crop.label_index(p) < cells3(crop.width() + 1, crop.height() + 1, crop.depth() + 1),
        forall|q: Voxel|
            around(crop, q) && q != p ==> #[trigger] crop.label_index(q) != crop.label_index(p),
{
    lemma_flat3_bound(
        crop.width() + 1,
        crop.height() + 1,
        crop.depth() + 1,
        p.0 + 1,
        p.1 + 1,
        p.2 + 1,
    );
    assert forall|q: Voxel| around(crop, q) && q != p implies #[trigger] crop.label_index(q)
        != crop.label_index(p) by {
        if crop.label_index(q) == crop.label_index(p) {
            lemma_flat3_injective(
                crop.width() + 1,
                crop.height() + 1,
                p.0 + 1,
                p.1 + 1,
                p.2 + 1,
                q.0 + 1,
                q.1 + 1,
                q.2 + 1,
            );
        }
    }
}

proof fn lemma_with_alias(
    crop: Region<'_>,
    target_class: u8,
    aliases: Seq<int>,
    first: Seq<Voxel>,
    p: Voxel,
    id: int,
    target: int,
)
    requires
        aliases_ok(crop, target_class, aliases, first),
        0 <= id < first.len(),
        id != 0 ==> connected(crop, target_class, p, first[id]),
        1 <= target < first.len(),
        id != 0 ==> target <= id,
        connected(crop, target_class, p, first[target]),
    ensures
        aliases_ok(crop, target_class, with_alias(aliases, id, target), first),
{
    if id != 0 {
        lemma_connected_symmetric(crop, target_class, p, first[id]);
        lemma_connected_transitive(crop, target_class, first[id], p, first[target]);
    }
}

proof fn lemma_neighbour(
    crop: Region<'_>,
    target_class: u8,
    labels: Labels,
    z: int,
    y: int,
    x: int,
    p: Voxel,
    n: Voxel,
)
    requires
        labels_ok(crop, target_class, labels, z, y, x),
        crop.hit(target_class, p),
        around(crop, n),
        adjacent(p, n),
    ensures
        0 <= labels.ids[crop.label_index(n)] < labels.next_id,
        labels.ids[crop.label_index(n)] != 0 ==> connected(
            crop,
            target_class,
            p,
            labels.first[labels.ids[crop.label_index(n)]],
        ),
{
    lemma_label_index(crop, n);
    let id = labels.ids[crop.label_index(n)];
    if id != 0 {
        lemma_connected_adjacent(crop, target_class, p, n);
        lemma_connected_transitive(crop, target_class, p, n, labels.first[id]);
    }
}

proof fn lemma_visit(crop: Region<'_>, target_class: u8, labels: Labels, z: int, y: int, x: int)
    requires
        labels_ok(crop, target_class, labels, z, y, x),
        crop.contains((x, y, z)),
    ensures
        labels_ok(crop, target_class, visit(crop, target_class, labels, (x, y, z)), z, y, x + 1),
        labels.next_id <= visit(crop, target_class, labels, (x, y, z)).next_id,
{
    let p = (x, y, z);
    let after = visit(crop, target_class, labels, p);
    lemma_label_index(crop, p);
    assert forall|q: Voxel| around(crop, q) && q != p implies (passed(q, z, y, x + 1) <==> passed(
        q,
        z,
        y,
        x,
    )) by {}
    if crop.hit(target_class, p) {
        let nx = labels.ids[crop.label_index((x - 1, y, z))];
        let ny = labels.ids[crop.label_index((x, y - 1, z))];
        let nz = labels.ids[crop.label_index((x, y, z - 1))];
        lemma_neighbour(crop, target_class, labels, z, y, x, p, (x - 1, y, z));
        lemma_neighbour(crop, target_class, labels, z, y, x, p, (x, y - 1, z));
        lemma_neighbour(crop, target_class, labels, z, y, x, p, (x, y, z - 1));
        lemma_connected_self(crop, target_class, p);
        if nx == 0 && ny == 0 && nz == 0 {
            assert(after.first[labels.next_id] == p);
            assert forall|q: Voxel|
                around(crop, q) && after.ids[#[trigger] crop.label_index(q)] != 0 implies connected(
                crop,
                target_class,
                q,
                after.first[after.ids[crop.label_index(q)]],
            ) by {
                lemma_label_index(crop, q);
                if q != p {
                    assert(labels.ids[crop.label_index(q)] == after.ids[crop.label_index(q)]);
                    assert(after.first[labels.ids[crop.label_index(q)]]
                        == labels.first[labels.ids[crop.label_index(q)]]);
                }
            }
            assert forall|l: int| 1 <= l < after.first.len() implies crop.hit(
                target_class,
                #[trigger] after.first[l],
            ) by {
                if l < labels.first.len() {
                    assert(crop.hit(target_class, labels.first[l]));
                }
            }
            assert forall|l: int|
                0 <= l < after.aliases.len() && #[trigger] after.aliases[l] != 0 implies 1
                <= after.aliases[l] < l && connected(
                crop,
                target_class,
                after.first[l],
                after.first[after.aliases[l]],
            ) by {
                assert(labels.aliases[l] == after.aliases[l]);
            }
        } else {
            let least = least_label(least_label(nx, ny), nz);
            let label = merged_label(labels.aliases, nx, ny, nz);
            if label != least {
                lemma_connected_transitive(
                    crop,
                    target_class,
                    p,
                    labels.first[least],
                    labels.first[label],
                );
            }
            let a1 = with_alias(labels.aliases, nx, label);
            let a2 = with_alias(a1, ny, label);
            lemma_with_alias(crop, target_class, labels.aliases, labels.first, p, nx, label);
            lemma_with_alias(crop, target_class, a1, labels.first, p, ny, label);
            lemma_with_alias(crop, target_class, a2, labels.first, p, nz, label);
            assert forall|q: Voxel|
                around(crop, q) && after.ids[#[trigger] crop.label_index(q)] != 0 implies connected(
                crop,
                target_class,
                q,
                after.first[after.ids[crop.label_index(q)]],
            ) by {
                lemma_label_index(crop, q);
                if q != p {
                    assert(labels.ids[crop.label_index(q)] == after.ids[crop.label_index(q)]);
                }
            }
        }
        assert forall|q: Voxel| around(crop, q) implies (after.ids[#[trigger] crop.label_index(q)]
            != 0 <==> passed(q, z, y, x + 1) && crop.hit(target_class, q)) by {
            lemma_label_index(crop, q);
            if q != p {
                assert(labels.ids[crop.label_index(q)] == after.ids[crop.label_index(q)]);
            }
        }
    }
}

/// The places that the scan passes through.
spec fn on_scan(crop: Region<'_>, z: int, y: int, x: int) -> bool {
    ||| 0 <= z < crop.depth() && 0 <= y < crop.height() && 0 <= x <= crop.width()
    ||| 0 <= z < crop.depth() && y == crop.height() && x == 0
    ||| z == crop.depth() && y == 0 && x == 0
}

proof fn lemma_scanned(crop: Region<'_>, target_class: u8, z: int, y: int, x: int)
    requires
        on_scan(crop, z, y, x),
    ensures
        labels_ok(crop, target_class, scanned(crop, target_class, z, y, x), z, y, x),
    decreases z, y, x,
{
    let labels = scanned(crop, target_class, z, y, x);
    if x > 0 {
        lemma_scanned(crop, target_class, z, y, x - 1);
        lemma_visit(crop, target_class, scanned(crop, target_class, z, y, x - 1), z, y, x - 1);
    } else if y > 0 {
        lemma_scanned(crop, target_class, z, y - 1, crop.width());
        assert forall|p: Voxel| crop.contains(p) implies passed(p, z, y, x) == passed(
            p,
            z,
            y - 1,
            crop.width(),
        ) by {}
    } else if z > 0 {
        lemma_scanned(crop, target_class, z - 1, crop.height(), 0);
        assert forall|p: Voxel| crop.contains(p) implies passed(p, z, y, x) == passed(
            p,
            z - 1,
            crop.height(),
            0,
        ) by {}
    } else {
        assert(cells3(crop.width() + 1, crop.height() + 1, crop.depth() + 1) >= 0) by {
            lemma_label_index(crop, (-1, -1, -1));
        }
        assert forall|p: Voxel| around(crop, p) implies labels.ids[#[trigger] crop.label_index(p)]
            == 0 by {
            lemma_label_index(crop, p);
        }
        assert forall|p: Voxel| around(crop, p) && passed(p, 0, 0, 0) implies !crop.hit(
            target_class,
            p,
        ) by {}
    }
}

/// The scan never takes a label back.
proof fn lemma_next_id_grows(crop: Region<'_>, target_class: u8, z: int, y: int, x: int)
    requires
        on_scan(crop, z, y, x),
    ensures
        scanned(crop, target_class, z, y, x).next_id <= all_scanned(crop, target_class).next_id,
    decreases crop.depth() - z, crop.height() - y, crop.width() - x,
{
    if z < crop.depth() {
        if y == crop.height() {
            lemma_next_id_grows(crop, target_class, z + 1, 0, 0);
        } else if x == crop.width() {
            assert(scanned(crop, target_class, z, y + 1, 0) == scanned(crop, target_class, z, y, x));
            lemma_next_id_grows(crop, target_class, z, y + 1, 0);
        } else {
            lemma_scanned(crop, target_class, z, y, x);
            lemma_visit(crop, target_class, scanned(crop, target_class, z, y, x), z, y, x);
            lemma_next_id_grows(crop, target_class, z, y, x + 1);
        }
    }
}

proof fn lemma_root(crop: Region<'_>, target_class: u8, aliases: Seq<int>, first: Seq<Voxel>, id: int)
    requires
        aliases_ok(crop, target_class, aliases, first),
        1 <= id < first.len(),
    ensures
        1 <= root(aliases, id) <= id,
        aliases[root(aliases, id)] == 0,
        connected(crop, target_class, first[id], first[root(aliases, id)]),
    decreases id,
{
    assert(crop.hit(target_class, first[id]));
    if aliases[id] != 0 {
        lemma_root(crop, target_class, aliases, first, aliases[id]);
        lemma_connected_transitive(
            crop,
            target_class,
            first[id],
            first[aliases[id]],
            first[root(aliases, id)],
        );
    } else {
        lemma_connected_self(crop, target_class, first[id]);
    }
}

/// A voxel is labelled exactly if it has the class.
pub proof fn labelled_iff_of_the_class(crop: Region<'_>, target_class: u8, p: Voxel)
    requires
        crop.valid(),
        crop.contains(p),
    ensures
        final_label(crop, target_class, p) != 0 <==> crop.hit(target_class, p),
{
    let labels = all_scanned(crop, target_class);
    lemma_scanned(crop, target_class, crop.depth(), 0, 0);
    lemma_label_index(crop, p);
    assert(passed(p, crop.depth(), 0, 0));
    let id = labels.ids[crop.label_index(p)];
    if id != 0 {
        lemma_root(crop, target_class, labels.aliases, labels.first, id);
    }
}

/// Voxels with the same label belong to one connected region of the class.
pub proof fn same_label_is_connected(crop: Region<'_>, target_class: u8, p: Voxel, q: Voxel)
    requires
        crop.valid(),
        crop.contains(p),
        crop.contains(q),
        final_label(crop, target_class, p) == final_label(crop, target_class, q),
        final_label(crop, target_class, p) != 0,
    ensures
        connected(crop, target_class, p, q),
{
    let labels = all_scanned(crop, target_class);
    let label = final_label(crop, target_class, p);
    lemma_scanned(crop, target_class, crop.depth(), 0, 0);
    lemma_label_index(crop, p);
    lemma_label_index(crop, q);
    let a = labels.ids[crop.label_index(p)];
    let b = labels.ids[crop.label_index(q)];
    assert(aliases_ok(crop, target_class, labels.aliases, labels.first));
    assert(a != 0 && b != 0);
    lemma_root(crop, target_class, labels.aliases, labels.first, a);
    lemma_root(crop, target_class, labels.aliases, labels.first, b);
    let r = labels.first[label];
    lemma_connected_transitive(crop, target_class, p, labels.first[a], r);
    lemma_connected_transitive(crop, target_class, q, labels.first[b], r);
    lemma_connected_symmetric(crop, target_class, q, r);
    lemma_connected_transitive(crop, target_class, p, r, q);
}

/// The outcome of the labelling: a label for each position, with a column, a row and a layer of
/// zeros in front, and the labels that are in use, in increasing order.
pub struct Components {
    pub ids: Vec<u32>,
    pub classes: Vec<u32>,
}

spec fn holds(labels: Labels, ids: Seq<u32>, next_id: u32, aliases: Seq<u32>) -> bool {
    &&& labels.next_id == next_id
    &&& labels.ids.len() == ids.len()
    &&& labels.aliases.len() == aliases.len()
    &&& forall|i: int| 0 <= i < ids.len() ==> #[trigger] ids[i] == labels.ids[i]
    &&& forall|i: int| 0 <= i < aliases.len() ==> #[trigger] aliases[i] == labels.aliases[i]
}

fn set_alias(aliases: &mut Vec<u32>, id: u32, target: u32)
    requires
        (id as int) < old(aliases)@.len(),
    ensures
        final(aliases)@.len() == old(aliases)@.len(),
        final(aliases)@ == (if id == 0 || id == target {
            old(aliases)@
        } else {
            old(aliases)@.update(id as int, target)
        }),
{
    if id != 0 && id != target {
        aliases[id as usize] = target;
    }
}

fn smaller_label(a: u32, b: u32) -> (r: u32)
    ensures
        r == least_label(a as int, b as int),
{
    if a == 0 || (b != 0 && b < a) {
        b
    } else {
        a
    }
}

/// Labels one voxel of the class; `false` if the labels have run out.
fn label_voxel(
    ids: &mut Vec<u32>,
    next_id: &mut u32,
    aliases: &mut Vec<u32>,
    at: usize,
    at_x: usize,
    at_y: usize,
    at_z: usize,
    Ghost(crop): Ghost<Region<'_>>,
    Ghost(target_class): Ghost<u8>,
    Ghost(labels): Ghost<Labels>,
    Ghost(p): Ghost<Voxel>,
) -> (more: bool)
    requires
        labels_ok(crop, target_class, labels, p.2, p.1, p.0),
        crop.hit(target_class, p),
        holds(labels, old(ids)@, *old(next_id), old(aliases)@),
        at == crop.label_index(p),
        at_x == crop.label_index((p.0 - 1, p.1, p.2)),
        at_y == crop.label_index((p.0, p.1 - 1, p.2)),
        at_z == crop.label_index((p.0, p.1, p.2 - 1)),
    ensures
        !more ==> visit(crop, target_class, labels, p).next_id > u32::MAX,
        more ==> holds(
            visit(crop, target_class, labels, p),
            final(ids)@,
            *final(next_id),
            final(aliases)@,
        ),
{
    proof {
        lemma_label_index(crop, p);
        lemma_label_index(crop, (p.0 - 1, p.1, p.2));
        lemma_label_index(crop, (p.0, p.1 - 1, p.2));
        lemma_label_index(crop, (p.0, p.1, p.2 - 1));
    }
    let nx: u32 = ids[at_x];
    let ny: u32 = ids[at_y];
    let nz: u32 = ids[at_z];
    assert(nx == labels.ids[at_x as int] && ny == labels.ids[at_y as int] && nz
        == labels.ids[at_z as int]);
    if nx == 0 && ny == 0 && nz == 0 {
        if *next_id == u32::MAX {
            return false;
        }
        ids[at] = *next_id;
        *next_id = *next_id + 1;
        aliases.push(0);
    } else {
        let least: u32 = smaller_label(smaller_label(nx, ny), nz);
        let single = (nx == 0 || nx == least) && (ny == 0 || ny == least) && (nz == 0 || nz == least);
        let mut label: u32 = least;
        assert(aliases@[least as int] == labels.aliases[least as int]);
        if !single && aliases[least as usize] != 0 {
            label = aliases[least as usize];
        }
        ids[at] = label;
        set_alias(aliases, nx, label);
        set_alias(aliases, ny, label);
        set_alias(aliases, nz, label);
    }
    true
}

/// The label at the end of the chain of aliases that starts at `id`.
fn resolve(aliases: &Vec<u32>, id: u32, Ghost(labels): Ghost<Labels>) -> (r: u32)
    requires
        labels.aliases.len() == aliases@.len(),
        (id as int) < aliases@.len(),
        forall|i: int| 0 <= i < aliases@.len() ==> #[trigger] aliases@[i] == labels.aliases[i],
        forall|l: int|
            0 <= l < labels.aliases.len() && #[trigger] labels.aliases[l] != 0 ==> 1
                <= labels.aliases[l] < l,
    ensures
        r == root(labels.aliases, id as int),
        (r as int) < aliases@.len(),
{
    let mut a: u32 = id;
    while aliases[a as usize] != 0
        invariant
            (a as int) < aliases@.len(),
            labels.aliases.len() == aliases@.len(),
            forall|i: int| 0 <= i < aliases@.len() ==> #[trigger] aliases@[i] == labels.aliases[i],
            forall|l: int|
                0 <= l < labels.aliases.len() && #[trigger] labels.aliases[l] != 0 ==> 1
                    <= labels.aliases[l] < l,
            root(labels.aliases, a as int) == root(labels.aliases, id as int),
        decreases a,
    {
        assert(aliases@[a as int] == labels.aliases[a as int]);
        a = aliases[a as usize];
    }
    assert(aliases@[a as int] == labels.aliases[a as int]);
    a
}

/// Labels the voxels of `target_class`; `None` if they need more labels than there are.
pub fn connected_components2(crop: &Region<'_>, target_class: u8) -> (r: Option<Components>)
    requires
        crop.valid(),
    ensures
        r is None <==> all_scanned(*crop, target_class).next_id > u32::MAX,
        r matches Some(c) ==> {
            let labels = all_scanned(*crop, target_class);
            &&& c.ids@.len() == labels.ids.len()
            &&& forall|i: int|
                0 <= i < c.ids@.len() ==> #[trigger] c.ids@[i] == root(labels.aliases, labels.ids[i])
            &&& forall|i: int, j: int|
                0 <= i < j < c.classes@.len() ==> #[trigger] c.classes@[i] < #[trigger] c.classes@[j]
            &&& forall|l: u32| #[trigger]
                c.classes@.contains(l) <==> 1 <= l < labels.next_id && labels.aliases[l as int] == 0
            &&& numbered(c)
        },
{
    let width: usize = crop.size[0];
    let height: usize = crop.size[1];
    let depth: usize = crop.size[2];
    let ghost total = cells3(width + 1, height + 1, depth + 1);
    proof {
        assert(width + 1 <= total && height + 1 <= total && depth + 1 <= total && (depth + 1) * (
        height + 1) <= total) by (nonlinear_arith)
            requires
                total == ((depth + 1) * (height + 1)) * (width + 1),
        ;
    }
    let pixels: usize = (depth + 1) * (height + 1) * (width + 1);
    let mut ids: Vec<u32> = vec![0u32; pixels];
    let mut aliases: Vec<u32> = vec![0u32; 1];
    let mut next_id: u32 = 1;
    let mut z: usize = 0;
    while z < depth
        invariant
            crop.valid(),
            width == crop.width() && height == crop.height() && depth == crop.depth(),
            0 <= z <= depth,
            width < usize::MAX && height < usize::MAX && depth < usize::MAX,
            holds(scanned(*crop, target_class, z as int, 0, 0), ids@, next_id, aliases@),
        decreases depth - z,
    {
        let mut y: usize = 0;
        while y < height
            invariant
                crop.valid(),
                width == crop.width() && height == crop.height() && depth == crop.depth(),
                0 <= y <= height,
                z < depth,
                width < usize::MAX && height < usize::MAX && depth < usize::MAX,
                holds(scanned(*crop, target_class, z as int, y as int, 0), ids@, next_id, aliases@),
            decreases height - y,
        {
            let mut x: usize = 0;
            while x < width
                invariant
                    crop.valid(),
                    width == crop.width() && height == crop.height() && depth == crop.depth(),
                    0 <= x <= width,
                    y < height,
                    z < depth,
                    width < usize::MAX && height < usize::MAX && depth < usize::MAX,
                    holds(
                        scanned(*crop, target_class, z as int, y as int, x as int),
                        ids@,
                        next_id,
                        aliases@,
                    ),
                decreases width - x,
            {
                let ghost p = (x as int, y as int, z as int);
                let ghost labels = scanned(*crop, target_class, z as int, y as int, x as int);
                proof {
                    lemma_scanned(*crop, target_class, z as int, y as int, x as int);
                    assert(scanned(*crop, target_class, z as int, y as int, x + 1) == visit(
                        *crop,
                        target_class,
                        labels,
                        p,
                    ));
                }
                if crop.voxels[index3(width, height, depth, x, y, z)] == target_class {
                    let at: usize = index3(width + 1, height + 1, depth + 1, x + 1, y + 1, z + 1);
                    let at_x: usize = index3(width + 1, height + 1, depth + 1, x, y + 1, z + 1);
                    let at_y: usize = index3(width + 1, height + 1, depth + 1, x + 1, y, z + 1);
                    let at_z: usize = index3(width + 1, height + 1, depth + 1, x + 1, y + 1, z);
                    let more = label_voxel(
                        &mut ids,
                        &mut next_id,
                        &mut aliases,
                        at,
                        at_x,
                        at_y,
                        at_z,
                        Ghost(*crop),
                        Ghost(target_class),
                        Ghost(labels),
                        Ghost(p),
                    );
                    if !more {
                        proof {
                            lemma_next_id_grows(*crop, target_class, z as int, y as int, x + 1);
                        }
                        return None;
                    }
                }
                x += 1;
            }
            assert(scanned(*crop, target_class, z as int, y + 1, 0) == scanned(
                *crop,
                target_class,
                z as int,
                y as int,
                width as int,
            ));
            y += 1;
        }
        assert(scanned(*crop, target_class, z + 1, 0, 0) == scanned(
            *crop,
            target_class,
            z as int,
            height as int,
            0,
        ));
        z += 1;
    }
    let ghost labels = all_scanned(*crop, target_class);
    let ghost scanned_ids = ids@;
    proof {
        lemma_scanned(*crop, target_class, crop.depth(), 0, 0);
    }
    let mut i: usize = 0;
    while i < ids.len()
        invariant
            i <= ids@.len() == scanned_ids.len() == labels.ids.len(),
            labels.aliases.len() == aliases@.len() == labels.next_id,
            forall|k: int| 0 <= k < labels.ids.len() ==> 0 <= #[trigger] labels.ids[k] < labels.next_id,
            forall|k: int| i <= k < ids@.len() ==> #[trigger] ids@[k] == labels.ids[k],
            forall|k: int|
                0 <= k < i ==> #[trigger] ids@[k] == root(labels.aliases, labels.ids[k]),
            forall|k: int| 0 <= k < aliases@.len() ==> #[trigger] aliases@[k] == labels.aliases[k],
            forall|l: int|
                0 <= l < labels.aliases.len() && #[trigger] labels.aliases[l] != 0 ==> 1
                    <= labels.aliases[l] < l,
        decreases ids@.len() - i,
    {
        let id: u32 = ids[i];
        assert(id == labels.ids[i as int]);
        let label: u32 = resolve(&aliases, id, Ghost(labels));
        ids[i] = label;
        i += 1;
    }
    let mut classes: Vec<u32> = Vec::new();
    let mut l: u32 = 1;
    while l < next_id
        invariant
            1 <= l <= next_id,
            labels.aliases.len() == aliases@.len() == next_id,
            forall|k: int| 0 <= k < aliases@.len() ==> #[trigger] aliases@[k] == labels.aliases[k],
            forall|a: int, b: int|
                0 <= a < b < classes@.len() ==> #[trigger] classes@[a] < #[trigger] classes@[b],
            forall|a: int| 0 <= a < classes@.len() ==> #[trigger] classes@[a] < l,
            forall|c: u32| #[trigger]
                classes@.contains(c) <==> 1 <= c < l && labels.aliases[c as int] == 0,
        decreases next_id - l,
    {
        assert(aliases@[l as int] == labels.aliases[l as int]);
        let ghost before = classes@;
        if aliases[l as usize] == 0 {
            classes.push(l);
            assert forall|c: u32| #[trigger] classes@.contains(c) <==> before.contains(c) || c == l by {
                if c == l {
                    assert(classes@[before.len() as int] == c);
                }
                if before.contains(c) {
                    let k = choose|k: int| 0 <= k < before.len() && before[k] == c;
                    assert(classes@[k] == c);
                }
                if classes@.contains(c) && c != l {
                    let k = choose|k: int| 0 <= k < classes@.len() && classes@[k] == c;
                    assert(before[k] == c);
                }
            }
        }
        l += 1;
    }
    let components = Components { ids, classes };
    proof {
        lemma_components_are_numbered(*crop, target_class, components);
    }
    Some(components)
}

/// A voxel of a component: the number of the component, and the voxel in the world.
#[derive(Clone, Copy, PartialEq, Eq, Structural)]
pub struct ClassPoint {
    pub class: usize,
    pub x: u16,
    pub y: u16,
    pub z: u16,
}

/// The labels are in increasing order, and every position has one of them or none.
pub open spec fn numbered(c: Components) -> bool {
    &&& forall|i: int, j: int|
        0 <= i < j < c.classes@.len() ==> #[trigger] c.classes@[i] < #[trigger] c.classes@[j]
    &&& forall|i: int|
        0 <= i < c.ids@.len() && #[trigger] c.ids@[i] != 0 ==> c.classes@.contains(c.ids@[i])
}

/// The components of a row that starts at `origin` in the world: the labelled voxels among the
/// first `n`, in order. Coordinates are kept in 16 bits.
pub open spec fn row_entries(
    c: Components,
    crop: Region<'_>,
    origin: Seq<usize>,
    y: int,
    z: int,
    n: int,
) -> Seq<ClassPoint>
    decreases n,
{
    if n <= 0 {
        Seq::empty()
    } else {
        let before = row_entries(c, crop, origin, y, z, n - 1);
        let id = c.ids@[crop.label_index((n - 1, y, z))];
        if id == 0 {
            before
        } else {
            before.push(
                ClassPoint {
                    class: c.classes@.index_of(id) as usize,
                    x: (origin[0] + (n - 1)) as u16,
                    y: (origin[1] + y) as u16,
                    z: (origin[2] + z) as u16,
                },
            )
        }
    }
}

impl Components {
    /// The number of the component with a label: its place among the labels.
    pub fn class_number(&self, id: u32) -> (r: Option<usize>)
        requires
            forall|i: int, j: int|
                0 <= i < j < self.classes@.len() ==> #[trigger] self.classes@[i]
                    < #[trigger] self.classes@[j],
        ensures
            match r {
                Some(i) => i < self.classes@.len() && self.classes@[i as int] == id && i
                    == self.classes@.index_of(id),
                None => !self.classes@.contains(id),
            },
    {
        let mut low: usize = 0;
        let mut high: usize = self.classes.len();
        while low < high
            invariant
                low <= high <= self.classes@.len(),
                forall|i: int, j: int|
                    0 <= i < j < self.classes@.len() ==> #[trigger] self.classes@[i]
                        < #[trigger] self.classes@[j],
                forall|i: int| 0 <= i < low ==> #[trigger] self.classes@[i] < id,
                forall|i: int| high <= i < self.classes@.len() ==> #[trigger] self.classes@[i] > id,
            decreases high - low,
        {
            let middle: usize = low + (high - low) / 2;
            let at: u32 = self.classes[middle];
            if at == id {
                proof {
                    let i = self.classes@.index_of(id);
                    assert(self.classes@[middle as int] == id);
                    assert(0 <= i < self.classes@.len() && self.classes@[i] == id);
                }
                return Some(middle);
            } else if at < id {
                low = middle + 1;
            } else {
                high = middle;
            }
        }
        None
    }

    /// The labelled voxels of a row, each with the number of its component.
    pub fn row_points(&self, crop: &Region<'_>, origin: [usize; 3], y: usize, z: usize) -> (r: Vec<ClassPoint>)
        requires
            crop.valid(),
            numbered(*self),
            self.ids@.len() == cells3(crop.width() + 1, crop.height() + 1, crop.depth() + 1),
            y < crop.height(),
            z < crop.depth(),
            forall|i: int| 0 <= i < 3 ==> #[trigger] origin@[i] + crop.size@[i] <= usize::MAX,
        ensures
            r@ == row_entries(*self, *crop, origin@, y as int, z as int, crop.width()),
    {
        let mut r: Vec<ClassPoint> = Vec::new();
        let width: usize = crop.size[0];
        let height: usize = crop.size[1];
        let depth: usize = crop.size[2];
        let ghost total = cells3(width + 1, height + 1, depth + 1);
        proof {
            assert(width + 1 <= total && height + 1 <= total && depth + 1 <= total) by (nonlinear_arith)
                requires
                    total == ((depth + 1) * (height + 1)) * (width + 1),
            ;
            assert(origin@[0] + crop.size@[0] <= usize::MAX);
            assert(origin@[1] + crop.size@[1] <= usize::MAX);
            assert(origin@[2] + crop.size@[2] <= usize::MAX);
        }
        let mut x: usize = 0;
        while x < width
            invariant
                crop.valid(),
                numbered(*self),
                width == crop.width() && height == crop.height() && depth == crop.depth(),
                self.ids@.len() == cells3(width + 1, height + 1, depth + 1),
                cells3(width + 1, height + 1, depth + 1) <= usize::MAX,
                width < usize::MAX && height < usize::MAX && depth < usize::MAX,
                x <= width,
                y < height,
                z < depth,
                origin@[0] + width <= usize::MAX,
                origin@[1] + height <= usize::MAX,
                origin@[2] + depth <= usize::MAX,
                r@ == row_entries(*self, *crop, origin@, y as int, z as int, x as int),
            decreases width - x,
        {
            proof {
                lemma_flat3_bound(width + 1, height + 1, depth + 1, x + 1, y + 1, z + 1);
            }
            let at: usize = index3(width + 1, height + 1, depth + 1, x + 1, y + 1, z + 1);
            let id: u32 = self.ids[at];
            if id != 0 {
                if let Some(class) = self.class_number(id) {
                    r.push(
                        ClassPoint {
                            class,
                            x: (origin[0] + x) as u16,
                            y: (origin[1] + y) as u16,
                            z: (origin[2] + z) as u16,
                        },
                    );
                } else {
                    assert(self.ids@[at as int] != 0);
                    assert(false);
                }
            }
            x += 1;
        }
        r
    }
}

/// Every label that the scan leaves is one of the labels in use.
proof fn lemma_components_are_numbered(crop: Region<'_>, target_class: u8, c: Components)
    requires
        crop.valid(),
        c.ids@.len() == all_scanned(crop, target_class).ids.len(),
        all_scanned(crop, target_class).next_id <= u32::MAX,
        forall|i: int|
            0 <= i < c.ids@.len() ==> #[trigger] c.ids@[i] == root(
                all_scanned(crop, target_class).aliases,
                all_scanned(crop, target_class).ids[i],
            ),
        forall|i: int, j: int|
            0 <= i < j < c.classes@.len() ==> #[trigger] c.classes@[i] < #[trigger] c.classes@[j],
        forall|l: u32| #[trigger]
            c.classes@.contains(l) <==> 1 <= l < all_scanned(crop, target_class).next_id && all_scanned(
                crop,
                target_class,
            ).aliases[l as int] == 0,
    ensures
        numbered(c),
{
    let labels = all_scanned(crop, target_class);
    lemma_scanned(crop, target_class, crop.depth(), 0, 0);
    assert forall|i: int| 0 <= i < c.ids@.len() && #[trigger] c.ids@[i] != 0 implies c.classes@.contains(
        c.ids@[i],
    ) by {
        lemma_root(crop, target_class, labels.aliases, labels.first, labels.ids[i]);
    }
}

/// Voxels stand row by row and layer by layer, and so do their labels, which have one more column, row
/// and layer in front.
pub proof fn labels_stand_like_their_voxels(crop: Region<'_>, target_class: u8, p: Voxel)
    requires
        crop.valid(),
        crop.contains(p),
    ensures
        crop.label_index((-1, -1, -1)) == 0,
        crop.label_index((p.0 + 1, p.1, p.2)) == crop.label_index(p) + 1,
        crop.label_index((p.0, p.1 + 1, p.2)) == crop.label_index(p) + (crop.size@[0] + 1),
        crop.label_index((p.0, p.1, p.2 + 1)) == crop.label_index(p) + (crop.size@[1] + 1) * (crop.size@[0]
            + 1),
        crop.hit(target_class, p) <==> crop.voxels@[(p.2 * crop.size@[1] + p.1) * crop.size@[0] + p.0]
            == target_class,
{
    crate::grid::cells_stand_row_by_row(
        crop.width() + 1,
        crop.height() + 1,
        p.0 + 1,
        p.1 + 1,
        p.2 + 1,
    );
    crate::grid::cells_stand_row_by_row(crop.width(), crop.height(), p.0, p.1, p.2);
}

/// Voxels that share a face lie one step apart along one axis.
pub proof fn neighbours_are_one_step_apart(p: Voxel, q: Voxel)
    ensures
        adjacent(p, q) == adjacent(q, p),
        adjacent(p, q) <==> q == (p.0 + 1, p.1, p.2) || q == (p.0 - 1, p.1, p.2) || q == (p.0, p.1 + 1, p.2)
            || q == (p.0, p.1 - 1, p.2) || q == (p.0, p.1, p.2 + 1) || q == (p.0, p.1, p.2 - 1),
{
}

/// The smaller label counts, and one that is none counts only if both are none.
pub proof fn smaller_labels_count(a: int, b: int)
    requires
        0 <= a,
        0 <= b,
    ensures
        least_label(a, b) == a || least_label(a, b) == b,
        least_label(a, b) == 0 <==> a == 0 && b == 0,
        a != 0 ==> least_label(a, b) <= a,
        b != 0 ==> least_label(a, b) <= b,
{
}

/// A voxel of the class that has labelled neighbours on the way of the scan takes a label that is not
/// larger than any of theirs, and each of their labels is that label or becomes an alias of it. One
/// without such neighbours gets the next label, and nothing else changes.
pub proof fn voxels_join_their_neighbours(crop: Region<'_>, target_class: u8, labels: Labels, p: Voxel)
    requires
        crop.hit(target_class, p),
        0 <= crop.label_index(p) < labels.ids.len(),
        labels.aliases.len() == labels.next_id,
        labels.next_id >= 1,
        0 <= labels.ids[crop.label_index((p.0 - 1, p.1, p.2))] < labels.next_id,
        0 <= labels.ids[crop.label_index((p.0, p.1 - 1, p.2))] < labels.next_id,
        0 <= labels.ids[crop.label_index((p.0, p.1, p.2 - 1))] < labels.next_id,
        forall|l: int|
            0 <= l < labels.aliases.len() && #[trigger] labels.aliases[l] != 0 ==> 1 <= labels.aliases[l]
                < l,
    ensures
        ({
            let after = visit(crop, target_class, labels, p);
            let label = after.ids[crop.label_index(p)];
            let nx = labels.ids[crop.label_index((p.0 - 1, p.1, p.2))];
            let ny = labels.ids[crop.label_index((p.0, p.1 - 1, p.2))];
            let nz = labels.ids[crop.label_index((p.0, p.1, p.2 - 1))];
            &&& label > 0
            &&& nx != 0 ==> label <= nx && (label == nx || after.aliases[nx] == label)
            &&& ny != 0 ==> label <= ny && (label == ny || after.aliases[ny] == label)
            &&& nz != 0 ==> label <= nz && (label == nz || after.aliases[nz] == label)
            &&& nx == 0 && ny == 0 && nz == 0 <==> after.next_id == labels.next_id + 1
            &&& nx == 0 && ny == 0 && nz == 0 ==> label == labels.next_id && after.aliases
                == labels.aliases.push(0)
            &&& nx != 0 || ny != 0 || nz != 0 ==> after.next_id == labels.next_id
            &&& forall|i: int|
                0 <= i < labels.ids.len() && i != crop.label_index(p) ==> #[trigger] after.ids[i]
                    == labels.ids[i]
            &&& forall|l: int|
                0 <= l < labels.aliases.len() && l != nx && l != ny && l != nz ==> #[trigger]
                    after.aliases[l] == labels.aliases[l]
        }),
{
    let nx = labels.ids[crop.label_index((p.0 - 1, p.1, p.2))];
    let ny = labels.ids[crop.label_index((p.0, p.1 - 1, p.2))];
    let nz = labels.ids[crop.label_index((p.0, p.1, p.2 - 1))];
    smaller_labels_count(nx, ny);
    smaller_labels_count(least_label(nx, ny), nz);
}

/// A voxel of another class is passed over.
pub proof fn other_voxels_are_passed_over(crop: Region<'_>, target_class: u8, labels: Labels, p: Voxel)
    requires
        !crop.hit(target_class, p),
    ensures
        visit(crop, target_class, labels, p) == labels,
{
}

/// The end of a chain of aliases has no alias itself, an alias ends where its target does, and a label
/// without an alias is its own end.
pub proof fn chains_of_aliases_end(aliases: Seq<int>, id: int)
    requires
        0 <= id < aliases.len(),
        forall|l: int| 0 <= l < aliases.len() && #[trigger] aliases[l] != 0 ==> 1 <= aliases[l] < l,
    ensures
        0 <= root(aliases, id) <= id,
        aliases[root(aliases, id)] == 0,
        aliases[id] == 0 ==> root(aliases, id) == id,
        aliases[id] != 0 ==> root(aliases, id) == root(aliases, aliases[id]),
    decreases id,
{
    if aliases[id] != 0 {
        chains_of_aliases_end(aliases, aliases[id]);
    }
}

/// Every labelled voxel of a row is listed behind those to its left, with its place in the world and
/// the number of its label.
pub proof fn labelled_voxels_are_listed(
    c: Components,
    crop: Region<'_>,
    origin: Seq<usize>,
    y: int,
    z: int,
    n: int,
    k: int,
)
    requires
        0 <= k < n,
        origin.len() == 3,
        numbered(c),
        c.ids@.len() == cells3(crop.width() + 1, crop.height() + 1, crop.depth() + 1),
        0 <= crop.label_index((k, y, z)) < c.ids@.len(),
    ensures
        row_entries(c, crop, origin, y, z, 0).len() == 0,
        ({
            let id = c.ids@[crop.label_index((k, y, z))];
            let before = row_entries(c, crop, origin, y, z, k).len() as int;
            let all = row_entries(c, crop, origin, y, z, n);
            &&& all.len() >= before
            &&& id == 0 && k + 1 == n ==> all.len() == before
            &&& id != 0 && k + 1 == n ==> all.len() == before + 1
            &&& id != 0 ==> {
                &&& before < all.len()
                &&& all[before].x == (origin[0] + k) as u16
                &&& all[before].y == (origin[1] + y) as u16
                &&& all[before].z == (origin[2] + z) as u16
                &&& all[before].class < c.classes@.len()
                &&& c.classes@[all[before].class as int] == id
            }
        }),
    decreases n,
{
    let id = c.ids@[crop.label_index((k, y, z))];
    if k + 1 == n {
        if id != 0 {
            assert(c.classes@.contains(id));
            let i = c.classes@.index_of(id);
            assert(0 <= i < c.classes@.len() && c.classes@[i] == id);
            assert(c.classes@.len() == c.classes.len());
        }
    } else {
        labelled_voxels_are_listed(c, crop, origin, y, z, n - 1, k);
    }
}

/// A voxel whose labelled neighbours agree takes their label and leaves the aliases as they are. Where
/// they do not, it takes what the smallest of their labels stands for, if that is an alias, and else that
/// label.
pub proof fn agreeing_neighbours_are_followed(aliases: Seq<int>, l: int, nx: int, ny: int, nz: int)
    requires
        0 < l,
        0 <= nx,
        0 <= ny,
        0 <= nz,
    ensures
        (nx == 0 || nx == l) && (ny == 0 || ny == l) && (nz == 0 || nz == l) && (nx == l || ny == l || nz
            == l) ==> merged_label(aliases, nx, ny, nz) == l && with_alias(
            with_alias(with_alias(aliases, nx, l), ny, l),
            nz,
            l,
        ) == aliases,
        (nx == l || ny == l || nz == l) && (nx == 0 || l <= nx) && (ny == 0 || l <= ny) && (nz == 0 || l
            <= nz) && (nx > l || ny > l || nz > l) ==> merged_label(aliases, nx, ny, nz) == (if aliases[l]
            == 0 {
            l
        } else {
            aliases[l]
        }),
{
}

} // verus!
