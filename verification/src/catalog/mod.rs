//! The catalog of known surface segments.

pub mod obj_repository;

use crate::model::DynamicFullVolumeReference;
use crate::text::{is_before, text_before, text_order_is_transitive, texts_are_ordered};
use vstd::prelude::*;
use vstd::string::*;

verus! {

/// A scroll or a fragment of one.
pub struct Scroll {
    pub id: String,
    pub num: String,
    pub old_id: String,
    pub is_fragment: bool,
}

impl Scroll {
    /// All that is said of both is the same.
    pub open spec fn same(&self, other: Scroll) -> bool {
        &&& self.id@ == other.id@
        &&& self.num@ == other.num@
        &&& self.old_id@ == other.old_id@
        &&& self.is_fragment == other.is_fragment
    }

    /// The order of the catalog: scrolls before fragments, then by number.
    pub open spec fn before(&self, other: Scroll) -> bool {
        if self.is_fragment != other.is_fragment {
            other.is_fragment
        } else {
            text_before(self.num@, other.num@)
        }
    }

    pub fn label(&self) -> (r: String)
        ensures
            r@ == (if self.is_fragment {
                "Fragment"@
            } else {
                "Scroll"@
            }) + " "@ + self.num@ + " - "@ + self.id@,
    {
        let mut r = if self.is_fragment {
            "Fragment".to_string()
        } else {
            "Scroll".to_string()
        };
        r.append(" ");
        r.append(self.num.as_str());
        r.append(" - ");
        r.append(self.id.as_str());
        r
    }

    pub fn is_same(&self, other: &Scroll) -> (r: bool)
        ensures
            r == self.same(*other),
    {
        self.id == other.id && self.num == other.num && self.old_id == other.old_id && self.is_fragment
            == other.is_fragment
    }

    fn comes_before(&self, other: &Scroll) -> (r: bool)
        ensures
            r == self.before(*other),
    {
        if self.is_fragment != other.is_fragment {
            other.is_fragment
        } else {
            is_before(self.num.as_str(), other.num.as_str())
        }
    }

    pub fn duplicate(&self) -> (r: Scroll)
        ensures
            r == *self,
    {
        Scroll {
            id: self.id.clone(),
            num: self.num.clone(),
            old_id: self.old_id.clone(),
            is_fragment: self.is_fragment,
        }
    }
}

pub struct Urls {
    pub composite_url: String,
    pub mask_url: String,
    pub meta_url: String,
    pub obj_url: String,
    pub ppm_url: String,
}

/// A segment of a surface.
pub struct Segment {
    pub id: String,
    pub scroll: Scroll,
    pub volume: Option<String>,
    pub height: usize,
    pub width: usize,
    pub urls: Urls,
}

impl Segment {
    /// Two segments are the same if they have the same name in the same scroll.
    pub open spec fn same(&self, other: Segment) -> bool {
        self.id@ == other.id@ && self.scroll.same(other.scroll)
    }

    pub fn is_same(&self, other: &Segment) -> (r: bool)
        ensures
            r == self.same(*other),
    {
        self.id == other.id && self.scroll.is_same(&other.scroll)
    }

    /// The volume that the segment lies in.
    pub fn volume_ref(&self) -> (r: DynamicFullVolumeReference)
        requires
            self.volume is Some,
        ensures
            r.scroll_id@ == self.scroll.old_id@,
            r.volume@ == self.volume->0@,
    {
        match &self.volume {
            Some(volume) => DynamicFullVolumeReference::new(self.scroll.old_id.clone(), volume.clone()),
            None => DynamicFullVolumeReference::new(self.scroll.old_id.clone(), String::new()),
        }
    }
}

/// The segments that belong to a scroll, in their order.
pub open spec fn of_scroll(segments: Seq<Segment>, scroll: Scroll) -> Seq<Segment>
    decreases segments.len(),
{
    if segments.len() == 0 {
        Seq::empty()
    } else {
        let before = of_scroll(segments.drop_last(), scroll);
        if segments.last().scroll.same(scroll) {
            before.push(segments.last())
        } else {
            before
        }
    }
}

/// The segments with a name, in their order.
pub open spec fn with_id(segments: Seq<Segment>, id: Seq<char>) -> Seq<Segment>
    decreases segments.len(),
{
    if segments.len() == 0 {
        Seq::empty()
    } else {
        let before = with_id(segments.drop_last(), id);
        if segments.last().id@ == id {
            before.push(segments.last())
        } else {
            before
        }
    }
}

/// The names are in order.
pub open spec fn sorted_by_id(segments: Seq<Segment>) -> bool {
    forall|i: int, j: int|
        0 <= i < j < segments.len() ==> !text_before(
            (#[trigger] segments[j]).id@,
            (#[trigger] segments[i]).id@,
        )
}

/// `segments` holds what `list` holds, ordered by name. Segments with the same name keep their order.
#[verifier::opaque]
pub open spec fn arranged(list: Seq<Segment>, segments: Seq<Segment>) -> bool {
    &&& sorted_by_id(segments)
    &&& forall|id: Seq<char>| #[trigger] with_id(segments, id) == with_id(list, id)
}

/// A scroll with its segments.
pub struct ScrollSegments {
    pub scroll: Scroll,
    pub segments: Vec<Segment>,
}

pub struct Catalog {
    pub groups: Vec<ScrollSegments>,
}

/// One of the groups belongs to the scroll.
pub open spec fn has_group(groups: Seq<ScrollSegments>, scroll: Scroll) -> bool {
    exists|i: int| 0 <= i < groups.len() && (#[trigger] groups[i]).scroll.same(scroll)
}

/// What the groups list for a scroll; nothing if the scroll has no group.
pub open spec fn listed(groups: Seq<ScrollSegments>, scroll: Scroll, list: Option<Seq<Segment>>) -> bool {
    match list {
        Some(list) => exists|i: int|
            0 <= i < groups.len() && (#[trigger] groups[i]).scroll.same(scroll)
                && groups[i].segments@ == list,
        None => !has_group(groups, scroll),
    }
}

/// No scroll has two groups, and the groups are in order.
pub open spec fn in_order(groups: Seq<ScrollSegments>) -> bool {
    &&& forall|i: int, j: int|
        0 <= i < j < groups.len() ==> !(#[trigger] groups[i]).scroll.same(
            (#[trigger] groups[j]).scroll,
        )
    &&& forall|i: int, j: int|
        0 <= i < j < groups.len() ==> !(#[trigger] groups[j]).scroll.before(
            (#[trigger] groups[i]).scroll,
        )
}

/// The groups hold the segments of each scroll that occurs.
pub open spec fn grouped(segments: Seq<Segment>, groups: Seq<ScrollSegments>) -> bool {
    &&& in_order(groups)
    &&& forall|i: int|
        0 <= i < groups.len() ==> of_scroll(segments, (#[trigger] groups[i]).scroll).len() > 0
            && arranged(of_scroll(segments, groups[i].scroll), groups[i].segments@)
    &&& forall|i: int| 0 <= i < segments.len() ==> has_group(groups, (#[trigger] segments[i]).scroll)
}

proof fn lemma_with_id_add(a: Seq<Segment>, b: Seq<Segment>, id: Seq<char>)
    ensures
        with_id(a + b, id) == with_id(a, id) + with_id(b, id),
    decreases b.len(),
{
    if b.len() == 0 {
        assert(a + b =~= a);
        assert(with_id(a, id) + with_id(b, id) =~= with_id(a, id));
    } else {
        assert((a + b).drop_last() =~= a + b.drop_last());
        lemma_with_id_add(a, b.drop_last(), id);
        assert(with_id(a + b, id) =~= with_id(a, id) + with_id(b, id));
    }
}

proof fn lemma_with_id_empty(s: Seq<Segment>, id: Seq<char>)
    requires
        forall|i: int| 0 <= i < s.len() ==> (#[trigger] s[i]).id@ != id,
    ensures
        with_id(s, id) == Seq::<Segment>::empty(),
    decreases s.len(),
{
    if s.len() > 0 {
        assert(s.last() == s[s.len() - 1]);
        assert forall|i: int| 0 <= i < s.drop_last().len() implies (#[trigger] s.drop_last()[i]).id@
            != id by {
            assert(s[i] == s.drop_last()[i]);
        }
        lemma_with_id_empty(s.drop_last(), id);
    }
}

proof fn lemma_with_id_one(x: Segment, id: Seq<char>)
    ensures
        with_id(seq![x], id) == (if x.id@ == id {
            seq![x]
        } else {
            Seq::<Segment>::empty()
        }),
{
    assert(seq![x].drop_last() =~= Seq::<Segment>::empty());
    assert(with_id(seq![x].drop_last(), id) =~= Seq::<Segment>::empty());
    assert(seq![x].last() == x);
    assert(Seq::<Segment>::empty().push(x) =~= seq![x]);
}

/// A segment that is put behind all those with smaller or equal names keeps the list arranged.
proof fn lemma_inserted(run: Seq<Segment>, segments: Seq<Segment>, x: Segment, at: int)
    requires
        arranged(run, segments),
        0 <= at <= segments.len(),
        forall|i: int| 0 <= i < at ==> !text_before(x.id@, (#[trigger] segments[i]).id@),
        at < segments.len() ==> text_before(x.id@, segments[at].id@),
    ensures
        arranged(run.push(x), segments.insert(at, x)),
{
    reveal(arranged);
    let after = segments.insert(at, x);
    let head = segments.take(at);
    let tail = segments.skip(at);
    assert forall|i: int| at <= i < segments.len() implies text_before(
        x.id@,
        (#[trigger] segments[i]).id@,
    ) by {
        if i > at {
            texts_are_ordered(segments[at].id@, segments[i].id@);
            assert(!text_before(segments[i].id@, segments[at].id@));
            if segments[at].id@ != segments[i].id@ {
                text_order_is_transitive(x.id@, segments[at].id@, segments[i].id@);
            }
        }
    }
    assert forall|i: int, j: int| 0 <= i < j < after.len() implies !text_before(
        (#[trigger] after[j]).id@,
        (#[trigger] after[i]).id@,
    ) by {
        if j == at {
            assert(after[i] == segments[i]);
        } else if i == at {
            assert(after[j] == segments[j - 1]);
            texts_are_ordered(x.id@, segments[j - 1].id@);
        } else {
            let i2 = if i < at {
                i
            } else {
                i - 1
            };
            let j2 = if j < at {
                j
            } else {
                j - 1
            };
            assert(after[i] == segments[i2] && after[j] == segments[j2]);
        }
    }
    assert forall|id: Seq<char>| #[trigger] with_id(after, id) == with_id(run.push(x), id) by {
        assert(after =~= head + seq![x] + tail);
        assert(segments =~= head + tail);
        assert(run.push(x) =~= run + seq![x]);
        lemma_with_id_add(head + seq![x], tail, id);
        lemma_with_id_add(head, seq![x], id);
        lemma_with_id_add(head, tail, id);
        lemma_with_id_add(run, seq![x], id);
        lemma_with_id_one(x, id);
        assert(with_id(segments, id) == with_id(run, id));
        if x.id@ == id {
            assert forall|i: int| 0 <= i < tail.len() implies (#[trigger] tail[i]).id@ != id by {
                assert(tail[i] == segments[at + i]);
                texts_are_ordered(x.id@, x.id@);
            }
            lemma_with_id_empty(tail, id);
            assert(with_id(head, id) + seq![x] + Seq::<Segment>::empty() =~= with_id(head, id) + seq![x]);
            assert(with_id(head, id) + Seq::<Segment>::empty() =~= with_id(head, id));
        } else {
            assert(with_id(head, id) + Seq::<Segment>::empty() + with_id(tail, id) =~= with_id(head, id)
                + with_id(tail, id));
            assert(with_id(run, id) + Seq::<Segment>::empty() =~= with_id(run, id));
        }
    }
}

/// Puts a segment into its place.
fn insert_by_id(segments: &mut Vec<Segment>, x: Segment, Ghost(run): Ghost<Seq<Segment>>)
    requires
        arranged(run, old(segments)@),
    ensures
        arranged(run.push(x), final(segments)@),
{
    let mut at: usize = 0;
    while at < segments.len() && !is_before(x.id.as_str(), segments[at].id.as_str())
        invariant
            at <= segments@.len(),
            forall|i: int| 0 <= i < at ==> !text_before(x.id@, (#[trigger] segments@[i]).id@),
        decreases segments@.len() - at,
    {
        at += 1;
    }
    proof {
        lemma_inserted(run, segments@, x, at as int);
    }
    segments.insert(at, x);
}

proof fn lemma_nothing_arranged()
    ensures
        arranged(Seq::<Segment>::empty(), Seq::<Segment>::empty()),
{
    reveal(arranged);
}

/// Scrolls that are the same have the same segments.
proof fn lemma_same_scroll(segments: Seq<Segment>, a: Scroll, b: Scroll)
    requires
        a.same(b),
    ensures
        of_scroll(segments, a) == of_scroll(segments, b),
    decreases segments.len(),
{
    if segments.len() > 0 {
        lemma_same_scroll(segments.drop_last(), a, b);
    }
}

/// What one more segment does to the segments of a scroll.
proof fn lemma_one_more(segments: Seq<Segment>, x: Segment, scroll: Scroll)
    ensures
        of_scroll(segments.push(x), scroll) == (if x.scroll.same(scroll) {
            of_scroll(segments, scroll).push(x)
        } else {
            of_scroll(segments, scroll)
        }),
{
    assert(segments.push(x).drop_last() =~= segments);
}

/// A scroll that does not occur has no segments.
proof fn lemma_no_segments(segments: Seq<Segment>, scroll: Scroll)
    requires
        forall|i: int| 0 <= i < segments.len() ==> !(#[trigger] segments[i]).scroll.same(scroll),
    ensures
        of_scroll(segments, scroll) == Seq::<Segment>::empty(),
    decreases segments.len(),
{
    if segments.len() > 0 {
        assert(segments.last() == segments[segments.len() - 1]);
        assert forall|i: int| 0 <= i < segments.drop_last().len() implies !(
        #[trigger] segments.drop_last()[i]).scroll.same(scroll) by {
            assert(segments[i] == segments.drop_last()[i]);
        }
        lemma_no_segments(segments.drop_last(), scroll);
    }
}

/// Without a group a scroll has no segments.
proof fn lemma_no_group(segments: Seq<Segment>, groups: Seq<ScrollSegments>, scroll: Scroll)
    requires
        grouped(segments, groups),
        !has_group(groups, scroll),
    ensures
        of_scroll(segments, scroll) == Seq::<Segment>::empty(),
{
    assert forall|i: int| 0 <= i < segments.len() implies !(#[trigger] segments[i]).scroll.same(scroll) by {
        let g = choose|g: int|
            0 <= g < groups.len() && (#[trigger] groups[g]).scroll.same(segments[i].scroll);
        assert(has_group(groups, segments[i].scroll));
        assert(groups[g].scroll.same(segments[i].scroll));
    }
    lemma_no_segments(segments, scroll);
}

fn find_group(groups: &Vec<ScrollSegments>, scroll: &Scroll) -> (r: Option<usize>)
    ensures
        match r {
            Some(i) => i < groups@.len() && groups@[i as int].scroll.same(*scroll),
            None => !has_group(groups@, *scroll),
        },
{
    let mut i: usize = 0;
    while i < groups.len()
        invariant
            i <= groups@.len(),
            forall|k: int| 0 <= k < i ==> !(#[trigger] groups@[k]).scroll.same(*scroll),
        decreases groups@.len() - i,
    {
        if groups[i].scroll.is_same(scroll) {
            return Some(i);
        }
        i += 1;
    }
    None
}

/// The order of scrolls is total but for equal keys.
proof fn lemma_scroll_order(a: Scroll, b: Scroll, c: Scroll)
    ensures
        !(a.before(b) && b.before(a)),
        a.before(b) && !c.before(b) ==> a.before(c),
{
    texts_are_ordered(a.num@, b.num@);
    texts_are_ordered(b.num@, c.num@);
    texts_are_ordered(a.num@, c.num@);
    if a.before(b) && !c.before(b) && a.is_fragment == b.is_fragment && b.is_fragment == c.is_fragment {
        if b.num@ != c.num@ {
            text_order_is_transitive(a.num@, b.num@, c.num@);
        }
    }
}

/// Enters one more segment.
fn add_segment(groups: &mut Vec<ScrollSegments>, x: Segment, Ghost(segments): Ghost<Seq<Segment>>)
    requires
        grouped(segments, old(groups)@),
    ensures
        grouped(segments.push(x), final(groups)@),
{
    let ghost before = groups@;
    let ghost all = segments.push(x);
    proof {
        assert forall|s: Scroll| !x.scroll.same(s) implies #[trigger] of_scroll(all, s) == of_scroll(
            segments,
            s,
        ) by {
            lemma_one_more(segments, x, s);
        }
    }
    match find_group(groups, &x.scroll) {
        Some(k) => {
            let mut group = groups.remove(k);
            let ghost list = of_scroll(segments, x.scroll);
            proof {
                lemma_same_scroll(segments, group.scroll, x.scroll);
                lemma_same_scroll(all, group.scroll, x.scroll);
                lemma_one_more(segments, x, x.scroll);
            }
            let ghost y = x;
            insert_by_id(&mut group.segments, x, Ghost(list));
            groups.insert(k, group);
            proof {
                assert(groups@ =~= before.update(k as int, group));
                assert forall|i: int| 0 <= i < groups@.len() implies (#[trigger] groups@[i]).scroll
                    == before[i].scroll by {}
                assert forall|i: int| 0 <= i < groups@.len() && i != k implies !y.scroll.same(
                    (#[trigger] groups@[i]).scroll,
                ) by {
                    if i < k {
                        assert(!before[i].scroll.same(before[k as int].scroll));
                    } else {
                        assert(!before[k as int].scroll.same(before[i].scroll));
                    }
                }
                assert forall|i: int| 0 <= i < groups@.len() implies of_scroll(
                    all,
                    (#[trigger] groups@[i]).scroll,
                ).len() > 0 && arranged(of_scroll(all, groups@[i].scroll), groups@[i].segments@) by {
                    if i != k {
                        assert(groups@[i] == before[i]);
                        assert(of_scroll(all, before[i].scroll) == of_scroll(segments, before[i].scroll));
                    }
                }
                assert forall|i: int| 0 <= i < all.len() implies has_group(
                    groups@,
                    (#[trigger] all[i]).scroll,
                ) by {
                    if i < segments.len() {
                        assert(has_group(before, segments[i].scroll));
                        let g = choose|g: int|
                            0 <= g < before.len() && (#[trigger] before[g]).scroll.same(
                                segments[i].scroll,
                            );
                        assert(groups@[g].scroll.same(all[i].scroll));
                    } else {
                        assert(groups@[k as int].scroll.same(y.scroll));
                    }
                }
            }
        },
        None => {
            let scroll = x.scroll.duplicate();
            let mut at: usize = 0;
            while at < groups.len() && !scroll.comes_before(&groups[at].scroll)
                invariant
                    at <= groups@.len(),
                    groups@ == before,
                    forall|i: int| 0 <= i < at ==> !scroll.before((#[trigger] before[i]).scroll),
                decreases groups@.len() - at,
            {
                at += 1;
            }
            let mut list: Vec<Segment> = Vec::new();
            let ghost y = x;
            proof {
                lemma_one_more(segments, x, x.scroll);
                lemma_nothing_arranged();
                lemma_no_group(segments, before, x.scroll);
            }
            insert_by_id(&mut list, x, Ghost(Seq::<Segment>::empty()));
            let group = ScrollSegments { scroll, segments: list };
            groups.insert(at, group);
            proof {
                assert(groups@ =~= before.insert(at as int, group));
                lemma_new_group(segments, before, y, group, at as int);
            }
        },
    }
}

proof fn lemma_new_group(
    segments: Seq<Segment>,
    before: Seq<ScrollSegments>,
    x: Segment,
    group: ScrollSegments,
    at: int,
)
    requires
        grouped(segments, before),
        !has_group(before, x.scroll),
        group.scroll == x.scroll,
        0 <= at <= before.len(),
        forall|i: int| 0 <= i < at ==> !group.scroll.before((#[trigger] before[i]).scroll),
        at < before.len() ==> group.scroll.before(before[at].scroll),
        arranged(of_scroll(segments.push(x), x.scroll), group.segments@),
    ensures
        grouped(segments.push(x), before.insert(at, group)),
{
    let groups = before.insert(at, group);
    let all = segments.push(x);
    assert forall|i: int| at <= i < before.len() implies group.scroll.before(
        (#[trigger] before[i]).scroll,
    ) by {
        if i > at {
            assert(!before[i].scroll.before(before[at].scroll));
            lemma_scroll_order(group.scroll, before[at].scroll, before[i].scroll);
        }
    }
    assert forall|i: int, j: int| 0 <= i < j < groups.len() implies !(#[trigger] groups[j]).scroll.before(
        (#[trigger] groups[i]).scroll,
    ) && !groups[i].scroll.same(groups[j].scroll) by {
        if j == at {
            assert(groups[i] == before[i]);
        } else if i == at {
            assert(groups[j] == before[j - 1]);
            lemma_scroll_order(group.scroll, before[j - 1].scroll, group.scroll);
        } else {
            let i2 = if i < at {
                i
            } else {
                i - 1
            };
            let j2 = if j < at {
                j
            } else {
                j - 1
            };
            assert(groups[i] == before[i2] && groups[j] == before[j2]);
        }
    }
    assert forall|i: int| 0 <= i < groups.len() implies of_scroll(all, (#[trigger] groups[i]).scroll).len()
        > 0 && arranged(of_scroll(all, groups[i].scroll), groups[i].segments@) by {
        lemma_one_more(segments, x, groups[i].scroll);
        if i != at {
            let i2 = if i < at {
                i
            } else {
                i - 1
            };
            assert(groups[i] == before[i2]);
            assert(!before[i2].scroll.same(x.scroll));
        }
    }
    assert forall|i: int| 0 <= i < all.len() implies has_group(groups, (#[trigger] all[i]).scroll) by {
        if i < segments.len() {
            assert(has_group(before, segments[i].scroll));
            let g = choose|g: int|
                0 <= g < before.len() && (#[trigger] before[g]).scroll.same(segments[i].scroll);
            let g2 = if g < at {
                g
            } else {
                g + 1
            };
            assert(groups[g2].scroll.same(all[i].scroll));
        } else {
            assert(groups[at].scroll.same(x.scroll));
        }
    }
}

/// A segment occurs as often as among the segments with its name.
proof fn lemma_count_with_id(segments: Seq<Segment>, x: Segment)
    ensures
        segments.to_multiset().count(x) == with_id(segments, x.id@).to_multiset().count(x),
    decreases segments.len(),
{
    broadcast use vstd::seq_lib::group_to_multiset_ensures;

    if segments.len() > 0 {
        let rest = segments.drop_last();
        lemma_count_with_id(rest, x);
        assert(segments =~= rest.push(segments.last()));
    } else {
        assert(with_id(segments, x.id@) =~= segments);
    }
}

/// A catalog lists for each scroll a permutation of the scroll's segments, ordered by name, and
/// nothing for a scroll that does not occur.
pub proof fn all_segments_are_listed(
    segments: Seq<Segment>,
    groups: Seq<ScrollSegments>,
    scroll: Scroll,
    list: Option<Seq<Segment>>,
)
    requires
        grouped(segments, groups),
        listed(groups, scroll, list),
    ensures
        match list {
            Some(list) => {
                &&& list.to_multiset() == of_scroll(segments, scroll).to_multiset()
                &&& sorted_by_id(list)
            },
            None => of_scroll(segments, scroll).len() == 0,
        },
{
    match list {
        Some(list) => {
            let i = choose|i: int|
                0 <= i < groups.len() && (#[trigger] groups[i]).scroll.same(scroll)
                    && groups[i].segments@ == list;
            let own = of_scroll(segments, scroll);
            lemma_same_scroll(segments, groups[i].scroll, scroll);
            reveal(arranged);
            assert forall|x: Segment| #[trigger]
                list.to_multiset().count(x) == own.to_multiset().count(x) by {
                lemma_count_with_id(list, x);
                lemma_count_with_id(own, x);
                assert(with_id(list, x.id@) == with_id(own, x.id@));
            }
            assert(list.to_multiset() =~= own.to_multiset());
        },
        None => {
            lemma_no_group(segments, groups, scroll);
        },
    }
}

impl Catalog {
    /// A catalog without segments.
    pub fn new() -> (r: Catalog)
        ensures
            r.groups@.len() == 0,
    {
        Catalog { groups: Vec::new() }
    }

    /// Groups the segments by scroll.
    pub fn from_segments(segments: Vec<Segment>) -> (r: Catalog)
        ensures
            grouped(segments@, r.groups@),
    {
        let ghost all = segments@;
        let mut rest = segments;
        let mut groups: Vec<ScrollSegments> = Vec::new();
        let ghost mut n: int = 0;
        while rest.len() > 0
            invariant
                0 <= n <= all.len(),
                rest@ == all.skip(n),
                grouped(all.take(n), groups@),
            decreases rest@.len(),
        {
            let x = rest.remove(0);
            assert(x == all[n]);
            add_segment(&mut groups, x, Ghost(all.take(n)));
            proof {
                assert(all.take(n).push(all[n]) =~= all.take(n + 1));
                n = n + 1;
                assert(rest@ =~= all.skip(n));
            }
        }
        assert(all.take(n) =~= all);
        Catalog { groups }
    }

    /// The scrolls in their order.
    pub fn scrolls(&self) -> (r: Vec<&Scroll>)
        ensures
            r@.len() == self.groups@.len(),
            forall|i: int| 0 <= i < r@.len() ==> *(#[trigger] r@[i]) == self.groups@[i].scroll,
    {
        let mut r: Vec<&Scroll> = Vec::new();
        let mut i: usize = 0;
        while i < self.groups.len()
            invariant
                i <= self.groups@.len(),
                r@.len() == i,
                forall|k: int| 0 <= k < i ==> *(#[trigger] r@[k]) == self.groups@[k].scroll,
            decreases self.groups@.len() - i,
        {
            r.push(&self.groups[i].scroll);
            i += 1;
        }
        r
    }

    /// The segments of a scroll; none if the scroll does not occur.
    pub fn segments(&self, scroll: &Scroll) -> (r: Option<&Vec<Segment>>)
        ensures
            listed(
                self.groups@,
                *scroll,
                match r {
                    Some(list) => Some(list@),
                    None => None,
                },
            ),
    {
        match find_group(&self.groups, scroll) {
            Some(i) => Some(&self.groups[i].segments),
            None => None,
        }
    }
}

/// Scrolls come before fragments, and among themselves both come in the order of their numbers.
pub proof fn scrolls_come_before_fragments(a: Scroll, b: Scroll)
    ensures
        !a.is_fragment && b.is_fragment ==> a.before(b) && !b.before(a),
        a.is_fragment == b.is_fragment ==> (a.before(b) <==> text_before(a.num@, b.num@)),
        !(a.before(b) && b.before(a)),
{
    texts_are_ordered(a.num@, b.num@);
}

/// Being the same means to agree in everything: what is the same has the same place in the order,
/// and a segment keeps to its name and its scroll.
pub proof fn same_means_equal_throughout(a: Segment, b: Segment)
    ensures
        a.same(a),
        a.same(b) == b.same(a),
        a.same(b) <==> a.id@ == b.id@ && a.scroll.id@ == b.scroll.id@ && a.scroll.num@ == b.scroll.num@
            && a.scroll.old_id@ == b.scroll.old_id@ && a.scroll.is_fragment == b.scroll.is_fragment,
        a.scroll.same(b.scroll) ==> !a.scroll.before(b.scroll),
{
    texts_are_ordered(a.scroll.num@, b.scroll.num@);
}

/// The segments of a scroll are those of the list that belong to it, and those with a name are those
/// of the list that have it. They keep their order.
pub proof fn parts_of_the_list_keep_their_order(segments: Seq<Segment>, scroll: Scroll, id: Seq<char>)
    ensures
        of_scroll(segments, scroll) == segments.filter(|s: Segment| s.scroll.same(scroll)),
        with_id(segments, id) == segments.filter(|s: Segment| s.id@ == id),
    decreases segments.len(),
{
    reveal(Seq::filter);
    if segments.len() > 0 {
        parts_of_the_list_keep_their_order(segments.drop_last(), scroll, id);
    }
}

} // verus!
