//! The mesh files of segments that were fetched.

use crate::catalog::{Catalog, Segment};
use crate::text::{begins_with, ends_with, texts_hold_their_parts};
use vstd::prelude::*;
use vstd::string::*;

verus! {

/// The name of the mesh file of a segment below the cache directory.
pub open spec fn obj_file_name(segment: Segment) -> Seq<char> {
    "segments/"@ + segment.scroll.old_id@ + "/"@ + segment.id@ + ".obj"@
}

/// Computes [`obj_file_name`].
pub fn file_for(segment: &Segment) -> (r: String)
    ensures
        r@ == obj_file_name(*segment),
{
    let mut r = "segments/".to_string();
    r.append(segment.scroll.old_id.as_str());
    r.append("/");
    r.append(segment.id.as_str());
    r.append(".obj");
    r
}

/// The segments whose mesh files are there, by name.
pub struct ObjRepository {
    pub cached_objs: Vec<String>,
}

impl ObjRepository {
    /// The mesh file of the segment with this name is there.
    pub open spec fn has(&self, id: Seq<char>) -> bool {
        exists|i: int| 0 <= i < self.cached_objs@.len() && (#[trigger] self.cached_objs@[i])@ == id
    }

    /// No name stands twice.
    pub open spec fn valid(&self) -> bool {
        forall|i: int, j: int|
            0 <= i < j < self.cached_objs@.len() ==> (#[trigger] self.cached_objs@[i])@ != (
            #[trigger] self.cached_objs@[j])@
    }

    pub fn new() -> (r: ObjRepository)
        ensures
            r.valid(),
            forall|id: Seq<char>| !#[trigger] r.has(id),
    {
        ObjRepository { cached_objs: Vec::new() }
    }

    /// Takes note of a mesh file that is there.
    pub fn notify(&mut self, id: &str)
        requires
            old(self).valid(),
        ensures
            final(self).valid(),
            forall|other: Seq<char>| #[trigger]
                final(self).has(other) == (old(self).has(other) || other == id@),
    {
        if self.is_cached(id) {
            return;
        }
        let ghost before = self.cached_objs@;
        self.cached_objs.push(id.to_string());
        proof {
            assert forall|other: Seq<char>| #[trigger] self.has(other) == ((exists|i: int|
                0 <= i < before.len() && (#[trigger] before[i])@ == other) || other == id@) by {
                if other == id@ {
                    assert(self.cached_objs@[before.len() as int]@ == other);
                }
                if exists|i: int| 0 <= i < before.len() && (#[trigger] before[i])@ == other {
                    let i = choose|i: int| 0 <= i < before.len() && (#[trigger] before[i])@ == other;
                    assert(self.cached_objs@[i] == before[i]);
                }
                if self.has(other) && other != id@ {
                    let i = choose|i: int|
                        0 <= i < self.cached_objs@.len() && (#[trigger] self.cached_objs@[i])@ == other;
                    assert(before[i] == self.cached_objs@[i]);
                }
            }
            assert forall|i: int, j: int| 0 <= i < j < self.cached_objs@.len() implies (
            #[trigger] self.cached_objs@[i])@ != (#[trigger] self.cached_objs@[j])@ by {
                assert(self.cached_objs@[i] == before[i]);
                if j < before.len() {
                    assert(self.cached_objs@[j] == before[j]);
                }
            }
        }
    }

    pub fn is_cached(&self, id: &str) -> (r: bool)
        ensures
            r == self.has(id@),
    {
        let wanted = id.to_string();
        let mut i: usize = 0;
        while i < self.cached_objs.len()
            invariant
                i <= self.cached_objs@.len(),
                wanted@ == id@,
                forall|k: int| 0 <= k < i ==> (#[trigger] self.cached_objs@[k])@ != id@,
            decreases self.cached_objs@.len() - i,
        {
            if self.cached_objs[i] == wanted {
                return true;
            }
            i += 1;
        }
        false
    }

    /// The mesh file of a segment, if it is there.
    pub fn get(&self, segment: &Segment) -> (r: Option<String>)
        ensures
            match r {
                Some(file) => self.has(segment.id@) && file@ == obj_file_name(*segment),
                None => !self.has(segment.id@),
            },
    {
        if self.is_cached(segment.id.as_str()) {
            Some(file_for(segment))
        } else {
            None
        }
    }
}

/// All segments of the catalog, scroll by scroll. These are the files to look for at the start.
pub open spec fn all_segments(catalog: Catalog, n: int) -> Seq<Segment>
    decreases n,
{
    if n <= 0 {
        Seq::empty()
    } else {
        all_segments(catalog, n - 1) + catalog.groups@[n - 1].segments@
    }
}

/// The segments themselves.
pub open spec fn pointed_at(r: Seq<&Segment>) -> Seq<Segment> {
    r.map_values(|s: &Segment| *s)
}

/// Lists [`all_segments`].
pub fn segments_to_look_for(catalog: &Catalog) -> (r: Vec<&Segment>)
    ensures
        pointed_at(r@) == all_segments(*catalog, catalog.groups@.len() as int),
{
    let mut r: Vec<&Segment> = Vec::new();
    let mut g: usize = 0;
    assert(pointed_at(r@) =~= all_segments(*catalog, 0));
    while g < catalog.groups.len()
        invariant
            g <= catalog.groups@.len(),
            pointed_at(r@) == all_segments(*catalog, g as int),
        decreases catalog.groups@.len() - g,
    {
        let list = &catalog.groups[g].segments;
        let ghost before = all_segments(*catalog, g as int);
        let mut i: usize = 0;
        assert(list@.take(0) =~= Seq::<Segment>::empty());
        assert(before + list@.take(0) =~= before);
        while i < list.len()
            invariant
                i <= list@.len(),
                pointed_at(r@) == before + list@.take(i as int),
            decreases list@.len() - i,
        {
            let ghost was = r@;
            r.push(&list[i]);
            assert(pointed_at(r@) =~= pointed_at(was).push(list@[i as int]));
            assert(list@.take(i + 1) =~= list@.take(i as int).push(list@[i as int]));
            i += 1;
            assert(pointed_at(r@) =~= before + list@.take(i as int));
        }
        assert(list@.take(i as int) =~= list@);
        g += 1;
    }
    r
}

/// The mesh file of a segment lies in the directory of its scroll and is named after the segment.
pub proof fn mesh_files_are_named_after_their_segment(segment: Segment)
    ensures
        begins_with(obj_file_name(segment), "segments/"@ + segment.scroll.old_id@ + "/"@),
        ends_with(obj_file_name(segment), "/"@ + segment.id@ + ".obj"@),
        obj_file_name(segment).len() == segment.scroll.old_id@.len() + segment.id@.len() + 14,
{
    reveal_strlit("segments/");
    reveal_strlit("/");
    reveal_strlit(".obj");
    let dir = "segments/"@ + segment.scroll.old_id@;
    let rest = segment.id@ + ".obj"@;
    assert(obj_file_name(segment) =~= (dir + "/"@) + rest);
    texts_hold_their_parts(dir + "/"@, rest, Seq::empty());
    assert(obj_file_name(segment) =~= dir + ("/"@ + segment.id@ + ".obj"@));
    texts_hold_their_parts(dir, "/"@ + segment.id@ + ".obj"@, Seq::empty());
}

/// The segments of each scroll stand together, behind those of all scrolls before it.
pub proof fn segments_stand_scroll_by_scroll(catalog: Catalog, i: int, n: int)
    requires
        0 <= i < n <= catalog.groups@.len(),
    ensures
        ({
            let before = all_segments(catalog, i).len() as int;
            let own = catalog.groups@[i].segments@;
            &&& before + own.len() <= all_segments(catalog, n).len()
            &&& all_segments(catalog, n).subrange(before, before + own.len()) == own
            &&& i + 1 == n ==> all_segments(catalog, n).len() == before + own.len()
        }),
        all_segments(catalog, 0).len() == 0,
    decreases n,
{
    let before = all_segments(catalog, i).len() as int;
    let own = catalog.groups@[i].segments@;
    let all = all_segments(catalog, n);
    if i + 1 == n {
        assert(all.subrange(before, before + own.len()) =~= own);
    } else {
        segments_stand_scroll_by_scroll(catalog, i, n - 1);
        assert(all.subrange(before, before + own.len()) =~= all_segments(catalog, n - 1).subrange(
            before,
            before + own.len(),
        ));
    }
}

} // verus!
