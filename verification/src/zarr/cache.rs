//! The cache of decoded chunks, which forgets the chunks that were not needed for longest.

use vstd::prelude::*;

verus! {

/// The number of a chunk along each axis.
#[derive(Clone, Copy, PartialEq, Eq, Structural)]
pub struct ChunkNo {
    pub z: usize,
    pub y: usize,
    pub x: usize,
}

/// A chunk in memory: what was compressed, or what was stored as it is.
pub enum ChunkContext {
    Blosc(Vec<u8>),
    Raw(Vec<u8>),
}

impl ChunkContext {
    /// The voxels of the chunk.
    pub open spec fn voxels(&self) -> Seq<u8> {
        match self {
            ChunkContext::Blosc(data) => data@,
            ChunkContext::Raw(data) => data@,
        }
    }

    pub fn len(&self) -> (n: usize)
        ensures
            n == self.voxels().len(),
    {
        match self {
            ChunkContext::Blosc(data) => data.len(),
            ChunkContext::Raw(data) => data.len(),
        }
    }

    pub fn get(&self, idx: usize) -> (v: u8)
        requires
            idx < self.voxels().len(),
        ensures
            v == self.voxels()[idx as int],
    {
        match self {
            ChunkContext::Blosc(data) => data[idx],
            ChunkContext::Raw(data) => data[idx],
        }
    }
}

/// A cached chunk and the time of its last use.
pub struct ZarrContextCacheEntry {
    pub ctx: ChunkContext,
    pub last_access: u64,
}

/// What the cache knows of one chunk: `None` if it is missing.
pub struct CacheSlot {
    pub chunk_no: ChunkNo,
    pub entry: Option<ZarrContextCacheEntry>,
}

/// What is known of the chunks.
pub type Chunks = Map<ChunkNo, Option<ZarrContextCacheEntry>>;

/// The slots as a map.
pub open spec fn slots_map(slots: Seq<CacheSlot>) -> Chunks
    decreases slots.len(),
{
    if slots.len() == 0 {
        Map::empty()
    } else {
        slots_map(slots.drop_last()).insert(slots.last().chunk_no, slots.last().entry)
    }
}

/// No chunk has two slots.
pub open spec fn distinct(slots: Seq<CacheSlot>) -> bool {
    forall|i: int, j: int|
        0 <= i < j < slots.len() ==> #[trigger] slots[i].chunk_no != #[trigger] slots[j].chunk_no
}

/// The chunks that are there.
pub open spec fn present(chunks: Chunks) -> Set<ChunkNo> {
    chunks.dom().filter(|k: ChunkNo| chunks[k] is Some)
}

proof fn lemma_slots_map(slots: Seq<CacheSlot>)
    requires
        distinct(slots),
    ensures
        slots_map(slots).dom().finite(),
        forall|i: int|
            0 <= i < slots.len() ==> slots_map(slots).contains_key(#[trigger] slots[i].chunk_no)
                && slots_map(slots)[slots[i].chunk_no] == slots[i].entry,
        forall|k: ChunkNo| #[trigger]
            slots_map(slots).contains_key(k) ==> exists|i: int|
                0 <= i < slots.len() && #[trigger] slots[i].chunk_no == k,
    decreases slots.len(),
{
    if slots.len() > 0 {
        let init = slots.drop_last();
        assert(distinct(init)) by {
            assert forall|i: int, j: int| 0 <= i < j < init.len() implies #[trigger] init[i].chunk_no
                != #[trigger] init[j].chunk_no by {
                assert(slots[i].chunk_no != slots[j].chunk_no);
            }
        }
        lemma_slots_map(init);
        assert forall|i: int| 0 <= i < slots.len() implies slots_map(slots).contains_key(
            #[trigger] slots[i].chunk_no,
        ) && slots_map(slots)[slots[i].chunk_no] == slots[i].entry by {
            if i < init.len() {
                assert(init[i] == slots[i]);
                assert(slots[i].chunk_no != slots[slots.len() - 1].chunk_no);
            }
        }
        assert forall|k: ChunkNo| #[trigger] slots_map(slots).contains_key(k) implies exists|i: int|
            0 <= i < slots.len() && #[trigger] slots[i].chunk_no == k by {
            if k == slots.last().chunk_no {
                assert(slots[slots.len() - 1].chunk_no == k);
            } else {
                assert(slots_map(init).contains_key(k));
                let i = choose|i: int| 0 <= i < init.len() && #[trigger] init[i].chunk_no == k;
                assert(slots[i].chunk_no == k);
            }
        }
    }
}

proof fn lemma_slot_removed(slots: Seq<CacheSlot>, i: int)
    requires
        distinct(slots),
        0 <= i < slots.len(),
    ensures
        distinct(slots.remove(i)),
        slots_map(slots.remove(i)) == slots_map(slots).remove(slots[i].chunk_no),
{
    let rest = slots.remove(i);
    assert forall|a: int, b: int| 0 <= a < b < rest.len() implies #[trigger] rest[a].chunk_no
        != #[trigger] rest[b].chunk_no by {
        let a2 = if a < i { a } else { a + 1 };
        let b2 = if b < i { b } else { b + 1 };
        assert(slots[a2].chunk_no != slots[b2].chunk_no);
    }
    lemma_slots_map(slots);
    lemma_slots_map(rest);
    let expected = slots_map(slots).remove(slots[i].chunk_no);
    assert forall|k: ChunkNo| #[trigger] slots_map(rest).contains_key(k) implies expected.contains_key(
        k,
    ) && expected[k] == slots_map(rest)[k] by {
        let a = choose|a: int| 0 <= a < rest.len() && #[trigger] rest[a].chunk_no == k;
        let a2 = if a < i { a } else { a + 1 };
        assert(rest[a] == slots[a2]);
        assert(slots[a2].chunk_no != slots[i].chunk_no);
    }
    assert forall|k: ChunkNo| #[trigger] expected.contains_key(k) implies slots_map(rest).contains_key(
        k,
    ) by {
        let a = choose|a: int| 0 <= a < slots.len() && #[trigger] slots[a].chunk_no == k;
        let a2 = if a < i { a } else { a - 1 };
        assert(rest[a2] == slots[a]);
    }
    assert(slots_map(rest) =~= expected);
}

/// `after` is what is left of `before` when the `n` chunks are forgotten that were not needed for
/// longest. Of chunks that were last used at the same time any may be chosen.
pub open spec fn forgets_oldest(before: Chunks, after: Chunks, n: nat, victims: Set<ChunkNo>) -> bool {
    &&& victims.subset_of(present(before))
    &&& victims.finite()
    &&& victims.len() == (if n < present(before).len() {
        n
    } else {
        present(before).len()
    })
    &&& after == before.remove_keys(victims)
    &&& forall|v: ChunkNo, k: ChunkNo|
        victims.contains(v) && present(before).contains(k) && !victims.contains(k) ==> (
        #[trigger] before[v])->0.last_access <= (#[trigger] before[k])->0.last_access
}

/// The position of the chunk that was not needed for longest.
fn oldest(slots: &Vec<CacheSlot>) -> (r: Option<usize>)
    ensures
        r is None <==> (forall|i: int| 0 <= i < slots@.len() ==> (#[trigger] slots@[i]).entry is None),
        r matches Some(k) ==> {
            &&& k < slots@.len()
            &&& slots@[k as int].entry is Some
            &&& forall|i: int|
                0 <= i < slots@.len() && (#[trigger] slots@[i]).entry is Some
                    ==> slots@[k as int].entry->0.last_access <= slots@[i].entry->0.last_access
        },
{
    let mut best: Option<usize> = None;
    let mut best_access: u64 = 0;
    let mut i: usize = 0;
    while i < slots.len()
        invariant
            i <= slots@.len(),
            best is None <==> (forall|j: int| 0 <= j < i ==> (#[trigger] slots@[j]).entry is None),
            best matches Some(k) ==> {
                &&& k < i
                &&& slots@[k as int].entry is Some
                &&& best_access == slots@[k as int].entry->0.last_access
                &&& forall|j: int|
                    0 <= j < i && (#[trigger] slots@[j]).entry is Some ==> best_access
                        <= slots@[j].entry->0.last_access
            },
        decreases slots@.len() - i,
    {
        if let Some(entry) = &slots[i].entry {
            if best.is_none() || entry.last_access < best_access {
                best = Some(i);
                best_access = entry.last_access;
            }
        }
        i += 1;
    }
    best
}

/// The cache. `non_empty_entries` may count a chunk twice that two readers have put in.
pub struct ZarrContextCache {
    pub slots: Vec<CacheSlot>,
    pub access_counter: u64,
    pub non_empty_entries: usize,
    pub max_entries: usize,
}

/// How many chunks of `chunk_size` voxels have about 6 GB together.
pub open spec fn entry_limit(chunk_size: int) -> int {
    if 6_000_000_000int / chunk_size <= usize::MAX {
        6_000_000_000int / chunk_size
    } else {
        usize::MAX as int
    }
}

impl ZarrContextCache {
    pub open spec fn chunks(&self) -> Chunks {
        slots_map(self.slots@)
    }

    pub open spec fn valid(&self) -> bool {
        &&& distinct(self.slots@)
        &&& present(self.chunks()).finite()
        &&& present(self.chunks()).len() <= self.non_empty_entries
    }

    /// A cache for chunks of `chunk_size` voxels, of which it keeps as many as [`entry_limit`]
    /// says.
    pub fn new(chunk_size: usize) -> (cache: ZarrContextCache)
        requires
            chunk_size > 0,
        ensures
            cache.valid(),
            cache.chunks() == Chunks::empty(),
            cache.access_counter == 0,
            cache.non_empty_entries == 0,
            cache.max_entries == entry_limit(chunk_size as int),
    {
        let wanted: u64 = 6_000_000_000 / chunk_size as u64;
        let max_entries: usize = if wanted <= usize::MAX as u64 {
            wanted as usize
        } else {
            usize::MAX
        };
        let slots: Vec<CacheSlot> = Vec::new();
        assert(present(slots_map(slots@)) =~= Set::empty());
        ZarrContextCache { slots, access_counter: 0, non_empty_entries: 0, max_entries }
    }

    /// The position of a chunk.
    fn find(&self, chunk_no: ChunkNo) -> (r: Option<usize>)
        requires
            self.valid(),
        ensures
            r is Some <==> self.chunks().contains_key(chunk_no),
            r matches Some(i) ==> i < self.slots@.len() && self.slots@[i as int].chunk_no == chunk_no,
    {
        proof {
            lemma_slots_map(self.slots@);
        }
        let mut i: usize = 0;
        while i < self.slots.len()
            invariant
                i <= self.slots@.len(),
                forall|j: int| 0 <= j < i ==> (#[trigger] self.slots@[j]).chunk_no != chunk_no,
                distinct(self.slots@),
            decreases self.slots@.len() - i,
        {
            if self.slots[i].chunk_no == chunk_no {
                proof {
                    lemma_slots_map(self.slots@);
                }
                return Some(i);
            }
            i += 1;
        }
        None
    }

    pub fn contains(&self, chunk_no: ChunkNo) -> (r: bool)
        requires
            self.valid(),
        ensures
            r == self.chunks().contains_key(chunk_no),
    {
        self.find(chunk_no).is_some()
    }

    /// Takes a chunk out.
    pub fn take(&mut self, chunk_no: ChunkNo) -> (r: Option<Option<ZarrContextCacheEntry>>)
        requires
            old(self).valid(),
        ensures
            final(self).valid(),
            final(self).access_counter == old(self).access_counter,
            final(self).max_entries == old(self).max_entries,
            final(self).chunks() == old(self).chunks().remove(chunk_no),
            match r {
                Some(entry) => {
                    &&& old(self).chunks().contains_key(chunk_no)
                    &&& entry == old(self).chunks()[chunk_no]
                    &&& final(self).non_empty_entries == old(self).non_empty_entries - (
                    if entry is Some {
                        1int
                    } else {
                        0
                    })
                },
                None => {
                    &&& !old(self).chunks().contains_key(chunk_no)
                    &&& final(self).non_empty_entries == old(self).non_empty_entries
                },
            },
    {
        match self.find(chunk_no) {
            Some(i) => {
                let ghost before = self.slots@;
                proof {
                    lemma_slots_map(before);
                    lemma_slot_removed(before, i as int);
                    lemma_present_removed(slots_map(before), chunk_no);
                }
                let slot = self.slots.remove(i);
                if slot.entry.is_some() {
                    self.non_empty_entries = self.non_empty_entries - 1;
                }
                Some(slot.entry)
            },
            None => {
                assert(self.chunks().remove(chunk_no) =~= self.chunks());
                None
            },
        }
    }

    /// Puts a chunk in, in place of what is known of it.
    pub fn insert(&mut self, chunk_no: ChunkNo, entry: Option<ZarrContextCacheEntry>)
        requires
            old(self).valid(),
            old(self).non_empty_entries < usize::MAX,
        ensures
            final(self).valid(),
            final(self).access_counter == old(self).access_counter,
            final(self).max_entries == old(self).max_entries,
            final(self).chunks() == old(self).chunks().insert(chunk_no, entry),
            final(self).non_empty_entries == old(self).non_empty_entries + (if entry is Some {
                1int
            } else {
                0
            }),
    {
        let ghost before = self.chunks();
        if let Some(i) = self.find(chunk_no) {
            proof {
                lemma_slots_map(self.slots@);
                lemma_slot_removed(self.slots@, i as int);
                lemma_present_removed(before, chunk_no);
            }
            let _ = self.slots.remove(i);
        }
        let ghost rest = self.slots@;
        proof {
            assert(slots_map(rest) =~= before.remove(chunk_no));
            lemma_slots_map(rest);
        }
        if entry.is_some() {
            self.non_empty_entries = self.non_empty_entries + 1;
        }
        self.slots.push(CacheSlot { chunk_no, entry });
        proof {
            assert(self.slots@.drop_last() =~= rest);
            assert(self.chunks() =~= before.insert(chunk_no, entry));
            assert forall|i: int, j: int| 0 <= i < j < self.slots@.len() implies #[trigger] self.slots@[i].chunk_no
                != #[trigger] self.slots@[j].chunk_no by {
                if j < rest.len() {
                    assert(rest[i].chunk_no != rest[j].chunk_no);
                } else {
                    assert(slots_map(rest).contains_key(rest[i].chunk_no));
                }
            }
            lemma_present_inserted(slots_map(rest), chunk_no, entry);
            assert(slots_map(rest).insert(chunk_no, entry) =~= self.chunks());
        }
    }

    /// A chunk that is used now.
    pub fn entry(&self, ctx: Option<ChunkContext>) -> (r: Option<ZarrContextCacheEntry>)
        ensures
            r == entry_at(self.access_counter, ctx),
    {
        match ctx {
            Some(ctx) => Some(ZarrContextCacheEntry { ctx, last_access: self.access_counter }),
            None => None,
        }
    }

    /// Forgets a fifth of the chunks if there are too many, those first that were not needed for
    /// longest.
    pub fn cleanup(&mut self)
        requires
            old(self).valid(),
        ensures
            final(self).valid(),
            final(self).access_counter == old(self).access_counter,
            final(self).max_entries == old(self).max_entries,
            old(self).non_empty_entries <= old(self).max_entries ==> {
                &&& final(self).chunks() == old(self).chunks()
                &&& final(self).non_empty_entries == old(self).non_empty_entries
            },
            old(self).non_empty_entries > old(self).max_entries ==> exists|victims: Set<ChunkNo>|
                {
                    &&& #[trigger] forgets_oldest(
                        old(self).chunks(),
                        final(self).chunks(),
                        (old(self).non_empty_entries / 5) as nat,
                        victims,
                    )
                    &&& final(self).non_empty_entries == old(self).non_empty_entries - victims.len()
                },
    {
        if self.non_empty_entries > self.max_entries {
            let n: usize = self.non_empty_entries / 5;
            let ghost before = self.chunks();
            let ghost count = self.non_empty_entries;
            let ghost max = self.max_entries;
            let ghost counter = self.access_counter;
            let ghost mut victims = Set::<ChunkNo>::empty();
            let mut removed: usize = 0;
            let mut done = false;
            assert(before.remove_keys(victims) =~= before);
            while removed < n && !done
                invariant
                    self.valid(),
                    self.access_counter == counter,
                    self.max_entries == max,
                    n == count / 5,
                    removed <= n,
                    self.non_empty_entries == count - removed,
                    victims.finite(),
                    victims.len() == removed,
                    victims.subset_of(present(before)),
                    present(before).finite(),
                    self.chunks() == before.remove_keys(victims),
                    done ==> present(self.chunks()) == Set::<ChunkNo>::empty(),
                    forall|v: ChunkNo, k: ChunkNo|
                        victims.contains(v) && present(before).contains(k) && !victims.contains(k)
                            ==> (#[trigger] before[v])->0.last_access <= (
                        #[trigger] before[k])->0.last_access,
                decreases n - removed + (if done { 0int } else { 1 }),
            {
                let ghost current = self.chunks();
                proof {
                    lemma_slots_map(self.slots@);
                }
                match oldest(&self.slots) {
                    Some(i) => {
                        let ghost v = self.slots@[i as int].chunk_no;
                        let ghost slots = self.slots@;
                        proof {
                            lemma_slot_removed(slots, i as int);
                            lemma_present_removed(current, v);
                            assert(present(current).contains(v));
                            assert(present(before).contains(v));
                            assert(!victims.contains(v));
                            assert forall|k: ChunkNo| present(before).contains(k) && !victims.contains(k)
                                implies before[v]->0.last_access <= (
                            #[trigger] before[k])->0.last_access by {
                                assert(current.contains_key(k));
                                let j = choose|j: int|
                                    0 <= j < slots.len() && #[trigger] slots[j].chunk_no == k;
                                assert(slots[j].entry == before[k]);
                            }
                            assert(current.remove(v) =~= before.remove_keys(victims.insert(v)));
                            victims = victims.insert(v);
                        }
                        let _ = self.slots.remove(i);
                        self.non_empty_entries = self.non_empty_entries - 1;
                        removed += 1;
                    },
                    None => {
                        done = true;
                        proof {
                            assert forall|k: ChunkNo| !present(current).contains(k) by {
                                if current.contains_key(k) {
                                    let j = choose|j: int|
                                        0 <= j < self.slots@.len() && #[trigger] self.slots@[j].chunk_no == k;
                                    assert(self.slots@[j].entry is None);
                                }
                            }
                            assert(present(current) =~= Set::<ChunkNo>::empty());
                        }
                    },
                }
            }
            proof {
                vstd::set_lib::lemma_len_subset(victims, present(before));
                if done {
                    assert forall|k: ChunkNo| present(before).contains(k) implies victims.contains(k) by {
                        if !victims.contains(k) {
                            assert(present(self.chunks()).contains(k));
                        }
                    }
                    assert(victims =~= present(before));
                }
                assert(forgets_oldest(before, self.chunks(), n as nat, victims));
            }
        }
    }

    /// Forgets which chunks are missing.
    pub fn purge_missing(&mut self)
        requires
            old(self).valid(),
        ensures
            final(self).valid(),
            final(self).access_counter == old(self).access_counter,
            final(self).max_entries == old(self).max_entries,
            final(self).non_empty_entries == old(self).non_empty_entries,
            final(self).chunks() == old(self).chunks().restrict(present(old(self).chunks())),
    {
        let ghost before = self.chunks();
        let ghost counter = self.access_counter;
        let ghost max = self.max_entries;
        let ghost count = self.non_empty_entries;
        let mut i: usize = 0;
        proof {
            lemma_slots_map(self.slots@);
        }
        while i < self.slots.len()
            invariant
                self.valid(),
                self.access_counter == counter,
                self.max_entries == max,
                self.non_empty_entries == count,
                i <= self.slots@.len(),
                self.chunks().submap_of(before),
                forall|k: ChunkNo|
                    present(before).contains(k) ==> #[trigger] self.chunks().contains_key(k),
                forall|j: int| 0 <= j < i ==> (#[trigger] self.slots@[j]).entry is Some,
            decreases self.slots@.len() - i,
        {
            let ghost slots = self.slots@;
            proof {
                lemma_slots_map(slots);
            }
            if self.slots[i].entry.is_none() {
                let ghost k0 = slots[i as int].chunk_no;
                proof {
                    lemma_slot_removed(slots, i as int);
                    lemma_present_removed(slots_map(slots), k0);
                    assert(slots_map(slots).contains_key(k0));
                    assert(slots_map(slots)[k0] == slots[i as int].entry);
                    assert(before.contains_key(k0) && before[k0] == slots_map(slots)[k0]);
                }
                let _ = self.slots.remove(i);
            } else {
                i += 1;
            }
        }
        proof {
            lemma_slots_map(self.slots@);
            assert forall|k: ChunkNo| #[trigger] self.chunks().contains_key(k) implies present(
                before,
            ).contains(k) by {
                let j = choose|j: int|
                    0 <= j < self.slots@.len() && #[trigger] self.slots@[j].chunk_no == k;
                assert(self.slots@[j].entry is Some);
            }
            assert(self.chunks() =~= before.restrict(present(before)));
        }
    }
}

/// A chunk that is used at the time `now`.
pub open spec fn entry_at(now: u64, ctx: Option<ChunkContext>) -> Option<ZarrContextCacheEntry> {
    match ctx {
        Some(ctx) => Some(ZarrContextCacheEntry { ctx, last_access: now }),
        None => None,
    }
}

proof fn lemma_present_removed(chunks: Chunks, k: ChunkNo)
    requires
        present(chunks).finite(),
    ensures
        present(chunks.remove(k)) == present(chunks).remove(k),
        present(chunks.remove(k)).finite(),
        present(chunks.remove(k)).len() <= present(chunks).len(),
        present(chunks).contains(k) ==> present(chunks.remove(k)).len() == present(chunks).len() - 1,
{
    assert(present(chunks.remove(k)) =~= present(chunks).remove(k));
}

proof fn lemma_present_inserted(chunks: Chunks, k: ChunkNo, entry: Option<ZarrContextCacheEntry>)
    requires
        present(chunks).finite(),
        !chunks.contains_key(k),
    ensures
        present(chunks.insert(k, entry)).finite(),
        present(chunks.insert(k, entry)).len() == present(chunks).len() + (if entry is Some {
            1int
        } else {
            0
        }),
{
    if entry is Some {
        assert(present(chunks.insert(k, entry)) =~= present(chunks).insert(k));
    } else {
        assert(present(chunks.insert(k, entry)) =~= present(chunks));
    }
}

/// The cache knows of a chunk exactly what its slot says, and nothing of a chunk without a slot.
pub proof fn slots_tell_what_is_known(slots: Seq<CacheSlot>, k: ChunkNo, i: int)
    requires
        distinct(slots),
    ensures
        0 <= i < slots.len() ==> slots_map(slots).contains_key(slots[i].chunk_no) && slots_map(
            slots,
        )[slots[i].chunk_no] == slots[i].entry,
        slots_map(slots).contains_key(k) ==> exists|j: int|
            0 <= j < slots.len() && (#[trigger] slots[j]).chunk_no == k,
    decreases slots.len(),
{
    if slots.len() > 0 {
        let rest = slots.drop_last();
        let last = slots.len() - 1;
        assert(slots[last] == slots.last());
        assert forall|a: int, b: int|
            0 <= a < b < rest.len() implies #[trigger] rest[a].chunk_no != #[trigger] rest[b].chunk_no by {
            assert(rest[a] == slots[a] && rest[b] == slots[b]);
        }
        slots_tell_what_is_known(rest, k, i);
        if 0 <= i < last {
            assert(rest[i] == slots[i]);
            assert(slots[i].chunk_no != slots[last].chunk_no);
        }
        if slots_map(rest).contains_key(k) {
            let j = choose|j: int| 0 <= j < rest.len() && (#[trigger] rest[j]).chunk_no == k;
            assert(slots[j].chunk_no == k);
        }
    }
}

/// What is forgotten was not needed for longer than anything that is kept. What is kept is kept
/// unchanged, and chunks that are known to be missing stay known.
pub proof fn the_oldest_are_forgotten(
    before: Chunks,
    after: Chunks,
    n: nat,
    victims: Set<ChunkNo>,
    gone: ChunkNo,
    kept: ChunkNo,
)
    requires
        forgets_oldest(before, after, n, victims),
        present(before).finite(),
        before.contains_key(gone),
        !after.contains_key(gone),
        after.contains_key(kept),
    ensures
        before[gone] is Some,
        before.contains_key(kept),
        after[kept] == before[kept],
        before[kept] is Some ==> before[gone]->0.last_access <= before[kept]->0.last_access,
        victims.contains(gone),
        victims.len() <= n,
        victims.len() < n ==> before[kept] is None,
{
    assert(victims.contains(gone));
    assert(present(before).contains(gone));
    assert(!victims.contains(kept));
    if before[kept] is Some {
        assert(present(before).contains(kept));
    }
    if victims.len() < n && before[kept] is Some {
        assert(victims.len() == present(before).len());
        vstd::set_lib::lemma_subset_equality(victims, present(before));
    }
}

/// A chunk that is used is as recent as the time says, and holds what was read; what is not there has
/// no time.
pub proof fn used_chunks_are_recent(now: u64, ctx: ChunkContext)
    ensures
        entry_at(now, Some(ctx)) is Some,
        entry_at(now, Some(ctx))->0.last_access == now,
        entry_at(now, Some(ctx))->0.ctx == ctx,
        entry_at(now, None) is None,
{
}

/// As many chunks are kept as fit into six thousand million bytes, and not one less.
pub proof fn as_many_chunks_as_fit_are_kept(chunk_size: int)
    requires
        chunk_size >= 1,
        usize::MAX >= 6_000_000_000,
    ensures
        entry_limit(chunk_size) * chunk_size <= 6_000_000_000 < (entry_limit(chunk_size) + 1) * chunk_size,
{
    let total = 6_000_000_000int;
    vstd::arithmetic::div_mod::lemma_fundamental_div_mod(total, chunk_size);
    vstd::arithmetic::div_mod::lemma_mod_bound(total, chunk_size);
    vstd::arithmetic::div_mod::lemma_div_nonincreasing(total, chunk_size);
    let q = total / chunk_size;
    assert(chunk_size * q == q * chunk_size && (q + 1) * chunk_size == q * chunk_size + chunk_size)
        by (nonlinear_arith);
}

} // verus!
