//! The description of a Zarr array, the names of its chunk files, and reading single voxels.

use crate::grid::{cells3, flat3, index3, lemma_flat3_bound};
use crate::outside::{sha256, sha256_digest};
use crate::text::{digits, push_number, without_slash, without_trailing_slash};
use crate::zarr::blosc::{blocks_content, readable, BloscChunk, BloscHeader};
use crate::zarr::cache::{entry_at, forgets_oldest, ChunkContext, ChunkNo, Chunks, ZarrContextCache};
use vstd::prelude::*;
use vstd::string::*;

verus! {

pub enum ZarrOrder {
    ColumnMajor,
    RowMajor,
}

pub enum ZarrCompressionName {
    Lz4,
    Zstd,
}

pub struct ZarrCompressor {
    pub blocksize: u8,
    pub clevel: u8,
    pub compression_name: ZarrCompressionName,
    pub id: String,
    pub shuffle: u8,
}

/// What the file `.zarray` says.
pub struct ZarrArrayDef {
    pub chunks: Vec<usize>,
    pub compressor: Option<ZarrCompressor>,
    pub dtype: String,
    pub fill_value: u8,
    pub order: ZarrOrder,
    pub shape: Vec<usize>,
    pub zarr_format: u8,
    pub dimension_separator: Option<String>,
}

/// The numbers in decimal, with `separator` between them.
pub open spec fn joined(numbers: Seq<usize>, separator: Seq<char>) -> Seq<char>
    decreases numbers.len(),
{
    if numbers.len() == 0 {
        Seq::empty()
    } else if numbers.len() == 1 {
        digits(numbers[0] as nat)
    } else {
        joined(numbers.drop_last(), separator) + separator + digits(numbers.last() as nat)
    }
}

/// `dir` and the numbers of a chunk behind a slash.
fn chunk_path(dir: &str, chunk_no: &[usize], separator: &str) -> (path: String)
    ensures
        path@ == dir@ + "/"@ + joined(chunk_no@, separator@),
{
    let mut path = dir.to_owned();
    path.append("/");
    let ghost start = path@;
    let mut i: usize = 0;
    assert(path@ =~= start + joined(chunk_no@.take(0), separator@));
    while i < chunk_no.len()
        invariant
            i <= chunk_no@.len(),
            path@ == start + joined(chunk_no@.take(i as int), separator@),
        decreases chunk_no@.len() - i,
    {
        let ghost before = path@;
        if i > 0 {
            path.append(separator);
        }
        push_number(&mut path, chunk_no[i] as u64);
        proof {
            let next = chunk_no@.take(i + 1);
            assert(next.drop_last() =~= chunk_no@.take(i as int));
            assert(next.last() == chunk_no@[i as int]);
            assert(path@ =~= start + joined(next, separator@));
        }
        i += 1;
    }
    assert(chunk_no@.take(i as int) =~= chunk_no@);
    path
}

/// The bytes as lower-case hexadecimal digits.
pub open spec fn hex(bytes: Seq<u8>) -> Seq<char>
    decreases bytes.len(),
{
    if bytes.len() == 0 {
        Seq::empty()
    } else {
        hex(bytes.drop_last()) + seq![hex_char(bytes.last() as int / 16), hex_char(
            bytes.last() as int % 16,
        )]
    }
}

pub open spec fn hex_char(d: int) -> char {
    if d < 10 {
        (48 + d) as char
    } else {
        (87 + d) as char
    }
}

fn hex_digit(d: u8) -> (c: char)
    requires
        d < 16,
    ensures
        c == hex_char(d as int),
{
    if d < 10 {
        (48 + d) as char
    } else {
        (87 + d) as char
    }
}

/// Writes bytes as lower-case hexadecimal digits.
pub fn to_hex(bytes: &[u8]) -> (r: String)
    ensures
        r@ == hex(bytes@),
{
    let mut r = String::new();
    let mut i: usize = 0;
    while i < bytes.len()
        invariant
            i <= bytes@.len(),
            r@ == hex(bytes@.take(i as int)),
        decreases bytes@.len() - i,
    {
        let b: u8 = bytes[i];
        r.push(hex_digit(b / 16));
        r.push(hex_digit(b % 16));
        proof {
            let next = bytes@.take(i + 1);
            assert(next.drop_last() =~= bytes@.take(i as int));
            assert(next.last() == b);
            assert(r@ =~= hex(next));
        }
        i += 1;
    }
    assert(bytes@.take(i as int) =~= bytes@);
    r
}

/// The name of the directory that caches what lies at a URL. One slash at the end does not count.
pub open spec fn cache_dir_name(url: Seq<char>) -> Seq<char> {
    hex(sha256(vstd::utf8::encode_utf8(without_slash(url))))
}

/// Computes [`cache_dir_name`].
pub fn default_cache_dir(url: &str) -> (name: String)
    ensures
        name@ == cache_dir_name(url@),
{
    let canonical = without_trailing_slash(url);
    let digest = sha256_digest(canonical.as_str().as_bytes());
    to_hex(&digest)
}

/// A slash at the end of a URL does not lead to another cache directory.
pub proof fn cache_dir_ignores_a_trailing_slash(url: Seq<char>)
    requires
        url.len() == 0 || url.last() != '/',
    ensures
        cache_dir_name(url.push('/')) == cache_dir_name(url),
{
    assert(url.push('/').drop_last() =~= url);
}

impl ZarrArrayDef {
    /// What separates the numbers in the name of a chunk: a dot if nothing is said.
    pub open spec fn separator(&self) -> Seq<char> {
        match self.dimension_separator {
            Some(s) => s@,
            None => "."@,
        }
    }

    /// The file of a chunk below the place of the array.
    pub fn chunk_file_for(&self, location: &str, chunk_no: &[usize]) -> (path: String)
        ensures
            path@ == location@ + "/"@ + joined(chunk_no@, self.separator()),
    {
        match &self.dimension_separator {
            Some(s) => chunk_path(location, chunk_no, s.as_str()),
            None => chunk_path(location, chunk_no, "."),
        }
    }

    /// The file of a chunk in the local cache of a remote array.
    pub fn cached_chunk_file_for(&self, local_cache_dir: &str, chunk_no: &[usize]) -> (path: String)
        ensures
            path@ == local_cache_dir@ + "/"@ + joined(chunk_no@, "/"@),
    {
        chunk_path(local_cache_dir, chunk_no, "/")
    }

    /// The array has three axes, and its chunks are not empty and fit in memory.
    pub open spec fn valid3(&self) -> bool {
        &&& self.chunks@.len() == 3
        &&& self.shape@.len() == 3
        &&& self.chunks@[0] > 0 && self.chunks@[1] > 0 && self.chunks@[2] > 0
        &&& self.chunk_size() <= usize::MAX
    }

    /// How many voxels a chunk has.
    pub open spec fn chunk_size(&self) -> int {
        cells3(self.chunks@[2] as int, self.chunks@[1] as int, self.chunks@[0] as int)
    }

    /// How many voxels a chunk has.
    pub fn voxels_per_chunk(&self) -> (n: usize)
        requires
            self.valid3(),
        ensures
            n == self.chunk_size(),
            n > 0,
    {
        proof {
            let (a, b, c) = (self.chunks@[0] as int, self.chunks@[1] as int, self.chunks@[2] as int);
            assert(0 < a * b <= (a * b) * c) by (nonlinear_arith)
                requires
                    a > 0,
                    b > 0,
                    c > 0,
            ;
        }
        self.chunks[0] * self.chunks[1] * self.chunks[2]
    }

    /// The chunk that a voxel lies in.
    pub open spec fn chunk_of(&self, index: [usize; 3]) -> ChunkNo {
        ChunkNo {
            z: (index@[0] / self.chunks@[0]) as usize,
            y: (index@[1] / self.chunks@[1]) as usize,
            x: (index@[2] / self.chunks@[2]) as usize,
        }
    }

    /// Where a voxel stands in its chunk.
    pub open spec fn offset_of(&self, index: [usize; 3]) -> int {
        flat3(
            self.chunks@[2] as int,
            self.chunks@[1] as int,
            (index@[2] % self.chunks@[2]) as int,
            (index@[1] % self.chunks@[1]) as int,
            (index@[0] % self.chunks@[0]) as int,
        )
    }

    /// No coordinate is above the extent of the array.
    pub open spec fn covers(&self, index: [usize; 3]) -> bool {
        &&& index@[0] <= self.shape@[0]
        &&& index@[1] <= self.shape@[1]
        &&& index@[2] <= self.shape@[2]
    }

    /// How the bytes of a chunk file are to be read.
    pub fn load_chunk_context(&self, file_name: String, data: Vec<u8>) -> (r: Option<ChunkContext>)
        ensures
            match self.compressor {
                Some(compressor) => if compressor.id@ == "blosc"@ && readable(data@) {
                    r is Some && r->0 is Blosc && r->0.voxels() == blocks_content(
                        data@,
                        BloscHeader::of(data@).blocks(),
                    )
                } else {
                    r is None
                },
                None => r == Some(ChunkContext::Raw(data)),
            },
    {
        match &self.compressor {
            Some(compressor) => {
                let blosc = "blosc".to_owned();
                if compressor.id == blosc {
                    match BloscChunk::try_load_data(file_name, data) {
                        Some(content) => Some(ChunkContext::Blosc(content)),
                        None => None,
                    }
                } else {
                    None
                }
            },
            None => Some(ChunkContext::Raw(data)),
        }
    }
}

/// How an array is cut into chunks: a voxel lies in its chunk, which takes `chunks` voxels along each
/// axis, the first axis being that of the layers and the last that of the columns.
pub proof fn voxels_lie_in_their_chunk(def: ZarrArrayDef, a: [usize; 3])
    requires
        def.valid3(),
    ensures
        def.chunk_of(a).z * def.chunks@[0] <= a@[0] < (def.chunk_of(a).z + 1) * def.chunks@[0],
        def.chunk_of(a).y * def.chunks@[1] <= a@[1] < (def.chunk_of(a).y + 1) * def.chunks@[1],
        def.chunk_of(a).x * def.chunks@[2] <= a@[2] < (def.chunk_of(a).x + 1) * def.chunks@[2],
{
    assert forall|i: int| 0 <= i < 3 implies {
        let (v, c) = (a@[i] as int, #[trigger] def.chunks@[i] as int);
        &&& (v / c) * c <= v < (v / c + 1) * c
        &&& v / c <= usize::MAX
    } by {
        let (v, c) = (a@[i] as int, def.chunks@[i] as int);
        assert((v / c) * c <= v < (v / c + 1) * c && 0 <= v / c <= v) by (nonlinear_arith)
            requires
                v >= 0,
                c > 0,
        ;
    }
    assert(def.chunks@[0] > 0 && def.chunks@[1] > 0 && def.chunks@[2] > 0);
}

/// How a chunk is stored, row by row: its first voxel stands at its start, the next column is 1
/// byte further, the next row as many bytes as the chunk has columns, and the next layer as many
/// as a layer of the chunk has voxels.
pub proof fn chunks_are_stored_row_by_row(def: ZarrArrayDef, a: [usize; 3], b: [usize; 3])
    requires
        def.valid3(),
        def.chunk_of(a) == def.chunk_of(b),
    ensures
        def.offset_of(b) - def.offset_of(a) == (b@[0] - a@[0]) * (def.chunks@[1] * def.chunks@[2]) + (
        b@[1] - a@[1]) * def.chunks@[2] + (b@[2] - a@[2]),
        a@[0] == def.chunk_of(a).z * def.chunks@[0] && a@[1] == def.chunk_of(a).y * def.chunks@[1] && a@[2]
            == def.chunk_of(a).x * def.chunks@[2] ==> def.offset_of(a) == 0,
{
    let c = def.chunks@;
    voxels_lie_in_their_chunk(def, a);
    voxels_lie_in_their_chunk(def, b);
    assert forall|i: int| 0 <= i < 3 implies #[trigger] c[i] > 0 && a@[i] % c[i] == a@[i] - (a@[i] as int
        / c[i] as int) * c[i] && b@[i] % c[i] == b@[i] - (b@[i] as int / c[i] as int) * c[i] by {
        vstd::arithmetic::div_mod::lemma_fundamental_div_mod(a@[i] as int, c[i] as int);
        vstd::arithmetic::div_mod::lemma_fundamental_div_mod(b@[i] as int, c[i] as int);
        let (v, w, k) = (a@[i] as int, b@[i] as int, c[i] as int);
        assert(k * (v / k) == (v / k) * k && k * (w / k) == (w / k) * k) by (nonlinear_arith);
    }
    assert(c[0] > 0 && c[1] > 0 && c[2] > 0);
    let (x0, y0, z0) = ((a@[2] % c[2]) as int, (a@[1] % c[1]) as int, (a@[0] % c[0]) as int);
    let (x1, y1, z1) = ((b@[2] % c[2]) as int, (b@[1] % c[1]) as int, (b@[0] % c[0]) as int);
    let (h, w) = (c[1] as int, c[2] as int);
    assert(((z1 * h + y1) * w + x1) - ((z0 * h + y0) * w + x0) == (z1 - z0) * (h * w) + (y1 - y0) * w + (x1
        - x0)) by (nonlinear_arith);
    assert((0 * h + 0) * w + 0 == 0) by (nonlinear_arith);
    assert(z1 - z0 == b@[0] - a@[0]);
    assert(y1 - y0 == b@[1] - a@[1]);
    assert(x1 - x0 == b@[2] - a@[2]);
}

/// A voxel is found again from its chunk and its place in the chunk, and that place is one of the
/// chunk's.
pub proof fn chunk_and_offset_determine_the_voxel(def: ZarrArrayDef, a: [usize; 3], b: [usize; 3])
    requires
        def.valid3(),
    ensures
        0 <= def.offset_of(a) < def.chunk_size(),
        def.chunk_of(a) == def.chunk_of(b) && def.offset_of(a) == def.offset_of(b) ==> a@ == b@,
{
    let c = def.chunks@;
    lemma_flat3_bound(
        c[2] as int,
        c[1] as int,
        c[0] as int,
        (a@[2] % c[2]) as int,
        (a@[1] % c[1]) as int,
        (a@[0] % c[0]) as int,
    );
    if def.chunk_of(a) == def.chunk_of(b) && def.offset_of(a) == def.offset_of(b) {
        crate::grid::lemma_flat3_injective(
            c[2] as int,
            c[1] as int,
            (a@[2] % c[2]) as int,
            (a@[1] % c[1]) as int,
            (a@[0] % c[0]) as int,
            (b@[2] % c[2]) as int,
            (b@[1] % c[1]) as int,
            (b@[0] % c[0]) as int,
        );
        assert forall|i: int| 0 <= i < 3 implies a@[i] == b@[i] by {
            vstd::arithmetic::div_mod::lemma_fundamental_div_mod(a@[i] as int, c[i] as int);
            vstd::arithmetic::div_mod::lemma_fundamental_div_mod(b@[i] as int, c[i] as int);
        }
        assert(a@ =~= b@);
    }
}

/// The answer to a read.
pub enum Lookup {
    /// The voxel lies outside of the array.
    Outside,
    /// The voxel's value; `None` if its chunk is missing.
    Found(Option<u8>),
    /// The chunk has to be loaded, and handed to [`ZarrContext::loaded`] with this offset.
    Load(ChunkNo, usize),
}

/// A reader of an array. It keeps the chunk that it read last.
pub struct ZarrContext {
    pub def: ZarrArrayDef,
    pub cache_missing: bool,
    pub last_chunk_no: ChunkNo,
    pub last_context: Option<Option<ChunkContext>>,
}

/// The value at an offset of a chunk that may be missing.
pub open spec fn value_in(ctx: Option<ChunkContext>, offset: int) -> Option<u8> {
    match ctx {
        Some(c) => Some(c.voxels()[offset]),
        None => None,
    }
}

/// The chunk of a cache entry.
pub open spec fn context_of(entry: Option<crate::zarr::cache::ZarrContextCacheEntry>) -> Option<
    ChunkContext,
> {
    match entry {
        Some(e) => Some(e.ctx),
        None => None,
    }
}

/// What is known of the chunks when the one that was read last is put back at the time `now`.
pub open spec fn put_back(
    chunks: Chunks,
    last_chunk_no: ChunkNo,
    last_context: Option<Option<ChunkContext>>,
    now: u64,
) -> Chunks {
    match last_context {
        Some(ctx) => chunks.insert(last_chunk_no, entry_at(now, ctx)),
        None => chunks,
    }
}

/// How many chunks that puts back.
pub open spec fn put_back_count(last_context: Option<Option<ChunkContext>>) -> int {
    if last_context is Some && last_context->0 is Some {
        1
    } else {
        0
    }
}

/// What a cleanup may leave of `before`, which counts as `count` chunks.
pub open spec fn cleaned(before: Chunks, after: Chunks, count: int, max: int, removed: int) -> bool {
    if count <= max {
        after == before && removed == 0
    } else {
        exists|victims: Set<ChunkNo>| #[trigger]
            forgets_oldest(before, after, (count / 5) as nat, victims) && removed == victims.len()
    }
}

/// Every chunk that is there has all of its voxels.
pub open spec fn all_full(chunks: Chunks, size: int) -> bool {
    forall|k: ChunkNo|
        chunks.contains_key(k) && (#[trigger] chunks[k]) is Some ==> chunks[k]->0.ctx.voxels().len()
            >= size
}

impl ZarrContext {
    /// The description is valid, and the chunk that is kept has all of its voxels.
    pub open spec fn valid(&self) -> bool {
        &&& self.def.valid3()
        &&& self.last_context matches Some(Some(c)) ==> c.voxels().len() >= self.def.chunk_size()
    }

    pub fn new(def: ZarrArrayDef, cache_missing: bool) -> (ctx: ZarrContext)
        requires
            def.valid3(),
        ensures
            ctx.valid(),
            ctx.def == def,
            ctx.cache_missing == cache_missing,
            ctx.last_context is None,
    {
        ZarrContext {
            def,
            cache_missing,
            last_chunk_no: ChunkNo { z: usize::MAX, y: usize::MAX, x: usize::MAX },
            last_context: None,
        }
    }

    /// What a read does when the chunk is not the one that is kept.
    pub open spec fn fetched(
        &self,
        cache: ZarrContextCache,
        index: [usize; 3],
        after: ZarrContext,
        cache_after: ZarrContextCache,
        r: Lookup,
        cleaned_chunks: Chunks,
        removed: int,
    ) -> bool {
        let now = (cache.access_counter + 1) as u64;
        let put = put_back(cache.chunks(), self.last_chunk_no, self.last_context, now);
        let count = cache.non_empty_entries + put_back_count(self.last_context);
        let chunk_no = self.def.chunk_of(index);
        let offset = self.def.offset_of(index);
        &&& cleaned(put, cleaned_chunks, count, cache.max_entries as int, removed)
        &&& cache_after.access_counter == now
        &&& cache_after.max_entries == cache.max_entries
        &&& if cleaned_chunks.contains_key(chunk_no) {
            let entry = cleaned_chunks[chunk_no];
            &&& cache_after.chunks() == cleaned_chunks.remove(chunk_no)
            &&& cache_after.non_empty_entries == count - removed - (if entry is Some {
                1int
            } else {
                0
            })
            &&& after.last_chunk_no == chunk_no
            &&& after.last_context == Some(context_of(entry))
            &&& r == Lookup::Found(value_in(context_of(entry), offset))
        } else {
            &&& cache_after.chunks() == cleaned_chunks
            &&& cache_after.non_empty_entries == count - removed
            &&& after.last_chunk_no == self.last_chunk_no
            &&& after.last_context is None
            &&& r == Lookup::Load(chunk_no, offset as usize)
        }
    }

    /// What a read does.
    pub open spec fn reads(
        &self,
        cache: ZarrContextCache,
        index: [usize; 3],
        after: ZarrContext,
        cache_after: ZarrContextCache,
        r: Lookup,
    ) -> bool {
        &&& after.def == self.def
        &&& after.cache_missing == self.cache_missing
        &&& if !self.def.covers(index) {
            r is Outside && after == *self && cache_after == cache
        } else if self.last_context is Some && self.last_chunk_no == self.def.chunk_of(index) {
            &&& r == Lookup::Found(value_in(self.last_context->0, self.def.offset_of(index)))
            &&& after == *self
            &&& cache_after == cache
        } else {
            exists|cleaned_chunks: Chunks, removed: int| #[trigger]
                self.fetched(cache, index, after, cache_after, r, cleaned_chunks, removed)
        }
    }

    /// Reads a voxel, given as layer, row and column.
    pub fn get(&mut self, cache: &mut ZarrContextCache, index: [usize; 3]) -> (r: Lookup)
        requires
            old(self).valid(),
            old(cache).valid(),
            all_full(old(cache).chunks(), old(self).def.chunk_size()),
            old(cache).access_counter < u64::MAX,
            old(cache).non_empty_entries < usize::MAX,
        ensures
            final(self).valid(),
            final(cache).valid(),
            all_full(final(cache).chunks(), final(self).def.chunk_size()),
            old(self).reads(*old(cache), index, *final(self), *final(cache), r),
    {
        let ghost before = *self;
        let ghost cache_before = *cache;
        if index[0] > self.def.shape[0] || index[1] > self.def.shape[1] || index[2]
            > self.def.shape[2] {
            return Lookup::Outside;
        }
        let c0: usize = self.def.chunks[0];
        let c1: usize = self.def.chunks[1];
        let c2: usize = self.def.chunks[2];
        let chunk_no = ChunkNo { z: index[0] / c0, y: index[1] / c1, x: index[2] / c2 };
        let idx: usize = index3(c2, c1, c0, index[2] % c2, index[1] % c1, index[0] % c0);
        if chunk_no == self.last_chunk_no {
            if let Some(last) = &self.last_context {
                return match last {
                    Some(ctx) => Lookup::Found(Some(ctx.get(idx))),
                    None => Lookup::Found(None),
                };
            }
        }
        cache.access_counter = cache.access_counter + 1;
        let mut last_context: Option<Option<ChunkContext>> = None;
        std::mem::swap(&mut last_context, &mut self.last_context);
        let ghost now = cache.access_counter;
        let ghost put = put_back(cache_before.chunks(), before.last_chunk_no, before.last_context, now);
        if let Some(last) = last_context {
            let entry = cache.entry(last);
            cache.insert(self.last_chunk_no, entry);
        }
        assert(cache.chunks() == put);
        assert(all_full(put, self.def.chunk_size()));
        let ghost entries = cache.non_empty_entries;
        let ghost count = entries as int;
        cache.cleanup();
        let ghost kept = cache.chunks();
        let ghost removed = count - cache.non_empty_entries;
        assert(cleaned(put, kept, count, cache.max_entries as int, removed)) by {
            if count > cache.max_entries {
                let victims = choose|victims: Set<ChunkNo>|
                    {
                        &&& #[trigger] forgets_oldest(put, kept, (entries / 5) as nat, victims)
                        &&& cache.non_empty_entries == entries - victims.len()
                    };
                assert(forgets_oldest(put, kept, (count / 5) as nat, victims));
            }
        }
        assert(all_full(kept, self.def.chunk_size())) by {
            if count > cache.max_entries {
                let victims = choose|victims: Set<ChunkNo>| #[trigger]
                    forgets_oldest(put, kept, (count / 5) as nat, victims);
                assert forall|k: ChunkNo|
                    kept.contains_key(k) && (#[trigger] kept[k]) is Some implies kept[k]->0.ctx.voxels().len()
                    >= self.def.chunk_size() by {
                    assert(put.contains_key(k) && put[k] == kept[k]);
                }
            }
        }
        match cache.take(chunk_no) {
            Some(entry) => {
                assert(entry == kept[chunk_no]);
                let ctx: Option<ChunkContext> = match entry {
                    Some(e) => Some(e.ctx),
                    None => None,
                };
                let value: Option<u8> = match &ctx {
                    Some(c) => Some(c.get(idx)),
                    None => None,
                };
                self.last_chunk_no = chunk_no;
                self.last_context = Some(ctx);
                assert(before.fetched(
                    cache_before,
                    index,
                    *self,
                    *cache,
                    Lookup::Found(value),
                    kept,
                    removed,
                ));
                Lookup::Found(value)
            },
            None => {
                assert(cache.chunks() =~= kept);
                assert(before.fetched(
                    cache_before,
                    index,
                    *self,
                    *cache,
                    Lookup::Load(chunk_no, idx),
                    kept,
                    removed,
                ));
                Lookup::Load(chunk_no, idx)
            },
        }
    }

    /// Takes over a chunk that was loaded, or the fact that it is missing, and reads from it.
    pub fn loaded(&mut self, chunk_no: ChunkNo, idx: usize, ctx: Option<ChunkContext>) -> (r: Option<u8>)
        requires
            old(self).valid(),
            idx < old(self).def.chunk_size(),
            ctx matches Some(c) ==> c.voxels().len() >= old(self).def.chunk_size(),
        ensures
            final(self).valid(),
            final(self).def == old(self).def,
            final(self).cache_missing == old(self).cache_missing,
            final(self).last_chunk_no == chunk_no,
            final(self).last_context == Some(ctx),
            r == value_in(ctx, idx as int),
    {
        let value: Option<u8> = match &ctx {
            Some(c) => Some(c.get(idx)),
            None => None,
        };
        self.last_chunk_no = chunk_no;
        self.last_context = Some(ctx);
        value
    }
}

/// What is known of the chunks is what `store` holds.
pub open spec fn agrees(chunks: Chunks, store: spec_fn(ChunkNo) -> Option<Seq<u8>>) -> bool {
    forall|k: ChunkNo| #[trigger]
        chunks.contains_key(k) ==> match chunks[k] {
            Some(e) => store(k) == Some(e.ctx.voxels()),
            None => store(k) is None,
        }
}

/// The chunk that a reader keeps is what `store` holds.
pub open spec fn keeps(ctx: ZarrContext, store: spec_fn(ChunkNo) -> Option<Seq<u8>>) -> bool {
    match ctx.last_context {
        Some(Some(c)) => store(ctx.last_chunk_no) == Some(c.voxels()),
        Some(None) => store(ctx.last_chunk_no) is None,
        None => true,
    }
}

/// The value that `store` holds for a voxel.
pub open spec fn stored_value(
    def: ZarrArrayDef,
    store: spec_fn(ChunkNo) -> Option<Seq<u8>>,
    index: [usize; 3],
) -> Option<u8> {
    match store(def.chunk_of(index)) {
        Some(voxels) => Some(voxels[def.offset_of(index)]),
        None => None,
    }
}

/// A chunk that was loaded from the store gives the value that is stored, and is then kept as it is
/// stored.
pub proof fn loaded_chunks_are_what_is_stored(
    def: ZarrArrayDef,
    index: [usize; 3],
    loaded: Option<ChunkContext>,
    after: ZarrContext,
    store: spec_fn(ChunkNo) -> Option<Seq<u8>>,
)
    requires
        store(def.chunk_of(index)) == (match loaded {
            Some(c) => Some(c.voxels()),
            None => None,
        }),
        after.last_chunk_no == def.chunk_of(index),
        after.last_context == Some(loaded),
    ensures
        value_in(loaded, def.offset_of(index)) == stored_value(def, store, index),
        keeps(after, store),
{
}

/// Whatever the cache forgets or puts back, a read returns what is stored, and what is kept stays
/// what is stored.
pub proof fn reads_return_what_is_stored(
    ctx: ZarrContext,
    cache: ZarrContextCache,
    index: [usize; 3],
    after: ZarrContext,
    cache_after: ZarrContextCache,
    r: Lookup,
    store: spec_fn(ChunkNo) -> Option<Seq<u8>>,
)
    requires
        ctx.reads(cache, index, after, cache_after, r),
        agrees(cache.chunks(), store),
        keeps(ctx, store),
    ensures
        agrees(cache_after.chunks(), store),
        keeps(after, store),
        r matches Lookup::Found(v) ==> v == stored_value(ctx.def, store, index),
{
    let here = ctx.last_context is Some && ctx.last_chunk_no == ctx.def.chunk_of(index);
    if ctx.def.covers(index) && !here {
        let (kept, removed) = choose|kept: Chunks, removed: int| #[trigger]
            ctx.fetched(cache, index, after, cache_after, r, kept, removed);
        let now = (cache.access_counter + 1) as u64;
        let put = put_back(cache.chunks(), ctx.last_chunk_no, ctx.last_context, now);
        assert(agrees(put, store));
        let count = cache.non_empty_entries + put_back_count(ctx.last_context);
        assert(agrees(kept, store)) by {
            if count > cache.max_entries {
                let victims = choose|victims: Set<ChunkNo>| #[trigger]
                    forgets_oldest(put, kept, (count / 5) as nat, victims);
                assert forall|k: ChunkNo| #[trigger] kept.contains_key(k) implies match kept[k] {
                    Some(e) => store(k) == Some(e.ctx.voxels()),
                    None => store(k) is None,
                } by {
                    assert(put.contains_key(k) && put[k] == kept[k]);
                }
            }
        }
    }
}

/// The numbers of a chunk stand in their order with a separator between two of them, and none at the
/// ends.
pub proof fn chunk_numbers_stand_in_order(a: Seq<usize>, b: Seq<usize>, separator: Seq<char>, n: usize)
    requires
        a.len() > 0,
        b.len() > 0,
    ensures
        joined(seq![n], separator) == digits(n as nat),
        joined(a + b, separator) == joined(a, separator) + separator + joined(b, separator),
    decreases b.len(),
{
    let all = a + b;
    if b.len() == 1 {
        assert(all.drop_last() =~= a);
        assert(joined(all, separator) =~= joined(a, separator) + separator + joined(b, separator));
    } else {
        chunk_numbers_stand_in_order(a, b.drop_last(), separator, n);
        assert(all.drop_last() =~= a + b.drop_last());
        assert(joined(all, separator) =~= joined(a, separator) + separator + joined(b, separator));
    }
}

/// Bytes are written one after the other, each as two hexadecimal digits, the upper one first, with
/// small letters.
pub proof fn bytes_are_two_digits(a: Seq<u8>, b: Seq<u8>, byte: u8)
    ensures
        hex(a + b) == hex(a) + hex(b),
        hex(a).len() == 2 * a.len(),
        hex(seq![byte]) == seq![hex_char(byte as int / 16), hex_char(byte as int % 16)],
        byte < 10 ==> hex_char(byte as int) == digits(byte as nat)[0],
        10 <= byte < 16 ==> hex_char(byte as int) as u32 - 'a' as u32 == byte - 10,
    decreases b.len(),
{
    lemma_hex_len(a);
    let one = seq![byte];
    assert(one.drop_last() =~= Seq::<u8>::empty());
    assert(hex(one.drop_last()) =~= Seq::<char>::empty());
    assert(hex(one) =~= seq![hex_char(byte as int / 16), hex_char(byte as int % 16)]);
    if b.len() == 0 {
        assert(a + b =~= a);
        assert(hex(a + b) =~= hex(a) + hex(b));
    } else {
        bytes_are_two_digits(a, b.drop_last(), byte);
        assert((a + b).drop_last() =~= a + b.drop_last());
        assert(hex(a + b) =~= hex(a) + hex(b));
    }
}

proof fn lemma_hex_len(a: Seq<u8>)
    ensures
        hex(a).len() == 2 * a.len(),
    decreases a.len(),
{
    if a.len() > 0 {
        lemma_hex_len(a.drop_last());
    }
}

/// A chunk has as many voxels as the product of its extents.
pub proof fn chunks_have_all_their_voxels(def: ZarrArrayDef)
    requires
        def.chunks@.len() == 3,
    ensures
        def.chunk_size() == def.chunks@[0] * (def.chunks@[1] * def.chunks@[2]),
{
    let (a, b, c) = (def.chunks@[0] as int, def.chunks@[1] as int, def.chunks@[2] as int);
    assert((a * b) * c == a * (b * c)) by (nonlinear_arith);
}

/// A read beyond the extent of the array leaves everything as it is. Any other one finds the voxel if its
/// chunk is known and nothing has to be forgotten, and asks for the chunk otherwise. The chunk that was
/// kept before stays known.
pub proof fn reads_find_known_chunks(
    ctx: ZarrContext,
    cache: ZarrContextCache,
    index: [usize; 3],
    after: ZarrContext,
    cache_after: ZarrContextCache,
    r: Lookup,
)
    requires
        ctx.reads(cache, index, after, cache_after, r),
        cache.non_empty_entries < cache.max_entries,
    ensures
        ({
            let outside = index@[0] > ctx.def.shape@[0] || index@[1] > ctx.def.shape@[1] || index@[2]
                > ctx.def.shape@[2];
            let here = ctx.last_context is Some && ctx.last_chunk_no == ctx.def.chunk_of(index);
            let known = here || cache.chunks().contains_key(ctx.def.chunk_of(index));
            &&& r is Outside <==> outside
            &&& outside || here ==> after == ctx && cache_after == cache
            &&& !outside ==> (r is Found <==> known)
            &&& r is Found ==> after.last_context is Some && after.last_chunk_no == ctx.def.chunk_of(index)
            &&& r matches Lookup::Load(chunk_no, offset) ==> chunk_no == ctx.def.chunk_of(index) && offset
                == ctx.def.offset_of(index) as usize
            &&& !outside && !here && ctx.last_context is Some && ctx.last_chunk_no != ctx.def.chunk_of(index)
                ==> cache_after.chunks().contains_key(ctx.last_chunk_no) && context_of(
                cache_after.chunks()[ctx.last_chunk_no],
            ) == ctx.last_context->0
            &&& !outside && !here ==> cache_after.access_counter == (cache.access_counter + 1) as u64
        }),
{
}

/// When there are too many chunks, a fifth of them is forgotten, rounded down, as far as there are any;
/// otherwise none.
pub proof fn a_fifth_is_forgotten(before: Chunks, after: Chunks, count: int, max: int, removed: int)
    requires
        cleaned(before, after, count, max, removed),
        crate::zarr::cache::present(before).len() <= count,
        0 <= max,
    ensures
        count <= max ==> removed == 0 && after == before,
        count > max && crate::zarr::cache::present(before).len() == count ==> 5 * removed <= count < 5
            * removed + 5,
        count > max ==> 5 * removed <= count,
{
}

} // verus!
