//! The chunks of the volume that a rendering needs, and fetching them.

use crate::downloader::{dir_of_tile, file_of_tile, tile_dir, tile_file, tile_url, url_of_tile};
use crate::model::{first_with_id, known_volumes, AnyVolumeReference, FullVolumeReference, Quality, VolumeReference};
use crate::render::Args;
use vstd::prelude::*;
use vstd::string::*;

verus! {

/// A chunk of 64 by 64 by 64 voxels.
#[derive(Clone, Copy, PartialEq, Eq, Structural)]
pub struct VolumeChunk {
    pub x: usize,
    pub y: usize,
    pub z: usize,
}

impl VolumeChunk {
    /// The order of chunks: by column, then row, then layer.
    pub open spec fn before(&self, other: VolumeChunk) -> bool {
        ||| self.x < other.x
        ||| self.x == other.x && self.y < other.y
        ||| self.x == other.x && self.y == other.y && self.z < other.z
    }

    fn is_before(&self, other: &VolumeChunk) -> (r: bool)
        ensures
            r == self.before(*other),
    {
        self.x < other.x || (self.x == other.x && (self.y < other.y || (self.y == other.y && self.z
            < other.z)))
    }

    /// The chunk of a voxel.
    pub open spec fn of(x: int, y: int, z: int) -> VolumeChunk {
        VolumeChunk { x: (x / 64) as usize, y: (y / 64) as usize, z: (z / 64) as usize }
    }

    /// Computes [`Self::of`].
    pub fn of_voxel(x: usize, y: usize, z: usize) -> (r: VolumeChunk)
        ensures
            r == VolumeChunk::of(x as int, y as int, z as int),
    {
        VolumeChunk { x: x / 64, y: y / 64, z: z / 64 }
    }
}

/// A set of chunks, in order and each once.
pub struct ChunkSet {
    pub chunks: Vec<VolumeChunk>,
}

impl ChunkSet {
    pub open spec fn valid(&self) -> bool {
        forall|i: int, j: int|
            0 <= i < j < self.chunks@.len() ==> (#[trigger] self.chunks@[i]).before(
                #[trigger] self.chunks@[j],
            )
    }

    pub open spec fn has(&self, c: VolumeChunk) -> bool {
        self.chunks@.contains(c)
    }

    pub fn new() -> (r: ChunkSet)
        ensures
            r.valid(),
            forall|c: VolumeChunk| !#[trigger] r.has(c),
    {
        ChunkSet { chunks: Vec::new() }
    }

    /// The place of the first chunk that does not come before `c`.
    fn place(&self, c: &VolumeChunk) -> (r: usize)
        requires
            self.valid(),
        ensures
            r <= self.chunks@.len(),
            forall|i: int| 0 <= i < r ==> (#[trigger] self.chunks@[i]).before(*c),
            forall|i: int| r <= i < self.chunks@.len() ==> !(#[trigger] self.chunks@[i]).before(*c),
    {
        let mut low: usize = 0;
        let mut high: usize = self.chunks.len();
        while low < high
            invariant
                self.valid(),
                low <= high <= self.chunks@.len(),
                forall|i: int| 0 <= i < low ==> (#[trigger] self.chunks@[i]).before(*c),
                forall|i: int| high <= i < self.chunks@.len() ==> !(#[trigger] self.chunks@[i]).before(*c),
            decreases high - low,
        {
            let middle: usize = low + (high - low) / 2;
            if self.chunks[middle].is_before(c) {
                low = middle + 1;
            } else {
                high = middle;
            }
        }
        low
    }

    pub fn contains(&self, c: VolumeChunk) -> (r: bool)
        requires
            self.valid(),
        ensures
            r == self.has(c),
    {
        let at: usize = self.place(&c);
        if at < self.chunks.len() && self.chunks[at] == c {
            assert(self.chunks@[at as int] == c);
            true
        } else {
            proof {
                if self.has(c) {
                    let i = choose|i: int| 0 <= i < self.chunks@.len() && self.chunks@[i] == c;
                    assert(!c.before(c));
                    if i > at {
                        assert(self.chunks@[at as int].before(self.chunks@[i]));
                    }
                }
            }
            false
        }
    }

    pub fn insert(&mut self, c: VolumeChunk)
        requires
            old(self).valid(),
        ensures
            final(self).valid(),
            forall|d: VolumeChunk| #[trigger] final(self).has(d) == (old(self).has(d) || d == c),
    {
        let at: usize = self.place(&c);
        let ghost before = self.chunks@;
        if at < self.chunks.len() && self.chunks[at] == c {
            assert(self.chunks@[at as int] == c);
            return;
        }
        self.chunks.insert(at, c);
        proof {
            let after = self.chunks@;
            assert forall|i: int, j: int| 0 <= i < j < after.len() implies (#[trigger] after[i]).before(
                #[trigger] after[j],
            ) by {
                let i2 = if i < at {
                    i
                } else {
                    i - 1
                };
                let j2 = if j < at {
                    j
                } else {
                    j - 1
                };
                if i == at {
                    assert(after[j] == before[j2]);
                    assert(!before[j2].before(c));
                    if before[j2] == c {
                        if j2 > at {
                            assert(before[at as int].before(before[j2]));
                        }
                    }
                } else if j == at {
                    assert(after[i] == before[i2]);
                } else {
                    assert(after[i] == before[i2] && after[j] == before[j2]);
                }
            }
            assert forall|d: VolumeChunk| #[trigger] self.has(d) == (before.contains(d) || d == c) by {
                assert(after[at as int] == c);
                if before.contains(d) {
                    let i = choose|i: int| 0 <= i < before.len() && before[i] == d;
                    let k = if i < at {
                        i
                    } else {
                        i + 1
                    };
                    assert(after[k] == d);
                }
                if self.has(d) && d != c {
                    let i = choose|i: int| 0 <= i < after.len() && after[i] == d;
                    let k = if i < at {
                        i
                    } else {
                        i - 1
                    };
                    assert(before[k] == d);
                }
            }
        }
    }

    /// Takes in all of `other`, and tells which of them are new, in order.
    pub fn append(&mut self, other: &ChunkSet) -> (fresh: Vec<VolumeChunk>)
        requires
            old(self).valid(),
            other.valid(),
        ensures
            final(self).valid(),
            forall|c: VolumeChunk| #[trigger] final(self).has(c) == (old(self).has(c) || other.has(c)),
            forall|c: VolumeChunk|
                #[trigger] fresh@.contains(c) <==> other.has(c) && !old(self).has(c),
            forall|i: int, j: int|
                0 <= i < j < fresh@.len() ==> (#[trigger] fresh@[i]).before(#[trigger] fresh@[j]),
    {
        let mut fresh: Vec<VolumeChunk> = Vec::new();
        let ghost before = *self;
        let mut i: usize = 0;
        while i < other.chunks.len()
            invariant
                i <= other.chunks@.len(),
                self.valid(),
                other.valid(),
                forall|c: VolumeChunk| #[trigger]
                    self.has(c) == (before.has(c) || other.chunks@.take(i as int).contains(c)),
                forall|c: VolumeChunk|
                    #[trigger] fresh@.contains(c) <==> other.chunks@.take(i as int).contains(c)
                        && !before.has(c),
                forall|a: int, b: int|
                    0 <= a < b < fresh@.len() ==> (#[trigger] fresh@[a]).before(#[trigger] fresh@[b]),
                forall|a: int|
                    0 <= a < fresh@.len() && i < other.chunks@.len() ==> (#[trigger] fresh@[a]).before(
                        other.chunks@[i as int],
                    ),
            decreases other.chunks@.len() - i,
        {
            let c = other.chunks[i];
            let ghost some = other.chunks@.take(i as int);
            let ghost more = other.chunks@.take(i + 1);
            let ghost was = fresh@;
            proof {
                assert(more =~= some.push(c));
                assert forall|d: VolumeChunk| #[trigger] more.contains(d) <==> some.contains(d) || d == c by {
                    assert(more[i as int] == c);
                    if some.contains(d) {
                        let k = choose|k: int| 0 <= k < some.len() && some[k] == d;
                        assert(more[k] == d);
                    }
                    if more.contains(d) && d != c {
                        let k = choose|k: int| 0 <= k < more.len() && more[k] == d;
                        assert(some[k] == d);
                    }
                }
                if some.contains(c) {
                    let k = choose|k: int| 0 <= k < some.len() && some[k] == c;
                    assert(other.chunks@[k].before(other.chunks@[i as int]));
                }
            }
            if !self.contains(c) {
                fresh.push(c);
                assert forall|d: VolumeChunk| #[trigger] fresh@.contains(d) <==> was.contains(d) || d == c by {
                    assert(fresh@[was.len() as int] == c);
                    if was.contains(d) {
                        let k = choose|k: int| 0 <= k < was.len() && was[k] == d;
                        assert(fresh@[k] == d);
                    }
                    if fresh@.contains(d) && d != c {
                        let k = choose|k: int| 0 <= k < fresh@.len() && fresh@[k] == d;
                        assert(was[k] == d);
                    }
                }
            }
            self.insert(c);
            proof {
                if i + 1 < other.chunks@.len() {
                    let next = other.chunks@[i + 1];
                    assert(c.before(next)) by {
                        assert(other.chunks@[i as int].before(other.chunks@[i + 1]));
                    }
                    assert forall|a: int| 0 <= a < fresh@.len() implies (#[trigger] fresh@[a]).before(
                        next,
                    ) by {
                        if a < was.len() {
                            assert(was[a].before(c));
                        }
                    }
                }
            }
            i += 1;
        }
        assert(other.chunks@.take(i as int) =~= other.chunks@);
        fresh
    }
}

/// Collects the chunks of the voxels that are read. A chunk that is asked for twice in a row is
/// looked at once.
pub struct TileCollectingVolume {
    pub requested_tiles: ChunkSet,
    pub last_requested: Option<VolumeChunk>,
}

/// Some coordinate is the last of its chunk, so that the voxels around reach into the next one.
pub open spec fn at_chunk_edge(x: int, y: int, z: int) -> bool {
    x % 64 == 63 || y % 64 == 63 || z % 64 == 63
}

impl TileCollectingVolume {
    /// The last chunk is among those that were asked for.
    pub open spec fn valid(&self) -> bool {
        &&& self.requested_tiles.valid()
        &&& self.last_requested matches Some(last) ==> self.requested_tiles.has(last)
    }

    pub fn new() -> (r: TileCollectingVolume)
        ensures
            r.valid(),
            forall|c: VolumeChunk| !#[trigger] r.requested_tiles.has(c),
            r.last_requested is None,
    {
        TileCollectingVolume { requested_tiles: ChunkSet::new(), last_requested: None }
    }

    pub fn add_tile(&mut self, tile: VolumeChunk)
        requires
            old(self).valid(),
        ensures
            final(self).valid(),
            final(self).last_requested == Some(tile),
            forall|c: VolumeChunk| #[trigger]
                final(self).requested_tiles.has(c) == (old(self).requested_tiles.has(c) || c == tile),
    {
        let known = match self.last_requested {
            Some(last) => last == tile,
            None => false,
        };
        if !known {
            self.last_requested = Some(tile);
            self.requested_tiles.insert(tile);
        }
    }

    /// A voxel is read.
    pub fn get(&mut self, x: usize, y: usize, z: usize)
        requires
            old(self).valid(),
        ensures
            final(self).valid(),
            final(self).last_requested == Some(VolumeChunk::of(x as int, y as int, z as int)),
            forall|c: VolumeChunk| #[trigger]
                final(self).requested_tiles.has(c) == (old(self).requested_tiles.has(c) || c
                    == VolumeChunk::of(x as int, y as int, z as int)),
    {
        self.add_tile(VolumeChunk::of_voxel(x, y, z));
    }

    /// The volume is read between voxels: all eight voxels around are read, unless they lie in one
    /// chunk.
    pub fn get_interpolated(&mut self, x: usize, y: usize, z: usize)
        requires
            old(self).valid(),
            x < usize::MAX,
            y < usize::MAX,
            z < usize::MAX,
        ensures
            final(self).valid(),
            final(self).last_requested == Some(
                if at_chunk_edge(x as int, y as int, z as int) {
                    VolumeChunk::of(x + 1, y + 1, z + 1)
                } else {
                    VolumeChunk::of(x as int, y as int, z as int)
                },
            ),
            forall|c: VolumeChunk| #[trigger]
                final(self).requested_tiles.has(c) == (old(self).requested_tiles.has(c) || around(
                    c,
                    x as int,
                    y as int,
                    z as int,
                )),
    {
        if x % 64 == 63 || y % 64 == 63 || z % 64 == 63 {
            self.get(x, y, z);
            self.get(x + 1, y, z);
            self.get(x, y + 1, z);
            self.get(x + 1, y + 1, z);
            self.get(x, y, z + 1);
            self.get(x + 1, y, z + 1);
            self.get(x, y + 1, z + 1);
            self.get(x + 1, y + 1, z + 1);
            proof {
                let (i, j, k) = (x as int, y as int, z as int);
                assert(is_around(VolumeChunk::of(i, j, k), i, j, k, 0, 0, 0));
                assert(is_around(VolumeChunk::of(i + 1, j, k), i, j, k, 1, 0, 0));
                assert(is_around(VolumeChunk::of(i, j + 1, k), i, j, k, 0, 1, 0));
                assert(is_around(VolumeChunk::of(i + 1, j + 1, k), i, j, k, 1, 1, 0));
                assert(is_around(VolumeChunk::of(i, j, k + 1), i, j, k, 0, 0, 1));
                assert(is_around(VolumeChunk::of(i + 1, j, k + 1), i, j, k, 1, 0, 1));
                assert(is_around(VolumeChunk::of(i, j + 1, k + 1), i, j, k, 0, 1, 1));
                assert(is_around(VolumeChunk::of(i + 1, j + 1, k + 1), i, j, k, 1, 1, 1));
                assert forall|c: VolumeChunk| around(c, i, j, k) implies #[trigger] self.requested_tiles.has(
                    c,
                ) by {
                    let (dx, dy, dz) = choose|dx: int, dy: int, dz: int| #[trigger]
                        is_around(c, i, j, k, dx, dy, dz);
                    assert(dx == 0 || dx == 1);
                    assert(dy == 0 || dy == 1);
                    assert(dz == 0 || dz == 1);
                }
            }
        } else {
            self.get(x, y, z);
            proof {
                assert forall|dx: int, dy: int, dz: int|
                    0 <= dx <= 1 && 0 <= dy <= 1 && 0 <= dz <= 1 implies #[trigger] VolumeChunk::of(
                    x + dx,
                    y + dy,
                    z + dz,
                ) == VolumeChunk::of(x as int, y as int, z as int) by {}
                assert(is_around(
                    VolumeChunk::of(x as int, y as int, z as int),
                    x as int,
                    y as int,
                    z as int,
                    0,
                    0,
                    0,
                ));
            }
        }
    }
}

/// The chunk of one of the eight voxels.
pub open spec fn is_around(c: VolumeChunk, x: int, y: int, z: int, dx: int, dy: int, dz: int) -> bool {
    &&& 0 <= dx <= 1
    &&& 0 <= dy <= 1
    &&& 0 <= dz <= 1
    &&& c == VolumeChunk::of(x + dx, y + dy, z + dz)
}

/// The chunk is that of one of the eight voxels.
pub open spec fn around(c: VolumeChunk, x: int, y: int, z: int) -> bool {
    exists|dx: int, dy: int, dz: int| #[trigger] is_around(c, x, y, z, dx, dy, dz)
}

/// Where chunks are fetched from and kept, and how hard to try.
pub struct DownloadSettings {
    pub tile_server_base: String,
    pub volume_base_path: String,
    pub cache_dir: String,
    pub retries: u8,
    pub concurrent_downloads: usize,
}

/// The settings for a volume.
pub open spec fn settings_for<V: VolumeReference>(
    volume: V,
    args: Args,
    default_dir: Seq<char>,
    s: DownloadSettings,
) -> bool {
    let dir = match args.data_directory {
        Some(d) => d@,
        None => default_dir,
    };
    &&& s.tile_server_base@ == "https://vesuvius.virtual-void.net"@
    &&& s.volume_base_path@ == volume.spec_url_path_base()
    &&& s.cache_dir@ == volume.spec_sub_dir(dir)
    &&& s.retries == (match args.retries {
        Some(n) => n,
        None => 20u8,
    })
    &&& s.concurrent_downloads == (match args.concurrent_downloads {
        Some(n) => n,
        None => 64u8,
    })
}

impl DownloadSettings {
    fn of<V: VolumeReference>(volume: &V, args: &Args, default_dir: &str) -> (r: DownloadSettings)
        ensures
            settings_for(*volume, *args, default_dir@, r),
    {
        let cache_dir: String = match &args.data_directory {
            Some(d) => volume.sub_dir(d.as_str()),
            None => volume.sub_dir(default_dir),
        };
        DownloadSettings {
            tile_server_base: "https://vesuvius.virtual-void.net".to_string(),
            volume_base_path: volume.url_path_base(),
            cache_dir,
            retries: match args.retries {
                Some(n) => n,
                None => 20,
            },
            concurrent_downloads: match args.concurrent_downloads {
                Some(n) => n as usize,
                None => 64,
            },
        }
    }

    /// The settings that the command line asks for; the first scroll if it names no volume. A name
    /// that no volume has is an error.
    pub fn try_from(args: &Args, default_dir: &str) -> (r: Result<DownloadSettings, String>)
        ensures
            match args.volume {
                None => r is Ok && settings_for(
                    FullVolumeReference::SCROLL1(),
                    *args,
                    default_dir@,
                    r->Ok_0,
                ),
                Some(id) => match first_with_id(known_volumes(), id@) {
                    Some(v) => r is Ok && settings_for(v, *args, default_dir@, r->Ok_0),
                    None => r is Err && r->Err_0@ == "Cannot find volume: Volume "@ + id@ + " not found"@,
                },
            },
    {
        match &args.volume {
            None => Ok(DownloadSettings::of(&FullVolumeReference::SCROLL1(), args, default_dir)),
            Some(id) => match AnyVolumeReference::try_from_id(id.clone()) {
                Ok(v) => Ok(DownloadSettings::of(&v, args, default_dir)),
                Err(e) => {
                    let mut message = "Cannot find volume: ".to_string();
                    message.append(e.as_str());
                    assert(message@ =~= "Cannot find volume: Volume "@ + id@ + " not found"@) by {
                        reveal_strlit("Cannot find volume: Volume ");
                        reveal_strlit("Cannot find volume: ");
                        reveal_strlit("Volume ");
                    }
                    Err(message)
                },
            },
        }
    }

    /// Where a chunk is fetched from.
    pub fn url_for(&self, chunk: VolumeChunk) -> (r: String)
        ensures
            r@ == tile_url(
                self.tile_server_base@,
                self.volume_base_path@,
                chunk.x as int,
                chunk.y as int,
                chunk.z as int,
                Quality::FULL(),
            ),
    {
        url_of_tile(
            self.tile_server_base.as_str(),
            self.volume_base_path.as_str(),
            chunk.x,
            chunk.y,
            chunk.z,
            Quality::FULL(),
        )
    }

    /// The file that a chunk is kept in.
    pub fn file_for(&self, chunk: VolumeChunk) -> (r: String)
        ensures
            r@ == tile_file(
                self.cache_dir@,
                chunk.x as int,
                chunk.y as int,
                chunk.z as int,
                Quality::FULL(),
            ),
    {
        file_of_tile(self.cache_dir.as_str(), chunk.x, chunk.y, chunk.z, Quality::FULL())
    }

    /// The directory of that file.
    pub fn dir_for(&self, chunk: VolumeChunk) -> (r: String)
        ensures
            r@ == tile_dir(self.cache_dir@, chunk.z as int, Quality::FULL()),
    {
        dir_of_tile(self.cache_dir.as_str(), chunk.z, Quality::FULL())
    }
}

/// What to do about a chunk that is being fetched.
#[derive(Clone, Copy, PartialEq, Eq, Structural)]
pub enum DownloadStep {
    /// Ask the server.
    Request,
    /// Keep what the server sent.
    Save,
    /// The server is busy: wait ten seconds, then try again with so many tries left.
    Retry(u8),
    /// The chunk cannot be had.
    Fail,
    /// The server answered in a way that is not provided for.
    Unexpected,
}

/// Begins a try.
pub fn download_attempt(retries: u8) -> (r: DownloadStep)
    ensures
        r == (if retries == 0 {
            DownloadStep::Fail
        } else {
            DownloadStep::Request
        }),
{
    if retries == 0 {
        DownloadStep::Fail
    } else {
        DownloadStep::Request
    }
}

/// Takes the status of the answer; `None` if there was no answer.
pub fn download_answer(retries: u8, status: Option<u16>) -> (r: DownloadStep)
    requires
        retries > 0,
    ensures
        r == (match status {
            None => DownloadStep::Fail,
            Some(s) => if s == 200 {
                DownloadStep::Save
            } else if s == 420 {
                DownloadStep::Retry((retries - 1) as u8)
            } else {
                DownloadStep::Unexpected
            },
        }),
{
    match status {
        None => DownloadStep::Fail,
        Some(s) => if s == 200 {
            DownloadStep::Save
        } else if s == 420 {
            DownloadStep::Retry(retries - 1)
        } else {
            DownloadStep::Unexpected
        },
    }
}

/// A chunk is a cube of 64 voxels along each side: the voxel that lies `i`, `j` and `k` voxels inside
/// of a chunk belongs to it.
pub proof fn chunks_are_cubes(c: VolumeChunk, i: int, j: int, k: int)
    requires
        0 <= i < 64,
        0 <= j < 64,
        0 <= k < 64,
    ensures
        VolumeChunk::of(c.x * 64 + i, c.y * 64 + j, c.z * 64 + k) == c,
{
}

/// Chunks are ordered by their column first, then by their row, then by their layer.
pub proof fn columns_decide_first(a: VolumeChunk, b: VolumeChunk)
    ensures
        a.x < b.x ==> a.before(b) && !b.before(a),
        a.x == b.x && a.y < b.y ==> a.before(b) && !b.before(a),
        a.x == b.x && a.y == b.y ==> (a.before(b) <==> a.z < b.z),
        a.before(b) || b.before(a) || a == b,
{
}

/// The voxels around a point lie in one chunk, unless the point is at the edge of its chunk; then some
/// of them lie in the next.
pub proof fn edges_reach_into_the_next_chunk(c: VolumeChunk, x: usize, y: usize, z: usize)
    requires
        x < usize::MAX,
        y < usize::MAX,
        z < usize::MAX,
    ensures
        around(VolumeChunk::of(x as int, y as int, z as int), x as int, y as int, z as int),
        around(VolumeChunk::of(x + 1, y + 1, z + 1), x as int, y as int, z as int),
        around(VolumeChunk::of(x + 1, y as int, z as int), x as int, y as int, z as int),
        around(VolumeChunk::of(x as int, y + 1, z as int), x as int, y as int, z as int),
        around(VolumeChunk::of(x as int, y as int, z + 1), x as int, y as int, z as int),
        around(c, x as int, y as int, z as int) ==> {
            let own = VolumeChunk::of(x as int, y as int, z as int);
            &&& own.x <= c.x <= own.x + 1
            &&& own.y <= c.y <= own.y + 1
            &&& own.z <= c.z <= own.z + 1
        },
        at_chunk_edge(x as int, y as int, z as int) <==> VolumeChunk::of(x + 1, y + 1, z + 1)
            != VolumeChunk::of(x as int, y as int, z as int),
        !at_chunk_edge(x as int, y as int, z as int) && around(c, x as int, y as int, z as int) ==> c
            == VolumeChunk::of(x as int, y as int, z as int),
{
    let (a, b, d) = (x as int, y as int, z as int);
    assert(is_around(VolumeChunk::of(a, b, d), a, b, d, 0, 0, 0));
    assert(is_around(VolumeChunk::of(a + 1, b + 1, d + 1), a, b, d, 1, 1, 1));
    assert(is_around(VolumeChunk::of(a + 1, b, d), a, b, d, 1, 0, 0));
    assert(is_around(VolumeChunk::of(a, b + 1, d), a, b, d, 0, 1, 0));
    assert(is_around(VolumeChunk::of(a, b, d + 1), a, b, d, 0, 0, 1));
}

/// Settings that the command line names are taken from it; a try is made twenty times and sixty-four
/// downloads run together unless it says otherwise. The chunks are kept where the volume belongs below the
/// directory that is named, or else below the usual one.
pub proof fn settings_follow_the_command_line<V: VolumeReference>(
    volume: V,
    args: Args,
    default_dir: Seq<char>,
    s: DownloadSettings,
)
    requires
        settings_for(volume, args, default_dir, s),
    ensures
        args.retries matches Some(n) ==> s.retries == n,
        args.retries is None ==> s.retries == 20,
        args.concurrent_downloads matches Some(n) ==> s.concurrent_downloads == n,
        args.concurrent_downloads is None ==> s.concurrent_downloads == 64,
        args.data_directory matches Some(d) ==> s.cache_dir@ == volume.spec_sub_dir(d@),
        args.data_directory is None ==> s.cache_dir@ == volume.spec_sub_dir(default_dir),
        s.volume_base_path@ == volume.spec_url_path_base(),
{
}

} // verus!
