//! Arrays in a directory or on a server, and fetching the chunks of the latter.

use crate::zarr::array::{cache_dir_name, default_cache_dir, joined, ZarrArrayDef, ZarrContext};
use crate::zarr::cache::ZarrContextCache;
use vstd::prelude::*;
use vstd::string::*;

verus! {

/// Where the files of an array are.
pub enum ZarrAccess {
    /// In a directory.
    Directory { path: String },
    /// On a server. Chunks are fetched in the background and kept in a local directory.
    Remote { url: String, local_cache_dir: String },
    /// On a server. A chunk that is not yet in the local directory is waited for.
    BlockingRemote { url: String, local_cache_dir: String },
}

/// What to do about a chunk.
#[derive(Clone, Copy, PartialEq, Eq, Structural)]
pub enum ChunkStep {
    /// The file is there.
    Use,
    /// There is no such chunk.
    Missing,
    /// Ask for the chunk, and go on without it.
    Queue,
    /// Fetch the chunk now.
    Fetch,
}

/// The files of a chunk: the local one, and where it comes from if that is another place.
pub struct ChunkPlaces {
    pub file: String,
    pub url: Option<String>,
}

fn with_suffix(text: &str, suffix: &str) -> (r: String)
    ensures
        r@ == text@ + suffix@,
{
    let mut r = text.to_string();
    r.append(suffix);
    r
}

impl ZarrAccess {
    /// The directory that holds the local files.
    pub open spec fn local_dir(&self) -> Seq<char> {
        match self {
            ZarrAccess::Directory { path } => path@,
            ZarrAccess::Remote { url, local_cache_dir } => local_cache_dir@,
            ZarrAccess::BlockingRemote { url, local_cache_dir } => local_cache_dir@,
        }
    }

    /// The place on a server.
    pub open spec fn server(&self) -> Option<Seq<char>> {
        match self {
            ZarrAccess::Directory { path } => None,
            ZarrAccess::Remote { url, local_cache_dir } => Some(url@),
            ZarrAccess::BlockingRemote { url, local_cache_dir } => Some(url@),
        }
    }

    /// The file that describes the array.
    pub fn array_def_file(&self) -> (r: String)
        ensures
            r@ == self.local_dir() + "/.zarray"@,
    {
        match self {
            ZarrAccess::Directory { path } => with_suffix(path.as_str(), "/.zarray"),
            ZarrAccess::Remote { url: _, local_cache_dir } => with_suffix(
                local_cache_dir.as_str(),
                "/.zarray",
            ),
            ZarrAccess::BlockingRemote { url: _, local_cache_dir } => with_suffix(
                local_cache_dir.as_str(),
                "/.zarray",
            ),
        }
    }

    /// Where the description is fetched from if the file is not there.
    pub fn array_def_url(&self) -> (r: Option<String>)
        ensures
            match r {
                Some(url) => self.server() is Some && url@ == self.server()->0 + "/.zarray"@,
                None => self.server() is None,
            },
    {
        match self {
            ZarrAccess::Directory { path: _ } => None,
            ZarrAccess::Remote { url, local_cache_dir: _ } => Some(with_suffix(url.as_str(), "/.zarray")),
            ZarrAccess::BlockingRemote { url, local_cache_dir: _ } => Some(
                with_suffix(url.as_str(), "/.zarray"),
            ),
        }
    }

    /// Whether a chunk that is missing stays missing.
    pub fn cache_missing(&self) -> (r: bool)
        ensures
            r == !(self is Remote),
    {
        match self {
            ZarrAccess::Directory { path: _ } => true,
            ZarrAccess::Remote { url: _, local_cache_dir: _ } => false,
            ZarrAccess::BlockingRemote { url: _, local_cache_dir: _ } => true,
        }
    }

    /// Where a chunk is. The local copy of a remote chunk is named with slashes between the numbers.
    pub fn chunk_places(&self, def: &ZarrArrayDef, chunk_no: &[usize]) -> (r: ChunkPlaces)
        ensures
            r.file@ == self.local_dir() + "/"@ + joined(
                chunk_no@,
                if self is Directory {
                    def.separator()
                } else {
                    "/"@
                },
            ),
            match r.url {
                Some(url) => self.server() is Some && url@ == self.server()->0 + "/"@ + joined(
                    chunk_no@,
                    def.separator(),
                ),
                None => self.server() is None,
            },
    {
        match self {
            ZarrAccess::Directory { path } => ChunkPlaces {
                file: def.chunk_file_for(path.as_str(), chunk_no),
                url: None,
            },
            ZarrAccess::Remote { url, local_cache_dir } => ChunkPlaces {
                file: def.cached_chunk_file_for(local_cache_dir.as_str(), chunk_no),
                url: Some(def.chunk_file_for(url.as_str(), chunk_no)),
            },
            ZarrAccess::BlockingRemote { url, local_cache_dir } => ChunkPlaces {
                file: def.cached_chunk_file_for(local_cache_dir.as_str(), chunk_no),
                url: Some(def.chunk_file_for(url.as_str(), chunk_no)),
            },
        }
    }

    /// What to do once it is known whether the local file exists.
    pub fn chunk_step(&self, exists: bool) -> (r: ChunkStep)
        ensures
            r == (if exists {
                ChunkStep::Use
            } else {
                match self {
                    ZarrAccess::Directory { path } => ChunkStep::Missing,
                    ZarrAccess::Remote { url, local_cache_dir } => ChunkStep::Queue,
                    ZarrAccess::BlockingRemote { url, local_cache_dir } => ChunkStep::Fetch,
                }
            }),
    {
        if exists {
            ChunkStep::Use
        } else {
            match self {
                ZarrAccess::Directory { path: _ } => ChunkStep::Missing,
                ZarrAccess::Remote { url: _, local_cache_dir: _ } => ChunkStep::Queue,
                ZarrAccess::BlockingRemote { url: _, local_cache_dir: _ } => ChunkStep::Fetch,
            }
        }
    }
}

/// What to do with the reply to a request for a chunk: it is saved only if the server had it.
pub fn fetched_step(status: u16) -> (r: ChunkStep)
    ensures
        r == (if status == 200 {
            ChunkStep::Use
        } else {
            ChunkStep::Missing
        }),
{
    if status == 200 {
        ChunkStep::Use
    } else {
        ChunkStep::Missing
    }
}

/// The file that a chunk is written to before it gets its name.
pub fn temporary_file(target: &str) -> (r: String)
    ensures
        r@ == target@ + ".tmp"@,
{
    with_suffix(target, ".tmp")
}

/// An array and where it is.
pub struct ZarrArray {
    pub access: ZarrAccess,
    pub def: ZarrArrayDef,
}

impl ZarrArray {
    pub fn from_path(path: &str, def: ZarrArrayDef) -> (r: ZarrArray)
        ensures
            r.access matches ZarrAccess::Directory { path: p } && p@ == path@,
            r.def == def,
    {
        ZarrArray { access: ZarrAccess::Directory { path: path.to_string() }, def }
    }

    pub fn from_url_blocking(url: &str, local_cache_dir: &str, def: ZarrArrayDef) -> (r: ZarrArray)
        ensures
            r.access matches ZarrAccess::BlockingRemote { url: u, local_cache_dir: d } && u@ == url@ && d@
                == local_cache_dir@,
            r.def == def,
    {
        ZarrArray {
            access: ZarrAccess::BlockingRemote {
                url: url.to_string(),
                local_cache_dir: local_cache_dir.to_string(),
            },
            def,
        }
    }

    pub fn from_url(url: &str, local_cache_dir: &str, def: ZarrArrayDef) -> (r: ZarrArray)
        ensures
            r.access matches ZarrAccess::Remote { url: u, local_cache_dir: d } && u@ == url@ && d@
                == local_cache_dir@,
            r.def == def,
    {
        ZarrArray {
            access: ZarrAccess::Remote {
                url: url.to_string(),
                local_cache_dir: local_cache_dir.to_string(),
            },
            def,
        }
    }

    /// Keeps the chunks in a directory below `cache_root` whose name depends on the URL alone.
    pub fn from_url_to_default_cache_dir(url: &str, cache_root: &str, def: ZarrArrayDef) -> (r: ZarrArray)
        ensures
            r.access matches ZarrAccess::Remote { url: u, local_cache_dir: d } && u@ == url@ && d@
                == cache_root@ + "/"@ + cache_dir_name(url@),
            r.def == def,
    {
        let mut dir = with_suffix(cache_root, "/");
        dir.append(default_cache_dir(url).as_str());
        ZarrArray::from_url(url, dir.as_str(), def)
    }

    /// The state of a reader, and the chunks that all readers share.
    pub fn into_ctx(self) -> (r: (ZarrContext, ZarrContextCache))
        requires
            self.def.valid3(),
        ensures
            r.0.valid(),
            r.0.def == self.def,
            r.0.cache_missing == !(self.access is Remote),
            r.0.last_context is None,
            r.1.valid(),
            r.1.chunks() == Map::<
                crate::zarr::cache::ChunkNo,
                Option<crate::zarr::cache::ZarrContextCacheEntry>,
            >::empty(),
            r.1.access_counter == 0,
            r.1.non_empty_entries == 0,
            r.1.max_entries == crate::zarr::cache::entry_limit(self.def.chunk_size()),
    {
        let cache_missing = self.access.cache_missing();
        let cache = ZarrContextCache::new(self.def.voxels_per_chunk());
        (ZarrContext::new(self.def, cache_missing), cache)
    }
}

/// At most one more than this many chunks are fetched at a time.
pub const BUSY: usize = 10;

/// The chunks that were asked for. Each is asked for once.
pub struct ChunkDownloads {
    pub ongoing: Vec<String>,
    pub downloading: usize,
}

/// One of the URLs is this one.
pub open spec fn requested(urls: Seq<String>, url: Seq<char>) -> bool {
    exists|i: int| 0 <= i < urls.len() && (#[trigger] urls[i])@ == url
}

impl ChunkDownloads {
    /// No chunk was asked for twice, and no more are under way than are allowed.
    pub open spec fn valid(&self) -> bool {
        &&& self.downloading <= BUSY + 1
        &&& forall|i: int, j: int|
            0 <= i < j < self.ongoing@.len() ==> (#[trigger] self.ongoing@[i])@ != (
            #[trigger] self.ongoing@[j])@
    }

    pub fn new() -> (r: ChunkDownloads)
        ensures
            r.valid(),
            r.ongoing@.len() == 0,
            r.downloading == 0,
    {
        ChunkDownloads { ongoing: Vec::new(), downloading: 0 }
    }

    /// Whether to fetch a chunk now. A request is dropped if the chunk was asked for before, or if
    /// too many are under way.
    pub fn request(&mut self, from: &str) -> (start: bool)
        requires
            old(self).valid(),
        ensures
            final(self).valid(),
            start == (!requested(old(self).ongoing@, from@) && old(self).downloading <= BUSY),
            if start {
                &&& final(self).downloading == old(self).downloading + 1
                &&& final(self).ongoing@.len() == old(self).ongoing@.len() + 1
                &&& final(self).ongoing@.drop_last() == old(self).ongoing@
                &&& final(self).ongoing@.last()@ == from@
            } else {
                *final(self) == *old(self)
            },
    {
        let url = from.to_string();
        let mut i: usize = 0;
        while i < self.ongoing.len()
            invariant
                i <= self.ongoing@.len(),
                self.valid(),
                url@ == from@,
                forall|k: int| 0 <= k < i ==> (#[trigger] self.ongoing@[k])@ != from@,
            decreases self.ongoing@.len() - i,
        {
            if self.ongoing[i] == url {
                return false;
            }
            i += 1;
        }
        if self.downloading > BUSY {
            return false;
        }
        let ghost before = self.ongoing@;
        self.ongoing.push(url);
        self.downloading = self.downloading + 1;
        assert(self.ongoing@.drop_last() =~= before);
        true
    }

    /// Takes the reply to a request, and tells whether the chunk is to be saved.
    pub fn finished(&mut self, status: u16) -> (save: bool)
        requires
            old(self).valid(),
            old(self).downloading > 0,
        ensures
            final(self).valid(),
            final(self).ongoing == old(self).ongoing,
            final(self).downloading == old(self).downloading - 1,
            save == (status == 200),
    {
        self.downloading = self.downloading - 1;
        status == 200
    }
}

/// A chunk that was asked for is never fetched again.
pub proof fn chunks_are_fetched_once(before: ChunkDownloads, after: ChunkDownloads, url: Seq<char>)
    requires
        requested(before.ongoing@, url),
        before.ongoing@ == after.ongoing@ || (after.ongoing@.len() == before.ongoing@.len() + 1
            && after.ongoing@.drop_last() == before.ongoing@),
    ensures
        requested(after.ongoing@, url),
{
    let i = choose|i: int| 0 <= i < before.ongoing@.len() && (#[trigger] before.ongoing@[i])@ == url;
    assert(after.ongoing@[i] == before.ongoing@[i]);
}

/// The chunks of an array on a server are kept in its cache directory and fetched from its address; those
/// of a directory are there already. The local copies are named with slashes, the originals as the array
/// says.
pub proof fn chunks_are_kept_and_fetched(
    access: ZarrAccess,
    def: ZarrArrayDef,
    chunk_no: &[usize],
    r: ChunkPlaces,
)
    requires
        call_ensures(ZarrAccess::chunk_places, (&access, &def, chunk_no), r),
    ensures
        access matches ZarrAccess::Directory { path } ==> r.url is None && r.file@ == path@ + "/"@ + joined(
            chunk_no@,
            def.separator(),
        ),
        access matches ZarrAccess::Remote { url, local_cache_dir } ==> r.url is Some && r.url->0@ == url@
            + "/"@ + joined(chunk_no@, def.separator()) && r.file@ == local_cache_dir@ + "/"@ + joined(
            chunk_no@,
            "/"@,
        ),
        access matches ZarrAccess::BlockingRemote { url, local_cache_dir } ==> r.url is Some && r.url->0@
            == url@ + "/"@ + joined(chunk_no@, def.separator()) && r.file@ == local_cache_dir@ + "/"@
            + joined(chunk_no@, "/"@),
{
}

} // verus!
