//! The cache of tiles: which are in memory, which are on their way, and when to try again.

use crate::downloader::DownloadState;
use crate::grid::flat2;
use crate::volume::image::Image;
use crate::volume::tile::{
    as_point, lemma_nth_tile, on_coords, paint_tile, visible_tiles, Slice, TILE_BYTES,
};
use crate::volume::DrawingConfig;
use dashmap::DashMap;
use vstd::prelude::*;

verus! {

/// The position of a tile and its downsampling factor.
pub type TileKey = (usize, usize, usize, usize);

/// What is known of a tile. The tile's voxels are kept in [`TileCache::tiles`].
#[derive(Clone, Copy, PartialEq, Eq, Structural)]
pub enum TileState {
    /// The tile cannot be had.
    Missing,
    /// The tile is in memory, at this place.
    Loaded(usize),
    /// The tile was asked for with this ticket.
    Downloading(u64),
    /// The server asked at this time, in nanoseconds, to try again later.
    TryLater(u64),
}

/// What is known of a tile, and when it was last needed.
#[derive(Clone, Copy, PartialEq, Eq, Structural)]
pub struct TileStateEntry {
    pub state: TileState,
    pub last_access: u64,
}

/// What is known of each tile.
pub type TileEntries = Map<TileKey, TileStateEntry>;

#[verifier::external_type_specification]
#[verifier::external_body]
#[verifier::reject_recursive_types(K)]
#[verifier::reject_recursive_types(V)]
#[verifier::reject_recursive_types(S)]
pub struct ExDashMap<K, V, S>(DashMap<K, V, S>);

/// What a map of tiles holds.
pub uninterp spec fn entries(map: DashMap<TileKey, TileStateEntry>) -> Map<TileKey, TileStateEntry>;

/// `dashmap::DashMap::new`: the map is empty.
#[verifier::external_body]
fn new_map() -> (r: DashMap<TileKey, TileStateEntry>)
    ensures
        entries(r) == TileEntries::empty(),
{
    DashMap::new()
}

/// `dashmap::DashMap::get`: the value of a key, if it has one.
#[verifier::external_body]
fn get_entry(map: &DashMap<TileKey, TileStateEntry>, key: TileKey) -> (r: Option<TileStateEntry>)
    ensures
        r == (if entries(*map).contains_key(key) {
            Some(entries(*map)[key])
        } else {
            None
        }),
{
    map.get(&key).map(|entry| *entry.value())
}

/// `dashmap::DashMap::insert`: the key gets the value, in place of one that it had.
#[verifier::external_body]
fn set_entry(map: &mut DashMap<TileKey, TileStateEntry>, key: TileKey, entry: TileStateEntry)
    ensures
        entries(*final(map)) == entries(*old(map)).insert(key, entry),
{
    map.insert(key, entry);
}

/// What to do with a tile whose file is not there.
#[derive(Clone, Copy, PartialEq, Eq, Structural)]
pub enum OnMissing {
    /// Ask for it.
    Download,
    /// Give it up.
    GiveUp,
}

/// The next step of a request for a tile.
#[derive(Clone, Copy, PartialEq, Eq, Structural)]
pub enum TileStep {
    /// The tile is in this state.
    Ready(TileState),
    /// The tile's file has to be looked for, and [`TileCache::mapped`] to be told.
    Look(OnMissing),
}

/// How long to wait before a delayed tile is tried again, in nanoseconds.
pub const RETRY_AFTER: u64 = 10_000_000_000;

/// What a request finds for a tile in a state, given what has become of its download, at the time
/// `now`: the tile's new state and what to do.
pub open spec fn requested(state: TileState, download: DownloadState, now: u64) -> (TileState, TileStep) {
    match state {
        TileState::Downloading(_) => match download {
            DownloadState::Done => (state, TileStep::Look(OnMissing::GiveUp)),
            DownloadState::Pruned => (state, TileStep::Look(OnMissing::Download)),
            DownloadState::Delayed => (
                TileState::TryLater(now),
                TileStep::Ready(TileState::TryLater(now)),
            ),
            DownloadState::Failed => (TileState::Missing, TileStep::Ready(TileState::Missing)),
            _ => (state, TileStep::Ready(state)),
        },
        TileState::TryLater(at) => if now - at > RETRY_AFTER {
            (state, TileStep::Look(OnMissing::Download))
        } else {
            (state, TileStep::Ready(state))
        },
        _ => (state, TileStep::Ready(state)),
    }
}

fn request(state: TileState, download: DownloadState, now: u64) -> (r: (TileState, TileStep))
    ensures
        r == requested(state, download, now),
{
    match state {
        TileState::Downloading(_) => match download {
            DownloadState::Done => (state, TileStep::Look(OnMissing::GiveUp)),
            DownloadState::Pruned => (state, TileStep::Look(OnMissing::Download)),
            DownloadState::Delayed => (
                TileState::TryLater(now),
                TileStep::Ready(TileState::TryLater(now)),
            ),
            DownloadState::Failed => (TileState::Missing, TileStep::Ready(TileState::Missing)),
            _ => (state, TileStep::Ready(state)),
        },
        TileState::TryLater(at) => if now > at && now - at > RETRY_AFTER {
            (state, TileStep::Look(OnMissing::Download))
        } else {
            (state, TileStep::Ready(state))
        },
        _ => (state, TileStep::Ready(state)),
    }
}

/// What the end of a request for a tile whose file was looked for leaves: the tile's state, and how
/// many tickets were given. `found` is the place in memory that the file was put at, if it was a
/// tile.
pub open spec fn looked(on_missing: OnMissing, next_ticket: u64, found: Option<usize>) -> (TileState, int) {
    match found {
        Some(place) => (TileState::Loaded(place), 0),
        None => match on_missing {
            OnMissing::GiveUp => (TileState::Missing, 0),
            OnMissing::Download => (TileState::Downloading(next_ticket), 1),
        },
    }
}

/// Where the next tile is put, if the file is one.
pub open spec fn place_for(file: Option<Vec<u8>>, tiles: nat) -> Option<usize> {
    if file is Some && file->0@.len() == TILE_BYTES {
        Some(tiles as usize)
    } else {
        None
    }
}

/// The cache of the tiles of a volume.
pub struct TileCache {
    pub cache: DashMap<TileKey, TileStateEntry>,
    pub tiles: Vec<Vec<u8>>,
    pub access_counter: u64,
    pub next_ticket: u64,
}

impl TileCache {
    /// Every tile in memory has all of its voxels.
    pub open spec fn valid(&self) -> bool {
        &&& forall|i: int| 0 <= i < self.tiles@.len() ==> (#[trigger] self.tiles@[i])@.len() == TILE_BYTES
        &&& forall|k: TileKey|
            entries(self.cache).contains_key(k) ==> (
            #[trigger] entries(self.cache)[k].state matches TileState::Loaded(i) ==> i < self.tiles@.len())
    }

    /// What is known of a tile.
    pub open spec fn state_of(&self, key: TileKey) -> Option<TileState> {
        if entries(self.cache).contains_key(key) {
            Some(entries(self.cache)[key].state)
        } else {
            None
        }
    }

    /// What the begin of a request for a tile makes of the cache, and what to do then.
    pub open spec fn begins(
        self,
        after: TileCache,
        key: TileKey,
        download: DownloadState,
        now: u64,
        step: TileStep,
    ) -> bool {
        &&& after.tiles == self.tiles
        &&& after.next_ticket == self.next_ticket
        &&& after.access_counter == self.access_counter + 1
        &&& match self.state_of(key) {
            Some(before) => {
                let (state, next) = requested(before, download, now);
                &&& step == next
                &&& entries(after.cache) == entries(self.cache).insert(
                    key,
                    (TileStateEntry { state, last_access: self.access_counter }),
                )
            },
            None => {
                &&& step == TileStep::Look(OnMissing::Download)
                &&& entries(after.cache) == entries(self.cache)
            },
        }
    }

    /// What the end of a request makes of the cache, and the state that the tile is in then.
    pub open spec fn ends(
        self,
        after: TileCache,
        key: TileKey,
        file: Option<Vec<u8>>,
        on_missing: OnMissing,
        state: TileState,
    ) -> bool {
        let found = place_for(file, self.tiles@.len());
        &&& after.access_counter == self.access_counter
        &&& (state, after.next_ticket - self.next_ticket) == looked(on_missing, self.next_ticket, found)
        &&& entries(after.cache) == entries(self.cache).insert(
            key,
            (TileStateEntry { state, last_access: (self.access_counter - 1) as u64 }),
        )
        &&& after.tiles@ == (if found is Some {
            self.tiles@.push(file->0)
        } else {
            self.tiles@
        })
    }

    pub fn new() -> (r: TileCache)
        ensures
            r.valid(),
            entries(r.cache) == TileEntries::empty(),
            r.tiles@.len() == 0,
            r.access_counter == 0,
            r.next_ticket == 0,
    {
        TileCache { cache: new_map(), tiles: Vec::new(), access_counter: 0, next_ticket: 0 }
    }

    /// The ticket that a tile was asked for with, if it is on its way.
    pub fn ticket(&self, key: TileKey) -> (r: Option<u64>)
        ensures
            match r {
                Some(t) => entries(self.cache).contains_key(key) && entries(self.cache)[key].state
                    == TileState::Downloading(t),
                None => !(entries(self.cache).contains_key(key)
                    && entries(self.cache)[key].state is Downloading),
            },
    {
        match get_entry(&self.cache, key) {
            Some(entry) => match entry.state {
                TileState::Downloading(t) => Some(t),
                _ => None,
            },
            None => None,
        }
    }

    /// Begins a request for a tile at the time `now`, given what has become of its download if it
    /// is on its way.
    pub fn try_loading_tile(&mut self, key: TileKey, download: DownloadState, now: u64) -> (r: TileStep)
        requires
            old(self).valid(),
            old(self).access_counter < u64::MAX,
        ensures
            final(self).valid(),
            old(self).begins(*final(self), key, download, now, r),
    {
        let counter: u64 = self.access_counter;
        let ghost before = entries(self.cache);
        self.access_counter = self.access_counter + 1;
        match get_entry(&self.cache, key) {
            None => TileStep::Look(OnMissing::Download),
            Some(entry) => {
                let (state, step) = request(entry.state, download, now);
                let updated = TileStateEntry { state, last_access: counter };
                set_entry(&mut self.cache, key, updated);
                assert forall|k: TileKey| entries(self.cache).contains_key(k) implies (
                #[trigger] entries(self.cache)[k].state matches TileState::Loaded(i) ==> i
                    < self.tiles@.len()) by {
                    if k != key {
                        assert(before.contains_key(k) && entries(self.cache)[k] == before[k]);
                    } else {
                        assert(before.contains_key(k) && before[k] == entry);
                    }
                }
                step
            },
        }
    }

    /// Ends a request for a tile whose file was looked for: takes over the file's bytes if they are
    /// a tile, and otherwise does as `on_missing` says. Returns the tile's state. If that is
    /// `Downloading`, the tile has to be asked for with its ticket.
    pub fn mapped(&mut self, key: TileKey, file: Option<Vec<u8>>, on_missing: OnMissing) -> (r: TileState)
        requires
            old(self).valid(),
            old(self).access_counter > 0,
            old(self).next_ticket < u64::MAX,
        ensures
            final(self).valid(),
            old(self).ends(*final(self), key, file, on_missing, r),
    {
        let ghost before = entries(self.cache);
        let ghost old_tiles = self.tiles@;
        let mut tile: Option<Vec<u8>> = None;
        if let Some(bytes) = file {
            if bytes.len() == TILE_BYTES {
                tile = Some(bytes);
            }
        }
        let state = match tile {
            Some(bytes) => {
                let place: usize = self.tiles.len();
                self.tiles.push(bytes);
                TileState::Loaded(place)
            },
            None => match on_missing {
                OnMissing::GiveUp => TileState::Missing,
                OnMissing::Download => {
                    let ticket: u64 = self.next_ticket;
                    self.next_ticket = ticket + 1;
                    TileState::Downloading(ticket)
                },
            },
        };
        let entry = TileStateEntry { state, last_access: self.access_counter - 1 };
        set_entry(&mut self.cache, key, entry);
        proof {
            assert forall|k: TileKey| entries(self.cache).contains_key(k) implies (
            #[trigger] entries(self.cache)[k].state matches TileState::Loaded(i) ==> i
                < self.tiles@.len()) by {
                if k != key {
                    assert(before.contains_key(k) && entries(self.cache)[k] == before[k]);
                }
            }
            assert forall|i: int| 0 <= i < self.tiles@.len() implies (
            #[trigger] self.tiles@[i])@.len() == TILE_BYTES by {
                if i < old_tiles.len() {
                    assert(self.tiles@[i] == old_tiles[i]);
                }
            }
        }
        state
    }

    /// The voxels of a tile that is in memory.
    pub fn tile(&self, state: TileState) -> (r: Option<&Vec<u8>>)
        ensures
            match state {
                TileState::Loaded(i) => if i < self.tiles@.len() {
                    r is Some && *r->0 == self.tiles@[i as int]
                } else {
                    r is None
                },
                _ => r is None,
            },
    {
        match state {
            TileState::Loaded(i) => if i < self.tiles.len() {
                Some(&self.tiles[i])
            } else {
                None
            },
            _ => None,
        }
    }
}

/// The voxels of the tile at a place of the list, if it is in memory.
pub open spec fn loaded_tile(tiles: Seq<Vec<u8>>, states: Seq<TileState>, k: int) -> Option<Seq<u8>> {
    if 0 <= k < states.len() {
        match states[k] {
            TileState::Loaded(i) if i < tiles.len() => Some(tiles[i as int]@),
            _ => None,
        }
    } else {
        None
    }
}

impl TileCache {
    /// Paints what a slice shows of the tiles that are in memory. The states are those of
    /// [`visible_tiles`], in the same order.
    pub fn paint(&self, slice: &Slice, states: &[TileState], config: &DrawingConfig, buffer: &mut Image)
        requires
            self.valid(),
            slice.valid(),
            config.usable(),
            old(buffer).valid(),
            slice.u.pixels <= old(buffer).width,
            slice.v.pixels <= old(buffer).height,
        ensures
            old(buffer).same_size(*final(buffer)),
            forall|x: int, y: int|
                old(buffer).inside(x, y) && (x >= slice.u.pixels || y >= slice.v.pixels)
                    ==> #[trigger] final(buffer).pixel(x, y) == old(buffer).pixel(x, y),
            forall|x: int, y: int|
                0 <= x < slice.u.pixels && 0 <= y < slice.v.pixels ==> slice.drawn(
                    |k: int| loaded_tile(self.tiles@, states@, k),
                    slice.tile_count(),
                    *config,
                    x,
                    y,
                    old(buffer).pixel(x, y),
                    #[trigger] final(buffer).pixel(x, y),
                ),
    {
        let tiles = visible_tiles(slice);
        let ghost before = *buffer;
        let ghost there = |k: int| loaded_tile(self.tiles@, states@, k);
        let mut k: usize = 0;
        while k < tiles.len()
            invariant
                self.valid(),
                slice.valid(),
                config.usable(),
                before.same_size(*buffer),
                before.valid(),
                slice.u.pixels <= before.width,
                slice.v.pixels <= before.height,
                there == (|k: int| loaded_tile(self.tiles@, states@, k)),
                tiles@.len() == slice.tile_count(),
                forall|i: int, j: int|
                    0 <= i < slice.tile_columns() && 0 <= j < slice.tile_rows() ==> as_point(
                        #[trigger] tiles@[flat2(slice.tile_rows(), j, i)],
                    ) == on_coords(
                        *slice,
                        slice.u.first_tile(slice.scale as int) + i,
                        slice.v.first_tile(slice.scale as int) + j,
                        slice.depth() / (slice.scale as int) / 64,
                    ),
                k <= tiles@.len(),
                forall|x: int, y: int|
                    before.inside(x, y) && (x >= slice.u.pixels || y >= slice.v.pixels)
                        ==> #[trigger] buffer.pixel(x, y) == before.pixel(x, y),
                forall|x: int, y: int|
                    0 <= x < slice.u.pixels && 0 <= y < slice.v.pixels ==> slice.drawn(
                        there,
                        k as int,
                        *config,
                        x,
                        y,
                        before.pixel(x, y),
                        #[trigger] buffer.pixel(x, y),
                    ),
            decreases tiles@.len() - k,
        {
            proof {
                lemma_nth_tile(*slice, tiles@, k as int);
            }
            let state = if k < states.len() {
                states[k]
            } else {
                TileState::Missing
            };
            if let Some(tile) = self.tile(state) {
                let at: [usize; 3] = tiles[k];
                paint_tile(slice, tile.as_slice(), at[slice.u_coord], at[slice.v_coord], config, buffer);
            }
            k += 1;
        }
    }
}

/// A tile that is in memory, or that cannot be had, stays so.
pub proof fn loaded_and_missing_are_final(state: TileState, download: DownloadState, now: u64)
    requires
        state is Loaded || state is Missing,
    ensures
        requested(state, download, now) == (state, TileStep::Ready(state)),
{
}

/// A tile is looked for again only if its request is over or its delay has passed.
pub proof fn only_settled_tiles_are_looked_for(state: TileState, download: DownloadState, now: u64)
    requires
        requested(state, download, now).1 is Look,
    ensures
        state is Downloading ==> download is Done || download is Pruned,
        state matches TileState::TryLater(at) ==> now > at + RETRY_AFTER,
        state is Downloading || state is TryLater,
{
}

/// A request for a tile: what has become of its download, the time, the ticket that is free, and
/// where the tile's file was put in memory, if it was there.
pub struct TileRequest {
    pub download: DownloadState,
    pub now: u64,
    pub next_ticket: u64,
    pub found: Option<usize>,
}

/// What a request leaves of a tile: its state, and how many tickets were given.
pub open spec fn answered(state: Option<TileState>, r: TileRequest) -> (TileState, int) {
    let step = match state {
        Some(s) => requested(s, r.download, r.now).1,
        None => TileStep::Look(OnMissing::Download),
    };
    match step {
        TileStep::Ready(s) => (s, 0),
        TileStep::Look(on_missing) => looked(on_missing, r.next_ticket, r.found),
    }
}

/// The state of a tile after some requests for it, of which the first is the first of all.
pub open spec fn state_after(requests: Seq<TileRequest>) -> Option<TileState>
    decreases requests.len(),
{
    if requests.len() == 0 {
        None
    } else {
        Some(answered(state_after(requests.drop_last()), requests.last()).0)
    }
}

/// How many tickets some requests for a tile were given: so often it was asked for.
pub open spec fn tickets_given(requests: Seq<TileRequest>) -> int
    decreases requests.len(),
{
    if requests.len() == 0 {
        0
    } else {
        tickets_given(requests.drop_last()) + answered(
            state_after(requests.drop_last()),
            requests.last(),
        ).1
    }
}

/// The request is still waited for.
pub open spec fn under_way(download: DownloadState) -> bool {
    download is Queuing || download is Downloading
}

/// A request that is begun, and ended if its file was looked for, does to its tile what
/// [`answered`] says, gives as many tickets, and leaves the other tiles as they are.
pub proof fn requests_change_their_tile_alone(
    before: TileCache,
    between: TileCache,
    after: TileCache,
    key: TileKey,
    download: DownloadState,
    now: u64,
    step: TileStep,
    file: Option<Vec<u8>>,
    state: TileState,
)
    requires
        before.begins(between, key, download, now, step),
        match step {
            TileStep::Ready(s) => after == between && state == s,
            TileStep::Look(on_missing) => between.ends(after, key, file, on_missing, state),
        },
    ensures
        ({
            let request = TileRequest {
                download,
                now,
                next_ticket: before.next_ticket,
                found: place_for(file, before.tiles@.len()),
            };
            &&& (state, after.next_ticket - before.next_ticket) == answered(before.state_of(key), request)
            &&& after.state_of(key) == Some(state)
        }),
        forall|other: TileKey| other != key ==> #[trigger] after.state_of(other) == before.state_of(other),
{
}

/// A tile that is in memory, or that cannot be had, stays so, and is not asked for again, whatever
/// requests follow.
pub proof fn settled_tiles_stay_settled(requests: Seq<TileRequest>, more: Seq<TileRequest>)
    requires
        state_after(requests) matches Some(state) && (state is Loaded || state is Missing),
    ensures
        state_after(requests + more) == state_after(requests),
        tickets_given(requests + more) == tickets_given(requests),
    decreases more.len(),
{
    if more.len() == 0 {
        assert(requests + more =~= requests);
    } else {
        assert((requests + more).drop_last() =~= requests + more.drop_last());
        settled_tiles_stay_settled(requests, more.drop_last());
    }
}

/// While a tile is waited for, it stays so with its ticket, and no further ticket is given.
pub proof fn waiting_tiles_keep_their_ticket(requests: Seq<TileRequest>, more: Seq<TileRequest>)
    requires
        state_after(requests) matches Some(state) && state is Downloading,
        forall|i: int| 0 <= i < more.len() ==> under_way((#[trigger] more[i]).download),
    ensures
        state_after(requests + more) == state_after(requests),
        tickets_given(requests + more) == tickets_given(requests),
    decreases more.len(),
{
    if more.len() == 0 {
        assert(requests + more =~= requests);
    } else {
        let rest = more.drop_last();
        assert((requests + more).drop_last() =~= requests + rest);
        assert forall|i: int| 0 <= i < rest.len() implies under_way((#[trigger] rest[i]).download) by {
            assert(rest[i] == more[i]);
        }
        waiting_tiles_keep_their_ticket(requests, rest);
        assert(under_way(more[more.len() - 1].download));
    }
}

/// A delayed tile waits, without a further ticket, until its delay has passed.
pub proof fn delayed_tiles_wait(requests: Seq<TileRequest>, more: Seq<TileRequest>)
    requires
        state_after(requests) matches Some(TileState::TryLater(at)) && forall|i: int|
            0 <= i < more.len() ==> (#[trigger] more[i]).now <= at + RETRY_AFTER,
    ensures
        state_after(requests + more) == state_after(requests),
        tickets_given(requests + more) == tickets_given(requests),
    decreases more.len(),
{
    if more.len() == 0 {
        assert(requests + more =~= requests);
    } else {
        let rest = more.drop_last();
        let at = state_after(requests)->0->TryLater_0;
        assert((requests + more).drop_last() =~= requests + rest);
        assert forall|i: int| 0 <= i < rest.len() implies (#[trigger] rest[i]).now <= at + RETRY_AFTER by {
            assert(rest[i] == more[i]);
        }
        delayed_tiles_wait(requests, rest);
        assert(more[more.len() - 1].now <= at + RETRY_AFTER);
    }
}

/// A ticket is given exactly to a request that finds no file for a tile that was not asked for yet,
/// whose request was dropped, or whose delay has passed.
pub proof fn tickets_are_given_where_needed(requests: Seq<TileRequest>, r: TileRequest)
    ensures
        tickets_given(requests.push(r)) == tickets_given(requests) + (if r.found is None
            && match state_after(requests) {
            None => true,
            Some(TileState::Downloading(_)) => r.download is Pruned,
            Some(TileState::TryLater(at)) => r.now > at + RETRY_AFTER,
            _ => false,
        } {
            1int
        } else {
            0
        }),
{
    assert(requests.push(r).drop_last() =~= requests);
}

/// A tile that has no file, now or later, is asked for by the first request, and not again while
/// the first `n` requests find that one under way. If it is done or has failed then, the tile is
/// missing and never asked for again; if it was dropped, the tile is asked for once more.
pub proof fn tiles_without_files_are_asked_for_once(requests: Seq<TileRequest>, n: int, k: int)
    requires
        1 <= n <= requests.len(),
        1 <= k <= requests.len(),
        forall|i: int| 0 <= i < requests.len() ==> (#[trigger] requests[i]).found is None,
        forall|i: int| 1 <= i < n ==> under_way((#[trigger] requests[i]).download),
    ensures
        k <= n ==> tickets_given(requests.take(k)) == 1 && state_after(requests.take(k)) == Some(
            TileState::Downloading(requests[0].next_ticket),
        ),
        k > n && (requests[n].download is Done || requests[n].download is Failed) ==> tickets_given(
            requests.take(k),
        ) == 1 && state_after(requests.take(k)) == Some(TileState::Missing),
        k == n + 1 && requests[n].download is Pruned ==> tickets_given(requests.take(k)) == 2
            && state_after(requests.take(k)) == Some(TileState::Downloading(requests[n].next_ticket)),
{
    let first = requests.take(1);
    assert(first.drop_last() =~= Seq::empty());
    assert(first.last() == requests[0]);
    assert(state_after(first.drop_last()) is None);
    assert(tickets_given(first.drop_last()) == 0);
    let waiting = if k <= n {
        k
    } else {
        n
    };
    let more = requests.subrange(1, waiting);
    assert(requests.take(waiting) =~= first + more);
    assert forall|i: int| 0 <= i < more.len() implies under_way((#[trigger] more[i]).download) by {
        assert(more[i] == requests[i + 1]);
    }
    waiting_tiles_keep_their_ticket(first, more);
    if k > n {
        let over = requests.take(n + 1);
        assert(over.drop_last() =~= requests.take(n));
        assert(over.last() == requests[n]);
        let rest = requests.subrange(n + 1, k);
        assert(requests.take(k) =~= over + rest);
        if requests[n].download is Done || requests[n].download is Failed {
            settled_tiles_stay_settled(over, rest);
        }
    }
}

/// The tile that a reader used last. Its state is the one that was seen then.
#[derive(Clone, Copy, PartialEq, Eq)]
pub struct LocalState {
    pub last_tile_key: TileKey,
    pub last_tile: Option<TileState>,
}

impl LocalState {
    /// No tile.
    #[verifier::allow_in_spec]
    pub fn none() -> LocalState
        returns
            (LocalState { last_tile_key: (0, 0, 0, 0), last_tile: None }),
    {
        LocalState { last_tile_key: (0, 0, 0, 0), last_tile: None }
    }

    /// What is known of a tile without asking the cache; `None` if the cache has to be asked.
    pub fn known(&self, key: TileKey) -> (r: Option<Option<TileState>>)
        ensures
            r == (if key == self.last_tile_key {
                Some(self.last_tile)
            } else {
                None
            }),
    {
        let last: TileKey = self.last_tile_key;
        if key.0 == last.0 && key.1 == last.1 && key.2 == last.2 && key.3 == last.3 {
            Some(self.last_tile)
        } else {
            None
        }
    }

    /// Keeps the answer of the cache.
    pub fn keep(&mut self, key: TileKey, tile: TileState)
        ensures
            *final(self) == (LocalState { last_tile_key: key, last_tile: Some(tile) }),
    {
        self.last_tile_key = key;
        self.last_tile = Some(tile);
    }

    /// Forgets the tile.
    pub fn drop_last_cached(&mut self)
        ensures
            *final(self) == LocalState::none(),
    {
        *self = LocalState::none();
    }
}

/// The tile that a voxel lies in.
pub fn key_of_voxel(x: usize, y: usize, z: usize, downsampling: usize) -> (key: TileKey)
    ensures
        key == (
            (x / 64) as usize,
            (y / 64) as usize,
            (z / 64) as usize,
            downsampling,
        ),
{
    (x / 64, y / 64, z / 64, downsampling)
}

/// A tile is looked for again when its download is done, is asked for again when the download was
/// dropped, waits when the server is not ready, and is given up when the download failed. A tile that
/// waits is asked for again after ten seconds and not before.
pub proof fn downloads_decide_what_follows(ticket: u64, download: DownloadState, at: u64, now: u64)
    ensures
        requested(TileState::Downloading(ticket), download, now).1 == TileStep::Look(OnMissing::GiveUp)
            <==> download is Done,
        requested(TileState::Downloading(ticket), download, now).1 == TileStep::Look(OnMissing::Download)
            <==> download is Pruned,
        requested(TileState::Downloading(ticket), download, now).0 is TryLater <==> download is Delayed,
        requested(TileState::Downloading(ticket), download, now).0 is Missing <==> download is Failed,
        download is Delayed ==> requested(TileState::Downloading(ticket), download, now).0
            == TileState::TryLater(now),
        requested(TileState::TryLater(at), download, now).1 == TileStep::Look(OnMissing::Download) <==> now
            > at + 10_000_000_000,
        requested(TileState::TryLater(at), download, now).0 == TileState::TryLater(at),
{
}

/// A file is a tile if it has a byte for each of its 64 by 64 by 64 voxels, and it is put behind the
/// tiles that are in memory. Without one the tile is given up or gets the next ticket.
pub proof fn files_become_tiles(
    file: Option<Vec<u8>>,
    tiles: nat,
    on_missing: OnMissing,
    next_ticket: u64,
    place: usize,
)
    requires
        tiles <= usize::MAX,
    ensures
        place_for(file, tiles) is Some <==> file is Some && file->0@.len() == 64 * 64 * 64,
        place_for(file, tiles) matches Some(p) ==> p == tiles,
        looked(on_missing, next_ticket, Some(place)) == (TileState::Loaded(place), 0int),
        looked(OnMissing::GiveUp, next_ticket, None) == (TileState::Missing, 0int),
        looked(OnMissing::Download, next_ticket, None) == (TileState::Downloading(next_ticket), 1int),
{
}

/// A tile is painted if it is loaded, with the voxels at its place in memory.
pub proof fn loaded_tiles_are_painted(tiles: Seq<Vec<u8>>, states: Seq<TileState>, k: int)
    requires
        0 <= k < states.len(),
        states[k] matches TileState::Loaded(i) ==> i < tiles.len(),
    ensures
        loaded_tile(tiles, states, k) is Some <==> states[k] is Loaded,
        states[k] matches TileState::Loaded(i) ==> loaded_tile(tiles, states, k) == Some(tiles[i as int]@),
{
}

} // verus!
