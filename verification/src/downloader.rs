//! Downloading tiles: what is asked for, how many requests run at a time, and what becomes of the
//! answers.

use crate::model::{FullVolumeReference, Quality};
use crate::outside::{base64, base64_encode};
use crate::text::{begins_with, contains, ends_with, occurs_at, texts_hold_their_parts};
use crate::text::{digits, padded, push_number, push_padded};
use vstd::prelude::*;
use vstd::string::*;

verus! {

/// What has become of a request for a tile.
#[derive(Clone, Copy, PartialEq, Eq, Structural)]
pub enum DownloadState {
    Queuing,
    Downloading,
    Done,
    Failed,
    Delayed,
    /// It was not in view any more and therefore dropped.
    Pruned,
}

impl DownloadState {
    /// Nothing more will happen by itself.
    pub fn needs_reload(&self) -> (r: bool)
        ensures
            r == !(*self is Queuing || *self is Downloading),
    {
        match self {
            DownloadState::Queuing => false,
            DownloadState::Downloading => false,
            DownloadState::Done => true,
            DownloadState::Failed => true,
            DownloadState::Pruned => true,
            DownloadState::Delayed => true,
        }
    }
}

/// A tile that is wanted. The ticket tells requests for the same tile apart.
#[derive(Clone, Copy, PartialEq, Eq, Structural)]
pub struct DownloadTask {
    pub ticket: u64,
    pub x: usize,
    pub y: usize,
    pub z: usize,
    pub quality: Quality,
}

/// What a downloader is told.
#[derive(Clone, Copy, PartialEq, Eq, Structural)]
pub enum DownloadMessage {
    Download(DownloadTask),
    Position(i32, i32, i32, usize, usize),
}

/// Something that fetches tiles.
pub trait Downloader {
    spec fn messages(&self) -> Seq<DownloadMessage>;

    /// Asks for a tile.
    fn queue(&mut self, task: DownloadTask)
        ensures
            final(self).messages() == old(self).messages().push(DownloadMessage::Download(task)),
    ;
}

/// How many requests may run at a time.
pub const MAX_DOWNLOADS: usize = 32;

/// What is to be done for a message.
pub enum DownloadAction {
    /// Nothing.
    Nothing,
    /// There are too many requests already: the task's state becomes `Pruned`.
    Prune(DownloadTask),
    /// The task's state becomes `Downloading`, and `url` is requested, with a value for the header
    /// `Authorization` if there is one.
    Fetch { task: DownloadTask, url: String, authorization: Option<String> },
}

/// What is to be done with the answer to a request.
pub enum DownloadOutcome {
    /// The bytes are written to `file` in the directory `dir`, which may have to be made; then the
    /// task's state becomes `Done` and the tile is announced.
    Save { dir: String, file: String },
    /// The task's state becomes this one.
    State(DownloadState),
}

/// The URL of a tile.
pub open spec fn tile_url(
    server: Seq<char>,
    volume: Seq<char>,
    x: int,
    y: int,
    z: int,
    quality: Quality,
) -> Seq<char> {
    server + "/tiles/"@ + volume + "download/64-4?x="@ + digits(x as nat) + "&y="@ + digits(y as nat)
        + "&z="@ + digits(z as nat) + "&bitmask="@ + digits(quality.bit_mask as nat)
        + "&downsampling="@ + digits(quality.downsampling_factor as nat)
}

/// The directory of the file of a tile.
pub open spec fn tile_dir(dir: Seq<char>, z: int, quality: Quality) -> Seq<char> {
    dir + "/64-4/d"@ + padded(quality.downsampling_factor as nat, 2) + "/z"@ + padded(z as nat, 3)
}

/// The file of a tile.
pub open spec fn tile_file(dir: Seq<char>, x: int, y: int, z: int, quality: Quality) -> Seq<char> {
    tile_dir(dir, z, quality) + "/xyz-"@ + padded(x as nat, 3) + "-"@ + padded(y as nat, 3) + "-"@
        + padded(z as nat, 3) + "-b"@ + padded(quality.bit_mask as nat, 3) + "-d"@ + padded(
        quality.downsampling_factor as nat,
        2,
    ) + ".bin"@
}

/// The value of the header `Authorization`.
pub open spec fn basic_authorization(credentials: Seq<char>) -> Seq<char> {
    "Basic "@ + base64(vstd::utf8::encode_utf8(credentials))
}

/// Computes [`tile_url`].
pub fn url_of_tile(server: &str, volume: &str, x: usize, y: usize, z: usize, quality: Quality) -> (r:
    String)
    ensures
        r@ == tile_url(server@, volume@, x as int, y as int, z as int, quality),
{
    let mut r = server.to_owned();
    r.append("/tiles/");
    r.append(volume);
    r.append("download/64-4?x=");
    push_number(&mut r, x as u64);
    r.append("&y=");
    push_number(&mut r, y as u64);
    r.append("&z=");
    push_number(&mut r, z as u64);
    r.append("&bitmask=");
    push_number(&mut r, quality.bit_mask as u64);
    r.append("&downsampling=");
    push_number(&mut r, quality.downsampling_factor as u64);
    r
}

/// Computes [`tile_dir`].
pub fn dir_of_tile(dir: &str, z: usize, quality: Quality) -> (r: String)
    ensures
        r@ == tile_dir(dir@, z as int, quality),
{
    let mut r = dir.to_owned();
    r.append("/64-4/d");
    push_padded(&mut r, quality.downsampling_factor as u64, 2);
    r.append("/z");
    push_padded(&mut r, z as u64, 3);
    r
}

/// Computes [`tile_file`].
pub fn file_of_tile(dir: &str, x: usize, y: usize, z: usize, quality: Quality) -> (r: String)
    ensures
        r@ == tile_file(dir@, x as int, y as int, z as int, quality),
{
    let mut r = dir_of_tile(dir, z, quality);
    r.append("/xyz-");
    push_padded(&mut r, x as u64, 3);
    r.append("-");
    push_padded(&mut r, y as u64, 3);
    r.append("-");
    push_padded(&mut r, z as u64, 3);
    r.append("-b");
    push_padded(&mut r, quality.bit_mask as u64, 3);
    r.append("-d");
    push_padded(&mut r, quality.downsampling_factor as u64, 2);
    r.append(".bin");
    r
}

/// Computes [`basic_authorization`].
pub fn authorization_header(credentials: &str) -> (r: String)
    ensures
        r@ == basic_authorization(credentials@),
{
    let mut r = "Basic ".to_owned();
    let encoded = base64_encode(credentials.as_bytes());
    r.append(encoded.as_str());
    r
}

/// A downloader for the tiles of one volume. It works off its messages in the order in which they
/// came.
pub struct SimpleDownloader {
    pub dir: String,
    pub tile_server_base: String,
    pub volume_url_path_base: String,
    pub authorization: Option<String>,
    pub pending: Vec<DownloadMessage>,
    pub downloading: usize,
    pub position: (i32, i32, i32, usize, usize),
}

impl Downloader for SimpleDownloader {
    open spec fn messages(&self) -> Seq<DownloadMessage> {
        self.pending@
    }

    fn queue(&mut self, task: DownloadTask)
        ensures
            *final(self) == (SimpleDownloader { pending: final(self).pending, ..*old(self) }),
    {
        self.pending.push(DownloadMessage::Download(task));
    }
}

impl SimpleDownloader {
    /// No more requests run than may.
    pub open spec fn valid(&self) -> bool {
        self.downloading <= MAX_DOWNLOADS
    }

    pub fn new(
        dir: &str,
        tile_server_base: &str,
        volume_url_path_base: &str,
        authorization: Option<String>,
    ) -> (r: SimpleDownloader)
        ensures
            r.valid(),
            r.dir@ == dir@,
            r.tile_server_base@ == tile_server_base@,
            r.volume_url_path_base@ == volume_url_path_base@,
            r.authorization == authorization,
            r.pending@.len() == 0,
            r.downloading == 0,
            r.position == (0i32, 0i32, 0i32, 0usize, 0usize),
    {
        SimpleDownloader {
            dir: dir.to_owned(),
            tile_server_base: tile_server_base.to_owned(),
            volume_url_path_base: volume_url_path_base.to_owned(),
            authorization,
            pending: Vec::new(),
            downloading: 0,
            position: (0, 0, 0, 0, 0),
        }
    }

    /// Tells where the view is.
    pub fn position(&mut self, x: i32, y: i32, z: i32, width: usize, height: usize)
        ensures
            final(self).messages() == old(self).messages().push(
                DownloadMessage::Position(x, y, z, width, height),
            ),
            *final(self) == (SimpleDownloader { pending: final(self).pending, ..*old(self) }),
    {
        self.pending.push(DownloadMessage::Position(x, y, z, width, height));
    }

    /// Takes the next message; `None` if there is none.
    pub fn step(&mut self) -> (r: Option<DownloadAction>)
        requires
            old(self).valid(),
        ensures
            final(self).valid(),
            final(self).dir == old(self).dir,
            final(self).tile_server_base == old(self).tile_server_base,
            final(self).volume_url_path_base == old(self).volume_url_path_base,
            final(self).authorization == old(self).authorization,
            if old(self).messages().len() == 0 {
                r is None && *final(self) == *old(self)
            } else {
                &&& final(self).messages() == old(self).messages().drop_first()
                &&& r is Some
                &&& match old(self).messages()[0] {
                    DownloadMessage::Position(x, y, z, width, height) => {
                        &&& r->0 is Nothing
                        &&& final(self).position == (x, y, z, width, height)
                        &&& final(self).downloading == old(self).downloading
                    },
                    DownloadMessage::Download(task) => {
                        &&& final(self).position == old(self).position
                        &&& if old(self).downloading >= MAX_DOWNLOADS {
                            &&& r->0 == DownloadAction::Prune(task)
                            &&& final(self).downloading == old(self).downloading
                        } else {
                            &&& r->0 is Fetch
                            &&& r->0->Fetch_task == task
                            &&& r->0->url@ == tile_url(
                                old(self).tile_server_base@,
                                old(self).volume_url_path_base@,
                                task.x as int,
                                task.y as int,
                                task.z as int,
                                task.quality,
                            )
                            &&& match old(self).authorization {
                                Some(credentials) => r->0->authorization is Some
                                    && r->0->authorization->0@ == basic_authorization(credentials@),
                                None => r->0->authorization is None,
                            }
                            &&& final(self).downloading == old(self).downloading + 1
                        }
                    },
                }
            },
    {
        if self.pending.len() == 0 {
            return None;
        }
        let ghost before = self.pending@;
        let message = self.pending.remove(0);
        assert(self.pending@ =~= before.drop_first());
        match message {
            DownloadMessage::Position(x, y, z, width, height) => {
                self.position = (x, y, z, width, height);
                Some(DownloadAction::Nothing)
            },
            DownloadMessage::Download(task) => {
                if self.downloading >= MAX_DOWNLOADS {
                    return Some(DownloadAction::Prune(task));
                }
                self.downloading = self.downloading + 1;
                let url = url_of_tile(
                    self.tile_server_base.as_str(),
                    self.volume_url_path_base.as_str(),
                    task.x,
                    task.y,
                    task.z,
                    task.quality,
                );
                let authorization = match &self.authorization {
                    Some(credentials) => Some(authorization_header(credentials.as_str())),
                    None => None,
                };
                Some(DownloadAction::Fetch { task, url, authorization })
            },
        }
    }

    /// Takes the status of the answer to a request, or `None` if the request failed.
    pub fn finished(&mut self, task: DownloadTask, status: Option<u16>) -> (r: DownloadOutcome)
        requires
            old(self).valid(),
            old(self).downloading > 0,
        ensures
            final(self).valid(),
            final(self).downloading == old(self).downloading - 1,
            *final(self) == (SimpleDownloader { downloading: final(self).downloading, ..*old(self) }),
            match status {
                Some(200) => {
                    &&& r is Save
                    &&& r->dir@ == tile_dir(old(self).dir@, task.z as int, task.quality)
                    &&& r->file@ == tile_file(
                        old(self).dir@,
                        task.x as int,
                        task.y as int,
                        task.z as int,
                        task.quality,
                    )
                },
                Some(420) => r == DownloadOutcome::State(DownloadState::Delayed),
                _ => r == DownloadOutcome::State(DownloadState::Failed),
            },
    {
        self.downloading = self.downloading - 1;
        match status {
            Some(200) => DownloadOutcome::Save {
                dir: dir_of_tile(self.dir.as_str(), task.z, task.quality),
                file: file_of_tile(self.dir.as_str(), task.x, task.y, task.z, task.quality),
            },
            Some(420) => DownloadOutcome::State(DownloadState::Delayed),
            _ => DownloadOutcome::State(DownloadState::Failed),
        }
    }

    /// The URL whose status tells whether credentials are accepted.
    pub fn authorization_url(tile_server_base: &str) -> (r: String)
        ensures
            r@ == tile_server_base@ + "/tiles/scroll/"@ + FullVolumeReference::SCROLL1().scroll_id@
                + "/volume/"@ + FullVolumeReference::SCROLL1().volume@ + "/"@,
    {
        let vol1 = FullVolumeReference::SCROLL1();
        let mut r = tile_server_base.to_owned();
        r.append("/tiles/scroll/");
        r.append(vol1.scroll_id);
        r.append("/volume/");
        r.append(vol1.volume);
        r.append("/");
        r
    }

    /// The credentials are accepted if the request for the authorization URL came back with this
    /// status, or with none.
    pub fn check_authorization(status: Option<u16>) -> (r: bool)
        ensures
            r == (status == Some(200u16)),
    {
        match status {
            Some(s) => s == 200,
            None => false,
        }
    }
}

proof fn lemma_ends_with_three(a: Seq<char>, b: Seq<char>, c: Seq<char>, d: Seq<char>)
    ensures
        contains(a + b + c + d, b + c + d),
        ends_with(a + b + c, b + c),
{
    assert(a + b + c + d =~= a + (b + c + d) + Seq::empty());
    texts_hold_their_parts(a, b + c + d, Seq::empty());
    assert(a + b + c =~= a + (b + c));
    texts_hold_their_parts(a, b + c, Seq::empty());
}

/// What a text holds, and what it begins with, is still there when more is added.
proof fn lemma_more(s: Seq<char>, more: Seq<char>, part: Seq<char>)
    ensures
        contains(s, part) ==> contains(s + more, part),
        begins_with(s, part) ==> begins_with(s + more, part),
{
    if contains(s, part) {
        let i = choose|i: int| occurs_at(s, part, i);
        assert((s + more).subrange(i, i + part.len()) =~= s.subrange(i, i + part.len()));
        assert(occurs_at(s + more, part, i));
    }
    if begins_with(s, part) {
        assert((s + more).subrange(0, part.len() as int) =~= s.subrange(0, part.len() as int));
    }
}

proof fn lemma_four_more(s: Seq<char>, a: Seq<char>, b: Seq<char>, c: Seq<char>, d: Seq<char>, part: Seq<char>)
    ensures
        contains(s, part) ==> contains(s + a + b + c + d, part),
        begins_with(s, part) ==> begins_with(s + a + b + c + d, part),
{
    lemma_more(s, a, part);
    lemma_more(s + a, b, part);
    lemma_more(s + a + b, c, part);
    lemma_more(s + a + b + c, d, part);
}

/// The URL of a tile leads to the volume on the server, and its query names the three coordinates and
/// the quality.
pub proof fn urls_name_their_tile(
    server: Seq<char>,
    volume: Seq<char>,
    x: int,
    y: int,
    z: int,
    quality: Quality,
)
    ensures
        ({
            let url = tile_url(server, volume, x, y, z, quality);
            &&& begins_with(url, server + "/tiles/"@ + volume)
            &&& contains(url, "download/64-4?x="@ + digits(x as nat) + "&y="@)
            &&& contains(url, "&y="@ + digits(y as nat) + "&z="@)
            &&& contains(url, "&z="@ + digits(z as nat) + "&bitmask="@)
            &&& contains(url, "&bitmask="@ + digits(quality.bit_mask as nat) + "&downsampling="@)
            &&& ends_with(url, "&downsampling="@ + digits(quality.downsampling_factor as nat))
        }),
{
    let (dx, dy, dz) = (digits(x as nat), digits(y as nat), digits(z as nat));
    let bits = digits(quality.bit_mask as nat);
    let down = digits(quality.downsampling_factor as nat);
    let (qx, qy, qz, qb, qd) = ("download/64-4?x="@, "&y="@, "&z="@, "&bitmask="@, "&downsampling="@);
    let base = server + "/tiles/"@ + volume;
    let to_x = base + qx + dx;
    let to_y = to_x + qy + dy;
    let to_z = to_y + qz + dz;
    let to_bits = to_z + qb + bits;
    assert(base.subrange(0, base.len() as int) =~= base);
    assert(begins_with(base, base));
    lemma_four_more(base, qx, dx, qy, dy, base);
    lemma_four_more(to_y, qz, dz, qb, bits, base);
    lemma_more(to_bits, qd, base);
    lemma_more(to_bits + qd, down, base);
    let px = qx + dx + qy;
    lemma_ends_with_three(base, qx, dx, qy);
    lemma_four_more(to_x + qy, dy, qz, dz, qb, px);
    lemma_more(to_z + qb, bits, px);
    lemma_more(to_bits, qd, px);
    lemma_more(to_bits + qd, down, px);
    let py = qy + dy + qz;
    lemma_ends_with_three(to_x, qy, dy, qz);
    lemma_four_more(to_y + qz, dz, qb, bits, qd, py);
    lemma_more(to_bits + qd, down, py);
    let pz = qz + dz + qb;
    lemma_ends_with_three(to_y, qz, dz, qb);
    lemma_more(to_z + qb, bits, pz);
    lemma_more(to_bits, qd, pz);
    lemma_more(to_bits + qd, down, pz);
    let pb = qb + bits + qd;
    lemma_ends_with_three(to_z, qb, bits, qd);
    lemma_more(to_bits + qd, down, pb);
    lemma_ends_with_three(to_bits, qd, down, Seq::empty());
}

/// The file of a tile lies in the directory of its layer and resolution, and its name has the three
/// coordinates in their order, then the quality.
pub proof fn files_are_named_after_their_tile(dir: Seq<char>, x: int, y: int, z: int, quality: Quality)
    ensures
        ({
            let file = tile_file(dir, x, y, z, quality);
            &&& begins_with(file, tile_dir(dir, z, quality))
            &&& contains(file, "/xyz-"@ + padded(x as nat, 3) + "-"@)
            &&& contains(file, "-"@ + padded(y as nat, 3) + "-"@)
            &&& contains(file, "-"@ + padded(z as nat, 3) + "-b"@)
            &&& contains(file, "-b"@ + padded(quality.bit_mask as nat, 3) + "-d"@)
            &&& contains(file, "-d"@ + padded(quality.downsampling_factor as nat, 2) + ".bin"@)
        }),
        begins_with(tile_dir(dir, z, quality), dir),
        contains(
            tile_dir(dir, z, quality),
            "/64-4/d"@ + padded(quality.downsampling_factor as nat, 2) + "/z"@,
        ),
        ends_with(tile_dir(dir, z, quality), "/z"@ + padded(z as nat, 3)),
{
    let (px, py, pz) = (padded(x as nat, 3), padded(y as nat, 3), padded(z as nat, 3));
    let bits = padded(quality.bit_mask as nat, 3);
    let down = padded(quality.downsampling_factor as nat, 2);
    let (nx, n, nb, nd, end) = ("/xyz-"@, "-"@, "-b"@, "-d"@, ".bin"@);
    let all = tile_dir(dir, z, quality);
    let to_x = all + nx + px;
    let to_y = to_x + n + py;
    let to_z = to_y + n + pz;
    let to_bits = to_z + nb + bits;
    let to_down = to_bits + nd + down;
    assert(all.subrange(0, all.len() as int) =~= all);
    assert(begins_with(all, all));
    lemma_four_more(all, nx, px, n, py, all);
    lemma_four_more(to_y, n, pz, nb, bits, all);
    lemma_more(to_bits, nd, all);
    lemma_more(to_bits + nd, down, all);
    lemma_more(to_down, end, all);
    let a = nx + px + n;
    lemma_ends_with_three(all, nx, px, n);
    lemma_four_more(to_x + n, py, n, pz, nb, a);
    lemma_four_more(to_z + nb, bits, nd, down, end, a);
    let b = n + py + n;
    lemma_ends_with_three(to_x, n, py, n);
    lemma_four_more(to_y + n, pz, nb, bits, nd, b);
    lemma_more(to_bits + nd, down, b);
    lemma_more(to_down, end, b);
    let c = n + pz + nb;
    lemma_ends_with_three(to_y, n, pz, nb);
    lemma_four_more(to_z + nb, bits, nd, down, end, c);
    let d = nb + bits + nd;
    lemma_ends_with_three(to_z, nb, bits, nd);
    lemma_more(to_bits + nd, down, d);
    lemma_more(to_down, end, d);
    lemma_ends_with_three(to_bits, nd, down, end);
    let (nl, nz) = ("/64-4/d"@, "/z"@);
    assert(dir.subrange(0, dir.len() as int) =~= dir);
    assert(begins_with(dir, dir));
    lemma_four_more(dir, nl, down, nz, pz, dir);
    let e = nl + down + nz;
    lemma_ends_with_three(dir, nl, down, nz);
    lemma_more(dir + nl + down + nz, pz, e);
    lemma_ends_with_three(dir + nl + down, nz, pz, Seq::empty());
}

/// Credentials are sent in the way that is called basic.
pub proof fn credentials_are_encoded(credentials: Seq<char>)
    ensures
        begins_with(basic_authorization(credentials), "Basic "@),
        ends_with(basic_authorization(credentials), base64(vstd::utf8::encode_utf8(credentials))),
        basic_authorization(credentials).len() == 6 + base64(vstd::utf8::encode_utf8(credentials)).len(),
{
    reveal_strlit("Basic ");
    texts_hold_their_parts("Basic "@, base64(vstd::utf8::encode_utf8(credentials)), Seq::empty());
}

} // verus!
