//! Arrays that are stored in several resolutions.

use vstd::arithmetic::power2::pow2;
use vstd::bits::lemma_usize_shr_is_div;
use vstd::prelude::*;
use vstd::std_specs::bits::u8_trailing_zeros;
use vstd::string::*;

verus! {

pub struct OmeAxis {
    pub name: String,
    pub axis_type: String,
}

/// One resolution: the place of its array below the place of the whole.
pub struct OmeDataset {
    pub path: String,
}

pub struct OmeMultiScale {
    pub axes: Vec<OmeAxis>,
    pub datasets: Vec<OmeDataset>,
    pub name: String,
    pub version: String,
}

/// What the file `.zattrs` says.
pub struct OmeZarrAttrs {
    pub multiscales: Vec<OmeMultiScale>,
}

pub struct OmeZarr {
    pub url: String,
    pub cache_dir: String,
    pub attrs: OmeZarrAttrs,
}

/// Where the array of one resolution lies, and where its chunks are kept.
pub struct OmeArray {
    pub url: String,
    pub cache_dir: String,
}

/// At most this many resolutions are used.
pub const MAX_LEVELS: usize = 4;

fn below(base: &str, path: &str) -> (r: String)
    ensures
        r@ == base@ + "/"@ + path@,
{
    let mut r = base.to_string();
    r.append("/");
    r.append(path);
    r
}

impl OmeZarr {
    /// The arrays of the finest resolutions.
    pub fn arrays(&self) -> (r: Vec<OmeArray>)
        requires
            self.attrs.multiscales@.len() > 0,
        ensures
            r@.len() == (if self.attrs.multiscales@[0].datasets@.len() < MAX_LEVELS {
                self.attrs.multiscales@[0].datasets@.len() as int
            } else {
                MAX_LEVELS as int
            }),
            forall|i: int|
                0 <= i < r@.len() ==> {
                    &&& (#[trigger] r@[i]).url@ == self.url@ + "/"@
                        + self.attrs.multiscales@[0].datasets@[i].path@
                    &&& r@[i].cache_dir@ == self.cache_dir@ + "/"@
                        + self.attrs.multiscales@[0].datasets@[i].path@
                },
    {
        let datasets = &self.attrs.multiscales[0].datasets;
        let mut r: Vec<OmeArray> = Vec::new();
        let mut i: usize = 0;
        while i < datasets.len() && i < MAX_LEVELS
            invariant
                datasets == self.attrs.multiscales@[0].datasets,
                i <= datasets@.len(),
                i <= MAX_LEVELS,
                r@.len() == i,
                forall|k: int|
                    0 <= k < i ==> {
                        &&& (#[trigger] r@[k]).url@ == self.url@ + "/"@ + datasets@[k].path@
                        &&& r@[k].cache_dir@ == self.cache_dir@ + "/"@ + datasets@[k].path@
                    },
            decreases datasets@.len() - i,
        {
            let path = datasets[i].path.as_str();
            r.push(OmeArray { url: below(self.url.as_str(), path), cache_dir: below(self.cache_dir.as_str(), path) });
            i += 1;
        }
        r
    }
}

/// The resolution that goes with a scale factor: how often it can be halved.
pub fn scale_of(sfactor: u8) -> (r: u8)
    ensures
        r == u8_trailing_zeros(sfactor),
{
    sfactor.trailing_zeros() as u8
}

/// All resolutions: the voxel of a level at an index of that level, where there is one.
pub type Pyramid = spec_fn(int, Seq<int>) -> Option<u8>;

/// A read that goes from one resolution to the next coarser one until a voxel is found.
pub struct OmeLookup {
    pub xyz: [usize; 3],
    pub first: u8,
    pub level: u8,
    pub levels: u8,
    pub found: Option<u8>,
}

/// What a read does next.
pub enum OmeStep {
    /// Read this voxel of this resolution.
    Read(u8, [usize; 3]),
    /// The voxel has this value.
    Done(u8),
}

/// The index of a voxel in a coarser resolution.
pub open spec fn scaled(xyz: Seq<usize>, level: int) -> Seq<int> {
    xyz.map_values(|c: usize| c as int / pow2(level as nat) as int)
}

/// The value that the finest resolution from `level` on has for a voxel; 0 if none has one.
pub open spec fn finest_value(pyramid: Pyramid, xyz: Seq<usize>, level: int, levels: int) -> u8
    decreases levels - level,
{
    if level >= levels {
        0
    } else {
        match pyramid(level, scaled(xyz, level)) {
            Some(v) => v,
            None => finest_value(pyramid, xyz, level + 1, levels),
        }
    }
}

impl OmeLookup {
    pub open spec fn valid(&self) -> bool {
        &&& 1 <= self.levels <= MAX_LEVELS
        &&& self.first < self.levels
        &&& self.first <= self.level <= self.levels
    }

    /// The reads so far gave what the pyramid holds.
    pub open spec fn follows(&self, pyramid: Pyramid) -> bool {
        finest_value(pyramid, self.xyz@, self.first as int, self.levels as int) == (match self.found {
            Some(v) => v,
            None => finest_value(pyramid, self.xyz@, self.level as int, self.levels as int),
        })
    }

    /// Begins to read a voxel at a scale; the coarsest resolution serves for all coarser scales.
    pub fn new(xyz: [usize; 3], scale: u8, levels: u8) -> (r: OmeLookup)
        requires
            1 <= levels <= MAX_LEVELS,
        ensures
            r.valid(),
            r.xyz == xyz,
            r.levels == levels,
            r.first == (if scale < levels {
                scale
            } else {
                (levels - 1) as u8
            }),
            r.level == r.first,
            r.found is None,
            forall|pyramid: Pyramid| #[trigger] r.follows(pyramid),
    {
        let first: u8 = if scale < levels {
            scale
        } else {
            levels - 1
        };
        OmeLookup { xyz, first, level: first, levels, found: None }
    }

    /// What to do next.
    pub fn step(&self) -> (r: OmeStep)
        requires
            self.valid(),
        ensures
            match r {
                OmeStep::Read(level, index) => {
                    &&& self.found is None
                    &&& self.level < self.levels
                    &&& level == self.level
                    &&& index@.map_values(|c: usize| c as int) == scaled(self.xyz@, level as int)
                },
                OmeStep::Done(v) => {
                    &&& self.found is Some || self.level == self.levels
                    &&& v == (match self.found {
                        Some(f) => f,
                        None => 0,
                    })
                },
            },
    {
        match self.found {
            Some(v) => OmeStep::Done(v),
            None => if self.level < self.levels {
                let s: usize = self.level as usize;
                let index: [usize; 3] = [self.xyz[0] >> s, self.xyz[1] >> s, self.xyz[2] >> s];
                proof {
                    lemma_usize_shr_is_div(self.xyz@[0], s);
                    lemma_usize_shr_is_div(self.xyz@[1], s);
                    lemma_usize_shr_is_div(self.xyz@[2], s);
                    assert(index@.map_values(|c: usize| c as int) =~= scaled(self.xyz@, s as int));
                }
                OmeStep::Read(self.level, index)
            } else {
                OmeStep::Done(0)
            },
        }
    }

    /// Takes what a read gave.
    pub fn answer(&mut self, v: Option<u8>)
        requires
            old(self).valid(),
            old(self).found is None,
            old(self).level < old(self).levels,
        ensures
            final(self).valid(),
            final(self).xyz == old(self).xyz,
            final(self).first == old(self).first,
            final(self).levels == old(self).levels,
            final(self).level == old(self).level + 1,
            final(self).found == v,
            forall|pyramid: Pyramid|
                #![trigger old(self).follows(pyramid)]
                old(self).follows(pyramid) && pyramid(
                    old(self).level as int,
                    scaled(old(self).xyz@, old(self).level as int),
                ) == v ==> final(self).follows(pyramid),
    {
        self.level = self.level + 1;
        self.found = v;
    }
}

/// A read that is done has the value of the finest resolution that has one.
pub proof fn reads_take_the_finest(lookup: OmeLookup, pyramid: Pyramid, v: u8)
    requires
        lookup.valid(),
        lookup.follows(pyramid),
        lookup.found == Some(v) || (lookup.found is None && lookup.level == lookup.levels && v == 0),
    ensures
        v == finest_value(pyramid, lookup.xyz@, lookup.first as int, lookup.levels as int),
{
}

/// A voxel of a coarser resolution holds all voxels of the finest one that it stands for: at level
/// `level` it reaches over 2 to the power of `level` of them along each axis.
pub proof fn coarser_voxels_hold_finer_ones(xyz: Seq<usize>, level: int, i: int)
    requires
        0 <= level,
        0 <= i < xyz.len(),
    ensures
        scaled(xyz, level).len() == xyz.len(),
        scaled(xyz, level)[i] * pow2(level as nat) <= xyz[i] < (scaled(xyz, level)[i] + 1) * pow2(
            level as nat,
        ),
        scaled(xyz, 0)[i] == xyz[i],
{
    let (c, p) = (xyz[i] as int, pow2(level as nat) as int);
    vstd::arithmetic::power2::lemma_pow2_pos(level as nat);
    vstd::arithmetic::power2::lemma2_to64();
    vstd::arithmetic::div_mod::lemma_fundamental_div_mod(c, p);
    vstd::arithmetic::div_mod::lemma_mod_bound(c, p);
    let q = c / p;
    assert(p * q == q * p && (q + 1) * p == q * p + p) by (nonlinear_arith);
}

/// The value is that of the first resolution that has one, from the given level on; a voxel for which
/// none has one is zero.
pub proof fn the_first_resolution_counts(pyramid: Pyramid, xyz: Seq<usize>, level: int, levels: int, k: int)
    requires
        level <= k <= levels,
        forall|l: int| level <= l < k ==> #[trigger] pyramid(l, scaled(xyz, l)) is None,
        k < levels ==> pyramid(k, scaled(xyz, k)) is Some,
    ensures
        k < levels ==> finest_value(pyramid, xyz, level, levels) == pyramid(k, scaled(xyz, k))->0,
        k == levels ==> finest_value(pyramid, xyz, level, levels) == 0,
    decreases k - level,
{
    if level < k {
        assert(pyramid(level, scaled(xyz, level)) is None);
        the_first_resolution_counts(pyramid, xyz, level + 1, levels, k);
    }
}

} // verus!
