//! Volumes that are stored as one TIFF file for each layer.

use crate::layouts::{is_tiff_single_plane, tiff_single_plane};
use crate::outside::{group_texts, regex_captures, regex_groups};
use crate::outside::{tiff_tag, tiff_tag_u32, tiff_tag_u32_vec, tiff_tag_values};
use crate::text::{padded, push_padded};
use crate::volume::generic::{AutoPaintVolume, VoxelVolume};
use crate::volume::grid500::{group_number, number_of_group, wide_product};
use vstd::prelude::*;
use vstd::string::*;

verus! {

pub const TAG_IMAGE_WIDTH: u16 = 256;

pub const TAG_IMAGE_LENGTH: u16 = 257;

pub const TAG_BITS_PER_SAMPLE: u16 = 258;

pub const TAG_COMPRESSION: u16 = 259;

pub const TAG_STRIP_OFFSETS: u16 = 273;

pub const TAG_SAMPLES_PER_PIXEL: u16 = 277;

/// What a TIFF file says of its first image. What is not there, or not readable, is `None`.
pub struct LayerTags {
    pub width: Option<u32>,
    pub height: Option<u32>,
    pub bits_per_sample: Option<u32>,
    pub compression: Option<u32>,
    pub samples_per_pixel: Option<u32>,
    pub strip_offsets: Option<Vec<u32>>,
}

/// One layer: the bytes of its pixels, two for each.
pub struct Layer {
    pub data: Vec<u8>,
    pub width: usize,
    pub height: usize,
}

/// A tag has the value, or is not there.
pub open spec fn is_or_absent(tag: Option<u32>, value: u32) -> bool {
    match tag {
        Some(v) => v == value,
        None => true,
    }
}

fn expect_tag(tag: Option<u32>, value: u32) -> (r: bool)
    ensures
        r == is_or_absent(tag, value),
{
    match tag {
        Some(v) => v == value,
        None => true,
    }
}

impl LayerTags {
    /// The image has 16 bits for a pixel, is not compressed, and lies in one strip that starts
    /// inside of a file of `length` bytes.
    pub open spec fn usable(&self, length: int) -> bool {
        &&& self.width is Some
        &&& self.height is Some
        &&& is_or_absent(self.bits_per_sample, 16)
        &&& is_or_absent(self.compression, 1)
        &&& is_or_absent(self.samples_per_pixel, 1)
        &&& self.strip_offsets is Some
        &&& self.strip_offsets->0@.len() == 1
        &&& self.strip_offsets->0@[0] < length
    }

    /// Reads the tags of a file.
    pub fn of_file(file: &[u8]) -> (tags: LayerTags)
        requires
            tiff_single_plane(file@),
        ensures
            tags.width == tiff_tag(file@, TAG_IMAGE_WIDTH),
            tags.height == tiff_tag(file@, TAG_IMAGE_LENGTH),
            tags.bits_per_sample == tiff_tag(file@, TAG_BITS_PER_SAMPLE),
            tags.compression == tiff_tag(file@, TAG_COMPRESSION),
            tags.samples_per_pixel == tiff_tag(file@, TAG_SAMPLES_PER_PIXEL),
            match tags.strip_offsets {
                Some(v) => tiff_tag_values(file@, TAG_STRIP_OFFSETS) == Some(v@),
                None => tiff_tag_values(file@, TAG_STRIP_OFFSETS) is None,
            },
    {
        LayerTags {
            width: tiff_tag_u32(file, TAG_IMAGE_WIDTH),
            height: tiff_tag_u32(file, TAG_IMAGE_LENGTH),
            bits_per_sample: tiff_tag_u32(file, TAG_BITS_PER_SAMPLE),
            compression: tiff_tag_u32(file, TAG_COMPRESSION),
            samples_per_pixel: tiff_tag_u32(file, TAG_SAMPLES_PER_PIXEL),
            strip_offsets: tiff_tag_u32_vec(file, TAG_STRIP_OFFSETS),
        }
    }
}

impl Layer {
    /// The layer in a file with the given tags; `None` if it is stored in a way that is not
    /// supported.
    pub fn from_tags(tags: &LayerTags, file: &[u8]) -> (r: Option<Layer>)
        ensures
            r is Some <==> tags.usable(file@.len() as int),
            r matches Some(layer) ==> {
                &&& layer.width == tags.width->0
                &&& layer.height == tags.height->0
                &&& layer.data@ == file@.skip(tags.strip_offsets->0@[0] as int)
            },
    {
        let (width, height) = match (tags.width, tags.height) {
            (Some(w), Some(h)) => (w as usize, h as usize),
            _ => return None,
        };
        if !expect_tag(tags.bits_per_sample, 16) || !expect_tag(tags.compression, 1) || !expect_tag(
            tags.samples_per_pixel,
            1,
        ) {
            return None;
        }
        match &tags.strip_offsets {
            Some(offsets) => {
                if offsets.len() != 1 {
                    return None;
                }
                let first: usize = offsets[0] as usize;
                if first >= file.len() {
                    return None;
                }
                let bytes = vstd::slice::slice_subrange(file, first, file.len());
                let data: Vec<u8> = vstd::slice::slice_to_vec(bytes);
                assert(data@ =~= file@.skip(first as int));
                Some(Layer { data, width, height })
            },
            None => None,
        }
    }

    /// The layer in a TIFF file; `None` if it is stored in a way that is not supported.
    pub fn from_tiff(file: &[u8]) -> (r: Option<Layer>)
        ensures
            !tiff_single_plane(file@) ==> r is None,
            tiff_single_plane(file@) ==> exists|tags: LayerTags|
                {
                    &&& tags.width == tiff_tag(file@, TAG_IMAGE_WIDTH)
                    &&& tags.height == tiff_tag(file@, TAG_IMAGE_LENGTH)
                    &&& tags.bits_per_sample == tiff_tag(file@, TAG_BITS_PER_SAMPLE)
                    &&& tags.compression == tiff_tag(file@, TAG_COMPRESSION)
                    &&& tags.samples_per_pixel == tiff_tag(file@, TAG_SAMPLES_PER_PIXEL)
                    &&& match tags.strip_offsets {
                        Some(v) => tiff_tag_values(file@, TAG_STRIP_OFFSETS) == Some(v@),
                        None => tiff_tag_values(file@, TAG_STRIP_OFFSETS) is None,
                    }
                    &&& r is Some <==> #[trigger] tags.usable(file@.len() as int)
                    &&& r matches Some(layer) ==> {
                        &&& layer.width == tags.width->0
                        &&& layer.height == tags.height->0
                        &&& layer.data@ == file@.skip(tags.strip_offsets->0@[0] as int)
                    }
                },
    {
        if !is_tiff_single_plane(file) {
            return None;
        }
        let tags = LayerTags::of_file(file);
        assert(tags.usable(file@.len() as int) == tags.usable(file@.len() as int));
        Layer::from_tags(&tags, file)
    }

    /// Where the higher byte of a pixel stands.
    pub open spec fn offset(&self, x: int, y: int) -> int {
        (y * self.width + x) * 2 + 1
    }

    /// The higher byte of a pixel; 0 if the file ends before it.
    pub open spec fn pixel(&self, x: int, y: int) -> u8 {
        if self.offset(x, y) < self.data@.len() {
            self.data@[self.offset(x, y)]
        } else {
            0
        }
    }

    pub fn get(&self, x: usize, y: usize) -> (v: u8)
        ensures
            v == self.pixel(x as int, y as int),
    {
        proof {
            let (a, b) = (y as int, self.width as int);
            assert(0 <= a * b <= 0xffff_ffff_ffff_ffff * 0xffff_ffff_ffff_ffff) by (nonlinear_arith)
                requires
                    0 <= a <= 0xffff_ffff_ffff_ffff,
                    0 <= b <= 0xffff_ffff_ffff_ffff,
            ;
        }
        let limit: u128 = self.data.len() as u128;
        let row: u128 = y as u128 * self.width as u128;
        if row >= limit {
            return 0;
        }
        let off: u128 = (row + x as u128) * 2;
        if off + 1 >= limit {
            0
        } else {
            self.data[(off + 1) as usize]
        }
    }
}

/// The pattern of the names of layer files.
pub open spec fn layer_pattern() -> Seq<char> {
    r"(\d{5})\.tif"@
}

/// The number of the layer that the groups name.
pub open spec fn layer_of_groups(groups: Option<Seq<Option<Seq<char>>>>) -> Option<nat> {
    match groups {
        Some(g) => group_number(g, 1),
        None => None,
    }
}

/// Reads the groups of a match of a file name.
pub fn read_layer_groups(groups: &Option<Vec<Option<String>>>) -> (r: Option<usize>)
    ensures
        ({
            let g = match *groups {
                Some(v) => Some(group_texts(v@)),
                None => None,
            };
            &&& r is Some <==> layer_of_groups(g) is Some
            &&& r matches Some(z) ==> layer_of_groups(g) == Some(z as nat)
        }),
{
    match groups {
        Some(g) => number_of_group(g, 1),
        None => None,
    }
}

/// The number of the layer in a file; `None` for other files.
pub fn layer_of_file(file_name: &str) -> (r: Option<usize>)
    ensures
        ({
            let layer = layer_of_groups(regex_groups(layer_pattern(), file_name@));
            &&& r is Some <==> layer is Some
            &&& r matches Some(z) ==> layer == Some(z as nat)
        }),
{
    let groups = regex_captures(r"(\d{5})\.tif", file_name);
    read_layer_groups(&groups)
}

/// The file of a layer.
pub fn layer_file(data_dir: &str, z: usize) -> (r: String)
    ensures
        r@ == data_dir@ + "/"@ + padded(z as nat, 5) + ".tif"@,
{
    let mut r = data_dir.to_owned();
    r.append("/");
    push_padded(&mut r, z as u64, 5);
    r.append(".tif");
    r
}

/// The largest number among some layers; 0 if there is none.
pub open spec fn largest_layer(layers: Seq<usize>) -> int
    decreases layers.len(),
{
    if layers.len() == 0 {
        0
    } else if layers.last() > largest_layer(layers.drop_last()) {
        layers.last() as int
    } else {
        largest_layer(layers.drop_last())
    }
}

/// The largest number among some layers.
pub fn last_layer(layers: &Vec<usize>) -> (max: usize)
    ensures
        max == largest_layer(layers@),
{
    let mut max: usize = 0;
    let mut i: usize = 0;
    while i < layers.len()
        invariant
            i <= layers@.len(),
            max == largest_layer(layers@.take(i as int)),
        decreases layers@.len() - i,
    {
        proof {
            assert(layers@.take(i + 1).drop_last() =~= layers@.take(i as int));
            assert(layers@.take(i + 1).last() == layers@[i as int]);
        }
        if layers[i] > max {
            max = layers[i];
        }
        i += 1;
    }
    assert(layers@.take(i as int) =~= layers@);
    max
}

/// A volume of layers. `max_x`, `max_y` and `max_z` are the last column, row and layer that are
/// read.
pub struct LayersMappedVolume {
    pub max_x: usize,
    pub max_y: usize,
    pub max_z: usize,
    pub data: Vec<Option<Layer>>,
}

/// The smaller of two numbers, of which there may be only one.
pub open spec fn least_of(a: Option<int>, b: int) -> int {
    match a {
        Some(v) => if v < b {
            v
        } else {
            b
        },
        None => b,
    }
}

/// The width of the narrowest layer.
pub open spec fn least_width(layers: Seq<Option<Layer>>) -> Option<int>
    decreases layers.len(),
{
    if layers.len() == 0 {
        None
    } else {
        match layers.last() {
            Some(l) => Some(least_of(least_width(layers.drop_last()), l.width as int)),
            None => least_width(layers.drop_last()),
        }
    }
}

/// The height of the lowest layer.
pub open spec fn least_height(layers: Seq<Option<Layer>>) -> Option<int>
    decreases layers.len(),
{
    if layers.len() == 0 {
        None
    } else {
        match layers.last() {
            Some(l) => Some(least_of(least_height(layers.drop_last()), l.height as int)),
            None => least_height(layers.drop_last()),
        }
    }
}

/// What all layers have in common: the width of the narrowest and the height of the lowest one;
/// `None` if there is no layer.
pub fn common_size(layers: &Vec<Option<Layer>>) -> (r: Option<(usize, usize)>)
    ensures
        match r {
            Some((w, h)) => least_width(layers@) == Some(w as int) && least_height(layers@) == Some(
                h as int,
            ),
            None => least_width(layers@) is None && least_height(layers@) is None,
        },
{
    let mut r: Option<(usize, usize)> = None;
    let mut i: usize = 0;
    while i < layers.len()
        invariant
            i <= layers@.len(),
            match r {
                Some((w, h)) => least_width(layers@.take(i as int)) == Some(w as int)
                    && least_height(layers@.take(i as int)) == Some(h as int),
                None => least_width(layers@.take(i as int)) is None && least_height(
                    layers@.take(i as int),
                ) is None,
            },
        decreases layers@.len() - i,
    {
        proof {
            assert(layers@.take(i + 1).drop_last() =~= layers@.take(i as int));
            assert(layers@.take(i + 1).last() == layers@[i as int]);
        }
        if let Some(l) = &layers[i] {
            r = match r {
                Some((w, h)) => Some((
                    if w < l.width {
                        w
                    } else {
                        l.width
                    },
                    if h < l.height {
                        h
                    } else {
                        l.height
                    },
                )),
                None => Some((l.width, l.height)),
            };
        }
        i += 1;
    }
    assert(layers@.take(i as int) =~= layers@);
    r
}

impl LayersMappedVolume {
    /// The volume of the layers from 0 to `max_z`, of which some may be missing.
    pub fn from_layers(max_z: usize, layers: Vec<Option<Layer>>) -> (r: LayersMappedVolume)
        requires
            max_z >= 1,
            least_width(layers@) is Some,
            least_width(layers@)->0 >= 1,
            least_height(layers@)->0 >= 1,
        ensures
            r.max_x == least_width(layers@)->0 - 1,
            r.max_y == least_height(layers@)->0 - 1,
            r.max_z == max_z - 1,
            r.data == layers,
    {
        let (width, height) = common_size(&layers).unwrap();
        LayersMappedVolume { max_x: width - 1, max_y: height - 1, max_z: max_z - 1, data: layers }
    }

    /// The voxel at a point of the full resolution; 0 where nothing is.
    pub open spec fn voxel(&self, x: int, y: int, z: int) -> u8 {
        if x < 0 || y < 0 || z < 0 || x > self.max_x || y > self.max_y || z > self.max_z || z
            >= self.data@.len() {
            0
        } else {
            match self.data@[z] {
                Some(layer) => layer.pixel(x, y),
                None => 0,
            }
        }
    }
}

/// How a stack of layers is read: the voxel at column `x` of row `y` of layer `z` is the second of
/// the two bytes of its pixel, and the pixels of a layer are stored row by row. There is nothing
/// behind the last column, row or layer, where a layer is missing, and behind the end of a file.
pub proof fn layers_are_read_row_by_row(volume: LayersMappedVolume, x: int, y: int, z: int)
    ensures
        ({
            let inside = 0 <= x <= volume.max_x && 0 <= y <= volume.max_y && 0 <= z <= volume.max_z && z
                < volume.data@.len();
            if inside && volume.data@[z] is Some {
                let layer = volume.data@[z]->0;
                let place = 2 * (y * layer.width + x) + 1;
                if place < layer.data@.len() {
                    volume.voxel(x, y, z) == layer.data@[place]
                } else {
                    volume.voxel(x, y, z) == 0
                }
            } else {
                volume.voxel(x, y, z) == 0
            }
        }),
{
}

impl VoxelVolume for LayersMappedVolume {
    fn get(&self, xyz: [i32; 3], downsampling: i32) -> (v: u8)
        ensures
            v == self.voxel(
                xyz@[0] * downsampling,
                xyz@[1] * downsampling,
                xyz@[2] * downsampling,
            ),
    {
        let x: i64 = wide_product(xyz[0], downsampling);
        let y: i64 = wide_product(xyz[1], downsampling);
        let z: i64 = wide_product(xyz[2], downsampling);
        if x < 0 || y < 0 || z < 0 {
            return 0;
        }
        if x as u64 > self.max_x as u64 || y as u64 > self.max_y as u64 || z as u64
            > self.max_z as u64 || z as u64 >= self.data.len() as u64 {
            return 0;
        }
        match &self.data[z as usize] {
            Some(layer) => layer.get(x as usize, y as usize),
            None => 0,
        }
    }
}

impl AutoPaintVolume for LayersMappedVolume {

}

/// A layer's number is read back from its file's name, with as many leading zeros as there may be.
pub proof fn layer_names_are_read_back(text: Option<Seq<char>>, z: nat, width: int)
    requires
        z <= usize::MAX,
    ensures
        layer_of_groups(Some(seq![text, Some(padded(z, width))])) == Some(z),
        layer_of_groups(Some(seq![text, None])) is None,
        layer_of_groups(None) is None,
{
    crate::text::written_numbers_are_read_back(z, width, usize::MAX as nat);
}

/// No layer lies behind the largest one, which is one of them.
pub proof fn layers_reach_to_the_largest(layers: Seq<usize>)
    ensures
        forall|i: int| 0 <= i < layers.len() ==> #[trigger] layers[i] <= largest_layer(layers),
        layers.len() > 0 ==> exists|i: int|
            0 <= i < layers.len() && #[trigger] layers[i] == largest_layer(layers),
        layers.len() == 0 ==> largest_layer(layers) == 0,
    decreases layers.len(),
{
    if layers.len() > 0 {
        let rest = layers.drop_last();
        layers_reach_to_the_largest(rest);
        assert forall|i: int| 0 <= i < layers.len() implies #[trigger] layers[i] <= largest_layer(
            layers,
        ) by {
            if i < rest.len() {
                assert(rest[i] == layers[i]);
            }
        }
        let last = layers.len() - 1;
        assert(layers[last] == layers.last());
        if rest.len() > 0 {
            let a = choose|i: int| 0 <= i < rest.len() && #[trigger] rest[i] == largest_layer(rest);
            assert(layers[a] == rest[a]);
        }
    }
}

/// No layer is narrower or lower than what all have in common, and some layer has that width, some
/// layer that height.
pub proof fn layers_have_their_size_in_common(layers: Seq<Option<Layer>>)
    ensures
        forall|i: int|
            #![trigger layers[i]]
            0 <= i < layers.len() && layers[i] is Some ==> {
                &&& least_width(layers) is Some
                &&& least_height(layers) is Some
                &&& least_width(layers)->0 <= layers[i]->0.width
                &&& least_height(layers)->0 <= layers[i]->0.height
            },
        least_width(layers) matches Some(w) ==> exists|i: int|
            0 <= i < layers.len() && (#[trigger] layers[i]) is Some && layers[i]->0.width == w,
        least_height(layers) matches Some(h) ==> exists|i: int|
            0 <= i < layers.len() && (#[trigger] layers[i]) is Some && layers[i]->0.height == h,
    decreases layers.len(),
{
    if layers.len() > 0 {
        let rest = layers.drop_last();
        layers_have_their_size_in_common(rest);
        let last = layers.len() - 1;
        assert(layers[last] == layers.last());
        assert forall|i: int|
            #![trigger layers[i]]
            0 <= i < layers.len() && layers[i] is Some implies {
            &&& least_width(layers) is Some
            &&& least_height(layers) is Some
            &&& least_width(layers)->0 <= layers[i]->0.width
            &&& least_height(layers)->0 <= layers[i]->0.height
        } by {
            if i < rest.len() {
                assert(rest[i] == layers[i]);
            }
        }
        if least_width(rest) is Some {
            let w = least_width(rest)->0;
            let a = choose|i: int|
                0 <= i < rest.len() && (#[trigger] rest[i]) is Some && rest[i]->0.width == w;
            assert(layers[a] == rest[a]);
        }
        if least_height(rest) is Some {
            let h = least_height(rest)->0;
            let b = choose|i: int|
                0 <= i < rest.len() && (#[trigger] rest[i]) is Some && rest[i]->0.height == h;
            assert(layers[b] == rest[b]);
        }
    }
}

/// A layer can be used if it has 16 bits for a pixel, one sample and no compression, where a tag that is
/// not there stands for these, and if its only strip starts in the file. Its size has to be given.
pub proof fn plain_layers_are_usable(tags: LayerTags, length: int)
    ensures
        tags.usable(length) ==> tags.width is Some && tags.height is Some && tags.strip_offsets is Some
            && tags.strip_offsets->0@.len() == 1 && tags.strip_offsets->0@[0] < length,
        tags.bits_per_sample matches Some(bits) ==> (tags.usable(length) ==> bits == 16),
        tags.compression matches Some(compression) ==> (tags.usable(length) ==> compression == 1),
        tags.samples_per_pixel matches Some(samples) ==> (tags.usable(length) ==> samples == 1),
        tags.width is Some && tags.height is Some && tags.bits_per_sample is None && tags.compression is None
            && tags.samples_per_pixel is None && tags.strip_offsets is Some && tags.strip_offsets->0@.len()
            == 1 && tags.strip_offsets->0@[0] < length ==> tags.usable(length),
        tags.width is Some && tags.height is Some && tags.bits_per_sample == Some(16u32) && tags.compression
            == Some(1u32) && tags.samples_per_pixel == Some(1u32) && tags.strip_offsets is Some
            && tags.strip_offsets->0@.len() == 1 && tags.strip_offsets->0@[0] < length ==> tags.usable(
            length,
        ),
{
}

} // verus!
