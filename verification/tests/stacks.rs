use vesuvius_gui::layouts::is_tiff_single_plane;
use vesuvius_gui::volume::generic::VoxelVolume;
use vesuvius_gui::volume::grid500::{
    cell_file, cell_of_file, extent_of, read_cell_groups, Cell, VolumeGrid500Mapped,
};
use vesuvius_gui::volume::layers::{
    common_size, last_layer, layer_file, layer_of_file, read_layer_groups, Layer, LayerTags,
    LayersMappedVolume,
};

fn entry(file: &mut Vec<u8>, tag: u16, kind: u16, count: u32, value: u32) {
    file.extend_from_slice(&tag.to_le_bytes());
    file.extend_from_slice(&kind.to_le_bytes());
    file.extend_from_slice(&count.to_le_bytes());
    file.extend_from_slice(&value.to_le_bytes());
}

/// A TIFF file with these tags, each with one number, and then the pixels.
fn tiff(tags: &[(u16, u32)], pixels: &[u8]) -> Vec<u8> {
    let mut file = vec![0x49, 0x49, 42, 0, 8, 0, 0, 0];
    file.extend_from_slice(&(tags.len() as u16).to_le_bytes());
    for &(tag, value) in tags {
        let kind = if [258, 259, 262, 277].contains(&tag) { 3 } else { 4 };
        entry(&mut file, tag, kind, 1, value);
    }
    file.extend_from_slice(&[0, 0, 0, 0]);
    file.extend_from_slice(pixels);
    file
}

/// The offset of the pixels of a file with this many tags.
fn pixels_at(tags: u32) -> u32 {
    14 + 12 * tags
}

fn layer_tiff(width: u32, height: u32, bits: u32, pixels: &[u8]) -> Vec<u8> {
    tiff(
        &[(256, width), (257, height), (258, bits), (259, 1), (262, 1), (273, pixels_at(8)), (277, 1), (279, 8)],
        pixels,
    )
}

#[test]
fn cells_begin_behind_the_header() {
    let cell = Cell::from_file(vec![0, 0, 0, 0, 0, 0, 0, 0, 3, 4]).unwrap();
    assert_eq!(cell.data, vec![3, 4]);
    assert_eq!(cell.strip_spacing, 500147);
    assert_eq!(cell.get(0, 0, 0), 4);
    assert!(Cell::from_file(vec![0; 8]).is_none());
}

#[test]
fn layers_are_read_from_files() {
    let file = layer_tiff(2, 2, 16, &[0, 1, 0, 2, 0, 3, 0, 4]);
    let layer = Layer::from_tiff(&file).unwrap();
    assert_eq!((layer.width, layer.height), (2, 2));
    assert_eq!(layer.get(0, 0), 1);
    assert_eq!(layer.get(1, 0), 2);
    assert_eq!(layer.get(0, 1), 3);
    assert_eq!(layer.get(1, 1), 4);
    let tags = LayerTags::of_file(&file);
    assert_eq!(tags.width, Some(2));
    assert_eq!(tags.height, Some(2));
    assert_eq!(tags.bits_per_sample, Some(16));
    assert_eq!(tags.compression, Some(1));
    assert_eq!(tags.samples_per_pixel, Some(1));
    assert_eq!(tags.strip_offsets, Some(vec![pixels_at(8)]));
}

#[test]
fn other_files_are_no_layers() {
    assert!(Layer::from_tiff(&layer_tiff(2, 2, 8, &[0; 8])).is_none());
    assert!(Layer::from_tiff(b"no image").is_none());
    assert!(Layer::from_tiff(&[]).is_none());
}

/// The tags of a layer of two by two pixels, and of four more.
fn tiff_with(more: [(u16, u32); 4]) -> Vec<u8> {
    let mut tags = vec![(256, 2), (257, 2), (258, 16), (259, 1), (262, 1), (273, pixels_at(11)), (279, 8)];
    tags.extend_from_slice(&more);
    tiff(&tags, &[0, 1, 0, 2, 0, 3, 0, 4])
}

#[test]
fn the_planar_configuration_of_one_sample_does_not_matter() {
    let file = tiff_with([(277, 1), (284, 2), (278, 2), (282, 1)]);
    assert!(is_tiff_single_plane(&file));
    assert_eq!(Layer::from_tiff(&file).unwrap().get(1, 1), 4);
}

#[test]
fn several_samples_and_tiles_are_no_layers() {
    let planes = tiff_with([(277, 2), (284, 2), (278, 1), (257, 0x8000_0000)]);
    assert!(!is_tiff_single_plane(&planes));
    assert!(Layer::from_tiff(&planes).is_none());
    let tiles = tiff_with([(277, 1), (322, 1), (323, 1), (324, 8)]);
    assert!(!is_tiff_single_plane(&tiles));
    assert!(Layer::from_tiff(&tiles).is_none());
    assert!(is_tiff_single_plane(&tiff_with([(277, 2), (284, 1), (278, 2), (277, 1)])));
    assert!(!is_tiff_single_plane(&tiff_with([(277, 1), (284, 1), (278, 2), (277, 3)])));
    let mut skipped = tiff_with([(282, 1), (284, 1), (278, 2), (277, 3)]);
    let kind = 10 + 12 * 10 + 2;
    skipped[kind] = 99;
    assert!(is_tiff_single_plane(&skipped));
    assert!(is_tiff_single_plane(&planes[..20]));
}

#[test]
fn layers_are_read_in_both_byte_orders() {
    let mut file = vec![0x4d, 0x4d, 0, 42, 0, 0, 0, 8, 0, 8];
    for (tag, kind, value) in
        [(256u16, 4u16, 2u32), (257, 4, 2), (258, 3, 16 << 16), (259, 3, 1 << 16), (262, 3, 1 << 16)]
    {
        file.extend_from_slice(&tag.to_be_bytes());
        file.extend_from_slice(&kind.to_be_bytes());
        file.extend_from_slice(&1u32.to_be_bytes());
        file.extend_from_slice(&value.to_be_bytes());
    }
    for (tag, kind, value) in [(273u16, 4u16, pixels_at(8)), (277, 3, 1 << 16), (279, 4, 8)] {
        file.extend_from_slice(&tag.to_be_bytes());
        file.extend_from_slice(&kind.to_be_bytes());
        file.extend_from_slice(&1u32.to_be_bytes());
        file.extend_from_slice(&value.to_be_bytes());
    }
    file.extend_from_slice(&[0, 0, 0, 0]);
    file.extend_from_slice(&[0, 1, 0, 2, 0, 3, 0, 4]);
    assert!(is_tiff_single_plane(&file));
    let layer = Layer::from_tiff(&file).unwrap();
    assert_eq!((layer.width, layer.height, layer.get(0, 1)), (2, 2, 3));
    let samples = 10 + 12 * 6 + 9;
    assert_eq!(file[samples], 1);
    file[samples] = 2;
    assert!(!is_tiff_single_plane(&file));
}

/// A TIFF file with offsets of 64 bits.
fn big_tiff(samples: u64) -> Vec<u8> {
    let mut file = vec![0x49, 0x49, 43, 0, 8, 0, 0, 0, 16, 0, 0, 0, 0, 0, 0, 0];
    let tags: [(u16, u16, u64); 8] = [
        (256, 4, 2), (257, 4, 2), (258, 3, 16), (259, 3, 1), (262, 3, 1), (273, 16, 192), (277, 16, samples), (279, 16, 8),
    ];
    file.extend_from_slice(&8u64.to_le_bytes());
    for (tag, kind, value) in tags {
        file.extend_from_slice(&tag.to_le_bytes());
        file.extend_from_slice(&kind.to_le_bytes());
        file.extend_from_slice(&1u64.to_le_bytes());
        file.extend_from_slice(&value.to_le_bytes());
    }
    file.extend_from_slice(&[0; 8]);
    file.extend_from_slice(&[0, 1, 0, 2, 0, 3, 0, 4]);
    file
}

#[test]
fn layers_are_read_from_big_files() {
    assert!(is_tiff_single_plane(&big_tiff(1)));
    assert_eq!(Layer::from_tiff(&big_tiff(1)).unwrap().get(1, 0), 2);
    assert!(!is_tiff_single_plane(&big_tiff(2)));
    assert!(Layer::from_tiff(&big_tiff(2)).is_none());
}

fn tags() -> LayerTags {
    LayerTags {
        width: Some(2),
        height: Some(1),
        bits_per_sample: Some(16),
        compression: Some(1),
        samples_per_pixel: Some(1),
        strip_offsets: Some(vec![3]),
    }
}

#[test]
fn tags_decide_what_a_layer_is() {
    let file = [9, 9, 9, 0, 5, 0, 6];
    let layer = Layer::from_tags(&tags(), &file).unwrap();
    assert_eq!(layer.data, vec![0, 5, 0, 6]);
    assert_eq!(layer.get(1, 0), 6);
    let lenient = LayerTags { bits_per_sample: None, compression: None, samples_per_pixel: None, ..tags() };
    assert!(Layer::from_tags(&lenient, &file).is_some());
    assert!(Layer::from_tags(&LayerTags { width: None, ..tags() }, &file).is_none());
    assert!(Layer::from_tags(&LayerTags { height: None, ..tags() }, &file).is_none());
    assert!(Layer::from_tags(&LayerTags { bits_per_sample: Some(8), ..tags() }, &file).is_none());
    assert!(Layer::from_tags(&LayerTags { compression: Some(5), ..tags() }, &file).is_none());
    assert!(Layer::from_tags(&LayerTags { samples_per_pixel: Some(3), ..tags() }, &file).is_none());
    assert!(Layer::from_tags(&LayerTags { strip_offsets: None, ..tags() }, &file).is_none());
    assert!(Layer::from_tags(&LayerTags { strip_offsets: Some(vec![3, 4]), ..tags() }, &file).is_none());
}

#[test]
fn layers_are_named_by_number() {
    assert_eq!(layer_of_file("00042.tif"), Some(42));
    assert_eq!(layer_of_file("x12345.tif.bak"), Some(12345));
    assert_eq!(layer_of_file("0042.tif"), None);
    assert_eq!(layer_of_file("00042xtif"), None);
    assert_eq!(layer_file("dir", 42), "dir/00042.tif");
    assert_eq!(layer_of_file(&layer_file("dir", 77)), Some(77));
    assert_eq!(last_layer(&vec![3, 9, 4]), 9);
    assert_eq!(last_layer(&vec![]), 0);
    assert_eq!(read_layer_groups(&None), None);
    assert_eq!(read_layer_groups(&Some(vec![None, Some("00007".to_string())])), Some(7));
}

fn layer(width: usize, height: usize, value: u8) -> Option<Layer> {
    Some(Layer { data: vec![value; width * height * 2], width, height })
}

#[test]
fn a_stack_of_layers_is_a_volume() {
    let layers = vec![layer(4, 3, 10), None, layer(3, 5, 30), layer(4, 4, 40)];
    assert_eq!(common_size(&layers), Some((3, 3)));
    let volume = LayersMappedVolume::from_layers(3, layers);
    assert_eq!(volume.get([2, 2, 0], 1), 10);
    assert_eq!(volume.get([0, 0, 1], 1), 0);
    assert_eq!(volume.get([1, 1, 1], 2), 30);
    assert_eq!(volume.get([0, 0, 3], 1), 0);
    assert_eq!(volume.get([3, 0, 0], 1), 0);
    assert_eq!(volume.get([0, 3, 0], 1), 0);
    assert_eq!(volume.get([-1, 0, 0], 1), 0);
    assert_eq!(common_size(&vec![None]), None);
}

#[test]
fn cells_are_named_by_number() {
    assert_eq!(cell_of_file("cell_yxz_001_002_003.tif"), Some((2, 1, 3)));
    assert_eq!(cell_of_file("cell_yxz_12_3_4567.tif"), Some((3, 12, 4567)));
    assert_eq!(cell_of_file("cell_yxz_001_002.tif"), None);
    assert_eq!(cell_of_file("cell_xyz_001_002_003.tif"), None);
    assert_eq!(cell_file("dir", 2, 1, 3), "dir/cell_yxz_001_002_003.tif");
    assert_eq!(cell_of_file(&cell_file("dir", 5, 6, 7)), Some((5, 6, 7)));
    assert_eq!(read_cell_groups(&None), None);
    assert_eq!(extent_of(&vec![(1, 9, 2), (3, 1, 1)]), (3, 9, 2));
    assert_eq!(extent_of(&vec![]), (0, 0, 0));
}

#[test]
fn voxels_of_a_cell() {
    let mut data = vec![0; 10];
    data[3] = 33;
    data[9] = 99;
    let cell = Cell { data, strip_spacing: 6 };
    assert_eq!(cell.get(1, 0, 0), 33);
    assert_eq!(cell.get(1, 0, 1), 99);
    assert_eq!(cell.get(2, 0, 1), 0);
}

#[test]
fn cells_are_a_volume() {
    let cell = |v: u8| Some(Cell { data: vec![v; 2000], strip_spacing: 500147 });
    let volume = VolumeGrid500Mapped::from_cells(2, 1, 1, vec![vec![vec![cell(7), cell(8)]]]);
    assert_eq!(volume.get([0, 0, 0], 1), 7);
    assert_eq!(volume.get([499, 0, 0], 1), 7);
    assert_eq!(volume.get([500, 0, 0], 1), 8);
    assert_eq!(volume.get([250, 0, 0], 2), 8);
    assert_eq!(volume.get([1000, 0, 0], 1), 0);
    assert_eq!(volume.get([0, 500, 0], 1), 0);
    assert_eq!(volume.get([0, 0, -1], 1), 0);
    let holes = VolumeGrid500Mapped::from_cells(1, 1, 1, vec![vec![vec![None]]]);
    assert_eq!(holes.get([0, 0, 0], 1), 0);
}
