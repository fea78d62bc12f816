use vesuvius_gui::render::chunks::{
    download_answer, download_attempt, ChunkSet, DownloadSettings, DownloadStep,
    TileCollectingVolume, VolumeChunk,
};
use vesuvius_gui::render::layer::{render_layer_from_tiles, GrayImage, RenderedTile};
use vesuvius_gui::render::raycast::{TileBounds, TileGrid};
use vesuvius_gui::render::{parse_crop, read_crop_groups, Args, Crop, RenderParams, UVTile};
use vesuvius_gui::volume::image::Image;

fn args() -> Args {
    Args {
        obj: "a.obj".to_string(),
        width: 30,
        height: 20,
        target_dir: "out".to_string(),
        middle_layer: None,
        min_layer: None,
        max_layer: None,
        crop: None,
        target_format: None,
        volume: None,
        data_directory: None,
        tile_size: None,
        concurrent_downloads: None,
        retries: None,
        stream_buffer_size: None,
        worker_threads: None,
    }
}

#[test]
fn crops_are_parsed() {
    assert!(parse_crop("10+20-30x40") == Some(Crop { left: 10, top: 20, width: 30, height: 40 }));
    assert!(parse_crop("10+20-30").is_none());
    assert!(parse_crop("a+20-30x40").is_none());
    assert!(parse_crop("10+20-30x99999999999999999999999").is_none());
    assert!(read_crop_groups(&None).is_none());
}

#[test]
fn parameters_have_defaults() {
    let p = RenderParams::from_args(&args());
    assert_eq!((p.width, p.height, p.tile_size), (30, 20, 1024));
    assert_eq!((p.min_layer, p.max_layer, p.mid_layer), (25, 41, 32));
    assert_eq!(p.target_format, "png");
    assert_eq!(p.stream_buffer_size, 1024);
    assert_eq!((p.render_left(), p.render_top(), p.render_width(), p.render_height()), (0, 0, 30, 20));
    let crop = Crop { left: 1, top: 2, width: 3, height: 4 };
    let p = RenderParams::from_args(&Args {
        crop: Some(crop),
        min_layer: Some(1),
        target_format: Some("jpg".to_string()),
        ..args()
    });
    assert_eq!((p.render_left(), p.render_top(), p.render_width(), p.render_height()), (1, 2, 3, 4));
    assert_eq!(p.min_layer, 1);
    assert_eq!(p.layer_file(7), "out/07.jpg");
}

#[test]
fn tiles_cover_the_area() {
    let p = RenderParams::from_args(&Args {
        tile_size: Some(16),
        min_layer: Some(3),
        max_layer: Some(4),
        ..args()
    });
    let tiles = p.uv_tiles();
    assert_eq!(tiles.len(), 8);
    assert_eq!(p.tiles_per_layer(&tiles), 4);
    assert!(tiles[0] == UVTile { u: 0, v: 0, w: 3 });
    assert!(tiles[1] == UVTile { u: 16, v: 0, w: 3 });
    assert!(tiles[2] == UVTile { u: 0, v: 16, w: 3 });
    assert!(tiles[4] == UVTile { u: 0, v: 0, w: 4 });
    assert_eq!(p.tile_center(tiles[3]), [24, 24, -29]);
}

#[test]
fn layers_are_put_together() {
    let p = RenderParams::from_args(&Args {
        tile_size: Some(2),
        crop: Some(Crop { left: 10, top: 10, width: 3, height: 2 }),
        ..args()
    });
    let tile = |u: usize, value: u8| {
        let mut image = Image::new(2, 2);
        for y in 0..2 {
            for x in 0..2 {
                image.set_gray(x, y, value + x as u8);
            }
        }
        RenderedTile { tile: UVTile { u, v: 10, w: 0 }, image }
    };
    let layer = render_layer_from_tiles(&p, &vec![tile(10, 10), tile(12, 20)]);
    assert_eq!((layer.width, layer.height), (3, 2));
    assert_eq!(layer.data, vec![10, 11, 20, 10, 11, 20]);
}

#[test]
fn gray_images() {
    let mut image = GrayImage::new(2, 2);
    assert_eq!(image.data, vec![0, 0, 0, 0]);
    image.put_pixel(1, 0, 7);
    assert_eq!(image.data, vec![0, 7, 0, 0]);
}

#[test]
fn every_pixel_is_cast_once() {
    let grid = TileGrid { width: 10, height: 7, tile_size: 4 };
    assert_eq!((grid.tiles_x(), grid.tiles_z(), grid.total_tiles()), (3, 2, 6));
    assert!(grid.bounds(5) == TileBounds { x_start: 8, x_end: 10, z_start: 4, z_end: 7 });
    let mut seen = vec![0; 70];
    for i in 0..6 {
        let b = grid.bounds(i);
        for z in b.z_start..b.z_end {
            for x in b.x_start..b.x_end {
                seen[z * 10 + x] += 1;
            }
        }
    }
    assert!(seen.iter().all(|&n| n == 1));
}

fn chunk(x: usize, y: usize, z: usize) -> VolumeChunk {
    VolumeChunk { x, y, z }
}

#[test]
fn chunks_are_collected() {
    assert!(VolumeChunk::of_voxel(64, 63, 200) == chunk(1, 0, 3));
    let mut set = ChunkSet::new();
    set.insert(chunk(1, 2, 3));
    set.insert(chunk(1, 2, 3));
    assert_eq!(set.chunks.len(), 1);
    assert!(set.contains(chunk(1, 2, 3)));
    assert!(!set.contains(chunk(3, 2, 1)));
    let mut other = ChunkSet::new();
    other.insert(chunk(1, 2, 3));
    other.insert(chunk(4, 5, 6));
    let fresh = set.append(&other);
    assert_eq!(fresh.len(), 1);
    assert!(fresh[0] == chunk(4, 5, 6));
    assert_eq!(set.chunks.len(), 2);
}

#[test]
fn reads_ask_for_their_chunks() {
    let mut volume = TileCollectingVolume::new();
    volume.get(70, 0, 0);
    assert!(volume.requested_tiles.contains(chunk(1, 0, 0)));
    volume.get_interpolated(100, 100, 100);
    assert!(volume.requested_tiles.contains(chunk(1, 1, 1)));
    assert_eq!(volume.requested_tiles.chunks.len(), 2);
    volume.get_interpolated(127, 100, 100);
    assert!(volume.requested_tiles.contains(chunk(2, 1, 1)));
    assert_eq!(volume.requested_tiles.chunks.len(), 3);
    volume.add_tile(chunk(9, 9, 9));
    assert!(volume.requested_tiles.contains(chunk(9, 9, 9)));
}

#[test]
fn the_chunk_at_the_origin_is_collected() {
    let mut volume = TileCollectingVolume::new();
    assert!(volume.last_requested.is_none());
    assert!(volume.requested_tiles.chunks.is_empty());
    volume.add_tile(chunk(0, 0, 0));
    assert!(volume.requested_tiles.contains(chunk(0, 0, 0)));
    assert!(volume.last_requested == Some(chunk(0, 0, 0)));
    let mut other = TileCollectingVolume::new();
    other.get_interpolated(63, 0, 0);
    assert!(other.requested_tiles.contains(chunk(0, 0, 0)));
    assert!(other.requested_tiles.contains(chunk(1, 0, 0)));
    assert_eq!(other.requested_tiles.chunks.len(), 2);
}

#[test]
fn settings_come_from_the_command_line() {
    let s = match DownloadSettings::try_from(&args(), "data") {
        Ok(s) => s,
        Err(e) => panic!("{}", e),
    };
    assert_eq!(s.cache_dir, "data/scroll1/20230205180739/");
    assert_eq!((s.retries, s.concurrent_downloads), (20, 64));
    assert_eq!(
        s.url_for(chunk(1, 2, 3)),
        "https://vesuvius.virtual-void.net/tiles/scroll/1/volume/20230205180739/download/64-4?x=1&y=2&z=3&bitmask=255&downsampling=1"
    );
    assert_eq!(
        s.file_for(chunk(1, 2, 3)),
        "data/scroll1/20230205180739//64-4/d01/z003/xyz-001-002-003-b255-d01.bin"
    );
    assert_eq!(s.dir_for(chunk(1, 2, 3)), "data/scroll1/20230205180739//64-4/d01/z003");
    let own = Args { data_directory: Some("own".to_string()), retries: Some(3), concurrent_downloads: Some(5), ..args() };
    match DownloadSettings::try_from(&own, "data") {
        Ok(s) => {
            assert_eq!(s.cache_dir, "own/scroll1/20230205180739/");
            assert_eq!((s.retries, s.concurrent_downloads), (3, 5));
        }
        Err(e) => panic!("{}", e),
    }
    match DownloadSettings::try_from(&Args { volume: Some("what".to_string()), ..args() }, "data") {
        Err(e) => assert_eq!(e, "Cannot find volume: Volume what not found"),
        Ok(_) => panic!("there is no such volume"),
    }
}

#[test]
fn busy_servers_are_asked_again() {
    assert!(download_attempt(0) == DownloadStep::Fail);
    assert!(download_attempt(1) == DownloadStep::Request);
    assert!(download_answer(5, Some(200)) == DownloadStep::Save);
    assert!(download_answer(5, Some(420)) == DownloadStep::Retry(4));
    assert!(download_answer(5, Some(500)) == DownloadStep::Unexpected);
    assert!(download_answer(5, None) == DownloadStep::Fail);
}
