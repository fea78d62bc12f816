use vesuvius_gui::downloader::DownloadState;
use vesuvius_gui::volume::image::Image;
use vesuvius_gui::volume::tile::{
    corner_values, cube_corners, fast_path, get_voxel, last_samples, paint_tile, tile_index,
    visible_tiles, Axis, Slice,
};
use vesuvius_gui::volume::tile_cache::{
    key_of_voxel, LocalState, OnMissing, TileCache, TileState, TileStep,
};
use vesuvius_gui::volume::DrawingConfig;

const BYTES: usize = 64 * 64 * 64;

fn value_at(x: usize, y: usize, z: usize) -> u8 {
    ((x * 7 + y * 31 + z * 101) % 251) as u8
}

fn some_tile() -> Vec<u8> {
    let mut tile = vec![0; BYTES];
    for z in 0..64 {
        for y in 0..64 {
            for x in 0..64 {
                tile[tile_index(x, y, z)] = value_at(x, y, z);
            }
        }
    }
    tile
}

#[test]
fn voxels_of_a_tile_have_places_of_their_own() {
    let mut seen = vec![false; BYTES];
    for z in 0..64 {
        for y in 0..64 {
            for x in 0..64 {
                let i = tile_index(x, y, z);
                assert!(!seen[i]);
                seen[i] = true;
            }
        }
    }
    assert_eq!(tile_index(0, 0, 0), 0);
    assert_eq!(tile_index(3, 3, 3), 63);
    assert_eq!(tile_index(4, 0, 0), 64);
    assert_eq!(tile_index(0, 4, 0), 1024);
    assert_eq!(tile_index(0, 0, 4), 16384);
    assert_eq!(tile_index(63, 63, 63), BYTES - 1);
}

#[test]
fn voxels_are_read_from_their_tile() {
    let tile = some_tile();
    assert_eq!(get_voxel(&tile, 5, 6, 7), value_at(5, 6, 7));
    assert_eq!(get_voxel(&tile, 64 + 5, 128 + 6, 7), value_at(5, 6, 7));
}

#[test]
fn corners_are_read_from_one_tile() {
    let tile = some_tile();
    assert!(fast_path(0, 62, 64));
    assert!(!fast_path(63, 0, 0));
    assert!(!fast_path(0, 127, 0));
    let v = corner_values(&tile, 10, 20, 30);
    for i in 0..8 {
        assert_eq!(v[i], value_at(10 + i % 2, 20 + i / 2 % 2, 30 + i / 4));
    }
}

#[test]
fn visible_tiles_of_a_slice() {
    let slice = Slice {
        u: Axis { center: 64, pixels: 100, zoom: 1 },
        v: Axis { center: 32, pixels: 20, zoom: 1 },
        u_coord: 0,
        v_coord: 1,
        plane_coord: 2,
        plane: 200,
        scale: 1,
    };
    assert_eq!(visible_tiles(&slice), vec![[0, 0, 3], [1, 0, 3]]);
    let half = Slice { scale: 2, ..slice };
    assert_eq!(visible_tiles(&half), vec![[0, 0, 1]]);
}

#[test]
fn nothing_lies_below_zero() {
    let slice = Slice {
        u: Axis { center: -500, pixels: 100, zoom: 1 },
        v: Axis { center: 32, pixels: 20, zoom: 1 },
        u_coord: 0,
        v_coord: 1,
        plane_coord: 2,
        plane: -5,
        scale: 1,
    };
    assert!(visible_tiles(&slice).is_empty());
}

#[test]
fn samples_of_an_axis() {
    let axis = Axis { center: 2, pixels: 4, zoom: 1 };
    assert_eq!(last_samples(&axis, 1, 0), vec![Some(0), Some(1), Some(2), Some(3)]);
    let off = Axis { center: 0, pixels: 4, zoom: 1 };
    assert_eq!(last_samples(&off, 1, 0), vec![None, None, Some(0), Some(1)]);
}

#[test]
fn a_tile_is_painted() {
    let tile = some_tile();
    let slice = Slice {
        u: Axis { center: 10, pixels: 6, zoom: 1 },
        v: Axis { center: 20, pixels: 4, zoom: 1 },
        u_coord: 0,
        v_coord: 2,
        plane_coord: 1,
        plane: 5,
        scale: 1,
    };
    let mut image = Image::new(6, 4);
    paint_tile(&slice, &tile, 0, 0, &DrawingConfig::default(), &mut image);
    for y in 0..4 {
        for x in 0..6 {
            assert_eq!(image.data[y * 6 + x].r, value_at(7 + x, 5, 18 + y));
        }
    }
}

#[test]
fn a_slice_is_painted_from_the_tiles_that_are_there() {
    let mut cache = TileCache::new();
    let mut states = Vec::new();
    let slice = Slice {
        u: Axis { center: 64, pixels: 8, zoom: 1 },
        v: Axis { center: 64, pixels: 4, zoom: 1 },
        u_coord: 0,
        v_coord: 1,
        plane_coord: 2,
        plane: 3,
        scale: 1,
    };
    let tiles = visible_tiles(&slice);
    assert_eq!(tiles, vec![[0, 0, 0], [0, 1, 0], [1, 0, 0], [1, 1, 0]]);
    for (i, tile) in tiles.iter().enumerate() {
        let key = (tile[0], tile[1], tile[2], 1);
        assert!(cache.try_loading_tile(key, DownloadState::Queuing, 0)
            == TileStep::Look(OnMissing::Download));
        let file = if i == 1 { None } else { Some(vec![10 * (i as u8 + 1); BYTES]) };
        states.push(cache.mapped(key, file, OnMissing::Download));
    }
    let mut image = Image::new(8, 4);
    cache.paint(&slice, &states, &DrawingConfig::default(), &mut image);
    for y in 0..4 {
        for x in 0..8 {
            let expected = match (x < 4, y < 2) {
                (true, true) => 10,
                (true, false) => 0,
                (false, true) => 30,
                (false, false) => 40,
            };
            assert_eq!(image.data[y * 8 + x].r, expected);
        }
    }
}

#[test]
fn cubes_have_eight_corners() {
    let corners = cube_corners(63, 5, 7);
    assert_eq!(corners[0], [63, 5, 7]);
    assert_eq!(corners[1], [64, 5, 7]);
    assert_eq!(corners[2], [63, 6, 7]);
    assert_eq!(corners[7], [64, 6, 8]);
}

#[test]
fn painted_tiles_are_filtered() {
    let tile = vec![0x8f; BYTES];
    let slice = Slice {
        u: Axis { center: 1, pixels: 2, zoom: 1 },
        v: Axis { center: 1, pixels: 2, zoom: 1 },
        u_coord: 0,
        v_coord: 1,
        plane_coord: 2,
        plane: 0,
        scale: 1,
    };
    let mut image = Image::new(2, 2);
    let config = DrawingConfig { enable_filters: true, quant: 4, ..DrawingConfig::default() };
    paint_tile(&slice, &tile, 0, 0, &config, &mut image);
    assert_eq!(image.data[3].r, 136);
}

#[test]
fn tiles_are_loaded_from_files() {
    let mut cache = TileCache::new();
    let key = key_of_voxel(70, 130, 5, 2);
    assert_eq!(key, (1, 2, 0, 2));
    assert!(cache.try_loading_tile(key, DownloadState::Queuing, 0) == TileStep::Look(OnMissing::Download));
    let state = cache.mapped(key, Some(some_tile()), OnMissing::Download);
    assert!(state == TileState::Loaded(0));
    assert_eq!(cache.tile(state).unwrap()[1], value_at(1, 0, 0));
    assert!(cache.try_loading_tile(key, DownloadState::Failed, 9) == TileStep::Ready(state));
    assert!(cache.ticket(key).is_none());
    assert!(cache.tile(TileState::Missing).is_none());
    assert!(cache.tile(TileState::Loaded(1)).is_none());
}

#[test]
fn tiles_without_a_file_are_downloaded() {
    let mut cache = TileCache::new();
    let key = (0, 0, 0, 1);
    cache.try_loading_tile(key, DownloadState::Queuing, 0);
    assert!(cache.mapped(key, None, OnMissing::Download) == TileState::Downloading(0));
    assert_eq!(cache.ticket(key), Some(0));
    let waits = TileStep::Ready(TileState::Downloading(0));
    assert!(cache.try_loading_tile(key, DownloadState::Queuing, 1) == waits);
    assert!(cache.try_loading_tile(key, DownloadState::Downloading, 1) == waits);
    assert!(cache.try_loading_tile(key, DownloadState::Done, 2) == TileStep::Look(OnMissing::GiveUp));
    assert!(cache.mapped(key, None, OnMissing::GiveUp) == TileState::Missing);
    assert!(cache.try_loading_tile(key, DownloadState::Done, 3) == TileStep::Ready(TileState::Missing));
}

#[test]
fn several_requests_ask_for_a_tile_once() {
    let mut cache = TileCache::new();
    let key = (0, 0, 0, 1);
    let downloads = [
        DownloadState::Queuing,
        DownloadState::Queuing,
        DownloadState::Downloading,
        DownloadState::Pruned,
        DownloadState::Queuing,
        DownloadState::Failed,
        DownloadState::Pruned,
        DownloadState::Done,
    ];
    let mut seen = Vec::new();
    for (i, download) in downloads.iter().enumerate() {
        let state = match cache.try_loading_tile(key, *download, i as u64) {
            TileStep::Ready(state) => state,
            TileStep::Look(on_missing) => cache.mapped(key, None, on_missing),
        };
        seen.push((state, cache.next_ticket));
        let other = (1, 0, 0, 1);
        if i == 1 {
            cache.try_loading_tile(other, DownloadState::Queuing, 0);
            assert!(cache.mapped(other, None, OnMissing::Download) == TileState::Downloading(1));
        }
    }
    let (first, second, gone) = (TileState::Downloading(0), TileState::Downloading(2), TileState::Missing);
    assert!(
        seen == vec![
            (first, 1), (first, 1), (first, 2), (second, 3), (second, 3), (gone, 3), (gone, 3), (gone, 3),
        ]
    );
}

#[test]
fn short_files_are_no_tiles() {
    let mut cache = TileCache::new();
    let key = (0, 0, 0, 1);
    cache.try_loading_tile(key, DownloadState::Queuing, 0);
    assert!(cache.mapped(key, Some(vec![0; 100]), OnMissing::Download) == TileState::Downloading(0));
}

#[test]
fn pruned_tiles_are_asked_for_again() {
    let mut cache = TileCache::new();
    let key = (0, 0, 0, 1);
    cache.try_loading_tile(key, DownloadState::Queuing, 0);
    cache.mapped(key, None, OnMissing::Download);
    assert!(cache.try_loading_tile(key, DownloadState::Pruned, 0) == TileStep::Look(OnMissing::Download));
    assert!(cache.mapped(key, None, OnMissing::Download) == TileState::Downloading(1));
}

#[test]
fn failed_tiles_are_missing() {
    let mut cache = TileCache::new();
    let key = (0, 0, 0, 1);
    cache.try_loading_tile(key, DownloadState::Queuing, 0);
    cache.mapped(key, None, OnMissing::Download);
    let gone = TileStep::Ready(TileState::Missing);
    assert!(cache.try_loading_tile(key, DownloadState::Failed, 0) == gone);
    assert!(cache.try_loading_tile(key, DownloadState::Done, 0) == gone);
}

#[test]
fn delayed_tiles_are_tried_later() {
    let mut cache = TileCache::new();
    let key = (0, 0, 0, 1);
    cache.try_loading_tile(key, DownloadState::Queuing, 0);
    cache.mapped(key, None, OnMissing::Download);
    let later = TileStep::Ready(TileState::TryLater(5));
    assert!(cache.try_loading_tile(key, DownloadState::Delayed, 5) == later);
    let ten_seconds = 10_000_000_000;
    assert!(cache.try_loading_tile(key, DownloadState::Queuing, 5 + ten_seconds) == later);
    assert!(
        cache.try_loading_tile(key, DownloadState::Queuing, 6 + ten_seconds)
            == TileStep::Look(OnMissing::Download)
    );
}

#[test]
fn tiles_are_kept_apart() {
    let mut cache = TileCache::new();
    let a = (0, 0, 0, 1);
    let b = (0, 0, 0, 2);
    cache.try_loading_tile(a, DownloadState::Queuing, 0);
    cache.mapped(a, Some(some_tile()), OnMissing::Download);
    assert!(cache.try_loading_tile(b, DownloadState::Queuing, 0) == TileStep::Look(OnMissing::Download));
    cache.mapped(b, None, OnMissing::Download);
    assert!(cache.try_loading_tile(a, DownloadState::Queuing, 0) == TileStep::Ready(TileState::Loaded(0)));
    assert_eq!(cache.ticket(b), Some(0));
}

#[test]
fn readers_remember_their_last_tile() {
    let mut local = LocalState::none();
    let key = (1, 2, 3, 1);
    assert!(local.known(key).is_none());
    local.keep(key, TileState::Loaded(4));
    assert!(local.known(key) == Some(Some(TileState::Loaded(4))));
    assert!(local.known((1, 2, 4, 1)).is_none());
    local.drop_last_cached();
    assert!(local.known(key).is_none());
}
