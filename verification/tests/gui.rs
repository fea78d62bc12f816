use vesuvius_gui::gui::atlas::{
    atlas_obj_cache_path, format_volume_label, get_sorted_volumes, listed_volume_label,
    overlay_source, plan_atlas_segment, scan_order, AtlasSample, AtlasSegment, AtlasVolume,
    OverlaySource, ScanProperties, ScanTexts,
};
use vesuvius_gui::gui::browser::{
    extra_resolutions, is_cell_file, is_layer_file, may_browse, mode_of, password_of, tile_server,
    transform_volume, LoginAction, LoginForm, Mode,
};
use vesuvius_gui::gui::config::{resolve_volume, Args, VesuviusConfig, VolumeProbe};
use vesuvius_gui::gui::panes::{
    get_or_create_tile_async, paint_factors, texture_name, AsyncTexture, CoordRange, PaneTile,
    PaneType, TileAction, TileCacheKey, VolumePane,
};
use vesuvius_gui::gui::state::{
    segment_file_kind, volume_shortcut, AtlasIds, CompositingMode, CompositingSettings, Control,
    Effects, GuiLayout, Key, SegmentFile, SegmentMode, ViewState,
};
use vesuvius_gui::model::{NewVolumeReference, VolumeLocation};
use vesuvius_gui::volume::generic::{AutoPaintVolume, VoxelVolume};
use vesuvius_gui::volume::obj::ProjectionKind;
use vesuvius_gui::volume::DrawingConfig;

const QUIET: Effects = Effects { sync: false, rebuild_overlay: false, rebuild_segment: false };

fn range(start: i32, end: i32) -> CoordRange {
    CoordRange { start, end }
}

fn with_segment() -> ViewState {
    let mut state = ViewState::new();
    state.setup_segment("a.obj", 100, 50, [1, 2, 3], true, None);
    state
}

#[test]
fn panes_show_two_axes() {
    assert_eq!(PaneType::XY.coordinates(), (0, 1, 2));
    assert_eq!(PaneType::XZ.coordinates(), (0, 2, 1));
    assert_eq!(PaneType::YZ.coordinates(), (2, 1, 0));
    assert_eq!(PaneType::UV.coordinates(), (0, 1, 2));
    assert_eq!(PaneType::YZ.label(), "YZ");
}

#[test]
fn coordinates_stay_in_their_range() {
    assert_eq!(range(-5, 10).clamp_to(-6), -5);
    assert_eq!(range(-5, 10).clamp_to(11), 10);
    assert_eq!(range(-5, 10).clamp_to(3), 3);
}

#[test]
fn coarse_levels_are_painted_first() {
    assert_eq!(paint_factors(0, 0), vec![1]);
    assert_eq!(paint_factors(0, 1), vec![2, 1]);
    assert_eq!(paint_factors(1, 1), vec![4, 2]);
    assert_eq!(paint_factors(2, 4), vec![16, 8, 4]);
    assert_eq!(paint_factors(1000, 3), vec![16]);
}

#[test]
fn visible_tiles_have_a_margin() {
    let tiles = VolumePane::new(PaneType::XY, false).calculate_visible_tiles(0, 1, 5, 7);
    assert_eq!(tiles.len(), 12);
    assert!(tiles[0] == PaneTile { tile_x: -1, tile_y: 4 });
    assert!(tiles[1] == PaneTile { tile_x: 0, tile_y: 4 });
    assert!(tiles[11] == PaneTile { tile_x: 1, tile_y: 7 });
}

#[test]
fn tiles_have_a_middle() {
    let pane = VolumePane::new(PaneType::XZ, false);
    assert_eq!(pane.tile_center(PaneTile { tile_x: 2, tile_y: -1 }, [7, 8, 9], 1), [640, 8, -128]);
    assert_eq!(pane.tile_center(PaneTile { tile_x: 0, tile_y: 0 }, [7, 8, 9], 2), [256, 8, 256]);
}

#[test]
fn scrolling_moves_the_plane() {
    let pane = VolumePane::new(PaneType::XZ, false);
    let ranges = [range(0, 100), range(0, 100), range(0, 100)];
    let mut coord = [50, 50, 50];
    pane.handle_scroll(&mut coord, &ranges, 0, true);
    assert_eq!(coord, [50, 51, 50]);
    pane.handle_scroll(&mut coord, &ranges, 0, false);
    assert_eq!(coord, [50, 50, 50]);
    pane.handle_scroll(&mut coord, &ranges, 2, true);
    assert_eq!(coord[1], 52);
    pane.handle_scroll(&mut coord, &ranges, 2, false);
    assert_eq!(coord[1], 48);
    for _ in 0..20 {
        pane.handle_scroll(&mut coord, &ranges, 9, true);
    }
    assert_eq!(coord[1], 100);
}

#[test]
fn dragging_stays_in_range() {
    let pane = VolumePane::new(PaneType::YZ, false);
    let ranges = [range(0, 100), range(0, 100), range(0, 100)];
    let mut coord = [50, 50, 50];
    pane.handle_drag(&mut coord, &ranges, 7, -3);
    assert_eq!(coord, [50, 47, 57]);
    pane.handle_drag(&mut coord, &ranges, 1000, -1000);
    assert_eq!(coord, [50, 0, 100]);
}

#[test]
fn tile_keys_ignore_the_place_in_the_plane() {
    let key = |coord: [i32; 3]| {
        TileCacheKey::new(PaneType::XY, 1, 2, coord, 1, DrawingConfig::default(), None, 0, 0)
    };
    assert_eq!(key([5, 6, 7]).coord, [0, 0, 7]);
    assert_eq!(key([5, 6, 7]).coord, key([8, 9, 7]).coord);
    assert_ne!(key([5, 6, 7]).coord, key([5, 6, 8]).coord);
    let side = TileCacheKey::new(PaneType::YZ, 1, 2, [5, 6, 7], 1, DrawingConfig::default(), None, 0, 0);
    assert_eq!(side.coord, [5, 0, 0]);
}

#[test]
fn tiles_are_painted_once() {
    assert!(get_or_create_tile_async(None, false) == (AsyncTexture::Loading, TileAction::Start));
    assert!(
        get_or_create_tile_async(Some(AsyncTexture::Loading), false)
            == (AsyncTexture::Loading, TileAction::Wait)
    );
    assert!(
        get_or_create_tile_async(Some(AsyncTexture::Loading), true)
            == (AsyncTexture::Ready, TileAction::Upload)
    );
    assert!(
        get_or_create_tile_async(Some(AsyncTexture::Ready), false)
            == (AsyncTexture::Ready, TileAction::Show)
    );
    assert_eq!(texture_name(PaneType::XZ, PaneTile { tile_x: -3, tile_y: 4 }), "XZ_-3_4_1");
}

/// Tells the scale that it was read at, and where.
struct Levels {}

impl VoxelVolume for Levels {
    fn get(&self, xyz: [i32; 3], downsampling: i32) -> u8 {
        if xyz[0] >= 0 && xyz[0] < 128 {
            (100 + downsampling) as u8
        } else {
            0
        }
    }
}

impl AutoPaintVolume for Levels {}

#[test]
fn a_pane_tile_is_painted() {
    let pane = VolumePane::new(PaneType::XY, false);
    let tile = PaneTile { tile_x: 0, tile_y: 0 };
    let image = pane.create_tile_sync(tile, [0, 0, 5], &Levels {}, 1, 0, &DrawingConfig::default(), 1);
    assert_eq!((image.width, image.height), (256, 256));
    assert_eq!(image.data[0].r, 101);
    assert_eq!(image.data[127].r, 101);
}

#[test]
fn the_first_view() {
    let state = ViewState::new();
    assert_eq!(state.coord, [2800, 2500, 10852]);
    assert!(!state.is_segment_mode());
    assert!(!state.should_sync_coords());
    assert_eq!(state.panes().len(), 3);
    assert!(state.outlines_coord().is_none());
}

#[test]
fn segments_start_in_their_middle() {
    let mut state = with_segment();
    let s = state.segment.as_ref().unwrap();
    assert_eq!(s.coord, [50, 25, 0]);
    assert!(s.ranges == [range(0, 100), range(0, 50), range(-40, 40)]);
    assert_eq!(s.filename, "a.obj");
    assert!(s.has_mesh);
    assert!(state.is_reload("a.obj"));
    assert!(state.reuses_mesh("a.obj", &ProjectionKind::NoProjection));
    assert!(!state.reuses_mesh("a.obj", &ProjectionKind::OrthographicXZ));
    assert!(!state.is_reload("b.obj"));
    state.setup_segment("a.obj", 200, 60, [1, 2, 3], true, None);
    assert_eq!(state.segment.as_ref().unwrap().coord, [1, 2, 3]);
    assert_eq!(state.outlines_coord(), Some([1, 2, 3]));
    assert_eq!(state.panes().len(), 4);
    state.press(Key::Num(5), false);
    assert_eq!(state.panes().len(), 1);
    assert!(state.panes()[0].pane_type == PaneType::UV);
    state.unload_segment();
    assert!(!state.is_segment_mode());
    assert!(state.layout == GuiLayout::Grid);
}

#[test]
fn segment_files() {
    assert!(segment_file_kind("a.ppm") == SegmentFile::Ppm);
    assert!(segment_file_kind("a.obj") == SegmentFile::Obj);
    assert!(segment_file_kind("a.txt") == SegmentFile::Other);
}

#[test]
fn the_volume_follows_the_surface() {
    let mut state = with_segment();
    state.sync_coords([7, 8, 9]);
    assert_eq!(state.coord, [7, 8, 9]);
    state.sync_coords([-1, 8, 9]);
    assert_eq!(state.coord, [7, 8, 9]);
    state.press(Key::S, false);
    assert!(!state.should_sync_coords());
    state.sync_coords([1, 1, 1]);
    assert_eq!(state.coord, [7, 8, 9]);
}

#[test]
fn volumes_are_selected() {
    let mut state = ViewState::new();
    assert_eq!(state.select_volume(3), 3);
    assert_eq!(state.volume_id, 3);
    let mut state = with_segment();
    assert_eq!(state.select_volume(3), 0);
    assert_eq!(volume_shortcut(2, true, 5), Some(1));
    assert_eq!(volume_shortcut(6, true, 5), None);
    assert_eq!(volume_shortcut(2, false, 5), None);
    assert_eq!(volume_shortcut(0, true, 5), None);
}

#[test]
fn keys_switch_things() {
    let mut state = with_segment();
    assert!(state.press(Key::F, false) == QUIET);
    assert!(state.drawing_config.enable_filters);
    state.press(Key::F, false);
    assert!(!state.drawing_config.enable_filters);
    state.press(Key::C, false);
    assert!(!state.catalog_panel_open);
    state.press(Key::I, false);
    assert!(state.trilinear_interpolation);
    state.press(Key::O, false);
    assert!(state.show_segment_outlines);
    state.press(Key::P, false);
    assert!(state.drawing_config.draw_outline_vertices);
    state.press(Key::X, false);
    assert!(state.drawing_config.draw_xyz_outlines);
    state.press(Key::M, false);
    assert!(state.compositing == CompositingMode::Max);
    state.press(Key::A, false);
    assert!(state.compositing == CompositingMode::Alpha);
    state.press(Key::H, false);
    assert!(state.compositing == CompositingMode::AlphaHeightMap);
    state.press(Key::H, false);
    assert!(state.compositing == CompositingMode::NoCompositing);
    state.press(Key::Num(3), false);
    assert!(state.layout == GuiLayout::XZ);
    state.press(Key::Num(1), true);
    assert!(state.layout == GuiLayout::XZ);
    state.press(Key::Num(1), false);
    assert!(state.layout == GuiLayout::Grid);
}

#[test]
fn keys_move_through_the_layers() {
    let mut state = with_segment();
    let synced = Effects { sync: true, ..QUIET };
    assert!(state.press(Key::K, false) == synced);
    assert_eq!(state.segment.as_ref().unwrap().coord[2], 1);
    state.press(Key::J, false);
    state.press(Key::J, false);
    assert_eq!(state.segment.as_ref().unwrap().coord[2], -1);
    for _ in 0..100 {
        state.press(Key::J, false);
    }
    assert_eq!(state.segment.as_ref().unwrap().coord[2], -40);
    assert!(state.press(Key::Num(0), false) == synced);
    assert_eq!(state.segment.as_ref().unwrap().coord[2], 0);
}

#[test]
fn surface_keys_need_a_surface() {
    let mut state = ViewState::new();
    for key in [Key::I, Key::O, Key::P, Key::S, Key::X, Key::A, Key::M, Key::H, Key::J, Key::K, Key::L] {
        assert!(state.press(key, false) == QUIET);
    }
    assert!(!state.trilinear_interpolation);
    assert!(state.compositing == CompositingMode::NoCompositing);
    assert!(state.sync_coordinates);
    state.press(Key::Num(5), false);
    assert!(state.layout == GuiLayout::Grid);
}

#[test]
fn overlays_are_switched() {
    let mut state = with_segment();
    state.has_overlay = true;
    assert!(state.press(Key::L, false) == Effects { rebuild_segment: true, ..QUIET });
    assert!(!state.show_overlay);
    assert!(
        state.change(Control::ShowOverlay(true))
            == Effects { sync: true, rebuild_overlay: false, rebuild_segment: true }
    );
    assert!(state.show_overlay);
    assert!(
        state.change(Control::OverlayColoring)
            == Effects { sync: false, rebuild_overlay: true, rebuild_segment: true }
    );
}

#[test]
fn controls_set_how_layers_are_combined() {
    let mut state = ViewState::new();
    state.change(Control::LayersInFront(3));
    assert!(state.compositing_settings == CompositingSettings::new());
    let mut state = with_segment();
    assert!(state.change(Control::LayersInFront(3)) == QUIET);
    state.change(Control::LayersBehind(200));
    assert_eq!(state.compositing_settings.layers_in_front, 3);
    assert_eq!(state.compositing_settings.layers_behind, 100);
    state.change(Control::Opacity(7));
    assert_eq!(state.compositing_settings.opacity, 100);
    state.change(Control::Compositing(CompositingMode::Alpha));
    state.change(Control::Opacity(700));
    state.change(Control::AlphaMin(5));
    state.change(Control::AlphaMax(250));
    state.change(Control::AlphaThreshold(20000));
    state.change(Control::ReverseDirection(true));
    let expected = CompositingSettings {
        layers_in_front: 3,
        layers_behind: 100,
        alpha_min: 5,
        alpha_max: 250,
        alpha_threshold: 10000,
        opacity: 300,
        reverse_direction: true,
    };
    assert!(state.compositing_settings == expected);
}

#[test]
fn controls_keep_the_filters_usable() {
    let mut state = ViewState::new();
    state.change(Control::ThresholdMin(200));
    assert_eq!(state.drawing_config.threshold_min, 0);
    state.change(Control::EnableFilters(true));
    state.change(Control::ThresholdMin(200));
    assert_eq!(state.drawing_config.threshold_min, 200);
    state.change(Control::ThresholdMax(200));
    assert_eq!(state.drawing_config.threshold_max, 54);
    state.change(Control::MaskBits(0));
    assert_eq!(state.drawing_config.quant, 1);
    state.change(Control::MaskBits(9));
    assert_eq!(state.drawing_config.quant, 8);
    state.change(Control::MaskShift(9));
    assert_eq!(state.drawing_config.mask_shift, 7);
    state.change(Control::TargetFps(0));
    assert_eq!(state.target_fps, 1);
    state.change(Control::TargetFps(100));
    assert_eq!(state.target_fps, 60);
    state.drawing_config.filter(255);
}

#[test]
fn controls_move_the_view() {
    let mut state = with_segment();
    state.change(Control::Coordinate(1, 77));
    assert_eq!(state.coord, [2800, 2500, 10852]);
    state.change(Control::SyncCoordinates(false));
    assert!(state.change(Control::Coordinate(1, 77)) == QUIET);
    assert_eq!(state.coord, [2800, 77, 10852]);
    state.change(Control::Coordinate(0, -5));
    assert_eq!(state.coord, [0, 77, 10852]);
    assert!(state.change(Control::Surface(0, 30)) == Effects { sync: true, ..QUIET });
    assert_eq!(state.segment.as_ref().unwrap().coord, [30, 25, 0]);
    state.change(Control::Surface(2, 1000));
    assert_eq!(state.segment.as_ref().unwrap().coord, [30, 25, 40]);
    state.change(Control::Compositing(CompositingMode::Max));
    assert!(state.compositing == CompositingMode::Max);
    state.change(Control::Trilinear(true));
    assert!(state.trilinear_interpolation);
}

#[test]
fn segments_of_the_atlas() {
    let mut state = ViewState::new();
    let ids = AtlasIds { sample_id: "p".to_string(), segment_id: "s".to_string() };
    state.setup_segment("a.obj", 10, 10, [0, 0, 0], true, Some(ids));
    let s = state.segment.as_ref().unwrap();
    assert_eq!(s.sample_id, Some("p".to_string()));
    state.atlas_loaded("p", "s", "v".to_string(), vec!["v".to_string()]);
    let s = state.segment.as_ref().unwrap();
    assert_eq!(s.current_base_volume_id, Some("v".to_string()));
    assert_eq!(s.available_volumes.len(), 1);
    assert_eq!(atlas_obj_cache_path("p", "s"), "atlas-segments/p/s.obj");
}

fn sample() -> AtlasSample {
    AtlasSample {
        segments: vec![AtlasSegment {
            id: "s".to_string(),
            original_volume_id: "v1".to_string(),
            width: 10,
            height: 20,
            volumes: vec!["v1".to_string(), "v2".to_string()],
        }],
        volumes: vec![
            AtlasVolume { id: "v1".to_string(), ome_zarr_url: Some("u1".to_string()), properties: None },
            AtlasVolume { id: "v2".to_string(), ome_zarr_url: None, properties: None },
        ],
    }
}

#[test]
fn atlas_segments_are_planned() {
    let plan = plan_atlas_segment(&sample(), "s", None, None).unwrap();
    assert_eq!(plan.volume_id, "v1");
    assert_eq!(plan.volume_url, Some("u1".to_string()));
    assert_eq!(plan.mesh_from, None);
    assert_eq!((plan.width, plan.height), (10, 20));
    assert_eq!(plan.available_volumes.len(), 2);
    let other = plan_atlas_segment(&sample(), "s", Some("v2"), None).unwrap();
    assert_eq!(other.volume_id, "v2");
    assert_eq!(other.volume_url, None);
    assert_eq!(other.mesh_from, Some("v1".to_string()));
    assert!(plan_atlas_segment(&sample(), "t", None, None).is_none());
}

fn scan(pixel_size: i64, energy: i64, detector_distance: Option<i64>) -> Option<ScanProperties> {
    Some(ScanProperties { pixel_size: Some(pixel_size), energy: Some(energy), detector_distance })
}

#[test]
fn scans_are_ordered_by_their_properties() {
    let scans = vec![
        scan(791, 54, Some(120)),
        scan(324, 88, Some(220)),
        scan(324, 70, Some(220)),
        scan(324, 70, None),
        scan(324, 70, Some(220)),
    ];
    assert_eq!(scan_order(&scans), vec![3, 2, 4, 1, 0]);
    assert_eq!(scan_order(&vec![None, None, None]), vec![0, 1, 2]);
    let mut mixed = scan_order(&vec![scan(2, 1, None), None, scan(1, 1, None)]);
    mixed.sort();
    assert_eq!(mixed, vec![0, 1, 2]);
}

#[test]
fn volumes_of_a_segment_are_sorted() {
    let mut sample = sample();
    sample.volumes[0].properties = scan(791, 54, None);
    sample.volumes[1].properties = scan(324, 88, None);
    assert!(get_sorted_volumes(&sample, None).is_empty());
    let mut mode = SegmentMode::new();
    mode.available_volumes = vec!["v1".to_string(), "v2".to_string()];
    assert_eq!(get_sorted_volumes(&sample, Some(&mode)), vec!["v2", "v1"]);
}

#[test]
fn volumes_are_labelled_by_their_scan() {
    let texts = |distance: Option<&str>| {
        Some(ScanTexts {
            pixel_size: Some("7.91".to_string()),
            energy: Some("54".to_string()),
            detector_distance: distance.map(|d| d.to_string()),
        })
    };
    assert_eq!(format_volume_label("v1", &texts(Some("0.12")), None), "7.91µm, 54keV, 0.12m");
    assert_eq!(format_volume_label("v1", &texts(Some("0.12")), Some(3)), "7.91µm (^3)");
    assert_eq!(format_volume_label("v1", &texts(None), Some(3)), "v1");
    assert_eq!(format_volume_label("v1", &None, None), "v1");
    assert_eq!(listed_volume_label("v1", &texts(Some("0.12"))), "7.91µm, 54keV, 0.12m (v1)");
    assert_eq!(listed_volume_label("v1", &None), "v1");
}

#[test]
fn overlays_are_found_by_name() {
    assert!(overlay_source("http://x/a.ome.zarr") == OverlaySource::OmeZarrUrl);
    assert!(overlay_source("d/a.ome.zarr") == OverlaySource::OmeZarrPath);
    assert!(overlay_source("http://x/a.zarr") == OverlaySource::ZarrUrl);
    assert!(overlay_source("d/a.zarr") == OverlaySource::ZarrPath);
    assert!(overlay_source("d/a") == OverlaySource::NoOverlay);
}

#[test]
fn directories_are_browsed_as_what_they_hold() {
    let names = |list: &[&str]| list.iter().map(|n| n.to_string()).collect::<Vec<String>>();
    assert!(mode_of(&names(&[])) == Mode::Blocks);
    assert!(mode_of(&names(&["x", "00001.tif"])) == Mode::Layers);
    assert!(mode_of(&names(&["00001.tif", "cell_yxz_001_001_001.tif"])) == Mode::Cells);
    assert!(is_cell_file("cell_yxz_x.tif"));
    assert!(!is_cell_file("cell_yxz_x.png"));
    assert!(is_layer_file("12345.tif"));
    assert!(!is_layer_file("1234.tif"));
    assert_eq!(extra_resolutions(Mode::Blocks), 1);
    assert_eq!(extra_resolutions(Mode::Cells), 0);
    assert!(may_browse(Mode::Layers, false));
    assert!(!may_browse(Mode::Blocks, false));
    assert!(may_browse(Mode::Blocks, true));
    assert_eq!(tile_server(), "https://vesuvius.virtual-void.net");
}

#[test]
fn logins() {
    assert_eq!(password_of(" user:pass\n"), "user:pass");
    let mut form = LoginForm::new();
    assert!(form.focuses_user());
    assert!(form.enter_in_user() == LoginAction::FocusPassword);
    assert!(form.enter_in_password() == LoginAction::Stay);
    form.user = "u".to_string();
    form.password = "p".to_string();
    assert!(!form.focuses_user());
    assert!(form.enter_in_user() == LoginAction::TryLogin);
    assert!(form.enter_in_password() == LoginAction::TryLogin);
    assert_eq!(form.credentials(), "u:p");
    assert!(!form.answered(false));
    assert!(form.last_login_failed);
    assert!(form.answered(true));
    assert!(!form.last_login_failed);
}

#[test]
fn surfaces_have_ranges() {
    let (coord, ranges) = transform_volume([5, 6, 7], 100, 50);
    assert_eq!(coord, [5, 6, 7]);
    assert!(ranges == [range(0, 100), range(0, 50), range(-30, 30)]);
    assert_eq!(transform_volume([5, 60, 7], 100, 50).0, [50, 25, 0]);
}

fn args() -> Args {
    Args {
        data_directory: Some("d".to_string()),
        obj: None,
        width: None,
        height: None,
        transform: None,
        ortho_xz: false,
        invert_transform: false,
        overlay: None,
        volume: None,
    }
}

fn absent() -> VolumeProbe {
    VolumeProbe { exists: false, zattrs: None, zarray: None }
}

#[test]
fn volumes_are_resolved() {
    match resolve_volume("20230205180739".to_string(), absent()) {
        Ok(v) => assert_eq!(v.label(), "Scroll 1 / 20230205180739"),
        Err(e) => panic!("{}", e),
    }
    let found = VolumeProbe { exists: true, zattrs: Some("multiscales".to_string()), zarray: None };
    match resolve_volume("d/a.zarr".to_string(), found) {
        Ok(NewVolumeReference::OmeZarr { location: VolumeLocation::LocalPath(p), .. }) => {
            assert_eq!(p, "d/a.zarr")
        }
        _ => panic!("this is OME-Zarr"),
    }
    match resolve_volume("http://x".to_string(), absent()) {
        Err(e) => assert!(e.starts_with("URL http://x is neither")),
        Ok(_) => panic!("there is nothing"),
    }
    match resolve_volume("what".to_string(), absent()) {
        Err(e) => {
            assert!(e.starts_with("Error: Volume what not found. Use one of:\n"));
            assert!(e.contains("20230205180739"));
            assert!(e.contains("Or provide:\n- HTTP URL"));
        }
        Ok(_) => panic!("there is no such volume"),
    }
}

#[test]
fn command_lines_are_configurations() {
    match VesuviusConfig::try_from(args(), absent(), None) {
        Ok(c) => {
            assert_eq!(c.data_dir, Some("d".to_string()));
            assert!(c.obj_file.is_none());
            assert!(c.volume.is_none());
        }
        Err(e) => panic!("{}", e),
    }
    match VesuviusConfig::try_from(Args { volume: Some(None), ..args() }, absent(), None) {
        Err(e) => assert!(e.starts_with("Volumes:\n")),
        Ok(_) => panic!("the volumes are listed"),
    }
    let mesh = || Args {
        obj: Some("a.obj".to_string()),
        width: Some(3),
        height: Some(4),
        ortho_xz: true,
        transform: Some("t".to_string()),
        ..args()
    };
    match VesuviusConfig::try_from(mesh(), absent(), None) {
        Ok(c) => {
            let obj = c.obj_file.unwrap();
            assert_eq!((obj.obj_file.as_str(), obj.width, obj.height), ("a.obj", 3, 4));
            assert!(obj.projection == ProjectionKind::OrthographicXZ);
            assert_eq!(obj.transform, Some("t".to_string()));
        }
        Err(e) => panic!("{}", e),
    }
    assert!(VesuviusConfig::try_from(mesh(), absent(), Some("broken".to_string())).is_err());
    assert!(VesuviusConfig::try_from(Args { width: None, ..mesh() }, absent(), None).is_err());
}
