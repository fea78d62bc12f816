//! What the program shows, and how keys, controls and the catalog change it.

use crate::catalog::Segment;
use crate::gui::panes::{ranges_valid, CoordRange, PaneType, VolumePane};
use crate::model::known_volumes;
use crate::text::{ends_with, has_end};
use crate::volume::obj::ProjectionKind;
use crate::volume::DrawingConfig;
use vstd::prelude::*;
use vstd::string::*;

verus! {

/// Which panes are shown.
#[derive(Clone, Copy, PartialEq, Eq, Structural)]
pub enum GuiLayout {
    Grid,
    XY,
    XZ,
    YZ,
    UV,
}

/// How the layers around a surface are put together.
#[derive(Clone, Copy, PartialEq, Eq, Structural)]
pub enum CompositingMode {
    NoCompositing,
    Max,
    Alpha,
    AlphaHeightMap,
}

/// The segment that is shown.
pub struct SegmentMode {
    pub coord: [i32; 3],
    pub info: String,
    pub filename: String,
    pub width: usize,
    pub height: usize,
    pub ranges: [CoordRange; 3],
    /// A mesh was read for it.
    pub has_mesh: bool,
    pub segment_id: Option<String>,
    pub sample_id: Option<String>,
    pub current_base_volume_id: Option<String>,
    pub available_volumes: Vec<String>,
}

/// How far one can go from the surface.
pub const LAYERS: i32 = 40;

/// The ranges of a surface of some size.
pub open spec fn surface_ranges(width: i32, height: i32) -> Seq<CoordRange> {
    seq![
        CoordRange { start: 0, end: width },
        CoordRange { start: 0, end: height },
        CoordRange { start: (-LAYERS) as i32, end: LAYERS },
    ]
}

fn ranges_of(width: i32, height: i32) -> (r: [CoordRange; 3])
    ensures
        r@ == surface_ranges(width, height),
{
    let r = [
        CoordRange { start: 0, end: width },
        CoordRange { start: 0, end: height },
        CoordRange { start: -LAYERS, end: LAYERS },
    ];
    assert(r@ =~= surface_ranges(width, height));
    r
}

impl SegmentMode {
    /// What is shown before any segment is.
    pub fn new() -> (r: SegmentMode)
        ensures
            r.coord@ == seq![0i32, 0, 0],
            r.info@ == ""@,
            r.filename@ == ""@,
            r.width == 1000,
            r.height == 1000,
            r.ranges@ == surface_ranges(1000, 1000),
            !r.has_mesh,
            r.segment_id is None,
            r.sample_id is None,
            r.current_base_volume_id is None,
            r.available_volumes@.len() == 0,
    {
        let coord: [i32; 3] = [0; 3];
        assert(coord@ =~= seq![0i32, 0, 0]);
        SegmentMode {
            coord,
            info: "".to_string(),
            filename: "".to_string(),
            width: 1000,
            height: 1000,
            ranges: ranges_of(1000, 1000),
            has_mesh: false,
            segment_id: None,
            sample_id: None,
            current_base_volume_id: None,
            available_volumes: Vec::new(),
        }
    }
}

/// All that decides what is shown.
pub struct ViewState {
    pub volume_id: usize,
    pub coord: [i32; 3],
    pub ranges: [CoordRange; 3],
    pub drawing_config: DrawingConfig,
    pub trilinear_interpolation: bool,
    pub show_segment_outlines: bool,
    pub compositing: CompositingMode,
    pub compositing_settings: CompositingSettings,
    pub sync_coordinates: bool,
    pub has_overlay: bool,
    pub show_overlay: bool,
    pub catalog_panel_open: bool,
    pub layout: GuiLayout,
    pub target_fps: u32,
    pub segment: Option<SegmentMode>,
}

/// How the layers around a surface are combined: how many of them, and what counts as opaque.
#[derive(Clone, Copy, PartialEq, Eq, Structural)]
pub struct CompositingSettings {
    pub layers_in_front: u8,
    pub layers_behind: u8,
    pub alpha_min: u8,
    pub alpha_max: u8,
    /// In ten thousandths.
    pub alpha_threshold: u32,
    /// In hundredths.
    pub opacity: u32,
    pub reverse_direction: bool,
}

impl CompositingSettings {
    #[verifier::allow_in_spec]
    pub fn new() -> CompositingSettings
        returns
            (CompositingSettings {
                layers_in_front: 10,
                layers_behind: 10,
                alpha_min: 70,
                alpha_max: 180,
                alpha_threshold: 9500,
                opacity: 100,
                reverse_direction: false,
            }),
    {
        CompositingSettings {
            layers_in_front: 10,
            layers_behind: 10,
            alpha_min: 70,
            alpha_max: 180,
            alpha_threshold: 9500,
            opacity: 100,
            reverse_direction: false,
        }
    }
}

/// The keys that mean something.
#[derive(Clone, Copy, PartialEq, Eq, Structural)]
pub enum Key {
    A,
    C,
    F,
    H,
    I,
    J,
    K,
    L,
    M,
    O,
    P,
    S,
    X,
    /// A digit.
    Num(u8),
}

/// What is left to do after a change.
#[derive(Clone, Copy, PartialEq, Eq, Structural)]
pub struct Effects {
    /// Let the volume follow the surface.
    pub sync: bool,
    /// Colour the overlay anew.
    pub rebuild_overlay: bool,
    /// Put the surface on the volume and the overlay anew.
    pub rebuild_segment: bool,
}

/// Nothing is left to do.
pub open spec fn no_effects() -> Effects {
    Effects { sync: false, rebuild_overlay: false, rebuild_segment: false }
}

fn nothing() -> (r: Effects)
    ensures
        r == no_effects(),
{
    Effects { sync: false, rebuild_overlay: false, rebuild_segment: false }
}

/// A mode that a key switches on, or off if it is on.
pub open spec fn toggled(mode: CompositingMode, key_mode: CompositingMode) -> CompositingMode {
    if mode == key_mode {
        CompositingMode::NoCompositing
    } else {
        key_mode
    }
}

fn toggle(mode: CompositingMode, key_mode: CompositingMode) -> (r: CompositingMode)
    ensures
        r == toggled(mode, key_mode),
{
    if mode == key_mode {
        CompositingMode::NoCompositing
    } else {
        key_mode
    }
}

/// One layer towards the viewer, as far as the range goes.
pub open spec fn layer_down(c: i32, range: CoordRange) -> i32 {
    if c > range.start {
        (c - 1) as i32
    } else {
        range.start
    }
}

/// One layer away from the viewer, as far as the range goes.
pub open spec fn layer_up(c: i32, range: CoordRange) -> i32 {
    if c < range.end {
        (c + 1) as i32
    } else {
        range.end
    }
}

/// The same segment at another layer.
pub open spec fn at_layer(segment: SegmentMode, after: SegmentMode, layer: i32) -> bool {
    &&& after.coord@ == segment.coord@.update(2, layer)
    &&& after == (SegmentMode { coord: after.coord, ..segment })
}

/// The two states differ in the segment alone.
pub open spec fn same_but_segment(before: ViewState, after: ViewState) -> bool {
    after == (ViewState { segment: after.segment, ..before })
}

/// The layer of the segment was set.
pub open spec fn layer_set(before: ViewState, after: ViewState, layer: i32) -> bool {
    &&& same_but_segment(before, after)
    &&& before.segment is Some
    &&& after.segment is Some
    &&& at_layer(before.segment->0, after.segment->0, layer)
}

/// What a key does.
pub open spec fn key_does(before: ViewState, after: ViewState, key: Key, ctrl: bool) -> bool {
    let surface = before.segment is Some;
    let config = before.drawing_config;
    match key {
        Key::F => after == (ViewState {
            drawing_config: DrawingConfig { enable_filters: !config.enable_filters, ..config },
            ..before
        }),
        Key::L => after == (if before.has_overlay {
            ViewState { show_overlay: !before.show_overlay, ..before }
        } else {
            before
        }),
        Key::C => after == (ViewState { catalog_panel_open: !before.catalog_panel_open, ..before }),
        Key::I => after == (if surface {
            ViewState { trilinear_interpolation: !before.trilinear_interpolation, ..before }
        } else {
            before
        }),
        Key::O => after == (if surface {
            ViewState { show_segment_outlines: !before.show_segment_outlines, ..before }
        } else {
            before
        }),
        Key::P => after == (if surface {
            ViewState {
                drawing_config: DrawingConfig {
                    draw_outline_vertices: !config.draw_outline_vertices,
                    ..config
                },
                ..before
            }
        } else {
            before
        }),
        Key::S => after == (if surface {
            ViewState { sync_coordinates: !before.sync_coordinates, ..before }
        } else {
            before
        }),
        Key::X => after == (if surface {
            ViewState {
                drawing_config: DrawingConfig { draw_xyz_outlines: !config.draw_xyz_outlines, ..config },
                ..before
            }
        } else {
            before
        }),
        Key::A => after == (if surface {
            ViewState { compositing: toggled(before.compositing, CompositingMode::Alpha), ..before }
        } else {
            before
        }),
        Key::M => after == (if surface {
            ViewState { compositing: toggled(before.compositing, CompositingMode::Max), ..before }
        } else {
            before
        }),
        Key::H => after == (if surface {
            ViewState {
                compositing: toggled(before.compositing, CompositingMode::AlphaHeightMap),
                ..before
            }
        } else {
            before
        }),
        Key::J => if surface {
            layer_set(
                before,
                after,
                layer_down(before.segment->0.coord@[2], before.segment->0.ranges@[2]),
            )
        } else {
            after == before
        },
        Key::K => if surface {
            layer_set(before, after, layer_up(before.segment->0.coord@[2], before.segment->0.ranges@[2]))
        } else {
            after == before
        },
        Key::Num(n) => if n == 0 && surface {
            layer_set(before, after, 0)
        } else {
            after == (ViewState { layout: digit_layout(before, n, ctrl), ..before })
        },
    }
}

/// The layout that a digit chooses. The surface pane is there only with a segment.
pub open spec fn digit_layout(state: ViewState, n: u8, ctrl: bool) -> GuiLayout {
    if n == 1 && !ctrl {
        GuiLayout::Grid
    } else if n == 2 && !ctrl {
        GuiLayout::XY
    } else if n == 3 && !ctrl {
        GuiLayout::XZ
    } else if n == 4 && !ctrl {
        GuiLayout::YZ
    } else if n == 5 && state.segment is Some {
        GuiLayout::UV
    } else {
        state.layout
    }
}

/// A control of the control window, with its new value.
#[derive(Clone, Copy, PartialEq, Eq, Structural)]
pub enum Control {
    /// A coordinate of the volume.
    Coordinate(usize, i32),
    /// A coordinate of the surface.
    Surface(usize, i32),
    ShowOverlay(bool),
    Trilinear(bool),
    SegmentOutlines(bool),
    OutlinePoints(bool),
    SyncCoordinates(bool),
    XyzOutline(bool),
    Compositing(CompositingMode),
    LayersInFront(u8),
    LayersBehind(u8),
    AlphaMin(u8),
    AlphaMax(u8),
    AlphaThreshold(u32),
    Opacity(u32),
    ReverseDirection(bool),
    /// The overlay got other colours.
    OverlayColoring,
    EnableFilters(bool),
    ThresholdMin(u8),
    ThresholdMax(u8),
    MaskBits(u8),
    MaskShift(u8),
    TargetFps(u32),
}

/// A value within limits.
pub open spec fn limited(v: int, low: int, high: int) -> int {
    if v < low {
        low
    } else if v > high {
        high
    } else {
        v
    }
}

/// The largest threshold that leaves something between it and the other one.
pub open spec fn threshold_limit(other: u8) -> int {
    if other > 254 {
        0
    } else {
        254 - other
    }
}

/// The settings of the layers after a control. What concerns opacity can be set only where it
/// matters.
pub open spec fn settings_after(before: ViewState, control: Control) -> CompositingSettings {
    let settings = before.compositing_settings;
    let alpha = before.compositing == CompositingMode::Alpha || before.compositing
        == CompositingMode::AlphaHeightMap;
    if before.segment is None {
        settings
    } else {
        match control {
            Control::LayersInFront(v) => CompositingSettings {
                layers_in_front: limited(v as int, 0, 100) as u8,
                ..settings
            },
            Control::LayersBehind(v) => CompositingSettings {
                layers_behind: limited(v as int, 0, 100) as u8,
                ..settings
            },
            Control::AlphaMin(v) if alpha => CompositingSettings { alpha_min: v, ..settings },
            Control::AlphaMax(v) if alpha => CompositingSettings { alpha_max: v, ..settings },
            Control::AlphaThreshold(v) if alpha => CompositingSettings {
                alpha_threshold: limited(v as int, 0, 10000) as u32,
                ..settings
            },
            Control::Opacity(v) if alpha => CompositingSettings {
                opacity: limited(v as int, 0, 300) as u32,
                ..settings
            },
            Control::ReverseDirection(v) if alpha => CompositingSettings {
                reverse_direction: v,
                ..settings
            },
            _ => settings,
        }
    }
}

/// The filters after a control. They can be set only while they are switched on.
pub open spec fn filters_after(config: DrawingConfig, control: Control) -> DrawingConfig {
    let on = config.enable_filters;
    match control {
        Control::EnableFilters(v) => DrawingConfig { enable_filters: v, ..config },
        Control::ThresholdMin(v) if on => DrawingConfig {
            threshold_min: limited(v as int, 0, threshold_limit(config.threshold_max)) as u8,
            ..config
        },
        Control::ThresholdMax(v) if on => DrawingConfig {
            threshold_max: limited(v as int, 0, threshold_limit(config.threshold_min)) as u8,
            ..config
        },
        Control::MaskBits(v) if on => DrawingConfig { quant: limited(v as int, 1, 8) as u8, ..config },
        Control::MaskShift(v) if on => DrawingConfig {
            mask_shift: limited(v as int, 0, 7) as u8,
            ..config
        },
        _ => config,
    }
}

/// What a control does.
pub open spec fn control_does(before: ViewState, after: ViewState, control: Control) -> bool {
    let surface = before.segment is Some;
    let config = before.drawing_config;
    match control {
        Control::Coordinate(i, v) => if before.syncs() || i >= 3 {
            after == before
        } else {
            &&& after.coord@ == before.coord@.update(i as int, before.ranges@[i as int].nearest(v as int) as i32)
            &&& after == (ViewState { coord: after.coord, ..before })
        },
        Control::Surface(i, v) => if !surface || i >= 3 {
            after == before
        } else {
            &&& same_but_segment(before, after)
            &&& after.segment is Some
            &&& after.segment->0.coord@ == before.segment->0.coord@.update(
                i as int,
                before.segment->0.ranges@[i as int].nearest(v as int) as i32,
            )
            &&& after.segment->0 == (SegmentMode {
                coord: after.segment->0.coord,
                ..before.segment->0
            })
        },
        Control::ShowOverlay(v) => after == (if before.has_overlay {
            ViewState { show_overlay: v, ..before }
        } else {
            before
        }),
        Control::Trilinear(v) => after == (if surface {
            ViewState { trilinear_interpolation: v, ..before }
        } else {
            before
        }),
        Control::SegmentOutlines(v) => after == (if surface {
            ViewState { show_segment_outlines: v, ..before }
        } else {
            before
        }),
        Control::OutlinePoints(v) => after == (if surface {
            ViewState {
                drawing_config: DrawingConfig { draw_outline_vertices: v, ..config },
                ..before
            }
        } else {
            before
        }),
        Control::SyncCoordinates(v) => after == (if surface {
            ViewState { sync_coordinates: v, ..before }
        } else {
            before
        }),
        Control::XyzOutline(v) => after == (if surface {
            ViewState { drawing_config: DrawingConfig { draw_xyz_outlines: v, ..config }, ..before }
        } else {
            before
        }),
        Control::Compositing(m) => after == (if surface {
            ViewState { compositing: m, ..before }
        } else {
            before
        }),
        Control::OverlayColoring => after == before,
        Control::LayersInFront(_) | Control::LayersBehind(_) | Control::AlphaMin(_)
        | Control::AlphaMax(_) | Control::AlphaThreshold(_) | Control::Opacity(_)
        | Control::ReverseDirection(_) => after == (ViewState {
            compositing_settings: settings_after(before, control),
            ..before
        }),
        Control::EnableFilters(_) | Control::ThresholdMin(_) | Control::ThresholdMax(_)
        | Control::MaskBits(_) | Control::MaskShift(_) => after == (ViewState {
            drawing_config: filters_after(config, control),
            ..before
        }),
        Control::TargetFps(v) => after == (ViewState {
            target_fps: limited(v as int, 1, 60) as u32,
            ..before
        }),
    }
}

/// What is left to do after a control.
pub open spec fn control_effects(before: ViewState, control: Control) -> Effects {
    let surface = before.segment is Some;
    match control {
        Control::Surface(i, v) => Effects { sync: surface, ..no_effects() },
        Control::ShowOverlay(v) => Effects {
            sync: before.has_overlay,
            rebuild_overlay: false,
            rebuild_segment: before.has_overlay && surface,
        },
        Control::Trilinear(v) => Effects { sync: surface, ..no_effects() },
        Control::SegmentOutlines(v) => Effects { sync: surface, ..no_effects() },
        Control::OutlinePoints(v) => Effects { sync: surface, ..no_effects() },
        Control::SyncCoordinates(v) => Effects { sync: surface, ..no_effects() },
        Control::OverlayColoring => Effects {
            sync: false,
            rebuild_overlay: before.has_overlay,
            rebuild_segment: before.has_overlay && surface,
        },
        _ => no_effects(),
    }
}

/// What a segment's file holds, by its name.
#[derive(Clone, Copy, PartialEq, Eq, Structural)]
pub enum SegmentFile {
    Ppm,
    Obj,
    Other,
}

/// Tells the kind of a segment file.
pub fn segment_file_kind(file: &str) -> (r: SegmentFile)
    ensures
        r == (if ends_with(file@, ".ppm"@) {
            SegmentFile::Ppm
        } else if ends_with(file@, ".obj"@) {
            SegmentFile::Obj
        } else {
            SegmentFile::Other
        }),
{
    if has_end(file, ".ppm") {
        SegmentFile::Ppm
    } else if has_end(file, ".obj") {
        SegmentFile::Obj
    } else {
        SegmentFile::Other
    }
}

/// Where a segment comes from, if it comes from the atlas.
pub struct AtlasIds {
    pub sample_id: String,
    pub segment_id: String,
}

/// The segment after a file was set up: a new file starts in its middle, and a file that was
/// shown already goes on at `coord`.
pub open spec fn set_up(
    before: SegmentMode,
    after: SegmentMode,
    file: Seq<char>,
    width: i32,
    height: i32,
    coord: [i32; 3],
    mesh: bool,
    atlas: Option<AtlasIds>,
) -> bool {
    &&& if before.filename@ == file {
        after.coord == coord && after.filename == before.filename && after.info == before.info
    } else {
        after.coord@ == seq![(width / 2) as i32, (height / 2) as i32, 0i32] && after.filename@ == file
            && after.info@ == file
    }
    &&& after.width == width
    &&& after.height == height
    &&& after.ranges@ == surface_ranges(width, height)
    &&& after.has_mesh == mesh
    &&& match atlas {
        Some(ids) => {
            &&& after.sample_id == Some(ids.sample_id)
            &&& after.segment_id == Some(ids.segment_id)
            &&& after.current_base_volume_id == before.current_base_volume_id
            &&& after.available_volumes == before.available_volumes
        },
        None => {
            &&& after.sample_id is None
            &&& after.segment_id is None
            &&& after.current_base_volume_id is None
            &&& after.available_volumes@.len() == 0
        },
    }
}

impl ViewState {
    /// Filters can be used, and every range holds something.
    pub open spec fn valid(&self) -> bool {
        &&& ranges_valid(self.ranges)
        &&& self.drawing_config.mask_shift < 8
        &&& self.drawing_config.threshold_min + self.drawing_config.threshold_max < 255
        &&& self.segment matches Some(s) ==> ranges_valid(s.ranges)
    }

    /// The volume follows the surface.
    pub open spec fn syncs(&self) -> bool {
        self.segment is Some && self.sync_coordinates
    }

    /// What is shown at first.
    pub fn new() -> (r: ViewState)
        ensures
            r.valid(),
            r.volume_id == 0,
            r.coord@ == seq![2800i32, 2500, 10852],
            r.ranges@ == seq![
                CoordRange { start: 0, end: 50000 },
                CoordRange { start: 0, end: 50000 },
                CoordRange { start: 0, end: 100000 },
            ],
            !r.drawing_config.enable_filters,
            r.drawing_config.threshold_min == 0,
            r.drawing_config.threshold_max == 0,
            r.drawing_config.quant == 0xff,
            r.drawing_config.mask_shift == 0,
            !r.drawing_config.draw_xyz_outlines,
            !r.drawing_config.draw_outline_vertices,
            !r.trilinear_interpolation,
            !r.show_segment_outlines,
            r.compositing == CompositingMode::NoCompositing,
            r.compositing_settings == CompositingSettings::new(),
            r.sync_coordinates,
            !r.has_overlay,
            r.show_overlay,
            r.catalog_panel_open,
            r.layout == GuiLayout::Grid,
            r.target_fps == 20,
            r.segment is None,
    {
        let coord: [i32; 3] = [2800, 2500, 10852];
        let ranges = [
            CoordRange { start: 0, end: 50000 },
            CoordRange { start: 0, end: 50000 },
            CoordRange { start: 0, end: 100000 },
        ];
        assert(coord@ =~= seq![2800i32, 2500, 10852]);
        assert(ranges@ =~= seq![
            CoordRange { start: 0, end: 50000 },
            CoordRange { start: 0, end: 50000 },
            CoordRange { start: 0, end: 100000 },
        ]);
        ViewState {
            volume_id: 0,
            coord,
            ranges,
            drawing_config: DrawingConfig::default(),
            trilinear_interpolation: false,
            show_segment_outlines: false,
            compositing: CompositingMode::NoCompositing,
            compositing_settings: CompositingSettings::new(),
            sync_coordinates: true,
            has_overlay: false,
            show_overlay: true,
            catalog_panel_open: true,
            layout: GuiLayout::Grid,
            target_fps: 20,
            segment: None,
        }
    }

    pub fn is_segment_mode(&self) -> (r: bool)
        ensures
            r == (self.segment is Some),
    {
        self.segment.is_some()
    }

    pub fn should_sync_coords(&self) -> (r: bool)
        ensures
            r == self.syncs(),
    {
        self.segment.is_some() && self.sync_coordinates
    }

    /// Lets the volume follow the surface, whose point lies at `res` in the volume. A point with
    /// a negative coordinate is outside of the volume and changes nothing.
    pub fn sync_coords(&mut self, res: [i32; 3])
        requires
            old(self).valid(),
        ensures
            final(self).valid(),
            *final(self) == (if old(self).syncs() && res@[0] >= 0 && res@[1] >= 0 && res@[2] >= 0 {
                ViewState { coord: res, ..*old(self) }
            } else {
                *old(self)
            }),
    {
        if self.should_sync_coords() && res[0] >= 0 && res[1] >= 0 && res[2] >= 0 {
            self.coord = res;
        }
    }

    /// Chooses a volume, and tells which one to load. With a segment it is the first scroll.
    pub fn select_volume(&mut self, id: usize) -> (index: usize)
        requires
            old(self).valid(),
            id < known_volumes().len(),
        ensures
            final(self).valid(),
            index == (if old(self).segment is Some {
                0
            } else {
                id
            }),
            *final(self) == (ViewState { volume_id: index, ..*old(self) }),
            index < known_volumes().len(),
    {
        self.volume_id = if self.segment.is_some() {
            0
        } else {
            id
        };
        self.volume_id
    }

    /// Shows no segment any more. The surface pane goes with it.
    pub fn unload_segment(&mut self)
        requires
            old(self).valid(),
        ensures
            final(self).valid(),
            *final(self) == (ViewState {
                segment: None,
                layout: if old(self).layout == GuiLayout::UV {
                    GuiLayout::Grid
                } else {
                    old(self).layout
                },
                ..*old(self)
            }),
    {
        self.segment = None;
        if self.layout == GuiLayout::UV {
            self.layout = GuiLayout::Grid;
        }
    }

    fn set_layer(&mut self, layer: i32)
        requires
            old(self).valid(),
            old(self).segment is Some,
        ensures
            final(self).valid(),
            layer_set(*old(self), *final(self), layer),
    {
        let mut taken: Option<SegmentMode> = None;
        std::mem::swap(&mut taken, &mut self.segment);
        if let Some(s) = taken {
            let mut segment = s;
            segment.coord[2] = layer;
            self.segment = Some(segment);
        }
    }

    /// A key was pressed.
    pub fn press(&mut self, key: Key, ctrl: bool) -> (effects: Effects)
        requires
            old(self).valid(),
        ensures
            final(self).valid(),
            key_does(*old(self), *final(self), key, ctrl),
            effects == (Effects {
                sync: old(self).segment is Some && (key is J || key is K || key == Key::Num(0)),
                rebuild_overlay: false,
                rebuild_segment: old(self).segment is Some && old(self).has_overlay && key is L,
            }),
    {
        let surface = self.segment.is_some();
        let mut effects = nothing();
        match key {
            Key::F => {
                self.drawing_config.enable_filters = !self.drawing_config.enable_filters;
            },
            Key::L => {
                if self.has_overlay {
                    self.show_overlay = !self.show_overlay;
                    effects.rebuild_segment = surface;
                }
            },
            Key::C => {
                self.catalog_panel_open = !self.catalog_panel_open;
            },
            Key::I => {
                if surface {
                    self.trilinear_interpolation = !self.trilinear_interpolation;
                }
            },
            Key::O => {
                if surface {
                    self.show_segment_outlines = !self.show_segment_outlines;
                }
            },
            Key::P => {
                if surface {
                    self.drawing_config.draw_outline_vertices = !self.drawing_config.draw_outline_vertices;
                }
            },
            Key::S => {
                if surface {
                    self.sync_coordinates = !self.sync_coordinates;
                }
            },
            Key::X => {
                if surface {
                    self.drawing_config.draw_xyz_outlines = !self.drawing_config.draw_xyz_outlines;
                }
            },
            Key::A => {
                if surface {
                    self.compositing = toggle(self.compositing, CompositingMode::Alpha);
                }
            },
            Key::M => {
                if surface {
                    self.compositing = toggle(self.compositing, CompositingMode::Max);
                }
            },
            Key::H => {
                if surface {
                    self.compositing = toggle(self.compositing, CompositingMode::AlphaHeightMap);
                }
            },
            Key::J => {
                if let Some(s) = &self.segment {
                    let range = s.ranges[2];
                    let c: i32 = s.coord[2];
                    let layer: i32 = if c > range.start {
                        c - 1
                    } else {
                        range.start
                    };
                    self.set_layer(layer);
                    effects.sync = true;
                }
            },
            Key::K => {
                if let Some(s) = &self.segment {
                    let range = s.ranges[2];
                    let c: i32 = s.coord[2];
                    let layer: i32 = if c < range.end {
                        c + 1
                    } else {
                        range.end
                    };
                    self.set_layer(layer);
                    effects.sync = true;
                }
            },
            Key::Num(n) => {
                if n == 0 && surface {
                    self.set_layer(0);
                    effects.sync = true;
                } else if n == 1 && !ctrl {
                    self.layout = GuiLayout::Grid;
                } else if n == 2 && !ctrl {
                    self.layout = GuiLayout::XY;
                } else if n == 3 && !ctrl {
                    self.layout = GuiLayout::XZ;
                } else if n == 4 && !ctrl {
                    self.layout = GuiLayout::YZ;
                } else if n == 5 && surface {
                    self.layout = GuiLayout::UV;
                }
            },
        }
        effects
    }

    fn move_volume(&mut self, i: usize, v: i32)
        requires
            old(self).valid(),
        ensures
            final(self).valid(),
            control_does(*old(self), *final(self), Control::Coordinate(i, v)),
    {
        if !self.should_sync_coords() && i < 3 {
            assert(self.ranges@[i as int].valid());
            let c: i32 = self.ranges[i].clamp_to(v as i64);
            self.coord[i] = c;
        }
    }

    fn move_surface(&mut self, i: usize, v: i32)
        requires
            old(self).valid(),
        ensures
            final(self).valid(),
            control_does(*old(self), *final(self), Control::Surface(i, v)),
    {
        if i < 3 {
            let mut taken: Option<SegmentMode> = None;
            std::mem::swap(&mut taken, &mut self.segment);
            if let Some(s) = taken {
                let mut segment = s;
                assert(segment.ranges@[i as int].valid());
                let c: i32 = segment.ranges[i].clamp_to(v as i64);
                segment.coord[i] = c;
                self.segment = Some(segment);
            }
        }
    }

    fn change_filter(&mut self, control: Control)
        requires
            old(self).valid(),
            control is EnableFilters || control is ThresholdMin || control is ThresholdMax || control
                is MaskBits || control is MaskShift,
        ensures
            final(self).valid(),
            control_does(*old(self), *final(self), control),
    {
        let enabled = self.drawing_config.enable_filters;
        match control {
            Control::EnableFilters(v) => {
                self.drawing_config.enable_filters = v;
            },
            _ if !enabled => {},
            Control::ThresholdMin(v) => {
                let limit: u8 = 254 - self.drawing_config.threshold_max;
                self.drawing_config.threshold_min = if v > limit {
                    limit
                } else {
                    v
                };
            },
            Control::ThresholdMax(v) => {
                let limit: u8 = 254 - self.drawing_config.threshold_min;
                self.drawing_config.threshold_max = if v > limit {
                    limit
                } else {
                    v
                };
            },
            Control::MaskBits(v) => {
                self.drawing_config.quant = if v < 1 {
                    1
                } else if v > 8 {
                    8
                } else {
                    v
                };
            },
            Control::MaskShift(v) => {
                self.drawing_config.mask_shift = if v > 7 {
                    7
                } else {
                    v
                };
            },
            _ => {},
        }
    }

    fn change_surface(&mut self, control: Control)
        requires
            old(self).valid(),
            control is Trilinear || control is SegmentOutlines || control is OutlinePoints || control
                is SyncCoordinates || control is XyzOutline || control is Compositing,
        ensures
            final(self).valid(),
            control_does(*old(self), *final(self), control),
    {
        if self.segment.is_none() {
            return;
        }
        match control {
            Control::Trilinear(v) => {
                self.trilinear_interpolation = v;
            },
            Control::SegmentOutlines(v) => {
                self.show_segment_outlines = v;
            },
            Control::OutlinePoints(v) => {
                self.drawing_config.draw_outline_vertices = v;
            },
            Control::SyncCoordinates(v) => {
                self.sync_coordinates = v;
            },
            Control::XyzOutline(v) => {
                self.drawing_config.draw_xyz_outlines = v;
            },
            Control::Compositing(m) => {
                self.compositing = m;
            },
            _ => {},
        }
    }

    fn change_layers(&mut self, control: Control)
        requires
            old(self).valid(),
        ensures
            final(self).valid(),
            *final(self) == (ViewState {
                compositing_settings: settings_after(*old(self), control),
                ..*old(self)
            }),
    {
        if self.segment.is_none() {
            return;
        }
        let alpha = self.compositing == CompositingMode::Alpha || self.compositing
            == CompositingMode::AlphaHeightMap;
        let mut settings = self.compositing_settings;
        match control {
            Control::LayersInFront(v) => {
                settings.layers_in_front = if v > 100 {
                    100
                } else {
                    v
                };
            },
            Control::LayersBehind(v) => {
                settings.layers_behind = if v > 100 {
                    100
                } else {
                    v
                };
            },
            Control::AlphaMin(v) if alpha => {
                settings.alpha_min = v;
            },
            Control::AlphaMax(v) if alpha => {
                settings.alpha_max = v;
            },
            Control::AlphaThreshold(v) if alpha => {
                settings.alpha_threshold = if v > 10000 {
                    10000
                } else {
                    v
                };
            },
            Control::Opacity(v) if alpha => {
                settings.opacity = if v > 300 {
                    300
                } else {
                    v
                };
            },
            Control::ReverseDirection(v) if alpha => {
                settings.reverse_direction = v;
            },
            _ => {},
        }
        self.compositing_settings = settings;
    }

    fn effects_of(&self, control: Control) -> (effects: Effects)
        ensures
            effects == control_effects(*self, control),
    {
        let surface = self.segment.is_some();
        let mut effects = nothing();
        match control {
            Control::ShowOverlay(_) => {
                effects.sync = self.has_overlay;
                effects.rebuild_segment = self.has_overlay && surface;
            },
            Control::Surface(_, _) | Control::Trilinear(_) | Control::SegmentOutlines(_)
            | Control::OutlinePoints(_) | Control::SyncCoordinates(_) => {
                effects.sync = surface;
            },
            Control::OverlayColoring => {
                effects.rebuild_overlay = self.has_overlay;
                effects.rebuild_segment = self.has_overlay && surface;
            },
            _ => {},
        }
        effects
    }

    /// A control got another value. Sliders keep to their ranges.
    pub fn change(&mut self, control: Control) -> (effects: Effects)
        requires
            old(self).valid(),
        ensures
            final(self).valid(),
            control_does(*old(self), *final(self), control),
            effects == control_effects(*old(self), control),
    {
        let effects = self.effects_of(control);
        match control {
            Control::Coordinate(i, v) => self.move_volume(i, v),
            Control::Surface(i, v) => self.move_surface(i, v),
            Control::ShowOverlay(v) => {
                if self.has_overlay {
                    self.show_overlay = v;
                }
            },
            Control::Trilinear(_) | Control::SegmentOutlines(_) | Control::OutlinePoints(_)
            | Control::SyncCoordinates(_) | Control::XyzOutline(_) | Control::Compositing(_) => {
                self.change_surface(control);
            },
            Control::LayersInFront(_) | Control::LayersBehind(_) | Control::AlphaMin(_)
            | Control::AlphaMax(_) | Control::AlphaThreshold(_) | Control::Opacity(_)
            | Control::ReverseDirection(_) => {
                self.change_layers(control);
            },
            Control::OverlayColoring => {},
            Control::EnableFilters(_) | Control::ThresholdMin(_) | Control::ThresholdMax(_)
            | Control::MaskBits(_) | Control::MaskShift(_) => {
                self.change_filter(control);
            },
            Control::TargetFps(v) => {
                self.target_fps = if v < 1 {
                    1
                } else if v > 60 {
                    60
                } else {
                    v
                };
            },
        }
        effects
    }

    /// The file is the one that is shown already.
    pub fn is_reload(&self, file: &str) -> (r: bool)
        ensures
            r == (self.segment matches Some(s) && s.filename@ == file@),
    {
        match &self.segment {
            Some(s) => s.filename == file.to_string(),
            None => false,
        }
    }

    /// The mesh that was read for a file can be used again.
    pub fn reuses_mesh(&self, file: &str, projection: &ProjectionKind) -> (r: bool)
        ensures
            r == (self.segment matches Some(s) && s.filename@ == file@ && s.has_mesh && projection
                is NoProjection),
    {
        match (&self.segment, projection) {
            (Some(s), ProjectionKind::NoProjection) => s.filename == file.to_string() && s.has_mesh,
            _ => false,
        }
    }

    /// Shows a segment whose surface has the given size. `coord` is where to go on if the file is
    /// the one that is shown already.
    pub fn setup_segment(
        &mut self,
        segment_file: &str,
        width: i32,
        height: i32,
        coord: [i32; 3],
        mesh: bool,
        atlas: Option<AtlasIds>,
    )
        requires
            old(self).valid(),
            width >= 0,
            height >= 0,
        ensures
            final(self).valid(),
            same_but_segment(*old(self), *final(self)),
            final(self).segment is Some,
            match old(self).segment {
                Some(s) => set_up(
                    s,
                    final(self).segment->0,
                    segment_file@,
                    width,
                    height,
                    coord,
                    mesh,
                    atlas,
                ),
                None => exists|s: SegmentMode|
                    s.filename@ == ""@ && s.info@ == ""@ && s.current_base_volume_id is None
                        && s.available_volumes@.len() == 0
                        && #[trigger] set_up(
                        s,
                        final(self).segment->0,
                        segment_file@,
                        width,
                        height,
                        coord,
                        mesh,
                        atlas,
                    ),
            },
    {
        let mut taken: Option<SegmentMode> = None;
        std::mem::swap(&mut taken, &mut self.segment);
        let mut segment: SegmentMode = match taken {
            Some(s) => s,
            None => SegmentMode::new(),
        };
        let ghost before = segment;
        let file = segment_file.to_string();
        if segment.filename == file {
            segment.coord = coord;
        } else {
            segment.coord = [width / 2, height / 2, 0];
            assert(segment.coord@ =~= seq![(width / 2) as i32, (height / 2) as i32, 0i32]);
            segment.filename = file;
            segment.info = segment_file.to_string();
        }
        segment.width = width as usize;
        segment.height = height as usize;
        segment.ranges = ranges_of(width, height);
        segment.has_mesh = mesh;
        let ghost ids = atlas;
        match atlas {
            Some(ids) => {
                segment.sample_id = Some(ids.sample_id);
                segment.segment_id = Some(ids.segment_id);
            },
            None => {
                segment.sample_id = None;
                segment.segment_id = None;
                segment.current_base_volume_id = None;
                segment.available_volumes = Vec::new();
            },
        }
        assert(set_up(before, segment, segment_file@, width, height, coord, mesh, ids));
        self.segment = Some(segment);
    }

    /// The panes that are shown, row by row.
    pub open spec fn shown_panes(&self) -> Seq<VolumePane> {
        let xy = VolumePane { pane_type: PaneType::XY, is_segment_pane: false };
        let xz = VolumePane { pane_type: PaneType::XZ, is_segment_pane: false };
        let yz = VolumePane { pane_type: PaneType::YZ, is_segment_pane: false };
        let uv = VolumePane { pane_type: PaneType::UV, is_segment_pane: true };
        match self.layout {
            GuiLayout::Grid => if self.segment is Some {
                seq![xy, xz, yz, uv]
            } else {
                seq![xy, xz, yz]
            },
            GuiLayout::XY => seq![xy],
            GuiLayout::XZ => seq![xz],
            GuiLayout::YZ => seq![yz],
            GuiLayout::UV => if self.segment is Some {
                seq![uv]
            } else {
                Seq::empty()
            },
        }
    }

    /// Lists [`Self::shown_panes`].
    pub fn panes(&self) -> (r: Vec<VolumePane>)
        ensures
            r@ == self.shown_panes(),
    {
        let xy = VolumePane::new(PaneType::XY, false);
        let xz = VolumePane::new(PaneType::XZ, false);
        let yz = VolumePane::new(PaneType::YZ, false);
        let uv = VolumePane::new(PaneType::UV, true);
        let mut r: Vec<VolumePane> = Vec::new();
        match self.layout {
            GuiLayout::Grid => {
                r.push(xy);
                r.push(xz);
                r.push(yz);
                if self.segment.is_some() {
                    r.push(uv);
                }
            },
            GuiLayout::XY => r.push(xy),
            GuiLayout::XZ => r.push(xz),
            GuiLayout::YZ => r.push(yz),
            GuiLayout::UV => {
                if self.segment.is_some() {
                    r.push(uv);
                }
            },
        }
        assert(r@ =~= self.shown_panes());
        r
    }

    /// The point of the surface that is marked on the panes of the volume.
    pub fn outlines_coord(&self) -> (r: Option<[i32; 3]>)
        ensures
            r == (match self.segment {
                Some(s) => Some(s.coord),
                None => None,
            }),
    {
        match &self.segment {
            Some(s) => Some(s.coord),
            None => None,
        }
    }
}

/// The filters are usable in every state: keys and controls keep it valid.
pub proof fn filters_are_always_usable(state: ViewState)
    requires
        state.valid(),
    ensures
        state.drawing_config.usable(),
{
}

/// Following the surface never leads to a negative coordinate.
pub proof fn synced_points_are_not_negative(before: ViewState, after: ViewState, res: [i32; 3])
    requires
        before.coord@[0] >= 0 && before.coord@[1] >= 0 && before.coord@[2] >= 0,
        after == (if before.syncs() && res@[0] >= 0 && res@[1] >= 0 && res@[2] >= 0 {
            ViewState { coord: res, ..before }
        } else {
            before
        }),
    ensures
        after.coord@[0] >= 0 && after.coord@[1] >= 0 && after.coord@[2] >= 0,
{
}

/// A key that switches a mode on switches it off again.
pub proof fn switches_are_undone(before: ViewState, middle: ViewState, after: ViewState, key: Key)
    requires
        key is F || key is L || key is C || key is I || key is O || key is P || key is S || key is X,
        key_does(before, middle, key, false),
        key_does(middle, after, key, false),
    ensures
        after == before,
{
}

/// What follows from the news that the mesh of a segment was fetched: it is shown if it is still
/// the one that is waited for, and its file is there.
pub fn shows_fetched(waited_for: Option<&Segment>, fetched: &Segment, file_is_there: bool) -> (r: bool)
    ensures
        r == (file_is_there && waited_for is Some && waited_for->0.same(*fetched)),
{
    match waited_for {
        Some(s) => file_is_there && s.is_same(fetched),
        None => false,
    }
}

/// What to do about a segment that was chosen in the catalog.
#[derive(Clone, Copy, PartialEq, Eq, Structural)]
pub enum CatalogAction {
    /// It lies in no known volume.
    Ignore,
    Show,
    Download,
}

/// A segment of the catalog was clicked.
pub fn clicked(segment: &Segment, file_is_there: bool) -> (r: CatalogAction)
    ensures
        r == (if segment.volume is None {
            CatalogAction::Ignore
        } else if file_is_there {
            CatalogAction::Show
        } else {
            CatalogAction::Download
        }),
{
    if segment.volume.is_none() {
        CatalogAction::Ignore
    } else if file_is_there {
        CatalogAction::Show
    } else {
        CatalogAction::Download
    }
}

/// The colour of a name in the catalog.
#[derive(Clone, Copy, PartialEq, Eq, Structural)]
pub enum NameColor {
    Plain,
    /// Dark green: the mesh is there.
    Cached,
    /// Yellow: the mesh is being fetched.
    Fetching,
}

/// The name of a segment that is being fetched blinks, every 600 milliseconds.
pub fn name_color(cached: bool, fetching: bool, millis: u64) -> (r: NameColor)
    ensures
        r == (if cached {
            NameColor::Cached
        } else if fetching && millis as int / 600 % 2 == 0 {
            NameColor::Fetching
        } else {
            NameColor::Plain
        }),
{
    if cached {
        NameColor::Cached
    } else if fetching && millis / 600 % 2 == 0 {
        NameColor::Fetching
    } else {
        NameColor::Plain
    }
}

/// The picture of a segment's mask.
pub fn mask_image_url(segment: &Segment) -> (r: String)
    ensures
        r@ == "https://vesuvius.virtual-void.net/scroll/"@ + segment.scroll.old_id@ + "/segment/"@
            + segment.id@ + "/mask?ext=png&width=50&height=25"@,
{
    let mut r = "https://vesuvius.virtual-void.net/scroll/".to_string();
    r.append(segment.scroll.old_id.as_str());
    r.append("/segment/");
    r.append(segment.id.as_str());
    r.append("/mask?ext=png&width=50&height=25");
    r
}

/// The volume that a digit with the control key chooses among those of a segment.
pub fn volume_shortcut(n: u8, ctrl: bool, volumes: usize) -> (r: Option<usize>)
    ensures
        r == (if ctrl && 1 <= n <= 9 && n <= volumes {
            Some((n - 1) as usize)
        } else {
            None
        }),
{
    if ctrl && 1 <= n && n <= 9 && (n as usize) <= volumes {
        Some(n as usize - 1)
    } else {
        None
    }
}

/// Going a layer away and back again ends where it began, unless the end of the range stopped it. A step
/// goes to the next layer and never leaves the range.
pub proof fn layers_are_passed_one_by_one(c: i32, range: CoordRange)
    requires
        range.valid(),
        range.contains(c as int),
    ensures
        range.contains(layer_up(c, range) as int) && range.contains(layer_down(c, range) as int),
        c < range.end ==> layer_up(c, range) - c == 1 && layer_down(layer_up(c, range), range) == c,
        c > range.start ==> c - layer_down(c, range) == 1 && layer_up(layer_down(c, range), range) == c,
        layer_up(range.end, range) == range.end,
        layer_down(range.start, range) == range.start,
{
}

/// A key turns its own mode on, whatever was on before, and pressed again turns everything off.
pub proof fn modes_are_switched_off_by_their_key(mode: CompositingMode, key_mode: CompositingMode)
    requires
        key_mode != CompositingMode::NoCompositing,
    ensures
        toggled(mode, key_mode) == key_mode || toggled(mode, key_mode) == CompositingMode::NoCompositing,
        toggled(mode, key_mode) == key_mode <==> mode != key_mode,
        toggled(toggled(mode, key_mode), key_mode) == CompositingMode::NoCompositing <==> mode != key_mode,
{
}

/// Without a segment the keys for surfaces do nothing; the others work all the same.
pub proof fn surface_keys_need_a_segment(before: ViewState, after: ViewState, key: Key, ctrl: bool)
    requires
        key_does(before, after, key, ctrl),
        before.segment is None,
    ensures
        after.segment is None,
        key is A || key is H || key is I || key is J || key is K || key is M || key is O || key is P || key
            is S || key is X ==> after == before,
        key is F ==> after.drawing_config.enable_filters != before.drawing_config.enable_filters,
        key is C ==> after.catalog_panel_open != before.catalog_panel_open,
        key is L ==> (after.show_overlay != before.show_overlay <==> before.has_overlay),
        key == Key::Num(5) ==> after.layout == before.layout,
{
}

/// With a segment each key changes what it is named for, and nothing that another key is named for.
pub proof fn keys_change_one_thing(before: ViewState, after: ViewState, key: Key, ctrl: bool)
    requires
        key_does(before, after, key, ctrl),
        before.segment is Some,
    ensures
        after.drawing_config.enable_filters != before.drawing_config.enable_filters <==> key is F,
        after.show_overlay != before.show_overlay <==> key is L && before.has_overlay,
        after.catalog_panel_open != before.catalog_panel_open <==> key is C,
        after.trilinear_interpolation != before.trilinear_interpolation <==> key is I,
        after.show_segment_outlines != before.show_segment_outlines <==> key is O,
        after.drawing_config.draw_outline_vertices != before.drawing_config.draw_outline_vertices <==> key
            is P,
        after.sync_coordinates != before.sync_coordinates <==> key is S,
        after.drawing_config.draw_xyz_outlines != before.drawing_config.draw_xyz_outlines <==> key is X,
        after.compositing != before.compositing <==> key is A || key is M || key is H,
        key is A && after.compositing != CompositingMode::NoCompositing ==> after.compositing
            == CompositingMode::Alpha,
        key is M && after.compositing != CompositingMode::NoCompositing ==> after.compositing
            == CompositingMode::Max,
        key is H && after.compositing != CompositingMode::NoCompositing ==> after.compositing
            == CompositingMode::AlphaHeightMap,
        after.layout != before.layout ==> key is Num,
        after.coord == before.coord && after.volume_id == before.volume_id && after.ranges == before.ranges,
        after.segment is Some,
        after.segment->0.coord@[0] == before.segment->0.coord@[0],
        after.segment->0.coord@[1] == before.segment->0.coord@[1],
        key is J && before.segment->0.coord@[2] > before.segment->0.ranges@[2].start
            ==> after.segment->0.coord@[2] == before.segment->0.coord@[2] - 1,
        key is K && before.segment->0.coord@[2] < before.segment->0.ranges@[2].end
            ==> after.segment->0.coord@[2] == before.segment->0.coord@[2] + 1,
        key == Key::Num(0) ==> after.segment->0.coord@[2] == 0,
        !(key is J || key is K || key == Key::Num(0)) ==> after.segment == before.segment,
{
}

/// The digits from 1 to 4 choose the grid and the three planes of the volume, and 5 the surface if there
/// is one. The control key takes the first four away.
pub proof fn digits_choose_the_layout(state: ViewState, n: u8, ctrl: bool)
    ensures
        !ctrl ==> digit_layout(state, 1, ctrl) is Grid && digit_layout(state, 2, ctrl) is XY && digit_layout(
            state,
            3,
            ctrl,
        ) is XZ && digit_layout(state, 4, ctrl) is YZ,
        state.segment is Some ==> digit_layout(state, 5, ctrl) is UV,
        state.segment is None ==> digit_layout(state, 5, ctrl) == state.layout,
        ctrl && n != 5 ==> digit_layout(state, n, ctrl) == state.layout,
        n == 0 || n > 5 ==> digit_layout(state, n, ctrl) == state.layout,
{
}

/// A value within the limits stays, and one outside becomes the limit that it passed.
pub proof fn limits_hold(v: int, low: int, high: int, other: u8)
    requires
        low <= high,
    ensures
        low <= limited(v, low, high) <= high,
        low <= v <= high ==> limited(v, low, high) == v,
        v <= low ==> limited(v, low, high) == low,
        v >= high ==> limited(v, low, high) == high,
        other <= 254 ==> threshold_limit(other) + other == 254,
        other == 255 ==> threshold_limit(other) == 0,
{
}

/// A slider of the layers sets its own value and no other, within its limits. What concerns opacity is set
/// only where layers are put together by it.
pub proof fn layer_sliders_set_their_value(before: ViewState, n: u8, m: u32, on: bool)
    requires
        before.segment is Some,
        before.compositing is Alpha || before.compositing is AlphaHeightMap,
    ensures
        ({
            let old_settings = before.compositing_settings;
            let front = settings_after(before, Control::LayersInFront(n));
            let behind = settings_after(before, Control::LayersBehind(n));
            let threshold = settings_after(before, Control::AlphaThreshold(m));
            let opacity = settings_after(before, Control::Opacity(m));
            &&& front.layers_behind == old_settings.layers_behind && front.opacity == old_settings.opacity
            &&& n <= 100 ==> front.layers_in_front == n && behind.layers_behind == n
            &&& n > 100 ==> front.layers_in_front == 100 && behind.layers_behind == 100
            &&& behind.layers_in_front == old_settings.layers_in_front
            &&& settings_after(before, Control::AlphaMin(n)).alpha_min == n
            &&& settings_after(before, Control::AlphaMin(n)).alpha_max == old_settings.alpha_max
            &&& settings_after(before, Control::AlphaMax(n)).alpha_max == n
            &&& settings_after(before, Control::AlphaMax(n)).alpha_min == old_settings.alpha_min
            &&& threshold.opacity == old_settings.opacity && threshold.alpha_threshold <= 10000
            &&& m <= 10000 ==> threshold.alpha_threshold == m
            &&& opacity.alpha_threshold == old_settings.alpha_threshold && opacity.opacity <= 300
            &&& m <= 300 ==> opacity.opacity == m
            &&& settings_after(before, Control::ReverseDirection(on)).reverse_direction == on
        }),
{
}

/// Without a segment no slider of the layers does anything, and without opacity none that concerns it.
pub proof fn layer_sliders_need_a_surface(before: ViewState, control: Control)
    ensures
        before.segment is None ==> settings_after(before, control) == before.compositing_settings,
        !(before.compositing is Alpha || before.compositing is AlphaHeightMap) && !(control is LayersInFront
            || control is LayersBehind) ==> settings_after(before, control) == before.compositing_settings,
{
}

/// The filters are set only while they are on. The two thresholds always leave something between them,
/// a mask has one to eight bits and is moved by at most seven.
pub proof fn filters_keep_their_limits(config: DrawingConfig, control: Control, v: u8, on: bool)
    requires
        config.threshold_min + config.threshold_max < 255,
    ensures
        filters_after(config, Control::EnableFilters(on)).enable_filters == on,
        !config.enable_filters && !(control is EnableFilters) ==> filters_after(config, control) == config,
        filters_after(config, control).threshold_min + filters_after(config, control).threshold_max < 255,
        config.enable_filters ==> {
            let low = filters_after(config, Control::ThresholdMin(v));
            let high = filters_after(config, Control::ThresholdMax(v));
            let bits = filters_after(config, Control::MaskBits(v));
            let shift = filters_after(config, Control::MaskShift(v));
            &&& v + config.threshold_max < 255 ==> low.threshold_min == v
            &&& v + config.threshold_min < 255 ==> high.threshold_max == v
            &&& low.threshold_max == config.threshold_max && high.threshold_min == config.threshold_min
            &&& 1 <= bits.quant <= 8 && (1 <= v <= 8 ==> bits.quant == v)
            &&& shift.mask_shift <= 7 && (v <= 7 ==> shift.mask_shift == v)
            &&& bits.mask_shift == config.mask_shift && shift.quant == config.quant
        },
{
}

/// A slider of a coordinate moves that coordinate alone, and no further than its range goes. The volume
/// cannot be moved while it follows the surface.
pub proof fn coordinate_sliders_move_one_coordinate(
    before: ViewState,
    after: ViewState,
    surface_after: ViewState,
    i: usize,
    j: int,
    v: i32,
)
    requires
        before.valid(),
        i < 3,
        0 <= j < 3,
        control_does(before, after, Control::Coordinate(i, v)),
        control_does(before, surface_after, Control::Surface(i, v)),
    ensures
        before.segment is Some && before.sync_coordinates ==> after == before,
        !before.syncs() && before.ranges@[i as int].contains(v as int) ==> after.coord@[i as int] == v,
        !before.syncs() ==> before.ranges@[i as int].contains(after.coord@[i as int] as int),
        j != i ==> after.coord@[j] == before.coord@[j],
        after.segment == before.segment && after.layout == before.layout && after.volume_id
            == before.volume_id,
        before.segment is None ==> surface_after == before,
        surface_after.coord == before.coord,
        before.segment is Some ==> {
            let range = before.segment->0.ranges@[i as int];
            &&& surface_after.segment is Some
            &&& range.contains(surface_after.segment->0.coord@[i as int] as int)
            &&& range.contains(v as int) ==> surface_after.segment->0.coord@[i as int] == v
            &&& j != i ==> surface_after.segment->0.coord@[j] == before.segment->0.coord@[j]
        },
{
}

/// A switch sets what it is named for; those for surfaces need a segment, and the one for the overlay an
/// overlay.
pub proof fn switches_set_what_they_are_named_for(before: ViewState, after: ViewState, v: bool, m: CompositingMode, fps: u32)
    requires
        before.segment is Some,
    ensures
        control_does(before, after, Control::ShowOverlay(v)) && before.has_overlay ==> after.show_overlay == v,
        control_does(before, after, Control::ShowOverlay(v)) && !before.has_overlay ==> after == before,
        control_does(before, after, Control::Trilinear(v)) ==> after.trilinear_interpolation == v
            && after.show_segment_outlines == before.show_segment_outlines,
        control_does(before, after, Control::SegmentOutlines(v)) ==> after.show_segment_outlines == v
            && after.trilinear_interpolation == before.trilinear_interpolation,
        control_does(before, after, Control::OutlinePoints(v)) ==> after.drawing_config.draw_outline_vertices
            == v && after.drawing_config.draw_xyz_outlines == before.drawing_config.draw_xyz_outlines,
        control_does(before, after, Control::XyzOutline(v)) ==> after.drawing_config.draw_xyz_outlines == v
            && after.drawing_config.draw_outline_vertices == before.drawing_config.draw_outline_vertices,
        control_does(before, after, Control::SyncCoordinates(v)) ==> after.sync_coordinates == v,
        control_does(before, after, Control::Compositing(m)) ==> after.compositing == m,
        control_does(before, after, Control::OverlayColoring) ==> after == before,
        control_does(before, after, Control::TargetFps(fps)) ==> 1 <= after.target_fps <= 60 && (1 <= fps <= 60
            ==> after.target_fps == fps),
{
}

/// What concerns the surface makes the volume follow it, and a change of the overlay puts it together
/// anew where it is shown on a surface.
pub proof fn controls_have_their_effects(before: ViewState, control: Control)
    ensures
        control_effects(before, control).rebuild_overlay <==> control is OverlayColoring
            && before.has_overlay,
        control_effects(before, control).rebuild_segment <==> (control is OverlayColoring || control
            is ShowOverlay) && before.has_overlay && before.segment is Some,
        control_effects(before, control).sync <==> (control is ShowOverlay && before.has_overlay) || (
        before.segment is Some && (control is Surface || control is Trilinear || control is SegmentOutlines
            || control is OutlinePoints || control is SyncCoordinates)),
{
}

/// A surface reaches from its corner over its width and height, and forty layers to either side.
pub proof fn surfaces_reach_over_their_size(width: i32, height: i32, c: int)
    ensures
        surface_ranges(width, height).len() == 3,
        surface_ranges(width, height)[0].contains(c) <==> 0 <= c <= width,
        surface_ranges(width, height)[1].contains(c) <==> 0 <= c <= height,
        surface_ranges(width, height)[2].contains(c) <==> -40 <= c <= 40,
{
}

/// A new file is shown from its middle on the surface, a file that was shown goes on where it was. The
/// middle lies in the surface.
pub proof fn new_files_start_in_their_middle(
    before: SegmentMode,
    after: SegmentMode,
    file: Seq<char>,
    width: i32,
    height: i32,
    coord: [i32; 3],
    mesh: bool,
    atlas: Option<AtlasIds>,
)
    requires
        width >= 0,
        height >= 0,
        set_up(before, after, file, width, height, coord, mesh, atlas),
    ensures
        after.filename@ == file,
        before.filename@ == file ==> after.coord == coord && after.info == before.info,
        before.filename@ != file ==> {
            &&& after.info@ == file
            &&& width - 1 <= after.coord@[0] + after.coord@[0] <= width
            &&& height - 1 <= after.coord@[1] + after.coord@[1] <= height
            &&& after.coord@[2] == 0
            &&& after.ranges@[0].contains(after.coord@[0] as int)
            &&& after.ranges@[1].contains(after.coord@[1] as int)
        },
        after.width == width && after.height == height && after.has_mesh == mesh,
        atlas is None ==> after.sample_id is None && after.segment_id is None
            && after.current_base_volume_id is None && after.available_volumes@.len() == 0,
        atlas matches Some(ids) ==> after.sample_id == Some(ids.sample_id) && after.segment_id == Some(
            ids.segment_id,
        ),
{
}

/// The grid shows the three planes of the volume, and the surface behind them if there is one. Any other
/// layout shows one pane at most, and the surface is shown only with a segment.
pub proof fn layouts_show_their_panes(state: ViewState, i: int)
    ensures
        state.layout is Grid ==> state.shown_panes().len() == (if state.segment is Some { 4int } else { 3 })
            && state.shown_panes()[0].pane_type is XY && state.shown_panes()[1].pane_type is XZ
            && state.shown_panes()[2].pane_type is YZ,
        !(state.layout is Grid) ==> state.shown_panes().len() <= 1,
        state.layout is XY ==> state.shown_panes().len() == 1 && state.shown_panes()[0].pane_type is XY,
        state.layout is XZ ==> state.shown_panes().len() == 1 && state.shown_panes()[0].pane_type is XZ,
        state.layout is YZ ==> state.shown_panes().len() == 1 && state.shown_panes()[0].pane_type is YZ,
        state.layout is UV ==> state.shown_panes().len() == (if state.segment is Some { 1int } else { 0 }),
        0 <= i < state.shown_panes().len() ==> (state.shown_panes()[i].is_segment_pane
            <==> state.shown_panes()[i].pane_type is UV) && (state.shown_panes()[i].pane_type is UV
            ==> state.segment is Some),
{
}

} // verus!
