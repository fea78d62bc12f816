use vesuvius_gui::volume::generic::{
    AutoPaintVolume, Canvas, EmptyVolume, PaintVolume, SurfaceVolume, TrilinearInterpolatedVolume,
    VoxelVolume,
};
use vesuvius_gui::volume::image::{Color32, Image};
use vesuvius_gui::volume::overlay::{
    color_of, paint_colors, plane_pixels, ColorScheme, FourColors, GrayScale,
};
use vesuvius_gui::volume::rgb::RGBVolume;
use vesuvius_gui::volume::DrawingConfig;

const BLACK: Color32 = Color32 { r: 0, g: 0, b: 0, a: 255 };

/// Each voxel tells its coordinates.
struct Sums {}

impl VoxelVolume for Sums {
    fn get(&self, xyz: [i32; 3], downsampling: i32) -> u8 {
        let sum = xyz[0] * 100 + xyz[1] * 10 + xyz[2] + downsampling - 1;
        if 0 <= sum && sum < 256 {
            sum as u8
        } else {
            0
        }
    }
}

impl AutoPaintVolume for Sums {}

fn pixel(image: &Image, x: usize, y: usize) -> Color32 {
    image.data[y * image.width + x]
}

fn gray(l: u8) -> Color32 {
    Color32 { r: l, g: l, b: l, a: 255 }
}

fn config(min: u8, max: u8, quant: u8, shift: u8) -> DrawingConfig {
    DrawingConfig {
        enable_filters: true,
        threshold_min: min,
        threshold_max: max,
        quant,
        mask_shift: shift,
        ..DrawingConfig::default()
    }
}

#[test]
fn default_drawing_config_shows_everything() {
    let c = DrawingConfig::default();
    assert!(!c.filters_active());
    assert_eq!(c.bit_mask(), 0xff);
    for v in 0..=255u8 {
        assert_eq!(c.filter(v), v);
    }
}

#[test]
fn bit_masks() {
    assert_eq!(config(0, 0, 8, 0).bit_mask(), 0xff);
    assert_eq!(config(0, 0, 4, 0).bit_mask(), 0xf0);
    assert_eq!(config(0, 0, 1, 0).bit_mask(), 0x80);
    assert_eq!(config(0, 0, 1, 7).bit_mask(), 0x01);
    assert_eq!(config(0, 0, 4, 2).bit_mask(), 0x3c);
}

#[test]
fn filters_stretch_the_kept_range() {
    let c = config(100, 55, 8, 0);
    assert!(c.filters_active());
    assert_eq!(c.filter(0), 0);
    assert_eq!(c.filter(100), 0);
    assert_eq!(c.filter(150), 127);
    assert_eq!(c.filter(200), 255);
    assert_eq!(c.filter(255), 255);
}

#[test]
fn filters_keep_the_selected_bits() {
    let c = config(0, 0, 4, 0);
    assert!(c.filters_active());
    assert_eq!(c.filter(0x0f), 0);
    assert_eq!(c.filter(0x10), 17);
    assert_eq!(c.filter(0x8f), 136);
    assert_eq!(c.filter(0xff), 255);
}

#[test]
fn bit_planes_are_black_or_white() {
    for shift in 0..8 {
        let c = config(0, 0, 1, shift);
        for v in 0..=255u8 {
            let expected = if v & (0x80 >> shift) != 0 { 255 } else { 0 };
            assert_eq!(c.filter(v), expected);
        }
    }
}

#[test]
fn brighter_voxels_are_not_painted_darker() {
    for quant in 1..=8 {
        let c = config(20, 30, quant, 0);
        for v in 1..=255u8 {
            assert!(c.filter(v - 1) <= c.filter(v));
        }
    }
}

#[test]
fn disabled_filters_do_nothing() {
    let c = DrawingConfig { enable_filters: false, ..config(100, 50, 4, 1) };
    assert!(!c.filters_active());
    assert_eq!(c.filter(0x5a), 0x5a);
}

#[test]
fn images_are_painted_by_pixel() {
    let mut image = Image::new(3, 2);
    assert_eq!(image.data.len(), 6);
    assert!(pixel(&image, 2, 1) == BLACK);
    image.set_gray(2, 1, 77);
    image.set_rgb(0, 1, 1, 2, 3);
    image.set(1, 0, Color32 { r: 9, g: 8, b: 7, a: 6 });
    assert!(pixel(&image, 2, 1) == gray(77));
    assert!(pixel(&image, 0, 1) == Color32 { r: 1, g: 2, b: 3, a: 255 });
    assert!(pixel(&image, 1, 0) == Color32 { r: 9, g: 8, b: 7, a: 6 });
    assert!(pixel(&image, 0, 0) == BLACK);
    assert!(Color32::from_rgb(1, 2, 3) == Color32 { r: 1, g: 2, b: 3, a: 255 });
    assert!(Color32::from_gray(5) == gray(5));
}

#[test]
fn pixels_stand_for_world_points() {
    let canvas = Canvas {
        xyz: [10, 20, 30],
        u_coord: 0,
        v_coord: 2,
        plane_coord: 1,
        width: 4,
        height: 6,
        paint_zoom: 2,
    };
    assert_eq!(canvas.world(2, 3), [10, 20, 30]);
    assert_eq!(canvas.world(0, 0), [6, 20, 24]);
    assert_eq!(canvas.world(3, 5), [12, 20, 34]);
}

#[test]
fn volumes_paint_themselves() {
    let mut image = Image::new(3, 3);
    Sums {}.paint([1, 1, 1], 0, 1, 2, 3, 3, 1, 1, &DrawingConfig::default(), &mut image);
    assert!(pixel(&image, 0, 0) == gray(1));
    assert!(pixel(&image, 1, 1) == gray(111));
    assert!(pixel(&image, 2, 1) == gray(211));
    assert!(pixel(&image, 1, 2) == gray(121));
}

#[test]
fn coarser_voxels_are_painted() {
    let mut image = Image::new(1, 1);
    Sums {}.paint([3, 0, 4], 0, 1, 2, 1, 1, 2, 1, &config(0, 0, 1, 0), &mut image);
    assert!(pixel(&image, 0, 0) == gray(103));
}

#[test]
fn the_empty_volume_is_black_and_paints_nothing() {
    let empty = EmptyVolume {};
    assert_eq!(empty.get([1, 2, 3], 1), 0);
    let mut image = Image::new(2, 2);
    image.set_gray(1, 1, 9);
    empty.paint([0, 0, 0], 0, 1, 2, 2, 2, 1, 1, &DrawingConfig::default(), &mut image);
    empty.paint_plane_intersection(
        [0, 0, 0], 0, 1, 2, 2, 2, 1, 1, None, &DrawingConfig::default(), &mut image,
    );
    assert!(pixel(&image, 1, 1) == gray(9));
    assert!(pixel(&image, 0, 0) == BLACK);
}

#[test]
fn corners_of_an_interpolated_point() {
    let volume = TrilinearInterpolatedVolume { base: Sums {} };
    assert_eq!(volume.corners([1, 1, 1], 1), [111, 211, 121, 221, 112, 212, 122, 222]);
    assert_eq!(volume.corners([0, 0, 0], 2), [1, 101, 11, 111, 2, 102, 12, 112]);
}

#[test]
fn three_volumes_make_colors() {
    assert!(RGBVolume::color(1, 2, 3) == Color32 { r: 1, g: 2, b: 3, a: 255 });
    let volumes = RGBVolume::new_for_frag6().base_volumes;
    assert_eq!(volumes.len(), 3);
    for v in &volumes {
        assert_eq!(v.scroll_id, "PHerc0051Cr04Fr08");
    }
    assert!(volumes[0].volume != volumes[1].volume);
    assert!(volumes[1].volume != volumes[2].volume);
}

#[test]
fn overlay_color_schemes() {
    assert!(GrayScale::get_color(7) == gray(7));
    assert!(FourColors::get_color(1) == Color32 { r: 255, g: 0, b: 0, a: 255 });
    assert!(FourColors::get_color(2) == Color32 { r: 0, g: 255, b: 0, a: 255 });
    assert!(FourColors::get_color(3) == Color32 { r: 255, g: 255, b: 0, a: 255 });
    assert!(FourColors::get_color(4) == Color32 { r: 0, g: 0, b: 255, a: 255 });
    assert!(color_of::<GrayScale>(None).is_none());
    assert!(color_of::<FourColors>(Some(0)).is_none());
    assert!(color_of::<GrayScale>(Some(3)) == Some(gray(3)));
}

#[test]
fn overlays_paint_only_where_they_have_colors() {
    let canvas = Canvas {
        xyz: [5, 5, 5],
        u_coord: 0,
        v_coord: 1,
        plane_coord: 2,
        width: 2,
        height: 2,
        paint_zoom: 1,
    };
    let pixels = plane_pixels(&canvas);
    assert_eq!(pixels.len(), 4);
    let mut colors = Vec::new();
    for p in &pixels {
        let w = canvas.world(p.x, p.y);
        assert_eq!(p.voxel, [w[0] as usize, w[1] as usize, w[2] as usize]);
        colors.push(if p.x == 0 { Some(gray(200)) } else { None });
    }
    let mut image = Image::new(2, 2);
    image.set_gray(1, 1, 9);
    paint_colors(&pixels, &colors, &mut image);
    assert!(pixel(&image, 0, 0) == gray(200));
    assert!(pixel(&image, 0, 1) == gray(200));
    assert!(pixel(&image, 1, 0) == BLACK);
    assert!(pixel(&image, 1, 1) == gray(9));
}

#[test]
fn overlays_have_no_negative_voxels() {
    let canvas = Canvas {
        xyz: [0, 0, 3],
        u_coord: 0,
        v_coord: 1,
        plane_coord: 2,
        width: 4,
        height: 4,
        paint_zoom: 1,
    };
    for p in &plane_pixels(&canvas) {
        assert!(p.x >= 2 && p.y >= 2);
    }
}
