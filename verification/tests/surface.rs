use vesuvius_gui::volume::draw;
use vesuvius_gui::volume::face_index::{CellBox, FaceGrid, UVIndex, XYZIndex};
use vesuvius_gui::volume::image::{Color32, Image};
use vesuvius_gui::volume::obj::{
    combine, composite_layers, crossed_sides, draw_intersection, outline_color,
    paint_surface_point, prepare_obj, CompositionState, MaxCompositionState, NoCompositionState,
};
use vesuvius_gui::volume::ppm::{numbers_of_pixel, parse_header, surface_point};
use vesuvius_gui::volume::raster::{
    first_hit, orient2d, paint_zoom_align, paint_zoom_align_up, raster_faces, raster_triangle,
    Triangle, Window,
};
use vesuvius_gui::volume::transform::{
    from_json_array_or_path, AffineSystem, Coefficient, TransformError, TransformSource,
};

const BLACK: Color32 = Color32 { r: 0, g: 0, b: 0, a: 255 };
const RED: Color32 = Color32 { r: 255, g: 0, b: 0, a: 255 };

fn pixel(image: &Image, x: usize, y: usize) -> Color32 {
    image.data[y * image.width + x]
}

fn painted(image: &Image) -> Vec<(usize, usize)> {
    let mut r = Vec::new();
    for y in 0..image.height {
        for x in 0..image.width {
            if pixel(image, x, y) != BLACK {
                r.push((x, y));
            }
        }
    }
    r
}

fn drawn(x0: i32, y0: i32, x1: i32, y1: i32) -> Vec<(usize, usize)> {
    let mut image = Image::new(8, 8);
    draw::line(x0, y0, x1, y1, &mut image, 8, 8, 255, 0, 0);
    painted(&image)
}

#[test]
fn lines_leave_out_their_end() {
    assert_eq!(drawn(1, 2, 5, 2), vec![(1, 2), (2, 2), (3, 2), (4, 2)]);
    assert_eq!(drawn(2, 4, 2, 1), vec![(2, 2), (2, 3), (2, 4)]);
    assert_eq!(drawn(3, 3, 3, 3), vec![]);
    assert_eq!(drawn(0, 0, 3, 3), vec![(0, 0), (1, 1), (2, 2)]);
}

#[test]
fn lines_take_the_nearest_pixels() {
    assert_eq!(drawn(0, 0, 6, 3), vec![(0, 0), (1, 1), (2, 1), (3, 2), (4, 2), (5, 3)]);
    assert_eq!(drawn(0, 0, 7, 2), vec![(0, 0), (1, 0), (2, 1), (3, 1), (4, 1), (5, 1), (6, 2)]);
}

#[test]
fn lines_are_cut_at_the_border() {
    assert_eq!(drawn(-3, 1, 2, 1), vec![(0, 1), (1, 1)]);
    assert_eq!(drawn(6, 6, 12, 12), vec![(6, 6), (7, 7)]);
    let mut image = Image::new(8, 8);
    draw::line(0, 0, 8, 0, &mut image, 4, 8, 255, 0, 0);
    assert_eq!(painted(&image).len(), 4);
}

#[test]
fn points_are_squares() {
    let mut image = Image::new(6, 6);
    draw::point(2, 3, &mut image, 2, 255, 0, 0);
    assert_eq!(painted(&image), vec![(1, 2), (2, 2), (1, 3), (2, 3)]);
    let mut corner = Image::new(6, 6);
    draw::point(0, 0, &mut corner, 4, 255, 0, 0);
    assert_eq!(painted(&corner), vec![(0, 0), (1, 0), (0, 1), (1, 1)]);
}

#[test]
fn intersections_have_colors() {
    let mut image = Image::new(12, 12);
    draw_intersection(1, 5, 10, 5, false, false, 12, 12, &mut image);
    assert!(pixel(&image, 5, 5) == Color32 { r: 255, g: 0, b: 255, a: 255 });
    assert_eq!(painted(&image).len(), 9);
    draw_intersection(1, 5, 10, 5, true, false, 12, 12, &mut image);
    assert!(pixel(&image, 5, 5) == Color32 { r: 255, g: 170, b: 0, a: 255 });
    draw_intersection(2, 8, 9, 8, false, true, 12, 12, &mut image);
    assert!(pixel(&image, 5, 8) == Color32 { r: 255, g: 0, b: 255, a: 255 });
    assert!(pixel(&image, 2, 8) == Color32 { r: 0, g: 0, b: 255, a: 255 });
    draw_intersection(2, 8, 9, 8, true, true, 12, 12, &mut image);
    assert!(pixel(&image, 2, 8) == Color32 { r: 0, g: 255, b: 0, a: 255 });
}

#[test]
fn orientation_of_three_points() {
    assert_eq!(orient2d(0, 0, 4, 0, 0, 3), 12);
    assert_eq!(orient2d(0, 0, 0, 3, 4, 0), -12);
    assert_eq!(orient2d(0, 0, 4, 0, 0, 3), orient2d(4, 0, 0, 3, 0, 0));
    assert_eq!(orient2d(0, 0, 1, 1, 2, 2), 0);
}

#[test]
fn alignment_to_the_zoom() {
    assert_eq!(paint_zoom_align(7, 4), 4);
    assert_eq!(paint_zoom_align(8, 4), 8);
    assert_eq!(paint_zoom_align_up(7, 4), 8);
    assert_eq!(paint_zoom_align_up(8, 4), 8);
    assert_eq!(paint_zoom_align(7, 1), 7);
}

fn corner() -> Triangle {
    Triangle { u1: 0, v1: 0, u2: 4, v2: 0, u3: 0, v3: 4 }
}

#[test]
fn points_in_a_triangle() {
    assert_eq!(corner().hit(1, 1), Some((8, 4, 4)));
    assert_eq!(corner().hit(0, 0), Some((16, 0, 0)));
    assert_eq!(corner().hit(3, 3), None);
    assert_eq!(corner().hit(-1, 0), None);
    assert!(corner().contains_its_middle());
    let turned = Triangle { u1: 0, v1: 0, u2: 0, v2: 4, u3: 4, v3: 0 };
    assert_eq!(turned.hit(1, 1), None);
    assert!(!turned.contains_its_middle());
}

#[test]
fn covered_pixels_of_a_window() {
    let window = Window::around(2, 2, 5, 5, 1);
    assert!(window == Window { min_u: 0, min_v: 0, width: 5, height: 5, zoom: 1 });
    let points = raster_triangle(&window, &corner());
    assert_eq!(points.len(), 15);
    for p in &points {
        assert!(p.x + p.y <= 4);
        assert_eq!((p.w0, p.w1, p.w2), corner().hit(p.x as i32, p.y as i32).unwrap());
    }
    let coarse = Window { min_u: 0, min_v: 0, width: 5, height: 5, zoom: 2 };
    assert_eq!(raster_triangle(&coarse, &corner()).len(), 6);
}

#[test]
fn faces_are_painted_in_order() {
    let window = Window::around(2, 2, 5, 5, 1);
    let away = Triangle { u1: 100, v1: 0, u2: 104, v2: 0, u3: 100, v3: 4 };
    let points = raster_faces(&window, &[corner(), away, corner()]);
    assert_eq!(points.len(), 30);
    assert!(points[..15].iter().all(|p| p.face == 0));
    assert!(points[15..].iter().all(|p| p.face == 2));
}

#[test]
fn the_first_face_is_hit() {
    let away = Triangle { u1: 100, v1: 0, u2: 104, v2: 0, u3: 100, v3: 4 };
    let hit = first_hit(&[away, corner(), corner()], 1, 1).unwrap();
    assert_eq!(hit.face, 1);
    assert_eq!((hit.w0, hit.w1, hit.w2), (8, 4, 4));
    assert!(first_hit(&[away], 1, 1).is_none());
    assert!(first_hit(&[], 1, 1).is_none());
}

fn cell_box(layer: usize, row: usize, col: usize, size: usize) -> CellBox {
    CellBox {
        min_layer: layer,
        max_layer: layer + size,
        min_row: row,
        max_row: row + size,
        min_col: col,
        max_col: col + size,
    }
}

#[test]
fn faces_are_found_by_their_cells() {
    let index = UVIndex::new(4, 4, &vec![cell_box(0, 0, 0, 1), cell_box(0, 3, 3, 0)]);
    assert_eq!(index.in_bounds(1, 1, 1, 1), vec![0]);
    assert_eq!(index.in_bounds(0, 1, 0, 1), vec![0, 0, 0, 0]);
    assert_eq!(index.in_bounds(3, 3, 3, 3), vec![1]);
    assert_eq!(index.in_bounds(1, 3, 1, 3), vec![0, 1]);
    assert!(index.in_bounds(2, 2, 2, 2).is_empty());
}

#[test]
fn faces_in_space_are_found_by_their_cells() {
    let index = XYZIndex::new(3, &vec![cell_box(0, 0, 0, 0), cell_box(2, 2, 2, 0), cell_box(0, 1, 2, 0)]);
    assert_eq!(index.in_bounds(cell_box(0, 0, 0, 2)), vec![0, 2, 1]);
    assert_eq!(index.in_bounds(cell_box(2, 2, 2, 0)), vec![1]);
    assert!(index.in_bounds(cell_box(1, 1, 1, 0)).is_empty());
}

#[test]
fn cells_beyond_the_border_are_the_last() {
    let grid = FaceGrid::new(1, 2, 2, &vec![cell_box(0, 5, 5, 0)]);
    assert_eq!(grid.in_bounds(cell_box(0, 1, 1, 0)), vec![0]);
    assert_eq!(grid.in_bounds(cell_box(9, 9, 9, 0)), vec![0]);
    assert!(grid.in_bounds(cell_box(0, 0, 0, 0)).is_empty());
}

#[test]
fn meshes_lose_their_materials() {
    assert_eq!(
        prepare_obj("mtllib a\nv 1 2 3\nf 1/1 2/2 3/3\nusemtl b\nvt 0 1\n"),
        "v 1 2 3\nvt 0 1\nf 1/1 2/2 3/3"
    );
}

#[test]
fn the_greatest_layer_is_shown() {
    let mut state = MaxCompositionState::new();
    assert_eq!(combine(&mut state, &[3, 200, 7]), 200);
    assert_eq!(combine(&mut state, &[5, 1]), 5);
    assert_eq!(combine(&mut state, &[]), 0);
    assert!(state.update(9));
    assert_eq!(state.result(1), 9);
    state.reset();
    assert_eq!(state.result(1), 0);
}

#[test]
fn without_composition_nothing_is_combined() {
    assert_eq!(combine(&mut NoCompositionState {}, &[3, 200]), 0);
}

#[test]
fn layers_are_looked_at_from_the_front() {
    assert_eq!(composite_layers(10, 2, 1, false), vec![12, 11, 10, 9]);
    assert_eq!(composite_layers(10, 2, 1, true), vec![8, 9, 10, 11]);
    assert_eq!(composite_layers(-1, 0, 0, false), vec![-1]);
}

#[test]
fn outlines_have_a_color_for_each_axis() {
    assert!(outline_color(true, true, true) == Some(Color32 { r: 0, g: 0, b: 255, a: 255 }));
    assert!(outline_color(false, true, true) == Some(RED));
    assert!(outline_color(false, false, true) == Some(Color32 { r: 0, g: 255, b: 0, a: 255 }));
    assert!(outline_color(false, false, false).is_none());
    let mut image = Image::new(2, 1);
    paint_surface_point(&mut image, 0, 0, 7, None);
    paint_surface_point(&mut image, 1, 0, 7, Some(RED));
    assert!(pixel(&image, 0, 0) == Color32 { r: 7, g: 7, b: 7, a: 255 });
    assert!(pixel(&image, 1, 0) == RED);
}

fn lines(text: &[&str]) -> Vec<String> {
    text.iter().map(|l| l.to_string()).collect()
}

#[test]
fn ppm_headers() {
    assert_eq!(
        parse_header(&lines(&["width: 381", "height: 5000", "dim: 6", "ordered: true"])),
        Some((381, 5000))
    );
    assert_eq!(parse_header(&lines(&["width: 1", "width: 2", "height: 3"])), Some((2, 3)));
    assert_eq!(parse_header(&lines(&["width: 381"])), None);
    assert_eq!(parse_header(&lines(&["height: 381"])), None);
    assert_eq!(parse_header(&lines(&["width: x", "height: 1"])), None);
    assert_eq!(parse_header(&lines(&["width 1", "height: 1"])), None);
}

#[test]
fn ppm_pixels_have_six_numbers() {
    assert_eq!(numbers_of_pixel(10, 3, 2, 1000), Some(138));
    assert_eq!(numbers_of_pixel(10, 3, 2, 144), Some(138));
    assert_eq!(numbers_of_pixel(10, 3, 2, 143), None);
    assert_eq!(numbers_of_pixel(usize::MAX, 3, usize::MAX, usize::MAX), None);
}

#[test]
fn ppm_volumes_are_read_near_their_surface() {
    assert_eq!(surface_point([3, 4, -5], 2, 100, 100), Some([6, 8, -10]));
    assert_eq!(surface_point([3, 4, 46], 1, 100, 100), None);
    assert_eq!(surface_point([3, 4, 45], 1, 100, 100), Some([3, 4, 45]));
    assert_eq!(surface_point([0, 4, 0], 1, 100, 100), None);
    assert_eq!(surface_point([3, 100, 0], 1, 100, 100), None);
    assert_eq!(surface_point([50, 4, 0], 2, 100, 100), None);
}

#[test]
fn transforms_are_arrays_or_files() {
    match from_json_array_or_path("  [[1,0,0,0]] ") {
        TransformSource::Array(text) => assert_eq!(text, "[[1,0,0,0]]"),
        TransformSource::Path(_) => panic!("this is an array"),
    }
    match from_json_array_or_path(" a/b.json\n") {
        TransformSource::Path(text) => assert_eq!(text, "a/b.json"),
        TransformSource::Array(_) => panic!("this is a path"),
    }
}

#[test]
fn transforms_need_enough_points() {
    match AffineSystem::new(4, 5) {
        Err(e) => assert_eq!(e.message(), "Source and target point counts must match"),
        Ok(_) => panic!("the counts differ"),
    }
    match AffineSystem::new(3, 3) {
        Err(e) => assert_eq!(e.message(), "Need at least 4 non-coplanar points"),
        Ok(_) => panic!("there are too few points"),
    }
    assert_eq!(TransformError::NotSolvable.message(), "Failed to solve the system of equations");
    assert!(AffineSystem::new(4, 4).is_ok());
}

#[test]
fn equations_of_an_affine_transform() {
    let system = match AffineSystem::new(5, 5) {
        Ok(s) => s,
        Err(_) => panic!("there are enough points"),
    };
    assert!(system.coefficient(7, 4) == Coefficient::Source(2, 0));
    assert!(system.coefficient(7, 6) == Coefficient::Source(2, 2));
    assert!(system.coefficient(7, 7) == Coefficient::One);
    assert!(system.coefficient(7, 3) == Coefficient::Zero);
    assert!(system.coefficient(7, 8) == Coefficient::Zero);
    assert_eq!(system.right_side(7), (2, 1));
    assert_eq!(AffineSystem::unknown(1, 2), 6);
}

#[test]
fn planes_cross_two_sides_or_none() {
    assert_eq!(crossed_sides([true, true, true]), None);
    assert_eq!(crossed_sides([false, false, false]), None);
    assert_eq!(crossed_sides([true, false, true]), Some((0, 1)));
    assert_eq!(crossed_sides([true, false, false]), Some((0, 2)));
    assert_eq!(crossed_sides([false, false, true]), Some((1, 2)));
}
