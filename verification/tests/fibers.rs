use vesuvius_gui::fibers::clouds::{
    collide, pack, point_bytes, PointCloudCollection, PointCloudFile,
};
use vesuvius_gui::fibers::collisions::{
    clicked_position, collision_color, extent_of, nearest, parse_collision, Collision,
    CollisionPanel, Extent, Rank,
};
use vesuvius_gui::fibers::components::{connected_components2, Region};
use vesuvius_gui::fibers::flood::{index_of, starts_flood, Flood, RegionNumbers};
use vesuvius_gui::fibers::maps::{
    enter_voxel, ConnectedFullMapVolume, ConnectedFullMapVolume2, FullMapVolume, PointFiles,
};
use vesuvius_gui::volume::image::{Color32, Image};

const BLACK: Color32 = Color32 { r: 0, g: 0, b: 0, a: 255 };

fn file_of(points: &[[u16; 3]]) -> Vec<u8> {
    let mut file = Vec::new();
    for p in points {
        file.extend_from_slice(&point_bytes(*p));
    }
    file
}

#[test]
fn points_are_packed() {
    assert_eq!(pack([1, 2, 3]), 0x0003_0002_0001);
    assert_ne!(pack([1, 2, 3]), pack([3, 2, 1]));
    assert_eq!(point_bytes([0x0102, 3, 0xffff]), [2, 1, 3, 0, 255, 255]);
}

#[test]
fn clouds_are_read_from_files() {
    let file = file_of(&[[1, 2, 3], [400, 500, 600]]);
    let cloud = PointCloudFile::new(7, &file);
    assert_eq!(cloud.num_elements, 2);
    assert_eq!(cloud.at_idx(1), [400, 500, 600]);
    assert_eq!(cloud.points(), vec![[1, 2, 3], [400, 500, 600]]);
    let odd = PointCloudFile::new(7, &file[..11]);
    assert_eq!(odd.num_elements, 1);
}

#[test]
fn clouds_are_found_by_their_id() {
    let a = file_of(&[[1, 2, 3]]);
    let b = file_of(&[[1, 2, 4], [9000, 1, 1]]);
    let all = PointCloudCollection::from_clouds(vec![
        PointCloudFile::new(3, &a),
        PointCloudFile::new(5, &b),
    ]);
    assert_eq!(all.cloud(5).unwrap().num_elements, 2);
    assert!(all.cloud(4).is_none());
    let mut cells: Vec<Vec<u32>> = all.grid.values().cloned().collect();
    cells.sort();
    cells.dedup();
    assert_eq!(cells, vec![vec![3, 5], vec![5]]);
}

#[test]
fn clouds_collide_in_the_middle_of_their_common_points() {
    let a = file_of(&[[10, 10, 10], [11, 10, 10], [12, 10, 10], [50, 50, 50]]);
    let b = file_of(&[[12, 10, 10], [11, 10, 10], [10, 10, 10], [90, 90, 90]]);
    let c = file_of(&[[1, 1, 1]]);
    let a = PointCloudFile::new(1, &a);
    let b = PointCloudFile::new(2, &b);
    let c = PointCloudFile::new(3, &c);
    assert_eq!(collide(&a, &b), Some([11, 10, 10]));
    assert_eq!(collide(&b, &a), Some([11, 10, 10]));
    assert_eq!(collide(&a, &c), None);
}

fn collision(id1: u32, id2: u32, x: u16, y: u16, z: u16) -> Collision {
    Collision { id1, id2, x, y, z }
}

#[test]
fn floods_start_at_unmarked_voxels() {
    assert!(starts_flood(20, Some(1), 0));
    assert!(starts_flood(21, Some(0), 0));
    assert!(!starts_flood(19, Some(1), 0));
    assert!(!starts_flood(20, None, 0));
    assert!(!starts_flood(20, Some(1), 2));
}

#[test]
fn collisions_are_parsed() {
    assert!(parse_collision("h12 v3 100 200 300") == Some(collision(12, 3, 100, 200, 300)));
    assert!(parse_collision("h12  v3 1 2 3 more") == Some(collision(12, 3, 1, 2, 3)));
    assert!(parse_collision("h12 v3 1 2").is_none());
    assert!(parse_collision("hx v3 1 2 3").is_none());
    assert!(parse_collision("h1 v3 1 2 65536").is_none());
    assert!(parse_collision("").is_none());
}

#[test]
fn the_nearest_collision_is_found() {
    let all = [collision(1, 1, 10, 10, 0), collision(2, 1, 20, 20, 0), collision(3, 1, 10, 30, 0)];
    assert!(nearest(&all, 19, 22) == Some(all[1]));
    assert!(nearest(&all, 10, 20) == Some(all[0]));
    assert!(nearest(&[], 10, 20).is_none());
}

#[test]
fn clicks_lead_to_the_nearest_collision() {
    let all = [collision(1, 1, 10, 10, 7), collision(2, 1, 20, 20, 8)];
    assert_eq!(clicked_position(&all, 19, 22), Some([20, 20, 8]));
    assert_eq!(clicked_position(&all, 0, 0), Some([10, 10, 7]));
    assert_eq!(clicked_position(&[], 0, 0), None);
}

#[test]
fn collisions_are_ranked_and_selected() {
    let lines: Vec<String> =
        ["h1 v1 20 20 20", "h2 v1 30 30 30", "h2 v2 40 40 40"].iter().map(|l| l.to_string()).collect();
    let mut panel = CollisionPanel::new(&lines).unwrap();
    let ranking = panel.ranking();
    assert_eq!(ranking.len(), 2);
    assert!(ranking[0] == Rank { id: 2, count: 2 });
    assert!(ranking[1] == Rank { id: 1, count: 1 });
    assert!(panel.shown().is_empty());
    panel.select(2);
    let shown = panel.shown();
    assert_eq!(shown.len(), 2);
    assert!(shown[0] == collision(2, 1, 30, 30, 30));
    assert!(
        extent_of(&shown)
            == Some(Extent { min_x: 20, min_y: 20, min_z: 20, range_x: 30, range_y: 30, range_z: 30 })
    );
    assert!(CollisionPanel::new(&["what".to_string()]).is_none());
}

#[test]
fn extents_must_fit() {
    assert!(extent_of(&[]).is_none());
    assert!(extent_of(&[collision(1, 1, 9, 20, 20)]).is_none());
    assert!(extent_of(&[collision(1, 1, 65530, 20, 20)]).is_none());
}

#[test]
fn the_hovered_collision_is_green() {
    let c = collision(1, 2, 0, 0, 0);
    let green = Color32 { r: 0, g: 255, b: 0, a: 255 };
    let red = Color32 { r: 255, g: 0, b: 0, a: 255 };
    assert!(collision_color(&c, Some(collision(1, 2, 9, 9, 9))) == green);
    assert!(collision_color(&c, Some(collision(2, 1, 0, 0, 0))) == red);
    assert!(collision_color(&c, None) == red);
}

#[test]
fn map_places() {
    assert_eq!(index_of(0, 0, 0), 0);
    assert_eq!(index_of(1, 0, 0), 1);
    assert_eq!(index_of(0, 1, 0), 16);
    assert_eq!(index_of(0, 0, 1), 256);
    assert_eq!(index_of(16, 0, 0), 0x1000);
    assert_eq!(index_of(256, 0, 0), 0x100_0000);
    assert_eq!(index_of(8192, 0, 0), 0);
}

fn flood(start: [u16; 3], value: u8, voxels: &[([u16; 3], u8)]) -> Vec<[u16; 3]> {
    let mut flood = Flood::new(start, value);
    while let Some(p) = flood.next() {
        let found = voxels.iter().find(|v| v.0 == p).map(|v| v.1);
        flood.answer(found);
    }
    flood.selected.sort();
    flood.selected
}

#[test]
fn floods_stay_in_their_region() {
    let voxels = [
        ([5, 5, 5], 1),
        ([6, 5, 5], 1),
        ([6, 6, 5], 1),
        ([6, 6, 6], 2),
        ([8, 5, 5], 1),
    ];
    assert_eq!(flood([5, 5, 5], 1, &voxels), vec![[5, 5, 5], [6, 5, 5], [6, 6, 5]]);
    assert_eq!(flood([8, 5, 5], 1, &voxels), vec![[8, 5, 5]]);
    assert_eq!(flood([6, 6, 6], 2, &voxels), vec![[6, 6, 6]]);
}

#[test]
fn regions_are_numbered() {
    let mut numbers = RegionNumbers::new();
    let mut map = vec![0u8; 0x1000];
    assert_eq!(numbers.assign(&mut map, &[[1, 0, 0], [2, 0, 0]]), 1);
    assert_eq!(&map[..4], &[0, 1, 1, 0]);
    assert_eq!(numbers.assign(&mut map, &[[2, 0, 0], [3, 0, 0]]), 1);
    assert_eq!(&map[..4], &[0, 1, 1, 0]);
    assert_eq!((numbers.id, numbers.global_id), (2, 1));
}

#[test]
fn large_regions_get_a_number_of_their_own() {
    let mut numbers = RegionNumbers::new();
    let mut map = vec![0u8; 0x100_0000];
    let mut region = Vec::new();
    for z in 0..64 {
        for y in 0..64 {
            for x in 0..64 {
                region.push([x, y, z]);
            }
        }
    }
    assert_eq!(numbers.assign(&mut map, &region), 2);
    assert_eq!((numbers.id, numbers.global_id), (3, 2));
    assert_eq!(map[index_of(63, 63, 63) as usize], 3);
    assert_eq!(map[index_of(64, 63, 63) as usize], 0);
}

#[test]
fn components_are_labelled() {
    let voxels = [
        1, 0, 1, 1, //
        1, 0, 0, 1, //
        0, 0, 0, 0, //
        2, 1, 0, 0, //
    ];
    let region = Region { size: [4, 4, 1], voxels: &voxels };
    let r = connected_components2(&region, 1).unwrap();
    assert_eq!(r.classes.len(), 3);
    let row = |y: usize| r.row_points(&region, [100, 200, 300], y, 0);
    let classes = |y: usize| row(y).iter().map(|p| (p.class, p.x, p.y, p.z)).collect::<Vec<_>>();
    let first = classes(0);
    assert_eq!(first.len(), 3);
    assert_eq!((first[0].1, first[0].2, first[0].3), (100, 200, 300));
    assert_ne!(first[0].0, first[1].0);
    assert_eq!(first[1].0, first[2].0);
    let second = classes(1);
    assert_eq!(second, vec![(first[0].0, 100, 201, 300), (first[1].0, 103, 201, 300)]);
    assert!(classes(2).is_empty());
    let last = classes(3);
    assert_eq!(last.len(), 1);
    assert_eq!(last[0].1, 101);
    for id in &r.classes {
        assert!(r.class_number(*id).is_some());
    }
    assert!(r.class_number(u32::MAX).is_none());
}

#[test]
fn a_label_keeps_its_last_alias_only() {
    let voxels = [
        1, 0, 1, 0, 1, 1, 1, //
        1, 0, 1, 1, 1, 0, 1, //
        1, 0, 0, 0, 0, 0, 1, //
        1, 1, 1, 1, 1, 1, 1, //
    ];
    let region = Region { size: [7, 4, 1], voxels: &voxels };
    let r = connected_components2(&region, 1).unwrap();
    assert_eq!(r.classes, vec![1, 2]);
    let row = r.row_points(&region, [0, 0, 0], 0, 0);
    let classes: Vec<usize> = row.iter().map(|p| p.class).collect();
    assert_eq!(classes, vec![0, 1, 0, 0, 0]);
}

#[test]
fn maps_are_painted() {
    let mut map = vec![0u8; 0x1000];
    enter_voxel(&mut map, 3, 4, 5, Some(1));
    enter_voxel(&mut map, 4, 4, 5, Some(2));
    enter_voxel(&mut map, 4, 4, 5, None);
    assert_eq!(map[index_of(3, 4, 5) as usize], 1);
    assert_eq!(map[index_of(4, 4, 5) as usize], 2);
    let mut image = Image::new(4, 1);
    FullMapVolume::new(&map).paint([1961 + 4, 2135 + 4, 7005], 0, 1, 2, 4, 1, 1, 1, &mut image);
    assert!(image.data[0] == BLACK);
    assert!(image.data[1] != BLACK);
    assert!(image.data[2] != BLACK);
    assert!(image.data[1] != image.data[2]);
    assert!(image.data[3] == BLACK);
}

#[test]
fn connected_maps_use_a_palette() {
    let mut map = vec![0u8; 0x1000];
    enter_voxel(&mut map, 3, 4, 5, Some(1));
    enter_voxel(&mut map, 4, 4, 5, Some(62));
    let palette: Vec<Color32> = (0..60).map(|i| Color32 { r: i, g: 1, b: 1, a: 255 }).collect();
    let volume = ConnectedFullMapVolume::new(&map, palette);
    let mut image = Image::new(4, 1);
    volume.paint([4, 4, 5], 0, 1, 2, 4, 1, 1, 1, &mut image);
    assert!(image.data[1] == BLACK);
    assert!(image.data[2] == Color32 { r: 2, g: 1, b: 1, a: 255 });
    assert!(image.data[3] == BLACK);
}

#[test]
fn cropped_maps_hold_numbers() {
    let mut ids = vec![0u32; 1_001_002];
    ids[1_001_001] = 61;
    let volume = ConnectedFullMapVolume2::new(&ids);
    assert_eq!(volume.get_class(2400, 3000, 9300), 61);
    assert_eq!(volume.get_class(2401, 3000, 9300), 0);
    assert_eq!(volume.get_class(2399, 3000, 9300), 0);
    assert_eq!(volume.get_class(3400, 3000, 9300), 0);
    assert_eq!(volume.palette_index([2400, 3000, 9300]), Some(1));
    assert_eq!(volume.palette_index([2401, 3000, 9300]), None);
}

#[test]
fn points_are_written_to_two_files() {
    let mut files = PointFiles::new();
    files.visit(1, 2, 3, Some(1));
    files.visit(4, 5, 6, Some(2));
    files.visit(7, 8, 9, None);
    assert_eq!(files.first, file_of(&[[1, 2, 3]]));
    assert_eq!(files.second, file_of(&[[4, 5, 6]]));
    assert_eq!(files.count, 2);
}
