use vesuvius_gui::model::{
    AnyVolumeReference, DynamicFullVolumeReference, FullVolumeReference, NewVolumeReference,
    Quality, SurfaceVolumeReference, VolumeCreationParams, VolumeLocation, VolumePlan,
    VolumeReference,
};

#[test]
fn full_quality() {
    assert!(Quality::FULL() == Quality { bit_mask: 255, downsampling_factor: 1 });
}

#[test]
fn names_of_a_scroll() {
    let v = FullVolumeReference::SCROLL1();
    assert_eq!(v.id(), "20230205180739");
    assert_eq!(v.sub_dir("data"), "data/scroll1/20230205180739/");
    assert_eq!(v.label(), "Scroll 1 / 20230205180739");
    assert_eq!(v.url_path_base(), "scroll/1/volume/20230205180739/");
}

#[test]
fn names_of_a_dynamic_volume() {
    let v = DynamicFullVolumeReference::new("PHerc1".to_string(), "v7".to_string());
    assert_eq!(v.id(), "v7");
    assert_eq!(v.sub_dir("data"), "data/scrollPHerc1/v7/");
    assert_eq!(v.label(), "Scroll PHerc1 / v7");
    assert_eq!(v.url_path_base(), "scroll/PHerc1/volume/v7/");
}

#[test]
fn names_of_a_surface() {
    let v = SurfaceVolumeReference::SEGMENT_20230827161847();
    assert_eq!(v.id(), "20230827161847");
    assert_eq!(v.sub_dir("data"), "data/scroll1/segment/20230827161847/");
    assert_eq!(v.label(), "Scroll 1 / Segment 20230827161847");
    assert_eq!(v.url_path_base(), "scroll/1/segment/20230827161847/");
}

#[test]
fn every_known_volume_is_found_by_its_id() {
    let volumes = AnyVolumeReference::VOLUMES();
    assert_eq!(volumes.len(), 25);
    for v in &volumes {
        match AnyVolumeReference::try_from_id(v.id()) {
            Ok(found) => assert_eq!((found.id(), found.label()), (v.id(), v.label())),
            Err(e) => panic!("{}", e),
        }
    }
}

#[test]
fn unknown_volumes_are_refused() {
    match AnyVolumeReference::try_from_id("20990101000000".to_string()) {
        Ok(_) => panic!("there is no such volume"),
        Err(e) => assert!(e.contains("20990101000000")),
    }
}

#[test]
fn files_below_a_location() {
    assert_eq!(VolumeLocation::LocalPath("a/b".to_string()).file(".zattrs"), "a/b/.zattrs");
    assert_eq!(
        VolumeLocation::RemoteUrl("http://x/b".to_string()).file(".zarray"),
        "http://x/b/.zarray"
    );
}

#[test]
fn the_kind_of_a_location_is_found() {
    let url = "http://x/a.zarr".to_string();
    match NewVolumeReference::from_url(url.clone(), Some("{\"multiscales\":[]}".to_string()), None) {
        Ok(NewVolumeReference::OmeZarr { id, location: VolumeLocation::RemoteUrl(u) }) => {
            assert_eq!(id, "a.zarr");
            assert_eq!(u, url);
        }
        _ => panic!("this is OME-Zarr"),
    }
    match NewVolumeReference::from_path("d/b.zarr".to_string(), None, Some("{\"zarr_format\":2}".to_string())) {
        Ok(NewVolumeReference::Zarr { id, location: VolumeLocation::LocalPath(p) }) => {
            assert_eq!(id, "b.zarr");
            assert_eq!(p, "d/b.zarr");
        }
        _ => panic!("this is Zarr"),
    }
    match NewVolumeReference::from_path("d".to_string(), Some("{}".to_string()), Some("\"chunks\"".to_string())) {
        Ok(NewVolumeReference::Zarr { id, .. }) => assert_eq!(id, "d"),
        _ => panic!("this is Zarr"),
    }
}

#[test]
fn other_locations_are_refused() {
    match NewVolumeReference::from_url("http://x".to_string(), None, None) {
        Err(e) => assert_eq!(
            e,
            "URL http://x is neither a valid OME-Zarr nor Zarr array (no .zattrs or .zarray found)"
        ),
        Ok(_) => panic!("there is nothing"),
    }
    match NewVolumeReference::from_path("d".to_string(), Some("{}".to_string()), Some("{}".to_string())) {
        Err(e) => assert_eq!(
            e,
            "Path d is neither a valid OME-Zarr nor Zarr array (no .zattrs or .zarray found)"
        ),
        Ok(_) => panic!("there is nothing"),
    }
}

#[test]
fn references_say_what_to_open() {
    let params = VolumeCreationParams { cache_dir: "cache".to_string() };
    let tiles = NewVolumeReference::Volume64x4(AnyVolumeReference::Full(FullVolumeReference::SCROLL1()));
    assert_eq!(tiles.id(), "20230205180739");
    assert_eq!(tiles.label(), "Scroll 1 / 20230205180739");
    match tiles.volume(&params) {
        VolumePlan::Tiles { dir, server, url_path_base } => {
            assert_eq!(dir, "cache/scroll1/20230205180739/");
            assert_eq!(server, "https://vesuvius.virtual-void.net");
            assert_eq!(url_path_base, "scroll/1/volume/20230205180739/");
        }
        _ => panic!("tiles are fetched"),
    }
    let cells = NewVolumeReference::Cells { id: "c".to_string(), path: "p".to_string() };
    assert_eq!(cells.label(), "c");
    match cells.volume(&params) {
        VolumePlan::Cells { path } => assert_eq!(path, "p"),
        _ => panic!("these are cells"),
    }
    let layers = NewVolumeReference::Layers { id: "l".to_string(), path: "q".to_string() };
    match layers.volume(&params) {
        VolumePlan::Layers { path } => assert_eq!(path, "q"),
        _ => panic!("these are layers"),
    }
    let zarr = NewVolumeReference::Zarr {
        id: "z".to_string(),
        location: VolumeLocation::LocalPath("r".to_string()),
    };
    assert!(matches!(zarr.volume(&params), VolumePlan::Zarr { location: VolumeLocation::LocalPath(_) }));
    let ome = NewVolumeReference::OmeZarr {
        id: "o".to_string(),
        location: VolumeLocation::RemoteUrl("s".to_string()),
    };
    assert_eq!(ome.id(), "o");
    assert!(matches!(ome.volume(&params), VolumePlan::OmeZarr { location: VolumeLocation::RemoteUrl(_) }));
}
