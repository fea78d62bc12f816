use vesuvius_gui::catalog::obj_repository::{file_for, segments_to_look_for, ObjRepository};
use vesuvius_gui::catalog::{Catalog, Scroll, Segment, Urls};
use vesuvius_gui::gui::state::{
    clicked, mask_image_url, name_color, shows_fetched, CatalogAction, NameColor,
};
use vesuvius_gui::model::VolumeReference;

fn scroll(num: &str, is_fragment: bool) -> Scroll {
    Scroll {
        id: format!("PHerc{}", num),
        num: num.to_string(),
        old_id: format!("old{}", num),
        is_fragment,
    }
}

fn segment(id: &str, num: &str, is_fragment: bool, volume: Option<&str>) -> Segment {
    Segment {
        id: id.to_string(),
        scroll: scroll(num, is_fragment),
        volume: volume.map(|v| v.to_string()),
        height: 10,
        width: 20,
        urls: Urls {
            composite_url: "c".to_string(),
            mask_url: "m".to_string(),
            meta_url: "t".to_string(),
            obj_url: "o".to_string(),
            ppm_url: "p".to_string(),
        },
    }
}

#[test]
fn scrolls_have_labels() {
    assert_eq!(scroll("1", false).label(), "Scroll 1 - PHerc1");
    assert_eq!(scroll("7", true).label(), "Fragment 7 - PHerc7");
    assert!(scroll("1", false).is_same(&scroll("1", false).duplicate()));
    assert!(!scroll("1", false).is_same(&scroll("1", true)));
    assert!(!scroll("1", false).is_same(&scroll("2", false)));
}

#[test]
fn segments_lie_in_volumes() {
    let s = segment("s", "1", false, Some("v"));
    assert_eq!(s.volume_ref().url_path_base(), "scroll/old1/volume/v/");
    assert!(s.is_same(&segment("s", "1", false, Some("v"))));
    assert!(!s.is_same(&segment("t", "1", false, Some("v"))));
}

#[test]
fn catalogs_are_grouped_and_sorted() {
    let catalog = Catalog::from_segments(vec![
        segment("b", "2", false, None),
        segment("a", "2", false, None),
        segment("x", "1", true, None),
        segment("c", "1", false, None),
    ]);
    let labels: Vec<String> = catalog.scrolls().iter().map(|s| s.label()).collect();
    assert_eq!(labels, vec!["Scroll 1 - PHerc1", "Scroll 2 - PHerc2", "Fragment 1 - PHerc1"]);
    let of = |num: &str, fragment: bool| -> Vec<String> {
        catalog.segments(&scroll(num, fragment)).unwrap().iter().map(|s| s.id.clone()).collect()
    };
    assert_eq!(of("2", false), vec!["a", "b"]);
    assert_eq!(of("1", false), vec!["c"]);
    assert_eq!(of("1", true), vec!["x"]);
    assert!(catalog.segments(&scroll("3", false)).is_none());
    let all: Vec<&str> = segments_to_look_for(&catalog).iter().map(|s| s.id.as_str()).collect();
    assert_eq!(all, vec!["c", "a", "b", "x"]);
}

#[test]
fn segments_of_a_scroll_need_not_stand_together() {
    let catalog = Catalog::from_segments(vec![
        segment("2", "1", false, None),
        segment("1", "2", false, None),
        segment("1", "1", false, None),
        segment("2", "1", false, Some("v")),
    ]);
    let listed = catalog.segments(&scroll("1", false)).unwrap();
    let ids: Vec<&str> = listed.iter().map(|s| s.id.as_str()).collect();
    assert_eq!(ids, vec!["1", "2", "2"]);
    assert!(listed[1].volume.is_none());
    assert_eq!(listed[2].volume, Some("v".to_string()));
    assert!(listed.iter().all(|s| s.scroll.label() == "Scroll 1 - PHerc1"));
    assert_eq!(catalog.segments(&scroll("2", false)).unwrap().len(), 1);
    assert_eq!(catalog.scrolls().len(), 2);
}

#[test]
fn an_empty_catalog() {
    assert!(Catalog::new().scrolls().is_empty());
    assert!(Catalog::from_segments(vec![]).scrolls().is_empty());
}

#[test]
fn meshes_are_found_in_the_repository() {
    let s = segment("s", "1", false, None);
    assert_eq!(file_for(&s), "segments/old1/s.obj");
    let mut repository = ObjRepository::new();
    assert_eq!(repository.get(&s), None);
    repository.notify("s");
    repository.notify("s");
    assert!(repository.is_cached("s"));
    assert!(!repository.is_cached("t"));
    assert_eq!(repository.get(&s), Some("segments/old1/s.obj".to_string()));
    assert_eq!(repository.cached_objs.len(), 1);
}

#[test]
fn clicks_in_the_catalog() {
    assert!(clicked(&segment("s", "1", false, None), true) == CatalogAction::Ignore);
    assert!(clicked(&segment("s", "1", false, Some("v")), true) == CatalogAction::Show);
    assert!(clicked(&segment("s", "1", false, Some("v")), false) == CatalogAction::Download);
}

#[test]
fn fetched_meshes_are_shown_if_still_wanted() {
    let s = segment("s", "1", false, None);
    let t = segment("t", "1", false, None);
    assert!(shows_fetched(Some(&s), &s, true));
    assert!(!shows_fetched(Some(&s), &s, false));
    assert!(!shows_fetched(Some(&t), &s, true));
    assert!(!shows_fetched(None, &s, true));
}

#[test]
fn names_in_the_catalog_have_colors() {
    assert!(name_color(true, true, 0) == NameColor::Cached);
    assert!(name_color(false, false, 0) == NameColor::Plain);
    assert!(name_color(false, true, 599) == NameColor::Fetching);
    assert!(name_color(false, true, 600) == NameColor::Plain);
    assert!(name_color(false, true, 1200) == NameColor::Fetching);
}

#[test]
fn segments_have_pictures() {
    assert_eq!(
        mask_image_url(&segment("s", "1", false, None)),
        "https://vesuvius.virtual-void.net/scroll/old1/segment/s/mask?ext=png&width=50&height=25"
    );
}
