use vesuvius_gui::downloader::{
    authorization_header, dir_of_tile, file_of_tile, url_of_tile, DownloadAction, DownloadOutcome,
    DownloadState, DownloadTask, Downloader, SimpleDownloader,
};
use vesuvius_gui::model::Quality;

const SERVER: &str = "https://server";
const BASE: &str = "scroll/1/volume/20230205180739/";

fn task(ticket: u64) -> DownloadTask {
    DownloadTask { ticket, x: 1, y: 22, z: 333, quality: Quality { bit_mask: 0xf0, downsampling_factor: 4 } }
}

fn downloader() -> SimpleDownloader {
    SimpleDownloader::new("dir", SERVER, BASE, Some("user:pass".to_string()))
}

#[test]
fn tile_names() {
    let quality = Quality { bit_mask: 0xf0, downsampling_factor: 4 };
    assert_eq!(
        url_of_tile(SERVER, BASE, 1, 22, 333, quality),
        "https://server/tiles/scroll/1/volume/20230205180739/download/64-4?x=1&y=22&z=333&bitmask=240&downsampling=4"
    );
    assert_eq!(dir_of_tile("dir", 7, quality), "dir/64-4/d04/z007");
    assert_eq!(
        file_of_tile("dir", 1, 22, 1333, Quality::FULL()),
        "dir/64-4/d01/z1333/xyz-001-022-1333-b255-d01.bin"
    );
}

#[test]
fn credentials_are_encoded() {
    assert_eq!(authorization_header("user:pass"), "Basic dXNlcjpwYXNz");
    assert_eq!(authorization_header(""), "Basic ");
    assert_eq!(authorization_header("a"), "Basic YQ==");
    assert_eq!(authorization_header("ab"), "Basic YWI=");
    assert_eq!(authorization_header("?>"), "Basic Pz4=");
    assert_eq!(authorization_header("~~~"), "Basic fn5+");
}

#[test]
fn states_that_need_a_reload() {
    assert!(!DownloadState::Queuing.needs_reload());
    assert!(!DownloadState::Downloading.needs_reload());
    assert!(DownloadState::Done.needs_reload());
    assert!(DownloadState::Failed.needs_reload());
    assert!(DownloadState::Delayed.needs_reload());
    assert!(DownloadState::Pruned.needs_reload());
}

#[test]
fn requests_are_made_in_order() {
    let mut d = downloader();
    assert!(d.step().is_none());
    d.position(1, 2, 3, 40, 50);
    d.queue(task(7));
    assert!(matches!(d.step(), Some(DownloadAction::Nothing)));
    assert_eq!(d.position, (1, 2, 3, 40, 50));
    match d.step() {
        Some(DownloadAction::Fetch { task: t, url, authorization }) => {
            assert!(t == task(7));
            assert_eq!(url, url_of_tile(SERVER, BASE, 1, 22, 333, t.quality));
            assert_eq!(authorization, Some("Basic dXNlcjpwYXNz".to_string()));
        }
        _ => panic!("a request was due"),
    }
    assert_eq!(d.downloading, 1);
    assert!(d.step().is_none());
}

#[test]
fn without_credentials_no_header_is_sent() {
    let mut d = SimpleDownloader::new("dir", SERVER, BASE, None);
    d.queue(task(0));
    match d.step() {
        Some(DownloadAction::Fetch { authorization, .. }) => assert!(authorization.is_none()),
        _ => panic!("a request was due"),
    }
}

#[test]
fn too_many_requests_are_pruned() {
    let mut d = downloader();
    for i in 0..33 {
        d.queue(task(i));
    }
    for _ in 0..32 {
        assert!(matches!(d.step(), Some(DownloadAction::Fetch { .. })));
    }
    match d.step() {
        Some(DownloadAction::Prune(t)) => assert_eq!(t.ticket, 32),
        _ => panic!("the task should be dropped"),
    }
    assert_eq!(d.downloading, 32);
    d.finished(task(0), Some(200));
    d.queue(task(33));
    assert!(matches!(d.step(), Some(DownloadAction::Fetch { .. })));
}

#[test]
fn answers_decide_the_state() {
    let mut d = downloader();
    for i in 0..4 {
        d.queue(task(i));
        d.step();
    }
    match d.finished(task(0), Some(200)) {
        DownloadOutcome::Save { dir, file } => {
            assert_eq!(dir, "dir/64-4/d04/z333");
            assert_eq!(file, "dir/64-4/d04/z333/xyz-001-022-333-b240-d04.bin");
        }
        _ => panic!("the tile should be saved"),
    }
    assert!(matches!(d.finished(task(1), Some(420)), DownloadOutcome::State(DownloadState::Delayed)));
    assert!(matches!(d.finished(task(2), Some(404)), DownloadOutcome::State(DownloadState::Failed)));
    assert!(matches!(d.finished(task(3), None), DownloadOutcome::State(DownloadState::Failed)));
    assert_eq!(d.downloading, 0);
}

#[test]
fn authorization_is_asked_of_the_first_scroll() {
    assert_eq!(
        SimpleDownloader::authorization_url(SERVER),
        "https://server/tiles/scroll/1/volume/20230205180739/"
    );
    assert!(SimpleDownloader::check_authorization(Some(200)));
    assert!(!SimpleDownloader::check_authorization(Some(401)));
    assert!(!SimpleDownloader::check_authorization(None));
}
