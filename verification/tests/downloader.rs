use flikr_scraper::downloader::{fetch_target, path, DownType, Throttle, IMAGE_DB_ROOT};

#[test]
fn path_joins_components() {
    assert_eq!(path([IMAGE_DB_ROOT, "photostream"]), "image-db/photostream");
    assert_eq!(path(["a/", "b"]), "a/b");
    assert_eq!(path(["a", ""]), "a/");
    assert_eq!(path(["a", "/b", "c"]), "/b/c");
    assert_eq!(path(["", "b"]), "b");
    assert_eq!(path::<0>([]), "");
}

#[test]
fn safe_names_are_lower_case() {
    assert_eq!(DownType::Photostream.safe_name(), "photostream");
    assert_eq!(DownType::ImageViewer.safe_name(), "imageviewer");
    assert_eq!(DownType::ImageSizes.safe_name(), "imagesizes");
    assert_eq!(DownType::ImageOrig.safe_name(), "imageorig");
    assert_eq!(DownType::ImageOrig.as_ref(), "ImageOrig");
}

#[test]
fn output_directories() {
    let dirs = DownType::output_dirs();
    assert_eq!(
        dirs,
        vec![
            "image-db",
            "image-db/photostream",
            "image-db/imageviewer",
            "image-db/imagesizes",
            "image-db/imageorig"
        ]
    );
    assert_eq!(DownType::variants().len(), 4);
}

#[test]
fn photostream_target() {
    let t = fetch_target(DownType::Photostream, "sic66", "3");
    assert_eq!(t.url, "https://www.flickr.com/photos/sic66/page3");
    assert_eq!(t.cache_name, "sic66_page3");
    assert_eq!(t.relative_path, "photostream/sic66_page3");
    assert_eq!(t.cache_path, "image-db/photostream/sic66_page3");
}

#[test]
fn viewer_and_sizes_targets() {
    let t = fetch_target(DownType::ImageViewer, "sic66", "123");
    assert_eq!(t.url, "https://www.flickr.com/photos/sic66/123/");
    assert_eq!(t.cache_path, "image-db/imageviewer/sic66_123");
    let t = fetch_target(DownType::ImageSizes, "sic66", "123");
    assert_eq!(t.url, "https://www.flickr.com/photos/sic66/123/sizes/o/");
    assert_eq!(t.cache_path, "image-db/imagesizes/sic66_123");
}

#[test]
fn original_target() {
    let url = "https://live.staticflickr.com/1646/23800577019_a0b1c2d3e4_o.jpg";
    let t = fetch_target(DownType::ImageOrig, "sic66", url);
    assert_eq!(t.url, url);
    assert_eq!(t.cache_name, "sic66_23800577019_a0b1c2d3e4_o.jpg");
    assert_eq!(t.relative_path, "imageorig/sic66_23800577019_a0b1c2d3e4_o.jpg");
    assert_eq!(t.cache_path, "image-db/imageorig/sic66_23800577019_a0b1c2d3e4_o.jpg");
}

#[test]
fn throttle_waits_for_the_interval() {
    let mut t = Throttle::new();
    assert_eq!(t.delay_before_request(0), 0);
    t.record_request(10_000);
    assert_eq!(t.delay_before_request(10_000), 5000);
    assert_eq!(t.delay_before_request(12_500), 2500);
    assert_eq!(t.delay_before_request(14_000), 1000);
    assert_eq!(t.delay_before_request(14_001), 0);
    assert_eq!(t.delay_before_request(20_000), 0);
    t.record_request(u64::MAX - 10);
    assert_eq!(t.delay_before_request(u64::MAX - 2000), 2000);
}

use flikr_scraper::downloader::{FetchAction, FetchEvent, FetchPhase, FetchSession};

#[test]
fn cached_download_is_read() {
    let mut throttle = Throttle::new();
    let mut s = FetchSession::new();
    assert_eq!(s.step(&mut throttle, FetchEvent::Started), FetchAction::ProbeCache);
    assert_eq!(s.step(&mut throttle, FetchEvent::CacheProbed(true)), FetchAction::ReadCache);
    assert_eq!(s.step(&mut throttle, FetchEvent::CacheRead), FetchAction::Done);
    assert_eq!(s.phase, FetchPhase::Finished);
    assert_eq!(throttle.delay_before_request(0), 0);
}

#[test]
fn uncached_download_is_throttled() {
    let mut throttle = Throttle::new();
    throttle.record_request(1000);
    let mut s = FetchSession::new();
    assert_eq!(s.step(&mut throttle, FetchEvent::Started), FetchAction::ProbeCache);
    assert_eq!(s.step(&mut throttle, FetchEvent::CacheProbed(false)), FetchAction::ReadClock);
    assert_eq!(s.step(&mut throttle, FetchEvent::Clock(3000)), FetchAction::Sleep(3000));
    assert_eq!(s.step(&mut throttle, FetchEvent::Stored), FetchAction::Sleep(3000));
    assert_eq!(s.step(&mut throttle, FetchEvent::Slept), FetchAction::Request);
    assert_eq!(s.step(&mut throttle, FetchEvent::Responded(200)), FetchAction::Store);
    assert_eq!(s.step(&mut throttle, FetchEvent::Stored), FetchAction::ReadClock);
    assert_eq!(s.step(&mut throttle, FetchEvent::Clock(9000)), FetchAction::Done);
    assert_eq!(throttle.delay_before_request(9000), 5000);
}
