use flikr_scraper::flikr_url::{
    extract_image_id_from_livestatic, flikr_photostream_pages_as_ids, index_of_at_count,
    is_livestatic_url,
};
use flikr_scraper::utils::last_position_of;

#[test]
fn text_extract() {
    let url = "https://live.staticflickr.com/1646/23800577019_ce3007b2e6.jpg";
    assert_eq!(extract_image_id_from_livestatic(url), "23800577019")
}

#[test]
fn livestatic_url_accepted() {
    assert!(is_livestatic_url(
        "https://live.staticflickr.com/1646/23800577019_ce3007b2e6.jpg"
    ));
}

#[test]
fn livestatic_url_refused() {
    assert!(!is_livestatic_url("https://live.staticflickr.com/1646"));
    assert!(!is_livestatic_url("https://live.staticflickr.com/1646/2380057701.jpg"));
    assert!(!is_livestatic_url("https://live_static/a/b/c"));
}

#[test]
fn image_id_after_non_ascii() {
    assert_eq!(extract_image_id_from_livestatic("h://é/x/ü/123_4"), "ü/123");
    assert_eq!(extract_image_id_from_livestatic("h://é/x/ü_4"), "ü");
}

#[test]
fn pages_as_ids() {
    let ids = flikr_photostream_pages_as_ids("sic66", 12);
    assert_eq!(ids.len(), 12);
    assert_eq!(ids[0], "sic66/page1");
    assert_eq!(ids[9], "sic66/page10");
    assert_eq!(ids[11], "sic66/page12");
    assert!(flikr_photostream_pages_as_ids("x", 0).is_empty());
}

#[test]
fn index_at_count() {
    let bytes = b"a/b/c_d/e";
    assert_eq!(index_of_at_count(bytes, b'/', 1), 1);
    assert_eq!(index_of_at_count(bytes, b'/', 3), 7);
    assert_eq!(index_of_at_count(bytes, b'_', 1), 5);
}

#[test]
fn last_position() {
    assert_eq!(last_position_of("https://a/b/c.jpg", b'/'), 11);
    assert_eq!(last_position_of("/", b'/'), 0);
    assert_eq!(last_position_of("é/x", b'/'), 2);
}

#[test]
fn appended_text_keeps_image_id() {
    let url = "https://live.staticflickr.com/1646/23800577019_ce3007b2e6.jpg";
    let longer = format!("{url}?size=o/x_y");
    assert_eq!(extract_image_id_from_livestatic(&longer), extract_image_id_from_livestatic(url));
}

#[test]
fn later_occurrence_comes_later() {
    let bytes = b"a/b/c/d";
    assert!(index_of_at_count(bytes, b'/', 1) < index_of_at_count(bytes, b'/', 2));
    assert!(index_of_at_count(bytes, b'/', 2) < index_of_at_count(bytes, b'/', 3));
}

#[test]
fn last_position_after_prefix() {
    let t = "b/c.jpg";
    let s = "é-x/";
    let joined = format!("{s}{t}");
    assert_eq!(last_position_of(&joined, b'/'), s.len() + last_position_of(t, b'/'));
}
