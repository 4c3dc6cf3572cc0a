use flikr_scraper::fixup_name::{fixup_name, NameFix};
use flikr_scraper::scrape::{image_sizes_request, original_image_request, user_id_from_file_name};
use flikr_scraper::err::PageError;
use flikr_scraper::text::{ascii_lowercase, decimal_string, replace_text, trim_text};
use flikr_scraper::viewer_gen::{book_viewer_script, BookPhoto, BookRoot};

#[test]
fn book_collects_photos_by_user() {
    let mut book = BookRoot::new();
    assert!(book.entries().is_empty());
    book.push_image("alice", "imageorig/alice_1.jpg", "some description".to_string());
    book.push_image("bob", "imageorig/bob_1.jpg", "d".to_string());
    book.push_image("alice", "imageorig/alice_2.jpg", "e".to_string());
    let entries = book.entries();
    assert_eq!(entries.len(), 2);
    assert_eq!(entries[0].user, "alice");
    assert_eq!(entries[0].photos.len(), 2);
    assert_eq!(entries[0].photos[0].url, "imageorig/alice_1.jpg");
    assert_eq!(entries[0].photos[0].description, "some description");
    assert_eq!(entries[0].photos[0].title, "");
    assert_eq!(entries[0].photos[1].url, "imageorig/alice_2.jpg");
    assert_eq!(entries[1].user, "bob");
    assert_eq!(entries[1].photos.len(), 1);
}

#[test]
fn viewer_script() {
    assert_eq!(book_viewer_script("{\"photos\":{}}"), "var book_viewer = {\"photos\":{}}");
}

#[test]
fn user_ids_from_file_names() {
    assert_eq!(user_id_from_file_name("98762402@N06.json"), "98762402@N06");
    assert_eq!(user_id_from_file_name("a.json.json"), "a");
    assert_eq!(user_id_from_file_name("sic66"), "sic66");
}

#[test]
fn name_fixes() {
    match fixup_name("photostream_98762402@n06_page1") {
        NameFix::Rename(n) => assert_eq!(n, "photostream_98762402@N06_page1"),
        other => panic!("unexpected {other:?}"),
    }
    assert!(matches!(fixup_name("x_98762402@N06_1"), NameFix::AlreadyFixed));
    assert!(matches!(fixup_name("sic66_1"), NameFix::Unknown));
}

#[test]
fn text_helpers() {
    assert_eq!(ascii_lowercase("PhotoStream-É"), "photostream-É");
    assert_eq!(decimal_string(0), "0");
    assert_eq!(decimal_string(907), "907");
    assert_eq!(decimal_string(usize::MAX), usize::MAX.to_string());
    assert_eq!(replace_text("aaa", "aa", "b"), "ba");
    assert_eq!(trim_text("\u{3000} x \u{85}"), "x");
    assert_eq!(trim_text("   "), "");
}

#[test]
fn sizes_request() {
    let t = image_sizes_request(
        "sic66",
        "https://live.staticflickr.com/1646/23800577019_ce3007b2e6.jpg",
    );
    assert_eq!(t.url, "https://www.flickr.com/photos/sic66/23800577019/sizes/o/");
    assert_eq!(t.cache_path, "image-db/imagesizes/sic66_23800577019");
}

#[test]
fn original_request() {
    let page = r#"<div id="all-sizes-header"><dl><dd><a href="a">S</a></dd>
<dd><a href="https://live.staticflickr.com/1/9_x_o.jpg">O</a></dd></dl></div>"#;
    let t = original_image_request("u", page.as_bytes().to_vec()).unwrap();
    assert_eq!(t.url, "https://live.staticflickr.com/1/9_x_o.jpg");
    assert_eq!(t.relative_path, "imageorig/u_9_x_o.jpg");
    let page = r#"<div id="all-sizes-header"><dl><dd><a href="a">S</a></dd>
<dd><a href="nofile">O</a></dd></dl></div>"#;
    assert!(matches!(
        original_image_request("u", page.as_bytes().to_vec()),
        Err(PageError::MissingFileName)
    ));
}

#[test]
fn book_counts_every_push() {
    let mut book = BookRoot::new();
    let users = ["a", "b", "a", "c", "a"];
    for (i, u) in users.iter().enumerate() {
        book.push_image(u, &format!("imageorig/{u}_{i}.jpg"), String::new());
    }
    let entries = book.entries();
    assert!(entries.iter().all(|e| !e.photos.is_empty()));
    assert_eq!(entries.iter().map(|e| e.photos.len()).sum::<usize>(), users.len());
}

#[test]
fn push_photo_keeps_title() {
    let mut book = BookRoot::new();
    let photo = BookPhoto { url: "u".to_string(), title: "t".to_string(), description: "d".to_string() };
    book.push_photo("x", photo);
    assert_eq!(book.entries()[0].photos[0].title, "t");
}
