use flikr_scraper::err::{ImageListError, PageError};
use flikr_scraper::flikr_extractor::{
    extract_image_meta, extract_image_meta_checked, extract_original_size_url,
    extract_original_size_url_checked, finish_image_list, js_extractor_file,
    original_size_url_from_links, read_js_extractor, read_js_extractor_checked,
    single_match_text,
};
use flikr_scraper::flikr_js_extractor;
use flikr_scraper::viewer_gen::BookPhoto;

fn strings(items: &[&str]) -> Vec<String> {
    items.iter().map(|s| s.to_string()).collect()
}

#[test]
fn image_list_is_sorted() {
    let r = finish_image_list(strings(&["b", "a", "é", "ab", "Z"]));
    assert_eq!(r, Ok(strings(&["Z", "a", "ab", "b", "é"])));
}

#[test]
fn empty_image_list_is_refused() {
    assert_eq!(finish_image_list(Vec::new()), Err(ImageListError::NoImages));
}

#[test]
fn repeated_image_is_refused() {
    let r = finish_image_list(strings(&["a", "b", "a"]));
    assert_eq!(r, Err(ImageListError::DuplicateImages));
}

#[test]
fn js_extractor_json() {
    let r = read_js_extractor(br#"["https://x/2.jpg", "https://x/1.jpg"]"#);
    assert_eq!(r, strings(&["https://x/1.jpg", "https://x/2.jpg"]));
    let r = read_js_extractor_checked(br#"["https://x/2.jpg", "https://x/1.jpg"]"#);
    assert_eq!(r, Ok(strings(&["https://x/1.jpg", "https://x/2.jpg"])));
    assert_eq!(read_js_extractor_checked(b"[]"), Err(ImageListError::NoImages));
    assert_eq!(read_js_extractor_checked(b"{\"a\": 1}"), Err(ImageListError::BadJson));
    assert_eq!(
        read_js_extractor_checked(b"[\"a\", \"a\"]"),
        Err(ImageListError::DuplicateImages)
    );
}

#[test]
fn js_extractor_several_files() {
    let files = vec![b"[\"c\", \"a\"]".to_vec(), b"[\"b\"]".to_vec()];
    assert_eq!(flikr_js_extractor::read_js_extractor(files.clone()), strings(&["a", "b", "c"]));
    assert_eq!(flikr_js_extractor::read_js_extractor_checked(files), Ok(strings(&["a", "b", "c"])));
    let files = vec![b"[\"a\"]".to_vec(), b"not json".to_vec()];
    assert_eq!(flikr_js_extractor::read_js_extractor_checked(files), Err(ImageListError::BadJson));
    let files = vec![b"[\"a\"]".to_vec(), b"[\"a\"]".to_vec()];
    assert_eq!(
        flikr_js_extractor::read_js_extractor_checked(files),
        Err(ImageListError::DuplicateImages)
    );
    assert_eq!(
        flikr_js_extractor::read_js_extractor_checked(Vec::new()),
        Err(ImageListError::NoImages)
    );
}

#[test]
fn js_entry_matching() {
    assert!(flikr_js_extractor::js_entry_matches(
        "image-db/photostream-js/98762402@n06.json",
        "98762402@N06"
    ));
    assert!(!flikr_js_extractor::js_entry_matches("image-db/photostream-js/sic66.json", "fritz"));
}

#[test]
fn extractor_file_path() {
    assert_eq!(js_extractor_file("sic66"), "image-db/photostream-js/sic66.json");
}

const SIZES_PAGE: &str = r#"<html><body><div id="all-sizes-header"><dl>
<dd><a href="/photos/u/1/sizes/s/">Small</a></dd>
<dd><a href="/photos/u/1/sizes/m/">Medium</a></dd>
<dd><a href="https://live.staticflickr.com/1/1_ab_o.jpg">Original</a></dd>
</dl></div></body></html>"#;

#[test]
fn original_size_url() {
    let r = extract_original_size_url(SIZES_PAGE.as_bytes().to_vec());
    assert_eq!(r, "https://live.staticflickr.com/1/1_ab_o.jpg");
    let r = extract_original_size_url_checked(SIZES_PAGE.as_bytes().to_vec());
    assert_eq!(r, Ok("https://live.staticflickr.com/1/1_ab_o.jpg".to_string()));
}

#[test]
fn original_size_url_errors() {
    let page = "<html><body><p>nothing</p></body></html>";
    assert_eq!(
        extract_original_size_url_checked(page.as_bytes().to_vec()),
        Err(PageError::UnexpectedMatchCount(0))
    );
    assert_eq!(extract_original_size_url_checked(vec![0xff, 0xfe]), Err(PageError::NotUtf8));
    let page = r#"<div id="all-sizes-header"><dl><dd><a href="a">S</a></dd><dd><a>O</a></dd></dl></div>"#;
    assert_eq!(
        extract_original_size_url_checked(page.as_bytes().to_vec()),
        Err(PageError::MissingHref)
    );
}

#[test]
fn size_links() {
    let links = vec![Some("a".to_string()), Some("b".to_string())];
    assert_eq!(original_size_url_from_links(links), "b");
    let links = vec![None, Some("a".to_string()), Some("c".to_string())];
    assert_eq!(original_size_url_from_links(links), "c");
}

#[test]
fn image_meta() {
    let page = r#"<html><body><div class="scrollable-container"><h1 class="photo-title">
  Sunset </h1></div><div class="photo-desc">A <b>red</b> sky</div></body></html>"#;
    let mut photo = BookPhoto {
        url: "imageorig/u_1.jpg".to_string(),
        title: String::new(),
        description: String::new(),
    };
    extract_image_meta(page.as_bytes().to_vec(), &mut photo);
    assert_eq!(photo.title, "Sunset");
    assert_eq!(photo.description, "A <b>red</b> sky");
    assert_eq!(photo.url, "imageorig/u_1.jpg");
}

#[test]
fn image_meta_fallbacks() {
    let page = "<html><body><p class=\"photo-desc\">a</p><p class=\"photo-desc\">b</p></body></html>";
    let mut photo = BookPhoto { url: String::new(), title: String::new(), description: String::new() };
    assert_eq!(extract_image_meta_checked(page.as_bytes().to_vec(), &mut photo), Ok(()));
    assert_eq!(photo.title, "no-title");
    assert_eq!(photo.description, "no-desc");
    assert_eq!(extract_image_meta_checked(vec![0xc0], &mut photo), Err(PageError::NotUtf8));
    assert_eq!(photo.title, "no-title");
}

#[test]
fn single_match() {
    assert_eq!(single_match_text(&strings(&[" \t x y\n"]), "none"), "x y");
    assert_eq!(single_match_text(&strings(&[]), "none"), "none");
    assert_eq!(single_match_text(&strings(&["a", "b"]), "none"), "none");
}
