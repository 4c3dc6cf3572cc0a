use vstd::prelude::*;
use vstd::relations::*;

use vstd::utf8::{decode_utf8, encode_utf8, valid_utf8};

use crate::downloader::{path, path_join, texts, IMAGE_DB_ROOT};
use crate::err::{ImageListError, PageError};
use crate::text::{concat, trim, trim_text};
use crate::viewer_gen::BookPhoto;
use crate::order::{lemma_text_le_total, lemma_text_order, text_le, text_less, text_lt};

verus! {

broadcast use vstd::seq_lib::group_to_multiset_ensures;

/// What becomes of an extracted image list: refused when empty, refused when an
/// address repeats, otherwise the addresses sorted in text order.
pub open spec fn image_list_outcome(images: Seq<Seq<char>>) -> Result<Seq<Seq<char>>, ImageListError> {
    if images.len() == 0 {
        Err(ImageListError::NoImages)
    } else if !images.no_duplicates() {
        Err(ImageListError::DuplicateImages)
    } else {
        Ok(images.sort_by(text_le()))
    }
}

/// Every text comes strictly before the texts after it.
pub open spec fn strictly_sorted(s: Seq<Seq<char>>) -> bool {
    forall|a: int, b: int| 0 <= a < b < s.len() ==> text_lt(#[trigger] s[a], #[trigger] s[b])
}

/// The view of a result of an image-list function.
pub open spec fn image_list_view(r: Result<Vec<String>, ImageListError>) -> Result<Seq<Seq<char>>, ImageListError> {
    match r {
        Ok(v) => Ok(v.deep_view()),
        Err(e) => Err(e),
    }
}

/// Checks and orders the addresses that the extractor found: none at all is refused,
/// a repeated address is refused, otherwise the addresses come back in text order.
pub fn finish_image_list(images: Vec<String>) -> (r: Result<Vec<String>, ImageListError>)
    ensures
        image_list_view(r) == image_list_outcome(images.deep_view()),
{
    let ghost all = images.deep_view();
    if images.len() == 0 {
        return Err(ImageListError::NoImages);
    }
    let mut sorted: Vec<String> = Vec::new();
    for i in 0..images.len()
        invariant
            all == images.deep_view(),
            strictly_sorted(sorted.deep_view()),
            sorted.deep_view().to_multiset() == all.take(i as int).to_multiset(),
            all.take(i as int).no_duplicates(),
    {
        let ghost s = sorted.deep_view();
        let ghost x = all[i as int];
        assert(images[i as int]@ == x);
        let mut lo: usize = 0;
        let mut hi: usize = sorted.len();
        while lo < hi
            invariant
                s == sorted.deep_view(),
                x == images[i as int]@,
                strictly_sorted(s),
                i < images.len(),
                all == images.deep_view(),
                s.to_multiset() == all.take(i as int).to_multiset(),
                lo <= hi <= s.len(),
                forall|k: int| 0 <= k < lo ==> text_lt(#[trigger] s[k], x),
                forall|k: int| hi <= k < s.len() ==> text_lt(x, #[trigger] s[k]),
            decreases hi - lo,
        {
            let mid = lo + (hi - lo) / 2;
            assert(sorted[mid as int]@ == s[mid as int]);
            if text_less(sorted[mid].as_str(), images[i].as_str()) {
                assert forall|k: int| 0 <= k < mid + 1 implies text_lt(#[trigger] s[k], x) by {
                    if k < mid {
                        assert(text_lt(s[k], s[mid as int]));
                        lemma_text_order(s[k], s[mid as int], x);
                    }
                }
                lo = mid + 1;
            } else if text_less(images[i].as_str(), sorted[mid].as_str()) {
                assert forall|k: int| mid <= k < s.len() implies text_lt(x, #[trigger] s[k]) by {
                    if k > mid {
                        assert(text_lt(s[mid as int], s[k]));
                        lemma_text_order(x, s[mid as int], s[k]);
                    }
                }
                hi = mid;
            } else {
                proof {
                    lemma_text_order(x, s[mid as int], x);
                    assert(x == s[mid as int]);
                    assert(s.to_multiset().contains(x));
                    assert(all.take(i as int).to_multiset().contains(x));
                    assert(all.take(i as int).contains(x));
                    let j = choose|j: int| 0 <= j < all.take(i as int).len() && all.take(i as int)[j] == x;
                    assert(all[j] == all[i as int]);
                    assert(!all.no_duplicates());
                }
                return Err(ImageListError::DuplicateImages);
            }
        }
        let item = images[i].clone();
        sorted.insert(lo, item);
        proof {
            let t = sorted.deep_view();
            assert(t =~= s.insert(lo as int, x));
            assert forall|a: int, b: int| 0 <= a < b < t.len() implies text_lt(
                #[trigger] t[a],
                #[trigger] t[b],
            ) by {
                if b < lo {
                } else if b == lo {
                } else if a < lo {
                    lemma_text_order(t[a], x, t[b]);
                } else if a == lo {
                } else {
                }
            }
            assert(all.take(i + 1) =~= all.take(i as int).push(x));
            assert forall|k: int| 0 <= k < s.len() implies s[k] != x by {
                lemma_text_order(x, x, x);
            }
            assert(!s.contains(x));
            assert(!all.take(i as int).contains(x)) by {
                if all.take(i as int).contains(x) {
                    assert(all.take(i as int).to_multiset().contains(x));
                }
            }
            assert(all.take(i + 1).no_duplicates()) by {
                assert forall|a: int, b: int|
                    0 <= a < i + 1 && 0 <= b < i + 1 && a != b implies #[trigger] all.take(i + 1)[a]
                    != #[trigger] all.take(i + 1)[b] by {
                    if a == i {
                        assert(all.take(i as int).contains(all.take(i + 1)[b]));
                    } else if b == i {
                        assert(all.take(i as int).contains(all.take(i + 1)[a]));
                    } else {
                        assert(all.take(i as int)[a] != all.take(i as int)[b]);
                    }
                }
            }
        }
    }
    proof {
        assert(all.take(all.len() as int) =~= all);
        let s = sorted.deep_view();
        lemma_text_le_total();
        assert(sorted_by(s, text_le())) by {
            assert forall|a: int, b: int| 0 <= a < b < s.len() implies #[trigger] text_le()(
                s[a],
                s[b],
            ) by {
                assert(text_lt(s[a], s[b]));
            }
        }
        all.lemma_sort_by_ensures(text_le());
        vstd::seq_lib::lemma_sorted_unique(s, all.sort_by(text_le()), text_le());
    }
    Ok(sorted)
}

/// An accepted image list comes back in its final form: checking and ordering it again
/// accepts it and leaves it as it is.
pub proof fn lemma_image_list_canonical(images: Seq<Seq<char>>)
    requires
        image_list_outcome(images) is Ok,
    ensures
        image_list_outcome(image_list_outcome(images)->Ok_0) == image_list_outcome(images),
{
    let sorted = images.sort_by(text_le());
    lemma_text_le_total();
    images.lemma_sort_by_ensures(text_le());
    sorted.lemma_sort_by_ensures(text_le());
    images.lemma_multiset_has_no_duplicates();
    sorted.lemma_multiset_has_no_duplicates_conv();
    vstd::seq_lib::to_multiset_len(sorted);
    vstd::seq_lib::to_multiset_len(images);
    assert(sorted.len() == images.len());
    vstd::seq_lib::lemma_sorted_unique(sorted, sorted.sort_by(text_le()), text_le());
}

/// The strings of a JSON array of strings, as `simd_json::from_slice::<Vec<String>>`
/// reads them from `bytes`; `None` where it reports an error.
pub uninterp spec fn json_string_array(bytes: Seq<u8>) -> Option<Seq<Seq<char>>>;

/// Reads a JSON array of strings with `simd_json::from_slice`, on a copy of `raw` (the
/// parser rewrites its input). The contract says only that the result is what that
/// parser gives for these bytes.
#[verifier::external_body]
pub(crate) fn parse_string_array(raw: &[u8]) -> (r: Option<Vec<String>>)
    ensures
        r.deep_view() == json_string_array(raw@),
{
    let mut buffer = raw.to_vec();
    simd_json::from_slice::<Vec<String>>(&mut buffer).ok()
}

/// What becomes of the extractor output `raw`: refused when it is not a JSON array of
/// strings, otherwise as `image_list_outcome` says of the strings.
pub open spec fn js_extractor_outcome(raw: Seq<u8>) -> Result<Seq<Seq<char>>, ImageListError> {
    match json_string_array(raw) {
        None => Err(ImageListError::BadJson),
        Some(images) => image_list_outcome(images),
    }
}

/// The extractor output `raw` is a JSON array of strings, not empty and with no string
/// twice.
pub open spec fn good_js_extractor(raw: Seq<u8>) -> bool {
    json_string_array(raw) matches Some(images) && images.len() > 0 && images.no_duplicates()
}

/// The image addresses in the JSON output of the browser-side extractor, in text order.
/// The output must be a JSON array of strings, not empty and with no address twice.
pub fn read_js_extractor(raw_json: &[u8]) -> (r: Vec<String>)
    requires
        good_js_extractor(raw_json@),
    ensures
        r.deep_view() == json_string_array(raw_json@)->Some_0.sort_by(text_le()),
{
    match parse_string_array(raw_json) {
        None => vstd::pervasive::unreached(),
        Some(images) => match finish_image_list(images) {
            Ok(sorted) => sorted,
            Err(_) => vstd::pervasive::unreached(),
        },
    }
}

/// The image addresses in the extractor output `raw_json`, or why it is refused: not a
/// JSON array of strings, empty, or holding an address twice.
pub fn read_js_extractor_checked(raw_json: &[u8]) -> (r: Result<Vec<String>, ImageListError>)
    ensures
        image_list_view(r) == js_extractor_outcome(raw_json@),
        r is Ok <==> good_js_extractor(raw_json@),
{
    match parse_string_array(raw_json) {
        None => Err(ImageListError::BadJson),
        Some(images) => match finish_image_list(images) {
            Err(e) => Err(e),
            Ok(_) => Ok(read_js_extractor(raw_json)),
        },
    }
}

/// Where the extractor output for `for_user` is kept: `image-db/photostream-js/{user}.json`.
pub fn js_extractor_file(for_user: &str) -> (r: String)
    ensures
        r@ == path_join(seq![IMAGE_DB_ROOT@, "photostream-js"@, for_user@ + ".json"@]),
{
    let file = concat(for_user, ".json");
    let parts = [IMAGE_DB_ROOT, "photostream-js", file.as_str()];
    let r = path(parts);
    assert(texts(parts@) =~= seq![IMAGE_DB_ROOT@, "photostream-js"@, for_user@ + ".json"@]);
    r
}

/// The text that the bytes `bytes` encode in UTF-8, by `std::str::from_utf8`: present
/// exactly when the bytes are valid UTF-8, and then a text whose encoding is those bytes.
#[verifier::external_body]
fn utf8_text(bytes: &[u8]) -> (r: Option<&str>)
    ensures
        r is Some <==> valid_utf8(bytes@),
        r matches Some(s) ==> encode_utf8(s@) == bytes@,
{
    std::str::from_utf8(bytes).ok()
}

/// For each element of the HTML document `document` that the CSS selector `selector`
/// matches, in the order that `Html::select` yields them, the value of its attribute `attr`; `None` when the
/// selector does not parse.
pub uninterp spec fn selected_attributes(document: Seq<char>, selector: Seq<char>, attr: Seq<char>) -> Option<Seq<Option<Seq<char>>>>;

/// Parses `document` with `scraper::Html::parse_document`, `selector` with
/// `scraper::Selector::parse`, and reads attribute `attr` of each element that
/// `Html::select` yields, with `ElementRef::attr`. The contract says only that the result
/// is what these calls give for these texts.
#[verifier::external_body]
fn select_attribute(document: &str, selector: &str, attr: &str) -> (r: Option<Vec<Option<String>>>)
    ensures
        r.deep_view() == selected_attributes(document@, selector@, attr@),
{
    let selector = scraper::Selector::parse(selector).ok()?;
    let html = scraper::Html::parse_document(document);
    let mut values = Vec::new();
    for element in html.select(&selector) {
        values.push(element.attr(attr).map(String::from));
    }
    Some(values)
}

/// For each element of the HTML document `document` that the CSS selector `selector`
/// matches, in the order that `Html::select` yields them, its inner HTML; `None` when the selector does not parse.
pub uninterp spec fn selected_inner_html(document: Seq<char>, selector: Seq<char>) -> Option<Seq<Seq<char>>>;

/// Parses `document` with `scraper::Html::parse_document`, `selector` with
/// `scraper::Selector::parse`, and serialises each element that `Html::select` yields
/// with `ElementRef::inner_html`. The contract says only that the result is what these
/// calls give for these texts.
#[verifier::external_body]
fn select_inner_html(document: &str, selector: &str) -> (r: Option<Vec<String>>)
    ensures
        r.deep_view() == selected_inner_html(document@, selector@),
{
    let selector = scraper::Selector::parse(selector).ok()?;
    let html = scraper::Html::parse_document(document);
    let mut values = Vec::new();
    for element in html.select(&selector) {
        values.push(element.inner_html());
    }
    Some(values)
}

/// The view of a result that carries a text.
pub open spec fn text_result_view(r: Result<String, PageError>) -> Result<Seq<char>, PageError> {
    match r {
        Ok(s) => Ok(s@),
        Err(e) => Err(e),
    }
}

/// The selector of the links in the size list of an image's sizes page.
pub open spec fn sizes_selector() -> Seq<char> {
    "#all-sizes-header > dl > dd > a"@
}

/// The original-size address among the `href`s of the size list: the list must have two
/// or three entries, and the last one is the original.
pub open spec fn size_url_from(links: Seq<Option<Seq<char>>>) -> Result<Seq<char>, PageError> {
    if links.len() != 2 && links.len() != 3 {
        Err(PageError::UnexpectedMatchCount(links.len() as usize))
    } else {
        match links.last() {
            Some(href) => Ok(href),
            None => Err(PageError::MissingHref),
        }
    }
}

/// What the sizes page `content` yields as the address of the original image.
pub open spec fn size_url_outcome(content: Seq<u8>) -> Result<Seq<char>, PageError> {
    if !valid_utf8(content) {
        Err(PageError::NotUtf8)
    } else {
        match selected_attributes(decode_utf8(content), sizes_selector(), "href"@) {
            None => Err(PageError::BadSelector),
            Some(links) => size_url_from(links),
        }
    }
}

/// The size list of the sizes page `content` fits: the page is UTF-8, the selector
/// parses, the list has two or three links, and the last one has an `href`.
pub open spec fn good_sizes_page(content: Seq<u8>) -> bool {
    &&& valid_utf8(content)
    &&& selected_attributes(decode_utf8(content), sizes_selector(), "href"@) matches Some(links)
    &&& size_url_from(links) is Ok
}

/// The original-size address among the `href`s of the size list: the `href` of the last
/// of its two or three links, which must have one.
pub fn original_size_url_from_links(links: Vec<Option<String>>) -> (r: String)
    requires
        links.len() == 2 || links.len() == 3,
        links@.last() is Some,
    ensures
        Ok::<Seq<char>, PageError>(r@) == size_url_from(links.deep_view()),
{
    let mut links = links;
    let ghost before = links.deep_view();
    match links.pop() {
        Some(Some(href)) => {
            assert(before.last() == Some(href@));
            href
        },
        _ => vstd::pervasive::unreached(),
    }
}

/// The address of the original image, read from an image's sizes page; the page must
/// be UTF-8 and its size list must have two or three links, the last with an `href`.
pub fn extract_original_size_url(content: Vec<u8>) -> (r: String)
    requires
        good_sizes_page(content@),
    ensures
        Ok::<Seq<char>, PageError>(r@) == size_url_outcome(content@),
{
    let text = match utf8_text(content.as_slice()) {
        None => vstd::pervasive::unreached(),
        Some(text) => text,
    };
    proof {
        vstd::utf8::encode_utf8_decode_utf8(text@);
    }
    match select_attribute(text, "#all-sizes-header > dl > dd > a", "href") {
        None => vstd::pervasive::unreached(),
        Some(links) => {
            assert(links.deep_view().last() == links@.last().deep_view());
            original_size_url_from_links(links)
        },
    }
}

/// The address of the original image read from an image's sizes page, or why the page
/// does not give one.
pub fn extract_original_size_url_checked(content: Vec<u8>) -> (r: Result<String, PageError>)
    ensures
        text_result_view(r) == size_url_outcome(content@),
        r is Ok <==> good_sizes_page(content@),
{
    let links = {
        let text = match utf8_text(content.as_slice()) {
            None => return Err(PageError::NotUtf8),
            Some(text) => text,
        };
        proof {
            vstd::utf8::encode_utf8_decode_utf8(text@);
        }
        match select_attribute(text, "#all-sizes-header > dl > dd > a", "href") {
            None => return Err(PageError::BadSelector),
            Some(links) => links,
        }
    };
    let n = links.len();
    if n != 2 && n != 3 {
        return Err(PageError::UnexpectedMatchCount(n));
    }
    if links[n - 1].is_none() {
        assert(links.deep_view().last() == None::<Seq<char>>);
        return Err(PageError::MissingHref);
    }
    assert(links.deep_view().last() is Some);
    Ok(extract_original_size_url(content))
}

/// The text of the one match, trimmed, or `fallback` when there is not exactly one.
pub open spec fn single_match(matches: Seq<Seq<char>>, fallback: Seq<char>) -> Seq<char> {
    if matches.len() == 1 {
        trim(matches[0])
    } else {
        fallback
    }
}

/// The text of the one match, trimmed, or `fallback` when there is not exactly one.
pub fn single_match_text(matches: &Vec<String>, fallback: &str) -> (r: String)
    ensures
        r@ == single_match(matches.deep_view(), fallback@),
{
    if matches.len() == 1 {
        trim_text(matches[0].as_str())
    } else {
        fallback.to_owned()
    }
}

/// The selector of the title on an image's viewer page.
pub open spec fn title_selector() -> Seq<char> {
    ".scrollable-container .photo-title"@
}

/// The selector of the description on an image's viewer page.
pub open spec fn description_selector() -> Seq<char> {
    ".photo-desc"@
}

/// The CSS selector that matches every element of class `class`, whatever its tag.
pub open spec fn class_selector(class: Seq<char>) -> Seq<char> {
    "."@ + class
}

/// The title is looked for in every element of class `photo-title` at any depth below an
/// element of class `scrollable-container` (a descendant combinator, a single space, not
/// `>`), and the description in every element of class `photo-desc`, whatever its tag.
/// The size links are the `a` children of the `dd` children of the `dl` children of the
/// element with id `all-sizes-header`.
pub proof fn lemma_page_selectors()
    ensures
        title_selector() == class_selector("scrollable-container"@) + " "@ + class_selector(
            "photo-title"@,
        ),
        !title_selector().contains('>'),
        description_selector() == class_selector("photo-desc"@),
        description_selector()[0] == '.',
        !description_selector().contains('>') && !description_selector().contains(' '),
        sizes_selector() == "#"@ + "all-sizes-header"@ + " > dl > dd > a"@,
{
    reveal_strlit(".scrollable-container .photo-title");
    reveal_strlit(".photo-desc");
    reveal_strlit("#all-sizes-header > dl > dd > a");
    reveal_strlit(".");
    reveal_strlit(" ");
    reveal_strlit("#");
    reveal_strlit("scrollable-container");
    reveal_strlit("photo-title");
    reveal_strlit("photo-desc");
    reveal_strlit("all-sizes-header");
    reveal_strlit(" > dl > dd > a");
    assert(title_selector() =~= class_selector("scrollable-container"@) + " "@ + class_selector(
        "photo-title"@,
    ));
    assert(description_selector() =~= class_selector("photo-desc"@));
    assert(sizes_selector() =~= "#"@ + "all-sizes-header"@ + " > dl > dd > a"@);
    assert forall|i: int| 0 <= i < title_selector().len() implies title_selector()[i] != '>' by {}
    assert forall|i: int| 0 <= i < description_selector().len() implies description_selector()[i]
        != '>' && description_selector()[i] != ' ' by {}
}

/// The viewer page `content` can be read: it is UTF-8 and both selectors parse.
pub open spec fn good_viewer_page(content: Seq<u8>) -> bool {
    &&& valid_utf8(content)
    &&& selected_inner_html(decode_utf8(content), title_selector()) is Some
    &&& selected_inner_html(decode_utf8(content), description_selector()) is Some
}

/// The title that the viewer page `content` gives a photo.
pub open spec fn page_title(content: Seq<u8>) -> Seq<char> {
    single_match(selected_inner_html(decode_utf8(content), title_selector())->Some_0, "no-title"@)
}

/// The description that the viewer page `content` gives a photo.
pub open spec fn page_description(content: Seq<u8>) -> Seq<char> {
    single_match(
        selected_inner_html(decode_utf8(content), description_selector())->Some_0,
        "no-desc"@,
    )
}

/// Reads the title and description of a photo from its viewer page `content`, which must
/// be UTF-8, into `book_photo`: each is the trimmed inner HTML of the one element found,
/// or `no-title` / `no-desc` when there is not exactly one. The address stays.
pub fn extract_image_meta(content: Vec<u8>, book_photo: &mut BookPhoto)
    requires
        good_viewer_page(content@),
    ensures
        final(book_photo).url == old(book_photo).url,
        final(book_photo).title@ == page_title(content@),
        final(book_photo).description@ == page_description(content@),
{
    let text = match utf8_text(content.as_slice()) {
        None => vstd::pervasive::unreached(),
        Some(text) => text,
    };
    proof {
        vstd::utf8::encode_utf8_decode_utf8(text@);
    }
    let titles = match select_inner_html(text, ".scrollable-container .photo-title") {
        None => vstd::pervasive::unreached(),
        Some(titles) => titles,
    };
    let descriptions = match select_inner_html(text, ".photo-desc") {
        None => vstd::pervasive::unreached(),
        Some(descriptions) => descriptions,
    };
    book_photo.title = single_match_text(&titles, "no-title");
    book_photo.description = single_match_text(&descriptions, "no-desc");
}

/// Reads the title and description of a photo from its viewer page `content` into
/// `book_photo`, as `extract_image_meta` does; a page that is not UTF-8 or a selector
/// that does not parse is reported, and `book_photo` is then left as it was.
pub fn extract_image_meta_checked(content: Vec<u8>, book_photo: &mut BookPhoto) -> (r: Result<(), PageError>)
    ensures
        r is Ok <==> good_viewer_page(content@),
        r is Ok ==> {
            &&& final(book_photo).url == old(book_photo).url
            &&& final(book_photo).title@ == page_title(content@)
            &&& final(book_photo).description@ == page_description(content@)
        },
        !valid_utf8(content@) ==> r == Err::<(), PageError>(PageError::NotUtf8),
        valid_utf8(content@) && !good_viewer_page(content@) ==> r == Err::<(), PageError>(
            PageError::BadSelector,
        ),
        r is Err ==> *final(book_photo) == *old(book_photo),
{
    {
        let text = match utf8_text(content.as_slice()) {
            None => return Err(PageError::NotUtf8),
            Some(text) => text,
        };
        proof {
            vstd::utf8::encode_utf8_decode_utf8(text@);
        }
        if select_inner_html(text, ".scrollable-container .photo-title").is_none() {
            return Err(PageError::BadSelector);
        }
        if select_inner_html(text, ".photo-desc").is_none() {
            return Err(PageError::BadSelector);
        }
    }
    extract_image_meta(content, book_photo);
    Ok(())
}

} // verus!
