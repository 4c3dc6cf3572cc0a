use vstd::prelude::*;
use vstd::utf8::{decode_utf8, encode_utf8};

use crate::downloader::{
    cache_name_of, cache_path_of, fetch_target, relative_path_of, target_url, DownType, FetchTarget,
};
use crate::err::PageError;
use crate::flikr_extractor::{extract_original_size_url_checked, size_url_outcome};
use crate::flikr_url::{extract_image_id_from_livestatic, is_livestatic, livestatic_id_bytes};
use crate::text::{contains_text, occurs_at, replace_all, replace_text};

verus! {

/// The user id that an extractor output file is named after: its name with every
/// `.json` taken out.
pub fn user_id_from_file_name(file_name: &str) -> (r: String)
    ensures
        r@ == replace_all(file_name@, ".json"@, ""@),
{
    proof {
        reveal_strlit(".json");
    }
    replace_text(file_name, ".json", "")
}

/// `t` is the target of a download of kind `d` for `user` with `extra`.
pub open spec fn is_target(t: FetchTarget, d: DownType, user: Seq<char>, extra: Seq<char>) -> bool {
    &&& t.url@ == target_url(d, user, extra)
    &&& t.cache_name@ == cache_name_of(d, user, extra)
    &&& t.relative_path@ == relative_path_of(d, user, extra)
    &&& t.cache_path@ == cache_path_of(d, user, extra)
}

/// The sizes page to download for the image at `image_path`, a `live.staticflickr.com`
/// address: the page of the image id that the address holds.
pub fn image_sizes_request(for_user: &str, image_path: &str) -> (t: FetchTarget)
    requires
        is_livestatic(encode_utf8(image_path@)),
    ensures
        is_target(
            t,
            DownType::ImageSizes,
            for_user@,
            decode_utf8(livestatic_id_bytes(encode_utf8(image_path@))),
        ),
{
    let image_id = extract_image_id_from_livestatic(image_path);
    fetch_target(DownType::ImageSizes, for_user, image_id)
}

/// The original image to download, as the sizes page `sizes_page` gives its address.
/// The address must hold a `/`, which separates its file name.
pub fn original_image_request(for_user: &str, sizes_page: Vec<u8>) -> (r: Result<FetchTarget, PageError>)
    ensures
        match size_url_outcome(sizes_page@) {
            Err(e) => r == Err::<FetchTarget, PageError>(e),
            Ok(url) => if url.contains('/') {
                r matches Ok(t) && is_target(t, DownType::ImageOrig, for_user@, url)
            } else {
                r == Err::<FetchTarget, PageError>(PageError::MissingFileName)
            },
        },
{
    let url = match extract_original_size_url_checked(sizes_page) {
        Err(e) => return Err(e),
        Ok(url) => url,
    };
    proof {
        reveal_strlit("/");
    }
    if !contains_text(url.as_str(), "/") {
        proof {
            if url@.contains('/') {
                let i = choose|i: int| 0 <= i < url@.len() && url@[i] == '/';
                assert(url@.subrange(i, i + 1) =~= "/"@);
                assert(occurs_at(url@, i, "/"@));
            }
        }
        return Err(PageError::MissingFileName);
    }
    proof {
        let i = choose|i: int| occurs_at(url@, i, "/"@);
        assert(url@[i] == url@.subrange(i, i + 1)[0]);
    }
    Ok(fetch_target(DownType::ImageOrig, for_user, url.as_str()))
}

} // verus!
