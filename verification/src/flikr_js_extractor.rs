use vstd::prelude::*;

use crate::err::ImageListError;
use crate::flikr_extractor::{
    finish_image_list, image_list_outcome, image_list_view, json_string_array, parse_string_array,
};
use crate::order::text_le;
use crate::text::{ascii_lower, ascii_lowercase, contains_text, has_infix};

verus! {

/// Whether the extractor output at `path` belongs to `for_user`: the path holds the
/// user name in ASCII lower case.
pub fn js_entry_matches(path: &str, for_user: &str) -> (r: bool)
    ensures
        r == has_infix(path@, ascii_lower(for_user@)),
{
    let user = ascii_lowercase(for_user);
    contains_text(path, user.as_str())
}

/// The strings of all the extractor outputs `files` one after the other, or `None` when
/// one of them is not a JSON array of strings.
pub open spec fn all_string_arrays(files: Seq<Seq<u8>>) -> Option<Seq<Seq<char>>>
    decreases files.len(),
{
    if files.len() == 0 {
        Some(Seq::empty())
    } else {
        match (all_string_arrays(files.drop_last()), json_string_array(files.last())) {
            (Some(a), Some(b)) => Some(a + b),
            _ => None,
        }
    }
}

/// What becomes of several extractor outputs for one user.
pub open spec fn js_extractors_outcome(files: Seq<Seq<u8>>) -> Result<Seq<Seq<char>>, ImageListError> {
    match all_string_arrays(files) {
        None => Err(ImageListError::BadJson),
        Some(images) => image_list_outcome(images),
    }
}

/// The extractor outputs `files` are all JSON arrays of strings, and together they hold
/// at least one address and no address twice.
pub open spec fn good_js_extractors(files: Seq<Seq<u8>>) -> bool {
    all_string_arrays(files) matches Some(images) && images.len() > 0 && images.no_duplicates()
}

/// The strings of all the extractor outputs `raw_files` one after the other, or `None`
/// when one of them is not a JSON array of strings.
fn collect_string_arrays(raw_files: &Vec<Vec<u8>>) -> (r: Option<Vec<String>>)
    ensures
        r.deep_view() == all_string_arrays(raw_files.deep_view()),
{
    let ghost files = raw_files.deep_view();
    let mut extracted_imgs: Vec<String> = Vec::new();
    for i in 0..raw_files.len()
        invariant
            files == raw_files.deep_view(),
            all_string_arrays(files.take(i as int)) == Some(extracted_imgs.deep_view()),
    {
        assert(files.take(i + 1).drop_last() =~= files.take(i as int));
        assert(files.take(i + 1).last() == raw_files[i as int]@);
        match parse_string_array(raw_files[i].as_slice()) {
            None => {
                proof {
                    lemma_arrays_none(files, i + 1);
                }
                return None;
            },
            Some(mut imgs) => {
                let ghost before = extracted_imgs.deep_view();
                let ghost added = imgs.deep_view();
                extracted_imgs.append(&mut imgs);
                assert(extracted_imgs.deep_view() =~= before + added);
            },
        }
    }
    assert(files.take(files.len() as int) =~= files);
    Some(extracted_imgs)
}

/// The image addresses in several extractor outputs of one user, joined and sorted in
/// text order. Every output must be a JSON array of strings, and together they must hold
/// at least one address and no address twice.
pub fn read_js_extractor(raw_files: Vec<Vec<u8>>) -> (r: Vec<String>)
    requires
        good_js_extractors(raw_files.deep_view()),
    ensures
        r.deep_view() == all_string_arrays(raw_files.deep_view())->Some_0.sort_by(text_le()),
{
    match collect_string_arrays(&raw_files) {
        None => vstd::pervasive::unreached(),
        Some(images) => match finish_image_list(images) {
            Ok(sorted) => sorted,
            Err(_) => vstd::pervasive::unreached(),
        },
    }
}

/// The image addresses in several extractor outputs of one user, joined, checked and
/// sorted as `finish_image_list` does, or why they are refused.
pub fn read_js_extractor_checked(raw_files: Vec<Vec<u8>>) -> (r: Result<Vec<String>, ImageListError>)
    ensures
        image_list_view(r) == js_extractors_outcome(raw_files.deep_view()),
        r is Ok <==> good_js_extractors(raw_files.deep_view()),
{
    match collect_string_arrays(&raw_files) {
        None => Err(ImageListError::BadJson),
        Some(images) => match finish_image_list(images) {
            Err(e) => Err(e),
            Ok(_) => Ok(read_js_extractor(raw_files)),
        },
    }
}

proof fn lemma_arrays_none(files: Seq<Seq<u8>>, k: int)
    requires
        0 <= k <= files.len(),
        all_string_arrays(files.take(k)) is None,
    ensures
        all_string_arrays(files) is None,
    decreases files.len() - k,
{
    if k < files.len() {
        assert(files.take(k + 1).drop_last() =~= files.take(k));
        lemma_arrays_none(files, k + 1);
    } else {
        assert(files.take(k) =~= files);
    }
}

} // verus!
