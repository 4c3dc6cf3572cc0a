use vstd::prelude::*;

verus! {

/// Why a list of extracted image addresses was refused.
#[derive(Debug, Clone, Copy, PartialEq, Eq, Structural)]
pub enum ImageListError {
    /// The extractor output is not a JSON array of strings.
    BadJson,
    /// The extractor output holds no image at all.
    NoImages,
    /// The same image address occurs more than once.
    DuplicateImages,
}

/// Why a Flickr page did not yield what was looked for in it.
#[derive(Debug, Clone, Copy, PartialEq, Eq, Structural)]
pub enum PageError {
    /// The page is not valid UTF-8.
    NotUtf8,
    /// The CSS selector could not be parsed.
    BadSelector,
    /// The size list did not have two or three entries; the number found.
    UnexpectedMatchCount(usize),
    /// The chosen link has no `href` attribute.
    MissingHref,
    /// The image address holds no `/` before its file name.
    MissingFileName,
}

} // verus!
