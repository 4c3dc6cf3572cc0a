pub mod downloader;
pub mod err;
pub mod flikr_extractor;
pub mod flikr_js_extractor;
pub mod flikr_url;
pub mod order;
pub mod text;
pub mod utils;
pub mod viewer_gen;
pub mod scrape;
pub mod fixup_name;
