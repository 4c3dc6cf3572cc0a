# flikr_scraper

A scraper for Flickr original images, as a verified library and a thin program.

`src/` is the library, with its contracts proved:

- `downloader`: the kinds of download, the paths and addresses of each download and
  its cached copy, the request throttle, and the step function that drives one download
  (cache probe, throttle sleep, request, store).
- `flikr_url`: photo stream page ids and image ids in `live.staticflickr.com` addresses.
- `flikr_extractor`, `flikr_js_extractor`: the image lists written by the browser-side
  extractor (refused when empty or repeated, otherwise sorted) and the values read from
  Flickr pages (original-size address, title, description).
- `viewer_gen`: the book of photos by user, and the viewer script.
- `scrape`, `fixup_name`: the per-image requests of a scrape, user ids from file names,
  and the renaming of cached files.
- `text`, `order`, `utils`: text handling and the order of texts.

`app/` holds the program: directories, files, HTTP through `reqwest`, the clock, logging,
and JSON output through `serde` and `simd-json`.
