use vstd::prelude::*;

use crate::text::{
    after_last, append_str, ascii_lower, ascii_lowercase, chars_of, concat, extend_chars, string_of,
    text_after_last,
};

verus! {

/// The directory under which everything the scraper downloads or writes is kept.
pub const IMAGE_DB_ROOT: &'static str = "image-db";

/// `buf` extended by the path component `part`, as `PathBuf::push` extends a path on
/// Unix: an absolute component replaces the path, and a separator `/` is put between
/// the two unless `buf` is empty or already ends in one.
pub open spec fn path_push(buf: Seq<char>, part: Seq<char>) -> Seq<char> {
    if part.len() > 0 && part[0] == '/' {
        part
    } else if buf.len() == 0 || buf.last() == '/' {
        buf + part
    } else {
        buf + seq!['/'] + part
    }
}

/// The path made by pushing each component in turn onto an empty path.
pub open spec fn path_join(parts: Seq<Seq<char>>) -> Seq<char>
    decreases parts.len(),
{
    if parts.len() == 0 {
        Seq::empty()
    } else {
        path_push(path_join(parts.drop_last()), parts.last())
    }
}

/// The texts of a list of string slices.
pub open spec fn texts(parts: Seq<&str>) -> Seq<Seq<char>> {
    parts.map_values(|p: &str| p@)
}

/// `buf` extended by the component `part`.
pub fn push_component(buf: &mut Vec<char>, part: &str)
    ensures
        final(buf)@ == path_push(old(buf)@, part@),
{
    let cs = chars_of(part);
    if cs.len() > 0 && cs[0] == '/' {
        *buf = cs;
    } else if buf.len() == 0 || buf[buf.len() - 1] == '/' {
        extend_chars(buf, cs.as_slice());
    } else {
        buf.push('/');
        extend_chars(buf, cs.as_slice());
    }
}

/// The path made of the components `input`, in order.
pub fn path<const N: usize>(input: [&str; N]) -> (r: String)
    ensures
        r@ == path_join(texts(input@)),
{
    let mut buf: Vec<char> = Vec::new();
    let ghost parts = texts(input@);
    for i in 0..N
        invariant
            parts == texts(input@),
            parts.len() == N,
            buf@ == path_join(parts.take(i as int)),
    {
        push_component(&mut buf, input[i]);
        assert(parts.take(i + 1).drop_last() =~= parts.take(i as int));
    }
    assert(parts.take(N as int) =~= parts);
    string_of(buf.as_slice())
}

/// The kinds of download, each cached in a directory of its own.
#[derive(Clone, Copy, Debug, PartialEq, Eq, Hash, Structural)]
pub enum DownType {
    /// A page of a user's photo stream.
    Photostream,
    /// The viewer page of one image.
    ImageViewer,
    /// The page that lists the sizes of one image.
    ImageSizes,
    /// The original image file.
    ImageOrig,
}

/// The name of each kind of download.
pub open spec fn variant_name(d: DownType) -> Seq<char> {
    match d {
        DownType::Photostream => "Photostream"@,
        DownType::ImageViewer => "ImageViewer"@,
        DownType::ImageSizes => "ImageSizes"@,
        DownType::ImageOrig => "ImageOrig"@,
    }
}

/// The name of the directory that caches a kind of download: its name in lower case.
pub open spec fn safe_name_of(d: DownType) -> Seq<char> {
    ascii_lower(variant_name(d))
}

/// All kinds of download, in declaration order.
pub open spec fn all_variants() -> Seq<DownType> {
    seq![DownType::Photostream, DownType::ImageViewer, DownType::ImageSizes, DownType::ImageOrig]
}

/// The directories that must exist before downloading: the root, then one per kind of
/// download, in declaration order.
pub open spec fn output_dirs_of() -> Seq<Seq<char>> {
    seq![path_join(seq![IMAGE_DB_ROOT@])] + all_variants().map_values(
        |d: DownType| path_join(seq![IMAGE_DB_ROOT@, safe_name_of(d)]),
    )
}

impl DownType {
    /// All kinds of download, in declaration order.
    pub fn variants() -> (v: Vec<DownType>)
        ensures
            v@ == all_variants(),
    {
        let v = vec![DownType::Photostream, DownType::ImageViewer, DownType::ImageSizes, DownType::ImageOrig];
        assert(v@ =~= all_variants());
        v
    }

    /// The name of this kind of download.
    pub fn as_ref(&self) -> (r: &'static str)
        ensures
            r@ == variant_name(*self),
    {
        match self {
            DownType::Photostream => "Photostream",
            DownType::ImageViewer => "ImageViewer",
            DownType::ImageSizes => "ImageSizes",
            DownType::ImageOrig => "ImageOrig",
        }
    }

    /// The name of the directory that caches this kind of download.
    pub fn safe_name(&self) -> (r: String)
        ensures
            r@ == safe_name_of(*self),
    {
        ascii_lowercase(self.as_ref())
    }

    /// The directories that the scraper writes into, the root first.
    pub fn output_dirs() -> (v: Vec<String>)
        ensures
            v.deep_view() == output_dirs_of(),
    {
        let variants = DownType::variants();
        let mut v: Vec<String> = Vec::new();
        let root = [IMAGE_DB_ROOT];
        v.push(path(root));
        proof {
            assert(texts(root@) =~= seq![IMAGE_DB_ROOT@]);
        }
        for i in 0..variants.len()
            invariant
                variants@ == all_variants(),
                v.deep_view() == output_dirs_of().take(i + 1),
        {
            let name = variants[i].safe_name();
            let parts = [IMAGE_DB_ROOT, name.as_str()];
            let dir = path(parts);
            proof {
                assert(texts(parts@) =~= seq![IMAGE_DB_ROOT@, name@]);
            }
            let ghost before = v.deep_view();
            v.push(dir);
            proof {
                let all = output_dirs_of();
                assert(all.len() == 5);
                assert(all[i + 1] == path_join(seq![IMAGE_DB_ROOT@, safe_name_of(all_variants()[i as int])]));
                assert(v.deep_view() =~= before.push(dir@));
                assert(all.take(i + 2) =~= all.take(i + 1).push(all[i + 1]));
            }
        }
        assert(v.deep_view() =~= output_dirs_of());
        v
    }
}

/// The cache directory names are the lower-case names of the kinds of download.
pub proof fn lemma_safe_names()
    ensures
        safe_name_of(DownType::Photostream) == "photostream"@,
        safe_name_of(DownType::ImageViewer) == "imageviewer"@,
        safe_name_of(DownType::ImageSizes) == "imagesizes"@,
        safe_name_of(DownType::ImageOrig) == "imageorig"@,
{
    reveal_strlit("Photostream");
    reveal_strlit("ImageViewer");
    reveal_strlit("ImageSizes");
    reveal_strlit("ImageOrig");
    reveal_strlit("photostream");
    reveal_strlit("imageviewer");
    reveal_strlit("imagesizes");
    reveal_strlit("imageorig");
    assert(safe_name_of(DownType::Photostream) =~= "photostream"@);
    assert(safe_name_of(DownType::ImageViewer) =~= "imageviewer"@);
    assert(safe_name_of(DownType::ImageSizes) =~= "imagesizes"@);
    assert(safe_name_of(DownType::ImageOrig) =~= "imageorig"@);
}

/// Two different kinds of download never share a cache directory.
pub proof fn lemma_safe_names_distinct(a: DownType, b: DownType)
    ensures
        a != b ==> safe_name_of(a) != safe_name_of(b),
{
    lemma_safe_names();
    reveal_strlit("photostream");
    reveal_strlit("imageviewer");
    reveal_strlit("imagesizes");
    reveal_strlit("imageorig");
    if a != b {
        let x = safe_name_of(a);
        let y = safe_name_of(b);
        if x.len() == y.len() {
            assert(x[0] != y[0] || x[5] != y[5]);
        }
    }
}

/// Where one download comes from and where its copy is cached.
pub struct FetchTarget {
    /// The address that is requested.
    pub url: String,
    /// The file name of the cached copy.
    pub cache_name: String,
    /// The cached copy's path below the image database root.
    pub relative_path: String,
    /// The cached copy's path.
    pub cache_path: String,
}

/// The start of every Flickr photo page address.
pub open spec fn photos_prefix() -> Seq<char> {
    "https://www.flickr.com/photos/"@
}

/// The address requested for a download of kind `d` for `user`, with `extra` the page
/// number, the image id, or (for an original image) its whole address.
pub open spec fn target_url(d: DownType, user: Seq<char>, extra: Seq<char>) -> Seq<char> {
    match d {
        DownType::Photostream => photos_prefix() + user + "/page"@ + extra,
        DownType::ImageViewer => photos_prefix() + user + "/"@ + extra + "/"@,
        DownType::ImageSizes => photos_prefix() + user + "/"@ + extra + "/sizes/o/"@,
        DownType::ImageOrig => extra,
    }
}

/// The file name under which a download is cached: the user, then the page number,
/// the image id, or the original's file name (what follows its last `/`).
pub open spec fn cache_name_of(d: DownType, user: Seq<char>, extra: Seq<char>) -> Seq<char> {
    match d {
        DownType::Photostream => user + "_page"@ + extra,
        DownType::ImageViewer => user + "_"@ + extra,
        DownType::ImageSizes => user + "_"@ + extra,
        DownType::ImageOrig => user + "_"@ + after_last(extra, '/'),
    }
}

/// The cached copy's path below the root.
pub open spec fn relative_path_of(d: DownType, user: Seq<char>, extra: Seq<char>) -> Seq<char> {
    path_join(seq![safe_name_of(d), cache_name_of(d, user, extra)])
}

/// The cached copy's path.
pub open spec fn cache_path_of(d: DownType, user: Seq<char>, extra: Seq<char>) -> Seq<char> {
    path_join(seq![IMAGE_DB_ROOT@, safe_name_of(d), cache_name_of(d, user, extra)])
}

/// Where a download of kind `downtype` for `for_user` is requested from and cached.
/// For an original image, `extra` is its address and must hold a `/`.
pub fn fetch_target(downtype: DownType, for_user: &str, extra: &str) -> (t: FetchTarget)
    requires
        downtype == DownType::ImageOrig ==> extra@.contains('/'),
    ensures
        t.url@ == target_url(downtype, for_user@, extra@),
        t.cache_name@ == cache_name_of(downtype, for_user@, extra@),
        t.relative_path@ == relative_path_of(downtype, for_user@, extra@),
        t.cache_path@ == cache_path_of(downtype, for_user@, extra@),
{
    let (url, cache_name) = match downtype {
        DownType::Photostream => {
            let mut url = concat("https://www.flickr.com/photos/", for_user);
            append_str(&mut url, "/page");
            append_str(&mut url, extra);
            let mut name = concat(for_user, "_page");
            append_str(&mut name, extra);
            (url, name)
        },
        DownType::ImageViewer => {
            let mut url = concat("https://www.flickr.com/photos/", for_user);
            append_str(&mut url, "/");
            append_str(&mut url, extra);
            append_str(&mut url, "/");
            let mut name = concat(for_user, "_");
            append_str(&mut name, extra);
            (url, name)
        },
        DownType::ImageSizes => {
            let mut url = concat("https://www.flickr.com/photos/", for_user);
            append_str(&mut url, "/");
            append_str(&mut url, extra);
            append_str(&mut url, "/sizes/o/");
            let mut name = concat(for_user, "_");
            append_str(&mut name, extra);
            (url, name)
        },
        DownType::ImageOrig => {
            let file = text_after_last(extra, '/');
            let mut name = concat(for_user, "_");
            append_str(&mut name, file.as_str());
            (extra.to_owned(), name)
        },
    };
    let dir = downtype.safe_name();
    let rel_parts = [dir.as_str(), cache_name.as_str()];
    let relative_path = path(rel_parts);
    let full_parts = [IMAGE_DB_ROOT, dir.as_str(), cache_name.as_str()];
    let cache_path = path(full_parts);
    proof {
        assert(texts(rel_parts@) =~= seq![dir@, cache_name@]);
        assert(texts(full_parts@) =~= seq![IMAGE_DB_ROOT@, dir@, cache_name@]);
        assert(url@ =~= target_url(downtype, for_user@, extra@));
        assert(cache_name@ =~= cache_name_of(downtype, for_user@, extra@));
    }
    FetchTarget { url, cache_name, relative_path, cache_path }
}

proof fn lemma_push_under(r: Seq<char>, a: Seq<char>, n: Seq<char>)
    requires
        r.len() > 0,
        r.last() != '/',
        a.len() > 0,
        a[0] != '/',
        a.last() != '/',
    ensures
        path_push(r, path_join(seq![a, n])) == path_join(seq![r, a, n]),
{
    assert(seq![a, n].drop_last() =~= seq![a]);
    assert(seq![a].drop_last() =~= Seq::<Seq<char>>::empty());
    assert(seq![r, a, n].drop_last() =~= seq![r, a]);
    assert(seq![r, a].drop_last() =~= seq![r]);
    assert(seq![r].drop_last() =~= Seq::<Seq<char>>::empty());
    assert(path_join(Seq::<Seq<char>>::empty()) == Seq::<char>::empty());
    assert(seq![a].last() == a);
    assert(seq![r].last() == r);
    assert(path_join(seq![a]) =~= a);
    assert(path_join(seq![r]) =~= r);
    let ra = r + seq!['/'] + a;
    assert(path_join(seq![r, a]) == ra);
    assert(ra.last() == a.last());
    if n.len() > 0 && n[0] == '/' {
    } else {
        let an = path_push(a, n);
        assert(an == a + seq!['/'] + n);
        assert(an[0] == a[0]);
        assert(r + seq!['/'] + an =~= ra + seq!['/'] + n);
    }
}

proof fn lemma_join3(r: Seq<char>, a: Seq<char>, n: Seq<char>)
    requires
        r.len() > 0,
        r.last() != '/',
        a.len() > 0,
        a[0] != '/',
        a.last() != '/',
        n.len() == 0 || n[0] != '/',
    ensures
        path_join(seq![r, a, n]) == r + "/"@ + a + "/"@ + n,
{
    reveal_strlit("/");
    assert(seq![r, a, n].drop_last() =~= seq![r, a]);
    assert(seq![r, a].drop_last() =~= seq![r]);
    assert(seq![r].drop_last() =~= Seq::<Seq<char>>::empty());
    assert(path_join(Seq::<Seq<char>>::empty()) == Seq::<char>::empty());
    assert(seq![r].last() == r);
    assert(path_join(seq![r]) =~= r);
    let ra = r + seq!['/'] + a;
    assert(path_join(seq![r, a]) == ra);
    assert(ra.last() == a.last());
    assert(path_join(seq![r, a, n]) == ra + seq!['/'] + n);
    assert(ra + seq!['/'] + n =~= r + "/"@ + a + "/"@ + n);
}

/// The cache file name of a download starts with the user id exactly as given (upper
/// case kept), then `_`; what follows does not depend on the user.
pub proof fn lemma_cache_name_keeps_user(
    d: DownType,
    user: Seq<char>,
    other: Seq<char>,
    extra: Seq<char>,
)
    ensures
        cache_name_of(d, user, extra).len() > user.len(),
        cache_name_of(d, user, extra).take(user.len() as int) == user,
        cache_name_of(d, user, extra)[user.len() as int] == '_',
        cache_name_of(d, user, extra).skip(user.len() as int) == cache_name_of(d, other, extra).skip(
            other.len() as int,
        ),
{
    reveal_strlit("_page");
    reveal_strlit("_");
    let n = cache_name_of(d, user, extra);
    let m = cache_name_of(d, other, extra);
    let tail = match d {
        DownType::Photostream => "_page"@ + extra,
        DownType::ImageViewer => "_"@ + extra,
        DownType::ImageSizes => "_"@ + extra,
        DownType::ImageOrig => "_"@ + after_last(extra, '/'),
    };
    assert(n =~= user + tail);
    assert(m =~= other + tail);
    assert(n.take(user.len() as int) =~= user);
    assert(n.skip(user.len() as int) =~= tail);
    assert(m.skip(other.len() as int) =~= tail);
}

/// A download is cached at `image-db/<kind>/<cache name>`, with the kind's lower-case
/// name, for every user id that does not start with `/`.
pub proof fn lemma_cache_layout(d: DownType, user: Seq<char>, extra: Seq<char>)
    requires
        user.len() == 0 || user[0] != '/',
    ensures
        cache_path_of(d, user, extra) == "image-db/"@ + safe_name_of(d) + "/"@ + cache_name_of(
            d,
            user,
            extra,
        ),
{
    lemma_safe_names();
    reveal_strlit("image-db");
    reveal_strlit("image-db/");
    reveal_strlit("photostream");
    reveal_strlit("imageviewer");
    reveal_strlit("imagesizes");
    reveal_strlit("imageorig");
    lemma_cache_name_keeps_user(d, user, user, extra);
    let n = cache_name_of(d, user, extra);
    if user.len() > 0 {
        assert(n[0] == n.take(user.len() as int)[0]);
    }
    reveal_strlit("/");
    lemma_join3(IMAGE_DB_ROOT@, safe_name_of(d), n);
    assert(IMAGE_DB_ROOT@ + "/"@ =~= "image-db/"@);
    assert(IMAGE_DB_ROOT@ + "/"@ + safe_name_of(d) + "/"@ + n =~= "image-db/"@ + safe_name_of(d)
        + "/"@ + n);
}

/// Every cached copy lies below the image database root, at its relative path.
pub proof fn lemma_cache_path_under_root(d: DownType, user: Seq<char>, extra: Seq<char>)
    ensures
        path_push(IMAGE_DB_ROOT@, relative_path_of(d, user, extra)) == cache_path_of(d, user, extra),
{
    lemma_safe_names();
    reveal_strlit("image-db");
    reveal_strlit("photostream");
    reveal_strlit("imageviewer");
    reveal_strlit("imagesizes");
    reveal_strlit("imageorig");
    lemma_push_under(IMAGE_DB_ROOT@, safe_name_of(d), cache_name_of(d, user, extra));
}

/// The least time between two requests, in milliseconds.
pub const REQUEST_THROTTLE_MS: u64 = 5000;

/// The earliest time, in milliseconds, at which a request may follow one made at `t`
/// (held at `u64::MAX` where the sum would not fit).
pub open spec fn throttle_deadline(t: u64) -> int {
    if t + REQUEST_THROTTLE_MS > u64::MAX {
        u64::MAX as int
    } else {
        t + REQUEST_THROTTLE_MS
    }
}

/// How long to sleep, in milliseconds, before a request at `now`: the time left to the
/// deadline of the last request, or nothing when there was no request yet or when less
/// than a whole second is left.
pub open spec fn throttle_delay(last: Option<u64>, now: u64) -> int {
    match last {
        None => 0,
        Some(t) => if throttle_deadline(t) - now >= 1000 {
            throttle_deadline(t) - now
        } else {
            0
        },
    }
}

/// The clock side of the downloader: when the last request was made.
pub struct Throttle {
    last_request_ms: Option<u64>,
}

impl View for Throttle {
    type V = Option<u64>;

    closed spec fn view(&self) -> Option<u64> {
        self.last_request_ms
    }
}

impl Throttle {
    /// A throttle that has seen no request yet.
    pub fn new() -> (t: Throttle)
        ensures
            t@ == None::<u64>,
    {
        Throttle { last_request_ms: None }
    }

    /// How long to sleep, in milliseconds, before a request made at `now_ms`.
    pub fn delay_before_request(&self, now_ms: u64) -> (d: u64)
        ensures
            d == throttle_delay(self@, now_ms),
    {
        match self.last_request_ms {
            None => 0,
            Some(t) => {
                let deadline = t.saturating_add(REQUEST_THROTTLE_MS);
                if deadline > now_ms && deadline - now_ms >= 1000 {
                    deadline - now_ms
                } else {
                    0
                }
            },
        }
    }

    /// Notes that a request was completed at `now_ms`.
    pub fn record_request(&mut self, now_ms: u64)
        ensures
            final(self)@ == Some(now_ms),
    {
        self.last_request_ms = Some(now_ms);
    }
}

/// After a request at `t`, a request at `now` that first sleeps as told reaches the
/// throttle deadline, or falls short of it by less than a second, and never sleeps
/// longer than the throttle interval.
pub proof fn lemma_throttle_spacing(t: u64, now: u64)
    requires
        t <= now,
    ensures
        throttle_delay(Some(t), now) == 0 ==> now + 1000 > throttle_deadline(t),
        throttle_delay(Some(t), now) > 0 ==> now + throttle_delay(Some(t), now) == throttle_deadline(t),
        throttle_delay(Some(t), now) <= REQUEST_THROTTLE_MS,
{
}

/// A request that follows one made at `t0` is sent, after the sleep that the throttle
/// asks for, more than four seconds after `t0`, and at least the whole throttle interval
/// after it whenever a whole second or more of the interval was left. This holds on all
/// clock values where `t0` plus the interval fits in a `u64`.
pub proof fn lemma_request_spacing(t0: u64, now: u64)
    requires
        t0 <= now,
        t0 + REQUEST_THROTTLE_MS <= u64::MAX,
    ensures
        now + throttle_delay(Some(t0), now) > t0 + REQUEST_THROTTLE_MS - 1000,
        t0 + REQUEST_THROTTLE_MS - now >= 1000 ==> now + throttle_delay(Some(t0), now) >= t0
            + REQUEST_THROTTLE_MS,
{
}

/// Where a download stands.
#[derive(Clone, Copy, Debug, PartialEq, Eq, Structural)]
pub enum FetchPhase {
    /// Nothing done yet.
    Start,
    /// Waiting to learn whether a cached copy exists.
    Probing,
    /// Reading the cached copy.
    Reading,
    /// Waiting for the time before the request.
    Clocking,
    /// Sleeping out the throttle.
    Sleeping,
    /// Waiting for the response.
    Requesting,
    /// Writing the downloaded copy to the cache.
    Storing,
    /// Waiting for the time at which the request completed.
    Recording,
    /// The body is at hand.
    Finished,
}

/// What the surroundings report to a download.
#[derive(Clone, Copy, Debug, PartialEq, Eq, Structural)]
pub enum FetchEvent {
    /// The download begins.
    Started,
    /// Whether a cached copy exists.
    CacheProbed(bool),
    /// The cached copy was read.
    CacheRead,
    /// The time now, in milliseconds.
    Clock(u64),
    /// The sleep is over.
    Slept,
    /// The server answered with this HTTP status; while a request is waited on, it
    /// must be OK.
    Responded(u16),
    /// The downloaded copy was written to the cache.
    Stored,
}

/// What a download asks of its surroundings next.
#[derive(Clone, Copy, Debug, PartialEq, Eq, Structural)]
pub enum FetchAction {
    /// Find out whether the cached copy exists.
    ProbeCache,
    /// Read the cached copy; it is the body.
    ReadCache,
    /// Report the time.
    ReadClock,
    /// Sleep this many milliseconds.
    Sleep(u64),
    /// Request the address.
    Request,
    /// Write the body to the cache.
    Store,
    /// The body is ready.
    Done,
}

/// The HTTP status OK.
pub const STATUS_OK: u16 = 200;

/// The action that a download waits on in its phase.
pub open spec fn pending_action(s: FetchSession) -> FetchAction {
    match s.phase {
        FetchPhase::Start => FetchAction::ProbeCache,
        FetchPhase::Probing => FetchAction::ProbeCache,
        FetchPhase::Reading => FetchAction::ReadCache,
        FetchPhase::Clocking => FetchAction::ReadClock,
        FetchPhase::Sleeping => FetchAction::Sleep(s.delay),
        FetchPhase::Requesting => FetchAction::Request,
        FetchPhase::Storing => FetchAction::Store,
        FetchPhase::Recording => FetchAction::ReadClock,
        FetchPhase::Finished => FetchAction::Done,
    }
}

/// The download `s` moved to phase `p`.
pub open spec fn in_phase(s: FetchSession, p: FetchPhase) -> FetchSession {
    FetchSession { phase: p, ..s }
}

/// One step of a download: from where it stands, the last request time and what was
/// reported, where it stands next, the next last request time, and what to do. A cached
/// copy is read instead of downloaded; a download first sleeps out the throttle, then
/// requests, is written to the cache once the server answers (a download goes on only
/// on an OK answer), and its completion time becomes the last request time. A report that does not fit the phase
/// changes nothing and is answered with what the phase waits on.
pub open spec fn fetch_step(s: FetchSession, last: Option<u64>, event: FetchEvent) -> (
    FetchSession,
    Option<u64>,
    FetchAction,
) {
    match (s.phase, event) {
        (FetchPhase::Start, FetchEvent::Started) => (
            in_phase(s, FetchPhase::Probing),
            last,
            FetchAction::ProbeCache,
        ),
        (FetchPhase::Probing, FetchEvent::CacheProbed(exists)) => if exists {
            (in_phase(s, FetchPhase::Reading), last, FetchAction::ReadCache)
        } else {
            (in_phase(s, FetchPhase::Clocking), last, FetchAction::ReadClock)
        },
        (FetchPhase::Reading, FetchEvent::CacheRead) => (
            in_phase(s, FetchPhase::Finished),
            last,
            FetchAction::Done,
        ),
        (FetchPhase::Clocking, FetchEvent::Clock(now)) => if throttle_delay(last, now) > 0 {
            (
                FetchSession {
                    phase: FetchPhase::Sleeping,
                    delay: throttle_delay(last, now) as u64,
                    ..s
                },
                last,
                FetchAction::Sleep(throttle_delay(last, now) as u64),
            )
        } else {
            (in_phase(s, FetchPhase::Requesting), last, FetchAction::Request)
        },
        (FetchPhase::Sleeping, FetchEvent::Slept) => (
            in_phase(s, FetchPhase::Requesting),
            last,
            FetchAction::Request,
        ),
        (FetchPhase::Requesting, FetchEvent::Responded(_)) => (
            in_phase(s, FetchPhase::Storing),
            last,
            FetchAction::Store,
        ),
        (FetchPhase::Storing, FetchEvent::Stored) => (
            in_phase(s, FetchPhase::Recording),
            last,
            FetchAction::ReadClock,
        ),
        (FetchPhase::Recording, FetchEvent::Clock(now)) => (
            in_phase(s, FetchPhase::Finished),
            Some(now),
            FetchAction::Done,
        ),
        _ => (s, last, pending_action(s)),
    }
}

/// The download that has not begun.
pub open spec fn fresh_session() -> FetchSession {
    FetchSession { phase: FetchPhase::Start, delay: 0 }
}

/// A download whose copy is cached is read from the cache: it asks for no request, no
/// sleep and no clock, and leaves the throttle as it was.
pub proof fn lemma_cached_download(last: Option<u64>)
    ensures
        ({
            let r1 = fetch_step(fresh_session(), last, FetchEvent::Started);
            let r2 = fetch_step(r1.0, r1.1, FetchEvent::CacheProbed(true));
            let r3 = fetch_step(r2.0, r2.1, FetchEvent::CacheRead);
            &&& r1.2 == FetchAction::ProbeCache
            &&& r2.2 == FetchAction::ReadCache
            &&& r3.2 == FetchAction::Done
            &&& r3.0.phase == FetchPhase::Finished
            &&& r3.1 == last
        }),
{
}

/// A download without a cached copy sleeps out the throttle when told to, requests
/// once, stores an OK answer and then notes its completion time as the last request.
pub proof fn lemma_uncached_download(last: Option<u64>, before: u64, after: u64)
    ensures
        ({
            let r1 = fetch_step(fresh_session(), last, FetchEvent::Started);
            let r2 = fetch_step(r1.0, r1.1, FetchEvent::CacheProbed(false));
            let r3 = fetch_step(r2.0, r2.1, FetchEvent::Clock(before));
            let r4 = if r3.0.phase == FetchPhase::Sleeping {
                fetch_step(r3.0, r3.1, FetchEvent::Slept)
            } else {
                r3
            };
            let r5 = fetch_step(r4.0, r4.1, FetchEvent::Responded(STATUS_OK));
            let r6 = fetch_step(r5.0, r5.1, FetchEvent::Stored);
            let r7 = fetch_step(r6.0, r6.1, FetchEvent::Clock(after));
            &&& r2.2 == FetchAction::ReadClock
            &&& (r3.0.phase == FetchPhase::Sleeping <==> throttle_delay(last, before) > 0)
            &&& (r3.0.phase == FetchPhase::Sleeping ==> r3.2 == FetchAction::Sleep(
                throttle_delay(last, before) as u64,
            ))
            &&& r4.2 == FetchAction::Request
            &&& r5.2 == FetchAction::Store
            &&& r6.2 == FetchAction::ReadClock
            &&& r7.2 == FetchAction::Done
            &&& r7.1 == Some(after)
        }),
{
}

/// A sleeping download requests only once the sleep is reported over: any other report
/// is answered by asking again for the same sleep.
pub proof fn lemma_sleep_before_request(s: FetchSession, last: Option<u64>, event: FetchEvent)
    requires
        s.phase == FetchPhase::Sleeping,
        event != FetchEvent::Slept,
    ensures
        fetch_step(s, last, event) == (s, last, FetchAction::Sleep(s.delay)),
{
}

/// One download in progress: where it stands.
pub struct FetchSession {
    /// Where the download stands.
    pub phase: FetchPhase,
    /// The sleep asked for before the request, in milliseconds.
    pub delay: u64,
}

impl FetchSession {
    /// A download that has not begun.
    pub fn new() -> (s: FetchSession)
        ensures
            s == fresh_session(),
    {
        FetchSession { phase: FetchPhase::Start, delay: 0 }
    }

    /// Takes in what the surroundings report and says what to do next.
    pub fn step(&mut self, throttle: &mut Throttle, event: FetchEvent) -> (a: FetchAction)
        requires
            old(self).phase == FetchPhase::Requesting && event is Responded ==> event->Responded_0
                == STATUS_OK,
        ensures
            (*final(self), final(throttle)@, a) == fetch_step(*old(self), old(throttle)@, event),
    {
        match (self.phase, event) {
            (FetchPhase::Start, FetchEvent::Started) => {
                self.phase = FetchPhase::Probing;
                FetchAction::ProbeCache
            },
            (FetchPhase::Probing, FetchEvent::CacheProbed(exists)) => {
                if exists {
                    self.phase = FetchPhase::Reading;
                    FetchAction::ReadCache
                } else {
                    self.phase = FetchPhase::Clocking;
                    FetchAction::ReadClock
                }
            },
            (FetchPhase::Reading, FetchEvent::CacheRead) => {
                self.phase = FetchPhase::Finished;
                FetchAction::Done
            },
            (FetchPhase::Clocking, FetchEvent::Clock(now)) => {
                let delay = throttle.delay_before_request(now);
                if delay > 0 {
                    self.phase = FetchPhase::Sleeping;
                    self.delay = delay;
                    FetchAction::Sleep(delay)
                } else {
                    self.phase = FetchPhase::Requesting;
                    FetchAction::Request
                }
            },
            (FetchPhase::Sleeping, FetchEvent::Slept) => {
                self.phase = FetchPhase::Requesting;
                FetchAction::Request
            },
            (FetchPhase::Requesting, FetchEvent::Responded(_)) => {
                self.phase = FetchPhase::Storing;
                FetchAction::Store
            },
            (FetchPhase::Storing, FetchEvent::Stored) => {
                self.phase = FetchPhase::Recording;
                FetchAction::ReadClock
            },
            (FetchPhase::Recording, FetchEvent::Clock(now)) => {
                throttle.record_request(now);
                self.phase = FetchPhase::Finished;
                FetchAction::Done
            },
            _ => match self.phase {
                FetchPhase::Start => FetchAction::ProbeCache,
                FetchPhase::Probing => FetchAction::ProbeCache,
                FetchPhase::Reading => FetchAction::ReadCache,
                FetchPhase::Clocking => FetchAction::ReadClock,
                FetchPhase::Sleeping => FetchAction::Sleep(self.delay),
                FetchPhase::Requesting => FetchAction::Request,
                FetchPhase::Storing => FetchAction::Store,
                FetchPhase::Recording => FetchAction::ReadClock,
                FetchPhase::Finished => FetchAction::Done,
            },
        }
    }
}

} // verus!
