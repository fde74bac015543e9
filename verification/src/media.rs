//! The media cache: which files are images or videos, the reference a
//! slide background holds into the cache, and the names of cached copies
//! and thumbnails (all keyed by content hash).
use crate::project::{lit_string, Background, LibrarySong, Slide};
use crate::text::{all_ascii, append, ascii_lower, chars_of, eq_chars, lit, lower_text, slice_of, string_of, to_lowercase, lowercase};
use vstd::prelude::*;

verus! {

/// Extension of generated thumbnails.
pub const THUMB_EXT: &'static str = "jpg";

/// Width of generated thumbnails; the height follows the source ratio.
pub const THUMB_WIDTH: u32 = 320;

/// The kind of a media file.
#[derive(Clone, Copy, Debug, PartialEq, Eq, Structural)]
pub enum MediaKind {
    Image,
    Video,
}

pub open spec fn kind_label(k: MediaKind) -> Seq<char> {
    match k {
        MediaKind::Image => "image"@,
        MediaKind::Video => "video"@,
    }
}

/// Position of the last `c` in `s`.
pub open spec fn last_index(s: Seq<char>, c: char) -> Option<int>
    decreases s.len(),
{
    if s.len() == 0 {
        None
    } else if s.last() == c {
        Some(s.len() - 1)
    } else {
        last_index(s.drop_last(), c)
    }
}

/// The extension of a file name as `Path::extension` documents it: the part
/// after the last `.`; none without a `.`, for a name whose only `.` leads
/// it, and for `..`.
pub open spec fn name_extension(name: Seq<char>) -> Option<Seq<char>> {
    if name == ".."@ {
        None
    } else {
        match last_index(name, '.') {
            None => None,
            Some(i) => if i == 0 { None } else { Some(name.skip(i + 1)) },
        }
    }
}

/// Extensions of images and videos (lower case).
pub open spec fn image_extension(e: Seq<char>) -> bool {
    e == "png"@ || e == "jpg"@ || e == "jpeg"@ || e == "gif"@ || e == "webp"@ || e == "bmp"@ || e == "tiff"@
        || e == "tif"@ || e == "svg"@ || e == "avif"@
}

pub open spec fn video_extension(e: Seq<char>) -> bool {
    e == "mp4"@ || e == "m4v"@ || e == "mov"@ || e == "webm"@ || e == "mkv"@ || e == "avi"@ || e == "ogv"@
}

/// The kind of a file by its extension, ignoring case.
pub open spec fn kind_of(name: Seq<char>) -> Option<MediaKind> {
    match name_extension(name) {
        None => None,
        Some(e) => if image_extension(lower_text(e)) {
            Some(MediaKind::Image)
        } else if video_extension(lower_text(e)) {
            Some(MediaKind::Video)
        } else {
            None
        },
    }
}

/// The extension of a file name (see [`name_extension`]).
pub fn file_extension(name: &str) -> (r: Option<String>)
    ensures
        match name_extension(name@) {
            None => r is None,
            Some(e) => r matches Some(s) && s@ == e,
        },
{
    let v = chars_of(name);
    if eq_chars(&v, &lit("..")) {
        return None;
    }
    let mut i: usize = v.len();
    assert(v@.take(i as int) =~= v@);
    while i > 0 && v[i - 1] != '.'
        invariant
            i <= v.len(),
            last_index(v@, '.') == last_index(v@.take(i as int), '.'),
        decreases i,
    {
        assert(v@.take(i as int).drop_last() =~= v@.take(i - 1));
        i = i - 1;
    }
    if i == 0 {
        assert(v@.take(0) =~= Seq::<char>::empty());
        return None;
    }
    assert(v@.take(i as int).last() == '.');
    if i == 1 {
        return None;
    }
    let e = slice_of(&v, i, v.len());
    assert(e@ =~= v@.skip(i as int));
    Some(string_of(&e))
}

/// The lower-cased extension of a file name, or empty.
pub fn extension_of(name: &str) -> (r: String)
    ensures
        match name_extension(name@) {
            None => r@.len() == 0,
            Some(e) => r@ == lowercase(e),
        },
{
    match file_extension(name) {
        Some(e) => string_of(&to_lowercase(&chars_of(e.as_str()))),
        None => String::new(),
    }
}

fn is_one_of(v: &Vec<char>, options: &[&str]) -> (r: bool)
    ensures
        r == exists|i: int| 0 <= i < options@.len() && v@ == (#[trigger] options@[i])@,
{
    let mut i: usize = 0;
    while i < options.len()
        invariant
            i <= options.len(),
            forall|j: int| 0 <= j < i ==> v@ != (#[trigger] options@[j])@,
        decreases options.len() - i,
    {
        if eq_chars(v, &lit(options[i])) {
            return true;
        }
        i = i + 1;
    }
    false
}

impl MediaKind {
    /// `"image"` or `"video"`.
    pub fn label(self) -> (r: &'static str)
        ensures
            r@ == kind_label(self),
    {
        match self {
            MediaKind::Image => "image",
            MediaKind::Video => "video",
        }
    }

    /// Classify a file by its name's extension (see [`kind_of`]).
    pub fn from_extension(name: &str) -> (r: Option<MediaKind>)
        ensures
            r == kind_of(name@),
    {
        let e = match file_extension(name) {
            Some(e) => e,
            None => return None,
        };
        let low = to_lowercase(&chars_of(e.as_str()));
        let images: [&str; 10] = ["png", "jpg", "jpeg", "gif", "webp", "bmp", "tiff", "tif", "svg", "avif"];
        let videos: [&str; 7] = ["mp4", "m4v", "mov", "webm", "mkv", "avi", "ogv"];
        let img = is_one_of(&low, &images);
        proof {
            reveal_strlit("png");
            reveal_strlit("jpg");
            reveal_strlit("jpeg");
            reveal_strlit("gif");
            reveal_strlit("webp");
            reveal_strlit("bmp");
            reveal_strlit("tiff");
            reveal_strlit("tif");
            reveal_strlit("svg");
            reveal_strlit("avif");
            if image_extension(low@) {
                if low@ == "png"@ { assert(images@[0]@ == low@); }
                if low@ == "jpg"@ { assert(images@[1]@ == low@); }
                if low@ == "jpeg"@ { assert(images@[2]@ == low@); }
                if low@ == "gif"@ { assert(images@[3]@ == low@); }
                if low@ == "webp"@ { assert(images@[4]@ == low@); }
                if low@ == "bmp"@ { assert(images@[5]@ == low@); }
                if low@ == "tiff"@ { assert(images@[6]@ == low@); }
                if low@ == "tif"@ { assert(images@[7]@ == low@); }
                if low@ == "svg"@ { assert(images@[8]@ == low@); }
                if low@ == "avif"@ { assert(images@[9]@ == low@); }
            }
        }
        if img {
            return Some(MediaKind::Image);
        }
        let vid = is_one_of(&low, &videos);
        proof {
            reveal_strlit("mp4");
            reveal_strlit("m4v");
            reveal_strlit("mov");
            reveal_strlit("webm");
            reveal_strlit("mkv");
            reveal_strlit("avi");
            reveal_strlit("ogv");
            if video_extension(low@) {
                if low@ == "mp4"@ { assert(videos@[0]@ == low@); }
                if low@ == "m4v"@ { assert(videos@[1]@ == low@); }
                if low@ == "mov"@ { assert(videos@[2]@ == low@); }
                if low@ == "webm"@ { assert(videos@[3]@ == low@); }
                if low@ == "mkv"@ { assert(videos@[4]@ == low@); }
                if low@ == "avi"@ { assert(videos@[5]@ == low@); }
                if low@ == "ogv"@ { assert(videos@[6]@ == low@); }
            }
        }
        if vid {
            Some(MediaKind::Video)
        } else {
            None
        }
    }
}

/// The reference a slide background holds into the media cache: the cached
/// copy and its thumbnail, both keyed by the content hash.
#[derive(Clone, Debug)]
pub struct MediaRef {
    pub kind: MediaKind,
    pub path: String,
    pub hash: String,
    pub thumb: String,
    pub duration_ms: Option<u64>,
}

/// `(kind, path, hash, thumb, duration)`.
pub type MediaM = (MediaKind, Seq<char>, Seq<char>, Seq<char>, Option<u64>);

pub open spec fn media_model(m: MediaRef) -> MediaM {
    (m.kind, m.path@, m.hash@, m.thumb@, m.duration_ms)
}

/// The media an image or video background refers to; none for a colour.
pub open spec fn media_of(bg: Background) -> Option<MediaM> {
    match bg {
        Background::Image { path, hash, thumb } => Some((MediaKind::Image, path@, hash@, thumb@, None)),
        Background::Video { path, hash, thumb, duration_ms } => Some((MediaKind::Video, path@, hash@, thumb@, duration_ms)),
        Background::Solid { .. } => None,
    }
}

/// The media cache reference of a background, if any.
pub fn background_media(bg: &Background) -> (r: Option<MediaRef>)
    ensures
        match media_of(*bg) {
            None => r is None,
            Some(m) => r matches Some(x) && media_model(x) == m,
        },
{
    match bg {
        Background::Image { path, hash, thumb } => Some(MediaRef {
            kind: MediaKind::Image,
            path: clone_string(path),
            hash: clone_string(hash),
            thumb: clone_string(thumb),
            duration_ms: None,
        }),
        Background::Video { path, hash, thumb, duration_ms } => Some(MediaRef {
            kind: MediaKind::Video,
            path: clone_string(path),
            hash: clone_string(hash),
            thumb: clone_string(thumb),
            duration_ms: *duration_ms,
        }),
        Background::Solid { .. } => None,
    }
}

fn clone_string(s: &String) -> (r: String)
    ensures
        r@ == s@,
{
    string_of(&chars_of(s.as_str()))
}

/// The background that points at cached media.
pub fn background_for(m: MediaRef) -> (r: Background)
    ensures
        media_of(r) == Some(match m.kind {
            MediaKind::Image => (MediaKind::Image, m.path@, m.hash@, m.thumb@, None::<u64>),
            MediaKind::Video => (MediaKind::Video, m.path@, m.hash@, m.thumb@, m.duration_ms),
        }),
{
    match m.kind {
        MediaKind::Image => Background::Image { path: m.path, hash: m.hash, thumb: m.thumb },
        MediaKind::Video => Background::Video { path: m.path, hash: m.hash, thumb: m.thumb, duration_ms: m.duration_ms },
    }
}

/// What an import classifies a file as, or the message for an unknown type.
pub fn import_kind(name: &str) -> (r: Result<MediaKind, String>)
    ensures
        match kind_of(name@) {
            Some(k) => r == Ok::<MediaKind, String>(k),
            None => r matches Err(e) && e@ == "unsupported media type: \""@ + unsupported_ext(name@) + "\""@,
        },
{
    match MediaKind::from_extension(name) {
        Some(k) => Ok(k),
        None => {
            let mut m = lit("unsupported media type: \"");
            append(&mut m, &chars_of(extension_of(name).as_str()));
            append(&mut m, &lit("\""));
            assert(m@ =~= "unsupported media type: \""@ + unsupported_ext(name@) + "\""@);
            Err(string_of(&m))
        },
    }
}

/// The lower-cased extension, or empty.
pub open spec fn unsupported_ext(name: Seq<char>) -> Seq<char> {
    match name_extension(name) {
        None => seq![],
        Some(e) => lowercase(e),
    }
}

/// `"<hash>.<ext>"`: the name of a cached copy (and, with `jpg`, of its
/// thumbnail).
pub fn cached_name(hash: &str, ext: &str) -> (r: String)
    ensures
        r@ == hash@ + "."@ + ext@,
{
    let mut v = chars_of(hash);
    append(&mut v, &lit("."));
    append(&mut v, &chars_of(ext));
    string_of(&v)
}

/// What the editor is told after an import.
#[derive(Clone, Debug)]
pub struct MediaAsset {
    pub background: Background,
    pub kind: String,
    pub file_name: String,
    pub hash: String,
    pub duration_ms: Option<u64>,
}

/// The asset reported for a just-imported background and the source's file
/// name: kind and hash from its media (an image with no hash for a colour).
pub fn to_asset(background: Background, file_name: &str) -> (r: MediaAsset)
    ensures
        r.background == background,
        r.file_name@ == file_name@,
        match media_of(background) {
            Some(m) => r.kind@ == kind_label(m.0) && r.hash@ == m.2 && r.duration_ms == m.4,
            None => r.kind@ == "image"@ && r.hash@.len() == 0 && r.duration_ms is None,
        },
{
    let (kind, hash, duration_ms) = match background_media(&background) {
        Some(m) => (m.kind, m.hash, m.duration_ms),
        None => (MediaKind::Image, String::new(), None),
    };
    MediaAsset {
        background,
        kind: lit_string(kind.label()),
        file_name: lit_string(file_name),
        hash,
        duration_ms,
    }
}

/// `prev` with the media of `bg` added, unless it has none or its content
/// hash is already there.
pub open spec fn media_step(prev: Seq<MediaM>, bg: Background) -> Seq<MediaM> {
    match media_of(bg) {
        Some(m) => if exists|i: int| 0 <= i < prev.len() && (#[trigger] prev[i]).2 == m.2 { prev } else { prev.push(m) },
        None => prev,
    }
}

/// The media backgrounds among `bgs`, in order, each content hash once (its
/// first occurrence kept), added to `seen`.
pub open spec fn unique_media(seen: Seq<MediaM>, bgs: Seq<Background>) -> Seq<MediaM>
    decreases bgs.len(),
{
    if bgs.len() == 0 {
        seen
    } else {
        media_step(unique_media(seen, bgs.drop_last()), bgs.last())
    }
}

/// The backgrounds of the playlist's slides, then the library songs'
/// default backgrounds.
pub open spec fn referenced_backgrounds(slides: Seq<Slide>, songs: Seq<LibrarySong>) -> Seq<Background> {
    slides.map_values(|s: Slide| s.background) + songs.map_values(|s: LibrarySong| s.default_background)
}

pub open spec fn out_models(v: Seq<MediaRef>) -> Seq<MediaM> {
    v.map_values(|m: MediaRef| media_model(m))
}

fn push_unique(out: &mut Vec<MediaRef>, bg: &Background)
    ensures
        out_models(final(out)@) == media_step(out_models(old(out)@), *bg),
{
    match background_media(bg) {
        Some(m) => {
            let h = chars_of(m.hash.as_str());
            let ghost ms = out_models(out@);
            let mut i: usize = 0;
            while i < out.len()
                invariant
                    i <= out.len(),
                    ms == out_models(out@),
                    out@ == old(out)@,
                    media_of(*bg) == Some(media_model(m)),
                    h@ == m.hash@,
                    forall|q: int| 0 <= q < i ==> (#[trigger] ms[q]).2 != h@,
                decreases out.len() - i,
            {
                assert(ms[i as int] == media_model(out@[i as int]));
                if eq_chars(&chars_of(out[i].hash.as_str()), &h) {
                    assert(ms[i as int].2 == media_model(m).2);
                    return;
                }
                i = i + 1;
            }
            let ghost before = out_models(out@);
            out.push(m);
            assert(out_models(out@) =~= before.push(media_model(m)));
        },
        None => {},
    }
}

/// The media the playlist and the library refer to, each content hash once,
/// in order of first reference (what the startup cache check looks at).
pub fn referenced_media(slides: &Vec<Slide>, songs: &Vec<LibrarySong>) -> (r: Vec<MediaRef>)
    ensures
        out_models(r@) == unique_media(seq![], referenced_backgrounds(slides@, songs@)),
{
    let ghost bgs = referenced_backgrounds(slides@, songs@);
    let n = slides.len();
    let mut out: Vec<MediaRef> = Vec::new();
    let mut i: usize = 0;
    assert(out_models(out@) =~= Seq::<MediaM>::empty());
    assert(bgs.take(0) =~= Seq::<Background>::empty());
    while i < n
        invariant
            i <= n,
            n == slides.len(),
            bgs == referenced_backgrounds(slides@, songs@),
            bgs.len() == n + songs.len(),
            out_models(out@) == unique_media(seq![], bgs.take(i as int)),
        decreases n - i,
    {
        let bg: &Background = &slides[i].background;
        assert(*bg == bgs[i as int]);
        push_unique(&mut out, bg);
        assert(bgs.take(i + 1).drop_last() =~= bgs.take(i as int));
        assert(bgs.take(i + 1).last() == *bg);
        i = i + 1;
    }
    let mut j: usize = 0;
    while j < songs.len()
        invariant
            j <= songs.len(),
            n == slides.len(),
            bgs == referenced_backgrounds(slides@, songs@),
            bgs.len() == n + songs.len(),
            out_models(out@) == unique_media(seq![], bgs.take(n + j)),
        decreases songs.len() - j,
    {
        let bg: &Background = &songs[j].default_background;
        assert(*bg == bgs[n + j]);
        push_unique(&mut out, bg);
        assert(bgs.take(n + j + 1).drop_last() =~= bgs.take(n + j));
        assert(bgs.take(n + j + 1).last() == *bg);
        j = j + 1;
    }
    assert(bgs.take(n + songs.len()) =~= bgs);
    out
}
proof fn lemma_last_dot(s: Seq<char>, e: Seq<char>)
    requires
        !e.contains('.'),
    ensures
        last_index(s + "."@ + e, '.') == Some(s.len() as int),
    decreases e.len(),
{
    reveal_strlit(".");
    let n = s + "."@ + e;
    if e.len() == 0 {
        assert(n.last() == '.');
    } else {
        assert(n.last() == e.last());
        assert(e.last() != '.') by {
            assert(e[e.len() - 1] == e.last());
        }
        assert(!e.drop_last().contains('.')) by {
            if e.drop_last().contains('.') {
                let k = choose|k: int| 0 <= k < e.drop_last().len() && e.drop_last()[k] == '.';
                assert(e[k] == '.');
            }
        }
        lemma_last_dot(s, e.drop_last());
        assert(n.drop_last() =~= s + "."@ + e.drop_last());
    }
}

proof fn lemma_ext_of(s: Seq<char>, e: Seq<char>)
    requires
        s.len() > 0,
        e.len() > 0,
        !e.contains('.'),
    ensures
        name_extension(s + "."@ + e) == Some(e),
{
    reveal_strlit(".");
    reveal_strlit("..");
    lemma_last_dot(s, e);
    let n = s + "."@ + e;
    assert(n.skip(s.len() as int + 1) =~= e);
    assert(n.len() >= 3);
}

/// A plain extension: letters and digits only.
pub open spec fn plain_ext(e: Seq<char>) -> bool {
    forall|i: int| 0 <= i < e.len() ==> {
        let c = #[trigger] e[i] as u32;
        (48 <= c <= 57) || (65 <= c <= 90) || (97 <= c <= 122)
    }
}

proof fn lemma_kind_of_plain(stem: Seq<char>, e: Seq<char>)
    requires
        stem.len() > 0,
        e.len() > 0,
        plain_ext(e),
    ensures
        kind_of(stem + "."@ + e) == (if image_extension(ascii_lower(e)) {
            Some(MediaKind::Image)
        } else if video_extension(ascii_lower(e)) {
            Some(MediaKind::Video)
        } else {
            None
        }),
{
    assert(!e.contains('.')) by {
        if e.contains('.') {
            let k = choose|k: int| 0 <= k < e.len() && e[k] == '.';
            assert(e[k] as u32 == 46);
        }
    }
    assert(all_ascii(e));
    lemma_ext_of(stem, e);
}

/// Files are told apart by extension, in any letter case: png, jpg, jpeg,
/// gif, webp, bmp, tiff, tif, svg and avif are images; mp4, m4v, mov, webm,
/// mkv, avi and ogv are videos; anything else (here: txt, pdf) is neither.
pub proof fn law_media_kinds_by_extension(stem: Seq<char>)
    requires
        stem.len() > 0,
    ensures
        kind_of(stem + "."@ + "png"@) == Some(MediaKind::Image),
        kind_of(stem + "."@ + "jpg"@) == Some(MediaKind::Image),
        kind_of(stem + "."@ + "JPG"@) == Some(MediaKind::Image),
        kind_of(stem + "."@ + "jpeg"@) == Some(MediaKind::Image),
        kind_of(stem + "."@ + "gif"@) == Some(MediaKind::Image),
        kind_of(stem + "."@ + "webp"@) == Some(MediaKind::Image),
        kind_of(stem + "."@ + "bmp"@) == Some(MediaKind::Image),
        kind_of(stem + "."@ + "tiff"@) == Some(MediaKind::Image),
        kind_of(stem + "."@ + "tif"@) == Some(MediaKind::Image),
        kind_of(stem + "."@ + "svg"@) == Some(MediaKind::Image),
        kind_of(stem + "."@ + "avif"@) == Some(MediaKind::Image),
        kind_of(stem + "."@ + "mp4"@) == Some(MediaKind::Video),
        kind_of(stem + "."@ + "MP4"@) == Some(MediaKind::Video),
        kind_of(stem + "."@ + "m4v"@) == Some(MediaKind::Video),
        kind_of(stem + "."@ + "mov"@) == Some(MediaKind::Video),
        kind_of(stem + "."@ + "webm"@) == Some(MediaKind::Video),
        kind_of(stem + "."@ + "mkv"@) == Some(MediaKind::Video),
        kind_of(stem + "."@ + "avi"@) == Some(MediaKind::Video),
        kind_of(stem + "."@ + "ogv"@) == Some(MediaKind::Video),
        kind_of(stem + "."@ + "txt"@) is None,
        kind_of(stem + "."@ + "pdf"@) is None,
{
    reveal_strlit("png"); reveal_strlit("jpg"); reveal_strlit("JPG"); reveal_strlit("jpeg");
    reveal_strlit("gif"); reveal_strlit("webp"); reveal_strlit("bmp"); reveal_strlit("tiff");
    reveal_strlit("tif"); reveal_strlit("svg"); reveal_strlit("avif");
    reveal_strlit("mp4"); reveal_strlit("MP4"); reveal_strlit("m4v"); reveal_strlit("mov");
    reveal_strlit("webm"); reveal_strlit("mkv"); reveal_strlit("avi"); reveal_strlit("ogv");
    reveal_strlit("txt"); reveal_strlit("pdf");
    lemma_kind_of_plain(stem, "png"@);
    assert(ascii_lower("png"@) =~= "png"@);
    lemma_kind_of_plain(stem, "jpg"@);
    assert(ascii_lower("jpg"@) =~= "jpg"@);
    lemma_kind_of_plain(stem, "JPG"@);
    assert(ascii_lower("JPG"@) =~= "jpg"@);
    lemma_kind_of_plain(stem, "jpeg"@);
    assert(ascii_lower("jpeg"@) =~= "jpeg"@);
    lemma_kind_of_plain(stem, "gif"@);
    assert(ascii_lower("gif"@) =~= "gif"@);
    lemma_kind_of_plain(stem, "webp"@);
    assert(ascii_lower("webp"@) =~= "webp"@);
    lemma_kind_of_plain(stem, "bmp"@);
    assert(ascii_lower("bmp"@) =~= "bmp"@);
    lemma_kind_of_plain(stem, "tiff"@);
    assert(ascii_lower("tiff"@) =~= "tiff"@);
    lemma_kind_of_plain(stem, "tif"@);
    assert(ascii_lower("tif"@) =~= "tif"@);
    lemma_kind_of_plain(stem, "svg"@);
    assert(ascii_lower("svg"@) =~= "svg"@);
    lemma_kind_of_plain(stem, "avif"@);
    assert(ascii_lower("avif"@) =~= "avif"@);
    lemma_kind_of_plain(stem, "mp4"@);
    assert(ascii_lower("mp4"@) =~= "mp4"@);
    lemma_kind_of_plain(stem, "MP4"@);
    assert(ascii_lower("MP4"@) =~= "mp4"@);
    lemma_kind_of_plain(stem, "m4v"@);
    assert(ascii_lower("m4v"@) =~= "m4v"@);
    lemma_kind_of_plain(stem, "mov"@);
    assert(ascii_lower("mov"@) =~= "mov"@);
    lemma_kind_of_plain(stem, "webm"@);
    assert(ascii_lower("webm"@) =~= "webm"@);
    lemma_kind_of_plain(stem, "mkv"@);
    assert(ascii_lower("mkv"@) =~= "mkv"@);
    lemma_kind_of_plain(stem, "avi"@);
    assert(ascii_lower("avi"@) =~= "avi"@);
    lemma_kind_of_plain(stem, "ogv"@);
    assert(ascii_lower("ogv"@) =~= "ogv"@);
    lemma_kind_of_plain(stem, "txt"@);
    assert(ascii_lower("txt"@) =~= "txt"@);
    lemma_kind_of_plain(stem, "pdf"@);
    assert(ascii_lower("pdf"@) =~= "pdf"@);
    assert(!image_extension("pdf"@) && !video_extension("pdf"@)) by {
        assert("pdf"@[1] != "png"@[1]);
        assert("pdf"@[0] != "jpg"@[0] && "pdf"@[0] != "jpeg"@[0] && "pdf"@[0] != "gif"@[0]);
        assert("pdf"@[0] != "webp"@[0] && "pdf"@[0] != "bmp"@[0] && "pdf"@[0] != "tiff"@[0]);
        assert("pdf"@[0] != "tif"@[0] && "pdf"@[0] != "svg"@[0] && "pdf"@[0] != "avif"@[0]);
        assert("pdf"@[0] != "mp4"@[0] && "pdf"@[0] != "m4v"@[0] && "pdf"@[0] != "mov"@[0]);
        assert("pdf"@[0] != "webm"@[0] && "pdf"@[0] != "mkv"@[0] && "pdf"@[0] != "avi"@[0]);
        assert("pdf"@[0] != "ogv"@[0]);
    }
}

} // verus!
