//! The NDI broadcast feed: the source name receivers see, the SDK library
//! to load per platform, and which frames are sent.
use crate::project::opt_text;
use crate::text::{chars_of, slice_of, string_of, trim, trim_chars};
use vstd::prelude::*;

verus! {

/// The NDI source name receivers see on the network.
pub const NDI_SOURCE_NAME: &'static str = "MakrStudio - Sunday Output";

/// Nominal frame rate of the feed: 30000/1001 (about 29.97 fps).
pub const FRAME_RATE_N: i32 = 30_000;
pub const FRAME_RATE_D: i32 = 1_001;

/// Milliseconds after which a held frame is sent again.
pub const RESEND_PERIOD_MS: u64 = 33;

/// Milliseconds without a frame after which the feed counts as stale.
pub const FEED_STALE_MS: u64 = 5000;

/// Pixel formats of NDI video frames.
#[derive(Clone, Copy, Debug, PartialEq, Eq, Structural)]
pub enum FourCC {
    /// `"BGRA"`: with alpha, for compositing.
    Bgra,
    /// `"BGRX"`: opaque.
    Bgrx,
}

impl FourCC {
    /// The code of `NDIlib_FourCC_video_type_e`: the four letters as a
    /// little-endian integer.
    pub fn code(self) -> (r: i32)
        ensures
            r == (match self {
                FourCC::Bgra => 0x4152_4742i32,
                FourCC::Bgrx => 0x5852_4742i32,
            }),
    {
        match self {
            FourCC::Bgra => 0x4152_4742,
            FourCC::Bgrx => 0x5852_4742,
        }
    }
}

/// Operating systems the NDI SDK library is looked up for.
#[derive(Clone, Copy, Debug, PartialEq, Eq, Structural)]
pub enum Platform {
    Windows,
    MacOs,
    /// Linux and the rest.
    Other,
}

pub open spec fn lib_name(p: Platform) -> Seq<char> {
    match p {
        Platform::Windows => "Processing.NDI.Lib.x64.dll"@,
        Platform::MacOs => "libndi.dylib"@,
        Platform::Other => "libndi.so.5"@,
    }
}

/// File name of the NDI SDK shared library on a platform.
pub fn lib_filename(platform: Platform) -> (r: &'static str)
    ensures
        r@ == lib_name(platform),
{
    match platform {
        Platform::Windows => "Processing.NDI.Lib.x64.dll",
        Platform::MacOs => "libndi.dylib",
        Platform::Other => "libndi.so.5",
    }
}

/// A frame is taken as the current one only with a size and pixels.
pub fn frame_acceptable(width: u32, height: u32, len: usize) -> (r: bool)
    ensures
        r == (width != 0 && height != 0 && len != 0),
{
    width != 0 && height != 0 && len != 0
}

/// Pixel `p` of a BGRA frame has zero blue, green and red.
pub open spec fn pixel_black(bgra: Seq<u8>, p: int) -> bool {
    bgra[4 * p] == 0 && bgra[4 * p + 1] == 0 && bgra[4 * p + 2] == 0
}

/// Every whole 4-byte pixel is black.
pub open spec fn all_black(bgra: Seq<u8>) -> bool {
    forall|p: int| 0 <= p && 4 * p + 4 <= bgra.len() ==> #[trigger] pixel_black(bgra, p)
}

/// Whether a BGRA frame is black (such frames are held back, not sent).
pub fn is_black_frame(bgra: &[u8]) -> (r: bool)
    ensures
        r == all_black(bgra@),
{
    let mut p: usize = 0;
    let mut o: usize = 0;
    while bgra.len() - o >= 4
        invariant
            o == 4 * p,
            o <= bgra@.len(),
            forall|q: int| 0 <= q < p ==> #[trigger] pixel_black(bgra@, q),
        decreases bgra.len() - o,
    {
        let black = bgra[o] == 0 && bgra[o + 1] == 0 && bgra[o + 2] == 0;
        assert(black == pixel_black(bgra@, p as int));
        if !black {
            return false;
        }
        p = p + 1;
        o = o + 4;
    }
    assert forall|q: int| 0 <= q && 4 * q + 4 <= bgra@.len() implies #[trigger] pixel_black(bgra@, q) by {
        assert(q < p);
    }
    true
}

/// Whether the feed is stale: off is never stale; on, it is stale until a
/// real frame arrived and once the last one is more than 5 s old.
pub fn feed_stale(active: bool, has_real_frames: bool, ms_since_last_frame: Option<u64>) -> (r: bool)
    ensures
        r == (active && (!has_real_frames || match ms_since_last_frame {
            Some(ms) => ms > FEED_STALE_MS,
            None => true,
        })),
{
    if !active {
        return false;
    }
    if !has_real_frames {
        return true;
    }
    match ms_since_last_frame {
        Some(ms) => ms > FEED_STALE_MS,
        None => true,
    }
}

/// Whether the held frame is due to be sent again.
pub fn resend_due(ms_since_last_send: Option<u64>) -> (r: bool)
    ensures
        r == match ms_since_last_send {
            Some(ms) => ms >= RESEND_PERIOD_MS,
            None => true,
        },
{
    match ms_since_last_send {
        Some(ms) => ms >= RESEND_PERIOD_MS,
        None => true,
    }
}

/// `s` without its leading double quotes.
pub open spec fn drop_lead_quotes(s: Seq<char>) -> Seq<char>
    decreases s.len(),
{
    if s.len() > 0 && s[0] == '"' { drop_lead_quotes(s.drop_first()) } else { s }
}

/// `s` without its trailing double quotes.
pub open spec fn drop_trail_quotes(s: Seq<char>) -> Seq<char>
    decreases s.len(),
{
    if s.len() > 0 && s.last() == '"' { drop_trail_quotes(s.drop_last()) } else { s }
}

/// A runtime directory as the environment gives it: trimmed of white space,
/// then of double quotes.
pub open spec fn runtime_dir(s: Seq<char>) -> Seq<char> {
    drop_trail_quotes(drop_lead_quotes(trim(s)))
}

/// The directories the NDI library is looked for in, in order: the NDI 6
/// runtime directory, then the NDI 5 one, each when set and not empty once
/// trimmed; `None` stands for the bare library name (next to the program or
/// on the loader's search path), always tried last.
pub open spec fn ndi_search(v6: Option<Seq<char>>, v5: Option<Seq<char>>) -> Seq<Option<Seq<char>>> {
    let a = match v6 {
        Some(d) => if runtime_dir(d).len() > 0 { seq![Some(runtime_dir(d))] } else { seq![] },
        None => seq![],
    };
    let b = match v5 {
        Some(d) => if runtime_dir(d).len() > 0 { seq![Some(runtime_dir(d))] } else { seq![] },
        None => seq![],
    };
    a + b + seq![None::<Seq<char>>]
}

proof fn lemma_drop_lead(s: Seq<char>, i: int)
    requires
        0 <= i <= s.len(),
        forall|k: int| 0 <= k < i ==> s[k] == '"',
        i < s.len() ==> s[i] != '"',
    ensures
        drop_lead_quotes(s) == s.skip(i),
    decreases i,
{
    if i > 0 {
        assert forall|k: int| 0 <= k < i - 1 implies s.drop_first()[k] == '"' by {
            assert(s.drop_first()[k] == s[k + 1]);
        }
        if i - 1 < s.drop_first().len() {
            assert(s.drop_first()[i - 1] == s[i]);
        }
        lemma_drop_lead(s.drop_first(), i - 1);
        assert(s.drop_first().skip(i - 1) =~= s.skip(i));
    } else {
        assert(s.skip(0) =~= s);
    }
}

proof fn lemma_drop_trail(s: Seq<char>, j: int)
    requires
        0 <= j <= s.len(),
        forall|k: int| j <= k < s.len() ==> s[k] == '"',
        j > 0 ==> s[j - 1] != '"',
    ensures
        drop_trail_quotes(s) == s.take(j),
    decreases s.len() - j,
{
    if j < s.len() {
        assert forall|k: int| j <= k < s.drop_last().len() implies s.drop_last()[k] == '"' by {}
        lemma_drop_trail(s.drop_last(), j);
        assert(s.drop_last().take(j) =~= s.take(j));
    } else {
        assert(s.take(j) =~= s);
    }
}

fn runtime_dir_exec(d: &str) -> (r: Vec<char>)
    ensures
        r@ == runtime_dir(d@),
{
    let t = trim_chars(&chars_of(d));
    let mut i: usize = 0;
    while i < t.len() && t[i] == '"'
        invariant
            i <= t.len(),
            forall|k: int| 0 <= k < i ==> t@[k] == '"',
        decreases t.len() - i,
    {
        i = i + 1;
    }
    proof {
        lemma_drop_lead(t@, i as int);
    }
    let mut j: usize = t.len();
    while j > i && t[j - 1] == '"'
        invariant
            i <= j <= t.len(),
            forall|k: int| j <= k < t.len() ==> t@[k] == '"',
        decreases j,
    {
        j = j - 1;
    }
    let u = slice_of(&t, i, j);
    proof {
        let s = t@.skip(i as int);
        assert forall|k: int| (j - i) <= k < s.len() implies s[k] == '"' by {
            assert(s[k] == t@[k + i]);
        }
        if j > i {
            assert(s[j - i - 1] == t@[j - 1]);
        }
        lemma_drop_trail(s, (j - i) as int);
        assert(s.take((j - i) as int) =~= t@.subrange(i as int, j as int));
    }
    u
}

/// The places the NDI library is looked for, in order (see [`ndi_search`]):
/// `v6` and `v5` are the `NDI_RUNTIME_DIR_V6` and `NDI_RUNTIME_DIR_V5`
/// variables when set. A directory entry is joined with the library's file
/// name by the caller.
pub fn ndi_candidates(v6: Option<String>, v5: Option<String>) -> (r: Vec<Option<String>>)
    ensures
        r@.map_values(|o: Option<String>| opt_text(o)) == ndi_search(opt_text(v6), opt_text(v5)),
{
    let ghost g6 = opt_text(v6);
    let ghost g5 = opt_text(v5);
    let mut out: Vec<Option<String>> = Vec::new();
    if let Some(d) = &v6 {
        let t = runtime_dir_exec(d.as_str());
        if t.len() > 0 {
            out.push(Some(string_of(&t)));
        }
    }
    if let Some(d) = &v5 {
        let t = runtime_dir_exec(d.as_str());
        if t.len() > 0 {
            out.push(Some(string_of(&t)));
        }
    }
    out.push(None);
    let ghost view = out@.map_values(|o: Option<String>| opt_text(o));
    assert(view =~= ndi_search(g6, g5));
    out
}

} // verus!
