//! The NDI receive monitor: a low-rate preview of an NDI source, its
//! liveness, and the pixel work that turns a captured BGRA frame into a
//! small RGB preview.
use crate::project::{lit_string, opt_text};
use crate::text::{append, chars_of, lit, string_of};
use vstd::prelude::*;

verus! {

/// Width of preview frames (between 480 and 640).
pub const PREVIEW_WIDTH: u32 = 560;

/// Milliseconds between delivered previews (2 fps).
pub const EMIT_PERIOD_MS: u64 = 500;

/// Nanoseconds without activity after which a connection counts as stale
/// (4 s).
pub const STALE_AFTER_NS: u64 = 4_000_000_000;

/// Capture wait per tick, in milliseconds.
pub const CAPTURE_TIMEOUT_MS: u32 = 250;

/// Source-list wait per scanning tick, in milliseconds.
pub const FIND_WAIT_MS: u32 = 500;

/// JPEG quality of delivered previews.
pub const JPEG_QUALITY: u8 = 60;

/// Largest frame copied out of the SDK.
pub const MAX_FRAME_BYTES: u64 = 268_435_456;

/// FourCC codes of the 4-byte pixel formats the monitor accepts.
pub const FOURCC_BGRA: i32 = 0x4152_4742;
pub const FOURCC_BGRX: i32 = 0x5852_4742;

/// One discovered NDI source.
#[derive(Clone, Debug)]
pub struct NdiSourceInfo {
    pub name: String,
    pub url: String,
}

/// Monitor liveness: `Live` while frames arrive, `Stale` when connected but
/// nothing fresh came (the last preview must not pass for live).
#[derive(Clone, Copy, Debug, PartialEq, Eq, Structural)]
pub enum NdiMonitorState {
    Off,
    Scanning,
    Connecting,
    Live,
    Stale,
    Error,
}

/// The monitor status the frontend shows.
#[derive(Clone, Debug)]
pub struct NdiMonitorStatus {
    pub state: NdiMonitorState,
    pub source: Option<String>,
    pub message: String,
}

/// One delivered preview frame.
#[derive(Clone, Debug)]
pub struct NdiPreviewEvent {
    pub jpeg_base64: String,
    pub width: u32,
    pub height: u32,
    pub at: String,
}

/// The source list pushed to the frontend.
#[derive(Clone, Debug)]
pub struct NdiSourcesEvent {
    pub sources: Vec<NdiSourceInfo>,
}

/// A decoded preview frame: packed RGB, `width * height * 3` bytes.
pub struct PreviewFrame {
    pub width: u32,
    pub height: u32,
    pub rgb: Vec<u8>,
}

// ---------------------------------------------------------------------------
// Downscaling
// ---------------------------------------------------------------------------

/// The preview size of a `sw` x `sh` frame: unchanged up to the preview
/// width, else the preview width with the height scaled alike (at least 1).
pub open spec fn preview_size(sw: u32, sh: u32) -> (u32, u32) {
    if sw <= PREVIEW_WIDTH {
        (sw, sh)
    } else {
        let q = (sh as int * PREVIEW_WIDTH as int) / (sw as int);
        (PREVIEW_WIDTH, if q < 1 { 1u32 } else if q > u32::MAX { u32::MAX } else { q as u32 })
    }
}

/// The frame geometry is usable: a size, rows of at least 4 bytes per
/// pixel, and a buffer holding every row.
pub open spec fn frame_fits(len: nat, sw: u32, sh: u32, stride: usize) -> bool {
    sw != 0 && sh != 0 && stride >= 4 * sw && stride * sh <= len
}

/// Where preview pixel (x, y) is sampled: the nearest source pixel.
pub open spec fn sample_offset(sw: u32, sh: u32, stride: usize, dw: u32, dh: u32, y: int, x: int) -> int {
    ((y * sh) / (dh as int)) * stride + ((x * sw) / (dw as int)) * 4
}

/// Byte `c` (red, green, blue) of preview pixel (x, y).
pub open spec fn rgb_at(rgb: Seq<u8>, dw: u32, y: int, x: int, c: int) -> u8 {
    rgb[(y * dw + x) * 3 + c]
}

/// The preview of a frame: each pixel's red, green and blue read from the
/// blue, green, red bytes of its nearest source pixel.
pub open spec fn preview_of(src: Seq<u8>, sw: u32, sh: u32, stride: usize, f: PreviewFrame) -> bool {
    let (dw, dh) = preview_size(sw, sh);
    &&& f.width == dw
    &&& f.height == dh
    &&& f.rgb@.len() == dw * dh * 3
    &&& forall|y: int, x: int, c: int|
        0 <= y < dh && 0 <= x < dw && 0 <= c < 3 ==> #[trigger] rgb_at(f.rgb@, dw, y, x, c)
            == src[sample_offset(sw, sh, stride, dw, dh, y, x) + 2 - c]
}

proof fn lemma_scaled_below(y: int, n: int, d: int)
    by (nonlinear_arith)
    requires
        0 <= y < d,
        n > 0,
    ensures
        0 <= (y * n) / d < n,
{
}

proof fn lemma_offset_in_frame(sy: int, sx: int, sh: int, sw: int, stride: int)
    by (nonlinear_arith)
    requires
        0 <= sy < sh,
        0 <= sx < sw,
        stride >= 4 * sw,
    ensures
        sy * stride + sx * 4 + 2 < stride * sh,
        sy * stride <= stride * sh,
{
}

proof fn lemma_earlier_row(yy: int, xx: int, y: int, dw: int)
    by (nonlinear_arith)
    requires
        0 <= yy < y,
        0 <= xx < dw,
    ensures
        yy * dw + xx < y * dw,
{
}

proof fn lemma_preview_fits(sw: int, sh: int, stride: int, len: int, dw: int, dh: int)
    by (nonlinear_arith)
    requires
        sw > 0,
        sh > 0,
        stride >= 4 * sw,
        stride * sh <= len,
        dw > 0,
        dh > 0,
        dw <= sw || (dw == 560 && sw > 560),
        dh <= sh || (dh == 1 && 1680 <= 4 * sw),
        dw == sw ==> dh == sh,
        dw == 560 && sw > 560 && dh > 1 ==> dh * sw <= sh * 560,
    ensures
        dw * dh * 3 <= len,
{
}

/// Downscale packed BGR(A) (`stride`-pitched, 4 bytes a pixel) to at most
/// [`PREVIEW_WIDTH`] packed RGB by nearest-neighbour sampling; `None` for
/// degenerate geometry or a short buffer.
pub fn downscale_bgr_to_rgb(src: &[u8], sw: u32, sh: u32, stride: usize) -> (r: Option<PreviewFrame>)
    requires
        4 * sw <= usize::MAX,
    ensures
        match r {
            None => !frame_fits(src@.len(), sw, sh, stride),
            Some(f) => frame_fits(src@.len(), sw, sh, stride) && preview_of(src@, sw, sh, stride, f),
        },
{
    if sw == 0 || sh == 0 {
        return None;
    }
    if (stride as u64) < (sw as u64) * 4 {
        return None;
    }
    let slen: usize = src.len();
    match (stride as u64).checked_mul(sh as u64) {
        None => {
            assert(slen as int <= u64::MAX);
            return None;
        },
        Some(total) => {
            if total > src.len() as u64 {
                return None;
            }
        },
    }
    let ghost len = src@.len();
    assert(len == slen);
    let (dw, dh): (u32, u32) = if sw <= PREVIEW_WIDTH {
        (sw, sh)
    } else {
        let q: u64 = (sh as u64 * PREVIEW_WIDTH as u64) / sw as u64;
        let h: u32 = if q < 1 { 1 } else if q > u32::MAX as u64 { u32::MAX } else { q as u32 };
        (PREVIEW_WIDTH, h)
    };
    assert((dw, dh) == preview_size(sw, sh));
    proof {
        if sw > PREVIEW_WIDTH {
            let q = (sh as int * 560) / (sw as int);
            assert(q * sw <= sh * 560) by (nonlinear_arith)
                requires q == (sh as int * 560) / (sw as int), sw > 0;
            assert(q <= sh) by (nonlinear_arith)
                requires q * sw <= sh * 560, sw > 560, q >= 0;
        }
        lemma_preview_fits(sw as int, sh as int, stride as int, len as int, dw as int, dh as int);
    }
    let mut rgb: Vec<u8> = Vec::new();
    let mut y: u32 = 0;
    let ghost mut row: int = 0;
    while y < dh
        invariant
            frame_fits(len, sw, sh, stride),
            len == src@.len(),
            len == slen,
            (dw, dh) == preview_size(sw, sh),
            dw > 0,
            dh > 0,
            dw * dh * 3 <= len,
            y <= dh,
            row == y * dw,
            rgb@.len() == row * 3,
            forall|yy: int, xx: int, c: int|
                0 <= yy < y && 0 <= xx < dw && 0 <= c < 3 ==> #[trigger] rgb_at(rgb@, dw, yy, xx, c)
                    == src@[sample_offset(sw, sh, stride, dw, dh, yy, xx) + 2 - c],
        decreases dh - y,
    {
        proof {
            lemma_scaled_below(y as int, sh as int, dh as int);
        }
        assert((y as int) * (sh as int) <= 0xFFFF_FFFF * 0xFFFF_FFFF) by (nonlinear_arith)
            requires
                y <= 0xFFFF_FFFF,
                sh <= 0xFFFF_FFFF,
                y >= 0,
                sh >= 0,
        ;
        let sy: usize = ((y as u64 * sh as u64) / dh as u64) as usize;
        let mut x: u32 = 0;
        while x < dw
            invariant
                frame_fits(len, sw, sh, stride),
                len == src@.len(),
                len == slen,
                (dw, dh) == preview_size(sw, sh),
                dw > 0,
                dh > 0,
                dw * dh * 3 <= len,
                y < dh,
                x <= dw,
                row == y * dw,
                sy == (y * sh) / (dh as int),
                sy < sh,
                rgb@.len() == (row + x) * 3,
                forall|yy: int, xx: int, c: int|
                    0 <= yy < y && 0 <= xx < dw && 0 <= c < 3 ==> #[trigger] rgb_at(rgb@, dw, yy, xx, c)
                        == src@[sample_offset(sw, sh, stride, dw, dh, yy, xx) + 2 - c],
                forall|xx: int, c: int|
                    0 <= xx < x && 0 <= c < 3 ==> #[trigger] rgb_at(rgb@, dw, y as int, xx, c)
                        == src@[sample_offset(sw, sh, stride, dw, dh, y as int, xx) + 2 - c],
            decreases dw - x,
        {
            proof {
                lemma_scaled_below(x as int, sw as int, dw as int);
            }
            assert((x as int) * (sw as int) <= 0xFFFF_FFFF * 0xFFFF_FFFF) by (nonlinear_arith)
                requires
                    x <= 0xFFFF_FFFF,
                    sw <= 0xFFFF_FFFF,
                    x >= 0,
                    sw >= 0,
            ;
            let sx: usize = ((x as u64 * sw as u64) / dw as u64) as usize;
            proof {
                lemma_offset_in_frame(sy as int, sx as int, sh as int, sw as int, stride as int);
            }
            let s_off: usize = sy * stride + sx * 4;
            assert(s_off == sample_offset(sw, sh, stride, dw, dh, y as int, x as int));
            let ghost before = rgb@;
            rgb.push(src[s_off + 2]);
            rgb.push(src[s_off + 1]);
            rgb.push(src[s_off]);
            proof {
                assert(rgb@ == before.push(src@[s_off + 2]).push(src@[s_off + 1]).push(src@[s_off as int]));
                assert forall|yy: int, xx: int, c: int|
                    0 <= yy < y && 0 <= xx < dw && 0 <= c < 3 implies #[trigger] rgb_at(rgb@, dw, yy, xx, c)
                        == src@[sample_offset(sw, sh, stride, dw, dh, yy, xx) + 2 - c] by {
                    lemma_earlier_row(yy, xx, y as int, dw as int);
                    assert(rgb_at(rgb@, dw, yy, xx, c) == rgb_at(before, dw, yy, xx, c));
                }
                assert forall|xx: int, c: int|
                    0 <= xx < x + 1 && 0 <= c < 3 implies #[trigger] rgb_at(rgb@, dw, y as int, xx, c)
                        == src@[sample_offset(sw, sh, stride, dw, dh, y as int, xx) + 2 - c] by {
                    if xx < x {
                        assert(rgb_at(rgb@, dw, y as int, xx, c) == rgb_at(before, dw, y as int, xx, c));
                    }
                }
            }
            x = x + 1;
        }
        proof {
            row = row + dw;
            assert(row == (y + 1) * dw) by (nonlinear_arith)
                requires row == y * dw + dw;
        }
        y = y + 1;
    }
    assert(rgb@.len() == dw * dh * 3);
    Some(PreviewFrame { width: dw, height: dh, rgb })
}

// ---------------------------------------------------------------------------
// Liveness
// ---------------------------------------------------------------------------

/// A connection is stale when more than 4 s passed between its last activity
/// (frame or connect) and `now`, both read off a monotonic nanosecond clock;
/// a `now` before the activity counts as no time passed.
pub fn is_stale(last_activity_ns: u64, now_ns: u64) -> (r: bool)
    ensures
        r == (now_ns >= last_activity_ns && now_ns - last_activity_ns > STALE_AFTER_NS),
{
    now_ns >= last_activity_ns && now_ns - last_activity_ns > STALE_AFTER_NS
}

/// A preview is due when none was delivered yet or the last one is at least
/// half a second old.
pub fn preview_due(ms_since_last_emit: Option<u64>) -> (r: bool)
    ensures
        r == match ms_since_last_emit {
            Some(ms) => ms >= EMIT_PERIOD_MS,
            None => true,
        },
{
    match ms_since_last_emit {
        Some(ms) => ms >= EMIT_PERIOD_MS,
        None => true,
    }
}

/// The bytes of a captured frame worth copying: a BGRA/BGRX frame with a
/// positive size and non-negative stride, `stride * height` bytes, no more
/// than [`MAX_FRAME_BYTES`].
pub open spec fn frame_bytes(four_cc: i32, w: i32, h: i32, stride: i32, has_data: bool) -> Option<u64> {
    if !(four_cc == FOURCC_BGRA || four_cc == FOURCC_BGRX) || w <= 0 || h <= 0 || stride < 0 || !has_data {
        None
    } else {
        let total = stride * h;
        if total == 0 || total > MAX_FRAME_BYTES { None } else { Some(total as u64) }
    }
}

/// See [`frame_bytes`].
pub fn captured_frame_bytes(four_cc: i32, w: i32, h: i32, stride: i32, has_data: bool) -> (r: Option<u64>)
    ensures
        r == frame_bytes(four_cc, w, h, stride, has_data),
{
    if !(four_cc == FOURCC_BGRA || four_cc == FOURCC_BGRX) || w <= 0 || h <= 0 || stride < 0 || !has_data {
        return None;
    }
    assert((stride as int) * (h as int) <= 0x7FFF_FFFF * 0x7FFF_FFFF) by (nonlinear_arith)
        requires
            0 <= stride <= 0x7FFF_FFFF,
            0 < h <= 0x7FFF_FFFF,
    ;
    let total: u64 = (stride as u64) * (h as u64);
    if total == 0 || total > MAX_FRAME_BYTES {
        None
    } else {
        Some(total)
    }
}

/// The status of a monitor that is off.
pub fn idle_status() -> (r: NdiMonitorStatus)
    ensures
        r.state == NdiMonitorState::Off,
        r.source is None,
        r.message@ == "Monitor off."@,
{
    NdiMonitorStatus { state: NdiMonitorState::Off, source: None, message: lit_string("Monitor off.") }
}

/// What the monitor reports when a video frame arrives: the first frame
/// after a connect, an error or a stall makes it live again.
pub fn on_video_frame(live: bool, source: &Option<String>) -> (r: (bool, Option<NdiMonitorStatus>))
    ensures
        r.0,
        live ==> r.1 is None,
        !live ==> (r.1 matches Some(s) && s.state == NdiMonitorState::Live && opt_text(s.source) == opt_text(*source)
            && s.message@ == match *source {
            Some(n) => "Receiving from \""@ + n@ + "\" (preview ~2 fps)."@,
            None => Seq::<char>::empty(),
        }),
{
    if live {
        return (true, None);
    }
    let message = match source {
        Some(n) => {
            let mut m = lit("Receiving from \"");
            append(&mut m, &chars_of(n.as_str()));
            append(&mut m, &lit("\" (preview ~2 fps)."));
            string_of(&m)
        },
        None => String::new(),
    };
    let src = match source {
        Some(n) => Some(lit_string(n.as_str())),
        None => None,
    };
    (true, Some(NdiMonitorStatus { state: NdiMonitorState::Live, source: src, message }))
}

/// What the monitor reports when the SDK signals a lost connection, or the
/// watchdog finds the feed quiet (`quiet`): a live feed turns stale once,
/// with a message that says which.
pub fn on_feed_lost(live: bool, quiet: bool, source: &Option<String>) -> (r: (bool, Option<NdiMonitorStatus>))
    ensures
        !r.0,
        !live ==> r.1 is None,
        live ==> (r.1 matches Some(s) && s.state == NdiMonitorState::Stale && opt_text(s.source) == opt_text(*source)
            && s.message@ == (if quiet { stale_quiet_msg() } else { stale_lost_msg() })),
{
    if !live {
        return (false, None);
    }
    let message = if quiet {
        lit_string("No fresh frames — last preview shown is stale, not live.")
    } else {
        lit_string("Connection lost — retrying. Last frame shown is not live.")
    };
    (false, Some(NdiMonitorStatus { state: NdiMonitorState::Stale, source: copy_source(source), message }))
}

pub open spec fn stale_quiet_msg() -> Seq<char> {
    "No fresh frames — last preview shown is stale, not live."@
}

pub open spec fn stale_lost_msg() -> Seq<char> {
    "Connection lost — retrying. Last frame shown is not live."@
}

fn copy_source(o: &Option<String>) -> (r: Option<String>)
    ensures
        opt_text(r) == opt_text(*o),
{
    match o {
        Some(s) => Some(lit_string(s.as_str())),
        None => None,
    }
}

/// What the monitor thread keeps between ticks.
#[derive(Clone, Debug)]
pub struct MonitorState {
    /// A receiver is open.
    pub connected: bool,
    /// The source it was opened for.
    pub source: Option<String>,
    /// Frames are arriving.
    pub live: bool,
    /// Clock reading (ns) of the last frame or connect.
    pub last_activity_ns: Option<u64>,
    /// When the last preview went out.
    pub last_emit_ms: Option<u64>,
}

/// What happens to the monitor: a connect request (with whether the receiver
/// could be opened), a disconnect request, and what a capture gave.
#[derive(Clone, Debug)]
pub enum MonitorEvent {
    Connect { name: String, opened: bool },
    Disconnect,
    VideoFrame,
    ConnectionLost,
    /// A capture that gave nothing (timeout or status change).
    Heartbeat,
}

/// What `connect` is told when the source name cannot be handed to the SDK.
pub open spec fn has_nul(name: Seq<char>) -> bool {
    name.contains('\0')
}

fn name_has_nul(name: &str) -> (r: bool)
    ensures
        r == has_nul(name@),
{
    let v = chars_of(name);
    let mut i: usize = 0;
    while i < v.len()
        invariant
            i <= v.len(),
            v@ == name@,
            forall|k: int| 0 <= k < i ==> v@[k] != '\0',
        decreases v.len() - i,
    {
        if v[i] == '\0' {
            assert(v@[i as int] == '\0');
            return true;
        }
        i = i + 1;
    }
    false
}

/// One step of the receive monitor at clock reading `now_ns`: the new state
/// and the status to report, if it changed.
///
/// - Connect: any open receiver is closed first. A name the SDK cannot take
///   (it holds a NUL) is an error; a receiver that did not open is an error
///   naming the source; else the monitor is connecting to it, not yet live.
/// - Disconnect: closed, scanning again.
/// - A video frame counts as activity and makes the feed live again.
/// - A lost connection turns a live feed stale.
/// - An empty capture: the watchdog turns a live feed stale once more than
///   4 s passed without activity.
pub fn monitor_step(st: &mut MonitorState, ev: MonitorEvent, now_ns: u64) -> (r: Option<NdiMonitorStatus>)
    ensures
        match ev {
            MonitorEvent::Connect { name, opened } => if has_nul(name@) {
                &&& r matches Some(s) && s.state == NdiMonitorState::Error && s.source is None
                    && s.message@ == "Invalid source name."@
                &&& !final(st).connected
                &&& opt_text(final(st).source) == opt_text(old(st).source)
                &&& final(st).live == old(st).live
                &&& final(st).last_activity_ns == old(st).last_activity_ns
                &&& final(st).last_emit_ms == old(st).last_emit_ms
            } else if !opened {
                &&& r matches Some(s) && s.state == NdiMonitorState::Error && opt_text(s.source) == Some(name@)
                    && s.message@ == "Could not open receiver for \""@ + name@ + "\"."@
                &&& !final(st).connected
                &&& opt_text(final(st).source) == opt_text(old(st).source)
                &&& final(st).live == old(st).live
                &&& final(st).last_activity_ns == old(st).last_activity_ns
                &&& final(st).last_emit_ms == old(st).last_emit_ms
            } else {
                &&& r matches Some(s) && s.state == NdiMonitorState::Connecting && opt_text(s.source) == Some(name@)
                    && s.message@ == "Connecting to \""@ + name@ + "\"…"@
                &&& final(st).connected
                &&& opt_text(final(st).source) == Some(name@)
                &&& !final(st).live
                &&& final(st).last_activity_ns == Some(now_ns)
                &&& final(st).last_emit_ms is None
            },
            MonitorEvent::Disconnect => {
                &&& r matches Some(s) && s.state == NdiMonitorState::Scanning && s.source is None
                    && s.message@ == "Disconnected — still scanning."@
                &&& !final(st).connected
                &&& final(st).source is None
                &&& !final(st).live
                &&& final(st).last_activity_ns is None
                &&& final(st).last_emit_ms == old(st).last_emit_ms
            },
            MonitorEvent::VideoFrame => {
                &&& final(st).live
                &&& final(st).last_activity_ns == Some(now_ns)
                &&& final(st).connected == old(st).connected
                &&& opt_text(final(st).source) == opt_text(old(st).source)
                &&& final(st).last_emit_ms == old(st).last_emit_ms
                &&& old(st).live ==> r is None
                &&& !old(st).live ==> (r matches Some(s) && s.state == NdiMonitorState::Live
                    && opt_text(s.source) == opt_text(old(st).source)
                    && s.message@ == match old(st).source {
                        Some(n) => "Receiving from \""@ + n@ + "\" (preview ~2 fps)."@,
                        None => Seq::<char>::empty(),
                    })
            },
            MonitorEvent::ConnectionLost => {
                &&& !final(st).live
                &&& final(st).connected == old(st).connected
                &&& opt_text(final(st).source) == opt_text(old(st).source)
                &&& final(st).last_activity_ns == old(st).last_activity_ns
                &&& final(st).last_emit_ms == old(st).last_emit_ms
                &&& !old(st).live ==> r is None
                &&& old(st).live ==> (r matches Some(s) && s.state == NdiMonitorState::Stale
                    && opt_text(s.source) == opt_text(old(st).source) && s.message@ == stale_lost_msg())
            },
            MonitorEvent::Heartbeat => {
                let quiet = old(st).connected && old(st).live && match old(st).last_activity_ns {
                    Some(t) => now_ns >= t && now_ns - t > STALE_AFTER_NS,
                    None => false,
                };
                &&& final(st).live == (old(st).live && !quiet)
                &&& final(st).connected == old(st).connected
                &&& opt_text(final(st).source) == opt_text(old(st).source)
                &&& final(st).last_activity_ns == old(st).last_activity_ns
                &&& final(st).last_emit_ms == old(st).last_emit_ms
                &&& !quiet ==> r is None
                &&& quiet ==> (r matches Some(s) && s.state == NdiMonitorState::Stale
                    && opt_text(s.source) == opt_text(old(st).source) && s.message@ == stale_quiet_msg())
            },
        },
{
    match ev {
        MonitorEvent::Connect { name, opened } => {
            st.connected = false;
            if name_has_nul(name.as_str()) {
                return Some(NdiMonitorStatus {
                    state: NdiMonitorState::Error,
                    source: None,
                    message: lit_string("Invalid source name."),
                });
            }
            if !opened {
                let mut m = lit("Could not open receiver for \"");
                append(&mut m, &chars_of(name.as_str()));
                append(&mut m, &lit("\"."));
                return Some(NdiMonitorStatus {
                    state: NdiMonitorState::Error,
                    source: Some(lit_string(name.as_str())),
                    message: string_of(&m),
                });
            }
            let mut m = lit("Connecting to \"");
            append(&mut m, &chars_of(name.as_str()));
            append(&mut m, &lit("\"…"));
            st.connected = true;
            st.source = Some(lit_string(name.as_str()));
            st.live = false;
            st.last_activity_ns = Some(now_ns);
            st.last_emit_ms = None;
            Some(NdiMonitorStatus {
                state: NdiMonitorState::Connecting,
                source: Some(lit_string(name.as_str())),
                message: string_of(&m),
            })
        },
        MonitorEvent::Disconnect => {
            st.connected = false;
            st.source = None;
            st.last_activity_ns = None;
            st.live = false;
            Some(NdiMonitorStatus {
                state: NdiMonitorState::Scanning,
                source: None,
                message: lit_string("Disconnected — still scanning."),
            })
        },
        MonitorEvent::VideoFrame => {
            st.last_activity_ns = Some(now_ns);
            let (live, status) = on_video_frame(st.live, &st.source);
            st.live = live;
            status
        },
        MonitorEvent::ConnectionLost => {
            let (live, status) = on_feed_lost(st.live, false, &st.source);
            st.live = live;
            status
        },
        MonitorEvent::Heartbeat => {
            let quiet = st.connected && st.live && match st.last_activity_ns {
                Some(t) => is_stale(t, now_ns),
                None => false,
            };
            if quiet {
                let (live, status) = on_feed_lost(true, true, &st.source);
                st.live = live;
                status
            } else {
                None
            }
        },
    }
}

/// A preview is never wider than [`PREVIEW_WIDTH`] and never empty: a frame
/// with pixels gives a preview with pixels.
pub proof fn law_preview_fits(sw: u32, sh: u32)
    ensures
        preview_size(sw, sh).0 <= PREVIEW_WIDTH,
        sw > 0 ==> preview_size(sw, sh).0 > 0,
        sh > 0 ==> preview_size(sw, sh).1 > 0,
{
}

} // verus!
