//! Audio playback bookkeeping: output devices, the playback position and the
//! transport state that the player thread keeps for one track at a time.
use crate::text::{append, chars_of, eq_chars, lit, string_of};
use vstd::prelude::*;

verus! {

/// An audio output device as the settings list shows it.
#[derive(Clone, Debug)]
pub struct AudioDeviceInfo {
    pub id: String,
    pub name: String,
    pub is_default: bool,
}

/// Seconds into the track: the position playback resumed from plus the
/// whole seconds since it resumed (saturating).
pub fn playback_position(base_secs: u64, elapsed_secs: Option<u64>) -> (r: u64)
    ensures
        r == (match elapsed_secs {
            Some(e) => if base_secs + e > u64::MAX { u64::MAX as int } else { base_secs + e },
            None => base_secs as int,
        }),
{
    match elapsed_secs {
        Some(e) => base_secs.saturating_add(e),
        None => base_secs,
    }
}

/// Where playback stands.
#[derive(Clone, Copy, Debug, PartialEq, Eq, Structural)]
pub enum AudioStatus {
    Stopped,
    Playing,
    Paused,
}

/// What the player thread knows of the track and its clock. The volume, a
/// float, is kept beside it by the thread itself.
#[derive(Clone, Debug)]
pub struct Transport {
    pub status: AudioStatus,
    pub current_path: Option<String>,
    pub device_id: Option<String>,
    pub duration_secs: Option<u64>,
    pub position_secs: Option<u64>,
    /// Position, in whole seconds, from which playback last resumed.
    pub base_secs: u64,
    /// Clock reading, in milliseconds, at which playback last resumed.
    pub playing_since_ms: Option<u64>,
}

/// What to do with the sink once a seek has refilled it.
#[derive(Clone, Copy, Debug, PartialEq, Eq, Structural)]
pub enum SinkCommand {
    Play,
    Pause,
    Leave,
}

/// Whole seconds elapsed since playback resumed, read off a monotonic clock.
pub open spec fn elapsed_spec(since: Option<u64>, now_ms: u64) -> Option<u64> {
    match since {
        Some(s) => Some((if now_ms >= s { ((now_ms - s) / 1000) as u64 } else { 0u64 })),
        None => None,
    }
}

/// The position the clock gives at `now_ms`.
pub open spec fn position_spec(t: Transport, now_ms: u64) -> u64 {
    match elapsed_spec(t.playing_since_ms, now_ms) {
        Some(e) => if t.base_secs + e > u64::MAX { u64::MAX } else { (t.base_secs + e) as u64 },
        None => t.base_secs,
    }
}

/// Clamps a position to the track's length where it is known.
pub open spec fn clamp_to(duration: Option<u64>, pos: u64) -> u64 {
    match duration {
        Some(d) => if pos < d { pos } else { d },
        None => pos,
    }
}

fn elapsed_secs(since: Option<u64>, now_ms: u64) -> (r: Option<u64>)
    ensures
        r == elapsed_spec(since, now_ms),
{
    match since {
        Some(s) => Some(if now_ms >= s { (now_ms - s) / 1000 } else { 0 }),
        None => None,
    }
}

/// The playback position at `now_ms`.
pub fn current_position(t: &Transport, now_ms: u64) -> (r: u64)
    ensures
        r == position_spec(*t, now_ms),
{
    playback_position(t.base_secs, elapsed_secs(t.playing_since_ms, now_ms))
}

impl Transport {
    /// The state of a player that has loaded nothing yet.
    pub fn new() -> (r: Transport)
        ensures
            r.status == AudioStatus::Stopped,
            r.current_path.is_none(),
            r.device_id.is_none(),
            r.duration_secs.is_none(),
            r.position_secs.is_none(),
            r.base_secs == 0,
            r.playing_since_ms.is_none(),
    {
        Transport {
            status: AudioStatus::Stopped,
            current_path: None,
            device_id: None,
            duration_secs: None,
            position_secs: None,
            base_secs: 0,
            playing_since_ms: None,
        }
    }
}

/// The transport after a periodic update at `now_ms` (see [`transport_tick`]).
pub open spec fn after_tick(t: Transport, now_ms: u64, sink_empty: Option<bool>) -> Transport {
    match sink_empty {
        None => t,
        Some(empty) => if empty && t.status == AudioStatus::Playing {
            let end = match t.duration_secs {
                Some(d) => d,
                None => position_spec(t, now_ms),
            };
            Transport {
                status: AudioStatus::Stopped,
                base_secs: end,
                playing_since_ms: None,
                position_secs: Some(end),
                ..t
            }
        } else {
            Transport { position_secs: Some(clamp_to(t.duration_secs, position_spec(t, now_ms))), ..t }
        },
    }
}

/// The periodic update while no command arrives. `sink_empty` is `None` when no
/// output stream is open. A track that ran out while playing stops at its end;
/// otherwise the shown position follows the clock, clamped to the track.
pub fn transport_tick(t: &mut Transport, now_ms: u64, sink_empty: Option<bool>)
    ensures
        *final(t) == after_tick(*old(t), now_ms, sink_empty),
{
    match sink_empty {
        None => {},
        Some(empty) => {
            let position = current_position(t, now_ms);
            if empty && t.status == AudioStatus::Playing {
                t.status = AudioStatus::Stopped;
                t.base_secs = match t.duration_secs {
                    Some(d) => d,
                    None => position,
                };
                t.playing_since_ms = None;
                t.position_secs = Some(t.base_secs);
            } else {
                let shown = match t.duration_secs {
                    Some(d) => if position < d { position } else { d },
                    None => position,
                };
                t.position_secs = Some(shown);
            }
        },
    }
}

/// With an open stream, the position a periodic update shows never lies past
/// the end of a track whose length is known.
pub proof fn law_tick_stays_within_track(t: Transport, now_ms: u64, empty: bool, d: u64)
    requires
        t.duration_secs == Some(d),
    ensures
        after_tick(t, now_ms, Some(empty)).position_secs matches Some(p) && p <= d,
{
}

/// A track has been opened and decoded: it waits, paused, at its start.
pub fn transport_loaded(t: &mut Transport, path: String, duration_secs: Option<u64>)
    ensures
        final(t).status == AudioStatus::Paused,
        final(t).current_path == Some(path),
        final(t).device_id == old(t).device_id,
        final(t).duration_secs == duration_secs,
        final(t).position_secs == Some(0u64),
        final(t).base_secs == 0,
        final(t).playing_since_ms.is_none(),
{
    t.current_path = Some(path);
    t.status = AudioStatus::Paused;
    t.duration_secs = duration_secs;
    t.position_secs = Some(0);
    t.base_secs = 0;
    t.playing_since_ms = None;
}

/// Whether play can go ahead, and whether the track must be reopened first
/// (the sink ran dry). `sink_empty` is `None` when no output stream is open.
pub fn play_plan(t: &Transport, sink_empty: Option<bool>) -> (r: Result<bool, String>)
    ensures
        sink_empty.is_none() ==> (r matches Err(e) && e@ == "no track loaded"@),
        sink_empty == Some(false) ==> r == Ok::<bool, String>(false),
        sink_empty == Some(true) && t.current_path.is_some() ==> r == Ok::<bool, String>(true),
        sink_empty == Some(true) && t.current_path.is_none() ==> (r matches Err(e) && e@ == "no track loaded"@),
{
    match sink_empty {
        None => Err(String::from_str("no track loaded")),
        Some(false) => Ok(false),
        Some(true) => {
            if t.current_path.is_some() {
                Ok(true)
            } else {
                Err(String::from_str("no track loaded"))
            }
        },
    }
}

/// Playback resumes at `now_ms`; a reopened track starts again from zero.
pub fn transport_play(t: &mut Transport, now_ms: u64, reopened: bool)
    ensures
        final(t).status == AudioStatus::Playing,
        final(t).base_secs == (if reopened { 0 } else { old(t).base_secs }),
        final(t).position_secs == Some(final(t).base_secs),
        final(t).playing_since_ms == Some(now_ms),
        final(t).current_path == old(t).current_path,
        final(t).device_id == old(t).device_id,
        final(t).duration_secs == old(t).duration_secs,
{
    if reopened {
        t.base_secs = 0;
    }
    t.status = AudioStatus::Playing;
    t.position_secs = Some(t.base_secs);
    t.playing_since_ms = Some(now_ms);
}

/// Pauses at `now_ms`, keeping the position reached. Without an open sink
/// there is nothing to pause.
pub fn transport_pause(t: &mut Transport, now_ms: u64, has_sink: bool) -> (r: Result<(), String>)
    ensures
        !has_sink ==> (r matches Err(e) && e@ == "no track loaded"@) && *final(t) == *old(t),
        has_sink ==> r is Ok && ({
            let p = position_spec(*old(t), now_ms);
            &&& final(t).status == AudioStatus::Paused
            &&& final(t).base_secs == p
            &&& final(t).position_secs == Some(p)
            &&& final(t).playing_since_ms.is_none()
            &&& final(t).current_path == old(t).current_path
            &&& final(t).device_id == old(t).device_id
            &&& final(t).duration_secs == old(t).duration_secs
        }),
{
    if !has_sink {
        return Err(String::from_str("no track loaded"));
    }
    let p = current_position(t, now_ms);
    t.base_secs = p;
    t.playing_since_ms = None;
    t.status = AudioStatus::Paused;
    t.position_secs = Some(p);
    Ok(())
}

/// Stops and rewinds.
pub fn transport_stop(t: &mut Transport)
    ensures
        final(t).status == AudioStatus::Stopped,
        final(t).position_secs == Some(0u64),
        final(t).base_secs == 0,
        final(t).playing_since_ms.is_none(),
        final(t).current_path == old(t).current_path,
        final(t).device_id == old(t).device_id,
        final(t).duration_secs == old(t).duration_secs,
{
    t.status = AudioStatus::Stopped;
    t.position_secs = Some(0);
    t.base_secs = 0;
    t.playing_since_ms = None;
}

/// Where a seek to `secs` lands: clamped to the track's length, once a track
/// and a sink are there.
pub fn seek_target(t: &Transport, secs: u64, has_sink: bool) -> (r: Result<u64, String>)
    ensures
        t.current_path.is_none() ==> (r matches Err(e) && e@ == "no track loaded"@),
        t.current_path.is_some() && !has_sink ==> (r matches Err(e) && e@ == "no audio sink"@),
        t.current_path.is_some() && has_sink ==> r == Ok::<u64, String>(clamp_to(t.duration_secs, secs)),
{
    if t.current_path.is_none() {
        return Err(String::from_str("no track loaded"));
    }
    if !has_sink {
        return Err(String::from_str("no audio sink"));
    }
    Ok(match t.duration_secs {
        Some(d) => if secs < d { secs } else { d },
        None => secs,
    })
}

/// The track has been refilled from `target`: a seek to the end stops, else the
/// player goes on as it was (playing or paused). Returns what the sink is told.
pub fn transport_seeked(t: &mut Transport, target: u64, now_ms: u64) -> (r: SinkCommand)
    ensures
        ({
            let at_end = match old(t).duration_secs { Some(d) => target >= d, None => false };
            let was_playing = old(t).status == AudioStatus::Playing;
            &&& final(t).base_secs == target
            &&& final(t).position_secs == Some(target)
            &&& at_end ==> r == SinkCommand::Leave && final(t).status == AudioStatus::Stopped
                && final(t).playing_since_ms.is_none()
            &&& (!at_end && was_playing) ==> r == SinkCommand::Play && final(t).status == AudioStatus::Playing
                && final(t).playing_since_ms == Some(now_ms)
            &&& (!at_end && !was_playing) ==> r == SinkCommand::Pause && final(t).status == AudioStatus::Paused
                && final(t).playing_since_ms.is_none()
        }),
        final(t).current_path == old(t).current_path,
        final(t).device_id == old(t).device_id,
        final(t).duration_secs == old(t).duration_secs,
{
    let was_playing = t.status == AudioStatus::Playing;
    let at_end = match t.duration_secs {
        Some(d) => target >= d,
        None => false,
    };
    t.base_secs = target;
    t.position_secs = Some(target);
    if at_end {
        t.playing_since_ms = None;
        t.status = AudioStatus::Stopped;
        SinkCommand::Leave
    } else if was_playing {
        t.playing_since_ms = Some(now_ms);
        t.status = AudioStatus::Playing;
        SinkCommand::Play
    } else {
        t.playing_since_ms = None;
        t.status = AudioStatus::Paused;
        SinkCommand::Pause
    }
}

/// A new output device. With no stream open yet the choice is only stored;
/// otherwise the track moves over at the position reached and keeps playing or
/// waiting as it was.
pub fn transport_device_changed(t: &mut Transport, id: Option<String>, now_ms: u64, has_sink: bool)
    ensures
        !has_sink ==> *final(t) == (Transport { device_id: id, ..*old(t) }),
        has_sink ==> ({
            let p = position_spec(*old(t), now_ms);
            let was_playing = old(t).status == AudioStatus::Playing;
            &&& final(t).device_id == id
            &&& final(t).base_secs == p
            &&& final(t).playing_since_ms == (if was_playing { Some(now_ms) } else { None })
            &&& final(t).current_path == old(t).current_path
            &&& final(t).duration_secs == old(t).duration_secs
            &&& old(t).current_path.is_some() ==> final(t).position_secs == Some(p)
                && final(t).status == (if was_playing { AudioStatus::Playing } else { AudioStatus::Paused })
            &&& old(t).current_path.is_none() ==> final(t).position_secs == old(t).position_secs
                && final(t).status == old(t).status
        }),
{
    if !has_sink {
        t.device_id = id;
        return;
    }
    let was_playing = t.status == AudioStatus::Playing;
    let p = current_position(t, now_ms);
    t.base_secs = p;
    t.playing_since_ms = if was_playing { Some(now_ms) } else { None };
    t.device_id = id;
    if t.current_path.is_some() {
        t.status = if was_playing { AudioStatus::Playing } else { AudioStatus::Paused };
        t.position_secs = Some(p);
    }
}

/// After every command the status follows the sink: empty is stopped, paused
/// is paused, anything else plays. `sink` is `None` when no stream is open.
pub fn status_from_sink(t: &mut Transport, sink: Option<(bool, bool)>)
    ensures
        sink.is_none() ==> *final(t) == *old(t),
        sink.is_some() ==> *final(t) == (Transport {
            status: if sink.unwrap().0 {
                AudioStatus::Stopped
            } else if sink.unwrap().1 {
                AudioStatus::Paused
            } else {
                AudioStatus::Playing
            },
            ..*old(t)
        }),
{
    match sink {
        None => {},
        Some((empty, paused)) => {
            t.status = if empty {
                AudioStatus::Stopped
            } else if paused {
                AudioStatus::Paused
            } else {
                AudioStatus::Playing
            };
        },
    }
}

/// While paused (or stopped) the clock does not move the position: it reads
/// the same at any two moments.
pub proof fn law_paused_position_frozen(t: Transport, now_ms: u64, later_ms: u64)
    requires
        t.playing_since_ms.is_none(),
    ensures
        position_spec(t, now_ms) == position_spec(t, later_ms),
{
}

/// Pausing keeps the position reached: read at any later moment, the paused
/// track stands where it was when paused.
pub proof fn law_pause_keeps_position(before: Transport, after: Transport, now_ms: u64, later_ms: u64)
    requires
        after.base_secs == position_spec(before, now_ms),
        after.playing_since_ms.is_none(),
    ensures
        position_spec(after, later_ms) == position_spec(before, now_ms),
{
}

/// Resuming continues from where playback stood: right after play the clock
/// reads the position play started from, and it never runs backwards.
pub proof fn law_play_resumes_from_base(t: Transport, now_ms: u64, later_ms: u64)
    requires
        t.playing_since_ms == Some(now_ms),
        now_ms <= later_ms,
    ensures
        position_spec(t, now_ms) == t.base_secs,
        t.base_secs <= position_spec(t, later_ms),
{
}

/// Choosing an output device: `None` is the system default; a named device
/// must be among `devices`.
pub fn check_audio_device(devices: &Vec<AudioDeviceInfo>, id: &Option<String>) -> (r: Result<(), String>)
    ensures
        id.is_none() ==> r is Ok,
        id.is_some() ==> (r is Ok <==> exists|k: int| 0 <= k < devices.len() && (#[trigger] devices@[k]).id@ == id.unwrap()@),
        id.is_some() && r is Err ==> (r matches Err(e) && e@ == "audio device \""@ + id.unwrap()@ + "\" not found"@),
{
    if id.is_none() {
        return Ok(());
    }
    let i: &String = id.as_ref().unwrap();
    let target = chars_of(i.as_str());
    let mut k: usize = 0;
    while k < devices.len()
        invariant
            k <= devices.len(),
            id.is_some(),
            target@ == id.unwrap()@,
            forall|j: int| 0 <= j < k ==> (#[trigger] devices@[j]).id@ != id.unwrap()@,
        decreases devices.len() - k,
    {
        if eq_chars(&chars_of(devices[k].id.as_str()), &target) {
            assert(devices@[k as int].id@ == id.unwrap()@);
            return Ok(());
        }
        k = k + 1;
    }
    let mut m = lit("audio device \"");
    append(&mut m, &target);
    append(&mut m, &lit("\" not found"));
    Err(string_of(&m))
}

} // verus!
