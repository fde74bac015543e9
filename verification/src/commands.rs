//! Decisions behind the frontend's commands: stepping through the playlist,
//! naming transitions, and exporting or importing settings (which fields
//! changed, which services to start or stop).
use crate::project::{lit_string, name_list_s, opt_is, opt_text, Settings, Slide, Transition};
use crate::text::{append, chars_of, dec, eq_chars, join, lit, push_dec, string_of, trim};
use crate::triggers::{same_trigger, Trigger, TriggerMapping};
use vstd::prelude::*;

verus! {

/// Version of the settings export format.
pub const SETTINGS_SCHEMA_VERSION: u32 = 1;

/// `"cut"` or `"fade"`.
pub open spec fn transition_text(t: Transition) -> Seq<char> {
    match t {
        Transition::Cut => "cut"@,
        Transition::Fade => "fade"@,
    }
}

pub fn transition_value(t: Transition) -> (r: &'static str)
    ensures
        r@ == transition_text(t),
{
    match t {
        Transition::Cut => "cut",
        Transition::Fade => "fade",
    }
}

// ---------------------------------------------------------------------------
// Stepping through the playlist
// ---------------------------------------------------------------------------

/// What a next/previous trigger does to the playlist.
#[derive(Clone, Copy, Debug, PartialEq, Eq, Structural)]
pub enum Advance {
    /// The playlist is empty.
    Empty,
    /// Already at the end (stepping forward) or start: stay put.
    AtEdge,
    /// Make the slide at this position live.
    To(usize),
}

/// Position of the first slide with id `id`.
pub open spec fn slide_at(slides: Seq<Slide>, id: Seq<char>) -> Option<int> {
    crate::project::slide_pos(slides, id)
}

/// Stepping by `delta` from the live slide (an unknown live id counts as
/// the first slide); with nothing live, the first slide (`delta >= 0`) or
/// the last one.
pub open spec fn advance_outcome(slides: Seq<Slide>, live: Option<String>, delta: int) -> Advance {
    if slides.len() == 0 {
        Advance::Empty
    } else {
        match live {
            None => if delta >= 0 { Advance::To(0) } else { Advance::To((slides.len() - 1) as usize) },
            Some(id) => {
                let idx = match slide_at(slides, id@) {
                    Some(i) => i,
                    None => 0,
                };
                let next = idx + delta;
                if next < 0 || next >= slides.len() { Advance::AtEdge } else { Advance::To(next as usize) }
            },
        }
    }
}

/// See [`advance_outcome`].
pub fn advance_target(slides: &Vec<Slide>, live: &Option<String>, delta: isize) -> (r: Advance)
    ensures
        r == advance_outcome(slides@, *live, delta as int),
{
    if slides.len() == 0 {
        return Advance::Empty;
    }
    match live {
        None => {
            if delta >= 0 {
                Advance::To(0)
            } else {
                Advance::To(slides.len() - 1)
            }
        },
        Some(id) => {
            let idx: usize = match crate::project::slide_index(slides, id.as_str()) {
                Some(i) => i,
                None => 0,
            };
            let next: i128 = idx as i128 + delta as i128;
            if next < 0 || next >= slides.len() as i128 {
                Advance::AtEdge
            } else {
                Advance::To(next as usize)
            }
        },
    }
}

/// `"trigger: jump to slide <index+1> — only <n> slides in the playlist"`.
pub open spec fn jump_error_message(index: nat, n: nat) -> Seq<char> {
    "trigger: jump to slide "@ + dec(index + 1) + " — only "@ + dec(n) + " slides in the playlist"@
}

/// A jump trigger's target: the id of the slide at `index` (0-based), or
/// why there is none.
pub fn jump_target(slides: &Vec<Slide>, index: u32) -> (r: Result<String, String>)
    requires
        index < u32::MAX,
    ensures
        (index as int) < slides.len() ==> (r matches Ok(id) && id@ == slides@[index as int].id@),
        (index as int) >= slides.len() ==> (r matches Err(e) && e@ == jump_error_message(index as nat, slides.len() as nat)),
{
    let i = index as usize;
    if (index as u64) < (slides.len() as u64) {
        return Ok(lit_string(slides[i].id.as_str()));
    }
    let mut m = lit("trigger: jump to slide ");
    push_dec(&mut m, (index + 1) as u64);
    append(&mut m, &lit(" — only "));
    push_dec(&mut m, slides.len() as u64);
    append(&mut m, &lit(" slides in the playlist"));
    Err(string_of(&m))
}

/// An OSC port is 1 to 65535.
pub fn check_osc_port(port: u16) -> (r: Result<(), String>)
    ensures
        r is Ok <==> port > 0,
        r matches Err(e) ==> e@ == "OSC port must be between 1 and 65535"@,
{
    if port == 0 {
        return Err(lit_string("OSC port must be between 1 and 65535"));
    }
    Ok(())
}

/// A Stage Display server port is 1 to 65535.
pub fn check_stage_port(port: u16) -> (r: Result<(), String>)
    ensures
        r is Ok <==> port > 0,
        r matches Err(e) ==> e@ == "Stage Network port must be between 1 and 65535"@,
{
    if port == 0 {
        return Err(lit_string("Stage Network port must be between 1 and 65535"));
    }
    Ok(())
}

/// A Stage Display PIN as stored: trimmed, at most 12 bytes (empty: no PIN).
pub fn check_pin(pin: &str) -> (r: Result<String, String>)
    ensures
        crate::song_import::utf8_len(trim(pin@)) <= 12 ==> (r matches Ok(p) && p@ == trim(pin@)),
        crate::song_import::utf8_len(trim(pin@)) > 12 ==> (r matches Err(e) && e@ == "PIN must be 12 characters or fewer"@),
{
    let t = crate::text::trim_chars(&chars_of(pin));
    if !crate::song_import::utf8_len_below(&t, 13) {
        return Err(lit_string("PIN must be 12 characters or fewer"));
    }
    Ok(string_of(&t))
}

/// The notice shown after starting up: when the last session did not end
/// cleanly, or the project came from a snapshot, the project named `name`
/// was recovered from the autosave of `saved_at`.
pub fn recovery_notice(recovering: bool, from_snapshot: bool, name: &str, saved_at: Option<String>) -> (r: Option<crate::project::Notice>)
    ensures
        !(recovering || from_snapshot) ==> r is None,
        (recovering || from_snapshot) ==> (r matches Some(n) && n.kind@ == "recovered"@
            && n.message@ == "Recovered project \""@ + name@ + "\" from the last autosave."@
            && n.at == saved_at),
{
    if !(recovering || from_snapshot) {
        return None;
    }
    let mut m = lit("Recovered project \"");
    append(&mut m, &chars_of(name));
    append(&mut m, &lit("\" from the last autosave."));
    Some(crate::project::Notice { kind: lit_string("recovered"), message: string_of(&m), at: saved_at })
}

/// Which output a Look is assigned to.
#[derive(Clone, Copy, Debug, PartialEq, Eq, Structural)]
pub enum LookTarget {
    Output,
    Stage,
    Ndi,
}

/// Assign `look_id` (or no Look) to one output in the settings.
pub fn map_look(settings: &mut Settings, target: LookTarget, look_id: Option<String>)
    ensures
        target == LookTarget::Output ==> *final(settings) == (Settings { output_look_id: look_id, ..*old(settings) }),
        target == LookTarget::Stage ==> *final(settings) == (Settings { stage_look_id: look_id, ..*old(settings) }),
        target == LookTarget::Ndi ==> *final(settings) == (Settings { ndi_look_id: look_id, ..*old(settings) }),
{
    match target {
        LookTarget::Output => settings.output_look_id = look_id,
        LookTarget::Stage => settings.stage_look_id = look_id,
        LookTarget::Ndi => settings.ndi_look_id = look_id,
    }
}

fn copy_opt_string(o: &Option<String>) -> (r: Option<String>)
    ensures
        opt_text(r) == opt_text(*o),
{
    match o {
        Some(s) => Some(lit_string(s.as_str())),
        None => None,
    }
}

/// After Look `deleted` is removed, every output that used it takes the
/// first remaining Look (`first`, if any); the other outputs keep theirs.
pub fn repoint_deleted_look(settings: &mut Settings, deleted: &str, first: &Option<String>)
    ensures
        opt_text(final(settings).output_look_id) == (if opt_is(old(settings).output_look_id, deleted@) { opt_text(*first) } else { opt_text(old(settings).output_look_id) }),
        opt_text(final(settings).stage_look_id) == (if opt_is(old(settings).stage_look_id, deleted@) { opt_text(*first) } else { opt_text(old(settings).stage_look_id) }),
        opt_text(final(settings).ndi_look_id) == (if opt_is(old(settings).ndi_look_id, deleted@) { opt_text(*first) } else { opt_text(old(settings).ndi_look_id) }),
        final(settings).triggers == old(settings).triggers,
        final(settings).osc_port == old(settings).osc_port,
        final(settings).stage_network_pin == old(settings).stage_network_pin,
{
    let d = chars_of(deleted);
    let hit_output = match &settings.output_look_id {
        Some(x) => eq_chars(&chars_of(x.as_str()), &d),
        None => false,
    };
    let hit_stage = match &settings.stage_look_id {
        Some(x) => eq_chars(&chars_of(x.as_str()), &d),
        None => false,
    };
    let hit_ndi = match &settings.ndi_look_id {
        Some(x) => eq_chars(&chars_of(x.as_str()), &d),
        None => false,
    };
    if hit_output {
        settings.output_look_id = copy_opt_string(first);
    }
    if hit_stage {
        settings.stage_look_id = copy_opt_string(first);
    }
    if hit_ndi {
        settings.ndi_look_id = copy_opt_string(first);
    }
}

/// `"look <id> not found"` unless `id` is among the project's Look ids.
pub fn check_look_exists(look_ids: &Vec<String>, id: &str) -> (r: Result<(), String>)
    ensures
        r is Ok <==> name_list_s(look_ids@).contains(id@),
        r matches Err(e) ==> e@ == "look "@ + id@ + " not found"@,
{
    let ghost l = name_list_s(look_ids@);
    let target = chars_of(id);
    let mut i: usize = 0;
    while i < look_ids.len()
        invariant
            i <= look_ids.len(),
            l == name_list_s(look_ids@),
            target@ == id@,
            forall|q: int| 0 <= q < i ==> l[q] != id@,
        decreases look_ids.len() - i,
    {
        if eq_chars(&chars_of(look_ids[i].as_str()), &target) {
            assert(l[i as int] == id@);
            return Ok(());
        }
        i = i + 1;
    }
    let mut m = lit("look ");
    append(&mut m, &target);
    append(&mut m, &lit(" not found"));
    Err(string_of(&m))
}

// ---------------------------------------------------------------------------
// Settings export and import
// ---------------------------------------------------------------------------

/// The settings reported on export and compared on import.
#[derive(Clone, Copy, Debug, PartialEq, Eq, Structural)]
pub enum SettingsField {
    OutputDisplay,
    OutputFullscreen,
    StageDisplay,
    StageVisible,
    DefaultTransition,
    OutputLook,
    StageLook,
    NdiLook,
    NdiEnabled,
    MidiEnabled,
    MidiDevice,
    OscEnabled,
    OscPort,
    Triggers,
    StageNetworkEnabled,
    StageNetworkPort,
    StageNetworkPin,
    AudioDevice,
    AudioVolume,
}

pub open spec fn field_label(f: SettingsField) -> Seq<char> {
    match f {
        SettingsField::OutputDisplay => "Output display"@,
        SettingsField::OutputFullscreen => "Output fullscreen"@,
        SettingsField::StageDisplay => "Stage display"@,
        SettingsField::StageVisible => "Stage visibility"@,
        SettingsField::DefaultTransition => "Default transition"@,
        SettingsField::OutputLook => "Output look"@,
        SettingsField::StageLook => "Stage look"@,
        SettingsField::NdiLook => "NDI look"@,
        SettingsField::NdiEnabled => "NDI broadcast"@,
        SettingsField::MidiEnabled => "MIDI input"@,
        SettingsField::MidiDevice => "MIDI device"@,
        SettingsField::OscEnabled => "OSC listener"@,
        SettingsField::OscPort => "OSC port"@,
        SettingsField::Triggers => "Trigger mappings"@,
        SettingsField::StageNetworkEnabled => "Stage display on network"@,
        SettingsField::StageNetworkPort => "Stage display port"@,
        SettingsField::StageNetworkPin => "Stage display PIN"@,
        SettingsField::AudioDevice => "Audio output device"@,
        SettingsField::AudioVolume => "Audio volume"@,
    }
}

impl SettingsField {
    /// The field's name as the operator reads it.
    pub fn label(self) -> (r: &'static str)
        ensures
            r@ == field_label(self),
    {
        match self {
            SettingsField::OutputDisplay => "Output display",
            SettingsField::OutputFullscreen => "Output fullscreen",
            SettingsField::StageDisplay => "Stage display",
            SettingsField::StageVisible => "Stage visibility",
            SettingsField::DefaultTransition => "Default transition",
            SettingsField::OutputLook => "Output look",
            SettingsField::StageLook => "Stage look",
            SettingsField::NdiLook => "NDI look",
            SettingsField::NdiEnabled => "NDI broadcast",
            SettingsField::MidiEnabled => "MIDI input",
            SettingsField::MidiDevice => "MIDI device",
            SettingsField::OscEnabled => "OSC listener",
            SettingsField::OscPort => "OSC port",
            SettingsField::Triggers => "Trigger mappings",
            SettingsField::StageNetworkEnabled => "Stage display on network",
            SettingsField::StageNetworkPort => "Stage display port",
            SettingsField::StageNetworkPin => "Stage display PIN",
            SettingsField::AudioDevice => "Audio output device",
            SettingsField::AudioVolume => "Audio volume",
        }
    }
}

/// Every settings field, in report order.
pub open spec fn all_fields() -> Seq<SettingsField> {
    seq![
        SettingsField::OutputDisplay,
        SettingsField::OutputFullscreen,
        SettingsField::StageDisplay,
        SettingsField::StageVisible,
        SettingsField::DefaultTransition,
        SettingsField::OutputLook,
        SettingsField::StageLook,
        SettingsField::NdiLook,
        SettingsField::NdiEnabled,
        SettingsField::MidiEnabled,
        SettingsField::MidiDevice,
        SettingsField::OscEnabled,
        SettingsField::OscPort,
        SettingsField::Triggers,
        SettingsField::StageNetworkEnabled,
        SettingsField::StageNetworkPort,
        SettingsField::StageNetworkPin,
        SettingsField::AudioDevice,
        SettingsField::AudioVolume,
    ]
}

/// Every settings field, in report order.
pub fn settings_fields() -> (r: [SettingsField; 19])
    ensures
        r@ == all_fields(),
{
    let r = [
        SettingsField::OutputDisplay,
        SettingsField::OutputFullscreen,
        SettingsField::StageDisplay,
        SettingsField::StageVisible,
        SettingsField::DefaultTransition,
        SettingsField::OutputLook,
        SettingsField::StageLook,
        SettingsField::NdiLook,
        SettingsField::NdiEnabled,
        SettingsField::MidiEnabled,
        SettingsField::MidiDevice,
        SettingsField::OscEnabled,
        SettingsField::OscPort,
        SettingsField::Triggers,
        SettingsField::StageNetworkEnabled,
        SettingsField::StageNetworkPort,
        SettingsField::StageNetworkPin,
        SettingsField::AudioDevice,
        SettingsField::AudioVolume,
    ];
    assert(r@ =~= all_fields());
    r
}

/// Two trigger mappings differ in id, trigger, action, enablement or label.
pub open spec fn mapping_differs(a: TriggerMapping, b: TriggerMapping) -> bool {
    a.id@ != b.id@ || !same_trigger(a.trigger, b.trigger) || a.action != b.action || a.enabled != b.enabled
        || opt_text(a.label) != opt_text(b.label)
}

/// The mapping lists differ in length or in some pair of the same position.
pub open spec fn triggers_differ(a: Seq<TriggerMapping>, b: Seq<TriggerMapping>) -> bool {
    a.len() != b.len() || exists|i: int| 0 <= i < a.len() && #[trigger] mapping_differs(a[i], b[i])
}

/// Whether one field differs between two settings; the audio volume (a
/// float kept by the application) is compared by the caller.
pub open spec fn field_differs(f: SettingsField, old: Settings, new: Settings, volume_differs: bool) -> bool {
    match f {
        SettingsField::OutputDisplay => new.output_display_index != old.output_display_index,
        SettingsField::OutputFullscreen => new.output_fullscreen != old.output_fullscreen,
        SettingsField::StageDisplay => new.stage_display_index != old.stage_display_index,
        SettingsField::StageVisible => new.stage_visible != old.stage_visible,
        SettingsField::DefaultTransition => new.default_transition != old.default_transition,
        SettingsField::OutputLook => opt_text(new.output_look_id) != opt_text(old.output_look_id),
        SettingsField::StageLook => opt_text(new.stage_look_id) != opt_text(old.stage_look_id),
        SettingsField::NdiLook => opt_text(new.ndi_look_id) != opt_text(old.ndi_look_id),
        SettingsField::NdiEnabled => new.ndi_enabled != old.ndi_enabled,
        SettingsField::MidiEnabled => new.midi_enabled != old.midi_enabled,
        SettingsField::MidiDevice => opt_text(new.midi_device_id) != opt_text(old.midi_device_id),
        SettingsField::OscEnabled => new.osc_enabled != old.osc_enabled,
        SettingsField::OscPort => new.osc_port != old.osc_port,
        SettingsField::Triggers => triggers_differ(new.triggers@, old.triggers@),
        SettingsField::StageNetworkEnabled => new.stage_network_enabled != old.stage_network_enabled,
        SettingsField::StageNetworkPort => new.stage_network_port != old.stage_network_port,
        SettingsField::StageNetworkPin => new.stage_network_pin@ != old.stage_network_pin@,
        SettingsField::AudioDevice => opt_text(new.audio_output_device_id) != opt_text(old.audio_output_device_id),
        SettingsField::AudioVolume => volume_differs,
    }
}

/// The labels of the fields among `fs` that differ, in order.
pub open spec fn changed_labels(fs: Seq<SettingsField>, old: Settings, new: Settings, volume_differs: bool) -> Seq<Seq<char>>
    decreases fs.len(),
{
    if fs.len() == 0 {
        seq![]
    } else {
        let rest = changed_labels(fs.drop_last(), old, new, volume_differs);
        if field_differs(fs.last(), old, new, volume_differs) { rest.push(field_label(fs.last())) } else { rest }
    }
}

fn opt_string_eq(a: &Option<String>, b: &Option<String>) -> (r: bool)
    ensures
        r == (opt_text(*a) == opt_text(*b)),
{
    match (a, b) {
        (Some(x), Some(y)) => eq_chars(&chars_of(x.as_str()), &chars_of(y.as_str())),
        (None, None) => true,
        _ => false,
    }
}

fn opt_usize_eq(a: Option<usize>, b: Option<usize>) -> (r: bool)
    ensures
        r == (a == b),
{
    match (a, b) {
        (Some(x), Some(y)) => x == y,
        (None, None) => true,
        _ => false,
    }
}

fn mappings_differ(a: &Vec<TriggerMapping>, b: &Vec<TriggerMapping>) -> (r: bool)
    ensures
        r == triggers_differ(a@, b@),
{
    if a.len() != b.len() {
        return true;
    }
    let mut i: usize = 0;
    while i < a.len()
        invariant
            i <= a.len(),
            a.len() == b.len(),
            forall|j: int| 0 <= j < i ==> !#[trigger] mapping_differs(a@[j], b@[j]),
        decreases a.len() - i,
    {
        let x = &a[i];
        let y = &b[i];
        let differs = !eq_chars(&chars_of(x.id.as_str()), &chars_of(y.id.as_str())) || !(x.trigger == y.trigger)
            || x.action != y.action || x.enabled != y.enabled || !opt_string_eq(&x.label, &y.label);
        if differs {
            assert(mapping_differs(a@[i as int], b@[i as int]));
            return true;
        }
        i = i + 1;
    }
    false
}

/// The labels of the fields that differ between `old` and `new`, in report
/// order (see [`field_differs`]).
#[verifier::spinoff_prover]
#[verifier::rlimit(40)]
pub fn changed_settings(old: &Settings, new: &Settings, volume_differs: bool) -> (r: Vec<String>)
    ensures
        name_list_s(r@) == changed_labels(all_fields(), *old, *new, volume_differs),
{
    let fields = settings_fields();
    let mut changed: Vec<String> = Vec::new();
    let mut i: usize = 0;
    assert(all_fields().take(0) =~= Seq::<SettingsField>::empty());
    assert(name_list_s(changed@) =~= Seq::<Seq<char>>::empty());
    while i < 19
        invariant
            i <= 19,
            fields@ == all_fields(),
            name_list_s(changed@) == changed_labels(all_fields().take(i as int), *old, *new, volume_differs),
        decreases 19 - i,
    {
        let f = fields[i];
        assert(all_fields().take(i + 1).drop_last() =~= all_fields().take(i as int));
        let differs = match f {
            SettingsField::OutputDisplay => !opt_usize_eq(new.output_display_index, old.output_display_index),
            SettingsField::OutputFullscreen => new.output_fullscreen != old.output_fullscreen,
            SettingsField::StageDisplay => !opt_usize_eq(new.stage_display_index, old.stage_display_index),
            SettingsField::StageVisible => new.stage_visible != old.stage_visible,
            SettingsField::DefaultTransition => new.default_transition != old.default_transition,
            SettingsField::OutputLook => !opt_string_eq(&new.output_look_id, &old.output_look_id),
            SettingsField::StageLook => !opt_string_eq(&new.stage_look_id, &old.stage_look_id),
            SettingsField::NdiLook => !opt_string_eq(&new.ndi_look_id, &old.ndi_look_id),
            SettingsField::NdiEnabled => new.ndi_enabled != old.ndi_enabled,
            SettingsField::MidiEnabled => new.midi_enabled != old.midi_enabled,
            SettingsField::MidiDevice => !opt_string_eq(&new.midi_device_id, &old.midi_device_id),
            SettingsField::OscEnabled => new.osc_enabled != old.osc_enabled,
            SettingsField::OscPort => new.osc_port != old.osc_port,
            SettingsField::Triggers => mappings_differ(&new.triggers, &old.triggers),
            SettingsField::StageNetworkEnabled => new.stage_network_enabled != old.stage_network_enabled,
            SettingsField::StageNetworkPort => new.stage_network_port != old.stage_network_port,
            SettingsField::StageNetworkPin => !eq_chars(
                &chars_of(new.stage_network_pin.as_str()),
                &chars_of(old.stage_network_pin.as_str()),
            ),
            SettingsField::AudioDevice => !opt_string_eq(&new.audio_output_device_id, &old.audio_output_device_id),
            SettingsField::AudioVolume => volume_differs,
        };
        assert(differs == field_differs(f, *old, *new, volume_differs));
        if differs {
            let ghost before = name_list_s(changed@);
            changed.push(lit_string(f.label()));
            assert(name_list_s(changed@) =~= before.push(field_label(f)));
        }
        i = i + 1;
    }
    assert(all_fields().take(19) =~= all_fields());
    changed
}

/// Why a settings file is refused: not this app's, or another schema version.
pub open spec fn snapshot_error(app: Seq<char>, version: u32) -> Option<Seq<char>> {
    if app != "makepresent"@ {
        Some("not a MakePresent settings file (app is \""@ + app + "\")"@)
    } else if version != SETTINGS_SCHEMA_VERSION {
        Some("unsupported settings schema version "@ + dec(version as nat) + " (this app supports "@
            + dec(SETTINGS_SCHEMA_VERSION as nat) + ")"@)
    } else {
        None
    }
}

/// Check the header of an imported settings file (see [`snapshot_error`]).
pub fn check_snapshot(app: &str, version: u32) -> (r: Result<(), String>)
    ensures
        match snapshot_error(app@, version) {
            None => r is Ok,
            Some(m) => r matches Err(e) && e@ == m,
        },
{
    if !eq_chars(&chars_of(app), &lit("makepresent")) {
        let mut m = lit("not a MakePresent settings file (app is \"");
        append(&mut m, &chars_of(app));
        append(&mut m, &lit("\")"));
        assert(m@ =~= "not a MakePresent settings file (app is \""@ + app@ + "\")"@);
        return Err(string_of(&m));
    }
    if version != SETTINGS_SCHEMA_VERSION {
        let mut m = lit("unsupported settings schema version ");
        push_dec(&mut m, version as u64);
        append(&mut m, &lit(" (this app supports "));
        push_dec(&mut m, SETTINGS_SCHEMA_VERSION as u64);
        append(&mut m, &lit(")"));
        assert(m@ =~= "unsupported settings schema version "@ + dec(version as nat) + " (this app supports "@
            + dec(SETTINGS_SCHEMA_VERSION as nat) + ")"@);
        return Err(string_of(&m));
    }
    Ok(())
}

/// What to do with a background service after an import.
#[derive(Clone, Copy, Debug, PartialEq, Eq, Structural)]
pub enum ServiceAction {
    Start,
    Stop,
    /// Running and staying on: hand it the new PIN.
    UpdatePin,
    Keep,
}

/// NDI and MIDI: start or stop when the imported switch disagrees with
/// what runs.
pub fn toggle_action(enabled: bool, active: bool) -> (r: ServiceAction)
    ensures
        r == (if enabled != active {
            if enabled { ServiceAction::Start } else { ServiceAction::Stop }
        } else {
            ServiceAction::Keep
        }),
{
    if enabled != active {
        if enabled { ServiceAction::Start } else { ServiceAction::Stop }
    } else {
        ServiceAction::Keep
    }
}

/// OSC: as [`toggle_action`], and an enabled listener with a port is
/// (re)started so it binds the imported port.
pub fn osc_action(enabled: bool, active: bool, port: u16) -> (r: ServiceAction)
    ensures
        r == (if enabled != active || (enabled && port != 0) {
            if enabled { ServiceAction::Start } else { ServiceAction::Stop }
        } else {
            ServiceAction::Keep
        }),
{
    if enabled != active || (enabled && port != 0) {
        if enabled { ServiceAction::Start } else { ServiceAction::Stop }
    } else {
        ServiceAction::Keep
    }
}

/// The Stage Display server: as [`toggle_action`], and a running server that
/// stays on gets the imported PIN.
pub fn network_action(enabled: bool, active: bool) -> (r: ServiceAction)
    ensures
        r == (if enabled != active {
            if enabled { ServiceAction::Start } else { ServiceAction::Stop }
        } else if enabled {
            ServiceAction::UpdatePin
        } else {
            ServiceAction::Keep
        }),
{
    if enabled != active {
        if enabled { ServiceAction::Start } else { ServiceAction::Stop }
    } else if enabled {
        ServiceAction::UpdatePin
    } else {
        ServiceAction::Keep
    }
}

/// What an export reports.
#[derive(Clone, Debug)]
pub struct ExportReport {
    pub path: String,
    pub fields: Vec<String>,
}

/// What an import reports.
#[derive(Clone, Debug)]
pub struct ImportReport {
    pub changed_fields: Vec<String>,
    pub message: String,
}

/// The message of an import: nothing changed, or how many and which.
pub open spec fn import_message(changed: Seq<Seq<char>>) -> Seq<char> {
    if changed.len() == 0 {
        "Settings imported \u{2014} nothing changed."@
    } else {
        "Imported settings: "@ + dec(changed.len()) + " changed ("@ + join(changed, ", "@) + ")."@
    }
}

/// The report of an import that changed `changed`.
pub fn import_report(changed: Vec<String>) -> (r: ImportReport)
    ensures
        name_list_s(r.changed_fields@) == name_list_s(changed@),
        r.message@ == import_message(name_list_s(changed@)),
{
    let ghost names = name_list_s(changed@);
    let message = if changed.len() == 0 {
        lit_string("Settings imported \u{2014} nothing changed.")
    } else {
        let mut m = lit("Imported settings: ");
        push_dec(&mut m, changed.len() as u64);
        append(&mut m, &lit(" changed ("));
        let mut parts: Vec<Vec<char>> = Vec::new();
        let mut i: usize = 0;
        while i < changed.len()
            invariant
                i <= changed.len(),
                names == name_list_s(changed@),
                crate::scripture::name_list(parts@) == names.take(i as int),
            decreases changed.len() - i,
        {
            let ghost before = crate::scripture::name_list(parts@);
            let c = chars_of(changed[i].as_str());
            parts.push(c);
            assert(crate::scripture::name_list(parts@) =~= before.push(c@));
            assert(names.take(i + 1) =~= names.take(i as int).push(names[i as int]));
            i = i + 1;
        }
        assert(names.take(changed.len() as int) =~= names);
        assert(parts@.map_values(|l: Vec<char>| l@) == crate::scripture::name_list(parts@));
        append(&mut m, &crate::text::join_with(&parts, &lit(", ")));
        append(&mut m, &lit(")."));
        assert(m@ =~= "Imported settings: "@ + dec(names.len()) + " changed ("@ + join(names, ", "@) + ")."@);
        string_of(&m)
    };
    ImportReport { changed_fields: changed, message }
}

/// A library slide as the editor sends it.
#[derive(Clone, Debug)]
pub struct LibrarySlideInput {
    pub title: String,
    pub body: String,
    pub positioning: Option<crate::project::SlidePositioning>,
    pub group_id: Option<String>,
    pub group_label: Option<String>,
}

/// The outcome of folding imported scripture into the index.
#[derive(Clone, Debug)]
pub struct ScriptureImportResult {
    /// Distinct books (re)added by the import.
    pub books: usize,
    /// Verses folded in by the import.
    pub verses: usize,
    /// Distinct books now in the index.
    pub total_books: usize,
}

/// A Bible as the browser lists it.
#[derive(Clone, Debug)]
pub struct BibleInfo {
    pub id: String,
    pub name: String,
    pub book_count: usize,
}

/// One verse of a chapter as the browser lists it.
#[derive(Clone, Debug)]
pub struct ChapterVerse {
    pub verse: u32,
    pub text: String,
}

/// How phones reach the Stage Display.
#[derive(Clone, Debug)]
pub struct StageNetworkInfo {
    /// The bind address, e.g. `"0.0.0.0:1426"`.
    pub bind_host: String,
    /// One reachable URL per non-loopback IPv4 address.
    pub urls: Vec<String>,
    pub port: u16,
    pub enabled: bool,
    pub pin: String,
}

/// Comparing settings with themselves reports no change.
pub proof fn law_identical_settings_unchanged(fs: Seq<SettingsField>, s: Settings)
    ensures
        changed_labels(fs, s, s, false) == Seq::<Seq<char>>::empty(),
    decreases fs.len(),
{
    if fs.len() > 0 {
        law_identical_settings_unchanged(fs.drop_last(), s);
        assert forall|i: int| 0 <= i < s.triggers@.len() implies !(#[trigger] mapping_differs(s.triggers@[i], s.triggers@[i])) by {
            let t = s.triggers@[i].trigger;
            match t {
                Trigger::MidiNote { .. } => {},
                Trigger::MidiControl { .. } => {},
                Trigger::MidiProgram { .. } => {},
                Trigger::OscAddress { .. } => {},
            }
        }
        assert(!field_differs(fs.last(), s, s, false));
    }
}

/// A next or previous trigger only ever makes a slide of the playlist live.
pub proof fn law_advance_stays_in_playlist(slides: Seq<Slide>, live: Option<String>, delta: int)
    ensures
        advance_outcome(slides, live, delta) matches Advance::To(i) ==> i < slides.len(),
{
}

/// Switching MIDI input on or off in the settings. Switching on needs a
/// selected device, whose id is returned for the listener to open; without
/// one the settings stay as they were.
pub fn midi_switch(settings: &mut Settings, enabled: bool) -> (r: Result<Option<String>, String>)
    ensures
        !enabled ==> r == Ok::<Option<String>, String>(None)
            && *final(settings) == (Settings { midi_enabled: false, ..*old(settings) }),
        enabled && old(settings).midi_device_id is None ==> (r matches Err(e) && e@ == "select a MIDI device first"@)
            && *final(settings) == *old(settings),
        enabled && old(settings).midi_device_id is Some ==> (r matches Ok(Some(id)) && id@ == old(settings).midi_device_id.unwrap()@)
            && *final(settings) == (Settings { midi_enabled: true, ..*old(settings) }),
{
    if !enabled {
        settings.midi_enabled = false;
        return Ok(None);
    }
    match &settings.midi_device_id {
        None => Err(lit_string("select a MIDI device first")),
        Some(d) => {
            let id = lit_string(d.as_str());
            settings.midi_enabled = true;
            Ok(Some(id))
        },
    }
}

/// [`toggle_action`] as a value.
pub open spec fn toggle_spec(enabled: bool, active: bool) -> ServiceAction {
    if enabled != active {
        if enabled { ServiceAction::Start } else { ServiceAction::Stop }
    } else {
        ServiceAction::Keep
    }
}

/// [`osc_action`] as a value.
pub open spec fn osc_spec(enabled: bool, active: bool, port: u16) -> ServiceAction {
    if enabled != active || (enabled && port != 0) {
        if enabled { ServiceAction::Start } else { ServiceAction::Stop }
    } else {
        ServiceAction::Keep
    }
}

/// [`network_action`] as a value.
pub open spec fn network_spec(enabled: bool, active: bool) -> ServiceAction {
    if enabled != active {
        if enabled { ServiceAction::Start } else { ServiceAction::Stop }
    } else if enabled {
        ServiceAction::UpdatePin
    } else {
        ServiceAction::Keep
    }
}

/// What applying imported settings does to the running application.
#[derive(Clone, Copy, Debug, PartialEq, Eq, Structural)]
pub struct ImportPlan {
    /// Move the visible Output window to this display.
    pub move_output: Option<usize>,
    /// Move the visible Stage window to this display.
    pub move_stage: Option<usize>,
    pub ndi: ServiceAction,
    pub midi: ServiceAction,
    /// MIDI was switched on without a device: nothing starts (a warning).
    pub midi_without_device: bool,
    pub osc: ServiceAction,
    pub network: ServiceAction,
}

/// The side effects of applying imported settings `s`, given what runs now:
/// a visible Output moves to its display; a visible Stage moves to its
/// display or else `default_display`; NDI, MIDI, OSC and the Stage Display
/// server start or stop as [`toggle_action`], [`osc_action`] and
/// [`network_action`] say, except that MIDI does not start without a
/// selected device.
pub fn import_plan(
    s: &Settings,
    output_visible: bool,
    default_display: Option<usize>,
    ndi_active: bool,
    midi_active: bool,
    osc_active: bool,
    network_active: bool,
) -> (r: ImportPlan)
    ensures
        r.move_output == (if output_visible { s.output_display_index } else { None }),
        r.move_stage == (if s.stage_visible {
            match s.stage_display_index { Some(i) => Some(i), None => default_display }
        } else {
            None
        }),
        r.ndi == toggle_spec(s.ndi_enabled, ndi_active),
        r.midi_without_device == (toggle_spec(s.midi_enabled, midi_active) == ServiceAction::Start && s.midi_device_id is None),
        r.midi == (if r.midi_without_device { ServiceAction::Keep } else { toggle_spec(s.midi_enabled, midi_active) }),
        r.osc == osc_spec(s.osc_enabled, osc_active, s.osc_port),
        r.network == network_spec(s.stage_network_enabled, network_active),
{
    let move_output = if output_visible { s.output_display_index } else { None };
    let move_stage = if s.stage_visible {
        match s.stage_display_index {
            Some(i) => Some(i),
            None => default_display,
        }
    } else {
        None
    };
    let midi = toggle_action(s.midi_enabled, midi_active);
    let midi_without_device = midi == ServiceAction::Start && s.midi_device_id.is_none();
    ImportPlan {
        move_output,
        move_stage,
        ndi: toggle_action(s.ndi_enabled, ndi_active),
        midi: if midi_without_device { ServiceAction::Keep } else { midi },
        midi_without_device,
        osc: osc_action(s.osc_enabled, osc_active, s.osc_port),
        network: network_action(s.stage_network_enabled, network_active),
    }
}

} // verus!
