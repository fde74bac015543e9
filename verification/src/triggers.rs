//! External trigger system: MIDI and OSC messages mapped onto presentation
//! actions (next / previous / jump to a slide / clear output).
//!
//! A trigger is a concrete wire message; a mapping pairs a trigger with an
//! action. [`match_trigger`] decides which action (if any) an incoming
//! message fires: an enabled mapping for exactly that message wins, and an
//! OSC address `/prefix/N` falls back to a mapping registered for `/prefix`,
//! jumping to slide `N`.
use crate::text::{
    append, chars_of, dec, dec_int, eq_chars, lit, parse_u32, parse_u32_chars, push_dec, push_dec_i64,
    slice_of, string_of,
};
use vstd::prelude::*;

verus! {

/// A single incoming message we know how to describe.
///
/// MIDI channels are 1..=16 (human-friendly); notes are 0..=127 (60 = middle C).
#[derive(Clone, Debug)]
pub enum Trigger {
    /// MIDI Note On / Note Off.
    MidiNote { channel: u8, note: u8 },
    /// MIDI Control Change; `value: None` matches any value.
    MidiControl { channel: u8, controller: u8, value: Option<u8> },
    /// MIDI Program Change.
    MidiProgram { channel: u8, program: u8 },
    /// An OSC address, e.g. `/makepresent/next`.
    OscAddress { address: String },
}

/// Two triggers denote the same wire message.
pub open spec fn same_trigger(a: Trigger, b: Trigger) -> bool {
    match (a, b) {
        (Trigger::MidiNote { channel: c1, note: n1 }, Trigger::MidiNote { channel: c2, note: n2 }) =>
            c1 == c2 && n1 == n2,
        (
            Trigger::MidiControl { channel: c1, controller: k1, value: v1 },
            Trigger::MidiControl { channel: c2, controller: k2, value: v2 },
        ) => c1 == c2 && k1 == k2 && v1 == v2,
        (
            Trigger::MidiProgram { channel: c1, program: p1 },
            Trigger::MidiProgram { channel: c2, program: p2 },
        ) => c1 == c2 && p1 == p2,
        (Trigger::OscAddress { address: a1 }, Trigger::OscAddress { address: a2 }) => a1@ == a2@,
        _ => false,
    }
}

impl PartialEq for Trigger {
    fn eq(&self, other: &Self) -> (r: bool) {
        match (self, other) {
            (Trigger::MidiNote { channel: c1, note: n1 }, Trigger::MidiNote { channel: c2, note: n2 }) =>
                *c1 == *c2 && *n1 == *n2,
            (
                Trigger::MidiControl { channel: c1, controller: k1, value: v1 },
                Trigger::MidiControl { channel: c2, controller: k2, value: v2 },
            ) => *c1 == *c2 && *k1 == *k2 && opt_u8_eq(*v1, *v2),
            (
                Trigger::MidiProgram { channel: c1, program: p1 },
                Trigger::MidiProgram { channel: c2, program: p2 },
            ) => *c1 == *c2 && *p1 == *p2,
            (Trigger::OscAddress { address: a1 }, Trigger::OscAddress { address: a2 }) => *a1 == *a2,
            _ => false,
        }
    }
}

impl vstd::std_specs::cmp::PartialEqSpecImpl for Trigger {
    open spec fn obeys_eq_spec() -> bool {
        true
    }

    open spec fn eq_spec(&self, other: &Self) -> bool {
        same_trigger(*self, *other)
    }
}

impl Eq for Trigger {}

fn opt_u8_eq(a: Option<u8>, b: Option<u8>) -> (r: bool)
    ensures
        r == (a == b),
{
    match (a, b) {
        (Some(x), Some(y)) => x == y,
        (None, None) => true,
        _ => false,
    }
}

/// The twelve pitch-class names, C first.
pub open spec fn pitch_name(pc: int) -> Seq<char> {
    if pc == 0 { "C"@ }
    else if pc == 1 { "C#"@ }
    else if pc == 2 { "D"@ }
    else if pc == 3 { "D#"@ }
    else if pc == 4 { "E"@ }
    else if pc == 5 { "F"@ }
    else if pc == 6 { "F#"@ }
    else if pc == 7 { "G"@ }
    else if pc == 8 { "G#"@ }
    else if pc == 9 { "A"@ }
    else if pc == 10 { "A#"@ }
    else { "B"@ }
}

/// The musical name of a MIDI note number: pitch class and octave, with
/// middle C (60) as `C4`.
pub open spec fn note_label(note: u8) -> Seq<char> {
    pitch_name(note as int % 12) + dec_int(note as int / 12 - 1)
}

pub fn pitch_name_exec(pc: u8) -> (r: &'static str)
    requires
        pc < 12,
    ensures
        r@ == pitch_name(pc as int),
{
    match pc {
        0 => "C",
        1 => "C#",
        2 => "D",
        3 => "D#",
        4 => "E",
        5 => "F",
        6 => "F#",
        7 => "G",
        8 => "G#",
        9 => "A",
        10 => "A#",
        _ => "B",
    }
}

/// Appends the musical name of `note` to `out`.
pub fn push_note_label(out: &mut Vec<char>, note: u8)
    ensures
        final(out)@ == old(out)@ + note_label(note),
{
    let name = lit(pitch_name_exec(note % 12));
    append(out, &name);
    let octave: i64 = (note / 12) as i64 - 1;
    push_dec_i64(out, octave);
    assert(final(out)@ =~= old(out)@ + note_label(note));
}

/// The human-readable description of a trigger.
pub open spec fn describe_trigger(t: Trigger) -> Seq<char> {
    match t {
        Trigger::MidiNote { channel, note } =>
            "MIDI Note "@ + dec(note as nat) + " (C"@ + note_label(note) + ") on ch "@ + dec(channel as nat),
        Trigger::MidiControl { channel, controller, value } => match value {
            Some(v) =>
                "MIDI CC "@ + dec(controller as nat) + " = "@ + dec(v as nat) + " on ch "@ + dec(channel as nat),
            None => "MIDI CC "@ + dec(controller as nat) + " (any value) on ch "@ + dec(channel as nat),
        },
        Trigger::MidiProgram { channel, program } =>
            "MIDI Program "@ + dec(program as nat) + " on ch "@ + dec(channel as nat),
        Trigger::OscAddress { address } => "OSC "@ + address@,
    }
}

impl Trigger {
    /// Human-readable description used for logging and the settings list.
    pub fn describe(&self) -> (r: String)
        ensures
            r@ == describe_trigger(*self),
    {
        let mut out: Vec<char> = Vec::new();
        match self {
            Trigger::MidiNote { channel, note } => {
                append(&mut out, &lit("MIDI Note "));
                push_dec(&mut out, *note as u64);
                append(&mut out, &lit(" (C"));
                let name = self.note_name();
                append(&mut out, &chars_of(name.as_str()));
                append(&mut out, &lit(") on ch "));
                push_dec(&mut out, *channel as u64);
            },
            Trigger::MidiControl { channel, controller, value } => {
                append(&mut out, &lit("MIDI CC "));
                push_dec(&mut out, *controller as u64);
                match value {
                    Some(v) => {
                        append(&mut out, &lit(" = "));
                        push_dec(&mut out, *v as u64);
                        append(&mut out, &lit(" on ch "));
                    },
                    None => {
                        append(&mut out, &lit(" (any value) on ch "));
                    },
                }
                push_dec(&mut out, *channel as u64);
            },
            Trigger::MidiProgram { channel, program } => {
                append(&mut out, &lit("MIDI Program "));
                push_dec(&mut out, *program as u64);
                append(&mut out, &lit(" on ch "));
                push_dec(&mut out, *channel as u64);
            },
            Trigger::OscAddress { address } => {
                append(&mut out, &lit("OSC "));
                append(&mut out, &chars_of(address.as_str()));
            },
        }
        assert(out@ =~= describe_trigger(*self));
        string_of(&out)
    }

    /// The musical name of a note trigger; empty for any other trigger.
    fn note_name(&self) -> (r: String)
        ensures
            r@ == match *self {
                Trigger::MidiNote { note, .. } => note_label(note),
                _ => Seq::<char>::empty(),
            },
    {
        match self {
            Trigger::MidiNote { note, .. } => {
                let mut out: Vec<char> = Vec::new();
                push_note_label(&mut out, *note);
                assert(out@ =~= note_label(*note));
                string_of(&out)
            },
            _ => String::new(),
        }
    }
}

/// What should happen when a trigger fires.
#[derive(Clone, Copy, Debug, PartialEq, Eq, Structural)]
pub enum TriggerAction {
    /// Advance to the slide after the current live slide.
    NextSlide,
    /// Go back to the slide before the current live slide.
    PrevSlide,
    /// Jump straight to a slide by playlist index (0-based).
    JumpTo { index: u32 },
    /// Blank the output (no live slide).
    ClearOutput,
}

/// The label shown for an action; jump targets are shown one-based.
pub open spec fn action_label(a: TriggerAction) -> Seq<char> {
    match a {
        TriggerAction::NextSlide => "Next slide"@,
        TriggerAction::PrevSlide => "Previous slide"@,
        TriggerAction::JumpTo { index } => "Jump to slide "@ + dec(index as nat + 1),
        TriggerAction::ClearOutput => "Clear output / blank"@,
    }
}

impl TriggerAction {
    pub fn label(&self) -> (r: String)
        ensures
            r@ == action_label(*self),
    {
        match self {
            TriggerAction::NextSlide => String::from_str("Next slide"),
            TriggerAction::PrevSlide => String::from_str("Previous slide"),
            TriggerAction::JumpTo { index } => {
                let mut out = lit("Jump to slide ");
                push_dec(&mut out, *index as u64 + 1);
                string_of(&out)
            },
            TriggerAction::ClearOutput => String::from_str("Clear output / blank"),
        }
    }
}

/// A persisted trigger-to-action mapping.
#[derive(Clone, Debug)]
pub struct TriggerMapping {
    pub id: String,
    pub trigger: Trigger,
    pub action: TriggerAction,
    pub enabled: bool,
    pub label: Option<String>,
}

/// A version-4 UUID in hyphenated lower-case text: 36 characters, hyphens
/// at 8, 13, 18 and 23, the version digit `4` at 14, lower-case hex digits
/// elsewhere.
pub open spec fn is_uuid_text(s: Seq<char>) -> bool {
    &&& s.len() == 36
    &&& s[14] == '4'
    &&& forall|i: int| 0 <= i < 36 ==> if i == 8 || i == 13 || i == 18 || i == 23 {
        #[trigger] s[i] == '-'
    } else {
        (48 <= (s[i] as u32) <= 57) || (97 <= (s[i] as u32) <= 102)
    }
}

/// `uuid::Uuid::new_v4` as text (`Display`, which writes the hyphenated
/// lower-case form). The value is random; the contract states only its form.
#[verifier::external_body]
pub(crate) fn new_uuid() -> (r: String)
    ensures
        is_uuid_text(r@),
{
    uuid::Uuid::new_v4().to_string()
}

impl TriggerMapping {
    /// A new, enabled, unlabelled mapping with a fresh random id.
    pub fn new(trigger: Trigger, action: TriggerAction) -> (r: Self)
        ensures
            r.trigger == trigger,
            r.action == action,
            r.enabled,
            r.label is None,
            is_uuid_text(r.id@),
    {
        TriggerMapping { id: new_uuid(), trigger, action, enabled: true, label: None }
    }

    /// When a goto pattern matched, `index` overrides the target of a jump
    /// mapping; any other action is kept as it is.
    pub fn action_with_goto(&self, index: u32) -> (r: TriggerAction)
        ensures
            r == goto_action(self.action, index),
    {
        match self.action {
            TriggerAction::JumpTo { .. } => TriggerAction::JumpTo { index },
            other => other,
        }
    }
}

pub open spec fn goto_action(a: TriggerAction, index: u32) -> TriggerAction {
    match a {
        TriggerAction::JumpTo { .. } => TriggerAction::JumpTo { index },
        other => other,
    }
}

/// Position of the last `c` in `s`, if any.
pub open spec fn last_index_of(s: Seq<char>, c: char) -> Option<int>
    decreases s.len(),
{
    if s.len() == 0 {
        None
    } else if s.last() == c {
        Some(s.len() - 1)
    } else {
        last_index_of(s.drop_last(), c)
    }
}

/// For an address `/prefix/N` with a non-empty prefix and `N >= 1`: the
/// prefix and the zero-based slide index `N - 1`.
pub open spec fn goto_parts(address: Seq<char>) -> Option<(Seq<char>, u32)> {
    match last_index_of(address, '/') {
        Some(k) => {
            let prefix = address.take(k);
            let seg = address.skip(k + 1);
            if prefix.len() == 0 || seg.len() == 0 {
                None
            } else {
                match parse_u32(seg) {
                    Some(n) => if n == 0 { None } else { Some((prefix, (n - 1) as u32)) },
                    None => None,
                }
            }
        },
        None => None,
    }
}

/// An enabled mapping registered for exactly the OSC address `prefix`.
pub open spec fn is_osc_mapping_for(m: TriggerMapping, prefix: Seq<char>) -> bool {
    m.enabled && match m.trigger {
        Trigger::OscAddress { address } => address@ == prefix,
        _ => false,
    }
}

/// Index of the first mapping satisfying `p`, if any.
pub open spec fn first_index(ms: Seq<TriggerMapping>, p: spec_fn(TriggerMapping) -> bool) -> Option<int>
    decreases ms.len(),
{
    if ms.len() == 0 {
        None
    } else if p(ms[0]) {
        Some(0)
    } else {
        match first_index(ms.drop_first(), p) {
            Some(i) => Some(i + 1),
            None => None,
        }
    }
}

pub proof fn lemma_first_index_found(ms: Seq<TriggerMapping>, p: spec_fn(TriggerMapping) -> bool, i: int)
    requires
        0 <= i < ms.len(),
        p(ms[i]),
        forall|j: int| 0 <= j < i ==> !p(#[trigger] ms[j]),
    ensures
        first_index(ms, p) == Some(i),
    decreases i,
{
    if i > 0 {
        assert forall|j: int| 0 <= j < i - 1 implies !p(#[trigger] ms.drop_first()[j]) by {
            assert(ms.drop_first()[j] == ms[j + 1]);
        }
        lemma_first_index_found(ms.drop_first(), p, i - 1);
    }
}

pub proof fn lemma_first_index_none(ms: Seq<TriggerMapping>, p: spec_fn(TriggerMapping) -> bool)
    requires
        forall|j: int| 0 <= j < ms.len() ==> !p(#[trigger] ms[j]),
    ensures
        first_index(ms, p) == None::<int>,
    decreases ms.len(),
{
    if ms.len() > 0 {
        assert forall|j: int| 0 <= j < ms.len() - 1 implies !p(#[trigger] ms.drop_first()[j]) by {
            assert(ms.drop_first()[j] == ms[j + 1]);
        }
        lemma_first_index_none(ms.drop_first(), p);
    }
}

/// The goto match for `address`: the position of the mapping for its
/// prefix and the zero-based slide index.
pub open spec fn goto_match(ms: Seq<TriggerMapping>, address: Seq<char>) -> Option<(int, u32)> {
    match goto_parts(address) {
        Some((prefix, index)) => match first_index(ms, |m: TriggerMapping| is_osc_mapping_for(m, prefix)) {
            Some(i) => Some((i, index)),
            None => None,
        },
        None => None,
    }
}

fn last_slash(v: &Vec<char>) -> (r: Option<usize>)
    ensures
        match r {
            Some(k) => last_index_of(v@, '/') == Some(k as int) && k < v.len(),
            None => last_index_of(v@, '/') == None::<int>,
        },
{
    let mut i: usize = v.len();
    assert(v@.take(v@.len() as int) =~= v@);
    while i > 0
        invariant
            i <= v.len(),
            last_index_of(v@, '/') == last_index_of(v@.take(i as int), '/'),
        decreases i,
    {
        if v[i - 1] == '/' {
            assert(v@.take(i as int).last() == '/');
            return Some(i - 1);
        }
        assert(v@.take(i as int).drop_last() =~= v@.take(i - 1));
        i = i - 1;
    }
    assert(v@.take(0) =~= Seq::<char>::empty());
    None
}

/// If `address` is `/prefix/N` (N >= 1) and an enabled mapping exists for
/// the bare `/prefix`, that mapping together with the slide index `N - 1`.
pub fn osc_goto_match<'a>(mappings: &'a Vec<TriggerMapping>, address: &str) -> (r: Option<(&'a TriggerMapping, u32)>)
    ensures
        match goto_match(mappings@, address@) {
            Some((i, index)) => r matches Some((m, n)) && *m == mappings@[i] && n == index,
            None => r is None,
        },
{
    let v = chars_of(address);
    assert(v@.take(v@.len() as int) =~= v@);
    let k = match last_slash(&v) {
        Some(k) => k,
        None => return None,
    };
    let prefix = slice_of(&v, 0, k);
    let seg = slice_of(&v, k + 1, v.len());
    assert(prefix@ =~= v@.take(k as int));
    assert(seg@ =~= v@.skip(k + 1));
    if prefix.len() == 0 || seg.len() == 0 {
        return None;
    }
    let n = match parse_u32_chars(&seg) {
        Some(n) => n,
        None => return None,
    };
    if n == 0 {
        return None;
    }
    let ghost p = |m: TriggerMapping| is_osc_mapping_for(m, prefix@);
    assert(goto_parts(address@) == Some((prefix@, (n - 1) as u32)));
    let mut i: usize = 0;
    while i < mappings.len()
        invariant
            i <= mappings.len(),
            n > 0,
            goto_parts(address@) == Some((prefix@, (n - 1) as u32)),
            p == (|m: TriggerMapping| is_osc_mapping_for(m, prefix@)),
            forall|j: int| 0 <= j < i ==> !p(#[trigger] mappings@[j]),
        decreases mappings.len() - i,
    {
        let m = &mappings[i];
        if m.enabled {
            if let Trigger::OscAddress { address: a } = &m.trigger {
                let av = chars_of(a.as_str());
                if eq_chars(&av, &prefix) {
                    proof {
                        lemma_first_index_found(mappings@, p, i as int);
                    }
                    return Some((m, n - 1));
                }
            }
        }
        assert(!p(mappings@[i as int]));
        i = i + 1;
    }
    proof {
        lemma_first_index_none(mappings@, p);
    }
    None
}

/// An enabled mapping for exactly the message `t`.
pub open spec fn is_exact_mapping(m: TriggerMapping, t: Trigger) -> bool {
    m.enabled && same_trigger(m.trigger, t)
}

/// The action an incoming trigger fires and the mapping's label, if any
/// mapping applies: the first enabled mapping for exactly this message, else
/// (for OSC) the goto pattern match.
pub open spec fn trigger_outcome(ms: Seq<TriggerMapping>, t: Trigger) -> Option<(TriggerAction, Option<Seq<char>>)> {
    match first_index(ms, |m: TriggerMapping| is_exact_mapping(m, t)) {
        Some(i) => Some((ms[i].action, opt_view(ms[i].label))),
        None => match t {
            Trigger::OscAddress { address } => match goto_match(ms, address@) {
                Some((i, index)) => Some((goto_action(ms[i].action, index), opt_view(ms[i].label))),
                None => None,
            },
            _ => None,
        },
    }
}

pub open spec fn opt_view(o: Option<String>) -> Option<Seq<char>> {
    match o {
        Some(s) => Some(s@),
        None => None,
    }
}

fn clone_label(o: &Option<String>) -> (r: Option<String>)
    ensures
        opt_view(r) == opt_view(*o),
{
    match o {
        Some(s) => Some(s.clone()),
        None => None,
    }
}

/// Decide what an incoming trigger does given the current mappings: the
/// action to run and the label of the mapping that fired it, or `None` when
/// the message is unmapped (it is then only logged).
pub fn match_trigger(mappings: &Vec<TriggerMapping>, trigger: &Trigger) -> (r: Option<(TriggerAction, Option<String>)>)
    ensures
        match trigger_outcome(mappings@, *trigger) {
            Some((a, l)) => r matches Some((ra, rl)) && ra == a && opt_view(rl) == l,
            None => r is None,
        },
{
    let ghost p = |m: TriggerMapping| is_exact_mapping(m, *trigger);
    let mut i: usize = 0;
    while i < mappings.len()
        invariant
            i <= mappings.len(),
            p == (|m: TriggerMapping| is_exact_mapping(m, *trigger)),
            forall|j: int| 0 <= j < i ==> !p(#[trigger] mappings@[j]),
        decreases mappings.len() - i,
    {
        let m = &mappings[i];
        if m.enabled && m.trigger == *trigger {
            proof {
                lemma_first_index_found(mappings@, p, i as int);
            }
            return Some((m.action, clone_label(&m.label)));
        }
        i = i + 1;
    }
    proof {
        lemma_first_index_none(mappings@, p);
    }
    match trigger {
        Trigger::OscAddress { address } => match osc_goto_match(mappings, address.as_str()) {
            Some((m, index)) => Some((m.action_with_goto(index), clone_label(&m.label))),
            None => None,
        },
        _ => None,
    }
}

/// A disabled mapping never fires: with every mapping switched off, any
/// incoming message is only logged.
pub proof fn law_disabled_mappings_never_fire(ms: Seq<TriggerMapping>, t: Trigger)
    requires
        forall|j: int| 0 <= j < ms.len() ==> !(#[trigger] ms[j]).enabled,
    ensures
        trigger_outcome(ms, t) is None,
{
    let p = |m: TriggerMapping| is_exact_mapping(m, t);
    assert forall|j: int| 0 <= j < ms.len() implies !p(#[trigger] ms[j]) by {}
    lemma_first_index_none(ms, p);
    if let Trigger::OscAddress { address } = t {
        if let Some((prefix, index)) = goto_parts(address@) {
            let q = |m: TriggerMapping| is_osc_mapping_for(m, prefix);
            assert forall|j: int| 0 <= j < ms.len() implies !q(#[trigger] ms[j]) by {}
            lemma_first_index_none(ms, q);
        }
    }
}

/// A trigger as plain values: which kind it is (0 note, 1 control,
/// 2 program, 3 OSC) and every field it carries.
pub open spec fn trigger_fields(t: Trigger) -> (u8, u8, u8, Option<u8>, Seq<char>) {
    match t {
        Trigger::MidiNote { channel, note } => (0u8, channel, note, None, seq![]),
        Trigger::MidiControl { channel, controller, value } => (1u8, channel, controller, value, seq![]),
        Trigger::MidiProgram { channel, program } => (2u8, channel, program, None, seq![]),
        Trigger::OscAddress { address } => (3u8, 0u8, 0u8, None, address@),
    }
}

/// Two triggers are the same exactly when they are of the same kind and
/// every field agrees.
pub proof fn law_same_trigger_is_field_equality(a: Trigger, b: Trigger)
    ensures
        same_trigger(a, b) <==> trigger_fields(a) == trigger_fields(b),
{
}

proof fn lemma_first_index_in(ms: Seq<TriggerMapping>, p: spec_fn(TriggerMapping) -> bool)
    ensures
        first_index(ms, p) matches Some(i) ==> 0 <= i < ms.len() && p(ms[i]),
    decreases ms.len(),
{
    if ms.len() > 0 && !p(ms[0]) {
        lemma_first_index_in(ms.drop_first(), p);
        if let Some(i) = first_index(ms.drop_first(), p) {
            assert(ms.drop_first()[i] == ms[i + 1]);
        }
    }
}

/// A MIDI message fires only a mapping that is switched on and registered
/// for exactly that message (same kind, same fields), and fires that
/// mapping's action.
pub proof fn law_mapping_fires_only_for_its_message(ms: Seq<TriggerMapping>, t: Trigger)
    requires
        !(t is OscAddress),
    ensures
        trigger_outcome(ms, t) matches Some((act, _)) ==> exists|i: int| 0 <= i < ms.len() && (#[trigger] ms[i]).enabled
            && trigger_fields(ms[i].trigger) == trigger_fields(t) && ms[i].action == act,
{
    let p = |m: TriggerMapping| is_exact_mapping(m, t);
    lemma_first_index_in(ms, p);
    if let Some(i) = first_index(ms, p) {
        law_same_trigger_is_field_equality(ms[i].trigger, t);
        assert(ms[i].enabled && trigger_fields(ms[i].trigger) == trigger_fields(t));
    }
}

} // verus!
