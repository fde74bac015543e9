//! MIDI message parsing: raw bytes from an input port into a clean,
//! channel-aware message and then into a [`Trigger`].
//!
//! Running status is explicit: the caller keeps the last status byte seen
//! and hands it to [`parse_midi_message`], which updates it.
use crate::text::{append, dec, lit, push_dec, string_of};
use crate::triggers::{note_label, push_note_label, Trigger};
use vstd::prelude::*;

verus! {

/// The kinds of channel message the trigger system understands.
#[derive(Clone, Copy, Debug, PartialEq, Eq, Structural)]
pub enum MidiKind {
    NoteOn,
    NoteOff,
    ControlChange,
    ProgramChange,
}

pub open spec fn kind_label(k: MidiKind) -> Seq<char> {
    match k {
        MidiKind::NoteOn => "note_on"@,
        MidiKind::NoteOff => "note_off"@,
        MidiKind::ControlChange => "cc"@,
        MidiKind::ProgramChange => "program"@,
    }
}

impl MidiKind {
    pub fn label(self) -> (r: &'static str)
        ensures
            r@ == kind_label(self),
    {
        match self {
            MidiKind::NoteOn => "note_on",
            MidiKind::NoteOff => "note_off",
            MidiKind::ControlChange => "cc",
            MidiKind::ProgramChange => "program",
        }
    }
}

/// A single, channel-aware message. `channel` is 1..=16.
#[derive(Clone, Copy, Debug, PartialEq, Eq, Structural)]
pub struct ParsedMidi {
    pub channel: u8,
    pub kind: MidiKind,
    pub data1: u8,
    pub data2: Option<u8>,
}

/// Whether a byte is a status byte (high bit set).
pub open spec fn is_status_byte(b: u8) -> bool {
    b >= 0x80
}

/// The message a status byte and its data bytes denote, if it is one of the
/// supported kinds and enough data bytes are present. A Note On with
/// velocity 0 is a Note Off.
pub open spec fn body_message(status: u8, body: Seq<u8>) -> Option<ParsedMidi> {
    let channel = ((status % 16) + 1) as u8;
    let hi = status - status % 16;
    if hi == 0x80 || hi == 0x90 {
        if body.len() < 2 {
            None
        } else {
            Some(
                ParsedMidi {
                    channel,
                    kind: if hi == 0x90 && body[1] > 0 {
                        MidiKind::NoteOn
                    } else {
                        MidiKind::NoteOff
                    },
                    data1: body[0],
                    data2: Some(body[1]),
                },
            )
        }
    } else if hi == 0xB0 {
        if body.len() < 2 {
            None
        } else {
            Some(
                ParsedMidi {
                    channel,
                    kind: MidiKind::ControlChange,
                    data1: body[0],
                    data2: Some(body[1]),
                },
            )
        }
    } else if hi == 0xC0 {
        if body.len() < 1 {
            None
        } else {
            Some(ParsedMidi { channel, kind: MidiKind::ProgramChange, data1: body[0], data2: None })
        }
    } else {
        None
    }
}

/// What a raw message yields given the running status: the parsed message
/// and the running status afterwards.
pub open spec fn message_outcome(running: u8, message: Seq<u8>) -> (Option<ParsedMidi>, u8) {
    if message.len() == 0 {
        (None, running)
    } else if !is_status_byte(message[0]) {
        if !is_status_byte(running) {
            (None, running)
        } else {
            (body_message(running, message), running)
        }
    } else {
        (body_message(message[0], message.skip(1)), message[0])
    }
}

pub fn is_status(b: u8) -> (r: bool)
    ensures
        r == is_status_byte(b),
{
    b >= 0x80
}

/// Parse the data bytes that follow a status byte.
pub fn parse_body(status: u8, body: &[u8]) -> (r: Option<ParsedMidi>)
    ensures
        r == body_message(status, body@),
{
    proof {
        assert(status & 0x0F == status % 16) by (bit_vector);
        assert(status & 0xF0 == status - status % 16) by (bit_vector);
    }
    let channel = (status & 0x0F) + 1;
    let hi = status & 0xF0;
    if hi == 0x80 || hi == 0x90 {
        if body.len() < 2 {
            return None;
        }
        let kind = if hi == 0x90 && body[1] > 0 {
            MidiKind::NoteOn
        } else {
            MidiKind::NoteOff
        };
        Some(ParsedMidi { channel, kind, data1: body[0], data2: Some(body[1]) })
    } else if hi == 0xB0 {
        if body.len() < 2 {
            return None;
        }
        Some(ParsedMidi { channel, kind: MidiKind::ControlChange, data1: body[0], data2: Some(body[1]) })
    } else if hi == 0xC0 {
        if body.len() < 1 {
            return None;
        }
        Some(ParsedMidi { channel, kind: MidiKind::ProgramChange, data1: body[0], data2: None })
    } else {
        None
    }
}

/// Parse a raw MIDI byte slice into a clean message. A message without a
/// status byte reuses `running_status` (running status); a message with one
/// records it there. Short or unknown messages yield `None`, never a panic.
pub fn parse_midi_message(running_status: &mut u8, message: &[u8]) -> (r: Option<ParsedMidi>)
    ensures
        (r, *final(running_status)) == message_outcome(*old(running_status), message@),
{
    if message.len() == 0 {
        return None;
    }
    let status = message[0];
    if !is_status(status) {
        if !is_status(*running_status) {
            return None;
        }
        parse_body(*running_status, message)
    } else {
        *running_status = status;
        let body = &message[1..message.len()];
        assert(body@ =~= message@.skip(1));
        parse_body(status, body)
    }
}

/// The status byte of a message kind on channel 1.
pub open spec fn kind_status(k: MidiKind) -> u8 {
    match k {
        MidiKind::NoteOn => 0x90,
        MidiKind::NoteOff => 0x80,
        MidiKind::ControlChange => 0xB0,
        MidiKind::ProgramChange => 0xC0,
    }
}

pub open spec fn hex_digit(d: u8) -> char {
    if d < 10 {
        crate::text::digit_char(d as nat)
    } else if d == 10 { 'A' }
    else if d == 11 { 'B' }
    else if d == 12 { 'C' }
    else if d == 13 { 'D' }
    else if d == 14 { 'E' }
    else { 'F' }
}

/// Two upper-case hexadecimal digits (`{:02X}` of a byte).
pub open spec fn hex2(b: u8) -> Seq<char> {
    seq![hex_digit(b / 16), hex_digit(b % 16)]
}

/// `"Note On C4 (note 60)"` and friends.
pub open spec fn describe_message(p: ParsedMidi) -> Seq<char> {
    match p.kind {
        MidiKind::NoteOn => "Note On "@ + note_label(p.data1) + " (note "@ + dec(p.data1 as nat) + ")"@,
        MidiKind::NoteOff => "Note Off "@ + note_label(p.data1) + " (note "@ + dec(p.data1 as nat) + ")"@,
        MidiKind::ControlChange => "CC "@ + dec(p.data1 as nat) + " value "@ + dec(
            (match p.data2 {
                Some(v) => v,
                None => 0u8,
            }) as nat,
        ),
        MidiKind::ProgramChange => "Program "@ + dec(p.data1 as nat),
    }
}

/// The bytes of the message in hex: `"0x90 3C 64"`.
pub open spec fn raw_message_text(p: ParsedMidi) -> Seq<char> {
    let first = kind_status(p.kind) | ((p.channel - 1) as u8);
    match p.data2 {
        Some(d2) => "0x"@ + hex2(first) + " "@ + hex2(p.data1) + " "@ + hex2(d2),
        None => "0x"@ + hex2(first) + " "@ + hex2(p.data1),
    }
}

/// The trigger a message fires: Note On and Note Off are the same trigger.
pub open spec fn message_trigger(p: ParsedMidi) -> Trigger {
    match p.kind {
        MidiKind::NoteOn => Trigger::MidiNote { channel: p.channel, note: p.data1 },
        MidiKind::NoteOff => Trigger::MidiNote { channel: p.channel, note: p.data1 },
        MidiKind::ControlChange => Trigger::MidiControl {
            channel: p.channel,
            controller: p.data1,
            value: p.data2,
        },
        MidiKind::ProgramChange => Trigger::MidiProgram { channel: p.channel, program: p.data1 },
    }
}

pub(crate) fn hex_digit_exec(d: u8) -> (c: char)
    requires
        d < 16,
    ensures
        c == hex_digit(d),
{
    match d {
        0 => '0',
        1 => '1',
        2 => '2',
        3 => '3',
        4 => '4',
        5 => '5',
        6 => '6',
        7 => '7',
        8 => '8',
        9 => '9',
        10 => 'A',
        11 => 'B',
        12 => 'C',
        13 => 'D',
        14 => 'E',
        _ => 'F',
    }
}

fn push_hex2(out: &mut Vec<char>, b: u8)
    ensures
        final(out)@ == old(out)@ + hex2(b),
{
    out.push(hex_digit_exec(b / 16));
    out.push(hex_digit_exec(b % 16));
    assert(final(out)@ =~= old(out)@ + hex2(b));
}

impl ParsedMidi {
    /// Human-readable description for the live MIDI monitor.
    pub fn describe(&self) -> (r: String)
        ensures
            r@ == describe_message(*self),
    {
        let mut out: Vec<char> = Vec::new();
        match self.kind {
            MidiKind::NoteOn => {
                append(&mut out, &lit("Note On "));
                push_note_label(&mut out, self.data1);
                append(&mut out, &lit(" (note "));
                push_dec(&mut out, self.data1 as u64);
                append(&mut out, &lit(")"));
            },
            MidiKind::NoteOff => {
                append(&mut out, &lit("Note Off "));
                push_note_label(&mut out, self.data1);
                append(&mut out, &lit(" (note "));
                push_dec(&mut out, self.data1 as u64);
                append(&mut out, &lit(")"));
            },
            MidiKind::ControlChange => {
                append(&mut out, &lit("CC "));
                push_dec(&mut out, self.data1 as u64);
                append(&mut out, &lit(" value "));
                let v: u8 = match self.data2 {
                    Some(v) => v,
                    None => 0,
                };
                push_dec(&mut out, v as u64);
            },
            MidiKind::ProgramChange => {
                append(&mut out, &lit("Program "));
                push_dec(&mut out, self.data1 as u64);
            },
        }
        assert(out@ =~= describe_message(*self));
        string_of(&out)
    }

    /// The raw bytes in hex, e.g. `"0x90 3C 64"`.
    pub fn raw_description(&self) -> (r: String)
        requires
            self.channel >= 1,
        ensures
            r@ == raw_message_text(*self),
    {
        let base: u8 = match self.kind {
            MidiKind::NoteOn => 0x90,
            MidiKind::NoteOff => 0x80,
            MidiKind::ControlChange => 0xB0,
            MidiKind::ProgramChange => 0xC0,
        };
        let first = base | (self.channel - 1);
        let mut out = lit("0x");
        push_hex2(&mut out, first);
        append(&mut out, &lit(" "));
        push_hex2(&mut out, self.data1);
        match self.data2 {
            Some(d2) => {
                append(&mut out, &lit(" "));
                push_hex2(&mut out, d2);
            },
            None => {},
        }
        assert(out@ =~= raw_message_text(*self));
        string_of(&out)
    }

    /// The trigger this message fires.
    pub fn into_trigger(self) -> (r: Trigger)
        ensures
            r == message_trigger(self),
    {
        match self.kind {
            MidiKind::NoteOn => Trigger::MidiNote { channel: self.channel, note: self.data1 },
            MidiKind::NoteOff => Trigger::MidiNote { channel: self.channel, note: self.data1 },
            MidiKind::ControlChange => Trigger::MidiControl {
                channel: self.channel,
                controller: self.data1,
                value: self.data2,
            },
            MidiKind::ProgramChange => Trigger::MidiProgram { channel: self.channel, program: self.data1 },
        }
    }
}

/// A MIDI input device as the settings panel lists it.
#[derive(Clone, Debug)]
pub struct MidiDeviceInfo {
    /// Stable opaque device id (for persistence and reconnecting).
    pub id: String,
    /// Human-friendly port name.
    pub name: String,
}

/// A received message as the live monitor in settings shows it.
#[derive(Clone, Debug)]
pub struct MidiMessageView {
    pub channel: u8,
    pub kind: String,
    pub data: String,
    pub describe: String,
    /// First data byte (note, controller or program).
    pub data1: Option<u8>,
    /// Second data byte (velocity or value), when present.
    pub data2: Option<u8>,
}

/// The monitor's view of a parsed message.
pub fn message_view(parsed: &ParsedMidi) -> (r: MidiMessageView)
    requires
        parsed.channel >= 1,
    ensures
        r.channel == parsed.channel,
        r.kind@ == kind_label(parsed.kind),
        r.data@ == raw_message_text(*parsed),
        r.describe@ == describe_message(*parsed),
        r.data1 == Some(parsed.data1),
        r.data2 == parsed.data2,
{
    MidiMessageView {
        channel: parsed.channel,
        kind: crate::project::lit_string(parsed.kind.label()),
        data: parsed.raw_description(),
        describe: parsed.describe(),
        data1: Some(parsed.data1),
        data2: parsed.data2,
    }
}

/// The musical name of a MIDI note number, e.g. `C4` for 60.
pub fn note_name(note: u8) -> (r: String)
    ensures
        r@ == note_label(note),
{
    let mut out: Vec<char> = Vec::new();
    push_note_label(&mut out, note);
    assert(out@ =~= note_label(note));
    string_of(&out)
}

/// A parsed message always has a channel in 1..=16.
pub proof fn law_parsed_channel_in_range(running: u8, message: Seq<u8>)
    ensures
        message_outcome(running, message).0 matches Some(p) ==> 1 <= p.channel <= 16,
{
}

/// A Note On with velocity zero is read as a Note Off.
pub proof fn law_zero_velocity_is_note_off(running: u8, channel: u8, note: u8)
    requires
        channel < 16,
    ensures
        message_outcome(running, seq![(0x90 + channel) as u8, note, 0u8]).0 == Some(
            ParsedMidi {
                channel: (channel + 1) as u8,
                kind: MidiKind::NoteOff,
                data1: note,
                data2: Some(0u8),
            },
        ),
{
    let m = seq![(0x90 + channel) as u8, note, 0u8];
    assert(m.skip(1) =~= seq![note, 0u8]);
}

/// Data bytes without a status byte reuse the last status byte seen, so a
/// message read after `[status, ..]` with running status parses exactly as
/// if the status byte had been repeated.
pub proof fn law_running_status(running: u8, status: u8, data: Seq<u8>)
    requires
        is_status_byte(status),
        data.len() > 0,
        !is_status_byte(data[0]),
    ensures
        message_outcome(status, data) == (body_message(status, data), status),
        message_outcome(running, seq![status] + data) == (body_message(status, data), status),
{
    assert((seq![status] + data).skip(1) =~= data);
}

/// What each kind of channel message reads as, for every channel (0..16 in
/// the status byte, reported as 1..=16) and every data byte, whatever the
/// running status: 0x8n is always a Note Off (its velocity kept); 0x9n is a
/// Note On when the velocity is above zero; 0xBn a control change; 0xCn a
/// program change; and the status byte becomes the running status.
pub proof fn law_channel_messages(running: u8, ch: u8, a: u8, b: u8)
    requires
        ch < 16,
    ensures
        message_outcome(running, seq![(0x80 + ch) as u8, a, b]) == (
            Some(ParsedMidi { channel: (ch + 1) as u8, kind: MidiKind::NoteOff, data1: a, data2: Some(b) }),
            (0x80 + ch) as u8,
        ),
        b > 0 ==> message_outcome(running, seq![(0x90 + ch) as u8, a, b]) == (
            Some(ParsedMidi { channel: (ch + 1) as u8, kind: MidiKind::NoteOn, data1: a, data2: Some(b) }),
            (0x90 + ch) as u8,
        ),
        message_outcome(running, seq![(0xB0 + ch) as u8, a, b]) == (
            Some(ParsedMidi { channel: (ch + 1) as u8, kind: MidiKind::ControlChange, data1: a, data2: Some(b) }),
            (0xB0 + ch) as u8,
        ),
        message_outcome(running, seq![(0xC0 + ch) as u8, a]) == (
            Some(ParsedMidi { channel: (ch + 1) as u8, kind: MidiKind::ProgramChange, data1: a, data2: None }),
            (0xC0 + ch) as u8,
        ),
{
    assert(seq![(0x80 + ch) as u8, a, b].skip(1) =~= seq![a, b]);
    assert(seq![(0x90 + ch) as u8, a, b].skip(1) =~= seq![a, b]);
    assert(seq![(0xB0 + ch) as u8, a, b].skip(1) =~= seq![a, b]);
    assert(seq![(0xC0 + ch) as u8, a].skip(1) =~= seq![a]);
}

} // verus!
