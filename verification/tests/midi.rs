use makepresent::midi::{note_name, parse_midi_message, MidiKind, ParsedMidi};
use makepresent::triggers::Trigger;

fn parse(bytes: &[u8]) -> Option<ParsedMidi> {
    let mut running = 0u8;
    parse_midi_message(&mut running, bytes)
}

#[test]
fn parses_note_on() {
    let p = parse(&[0x90, 60, 100]).unwrap();
    assert_eq!(p.channel, 1);
    assert!(matches!(p.kind, MidiKind::NoteOn));
    assert_eq!(p.data1, 60);
}

#[test]
fn parses_channel_10_cc() {
    let p = parse(&[0xB9, 7, 64]).unwrap();
    assert_eq!(p.channel, 10);
    assert!(matches!(p.kind, MidiKind::ControlChange));
    assert_eq!(p.data1, 7);
}

#[test]
fn parses_program_change() {
    let p = parse(&[0xC3, 5]).unwrap();
    assert_eq!(p.channel, 4);
    assert!(matches!(p.kind, MidiKind::ProgramChange));
}

#[test]
fn note_off_zero_velocity_is_treated_as_off() {
    let p = parse(&[0x90, 60, 0]).unwrap();
    assert!(matches!(p.kind, MidiKind::NoteOff));
}

#[test]
fn empty_or_short_messages_are_safe() {
    assert!(parse(&[]).is_none());
    assert!(parse(&[0x90]).is_none());
    assert!(parse(&[0x90, 60]).is_none());
}

#[test]
fn garbage_status_is_rejected() {
    assert!(parse(&[0xF0, 0x01]).is_none());
}

#[test]
fn human_note_names() {
    assert_eq!(note_name(60), "C4");
    assert_eq!(note_name(72), "C5");
    assert_eq!(note_name(61), "C#4");
}

#[test]
fn running_status_reuses_the_last_status() {
    let mut running = 0u8;
    assert!(parse_midi_message(&mut running, &[60, 100]).is_none());
    let p = parse_midi_message(&mut running, &[0x91, 60, 100]).unwrap();
    assert_eq!(p.channel, 2);
    assert_eq!(running, 0x91);
    let q = parse_midi_message(&mut running, &[62, 90]).unwrap();
    assert_eq!((q.channel, q.data1, q.data2), (2, 62, Some(90)));
    assert!(matches!(q.kind, MidiKind::NoteOn));
}

#[test]
fn messages_describe_and_map_to_triggers() {
    let p = parse(&[0x90, 60, 100]).unwrap();
    assert_eq!(p.describe(), "Note On C4 (note 60)");
    assert_eq!(p.raw_description(), "0x90 3C 64");
    assert_eq!(p.into_trigger(), Trigger::MidiNote { channel: 1, note: 60 });
    let cc = parse(&[0xB9, 7, 64]).unwrap();
    assert_eq!(cc.describe(), "CC 7 value 64");
    assert_eq!(cc.raw_description(), "0xB9 07 40");
    assert_eq!(cc.into_trigger(), Trigger::MidiControl { channel: 10, controller: 7, value: Some(64) });
    let pc = parse(&[0xC3, 5]).unwrap();
    assert_eq!(pc.describe(), "Program 5");
    assert_eq!(pc.raw_description(), "0xC3 05");
    assert_eq!(MidiKind::ProgramChange.label(), "program");
}
