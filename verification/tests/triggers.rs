use makepresent::osc::{packet_to_triggers, OscNode};
use makepresent::triggers::{match_trigger, osc_goto_match, Trigger, TriggerAction, TriggerMapping};

#[test]
fn next_slide_describes_as_next() {
    assert_eq!(TriggerAction::NextSlide.label(), "Next slide");
}

#[test]
fn jump_label_is_one_based() {
    assert_eq!(TriggerAction::JumpTo { index: 4 }.label(), "Jump to slide 5");
}

#[test]
fn note_describe_uses_musical_name() {
    let t = Trigger::MidiNote { channel: 1, note: 60 };
    assert!(t.describe().contains("C4"));
}

fn msg(addr: &str) -> OscNode {
    OscNode::Message { addr: addr.to_string() }
}

#[test]
fn extracts_single_message() {
    let triggers = packet_to_triggers(&msg("/makepresent/next"));
    assert_eq!(triggers, vec![Trigger::OscAddress { address: "/makepresent/next".to_string() }]);
}

#[test]
fn extracts_nested_bundle_messages() {
    let bundle = OscNode::Bundle { content: vec![msg("/makepresent/next"), msg("/makepresent/clear")] };
    let triggers = packet_to_triggers(&bundle);
    assert_eq!(triggers.len(), 2);
    assert_eq!(triggers[1], Trigger::OscAddress { address: "/makepresent/clear".to_string() });
}

#[test]
fn empty_address_is_skipped() {
    assert!(packet_to_triggers(&msg("")).is_empty());
}

fn mapping(trigger: Trigger, action: TriggerAction, label: Option<&str>) -> TriggerMapping {
    let mut m = TriggerMapping::new(trigger, action);
    m.label = label.map(|s| s.to_string());
    m
}

#[test]
fn exact_mapping_fires_and_disabled_does_not() {
    let mut off = mapping(Trigger::MidiNote { channel: 1, note: 61 }, TriggerAction::PrevSlide, None);
    off.enabled = false;
    let maps = vec![
        mapping(Trigger::MidiNote { channel: 1, note: 60 }, TriggerAction::NextSlide, Some("pedal")),
        off,
    ];
    let hit = match_trigger(&maps, &Trigger::MidiNote { channel: 1, note: 60 }).unwrap();
    assert_eq!(hit.0, TriggerAction::NextSlide);
    assert_eq!(hit.1.as_deref(), Some("pedal"));
    assert!(match_trigger(&maps, &Trigger::MidiNote { channel: 1, note: 61 }).is_none());
    assert!(match_trigger(&maps, &Trigger::MidiNote { channel: 2, note: 60 }).is_none());
}

#[test]
fn osc_goto_jumps_to_numbered_slide() {
    let maps = vec![mapping(
        Trigger::OscAddress { address: "/makepresent/goto".to_string() },
        TriggerAction::JumpTo { index: 0 },
        None,
    )];
    let (m, n) = osc_goto_match(&maps, "/makepresent/goto/3").unwrap();
    assert_eq!(n, 2);
    assert_eq!(m.action_with_goto(n), TriggerAction::JumpTo { index: 2 });
    assert!(osc_goto_match(&maps, "/makepresent/goto/0").is_none());
    assert!(osc_goto_match(&maps, "/makepresent/other/3").is_none());
    let hit = match_trigger(&maps, &Trigger::OscAddress { address: "/makepresent/goto/3".to_string() }).unwrap();
    assert_eq!(hit.0, TriggerAction::JumpTo { index: 2 });
}

#[test]
fn descriptions_of_triggers_and_actions() {
    assert_eq!(Trigger::MidiProgram { channel: 3, program: 9 }.describe().is_empty(), false);
    assert_eq!(TriggerAction::ClearOutput.label(), "Clear output / blank");
    assert_eq!(Trigger::MidiNote { channel: 2, note: 61 }.describe(), "MIDI Note 61 (CC#4) on ch 2");
    assert_eq!(TriggerAction::PrevSlide.label(), "Previous slide");
}

#[test]
fn disabled_goto_mapping_does_not_fire() {
    let mut m = mapping(
        Trigger::OscAddress { address: "/makepresent/goto".to_string() },
        TriggerAction::JumpTo { index: 0 },
        None,
    );
    m.enabled = false;
    let maps = vec![m];
    assert!(match_trigger(&maps, &Trigger::OscAddress { address: "/makepresent/goto/3".to_string() }).is_none());
    assert!(match_trigger(&maps, &Trigger::OscAddress { address: "/makepresent/goto".to_string() }).is_none());
}
