use makepresent::commands::{
    advance_target, changed_settings, check_snapshot, import_report, network_action, osc_action, settings_fields,
    toggle_action, transition_value, Advance, ServiceAction, SettingsField,
};
use makepresent::project::{
    default_presets, find_slide, next_slide, on_deck, Background, Library, Session, Settings, Slide, SlidePositioning,
    TemplateStore, Transition, LIBRARY_SCHEMA_VERSION, SCHEMA_VERSION,
};
use makepresent::triggers::{Trigger, TriggerAction, TriggerMapping};

fn slide(id: &str) -> Slide {
    Slide {
        id: id.to_string(),
        library_id: None,
        library_slide_id: None,
        title: format!("title {id}"),
        body: String::new(),
        background: Background::default(),
        auto_advance_secs: None,
    }
}

fn settings() -> Settings {
    let mut s = Settings::default();
    s.output_display_index = Some(1);
    s.output_fullscreen = true;
    s.stage_display_index = Some(2);
    s.stage_visible = true;
    s.default_transition = Transition::Fade;
    s.stage_network_port = 1426;
    s
}

#[test]
fn changed_settings_reports_only_differences() {
    let old = settings();
    let mut new = settings();
    new.output_fullscreen = false;
    new.stage_visible = false;
    new.default_transition = Transition::Cut;
    let changed = changed_settings(&old, &new, false);
    assert_eq!(
        changed,
        vec!["Output fullscreen".to_string(), "Stage visibility".to_string(), "Default transition".to_string()]
    );
}

#[test]
fn no_changes_reports_empty() {
    assert!(changed_settings(&settings(), &settings(), false).is_empty());
}

#[test]
fn trigger_and_volume_changes_are_reported() {
    let old = settings();
    let mut new = settings();
    new.triggers.push(TriggerMapping::new(Trigger::MidiNote { channel: 1, note: 60 }, TriggerAction::NextSlide));
    new.stage_network_pin = "1234".to_string();
    let changed = changed_settings(&old, &new, true);
    assert_eq!(changed, vec!["Trigger mappings", "Stage display PIN", "Audio volume"]);
    assert_eq!(settings_fields().len(), 19);
    assert_eq!(SettingsField::NdiEnabled.label(), "NDI broadcast");
}

#[test]
fn settings_files_are_checked() {
    assert!(check_snapshot("makepresent", 1).is_ok());
    assert_eq!(check_snapshot("other", 1).unwrap_err(), "not a MakePresent settings file (app is \"other\")");
    assert_eq!(
        check_snapshot("makepresent", 7).unwrap_err(),
        "unsupported settings schema version 7 (this app supports 1)"
    );
    let r = import_report(vec!["OSC port".to_string(), "MIDI input".to_string()]);
    assert_eq!(r.message, "Imported settings: 2 changed (OSC port, MIDI input).");
    assert_eq!(import_report(vec![]).message, "Settings imported \u{2014} nothing changed.");
    assert_eq!(toggle_action(true, false), ServiceAction::Start);
    assert_eq!(toggle_action(false, true), ServiceAction::Stop);
    assert_eq!(toggle_action(true, true), ServiceAction::Keep);
    assert_eq!(osc_action(true, true, 9000), ServiceAction::Start);
    assert_eq!(osc_action(false, false, 9000), ServiceAction::Keep);
    assert_eq!(network_action(true, true), ServiceAction::UpdatePin);
}

#[test]
fn defaults_of_settings_and_files() {
    let s = Settings::default();
    assert_eq!(s.osc_port, 9000);
    assert_eq!(s.stage_network_port, 1426);
    assert_eq!(s.default_transition, Transition::Cut);
    assert!(s.stage_network_pin.is_empty());
    assert_eq!(Library::default().schema_version, LIBRARY_SCHEMA_VERSION);
    assert_eq!(TemplateStore::default().schema_version, SCHEMA_VERSION);
    assert!(!Session::default().clean_shutdown);
    assert_eq!(SlidePositioning::default().v_align, "center");
    assert!(matches!(Background::default(), Background::Solid { ref color } if color == "#123a5c"));
    assert_eq!(transition_value(Transition::Fade), "fade");
}

#[test]
fn playlist_navigation() {
    let slides = vec![slide("a"), slide("b"), slide("c")];
    assert_eq!(find_slide(&slides, "b").unwrap().id, "b");
    assert!(find_slide(&slides, "z").is_none());
    assert_eq!(next_slide(&slides, "a").unwrap().id, "b");
    assert!(next_slide(&slides, "c").is_none());
    let live = Some("a".to_string());
    assert_eq!(on_deck(&slides, &Some("c".to_string()), &live).unwrap().id, "c");
    assert_eq!(on_deck(&slides, &Some("a".to_string()), &live).unwrap().id, "b");
    assert_eq!(on_deck(&slides, &None, &live).unwrap().id, "b");
    assert!(on_deck(&slides, &None, &None).is_none());
}

#[test]
fn advancing_through_the_playlist() {
    let slides = vec![slide("a"), slide("b"), slide("c")];
    assert_eq!(advance_target(&vec![], &None, 1), Advance::Empty);
    assert_eq!(advance_target(&slides, &None, 1), Advance::To(0));
    assert_eq!(advance_target(&slides, &None, -1), Advance::To(2));
    assert_eq!(advance_target(&slides, &Some("b".to_string()), 1), Advance::To(2));
    assert_eq!(advance_target(&slides, &Some("c".to_string()), 1), Advance::AtEdge);
    assert_eq!(advance_target(&slides, &Some("a".to_string()), -1), Advance::AtEdge);
    assert_eq!(advance_target(&slides, &Some("gone".to_string()), 1), Advance::To(1));
}

#[test]
fn presets_cover_the_standard_services() {
    let p = default_presets();
    let ids: Vec<&str> = p.iter().map(|x| x.id.as_str()).collect();
    assert_eq!(ids, vec!["sunday-morning", "midweek", "youth", "blank"]);
    assert_eq!(p[0].playlist_items.len(), 6);
    assert_eq!(p[0].playlist_items[1].reference_id.as_deref(), Some("amazing-grace"));
    assert_eq!(p[2].playlist_items.len(), 5);
    assert!(p[3].playlist_items.is_empty());
    assert_eq!(p[1].default_aspect, "16:9");
}
