use makepresent::bibles::{apply_import, bible_list, copy_books, stage_network_info};
use makepresent::commands::{
    check_look_exists, check_osc_port, check_pin, check_stage_port, import_plan, jump_target, map_look, midi_switch,
    recovery_notice, ServiceAction,
    repoint_deleted_look, LookTarget,
};
use makepresent::media::referenced_media;
use makepresent::presets::{
    blank_preset, first_selection, parse_transition, preset_index, preset_slides, project_name, theme_effect, welcome_slide,
    ThemeEffect,
};
use makepresent::pro_xml::parse_song_file;
use makepresent::project::{
    default_presets, Background, LibrarySong, PlaylistTemplate, Settings, Slide, TemplateItem, Transition,
};
use makepresent::scripture::ScriptureIndex;
use makepresent::scripture_books::{RawBook, RawChapter, RawVerse};
use makepresent::song_import::SongFormat;
use makepresent::templates::{
    add_trigger_to, check_template_name, delete_template_from, delete_trigger_from, load_template_into,
    save_template_into, set_trigger_enabled_in, template_index, template_items,
};
use makepresent::triggers::{Trigger, TriggerAction};

fn slide(id: &str) -> Slide {
    Slide {
        id: id.to_string(),
        library_id: Some("lib".to_string()),
        library_slide_id: None,
        title: format!("title {id}"),
        body: format!("body {id}"),
        background: Background::Image { path: "p".into(), hash: format!("h{id}"), thumb: "t".into() },
        auto_advance_secs: Some(7),
    }
}

#[test]
fn templates_save_load_and_delete() {
    assert_eq!(check_template_name("  Sunday  ").unwrap(), "Sunday");
    assert_eq!(check_template_name(" ").unwrap_err(), "template name must not be empty");
    assert_eq!(check_template_name(&"n".repeat(81)).unwrap_err(), "template name must be 80 characters or fewer");

    let slides = vec![slide("a"), slide("b")];
    let items = template_items(&slides);
    assert_eq!(items.len(), 2);
    assert_eq!(items[1].title, "title b");
    assert_eq!(items[1].library_id.as_deref(), Some("lib"));
    assert_eq!(items[1].auto_advance_secs, Some(7));

    let mut store: Vec<PlaylistTemplate> = Vec::new();
    assert_eq!(save_template_into(&mut store, "Sunday".into(), items, "t1".into(), "now".into()), 0);
    let again = template_items(&vec![slide("c")]);
    assert_eq!(save_template_into(&mut store, "SUNDAY".into(), again, "t2".into(), "later".into()), 0);
    assert_eq!(store.len(), 1);
    assert_eq!(store[0].id, "t1");
    assert_eq!(store[0].name, "Sunday");
    assert_eq!(store[0].created_at, "later");
    assert_eq!(store[0].items.len(), 1);
    assert_eq!(template_index(&store, "t1"), Some(0));

    let mut playlist = vec![slide("old")];
    let (mut live, mut selected, mut text, mut bg) = (Some("old".to_string()), None, false, false);
    load_template_into(&store[0].items, vec!["n1".into()], &mut playlist, &mut live, &mut selected, &mut text, &mut bg);
    assert_eq!(playlist.len(), 1);
    assert_eq!(playlist[0].id, "n1");
    assert_eq!(playlist[0].title, "title c");
    assert_eq!(live, None);
    assert_eq!(selected.as_deref(), Some("n1"));
    assert!(text && bg);

    assert_eq!(delete_template_from(&mut store, "zz").unwrap_err(), "template zz not found");
    delete_template_from(&mut store, "t1").unwrap();
    assert!(store.is_empty());
    let empty: Vec<TemplateItem> = Vec::new();
    load_template_into(&empty, vec![], &mut playlist, &mut live, &mut selected, &mut text, &mut bg);
    assert!(playlist.is_empty());
    assert_eq!(selected, None);
}

#[test]
fn trigger_mappings_are_edited_by_id() {
    let mut ms = Vec::new();
    add_trigger_to(&mut ms, Trigger::MidiNote { channel: 1, note: 60 }, TriggerAction::NextSlide, Some("go".into()));
    add_trigger_to(&mut ms, Trigger::MidiProgram { channel: 2, program: 3 }, TriggerAction::ClearOutput, None);
    assert_eq!(ms.len(), 2);
    assert!(ms[0].enabled);
    assert_eq!(ms[0].label.as_deref(), Some("go"));
    assert_ne!(ms[0].id, ms[1].id);
    let id = ms[1].id.clone();
    set_trigger_enabled_in(&mut ms, &id, false).unwrap();
    assert!(!ms[1].enabled);
    assert_eq!(set_trigger_enabled_in(&mut ms, "nope", true).unwrap_err(), "trigger nope not found");
    assert!(delete_trigger_from(&mut ms, "nope").is_err());
    delete_trigger_from(&mut ms, &id).unwrap();
    assert_eq!(ms.len(), 1);
}

fn book(name: &str, ch: &str, verses: &[(&str, &str)]) -> RawBook {
    RawBook {
        book: name.to_string(),
        chapters: vec![RawChapter {
            chapter: ch.to_string(),
            verses: verses.iter().map(|(n, t)| RawVerse { verse: n.to_string(), text: t.to_string() }).collect(),
        }],
    }
}

#[test]
fn imports_fold_into_index_and_persisted_books() {
    let mut none: Option<ScriptureIndex> = None;
    let mut persisted = Vec::new();
    let e = apply_import(&mut none, &mut persisted, vec![book("John", "3", &[("16", "x")])]).unwrap_err();
    assert_eq!(e, "scripture index not loaded yet — try again in a moment");
    assert!(persisted.is_empty());

    let mut idx = Some(ScriptureIndex::build(vec![book("John", "3", &[("16", "God so loved")])]));
    let before = idx.as_ref().unwrap().book_count();
    let res = apply_import(&mut idx, &mut persisted, vec![book("Jude", "1", &[("1", "a"), ("2", "b")])]).unwrap();
    assert_eq!(res.books, 1);
    assert_eq!(res.verses, 2);
    assert_eq!(res.total_books, before + 1);
    assert_eq!(persisted.len(), 1);
    assert_eq!(persisted[0].book, "Jude");

    let res = apply_import(
        &mut idx,
        &mut persisted,
        vec![book("John", "3", &[("16", "a")]), book("John", "3", &[("17", "b")])],
    )
    .unwrap();
    assert_eq!(res.books, 1);
    assert_eq!(res.verses, 2);

    let copy = copy_books(&persisted);
    assert_eq!(copy[0].chapters[0].verses[1].text, "b");
}

#[test]
fn bibles_are_listed() {
    let names: Vec<String> = vec!["John".into(), "Jude".into(), "John".into()];
    let l = bible_list(Some(66), &names);
    assert_eq!(l.len(), 2);
    assert_eq!(l[0].id, "kjv");
    assert_eq!(l[1].id, "imported");
    assert_eq!(l[1].book_count, 2);
    let l = bible_list(None, &Vec::new());
    assert_eq!(l.len(), 1);
    assert_eq!(l[0].book_count, 66);
    assert_eq!(bible_list(Some(5), &Vec::new())[0].book_count, 5);
}

#[test]
fn stage_network_urls() {
    let info = stage_network_info(&vec!["192.168.1.5".into()], 1426, true, "12");
    assert_eq!(info.bind_host, "0.0.0.0:1426");
    assert_eq!(info.urls, vec!["http://192.168.1.5:1426".to_string()]);
    let info = stage_network_info(&vec![], 80, false, "");
    assert_eq!(info.urls, vec!["http://127.0.0.1:80".to_string()]);
    assert!(!info.enabled);
}

#[test]
fn command_checks() {
    let slides = vec![slide("a"), slide("b")];
    assert_eq!(jump_target(&slides, 1).unwrap(), "b");
    assert_eq!(jump_target(&slides, 4).unwrap_err(), "trigger: jump to slide 5 — only 2 slides in the playlist");
    assert!(check_osc_port(0).is_err());
    assert!(check_osc_port(8000).is_ok());
    assert_eq!(check_stage_port(0).unwrap_err(), "Stage Network port must be between 1 and 65535");
    assert_eq!(check_pin(" 1234 ").unwrap(), "1234");
    assert_eq!(check_pin("1234567890123").unwrap_err(), "PIN must be 12 characters or fewer");
    assert!(recovery_notice(false, false, "P", None).is_none());
    let n = recovery_notice(true, false, "Sunday", Some("t".into())).unwrap();
    assert_eq!(n.kind, "recovered");
    assert_eq!(n.message, "Recovered project \"Sunday\" from the last autosave.");
    assert_eq!(n.at.as_deref(), Some("t"));
}

#[test]
fn startup_media_check_dedupes_by_hash() {
    let slides = vec![slide("a"), slide("b"), slide("a")];
    let song = LibrarySong {
        id: "s".into(),
        title: "S".into(),
        default_background: Background::Video { path: "v".into(), hash: "hb".into(), thumb: "vt".into(), duration_ms: Some(5) },
        blocks: vec![],
        arrangement: vec![],
        slides: None,
    };
    let song2 = LibrarySong {
        default_background: Background::Video { path: "w".into(), hash: "hv".into(), thumb: "wt".into(), duration_ms: None },
        ..song.clone()
    };
    let refs = referenced_media(&slides, &vec![song, song2]);
    let hashes: Vec<&str> = refs.iter().map(|m| m.hash.as_str()).collect();
    assert_eq!(hashes, vec!["ha", "hb", "hv"]);
    assert_eq!(refs[1].path, "p");
}

#[test]
fn projects_from_presets() {
    let presets = default_presets();
    assert!(preset_index(&presets, "no-such").is_none());
    let b = blank_preset();
    assert_eq!(b.name, "Custom");
    assert!(preset_slides(&b, vec![]).is_empty());
    let i = (0..presets.len()).find(|&i| !presets[i].playlist_items.is_empty() && presets[i].id != "blank").unwrap();
    assert_eq!(preset_index(&presets, &presets[i].id), Some(i));
    let p = &presets[i];
    let ids: Vec<String> = (0..p.playlist_items.len()).map(|k| format!("s{k}")).collect();
    let slides = preset_slides(p, ids);
    assert_eq!(slides.len(), p.playlist_items.len());
    assert_eq!(slides[0].title, p.playlist_items[0].title);
    assert_eq!(first_selection(&slides).as_deref(), Some("s0"));
    assert_eq!(first_selection(&vec![]), None);
    assert_eq!(project_name("  ", "Preset"), "Preset");
    assert_eq!(project_name(" Easter ", "Preset"), "Easter");
    assert_eq!(parse_transition(&Some("Dissolve".into())), Transition::Fade);
    assert_eq!(parse_transition(&Some("wipe".into())), Transition::Cut);
    assert_eq!(parse_transition(&None), Transition::Cut);
    assert_eq!(theme_effect(&Some("Classic Lower Third".into())), ThemeEffect::LowerThird);
    assert_eq!(theme_effect(&Some("Soft GRADIENT".into())), ThemeEffect::ShowBackground);
    assert_eq!(theme_effect(&None), ThemeEffect::Keep);
}

#[test]
fn song_files_dispatch_by_format() {
    let s = parse_song_file(SongFormat::ChordPro, "{title: T}\n[G]Line", "f.cho", "f").unwrap();
    assert_eq!(s.title, "T");
    let e = parse_song_file(SongFormat::ProPresenter, "", "f.pro", "f").unwrap_err();
    assert_eq!(e, "ProPresenter file is empty: f.pro");
    let s = parse_song_file(SongFormat::Text, "one\n\ntwo", "f.txt", "f").unwrap();
    assert_eq!(s.slides.len(), 2);
}

#[test]
fn looks_are_mapped_and_repointed() {
    let mut s = Settings::default();
    map_look(&mut s, LookTarget::Stage, Some("big".to_string()));
    map_look(&mut s, LookTarget::Ndi, Some("big".to_string()));
    map_look(&mut s, LookTarget::Output, Some("main".to_string()));
    assert_eq!(s.stage_look_id.as_deref(), Some("big"));
    repoint_deleted_look(&mut s, "big", &Some("main".to_string()));
    assert_eq!(s.stage_look_id.as_deref(), Some("main"));
    assert_eq!(s.ndi_look_id.as_deref(), Some("main"));
    assert_eq!(s.output_look_id.as_deref(), Some("main"));
    let ids = vec!["main".to_string()];
    assert!(check_look_exists(&ids, "main").is_ok());
    assert_eq!(check_look_exists(&ids, "gone").unwrap_err(), "look gone not found");
}

#[test]
fn midi_switches_on_only_with_a_device() {
    let mut s = Settings::default();
    assert_eq!(midi_switch(&mut s, true), Err("select a MIDI device first".to_string()));
    assert!(!s.midi_enabled);
    s.midi_device_id = Some("port-1".to_string());
    assert_eq!(midi_switch(&mut s, true), Ok(Some("port-1".to_string())));
    assert!(s.midi_enabled);
    assert_eq!(midi_switch(&mut s, false), Ok(None));
    assert!(!s.midi_enabled);
    assert_eq!(s.midi_device_id.as_deref(), Some("port-1"));
}

#[test]
fn a_new_project_opens_on_the_welcome_slide() {
    let s = welcome_slide("w1".to_string());
    assert_eq!(s.id, "w1");
    assert_eq!(s.title, "Welcome to MakePresent");
    assert_eq!(s.body, "This is the Phase 1 test slide.");
    assert!(s.library_id.is_none() && s.auto_advance_secs.is_none());
}

#[test]
fn applying_imported_settings_moves_windows_and_switches_services() {
    let mut s = Settings::default();
    s.output_display_index = Some(1);
    s.stage_visible = true;
    s.ndi_enabled = true;
    s.midi_enabled = true;
    s.osc_enabled = true;
    s.osc_port = 8000;
    s.stage_network_enabled = true;
    let p = import_plan(&s, true, Some(2), false, false, false, true);
    assert_eq!(p.move_output, Some(1));
    assert_eq!(p.move_stage, Some(2));
    assert_eq!(p.ndi, ServiceAction::Start);
    assert!(p.midi_without_device);
    assert_eq!(p.midi, ServiceAction::Keep);
    assert_eq!(p.osc, ServiceAction::Start);
    assert_eq!(p.network, ServiceAction::UpdatePin);
    s.midi_device_id = Some("port".to_string());
    s.stage_display_index = Some(0);
    let p = import_plan(&s, false, None, true, false, false, false);
    assert_eq!((p.move_output, p.move_stage), (None, Some(0)));
    assert_eq!((p.ndi, p.midi, p.network), (ServiceAction::Keep, ServiceAction::Start, ServiceAction::Start));
    assert!(!p.midi_without_device);
}
