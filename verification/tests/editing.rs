use makepresent::commands::LibrarySlideInput;
use makepresent::displays::{
    check_display_index, default_output_display, display_name, output_placement, stage_toggle, DisplayInfo, Placement,
    StageToggle,
};
use makepresent::library_edit::{
    delete_song, migrate_library, new_library_song, new_library_song_with_ids, seed_library, seed_library_with_ids,
    set_arrangement, song_position,
};
use makepresent::midi::{message_view, MidiKind, ParsedMidi};
use makepresent::playlist::{
    add_song_slides, append_slide, auto_advance_step, check_auto_advance, delete_slide_from, go_live, new_slide,
    reorder_slide_in, reorder_slides_by, song_slides, update_slide_in, AutoAdvance,
};
use makepresent::project::{Background, Library, LibrarySlide, LibrarySong, Slide, LIBRARY_SCHEMA_VERSION};
use makepresent::stage_message::{check_overlay, check_stage_message, stage_message_expired};

fn slide(id: &str) -> Slide {
    Slide {
        id: id.to_string(),
        library_id: None,
        library_slide_id: None,
        title: format!("title {id}"),
        body: String::new(),
        background: Background::default(),
        auto_advance_secs: None,
    }
}

fn ids(slides: &[Slide]) -> Vec<&str> {
    slides.iter().map(|s| s.id.as_str()).collect()
}

fn has_block(song: &LibrarySong, key: &str) -> bool {
    song.blocks.iter().any(|(k, _)| k == key)
}

#[test]
fn seed_library_has_blocks_and_arrangement() {
    let lib = seed_library();
    assert_eq!(lib.schema_version, LIBRARY_SCHEMA_VERSION);
    for song in &lib.songs {
        assert!(!song.blocks.is_empty(), "song {} should have blocks", song.title);
        assert!(!song.arrangement.is_empty(), "song {} should have arrangement", song.title);
        assert!(song.slides.is_none(), "new seed should not have deprecated slides");
        for key in &song.arrangement {
            assert!(has_block(song, key), "missing block {} in {}", key, song.title);
        }
    }
    let ag = lib.songs.iter().find(|s| s.title == "Amazing Grace").unwrap();
    assert_eq!(ag.arrangement, vec!["Verse 1".to_string(), "Chorus".to_string()]);
    assert_eq!(ag.blocks.len(), 2);
    let flat = ag.flattened_slides();
    assert_eq!(flat.len(), 2);
}

#[test]
fn arrangement_duplicate_preserves_repeats() {
    let mut song = seed_library().songs.into_iter().find(|s| s.title == "Amazing Grace").unwrap();
    let mut new_arr = song.arrangement.clone();
    new_arr.push("Chorus".to_string());
    song.arrangement = new_arr.clone();
    let flat = song.flattened_slides();
    assert_eq!(flat.len(), 3);
    assert_eq!(flat[0].title, "Verse 1");
    assert_eq!(flat[1].title, "Chorus");
    assert_eq!(flat[2].title, "Chorus");
}

#[test]
fn seed_uses_the_given_ids() {
    let ids: Vec<String> = (0..6).map(|i| format!("id{i}")).collect();
    let lib = seed_library_with_ids(ids);
    assert_eq!(lib.songs[0].id, "id4");
    assert_eq!(lib.songs[1].id, "id5");
    assert_eq!(lib.songs[0].blocks[1].1.id, "id1");
    assert_eq!(lib.songs[1].title, "Great Is Thy Faithfulness");
    assert!(matches!(&lib.songs[1].default_background, Background::Solid { color } if color == "#0f2b4a"));
    assert!(lib.songs[0].blocks[0].1.body.starts_with("Amazing grace, how sweet the sound\n"));
}

#[test]
fn adding_and_selecting_slides() {
    let s = new_slide("n1".to_string(), None, None);
    assert_eq!(s.title, "New Slide");
    assert_eq!(s.body, "");
    assert!(matches!(&s.background, Background::Solid { color } if color == "#123a5c"));
    let mut slides = vec![slide("a")];
    let mut selected = None;
    append_slide(&mut slides, &mut selected, new_slide("n2".to_string(), Some("T".to_string()), Some("B".to_string())));
    assert_eq!(ids(&slides), vec!["a", "n2"]);
    assert_eq!(selected.as_deref(), Some("n2"));
    assert_eq!(slides[1].title, "T");
    assert_eq!(slides[1].body, "B");
}

#[test]
fn updating_a_slide() {
    assert!(check_auto_advance(Some(Some(0))).is_err());
    assert!(check_auto_advance(Some(Some(86401))).is_err());
    assert!(check_auto_advance(Some(Some(86400))).is_ok());
    assert!(check_auto_advance(Some(None)).is_ok());

    let mut slides = vec![slide("a"), slide("b")];
    let e = update_slide_in(&mut slides, "b", None, None, None, Some(Some(0))).unwrap_err();
    assert_eq!(e, "auto-advance must be between 1 and 86400 seconds");
    let e = update_slide_in(&mut slides, "zz", None, None, None, None).unwrap_err();
    assert_eq!(e, "slide zz not found");
    update_slide_in(&mut slides, "b", Some("New".to_string()), None, None, Some(Some(30))).unwrap();
    assert_eq!(slides[1].title, "New");
    assert_eq!(slides[1].auto_advance_secs, Some(30));
    update_slide_in(&mut slides, "b", None, None, None, Some(None)).unwrap();
    assert_eq!(slides[1].auto_advance_secs, None);
    let e = update_slide_in(
        &mut slides,
        "b",
        Some("Kept".to_string()),
        None,
        Some(Background::Solid { color: "  ".to_string() }),
        None,
    )
    .unwrap_err();
    assert_eq!(e, "background color must not be empty");
    assert_eq!(slides[1].title, "Kept");
    assert!(matches!(&slides[1].background, Background::Solid { color } if color == "#123a5c"));
}

#[test]
fn deleting_slides_clears_live() {
    let mut slides = vec![slide("a"), slide("b"), slide("a")];
    let mut live = Some("a".to_string());
    assert_eq!(delete_slide_from(&mut slides, &mut live, "x").unwrap_err(), "slide x not found");
    delete_slide_from(&mut slides, &mut live, "a").unwrap();
    assert_eq!(ids(&slides), vec!["b"]);
    assert_eq!(live, None);
    let mut live = Some("b".to_string());
    let mut more = vec![slide("b"), slide("c")];
    delete_slide_from(&mut more, &mut live, "c").unwrap();
    assert_eq!(live.as_deref(), Some("b"));
}

#[test]
fn moving_one_slide_clamps_to_the_end() {
    let mut slides = vec![slide("a"), slide("b"), slide("c")];
    reorder_slide_in(&mut slides, "a", 10).unwrap();
    assert_eq!(ids(&slides), vec!["b", "c", "a"]);
    reorder_slide_in(&mut slides, "a", 0).unwrap();
    assert_eq!(ids(&slides), vec!["a", "b", "c"]);
    assert!(reorder_slide_in(&mut slides, "q", 0).is_err());
}

#[test]
fn reordering_the_whole_playlist() {
    let order = |v: &[&str]| v.iter().map(|s| s.to_string()).collect::<Vec<String>>();
    let mut slides = vec![slide("a"), slide("b"), slide("c")];
    reorder_slides_by(&mut slides, &order(&["c", "a", "b"])).unwrap();
    assert_eq!(ids(&slides), vec!["c", "a", "b"]);

    let e = reorder_slides_by(&mut slides, &order(&["c", "a"])).unwrap_err();
    assert_eq!(e, "ordered_ids length 2 does not match slides length 3");
    assert_eq!(slides.len(), 3);

    let e = reorder_slides_by(&mut slides, &order(&["c", "c", "a"])).unwrap_err();
    assert_eq!(e, "slide c not found");
    assert!(slides.is_empty());

    let mut dup = vec![slide("a"), slide("a")];
    let e = reorder_slides_by(&mut dup, &order(&["a", "b"])).unwrap_err();
    assert_eq!(e, "slide b not found");
}

#[test]
fn going_live_and_auto_advance() {
    let mut slides = vec![slide("a"), slide("b")];
    slides[0].auto_advance_secs = Some(5);
    let (mut live, mut selected, mut text, mut bg) = (None, None, false, false);
    let (title, secs) = go_live(&slides, "a", &mut live, &mut selected, &mut text, &mut bg).unwrap();
    assert_eq!(title, "title a");
    assert_eq!(secs, Some(5));
    assert_eq!(live.as_deref(), Some("a"));
    assert_eq!(selected.as_deref(), Some("a"));
    assert!(text && bg);
    assert!(go_live(&slides, "zz", &mut live, &mut selected, &mut text, &mut bg).is_err());

    assert!(matches!(auto_advance_step(3, 3, &live, "a", &slides, 5), AutoAdvance::Next(id) if id == "b"));
    assert!(matches!(auto_advance_step(2, 3, &live, "a", &slides, 5), AutoAdvance::Stale));
    assert!(matches!(auto_advance_step(3, 3, &live, "a", &slides, 6), AutoAdvance::Stale));
    slides[1].auto_advance_secs = Some(5);
    let live_b = Some("b".to_string());
    assert!(matches!(auto_advance_step(1, 1, &live_b, "b", &slides, 5), AutoAdvance::AtEnd));
}

fn song_with_blocks() -> LibrarySong {
    let block = |key: &str, body: &str| {
        (
            key.to_string(),
            LibrarySlide {
                id: format!("id-{key}"),
                title: key.to_string(),
                body: body.to_string(),
                positioning: None,
                group_id: None,
                group_label: None,
            },
        )
    };
    LibrarySong {
        id: "song".to_string(),
        title: "Song".to_string(),
        default_background: Background::Solid { color: "#000000".to_string() },
        blocks: vec![block("Verse 1", "v"), block("Chorus", "c")],
        arrangement: vec!["Verse 1".to_string(), "Chorus".to_string(), "Chorus".to_string()],
        slides: None,
    }
}

#[test]
fn library_song_becomes_playlist_slides() {
    let song = song_with_blocks();
    let made = song_slides(&song, vec!["p1".to_string(), "p2".to_string(), "p3".to_string()]);
    assert_eq!(ids(&made), vec!["p1", "p2", "p3"]);
    assert_eq!(made[2].title, "Chorus");
    assert_eq!(made[2].body, "c");
    assert_eq!(made[0].library_id.as_deref(), Some("song"));
    assert_eq!(made[0].library_slide_id.as_deref(), Some("id-Verse 1"));
    assert!(matches!(&made[1].background, Background::Solid { color } if color == "#000000"));

    let mut slides = vec![slide("x")];
    add_song_slides(&mut slides, &song);
    assert_eq!(slides.len(), 4);
    assert_eq!(slides[0].id, "x");
    assert_eq!(slides[3].title, "Chorus");
    assert_ne!(slides[1].id, slides[2].id);
}

#[test]
fn editing_library_songs() {
    let mut songs = vec![song_with_blocks()];
    assert_eq!(song_position(&songs, "song"), Some(0));
    assert_eq!(song_position(&songs, "nope"), None);
    assert_eq!(set_arrangement(&mut songs, "song", vec![]).unwrap_err(), "arrangement must not be empty");
    assert_eq!(
        set_arrangement(&mut songs, "nope", vec!["Chorus".to_string()]).unwrap_err(),
        "library song nope not found"
    );
    assert_eq!(
        set_arrangement(&mut songs, "song", vec!["Chorus".to_string(), "Bridge".to_string()]).unwrap_err(),
        "block \"Bridge\" not found in song \"Song\""
    );
    set_arrangement(&mut songs, "song", vec!["Chorus".to_string()]).unwrap();
    assert_eq!(songs[0].arrangement, vec!["Chorus".to_string()]);
    assert!(delete_song(&mut songs, "nope").is_err());
    delete_song(&mut songs, "song").unwrap();
    assert!(songs.is_empty());
}

fn input(title: &str, body: &str) -> LibrarySlideInput {
    LibrarySlideInput { title: title.to_string(), body: body.to_string(), positioning: None, group_id: None, group_label: None }
}

#[test]
fn new_songs_from_the_editor() {
    let e = new_library_song("T".to_string(), None, None, Some(vec![])).unwrap_err();
    assert_eq!(e, "no slides provided");

    let song = new_library_song_with_ids(
        "T".to_string(),
        None,
        None,
        Some(vec![input("Chorus", "one"), input("Chorus", "two"), input("", "three"), input("Chorus", "one")]),
        "sid".to_string(),
        vec!["b1".into(), "b2".into(), "b3".into(), "b4".into()],
    )
    .unwrap();
    assert_eq!(song.arrangement, vec!["Chorus", "Chorus (2)", "Verse 3", "Chorus"]);
    assert_eq!(song.blocks.len(), 3);
    assert_eq!(song.blocks[1].1.group_id.as_deref(), Some("block-2"));
    assert_eq!(song.blocks[2].1.group_label.as_deref(), Some("Verse 3"));
    assert_eq!(song.blocks[2].1.id, "b3");
    assert!(matches!(&song.default_background, Background::Solid { color } if color == "#123a5c"));

    let plain = new_library_song_with_ids("P".to_string(), Some("words".to_string()), None, None, "s".into(), vec!["only".into()])
        .unwrap();
    assert_eq!(plain.arrangement, vec!["Verse 1"]);
    assert_eq!(plain.blocks[0].1.body, "words");
    assert_eq!(plain.blocks[0].1.group_id.as_deref(), Some("verse-1"));
}

#[test]
fn migrating_a_loaded_library() {
    let old = LibrarySlide {
        id: "s".into(),
        title: "Verse 1".into(),
        body: "b".into(),
        positioning: None,
        group_id: None,
        group_label: None,
    };
    let v1 = LibrarySong {
        id: "x".into(),
        title: "X".into(),
        default_background: Background::default(),
        blocks: Vec::new(),
        arrangement: Vec::new(),
        slides: Some(vec![old]),
    };
    let mut lib = Library { schema_version: 1, songs: vec![v1, song_with_blocks()] };
    assert_eq!(migrate_library(&mut lib), (1, true));
    assert_eq!(lib.schema_version, LIBRARY_SCHEMA_VERSION);
    assert_eq!(lib.songs[0].arrangement, vec!["Verse 1"]);
    assert_eq!(lib.songs[1].arrangement.len(), 3);
    assert_eq!(migrate_library(&mut lib), (0, false));
    let mut older = Library { schema_version: 1, songs: vec![] };
    assert_eq!(migrate_library(&mut older), (0, true));
    assert_eq!(older.schema_version, LIBRARY_SCHEMA_VERSION);
}

#[test]
fn stage_messages_and_overlays() {
    assert_eq!(check_stage_message("  hi  ", Some(0)).unwrap(), ("hi".to_string(), None));
    assert_eq!(check_stage_message("hi", Some(60)).unwrap(), ("hi".to_string(), Some(60)));
    assert_eq!(check_stage_message("   ", None).unwrap_err(), "stage message must not be empty");
    assert_eq!(check_stage_message(&"x".repeat(501), None).unwrap_err(), "stage message must be 500 characters or fewer");
    assert!(check_stage_message(&"x".repeat(500), None).is_ok());
    assert!(check_stage_message(&"é".repeat(251), None).is_err());
    assert_eq!(check_stage_message("hi", Some(3601)).unwrap_err(), "duration must be between 1 and 3600 seconds");
    let shown = Some("hi".to_string());
    assert!(stage_message_expired(4, 4, &shown, "hi"));
    assert!(!stage_message_expired(4, 5, &shown, "hi"));
    assert!(!stage_message_expired(4, 4, &shown, "other"));
    assert_eq!(check_overlay("  ", false).unwrap_err(), "overlay must have text or image");
    assert_eq!(check_overlay("  ", true).unwrap(), "");
    assert_eq!(check_overlay(&"y".repeat(501), true).unwrap_err(), "overlay text must be 500 characters or fewer");
}

fn display(w: u32, h: u32, current: bool) -> DisplayInfo {
    DisplayInfo { index: 0, name: String::new(), width: w, height: h, x: 0, y: 0, primary: current, current }
}

#[test]
fn output_defaults_to_the_largest_other_display() {
    assert_eq!(default_output_display(&vec![]), 0);
    assert_eq!(default_output_display(&vec![display(1920, 1080, true)]), 0);
    assert_eq!(default_output_display(&vec![display(3840, 2160, true), display(1280, 720, false)]), 1);
    assert_eq!(
        default_output_display(&vec![display(1280, 720, false), display(1920, 1080, true), display(1280, 720, false)]),
        2
    );
    assert!(check_display_index(1, 2).is_ok());
    assert_eq!(check_display_index(2, 2).unwrap_err(), "invalid display index 2 (only 2 monitors)");
}

#[test]
fn output_is_a_centred_preview_on_the_editor_display() {
    let own = display(1920, 1080, true);
    assert_eq!(
        output_placement(&own, 2),
        Placement { width: 1382, height: 778, x: 269, y: 151, decorated: true }
    );
    let mut projector = display(1280, 720, false);
    projector.x = 1920;
    assert_eq!(
        output_placement(&projector, 2),
        Placement { width: 1280, height: 720, x: 1920, y: 0, decorated: false }
    );
    let lone = display(1280, 720, false);
    assert_eq!(
        output_placement(&lone, 1),
        Placement { width: 922, height: 518, x: 179, y: 101, decorated: true }
    );
}

#[test]
fn stage_toggle_shows_on_the_chosen_or_default_display() {
    assert_eq!(stage_toggle(true, Some(1), Some(0)), Ok(StageToggle::Hide));
    assert_eq!(stage_toggle(false, Some(1), Some(0)), Ok(StageToggle::Show { index: 1, remember: false }));
    assert_eq!(stage_toggle(false, None, Some(2)), Ok(StageToggle::Show { index: 2, remember: true }));
    assert_eq!(stage_toggle(false, None, None), Err("no display available".to_string()));
}

#[test]
fn display_names_come_from_the_listing() {
    let mut a = display(1920, 1080, true);
    a.name = "Built-in".to_string();
    let mut b = display(1280, 720, false);
    b.index = 1;
    let ds = vec![a, b];
    assert_eq!(display_name(&ds, 0).as_deref(), Some("Built-in"));
    assert_eq!(display_name(&ds, 1), None);
    assert_eq!(display_name(&ds, 5), None);
}

#[test]
fn midi_monitor_view() {
    let p = ParsedMidi { channel: 1, kind: MidiKind::NoteOn, data1: 60, data2: Some(100) };
    let v = message_view(&p);
    assert_eq!(v.kind, "note_on");
    assert_eq!(v.data, "0x90 3C 64");
    assert_eq!(v.describe, "Note On C4 (note 60)");
    assert_eq!(v.data1, Some(60));
    assert_eq!(v.data2, Some(100));
}
