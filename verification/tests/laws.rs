use makepresent::library_edit::new_library_song_with_ids;
use makepresent::commands::LibrarySlideInput;
use makepresent::logging::{format_line, parse_entry, Level};
use makepresent::network::pin_matches;
use makepresent::song_import::{library_song_with_ids, strip_chords, strip_xml_tags, ParsedSlide, ParsedSong};

#[test]
fn written_log_lines_read_back() {
    let line = format_line("2024-05-01T10:00:00Z", Level::Warn, "projector lost: retrying now");
    let e = parse_entry(&line).unwrap();
    assert_eq!(e.at, "2024-05-01T10:00:00Z");
    assert_eq!(e.level, "WARN");
    assert_eq!(e.message, "projector lost: retrying now");
}

#[test]
fn stripping_leaves_no_brackets() {
    let s = strip_chords("[G]Amazing [D/F#]grace [C");
    assert_eq!(s, "Amazing grace ");
    assert!(!s.contains('[') && !s.contains(']'));
    let t = strip_xml_tags("<b>bold</b> and <i>it <unclosed");
    assert_eq!(t, "bold and it ");
}

#[test]
fn pins_let_the_right_people_in() {
    assert!(pin_matches("", None));
    assert!(pin_matches("", Some("anything")));
    assert!(pin_matches("1234", Some("1234")));
    assert!(!pin_matches("1234", Some("4321")));
    assert!(!pin_matches("1234", None));
}

fn parsed(slides: &[(&str, &str)]) -> ParsedSong {
    ParsedSong {
        title: "T".to_string(),
        slides: slides.iter().map(|(t, b)| ParsedSlide { title: t.to_string(), body: b.to_string() }).collect(),
    }
}

#[test]
fn imported_songs_play_their_slides() {
    let p = parsed(&[("Verse 1", "a"), ("Chorus", "c"), ("Verse 1", "b"), ("", "d"), ("Chorus", "c")]);
    let bodies: Vec<String> = p.slides.iter().map(|s| s.body.clone()).collect();
    let ids: Vec<String> = (0..5).map(|i| format!("b{i}")).collect();
    let song = library_song_with_ids(p, "s".to_string(), ids);
    let played: Vec<String> = song.flattened_slides().iter().map(|s| s.body.clone()).collect();
    assert_eq!(played, bodies);
    assert_eq!(song.arrangement, vec!["Verse 1", "Chorus", "Verse 1 (2)", "Verse 4", "Chorus"]);
}

#[test]
fn editor_songs_play_what_was_entered() {
    let inputs: Vec<LibrarySlideInput> = [("A", "1"), ("A", "2"), ("A", "1"), ("A", "3")]
        .iter()
        .map(|(t, b)| LibrarySlideInput {
            title: t.to_string(),
            body: b.to_string(),
            positioning: None,
            group_id: None,
            group_label: None,
        })
        .collect();
    let ids: Vec<String> = (0..4).map(|i| format!("b{i}")).collect();
    let song = new_library_song_with_ids("S".to_string(), None, None, Some(inputs), "id".to_string(), ids).unwrap();
    let played: Vec<&str> = song.flattened_slides().iter().map(|s| s.body.as_str()).collect();
    assert_eq!(played, vec!["1", "2", "1", "3"]);
    assert_eq!(song.arrangement, vec!["A", "A (2)", "A", "A (3)"]);
}
