use makepresent::project::{Background, LibrarySlide, LibrarySong};
use makepresent::song_import::{
    library_song_with_ids, looks_like_chordpro, looks_like_usr, parse_cho, parse_plain, parse_text_song, parse_usr,
    parsed_to_library_song, song_format, strip_chords, strip_xml_tags, ParsedSlide, ParsedSong, SongFormat,
};

fn has_block(song: &LibrarySong, key: &str) -> bool {
    song.blocks.iter().any(|(k, _)| k == key)
}

#[test]
fn cho_strips_chords_and_directives() {
    let content = "{title: Amazing Grace}\n{key: G}\n[G]Amazing [C]grace, how [G]sweet\nThat [D]saved\n\nVerse2 line\n";
    let song = parse_cho(content, "test.cho", "test").unwrap();
    assert_eq!(song.title, "Amazing Grace");
    assert_eq!(song.slides.len(), 2);
    assert!(!song.slides[0].body.contains('['));
    assert!(song.slides[0].body.contains("Amazing grace"));
    assert_eq!(song.slides[0].body, "Amazing grace, how sweet\nThat saved");
    assert_eq!(song.slides[1].title, "Verse 2");
}

#[test]
fn cho_to_library_blocks() {
    let parsed = parse_cho("{title: Test}\nVerse 1 line\n\nChorus line\n\nVerse 1 line\n", "t.cho", "t").unwrap();
    let lib = parsed_to_library_song(parsed);
    assert!(has_block(&lib, "Verse 1") || has_block(&lib, "Verse 1 (2)"));
    assert_eq!(lib.arrangement.len(), 3);
}

#[test]
fn cho_rejects_empty() {
    assert!(parse_cho("", "x.cho", "x").is_err());
    assert_eq!(parse_cho("  \n", "x.cho", "x").unwrap_err(), "ChordPro file is empty: x.cho");
}

#[test]
fn usr_parses_title_and_verses() {
    let txt = "Title: Holy Holy\nAuthor: Someone\n\nVerse 1\nHoly holy holy\nLord God almighty\n\nChorus\nHoly is the Lord\n";
    let song = parse_usr(txt, "t.usr", "t").unwrap();
    assert_eq!(song.title, "Holy Holy");
    assert!(song.slides.len() >= 2);
    assert_eq!(song.slides[0].title.to_lowercase(), "verse 1");
    assert_eq!(song.slides[0].body, "Holy holy holy\nLord God almighty");
    assert_eq!(song.slides[1].title, "Chorus");
}

#[test]
fn usr_without_title_guesses_one_and_rejects_empty() {
    let song = parse_usr("Amazing grace\nhow sweet the sound\n", "a.usr", "a").unwrap();
    assert_eq!(song.title, "Amazing grace");
    assert_eq!(song.slides[0].title, "Verse 1");
    assert!(parse_usr("   ", "e.usr", "e").is_err());
    let err = parse_usr("Title: X\nCCLI 123\n", "n.usr", "n").unwrap_err();
    assert!(err.starts_with("USR file contains no extractable verses (n.usr)."));
}

#[test]
fn plain_text_paragraphs_become_verses() {
    let song = parse_plain("one\ntwo\n\n\nthree\n", "p.txt", "p").unwrap();
    assert_eq!(song.title, "p");
    assert_eq!(song.slides.len(), 2);
    assert_eq!(song.slides[0].body, "one\ntwo");
    assert_eq!(song.slides[1].title, "Verse 2");
    assert_eq!(parse_plain(" ", "p.txt", "p").unwrap_err(), "file is empty: p.txt");
}

#[test]
fn text_files_are_sniffed() {
    assert!(looks_like_usr("Title: X\nfoo"));
    assert!(looks_like_usr("CCLI Song # 1"));
    assert!(!looks_like_usr("just words"));
    assert!(looks_like_chordpro("{t: X}"));
    assert!(looks_like_chordpro("[G]la"));
    assert!(!looks_like_chordpro("la la"));
    let s = parse_text_song("[G]la la\n", "x.txt", "x").unwrap();
    assert_eq!(s.slides[0].body, "la la");
    let s = parse_text_song("plain\n", "x.txt", "x").unwrap();
    assert_eq!(s.title, "x");
}

#[test]
fn formats_by_extension() {
    assert_eq!(song_format("PRO").unwrap(), SongFormat::ProPresenter);
    assert_eq!(song_format("chordpro").unwrap(), SongFormat::ChordPro);
    assert_eq!(song_format("usr").unwrap(), SongFormat::Usr);
    assert_eq!(song_format("txt").unwrap(), SongFormat::Text);
    let err = song_format("doc").unwrap_err();
    assert!(err.starts_with("unsupported file type \".doc\""));
}

#[test]
fn chord_and_tag_stripping() {
    assert_eq!(strip_chords("[G]Amazing [C]grace"), "Amazing grace");
    assert_eq!(strip_chords("a]b[c"), "ab");
    assert_eq!(strip_xml_tags("<a>x</a><b/>y"), "xy");
}

#[test]
fn library_song_dedupes_blocks_by_body() {
    let parsed = ParsedSong {
        title: "T".to_string(),
        slides: vec![
            ParsedSlide { title: "".to_string(), body: "a".to_string() },
            ParsedSlide { title: "Chorus".to_string(), body: "c".to_string() },
            ParsedSlide { title: "Chorus".to_string(), body: "c".to_string() },
            ParsedSlide { title: "Chorus".to_string(), body: "d".to_string() },
        ],
    };
    let ids = vec!["i0".to_string(), "i1".to_string(), "i2".to_string(), "i3".to_string()];
    let song = library_song_with_ids(parsed, "song".to_string(), ids);
    assert_eq!(song.id, "song");
    assert_eq!(song.arrangement, vec!["Verse 1", "Chorus", "Chorus", "Chorus (2)"]);
    let keys: Vec<&str> = song.blocks.iter().map(|(k, _)| k.as_str()).collect();
    assert_eq!(keys, vec!["Verse 1", "Chorus", "Chorus (2)"]);
    assert_eq!(song.blocks[2].1.id, "i3");
    assert_eq!(song.blocks[2].1.group_id.as_deref(), Some("verse-3"));
    assert_eq!(song.blocks[2].1.group_label.as_deref(), Some("Chorus (2)"));
    assert!(matches!(song.default_background, Background::Solid { .. }));
    let flat: Vec<&str> = song.flattened_slides().iter().map(|s| s.body.as_str()).collect();
    assert_eq!(flat, vec!["a", "c", "c", "d"]);
}

fn old_slide(id: &str, title: &str, body: &str, label: Option<&str>) -> LibrarySlide {
    LibrarySlide {
        id: id.to_string(),
        title: title.to_string(),
        body: body.to_string(),
        positioning: None,
        group_id: label.map(|l| l.to_lowercase()),
        group_label: label.map(|l| l.to_string()),
    }
}

fn v1_song(id: &str, title: &str, slides: Vec<LibrarySlide>) -> LibrarySong {
    LibrarySong {
        id: id.to_string(),
        title: title.to_string(),
        default_background: Background::Solid { color: "#1f3a2f".to_string() },
        blocks: Vec::new(),
        arrangement: Vec::new(),
        slides: Some(slides),
    }
}

#[test]
fn library_migration_preserves_amazing_grace() {
    let mut songs = vec![
        v1_song("test-id-1", "Amazing Grace", vec![
            old_slide("s1", "Verse 1", "Amazing grace, how sweet the sound\nThat saved a wretch like me", Some("Verse 1")),
            old_slide("s2", "Chorus", "Was grace that taught my heart to fear", Some("Chorus")),
        ]),
        v1_song("test-id-2", "Great Is Thy Faithfulness", vec![
            old_slide("s3", "Verse 1", "Great is Thy faithfulness", Some("Verse 1")),
            old_slide("s4", "Chorus", "Great is Thy faithfulness! Great is Thy faithfulness!", Some("Chorus")),
        ]),
    ];
    assert_eq!(songs[0].slides.as_ref().unwrap().len(), 2);
    assert!(songs[0].blocks.is_empty());
    let migrated0 = songs[0].migrate_if_needed();
    let migrated1 = songs[1].migrate_if_needed();
    assert!(migrated0);
    assert!(migrated1);
    assert_eq!(songs[0].blocks.len(), 2);
    assert_eq!(songs[0].arrangement, vec!["Verse 1".to_string(), "Chorus".to_string()]);
    assert!(songs[0].slides.is_none());
    let flat0 = songs[0].flattened_slides();
    assert_eq!(flat0.len(), 2);
    assert_eq!(flat0[0].title, "Verse 1");
    assert_eq!(flat0[1].title, "Chorus");
    let flat1 = songs[1].flattened_slides();
    assert_eq!(flat1.len(), 2);
    assert_eq!(songs[1].arrangement, vec!["Verse 1".to_string(), "Chorus".to_string()]);
}

#[test]
fn migration_numbers_clashing_keys_and_names_blank_slides() {
    let mut song = v1_song("x", "X", vec![
        old_slide("a", "Chorus", "one", None),
        old_slide("b", "Chorus", "two", None),
        old_slide("c", "Chorus", "one", None),
        old_slide("d", " ", "three", Some("Bridge")),
        old_slide("e", "", "four", None),
    ]);
    assert!(song.migrate_if_needed());
    assert_eq!(song.arrangement, vec!["Chorus", "Chorus (2)", "Chorus", "Bridge", "Verse 5"]);
    assert_eq!(song.blocks.len(), 4);
    assert!(!song.migrate_if_needed());
    let mut empty = v1_song("y", "Y", vec![]);
    assert!(!empty.migrate_if_needed());
    assert!(empty.slides.is_none());
}

#[test]
fn migration_lets_equal_slides_share_a_block() {
    let mut song = v1_song("z", "Z", vec![
        old_slide("x1", "Chorus", "x", None),
        old_slide("y1", "Chorus", "y", None),
        old_slide("x2", "Chorus", "x", None),
        old_slide("y2", "Chorus", "y", None),
    ]);
    assert!(song.migrate_if_needed());
    assert_eq!(song.arrangement, vec!["Chorus", "Chorus (2)", "Chorus", "Chorus (2)"]);
    assert_eq!(song.blocks.len(), 2);
    let flat: Vec<&str> = song.flattened_slides().iter().map(|s| s.body.as_str()).collect();
    assert_eq!(flat, vec!["x", "y", "x", "y"]);
}

#[test]
fn flattening_without_arrangement_sorts_by_title() {
    let song = LibrarySong {
        id: "s".to_string(),
        title: "S".to_string(),
        default_background: Background::default(),
        blocks: vec![
            ("b".to_string(), old_slide("1", "Verse 2", "v2", None)),
            ("a".to_string(), old_slide("2", "Chorus", "ch", None)),
            ("c".to_string(), old_slide("3", "Verse 1", "v1", None)),
        ],
        arrangement: Vec::new(),
        slides: None,
    };
    let titles: Vec<&str> = song.flattened_slides().iter().map(|s| s.title.as_str()).collect();
    assert_eq!(titles, vec!["Chorus", "Verse 1", "Verse 2"]);
    let mut dangling = song.clone();
    dangling.arrangement = vec!["missing".to_string()];
    assert_eq!(dangling.flattened_slides().len(), 3);
}

