use makepresent::outro::{exit_video, quit_plan, QuitPlan};
use makepresent::audio::playback_position;
use makepresent::logging::{format_line, needs_rotation, parse_entry, recent, rotation, Level};
use makepresent::media::{
    background_for, background_media, cached_name, extension_of, file_extension, import_kind, to_asset, MediaKind,
    MediaRef,
};
use makepresent::network::{content_type, next_client_id, pin_digest, pin_matches, sha256_hex};
use makepresent::project::Background;

#[test]
fn classifies_media_types() {
    assert_eq!(MediaKind::from_extension("x.PNG"), Some(MediaKind::Image));
    assert_eq!(MediaKind::from_extension("x.mp4"), Some(MediaKind::Video));
    assert_eq!(MediaKind::from_extension("x.WEBM"), Some(MediaKind::Video));
    assert_eq!(MediaKind::from_extension("x.txt"), None);
    assert_eq!(MediaKind::from_extension("noext"), None);
}

#[test]
fn extensions_follow_path_rules() {
    assert_eq!(file_extension("a.b.c").as_deref(), Some("c"));
    assert_eq!(file_extension(".bashrc"), None);
    assert_eq!(file_extension("x.").as_deref(), Some(""));
    assert_eq!(file_extension(".."), None);
    assert_eq!(extension_of("Photo.JPG"), "jpg");
    assert_eq!(extension_of("notes"), "");
}

#[test]
fn rejects_unknown_types() {
    let err = import_kind("notes.txt").unwrap_err();
    assert!(err.contains("unsupported media type"));
    assert_eq!(err, "unsupported media type: \"txt\"");
    assert_eq!(import_kind("a.Mov").unwrap(), MediaKind::Video);
}

#[test]
fn backgrounds_and_assets() {
    let m = MediaRef {
        kind: MediaKind::Video,
        path: "/m/h.mp4".to_string(),
        hash: "h".to_string(),
        thumb: "/t/h.jpg".to_string(),
        duration_ms: Some(1500),
    };
    let bg = background_for(m);
    let back = background_media(&bg).unwrap();
    assert_eq!(back.kind, MediaKind::Video);
    assert_eq!(back.duration_ms, Some(1500));
    assert_eq!(back.hash, "h");
    assert!(background_media(&Background::default()).is_none());
    let asset = to_asset(bg, "clip.mp4");
    assert_eq!(asset.kind, "video");
    assert_eq!(asset.hash, "h");
    assert_eq!(asset.file_name, "clip.mp4");
    let plain = to_asset(Background::default(), "x");
    assert_eq!((plain.kind.as_str(), plain.hash.as_str()), ("image", ""));
    assert_eq!(cached_name("abc", "png"), "abc.png");
    assert_eq!(MediaKind::Image.label(), "image");
}

#[test]
fn log_lines_round_trip() {
    let line = format_line("2024-01-01T00:00:00Z", Level::Warn, "disk almost full");
    assert_eq!(line, "2024-01-01T00:00:00Z WARN disk almost full");
    let e = parse_entry(&line).unwrap();
    assert_eq!((e.at.as_str(), e.level.as_str(), e.message.as_str()), ("2024-01-01T00:00:00Z", "WARN", "disk almost full"));
    let short = parse_entry("t INFO").unwrap();
    assert_eq!(short.message, "");
    assert!(parse_entry("nospace").is_none());
    assert_eq!(Level::Error.as_str(), "ERROR");
}

#[test]
fn recent_is_newest_first() {
    let lines: Vec<String> = (1..=5).map(|i| format!("t{i} INFO entry {i}")).collect();
    let r = recent(&lines, 3);
    let msgs: Vec<&str> = r.iter().map(|e| e.message.as_str()).collect();
    assert_eq!(msgs, vec!["entry 5", "entry 4", "entry 3"]);
    assert_eq!(recent(&lines, 0).len(), 0);
    assert_eq!(recent(&lines, 99).len(), 5);
}

#[test]
fn rotates_after_cap() {
    assert!(!needs_rotation(7999));
    assert!(needs_rotation(8000));
    assert_eq!(rotation(8000), (4000, 4000));
    assert_eq!(rotation(10), (0, 10));
}

#[test]
fn pin_digest_differs_per_pin_and_constant_time_shape() {
    assert_ne!(pin_digest("1234"), pin_digest("5678"));
    assert_eq!(pin_digest("aaaa"), pin_digest("aaaa"));
    assert_eq!(pin_digest("").len(), 32);
    assert_eq!(pin_digest("abc")[0], 0xba);
}

#[test]
fn stage_network_rules() {
    assert!(pin_matches("", None));
    assert!(pin_matches("1234", Some("1234")));
    assert!(!pin_matches("1234", Some("4321")));
    assert!(!pin_matches("1234", None));
    assert_eq!(content_type("a/b/photo.JPEG"), "image/jpeg");
    assert_eq!(content_type("clip.mov"), "video/quicktime");
    assert_eq!(content_type("index"), "application/octet-stream");
    assert_eq!(next_client_id(&vec![]), 1);
    assert_eq!(next_client_id(&vec![3, 9, 4]), 10);
}

#[test]
fn playback_position_saturates() {
    assert_eq!(playback_position(10, None), 10);
    assert_eq!(playback_position(10, Some(5)), 15);
    assert_eq!(playback_position(u64::MAX, Some(5)), u64::MAX);
}

#[test]
fn the_exit_animation_plays_only_with_a_file_and_a_window() {
    assert_eq!(exit_video(&Some("  /v/outro.mp4 ".to_string())), "/v/outro.mp4");
    assert_eq!(exit_video(&None), "");
    assert_eq!(quit_plan("/v/outro.mp4", true, true, false), QuitPlan::PlayOutro);
    assert_eq!(quit_plan("/v/outro.mp4", true, false, true), QuitPlan::PlayOutro);
    assert_eq!(quit_plan("/v/outro.mp4", true, false, false), QuitPlan::Instant { missing_video: false });
    assert_eq!(quit_plan("/v/outro.mp4", false, true, true), QuitPlan::Instant { missing_video: true });
    assert_eq!(quit_plan("", false, true, true), QuitPlan::Instant { missing_video: false });
}

#[test]
fn content_hash_is_lower_case_hex_sha256() {
    assert_eq!(sha256_hex(b"abc"), "ba7816bf8f01cfea414140de5dae2223b00361a396177a9cb410ff61f20015ad");
    assert_eq!(sha256_hex(b""), "e3b0c44298fc1c149afbf4c8996fb92427ae41e4649b934ca495991b7852b855");
}
