use makepresent::looks::{
    apply_style_patch, default_styles, delete_style, main_style, stage_style, upsert_style, upsert_style_with_id, LookStyle,
    StylePatch,
};
use makepresent::project::{Positioning, Settings, TextPosition};

fn empty_patch() -> StylePatch {
    StylePatch {
        name: None,
        title_size: None,
        body_size: None,
        title_font: None,
        body_font: None,
        text_color: None,
        show_background: None,
        text_position: None,
        positioning: None,
    }
}

fn look(id: &str, name: &str) -> LookStyle {
    main_style(id.to_string(), name.to_string())
}

#[test]
fn default_looks_are_main_and_stage() {
    let v = default_styles();
    assert_eq!(v.len(), 2);
    assert_eq!(v[0].name, "Main");
    assert_eq!((v[0].title_size, v[0].body_size, v[0].show_background), (72, 40, true));
    assert_eq!(v[1].name, "Stage");
    assert_eq!((v[1].title_size, v[1].body_size, v[1].show_background), (60, 56, false));
    assert_ne!(v[0].id, v[1].id);
    let s = stage_style("s".to_string());
    assert_eq!((s.title_font.as_str(), s.body_font.as_str()), ("sans-serif", "sans-serif"));
    assert_eq!(s.text_color, "#ffffff");
}

#[test]
fn patches_clamp_sizes_and_ignore_blank_text() {
    let mut l = look("a", "Main");
    let mut p = empty_patch();
    p.title_size = Some(8);
    p.body_size = Some(999);
    p.title_font = Some("  ".to_string());
    p.body_font = Some("Georgia".to_string());
    p.text_color = Some("#ff0000".to_string());
    p.show_background = Some(false);
    p.text_position = Some(TextPosition::Bottom);
    p.positioning = Some(Positioning::Absolute);
    apply_style_patch(&mut l, p);
    assert_eq!((l.title_size, l.body_size), (16, 300));
    assert_eq!(l.title_font, "sans-serif");
    assert_eq!(l.body_font, "Georgia");
    assert_eq!(l.text_color, "#ff0000");
    assert!(!l.show_background);
    assert_eq!(l.text_position, TextPosition::Bottom);
    assert_eq!(l.positioning, Positioning::Absolute);
    assert_eq!(l.name, "Main");
}

#[test]
fn upsert_updates_creates_or_refuses() {
    let mut v = vec![look("a", "Main"), look("b", "Big")];
    let mut p = empty_patch();
    p.name = Some("Huge".to_string());
    p.title_size = Some(120);
    assert!(upsert_style(&mut v, &Some("b".to_string()), p).is_ok());
    assert_eq!((v[1].name.as_str(), v[1].title_size), ("Huge", 120));
    assert_eq!(upsert_style(&mut v, &Some("zz".to_string()), empty_patch()).unwrap_err(), "look zz not found");
    assert_eq!(v.len(), 2);
    assert!(upsert_style(&mut v, &None, empty_patch()).is_ok());
    assert_eq!(v.len(), 3);
    assert_eq!(v[2].name, "New Look");
    assert_eq!(v[2].title_size, 72);
    assert!(v[2].id != "a" && v[2].id != "b");
    let mut p = empty_patch();
    p.name = Some("Lower third".to_string());
    assert!(upsert_style(&mut v, &None, p).is_ok());
    assert_eq!(v[3].name, "Lower third");
}

#[test]
fn deleting_a_look_repoints_outputs() {
    let mut v = vec![look("a", "Main"), look("b", "Stage")];
    let mut s = Settings::default();
    s.stage_look_id = Some("b".to_string());
    s.output_look_id = Some("a".to_string());
    assert_eq!(delete_style(&mut v, "zz", &mut s).unwrap_err(), "look zz not found");
    assert!(delete_style(&mut v, "b", &mut s).is_ok());
    assert_eq!(v.len(), 1);
    assert_eq!(s.stage_look_id.as_deref(), Some("a"));
    assert_eq!(s.output_look_id.as_deref(), Some("a"));
    assert!(delete_style(&mut v, "a", &mut s).is_ok());
    assert_eq!(v.len(), 2);
    assert_eq!(v[0].name, "Main");
    assert_eq!(v[1].name, "Stage");
    assert_eq!(s.output_look_id.as_deref(), Some(v[0].id.as_str()));
}

#[test]
fn upsert_with_a_given_id_adds_or_patches() {
    let mut v = vec![look("a", "Main")];
    assert!(upsert_style_with_id(&mut v, &None, empty_patch(), "n1".to_string()).is_ok());
    assert_eq!(v.len(), 2);
    assert_eq!((v[1].id.as_str(), v[1].name.as_str()), ("n1", "New Look"));
    let mut p = empty_patch();
    p.body_size = Some(50);
    assert!(upsert_style_with_id(&mut v, &None, p, "a".to_string()).is_ok());
    assert_eq!(v.len(), 2);
    assert_eq!(v[0].body_size, 50);
    assert_eq!(
        upsert_style_with_id(&mut v, &Some("q".to_string()), empty_patch(), "x".to_string()).unwrap_err(),
        "look q not found"
    );
}
