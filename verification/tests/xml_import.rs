use makepresent::bible_xml::parse_openlp_xml;
use makepresent::pro_xml::{parse_pro, pro_song};
use makepresent::xml::{xml_events, XmlAttr, XmlEvent, XmlTag};

#[test]
fn parse_zefania_xml() {
    let xml = r#"<?xml version="1.0"?>
        <XMLBIBLE>
          <BIBLEBOOK bnumber="43" bname="John">
            <CHAPTER cnumber="3">
              <VERS vnumber="16">For God so loved the world.</VERS>
              <VERS vnumber="17">For God sent not his Son into the world to condemn the world.</VERS>
            </CHAPTER>
          </BIBLEBOOK>
        </XMLBIBLE>"#;
    let books = parse_openlp_xml(xml).unwrap();
    assert_eq!(books.len(), 1);
    assert_eq!(books[0].book, "John");
    assert_eq!(books[0].chapters[0].chapter, "3");
    assert_eq!(books[0].chapters[0].verses[0].verse, "16");
    assert!(books[0].chapters[0].verses[0].text.contains("God so loved"));
    assert_eq!(books[0].chapters[0].verses.len(), 2);
}

#[test]
fn parse_openlp_native_and_compact() {
    let native = r#"<bible>
          <testament name="nt">
            <book name="John">
              <chapter number="1">
                <verse number="1">In the beginning was the Word.</verse>
                <verse number="2">The same was in the beginning with God.<note>ignored</note></verse>
              </chapter>
            </book>
          </testament>
        </bible>"#;
    let books = parse_openlp_xml(native).unwrap();
    assert_eq!(books[0].book, "John");
    assert_eq!(books[0].chapters[0].verses[0].text, "In the beginning was the Word.");
    assert_eq!(
        books[0].chapters[0].verses[1].text,
        "The same was in the beginning with God."
    );

    let compact = r#"<bible><b n="Ruth"><c n="1"><v n="1">In the days when the judges ruled.</v></c></b></bible>"#;
    let books = parse_openlp_xml(compact).unwrap();
    assert_eq!(books[0].book, "Ruth");
    assert_eq!(books[0].chapters[0].chapter, "1");
    assert_eq!(books[0].chapters[0].verses[0].verse, "1");
}

#[test]
fn parse_openlp_empty_document_errors() {
    assert!(parse_openlp_xml("<XMLBIBLE></XMLBIBLE>").is_err());
}

#[test]
fn bible_without_chapters_reports_no_verses() {
    let e = parse_openlp_xml(r#"<bible><book name="John"></book></bible>"#).unwrap_err();
    assert_eq!(e, "no verses found in the OpenLP XML document");
    let e = parse_openlp_xml("<XMLBIBLE></XMLBIBLE>").unwrap_err();
    assert_eq!(e, "no Bible books found in the OpenLP XML document");
}

#[test]
fn bible_tokenizing_error_names_position() {
    let e = parse_openlp_xml("<bible><b n=\"Ruth\"></c></bible>").unwrap_err();
    assert!(e.starts_with("failed to parse OpenLP XML at byte "), "{}", e);
}

#[test]
fn bible_empty_verse_tags_and_prefixed_names() {
    let xml = r#"<osis:bible><osis:book osis:name="Jude"><osis:chapter osis:n="1"><osis:verse osis:n="1"/><osis:verse osis:n="2">Mercy &amp; peace</osis:verse></osis:chapter></osis:book></osis:bible>"#;
    let books = parse_openlp_xml(xml).unwrap();
    assert_eq!(books[0].book, "Jude");
    let vs = &books[0].chapters[0].verses;
    assert_eq!(vs.len(), 2);
    assert_eq!(vs[0].verse, "1");
    assert_eq!(vs[0].text, "");
    assert_eq!(vs[1].text, "Mercy & peace");
}

#[test]
fn pro_parses_simple_xml() {
    let xml = r#"<?xml version="1.0"?><RVPresentationDocument><array><RVSlideGrouping name="Verse 1"><array><RVDisplaySlide><array><RVTextElement><NSString>Amazing grace</NSString></RVTextElement></array></RVDisplaySlide></array></RVSlideGrouping></array></RVPresentationDocument>"#;
    let song = parse_pro(xml, "song.pro", "song").unwrap();
    assert_eq!(song.slides.len(), 1);
    assert!(song.slides[0].body.contains("Amazing grace"));
}

#[test]
fn pro_rejects_malformed() {
    let res = parse_pro("<not xml>", "bad.pro", "bad");
    match res {
        Ok(_) => {}
        Err(e) => {
            let low = e.to_lowercase();
            assert!(
                low.contains("malformed") || low.contains("extractable") || low.contains("valid"),
                "unexpected error: {}",
                e
            );
        }
    }
}

#[test]
fn pro_group_names_title_and_slides() {
    let xml = r#"<doc><RVSlideGrouping name=" Verse 1 "><RVDisplaySlide><NSString>Line one</NSString><NSString>Line two</NSString></RVDisplaySlide><RVDisplaySlide><NSString>Next</NSString></RVDisplaySlide></RVSlideGrouping><RVSlideGrouping name="Chorus"><RVDisplaySlide><NSString>Sing</NSString></RVDisplaySlide></RVSlideGrouping><RVDisplaySlide><NSString>Loose</NSString></RVDisplaySlide></doc>"#;
    let song = parse_pro(xml, "s.pro", "s").unwrap();
    assert_eq!(song.title, "Verse 1");
    let got: Vec<(&str, &str)> = song.slides.iter().map(|s| (s.title.as_str(), s.body.as_str())).collect();
    assert_eq!(
        got,
        vec![
            ("Verse 1", "Line one\nLine two"),
            ("Verse 1", "Next"),
            ("Chorus", "Sing"),
            ("Slide 4", "Loose"),
        ]
    );
}

#[test]
fn pro_without_groups_falls_back_to_stem_title() {
    let song = parse_pro("<RVSlide><string>Hello</string></RVSlide>", "x.pro", "Hymn").unwrap();
    assert_eq!(song.title, "Hymn");
    assert_eq!(song.slides.len(), 1);
    assert_eq!(song.slides[0].title, "Slide 1");
    assert_eq!(song.slides[0].body, "Hello");
}

#[test]
fn pro_empty_file_is_reported() {
    let e = parse_pro("   \n ", "empty.pro", "empty").unwrap_err();
    assert_eq!(e, "ProPresenter file is empty: empty.pro");
}

#[test]
fn pro_no_text_is_reported() {
    let e = parse_pro("<a><b/></a>", "n.pro", "n").unwrap_err();
    assert_eq!(
        e,
        "ProPresenter file contains no extractable text (n.pro). Is it a valid ProPresenter export?"
    );
}

#[test]
fn pro_malformed_is_reported() {
    let e = parse_pro("<a></b>", "m.pro", "m").unwrap_err();
    assert!(e.starts_with("ProPresenter file is malformed XML (m.pro): "), "{}", e);
}

#[test]
fn pro_song_from_events_uses_cdata_and_loose_text() {
    let tag = |n: &str, attrs: Vec<XmlAttr>| XmlTag { name: n.to_string(), local: n.to_string(), attrs };
    let end = |n: &str| XmlEvent::End { name: n.to_string(), local: n.to_string() };
    let events = vec![
        XmlEvent::Start(tag(
            "RVSlideGrouping",
            vec![XmlAttr { key: "title".to_string(), raw_value: "Bridge".to_string(), value: Some("Bridge".to_string()) }],
        )),
        XmlEvent::Text(Some("x".to_string())),
        XmlEvent::Text(Some("loose words".to_string())),
        XmlEvent::CData { raw: "raw".to_string(), escaped: Some("  cdata line ".to_string()) },
        end("RVSlideGrouping"),
        XmlEvent::Eof,
    ];
    let song = pro_song(&events, "", "f.pro", "f").unwrap();
    assert_eq!(song.title, "Bridge");
    assert_eq!(song.slides.len(), 1);
    assert_eq!(song.slides[0].title, "Bridge");
    assert_eq!(song.slides[0].body, "loose words\ncdata line");
}

#[test]
fn xml_events_end_with_eof() {
    let evs = xml_events("<a>hi</a>").unwrap();
    assert!(matches!(evs.last(), Some(XmlEvent::Eof)));
    assert!(matches!(&evs[0], XmlEvent::Start(t) if t.name == "a"));
    assert!(matches!(&evs[1], XmlEvent::Text(Some(s)) if s == "hi"));
}
