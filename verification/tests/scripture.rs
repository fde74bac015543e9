use makepresent::scripture::ScriptureIndex;
use makepresent::scripture_books::{RawBook, RawChapter, RawVerse};
use makepresent::scripture_import::{
    group_api_verses, is_book_tag, is_chapter_tag, is_skip_tag, is_verse_tag, matches_from_books,
    merge_persisted, url_encode, ApiVerse,
};

fn verse(n: &str, text: &str) -> RawVerse {
    RawVerse { verse: n.to_string(), text: text.to_string() }
}

fn chapter(n: &str, verses: Vec<RawVerse>) -> RawChapter {
    RawChapter { chapter: n.to_string(), verses }
}

fn book(name: &str, chapters: Vec<RawChapter>) -> RawBook {
    RawBook { book: name.to_string(), chapters }
}

#[test]
fn parse_book_only() {
    let (book, ch, vs) = ScriptureIndex::parse_query("john");
    assert_eq!(book, "john");
    assert_eq!(ch, None);
    assert_eq!(vs, None);
}

#[test]
fn parse_book_chapter() {
    let (book, ch, vs) = ScriptureIndex::parse_query("john 3");
    assert_eq!(book, "john");
    assert_eq!(ch, Some(3));
    assert_eq!(vs, None);
}

#[test]
fn parse_book_chapter_verse() {
    let (book, ch, vs) = ScriptureIndex::parse_query("john 3:16");
    assert_eq!(book, "john");
    assert_eq!(ch, Some(3));
    assert_eq!(vs, Some(16));
}

#[test]
fn parse_abbreviation() {
    let (book, ch, vs) = ScriptureIndex::parse_query("jn 3:16");
    assert_eq!(book, "jn");
    assert_eq!(ch, Some(3));
    assert_eq!(vs, Some(16));
}

#[test]
fn parse_numbered_book() {
    let (book, ch, vs) = ScriptureIndex::parse_query("1 cor 13:4");
    assert_eq!(book, "1cor");
    assert_eq!(ch, Some(13));
    assert_eq!(vs, Some(4));
}

#[test]
fn parse_psalm() {
    let (book, ch, vs) = ScriptureIndex::parse_query("psalm 23");
    assert_eq!(book, "psalm");
    assert_eq!(ch, Some(23));
    assert_eq!(vs, None);
}

#[test]
fn parse_empty_query_has_no_book() {
    let (book, ch, vs) = ScriptureIndex::parse_query("   ");
    assert_eq!(book, "");
    assert_eq!(ch, None);
    assert_eq!(vs, None);
}

#[test]
fn parse_reference_only_and_dotted_book() {
    let (book, ch, vs) = ScriptureIndex::parse_query("3:16");
    assert_eq!(book, "");
    assert_eq!((ch, vs), (Some(3), Some(16)));
    let (book, ch, vs) = ScriptureIndex::parse_query("1 Cor. 13");
    assert_eq!(book, "1cor");
    assert_eq!((ch, vs), (Some(13), None));
}

#[test]
fn group_api_verses_nests_books() {
    let verses = vec![
        ApiVerse {
            book_name: "John".into(),
            chapter: 3,
            verse: 16,
            text: "  For God so loved the world.  ".into(),
            book_id: Some("JHN".into()),
        },
        ApiVerse {
            book_name: "John".into(),
            chapter: 3,
            verse: 17,
            text: "For God sent not his Son.".into(),
            book_id: Some("JHN".into()),
        },
        ApiVerse {
            book_name: "Romans".into(),
            chapter: 8,
            verse: 28,
            text: "And we know that all things work together.".into(),
            book_id: Some("ROM".into()),
        },
    ];
    let books = group_api_verses(verses);
    assert_eq!(books.len(), 2);
    assert_eq!(books[0].book, "John");
    assert_eq!(books[0].chapters[0].verses.len(), 2);
    assert_eq!(books[0].chapters[0].verses[0].text, "For God so loved the world.");
    assert_eq!(books[1].book, "Romans");
    let matches = matches_from_books(&books, 10);
    assert_eq!(matches.len(), 3);
    assert_eq!(matches[0].reference, "John 3:16");
    assert_eq!(matches[0].text, "For God so loved the world.");
}

#[test]
fn merge_does_not_wipe_existing_verses() {
    let idx = ScriptureIndex::build(vec![RawBook {
        book: "John".into(),
        chapters: vec![RawChapter {
            chapter: "3".into(),
            verses: vec![
                RawVerse { verse: "16".into(), text: "KJV 16".into() },
                RawVerse { verse: "17".into(), text: "KJV 17".into() },
            ],
        }],
    }]);
    let mut idx = idx;
    idx.merge_books(vec![RawBook {
        book: "John".into(),
        chapters: vec![RawChapter {
            chapter: "3".into(),
            verses: vec![RawVerse { verse: "16".into(), text: "WEB 16".into() }],
        }],
    }]);
    let r16 = idx.search("john 3:16", 5);
    assert_eq!(r16[0].text, "WEB 16");
    let r17 = idx.search("john 3:17", 5);
    assert_eq!(r17[0].text, "KJV 17");
}

fn small_index() -> ScriptureIndex {
    ScriptureIndex::build(vec![
        book("John", vec![chapter("1", vec![verse("1", "In the beginning was the Word.")]),
            chapter("3", vec![verse("16", "For God so loved the world."), verse("17", "For God sent not his Son.")])]),
        book("Judges", vec![chapter("1", vec![verse("1", "Now after the death of Joshua.")])]),
        book("Jude", vec![chapter("1", vec![verse("1", "Jude, the servant of Jesus Christ.")])]),
        book("1 Corinthians", vec![chapter("13", vec![verse("4", "Charity suffereth long.")])]),
        book("Psalms", vec![chapter("23", (1..=7).map(|i| verse(&i.to_string(), &format!("Psalm 23 verse {i}"))).collect())]),
    ])
}

#[test]
fn search_finds_verse_by_abbreviation_and_name() {
    let idx = small_index();
    assert_eq!(idx.book_count(), 5);
    let r = idx.search("john 3:16", 10);
    assert_eq!(r.len(), 1);
    assert_eq!(r[0].book, "John");
    assert_eq!((r[0].chapter, r[0].verse), (3, 16));
    assert_eq!(r[0].reference, "John 3:16");
    let r = idx.search("jn 1:1", 10);
    assert_eq!(r[0].book, "John");
    assert_eq!(r[0].text, "In the beginning was the Word.");
    let r = idx.search("1 cor 13:4", 10);
    assert_eq!(r[0].book, "1 Corinthians");
}

#[test]
fn search_ambiguous_key_lists_every_book() {
    let idx = small_index();
    let r = idx.search("jud", 10);
    let books: Vec<String> = r.iter().map(|m| m.book.clone()).collect();
    assert!(books.contains(&"Judges".to_string()), "got {books:?}");
    assert!(books.contains(&"Jude".to_string()), "got {books:?}");
}

#[test]
fn search_chapter_gives_first_five_verses_and_respects_limit() {
    let idx = small_index();
    let r = idx.search("psalm 23", 10);
    assert_eq!(r.len(), 5);
    assert_eq!(r[0].book, "Psalms");
    assert_eq!((r[0].chapter, r[0].verse), (23, 1));
    assert_eq!(r[4].verse, 5);
    let r = idx.search("psalm 23", 2);
    assert_eq!(r.len(), 2);
    assert!(idx.search("", 10).is_empty());
    assert!(idx.search("zzz", 10).is_empty());
}

#[test]
fn search_by_prefix_of_a_name() {
    let idx = small_index();
    let r = idx.search("johannes", 10);
    assert!(r.is_empty());
    let r = idx.search("corinth", 10);
    assert!(r.is_empty());
    let r = idx.search("1corinth 13:4", 10);
    assert_eq!(r.len(), 1);
    assert_eq!(r[0].book, "1 Corinthians");
}

#[test]
fn browsing_resolves_names_and_abbreviations() {
    let idx = small_index();
    let v = idx.get_chapter_verses("John", 3).unwrap();
    assert_eq!(v, vec![(16, "For God so loved the world.".to_string()), (17, "For God sent not his Son.".to_string())]);
    let v = idx.get_chapter_verses("jn", 1).unwrap();
    assert_eq!(v.len(), 1);
    assert!(idx.get_chapter_verses("John", 99).is_none());
    assert!(idx.get_chapter_verses("Nowhere", 1).is_none());
    assert_eq!(idx.chapter_numbers("1 Cor.").unwrap(), vec![13]);
    assert_eq!(idx.chapter_numbers("john").unwrap(), vec![1, 3]);
}

#[test]
fn ordered_names_follow_canonical_order() {
    let mut idx = small_index();
    idx.merge_books(vec![book("Extra Book", vec![chapter("1", vec![verse("1", "x")])])]);
    let names = idx.ordered_book_names();
    assert_eq!(names, vec!["Judges", "Psalms", "John", "1 Corinthians", "Jude", "Extra Book"]);
}

#[test]
fn merge_books_counts_listed_verses() {
    let mut idx = small_index();
    let n = idx.merge_books(vec![
        book("John", vec![chapter("3", vec![verse("16", "new"), verse("x", "bad number")])]),
        book("Romans", vec![chapter("8", vec![verse("28", "All things work together.")])]),
    ]);
    assert_eq!(n, 3);
    assert_eq!(idx.book_count(), 6);
    assert_eq!(idx.search("rom 8:28", 5)[0].text, "All things work together.");
    assert_eq!(idx.search("john 3:16", 5)[0].text, "new");
}

#[test]
fn books_without_numeric_chapters_are_skipped() {
    let idx = ScriptureIndex::build(vec![book("Odd", vec![chapter("one", vec![verse("1", "x")])])]);
    assert_eq!(idx.book_count(), 0);
}

#[test]
fn matches_from_books_skips_bad_numbers_and_caps() {
    let books = vec![book("John", vec![
        chapter("x", vec![verse("1", "skipped")]),
        chapter("3", vec![verse("16", " a "), verse("?", "skipped"), verse("17", "b")]),
    ])];
    let m = matches_from_books(&books, 10);
    assert_eq!(m.len(), 2);
    assert_eq!(m[0].text, "a");
    assert_eq!(m[1].reference, "John 3:17");
    assert_eq!(matches_from_books(&books, 1).len(), 1);
    assert_eq!(matches_from_books(&books, 0).len(), 0);
}

#[test]
fn merge_persisted_keeps_and_overwrites() {
    let mut existing = vec![book("John", vec![chapter("3", vec![verse("16", "old 16"), verse("17", "old 17")])])];
    merge_persisted(&mut existing, vec![
        book("John", vec![chapter("3", vec![verse("16", "new 16"), verse("18", "new 18")]), chapter("4", vec![verse("1", "c4")])]),
        book("Ruth", vec![chapter("1", vec![verse("1", "r")])]),
    ]);
    assert_eq!(existing.len(), 2);
    let john = &existing[0];
    assert_eq!(john.chapters.len(), 2);
    let texts: Vec<&str> = john.chapters[0].verses.iter().map(|v| v.text.as_str()).collect();
    assert_eq!(texts, vec!["new 16", "old 17", "new 18"]);
    assert_eq!(existing[1].book, "Ruth");
}

#[test]
fn url_encoding_of_references() {
    assert_eq!(url_encode("john 3:16"), "john+3:16");
    assert_eq!(url_encode("a/b"), "a%2Fb");
    assert_eq!(url_encode("é"), "%C3%A9");
    assert_eq!(url_encode("A-Z_0.9~"), "A-Z_0.9~");
}

#[test]
fn xml_tag_names() {
    assert!(is_book_tag("biblebook") && is_book_tag("b") && is_book_tag("book"));
    assert!(!is_book_tag("BIBLEBOOK"));
    assert!(is_chapter_tag("chapter") && is_chapter_tag("c") && !is_chapter_tag("v"));
    assert!(is_verse_tag("vers") && is_verse_tag("verse") && is_verse_tag("v"));
    assert!(is_skip_tag("note") && is_skip_tag("metadata") && !is_skip_tag("verse"));
}

#[test]
fn search_over_an_ambiguous_key_fills_from_every_book() {
    let rb = |n: &str| RawBook {
        book: n.to_string(),
        chapters: vec![RawChapter {
            chapter: "1".to_string(),
            verses: (1..=5).map(|i| RawVerse { verse: i.to_string(), text: format!("{n} {i}") }).collect(),
        }],
    };
    let idx = ScriptureIndex::build(vec![rb("Jude"), rb("Judges")]);
    let r = idx.search("jud 1", 10);
    assert_eq!(r.len(), 10);
    let books: Vec<&str> = r.iter().map(|m| m.book.as_str()).collect();
    assert_eq!(books.iter().filter(|b| **b == "Jude").count(), 5);
    assert_eq!(books.iter().filter(|b| **b == "Judges").count(), 5);
    let verses: Vec<u32> = r.iter().map(|m| m.verse).collect();
    assert_eq!(&verses[0..5], &[1, 2, 3, 4, 5]);
    assert_eq!(&verses[5..10], &[1, 2, 3, 4, 5]);
    assert_eq!((r[0].book.as_str(), r[5].book.as_str()), ("Jude", "Judges"));
    assert_eq!(idx.search("jud 1", 7).len(), 7);
}
