use makepresent::browse::{get_book_list, get_chapter, imported_book_list, list_chapters};
use makepresent::scripture::ScriptureIndex;
use makepresent::scripture_books::{RawBook, RawChapter, RawVerse};

fn verse(n: &str, t: &str) -> RawVerse {
    RawVerse { verse: n.to_string(), text: t.to_string() }
}

fn chapter(n: &str, verses: Vec<RawVerse>) -> RawChapter {
    RawChapter { chapter: n.to_string(), verses }
}

fn book(name: &str, chapters: Vec<RawChapter>) -> RawBook {
    RawBook { book: name.to_string(), chapters }
}

fn imported() -> Vec<RawBook> {
    vec![
        book("Ruth", vec![chapter("2", vec![verse("1", "R2:1")]), chapter("x", vec![]), chapter("1", vec![verse("1", "R1:1")])]),
        book("Jonah", vec![chapter("1", vec![verse("1", "J1:1"), verse("a", "skip"), verse("2", "J1:2")])]),
        book("Ruth", vec![chapter("4", vec![])]),
    ]
}

const NONE_IMPORTED: &str =
    "no imported Bibles found — place OpenLP XML files in bibles folder or use Import button";

#[test]
fn imported_books_are_listed_once_in_first_order() {
    assert_eq!(imported_book_list(&imported()).unwrap(), vec!["Ruth".to_string(), "Jonah".to_string()]);
    assert_eq!(imported_book_list(&vec![]).unwrap_err(), NONE_IMPORTED);
}

#[test]
fn imported_chapters_ascend_and_skip_unnumbered() {
    let books = imported();
    assert_eq!(list_chapters(&None, &books, "imported", "ruth").unwrap(), vec![1, 2]);
    assert_eq!(
        list_chapters(&None, &books, "imported", "Micah").unwrap_err(),
        "book Micah not found in imported Bibles"
    );
    assert_eq!(list_chapters(&None, &vec![], "imported", "Ruth").unwrap_err(), NONE_IMPORTED);
}

#[test]
fn imported_chapter_keeps_numbered_verses() {
    let books = imported();
    let vs = get_chapter(&None, &books, "imported", "JONAH", 1).unwrap();
    assert_eq!(vs.len(), 2);
    assert_eq!((vs[0].verse, vs[0].text.as_str()), (1, "J1:1"));
    assert_eq!((vs[1].verse, vs[1].text.as_str()), (2, "J1:2"));
    assert_eq!(
        get_chapter(&None, &books, "imported", "Jonah", 3).unwrap_err(),
        "Jonah 3 not found in imported Bibles"
    );
    assert_eq!(
        get_chapter(&None, &books, "imported", "Esther", 1).unwrap_err(),
        "book Esther not found in imported Bibles"
    );
}

#[test]
fn builtin_bible_is_browsed_through_the_index() {
    assert_eq!(get_book_list(&None, &vec![], "kjv").unwrap_err(), "scripture index not loaded yet");
    let idx = ScriptureIndex::build(vec![
        book("John", vec![chapter("3", vec![verse("16", "For God"), verse("17", "For God sent")])]),
        book("Genesis", vec![chapter("1", vec![verse("1", "In the beginning")])]),
    ]);
    let index = Some(idx);
    assert_eq!(get_book_list(&index, &vec![], "kjv").unwrap(), vec!["Genesis".to_string(), "John".to_string()]);
    assert_eq!(list_chapters(&index, &vec![], "kjv", "jn").unwrap(), vec![3]);
    assert_eq!(list_chapters(&index, &vec![], "kjv", "Ruth").unwrap_err(), "book Ruth not found in KJV");
    let vs = get_chapter(&index, &vec![], "kjv", "John", 3).unwrap();
    assert_eq!(vs.iter().map(|v| v.verse).collect::<Vec<_>>(), vec![16, 17]);
    assert_eq!(get_chapter(&index, &vec![], "kjv", "John", 4).unwrap_err(), "John 4 not found in KJV");
}

#[test]
fn unknown_bibles_are_refused() {
    assert_eq!(get_book_list(&None, &vec![], "esv").unwrap_err(), "unknown bible id: esv");
    assert_eq!(list_chapters(&None, &vec![], "esv", "John").unwrap_err(), "unknown bible id: esv");
    assert_eq!(get_chapter(&None, &vec![], "esv", "John", 1).unwrap_err(), "unknown bible id: esv");
}
