//! Bibles in XML: Zefania (`XMLBIBLE / BIBLEBOOK bname / CHAPTER cnumber /
//! VERS vnumber`), OpenLP compact (`bible / b n / c n / v n`) and OpenLP
//! native (`bible / book name / chapter number / verse number`), read into
//! raw books. Notes, titles and the like inside a verse are skipped.
use crate::media::last_index;
use crate::scripture_books::{RawBook, RawChapter, RawVerse};
use crate::scripture_import::{
    is_book_tag, is_chapter_tag, is_skip_tag, is_verse_tag, raw_book_model, raw_books_model,
    raw_chapter_model, raw_chapters_model, raw_verses_model, RawBookM, RawChapterM,
    RawVerseM,
};
use crate::text::{append, chars_of, dec, lit, lowercase, push_dec, slice_of, string_of, to_lowercase, trim, trim_chars};
use crate::xml::{doc_result, xml_doc, xml_events, XmlAttr, XmlEvent};
use vstd::prelude::*;

verus! {

/// The key of an attribute as compared: lower-cased, without its prefix.
pub open spec fn attr_local_key(a: XmlAttr) -> Seq<char> {
    let k = lowercase(a.key@);
    match last_index(k, ':') {
        Some(i) => k.skip(i + 1),
        None => k,
    }
}

/// An attribute's value, or empty when it could not be unescaped.
pub open spec fn attr_text(a: XmlAttr) -> Seq<char> {
    match a.value {
        Some(v) => v@,
        None => seq![],
    }
}

/// The value of the first attribute whose key is one of `names`.
pub open spec fn first_attr(attrs: Seq<XmlAttr>, names: Seq<Seq<char>>) -> Option<Seq<char>>
    decreases attrs.len(),
{
    if attrs.len() == 0 {
        None
    } else if names.contains(attr_local_key(attrs[0])) {
        Some(attr_text(attrs[0]))
    } else {
        first_attr(attrs.drop_first(), names)
    }
}

/// That value, or empty.
pub open spec fn attr_or_empty(attrs: Seq<XmlAttr>, names: Seq<Seq<char>>) -> Seq<char> {
    match first_attr(attrs, names) {
        Some(v) => v,
        None => seq![],
    }
}

pub open spec fn book_keys() -> Seq<Seq<char>> {
    seq!["bname"@, "name"@, "n"@, "bsname"@]
}

pub open spec fn chapter_keys() -> Seq<Seq<char>> {
    seq!["cnumber"@, "number"@, "n"@]
}

pub open spec fn verse_keys() -> Seq<Seq<char>> {
    seq!["vnumber"@, "number"@, "n"@]
}

pub open spec fn book_tag(n: Seq<char>) -> bool {
    n == "biblebook"@ || n == "b"@ || n == "book"@
}

pub open spec fn chapter_tag(n: Seq<char>) -> bool {
    n == "chapter"@ || n == "c"@
}

pub open spec fn verse_tag(n: Seq<char>) -> bool {
    n == "vers"@ || n == "verse"@ || n == "v"@
}

pub open spec fn skip_tag(n: Seq<char>) -> bool {
    n == "note"@ || n == "title"@ || n == "style"@ || n == "caption"@ || n == "comment"@ || n == "metadata"@
}

/// Reading state: the books so far, the open book and chapter (as
/// positions), whether a verse is open, how deep inside skipped elements,
/// and the open verse's number and text.
pub struct BibleState {
    pub books: Seq<RawBookM>,
    pub cur_book: Option<int>,
    pub cur_chapter: Option<(int, int)>,
    pub in_verse: bool,
    pub skip: nat,
    pub verse_num: Seq<char>,
    pub verse_text: Seq<char>,
}

pub open spec fn initial_bible() -> BibleState {
    BibleState {
        books: seq![],
        cur_book: None,
        cur_chapter: None,
        in_verse: false,
        skip: 0,
        verse_num: seq![],
        verse_text: seq![],
    }
}

/// `v` appended to chapter `p.1` of book `p.0`.
pub open spec fn push_verse(books: Seq<RawBookM>, p: (int, int), v: RawVerseM) -> Seq<RawBookM> {
    let b = books[p.0];
    let c = b.1[p.1];
    books.update(p.0, (b.0, b.1.update(p.1, (c.0, c.1.push(v)))))
}

/// One event read into the state.
pub open spec fn bible_step(st: BibleState, ev: XmlEvent) -> BibleState {
    match ev {
        XmlEvent::Start(t) => {
            let name = lowercase(t.local@);
            if st.skip > 0 || skip_tag(name) {
                BibleState { skip: st.skip + 1, ..st }
            } else if book_tag(name) {
                let n = attr_or_empty(t.attrs@, book_keys());
                if n.len() > 0 {
                    BibleState {
                        books: st.books.push((n, seq![])),
                        cur_book: Some(st.books.len() as int),
                        cur_chapter: None,
                        ..st
                    }
                } else {
                    BibleState { cur_chapter: None, ..st }
                }
            } else if chapter_tag(name) {
                match st.cur_book {
                    Some(bi) => {
                        let n = attr_or_empty(t.attrs@, chapter_keys());
                        if n.len() > 0 {
                            let b = st.books[bi];
                            BibleState {
                                books: st.books.update(bi, (b.0, b.1.push((n, seq![])))),
                                cur_chapter: Some((bi, b.1.len() as int)),
                                ..st
                            }
                        } else {
                            st
                        }
                    },
                    None => st,
                }
            } else if verse_tag(name) && st.cur_chapter is Some {
                BibleState {
                    in_verse: true,
                    verse_num: attr_or_empty(t.attrs@, verse_keys()),
                    verse_text: seq![],
                    ..st
                }
            } else {
                st
            }
        },
        XmlEvent::Empty(t) => {
            let name = lowercase(t.local@);
            if st.skip == 0 && verse_tag(name) {
                match st.cur_chapter {
                    Some(p) => BibleState {
                        books: push_verse(st.books, p, (attr_or_empty(t.attrs@, verse_keys()), seq![])),
                        ..st
                    },
                    None => st,
                }
            } else {
                st
            }
        },
        XmlEvent::Text(o) => if st.in_verse && st.skip == 0 {
            BibleState {
                verse_text: st.verse_text + match o {
                    Some(s) => s@,
                    None => seq![],
                },
                ..st
            }
        } else {
            st
        },
        XmlEvent::CData { raw, escaped } => if st.in_verse && st.skip == 0 {
            BibleState { verse_text: st.verse_text + raw@, ..st }
        } else {
            st
        },
        XmlEvent::End { name, local } => {
            let n = lowercase(local@);
            if st.skip > 0 {
                BibleState { skip: (st.skip - 1) as nat, ..st }
            } else if st.in_verse && verse_tag(n) {
                match st.cur_chapter {
                    Some(p) => BibleState {
                        in_verse: false,
                        books: push_verse(st.books, p, (st.verse_num, trim(st.verse_text))),
                        ..st
                    },
                    None => BibleState { in_verse: false, ..st },
                }
            } else if chapter_tag(n) {
                BibleState { cur_chapter: None, ..st }
            } else if book_tag(n) {
                BibleState { cur_book: None, ..st }
            } else {
                st
            }
        },
        _ => st,
    }
}

pub open spec fn bible_run(evs: Seq<XmlEvent>) -> BibleState
    decreases evs.len(),
{
    if evs.len() == 0 {
        initial_bible()
    } else {
        bible_step(bible_run(evs.drop_last()), evs.last())
    }
}

/// What the events of a Bible document yield: the books that have
/// chapters, in document order, or why there are none.
pub open spec fn bible_result(evs: Seq<XmlEvent>) -> Result<Seq<RawBookM>, Seq<char>> {
    let st = bible_run(evs);
    if st.books.len() == 0 {
        Err("no Bible books found in the OpenLP XML document"@)
    } else {
        let kept = st.books.filter(|b: RawBookM| b.1.len() > 0);
        if kept.len() == 0 {
            Err("no verses found in the OpenLP XML document"@)
        } else {
            Ok(kept)
        }
    }
}

/// The open book and chapter point at existing entries.
pub open spec fn bible_wf(st: BibleState) -> bool {
    &&& (st.cur_book matches Some(bi) ==> 0 <= bi < st.books.len())
    &&& (st.cur_chapter matches Some(p) ==> 0 <= p.0 < st.books.len() && 0 <= p.1 < st.books[p.0].1.len())
}

pub open spec fn state_of(
    books: Seq<RawBook>,
    cur_book: Option<usize>,
    cur_chapter: Option<(usize, usize)>,
    in_verse: bool,
    skip: usize,
    verse_num: Seq<char>,
    verse_text: Seq<char>,
) -> BibleState {
    BibleState {
        books: raw_books_model(books),
        cur_book: match cur_book {
            Some(b) => Some(b as int),
            None => None,
        },
        cur_chapter: match cur_chapter {
            Some(p) => Some((p.0 as int, p.1 as int)),
            None => None,
        },
        in_verse,
        skip: skip as nat,
        verse_num,
        verse_text,
    }
}

fn lowered(s: &String) -> (r: Vec<char>)
    ensures
        r@ == lowercase(s@),
{
    to_lowercase(&chars_of(s.as_str()))
}

fn local_key(a: &XmlAttr) -> (r: Vec<char>)
    ensures
        r@ == attr_local_key(*a),
{
    let k = lowered(&a.key);
    let mut i: usize = k.len();
    assert(k@.take(i as int) =~= k@);
    while i > 0 && k[i - 1] != ':'
        invariant
            i <= k.len(),
            last_index(k@, ':') == last_index(k@.take(i as int), ':'),
        decreases i,
    {
        assert(k@.take(i as int).drop_last() =~= k@.take(i - 1));
        i = i - 1;
    }
    if i == 0 {
        assert(k@.take(0) =~= Seq::<char>::empty());
        return k;
    }
    assert(k@.take(i as int).last() == ':');
    let r = slice_of(&k, i, k.len());
    assert(r@ =~= k@.skip(i as int));
    r
}

/// See [`first_attr`] and [`attr_or_empty`].
fn find_attr(attrs: &Vec<XmlAttr>, names: &[&str]) -> (r: Vec<char>)
    ensures
        r@ == attr_or_empty(attrs@, names@.map_values(|s: &str| s@)),
{
    let ghost ns = names@.map_values(|s: &str| s@);
    let mut i: usize = 0;
    assert(attrs@.skip(0) =~= attrs@);
    while i < attrs.len()
        invariant
            i <= attrs.len(),
            ns == names@.map_values(|s: &str| s@),
            first_attr(attrs@, ns) == first_attr(attrs@.skip(i as int), ns),
        decreases attrs.len() - i,
    {
        let k = local_key(&attrs[i]);
        assert(attrs@.skip(i as int)[0] == attrs@[i as int]);
        assert(attrs@.skip(i as int).drop_first() =~= attrs@.skip(i + 1));
        let mut j: usize = 0;
        let mut found = false;
        while j < names.len()
            invariant
                j <= names.len(),
                ns == names@.map_values(|s: &str| s@),
                found == (exists|q: int| 0 <= q < j && ns[q] == k@),
            decreases names.len() - j,
        {
            if crate::text::eq_chars(&k, &lit(names[j])) {
                assert(ns[j as int] == k@);
                found = true;
            }
            proof {
                if !found {
                    assert forall|q: int| 0 <= q < j + 1 implies ns[q] != k@ by {
                        if q < j {
                            assert(!(0 <= q < j && ns[q] == k@));
                        }
                    }
                }
            }
            j = j + 1;
        }
        proof {
            if found {
                let q = choose|q: int| 0 <= q < names.len() && ns[q] == k@;
                assert(ns.contains(k@));
            } else {
                if ns.contains(k@) {
                    let q = choose|q: int| 0 <= q < ns.len() && ns[q] == k@;
                    assert(false);
                }
            }
        }
        if found {
            return match &attrs[i].value {
                Some(v) => chars_of(v.as_str()),
                None => Vec::new(),
            };
        }
        i = i + 1;
    }
    assert(attrs@.skip(attrs.len() as int) =~= Seq::<XmlAttr>::empty());
    Vec::new()
}


fn push_chapter_exec(books: &mut Vec<RawBook>, bi: usize, label: Vec<char>)
    requires
        bi < old(books).len(),
    ensures
        final(books).len() == old(books).len(),
        raw_books_model(final(books)@) == raw_books_model(old(books)@).update(bi as int, (
            raw_books_model(old(books)@)[bi as int].0,
            raw_books_model(old(books)@)[bi as int].1.push((label@, seq![])),
        )),
{
    let ghost m = raw_books_model(books@);
    let mut b = books.remove(bi);
    assert(raw_book_model(b) == m[bi as int]);
    let c = RawChapter { chapter: string_of(&label), verses: Vec::new() };
    assert(raw_verses_model(c.verses@) =~= Seq::<RawVerseM>::empty());
    let ghost cb = raw_chapters_model(b.chapters@);
    b.chapters.push(c);
    assert(raw_chapters_model(b.chapters@) =~= cb.push((label@, seq![])));
    books.insert(bi, b);
    assert(raw_books_model(books@) =~= m.update(bi as int, (m[bi as int].0, m[bi as int].1.push((label@, seq![])))));
}

fn push_verse_exec(books: &mut Vec<RawBook>, bi: usize, ci: usize, num: &Vec<char>, text: &Vec<char>)
    requires
        bi < old(books).len(),
        ci < raw_books_model(old(books)@)[bi as int].1.len(),
    ensures
        final(books).len() == old(books).len(),
        raw_books_model(final(books)@) == push_verse(raw_books_model(old(books)@), (bi as int, ci as int), (num@, text@)),
{
    let ghost m = raw_books_model(books@);
    let mut b = books.remove(bi);
    assert(raw_book_model(b) == m[bi as int]);
    let ghost cb = raw_chapters_model(b.chapters@);
    let mut c = b.chapters.remove(ci);
    assert(raw_chapter_model(c) == cb[ci as int]);
    let ghost vb = raw_verses_model(c.verses@);
    let v = RawVerse { verse: string_of(num), text: string_of(text) };
    c.verses.push(v);
    assert(raw_verses_model(c.verses@) =~= vb.push((num@, text@)));
    b.chapters.insert(ci, c);
    assert(raw_chapters_model(b.chapters@) =~= cb.update(ci as int, (cb[ci as int].0, cb[ci as int].1.push((num@, text@)))));
    books.insert(bi, b);
    assert(raw_books_model(books@) =~= push_verse(m, (bi as int, ci as int), (num@, text@)));
}

/// The books a Bible document's events describe (see [`bible_result`]).
pub fn bible_books(events: &Vec<XmlEvent>) -> (r: Result<Vec<RawBook>, String>)
    ensures
        match bible_result(events@) {
            Ok(bs) => r matches Ok(v) && raw_books_model(v@) == bs,
            Err(m) => r matches Err(e) && e@ == m,
        },
{
    let mut books: Vec<RawBook> = Vec::new();
    let mut cur_book: Option<usize> = None;
    let mut cur_chapter: Option<(usize, usize)> = None;
    let mut in_verse = false;
    let mut skip: usize = 0;
    let mut verse_num: Vec<char> = Vec::new();
    let mut verse_text: Vec<char> = Vec::new();
    let mut i: usize = 0;
    assert(events@.take(0) =~= Seq::<XmlEvent>::empty());
    assert(raw_books_model(books@) =~= Seq::<RawBookM>::empty());
    assert(verse_num@ =~= Seq::<char>::empty());
    assert(verse_text@ =~= Seq::<char>::empty());
    while i < events.len()
        invariant
            i <= events.len(),
            skip <= i,
            state_of(books@, cur_book, cur_chapter, in_verse, skip, verse_num@, verse_text@) == bible_run(events@.take(i as int)),
            bible_wf(bible_run(events@.take(i as int))),
        decreases events.len() - i,
    {
        assert(events@.take(i + 1).drop_last() =~= events@.take(i as int));
        let ghost st = bible_run(events@.take(i as int));
        let ghost m = raw_books_model(books@);
        match &events[i] {
            XmlEvent::Start(t) => {
                let name = lowered(&t.local);
                if skip > 0 || is_skip_tag(string_of(&name).as_str()) {
                    skip = skip + 1;
                } else if is_book_tag(string_of(&name).as_str()) {
                    let n = find_attr(&t.attrs, &["bname", "name", "n", "bsname"]);
                    proof {
                        reveal_strlit("bname");
                        reveal_strlit("name");
                        reveal_strlit("n");
                        reveal_strlit("bsname");
                        assert(seq!["bname", "name", "n", "bsname"].map_values(|s: &str| s@) =~= book_keys());
                    }
                    if n.len() > 0 {
                        let nb = RawBook { book: string_of(&n), chapters: Vec::new() };
                        assert(raw_chapters_model(nb.chapters@) =~= Seq::<RawChapterM>::empty());
                        books.push(nb);
                        assert(raw_books_model(books@) =~= m.push((n@, seq![])));
                        cur_book = Some(books.len() - 1);
                    }
                    cur_chapter = None;
                } else if is_chapter_tag(string_of(&name).as_str()) {
                    match cur_book {
                        Some(bi) => {
                            let n = find_attr(&t.attrs, &["cnumber", "number", "n"]);
                            proof {
                                reveal_strlit("cnumber");
                                reveal_strlit("number");
                                reveal_strlit("n");
                                assert(seq!["cnumber", "number", "n"].map_values(|s: &str| s@) =~= chapter_keys());
                            }
                            if n.len() > 0 {
                                let ghost old_len = m[bi as int].1.len();
                                push_chapter_exec(&mut books, bi, n);
                                assert(raw_books_model(books@)[bi as int].1.len() == old_len + 1);
                                cur_chapter = Some((bi, books[bi].chapters.len() - 1));
                                assert(raw_books_model(books@)[bi as int].1.len() == books@[bi as int].chapters@.len());
                            }
                        },
                        None => {},
                    }
                } else if is_verse_tag(string_of(&name).as_str()) && cur_chapter.is_some() {
                    in_verse = true;
                    verse_num = find_attr(&t.attrs, &["vnumber", "number", "n"]);
                    proof {
                        reveal_strlit("vnumber");
                        reveal_strlit("number");
                        reveal_strlit("n");
                        assert(seq!["vnumber", "number", "n"].map_values(|s: &str| s@) =~= verse_keys());
                    }
                    verse_text = Vec::new();
                    assert(verse_text@ =~= Seq::<char>::empty());
                }
            },
            XmlEvent::Empty(t) => {
                let name = lowered(&t.local);
                if skip == 0 && is_verse_tag(string_of(&name).as_str()) {
                    match cur_chapter {
                        Some((bi, ci)) => {
                            let n = find_attr(&t.attrs, &["vnumber", "number", "n"]);
                            proof {
                                reveal_strlit("vnumber");
                                reveal_strlit("number");
                                reveal_strlit("n");
                                assert(seq!["vnumber", "number", "n"].map_values(|s: &str| s@) =~= verse_keys());
                            }
                            let empty: Vec<char> = Vec::new();
                            assert(empty@ =~= Seq::<char>::empty());
                            push_verse_exec(&mut books, bi, ci, &n, &empty);
                        },
                        None => {},
                    }
                }
            },
            XmlEvent::Text(o) => {
                if in_verse && skip == 0 {
                    match o {
                        Some(s) => append(&mut verse_text, &chars_of(s.as_str())),
                        None => {
                            assert(verse_text@ =~= verse_text@ + Seq::<char>::empty());
                        },
                    }
                }
            },
            XmlEvent::CData { raw, escaped } => {
                if in_verse && skip == 0 {
                    append(&mut verse_text, &chars_of(raw.as_str()));
                }
            },
            XmlEvent::End { name, local } => {
                let n = lowered(local);
                if skip > 0 {
                    skip = skip - 1;
                } else if in_verse && is_verse_tag(string_of(&n).as_str()) {
                    in_verse = false;
                    match cur_chapter {
                        Some((bi, ci)) => {
                            let t = trim_chars(&verse_text);
                            push_verse_exec(&mut books, bi, ci, &verse_num, &t);
                        },
                        None => {},
                    }
                } else if is_chapter_tag(string_of(&n).as_str()) {
                    cur_chapter = None;
                } else if is_book_tag(string_of(&n).as_str()) {
                    cur_book = None;
                }
            },
            _ => {},
        }
        assert(state_of(books@, cur_book, cur_chapter, in_verse, skip, verse_num@, verse_text@) == bible_step(st, events@[i as int]));
        i = i + 1;
    }
    assert(events@.take(events.len() as int) =~= events@);
    if books.len() == 0 {
        return Err(crate::project::lit_string("no Bible books found in the OpenLP XML document"));
    }
    let ghost all = raw_books_model(books@);
    let ghost f = |b: RawBookM| b.1.len() > 0;
    let n = books.len();
    let mut rev = crate::scripture_import::into_reversed(books);
    let mut kept: Vec<RawBook> = Vec::new();
    let mut k: usize = 0;
    assert(all.take(0).filter(f) =~= Seq::<RawBookM>::empty());
    assert(raw_books_model(kept@) =~= Seq::<RawBookM>::empty());
    while rev.len() > 0
        invariant
            k + rev.len() == n,
            all.len() == n,
            f == (|b: RawBookM| b.1.len() > 0),
            forall|q: int| 0 <= q < rev.len() ==> raw_book_model(#[trigger] rev@[q]) == all[n - 1 - q],
            raw_books_model(kept@) == all.take(k as int).filter(f),
        decreases rev.len(),
    {
        proof {
            reveal(Seq::filter);
        }
        let b = rev.pop().unwrap();
        assert(raw_book_model(b) == all[k as int]);
        assert(all.take(k + 1).drop_last() =~= all.take(k as int));
        if b.chapters.len() > 0 {
            let ghost before = raw_books_model(kept@);
            kept.push(b);
            assert(raw_books_model(kept@) =~= before.push(all[k as int]));
        }
        k = k + 1;
    }
    assert(all.take(n as int) =~= all);
    if kept.len() == 0 {
        return Err(crate::project::lit_string("no verses found in the OpenLP XML document"));
    }
    Ok(kept)
}

/// The books read, or the error message.
pub open spec fn books_outcome(r: Result<Vec<RawBook>, String>) -> Result<Seq<RawBookM>, Seq<char>> {
    match r {
        Ok(v) => Ok(raw_books_model(v@)),
        Err(e) => Err(e@),
    }
}

/// Parse a Bible XML document (Zefania, OpenLP compact or native) into raw
/// books in document order; a tokenizing error is reported with its byte
/// position.
pub fn parse_openlp_xml(xml: &str) -> (r: Result<Vec<RawBook>, String>)
    ensures
        r matches Ok(v) ==> v.len() > 0 && forall|i: int| 0 <= i < v.len() ==> (#[trigger] v@[i]).chapters.len() > 0,
        books_outcome(r) == match doc_result(xml_doc(xml@)) {
            Ok(evs) => bible_result(evs),
            Err(e) => Err("failed to parse OpenLP XML at byte "@ + dec(e.position as nat) + ": "@ + e.message@),
        },
{
    match xml_events(xml) {
        Err(e) => {
            let mut m = lit("failed to parse OpenLP XML at byte ");
            push_dec(&mut m, e.position);
            append(&mut m, &lit(": "));
            append(&mut m, &chars_of(e.message.as_str()));
            Err(string_of(&m))
        },
        Ok(evs) => {
            let r = bible_books(&evs);
            proof {
                lemma_bible_result_nonempty(evs@);
            }
            assert(books_outcome(r) == bible_result(evs@));
            match r {
                Ok(v) => {
                    assert forall|i: int| 0 <= i < v.len() implies (#[trigger] v@[i]).chapters.len() > 0 by {
                        assert(raw_books_model(v@)[i].1.len() == v@[i].chapters@.len());
                    }
                    Ok(v)
                },
                Err(e) => Err(e),
            }
        },
    }
}

proof fn lemma_bible_result_nonempty(evs: Seq<XmlEvent>)
    ensures
        bible_result(evs) matches Ok(bs) ==> bs.len() > 0 && forall|i: int| 0 <= i < bs.len() ==> (#[trigger] bs[i]).1.len() > 0,
{
    let st = bible_run(evs);
    if st.books.len() > 0 {
        let kept = st.books.filter(|b: RawBookM| b.1.len() > 0);
        assert forall|i: int| 0 <= i < kept.len() implies (#[trigger] kept[i]).1.len() > 0 by {
            let f = |b: RawBookM| b.1.len() > 0;
            assert(f(kept[i]));
        }
    }
}

} // verus!
