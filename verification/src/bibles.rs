//! Bringing imported Bibles into the application: folding imported books
//! into the search index and the persisted imports, listing the available
//! Bibles, and how phones reach the Stage Display.
use crate::commands::{BibleInfo, ScriptureImportResult, StageNetworkInfo};
use crate::project::lit_string;
use crate::scripture::{aliases_after_all, books_after_all, raw_verse_count, ScriptureIndex};
use crate::scripture_books::{RawBook, RawChapter, RawVerse};
use crate::scripture_import::{
    merge_persisted, persisted, raw_book_model, raw_books_model, raw_chapter_model, raw_chapters_model, raw_verse_model,
    raw_verses_model,
};
use crate::text::{append, chars_of, dec, eq_chars, lit, push_dec, string_of};
use vstd::prelude::*;

verus! {

fn copy_book(b: &RawBook) -> (r: RawBook)
    ensures
        raw_book_model(r) == raw_book_model(*b),
{
    let mut chapters: Vec<RawChapter> = Vec::new();
    let mut i: usize = 0;
    while i < b.chapters.len()
        invariant
            i <= b.chapters.len(),
            raw_chapters_model(chapters@) == raw_chapters_model(b.chapters@).take(i as int),
        decreases b.chapters.len() - i,
    {
        let c = &b.chapters[i];
        let mut verses: Vec<RawVerse> = Vec::new();
        let mut j: usize = 0;
        while j < c.verses.len()
            invariant
                j <= c.verses.len(),
                raw_verses_model(verses@) == raw_verses_model(c.verses@).take(j as int),
            decreases c.verses.len() - j,
        {
            let v = &c.verses[j];
            let ghost before = raw_verses_model(verses@);
            verses.push(RawVerse { verse: lit_string(v.verse.as_str()), text: lit_string(v.text.as_str()) });
            assert(raw_verses_model(verses@) =~= before.push(raw_verse_model(c.verses@[j as int])));
            assert(raw_verses_model(c.verses@).take(j + 1) =~= raw_verses_model(c.verses@).take(j as int).push(raw_verse_model(c.verses@[j as int])));
            j = j + 1;
        }
        assert(raw_verses_model(c.verses@).take(c.verses.len() as int) =~= raw_verses_model(c.verses@));
        let ghost before = raw_chapters_model(chapters@);
        let nc = RawChapter { chapter: lit_string(c.chapter.as_str()), verses };
        assert(raw_chapter_model(nc) == raw_chapter_model(b.chapters@[i as int]));
        chapters.push(nc);
        assert(raw_chapters_model(chapters@) =~= before.push(raw_chapter_model(b.chapters@[i as int])));
        assert(raw_chapters_model(b.chapters@).take(i + 1) =~= raw_chapters_model(b.chapters@).take(i as int).push(raw_chapter_model(b.chapters@[i as int])));
        i = i + 1;
    }
    assert(raw_chapters_model(b.chapters@).take(b.chapters.len() as int) =~= raw_chapters_model(b.chapters@));
    RawBook { book: lit_string(b.book.as_str()), chapters }
}

/// A copy of the books.
pub fn copy_books(books: &Vec<RawBook>) -> (r: Vec<RawBook>)
    ensures
        raw_books_model(r@) == raw_books_model(books@),
{
    let mut out: Vec<RawBook> = Vec::new();
    let mut i: usize = 0;
    while i < books.len()
        invariant
            i <= books.len(),
            raw_books_model(out@) == raw_books_model(books@).take(i as int),
        decreases books.len() - i,
    {
        let ghost before = raw_books_model(out@);
        out.push(copy_book(&books[i]));
        assert(raw_books_model(out@) =~= before.push(raw_book_model(books@[i as int])));
        assert(raw_books_model(books@).take(i + 1) =~= raw_books_model(books@).take(i as int).push(raw_book_model(books@[i as int])));
        i = i + 1;
    }
    assert(raw_books_model(books@).take(books.len() as int) =~= raw_books_model(books@));
    out
}

/// Fold imported books into the search index and into the persisted
/// imports (see `ScriptureIndex::merge_books` and [`merge_persisted`]);
/// refused while the index is not loaded.
pub fn apply_import(index: &mut Option<ScriptureIndex>, imported: &mut Vec<RawBook>, books: Vec<RawBook>) -> (r: Result<ScriptureImportResult, String>)
    requires
        *old(index) matches Some(i) ==> i.wf(),
        raw_verse_count(books@) <= usize::MAX,
    ensures
        *old(index) is None ==> (r matches Err(e) && e@ == "scripture index not loaded yet — try again in a moment"@
            && *final(index) is None && final(imported)@ == old(imported)@),
        *old(index) matches Some(i) ==> (r matches Ok(res) && *final(index) matches Some(j) && {
            &&& j.wf()
            &&& j.aliases() == aliases_after_all(i.aliases(), books@)
            &&& j.books_model() == books_after_all(i.books_model(), books@)
            &&& raw_books_model(final(imported)@) == persisted(raw_books_model(old(imported)@), raw_books_model(books@))
            &&& res.books == distinct_count(book_names(books@))
            &&& res.verses == raw_verse_count(books@)
            &&& res.total_books == j.books_model().len()
        }),
{
    let mut idx = match index.take() {
        Some(i) => i,
        None => return Err(lit_string("scripture index not loaded yet — try again in a moment")),
    };
    let n = count_distinct(&names_of(&books));
    let copy = copy_books(&books);
    let verses = idx.merge_books(books);
    let total_books = idx.book_count();
    *index = Some(idx);
    merge_persisted(imported, copy);
    Ok(ScriptureImportResult { books: n, verses, total_books })
}

/// The names of the books, in order.
pub open spec fn book_names(books: Seq<RawBook>) -> Seq<Seq<char>> {
    books.map_values(|b: RawBook| b.book@)
}

fn names_of(books: &Vec<RawBook>) -> (r: Vec<String>)
    ensures
        crate::project::name_list_s(r@) == book_names(books@),
{
    let mut out: Vec<String> = Vec::new();
    let mut i: usize = 0;
    while i < books.len()
        invariant
            i <= books.len(),
            crate::project::name_list_s(out@) == book_names(books@).take(i as int),
        decreases books.len() - i,
    {
        let ghost before = crate::project::name_list_s(out@);
        out.push(lit_string(books[i].book.as_str()));
        assert(crate::project::name_list_s(out@) =~= before.push(books@[i as int].book@));
        assert(book_names(books@).take(i + 1) =~= book_names(books@).take(i as int).push(books@[i as int].book@));
        i = i + 1;
    }
    assert(book_names(books@).take(books.len() as int) =~= book_names(books@));
    out
}

/// How many different names `names` holds.
pub open spec fn distinct_count(names: Seq<Seq<char>>) -> nat
    decreases names.len(),
{
    if names.len() == 0 {
        0
    } else {
        distinct_count(names.drop_last()) + if names.drop_last().contains(names.last()) { 0nat } else { 1nat }
    }
}

proof fn lemma_distinct_count_bound(names: Seq<Seq<char>>)
    ensures
        distinct_count(names) <= names.len(),
    decreases names.len(),
{
    if names.len() > 0 {
        lemma_distinct_count_bound(names.drop_last());
    }
}

fn count_distinct(names: &Vec<String>) -> (r: usize)
    ensures
        r == distinct_count(crate::project::name_list_s(names@)),
{
    let ghost all = crate::project::name_list_s(names@);
    let mut count: usize = 0;
    let mut i: usize = 0;
    assert(all.take(0) =~= Seq::<Seq<char>>::empty());
    while i < names.len()
        invariant
            i <= names.len(),
            all == crate::project::name_list_s(names@),
            count == distinct_count(all.take(i as int)),
            count <= i,
        decreases names.len() - i,
    {
        assert(all.take(i + 1).drop_last() =~= all.take(i as int));
        let x = chars_of(names[i].as_str());
        assert(all[i as int] == names@[i as int]@);
        let mut seen = false;
        let mut j: usize = 0;
        while j < i
            invariant
                j <= i,
                i < names.len(),
                all == crate::project::name_list_s(names@),
                x@ == all[i as int],
                seen == exists|q: int| 0 <= q < j && all[q] == x@,
            decreases i - j,
        {
            assert(all[j as int] == names@[j as int]@);
            if eq_chars(&chars_of(names[j].as_str()), &x) {
                seen = true;
            }
            j = j + 1;
        }
        proof {
            if seen {
                let q = choose|q: int| 0 <= q < i && all[q] == x@;
                assert(all.take(i as int)[q] == x@);
            } else {
                if all.take(i as int).contains(x@) {
                    let q = choose|q: int| 0 <= q < i && #[trigger] all.take(i as int)[q] == x@;
                    assert(all[q] == x@);
                }
            }
            lemma_distinct_count_bound(all.take(i + 1));
        }
        if !seen {
            count = count + 1;
        }
        i = i + 1;
    }
    assert(all.take(names.len() as int) =~= all);
    count
}

/// The Bibles the browser lists: the bundled King James Version when the
/// index is loaded (with its book count), the imported Bibles when any
/// book was imported (counting distinct book names), and the King James
/// Version with its 66 books when there is neither.
pub fn bible_list(index_books: Option<usize>, imported_names: &Vec<String>) -> (r: Vec<BibleInfo>)
    ensures
        r.len() == (if index_books is Some { 1int } else { 0int }) + (if imported_names.len() > 0 { 1int } else { 0int })
            + (if index_books is None && imported_names.len() == 0 { 1int } else { 0int }),
        index_books matches Some(n) ==> r@[0].id@ == "kjv"@ && r@[0].name@ == "King James Version"@ && r@[0].book_count == n,
        imported_names.len() > 0 ==> ({
            let e = r@[r.len() - 1];
            e.id@ == "imported"@ && e.name@ == "Imported Bibles"@
                && e.book_count == distinct_count(crate::project::name_list_s(imported_names@))
        }),
        index_books is None && imported_names.len() == 0 ==> r@[0].id@ == "kjv"@ && r@[0].name@ == "King James Version"@
            && r@[0].book_count == 66,
{
    let mut out: Vec<BibleInfo> = Vec::new();
    match index_books {
        Some(n) => out.push(BibleInfo { id: lit_string("kjv"), name: lit_string("King James Version"), book_count: n }),
        None => {},
    }
    if imported_names.len() > 0 {
        let c = count_distinct(imported_names);
        out.push(BibleInfo { id: lit_string("imported"), name: lit_string("Imported Bibles"), book_count: c });
    }
    if out.len() == 0 {
        out.push(BibleInfo { id: lit_string("kjv"), name: lit_string("King James Version"), book_count: 66 });
    }
    out
}

/// `"http://<ip>:<port>"`.
pub open spec fn stage_url(ip: Seq<char>, port: u16) -> Seq<char> {
    "http://"@ + ip + ":"@ + dec(port as nat)
}

fn stage_url_exec(ip: &str, port: u16) -> (r: String)
    ensures
        r@ == stage_url(ip@, port),
{
    let mut m = lit("http://");
    append(&mut m, &chars_of(ip));
    append(&mut m, &lit(":"));
    push_dec(&mut m, port as u64);
    string_of(&m)
}

/// How phones reach the Stage Display: one URL per IPv4 address of a
/// non-loopback interface (`ips`), or the loopback address when there is
/// none; the server binds every interface on `port`.
pub fn stage_network_info(ips: &Vec<String>, port: u16, enabled: bool, pin: &str) -> (r: StageNetworkInfo)
    ensures
        r.bind_host@ == "0.0.0.0:"@ + dec(port as nat),
        ips.len() > 0 ==> r.urls.len() == ips.len() && forall|i: int| 0 <= i < ips.len() ==> (#[trigger] r.urls@[i])@ == stage_url(ips@[i]@, port),
        ips.len() == 0 ==> r.urls.len() == 1 && r.urls@[0]@ == stage_url("127.0.0.1"@, port),
        r.port == port,
        r.enabled == enabled,
        r.pin@ == pin@,
{
    let mut urls: Vec<String> = Vec::new();
    let mut i: usize = 0;
    while i < ips.len()
        invariant
            i <= ips.len(),
            urls.len() == i,
            forall|q: int| 0 <= q < i ==> (#[trigger] urls@[q])@ == stage_url(ips@[q]@, port),
        decreases ips.len() - i,
    {
        urls.push(stage_url_exec(ips[i].as_str(), port));
        i = i + 1;
    }
    if urls.len() == 0 {
        urls.push(stage_url_exec("127.0.0.1", port));
    }
    let mut b = lit("0.0.0.0:");
    push_dec(&mut b, port as u64);
    StageNetworkInfo { bind_host: string_of(&b), urls, port, enabled, pin: lit_string(pin) }
}

} // verus!
