//! Browsing a Bible: its book list, the chapters of a book and the verses of
//! a chapter, from the built-in index or from the imported Bibles.
use crate::commands::ChapterVerse;
use crate::project::lit_string;
use crate::scripture::{chapter_list, chapter_verses, ordered_names, resolved_book, string_list, verse_pairs, ScriptureIndex};
use crate::scripture_books::{parsed_verses, RawBook, RawChapter, RawVerse, VerseM};
use crate::text::{append, chars_of, dec, eq_chars, lit, lowercase, parse_u32, parse_u32_chars, push_dec, string_of, to_lowercase};
use vstd::prelude::*;

verus! {

broadcast use {vstd::seq_lib::to_multiset_insert, vstd::seq_lib::to_multiset_build};

/// What the browser answers when nothing has been imported.
pub open spec fn no_imports_msg() -> Seq<char> {
    "no imported Bibles found — place OpenLP XML files in bibles folder or use Import button"@
}

/// The book names, in order.
pub open spec fn raw_names(bs: Seq<RawBook>) -> Seq<Seq<char>> {
    bs.map_values(|b: RawBook| b.book@)
}

/// The names without repeats, each where it first occurs.
pub open spec fn distinct_names(s: Seq<Seq<char>>) -> Seq<Seq<char>>
    decreases s.len(),
{
    if s.len() == 0 {
        seq![]
    } else {
        let r = distinct_names(s.drop_last());
        if r.contains(s.last()) {
            r
        } else {
            r.push(s.last())
        }
    }
}

/// A book is asked for by its name in any letter case.
pub open spec fn same_book(b: RawBook, book: Seq<char>) -> bool {
    lowercase(b.book@) == lowercase(book)
}

/// The first book with the asked-for name.
pub open spec fn first_book(bs: Seq<RawBook>, book: Seq<char>) -> Option<int>
    decreases bs.len(),
{
    if bs.len() == 0 {
        None
    } else {
        match first_book(bs.drop_last(), book) {
            Some(i) => Some(i),
            None => if same_book(bs.last(), book) { Some(bs.len() - 1) } else { None },
        }
    }
}

/// The chapter numbers that parse, in order.
pub open spec fn chapter_nums(cs: Seq<RawChapter>) -> Seq<u32>
    decreases cs.len(),
{
    if cs.len() == 0 {
        seq![]
    } else {
        let r = chapter_nums(cs.drop_last());
        match parse_u32(cs.last().chapter@) {
            Some(n) => r.push(n),
            None => r,
        }
    }
}

/// A chapter whose number parses to `n`.
pub open spec fn chapter_is(c: RawChapter, n: u32) -> bool {
    parse_u32(c.chapter@) == Some(n)
}

/// The first chapter whose number parses to `n`.
pub open spec fn first_chapter(cs: Seq<RawChapter>, n: u32) -> Option<int>
    decreases cs.len(),
{
    if cs.len() == 0 {
        None
    } else {
        match first_chapter(cs.drop_last(), n) {
            Some(i) => Some(i),
            None => if chapter_is(cs.last(), n) { Some(cs.len() - 1) } else { None },
        }
    }
}

pub open spec fn ascending(s: Seq<u32>) -> bool {
    forall|a: int, b: int| 0 <= a < b < s.len() ==> s[a] <= s[b]
}

/// The verses as number and text.
pub open spec fn verses_of(v: Seq<ChapterVerse>) -> Seq<VerseM> {
    v.map_values(|c: ChapterVerse| (c.verse, c.text@))
}

proof fn lemma_first_book_found(bs: Seq<RawBook>, book: Seq<char>, i: int)
    requires
        0 <= i < bs.len(),
        same_book(bs[i], book),
        forall|k: int| 0 <= k < i ==> !same_book(#[trigger] bs[k], book),
    ensures
        first_book(bs, book) == Some(i),
    decreases bs.len(),
{
    if i < bs.len() - 1 {
        lemma_first_book_found(bs.drop_last(), book, i);
    } else {
        lemma_first_book_none(bs.drop_last(), book);
    }
}

proof fn lemma_first_book_none(bs: Seq<RawBook>, book: Seq<char>)
    requires
        forall|k: int| 0 <= k < bs.len() ==> !same_book(#[trigger] bs[k], book),
    ensures
        first_book(bs, book) is None,
    decreases bs.len(),
{
    if bs.len() > 0 {
        lemma_first_book_none(bs.drop_last(), book);
    }
}

proof fn lemma_first_chapter_found(cs: Seq<RawChapter>, n: u32, i: int)
    requires
        0 <= i < cs.len(),
        chapter_is(cs[i], n),
        forall|k: int| 0 <= k < i ==> !chapter_is(#[trigger] cs[k], n),
    ensures
        first_chapter(cs, n) == Some(i),
    decreases cs.len(),
{
    if i < cs.len() - 1 {
        lemma_first_chapter_found(cs.drop_last(), n, i);
    } else {
        lemma_first_chapter_none(cs.drop_last(), n);
    }
}

proof fn lemma_first_chapter_none(cs: Seq<RawChapter>, n: u32)
    requires
        forall|k: int| 0 <= k < cs.len() ==> !chapter_is(#[trigger] cs[k], n),
    ensures
        first_chapter(cs, n) is None,
    decreases cs.len(),
{
    if cs.len() > 0 {
        lemma_first_chapter_none(cs.drop_last(), n);
    }
}

/// Finds the first book named `book` in any letter case.
fn find_imported_book(books: &Vec<RawBook>, book: &str) -> (r: Option<usize>)
    ensures
        match r {
            Some(i) => i < books.len() && first_book(books@, book@) == Some(i as int),
            None => first_book(books@, book@) is None,
        },
{
    let key = to_lowercase(&chars_of(book));
    let mut i: usize = 0;
    while i < books.len()
        invariant
            i <= books.len(),
            key@ == lowercase(book@),
            forall|k: int| 0 <= k < i ==> !same_book(#[trigger] books@[k], book@),
        decreases books.len() - i,
    {
        let name = to_lowercase(&chars_of(books[i].book.as_str()));
        if eq_chars(&name, &key) {
            proof {
                lemma_first_book_found(books@, book@, i as int);
            }
            return Some(i);
        }
        i = i + 1;
    }
    proof {
        lemma_first_book_none(books@, book@);
    }
    None
}

fn not_found_book(book: &str, tail: &str) -> (r: String)
    ensures
        r@ == "book "@ + book@ + tail@,
{
    let mut out = lit("book ");
    append(&mut out, &chars_of(book));
    append(&mut out, &chars_of(tail));
    string_of(&out)
}

fn not_found_chapter(book: &str, chapter: u32, tail: &str) -> (r: String)
    ensures
        r@ == book@ + " "@ + dec(chapter as nat) + tail@,
{
    let mut out = chars_of(book);
    append(&mut out, &lit(" "));
    push_dec(&mut out, chapter as u64);
    append(&mut out, &chars_of(tail));
    string_of(&out)
}

fn unknown_bible(bible_id: &str) -> (r: String)
    ensures
        r@ == "unknown bible id: "@ + bible_id@,
{
    let mut out = lit("unknown bible id: ");
    append(&mut out, &chars_of(bible_id));
    string_of(&out)
}

/// The names of the imported books, each once, in the order first met.
pub fn imported_book_list(books: &Vec<RawBook>) -> (r: Result<Vec<String>, String>)
    ensures
        books.len() == 0 ==> (r matches Err(e) && e@ == no_imports_msg()),
        books.len() > 0 ==> (r matches Ok(v) && string_list(v@) == distinct_names(raw_names(books@))),
{
    if books.len() == 0 {
        return Err(lit_string("no imported Bibles found — place OpenLP XML files in bibles folder or use Import button"));
    }
    let ghost names = raw_names(books@);
    let mut out: Vec<String> = Vec::new();
    let mut i: usize = 0;
    while i < books.len()
        invariant
            i <= books.len(),
            names == raw_names(books@),
            string_list(out@) == distinct_names(names.take(i as int)),
        decreases books.len() - i,
    {
        let name = chars_of(books[i].book.as_str());
        assert(names.take(i + 1).drop_last() =~= names.take(i as int));
        let mut seen = false;
        let mut j: usize = 0;
        while j < out.len()
            invariant
                i < books.len(),
                j <= out.len(),
                name@ == books@[i as int].book@,
                seen <==> exists|k: int| 0 <= k < j && string_list(out@)[k] == name@,
            decreases out.len() - j,
        {
            let same = eq_chars(&chars_of(out[j].as_str()), &name);
            proof {
                assert(string_list(out@)[j as int] == out@[j as int]@);
            }
            if same {
                seen = true;
            }
            j = j + 1;
        }
        let ghost before = string_list(out@);
        if !seen {
            out.push(string_of(&name));
            assert(string_list(out@) =~= before.push(name@));
        }
        proof {
            assert(names.take(i + 1).last() == name@);
            if seen {
                let k = choose|k: int| 0 <= k < before.len() && before[k] == name@;
                assert(before.contains(name@));
            } else {
                assert(!before.contains(name@));
            }
        }
        i = i + 1;
    }
    assert(names.take(books.len() as int) =~= names);
    Ok(out)
}

/// The numbers of the imported book's chapters, ascending.
pub fn imported_chapter_list(books: &Vec<RawBook>, book: &str) -> (r: Result<Vec<u32>, String>)
    ensures
        books.len() == 0 ==> (r matches Err(e) && e@ == no_imports_msg()),
        books.len() > 0 ==> match first_book(books@, book@) {
            Some(i) => r matches Ok(v) && ascending(v@)
                && v@.to_multiset() == chapter_nums(books@[i].chapters@).to_multiset(),
            None => r matches Err(e) && e@ == "book "@ + book@ + " not found in imported Bibles"@,
        },
{
    if books.len() == 0 {
        return Err(lit_string("no imported Bibles found — place OpenLP XML files in bibles folder or use Import button"));
    }
    let bi = match find_imported_book(books, book) {
        Some(bi) => bi,
        None => return Err(not_found_book(book, " not found in imported Bibles")),
    };
    let cs = &books[bi].chapters;
    let ghost nums = chapter_nums(cs@);
    let mut out: Vec<u32> = Vec::new();
    let mut i: usize = 0;
    while i < cs.len()
        invariant
            i <= cs.len(),
            nums == chapter_nums(cs@),
            ascending(out@),
            out@.to_multiset() == chapter_nums(cs@.take(i as int)).to_multiset(),
            bi < books.len(),
            first_book(books@, book@) == Some(bi as int),
            cs@ == books@[bi as int].chapters@,
        decreases cs.len() - i,
    {
        assert(cs@.take(i + 1).drop_last() =~= cs@.take(i as int));
        match parse_u32_chars(&chars_of(cs[i].chapter.as_str())) {
            Some(n) => {
                let mut j: usize = out.len();
                while j > 0 && out[j - 1] > n
                    invariant
                        j <= out.len(),
                        ascending(out@),
                        forall|k: int| j <= k < out.len() ==> out@[k] > n,
                    decreases j,
                {
                    j = j - 1;
                }
                let ghost before = out@;
                out.insert(j, n);
                proof {
                    assert(out@ == before.insert(j as int, n));
                    assert forall|a: int, b: int| 0 <= a < b < out@.len() implies out@[a] <= out@[b] by {
                        if b < j {
                        } else if a < j && b == j {
                        } else if a < j {
                            assert(out@[b] == before[b - 1]);
                        } else if a == j {
                            assert(out@[b] == before[b - 1]);
                        } else {
                            assert(out@[a] == before[a - 1] && out@[b] == before[b - 1]);
                        }
                    }
                }
            },
            None => {},
        }
        i = i + 1;
    }
    assert(cs@.take(cs.len() as int) =~= cs@);
    Ok(out)
}

/// The numbered verses of chapter `chapter` of the imported book.
pub fn imported_chapter(books: &Vec<RawBook>, book: &str, chapter: u32) -> (r: Result<Vec<ChapterVerse>, String>)
    ensures
        books.len() == 0 ==> (r matches Err(e) && e@ == no_imports_msg()),
        books.len() > 0 ==> match first_book(books@, book@) {
            Some(i) => match first_chapter(books@[i].chapters@, chapter) {
                Some(c) => r matches Ok(v) && verses_of(v@) == parsed_verses(books@[i].chapters@[c].verses@),
                None => r matches Err(e) && e@ == book@ + " "@ + dec(chapter as nat) + " not found in imported Bibles"@,
            },
            None => r matches Err(e) && e@ == "book "@ + book@ + " not found in imported Bibles"@,
        },
{
    if books.len() == 0 {
        return Err(lit_string("no imported Bibles found — place OpenLP XML files in bibles folder or use Import button"));
    }
    let bi = match find_imported_book(books, book) {
        Some(bi) => bi,
        None => return Err(not_found_book(book, " not found in imported Bibles")),
    };
    let cs = &books[bi].chapters;
    let mut ci: usize = 0;
    while ci < cs.len()
        invariant
            ci <= cs.len(),
            forall|k: int| 0 <= k < ci ==> !chapter_is(#[trigger] cs@[k], chapter),
            books.len() > 0,
            bi < books.len(),
            first_book(books@, book@) == Some(bi as int),
            cs@ == books@[bi as int].chapters@,
        decreases cs.len() - ci,
    {
        if parse_u32_chars(&chars_of(cs[ci].chapter.as_str())) == Some(chapter) {
            proof {
                lemma_first_chapter_found(cs@, chapter, ci as int);
            }
            let vs = &cs[ci].verses;
            let mut out: Vec<ChapterVerse> = Vec::new();
            let mut j: usize = 0;
            while j < vs.len()
                invariant
                    j <= vs.len(),
                    verses_of(out@) == parsed_verses(vs@.take(j as int)),
                    ci < cs.len(),
                    vs@ == cs@[ci as int].verses@,
                    books.len() > 0,
                    bi < books.len(),
                    first_book(books@, book@) == Some(bi as int),
                    first_chapter(cs@, chapter) == Some(ci as int),
                    cs@ == books@[bi as int].chapters@,
                decreases vs.len() - j,
            {
                assert(vs@.take(j + 1).drop_last() =~= vs@.take(j as int));
                match parse_u32_chars(&chars_of(vs[j].verse.as_str())) {
                    Some(n) => {
                        let ghost before = verses_of(out@);
                        out.push(ChapterVerse { verse: n, text: lit_string(vs[j].text.as_str()) });
                        assert(verses_of(out@) =~= before.push((n, vs@[j as int].text@)));
                    },
                    None => {},
                }
                j = j + 1;
            }
            assert(vs@.take(vs.len() as int) =~= vs@);
            return Ok(out);
        }
        ci = ci + 1;
    }
    proof {
        lemma_first_chapter_none(cs@, chapter);
    }
    Err(not_found_chapter(book, chapter, " not found in imported Bibles"))
}

/// The books of Bible `bible_id`: the built-in index in canonical order, or
/// the imported books, each once. `imported` holds the persisted imports and
/// the books found in the Bibles folder.
pub fn get_book_list(index: &Option<ScriptureIndex>, imported: &Vec<RawBook>, bible_id: &str) -> (r: Result<Vec<String>, String>)
    ensures
        bible_id@ == "kjv"@ ==> match index {
            Some(i) => r matches Ok(v) && string_list(v@) == ordered_names(i.books_model()),
            None => r matches Err(e) && e@ == "scripture index not loaded yet"@,
        },
        bible_id@ == "imported"@ && imported.len() == 0 ==> (r matches Err(e) && e@ == no_imports_msg()),
        bible_id@ == "imported"@ && imported.len() > 0 ==> (r matches Ok(v)
            && string_list(v@) == distinct_names(raw_names(imported@))),
        bible_id@ != "kjv"@ && bible_id@ != "imported"@ ==> (r matches Err(e) && e@ == "unknown bible id: "@ + bible_id@),
{
    proof {
        reveal_strlit("kjv");
        reveal_strlit("imported");
        assert("kjv"@ != "imported"@) by {
            assert("kjv"@.len() != "imported"@.len());
        }
    }
    let id = chars_of(bible_id);
    if eq_chars(&id, &lit("kjv")) {
        match index {
            Some(i) => Ok(i.ordered_book_names()),
            None => Err(lit_string("scripture index not loaded yet")),
        }
    } else if eq_chars(&id, &lit("imported")) {
        imported_book_list(imported)
    } else {
        Err(unknown_bible(bible_id))
    }
}

/// The chapter numbers of `book` in Bible `bible_id`.
pub fn list_chapters(index: &Option<ScriptureIndex>, imported: &Vec<RawBook>, bible_id: &str, book: &str) -> (r: Result<Vec<u32>, String>)
    requires
        index matches Some(i) ==> i.wf(),
    ensures
        bible_id@ == "kjv"@ ==> match index {
            Some(i) => match chapter_list(i.books_model(), resolved_book(i.aliases(), i.books_model(), book@)) {
                Some(ns) => r matches Ok(v) && v@ == ns,
                None => r matches Err(e) && e@ == "book "@ + book@ + " not found in KJV"@,
            },
            None => r matches Err(e) && e@ == "scripture index not loaded yet"@,
        },
        bible_id@ == "imported"@ && imported.len() == 0 ==> (r matches Err(e) && e@ == no_imports_msg()),
        bible_id@ == "imported"@ && imported.len() > 0 ==> match first_book(imported@, book@) {
            Some(b) => r matches Ok(v) && ascending(v@)
                && v@.to_multiset() == chapter_nums(imported@[b].chapters@).to_multiset(),
            None => r matches Err(e) && e@ == "book "@ + book@ + " not found in imported Bibles"@,
        },
        bible_id@ != "kjv"@ && bible_id@ != "imported"@ ==> (r matches Err(e) && e@ == "unknown bible id: "@ + bible_id@),
{
    proof {
        reveal_strlit("kjv");
        reveal_strlit("imported");
        assert("kjv"@ != "imported"@) by {
            assert("kjv"@.len() != "imported"@.len());
        }
    }
    let id = chars_of(bible_id);
    if eq_chars(&id, &lit("kjv")) {
        match index {
            Some(i) => match i.chapter_numbers(book) {
                Some(v) => Ok(v),
                None => Err(not_found_book(book, " not found in KJV")),
            },
            None => Err(lit_string("scripture index not loaded yet")),
        }
    } else if eq_chars(&id, &lit("imported")) {
        imported_chapter_list(imported, book)
    } else {
        Err(unknown_bible(bible_id))
    }
}

/// The verses of chapter `chapter` of `book` in Bible `bible_id`.
pub fn get_chapter(index: &Option<ScriptureIndex>, imported: &Vec<RawBook>, bible_id: &str, book: &str, chapter: u32) -> (r: Result<Vec<ChapterVerse>, String>)
    requires
        index matches Some(i) ==> i.wf(),
    ensures
        bible_id@ == "kjv"@ ==> match index {
            Some(i) => match chapter_verses(i.books_model(), resolved_book(i.aliases(), i.books_model(), book@), chapter) {
                Some(vs) => r matches Ok(v) && verses_of(v@) == vs,
                None => r matches Err(e) && e@ == book@ + " "@ + dec(chapter as nat) + " not found in KJV"@,
            },
            None => r matches Err(e) && e@ == "scripture index not loaded yet"@,
        },
        bible_id@ == "imported"@ && imported.len() == 0 ==> (r matches Err(e) && e@ == no_imports_msg()),
        bible_id@ == "imported"@ && imported.len() > 0 ==> match first_book(imported@, book@) {
            Some(b) => match first_chapter(imported@[b].chapters@, chapter) {
                Some(c) => r matches Ok(v) && verses_of(v@) == parsed_verses(imported@[b].chapters@[c].verses@),
                None => r matches Err(e) && e@ == book@ + " "@ + dec(chapter as nat) + " not found in imported Bibles"@,
            },
            None => r matches Err(e) && e@ == "book "@ + book@ + " not found in imported Bibles"@,
        },
        bible_id@ != "kjv"@ && bible_id@ != "imported"@ ==> (r matches Err(e) && e@ == "unknown bible id: "@ + bible_id@),
{
    proof {
        reveal_strlit("kjv");
        reveal_strlit("imported");
        assert("kjv"@ != "imported"@) by {
            assert("kjv"@.len() != "imported"@.len());
        }
    }
    let id = chars_of(bible_id);
    if eq_chars(&id, &lit("kjv")) {
        match index {
            Some(i) => match i.get_chapter_verses(book, chapter) {
                Some(pairs) => {
                    let mut out: Vec<ChapterVerse> = Vec::new();
                    let mut k: usize = 0;
                    while k < pairs.len()
                        invariant
                            k <= pairs.len(),
                            verses_of(out@) == verse_pairs(pairs@).take(k as int),
                            verse_pairs(pairs@).len() == pairs.len(),
                        decreases pairs.len() - k,
                    {
                        let ghost before = verses_of(out@);
                        out.push(ChapterVerse { verse: pairs[k].0, text: lit_string(pairs[k].1.as_str()) });
                        assert(verses_of(out@) =~= before.push((pairs@[k as int].0, pairs@[k as int].1@)));
                        assert(verse_pairs(pairs@).take(k + 1) =~= verse_pairs(pairs@).take(k as int).push(verse_pairs(pairs@)[k as int]));
                        k = k + 1;
                    }
                    assert(verse_pairs(pairs@).take(pairs.len() as int) =~= verse_pairs(pairs@));
                    Ok(out)
                },
                None => Err(not_found_chapter(book, chapter, " not found in KJV")),
            },
            None => Err(lit_string("scripture index not loaded yet")),
        }
    } else if eq_chars(&id, &lit("imported")) {
        imported_chapter(imported, book, chapter)
    } else {
        Err(unknown_bible(bible_id))
    }
}

/// The imported book list names every imported book, and each only once.
pub proof fn law_book_list_each_once(s: Seq<Seq<char>>)
    ensures
        forall|x: Seq<char>| distinct_names(s).contains(x) <==> s.contains(x),
        forall|a: int, b: int| 0 <= a < b < distinct_names(s).len() ==> distinct_names(s)[a] != distinct_names(s)[b],
    decreases s.len(),
{
    if s.len() > 0 {
        let init = s.drop_last();
        law_book_list_each_once(init);
        let r = distinct_names(init);
        assert forall|x: Seq<char>| distinct_names(s).contains(x) <==> s.contains(x) by {
            if s.contains(x) && x != s.last() {
                let k = choose|k: int| 0 <= k < s.len() && s[k] == x;
                assert(init[k] == x);
                assert(init.contains(x));
            }
            if init.contains(x) {
                let k = choose|k: int| 0 <= k < init.len() && init[k] == x;
                assert(s[k] == x);
            }
            if r.contains(s.last()) {
            } else {
                assert(r.push(s.last())[r.len() as int] == s.last());
                if r.contains(x) {
                    let k = choose|k: int| 0 <= k < r.len() && r[k] == x;
                    assert(r.push(s.last())[k] == x);
                }
                if r.push(s.last()).contains(x) && x != s.last() {
                    let k = choose|k: int| 0 <= k < r.len() + 1 && r.push(s.last())[k] == x;
                    assert(r[k] == x);
                }
            }
            assert(s[s.len() - 1] == s.last());
        }
    }
}

} // verus!
