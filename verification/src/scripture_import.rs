//! Imported Bible text: the persisted list of imported books, verses
//! fetched from bible-api.com, and the flat match list a set of raw books
//! turns into.
use crate::scripture::{
    fill, hit, lemma_fill_push, make_hit,
    match_model, matches_model, MatchM, ScriptureMatch,
};
use crate::scripture_books::{RawBook, RawChapter, RawVerse};
use crate::text::{
    chars_of, dec, eq_chars, lit, parse_u32, parse_u32_chars, push_dec, string_of, trim,
    trim_chars,
};
use vstd::prelude::*;
use vstd::string::StringSliceAdditionalSpecFns;

verus! {

// ---------------------------------------------------------------------------
// Models of raw books
// ---------------------------------------------------------------------------

/// A raw verse: its number and text, both as written.
pub type RawVerseM = (Seq<char>, Seq<char>);

/// A raw chapter: its number as written and its verses.
pub type RawChapterM = (Seq<char>, Seq<RawVerseM>);

/// A raw book: its name and chapters.
pub type RawBookM = (Seq<char>, Seq<RawChapterM>);

pub open spec fn raw_verse_model(v: RawVerse) -> RawVerseM {
    (v.verse@, v.text@)
}

pub open spec fn raw_verses_model(vs: Seq<RawVerse>) -> Seq<RawVerseM> {
    vs.map_values(|v: RawVerse| raw_verse_model(v))
}

pub open spec fn raw_chapter_model(c: RawChapter) -> RawChapterM {
    (c.chapter@, raw_verses_model(c.verses@))
}

pub open spec fn raw_chapters_model(cs: Seq<RawChapter>) -> Seq<RawChapterM> {
    cs.map_values(|c: RawChapter| raw_chapter_model(c))
}

pub open spec fn raw_book_model(b: RawBook) -> RawBookM {
    (b.book@, raw_chapters_model(b.chapters@))
}

pub open spec fn raw_books_model(bs: Seq<RawBook>) -> Seq<RawBookM> {
    bs.map_values(|b: RawBook| raw_book_model(b))
}

/// Position of the first entry whose label is `k`.
pub open spec fn first_label<T>(s: Seq<(Seq<char>, T)>, k: Seq<char>) -> Option<int>
    decreases s.len(),
{
    if s.len() == 0 {
        None
    } else if s[0].0 == k {
        Some(0)
    } else {
        match first_label(s.drop_first(), k) {
            Some(i) => Some(i + 1),
            None => None,
        }
    }
}

pub proof fn lemma_first_label_found<T>(s: Seq<(Seq<char>, T)>, k: Seq<char>, i: int)
    requires
        0 <= i < s.len(),
        s[i].0 == k,
        forall|j: int| 0 <= j < i ==> #[trigger] s[j].0 != k,
    ensures
        first_label(s, k) == Some(i),
    decreases i,
{
    if i > 0 {
        assert forall|j: int| 0 <= j < i - 1 implies #[trigger] s.drop_first()[j].0 != k by {
            assert(s.drop_first()[j] == s[j + 1]);
        }
        lemma_first_label_found(s.drop_first(), k, i - 1);
    }
}

pub proof fn lemma_first_label_none<T>(s: Seq<(Seq<char>, T)>, k: Seq<char>)
    requires
        forall|j: int| 0 <= j < s.len() ==> #[trigger] s[j].0 != k,
    ensures
        first_label(s, k) == None::<int>,
    decreases s.len(),
{
    if s.len() > 0 {
        assert forall|j: int| 0 <= j < s.len() - 1 implies #[trigger] s.drop_first()[j].0 != k by {
            assert(s.drop_first()[j] == s[j + 1]);
        }
        lemma_first_label_none(s.drop_first(), k);
    }
}

// ---------------------------------------------------------------------------
// The persisted list of imported books
// ---------------------------------------------------------------------------

/// The first verse labelled like `v` takes `v`'s text; otherwise `v` is appended.
pub open spec fn upsert_raw_verse(dst: Seq<RawVerseM>, v: RawVerseM) -> Seq<RawVerseM> {
    match first_label(dst, v.0) {
        Some(i) => dst.update(i, (dst[i].0, v.1)),
        None => dst.push(v),
    }
}

pub open spec fn merge_raw_verses(dst: Seq<RawVerseM>, inc: Seq<RawVerseM>) -> Seq<RawVerseM>
    decreases inc.len(),
{
    if inc.len() == 0 {
        dst
    } else {
        upsert_raw_verse(merge_raw_verses(dst, inc.drop_last()), inc.last())
    }
}

/// A chapter folded in: merged into the first chapter with its label, or appended.
pub open spec fn merge_raw_chapter(chs: Seq<RawChapterM>, ch: RawChapterM) -> Seq<RawChapterM> {
    match first_label(chs, ch.0) {
        Some(i) => chs.update(i, (chs[i].0, merge_raw_verses(chs[i].1, ch.1))),
        None => chs.push(ch),
    }
}

pub open spec fn merge_raw_chapters(chs: Seq<RawChapterM>, inc: Seq<RawChapterM>) -> Seq<RawChapterM>
    decreases inc.len(),
{
    if inc.len() == 0 {
        chs
    } else {
        merge_raw_chapter(merge_raw_chapters(chs, inc.drop_last()), inc.last())
    }
}

/// A book folded into the persisted list: merged into the first book of its
/// name, or appended.
pub open spec fn persist_book(bs: Seq<RawBookM>, b: RawBookM) -> Seq<RawBookM> {
    match first_label(bs, b.0) {
        Some(i) => bs.update(i, (bs[i].0, merge_raw_chapters(bs[i].1, b.1))),
        None => bs.push(b),
    }
}

pub open spec fn persisted(bs: Seq<RawBookM>, added: Seq<RawBookM>) -> Seq<RawBookM>
    decreases added.len(),
{
    if added.len() == 0 {
        bs
    } else {
        persist_book(persisted(bs, added.drop_last()), added.last())
    }
}

fn find_raw_verse(vs: &Vec<RawVerse>, label: &String) -> (r: Option<usize>)
    ensures
        match r {
            Some(i) => i < vs.len() && first_label(raw_verses_model(vs@), label@) == Some(i as int),
            None => first_label(raw_verses_model(vs@), label@) == None::<int>,
        },
{
    let ghost m = raw_verses_model(vs@);
    let l = chars_of(label.as_str());
    let mut i: usize = 0;
    while i < vs.len()
        invariant
            i <= vs.len(),
            m == raw_verses_model(vs@),
            l@ == label@,
            forall|j: int| 0 <= j < i ==> #[trigger] m[j].0 != label@,
        decreases vs.len() - i,
    {
        assert(m[i as int].0 == vs@[i as int].verse@);
        if eq_chars(&chars_of(vs[i].verse.as_str()), &l) {
            proof {
                lemma_first_label_found(m, label@, i as int);
            }
            return Some(i);
        }
        i = i + 1;
    }
    proof {
        lemma_first_label_none(m, label@);
    }
    None
}

fn find_raw_chapter(cs: &Vec<RawChapter>, label: &String) -> (r: Option<usize>)
    ensures
        match r {
            Some(i) => i < cs.len() && first_label(raw_chapters_model(cs@), label@) == Some(i as int),
            None => first_label(raw_chapters_model(cs@), label@) == None::<int>,
        },
{
    let ghost m = raw_chapters_model(cs@);
    let l = chars_of(label.as_str());
    let mut i: usize = 0;
    while i < cs.len()
        invariant
            i <= cs.len(),
            m == raw_chapters_model(cs@),
            l@ == label@,
            forall|j: int| 0 <= j < i ==> #[trigger] m[j].0 != label@,
        decreases cs.len() - i,
    {
        assert(m[i as int].0 == cs@[i as int].chapter@);
        if eq_chars(&chars_of(cs[i].chapter.as_str()), &l) {
            proof {
                lemma_first_label_found(m, label@, i as int);
            }
            return Some(i);
        }
        i = i + 1;
    }
    proof {
        lemma_first_label_none(m, label@);
    }
    None
}

fn find_raw_book(bs: &Vec<RawBook>, label: &String) -> (r: Option<usize>)
    ensures
        match r {
            Some(i) => i < bs.len() && first_label(raw_books_model(bs@), label@) == Some(i as int),
            None => first_label(raw_books_model(bs@), label@) == None::<int>,
        },
{
    let ghost m = raw_books_model(bs@);
    let l = chars_of(label.as_str());
    let mut i: usize = 0;
    while i < bs.len()
        invariant
            i <= bs.len(),
            m == raw_books_model(bs@),
            l@ == label@,
            forall|j: int| 0 <= j < i ==> #[trigger] m[j].0 != label@,
        decreases bs.len() - i,
    {
        assert(m[i as int].0 == bs@[i as int].book@);
        if eq_chars(&chars_of(bs[i].book.as_str()), &l) {
            proof {
                lemma_first_label_found(m, label@, i as int);
            }
            return Some(i);
        }
        i = i + 1;
    }
    proof {
        lemma_first_label_none(m, label@);
    }
    None
}

/// Move the items of `v` out, first to last.
pub(crate) fn into_reversed<T>(v: Vec<T>) -> (r: Vec<T>)
    ensures
        r.len() == v.len(),
        forall|k: int| 0 <= k < v.len() ==> #[trigger] r@[k] == v@[v.len() - 1 - k],
{
    let ghost orig = v@;
    let n = v.len();
    let mut src = v;
    let mut rev: Vec<T> = Vec::new();
    while src.len() > 0
        invariant
            src.len() + rev.len() == n,
            orig.len() == n,
            forall|k: int| 0 <= k < rev.len() ==> #[trigger] rev@[k] == orig[n - 1 - k],
            forall|k: int| 0 <= k < src.len() ==> #[trigger] src@[k] == orig[k],
        decreases src.len(),
    {
        let x = src.pop().unwrap();
        rev.push(x);
    }
    rev
}

fn merge_raw_verses_exec(dst: &mut Vec<RawVerse>, inc: Vec<RawVerse>)
    ensures
        raw_verses_model(final(dst)@) == merge_raw_verses(raw_verses_model(old(dst)@), raw_verses_model(inc@)),
{
    let ghost d0 = raw_verses_model(dst@);
    let ghost im = raw_verses_model(inc@);
    let n = inc.len();
    let mut rev = into_reversed(inc);
    let mut taken: usize = 0;
    assert(im.take(0) =~= Seq::<RawVerseM>::empty());
    while rev.len() > 0
        invariant
            taken + rev.len() == n,
            im.len() == n,
            forall|k: int| 0 <= k < rev.len() ==> #[trigger] raw_verse_model(rev@[k]) == im[n - 1 - k],
            raw_verses_model(dst@) == merge_raw_verses(d0, im.take(taken as int)),
        decreases rev.len(),
    {
        let v = rev.pop().unwrap();
        assert(raw_verse_model(v) == im[taken as int]);
        assert(im.take(taken + 1).drop_last() =~= im.take(taken as int));
        let ghost before = raw_verses_model(dst@);
        match find_raw_verse(dst, &v.verse) {
            Some(i) => {
                let mut ev = dst.remove(i);
                ev.text = v.text;
                dst.insert(i, ev);
                assert(raw_verses_model(dst@) =~= upsert_raw_verse(before, raw_verse_model(v)));
            },
            None => {
                dst.push(v);
                assert(raw_verses_model(dst@) =~= upsert_raw_verse(before, raw_verse_model(v)));
            },
        }
        taken = taken + 1;
    }
    assert(im.take(n as int) =~= im);
}

fn merge_raw_chapters_exec(dst: &mut Vec<RawChapter>, inc: Vec<RawChapter>)
    ensures
        raw_chapters_model(final(dst)@) == merge_raw_chapters(raw_chapters_model(old(dst)@), raw_chapters_model(inc@)),
{
    let ghost d0 = raw_chapters_model(dst@);
    let ghost im = raw_chapters_model(inc@);
    let n = inc.len();
    let mut rev = into_reversed(inc);
    let mut taken: usize = 0;
    assert(im.take(0) =~= Seq::<RawChapterM>::empty());
    while rev.len() > 0
        invariant
            taken + rev.len() == n,
            im.len() == n,
            forall|k: int| 0 <= k < rev.len() ==> #[trigger] raw_chapter_model(rev@[k]) == im[n - 1 - k],
            raw_chapters_model(dst@) == merge_raw_chapters(d0, im.take(taken as int)),
        decreases rev.len(),
    {
        let ch = rev.pop().unwrap();
        assert(raw_chapter_model(ch) == im[taken as int]);
        assert(im.take(taken + 1).drop_last() =~= im.take(taken as int));
        let ghost before = raw_chapters_model(dst@);
        match find_raw_chapter(dst, &ch.chapter) {
            Some(i) => {
                let mut ec = dst.remove(i);
                assert(raw_chapter_model(ec) == before[i as int]);
                merge_raw_verses_exec(&mut ec.verses, ch.verses);
                dst.insert(i, ec);
                assert(raw_chapters_model(dst@) =~= merge_raw_chapter(before, raw_chapter_model(ch)));
            },
            None => {
                dst.push(ch);
                assert(raw_chapters_model(dst@) =~= merge_raw_chapter(before, raw_chapter_model(ch)));
            },
        }
        taken = taken + 1;
    }
    assert(im.take(n as int) =~= im);
}

/// Fold newly imported books into the persisted list: matching verses take
/// the new text; books, chapters and verses found on one side only are kept.
pub fn merge_persisted(existing: &mut Vec<RawBook>, added: Vec<RawBook>)
    ensures
        raw_books_model(final(existing)@) == persisted(raw_books_model(old(existing)@), raw_books_model(added@)),
{
    let ghost d0 = raw_books_model(existing@);
    let ghost im = raw_books_model(added@);
    let n = added.len();
    let mut rev = into_reversed(added);
    let mut taken: usize = 0;
    assert(im.take(0) =~= Seq::<RawBookM>::empty());
    while rev.len() > 0
        invariant
            taken + rev.len() == n,
            im.len() == n,
            forall|k: int| 0 <= k < rev.len() ==> #[trigger] raw_book_model(rev@[k]) == im[n - 1 - k],
            raw_books_model(existing@) == persisted(d0, im.take(taken as int)),
        decreases rev.len(),
    {
        let b = rev.pop().unwrap();
        assert(raw_book_model(b) == im[taken as int]);
        assert(im.take(taken + 1).drop_last() =~= im.take(taken as int));
        let ghost before = raw_books_model(existing@);
        match find_raw_book(existing, &b.book) {
            Some(i) => {
                let mut eb = existing.remove(i);
                assert(raw_book_model(eb) == before[i as int]);
                merge_raw_chapters_exec(&mut eb.chapters, b.chapters);
                existing.insert(i, eb);
                assert(raw_books_model(existing@) =~= persist_book(before, raw_book_model(b)));
            },
            None => {
                existing.push(b);
                assert(raw_books_model(existing@) =~= persist_book(before, raw_book_model(b)));
            },
        }
        taken = taken + 1;
    }
    assert(im.take(n as int) =~= im);
}

// ---------------------------------------------------------------------------
// Matches from raw books
// ---------------------------------------------------------------------------

/// The hits of a raw chapter numbered `c`: its verses whose numbers parse,
/// with their text trimmed.
pub open spec fn raw_verse_hits(book: Seq<char>, c: u32, vs: Seq<RawVerse>) -> Seq<MatchM>
    decreases vs.len(),
{
    if vs.len() == 0 {
        seq![]
    } else {
        let rest = raw_verse_hits(book, c, vs.drop_last());
        match parse_u32(vs.last().verse@) {
            Some(v) => rest.push(hit(book, c, v, trim(vs.last().text@))),
            None => rest,
        }
    }
}

/// The hits of a raw book's chapters whose numbers parse.
pub open spec fn raw_chapter_hits(book: Seq<char>, cs: Seq<RawChapter>) -> Seq<MatchM>
    decreases cs.len(),
{
    if cs.len() == 0 {
        seq![]
    } else {
        let rest = raw_chapter_hits(book, cs.drop_last());
        match parse_u32(cs.last().chapter@) {
            Some(c) => rest + raw_verse_hits(book, c, cs.last().verses@),
            None => rest,
        }
    }
}

/// Every verse of `bs` with a numeric chapter and verse, in order.
pub open spec fn raw_hits(bs: Seq<RawBook>) -> Seq<MatchM>
    decreases bs.len(),
{
    if bs.len() == 0 {
        seq![]
    } else {
        raw_hits(bs.drop_last()) + raw_chapter_hits(bs.last().book@, bs.last().chapters@)
    }
}

/// Flatten raw books into matches (reference `"<book> <c>:<v>"`, trimmed
/// text), skipping non-numeric chapter and verse numbers, at most `limit`.
pub fn matches_from_books(books: &[RawBook], limit: usize) -> (r: Vec<ScriptureMatch>)
    ensures
        matches_model(r@) == fill(seq![], raw_hits(books@), limit as int),
{
    let mut out: Vec<ScriptureMatch> = Vec::new();
    let ghost bs = books@;
    let mut bi: usize = 0;
    assert(bs.take(0) =~= Seq::<RawBook>::empty());
    assert(matches_model(out@) =~= fill(seq![], raw_hits(bs.take(0)), limit as int));
    while bi < books.len()
        invariant
            bi <= books.len(),
            bs == books@,
            matches_model(out@) == fill(seq![], raw_hits(bs.take(bi as int)), limit as int),
        decreases books.len() - bi,
    {
        let book = &books[bi];
        let ghost prev = raw_hits(bs.take(bi as int));
        assert(bs.take(bi + 1).drop_last() =~= bs.take(bi as int));
        assert(bs.take(bi + 1).last() == *book);
        let ghost cs = book.chapters@;
        let mut ci: usize = 0;
        assert(cs.take(0) =~= Seq::<RawChapter>::empty());
        assert(prev + raw_chapter_hits(book.book@, cs.take(0)) =~= prev);
        while ci < book.chapters.len()
            invariant
                ci <= book.chapters.len(),
                bs == books@,
                bi < books.len(),
                *book == bs[bi as int],
                cs == book.chapters@,
                prev == raw_hits(bs.take(bi as int)),
                matches_model(out@) == fill(seq![], prev + raw_chapter_hits(book.book@, cs.take(ci as int)), limit as int),
            decreases book.chapters.len() - ci,
        {
            let ch = &book.chapters[ci];
            assert(cs.take(ci + 1).drop_last() =~= cs.take(ci as int));
            assert(cs.take(ci + 1).last() == *ch);
            let ghost before = prev + raw_chapter_hits(book.book@, cs.take(ci as int));
            match parse_u32_chars(&chars_of(ch.chapter.as_str())) {
                None => {},
                Some(c) => {
                    let ghost vs = ch.verses@;
                    let mut vi: usize = 0;
                    assert(vs.take(0) =~= Seq::<RawVerse>::empty());
                    assert(before + raw_verse_hits(book.book@, c, vs.take(0)) =~= before);
                    while vi < ch.verses.len()
                        invariant
                            vi <= ch.verses.len(),
                            vs == ch.verses@,
                            matches_model(out@) == fill(seq![], before + raw_verse_hits(book.book@, c, vs.take(vi as int)), limit as int),
                        decreases ch.verses.len() - vi,
                    {
                        let v = &ch.verses[vi];
                        assert(vs.take(vi + 1).drop_last() =~= vs.take(vi as int));
                        assert(vs.take(vi + 1).last() == *v);
                        let ghost cur = before + raw_verse_hits(book.book@, c, vs.take(vi as int));
                        match parse_u32_chars(&chars_of(v.verse.as_str())) {
                            None => {},
                            Some(n) => {
                                let ghost x = hit(book.book@, c, n, trim(v.text@));
                                proof {
                                    lemma_fill_push(seq![], cur, x, limit as int);
                                    assert(cur.push(x) =~= before + raw_verse_hits(book.book@, c, vs.take(vi + 1)));
                                }
                                let ghost acc = matches_model(out@);
                                if out.len() < limit {
                                    let text = string_of(&trim_chars(&chars_of(v.text.as_str())));
                                    let h = make_hit(&book.book, c, n, &text);
                                    assert(match_model(h) == x);
                                    out.push(h);
                                    assert(matches_model(out@) =~= fill(acc, seq![x], limit as int));
                                } else {
                                    assert(fill(acc, seq![x], limit as int) =~= acc);
                                }
                            },
                        }
                        vi = vi + 1;
                    }
                    assert(vs.take(ch.verses.len() as int) =~= vs);
                    assert(before + raw_verse_hits(book.book@, c, vs) =~= prev + raw_chapter_hits(book.book@, cs.take(ci + 1)));
                },
            }
            ci = ci + 1;
        }
        assert(cs.take(book.chapters.len() as int) =~= cs);
        ci = 0;
        bi = bi + 1;
    }
    assert(bs.take(books.len() as int) =~= bs);
    out
}


// ---------------------------------------------------------------------------
// bible-api.com verses
// ---------------------------------------------------------------------------

/// A single verse returned by bible-api.com.
pub struct ApiVerse {
    pub book_name: String,
    pub chapter: u32,
    pub verse: u32,
    pub text: String,
    pub book_id: Option<String>,
}

/// One API verse filed under its book (first book of that name, else a new
/// one at the end) and chapter (first chapter with its number, else a new
/// one at the end), with its text trimmed.
pub open spec fn api_step(bs: Seq<RawBookM>, name: Seq<char>, c: u32, v: u32, text: Seq<char>) -> Seq<RawBookM> {
    let bi = match first_label(bs, name) {
        Some(i) => i,
        None => bs.len() as int,
    };
    let bs1 = if first_label(bs, name) is Some { bs } else { bs.push((name, seq![])) };
    let cl = dec(c as nat);
    let chs = bs1[bi].1;
    let ci = match first_label(chs, cl) {
        Some(i) => i,
        None => chs.len() as int,
    };
    let chs1 = if first_label(chs, cl) is Some { chs } else { chs.push((cl, seq![])) };
    let chs2 = chs1.update(ci, (chs1[ci].0, chs1[ci].1.push((dec(v as nat), trim(text)))));
    bs1.update(bi, (bs1[bi].0, chs2))
}

/// A flat verse list nested into books, chapters and verses, in order of
/// first appearance.
pub open spec fn grouped(vs: Seq<ApiVerse>) -> Seq<RawBookM>
    decreases vs.len(),
{
    if vs.len() == 0 {
        seq![]
    } else {
        let v = vs.last();
        api_step(grouped(vs.drop_last()), v.book_name@, v.chapter, v.verse, v.text@)
    }
}

fn dec_string(n: u32) -> (r: String)
    ensures
        r@ == dec(n as nat),
{
    let mut v: Vec<char> = Vec::new();
    push_dec(&mut v, n as u64);
    assert(v@ =~= dec(n as nat));
    string_of(&v)
}

/// Group a flat list of API verses into the nested book, chapter, verse
/// structure the index consumes.
pub fn group_api_verses(verses: Vec<ApiVerse>) -> (r: Vec<RawBook>)
    ensures
        raw_books_model(r@) == grouped(verses@),
{
    let ghost vs = verses@;
    let n = verses.len();
    let mut rev = into_reversed(verses);
    let mut books: Vec<RawBook> = Vec::new();
    let mut taken: usize = 0;
    assert(vs.take(0) =~= Seq::<ApiVerse>::empty());
    assert(raw_books_model(books@) =~= grouped(vs.take(0)));
    while rev.len() > 0
        invariant
            taken + rev.len() == n,
            vs.len() == n,
            forall|k: int| 0 <= k < rev.len() ==> #[trigger] rev@[k] == vs[n - 1 - k],
            raw_books_model(books@) == grouped(vs.take(taken as int)),
        decreases rev.len(),
    {
        let v = rev.pop().unwrap();
        assert(v == vs[taken as int]);
        assert(vs.take(taken + 1).drop_last() =~= vs.take(taken as int));
        let ghost bs = raw_books_model(books@);
        let bi = match find_raw_book(&books, &v.book_name) {
            Some(i) => i,
            None => {
                let nb = RawBook { book: v.book_name.clone(), chapters: Vec::new() };
                assert(raw_chapters_model(nb.chapters@) =~= Seq::<RawChapterM>::empty());
                assert(raw_book_model(nb) == (v.book_name@, Seq::<RawChapterM>::empty()));
                books.push(nb);
                assert(raw_books_model(books@) =~= bs.push((v.book_name@, seq![])));
                books.len() - 1
            },
        };
        let ghost bs1 = raw_books_model(books@);
        let chapter_str = dec_string(v.chapter);
        let mut b = books.remove(bi);
        assert(raw_book_model(b) == bs1[bi as int]);
        let ghost chs = raw_chapters_model(b.chapters@);
        let ci = match find_raw_chapter(&b.chapters, &chapter_str) {
            Some(i) => i,
            None => {
                let nc = RawChapter { chapter: chapter_str, verses: Vec::new() };
                assert(raw_verses_model(nc.verses@) =~= Seq::<RawVerseM>::empty());
                assert(raw_chapter_model(nc) == (dec(v.chapter as nat), Seq::<RawVerseM>::empty()));
                b.chapters.push(nc);
                assert(raw_chapters_model(b.chapters@) =~= chs.push((dec(v.chapter as nat), seq![])));
                b.chapters.len() - 1
            },
        };
        let ghost chs1 = raw_chapters_model(b.chapters@);
        let mut ch = b.chapters.remove(ci);
        assert(raw_chapter_model(ch) == chs1[ci as int]);
        let text = string_of(&trim_chars(&chars_of(v.text.as_str())));
        let ghost vbefore = raw_verses_model(ch.verses@);
        let nv = RawVerse { verse: dec_string(v.verse), text };
        assert(raw_verse_model(nv) == (dec(v.verse as nat), trim(v.text@)));
        ch.verses.push(nv);
        assert(raw_verses_model(ch.verses@) =~= vbefore.push((dec(v.verse as nat), trim(v.text@))));
        assert(raw_chapter_model(ch) == (chs1[ci as int].0, chs1[ci as int].1.push((dec(v.verse as nat), trim(v.text@)))));
        b.chapters.insert(ci, ch);
        assert(raw_chapters_model(b.chapters@) =~= chs1.update(ci as int, (chs1[ci as int].0, chs1[ci as int].1.push((dec(v.verse as nat), trim(v.text@))))));
        books.insert(bi, b);
        assert(raw_books_model(books@) =~= api_step(bs, v.book_name@, v.chapter, v.verse, v.text@));
        taken = taken + 1;
    }
    assert(vs.take(n as int) =~= vs);
    books
}

// ---------------------------------------------------------------------------
// URL encoding
// ---------------------------------------------------------------------------

/// Bytes a bible-api.com path segment carries as they are.
pub open spec fn url_safe(b: u8) -> bool {
    (97 <= b <= 122) || (65 <= b <= 90) || (48 <= b <= 57) || b == 45 || b == 95 || b == 46 || b == 126 || b == 58
}

/// One byte encoded: unchanged when safe, `+` for a space, else `%XX`.
pub open spec fn url_byte(b: u8) -> Seq<char> {
    if url_safe(b) {
        seq![b as char]
    } else if b == 32 {
        seq!['+']
    } else {
        seq!['%'] + crate::midi::hex2(b)
    }
}

pub open spec fn url_bytes(bs: Seq<u8>) -> Seq<char>
    decreases bs.len(),
{
    if bs.len() == 0 {
        seq![]
    } else {
        url_bytes(bs.drop_last()) + url_byte(bs.last())
    }
}

/// Percent-encode the UTF-8 bytes of `s` for a bible-api.com path segment:
/// spaces become `+` and `:` stays (the service expects `john+3:16`).
pub fn url_encode(s: &str) -> (r: String)
    ensures
        r@ == url_bytes(s.spec_bytes()),
{
    let bytes = s.as_bytes();
    let ghost bs = bytes@;
    let mut out: Vec<char> = Vec::new();
    let mut i: usize = 0;
    assert(bs.take(0) =~= Seq::<u8>::empty());
    while i < bytes.len()
        invariant
            i <= bytes.len(),
            bs == bytes@,
            out@ == url_bytes(bs.take(i as int)),
        decreases bytes.len() - i,
    {
        let b = bytes[i];
        assert(bs.take(i + 1).drop_last() =~= bs.take(i as int));
        let ghost before = out@;
        if (97 <= b && b <= 122) || (65 <= b && b <= 90) || (48 <= b && b <= 57) || b == 45 || b == 95 || b == 46 || b == 126 || b == 58 {
            out.push(b as char);
        } else if b == 32 {
            out.push('+');
        } else {
            out.push('%');
            out.push(crate::midi::hex_digit_exec(b / 16));
            out.push(crate::midi::hex_digit_exec(b % 16));
        }
        assert(out@ =~= before + url_byte(b));
        i = i + 1;
    }
    assert(bs.take(bytes.len() as int) =~= bs);
    string_of(&out)
}

// ---------------------------------------------------------------------------
// Tag names of the Bible XML formats
// ---------------------------------------------------------------------------

/// A book element: Zefania `BIBLEBOOK`, OpenLP `b` or `book` (lower-cased).
pub fn is_book_tag(name: &str) -> (r: bool)
    ensures
        r == (name@ == "biblebook"@ || name@ == "b"@ || name@ == "book"@),
{
    let n = chars_of(name);
    eq_chars(&n, &lit("biblebook")) || eq_chars(&n, &lit("b")) || eq_chars(&n, &lit("book"))
}

/// A chapter element: `chapter` or `c`.
pub fn is_chapter_tag(name: &str) -> (r: bool)
    ensures
        r == (name@ == "chapter"@ || name@ == "c"@),
{
    let n = chars_of(name);
    eq_chars(&n, &lit("chapter")) || eq_chars(&n, &lit("c"))
}

/// A verse element: Zefania `VERS`, `verse` or `v`.
pub fn is_verse_tag(name: &str) -> (r: bool)
    ensures
        r == (name@ == "vers"@ || name@ == "verse"@ || name@ == "v"@),
{
    let n = chars_of(name);
    eq_chars(&n, &lit("vers")) || eq_chars(&n, &lit("verse")) || eq_chars(&n, &lit("v"))
}

/// Elements whose content is not verse text: notes, titles and the like.
pub fn is_skip_tag(name: &str) -> (r: bool)
    ensures
        r == (name@ == "note"@ || name@ == "title"@ || name@ == "style"@ || name@ == "caption"@
            || name@ == "comment"@ || name@ == "metadata"@),
{
    let n = chars_of(name);
    eq_chars(&n, &lit("note")) || eq_chars(&n, &lit("title")) || eq_chars(&n, &lit("style"))
        || eq_chars(&n, &lit("caption")) || eq_chars(&n, &lit("comment")) || eq_chars(&n, &lit("metadata"))
}

/// Two lists with the same labels find the same first position.
pub proof fn lemma_first_label_same_labels<T, U>(s1: Seq<(Seq<char>, T)>, s2: Seq<(Seq<char>, U)>, k: Seq<char>)
    requires
        s1.len() == s2.len(),
        forall|i: int| 0 <= i < s1.len() ==> #[trigger] s1[i].0 == s2[i].0,
    ensures
        first_label(s1, k) == first_label(s2, k),
    decreases s1.len(),
{
    if s1.len() > 0 {
        assert forall|i: int| 0 <= i < s1.len() - 1 implies #[trigger] s1.drop_first()[i].0 == s2.drop_first()[i].0 by {
            assert(s1.drop_first()[i] == s1[i + 1]);
            assert(s2.drop_first()[i] == s2[i + 1]);
        }
        lemma_first_label_same_labels(s1.drop_first(), s2.drop_first(), k);
        assert(s1[0].0 == s2[0].0);
    }
}

/// Appending an entry does not move the first position of a label already
/// there, and makes a new label's first position the end.
pub proof fn lemma_first_label_push<T>(s: Seq<(Seq<char>, T)>, x: (Seq<char>, T), k: Seq<char>)
    ensures
        first_label(s, k) is Some ==> first_label(s.push(x), k) == first_label(s, k),
        first_label(s, k) is None && x.0 == k ==> first_label(s.push(x), k) == Some(s.len() as int),
        first_label(s, k) is None && x.0 != k ==> first_label(s.push(x), k) is None,
    decreases s.len(),
{
    if s.len() > 0 {
        assert(s.push(x).drop_first() =~= s.drop_first().push(x));
        assert(s.push(x)[0] == s[0]);
        lemma_first_label_push(s.drop_first(), x, k);
        if first_label(s, k) is None && x.0 != k {
            assert(s[0].0 != k);
            assert(first_label(s.drop_first(), k) is None);
            assert(first_label(s.push(x).drop_first(), k) is None);
        }
    } else {
        assert(s.push(x).drop_first() =~= Seq::<(Seq<char>, T)>::empty());
        assert(s.push(x)[0] == x);
        assert(first_label(s.push(x).drop_first(), k) is None);
    }
}

// ---------------------------------------------------------------------------
// What the persisted merge keeps
// ---------------------------------------------------------------------------

pub proof fn lemma_first_label_in<T>(s: Seq<(Seq<char>, T)>, k: Seq<char>)
    ensures
        first_label(s, k) matches Some(i) ==> 0 <= i < s.len() && s[i].0 == k,
    decreases s.len(),
{
    if s.len() > 0 && s[0].0 != k {
        lemma_first_label_in(s.drop_first(), k);
    }
}

pub open spec fn has_raw_verse(vs: Seq<RawVerseM>, v: Seq<char>) -> bool {
    exists|k: int| 0 <= k < vs.len() && (#[trigger] vs[k]).0 == v
}

pub open spec fn has_raw_chapter_verse(chs: Seq<RawChapterM>, c: Seq<char>, v: Seq<char>) -> bool {
    exists|j: int| 0 <= j < chs.len() && (#[trigger] chs[j]).0 == c && has_raw_verse(chs[j].1, v)
}

/// Some persisted book labelled `b` has a chapter labelled `c` with a verse
/// labelled `v`.
pub open spec fn has_persisted_verse(bs: Seq<RawBookM>, b: Seq<char>, c: Seq<char>, v: Seq<char>) -> bool {
    exists|i: int| 0 <= i < bs.len() && (#[trigger] bs[i]).0 == b && has_raw_chapter_verse(bs[i].1, c, v)
}

proof fn lemma_merge_raw_verses(dst: Seq<RawVerseM>, inc: Seq<RawVerseM>, v: Seq<char>)
    ensures
        has_raw_verse(dst, v) ==> has_raw_verse(merge_raw_verses(dst, inc), v),
        has_raw_verse(inc, v) ==> has_raw_verse(merge_raw_verses(dst, inc), v),
    decreases inc.len(),
{
    if inc.len() > 0 {
        lemma_merge_raw_verses(dst, inc.drop_last(), v);
        let prev = merge_raw_verses(dst, inc.drop_last());
        let x = inc.last();
        lemma_first_label_in(prev, x.0);
        let r = merge_raw_verses(dst, inc);
        let xi: int = match first_label(prev, x.0) {
            Some(i) => i,
            None => prev.len() as int,
        };
        assert(r[xi].0 == x.0);
        if has_raw_verse(prev, v) {
            let k = choose|k: int| 0 <= k < prev.len() && (#[trigger] prev[k]).0 == v;
            assert(r[k].0 == v);
        }
        if has_raw_verse(inc, v) {
            let k = choose|k: int| 0 <= k < inc.len() && (#[trigger] inc[k]).0 == v;
            if k < inc.len() - 1 {
                assert(inc.drop_last()[k].0 == v);
            }
        }
    }
}

proof fn lemma_merge_raw_chapters(chs: Seq<RawChapterM>, inc: Seq<RawChapterM>, c: Seq<char>, v: Seq<char>)
    ensures
        has_raw_chapter_verse(chs, c, v) ==> has_raw_chapter_verse(merge_raw_chapters(chs, inc), c, v),
        has_raw_chapter_verse(inc, c, v) ==> has_raw_chapter_verse(merge_raw_chapters(chs, inc), c, v),
    decreases inc.len(),
{
    if inc.len() > 0 {
        lemma_merge_raw_chapters(chs, inc.drop_last(), c, v);
        let prev = merge_raw_chapters(chs, inc.drop_last());
        let ch = inc.last();
        lemma_first_label_in(prev, ch.0);
        let r = merge_raw_chapters(chs, inc);
        match first_label(prev, ch.0) {
            Some(k) => {
                lemma_merge_raw_verses(prev[k].1, ch.1, v);
                if has_raw_chapter_verse(prev, c, v) {
                    let j = choose|j: int| 0 <= j < prev.len() && (#[trigger] prev[j]).0 == c && has_raw_verse(prev[j].1, v);
                    if j == k {
                        assert(r[k].0 == c && has_raw_verse(r[k].1, v));
                    } else {
                        assert(r[j] == prev[j]);
                    }
                }
                if has_raw_chapter_verse(inc, c, v) {
                    let j = choose|j: int| 0 <= j < inc.len() && (#[trigger] inc[j]).0 == c && has_raw_verse(inc[j].1, v);
                    if j < inc.len() - 1 {
                        assert(inc.drop_last()[j] == inc[j]);
                        assert(has_raw_chapter_verse(inc.drop_last(), c, v));
                    } else {
                        assert(r[k].0 == c && has_raw_verse(r[k].1, v));
                    }
                }
            },
            None => {
                assert(r[prev.len() as int] == ch);
                if has_raw_chapter_verse(prev, c, v) {
                    let j = choose|j: int| 0 <= j < prev.len() && (#[trigger] prev[j]).0 == c && has_raw_verse(prev[j].1, v);
                    assert(r[j] == prev[j]);
                }
                if has_raw_chapter_verse(inc, c, v) {
                    let j = choose|j: int| 0 <= j < inc.len() && (#[trigger] inc[j]).0 == c && has_raw_verse(inc[j].1, v);
                    if j < inc.len() - 1 {
                        assert(inc.drop_last()[j] == inc[j]);
                        assert(has_raw_chapter_verse(inc.drop_last(), c, v));
                    }
                }
            },
        }
    }
}

/// Folding imported books into the persisted list wipes nothing and loses
/// nothing: every verse (by book, chapter and verse label) that was
/// persisted or imported is persisted afterwards.
pub proof fn law_persisted_keeps_and_adds(bs: Seq<RawBookM>, added: Seq<RawBookM>, b: Seq<char>, c: Seq<char>, v: Seq<char>)
    ensures
        has_persisted_verse(bs, b, c, v) ==> has_persisted_verse(persisted(bs, added), b, c, v),
        has_persisted_verse(added, b, c, v) ==> has_persisted_verse(persisted(bs, added), b, c, v),
    decreases added.len(),
{
    if added.len() > 0 {
        law_persisted_keeps_and_adds(bs, added.drop_last(), b, c, v);
        let prev = persisted(bs, added.drop_last());
        let x = added.last();
        lemma_first_label_in(prev, x.0);
        let r = persisted(bs, added);
        match first_label(prev, x.0) {
            Some(k) => {
                lemma_merge_raw_chapters(prev[k].1, x.1, c, v);
                if has_persisted_verse(prev, b, c, v) {
                    let i = choose|i: int| 0 <= i < prev.len() && (#[trigger] prev[i]).0 == b && has_raw_chapter_verse(prev[i].1, c, v);
                    if i == k {
                        assert(r[k].0 == b && has_raw_chapter_verse(r[k].1, c, v));
                    } else {
                        assert(r[i] == prev[i]);
                    }
                }
                if has_persisted_verse(added, b, c, v) {
                    let i = choose|i: int| 0 <= i < added.len() && (#[trigger] added[i]).0 == b && has_raw_chapter_verse(added[i].1, c, v);
                    if i < added.len() - 1 {
                        assert(added.drop_last()[i] == added[i]);
                        assert(has_persisted_verse(added.drop_last(), b, c, v));
                    } else {
                        assert(r[k].0 == b && has_raw_chapter_verse(r[k].1, c, v));
                    }
                }
            },
            None => {
                assert(r[prev.len() as int] == x);
                if has_persisted_verse(prev, b, c, v) {
                    let i = choose|i: int| 0 <= i < prev.len() && (#[trigger] prev[i]).0 == b && has_raw_chapter_verse(prev[i].1, c, v);
                    assert(r[i] == prev[i]);
                }
                if has_persisted_verse(added, b, c, v) {
                    let i = choose|i: int| 0 <= i < added.len() && (#[trigger] added[i]).0 == b && has_raw_chapter_verse(added[i].1, c, v);
                    if i < added.len() - 1 {
                        assert(added.drop_last()[i] == added[i]);
                        assert(has_persisted_verse(added.drop_last(), b, c, v));
                    }
                }
            },
        }
    }
}

/// The matches are the first `limit` hits (all of them when there are
/// fewer), in book, chapter and verse order.
pub proof fn law_matches_capped_in_order(books: Seq<RawBook>, limit: int)
    requires
        limit >= 0,
    ensures
        fill(seq![], raw_hits(books), limit).len() == (if raw_hits(books).len() < limit { raw_hits(books).len() as int } else { limit }),
        forall|i: int| 0 <= i < fill(seq![], raw_hits(books), limit).len()
            ==> #[trigger] fill(seq![], raw_hits(books), limit)[i] == raw_hits(books)[i],
{
    let h = raw_hits(books);
    assert(fill(seq![], h, limit) =~= (if h.len() <= limit { h } else { h.take(limit) }));
}

} // verus!
