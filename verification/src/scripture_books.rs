//! Bible text as the index holds it: books of numbered chapters of numbered
//! verses, built from raw (string-numbered) book data and merged verse by
//! verse when a further Bible is imported.
use crate::text::{chars_of, parse_u32, parse_u32_chars};
use vstd::prelude::*;

verus! {

/// One Bible book with its chapters/verses, numbers still as text. Also the
/// shape used to persist imported Bibles and the output of the importers.
#[derive(Debug)]
pub struct RawBook {
    pub book: String,
    pub chapters: Vec<RawChapter>,
}

#[derive(Debug)]
pub struct RawChapter {
    pub chapter: String,
    pub verses: Vec<RawVerse>,
}

#[derive(Debug)]
pub struct RawVerse {
    pub verse: String,
    pub text: String,
}

impl Clone for RawVerse {
    fn clone(&self) -> (r: Self)
        ensures
            r == *self,
    {
        RawVerse { verse: self.verse.clone(), text: self.text.clone() }
    }
}

/// A verse: its number and text.
pub type VerseM = (u32, Seq<char>);

/// A chapter: its number and verses, in order.
pub type ChapterM = (u32, Seq<VerseM>);

/// A book: its name and chapters, in order.
pub type BookM = (Seq<char>, Seq<ChapterM>);

/// The verses of a raw chapter whose numbers parse, in order.
pub open spec fn parsed_verses(vs: Seq<RawVerse>) -> Seq<VerseM>
    decreases vs.len(),
{
    if vs.len() == 0 {
        seq![]
    } else {
        let rest = parsed_verses(vs.drop_last());
        match parse_u32(vs.last().verse@) {
            Some(n) => rest.push((n, vs.last().text@)),
            None => rest,
        }
    }
}

/// The chapters of a raw book whose numbers parse, in order.
pub open spec fn parsed_chapters(cs: Seq<RawChapter>) -> Seq<ChapterM>
    decreases cs.len(),
{
    if cs.len() == 0 {
        seq![]
    } else {
        let rest = parsed_chapters(cs.drop_last());
        match parse_u32(cs.last().chapter@) {
            Some(n) => rest.push((n, parsed_verses(cs.last().verses@))),
            None => rest,
        }
    }
}

/// A raw book as the index holds it; `None` when no chapter number parses.
pub open spec fn book_model_from(raw: RawBook) -> Option<BookM> {
    let cs = parsed_chapters(raw.chapters@);
    if cs.len() == 0 {
        None
    } else {
        Some((raw.book@, cs))
    }
}

pub struct ScriptureVerse {
    pub verse: u32,
    pub text: String,
}

pub struct ScriptureChapter {
    pub chapter: u32,
    pub verses: Vec<ScriptureVerse>,
}

pub struct BookData {
    pub name: String,
    pub chapters: Vec<ScriptureChapter>,
}

pub open spec fn verse_model(v: ScriptureVerse) -> VerseM {
    (v.verse, v.text@)
}

pub open spec fn verses_model(vs: Seq<ScriptureVerse>) -> Seq<VerseM> {
    vs.map_values(|v: ScriptureVerse| verse_model(v))
}

pub open spec fn chapter_model(c: ScriptureChapter) -> ChapterM {
    (c.chapter, verses_model(c.verses@))
}

pub open spec fn chapters_model(cs: Seq<ScriptureChapter>) -> Seq<ChapterM> {
    cs.map_values(|c: ScriptureChapter| chapter_model(c))
}

pub open spec fn book_model(b: BookData) -> BookM {
    (b.name@, chapters_model(b.chapters@))
}

// ---------------------------------------------------------------------------
// Stable sorting by number
// ---------------------------------------------------------------------------

/// `x` placed after every element whose number is at most its own.
pub open spec fn insert_verse(s: Seq<VerseM>, x: VerseM) -> Seq<VerseM>
    decreases s.len(),
{
    if s.len() == 0 {
        seq![x]
    } else if s.last().0 <= x.0 {
        s.push(x)
    } else {
        insert_verse(s.drop_last(), x).push(s.last())
    }
}

/// Verses ordered by number, equal numbers keeping their order (a stable sort).
pub open spec fn sort_verses(s: Seq<VerseM>) -> Seq<VerseM>
    decreases s.len(),
{
    if s.len() == 0 {
        seq![]
    } else {
        insert_verse(sort_verses(s.drop_last()), s.last())
    }
}

pub open spec fn insert_chapter(s: Seq<ChapterM>, x: ChapterM) -> Seq<ChapterM>
    decreases s.len(),
{
    if s.len() == 0 {
        seq![x]
    } else if s.last().0 <= x.0 {
        s.push(x)
    } else {
        insert_chapter(s.drop_last(), x).push(s.last())
    }
}

/// Chapters ordered by number, equal numbers keeping their order.
pub open spec fn sort_chapters(s: Seq<ChapterM>) -> Seq<ChapterM>
    decreases s.len(),
{
    if s.len() == 0 {
        seq![]
    } else {
        insert_chapter(sort_chapters(s.drop_last()), s.last())
    }
}

proof fn lemma_insert_verse_split(s: Seq<VerseM>, x: VerseM, j: int)
    requires
        0 <= j <= s.len(),
        forall|k: int| j <= k < s.len() ==> #[trigger] s[k].0 > x.0,
        j > 0 ==> s[j - 1].0 <= x.0,
    ensures
        insert_verse(s, x) == s.take(j).push(x) + s.skip(j),
    decreases s.len(),
{
    if s.len() == 0 {
        assert(s.take(j).push(x) + s.skip(j) =~= seq![x]);
    } else if s.last().0 <= x.0 {
        assert(j == s.len());
        assert(s.take(j).push(x) + s.skip(j) =~= s.push(x));
    } else {
        lemma_insert_verse_split(s.drop_last(), x, j);
        assert(s.drop_last().take(j).push(x) + s.drop_last().skip(j) + seq![s.last()] =~= s.take(j).push(x) + s.skip(j));
    }
}

proof fn lemma_insert_chapter_split(s: Seq<ChapterM>, x: ChapterM, j: int)
    requires
        0 <= j <= s.len(),
        forall|k: int| j <= k < s.len() ==> #[trigger] s[k].0 > x.0,
        j > 0 ==> s[j - 1].0 <= x.0,
    ensures
        insert_chapter(s, x) == s.take(j).push(x) + s.skip(j),
    decreases s.len(),
{
    if s.len() == 0 {
        assert(s.take(j).push(x) + s.skip(j) =~= seq![x]);
    } else if s.last().0 <= x.0 {
        assert(j == s.len());
        assert(s.take(j).push(x) + s.skip(j) =~= s.push(x));
    } else {
        lemma_insert_chapter_split(s.drop_last(), x, j);
        assert(s.drop_last().take(j).push(x) + s.drop_last().skip(j) + seq![s.last()] =~= s.take(j).push(x) + s.skip(j));
    }
}

pub open spec fn verses_sorted(s: Seq<VerseM>) -> bool {
    forall|a: int, b: int| 0 <= a < b < s.len() ==> s[a].0 <= s[b].0
}

pub open spec fn chapters_sorted(s: Seq<ChapterM>) -> bool {
    forall|a: int, b: int| 0 <= a < b < s.len() ==> s[a].0 <= s[b].0
}

proof fn lemma_insert_verse_sorted(s: Seq<VerseM>, x: VerseM, j: int)
    requires
        verses_sorted(s),
        0 <= j <= s.len(),
        forall|k: int| j <= k < s.len() ==> #[trigger] s[k].0 > x.0,
        j > 0 ==> s[j - 1].0 <= x.0,
    ensures
        verses_sorted(s.take(j).push(x) + s.skip(j)),
{
    let r = s.take(j).push(x) + s.skip(j);
    assert forall|a: int, b: int| 0 <= a < b < r.len() implies r[a].0 <= r[b].0 by {
        if a < j && b < j {
            assert(r[a] == s[a] && r[b] == s[b]);
        } else if a < j && b == j {
            assert(r[a] == s[a]);
        } else if a < j {
            assert(r[a] == s[a] && r[b] == s[b - 1]);
        } else if a == j {
            assert(r[b] == s[b - 1]);
        } else {
            assert(r[a] == s[a - 1] && r[b] == s[b - 1]);
        }
    }
}

proof fn lemma_insert_chapter_sorted(s: Seq<ChapterM>, x: ChapterM, j: int)
    requires
        chapters_sorted(s),
        0 <= j <= s.len(),
        forall|k: int| j <= k < s.len() ==> #[trigger] s[k].0 > x.0,
        j > 0 ==> s[j - 1].0 <= x.0,
    ensures
        chapters_sorted(s.take(j).push(x) + s.skip(j)),
{
    let r = s.take(j).push(x) + s.skip(j);
    assert forall|a: int, b: int| 0 <= a < b < r.len() implies r[a].0 <= r[b].0 by {
        if a < j && b < j {
            assert(r[a] == s[a] && r[b] == s[b]);
        } else if a < j && b == j {
            assert(r[a] == s[a]);
        } else if a < j {
            assert(r[a] == s[a] && r[b] == s[b - 1]);
        } else if a == j {
            assert(r[b] == s[b - 1]);
        } else {
            assert(r[a] == s[a - 1] && r[b] == s[b - 1]);
        }
    }
}

/// Sorts verses by number, keeping the order of equal numbers (`sort_by_key`).
pub fn sort_verses_exec(v: Vec<ScriptureVerse>) -> (r: Vec<ScriptureVerse>)
    ensures
        verses_model(r@) == sort_verses(verses_model(v@)),
{
    let ghost m = verses_model(v@);
    let mut src = v;
    let mut out: Vec<ScriptureVerse> = Vec::new();
    let mut taken: usize = 0;
    let n = src.len();
    // Move the elements out front-first by reversing, then popping.
    let mut rev: Vec<ScriptureVerse> = Vec::new();
    while src.len() > 0
        invariant
            src.len() + rev.len() == n,
            m.len() == n,
            forall|k: int| 0 <= k < rev.len() ==> verse_model(#[trigger] rev@[k]) == m[n - 1 - k],
            forall|k: int| 0 <= k < src.len() ==> verse_model(#[trigger] src@[k]) == m[k],
        decreases src.len(),
    {
        let x = src.pop().unwrap();
        rev.push(x);
    }
    assert(verses_model(out@) =~= sort_verses(m.take(0)));
    while rev.len() > 0
        invariant
            taken + rev.len() == n,
            m.len() == n,
            forall|k: int| 0 <= k < rev.len() ==> verse_model(#[trigger] rev@[k]) == m[n - 1 - k],
            verses_model(out@) == sort_verses(m.take(taken as int)),
            verses_sorted(verses_model(out@)),
            out.len() == taken,
        decreases rev.len(),
    {
        let x = rev.pop().unwrap();
        assert(verse_model(x) == m[taken as int]);
        let mut j: usize = out.len();
        while j > 0 && out[j - 1].verse > x.verse
            invariant
                j <= out.len(),
                forall|k: int| j <= k < out.len() ==> #[trigger] out@[k].verse > x.verse,
            decreases j,
        {
            j = j - 1;
        }
        let ghost before = verses_model(out@);
        proof {
            assert forall|k: int| j <= k < before.len() implies #[trigger] before[k].0 > x.verse by {
                assert(before[k] == verse_model(out@[k]));
            }
            if j > 0 {
                assert(before[j - 1] == verse_model(out@[j - 1]));
            }
            lemma_insert_verse_split(before, verse_model(x), j as int);
            lemma_insert_verse_sorted(before, verse_model(x), j as int);
            assert(m.take(taken + 1).drop_last() =~= m.take(taken as int));
        }
        out.insert(j, x);
        assert(verses_model(out@) =~= before.take(j as int).push(verse_model(x)) + before.skip(j as int));
        taken = taken + 1;
    }
    assert(m.take(n as int) =~= m);
    out
}

/// Sorts chapters by number, keeping the order of equal numbers.
pub fn sort_chapters_exec(v: Vec<ScriptureChapter>) -> (r: Vec<ScriptureChapter>)
    ensures
        chapters_model(r@) == sort_chapters(chapters_model(v@)),
{
    let ghost m = chapters_model(v@);
    let mut src = v;
    let mut out: Vec<ScriptureChapter> = Vec::new();
    let mut taken: usize = 0;
    let n = src.len();
    let mut rev: Vec<ScriptureChapter> = Vec::new();
    while src.len() > 0
        invariant
            src.len() + rev.len() == n,
            m.len() == n,
            forall|k: int| 0 <= k < rev.len() ==> chapter_model(#[trigger] rev@[k]) == m[n - 1 - k],
            forall|k: int| 0 <= k < src.len() ==> chapter_model(#[trigger] src@[k]) == m[k],
        decreases src.len(),
    {
        let x = src.pop().unwrap();
        rev.push(x);
    }
    assert(chapters_model(out@) =~= sort_chapters(m.take(0)));
    while rev.len() > 0
        invariant
            taken + rev.len() == n,
            m.len() == n,
            forall|k: int| 0 <= k < rev.len() ==> chapter_model(#[trigger] rev@[k]) == m[n - 1 - k],
            chapters_model(out@) == sort_chapters(m.take(taken as int)),
            chapters_sorted(chapters_model(out@)),
            out.len() == taken,
        decreases rev.len(),
    {
        let x = rev.pop().unwrap();
        assert(chapter_model(x) == m[taken as int]);
        let mut j: usize = out.len();
        while j > 0 && out[j - 1].chapter > x.chapter
            invariant
                j <= out.len(),
                forall|k: int| j <= k < out.len() ==> #[trigger] out@[k].chapter > x.chapter,
            decreases j,
        {
            j = j - 1;
        }
        let ghost before = chapters_model(out@);
        proof {
            assert forall|k: int| j <= k < before.len() implies #[trigger] before[k].0 > x.chapter by {
                assert(before[k] == chapter_model(out@[k]));
            }
            if j > 0 {
                assert(before[j - 1] == chapter_model(out@[j - 1]));
            }
            lemma_insert_chapter_split(before, chapter_model(x), j as int);
            lemma_insert_chapter_sorted(before, chapter_model(x), j as int);
            assert(m.take(taken + 1).drop_last() =~= m.take(taken as int));
        }
        out.insert(j, x);
        assert(chapters_model(out@) =~= before.take(j as int).push(chapter_model(x)) + before.skip(j as int));
        taken = taken + 1;
    }
    assert(m.take(n as int) =~= m);
    out
}


// ---------------------------------------------------------------------------
// Raw data into the index form
// ---------------------------------------------------------------------------

fn verses_from(vs: &Vec<RawVerse>) -> (r: Vec<ScriptureVerse>)
    ensures
        verses_model(r@) == parsed_verses(vs@),
{
    let mut out: Vec<ScriptureVerse> = Vec::new();
    let mut i: usize = 0;
    while i < vs.len()
        invariant
            i <= vs.len(),
            verses_model(out@) == parsed_verses(vs@.take(i as int)),
        decreases vs.len() - i,
    {
        let rv = &vs[i];
        assert(vs@.take(i + 1).drop_last() =~= vs@.take(i as int));
        assert(vs@.take(i + 1).last() == *rv);
        let ghost before = verses_model(out@);
        match parse_u32_chars(&chars_of(rv.verse.as_str())) {
            Some(n) => {
                out.push(ScriptureVerse { verse: n, text: rv.text.clone() });
                assert(verses_model(out@) =~= before.push((n, rv.text@)));
            },
            None => {},
        }
        i = i + 1;
    }
    assert(vs@.take(vs.len() as int) =~= vs@);
    out
}

/// Convert a raw book into its in-memory form, skipping chapters and verses
/// whose numbers do not parse; `None` when no chapter is left.
pub fn book_data_from(raw: RawBook) -> (r: Option<BookData>)
    ensures
        match book_model_from(raw) {
            Some(m) => r matches Some(b) && book_model(b) == m,
            None => r is None,
        },
{
    let mut chapters: Vec<ScriptureChapter> = Vec::new();
    let mut i: usize = 0;
    while i < raw.chapters.len()
        invariant
            i <= raw.chapters.len(),
            chapters_model(chapters@) == parsed_chapters(raw.chapters@.take(i as int)),
        decreases raw.chapters.len() - i,
    {
        let rc = &raw.chapters[i];
        assert(raw.chapters@.take(i + 1).drop_last() =~= raw.chapters@.take(i as int));
        assert(raw.chapters@.take(i + 1).last() == *rc);
        let ghost before = chapters_model(chapters@);
        match parse_u32_chars(&chars_of(rc.chapter.as_str())) {
            Some(n) => {
                let verses = verses_from(&rc.verses);
                chapters.push(ScriptureChapter { chapter: n, verses });
                assert(chapters_model(chapters@) =~= before.push((n, parsed_verses(rc.verses@))));
            },
            None => {},
        }
        i = i + 1;
    }
    assert(raw.chapters@.take(raw.chapters.len() as int) =~= raw.chapters@);
    if chapters.len() == 0 {
        return None;
    }
    Some(BookData { name: raw.book, chapters })
}

// ---------------------------------------------------------------------------
// Verse-level upsert
// ---------------------------------------------------------------------------

/// Position of the first verse numbered `n`.
pub open spec fn first_verse_at(s: Seq<VerseM>, n: u32) -> Option<int>
    decreases s.len(),
{
    if s.len() == 0 {
        None
    } else if s[0].0 == n {
        Some(0)
    } else {
        match first_verse_at(s.drop_first(), n) {
            Some(i) => Some(i + 1),
            None => None,
        }
    }
}

/// Position of the first chapter numbered `n`.
pub open spec fn first_chapter_at(s: Seq<ChapterM>, n: u32) -> Option<int>
    decreases s.len(),
{
    if s.len() == 0 {
        None
    } else if s[0].0 == n {
        Some(0)
    } else {
        match first_chapter_at(s.drop_first(), n) {
            Some(i) => Some(i + 1),
            None => None,
        }
    }
}

/// The text of the first verse with `v`'s number is replaced by `v`'s; a
/// verse number not yet present is appended.
pub open spec fn upsert_verse(dst: Seq<VerseM>, v: VerseM) -> Seq<VerseM> {
    match first_verse_at(dst, v.0) {
        Some(k) => dst.update(k, (dst[k].0, v.1)),
        None => dst.push(v),
    }
}

/// Every verse of `inc`, in order, upserted into `dst`.
pub open spec fn merge_verses(dst: Seq<VerseM>, inc: Seq<VerseM>) -> Seq<VerseM>
    decreases inc.len(),
{
    if inc.len() == 0 {
        dst
    } else {
        upsert_verse(merge_verses(dst, inc.drop_last()), inc.last())
    }
}

/// A chapter folded in: into the first chapter with its number (verses
/// upserted, then re-sorted), or appended when the number is new.
pub open spec fn merge_chapter(chs: Seq<ChapterM>, ch: ChapterM) -> Seq<ChapterM> {
    match first_chapter_at(chs, ch.0) {
        Some(k) => chs.update(k, (chs[k].0, sort_verses(merge_verses(chs[k].1, ch.1)))),
        None => chs.push(ch),
    }
}

pub open spec fn merge_chapters(chs: Seq<ChapterM>, inc: Seq<ChapterM>) -> Seq<ChapterM>
    decreases inc.len(),
{
    if inc.len() == 0 {
        chs
    } else {
        merge_chapter(merge_chapters(chs, inc.drop_last()), inc.last())
    }
}

/// The chapters of a book after folding in an import: matching verses are
/// overwritten, everything else stays, chapters end up ordered by number.
pub open spec fn merged_book_chapters(existing: Seq<ChapterM>, incoming: Seq<ChapterM>) -> Seq<ChapterM> {
    sort_chapters(merge_chapters(existing, incoming))
}

proof fn lemma_first_verse_found(s: Seq<VerseM>, n: u32, i: int)
    requires
        0 <= i < s.len(),
        s[i].0 == n,
        forall|j: int| 0 <= j < i ==> #[trigger] s[j].0 != n,
    ensures
        first_verse_at(s, n) == Some(i),
    decreases i,
{
    if i > 0 {
        assert forall|j: int| 0 <= j < i - 1 implies #[trigger] s.drop_first()[j].0 != n by {
            assert(s.drop_first()[j] == s[j + 1]);
        }
        lemma_first_verse_found(s.drop_first(), n, i - 1);
    }
}

proof fn lemma_first_verse_none(s: Seq<VerseM>, n: u32)
    requires
        forall|j: int| 0 <= j < s.len() ==> #[trigger] s[j].0 != n,
    ensures
        first_verse_at(s, n) == None::<int>,
    decreases s.len(),
{
    if s.len() > 0 {
        assert forall|j: int| 0 <= j < s.len() - 1 implies #[trigger] s.drop_first()[j].0 != n by {
            assert(s.drop_first()[j] == s[j + 1]);
        }
        lemma_first_verse_none(s.drop_first(), n);
    }
}

pub proof fn lemma_first_chapter_found(s: Seq<ChapterM>, n: u32, i: int)
    requires
        0 <= i < s.len(),
        s[i].0 == n,
        forall|j: int| 0 <= j < i ==> #[trigger] s[j].0 != n,
    ensures
        first_chapter_at(s, n) == Some(i),
    decreases i,
{
    if i > 0 {
        assert forall|j: int| 0 <= j < i - 1 implies #[trigger] s.drop_first()[j].0 != n by {
            assert(s.drop_first()[j] == s[j + 1]);
        }
        lemma_first_chapter_found(s.drop_first(), n, i - 1);
    }
}

pub proof fn lemma_first_chapter_none(s: Seq<ChapterM>, n: u32)
    requires
        forall|j: int| 0 <= j < s.len() ==> #[trigger] s[j].0 != n,
    ensures
        first_chapter_at(s, n) == None::<int>,
    decreases s.len(),
{
    if s.len() > 0 {
        assert forall|j: int| 0 <= j < s.len() - 1 implies #[trigger] s.drop_first()[j].0 != n by {
            assert(s.drop_first()[j] == s[j + 1]);
        }
        lemma_first_chapter_none(s.drop_first(), n);
    }
}

fn upsert_verse_exec(dst: &mut Vec<ScriptureVerse>, v: ScriptureVerse)
    ensures
        verses_model(final(dst)@) == upsert_verse(verses_model(old(dst)@), verse_model(v)),
{
    let ghost m = verses_model(dst@);
    let mut k: usize = 0;
    while k < dst.len()
        invariant
            k <= dst.len(),
            m == verses_model(dst@),
            m == verses_model(old(dst)@),
            forall|j: int| 0 <= j < k ==> #[trigger] m[j].0 != v.verse,
        decreases dst.len() - k,
    {
        if dst[k].verse == v.verse {
            proof {
                lemma_first_verse_found(m, v.verse, k as int);
            }
            let old_v = dst.remove(k);
            dst.insert(k, ScriptureVerse { verse: old_v.verse, text: v.text });
            assert(verses_model(dst@) =~= m.update(k as int, (m[k as int].0, v.text@)));
            return;
        }
        k = k + 1;
    }
    proof {
        lemma_first_verse_none(m, v.verse);
    }
    dst.push(v);
    assert(verses_model(dst@) =~= m.push(verse_model(v)));
}

fn merge_verses_exec(dst: &mut Vec<ScriptureVerse>, inc: Vec<ScriptureVerse>)
    ensures
        verses_model(final(dst)@) == merge_verses(verses_model(old(dst)@), verses_model(inc@)),
{
    let ghost m = verses_model(inc@);
    let n = inc.len();
    let mut src = inc;
    let mut rev: Vec<ScriptureVerse> = Vec::new();
    while src.len() > 0
        invariant
            src.len() + rev.len() == n,
            m.len() == n,
            forall|k: int| 0 <= k < rev.len() ==> verse_model(#[trigger] rev@[k]) == m[n - 1 - k],
            forall|k: int| 0 <= k < src.len() ==> verse_model(#[trigger] src@[k]) == m[k],
        decreases src.len(),
    {
        let x = src.pop().unwrap();
        rev.push(x);
    }
    let mut taken: usize = 0;
    assert(m.take(0) =~= Seq::<VerseM>::empty());
    while rev.len() > 0
        invariant
            taken + rev.len() == n,
            m.len() == n,
            forall|k: int| 0 <= k < rev.len() ==> verse_model(#[trigger] rev@[k]) == m[n - 1 - k],
            verses_model(dst@) == merge_verses(verses_model(old(dst)@), m.take(taken as int)),
        decreases rev.len(),
    {
        let x = rev.pop().unwrap();
        assert(verse_model(x) == m[taken as int]);
        assert(m.take(taken + 1).drop_last() =~= m.take(taken as int));
        upsert_verse_exec(dst, x);
        taken = taken + 1;
    }
    assert(m.take(n as int) =~= m);
}

fn merge_chapter_exec(chs: &mut Vec<ScriptureChapter>, ch: ScriptureChapter)
    ensures
        chapters_model(final(chs)@) == merge_chapter(chapters_model(old(chs)@), chapter_model(ch)),
{
    let ghost m = chapters_model(chs@);
    let mut k: usize = 0;
    while k < chs.len()
        invariant
            k <= chs.len(),
            m == chapters_model(chs@),
            m == chapters_model(old(chs)@),
            forall|j: int| 0 <= j < k ==> #[trigger] m[j].0 != ch.chapter,
        decreases chs.len() - k,
    {
        if chs[k].chapter == ch.chapter {
            proof {
                lemma_first_chapter_found(m, ch.chapter, k as int);
            }
            let dst = chs.remove(k);
            let mut verses = dst.verses;
            merge_verses_exec(&mut verses, ch.verses);
            let sorted = sort_verses_exec(verses);
            chs.insert(k, ScriptureChapter { chapter: dst.chapter, verses: sorted });
            assert(chapters_model(chs@) =~= m.update(
                k as int,
                (m[k as int].0, sort_verses(merge_verses(m[k as int].1, chapter_model(ch).1))),
            ));
            return;
        }
        k = k + 1;
    }
    proof {
        lemma_first_chapter_none(m, ch.chapter);
    }
    chs.push(ch);
    assert(chapters_model(chs@) =~= m.push(chapter_model(ch)));
}

/// Fold `incoming` chapters/verses into an existing book without dropping
/// verses the import did not mention.
pub fn merge_book_data(existing: &mut BookData, incoming: BookData)
    ensures
        final(existing).name == old(existing).name,
        chapters_model(final(existing).chapters@) == merged_book_chapters(
            chapters_model(old(existing).chapters@),
            chapters_model(incoming.chapters@),
        ),
{
    let ghost m = chapters_model(incoming.chapters@);
    let n = incoming.chapters.len();
    let mut src = incoming.chapters;
    let mut rev: Vec<ScriptureChapter> = Vec::new();
    while src.len() > 0
        invariant
            src.len() + rev.len() == n,
            m.len() == n,
            forall|k: int| 0 <= k < rev.len() ==> chapter_model(#[trigger] rev@[k]) == m[n - 1 - k],
            forall|k: int| 0 <= k < src.len() ==> chapter_model(#[trigger] src@[k]) == m[k],
        decreases src.len(),
    {
        let x = src.pop().unwrap();
        rev.push(x);
    }
    let mut chs: Vec<ScriptureChapter> = Vec::new();
    std::mem::swap(&mut chs, &mut existing.chapters);
    let ghost start = chapters_model(chs@);
    let mut taken: usize = 0;
    assert(m.take(0) =~= Seq::<ChapterM>::empty());
    while rev.len() > 0
        invariant
            taken + rev.len() == n,
            m.len() == n,
            forall|k: int| 0 <= k < rev.len() ==> chapter_model(#[trigger] rev@[k]) == m[n - 1 - k],
            chapters_model(chs@) == merge_chapters(start, m.take(taken as int)),
        decreases rev.len(),
    {
        let x = rev.pop().unwrap();
        assert(chapter_model(x) == m[taken as int]);
        assert(m.take(taken + 1).drop_last() =~= m.take(taken as int));
        merge_chapter_exec(&mut chs, x);
        taken = taken + 1;
    }
    assert(m.take(n as int) =~= m);
    existing.chapters = sort_chapters_exec(chs);
}

// ---------------------------------------------------------------------------
// What merging keeps
// ---------------------------------------------------------------------------

/// Some verse of `vs` has number `v`.
pub open spec fn has_verse(vs: Seq<VerseM>, v: u32) -> bool {
    exists|k: int| 0 <= k < vs.len() && (#[trigger] vs[k]).0 == v
}

/// Some chapter numbered `c` has a verse numbered `v`.
pub open spec fn has_chapter_verse(chs: Seq<ChapterM>, c: u32, v: u32) -> bool {
    exists|i: int| 0 <= i < chs.len() && (#[trigger] chs[i]).0 == c && has_verse(chs[i].1, v)
}

proof fn lemma_first_verse_at_in(s: Seq<VerseM>, n: u32)
    ensures
        first_verse_at(s, n) matches Some(k) ==> 0 <= k < s.len() && s[k].0 == n,
    decreases s.len(),
{
    if s.len() > 0 && s[0].0 != n {
        lemma_first_verse_at_in(s.drop_first(), n);
    }
}

proof fn lemma_first_chapter_at_in(s: Seq<ChapterM>, n: u32)
    ensures
        first_chapter_at(s, n) matches Some(k) ==> 0 <= k < s.len() && s[k].0 == n,
    decreases s.len(),
{
    if s.len() > 0 && s[0].0 != n {
        lemma_first_chapter_at_in(s.drop_first(), n);
    }
}

proof fn lemma_insert_verse_members(s: Seq<VerseM>, x: VerseM)
    ensures
        forall|e: VerseM| #[trigger] insert_verse(s, x).contains(e) <==> (s.contains(e) || e == x),
    decreases s.len(),
{
    if s.len() > 0 && s.last().0 > x.0 {
        lemma_insert_verse_members(s.drop_last(), x);
        assert forall|e: VerseM| #[trigger] insert_verse(s, x).contains(e) <==> (s.contains(e) || e == x) by {
            let r = insert_verse(s.drop_last(), x);
            assert(insert_verse(s, x) == r.push(s.last()));
            assert(s == s.drop_last().push(s.last()));
            if r.push(s.last()).contains(e) {
                let k = choose|k: int| 0 <= k < r.len() + 1 && r.push(s.last())[k] == e;
                if k < r.len() {
                    assert(r[k] == e);
                    assert(r.contains(e));
                }
            }
            if s.contains(e) {
                let k = choose|k: int| 0 <= k < s.len() && s[k] == e;
                if k < s.len() - 1 {
                    assert(s.drop_last()[k] == e);
                    assert(r.contains(e));
                    let j = choose|j: int| 0 <= j < r.len() && r[j] == e;
                    assert(r.push(s.last())[j] == e);
                } else {
                    assert(r.push(s.last())[r.len() as int] == e);
                }
            }
            if e == x {
                assert(r.contains(e));
                let j = choose|j: int| 0 <= j < r.len() && r[j] == e;
                assert(r.push(s.last())[j] == e);
            }
            if s.drop_last().contains(e) {
                let k = choose|k: int| 0 <= k < s.drop_last().len() && s.drop_last()[k] == e;
                assert(s[k] == e);
            }
        }
    } else if s.len() > 0 {
        assert forall|e: VerseM| #[trigger] s.push(x).contains(e) <==> (s.contains(e) || e == x) by {
            if s.push(x).contains(e) {
                let k = choose|k: int| 0 <= k < s.len() + 1 && s.push(x)[k] == e;
                if k < s.len() {
                    assert(s[k] == e);
                }
            }
            if s.contains(e) {
                let k = choose|k: int| 0 <= k < s.len() && s[k] == e;
                assert(s.push(x)[k] == e);
            }
            if e == x {
                assert(s.push(x)[s.len() as int] == e);
            }
        }
    } else {
        assert forall|e: VerseM| #[trigger] seq![x].contains(e) <==> (s.contains(e) || e == x) by {
            if e == x {
                assert(seq![x][0] == e);
            }
        }
    }
}

proof fn lemma_sort_verses_members(s: Seq<VerseM>)
    ensures
        forall|e: VerseM| #[trigger] sort_verses(s).contains(e) <==> s.contains(e),
    decreases s.len(),
{
    if s.len() > 0 {
        lemma_sort_verses_members(s.drop_last());
        lemma_insert_verse_members(sort_verses(s.drop_last()), s.last());
        assert forall|e: VerseM| #[trigger] sort_verses(s).contains(e) <==> s.contains(e) by {
            assert(s == s.drop_last().push(s.last()));
            if s.contains(e) {
                let k = choose|k: int| 0 <= k < s.len() && s[k] == e;
                if k < s.len() - 1 {
                    assert(s.drop_last()[k] == e);
                }
            }
            if s.drop_last().contains(e) {
                let k = choose|k: int| 0 <= k < s.drop_last().len() && s.drop_last()[k] == e;
                assert(s[k] == e);
            }
        }
    }
}

proof fn lemma_insert_chapter_members(s: Seq<ChapterM>, x: ChapterM)
    ensures
        forall|e: ChapterM| #[trigger] insert_chapter(s, x).contains(e) <==> (s.contains(e) || e == x),
    decreases s.len(),
{
    if s.len() > 0 && s.last().0 > x.0 {
        lemma_insert_chapter_members(s.drop_last(), x);
        assert forall|e: ChapterM| #[trigger] insert_chapter(s, x).contains(e) <==> (s.contains(e) || e == x) by {
            let r = insert_chapter(s.drop_last(), x);
            assert(insert_chapter(s, x) == r.push(s.last()));
            assert(s == s.drop_last().push(s.last()));
            if r.push(s.last()).contains(e) {
                let k = choose|k: int| 0 <= k < r.len() + 1 && r.push(s.last())[k] == e;
                if k < r.len() {
                    assert(r[k] == e);
                    assert(r.contains(e));
                }
            }
            if s.contains(e) {
                let k = choose|k: int| 0 <= k < s.len() && s[k] == e;
                if k < s.len() - 1 {
                    assert(s.drop_last()[k] == e);
                    assert(r.contains(e));
                    let j = choose|j: int| 0 <= j < r.len() && r[j] == e;
                    assert(r.push(s.last())[j] == e);
                } else {
                    assert(r.push(s.last())[r.len() as int] == e);
                }
            }
            if e == x {
                assert(r.contains(e));
                let j = choose|j: int| 0 <= j < r.len() && r[j] == e;
                assert(r.push(s.last())[j] == e);
            }
            if s.drop_last().contains(e) {
                let k = choose|k: int| 0 <= k < s.drop_last().len() && s.drop_last()[k] == e;
                assert(s[k] == e);
            }
        }
    } else if s.len() > 0 {
        assert forall|e: ChapterM| #[trigger] s.push(x).contains(e) <==> (s.contains(e) || e == x) by {
            if s.push(x).contains(e) {
                let k = choose|k: int| 0 <= k < s.len() + 1 && s.push(x)[k] == e;
                if k < s.len() {
                    assert(s[k] == e);
                }
            }
            if s.contains(e) {
                let k = choose|k: int| 0 <= k < s.len() && s[k] == e;
                assert(s.push(x)[k] == e);
            }
            if e == x {
                assert(s.push(x)[s.len() as int] == e);
            }
        }
    } else {
        assert forall|e: ChapterM| #[trigger] seq![x].contains(e) <==> (s.contains(e) || e == x) by {
            if e == x {
                assert(seq![x][0] == e);
            }
        }
    }
}

proof fn lemma_sort_chapters_members(s: Seq<ChapterM>)
    ensures
        forall|e: ChapterM| #[trigger] sort_chapters(s).contains(e) <==> s.contains(e),
    decreases s.len(),
{
    if s.len() > 0 {
        lemma_sort_chapters_members(s.drop_last());
        lemma_insert_chapter_members(sort_chapters(s.drop_last()), s.last());
        assert forall|e: ChapterM| #[trigger] sort_chapters(s).contains(e) <==> s.contains(e) by {
            assert(s == s.drop_last().push(s.last()));
            if s.contains(e) {
                let k = choose|k: int| 0 <= k < s.len() && s[k] == e;
                if k < s.len() - 1 {
                    assert(s.drop_last()[k] == e);
                }
            }
            if s.drop_last().contains(e) {
                let k = choose|k: int| 0 <= k < s.drop_last().len() && s.drop_last()[k] == e;
                assert(s[k] == e);
            }
        }
    }
}

proof fn lemma_sort_verses_has(s: Seq<VerseM>, v: u32)
    ensures
        has_verse(s, v) ==> has_verse(sort_verses(s), v),
        forall|e: VerseM| s.contains(e) ==> #[trigger] sort_verses(s).contains(e),
{
    lemma_sort_verses_members(s);
    if has_verse(s, v) {
        let k = choose|k: int| 0 <= k < s.len() && (#[trigger] s[k]).0 == v;
        assert(s.contains(s[k]));
        assert(sort_verses(s).contains(s[k]));
        let j = choose|j: int| 0 <= j < sort_verses(s).len() && sort_verses(s)[j] == s[k];
        assert(sort_verses(s)[j].0 == v);
    }
}

proof fn lemma_upsert_verse(dst: Seq<VerseM>, x: VerseM, v: u32)
    ensures
        has_verse(dst, v) ==> has_verse(upsert_verse(dst, x), v),
        upsert_verse(dst, x).contains(x),
{
    lemma_first_verse_at_in(dst, x.0);
    let r = upsert_verse(dst, x);
    match first_verse_at(dst, x.0) {
        Some(k) => {
            assert(r[k] == x);
            if has_verse(dst, v) {
                let j = choose|j: int| 0 <= j < dst.len() && (#[trigger] dst[j]).0 == v;
                assert(r[j].0 == v);
            }
        },
        None => {
            assert(r[dst.len() as int] == x);
            if has_verse(dst, v) {
                let j = choose|j: int| 0 <= j < dst.len() && (#[trigger] dst[j]).0 == v;
                assert(r[j].0 == v);
            }
        },
    }
}

proof fn lemma_merge_verses(dst: Seq<VerseM>, inc: Seq<VerseM>, v: u32)
    ensures
        has_verse(dst, v) ==> has_verse(merge_verses(dst, inc), v),
        has_verse(inc, v) ==> has_verse(merge_verses(dst, inc), v),
        inc.len() > 0 ==> merge_verses(dst, inc).contains(inc.last()),
    decreases inc.len(),
{
    if inc.len() > 0 {
        lemma_merge_verses(dst, inc.drop_last(), v);
        let prev = merge_verses(dst, inc.drop_last());
        lemma_upsert_verse(prev, inc.last(), v);
        let r = merge_verses(dst, inc);
        if has_verse(inc, v) {
            let k = choose|k: int| 0 <= k < inc.len() && (#[trigger] inc[k]).0 == v;
            if k < inc.len() - 1 {
                assert(inc.drop_last()[k].0 == v);
            } else {
                let j = choose|j: int| 0 <= j < r.len() && r[j] == inc.last();
                assert(r[j].0 == v);
            }
        }
    }
}

proof fn lemma_merge_chapter(chs: Seq<ChapterM>, ch: ChapterM, c: u32, v: u32)
    ensures
        has_chapter_verse(chs, c, v) ==> has_chapter_verse(merge_chapter(chs, ch), c, v),
        has_verse(ch.1, v) ==> has_chapter_verse(merge_chapter(chs, ch), ch.0, v),
        ch.1.len() > 0 ==> exists|i: int| 0 <= i < merge_chapter(chs, ch).len()
            && (#[trigger] merge_chapter(chs, ch)[i]).0 == ch.0 && merge_chapter(chs, ch)[i].1.contains(ch.1.last()),
{
    lemma_first_chapter_at_in(chs, ch.0);
    let r = merge_chapter(chs, ch);
    match first_chapter_at(chs, ch.0) {
        Some(k) => {
            let mv = merge_verses(chs[k].1, ch.1);
            lemma_merge_verses(chs[k].1, ch.1, v);
            lemma_sort_verses_has(mv, v);
            assert(r[k] == (chs[k].0, sort_verses(mv)));
            if has_chapter_verse(chs, c, v) {
                let i = choose|i: int| 0 <= i < chs.len() && (#[trigger] chs[i]).0 == c && has_verse(chs[i].1, v);
                if i != k {
                    assert(r[i] == chs[i]);
                } else {
                    assert(has_verse(r[k].1, v));
                }
            }
            if has_verse(ch.1, v) {
                assert(has_verse(r[k].1, v));
            }
            if ch.1.len() > 0 {
                assert(sort_verses(mv).contains(ch.1.last()));
                assert(r[k].1.contains(ch.1.last()));
            }
        },
        None => {
            assert(r[chs.len() as int] == ch);
            if has_chapter_verse(chs, c, v) {
                let i = choose|i: int| 0 <= i < chs.len() && (#[trigger] chs[i]).0 == c && has_verse(chs[i].1, v);
                assert(r[i] == chs[i]);
            }
            if ch.1.len() > 0 {
                assert(ch.1[ch.1.len() - 1] == ch.1.last());
                assert(r[chs.len() as int].1.contains(ch.1.last()));
            }
        },
    }
}

proof fn lemma_merge_chapters(chs: Seq<ChapterM>, inc: Seq<ChapterM>, c: u32, v: u32)
    ensures
        has_chapter_verse(chs, c, v) ==> has_chapter_verse(merge_chapters(chs, inc), c, v),
        has_chapter_verse(inc, c, v) ==> has_chapter_verse(merge_chapters(chs, inc), c, v),
    decreases inc.len(),
{
    if inc.len() > 0 {
        lemma_merge_chapters(chs, inc.drop_last(), c, v);
        let prev = merge_chapters(chs, inc.drop_last());
        lemma_merge_chapter(prev, inc.last(), c, v);
        if has_chapter_verse(inc, c, v) {
            let i = choose|i: int| 0 <= i < inc.len() && (#[trigger] inc[i]).0 == c && has_verse(inc[i].1, v);
            if i < inc.len() - 1 {
                assert(inc.drop_last()[i] == inc[i]);
                assert(has_chapter_verse(inc.drop_last(), c, v));
            }
        }
    }
}

proof fn lemma_sort_chapters_has(s: Seq<ChapterM>, c: u32, v: u32)
    ensures
        has_chapter_verse(s, c, v) ==> has_chapter_verse(sort_chapters(s), c, v),
        forall|e: ChapterM| s.contains(e) ==> #[trigger] sort_chapters(s).contains(e),
{
    lemma_sort_chapters_members(s);
    if has_chapter_verse(s, c, v) {
        let i = choose|i: int| 0 <= i < s.len() && (#[trigger] s[i]).0 == c && has_verse(s[i].1, v);
        assert(s.contains(s[i]));
        assert(sort_chapters(s).contains(s[i]));
        let j = choose|j: int| 0 <= j < sort_chapters(s).len() && sort_chapters(s)[j] == s[i];
        assert(sort_chapters(s)[j].0 == c);
    }
}

/// Folding an import into a book's chapters wipes nothing: every verse the
/// book had (by chapter and verse number) is still there, and every verse
/// of the import is there too.
pub proof fn law_merge_keeps_and_adds(existing: Seq<ChapterM>, incoming: Seq<ChapterM>, c: u32, v: u32)
    ensures
        has_chapter_verse(existing, c, v) ==> has_chapter_verse(merged_book_chapters(existing, incoming), c, v),
        has_chapter_verse(incoming, c, v) ==> has_chapter_verse(merged_book_chapters(existing, incoming), c, v),
{
    lemma_merge_chapters(existing, incoming, c, v);
    lemma_sort_chapters_has(merge_chapters(existing, incoming), c, v);
}

/// An imported verse takes over: after folding in verse `v` of chapter `c`
/// with text `t`, chapter `c` holds verse `v` with text `t`.
pub proof fn law_merge_overwrites(existing: Seq<ChapterM>, c: u32, v: u32, t: Seq<char>)
    ensures
        exists|i: int| 0 <= i < merged_book_chapters(existing, seq![(c, seq![(v, t)])]).len()
            && (#[trigger] merged_book_chapters(existing, seq![(c, seq![(v, t)])])[i]).0 == c
            && merged_book_chapters(existing, seq![(c, seq![(v, t)])])[i].1.contains((v, t)),
{
    let inc: Seq<ChapterM> = seq![(c, seq![(v, t)])];
    assert(inc.drop_last() =~= Seq::<ChapterM>::empty());
    let m = merge_chapters(existing, inc);
    assert(merge_chapters(existing, inc.drop_last()) == existing);
    assert(inc.last() == (c, seq![(v, t)]));
    assert(m == merge_chapter(existing, (c, seq![(v, t)])));
    lemma_merge_chapter(existing, (c, seq![(v, t)]), c, v);
    assert(seq![(v, t)].last() == (v, t));
    let i = choose|i: int| 0 <= i < m.len() && (#[trigger] m[i]).0 == c && m[i].1.contains((v, t));
    lemma_sort_chapters_has(m, c, v);
    assert(m.contains(m[i]));
    let s = sort_chapters(m);
    assert(s.contains(m[i]));
    let j = choose|j: int| 0 <= j < s.len() && s[j] == m[i];
    assert(s[j].0 == c && s[j].1.contains((v, t)));
    assert(merged_book_chapters(existing, inc) == s);
}

} // verus!
