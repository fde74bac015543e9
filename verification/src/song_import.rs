//! Song import: ChordPro, CCLI SongSelect USR and plain-text lyrics read
//! into titled slides, and a parsed song turned into a library song of
//! named blocks.
use crate::project::{
    block_key, block_key_exec, blocks_view, key_info, lit_string, name_list_s, verse_label,
    Background, KeyInfo, LibrarySlide, LibrarySong,
};
use crate::scripture::name_list;
use crate::scripture_import::first_label;
use crate::text::{
    all_ascii, append, ascii_lower, chars_of, contains, contains_exec, dec, eq_chars, find_char, find_first, has_prefix,
    join, join_with, lines, lines_of, lit, lower_text, lowercase, push_dec, slice_of, starts_with,
    string_of, to_lowercase, trim, trim_chars, trim_end, trim_end_chars,
};
use vstd::prelude::*;

verus! {

/// A slide read from a song file.
#[derive(Debug)]
pub struct ParsedSlide {
    pub title: String,
    pub body: String,
}

/// A song read from a file: its title and slides in order.
#[derive(Debug)]
pub struct ParsedSong {
    pub title: String,
    pub slides: Vec<ParsedSlide>,
}

/// `(title, body)`.
pub type SlideM = (Seq<char>, Seq<char>);

pub open spec fn slides_model(v: Seq<ParsedSlide>) -> Seq<SlideM> {
    v.map_values(|s: ParsedSlide| (s.title@, s.body@))
}

/// `(title, slides)`.
pub open spec fn song_model(s: ParsedSong) -> (Seq<char>, Seq<SlideM>) {
    (s.title@, slides_model(s.slides@))
}

/// The outcome of parsing as text: the song or the error message.
pub open spec fn result_model(r: Result<ParsedSong, String>) -> Result<(Seq<char>, Seq<SlideM>), Seq<char>> {
    match r {
        Ok(s) => Ok(song_model(s)),
        Err(e) => Err(e@),
    }
}

// ---------------------------------------------------------------------------
// Character helpers
// ---------------------------------------------------------------------------

/// `s` with the characters between `open` and `close` (and the delimiters
/// themselves) removed, and whether an `open` is still unclosed.
pub open spec fn strip_state(s: Seq<char>, open: char, close: char) -> (Seq<char>, bool)
    decreases s.len(),
{
    if s.len() == 0 {
        (seq![], false)
    } else {
        let prev = strip_state(s.drop_last(), open, close);
        let c = s.last();
        if c == open {
            (prev.0, true)
        } else if c == close {
            (prev.0, false)
        } else if prev.1 {
            prev
        } else {
            (prev.0.push(c), false)
        }
    }
}

/// `s` without `[chord]` annotations.
pub open spec fn chords_stripped(s: Seq<char>) -> Seq<char> {
    strip_state(s, '[', ']').0
}

/// `s` without `<tags>`.
pub open spec fn tags_stripped(s: Seq<char>) -> Seq<char> {
    strip_state(s, '<', '>').0
}

fn strip_between(v: &Vec<char>, open: char, close: char) -> (r: Vec<char>)
    ensures
        r@ == strip_state(v@, open, close).0,
{
    let mut out: Vec<char> = Vec::new();
    let mut inside = false;
    let mut i: usize = 0;
    assert(v@.take(0) =~= Seq::<char>::empty());
    while i < v.len()
        invariant
            i <= v.len(),
            (out@, inside) == strip_state(v@.take(i as int), open, close),
        decreases v.len() - i,
    {
        let c = v[i];
        assert(v@.take(i + 1).drop_last() =~= v@.take(i as int));
        if c == open {
            inside = true;
        } else if c == close {
            inside = false;
        } else if !inside {
            out.push(c);
        }
        i = i + 1;
    }
    assert(v@.take(v.len() as int) =~= v@);
    out
}

/// Remove `[chord]` annotations.
pub fn strip_chords(s: &str) -> (r: String)
    ensures
        r@ == chords_stripped(s@),
{
    string_of(&strip_between(&chars_of(s), '[', ']'))
}

/// Remove `<tags>`, keeping the text between them.
pub fn strip_xml_tags(s: &str) -> (r: String)
    ensures
        r@ == tags_stripped(s@),
{
    string_of(&strip_between(&chars_of(s), '<', '>'))
}

/// A CCLI SongSelect text export: a title, author or CCLI header, or a
/// "Verse 1" label (ignoring case).
pub open spec fn usr_like(content: Seq<char>) -> bool {
    let lower = lowercase(content);
    contains(lower, "title:"@) || contains(lower, "ccli"@) || contains(lower, "author:"@) || contains(lower, "verse 1"@)
}

/// A ChordPro file: a title directive or a `[C`/`[G` chord.
pub open spec fn chordpro_like(content: Seq<char>) -> bool {
    contains(content, "{title:"@) || contains(content, "{t:"@) || contains(content, "[C"@) || contains(content, "[G"@)
}

pub fn looks_like_usr(content: &str) -> (r: bool)
    ensures
        r == usr_like(content@),
{
    let lower = to_lowercase(&chars_of(content));
    contains_exec(&lower, &lit("title:")) || contains_exec(&lower, &lit("ccli")) || contains_exec(&lower, &lit("author:"))
        || contains_exec(&lower, &lit("verse 1"))
}

pub fn looks_like_chordpro(content: &str) -> (r: bool)
    ensures
        r == chordpro_like(content@),
{
    let c = chars_of(content);
    contains_exec(&c, &lit("{title:")) || contains_exec(&c, &lit("{t:")) || contains_exec(&c, &lit("[C"))
        || contains_exec(&c, &lit("[G"))
}

/// `s` without leading copies of `c`.
pub open spec fn trim_char_start(s: Seq<char>, c: char) -> Seq<char>
    decreases s.len(),
{
    if s.len() > 0 && s[0] == c {
        trim_char_start(s.drop_first(), c)
    } else {
        s
    }
}

/// `s` without trailing copies of `c`.
pub open spec fn trim_char_end(s: Seq<char>, c: char) -> Seq<char>
    decreases s.len(),
{
    if s.len() > 0 && s.last() == c {
        trim_char_end(s.drop_last(), c)
    } else {
        s
    }
}

/// `str::trim_matches` with one character.
pub open spec fn trim_char(s: Seq<char>, c: char) -> Seq<char> {
    trim_char_end(trim_char_start(s, c), c)
}

fn trim_char_exec(v: &Vec<char>, c: char) -> (r: Vec<char>)
    ensures
        r@ == trim_char(v@, c),
{
    let mut lo: usize = 0;
    assert(v@.skip(0) =~= v@);
    while lo < v.len() && v[lo] == c
        invariant
            lo <= v.len(),
            trim_char_start(v@, c) == trim_char_start(v@.skip(lo as int), c),
        decreases v.len() - lo,
    {
        assert(v@.skip(lo as int).drop_first() =~= v@.skip(lo + 1));
        lo = lo + 1;
    }
    let mid = slice_of(v, lo, v.len());
    assert(mid@ =~= v@.skip(lo as int));
    let mut hi: usize = mid.len();
    assert(mid@.take(hi as int) =~= mid@);
    while hi > 0 && mid[hi - 1] == c
        invariant
            hi <= mid.len(),
            trim_char_end(mid@, c) == trim_char_end(mid@.take(hi as int), c),
        decreases hi,
    {
        assert(mid@.take(hi as int).drop_last() =~= mid@.take(hi - 1));
        hi = hi - 1;
    }
    let r = slice_of(&mid, 0, hi);
    assert(r@ =~= mid@.take(hi as int));
    r
}

/// Bytes of a character in UTF-8 (`char::len_utf8`).
pub open spec fn char_utf8_len(c: char) -> nat {
    if (c as u32) < 0x80 {
        1
    } else if (c as u32) < 0x800 {
        2
    } else if (c as u32) < 0x10000 {
        3
    } else {
        4
    }
}

/// Bytes of a string in UTF-8 (`str::len`).
pub open spec fn utf8_len(s: Seq<char>) -> nat
    decreases s.len(),
{
    if s.len() == 0 {
        0
    } else {
        utf8_len(s.drop_last()) + char_utf8_len(s.last())
    }
}

proof fn lemma_utf8_len_prefix(s: Seq<char>, k: int)
    requires
        0 <= k <= s.len(),
    ensures
        utf8_len(s.take(k)) <= utf8_len(s),
    decreases s.len() - k,
{
    if k < s.len() {
        lemma_utf8_len_prefix(s.drop_last(), k);
        assert(s.drop_last().take(k) =~= s.take(k));
    } else {
        assert(s.take(k) =~= s);
    }
}

/// Whether `v` takes fewer than `bound` bytes in UTF-8.
pub(crate) fn utf8_len_below(v: &Vec<char>, bound: u64) -> (r: bool)
    requires
        bound <= 1000,
    ensures
        r == (utf8_len(v@) < bound),
{
    if bound == 0 {
        return false;
    }
    let mut n: u64 = 0;
    let mut i: usize = 0;
    assert(v@.take(0) =~= Seq::<char>::empty());
    while i < v.len()
        invariant
            i <= v.len(),
            bound <= 1000,
            n == utf8_len(v@.take(i as int)),
            n < bound,
        decreases v.len() - i,
    {
        assert(v@.take(i + 1).drop_last() =~= v@.take(i as int));
        let c = v[i] as u32;
        let w: u64 = if c < 0x80 { 1 } else if c < 0x800 { 2 } else if c < 0x10000 { 3 } else { 4 };
        n = n + w;
        i = i + 1;
        if n >= bound {
            proof {
                lemma_utf8_len_prefix(v@, i as int);
            }
            return false;
        }
    }
    assert(v@.take(v.len() as int) =~= v@);
    true
}

/// `"Verse 1"`, `"Verse 2"`, ... for the given bodies.
pub open spec fn verse_slides(bodies: Seq<Seq<char>>) -> Seq<SlideM> {
    Seq::new(bodies.len(), |i: int| (verse_label((i + 1) as nat), bodies[i]))
}

fn verse_label_exec(n: usize) -> (r: String)
    ensures
        r@ == verse_label(n as nat),
{
    let mut v = lit("Verse ");
    push_dec(&mut v, n as u64);
    assert(v@ =~= verse_label(n as nat));
    string_of(&v)
}

fn make_verse_slides(bodies: Vec<Vec<char>>) -> (r: Vec<ParsedSlide>)
    ensures
        slides_model(r@) == verse_slides(name_list(bodies@)),
{
    let ghost b = name_list(bodies@);
    let mut out: Vec<ParsedSlide> = Vec::new();
    let mut i: usize = 0;
    while i < bodies.len()
        invariant
            i <= bodies.len(),
            b == name_list(bodies@),
            slides_model(out@) == verse_slides(b).take(i as int),
        decreases bodies.len() - i,
    {
        let ghost before = slides_model(out@);
        let s = ParsedSlide { title: verse_label_exec(i + 1), body: string_of(&bodies[i]) };
        out.push(s);
        assert(slides_model(out@) =~= before.push((verse_label((i + 1) as nat), b[i as int])));
        assert(verse_slides(b).take(i + 1) =~= verse_slides(b).take(i as int).push((verse_label((i + 1) as nat), b[i as int])));
        i = i + 1;
    }
    assert(verse_slides(b).take(bodies.len() as int) =~= verse_slides(b));
    out
}

/// The title unless absent, else the file's stem.
pub open spec fn title_or(t: Option<Seq<char>>, stem: Seq<char>) -> Seq<char> {
    match t {
        Some(x) => x,
        None => stem,
    }
}

// ---------------------------------------------------------------------------
// Plain text
// ---------------------------------------------------------------------------

/// Paragraphs of plain text: runs of non-blank lines, each joined by
/// newlines and trimmed, plus the run still open.
pub open spec fn paragraphs(ls: Seq<Seq<char>>) -> (Seq<Seq<char>>, Seq<Seq<char>>)
    decreases ls.len(),
{
    if ls.len() == 0 {
        (seq![], seq![])
    } else {
        let prev = paragraphs(ls.drop_last());
        let l = ls.last();
        if trim(l).len() == 0 {
            if prev.1.len() > 0 {
                (prev.0.push(trim(join(prev.1, "\n"@))), seq![])
            } else {
                prev
            }
        } else {
            (prev.0, prev.1.push(l))
        }
    }
}

/// All paragraphs, the open one included.
pub open spec fn all_paragraphs(content: Seq<char>) -> Seq<Seq<char>> {
    let p = paragraphs(lines(content));
    if p.1.len() > 0 { p.0.push(trim(join(p.1, "\n"@))) } else { p.0 }
}

/// What plain-text import yields for `content` (a file named `display`,
/// with stem `stem`).
pub open spec fn plain_result(content: Seq<char>, display: Seq<char>, stem: Seq<char>) -> Result<(Seq<char>, Seq<SlideM>), Seq<char>> {
    if trim(content).len() == 0 {
        Err("file is empty: "@ + display)
    } else if all_paragraphs(content).len() == 0 {
        Err("file contains no text: "@ + display)
    } else {
        Ok((stem, verse_slides(all_paragraphs(content))))
    }
}

fn joined_trim(parts: &Vec<Vec<char>>) -> (r: Vec<char>)
    ensures
        r@ == trim(join(name_list(parts@), "\n"@)),
{
    let nl = lit("\n");
    let j = join_with(parts, &nl);
    assert(parts@.map_values(|l: Vec<char>| l@) == name_list(parts@));
    trim_chars(&j)
}

/// Plain text: the title is the file stem, slides are the blank-line
/// separated paragraphs.
pub fn parse_plain(content: &str, display: &str, stem: &str) -> (r: Result<ParsedSong, String>)
    ensures
        result_model(r) == plain_result(content@, display@, stem@),
{
    let c = chars_of(content);
    if trim_chars(&c).len() == 0 {
        let mut m = lit("file is empty: ");
        append(&mut m, &chars_of(display));
        return Err(string_of(&m));
    }
    let ls = lines_of(&c);
    let ghost ll = lines(c@);
    assert(ls@.map_values(|l: Vec<char>| l@) == name_list(ls@));
    let mut done: Vec<Vec<char>> = Vec::new();
    let mut cur: Vec<Vec<char>> = Vec::new();
    let mut i: usize = 0;
    assert(ll.take(0) =~= Seq::<Seq<char>>::empty());
    assert(name_list(done@) =~= Seq::<Seq<char>>::empty());
    assert(name_list(cur@) =~= Seq::<Seq<char>>::empty());
    while i < ls.len()
        invariant
            i <= ls.len(),
            ll == name_list(ls@),
            (name_list(done@), name_list(cur@)) == paragraphs(ll.take(i as int)),
            done.len() <= i,
        decreases ls.len() - i,
    {
        assert(ll.take(i + 1).drop_last() =~= ll.take(i as int));
        let l = &ls[i];
        if trim_chars(l).len() == 0 {
            if cur.len() > 0 {
                let p = joined_trim(&cur);
                let ghost before = name_list(done@);
                done.push(p);
                assert(name_list(done@) =~= before.push(p@));
                cur = Vec::new();
                assert(name_list(cur@) =~= Seq::<Seq<char>>::empty());
            }
        } else {
            let ghost before = name_list(cur@);
            cur.push(clone_vec(l));
            assert(name_list(cur@) =~= before.push(l@));
        }
        i = i + 1;
    }
    assert(ll.take(ls.len() as int) =~= ll);
    if cur.len() > 0 {
        let p = joined_trim(&cur);
        let ghost before = name_list(done@);
        done.push(p);
        assert(name_list(done@) =~= before.push(p@));
    }
    if done.len() == 0 {
        let mut m = lit("file contains no text: ");
        append(&mut m, &chars_of(display));
        return Err(string_of(&m));
    }
    let slides = make_verse_slides(done);
    Ok(ParsedSong { title: lit_string(stem), slides })
}

fn clone_vec(v: &Vec<char>) -> (r: Vec<char>)
    ensures
        r@ == v@,
{
    let mut r: Vec<char> = Vec::new();
    append(&mut r, v);
    r
}


// ---------------------------------------------------------------------------
// ChordPro
// ---------------------------------------------------------------------------

/// Reading state of a ChordPro file: the title found so far, the finished
/// blocks and the lines of the open block.
pub struct ChoState {
    pub title: Option<Seq<char>>,
    pub blocks: Seq<Seq<char>>,
    pub cur: Seq<Seq<char>>,
}

/// The open block (if any) closed, its lines joined by newlines.
pub open spec fn cho_flush(st: ChoState) -> ChoState {
    if st.cur.len() > 0 {
        ChoState { blocks: st.blocks.push(join(st.cur, "\n"@)), cur: seq![], ..st }
    } else {
        st
    }
}

/// Directives without a value that start or end a chorus or verse.
pub open spec fn cho_separator(low: Seq<char>) -> bool {
    low == "soc"@ || low == "start_of_chorus"@ || low == "sov"@ || low == "start_of_verse"@ || low == "eoc"@
        || low == "end_of_chorus"@ || low == "eov"@ || low == "end_of_verse"@
}

/// The value of a `{key: value}` directive: trimmed, without surrounding quotes.
pub open spec fn directive_value(inner: Seq<char>, k: int) -> Seq<char> {
    trim_char(trim_char(trim(inner.skip(k + 1)), '"'), '\'')
}

/// One line of a ChordPro file. A blank line closes the block; a
/// `{title: ...}` (or `{t: ...}`) directive gives the first title; other
/// directives are skipped, those that start or end a section closing the
/// block; other lines join the block with their chords removed, unless
/// nothing is left of them.
pub open spec fn cho_step(st: ChoState, raw: Seq<char>) -> ChoState {
    let line = trim(raw);
    if line.len() == 0 {
        cho_flush(st)
    } else if line[0] == '{' && line.last() == '}' {
        let inner = trim(line.subrange(1, line.len() - 1));
        match find_char(inner, ':') {
            Some(k) => {
                let key = lowercase(trim(inner.take(k)));
                let val = directive_value(inner, k);
                if (key == "title"@ || key == "t"@) && st.title is None && val.len() > 0 {
                    ChoState { title: Some(val), ..st }
                } else {
                    st
                }
            },
            None => if cho_separator(lowercase(inner)) { cho_flush(st) } else { st },
        }
    } else {
        let stripped = chords_stripped(line);
        if trim(stripped).len() == 0 {
            st
        } else {
            ChoState { cur: st.cur.push(trim(stripped)), ..st }
        }
    }
}

pub open spec fn cho_run(ls: Seq<Seq<char>>) -> ChoState
    decreases ls.len(),
{
    if ls.len() == 0 {
        ChoState { title: None, blocks: seq![], cur: seq![] }
    } else {
        cho_step(cho_run(ls.drop_last()), ls.last())
    }
}

/// The trimmed lines that are neither blank nor directives.
pub open spec fn lyric_lines(ls: Seq<Seq<char>>) -> Seq<Seq<char>>
    decreases ls.len(),
{
    if ls.len() == 0 {
        seq![]
    } else {
        let t = trim(ls.last());
        if t.len() > 0 && t[0] != '{' {
            lyric_lines(ls.drop_last()).push(t)
        } else {
            lyric_lines(ls.drop_last())
        }
    }
}

/// What ChordPro import yields: one `"Verse n"` slide per block; when no
/// block forms, the whole file with chords removed as one slide.
pub open spec fn cho_result(content: Seq<char>, display: Seq<char>, stem: Seq<char>) -> Result<(Seq<char>, Seq<SlideM>), Seq<char>> {
    if trim(content).len() == 0 {
        Err("ChordPro file is empty: "@ + display)
    } else {
        let fin = cho_flush(cho_run(lines(content)));
        if fin.blocks.len() > 0 {
            Ok((title_or(fin.title, stem), verse_slides(fin.blocks)))
        } else {
            let cleaned = join(lyric_lines(lines(chords_stripped(content))), "\n"@);
            if trim(cleaned).len() == 0 {
                Err("ChordPro file contains no extractable lyrics ("@ + display + "). Check {title} vs [chords] syntax."@)
            } else {
                Ok((title_or(fin.title, stem), verse_slides(seq![cleaned])))
            }
        }
    }
}

pub open spec fn opt_view(o: Option<Vec<char>>) -> Option<Seq<char>> {
    match o {
        Some(v) => Some(v@),
        None => None,
    }
}

pub open spec fn cho_state(title: Option<Vec<char>>, blocks: Seq<Vec<char>>, cur: Seq<Vec<char>>) -> ChoState {
    ChoState { title: opt_view(title), blocks: name_list(blocks), cur: name_list(cur) }
}

fn cho_flush_exec(blocks: &mut Vec<Vec<char>>, cur: &mut Vec<Vec<char>>)
    ensures
        (name_list(final(blocks)@), name_list(final(cur)@)) == (cho_flush(cho_state(None, old(blocks)@, old(cur)@)).blocks,
            cho_flush(cho_state(None, old(blocks)@, old(cur)@)).cur),
{
    if cur.len() > 0 {
        let nl = lit("\n");
        let j = join_with(cur, &nl);
        assert(cur@.map_values(|l: Vec<char>| l@) == name_list(cur@));
        let ghost before = name_list(blocks@);
        blocks.push(j);
        assert(name_list(blocks@) =~= before.push(j@));
        *cur = Vec::new();
        assert(name_list(cur@) =~= Seq::<Seq<char>>::empty());
    }
}

fn eq_lit(v: &Vec<char>, s: &str) -> (r: bool)
    ensures
        r == (v@ == s@),
{
    eq_chars(v, &lit(s))
}

/// ChordPro: `{title: ...}` gives the title (else the file stem), blocks of
/// lyric lines separated by blank lines or section directives become
/// `"Verse n"` slides, chords are removed.
pub fn parse_cho(content: &str, display: &str, stem: &str) -> (r: Result<ParsedSong, String>)
    ensures
        result_model(r) == cho_result(content@, display@, stem@),
{
    let c = chars_of(content);
    if trim_chars(&c).len() == 0 {
        let mut m = lit("ChordPro file is empty: ");
        append(&mut m, &chars_of(display));
        return Err(string_of(&m));
    }
    let ls = lines_of(&c);
    let ghost ll = lines(c@);
    assert(ls@.map_values(|l: Vec<char>| l@) == name_list(ls@));
    let mut title: Option<Vec<char>> = None;
    let mut blocks: Vec<Vec<char>> = Vec::new();
    let mut cur: Vec<Vec<char>> = Vec::new();
    let mut i: usize = 0;
    assert(ll.take(0) =~= Seq::<Seq<char>>::empty());
    assert(name_list(blocks@) =~= Seq::<Seq<char>>::empty());
    assert(name_list(cur@) =~= Seq::<Seq<char>>::empty());
    assert(cho_state(title, blocks@, cur@) == cho_run(ll.take(0)));
    while i < ls.len()
        invariant
            i <= ls.len(),
            ll == name_list(ls@),
            cho_state(title, blocks@, cur@) == cho_run(ll.take(i as int)),
        decreases ls.len() - i,
    {
        assert(ll.take(i + 1).drop_last() =~= ll.take(i as int));
        let ghost st = cho_state(title, blocks@, cur@);
        let line = trim_chars(&ls[i]);
        if line.len() == 0 {
            cho_flush_exec(&mut blocks, &mut cur);
        } else if line[0] == '{' && line[line.len() - 1] == '}' {
            let inner = trim_chars(&slice_of(&line, 1, line.len() - 1));
            match find_first(&inner, ':') {
                Some(k) => {
                    let key = to_lowercase(&trim_chars(&slice_of(&inner, 0, k)));
                    assert(inner@.subrange(0, k as int) =~= inner@.take(k as int));
                    let rest = slice_of(&inner, k + 1, inner.len());
                    assert(rest@ =~= inner@.skip(k + 1));
                    let val = trim_char_exec(&trim_char_exec(&trim_chars(&rest), '"'), '\'');
                    if (eq_lit(&key, "title") || eq_lit(&key, "t")) && title.is_none() && val.len() > 0 {
                        title = Some(val);
                    }
                },
                None => {
                    let low = to_lowercase(&inner);
                    if eq_lit(&low, "soc") || eq_lit(&low, "start_of_chorus") || eq_lit(&low, "sov") || eq_lit(&low, "start_of_verse")
                        || eq_lit(&low, "eoc") || eq_lit(&low, "end_of_chorus") || eq_lit(&low, "eov") || eq_lit(&low, "end_of_verse") {
                        cho_flush_exec(&mut blocks, &mut cur);
                    }
                },
            }
        } else {
            let stripped = strip_between(&line, '[', ']');
            let t = trim_chars(&stripped);
            if t.len() > 0 {
                let ghost before = name_list(cur@);
                cur.push(t);
                assert(name_list(cur@) =~= before.push(t@));
            }
        }
        assert(cho_state(title, blocks@, cur@) == cho_step(st, ll[i as int]));
        i = i + 1;
    }
    assert(ll.take(ls.len() as int) =~= ll);
    cho_flush_exec(&mut blocks, &mut cur);
    let final_title = match title {
        Some(t) => string_of(&t),
        None => lit_string(stem),
    };
    if blocks.len() > 0 {
        return Ok(ParsedSong { title: final_title, slides: make_verse_slides(blocks) });
    }
    let sc = strip_between(&c, '[', ']');
    let sl = lines_of(&sc);
    let ghost sll = lines(sc@);
    assert(sl@.map_values(|l: Vec<char>| l@) == name_list(sl@));
    let mut keep: Vec<Vec<char>> = Vec::new();
    let mut q: usize = 0;
    assert(sll.take(0) =~= Seq::<Seq<char>>::empty());
    assert(name_list(keep@) =~= lyric_lines(sll.take(0)));
    while q < sl.len()
        invariant
            q <= sl.len(),
            sll == name_list(sl@),
            name_list(keep@) == lyric_lines(sll.take(q as int)),
        decreases sl.len() - q,
    {
        assert(sll.take(q + 1).drop_last() =~= sll.take(q as int));
        let t = trim_chars(&sl[q]);
        if t.len() > 0 && t[0] != '{' {
            let ghost before = name_list(keep@);
            keep.push(t);
            assert(name_list(keep@) =~= before.push(t@));
        }
        q = q + 1;
    }
    assert(sll.take(sl.len() as int) =~= sll);
    let cleaned = join_with(&keep, &lit("\n"));
    assert(keep@.map_values(|l: Vec<char>| l@) == name_list(keep@));
    if trim_chars(&cleaned).len() == 0 {
        let mut m = lit("ChordPro file contains no extractable lyrics (");
        append(&mut m, &chars_of(display));
        append(&mut m, &lit("). Check {title} vs [chords] syntax."));
        assert(m@ =~= "ChordPro file contains no extractable lyrics ("@ + display@ + "). Check {title} vs [chords] syntax."@);
        return Err(string_of(&m));
    }
    let mut one: Vec<Vec<char>> = Vec::new();
    one.push(cleaned);
    assert(name_list(one@) =~= seq![cleaned@]);
    Ok(ParsedSong { title: final_title, slides: make_verse_slides(one) })
}


// ---------------------------------------------------------------------------
// CCLI SongSelect USR text
// ---------------------------------------------------------------------------

/// Reading state of a USR header: the title, the lyric lines kept so far,
/// whether the header may still continue and whether it has ended.
pub struct UsrState {
    pub title: Option<Seq<char>>,
    pub lines: Seq<Seq<char>>,
    pub in_header: bool,
    pub header_done: bool,
}

/// Header lines that carry credits, not lyrics.
pub open spec fn usr_meta(lower: Seq<char>) -> bool {
    has_prefix(lower, "words:"@) || has_prefix(lower, "music:"@) || has_prefix(lower, "author:"@)
        || has_prefix(lower, "copyright:"@) || has_prefix(lower, "ccli"@)
}

/// A line that starts a section.
pub open spec fn section_start(low: Seq<char>) -> bool {
    has_prefix(low, "verse"@) || has_prefix(low, "chorus"@) || has_prefix(low, "bridge"@) || has_prefix(low, "pre-chorus"@)
}

/// A rule made of `-`, `=` and `_`.
pub open spec fn rule_line(line: Seq<char>) -> bool {
    forall|i: int| 0 <= i < line.len() ==> (#[trigger] line[i] == '-' || line[i] == '=' || line[i] == '_')
}

/// After a line: a lone blank first lyric line is dropped, and the header
/// ends once more than two lines are kept.
pub open spec fn usr_post(st: UsrState) -> UsrState {
    let st1 = if st.in_header && st.header_done && st.lines.len() == 1 && trim(st.lines[0]).len() == 0 {
        UsrState { lines: seq![], ..st }
    } else {
        st
    };
    if st1.lines.len() > 2 { UsrState { in_header: false, ..st1 } } else { st1 }
}

/// One line of a USR file: `Title:` and credit lines of the header are
/// read or skipped; a blank line after a title, a rule, a section label
/// or a line without `:` ends the header; lyric lines are kept.
pub open spec fn usr_step(st: UsrState, raw: Seq<char>) -> UsrState {
    let line = trim_end(raw);
    if st.in_header && !st.header_done {
        let lower = lowercase(line);
        if has_prefix(lower, "title:"@) {
            let v = trim_char(trim(if line.len() >= 6 { line.skip(6) } else { seq![] }), '"');
            if v.len() > 0 { UsrState { title: Some(v), ..st } } else { st }
        } else if usr_meta(lower) {
            st
        } else if trim(line).len() == 0 {
            if st.title is Some { UsrState { header_done: true, ..st } } else { usr_post(st) }
        } else if rule_line(line) {
            UsrState { header_done: true, ..st }
        } else {
            let ends = st.title is None && st.lines.len() == 0 && (section_start(lowercase(line)) || !contains(lower, ":"@));
            if ends {
                usr_post(UsrState { header_done: true, lines: st.lines.push(line), ..st })
            } else {
                usr_post(st)
            }
        }
    } else {
        usr_post(UsrState { lines: st.lines.push(line), ..st })
    }
}

pub open spec fn usr_run(ls: Seq<Seq<char>>) -> UsrState
    decreases ls.len(),
{
    if ls.len() == 0 {
        UsrState { title: None, lines: seq![], in_header: true, header_done: false }
    } else {
        usr_step(usr_run(ls.drop_last()), ls.last())
    }
}

/// The first short lyric line that is neither a label nor holds `:`.
pub open spec fn guess_title(ls: Seq<Seq<char>>) -> Option<Seq<char>>
    decreases ls.len(),
{
    if ls.len() == 0 {
        None
    } else {
        let t = trim(ls[0]);
        if t.len() > 0 && !has_prefix(lowercase(t), "verse"@) && !has_prefix(lowercase(t), "chorus"@) && utf8_len(t) < 60
            && find_char(t, ':') is None {
            Some(t)
        } else {
            guess_title(ls.drop_first())
        }
    }
}

/// Slide building state: the slides, the pending section label and the
/// pending lines.
pub struct UsrSlides {
    pub slides: Seq<SlideM>,
    pub label: Seq<char>,
    pub body: Seq<Seq<char>>,
}

/// A section label (ignoring case).
pub open spec fn usr_label(t: Seq<char>) -> bool {
    let l = lowercase(trim(t));
    has_prefix(l, "verse"@) || has_prefix(l, "chorus"@) || has_prefix(l, "bridge"@) || has_prefix(l, "pre-chorus"@)
        || has_prefix(l, "tag"@) || has_prefix(l, "ending"@) || has_prefix(l, "intro"@)
}

/// The pending label, or `"Verse n"` for the n-th slide.
pub open spec fn label_or_verse(label: Seq<char>, n: nat) -> Seq<char> {
    if label.len() == 0 { verse_label(n + 1) } else { label }
}

/// One lyric line: a blank line ends a slide (a blank body makes none); a
/// short label ends the pending slide and names the next; other lines join it.
pub open spec fn usr_slide_step(st: UsrSlides, line: Seq<char>) -> UsrSlides {
    let t = trim(line);
    if t.len() == 0 {
        if st.body.len() > 0 {
            let body = trim(join(st.body, "\n"@));
            let slides = if body.len() > 0 { st.slides.push((label_or_verse(st.label, st.slides.len()), body)) } else { st.slides };
            UsrSlides { slides, label: seq![], body: seq![] }
        } else {
            st
        }
    } else if usr_label(t) && utf8_len(t) < 30 {
        let slides = if st.body.len() > 0 {
            st.slides.push((label_or_verse(st.label, st.slides.len()), trim(join(st.body, "\n"@))))
        } else {
            st.slides
        };
        UsrSlides { slides, label: t, body: seq![] }
    } else {
        UsrSlides { body: st.body.push(line), ..st }
    }
}

pub open spec fn usr_slides_run(ls: Seq<Seq<char>>) -> UsrSlides
    decreases ls.len(),
{
    if ls.len() == 0 {
        UsrSlides { slides: seq![], label: seq![], body: seq![] }
    } else {
        usr_slide_step(usr_slides_run(ls.drop_last()), ls.last())
    }
}

/// The slides of the lyric lines, the pending one included.
pub open spec fn usr_slides(ls: Seq<Seq<char>>) -> Seq<SlideM> {
    let st = usr_slides_run(ls);
    if st.body.len() > 0 && trim(join(st.body, "\n"@)).len() > 0 {
        st.slides.push((label_or_verse(st.label, st.slides.len()), trim(join(st.body, "\n"@))))
    } else {
        st.slides
    }
}

/// What USR import yields: the `Title:` header (else a guessed title, else
/// the file stem) and the lyric sections.
pub open spec fn usr_result(content: Seq<char>, display: Seq<char>, stem: Seq<char>) -> Result<(Seq<char>, Seq<SlideM>), Seq<char>> {
    if trim(content).len() == 0 {
        Err("USR file is empty: "@ + display)
    } else {
        let st = usr_run(lines(content));
        let title = match st.title {
            Some(t) => t,
            None => title_or(guess_title(st.lines), stem),
        };
        let slides = usr_slides(st.lines);
        if slides.len() == 0 {
            Err("USR file contains no extractable verses ("@ + display
                + "). Expected 'Title:' header and verses separated by blank lines or labels like 'Verse 1'."@)
        } else {
            Ok((title, slides))
        }
    }
}

pub open spec fn usr_state(title: Option<Vec<char>>, lines: Seq<Vec<char>>, in_header: bool, header_done: bool) -> UsrState {
    UsrState { title: opt_view(title), lines: name_list(lines), in_header, header_done }
}

fn is_rule_line(v: &Vec<char>) -> (r: bool)
    ensures
        r == rule_line(v@),
{
    let mut i: usize = 0;
    while i < v.len()
        invariant
            i <= v.len(),
            forall|j: int| 0 <= j < i ==> (#[trigger] v@[j] == '-' || v@[j] == '=' || v@[j] == '_'),
        decreases v.len() - i,
    {
        if !(v[i] == '-' || v[i] == '=' || v[i] == '_') {
            return false;
        }
        i = i + 1;
    }
    true
}

fn has_lit_prefix(v: &Vec<char>, p: &str) -> (r: bool)
    ensures
        r == has_prefix(v@, p@),
{
    starts_with(v, &lit(p))
}

fn usr_post_exec(lines: &mut Vec<Vec<char>>, in_header: &mut bool, header_done: bool, title: &Option<Vec<char>>)
    ensures
        usr_state(*title, final(lines)@, *final(in_header), header_done) == usr_post(usr_state(*title, old(lines)@, *old(in_header), header_done)),
{
    let ghost st = usr_state(*title, lines@, *in_header, header_done);
    if *in_header && header_done && lines.len() == 1 && trim_chars(&lines[0]).len() == 0 {
        *lines = Vec::new();
        assert(name_list(lines@) =~= Seq::<Seq<char>>::empty());
    }
    if lines.len() > 2 {
        *in_header = false;
    }
}

fn push_line(lines: &mut Vec<Vec<char>>, l: Vec<char>)
    ensures
        name_list(final(lines)@) == name_list(old(lines)@).push(l@),
{
    lines.push(l);
    assert(name_list(lines@) =~= name_list(old(lines)@).push(l@));
}

/// CCLI SongSelect USR text: a `Title:` header, credits, then lyrics in
/// sections separated by blank lines or labels such as "Verse 1".
pub fn parse_usr(content: &str, display: &str, stem: &str) -> (r: Result<ParsedSong, String>)
    ensures
        result_model(r) == usr_result(content@, display@, stem@),
{
    let c = chars_of(content);
    if trim_chars(&c).len() == 0 {
        let mut m = lit("USR file is empty: ");
        append(&mut m, &chars_of(display));
        return Err(string_of(&m));
    }
    let ls = lines_of(&c);
    let ghost ll = lines(c@);
    assert(ls@.map_values(|l: Vec<char>| l@) == name_list(ls@));
    let mut title: Option<Vec<char>> = None;
    let mut kept: Vec<Vec<char>> = Vec::new();
    let mut in_header = true;
    let mut header_done = false;
    let mut i: usize = 0;
    assert(ll.take(0) =~= Seq::<Seq<char>>::empty());
    assert(name_list(kept@) =~= Seq::<Seq<char>>::empty());
    while i < ls.len()
        invariant
            i <= ls.len(),
            ll == name_list(ls@),
            usr_state(title, kept@, in_header, header_done) == usr_run(ll.take(i as int)),
        decreases ls.len() - i,
    {
        assert(ll.take(i + 1).drop_last() =~= ll.take(i as int));
        let ghost st = usr_state(title, kept@, in_header, header_done);
        let line = trim_end_chars(&ls[i]);
        if in_header && !header_done {
            let lower = to_lowercase(&line);
            if has_lit_prefix(&lower, "title:") {
                let after = if line.len() >= 6 { slice_of(&line, 6, line.len()) } else { Vec::new() };
                assert(after@ =~= (if line@.len() >= 6 { line@.skip(6) } else { seq![] }));
                let v = trim_char_exec(&trim_chars(&after), '"');
                if v.len() > 0 {
                    title = Some(v);
                }
            } else if has_lit_prefix(&lower, "words:") || has_lit_prefix(&lower, "music:") || has_lit_prefix(&lower, "author:")
                || has_lit_prefix(&lower, "copyright:") || has_lit_prefix(&lower, "ccli") {
            } else if trim_chars(&line).len() == 0 {
                if title.is_some() {
                    header_done = true;
                } else {
                    usr_post_exec(&mut kept, &mut in_header, header_done, &title);
                }
            } else if is_rule_line(&line) {
                header_done = true;
            } else {
                let ends = title.is_none() && kept.len() == 0 && ({
                    let low = to_lowercase(&line);
                    has_lit_prefix(&low, "verse") || has_lit_prefix(&low, "chorus") || has_lit_prefix(&low, "bridge")
                        || has_lit_prefix(&low, "pre-chorus") || !contains_exec(&lower, &lit(":"))
                });
                if ends {
                    header_done = true;
                    push_line(&mut kept, line);
                }
                usr_post_exec(&mut kept, &mut in_header, header_done, &title);
            }
        } else {
            push_line(&mut kept, line);
            usr_post_exec(&mut kept, &mut in_header, header_done, &title);
        }
        assert(usr_state(title, kept@, in_header, header_done) == usr_step(st, ll[i as int]));
        i = i + 1;
    }
    assert(ll.take(ls.len() as int) =~= ll);
    let ghost kl = name_list(kept@);
    let final_title: Vec<char> = match title {
        Some(t) => t,
        None => match guess_title_exec(&kept) {
            Some(t) => t,
            None => chars_of(stem),
        },
    };
    let slides = usr_slides_exec(&kept);
    if slides.len() == 0 {
        let mut m = lit("USR file contains no extractable verses (");
        append(&mut m, &chars_of(display));
        append(&mut m, &lit("). Expected 'Title:' header and verses separated by blank lines or labels like 'Verse 1'."));
        assert(m@ =~= "USR file contains no extractable verses ("@ + display@
            + "). Expected 'Title:' header and verses separated by blank lines or labels like 'Verse 1'."@);
        return Err(string_of(&m));
    }
    Ok(ParsedSong { title: string_of(&final_title), slides })
}

fn guess_title_exec(ls: &Vec<Vec<char>>) -> (r: Option<Vec<char>>)
    ensures
        opt_view(r) == guess_title(name_list(ls@)),
{
    let ghost all = name_list(ls@);
    let mut i: usize = 0;
    assert(all.skip(0) =~= all);
    while i < ls.len()
        invariant
            i <= ls.len(),
            all == name_list(ls@),
            guess_title(all) == guess_title(all.skip(i as int)),
        decreases ls.len() - i,
    {
        let t = trim_chars(&ls[i]);
        assert(all.skip(i as int)[0] == ls@[i as int]@);
        assert(all.skip(i as int).drop_first() =~= all.skip(i + 1));
        if t.len() > 0 {
            let low = to_lowercase(&t);
            if !has_lit_prefix(&low, "verse") && !has_lit_prefix(&low, "chorus") && utf8_len_below(&t, 60) && find_first(&t, ':').is_none() {
                return Some(t);
            }
        }
        i = i + 1;
    }
    assert(all.skip(ls.len() as int) =~= Seq::<Seq<char>>::empty());
    None
}

pub open spec fn slides_state(slides: Seq<ParsedSlide>, label: Seq<char>, body: Seq<Vec<char>>) -> UsrSlides {
    UsrSlides { slides: slides_model(slides), label, body: name_list(body) }
}

fn title_for(label: &Vec<char>, n: usize) -> (r: String)
    requires
        n < usize::MAX,
    ensures
        r@ == label_or_verse(label@, n as nat),
{
    if label.len() == 0 {
        verse_label_exec(n + 1)
    } else {
        string_of(label)
    }
}

fn usr_slides_exec(ls: &Vec<Vec<char>>) -> (r: Vec<ParsedSlide>)
    ensures
        slides_model(r@) == usr_slides(name_list(ls@)),
{
    let ghost all = name_list(ls@);
    let mut slides: Vec<ParsedSlide> = Vec::new();
    let mut label: Vec<char> = Vec::new();
    let mut body: Vec<Vec<char>> = Vec::new();
    let mut i: usize = 0;
    assert(all.take(0) =~= Seq::<Seq<char>>::empty());
    assert(slides_model(slides@) =~= Seq::<SlideM>::empty());
    assert(name_list(body@) =~= Seq::<Seq<char>>::empty());
    assert(label@ =~= Seq::<char>::empty());
    while i < ls.len()
        invariant
            i <= ls.len(),
            all == name_list(ls@),
            slides.len() <= i,
            body.len() > 0 ==> slides.len() < i,
            slides_state(slides@, label@, body@) == usr_slides_run(all.take(i as int)),
        decreases ls.len() - i,
    {
        assert(all.take(i + 1).drop_last() =~= all.take(i as int));
        let ghost st = slides_state(slides@, label@, body@);
        let line = &ls[i];
        let t = trim_chars(line);
        if t.len() == 0 {
            if body.len() > 0 {
                let b = joined_trim(&body);
                if b.len() > 0 {
                    let ghost before = slides_model(slides@);
                    let s = ParsedSlide { title: title_for(&label, slides.len()), body: string_of(&b) };
                    slides.push(s);
                    assert(slides_model(slides@) =~= before.push((label_or_verse(label@, before.len()), b@)));
                }
                label = Vec::new();
                body = Vec::new();
                assert(name_list(body@) =~= Seq::<Seq<char>>::empty());
                assert(label@ =~= Seq::<char>::empty());
            }
        } else {
            let is_label = {
                let l = to_lowercase(&trim_chars(&t));
                has_lit_prefix(&l, "verse") || has_lit_prefix(&l, "chorus") || has_lit_prefix(&l, "bridge")
                    || has_lit_prefix(&l, "pre-chorus") || has_lit_prefix(&l, "tag") || has_lit_prefix(&l, "ending")
                    || has_lit_prefix(&l, "intro")
            };
            let short = utf8_len_below(&t, 30);
            if is_label && short {
                if body.len() > 0 {
                    let b = joined_trim(&body);
                    let ghost before = slides_model(slides@);
                    let s = ParsedSlide { title: title_for(&label, slides.len()), body: string_of(&b) };
                    slides.push(s);
                    assert(slides_model(slides@) =~= before.push((label_or_verse(label@, before.len()), b@)));
                    body = Vec::new();
                }
                assert(name_list(body@) =~= Seq::<Seq<char>>::empty());
                label = t;
            } else {
                let ghost before = name_list(body@);
                body.push(clone_vec(line));
                assert(name_list(body@) =~= before.push(line@));
            }
        }
        assert(slides_state(slides@, label@, body@) == usr_slide_step(st, all[i as int]));
        i = i + 1;
    }
    assert(all.take(ls.len() as int) =~= all);
    if body.len() > 0 {
        let b = joined_trim(&body);
        if b.len() > 0 {
            let ghost before = slides_model(slides@);
            let s = ParsedSlide { title: title_for(&label, slides.len()), body: string_of(&b) };
            slides.push(s);
            assert(slides_model(slides@) =~= before.push((label_or_verse(label@, before.len()), b@)));
        }
    }
    slides
}


// ---------------------------------------------------------------------------
// Parsed song to library song
// ---------------------------------------------------------------------------

/// A block made from a parsed slide: `(key, id, body, group id)`; its
/// title and group label are its key.
pub type ImportBlock = (Seq<char>, Seq<char>, Seq<char>, Seq<char>);

pub open spec fn import_info(bs: Seq<ImportBlock>) -> KeyInfo {
    bs.map_values(|b: ImportBlock| (b.0, (b.0, b.2)))
}

/// Slide `i` (title, body) filed with block id `id`: its key is its title,
/// or `"Verse i+1"` when blank; a different body under a taken key gets the
/// first free `"<key> (n)"`; a new key makes a block with group id
/// `"verse-<number of blocks>"`.
pub open spec fn import_step(st: (Seq<ImportBlock>, Seq<Seq<char>>), i: nat, s: SlideM, id: Seq<char>) -> (Seq<ImportBlock>, Seq<Seq<char>>) {
    let bs = st.0;
    let base = if trim(s.0).len() == 0 { verse_label(i + 1) } else { s.0 };
    let k = block_key(import_info(bs), base, seq![], s.1, false);
    let bs2 = if first_label(import_info(bs), k) is None {
        bs.push((k, id, s.1, "verse-"@ + dec((bs.len() + 1) as nat)))
    } else {
        bs
    };
    (bs2, st.1.push(k))
}

pub open spec fn import_run(ss: Seq<SlideM>, ids: Seq<Seq<char>>) -> (Seq<ImportBlock>, Seq<Seq<char>>)
    decreases ss.len(),
{
    if ss.len() == 0 {
        (seq![], seq![])
    } else {
        import_step(import_run(ss.drop_last(), ids), (ss.len() - 1) as nat, ss.last(), ids[ss.len() - 1])
    }
}

pub open spec fn import_view(bs: Seq<(String, LibrarySlide)>) -> Seq<ImportBlock> {
    bs.map_values(|p: (String, LibrarySlide)| (p.0@, p.1.id@, p.1.body@, match p.1.group_id {
        Some(g) => g@,
        None => seq![],
    }))
}

/// Blocks as import makes them: titled and labelled by their key, with a
/// group id and no positioning.
pub open spec fn import_shaped(bs: Seq<(String, LibrarySlide)>) -> bool {
    forall|k: int|
        0 <= k < bs.len() ==> {
            &&& (#[trigger] bs[k]).1.title@ == bs[k].0@
            &&& bs[k].1.group_label matches Some(l) && l@ == bs[k].0@
            &&& bs[k].1.group_id is Some
            &&& bs[k].1.positioning is None
        }
}

/// A library song from a parsed song, the song id and one block id per
/// slide given (see [`import_step`]).
pub fn library_song_with_ids(parsed: ParsedSong, song_id: String, ids: Vec<String>) -> (r: LibrarySong)
    requires
        ids.len() == parsed.slides.len(),
        parsed.slides.len() + 2 < usize::MAX,
    ensures
        r.id == song_id,
        r.title == parsed.title,
        crate::project::is_default_background(r.default_background),
        r.slides is None,
        import_shaped(r.blocks@),
        import_view(r.blocks@) == import_run(slides_model(parsed.slides@), name_list_s(ids@)).0,
        name_list_s(r.arrangement@) == import_run(slides_model(parsed.slides@), name_list_s(ids@)).1,
{
    let ghost ss = slides_model(parsed.slides@);
    let ghost idv = name_list_s(ids@);
    let n = parsed.slides.len();
    let mut src = crate::scripture_import::into_reversed(parsed.slides);
    let mut idsrc = crate::scripture_import::into_reversed(ids);
    let mut blocks: Vec<(String, LibrarySlide)> = Vec::new();
    let mut arrangement: Vec<String> = Vec::new();
    let mut i: usize = 0;
    assert(ss.take(0) =~= Seq::<SlideM>::empty());
    assert(import_view(blocks@) =~= Seq::<ImportBlock>::empty());
    assert(name_list_s(arrangement@) =~= Seq::<Seq<char>>::empty());
    while src.len() > 0
        invariant
            i + src.len() == n,
            idsrc.len() == src.len(),
            ss.len() == n,
            idv.len() == n,
            n + 2 < usize::MAX,
            blocks.len() <= i,
            forall|k: int| 0 <= k < src.len() ==> (#[trigger] src@[k]).title@ == ss[n - 1 - k].0 && src@[k].body@ == ss[n - 1 - k].1,
            forall|k: int| 0 <= k < idsrc.len() ==> (#[trigger] idsrc@[k])@ == idv[n - 1 - k],
            import_shaped(blocks@),
            key_info(blocks_view(blocks@)) == import_info(import_view(blocks@)),
            import_view(blocks@) == import_run(ss.take(i as int), idv).0,
            name_list_s(arrangement@) == import_run(ss.take(i as int), idv).1,
        decreases src.len(),
    {
        let ps = src.pop().unwrap();
        let id = idsrc.pop().unwrap();
        assert(ss.take(i + 1).drop_last() =~= ss.take(i as int));
        assert(ss.take(i + 1).last() == (ps.title@, ps.body@));
        assert(import_run(ss.take(i + 1), idv) == import_step(import_run(ss.take(i as int), idv), i as nat, (ps.title@, ps.body@), idv[i as int])) by {
            assert(ss.take(i + 1).len() - 1 == i);
        }
        let ghost bs = import_view(blocks@);
        let tc = chars_of(ps.title.as_str());
        let base: Vec<char> = if is_blank(&tc) {
            chars_of(verse_label_exec(i + 1).as_str())
        } else {
            tc
        };
        let k = block_key_exec(&blocks, base, &String::new(), &ps.body, false);
        let ks = string_of(&k);
        match crate::project::find_block(&blocks, &k) {
            None => {
                let mut gid = lit("verse-");
                push_dec(&mut gid, (blocks.len() + 1) as u64);
                let slide = LibrarySlide {
                    id,
                    title: string_of(&k),
                    body: ps.body,
                    positioning: None,
                    group_id: Some(string_of(&gid)),
                    group_label: Some(string_of(&k)),
                };
                let ghost before = blocks@;
                blocks.push((string_of(&k), slide));
                assert(import_view(blocks@) =~= bs.push((k@, idv[i as int], ss[i as int].1, "verse-"@ + dec((bs.len() + 1) as nat))));
                assert(key_info(blocks_view(blocks@)) =~= import_info(import_view(blocks@)));
                assert(import_shaped(blocks@)) by {
                    assert forall|q: int| 0 <= q < blocks@.len() implies {
                        &&& (#[trigger] blocks@[q]).1.title@ == blocks@[q].0@
                        &&& blocks@[q].1.group_label matches Some(l) && l@ == blocks@[q].0@
                        &&& blocks@[q].1.group_id is Some
                        &&& blocks@[q].1.positioning is None
                    } by {
                        if q < before.len() {
                            assert(blocks@[q] == before[q]);
                        }
                    }
                }
            },
            Some(_) => {},
        }
        let ghost abefore = name_list_s(arrangement@);
        arrangement.push(ks);
        assert(name_list_s(arrangement@) =~= abefore.push(k@));
        i = i + 1;
    }
    assert(ss.take(n as int) =~= ss);
    LibrarySong {
        id: song_id,
        title: parsed.title,
        default_background: Background::default(),
        blocks,
        arrangement,
        slides: None,
    }
}

fn is_blank(v: &Vec<char>) -> (r: bool)
    ensures
        r == (trim(v@).len() == 0),
{
    trim_chars(v).len() == 0
}

/// A library song from a parsed song, with fresh random ids for the song
/// and its blocks (see [`library_song_with_ids`]).
pub fn parsed_to_library_song(parsed: ParsedSong) -> (r: LibrarySong)
    requires
        parsed.slides.len() + 2 < usize::MAX,
    ensures
        r.title == parsed.title,
        crate::project::is_default_background(r.default_background),
        r.slides is None,
        import_shaped(r.blocks@),
        crate::triggers::is_uuid_text(r.id@),
        exists|ids: Seq<Seq<char>>|
            ids.len() == parsed.slides.len()
            && (forall|k: int| 0 <= k < ids.len() ==> crate::triggers::is_uuid_text(#[trigger] ids[k]))
            && import_view(r.blocks@) == #[trigger] import_run(slides_model(parsed.slides@), ids).0
            && name_list_s(r.arrangement@) == import_run(slides_model(parsed.slides@), ids).1,
{
    let song_id = crate::triggers::new_uuid();
    let mut ids: Vec<String> = Vec::new();
    let mut j: usize = 0;
    while j < parsed.slides.len()
        invariant
            j <= parsed.slides.len(),
            ids.len() == j,
            forall|k: int| 0 <= k < ids.len() ==> crate::triggers::is_uuid_text(#[trigger] ids@[k]@),
        decreases parsed.slides.len() - j,
    {
        ids.push(crate::triggers::new_uuid());
        j = j + 1;
    }
    let ghost idv = name_list_s(ids@);
    assert(forall|k: int| 0 <= k < idv.len() ==> crate::triggers::is_uuid_text(#[trigger] idv[k]));
    let ghost ss = slides_model(parsed.slides@);
    let r = library_song_with_ids(parsed, song_id, ids);
    assert(import_view(r.blocks@) == import_run(ss, idv).0);
    r
}


// ---------------------------------------------------------------------------
// Choosing the reader
// ---------------------------------------------------------------------------

/// The song file formats, told apart by extension.
#[derive(Clone, Copy, Debug, PartialEq, Eq, Structural)]
pub enum SongFormat {
    /// `.pro`: ProPresenter XML.
    ProPresenter,
    /// `.cho`, `.chopro`, `.chord`, `.chordpro`.
    ChordPro,
    /// `.usr`: CCLI SongSelect.
    Usr,
    /// `.txt`: USR, ChordPro or plain text, judged by content.
    Text,
}

/// The format of an extension (ignoring case), or the message for an
/// unsupported one.
pub open spec fn format_of(ext: Seq<char>) -> Result<SongFormat, Seq<char>> {
    let e = lower_text(ext);
    if e == "pro"@ {
        Ok(SongFormat::ProPresenter)
    } else if e == "cho"@ || e == "chopro"@ || e == "chord"@ || e == "chordpro"@ {
        Ok(SongFormat::ChordPro)
    } else if e == "usr"@ {
        Ok(SongFormat::Usr)
    } else if e == "txt"@ {
        Ok(SongFormat::Text)
    } else {
        Err("unsupported file type \"."@ + e
            + "\" \u{2014} expected .pro (ProPresenter), .cho/.chordpro (ChordPro), or .usr (CCLI USR)"@)
    }
}

/// Each extension the importer names reads with its own format, in any
/// letter case: `pro` as ProPresenter; `cho`, `chopro`, `chord` and
/// `chordpro` as ChordPro; `usr` as CCLI USR; `txt` as text; any other is
/// refused with the message that lists them.
pub proof fn law_song_formats_by_extension()
    ensures
        format_of("pro"@) == Ok::<SongFormat, Seq<char>>(SongFormat::ProPresenter),
        format_of("PRO"@) == Ok::<SongFormat, Seq<char>>(SongFormat::ProPresenter),
        format_of("cho"@) == Ok::<SongFormat, Seq<char>>(SongFormat::ChordPro),
        format_of("Cho"@) == Ok::<SongFormat, Seq<char>>(SongFormat::ChordPro),
        format_of("chopro"@) == Ok::<SongFormat, Seq<char>>(SongFormat::ChordPro),
        format_of("chord"@) == Ok::<SongFormat, Seq<char>>(SongFormat::ChordPro),
        format_of("chordpro"@) == Ok::<SongFormat, Seq<char>>(SongFormat::ChordPro),
        format_of("usr"@) == Ok::<SongFormat, Seq<char>>(SongFormat::Usr),
        format_of("txt"@) == Ok::<SongFormat, Seq<char>>(SongFormat::Text),
        format_of("doc"@) == Err::<SongFormat, Seq<char>>("unsupported file type \".doc\" \u{2014} expected .pro (ProPresenter), .cho/.chordpro (ChordPro), or .usr (CCLI USR)"@),
{
    reveal_strlit("pro"); reveal_strlit("PRO"); reveal_strlit("cho"); reveal_strlit("Cho");
    reveal_strlit("chopro"); reveal_strlit("chord"); reveal_strlit("chordpro");
    reveal_strlit("usr"); reveal_strlit("txt"); reveal_strlit("doc");
    reveal_strlit("unsupported file type \".");
    reveal_strlit("\" \u{2014} expected .pro (ProPresenter), .cho/.chordpro (ChordPro), or .usr (CCLI USR)");
    reveal_strlit("unsupported file type \".doc\" \u{2014} expected .pro (ProPresenter), .cho/.chordpro (ChordPro), or .usr (CCLI USR)");
    assert(all_ascii("pro"@) && ascii_lower("pro"@) =~= "pro"@);
    assert(all_ascii("PRO"@) && ascii_lower("PRO"@) =~= "pro"@);
    assert(all_ascii("cho"@) && ascii_lower("cho"@) =~= "cho"@);
    assert(all_ascii("Cho"@) && ascii_lower("Cho"@) =~= "cho"@);
    assert(all_ascii("chopro"@) && ascii_lower("chopro"@) =~= "chopro"@);
    assert(all_ascii("chord"@) && ascii_lower("chord"@) =~= "chord"@);
    assert(all_ascii("chordpro"@) && ascii_lower("chordpro"@) =~= "chordpro"@);
    assert(all_ascii("usr"@) && ascii_lower("usr"@) =~= "usr"@);
    assert(all_ascii("txt"@) && ascii_lower("txt"@) =~= "txt"@);
    assert(all_ascii("doc"@) && ascii_lower("doc"@) =~= "doc"@);
    assert("cho"@[0] != "pro"@[0]);
    assert("chopro"@.len() != "pro"@.len() && "chord"@.len() != "pro"@.len());
    assert("chordpro"@.len() != "pro"@.len());
    assert("usr"@[0] != "pro"@[0] && "usr"@[0] != "cho"@[0]);
    assert("txt"@[0] != "pro"@[0] && "txt"@[0] != "cho"@[0] && "txt"@[0] != "usr"@[0]);
    assert("doc"@[0] != "pro"@[0] && "doc"@[0] != "cho"@[0] && "doc"@[0] != "usr"@[0]);
    assert("doc"@[0] != "txt"@[0]);
    assert("doc"@.len() != "chopro"@.len() && "doc"@.len() != "chord"@.len());
    assert("doc"@.len() != "chordpro"@.len());
    assert("unsupported file type \"."@ + "doc"@
        + "\" \u{2014} expected .pro (ProPresenter), .cho/.chordpro (ChordPro), or .usr (CCLI USR)"@
        =~= "unsupported file type \".doc\" \u{2014} expected .pro (ProPresenter), .cho/.chordpro (ChordPro), or .usr (CCLI USR)"@);
}

pub fn song_format(ext: &str) -> (r: Result<SongFormat, String>)
    ensures
        match (r, format_of(ext@)) {
            (Ok(a), Ok(b)) => a == b,
            (Err(a), Err(b)) => a@ == b,
            _ => false,
        },
{
    let e = to_lowercase(&chars_of(ext));
    if eq_lit(&e, "pro") {
        Ok(SongFormat::ProPresenter)
    } else if eq_lit(&e, "cho") || eq_lit(&e, "chopro") || eq_lit(&e, "chord") || eq_lit(&e, "chordpro") {
        Ok(SongFormat::ChordPro)
    } else if eq_lit(&e, "usr") {
        Ok(SongFormat::Usr)
    } else if eq_lit(&e, "txt") {
        Ok(SongFormat::Text)
    } else {
        let mut m = lit("unsupported file type \".");
        append(&mut m, &e);
        append(&mut m, &lit("\" \u{2014} expected .pro (ProPresenter), .cho/.chordpro (ChordPro), or .usr (CCLI USR)"));
        assert(m@ =~= "unsupported file type \"."@ + e@
            + "\" \u{2014} expected .pro (ProPresenter), .cho/.chordpro (ChordPro), or .usr (CCLI USR)"@);
        Err(string_of(&m))
    }
}

/// What a `.txt` file yields: read as USR when it looks like one, else as
/// ChordPro when it looks like that, else as plain text.
pub open spec fn text_result(content: Seq<char>, display: Seq<char>, stem: Seq<char>) -> Result<(Seq<char>, Seq<SlideM>), Seq<char>> {
    if usr_like(content) {
        usr_result(content, display, stem)
    } else if chordpro_like(content) {
        cho_result(content, display, stem)
    } else {
        plain_result(content, display, stem)
    }
}

/// A `.txt` song: USR, ChordPro or plain text (see [`text_result`]).
pub fn parse_text_song(content: &str, display: &str, stem: &str) -> (r: Result<ParsedSong, String>)
    ensures
        result_model(r) == text_result(content@, display@, stem@),
{
    if looks_like_usr(content) {
        parse_usr(content, display, stem)
    } else if looks_like_chordpro(content) {
        parse_cho(content, display, stem)
    } else {
        parse_plain(content, display, stem)
    }
}

/// The position of the block an arrangement key plays, in import blocks.
pub open spec fn import_pos(bs: Seq<ImportBlock>, k: Seq<char>) -> Option<int> {
    first_label(import_info(bs), k)
}

/// Importing a parsed song keeps what it plays: one arrangement entry per
/// parsed slide, every entry names a block, no two blocks share a key, and
/// the block played at each position holds that slide's body.
pub proof fn law_import_plays_parsed(ss: Seq<SlideM>, ids: Seq<Seq<char>>)
    ensures
        import_run(ss, ids).1.len() == ss.len(),
        forall|j: int| 0 <= j < ss.len() ==> ((#[trigger] import_pos(import_run(ss, ids).0, import_run(ss, ids).1[j])) matches Some(p)
            && 0 <= p < import_run(ss, ids).0.len() && import_run(ss, ids).0[p].2 == ss[j].1),
        forall|a: int, b: int| 0 <= a < b < import_run(ss, ids).0.len() ==> #[trigger] import_run(ss, ids).0[a].0 != #[trigger] import_run(ss, ids).0[b].0,
    decreases ss.len(),
{
    if ss.len() > 0 {
        law_import_plays_parsed(ss.drop_last(), ids);
        let bs = import_run(ss.drop_last(), ids).0;
        let arr = import_run(ss.drop_last(), ids).1;
        let s = ss.last();
        let i = (ss.len() - 1) as nat;
        let base = if trim(s.0).len() == 0 { verse_label(i + 1) } else { s.0 };
        let k = block_key(import_info(bs), base, seq![], s.1, false);
        crate::project::lemma_block_key_sound(import_info(bs), base, seq![], s.1, false);
        let bs2 = import_run(ss, ids).0;
        let arr2 = import_run(ss, ids).1;
        assert(arr2 == arr.push(k));
        match first_label(import_info(bs), k) {
            None => {
                let nb: ImportBlock = (k, ids[ss.len() - 1], s.1, "verse-"@ + dec((bs.len() + 1) as nat));
                assert(bs2 == bs.push(nb));
                assert(import_info(bs2) =~= import_info(bs).push((k, (k, s.1))));
                crate::scripture_import::lemma_first_label_push(import_info(bs), (k, (k, s.1)), k);
                assert forall|j: int| 0 <= j < ss.len() implies ((#[trigger] import_pos(bs2, arr2[j])) matches Some(p)
                    && 0 <= p < bs2.len() && bs2[p].2 == ss[j].1) by {
                    if j < ss.len() - 1 {
                        assert(arr2[j] == arr[j]);
                        assert(ss.drop_last()[j] == ss[j]);
                        crate::scripture_import::lemma_first_label_push(import_info(bs), (k, (k, s.1)), arr[j]);
                        let p = import_pos(bs, arr[j]).unwrap();
                        assert(bs2[p] == bs[p]);
                    } else {
                        assert(arr2[j] == k);
                        assert(bs2[bs.len() as int] == nb);
                    }
                }
                assert forall|a: int, b: int| 0 <= a < b < bs2.len() implies #[trigger] bs2[a].0 != #[trigger] bs2[b].0 by {
                    if b == bs.len() && bs2[a].0 == k {
                        assert(import_info(bs)[a].0 == k);
                        crate::scripture_import::lemma_first_label_found(import_info(bs), k, a);
                        let q = choose|q: int| 0 <= q < a && #[trigger] import_info(bs)[q].0 == k;
                        crate::scripture_import::lemma_first_label_found(import_info(bs), k, q);
                    }
                }
            },
            Some(p) => {
                assert(bs2 == bs);
                assert(import_info(bs)[p].1.1 == bs[p].2);
                assert forall|j: int| 0 <= j < ss.len() implies ((#[trigger] import_pos(bs2, arr2[j])) matches Some(q)
                    && 0 <= q < bs2.len() && bs2[q].2 == ss[j].1) by {
                    if j < ss.len() - 1 {
                        assert(arr2[j] == arr[j]);
                        assert(ss.drop_last()[j] == ss[j]);
                    } else {
                        assert(arr2[j] == k);
                    }
                }
            },
        }
    }
}

proof fn lemma_strip_state_free(s: Seq<char>, open: char, close: char)
    ensures
        forall|i: int| 0 <= i < strip_state(s, open, close).0.len() ==> #[trigger] strip_state(s, open, close).0[i] != open
            && strip_state(s, open, close).0[i] != close,
    decreases s.len(),
{
    if s.len() > 0 {
        lemma_strip_state_free(s.drop_last(), open, close);
        let prev = strip_state(s.drop_last(), open, close);
        let c = s.last();
        if c != open && c != close && !prev.1 {
            let r = prev.0.push(c);
            assert forall|i: int| 0 <= i < r.len() implies #[trigger] r[i] != open && r[i] != close by {
                if i < prev.0.len() {
                    assert(r[i] == prev.0[i]);
                }
            }
        }
    }
}

/// Removing chords leaves no bracket: `[` and `]` never survive.
pub proof fn law_no_brackets_after_stripping_chords(s: Seq<char>)
    ensures
        forall|i: int| 0 <= i < chords_stripped(s).len() ==> #[trigger] chords_stripped(s)[i] != '[' && chords_stripped(s)[i] != ']',
{
    lemma_strip_state_free(s, '[', ']');
}

/// Removing tags leaves no angle bracket: `<` and `>` never survive.
pub proof fn law_no_angle_brackets_after_stripping_tags(s: Seq<char>)
    ensures
        forall|i: int| 0 <= i < tags_stripped(s).len() ==> #[trigger] tags_stripped(s)[i] != '<' && tags_stripped(s)[i] != '>',
{
    lemma_strip_state_free(s, '<', '>');
}

} // verus!
