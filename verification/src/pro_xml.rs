//! ProPresenter exports (XML): slide groups (`RVSlideGrouping name=...`)
//! name the slides, slide elements (`RVDisplaySlide`) end them, and the text
//! of string elements (`NSString`, `...String`, `title`) and loose text
//! become the slide bodies. A document with no such text falls back to its
//! untagged lines as one slide.
use crate::scripture::name_list;
use crate::song_import::{
    cho_result, parse_cho, parse_text_song, parse_usr, text_result, usr_result, SongFormat,
    opt_view, result_model, slides_model, strip_xml_tags, tags_stripped, title_or, utf8_len,
    utf8_len_below, ParsedSlide, ParsedSong, SlideM,
};
use crate::text::{
    append, chars_of, dec, ends_with, eq_chars, has_prefix, has_suffix, join, join_with, lines,
    lines_of, lit, push_dec, starts_with, string_of, trim, trim_chars,
};
use crate::xml::{doc_result, xml_doc, xml_events, XmlAttr, XmlEvent};
use vstd::prelude::*;

verus! {

pub open spec fn pro_slide_tag(n: Seq<char>) -> bool {
    n == "RVDisplaySlide"@ || n == "RVSlide"@ || n == "slide"@ || n == "Slide"@
}

pub open spec fn pro_group_tag(n: Seq<char>) -> bool {
    n == "RVSlideGrouping"@ || n == "slideGrouping"@ || n == "SlideGrouping"@
}

/// Elements whose text is slide text: `NSString`, `string`, any `...String`.
pub open spec fn pro_string_tag(n: Seq<char>) -> bool {
    n == "NSString"@ || n == "string"@ || has_suffix(n, "String"@)
}

pub open spec fn pro_title_tag(n: Seq<char>) -> bool {
    n == "title"@ || n == "Title"@
}

/// `"Slide n"`, the title of a slide outside any named group.
pub open spec fn slide_label(n: nat) -> Seq<char> {
    "Slide "@ + dec(n)
}

/// Reading state: the slides so far, the open group's name, the text parts
/// of the slide being read, whether inside a string element, how deep
/// inside slide elements, and the document title (the first group name).
pub struct ProState {
    pub slides: Seq<SlideM>,
    pub group: Option<Seq<char>>,
    pub parts: Seq<Seq<char>>,
    pub in_text: bool,
    pub depth: nat,
    pub doc_title: Option<Seq<char>>,
}

pub open spec fn initial_pro() -> ProState {
    ProState { slides: seq![], group: None, parts: seq![], in_text: false, depth: 0, doc_title: None }
}

/// The pending parts closed into a slide (when their joined text is not
/// blank): titled by the group, else `"Slide n"`.
pub open spec fn flush_parts(slides: Seq<SlideM>, group: Option<Seq<char>>, parts: Seq<Seq<char>>) -> (Seq<SlideM>, Seq<Seq<char>>) {
    if parts.len() == 0 {
        (slides, parts)
    } else {
        let body = trim(join(parts, "\n"@));
        if body.len() > 0 {
            let title = match group {
                Some(g) => g,
                None => slide_label(slides.len() + 1),
            };
            (slides.push((title, body)), seq![])
        } else {
            (slides, seq![])
        }
    }
}

pub open spec fn pro_flush(st: ProState) -> ProState {
    let f = flush_parts(st.slides, st.group, st.parts);
    ProState { slides: f.0, parts: f.1, ..st }
}

/// A group attribute read: a `name` or `title` whose trimmed raw value is not
/// empty names the group, and the document if it has no title yet.
pub open spec fn group_attr_step(gd: (Option<Seq<char>>, Option<Seq<char>>), a: XmlAttr) -> (Option<Seq<char>>, Option<Seq<char>>) {
    let v = trim(a.raw_value@);
    if (a.key@ == "name"@ || a.key@ == "title"@) && v.len() > 0 {
        (Some(v), if gd.1 is None { Some(v) } else { gd.1 })
    } else {
        gd
    }
}

pub open spec fn group_attrs(gd: (Option<Seq<char>>, Option<Seq<char>>), attrs: Seq<XmlAttr>) -> (Option<Seq<char>>, Option<Seq<char>>)
    decreases attrs.len(),
{
    if attrs.len() == 0 {
        gd
    } else {
        group_attr_step(group_attrs(gd, attrs.drop_last()), attrs.last())
    }
}

/// A trimmed text kept as a part: inside a string element when not empty;
/// elsewhere when longer than one byte and not a declaration.
pub open spec fn keep_text(in_text: bool, x: Seq<char>) -> bool {
    if in_text {
        x.len() > 0
    } else {
        x.len() > 0 && utf8_len(x) > 1 && !has_prefix(x, "<?"@)
    }
}

pub open spec fn pro_end(st: ProState, n: Seq<char>) -> ProState {
    let st1 = if pro_string_tag(n) || pro_title_tag(n) { ProState { in_text: false, ..st } } else { st };
    let st2 = if pro_slide_tag(n) && st1.depth > 0 {
        pro_flush(ProState { depth: (st1.depth - 1) as nat, ..st1 })
    } else {
        st1
    };
    if pro_group_tag(n) {
        ProState { group: None, ..pro_flush(st2) }
    } else {
        st2
    }
}

pub open spec fn pro_start(st: ProState, n: Seq<char>, attrs: Seq<XmlAttr>) -> ProState {
    let st1 = if pro_group_tag(n) {
        let f = pro_flush(st);
        let gd = group_attrs((f.group, f.doc_title), attrs);
        ProState { group: gd.0, doc_title: gd.1, ..f }
    } else if pro_slide_tag(n) {
        ProState { depth: st.depth + 1, ..st }
    } else if pro_string_tag(n) {
        ProState { in_text: true, ..st }
    } else {
        st
    };
    if pro_title_tag(n) { ProState { in_text: true, ..st1 } } else { st1 }
}

/// One event read into the state (empty tags, comments and the like change
/// nothing).
pub open spec fn pro_step(st: ProState, ev: XmlEvent) -> ProState {
    match ev {
        XmlEvent::Start(t) => pro_start(st, t.name@, t.attrs@),
        XmlEvent::End { name, local } => pro_end(st, name@),
        XmlEvent::Text(o) => match o {
            Some(s) => if keep_text(st.in_text, trim(s@)) {
                ProState { parts: st.parts.push(trim(s@)), ..st }
            } else {
                st
            },
            None => st,
        },
        XmlEvent::CData { raw, escaped } => match escaped {
            Some(s) => if trim(s@).len() > 0 {
                ProState { parts: st.parts.push(trim(s@)), ..st }
            } else {
                st
            },
            None => st,
        },
        _ => st,
    }
}

pub open spec fn pro_run(evs: Seq<XmlEvent>) -> ProState
    decreases evs.len(),
{
    if evs.len() == 0 {
        initial_pro()
    } else {
        pro_step(pro_run(evs.drop_last()), evs.last())
    }
}

/// The trimmed lines longer than one byte.
pub open spec fn long_lines(ls: Seq<Seq<char>>) -> Seq<Seq<char>>
    decreases ls.len(),
{
    if ls.len() == 0 {
        seq![]
    } else if utf8_len(trim(ls.last())) > 1 {
        long_lines(ls.drop_last()).push(trim(ls.last()))
    } else {
        long_lines(ls.drop_last())
    }
}

/// The slides whose body is not blank.
pub open spec fn nonblank_slides(ss: Seq<SlideM>) -> Seq<SlideM>
    decreases ss.len(),
{
    if ss.len() == 0 {
        seq![]
    } else if trim(ss.last().1).len() > 0 {
        nonblank_slides(ss.drop_last()).push(ss.last())
    } else {
        nonblank_slides(ss.drop_last())
    }
}

/// What the events of a ProPresenter document (`content`, a file named
/// `display` with stem `stem`) yield, once read without a tokenizing error.
pub open spec fn pro_result(evs: Seq<XmlEvent>, content: Seq<char>, display: Seq<char>, stem: Seq<char>) -> Result<(Seq<char>, Seq<SlideM>), Seq<char>> {
    let st = pro_flush(pro_run(evs));
    let fallback = long_lines(lines(tags_stripped(content)));
    if st.slides.len() == 0 && fallback.len() == 0 {
        Err("ProPresenter file contains no extractable text ("@ + display + "). Is it a valid ProPresenter export?"@)
    } else {
        let slides = if st.slides.len() == 0 { seq![(stem, join(fallback, "\n"@))] } else { st.slides };
        let kept = nonblank_slides(slides);
        if kept.len() == 0 {
            Err("ProPresenter file resulted in no slides: "@ + display)
        } else {
            Ok((title_or(st.doc_title, stem), kept))
        }
    }
}

pub open spec fn pro_state_of(
    slides: Seq<ParsedSlide>,
    group: Option<Vec<char>>,
    parts: Seq<Vec<char>>,
    in_text: bool,
    depth: usize,
    doc_title: Option<Vec<char>>,
) -> ProState {
    ProState {
        slides: slides_model(slides),
        group: opt_view(group),
        parts: name_list(parts),
        in_text,
        depth: depth as nat,
        doc_title: opt_view(doc_title),
    }
}

fn clone_chars(v: &Vec<char>) -> (r: Vec<char>)
    ensures
        r@ == v@,
{
    let mut r: Vec<char> = Vec::new();
    append(&mut r, v);
    assert(r@ =~= v@);
    r
}

fn slide_label_exec(n: usize) -> (r: Vec<char>)
    ensures
        r@ == slide_label(n as nat),
{
    let mut v = lit("Slide ");
    push_dec(&mut v, n as u64);
    assert(v@ =~= slide_label(n as nat));
    v
}

fn flush_exec(slides: &mut Vec<ParsedSlide>, group: &Option<Vec<char>>, parts: &mut Vec<Vec<char>>)
    requires
        old(parts).len() > 0 ==> old(slides).len() < usize::MAX,
    ensures
        (slides_model(final(slides)@), name_list(final(parts)@)) == flush_parts(slides_model(old(slides)@), opt_view(*group), name_list(old(parts)@)),
        final(parts).len() == 0,
        final(slides).len() <= old(slides).len() + (if old(parts).len() > 0 { 1int } else { 0int }),
{
    if parts.len() > 0 {
        let nl = lit("\n");
        let j = join_with(parts, &nl);
        assert(parts@.map_values(|l: Vec<char>| l@) == name_list(parts@));
        let body = trim_chars(&j);
        if body.len() > 0 {
            let title = match group {
                Some(g) => clone_chars(g),
                None => slide_label_exec(slides.len() + 1),
            };
            let ghost before = slides_model(slides@);
            slides.push(ParsedSlide { title: string_of(&title), body: string_of(&body) });
            assert(slides_model(slides@) =~= before.push((title@, body@)));
        }
        *parts = Vec::new();
        assert(name_list(parts@) =~= Seq::<Seq<char>>::empty());
    }
}

fn group_attrs_exec(attrs: &Vec<XmlAttr>, group: &mut Option<Vec<char>>, doc: &mut Option<Vec<char>>)
    ensures
        (opt_view(*final(group)), opt_view(*final(doc))) == group_attrs((opt_view(*old(group)), opt_view(*old(doc))), attrs@),
{
    let ghost g0 = (opt_view(*group), opt_view(*doc));
    let mut i: usize = 0;
    assert(attrs@.take(0) =~= Seq::<XmlAttr>::empty());
    while i < attrs.len()
        invariant
            i <= attrs.len(),
            g0 == (opt_view(*old(group)), opt_view(*old(doc))),
            (opt_view(*group), opt_view(*doc)) == group_attrs(g0, attrs@.take(i as int)),
        decreases attrs.len() - i,
    {
        assert(attrs@.take(i + 1).drop_last() =~= attrs@.take(i as int));
        let a = &attrs[i];
        let k = chars_of(a.key.as_str());
        if eq_chars(&k, &lit("name")) || eq_chars(&k, &lit("title")) {
            let v = trim_chars(&chars_of(a.raw_value.as_str()));
            if v.len() > 0 {
                if doc.is_none() {
                    *doc = Some(clone_chars(&v));
                }
                *group = Some(v);
            }
        }
        i = i + 1;
    }
    assert(attrs@.take(attrs.len() as int) =~= attrs@);
}

fn is_string_tag(n: &Vec<char>) -> (r: bool)
    ensures
        r == pro_string_tag(n@),
{
    eq_chars(n, &lit("NSString")) || eq_chars(n, &lit("string")) || ends_with(n, &lit("String"))
}

fn is_title_tag(n: &Vec<char>) -> (r: bool)
    ensures
        r == pro_title_tag(n@),
{
    eq_chars(n, &lit("title")) || eq_chars(n, &lit("Title"))
}

fn is_slide_tag(n: &Vec<char>) -> (r: bool)
    ensures
        r == pro_slide_tag(n@),
{
    eq_chars(n, &lit("RVDisplaySlide")) || eq_chars(n, &lit("RVSlide")) || eq_chars(n, &lit("slide")) || eq_chars(n, &lit("Slide"))
}

fn is_group_tag(n: &Vec<char>) -> (r: bool)
    ensures
        r == pro_group_tag(n@),
{
    eq_chars(n, &lit("RVSlideGrouping")) || eq_chars(n, &lit("slideGrouping")) || eq_chars(n, &lit("SlideGrouping"))
}

fn push_part(parts: &mut Vec<Vec<char>>, x: Vec<char>)
    ensures
        name_list(final(parts)@) == name_list(old(parts)@).push(x@),
        final(parts).len() == old(parts).len() + 1,
{
    let ghost before = name_list(parts@);
    parts.push(x);
    assert(name_list(parts@) =~= before.push(x@));
}

/// The song a ProPresenter document's events describe (see [`pro_result`]).
pub fn pro_song(events: &Vec<XmlEvent>, content: &str, display: &str, stem: &str) -> (r: Result<ParsedSong, String>)
    ensures
        result_model(r) == pro_result(events@, content@, display@, stem@),
{
    let mut slides: Vec<ParsedSlide> = Vec::new();
    let mut group: Option<Vec<char>> = None;
    let mut parts: Vec<Vec<char>> = Vec::new();
    let mut in_text = false;
    let mut depth: usize = 0;
    let mut doc_title: Option<Vec<char>> = None;
    let mut i: usize = 0;
    assert(events@.take(0) =~= Seq::<XmlEvent>::empty());
    assert(slides_model(slides@) =~= Seq::<SlideM>::empty());
    assert(name_list(parts@) =~= Seq::<Seq<char>>::empty());
    while i < events.len()
        invariant
            i <= events.len(),
            depth <= i,
            slides.len() + (if parts.len() > 0 { 1int } else { 0int }) <= i,
            pro_state_of(slides@, group, parts@, in_text, depth, doc_title) == pro_run(events@.take(i as int)),
        decreases events.len() - i,
    {
        assert(events@.take(i + 1).drop_last() =~= events@.take(i as int));
        let ghost st = pro_run(events@.take(i as int));
        match &events[i] {
            XmlEvent::Start(t) => {
                let n = chars_of(t.name.as_str());
                if is_group_tag(&n) {
                    flush_exec(&mut slides, &group, &mut parts);
                    group_attrs_exec(&t.attrs, &mut group, &mut doc_title);
                } else if is_slide_tag(&n) {
                    depth = depth + 1;
                } else if is_string_tag(&n) {
                    in_text = true;
                }
                if is_title_tag(&n) {
                    in_text = true;
                }
            },
            XmlEvent::End { name, local } => {
                let n = chars_of(name.as_str());
                if is_string_tag(&n) || is_title_tag(&n) {
                    in_text = false;
                }
                if is_slide_tag(&n) && depth > 0 {
                    depth = depth - 1;
                    flush_exec(&mut slides, &group, &mut parts);
                }
                if is_group_tag(&n) {
                    flush_exec(&mut slides, &group, &mut parts);
                    group = None;
                }
            },
            XmlEvent::Text(o) => {
                match o {
                    Some(s) => {
                        let x = trim_chars(&chars_of(s.as_str()));
                        let keep = if in_text {
                            x.len() > 0
                        } else {
                            x.len() > 0 && !utf8_len_below(&x, 2) && !starts_with(&x, &lit("<?"))
                        };
                        if keep {
                            push_part(&mut parts, x);
                        }
                    },
                    None => {},
                }
            },
            XmlEvent::CData { raw, escaped } => {
                match escaped {
                    Some(s) => {
                        let x = trim_chars(&chars_of(s.as_str()));
                        if x.len() > 0 {
                            push_part(&mut parts, x);
                        }
                    },
                    None => {},
                }
            },
            _ => {},
        }
        assert(pro_state_of(slides@, group, parts@, in_text, depth, doc_title) == pro_step(st, events@[i as int]));
        i = i + 1;
    }
    assert(events@.take(events.len() as int) =~= events@);
    flush_exec(&mut slides, &group, &mut parts);
    let ghost fin = pro_flush(pro_run(events@));
    assert(slides_model(slides@) == fin.slides);
    if slides.len() == 0 {
        let fb = fallback_lines(content);
        if fb.len() == 0 {
            let mut m = lit("ProPresenter file contains no extractable text (");
            append(&mut m, &chars_of(display));
            append(&mut m, &lit("). Is it a valid ProPresenter export?"));
            return Err(string_of(&m));
        }
        let nl = lit("\n");
        let body = join_with(&fb, &nl);
        assert(fb@.map_values(|l: Vec<char>| l@) == name_list(fb@));
        slides.push(ParsedSlide { title: string_of(&lit(stem)), body: string_of(&body) });
        assert(slides_model(slides@) =~= seq![(stem@, body@)]);
    }
    let title = match doc_title {
        Some(t) => string_of(&t),
        None => string_of(&lit(stem)),
    };
    let kept = keep_nonblank(slides);
    if kept.len() == 0 {
        let mut m = lit("ProPresenter file resulted in no slides: ");
        append(&mut m, &chars_of(display));
        return Err(string_of(&m));
    }
    Ok(ParsedSong { title, slides: kept })
}

/// See [`long_lines`]: the untagged lines of `content`, trimmed, longer
/// than one byte.
fn fallback_lines(content: &str) -> (r: Vec<Vec<char>>)
    ensures
        name_list(r@) == long_lines(lines(tags_stripped(content@))),
{
    let stripped = strip_xml_tags(content);
    let ls = lines_of(&chars_of(stripped.as_str()));
    let ghost ll = lines(tags_stripped(content@));
    assert(ls@.map_values(|l: Vec<char>| l@) == name_list(ls@));
    let mut out: Vec<Vec<char>> = Vec::new();
    let mut i: usize = 0;
    assert(ll.take(0) =~= Seq::<Seq<char>>::empty());
    assert(name_list(out@) =~= Seq::<Seq<char>>::empty());
    while i < ls.len()
        invariant
            i <= ls.len(),
            ll == name_list(ls@),
            name_list(out@) == long_lines(ll.take(i as int)),
        decreases ls.len() - i,
    {
        assert(ll.take(i + 1).drop_last() =~= ll.take(i as int));
        let t = trim_chars(&ls[i]);
        if !utf8_len_below(&t, 2) {
            let ghost before = name_list(out@);
            out.push(t);
            assert(name_list(out@) =~= before.push(t@));
        }
        i = i + 1;
    }
    assert(ll.take(ls.len() as int) =~= ll);
    out
}

/// See [`nonblank_slides`].
fn keep_nonblank(slides: Vec<ParsedSlide>) -> (r: Vec<ParsedSlide>)
    ensures
        slides_model(r@) == nonblank_slides(slides_model(slides@)),
{
    let ghost all = slides_model(slides@);
    let n = slides.len();
    let mut rev = crate::scripture_import::into_reversed(slides);
    let mut kept: Vec<ParsedSlide> = Vec::new();
    let mut k: usize = 0;
    assert(all.take(0) =~= Seq::<SlideM>::empty());
    assert(slides_model(kept@) =~= Seq::<SlideM>::empty());
    while rev.len() > 0
        invariant
            k + rev.len() == n,
            all.len() == n,
            forall|q: int| 0 <= q < rev.len() ==> (#[trigger] rev@[q]).title@ == all[n - 1 - q].0 && rev@[q].body@ == all[n - 1 - q].1,
            slides_model(kept@) == nonblank_slides(all.take(k as int)),
        decreases rev.len(),
    {
        let s = rev.pop().unwrap();
        assert(all.take(k + 1).drop_last() =~= all.take(k as int));
        let b = trim_chars(&chars_of(s.body.as_str()));
        if b.len() > 0 {
            let ghost before = slides_model(kept@);
            kept.push(s);
            assert(slides_model(kept@) =~= before.push(all[k as int]));
        }
        k = k + 1;
    }
    assert(all.take(n as int) =~= all);
    kept
}

/// Parse a ProPresenter export (`content`, a file named `display` with stem
/// `stem`). Blank content and tokenizing errors are reported; otherwise the
/// song is what [`pro_song`] reads from the document's events.
pub fn parse_pro(content: &str, display: &str, stem: &str) -> (r: Result<ParsedSong, String>)
    ensures
        result_model(r) == pro_file_result(content@, display@, stem@),
{
    let c = chars_of(content);
    if trim_chars(&c).len() == 0 {
        let mut m = lit("ProPresenter file is empty: ");
        append(&mut m, &chars_of(display));
        return Err(string_of(&m));
    }
    match xml_events(content) {
        Err(e) => {
            let mut m = lit("ProPresenter file is malformed XML (");
            append(&mut m, &chars_of(display));
            append(&mut m, &lit("): "));
            append(&mut m, &chars_of(e.message.as_str()));
            Err(string_of(&m))
        },
        Ok(evs) => pro_song(&evs, content, display, stem),
    }
}

/// What reading a ProPresenter file gives: an error for blank content, the
/// tokenizer's error message for malformed XML, else the song read from the
/// document's events.
pub open spec fn pro_file_result(content: Seq<char>, display: Seq<char>, stem: Seq<char>) -> Result<(Seq<char>, Seq<SlideM>), Seq<char>> {
    if trim(content).len() == 0 {
        Err("ProPresenter file is empty: "@ + display)
    } else {
        match doc_result(xml_doc(content)) {
            Ok(evs) => pro_result(evs, content, display, stem),
            Err(e) => Err("ProPresenter file is malformed XML ("@ + display + "): "@ + e.message@),
        }
    }
}

/// Parse a song file's content by its format (see [`SongFormat`]):
/// ProPresenter by [`parse_pro`], ChordPro, USR and text as their parsers
/// say.
pub fn parse_song_file(format: SongFormat, content: &str, display: &str, stem: &str) -> (r: Result<ParsedSong, String>)
    ensures
        format is ChordPro ==> result_model(r) == cho_result(content@, display@, stem@),
        format is Usr ==> result_model(r) == usr_result(content@, display@, stem@),
        format is Text ==> result_model(r) == text_result(content@, display@, stem@),
        format is ProPresenter ==> result_model(r) == pro_file_result(content@, display@, stem@),
{
    match format {
        SongFormat::ProPresenter => parse_pro(content, display, stem),
        SongFormat::ChordPro => parse_cho(content, display, stem),
        SongFormat::Usr => parse_usr(content, display, stem),
        SongFormat::Text => parse_text_song(content, display, stem),
    }
}

} // verus!
