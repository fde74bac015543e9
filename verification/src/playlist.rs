//! Editing the playlist: adding, editing, deleting and reordering slides,
//! adding a library song, and taking a slide live. The application holds
//! the project behind its lock and hands these functions the parts they
//! change.
use crate::project::{
    deref_all, flattened, is_default_background, lit_string, LibrarySlide, LibrarySong, name_list_s, opt_is, slide_ids, slide_index, slide_pos, Background, Slide,
};
use crate::scripture::name_list;
use crate::text::{append, chars_of, dec, eq_chars, lit, push_dec, string_of, trim, trim_chars};
use vstd::prelude::*;

verus! {

/// Longest auto-advance a slide may have: a day.
pub const MAX_AUTO_ADVANCE_SECS: u64 = 86400;

/// A new playlist slide: `"New Slide"` and an empty body unless given, the
/// default background, no library source, no auto-advance.
pub fn new_slide(id: String, title: Option<String>, body: Option<String>) -> (r: Slide)
    ensures
        r.id == id,
        r.library_id is None,
        r.library_slide_id is None,
        r.title@ == (match title {
            Some(t) => t@,
            None => "New Slide"@,
        }),
        r.body@ == (match body {
            Some(b) => b@,
            None => Seq::<char>::empty(),
        }),
        is_default_background(r.background),
        r.auto_advance_secs is None,
{
    let title = match title {
        Some(t) => t,
        None => lit_string("New Slide"),
    };
    let body = match body {
        Some(b) => b,
        None => {
            let e = String::new();
            assert(e@ =~= Seq::<char>::empty());
            e
        },
    };
    Slide {
        id,
        library_id: None,
        library_slide_id: None,
        title,
        body,
        background: Background::default(),
        auto_advance_secs: None,
    }
}

/// Append `slide` to the playlist and select it.
pub fn append_slide(slides: &mut Vec<Slide>, selected: &mut Option<String>, slide: Slide)
    ensures
        final(slides)@ == old(slides)@.push(slide),
        opt_is(*final(selected), slide.id@),
{
    let id = lit_string(slide.id.as_str());
    slides.push(slide);
    *selected = Some(id);
}

/// An auto-advance edit is acceptable: no edit, clearing it, or 1 to
/// [`MAX_AUTO_ADVANCE_SECS`] seconds.
pub open spec fn auto_advance_ok(a: Option<Option<u64>>) -> bool {
    !(a matches Some(Some(s)) && (s == 0 || s > MAX_AUTO_ADVANCE_SECS))
}

/// A solid background whose colour is blank.
pub open spec fn blank_solid(b: Background) -> bool {
    b matches Background::Solid { color } && trim(color@).len() == 0
}

/// `s` with the given title and body (those that are given).
pub open spec fn retexted(s: Slide, title: Option<String>, body: Option<String>) -> Slide {
    let s1 = match title {
        Some(t) => Slide { title: t, ..s },
        None => s,
    };
    match body {
        Some(b) => Slide { body: b, ..s1 },
        None => s1,
    }
}

/// `s` with the given background, and the given auto-advance (a zero or
/// absent duration clears it).
pub open spec fn restyled(s: Slide, background: Option<Background>, auto: Option<Option<u64>>) -> Slide {
    let s1 = match background {
        Some(b) => Slide { background: b, ..s },
        None => s,
    };
    match auto {
        Some(Some(x)) => if x > 0 { Slide { auto_advance_secs: Some(x), ..s1 } } else { Slide { auto_advance_secs: None, ..s1 } },
        Some(None) => Slide { auto_advance_secs: None, ..s1 },
        None => s1,
    }
}

/// `"slide <id> not found"`.
pub open spec fn not_found_message(id: Seq<char>) -> Seq<char> {
    "slide "@ + id + " not found"@
}

fn not_found(id: &str) -> (r: String)
    ensures
        r@ == not_found_message(id@),
{
    let mut m = lit("slide ");
    append(&mut m, &chars_of(id));
    append(&mut m, &lit(" not found"));
    string_of(&m)
}

/// Check an auto-advance edit before applying it (see [`auto_advance_ok`]).
pub fn check_auto_advance(auto: Option<Option<u64>>) -> (r: Result<(), String>)
    ensures
        r is Ok <==> auto_advance_ok(auto),
        r matches Err(e) ==> e@ == "auto-advance must be between 1 and 86400 seconds"@,
{
    match auto {
        Some(Some(secs)) => {
            if secs == 0 || secs > MAX_AUTO_ADVANCE_SECS {
                return Err(lit_string("auto-advance must be between 1 and 86400 seconds"));
            }
            Ok(())
        },
        _ => Ok(()),
    }
}

/// Edit the first slide with id `slide_id`: an out-of-range auto-advance is
/// refused first; an unknown id is refused; the title and body are applied,
/// then a blank solid background is refused (the new title and body stay);
/// otherwise the background and auto-advance are applied too.
pub fn update_slide_in(
    slides: &mut Vec<Slide>,
    slide_id: &str,
    title: Option<String>,
    body: Option<String>,
    background: Option<Background>,
    auto: Option<Option<u64>>,
) -> (r: Result<(), String>)
    ensures
        !auto_advance_ok(auto) ==> (r matches Err(e) && e@ == "auto-advance must be between 1 and 86400 seconds"@
            && final(slides)@ == old(slides)@),
        auto_advance_ok(auto) ==> match slide_pos(old(slides)@, slide_id@) {
            None => r matches Err(e) && e@ == not_found_message(slide_id@) && final(slides)@ == old(slides)@,
            Some(i) => if background matches Some(b) && blank_solid(b) {
                r matches Err(e) && e@ == "background color must not be empty"@
                    && final(slides)@ == old(slides)@.update(i, retexted(old(slides)@[i], title, body))
            } else {
                r is Ok && final(slides)@ == old(slides)@.update(
                    i,
                    restyled(retexted(old(slides)@[i], title, body), background, auto),
                )
            },
        },
{
    match check_auto_advance(auto) {
        Err(e) => return Err(e),
        Ok(()) => {},
    }
    let i = match slide_index(slides, slide_id) {
        Some(i) => i,
        None => return Err(not_found(slide_id)),
    };
    let ghost s0 = slides@[i as int];
    let mut s = slides.remove(i);
    match title {
        Some(t) => s.title = t,
        None => {},
    }
    match body {
        Some(b) => s.body = b,
        None => {},
    }
    assert(s == retexted(s0, title, body));
    let blank = match &background {
        Some(Background::Solid { color }) => trim_chars(&chars_of(color.as_str())).len() == 0,
        _ => false,
    };
    if blank {
        slides.insert(i, s);
        assert(slides@ =~= old(slides)@.update(i as int, retexted(s0, title, body)));
        return Err(lit_string("background color must not be empty"));
    }
    match background {
        Some(b) => s.background = b,
        None => {},
    }
    match auto {
        Some(inner) => match inner {
            Some(secs) => {
                if secs > 0 {
                    s.auto_advance_secs = Some(secs);
                } else {
                    s.auto_advance_secs = None;
                }
            },
            None => s.auto_advance_secs = None,
        },
        None => {},
    }
    slides.insert(i, s);
    assert(slides@ =~= old(slides)@.update(i as int, restyled(retexted(s0, title, body), background, auto)));
    Ok(())
}

/// The slides without those whose id is `id`, in order.
pub open spec fn without_id(ss: Seq<Slide>, id: Seq<char>) -> Seq<Slide>
    decreases ss.len(),
{
    if ss.len() == 0 {
        seq![]
    } else if ss.last().id@ == id {
        without_id(ss.drop_last(), id)
    } else {
        without_id(ss.drop_last(), id).push(ss.last())
    }
}

/// Delete every slide with id `slide_id` (none: refused); the live slide
/// is cleared when it was that id.
pub fn delete_slide_from(slides: &mut Vec<Slide>, live: &mut Option<String>, slide_id: &str) -> (r: Result<(), String>)
    ensures
        slide_pos(old(slides)@, slide_id@) is None ==> (r matches Err(e) && e@ == not_found_message(slide_id@)
            && final(slides)@ == old(slides)@ && *final(live) == *old(live)),
        slide_pos(old(slides)@, slide_id@) is Some ==> r is Ok
            && final(slides)@ == without_id(old(slides)@, slide_id@)
            && (if opt_is(*old(live), slide_id@) { *final(live) is None } else { *final(live) == *old(live) }),
{
    if slide_index(slides, slide_id).is_none() {
        return Err(not_found(slide_id));
    }
    let target = chars_of(slide_id);
    let ghost all = slides@;
    let n = slides.len();
    let mut taken_out: Vec<Slide> = Vec::new();
    std::mem::swap(slides, &mut taken_out);
    let mut rev = crate::scripture_import::into_reversed(taken_out);
    let mut kept: Vec<Slide> = Vec::new();
    let mut k: usize = 0;
    assert(all.take(0) =~= Seq::<Slide>::empty());
    while rev.len() > 0
        invariant
            k + rev.len() == n,
            all.len() == n,
            target@ == slide_id@,
            forall|q: int| 0 <= q < rev.len() ==> #[trigger] rev@[q] == all[n - 1 - q],
            kept@ == without_id(all.take(k as int), slide_id@),
        decreases rev.len(),
    {
        let s = rev.pop().unwrap();
        assert(all.take(k + 1).drop_last() =~= all.take(k as int));
        assert(all.take(k + 1).last() == s);
        if !eq_chars(&chars_of(s.id.as_str()), &target) {
            kept.push(s);
        }
        k = k + 1;
    }
    assert(all.take(n as int) =~= all);
    *slides = kept;
    let clear = match live {
        Some(l) => eq_chars(&chars_of(l.as_str()), &target),
        None => false,
    };
    if clear {
        *live = None;
    }
    Ok(())
}

/// Move the first slide with id `slide_id` to `new_index` (clamped to the
/// end); an unknown id is refused.
pub fn reorder_slide_in(slides: &mut Vec<Slide>, slide_id: &str, new_index: usize) -> (r: Result<(), String>)
    ensures
        match slide_pos(old(slides)@, slide_id@) {
            None => r matches Err(e) && e@ == not_found_message(slide_id@) && final(slides)@ == old(slides)@,
            Some(p) => r is Ok && final(slides)@ == old(slides)@.remove(p).insert(
                if new_index < old(slides)@.len() - 1 { new_index as int } else { old(slides)@.len() - 1 },
                old(slides)@[p],
            ),
        },
{
    let p = match slide_index(slides, slide_id) {
        Some(p) => p,
        None => return Err(not_found(slide_id)),
    };
    let s = slides.remove(p);
    let clamped = if new_index < slides.len() { new_index } else { slides.len() };
    slides.insert(clamped, s);
    Ok(())
}

/// Take the first slide with id `slide_id` live: it becomes the live and
/// the selected slide and both text and background are shown. Returns its
/// title and auto-advance; an unknown id is refused and nothing changes.
pub fn go_live(
    slides: &Vec<Slide>,
    slide_id: &str,
    live: &mut Option<String>,
    selected: &mut Option<String>,
    show_text: &mut bool,
    show_background: &mut bool,
) -> (r: Result<(String, Option<u64>), String>)
    ensures
        match slide_pos(slides@, slide_id@) {
            None => r matches Err(e) && e@ == not_found_message(slide_id@)
                && *final(live) == *old(live) && *final(selected) == *old(selected)
                && *final(show_text) == *old(show_text) && *final(show_background) == *old(show_background),
            Some(i) => r matches Ok(v) && v.0@ == slides@[i].title@ && v.1 == slides@[i].auto_advance_secs
                && opt_is(*final(live), slide_id@) && opt_is(*final(selected), slide_id@)
                && *final(show_text) && *final(show_background),
        },
{
    let i = match slide_index(slides, slide_id) {
        Some(i) => i,
        None => return Err(not_found(slide_id)),
    };
    *live = Some(lit_string(slide_id));
    *selected = Some(lit_string(slide_id));
    *show_text = true;
    *show_background = true;
    Ok((lit_string(slides[i].title.as_str()), slides[i].auto_advance_secs))
}

/// Last position of `k` in `ids`.
pub open spec fn last_pos(ids: Seq<Seq<char>>, k: Seq<char>) -> Option<int>
    decreases ids.len(),
{
    if ids.len() == 0 {
        None
    } else if ids.last() == k {
        Some(ids.len() - 1)
    } else {
        last_pos(ids.drop_last(), k)
    }
}

proof fn lemma_last_pos(ids: Seq<Seq<char>>, k: Seq<char>)
    ensures
        last_pos(ids, k) matches Some(j) ==> 0 <= j < ids.len() && ids[j] == k
            && forall|q: int| j < q < ids.len() ==> ids[q] != k,
        last_pos(ids, k) is None ==> forall|q: int| 0 <= q < ids.len() ==> ids[q] != k,
    decreases ids.len(),
{
    if ids.len() > 0 && ids.last() != k {
        lemma_last_pos(ids.drop_last(), k);
        assert forall|q: int| 0 <= q < ids.len() - 1 implies ids[q] == ids.drop_last()[q] by {}
    }
}

/// The slides collected by id (a later slide with an id replacing an
/// earlier one) and taken out in the order of `ordered`: the slides taken,
/// or the message for the first id that is not (or no longer) there.
pub open spec fn take_in_order(ss: Seq<Slide>, ordered: Seq<Seq<char>>) -> Result<Seq<Slide>, Seq<char>>
    decreases ordered.len(),
{
    if ordered.len() == 0 {
        Ok(seq![])
    } else {
        match take_in_order(ss, ordered.drop_last()) {
            Err(e) => Err(e),
            Ok(out) => {
                let k = ordered.last();
                match last_pos(slide_ids(ss), k) {
                    Some(j) => if !ordered.drop_last().contains(k) {
                        Ok(out.push(ss[j]))
                    } else {
                        Err(not_found_message(k))
                    },
                    None => Err(not_found_message(k)),
                }
            },
        }
    }
}

proof fn lemma_take_err_extends(ss: Seq<Slide>, ord: Seq<Seq<char>>, m: int)
    requires
        0 <= m <= ord.len(),
        take_in_order(ss, ord.take(m)) is Err,
    ensures
        take_in_order(ss, ord) == take_in_order(ss, ord.take(m)),
    decreases ord.len() - m,
{
    if m < ord.len() {
        assert(ord.take(ord.len() - 1).take(m) =~= ord.take(m));
        lemma_take_err_extends(ss, ord.take(ord.len() - 1), m);
        assert(ord.drop_last() =~= ord.take(ord.len() - 1));
    } else {
        assert(ord.take(m) =~= ord);
    }
}

/// `"ordered_ids length <a> does not match slides length <b>"`.
pub open spec fn length_mismatch_message(a: nat, b: nat) -> Seq<char> {
    "ordered_ids length "@ + dec(a) + " does not match slides length "@ + dec(b)
}

/// What reordering the playlist to `ordered` gives: refused when the
/// lengths differ, when an id is not taken (see [`take_in_order`]), or when
/// a slide's id is not listed.
pub open spec fn reorder_result(ss: Seq<Slide>, ordered: Seq<Seq<char>>) -> Result<Seq<Slide>, Seq<char>> {
    if ordered.len() != ss.len() {
        Err(length_mismatch_message(ordered.len(), ss.len()))
    } else {
        match take_in_order(ss, ordered) {
            Err(e) => Err(e),
            Ok(out) => if exists|j: int| 0 <= j < ss.len() && !ordered.contains(#[trigger] ss[j].id@) {
                Err("ordered_ids missing some slides"@)
            } else {
                Ok(out)
            },
        }
    }
}

fn last_index_of(ids: &Vec<Vec<char>>, k: &Vec<char>) -> (r: Option<usize>)
    ensures
        match r {
            Some(j) => j < ids.len() && last_pos(name_list(ids@), k@) == Some(j as int),
            None => last_pos(name_list(ids@), k@) is None,
        },
{
    let ghost all = name_list(ids@);
    let mut i: usize = ids.len();
    assert(all.take(i as int) =~= all);
    while i > 0
        invariant
            i <= ids.len(),
            all == name_list(ids@),
            last_pos(all, k@) == last_pos(all.take(i as int), k@),
        decreases i,
    {
        assert(all.take(i as int).drop_last() =~= all.take(i - 1));
        assert(all.take(i as int).last() == ids@[i - 1]@);
        if eq_chars(&ids[i - 1], k) {
            return Some(i - 1);
        }
        i = i - 1;
    }
    assert(all.take(0) =~= Seq::<Seq<char>>::empty());
    None
}

fn contains_id(list: &Vec<String>, k: &Vec<char>) -> (r: bool)
    ensures
        r == name_list_s(list@).contains(k@),
{
    let ghost l = name_list_s(list@);
    let mut i: usize = 0;
    while i < list.len()
        invariant
            i <= list.len(),
            l == name_list_s(list@),
            forall|q: int| 0 <= q < i ==> l[q] != k@,
        decreases list.len() - i,
    {
        if eq_chars(&chars_of(list[i].as_str()), k) {
            assert(l[i as int] == k@);
            return true;
        }
        i = i + 1;
    }
    false
}

/// Reorder the playlist to the order of `ordered_ids` (see
/// [`reorder_result`]). When the lengths agree but the reorder is refused,
/// the playlist is left empty, as the slides were already taken out.
pub fn reorder_slides_by(slides: &mut Vec<Slide>, ordered_ids: &Vec<String>) -> (r: Result<(), String>)
    ensures
        match reorder_result(old(slides)@, name_list_s(ordered_ids@)) {
            Ok(out) => r is Ok && final(slides)@ == out,
            Err(m) => r matches Err(e) && e@ == m && final(slides)@ == (if ordered_ids.len() != old(slides).len() {
                old(slides)@
            } else {
                Seq::<Slide>::empty()
            }),
        },
{
    let ghost ord = name_list_s(ordered_ids@);
    if ordered_ids.len() != slides.len() {
        let mut m = lit("ordered_ids length ");
        push_dec(&mut m, ordered_ids.len() as u64);
        append(&mut m, &lit(" does not match slides length "));
        push_dec(&mut m, slides.len() as u64);
        return Err(string_of(&m));
    }
    let ghost ss = slides@;
    let n = slides.len();
    let mut ids: Vec<Vec<char>> = Vec::new();
    let mut q: usize = 0;
    while q < n
        invariant
            q <= n,
            n == slides.len(),
            ss == slides@,
            ids.len() == q,
            forall|t: int| 0 <= t < q ==> (#[trigger] ids@[t])@ == ss[t].id@,
        decreases n - q,
    {
        ids.push(chars_of(slides[q].id.as_str()));
        q = q + 1;
    }
    assert(name_list(ids@) =~= slide_ids(ss));
    let mut src: Vec<Slide> = Vec::new();
    std::mem::swap(slides, &mut src);
    let mut rev = crate::scripture_import::into_reversed(src);
    let mut pool: Vec<Option<Slide>> = Vec::new();
    while rev.len() > 0
        invariant
            pool.len() + rev.len() == n,
            ss.len() == n,
            ss == old(slides)@,
            forall|t: int| 0 <= t < rev.len() ==> #[trigger] rev@[t] == ss[n - 1 - t],
            forall|t: int| 0 <= t < pool.len() ==> #[trigger] pool@[t] == Some(ss[t]),
        decreases rev.len(),
    {
        let s = rev.pop().unwrap();
        pool.push(Some(s));
    }
    let mut out: Vec<Slide> = Vec::new();
    let mut i: usize = 0;
    assert(ord.take(0) =~= Seq::<Seq<char>>::empty());
    while i < ordered_ids.len()
        invariant
            i <= ordered_ids.len(),
            ordered_ids.len() == n,
            ss.len() == n,
            ss == old(slides)@,
            pool.len() == n,
            ord == name_list_s(ordered_ids@),
            name_list(ids@) == slide_ids(ss),
            slides@ == Seq::<Slide>::empty(),
            take_in_order(ss, ord.take(i as int)) == Ok::<Seq<Slide>, Seq<char>>(out@),
            forall|t: int| 0 <= t < n ==> #[trigger] pool@[t] == (if last_pos(slide_ids(ss), ss[t].id@) == Some(t)
                && ord.take(i as int).contains(ss[t].id@) {
                None
            } else {
                Some(ss[t])
            }),
        decreases ordered_ids.len() - i,
    {
        let k = chars_of(ordered_ids[i].as_str());
        assert(ord.take(i + 1).drop_last() =~= ord.take(i as int));
        assert(ord.take(i + 1).last() == k@);
        proof {
            lemma_last_pos(slide_ids(ss), k@);
        }
        let j = match last_index_of(&ids, &k) {
            Some(j) => j,
            None => {
                proof {
                    assert(take_in_order(ss, ord.take(i + 1)) == Err::<Seq<Slide>, Seq<char>>(not_found_message(k@)));
                    lemma_take_err_extends(ss, ord, i + 1);
                }
                return Err(not_found(ordered_ids[i].as_str()));
            },
        };
        let taken = pool.remove(j);
        pool.insert(j, None);
        match taken {
            Some(s) => {
                proof {
                    assert(slide_ids(ss)[j as int] == ss[j as int].id@);
                    assert forall|x: Seq<char>| #[trigger] ord.take(i + 1).contains(x) <==> (ord.take(i as int).contains(x) || x == k@) by {
                        if ord.take(i + 1).contains(x) {
                            let w = choose|w: int| 0 <= w < i + 1 && #[trigger] ord.take(i + 1)[w] == x;
                            if w < i {
                                assert(ord.take(i as int)[w] == x);
                            }
                        }
                        if ord.take(i as int).contains(x) {
                            let w = choose|w: int| 0 <= w < i && #[trigger] ord.take(i as int)[w] == x;
                            assert(ord.take(i + 1)[w] == x);
                        }
                        if x == k@ {
                            assert(ord.take(i + 1)[i as int] == x);
                        }
                    }
                    assert forall|t: int| 0 <= t < n implies #[trigger] pool@[t] == (if last_pos(slide_ids(ss), ss[t].id@) == Some(t)
                        && ord.take(i + 1).contains(ss[t].id@) {
                        None
                    } else {
                        Some(ss[t])
                    }) by {
                        assert(slide_ids(ss)[t] == ss[t].id@);
                        lemma_last_pos(slide_ids(ss), ss[t].id@);
                    }
                }
                out.push(s);
            },
            None => {
                proof {
                    assert(slide_ids(ss)[j as int] == ss[j as int].id@);
                    assert(ord.take(i as int).contains(k@));
                    assert(take_in_order(ss, ord.take(i + 1)) == Err::<Seq<Slide>, Seq<char>>(not_found_message(k@)));
                    lemma_take_err_extends(ss, ord, i + 1);
                }
                return Err(not_found(ordered_ids[i].as_str()));
            },
        }
        i = i + 1;
    }
    assert(ord.take(n as int) =~= ord);
    let mut j: usize = 0;
    while j < n
        invariant
            j <= n,
            ids.len() == n,
            ss.len() == n,
            ss == old(slides)@,
            ord == name_list_s(ordered_ids@),
            name_list(ids@) == slide_ids(ss),
            slides@ == Seq::<Slide>::empty(),
            ordered_ids.len() == n,
            take_in_order(ss, ord) == Ok::<Seq<Slide>, Seq<char>>(out@),
            forall|t: int| 0 <= t < j ==> ord.contains(#[trigger] ss[t].id@),
        decreases n - j,
    {
        assert(slide_ids(ss)[j as int] == ss[j as int].id@);
        if !contains_id(ordered_ids, &ids[j]) {
            assert(!ord.contains(ss[j as int].id@) && 0 <= j < ss.len());
            return Err(lit_string("ordered_ids missing some slides"));
        }
        j = j + 1;
    }
    *slides = out;
    Ok(())
}

/// The same background: same kind, same texts, same duration.
pub open spec fn same_background(a: Background, b: Background) -> bool {
    match a {
        Background::Solid { color } => b matches Background::Solid { color: c } && c@ == color@,
        Background::Image { path, hash, thumb } => b matches Background::Image { path: p, hash: h, thumb: t }
            && p@ == path@ && h@ == hash@ && t@ == thumb@,
        Background::Video { path, hash, thumb, duration_ms } => b matches Background::Video {
            path: p,
            hash: h,
            thumb: t,
            duration_ms: d,
        } && p@ == path@ && h@ == hash@ && t@ == thumb@ && d == duration_ms,
    }
}

/// A copy of `b`.
pub fn copy_background(b: &Background) -> (r: Background)
    ensures
        same_background(*b, r),
{
    match b {
        Background::Solid { color } => Background::Solid { color: lit_string(color.as_str()) },
        Background::Image { path, hash, thumb } => Background::Image {
            path: lit_string(path.as_str()),
            hash: lit_string(hash.as_str()),
            thumb: lit_string(thumb.as_str()),
        },
        Background::Video { path, hash, thumb, duration_ms } => Background::Video {
            path: lit_string(path.as_str()),
            hash: lit_string(hash.as_str()),
            thumb: lit_string(thumb.as_str()),
            duration_ms: *duration_ms,
        },
    }
}

/// `p` is the playlist slide made from the song's slide `s`: it keeps the
/// song and block ids, the title and body, takes the song's background and
/// has no auto-advance.
pub open spec fn from_song_slide(song: LibrarySong, s: LibrarySlide, p: Slide) -> bool {
    &&& opt_is(p.library_id, song.id@)
    &&& opt_is(p.library_slide_id, s.id@)
    &&& p.title@ == s.title@
    &&& p.body@ == s.body@
    &&& same_background(song.default_background, p.background)
    &&& p.auto_advance_secs is None
}

/// The playlist slides for a library song, one per slide it plays (see
/// [`flattened`]), with the given ids.
pub fn song_slides(song: &LibrarySong, ids: Vec<String>) -> (r: Vec<Slide>)
    requires
        ids.len() == flattened(*song).len(),
    ensures
        r.len() == ids.len(),
        forall|i: int| 0 <= i < r.len() ==> (#[trigger] r@[i]).id == ids@[i] && from_song_slide(*song, flattened(*song)[i], r@[i]),
{
    let flat = song.flattened_slides();
    let ghost fl = flattened(*song);
    let n = ids.len();
    let mut rev = crate::scripture_import::into_reversed(ids);
    let ghost orig_ids = rev@;
    let mut out: Vec<Slide> = Vec::new();
    let mut i: usize = 0;
    while i < n
        invariant
            i <= n,
            n == flat.len(),
            deref_all(flat@) == fl,
            rev.len() == n - i,
            forall|q: int| 0 <= q < rev.len() ==> #[trigger] rev@[q] == ids@[n - 1 - q],
            out.len() == i,
            forall|q: int| 0 <= q < i ==> (#[trigger] out@[q]).id == ids@[q] && from_song_slide(*song, fl[q], out@[q]),
        decreases n - i,
    {
        let id = rev.pop().unwrap();
        let s: &LibrarySlide = flat[i];
        assert(*s == fl[i as int]);
        out.push(Slide {
            id,
            library_id: Some(lit_string(song.id.as_str())),
            library_slide_id: Some(lit_string(s.id.as_str())),
            title: lit_string(s.title.as_str()),
            body: lit_string(s.body.as_str()),
            background: copy_background(&song.default_background),
            auto_advance_secs: None,
        });
        i = i + 1;
    }
    out
}

/// Append a library song to the playlist: one new slide (with a fresh id)
/// per slide the song plays.
pub fn add_song_slides(slides: &mut Vec<Slide>, song: &LibrarySong)
    ensures
        final(slides).len() == old(slides).len() + flattened(*song).len(),
        final(slides)@.take(old(slides).len() as int) == old(slides)@,
        forall|i: int| 0 <= i < flattened(*song).len() ==> from_song_slide(*song, flattened(*song)[i], #[trigger] final(slides)@[old(slides).len() + i]),
{
    let n = song.flattened_slides().len();
    let mut ids: Vec<String> = Vec::new();
    while ids.len() < n
        invariant
            ids.len() <= n,
        decreases n - ids.len(),
    {
        ids.push(crate::triggers::new_uuid());
    }
    let new_slides = song_slides(song, ids);
    let ghost before = slides@;
    let mut rev = crate::scripture_import::into_reversed(new_slides);
    let ghost ns = rev@;
    let m = rev.len();
    let mut k: usize = 0;
    while k < m
        invariant
            k <= m,
            rev.len() == m - k,
            m == flattened(*song).len(),
            forall|q: int| 0 <= q < rev.len() ==> #[trigger] rev@[q] == ns[q],
            forall|q: int| 0 <= q < m ==> from_song_slide(*song, flattened(*song)[q], #[trigger] ns[m - 1 - q]),
            slides.len() == before.len() + k,
            slides@.take(before.len() as int) == before,
            forall|q: int| 0 <= q < k ==> from_song_slide(*song, flattened(*song)[q], #[trigger] slides@[before.len() + q]),
        decreases m - k,
    {
        let s = rev.pop().unwrap();
        assert(s == ns[m - 1 - k]);
        let ghost prev = slides@;
        slides.push(s);
        assert(slides@.take(before.len() as int) =~= prev.take(before.len() as int));
        k = k + 1;
    }
}

/// What a slide's auto-advance timer does when it fires.
#[derive(Debug)]
pub enum AutoAdvance {
    /// The timer was superseded, the live slide changed, or its duration
    /// was edited: nothing happens.
    Stale,
    /// The live slide is the last one: it stays.
    AtEnd,
    /// The next slide (by id) goes live.
    Next(String),
}

/// The timer started as generation `generation` for live slide `live_id`
/// with `secs` seconds is still in force: no newer timer, the slide is
/// still live and still has that duration.
pub open spec fn timer_current(generation: u64, current_generation: u64, live: Option<String>, live_id: Seq<char>, slides: Seq<Slide>, secs: u64) -> bool {
    &&& generation == current_generation
    &&& opt_is(live, live_id)
    &&& slide_pos(slides, live_id) matches Some(i) && slides[i].auto_advance_secs == Some(secs)
}

/// Decide what a firing auto-advance timer does (see [`timer_current`]):
/// when still in force, the slide after the live one goes live, if any.
pub fn auto_advance_step(
    generation: u64,
    current_generation: u64,
    live: &Option<String>,
    live_id: &str,
    slides: &Vec<Slide>,
    secs: u64,
) -> (r: AutoAdvance)
    ensures
        !timer_current(generation, current_generation, *live, live_id@, slides@, secs) ==> r is Stale,
        timer_current(generation, current_generation, *live, live_id@, slides@, secs) ==> {
            let i = slide_pos(slides@, live_id@).unwrap();
            if i + 1 < slides.len() {
                r matches AutoAdvance::Next(id) && id@ == slides@[i + 1].id@
            } else {
                r is AtEnd
            }
        },
{
    if generation != current_generation {
        return AutoAdvance::Stale;
    }
    let still = match live {
        Some(l) => eq_chars(&chars_of(l.as_str()), &chars_of(live_id)),
        None => false,
    };
    if !still {
        return AutoAdvance::Stale;
    }
    let i = match slide_index(slides, live_id) {
        Some(i) => i,
        None => return AutoAdvance::Stale,
    };
    if slides[i].auto_advance_secs != Some(secs) {
        return AutoAdvance::Stale;
    }
    if i + 1 < slides.len() {
        AutoAdvance::Next(lit_string(slides[i + 1].id.as_str()))
    } else {
        AutoAdvance::AtEnd
    }
}

proof fn lemma_take_in_order_shape(ss: Seq<Slide>, ordered: Seq<Seq<char>>)
    ensures
        take_in_order(ss, ordered) matches Ok(out) ==> out.len() == ordered.len()
            && forall|i: int| 0 <= i < out.len() ==> (#[trigger] out[i]).id@ == ordered[i] && ss.contains(out[i]),
    decreases ordered.len(),
{
    if ordered.len() > 0 {
        lemma_take_in_order_shape(ss, ordered.drop_last());
        let k = ordered.last();
        lemma_last_pos(slide_ids(ss), k);
        if let Ok(out) = take_in_order(ss, ordered) {
            let prev = take_in_order(ss, ordered.drop_last())->Ok_0;
            let j = last_pos(slide_ids(ss), k).unwrap();
            assert(out == prev.push(ss[j]));
            assert(slide_ids(ss)[j] == ss[j].id@);
            assert forall|i: int| 0 <= i < out.len() implies (#[trigger] out[i]).id@ == ordered[i] && ss.contains(out[i]) by {
                if i < prev.len() {
                    assert(out[i] == prev[i]);
                    assert(ordered.drop_last()[i] == ordered[i]);
                } else {
                    assert(out[i] == ss[j]);
                }
            }
        }
    }
}

/// Reordering the whole playlist only reorders it: as many slides as
/// before, each one of the playlist's slides, with ids in the requested
/// order.
pub proof fn law_reorder_only_reorders(ss: Seq<Slide>, ordered: Seq<Seq<char>>)
    ensures
        reorder_result(ss, ordered) matches Ok(out) ==> out.len() == ss.len()
            && slide_ids(out) == ordered
            && forall|i: int| 0 <= i < out.len() ==> ss.contains(#[trigger] out[i]),
{
    lemma_take_in_order_shape(ss, ordered);
    if let Ok(out) = reorder_result(ss, ordered) {
        assert(slide_ids(out) =~= ordered);
    }
}

/// Moving one slide keeps the playlist's slides: the same slides, each as
/// often as before.
pub proof fn law_move_keeps_slides(ss: Seq<Slide>, p: int, q: int)
    requires
        0 <= p < ss.len(),
        0 <= q <= ss.len() - 1,
    ensures
        ss.remove(p).insert(q, ss[p]).to_multiset() == ss.to_multiset(),
{
    vstd::seq_lib::to_multiset_remove(ss, p);
    vstd::seq_lib::to_multiset_insert(ss.remove(p), q, ss[p]);
    assert(ss.to_multiset().remove(ss[p]).insert(ss[p]) =~= ss.to_multiset()) by {
        broadcast use vstd::multiset::group_multiset_axioms;
        ss.to_multiset_ensures();
        assert(ss.to_multiset().count(ss[p]) > 0) by {
            assert(ss.contains(ss[p]));
        }
    }
}

} // verus!
