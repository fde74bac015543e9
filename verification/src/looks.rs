//! Looks: named style profiles that tell an output how to present a slide.
//! The library keeps what the rules read (names, sizes, fonts, colour, the
//! switches); the text-box geometry, in fractional percent, stays with the
//! application.
use crate::commands::repoint_deleted_look;
use crate::project::{lit_string, opt_is, opt_text, Positioning, Settings, TextPosition};
use crate::text::{append, chars_of, eq_chars, lit, string_of, trim, trim_chars};
use crate::triggers::new_uuid;
use vstd::prelude::*;

verus! {

/// A Look without its text-box geometry.
#[derive(Clone, Debug)]
pub struct LookStyle {
    pub id: String,
    pub name: String,
    /// Base font size of the slide title (px).
    pub title_size: u32,
    /// Base font size of the slide body (px).
    pub body_size: u32,
    pub title_font: String,
    pub body_font: String,
    pub text_color: String,
    /// Whether the slide's background is drawn.
    pub show_background: bool,
    pub text_position: TextPosition,
    pub positioning: Positioning,
}

/// A Look as values.
pub struct LookView {
    pub id: Seq<char>,
    pub name: Seq<char>,
    pub title_size: u32,
    pub body_size: u32,
    pub title_font: Seq<char>,
    pub body_font: Seq<char>,
    pub text_color: Seq<char>,
    pub show_background: bool,
    pub text_position: TextPosition,
    pub positioning: Positioning,
}

impl View for LookStyle {
    type V = LookView;

    open spec fn view(&self) -> LookView {
        LookView {
            id: self.id@,
            name: self.name@,
            title_size: self.title_size,
            body_size: self.body_size,
            title_font: self.title_font@,
            body_font: self.body_font@,
            text_color: self.text_color@,
            show_background: self.show_background,
            text_position: self.text_position,
            positioning: self.positioning,
        }
    }
}

/// Changes to a Look; `None` leaves a field as it is.
#[derive(Clone, Debug)]
pub struct StylePatch {
    pub name: Option<String>,
    pub title_size: Option<u32>,
    pub body_size: Option<u32>,
    pub title_font: Option<String>,
    pub body_font: Option<String>,
    pub text_color: Option<String>,
    pub show_background: Option<bool>,
    pub text_position: Option<TextPosition>,
    pub positioning: Option<Positioning>,
}

/// Font sizes are kept between 16 and 300 px.
pub open spec fn clamp_size(v: u32) -> u32 {
    if v < 16 {
        16
    } else if v > 300 {
        300
    } else {
        v
    }
}

/// A text field after a patch: a given value replaces it unless blank.
pub open spec fn patched_text(old: Seq<char>, new: Option<String>) -> Seq<char> {
    match new {
        Some(t) => if trim(t@).len() > 0 { t@ } else { old },
        None => old,
    }
}

/// A Look after `p` is applied to it.
pub open spec fn patched(l: LookView, p: StylePatch) -> LookView {
    LookView {
        id: l.id,
        name: match p.name { Some(n) => n@, None => l.name },
        title_size: match p.title_size { Some(v) => clamp_size(v), None => l.title_size },
        body_size: match p.body_size { Some(v) => clamp_size(v), None => l.body_size },
        title_font: patched_text(l.title_font, p.title_font),
        body_font: patched_text(l.body_font, p.body_font),
        text_color: patched_text(l.text_color, p.text_color),
        show_background: match p.show_background { Some(b) => b, None => l.show_background },
        text_position: match p.text_position { Some(t) => t, None => l.text_position },
        positioning: match p.positioning { Some(m) => m, None => l.positioning },
    }
}

/// The main-screen Look: 72 px titles, 40 px body, white text over the
/// slide's background, centred and flowing.
pub open spec fn main_look(id: Seq<char>, name: Seq<char>) -> LookView {
    LookView {
        id,
        name,
        title_size: 72,
        body_size: 40,
        title_font: "sans-serif"@,
        body_font: "sans-serif"@,
        text_color: "#ffffff"@,
        show_background: true,
        text_position: TextPosition::Center,
        positioning: Positioning::Auto,
    }
}

/// The stage Look: 60 px titles, 56 px body, white text, no background.
pub open spec fn stage_look(id: Seq<char>) -> LookView {
    LookView {
        id,
        name: "Stage"@,
        title_size: 60,
        body_size: 56,
        title_font: "sans-serif"@,
        body_font: "sans-serif"@,
        text_color: "#ffffff"@,
        show_background: false,
        text_position: TextPosition::Center,
        positioning: Positioning::Auto,
    }
}

fn clamp_size_exec(v: u32) -> (r: u32)
    ensures
        r == clamp_size(v),
{
    if v < 16 {
        16
    } else if v > 300 {
        300
    } else {
        v
    }
}

fn patch_text(field: &mut String, new: Option<String>)
    ensures
        final(field)@ == patched_text(old(field)@, new),
{
    match new {
        Some(t) => {
            if trim_chars(&chars_of(t.as_str())).len() > 0 {
                *field = t;
            }
        },
        None => {},
    }
}

/// Applies a patch: names, switches and placement are taken as given, font
/// sizes clamped to 16..=300, and fonts and colour only when not blank.
pub fn apply_style_patch(look: &mut LookStyle, patch: StylePatch)
    ensures
        final(look)@ == patched(old(look)@, patch),
{
    let ghost p = patch;
    let StylePatch {
        name,
        title_size,
        body_size,
        title_font,
        body_font,
        text_color,
        show_background,
        text_position,
        positioning,
    } = patch;
    if let Some(n) = name {
        look.name = n;
    }
    if let Some(v) = title_size {
        look.title_size = clamp_size_exec(v);
    }
    if let Some(v) = body_size {
        look.body_size = clamp_size_exec(v);
    }
    patch_text(&mut look.title_font, title_font);
    patch_text(&mut look.body_font, body_font);
    patch_text(&mut look.text_color, text_color);
    if let Some(b) = show_background {
        look.show_background = b;
    }
    if let Some(t) = text_position {
        look.text_position = t;
    }
    if let Some(m) = positioning {
        look.positioning = m;
    }
}

/// The main-screen Look with the given id and name.
pub fn main_style(id: String, name: String) -> (r: LookStyle)
    ensures
        r@ == main_look(id@, name@),
{
    LookStyle {
        id,
        name,
        title_size: 72,
        body_size: 40,
        title_font: lit_string("sans-serif"),
        body_font: lit_string("sans-serif"),
        text_color: lit_string("#ffffff"),
        show_background: true,
        text_position: TextPosition::Center,
        positioning: Positioning::Auto,
    }
}

/// The stage Look with the given id.
pub fn stage_style(id: String) -> (r: LookStyle)
    ensures
        r@ == stage_look(id@),
{
    LookStyle {
        id,
        name: lit_string("Stage"),
        title_size: 60,
        body_size: 56,
        title_font: lit_string("sans-serif"),
        body_font: lit_string("sans-serif"),
        text_color: lit_string("#ffffff"),
        show_background: false,
        text_position: TextPosition::Center,
        positioning: Positioning::Auto,
    }
}

/// The Looks as values.
pub open spec fn views(s: Seq<LookStyle>) -> Seq<LookView> {
    s.map_values(|l: LookStyle| l@)
}

/// The first Look with id `id`.
pub open spec fn look_pos(s: Seq<LookView>, id: Seq<char>) -> Option<int>
    decreases s.len(),
{
    if s.len() == 0 {
        None
    } else {
        match look_pos(s.drop_last(), id) {
            Some(i) => Some(i),
            None => if s.last().id == id { Some(s.len() - 1) } else { None },
        }
    }
}

/// The Looks without those with id `id`.
pub open spec fn without_look(s: Seq<LookView>, id: Seq<char>) -> Seq<LookView>
    decreases s.len(),
{
    if s.len() == 0 {
        seq![]
    } else {
        let r = without_look(s.drop_last(), id);
        if s.last().id == id { r } else { r.push(s.last()) }
    }
}

/// An output's Look after the Look `deleted` went: one that used it moves to
/// `first`.
pub open spec fn repointed(o: Option<String>, deleted: Seq<char>, first: Seq<char>) -> Option<Seq<char>> {
    if opt_is(o, deleted) { Some(first) } else { opt_text(o) }
}

proof fn lemma_look_pos_found(s: Seq<LookView>, id: Seq<char>, i: int)
    requires
        0 <= i < s.len(),
        s[i].id == id,
        forall|k: int| 0 <= k < i ==> (#[trigger] s[k]).id != id,
    ensures
        look_pos(s, id) == Some(i),
    decreases s.len(),
{
    if i < s.len() - 1 {
        lemma_look_pos_found(s.drop_last(), id, i);
    } else {
        lemma_look_pos_none(s.drop_last(), id);
    }
}

proof fn lemma_look_pos_none(s: Seq<LookView>, id: Seq<char>)
    requires
        forall|k: int| 0 <= k < s.len() ==> (#[trigger] s[k]).id != id,
    ensures
        look_pos(s, id) is None,
    decreases s.len(),
{
    if s.len() > 0 {
        lemma_look_pos_none(s.drop_last(), id);
    }
}

proof fn lemma_look_pos_some(s: Seq<LookView>, id: Seq<char>)
    ensures
        look_pos(s, id) matches Some(i) ==> 0 <= i < s.len() && s[i].id == id,
        look_pos(s, id) is None ==> forall|k: int| 0 <= k < s.len() ==> (#[trigger] s[k]).id != id,
    decreases s.len(),
{
    if s.len() > 0 {
        lemma_look_pos_some(s.drop_last(), id);
        if look_pos(s, id) is None {
            assert forall|k: int| 0 <= k < s.len() implies (#[trigger] s[k]).id != id by {
                if k < s.len() - 1 {
                    assert(s.drop_last()[k] == s[k]);
                }
            }
        }
    }
}

fn find_style(styles: &Vec<LookStyle>, id: &Vec<char>) -> (r: Option<usize>)
    ensures
        match r {
            Some(i) => i < styles.len() && look_pos(views(styles@), id@) == Some(i as int),
            None => look_pos(views(styles@), id@) is None,
        },
{
    let ghost vs = views(styles@);
    let mut i: usize = 0;
    while i < styles.len()
        invariant
            i <= styles.len(),
            vs == views(styles@),
            vs.len() == styles.len(),
            forall|k: int| 0 <= k < i ==> (#[trigger] vs[k]).id != id@,
        decreases styles.len() - i,
    {
        if eq_chars(&chars_of(styles[i].id.as_str()), id) {
            proof {
                assert(vs[i as int].id == id@);
                lemma_look_pos_found(vs, id@, i as int);
            }
            return Some(i);
        }
        assert(vs[i as int].id == styles@[i as int].id@);
        i = i + 1;
    }
    proof {
        lemma_look_pos_none(vs, id@);
    }
    None
}

fn not_found(id: &str) -> (r: String)
    ensures
        r@ == "look "@ + id@ + " not found"@,
{
    let mut m = lit("look ");
    append(&mut m, &chars_of(id));
    append(&mut m, &lit(" not found"));
    string_of(&m)
}

fn patch_at(styles: &mut Vec<LookStyle>, i: usize, patch: StylePatch)
    requires
        i < old(styles).len(),
    ensures
        views(final(styles)@) == views(old(styles)@).update(i as int, patched(old(styles)@[i as int]@, patch)),
{
    let mut l = styles.remove(i);
    apply_style_patch(&mut l, patch);
    styles.insert(i, l);
    assert(views(final(styles)@) =~= views(old(styles)@).update(i as int, patched(old(styles)@[i as int]@, patch)));
}

/// What upserting gives: the Looks after it, or the error.
pub open spec fn upsert_result(before: Seq<LookView>, look_id: Option<Seq<char>>, patch: StylePatch, fresh: Seq<char>) -> Result<Seq<LookView>, Seq<char>> {
    match look_id {
        Some(id) => match look_pos(before, id) {
            Some(i) => Ok(before.update(i, patched(before[i], patch))),
            None => Err("look "@ + id + " not found"@),
        },
        None => match look_pos(before, fresh) {
            Some(i) => Ok(before.update(i, patched(before[i], patch))),
            None => Ok(before.push(patched(main_look(fresh, "New Look"@), patch))),
        },
    }
}

/// Creates a Look (`look_id` is `None`) or updates the Look `look_id` with
/// `patch`. A new Look has the id `fresh` and the main-screen style named
/// "New Look" before the patch; should `fresh` already be taken, that Look
/// is patched instead.
pub fn upsert_style_with_id(styles: &mut Vec<LookStyle>, look_id: &Option<String>, patch: StylePatch, fresh: String) -> (r: Result<(), String>)
    ensures
        match upsert_result(views(old(styles)@), opt_text(*look_id), patch, fresh@) {
            Ok(v) => r is Ok && views(final(styles)@) == v,
            Err(m) => (r matches Err(e) && e@ == m) && views(final(styles)@) == views(old(styles)@),
        },
{
    let key = match look_id {
        Some(id) => chars_of(id.as_str()),
        None => chars_of(fresh.as_str()),
    };
    match find_style(styles, &key) {
        Some(i) => {
            proof {
                lemma_look_pos_some(views(styles@), key@);
            }
            patch_at(styles, i, patch);
            Ok(())
        },
        None => {
            if let Some(id) = look_id {
                return Err(not_found(id.as_str()));
            }
            let initial = match &patch.name {
                Some(n) => if trim_chars(&chars_of(n.as_str())).len() > 0 {
                    lit_string(n.as_str())
                } else {
                    lit_string("New Look")
                },
                None => lit_string("New Look"),
            };
            let ghost before = views(styles@);
            let mut look = main_style(fresh, initial);
            apply_style_patch(&mut look, patch);
            assert(look@ == patched(main_look(key@, "New Look"@), patch));
            styles.push(look);
            assert(views(styles@) =~= before.push(look@));
            Ok(())
        },
    }
}

/// Upserting as [`upsert_style_with_id`] does, with a fresh random id drawn
/// for a new Look.
pub fn upsert_style(styles: &mut Vec<LookStyle>, look_id: &Option<String>, patch: StylePatch) -> (r: Result<(), String>)
    ensures
        exists|fresh: Seq<char>| match #[trigger] upsert_result(views(old(styles)@), opt_text(*look_id), patch, fresh) {
            Ok(v) => r is Ok && views(final(styles)@) == v,
            Err(m) => (r matches Err(e) && e@ == m) && views(final(styles)@) == views(old(styles)@),
        },
{
    let fresh = match look_id {
        Some(_) => String::new(),
        None => new_uuid(),
    };
    let ghost f = fresh@;
    let r = upsert_style_with_id(styles, look_id, patch, fresh);
    assert(match upsert_result(views(old(styles)@), opt_text(*look_id), patch, f) {
        Ok(v) => r is Ok && views(final(styles)@) == v,
        Err(m) => (r matches Err(e) && e@ == m) && views(final(styles)@) == views(old(styles)@),
    });
    r
}

/// The two Looks every project starts with: "Main" and "Stage", with fresh
/// random ids.
pub fn default_styles() -> (r: Vec<LookStyle>)
    ensures
        r.len() == 2,
        r@[0]@ == main_look(r@[0].id@, "Main"@),
        r@[1]@ == stage_look(r@[1].id@),
        crate::triggers::is_uuid_text(r@[0].id@),
        crate::triggers::is_uuid_text(r@[1].id@),
{
    let mut v: Vec<LookStyle> = Vec::new();
    v.push(main_style(new_uuid(), lit_string("Main")));
    v.push(stage_style(new_uuid()));
    v
}

fn remove_style(styles: &mut Vec<LookStyle>, id: &Vec<char>)
    ensures
        views(final(styles)@) == without_look(views(old(styles)@), id@),
{
    let ghost vs = views(styles@);
    let mut out: Vec<LookStyle> = Vec::new();
    let mut src: Vec<LookStyle> = Vec::new();
    std::mem::swap(&mut src, styles);
    let n = src.len();
    let mut rev: Vec<LookStyle> = Vec::new();
    while src.len() > 0
        invariant
            src.len() + rev.len() == n,
            vs.len() == n,
            forall|k: int| 0 <= k < src.len() ==> (#[trigger] src@[k])@ == vs[k],
            forall|k: int| 0 <= k < rev.len() ==> (#[trigger] rev@[k])@ == vs[n - 1 - k],
        decreases src.len(),
    {
        let x = src.pop().unwrap();
        rev.push(x);
    }
    let mut taken: usize = 0;
    while rev.len() > 0
        invariant
            taken + rev.len() == n,
            vs.len() == n,
            forall|k: int| 0 <= k < rev.len() ==> (#[trigger] rev@[k])@ == vs[n - 1 - k],
            views(out@) == without_look(vs.take(taken as int), id@),
        decreases rev.len(),
    {
        let x = rev.pop().unwrap();
        assert(x@ == vs[taken as int]);
        assert(vs.take(taken + 1).drop_last() =~= vs.take(taken as int));
        let ghost before = views(out@);
        if !eq_chars(&chars_of(x.id.as_str()), id) {
            out.push(x);
            assert(views(out@) =~= before.push(vs[taken as int]));
        }
        taken = taken + 1;
    }
    assert(vs.take(n as int) =~= vs);
    *styles = out;
}

/// Deletes the Look `look_id`. When no Look is left the two default ones
/// come back, and outputs that used the deleted Look move to the first one.
pub fn delete_style(styles: &mut Vec<LookStyle>, look_id: &str, settings: &mut Settings) -> (r: Result<(), String>)
    ensures
        ({
            let before = views(old(styles)@);
            let after = views(final(styles)@);
            let rest = without_look(before, look_id@);
            &&& look_pos(before, look_id@) is None ==> (r matches Err(e) && e@ == "look "@ + look_id@ + " not found"@)
                && after == before && *final(settings) == *old(settings)
            &&& look_pos(before, look_id@) is Some ==> r is Ok && after.len() > 0
                && (rest.len() > 0 ==> after == rest)
                && (rest.len() == 0 ==> after.len() == 2 && after[0] == main_look(after[0].id, "Main"@)
                    && after[1] == stage_look(after[1].id))
                && opt_text(final(settings).output_look_id) == repointed(old(settings).output_look_id, look_id@, after[0].id)
                && opt_text(final(settings).stage_look_id) == repointed(old(settings).stage_look_id, look_id@, after[0].id)
                && opt_text(final(settings).ndi_look_id) == repointed(old(settings).ndi_look_id, look_id@, after[0].id)
        }),
{
    let key = chars_of(look_id);
    if find_style(styles, &key).is_none() {
        return Err(not_found(look_id));
    }
    remove_style(styles, &key);
    if styles.len() == 0 {
        *styles = default_styles();
    }
    let ghost after = views(styles@);
    let first = Some(lit_string(styles[0].id.as_str()));
    assert(after[0].id == styles@[0].id@);
    repoint_deleted_look(settings, look_id, &first);
    Ok(())
}

proof fn lemma_without_look(s: Seq<LookView>, id: Seq<char>)
    ensures
        forall|k: int| 0 <= k < without_look(s, id).len() ==> (#[trigger] without_look(s, id)[k]).id != id,
    decreases s.len(),
{
    if s.len() > 0 {
        lemma_without_look(s.drop_last(), id);
        let r = without_look(s.drop_last(), id);
        if s.last().id != id {
            assert forall|k: int| 0 <= k < r.len() + 1 implies (#[trigger] r.push(s.last())[k]).id != id by {
                if k < r.len() {
                    assert(r.push(s.last())[k] == r[k]);
                }
            }
        }
    }
}

/// Once a Look is deleted and others remain, no output is left pointing at
/// it: outputs that used it move to a remaining Look.
pub proof fn law_deleted_look_unmapped(before: Seq<LookView>, id: Seq<char>, o: Option<String>)
    requires
        without_look(before, id).len() > 0,
    ensures
        repointed(o, id, without_look(before, id)[0].id) != Some(id),
{
    lemma_without_look(before, id);
    assert(without_look(before, id)[0].id != id);
}

} // verus!
