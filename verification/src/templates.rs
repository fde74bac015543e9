//! Playlist templates: saving the playlist's structure under a name,
//! loading it back as fresh slides, deleting it; and editing the trigger
//! mappings in the settings.
use crate::playlist::{copy_background, same_background};
use crate::project::{lit_string, opt_is, opt_text, PlaylistTemplate, Slide, TemplateItem};
use crate::scripture_import::{first_label, lemma_first_label_found, lemma_first_label_none};
use crate::song_import::{utf8_len, utf8_len_below};
use crate::text::{append, chars_of, eq_chars, lit, lowercase, string_of, to_lowercase, trim, trim_chars};
use crate::triggers::{Trigger, TriggerAction, TriggerMapping};
use vstd::prelude::*;

verus! {

/// Longest template name, in bytes.
pub const MAX_TEMPLATE_NAME_BYTES: u64 = 80;

/// A template name as saved: trimmed, not empty, at most 80 bytes.
pub open spec fn template_name_result(name: Seq<char>) -> Result<Seq<char>, Seq<char>> {
    let t = trim(name);
    if t.len() == 0 {
        Err("template name must not be empty"@)
    } else if utf8_len(t) > MAX_TEMPLATE_NAME_BYTES {
        Err("template name must be 80 characters or fewer"@)
    } else {
        Ok(t)
    }
}

/// Check a template name (see [`template_name_result`]).
pub fn check_template_name(name: &str) -> (r: Result<String, String>)
    ensures
        match template_name_result(name@) {
            Ok(t) => r matches Ok(s) && s@ == t,
            Err(m) => r matches Err(e) && e@ == m,
        },
{
    let t = trim_chars(&chars_of(name));
    if t.len() == 0 {
        return Err(lit_string("template name must not be empty"));
    }
    if !utf8_len_below(&t, MAX_TEMPLATE_NAME_BYTES + 1) {
        return Err(lit_string("template name must be 80 characters or fewer"));
    }
    Ok(string_of(&t))
}

fn copy_opt(o: &Option<String>) -> (r: Option<String>)
    ensures
        opt_text(r) == opt_text(*o),
{
    match o {
        Some(s) => Some(lit_string(s.as_str())),
        None => None,
    }
}

/// `item` records slide `s`: title, body, background, library source and
/// auto-advance.
pub open spec fn item_of(s: Slide, item: TemplateItem) -> bool {
    &&& item.title@ == s.title@
    &&& item.body@ == s.body@
    &&& same_background(s.background, item.background)
    &&& opt_text(item.library_id) == opt_text(s.library_id)
    &&& opt_text(item.library_slide_id) == opt_text(s.library_slide_id)
    &&& item.auto_advance_secs == s.auto_advance_secs
}

/// The template items recording the playlist, slide by slide.
pub fn template_items(slides: &Vec<Slide>) -> (r: Vec<TemplateItem>)
    ensures
        r.len() == slides.len(),
        forall|i: int| 0 <= i < r.len() ==> item_of(slides@[i], #[trigger] r@[i]),
{
    let mut out: Vec<TemplateItem> = Vec::new();
    let mut i: usize = 0;
    while i < slides.len()
        invariant
            i <= slides.len(),
            out.len() == i,
            forall|q: int| 0 <= q < i ==> item_of(slides@[q], #[trigger] out@[q]),
        decreases slides.len() - i,
    {
        let s = &slides[i];
        out.push(TemplateItem {
            title: lit_string(s.title.as_str()),
            body: lit_string(s.body.as_str()),
            background: copy_background(&s.background),
            library_id: copy_opt(&s.library_id),
            library_slide_id: copy_opt(&s.library_slide_id),
            auto_advance_secs: s.auto_advance_secs,
        });
        i = i + 1;
    }
    out
}

/// Position of the first template whose name equals `name` ignoring case.
pub open spec fn same_name_pos(ts: Seq<PlaylistTemplate>, name: Seq<char>) -> Option<int> {
    first_label(ts.map_values(|t: PlaylistTemplate| (lowercase(t.name@), ())), lowercase(name))
}

/// Position of the first template with id `id`.
pub open spec fn template_pos(ts: Seq<PlaylistTemplate>, id: Seq<char>) -> Option<int> {
    first_label(ts.map_values(|t: PlaylistTemplate| (t.id@, ())), id)
}

fn same_name_index(ts: &Vec<PlaylistTemplate>, name: &str) -> (r: Option<usize>)
    ensures
        match r {
            Some(i) => i < ts.len() && same_name_pos(ts@, name@) == Some(i as int),
            None => same_name_pos(ts@, name@) is None,
        },
{
    let ghost m = ts@.map_values(|t: PlaylistTemplate| (lowercase(t.name@), ()));
    let target = to_lowercase(&chars_of(name));
    let mut i: usize = 0;
    while i < ts.len()
        invariant
            i <= ts.len(),
            m == ts@.map_values(|t: PlaylistTemplate| (lowercase(t.name@), ())),
            target@ == lowercase(name@),
            forall|j: int| 0 <= j < i ==> #[trigger] m[j].0 != lowercase(name@),
        decreases ts.len() - i,
    {
        assert(m[i as int].0 == lowercase(ts@[i as int].name@));
        if eq_chars(&to_lowercase(&chars_of(ts[i].name.as_str())), &target) {
            proof {
                lemma_first_label_found(m, lowercase(name@), i as int);
            }
            return Some(i);
        }
        i = i + 1;
    }
    proof {
        lemma_first_label_none(m, lowercase(name@));
    }
    None
}

/// Position of the first template with id `id`.
pub fn template_index(ts: &Vec<PlaylistTemplate>, id: &str) -> (r: Option<usize>)
    ensures
        match r {
            Some(i) => i < ts.len() && template_pos(ts@, id@) == Some(i as int),
            None => template_pos(ts@, id@) is None,
        },
{
    let ghost m = ts@.map_values(|t: PlaylistTemplate| (t.id@, ()));
    let target = chars_of(id);
    let mut i: usize = 0;
    while i < ts.len()
        invariant
            i <= ts.len(),
            m == ts@.map_values(|t: PlaylistTemplate| (t.id@, ())),
            target@ == id@,
            forall|j: int| 0 <= j < i ==> #[trigger] m[j].0 != id@,
        decreases ts.len() - i,
    {
        assert(m[i as int].0 == ts@[i as int].id@);
        if eq_chars(&chars_of(ts[i].id.as_str()), &target) {
            proof {
                lemma_first_label_found(m, id@, i as int);
            }
            return Some(i);
        }
        i = i + 1;
    }
    proof {
        lemma_first_label_none(m, id@);
    }
    None
}

/// Save `items` under the (already checked) name `name`: a template with
/// the same name ignoring case gets the items and the time `created_at`;
/// otherwise a new template `id` is appended. Returns the template's
/// position.
pub fn save_template_into(
    templates: &mut Vec<PlaylistTemplate>,
    name: String,
    items: Vec<TemplateItem>,
    id: String,
    created_at: String,
) -> (r: usize)
    ensures
        match same_name_pos(old(templates)@, name@) {
            Some(i) => r == i && final(templates)@ == old(templates)@.update(
                i,
                PlaylistTemplate { items, created_at, ..old(templates)@[i] },
            ),
            None => r == old(templates).len() && final(templates)@ == old(templates)@.push(
                PlaylistTemplate { id, name, created_at, items },
            ),
        },
{
    match same_name_index(templates, name.as_str()) {
        Some(i) => {
            let mut t = templates.remove(i);
            let ghost t0 = t;
            t.items = items;
            t.created_at = created_at;
            templates.insert(i, t);
            assert(templates@ =~= old(templates)@.update(i as int, PlaylistTemplate { items: t.items, created_at: t.created_at, ..t0 }));
            i
        },
        None => {
            let n = templates.len();
            templates.push(PlaylistTemplate { id, name, created_at, items });
            n
        },
    }
}

/// `s` is the slide made from template item `item` with id `id`.
pub open spec fn slide_of(item: TemplateItem, id: String, s: Slide) -> bool {
    &&& s.id == id
    &&& s.title@ == item.title@
    &&& s.body@ == item.body@
    &&& same_background(item.background, s.background)
    &&& opt_text(s.library_id) == opt_text(item.library_id)
    &&& opt_text(s.library_slide_id) == opt_text(item.library_slide_id)
    &&& s.auto_advance_secs == item.auto_advance_secs
}

/// Load a template's items as the playlist, with the given slide ids:
/// nothing is live, the first slide is selected and text and background
/// are shown.
pub fn load_template_into(
    items: &Vec<TemplateItem>,
    ids: Vec<String>,
    slides: &mut Vec<Slide>,
    live: &mut Option<String>,
    selected: &mut Option<String>,
    show_text: &mut bool,
    show_background: &mut bool,
)
    requires
        ids.len() == items.len(),
    ensures
        final(slides).len() == items.len(),
        forall|i: int| 0 <= i < items.len() ==> slide_of(items@[i], ids@[i], #[trigger] final(slides)@[i]),
        *final(live) is None,
        if items.len() > 0 { opt_is(*final(selected), ids@[0]@) } else { *final(selected) is None },
        *final(show_text),
        *final(show_background),
{
    let n = items.len();
    let ghost idv = ids@;
    let mut rev = crate::scripture_import::into_reversed(ids);
    let mut out: Vec<Slide> = Vec::new();
    let mut i: usize = 0;
    while i < n
        invariant
            i <= n,
            n == items.len(),
            rev.len() == n - i,
            forall|q: int| 0 <= q < rev.len() ==> #[trigger] rev@[q] == idv[n - 1 - q],
            out.len() == i,
            forall|q: int| 0 <= q < i ==> slide_of(items@[q], idv[q], #[trigger] out@[q]),
        decreases n - i,
    {
        let id = rev.pop().unwrap();
        let it = &items[i];
        out.push(Slide {
            id,
            library_id: copy_opt(&it.library_id),
            library_slide_id: copy_opt(&it.library_slide_id),
            title: lit_string(it.title.as_str()),
            body: lit_string(it.body.as_str()),
            background: copy_background(&it.background),
            auto_advance_secs: it.auto_advance_secs,
        });
        i = i + 1;
    }
    *selected = if out.len() > 0 { Some(lit_string(out[0].id.as_str())) } else { None };
    *slides = out;
    *live = None;
    *show_text = true;
    *show_background = true;
}

/// `"template <id> not found"`.
pub open spec fn template_not_found_message(id: Seq<char>) -> Seq<char> {
    "template "@ + id + " not found"@
}

fn template_not_found(id: &str) -> (r: String)
    ensures
        r@ == template_not_found_message(id@),
{
    let mut m = lit("template ");
    append(&mut m, &chars_of(id));
    append(&mut m, &lit(" not found"));
    string_of(&m)
}

/// The templates without those whose id is `id`, in order.
pub open spec fn templates_without(ts: Seq<PlaylistTemplate>, id: Seq<char>) -> Seq<PlaylistTemplate>
    decreases ts.len(),
{
    if ts.len() == 0 {
        seq![]
    } else if ts.last().id@ == id {
        templates_without(ts.drop_last(), id)
    } else {
        templates_without(ts.drop_last(), id).push(ts.last())
    }
}

/// Delete every template with id `id`; none: refused, nothing changes.
pub fn delete_template_from(templates: &mut Vec<PlaylistTemplate>, id: &str) -> (r: Result<(), String>)
    ensures
        template_pos(old(templates)@, id@) is None ==> (r matches Err(e) && e@ == template_not_found_message(id@)
            && final(templates)@ == old(templates)@),
        template_pos(old(templates)@, id@) is Some ==> r is Ok && final(templates)@ == templates_without(old(templates)@, id@),
{
    if template_index(templates, id).is_none() {
        return Err(template_not_found(id));
    }
    let target = chars_of(id);
    let ghost all = templates@;
    let n = templates.len();
    let mut taken_out: Vec<PlaylistTemplate> = Vec::new();
    std::mem::swap(templates, &mut taken_out);
    let mut rev = crate::scripture_import::into_reversed(taken_out);
    let mut kept: Vec<PlaylistTemplate> = Vec::new();
    let mut k: usize = 0;
    assert(all.take(0) =~= Seq::<PlaylistTemplate>::empty());
    while rev.len() > 0
        invariant
            k + rev.len() == n,
            all.len() == n,
            target@ == id@,
            forall|q: int| 0 <= q < rev.len() ==> #[trigger] rev@[q] == all[n - 1 - q],
            kept@ == templates_without(all.take(k as int), id@),
        decreases rev.len(),
    {
        let t = rev.pop().unwrap();
        assert(all.take(k + 1).drop_last() =~= all.take(k as int));
        assert(all.take(k + 1).last() == t);
        if !eq_chars(&chars_of(t.id.as_str()), &target) {
            kept.push(t);
        }
        k = k + 1;
    }
    assert(all.take(n as int) =~= all);
    *templates = kept;
    Ok(())
}

// ---------------------------------------------------------------------------
// Trigger mappings
// ---------------------------------------------------------------------------

/// Position of the first mapping with id `id`.
pub open spec fn mapping_pos(ms: Seq<TriggerMapping>, id: Seq<char>) -> Option<int> {
    first_label(ms.map_values(|m: TriggerMapping| (m.id@, ())), id)
}

fn mapping_index(ms: &Vec<TriggerMapping>, id: &str) -> (r: Option<usize>)
    ensures
        match r {
            Some(i) => i < ms.len() && mapping_pos(ms@, id@) == Some(i as int),
            None => mapping_pos(ms@, id@) is None,
        },
{
    let ghost m = ms@.map_values(|x: TriggerMapping| (x.id@, ()));
    let target = chars_of(id);
    let mut i: usize = 0;
    while i < ms.len()
        invariant
            i <= ms.len(),
            m == ms@.map_values(|x: TriggerMapping| (x.id@, ())),
            target@ == id@,
            forall|j: int| 0 <= j < i ==> #[trigger] m[j].0 != id@,
        decreases ms.len() - i,
    {
        assert(m[i as int].0 == ms@[i as int].id@);
        if eq_chars(&chars_of(ms[i].id.as_str()), &target) {
            proof {
                lemma_first_label_found(m, id@, i as int);
            }
            return Some(i);
        }
        i = i + 1;
    }
    proof {
        lemma_first_label_none(m, id@);
    }
    None
}

/// `"trigger <id> not found"`.
pub open spec fn trigger_not_found_message(id: Seq<char>) -> Seq<char> {
    "trigger "@ + id + " not found"@
}

fn trigger_not_found(id: &str) -> (r: String)
    ensures
        r@ == trigger_not_found_message(id@),
{
    let mut m = lit("trigger ");
    append(&mut m, &chars_of(id));
    append(&mut m, &lit(" not found"));
    string_of(&m)
}

/// Append a new enabled mapping (with a fresh id) of `trigger` to `action`,
/// labelled `label`.
pub fn add_trigger_to(mappings: &mut Vec<TriggerMapping>, trigger: Trigger, action: TriggerAction, label: Option<String>)
    ensures
        final(mappings).len() == old(mappings).len() + 1,
        final(mappings)@.take(old(mappings).len() as int) == old(mappings)@,
        final(mappings)@.last().trigger == trigger,
        final(mappings)@.last().action == action,
        final(mappings)@.last().enabled,
        final(mappings)@.last().label == label,
{
    let mut m = TriggerMapping::new(trigger, action);
    m.label = label;
    let ghost before = mappings@;
    mappings.push(m);
    assert(mappings@.take(before.len() as int) =~= before);
}

/// The mappings without those whose id is `id`, in order.
pub open spec fn mappings_without(ms: Seq<TriggerMapping>, id: Seq<char>) -> Seq<TriggerMapping>
    decreases ms.len(),
{
    if ms.len() == 0 {
        seq![]
    } else if ms.last().id@ == id {
        mappings_without(ms.drop_last(), id)
    } else {
        mappings_without(ms.drop_last(), id).push(ms.last())
    }
}

/// Delete every mapping with id `id`; none: refused, nothing changes.
pub fn delete_trigger_from(mappings: &mut Vec<TriggerMapping>, id: &str) -> (r: Result<(), String>)
    ensures
        mapping_pos(old(mappings)@, id@) is None ==> (r matches Err(e) && e@ == trigger_not_found_message(id@)
            && final(mappings)@ == old(mappings)@),
        mapping_pos(old(mappings)@, id@) is Some ==> r is Ok && final(mappings)@ == mappings_without(old(mappings)@, id@),
{
    if mapping_index(mappings, id).is_none() {
        return Err(trigger_not_found(id));
    }
    let target = chars_of(id);
    let ghost all = mappings@;
    let n = mappings.len();
    let mut taken_out: Vec<TriggerMapping> = Vec::new();
    std::mem::swap(mappings, &mut taken_out);
    let mut rev = crate::scripture_import::into_reversed(taken_out);
    let mut kept: Vec<TriggerMapping> = Vec::new();
    let mut k: usize = 0;
    assert(all.take(0) =~= Seq::<TriggerMapping>::empty());
    while rev.len() > 0
        invariant
            k + rev.len() == n,
            all.len() == n,
            target@ == id@,
            forall|q: int| 0 <= q < rev.len() ==> #[trigger] rev@[q] == all[n - 1 - q],
            kept@ == mappings_without(all.take(k as int), id@),
        decreases rev.len(),
    {
        let t = rev.pop().unwrap();
        assert(all.take(k + 1).drop_last() =~= all.take(k as int));
        assert(all.take(k + 1).last() == t);
        if !eq_chars(&chars_of(t.id.as_str()), &target) {
            kept.push(t);
        }
        k = k + 1;
    }
    assert(all.take(n as int) =~= all);
    *mappings = kept;
    Ok(())
}

/// Enable or disable the first mapping with id `id`; none: refused.
pub fn set_trigger_enabled_in(mappings: &mut Vec<TriggerMapping>, id: &str, enabled: bool) -> (r: Result<(), String>)
    ensures
        match mapping_pos(old(mappings)@, id@) {
            None => r matches Err(e) && e@ == trigger_not_found_message(id@) && final(mappings)@ == old(mappings)@,
            Some(i) => r is Ok && final(mappings)@ == old(mappings)@.update(i, TriggerMapping { enabled, ..old(mappings)@[i] }),
        },
{
    let i = match mapping_index(mappings, id) {
        Some(i) => i,
        None => return Err(trigger_not_found(id)),
    };
    let mut m = mappings.remove(i);
    let ghost m0 = m;
    m.enabled = enabled;
    mappings.insert(i, m);
    assert(mappings@ =~= old(mappings)@.update(i as int, TriggerMapping { enabled, ..m0 }));
    Ok(())
}

/// A template saved from a slide and loaded back gives the slide's title,
/// body, background, library source and auto-advance.
pub proof fn law_template_roundtrip(s: Slide, item: TemplateItem, id: String, back: Slide)
    requires
        item_of(s, item),
        slide_of(item, id, back),
    ensures
        back.title@ == s.title@,
        back.body@ == s.body@,
        same_background(s.background, back.background),
        opt_text(back.library_id) == opt_text(s.library_id),
        opt_text(back.library_slide_id) == opt_text(s.library_slide_id),
        back.auto_advance_secs == s.auto_advance_secs,
{
}

} // verus!
