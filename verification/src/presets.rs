//! Starting a new project from a service preset: which preset, the
//! project's name and transition, how a theme adjusts the looks, and the
//! playlist the preset brings.
use crate::project::{is_default_background, lit_string, opt_is, opt_text, ServicePreset, Slide, Transition};
use crate::scripture_import::{first_label, lemma_first_label_found, lemma_first_label_none};
use crate::text::{chars_of, contains, contains_exec, eq_chars, lit, lowercase, string_of, to_lowercase, trim, trim_chars};
use vstd::prelude::*;

verus! {

/// Position of the first preset with id `id`.
pub open spec fn preset_pos(ps: Seq<ServicePreset>, id: Seq<char>) -> Option<int> {
    first_label(ps.map_values(|p: ServicePreset| (p.id@, ())), id)
}

/// Position of the first preset with id `id`.
pub fn preset_index(presets: &Vec<ServicePreset>, id: &str) -> (r: Option<usize>)
    ensures
        match r {
            Some(i) => i < presets.len() && preset_pos(presets@, id@) == Some(i as int),
            None => preset_pos(presets@, id@) is None,
        },
{
    let ghost m = presets@.map_values(|p: ServicePreset| (p.id@, ()));
    let target = chars_of(id);
    let mut i: usize = 0;
    while i < presets.len()
        invariant
            i <= presets.len(),
            m == presets@.map_values(|p: ServicePreset| (p.id@, ())),
            target@ == id@,
            forall|j: int| 0 <= j < i ==> #[trigger] m[j].0 != id@,
        decreases presets.len() - i,
    {
        assert(m[i as int].0 == presets@[i as int].id@);
        if eq_chars(&chars_of(presets[i].id.as_str()), &target) {
            proof {
                lemma_first_label_found(m, id@, i as int);
            }
            return Some(i);
        }
        i = i + 1;
    }
    proof {
        lemma_first_label_none(m, id@);
    }
    None
}

/// The preset used when none has the requested id: `"blank"`, named
/// "Custom", 16:9, with an empty playlist.
pub fn blank_preset() -> (r: ServicePreset)
    ensures
        r.id@ == "blank"@,
        r.name@ == "Custom"@,
        r.category@ == "Custom"@,
        r.description@ == Seq::<char>::empty(),
        r.default_aspect@ == "16:9"@,
        r.playlist_items.len() == 0,
{
    let d = String::new();
    assert(d@ =~= Seq::<char>::empty());
    ServicePreset {
        id: lit_string("blank"),
        name: lit_string("Custom"),
        category: lit_string("Custom"),
        description: d,
        default_aspect: lit_string("16:9"),
        playlist_items: Vec::new(),
    }
}

/// The project's name: the trimmed title, or the preset's name when the
/// title is blank.
pub fn project_name(title: &str, preset_name: &str) -> (r: String)
    ensures
        trim(title@).len() == 0 ==> r@ == preset_name@,
        trim(title@).len() > 0 ==> r@ == trim(title@),
{
    let t = trim_chars(&chars_of(title));
    if t.len() == 0 {
        lit_string(preset_name)
    } else {
        string_of(&t)
    }
}

/// The transition named by the new-project form: a fade for `"fade"`,
/// `"Fade 300ms"` or `"Dissolve"`, otherwise a cut.
pub open spec fn named_transition(t: Option<Seq<char>>) -> Transition {
    match t {
        Some(s) => if s == "fade"@ || s == "Fade 300ms"@ || s == "Dissolve"@ { Transition::Fade } else { Transition::Cut },
        None => Transition::Cut,
    }
}

pub fn parse_transition(t: &Option<String>) -> (r: Transition)
    ensures
        r == named_transition(opt_text(*t)),
{
    match t {
        Some(s) => {
            let v = chars_of(s.as_str());
            if eq_chars(&v, &lit("fade")) || eq_chars(&v, &lit("Fade 300ms")) || eq_chars(&v, &lit("Dissolve")) {
                Transition::Fade
            } else {
                Transition::Cut
            }
        },
        None => Transition::Cut,
    }
}

/// How a theme adjusts the new project's looks.
#[derive(Clone, Copy, Debug, PartialEq, Eq, Structural)]
pub enum ThemeEffect {
    /// Leave the looks as they are.
    Keep,
    /// Move the text to the bottom ("lower third").
    LowerThird,
    /// Show the background ("gradient").
    ShowBackground,
}

/// The effect of a theme name, judged ignoring case.
pub open spec fn theme_effect_of(theme: Option<Seq<char>>) -> ThemeEffect {
    match theme {
        Some(t) => if contains(lowercase(t), "lower third"@) {
            ThemeEffect::LowerThird
        } else if contains(lowercase(t), "gradient"@) {
            ThemeEffect::ShowBackground
        } else {
            ThemeEffect::Keep
        },
        None => ThemeEffect::Keep,
    }
}

pub fn theme_effect(theme: &Option<String>) -> (r: ThemeEffect)
    ensures
        r == theme_effect_of(opt_text(*theme)),
{
    match theme {
        Some(t) => {
            let low = to_lowercase(&chars_of(t.as_str()));
            if contains_exec(&low, &lit("lower third")) {
                ThemeEffect::LowerThird
            } else if contains_exec(&low, &lit("gradient")) {
                ThemeEffect::ShowBackground
            } else {
                ThemeEffect::Keep
            }
        },
        None => ThemeEffect::Keep,
    }
}

/// The new project's playlist: none for the blank preset, else one slide
/// per preset item (its title, its content or an empty body, the default
/// background) with the given ids.
pub fn preset_slides(preset: &ServicePreset, ids: Vec<String>) -> (r: Vec<Slide>)
    requires
        ids.len() == preset.playlist_items.len(),
    ensures
        preset.id@ == "blank"@ ==> r.len() == 0,
        preset.id@ != "blank"@ ==> r.len() == ids.len() && forall|i: int| 0 <= i < r.len() ==> {
            &&& (#[trigger] r@[i]).id == ids@[i]
            &&& r@[i].title@ == preset.playlist_items@[i].title@
            &&& r@[i].body@ == (match preset.playlist_items@[i].content {
                Some(c) => c@,
                None => Seq::<char>::empty(),
            })
            &&& r@[i].library_id is None
            &&& r@[i].library_slide_id is None
            &&& is_default_background(r@[i].background)
            &&& r@[i].auto_advance_secs is None
        },
{
    if eq_chars(&chars_of(preset.id.as_str()), &lit("blank")) {
        return Vec::new();
    }
    let n = ids.len();
    let ghost idv = ids@;
    let mut rev = crate::scripture_import::into_reversed(ids);
    let mut out: Vec<Slide> = Vec::new();
    let mut i: usize = 0;
    while i < n
        invariant
            i <= n,
            n == preset.playlist_items.len(),
            rev.len() == n - i,
            forall|q: int| 0 <= q < rev.len() ==> #[trigger] rev@[q] == idv[n - 1 - q],
            out.len() == i,
            forall|q: int| 0 <= q < i ==> {
                &&& (#[trigger] out@[q]).id == idv[q]
                &&& out@[q].title@ == preset.playlist_items@[q].title@
                &&& out@[q].body@ == (match preset.playlist_items@[q].content {
                    Some(c) => c@,
                    None => Seq::<char>::empty(),
                })
                &&& out@[q].library_id is None
                &&& out@[q].library_slide_id is None
                &&& is_default_background(out@[q].background)
                &&& out@[q].auto_advance_secs is None
            },
        decreases n - i,
    {
        let id = rev.pop().unwrap();
        let it = &preset.playlist_items[i];
        let body = match &it.content {
            Some(c) => lit_string(c.as_str()),
            None => {
                let e = String::new();
                assert(e@ =~= Seq::<char>::empty());
                e
            },
        };
        out.push(Slide {
            id,
            library_id: None,
            library_slide_id: None,
            title: lit_string(it.title.as_str()),
            body,
            background: crate::project::Background::default(),
            auto_advance_secs: None,
        });
        i = i + 1;
    }
    out
}

/// The selection of a new project: its first slide, if any.
pub fn first_selection(slides: &Vec<Slide>) -> (r: Option<String>)
    ensures
        slides.len() > 0 ==> opt_is(r, slides@[0].id@),
        slides.len() == 0 ==> r is None,
{
    if slides.len() > 0 {
        Some(lit_string(slides[0].id.as_str()))
    } else {
        None
    }
}

/// The slide a brand-new project opens with.
pub fn welcome_slide(id: String) -> (r: Slide)
    ensures
        r.id == id,
        r.title@ == "Welcome to MakePresent"@,
        r.body@ == "This is the Phase 1 test slide."@,
        r.library_id is None,
        r.library_slide_id is None,
        is_default_background(r.background),
        r.auto_advance_secs is None,
{
    crate::playlist::new_slide(
        id,
        Some(lit_string("Welcome to MakePresent")),
        Some(lit_string("This is the Phase 1 test slide.")),
    )
}

} // verus!
