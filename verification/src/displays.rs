//! Displays for the Output and Stage windows: what the settings panel
//! lists, and which display the Output takes unless one is chosen.
use crate::text::{append, dec, lit, push_dec, string_of};
use vstd::prelude::*;

verus! {

/// A connected display as the settings panel lists it.
#[derive(Clone, Debug)]
pub struct DisplayInfo {
    pub index: usize,
    pub name: String,
    pub width: u32,
    pub height: u32,
    pub x: i32,
    pub y: i32,
    /// The system's primary display.
    pub primary: bool,
    /// The display the editor window is on.
    pub current: bool,
}

pub open spec fn display_area(d: DisplayInfo) -> int {
    d.width as int * d.height as int
}

/// The largest display (the last of equally large ones), skipping the
/// editor's own when `external_only`.
pub open spec fn largest_display(ds: Seq<DisplayInfo>, external_only: bool) -> Option<int>
    decreases ds.len(),
{
    if ds.len() == 0 {
        None
    } else {
        let prev = largest_display(ds.drop_last(), external_only);
        let i = ds.len() - 1;
        if external_only && ds.last().current {
            prev
        } else {
            match prev {
                Some(p) => if display_area(ds.last()) >= display_area(ds[p]) { Some(i) } else { Some(p) },
                None => Some(i),
            }
        }
    }
}

proof fn lemma_largest_in_range(ds: Seq<DisplayInfo>, external_only: bool)
    ensures
        largest_display(ds, external_only) matches Some(i) ==> 0 <= i < ds.len(),
    decreases ds.len(),
{
    if ds.len() > 0 {
        lemma_largest_in_range(ds.drop_last(), external_only);
    }
}

/// The display the Output defaults to: the largest one the editor is not
/// on (a projector or external screen), else the largest, else the first.
pub open spec fn default_display(ds: Seq<DisplayInfo>) -> int {
    match largest_display(ds, true) {
        Some(i) => i,
        None => match largest_display(ds, false) {
            Some(i) => i,
            None => 0,
        },
    }
}

fn area_of(d: &DisplayInfo) -> (r: u64)
    ensures
        r == display_area(*d),
{
    let w = d.width as u64;
    let h = d.height as u64;
    assert(w * h <= 0xffff_ffff * 0xffff_ffff) by (nonlinear_arith)
        requires
            w <= 0xffff_ffff,
            h <= 0xffff_ffff,
    ;
    w * h
}

fn largest_exec(ds: &Vec<DisplayInfo>, external_only: bool) -> (r: Option<usize>)
    ensures
        match r {
            Some(i) => largest_display(ds@, external_only) == Some(i as int),
            None => largest_display(ds@, external_only) is None,
        },
{
    let mut best: Option<usize> = None;
    let mut i: usize = 0;
    assert(ds@.take(0) =~= Seq::<DisplayInfo>::empty());
    while i < ds.len()
        invariant
            i <= ds.len(),
            match best {
                Some(b) => b < i && largest_display(ds@.take(i as int), external_only) == Some(b as int),
                None => largest_display(ds@.take(i as int), external_only) is None,
            },
        decreases ds.len() - i,
    {
        assert(ds@.take(i + 1).drop_last() =~= ds@.take(i as int));
        assert(ds@.take(i + 1).last() == ds@[i as int]);
        if !(external_only && ds[i].current) {
            match best {
                Some(b) => {
                    assert(ds@.take(i as int)[b as int] == ds@[b as int]);
                    if area_of(&ds[i]) >= area_of(&ds[b]) {
                        best = Some(i);
                    }
                },
                None => best = Some(i),
            }
        }
        i = i + 1;
    }
    assert(ds@.take(ds.len() as int) =~= ds@);
    best
}

/// The display the Output takes unless one is chosen (see
/// [`default_display`]).
pub fn default_output_display(displays: &Vec<DisplayInfo>) -> (r: usize)
    ensures
        r == default_display(displays@),
        displays.len() > 0 ==> r < displays.len(),
{
    proof {
        lemma_largest_in_range(displays@, true);
        lemma_largest_in_range(displays@, false);
    }
    match largest_exec(displays, true) {
        Some(i) => i,
        None => match largest_exec(displays, false) {
            Some(i) => i,
            None => 0,
        },
    }
}

/// `"invalid display index <i> (only <n> monitors)"`.
pub open spec fn invalid_display_message(index: nat, count: nat) -> Seq<char> {
    "invalid display index "@ + dec(index) + " (only "@ + dec(count) + " monitors)"@
}

/// A display index is usable when it names a connected display.
pub fn check_display_index(index: usize, count: usize) -> (r: Result<(), String>)
    ensures
        r is Ok <==> index < count,
        r matches Err(e) ==> e@ == invalid_display_message(index as nat, count as nat),
{
    if index < count {
        return Ok(());
    }
    let mut m = lit("invalid display index ");
    push_dec(&mut m, index as u64);
    append(&mut m, &lit(" (only "));
    push_dec(&mut m, count as u64);
    append(&mut m, &lit(" monitors)"));
    Err(string_of(&m))
}

/// Where the Output window goes on a display.
#[derive(Clone, Copy, Debug, PartialEq, Eq, Structural)]
pub struct Placement {
    pub width: u32,
    pub height: u32,
    pub x: i32,
    pub y: i32,
    /// A framed, resizable window rather than a borderless one.
    pub decorated: bool,
}

/// 72 per cent of a length in pixels, rounded to the nearest pixel.
pub open spec fn preview_len(v: u32) -> int {
    (72 * v + 50) / 100
}

/// The offset that centres a preview of `v` pixels in `v` pixels.
pub open spec fn centre_offset(v: u32) -> int {
    (v - preview_len(v)) / 2
}

/// Where the Output window is placed on display `d`, one of `count`. On the
/// editor's own display, or when there is only one, it becomes a framed
/// preview at 72 per cent of the display, centred, so the editor stays
/// reachable; otherwise it covers the whole display without a frame.
pub fn output_placement(d: &DisplayInfo, count: usize) -> (r: Placement)
    requires
        d.width <= i32::MAX,
        d.height <= i32::MAX,
        d.x + centre_offset(d.width) <= i32::MAX,
        d.y + centre_offset(d.height) <= i32::MAX,
    ensures
        (d.current || count <= 1) ==> r == (Placement {
            width: preview_len(d.width) as u32,
            height: preview_len(d.height) as u32,
            x: (d.x + centre_offset(d.width)) as i32,
            y: (d.y + centre_offset(d.height)) as i32,
            decorated: true,
        }),
        !(d.current || count <= 1) ==> r == (Placement {
            width: d.width,
            height: d.height,
            x: d.x,
            y: d.y,
            decorated: false,
        }),
{
    if d.current || count <= 1 {
        let ww = d.width as u64;
        let hh = d.height as u64;
        let pw = (72 * ww + 50) / 100;
        let ph = (72 * hh + 50) / 100;
        assert(pw <= ww);
        assert(ph <= hh);
        let ox = ((ww - pw) / 2) as i32;
        let oy = ((hh - ph) / 2) as i32;
        Placement {
            width: pw as u32,
            height: ph as u32,
            x: d.x + ox,
            y: d.y + oy,
            decorated: true,
        }
    } else {
        Placement { width: d.width, height: d.height, x: d.x, y: d.y, decorated: false }
    }
}

/// What toggling the Stage window does.
#[derive(Clone, Copy, Debug, PartialEq, Eq, Structural)]
pub enum StageToggle {
    /// Show it on display `index`; `remember` when that display was not
    /// chosen before and is now stored in the settings.
    Show { index: usize, remember: bool },
    Hide,
}

/// Toggling the Stage window: a visible one hides; a hidden one shows on the
/// chosen display, or else on `fallback` (the Output's default display),
/// which is then remembered. With neither there is nowhere to show it.
pub fn stage_toggle(visible: bool, chosen: Option<usize>, fallback: Option<usize>) -> (r: Result<StageToggle, String>)
    ensures
        visible ==> r == Ok::<StageToggle, String>(StageToggle::Hide),
        !visible ==> match chosen {
            Some(i) => r == Ok::<StageToggle, String>(StageToggle::Show { index: i, remember: false }),
            None => match fallback {
                Some(f) => r == Ok::<StageToggle, String>(StageToggle::Show { index: f, remember: true }),
                None => r matches Err(e) && e@ == "no display available"@,
            },
        },
{
    if visible {
        return Ok(StageToggle::Hide);
    }
    match chosen {
        Some(i) => Ok(StageToggle::Show { index: i, remember: false }),
        None => match fallback {
            Some(f) => Ok(StageToggle::Show { index: f, remember: true }),
            None => Err(crate::project::lit_string("no display available")),
        },
    }
}

/// The first display listed with index `index`.
pub open spec fn display_at(ds: Seq<DisplayInfo>, index: usize) -> Option<int>
    decreases ds.len(),
{
    if ds.len() == 0 {
        None
    } else {
        match display_at(ds.drop_last(), index) {
            Some(i) => Some(i),
            None => if ds.last().index == index { Some(ds.len() - 1) } else { None },
        }
    }
}

proof fn lemma_display_at_found(ds: Seq<DisplayInfo>, index: usize, i: int)
    requires
        0 <= i < ds.len(),
        ds[i].index == index,
        forall|k: int| 0 <= k < i ==> (#[trigger] ds[k]).index != index,
    ensures
        display_at(ds, index) == Some(i),
    decreases ds.len(),
{
    if i < ds.len() - 1 {
        lemma_display_at_found(ds.drop_last(), index, i);
    } else {
        lemma_display_at_none(ds.drop_last(), index);
    }
}

proof fn lemma_display_at_none(ds: Seq<DisplayInfo>, index: usize)
    requires
        forall|k: int| 0 <= k < ds.len() ==> (#[trigger] ds[k]).index != index,
    ensures
        display_at(ds, index) is None,
    decreases ds.len(),
{
    if ds.len() > 0 {
        lemma_display_at_none(ds.drop_last(), index);
    }
}

/// The name stored for display `index`: that of the display listed with it,
/// unless it is empty.
pub fn display_name(displays: &Vec<DisplayInfo>, index: usize) -> (r: Option<String>)
    ensures
        match display_at(displays@, index) {
            Some(i) => if displays@[i].name@.len() == 0 {
                r is None
            } else {
                r matches Some(n) && n@ == displays@[i].name@
            },
            None => r is None,
        },
{
    let mut k: usize = 0;
    while k < displays.len()
        invariant
            k <= displays.len(),
            forall|j: int| 0 <= j < k ==> (#[trigger] displays@[j]).index != index,
        decreases displays.len() - k,
    {
        if displays[k].index == index {
            proof {
                lemma_display_at_found(displays@, index, k as int);
            }
            if displays[k].name.as_str().unicode_len() == 0 {
                return None;
            }
            return Some(crate::project::lit_string(displays[k].name.as_str()));
        }
        k = k + 1;
    }
    proof {
        lemma_display_at_none(displays@, index);
    }
    None
}

} // verus!
