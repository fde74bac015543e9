//! The presentation domain model: slides and their backgrounds, library
//! songs made of named blocks played in an arrangement, service presets,
//! playlist templates and the persisted per-machine settings.
use crate::scripture::seq_lt;
use crate::scripture_import::{
    first_label, lemma_first_label_found, lemma_first_label_in, lemma_first_label_none, lemma_first_label_push,
    lemma_first_label_same_labels,
};
use crate::text::{append, chars_of, dec, eq_chars, lit, push_dec, string_of, trim, trim_chars};
use crate::triggers::TriggerMapping;
use vstd::prelude::*;

verus! {

/// Version of the project file format.
pub const SCHEMA_VERSION: u32 = 1;

/// Version of the library file format (blocks and arrangements).
pub const LIBRARY_SCHEMA_VERSION: u32 = 2;

/// Debounce window for autosave: every edit is persisted well within 2 s.
pub const AUTOSAVE_DEBOUNCE_MS: u64 = 1200;

/// Versioned project snapshots kept on disk.
pub const MAX_SNAPSHOTS: usize = 50;

// ---------------------------------------------------------------------------
// Slides
// ---------------------------------------------------------------------------

/// What is drawn behind a slide's text.
#[derive(Clone, Debug)]
pub enum Background {
    Solid { color: String },
    /// Full-bleed image (a managed copy, cached and thumbnailed by content hash).
    Image { path: String, hash: String, thumb: String },
    /// Full-bleed looping video.
    Video { path: String, hash: String, thumb: String, duration_ms: Option<u64> },
}

/// The default background: solid `#123a5c`.
pub open spec fn is_default_background(b: Background) -> bool {
    b matches Background::Solid { color } && color@ == "#123a5c"@
}

impl Default for Background {
    fn default() -> (r: Self)
        ensures
            is_default_background(r),
    {
        Background::Solid { color: lit_string("#123a5c") }
    }
}

/// A string holding exactly the text of `s`.
pub fn lit_string(s: &str) -> (r: String)
    ensures
        r@ == s@,
{
    string_of(&chars_of(s))
}

/// How the Output switches from one live slide to the next.
#[derive(Clone, Copy, Debug, PartialEq, Eq, Structural)]
pub enum Transition {
    Cut,
    Fade,
}

impl Default for Transition {
    fn default() -> (r: Self)
        ensures
            r == Transition::Cut,
    {
        Transition::Cut
    }
}

/// One slide of the playlist.
#[derive(Clone, Debug)]
pub struct Slide {
    pub id: String,
    /// When added from the library, the source song id.
    pub library_id: Option<String>,
    /// The source block id within that song.
    pub library_slide_id: Option<String>,
    pub title: String,
    pub body: String,
    pub background: Background,
    /// Advance to the next item after this many seconds while live
    /// (`None` or 0: never).
    pub auto_advance_secs: Option<u64>,
}

/// Where the slide text sits within its frame.
#[derive(Clone, Copy, Debug, PartialEq, Eq, Structural)]
pub enum TextPosition {
    Top,
    Center,
    Bottom,
}

impl Default for TextPosition {
    fn default() -> (r: Self)
        ensures
            r == TextPosition::Center,
    {
        TextPosition::Center
    }
}

/// How a text block is placed: flowing, or in an explicit box.
#[derive(Clone, Copy, Debug, PartialEq, Eq, Structural)]
pub enum Positioning {
    Auto,
    Absolute,
}

impl Default for Positioning {
    fn default() -> (r: Self)
        ensures
            r == Positioning::Auto,
    {
        Positioning::Auto
    }
}

/// Stacking order of a text box unless one is given.
pub fn default_box_z() -> (r: u32)
    ensures
        r == 1,
{
    1
}

/// Font family of titles unless one is given.
pub fn default_title_font() -> (r: String)
    ensures
        r@ == "sans-serif"@,
{
    lit_string("sans-serif")
}

/// Font family of body text unless one is given.
pub fn default_body_font() -> (r: String)
    ensures
        r@ == "sans-serif"@,
{
    lit_string("sans-serif")
}

/// Aspect ratio of a project unless one is given.
pub fn default_aspect() -> (r: String)
    ensures
        r@ == "16:9"@,
{
    lit_string("16:9")
}

pub fn default_true() -> (r: bool)
    ensures
        r,
{
    true
}

// ---------------------------------------------------------------------------
// The playlist
// ---------------------------------------------------------------------------

/// The ids of the slides.
pub open spec fn slide_ids(slides: Seq<Slide>) -> Seq<Seq<char>> {
    slides.map_values(|s: Slide| s.id@)
}

/// Position of the first slide with id `id`.
pub open spec fn slide_pos(slides: Seq<Slide>, id: Seq<char>) -> Option<int> {
    first_label(slides.map_values(|s: Slide| (s.id@, ())), id)
}

/// Position of the first slide with id `id`.
pub fn slide_index(slides: &Vec<Slide>, id: &str) -> (r: Option<usize>)
    ensures
        match r {
            Some(i) => i < slides.len() && slide_pos(slides@, id@) == Some(i as int),
            None => slide_pos(slides@, id@) == None::<int>,
        },
{
    let ghost m = slides@.map_values(|s: Slide| (s.id@, ()));
    let target = chars_of(id);
    let mut i: usize = 0;
    while i < slides.len()
        invariant
            i <= slides.len(),
            m == slides@.map_values(|s: Slide| (s.id@, ())),
            target@ == id@,
            forall|j: int| 0 <= j < i ==> #[trigger] m[j].0 != id@,
        decreases slides.len() - i,
    {
        assert(m[i as int].0 == slides@[i as int].id@);
        if eq_chars(&chars_of(slides[i].id.as_str()), &target) {
            proof {
                lemma_first_label_found(m, id@, i as int);
            }
            return Some(i);
        }
        i = i + 1;
    }
    proof {
        lemma_first_label_none(m, id@);
    }
    None
}

/// The first slide with id `id`.
pub fn find_slide<'a>(slides: &'a Vec<Slide>, id: &str) -> (r: Option<&'a Slide>)
    ensures
        match slide_pos(slides@, id@) {
            Some(i) => r == Some(&slides@[i]),
            None => r is None,
        },
{
    match slide_index(slides, id) {
        Some(i) => Some(&slides[i]),
        None => None,
    }
}

/// The slide queued after the slide `id` (the Stage Display's "next").
pub fn next_slide<'a>(slides: &'a Vec<Slide>, id: &str) -> (r: Option<&'a Slide>)
    ensures
        match slide_pos(slides@, id@) {
            Some(i) => if i + 1 < slides.len() { r == Some(&slides@[i + 1]) } else { r is None },
            None => r is None,
        },
{
    match slide_index(slides, id) {
        Some(i) => {
            if i + 1 < slides.len() {
                Some(&slides[i + 1])
            } else {
                None
            }
        },
        None => None,
    }
}

/// Whether `a` holds exactly the text `b`.
pub open spec fn opt_is(a: Option<String>, b: Seq<char>) -> bool {
    a matches Some(s) && s@ == b
}

/// The slide whose media the Output should preload: the selected slide when
/// it is not live, else the slide after it; with nothing selected, the slide
/// after the live one.
pub open spec fn on_deck_pos(slides: Seq<Slide>, selected: Option<String>, live: Option<String>) -> Option<int> {
    match selected {
        Some(id) => if opt_is(live, id@) {
            match slide_pos(slides, id@) {
                Some(i) => if i + 1 < slides.len() { Some(i + 1) } else { None },
                None => None,
            }
        } else {
            slide_pos(slides, id@)
        },
        None => match live {
            Some(l) => match slide_pos(slides, l@) {
                Some(i) => if i + 1 < slides.len() { Some(i + 1) } else { None },
                None => None,
            },
            None => None,
        },
    }
}

/// See [`on_deck_pos`].
pub fn on_deck<'a>(slides: &'a Vec<Slide>, selected: &Option<String>, live: &Option<String>) -> (r: Option<&'a Slide>)
    ensures
        match on_deck_pos(slides@, *selected, *live) {
            Some(i) => r == Some(&slides@[i]),
            None => r is None,
        },
{
    match selected {
        Some(id) => {
            let is_live = match live {
                Some(l) => eq_chars(&chars_of(l.as_str()), &chars_of(id.as_str())),
                None => false,
            };
            if is_live {
                next_slide(slides, id.as_str())
            } else {
                find_slide(slides, id.as_str())
            }
        },
        None => match live {
            Some(l) => next_slide(slides, l.as_str()),
            None => None,
        },
    }
}

// ---------------------------------------------------------------------------
// Client-facing views
// ---------------------------------------------------------------------------

/// A one-off message for the operator (e.g. "recovered from autosave").
#[derive(Clone, Debug)]
pub struct Notice {
    pub kind: String,
    pub message: String,
    pub at: Option<String>,
}

#[derive(Clone, Debug)]
pub struct OutputView {
    /// The output window exists and is showing.
    pub visible: bool,
    pub monitor_index: Option<usize>,
    pub monitor_name: Option<String>,
    pub fullscreen: bool,
}

#[derive(Clone, Debug)]
pub struct StageView {
    pub visible: bool,
    pub monitor_index: Option<usize>,
    pub monitor_name: Option<String>,
}

/// Runtime status of the NDI broadcast feed.
#[derive(Clone, Debug)]
pub struct BroadcastView {
    /// NDI is enabled and currently broadcasting.
    pub enabled: bool,
    /// The source name receivers see on the network.
    pub source_name: String,
}


// ---------------------------------------------------------------------------
// The song library
// ---------------------------------------------------------------------------

/// Text alignment of a library slide.
#[derive(Clone, Debug)]
pub struct SlidePositioning {
    pub v_align: String,
    pub h_align: String,
}

/// Vertical alignment unless one is given.
pub fn default_v_align() -> (r: String)
    ensures
        r@ == "center"@,
{
    lit_string("center")
}

/// Horizontal alignment unless one is given.
pub fn default_h_align() -> (r: String)
    ensures
        r@ == "center"@,
{
    lit_string("center")
}

impl Default for SlidePositioning {
    fn default() -> (r: Self)
        ensures
            r.v_align@ == "center"@,
            r.h_align@ == "center"@,
    {
        SlidePositioning { v_align: default_v_align(), h_align: default_h_align() }
    }
}

/// A named block of a song (a verse, the chorus, ...).
#[derive(Clone, Debug)]
pub struct LibrarySlide {
    pub id: String,
    pub title: String,
    pub body: String,
    pub positioning: Option<SlidePositioning>,
    pub group_id: Option<String>,
    pub group_label: Option<String>,
}

/// A song: unique named blocks and the order in which they are played.
#[derive(Clone, Debug)]
pub struct LibrarySong {
    pub id: String,
    pub title: String,
    pub default_background: Background,
    /// Master blocks keyed by block name ("Verse 1", "Chorus"), in the
    /// order they were created; a key occurs once.
    pub blocks: Vec<(String, LibrarySlide)>,
    /// Default play order: block keys, possibly repeated.
    pub arrangement: Vec<String>,
    /// Deprecated flat slide list, kept only to migrate old libraries.
    pub slides: Option<Vec<LibrarySlide>>,
}

/// A block list keyed by the text of its keys.
pub type BlocksM = Seq<(Seq<char>, LibrarySlide)>;

pub open spec fn blocks_view(bs: Seq<(String, LibrarySlide)>) -> BlocksM {
    bs.map_values(|p: (String, LibrarySlide)| (p.0@, p.1))
}

/// The key a migrated slide is filed under before numbering: its title,
/// else its group label, when not blank.
pub open spec fn slide_base_key(s: LibrarySlide) -> Seq<char> {
    if trim(s.title@).len() > 0 {
        s.title@
    } else {
        match s.group_label {
            Some(gl) => if trim(gl@).len() > 0 { gl@ } else { s.title@ },
            None => s.title@,
        }
    }
}

/// `"<key> (<c>)"`.
pub open spec fn numbered_key(key: Seq<char>, c: nat) -> Seq<char> {
    key + " ("@ + dec(c) + ")"@
}

/// Each block's key with its title and body.
pub type KeyInfo = Seq<(Seq<char>, (Seq<char>, Seq<char>))>;

pub open spec fn key_info(bs: BlocksM) -> KeyInfo {
    bs.map_values(|p: (Seq<char>, LibrarySlide)| (p.0, (p.1.title@, p.1.body@)))
}

/// The first counter from `c` on whose numbered key is free, trying at most
/// `fuel` further counters.
pub open spec fn free_counter(bs: KeyInfo, key: Seq<char>, c: nat, fuel: nat) -> nat
    decreases fuel,
{
    if fuel == 0 || first_label(bs, numbered_key(key, c)) is None {
        c
    } else {
        free_counter(bs, key, c + 1, (fuel - 1) as nat)
    }
}

/// The key a block is stored under: `key` itself unless a different block
/// already has it, in which case the first free `"<key> (n)"`, n >= 2.
pub open spec fn block_key(bs: KeyInfo, key: Seq<char>, title: Seq<char>, body: Seq<char>, compare_title: bool) -> Seq<char> {
    match first_label(bs, key) {
        Some(i) => if bs[i].1.1 != body || (compare_title && bs[i].1.0 != title) {
            numbered_key(key, free_counter(bs, key, 2, bs.len()))
        } else {
            key
        },
        None => key,
    }
}

proof fn lemma_digit_char_value(d: nat)
    requires
        d < 10,
    ensures
        crate::text::digit_value(crate::text::digit_char(d)) == d,
{
    if d == 0 {
        assert(('0' as u32) - ('0' as u32) == 0);
    } else if d == 1 {
        assert(('1' as u32) - ('0' as u32) == 1);
    } else if d == 2 {
        assert(('2' as u32) - ('0' as u32) == 2);
    } else if d == 3 {
        assert(('3' as u32) - ('0' as u32) == 3);
    } else if d == 4 {
        assert(('4' as u32) - ('0' as u32) == 4);
    } else if d == 5 {
        assert(('5' as u32) - ('0' as u32) == 5);
    } else if d == 6 {
        assert(('6' as u32) - ('0' as u32) == 6);
    } else if d == 7 {
        assert(('7' as u32) - ('0' as u32) == 7);
    } else if d == 8 {
        assert(('8' as u32) - ('0' as u32) == 8);
    } else {
        assert(('9' as u32) - ('0' as u32) == 9);
    }
}

proof fn lemma_dec_value(n: nat)
    ensures
        crate::text::digits_value(dec(n)) == n,
    decreases n,
{
    if n >= 10 {
        lemma_dec_value(n / 10);
        lemma_digit_char_value(n % 10);
        assert(dec(n).drop_last() =~= dec(n / 10));
        assert(dec(n).last() == crate::text::digit_char(n % 10));
        assert((n / 10) * 10 + n % 10 == n) by (nonlinear_arith);
        assert(crate::text::digits_value(dec(n)) == crate::text::digits_value(dec(n / 10)) * 10
            + crate::text::digit_value(crate::text::digit_char(n % 10)));
    } else {
        lemma_digit_char_value(n);
        assert(dec(n).drop_last() =~= Seq::<char>::empty());
        assert(dec(n).last() == crate::text::digit_char(n));
        assert(crate::text::digits_value(dec(n)) == crate::text::digits_value(Seq::<char>::empty()) * 10
            + crate::text::digit_value(crate::text::digit_char(n)));
    }
}

proof fn lemma_numbered_key_injective(key: Seq<char>, a: nat, b: nat)
    requires
        numbered_key(key, a) == numbered_key(key, b),
    ensures
        a == b,
{
    reveal_strlit(" (");
    reveal_strlit(")");
    let na = numbered_key(key, a);
    let nb = numbered_key(key, b);
    assert(na.len() == key.len() + 2 + dec(a).len() + 1);
    assert(nb.len() == key.len() + 2 + dec(b).len() + 1);
    assert(dec(a) =~= na.subrange(key.len() + 2int, na.len() - 1));
    assert(dec(b) =~= nb.subrange(key.len() + 2int, nb.len() - 1));
    lemma_dec_value(a);
    lemma_dec_value(b);
}

/// The key tried for counter `d`: the key itself for 1, else `"<key> (d)"`.
spec fn candidate_key(key: Seq<char>, d: int) -> Seq<char> {
    if d <= 1 { key } else { numbered_key(key, d as nat) }
}

proof fn lemma_free_counter(bs: KeyInfo, key: Seq<char>, c: nat, fuel: nat)
    ensures
        c <= free_counter(bs, key, c, fuel) <= c + fuel,
        first_label(bs, numbered_key(key, free_counter(bs, key, c, fuel))) is None || (free_counter(bs, key, c, fuel) == c + fuel
            && forall|d: int| c <= d < c + fuel ==> #[trigger] first_label(bs, numbered_key(key, d as nat)) is Some),
    decreases fuel,
{
    if fuel > 0 && first_label(bs, numbered_key(key, c)) is Some {
        lemma_free_counter(bs, key, c + 1, (fuel - 1) as nat);
        let r = free_counter(bs, key, c, fuel);
        if first_label(bs, numbered_key(key, r)) is Some {
            assert forall|d: int| c <= d < c + fuel implies #[trigger] first_label(bs, numbered_key(key, d as nat)) is Some by {
                if d > c {
                    assert(c + 1 <= d < c + 1 + (fuel - 1));
                }
            }
        }
    }
}

proof fn lemma_some_counter_free(bs: KeyInfo, key: Seq<char>)
    requires
        first_label(bs, key) is Some,
    ensures
        !(forall|d: int| 2 <= d < 2 + bs.len() ==> #[trigger] first_label(bs, numbered_key(key, d as nat)) is Some),
{
    if forall|d: int| 2 <= d < 2 + bs.len() ==> #[trigger] first_label(bs, numbered_key(key, d as nat)) is Some {
        let n = bs.len() as int;
        let x = vstd::set_lib::set_int_range(1, 2 + n);
        let f = |d: int| first_label(bs, candidate_key(key, d)).unwrap();
        vstd::set_lib::lemma_int_range(1, 2 + n);
        vstd::set_lib::lemma_int_range(0, n);
        assert forall|d: int| #[trigger] x.contains(d) implies 0 <= f(d) < n && bs[f(d)].0 == candidate_key(key, d) by {
            if d > 1 {
                assert(first_label(bs, numbered_key(key, d as nat)) is Some);
            }
            lemma_first_label_in(bs, candidate_key(key, d));
        }
        assert(vstd::relations::injective_on(f, x)) by {
            assert forall|a: int, b: int| x.contains(a) && x.contains(b) && #[trigger] f(a) == #[trigger] f(b) implies a == b by {
                assert(candidate_key(key, a) == candidate_key(key, b));
                if a > 1 && b > 1 {
                    lemma_numbered_key_injective(key, a as nat, b as nat);
                } else if a > 1 {
                    assert(numbered_key(key, a as nat).len() > key.len());
                } else if b > 1 {
                    assert(numbered_key(key, b as nat).len() > key.len());
                }
            }
        }
        let y = x.map(f);
        vstd::set_lib::lemma_map_size(x, y, f);
        assert(y.subset_of(vstd::set_lib::set_int_range(0, n))) by {
            assert forall|i: int| #[trigger] y.contains(i) implies vstd::set_lib::set_int_range(0, n).contains(i) by {
                let d = choose|d: int| x.contains(d) && f(d) == i;
            }
        }
        vstd::set_lib::lemma_len_subset(y, vstd::set_lib::set_int_range(0, n));
        assert(false);
    }
}

/// The key a block is filed under is either new, or names a block with the
/// same body (and the same title when titles are compared).
pub proof fn lemma_block_key_sound(bs: KeyInfo, key: Seq<char>, title: Seq<char>, body: Seq<char>, compare_title: bool)
    ensures
        match first_label(bs, block_key(bs, key, title, body, compare_title)) {
            None => true,
            Some(i) => 0 <= i < bs.len() && bs[i].0 == block_key(bs, key, title, body, compare_title)
                && bs[i].1.1 == body && (compare_title ==> bs[i].1.0 == title),
        },
{
    let k = block_key(bs, key, title, body, compare_title);
    lemma_first_label_in(bs, key);
    lemma_first_label_in(bs, k);
    match first_label(bs, key) {
        Some(i) => {
            if bs[i].1.1 != body || (compare_title && bs[i].1.0 != title) {
                lemma_free_counter(bs, key, 2, bs.len());
                lemma_some_counter_free(bs, key);
            }
        },
        None => {},
    }
}

/// Migration files a slide under its key, or under the first numbered key
/// `"<key> (n)"`, n >= 2, that is free or already holds an equal slide (same
/// title and body): equal slides share one block.
pub open spec fn share_counter(bs: KeyInfo, key: Seq<char>, tb: (Seq<char>, Seq<char>), c: nat, fuel: nat) -> nat
    decreases fuel,
{
    if fuel == 0 || match first_label(bs, numbered_key(key, c)) {
        None => true,
        Some(i) => bs[i].1 == tb,
    } {
        c
    } else {
        share_counter(bs, key, tb, c + 1, (fuel - 1) as nat)
    }
}

/// The key a migrated slide with title and body `tb` is filed under.
pub open spec fn migrate_key(bs: KeyInfo, key: Seq<char>, tb: (Seq<char>, Seq<char>)) -> Seq<char> {
    match first_label(bs, key) {
        Some(i) => if bs[i].1 != tb { numbered_key(key, share_counter(bs, key, tb, 2, bs.len())) } else { key },
        None => key,
    }
}

proof fn lemma_share_counter(bs: KeyInfo, key: Seq<char>, tb: (Seq<char>, Seq<char>), c: nat, fuel: nat)
    ensures
        ({
            let r = share_counter(bs, key, tb, c, fuel);
            &&& c <= r <= c + fuel
            &&& (match first_label(bs, numbered_key(key, r)) {
                None => true,
                Some(i) => bs[i].1 == tb,
            }) || (r == c + fuel && forall|d: int| c <= d < c + fuel ==> #[trigger] first_label(bs, numbered_key(key, d as nat)) is Some)
        }),
    decreases fuel,
{
    if fuel > 0 && !(match first_label(bs, numbered_key(key, c)) {
        None => true,
        Some(i) => bs[i].1 == tb,
    }) {
        lemma_share_counter(bs, key, tb, c + 1, (fuel - 1) as nat);
        let r = share_counter(bs, key, tb, c, fuel);
        if !(match first_label(bs, numbered_key(key, r)) {
            None => true,
            Some(i) => bs[i].1 == tb,
        }) {
            assert forall|d: int| c <= d < c + fuel implies #[trigger] first_label(bs, numbered_key(key, d as nat)) is Some by {
                if d > c {
                    assert(c + 1 <= d < c + 1 + (fuel - 1));
                }
            }
        }
    }
}

/// The key migration picks is either new or holds an equal slide.
proof fn lemma_migrate_key_sound(bs: KeyInfo, key: Seq<char>, tb: (Seq<char>, Seq<char>))
    ensures
        match first_label(bs, migrate_key(bs, key, tb)) {
            None => true,
            Some(i) => 0 <= i < bs.len() && bs[i].0 == migrate_key(bs, key, tb) && bs[i].1 == tb,
        },
{
    let k = migrate_key(bs, key, tb);
    lemma_first_label_in(bs, key);
    lemma_first_label_in(bs, k);
    match first_label(bs, key) {
        Some(i) => {
            if bs[i].1 != tb {
                lemma_share_counter(bs, key, tb, 2, bs.len());
                lemma_some_counter_free(bs, key);
            }
        },
        None => {},
    }
}

/// `"Verse <n>"`.
pub open spec fn verse_label(n: nat) -> Seq<char> {
    "Verse "@ + dec(n)
}

/// One old slide migrated: filed under its key (see [`migrate_key`]),
/// appended to the arrangement.
pub open spec fn migrate_step(st: (BlocksM, Seq<Seq<char>>), s: LibrarySlide) -> (BlocksM, Seq<Seq<char>>) {
    let bs = st.0;
    let arr = st.1;
    let base = slide_base_key(s);
    let key = if trim(base).len() == 0 { verse_label((arr.len() + 1) as nat) } else { base };
    let k = migrate_key(key_info(bs), key, (s.title@, s.body@));
    let bs2 = if first_label(key_info(bs), k) is None { bs.push((k, s)) } else { bs };
    (bs2, arr.push(k))
}

pub open spec fn migrate_all(ss: Seq<LibrarySlide>) -> (BlocksM, Seq<Seq<char>>)
    decreases ss.len(),
{
    if ss.len() == 0 {
        (seq![], seq![])
    } else {
        migrate_step(migrate_all(ss.drop_last()), ss.last())
    }
}

/// Every key of `arr` names a block.
pub open spec fn keys_resolve(bs: BlocksM, arr: Seq<Seq<char>>) -> bool {
    forall|j: int| 0 <= j < arr.len() ==> #[trigger] first_label(bs, arr[j]) is Some
}

/// No two blocks share a key.
pub open spec fn block_keys_unique(bs: BlocksM) -> bool {
    forall|i: int, j: int| 0 <= i < j < bs.len() ==> #[trigger] bs[i].0 != #[trigger] bs[j].0
}

proof fn lemma_key_info_labels(bs: BlocksM, k: Seq<char>)
    ensures
        first_label(key_info(bs), k) == first_label(bs, k),
{
    assert forall|i: int| 0 <= i < bs.len() implies #[trigger] key_info(bs)[i].0 == bs[i].0 by {}
    lemma_first_label_same_labels(key_info(bs), bs, k);
}

proof fn lemma_arranged_push_block(bs: BlocksM, x: (Seq<char>, LibrarySlide), arr: Seq<Seq<char>>)
    requires
        keys_resolve(bs, arr),
    ensures
        arranged(bs.push(x), arr) == arranged(bs, arr),
    decreases arr.len(),
{
    if arr.len() > 0 {
        assert(keys_resolve(bs, arr.drop_last())) by {
            assert forall|j: int| 0 <= j < arr.drop_last().len() implies #[trigger] first_label(bs, arr.drop_last()[j]) is Some by {
                assert(arr.drop_last()[j] == arr[j]);
            }
        }
        lemma_arranged_push_block(bs, x, arr.drop_last());
        assert(first_label(bs, arr[arr.len() - 1]) is Some);
        assert(arr.last() == arr[arr.len() - 1]);
        lemma_first_label_push(bs, x, arr.last());
        lemma_first_label_in(bs, arr.last());
        let i = first_label(bs, arr.last()).unwrap();
        assert(bs.push(x)[i] == bs[i]);
    }
}

/// Migrating a flat slide list keeps what the song plays: one arrangement
/// entry per old slide, no more blocks than old slides, every entry names
/// a block, no two blocks share a key, and playing the arrangement gives the old slides' titles and
/// bodies in order.
pub proof fn law_migration_preserves_playback(ss: Seq<LibrarySlide>)
    ensures
        migrate_all(ss).1.len() == ss.len(),
        migrate_all(ss).0.len() <= ss.len(),
        keys_resolve(migrate_all(ss).0, migrate_all(ss).1),
        block_keys_unique(migrate_all(ss).0),
        arranged(migrate_all(ss).0, migrate_all(ss).1).len() == ss.len(),
        forall|i: int| 0 <= i < ss.len() ==> (#[trigger] arranged(migrate_all(ss).0, migrate_all(ss).1)[i]).title@ == ss[i].title@
            && arranged(migrate_all(ss).0, migrate_all(ss).1)[i].body@ == ss[i].body@,
    decreases ss.len(),
{
    if ss.len() > 0 {
        law_migration_preserves_playback(ss.drop_last());
        let bs = migrate_all(ss.drop_last()).0;
        let arr = migrate_all(ss.drop_last()).1;
        let s = ss.last();
        let base = slide_base_key(s);
        let key = if trim(base).len() == 0 { verse_label((arr.len() + 1) as nat) } else { base };
        let k = migrate_key(key_info(bs), key, (s.title@, s.body@));
        lemma_migrate_key_sound(key_info(bs), key, (s.title@, s.body@));
        lemma_key_info_labels(bs, k);
        let bs2 = migrate_all(ss).0;
        let arr2 = migrate_all(ss).1;
        assert(arr2 == arr.push(k));
        let prev = arranged(bs, arr);
        match first_label(bs, k) {
            None => {
                assert(bs2 == bs.push((k, s)));
                lemma_arranged_push_block(bs, (k, s), arr);
                lemma_first_label_push(bs, (k, s), k);
                assert(arr2.drop_last() =~= arr);
                assert(arranged(bs2, arr2) == prev.push(s));
                assert forall|j: int| 0 <= j < arr2.len() implies #[trigger] first_label(bs2, arr2[j]) is Some by {
                    if j < arr.len() {
                        assert(arr2[j] == arr[j]);
                        lemma_first_label_push(bs, (k, s), arr[j]);
                    }
                }
                assert forall|i: int, j: int| 0 <= i < j < bs2.len() implies #[trigger] bs2[i].0 != #[trigger] bs2[j].0 by {
                    if j == bs.len() {
                        if bs2[i].0 == k {
                            lemma_first_label_found(bs, k, i);
                            assert(false);
                        }
                    }
                }
            },
            Some(i) => {
                assert(bs2 == bs);
                assert(key_info(bs)[i] == (bs[i].0, (bs[i].1.title@, bs[i].1.body@)));
                assert(arr2.drop_last() =~= arr);
                assert(arranged(bs2, arr2) == prev.push(bs[i].1));
                assert forall|j: int| 0 <= j < arr2.len() implies #[trigger] first_label(bs2, arr2[j]) is Some by {
                    if j < arr.len() {
                        assert(arr2[j] == arr[j]);
                    }
                }
            },
        }
        assert forall|i: int| 0 <= i < ss.len() implies (#[trigger] arranged(bs2, arr2)[i]).title@ == ss[i].title@
            && arranged(bs2, arr2)[i].body@ == ss[i].body@ by {
            if i < ss.len() - 1 {
                assert(ss.drop_last()[i] == ss[i]);
            }
        }
    }
}

/// The first key in `bs` equal to `k`.
pub(crate) fn find_block(bs: &Vec<(String, LibrarySlide)>, k: &Vec<char>) -> (r: Option<usize>)
    ensures
        match r {
            Some(i) => i < bs.len() && first_label(blocks_view(bs@), k@) == Some(i as int)
                && first_label(key_info(blocks_view(bs@)), k@) == Some(i as int),
            None => first_label(blocks_view(bs@), k@) == None::<int>
                && first_label(key_info(blocks_view(bs@)), k@) == None::<int>,
        },
{
    let ghost m = blocks_view(bs@);
    let ghost ki = key_info(m);
    let mut i: usize = 0;
    while i < bs.len()
        invariant
            i <= bs.len(),
            m == blocks_view(bs@),
            ki == key_info(m),
            forall|j: int| 0 <= j < i ==> #[trigger] m[j].0 != k@,
        decreases bs.len() - i,
    {
        assert(m[i as int].0 == bs@[i as int].0@);
        if eq_chars(&chars_of(bs[i].0.as_str()), k) {
            proof {
                lemma_first_label_found(m, k@, i as int);
                assert forall|j: int| 0 <= j < i implies #[trigger] ki[j].0 != k@ by {
                    assert(ki[j].0 == m[j].0);
                }
                lemma_first_label_found(ki, k@, i as int);
            }
            return Some(i);
        }
        i = i + 1;
    }
    proof {
        lemma_first_label_none(m, k@);
        assert forall|j: int| 0 <= j < ki.len() implies #[trigger] ki[j].0 != k@ by {
            assert(ki[j].0 == m[j].0);
        }
        lemma_first_label_none(ki, k@);
    }
    None
}

/// `"<key> (<c>)"`.
fn numbered_key_exec(key: &Vec<char>, c: usize) -> (r: Vec<char>)
    ensures
        r@ == numbered_key(key@, c as nat),
{
    let mut r: Vec<char> = Vec::new();
    append(&mut r, key);
    append(&mut r, &lit(" ("));
    push_dec(&mut r, c as u64);
    append(&mut r, &lit(")"));
    assert(r@ =~= numbered_key(key@, c as nat));
    r
}

/// See [`block_key`].
pub(crate) fn block_key_exec(bs: &Vec<(String, LibrarySlide)>, key: Vec<char>, title: &String, body: &String, compare_title: bool) -> (r: Vec<char>)
    requires
        bs.len() + 2 <= usize::MAX,
    ensures
        r@ == block_key(key_info(blocks_view(bs@)), key@, title@, body@, compare_title),
{
    let ghost m = key_info(blocks_view(bs@));
    match find_block(bs, &key) {
        None => key,
        Some(i) => {
            let existing = &bs[i].1;
            assert(m[i as int].1 == (existing.title@, existing.body@));
            let differs = !eq_chars(&chars_of(existing.body.as_str()), &chars_of(body.as_str()))
                || (compare_title && !eq_chars(&chars_of(existing.title.as_str()), &chars_of(title.as_str())));
            if !differs {
                return key;
            }
            let mut counter: usize = 2;
            let mut fuel: usize = bs.len();
            let mut candidate = numbered_key_exec(&key, counter);
            while fuel > 0 && find_block(bs, &candidate).is_some()
                invariant
                    counter + fuel == bs.len() + 2,
                    bs.len() + 2 <= usize::MAX,
                    m == key_info(blocks_view(bs@)),
                    candidate@ == numbered_key(key@, counter as nat),
                    free_counter(m, key@, 2, bs.len() as nat) == free_counter(m, key@, counter as nat, fuel as nat),
                decreases fuel,
            {
                counter = counter + 1;
                fuel = fuel - 1;
                candidate = numbered_key_exec(&key, counter);
            }
            candidate
        },
    }
}

/// Whether the block filed under `k` exists and differs from `tb`.
fn held_by_other(bs: &Vec<(String, LibrarySlide)>, k: &Vec<char>, title: &String, body: &String) -> (r: bool)
    ensures
        r == match first_label(key_info(blocks_view(bs@)), k@) {
            None => false,
            Some(i) => key_info(blocks_view(bs@))[i].1 != (title@, body@),
        },
{
    match find_block(bs, k) {
        None => false,
        Some(i) => {
            let existing = &bs[i].1;
            assert(key_info(blocks_view(bs@))[i as int].1 == (existing.title@, existing.body@));
            !eq_chars(&chars_of(existing.body.as_str()), &chars_of(body.as_str()))
                || !eq_chars(&chars_of(existing.title.as_str()), &chars_of(title.as_str()))
        },
    }
}

fn migrate_key_exec(bs: &Vec<(String, LibrarySlide)>, key: Vec<char>, title: &String, body: &String) -> (r: Vec<char>)
    requires
        bs.len() + 2 <= usize::MAX,
    ensures
        r@ == migrate_key(key_info(blocks_view(bs@)), key@, (title@, body@)),
{
    let ghost m = key_info(blocks_view(bs@));
    if !held_by_other(bs, &key, title, body) {
        return key;
    }
    let mut counter: usize = 2;
    let mut fuel: usize = bs.len();
    let mut candidate = numbered_key_exec(&key, counter);
    while fuel > 0 && held_by_other(bs, &candidate, title, body)
        invariant
            counter + fuel == bs.len() + 2,
            bs.len() + 2 <= usize::MAX,
            m == key_info(blocks_view(bs@)),
            candidate@ == numbered_key(key@, counter as nat),
            share_counter(m, key@, (title@, body@), 2, bs.len() as nat)
                == share_counter(m, key@, (title@, body@), counter as nat, fuel as nat),
        decreases fuel,
    {
        counter = counter + 1;
        fuel = fuel - 1;
        candidate = numbered_key_exec(&key, counter);
    }
    candidate
}

impl LibrarySong {
    /// One-time migration from the flat `slides` list to blocks and an
    /// arrangement: each slide is filed under its title (or group label),
    /// a slide whose key holds a different one goes under the first
    /// `"<key> (n)"` that is free or holds an equal slide, so equal slides
    /// (same title and body) share one block. Returns whether it migrated.
    pub fn migrate_if_needed(&mut self) -> (r: bool)
        requires
            old(self).slides is Some ==> old(self).slides.unwrap().len() * 2 + 2 <= usize::MAX,
        ensures
            final(self).id == old(self).id,
            final(self).title == old(self).title,
            final(self).default_background == old(self).default_background,
            old(self).blocks.len() > 0 || old(self).slides is None ==> !r && *final(self) == *old(self),
            old(self).blocks.len() == 0 && old(self).slides is Some && old(self).slides.unwrap().len() == 0 ==> !r
                && final(self).slides is None && final(self).blocks == old(self).blocks
                && final(self).arrangement == old(self).arrangement,
            old(self).blocks.len() == 0 && old(self).slides is Some && old(self).slides.unwrap().len() > 0 ==> r
                && final(self).slides is None
                && blocks_view(final(self).blocks@) == migrate_all(old(self).slides.unwrap()@).0
                && name_list_s(final(self).arrangement@) == migrate_all(old(self).slides.unwrap()@).1,
    {
        if self.blocks.len() > 0 || self.slides.is_none() {
            return false;
        }
        let old_slides = match self.slides.take() {
            Some(v) => v,
            None => Vec::new(),
        };
        if old_slides.len() == 0 {
            return false;
        }
        let ghost ss = old_slides@;
        let n = old_slides.len();
        let mut rev = crate::scripture_import::into_reversed(old_slides);
        let mut blocks: Vec<(String, LibrarySlide)> = Vec::new();
        let mut arrangement: Vec<String> = Vec::new();
        let mut taken: usize = 0;
        assert(ss.take(0) =~= Seq::<LibrarySlide>::empty());
        assert(blocks_view(blocks@) =~= migrate_all(ss.take(0)).0);
        assert(name_list_s(arrangement@) =~= migrate_all(ss.take(0)).1);
        while rev.len() > 0
            invariant
                taken + rev.len() == n,
                ss.len() == n,
                n * 2 + 2 <= usize::MAX,
                blocks.len() <= taken,
                arrangement.len() == taken,
                forall|k: int| 0 <= k < rev.len() ==> #[trigger] rev@[k] == ss[n - 1 - k],
                blocks_view(blocks@) == migrate_all(ss.take(taken as int)).0,
                name_list_s(arrangement@) == migrate_all(ss.take(taken as int)).1,
            decreases rev.len(),
        {
            let slide = rev.pop().unwrap();
            assert(slide == ss[taken as int]);
            assert(ss.take(taken + 1).drop_last() =~= ss.take(taken as int));
            let ghost bs = blocks_view(blocks@);
            let ghost arr = name_list_s(arrangement@);
            let title = chars_of(slide.title.as_str());
            let base: Vec<char> = if !is_blank_chars(&title) {
                title
            } else {
                match &slide.group_label {
                    Some(gl) => {
                        let g = chars_of(gl.as_str());
                        if !is_blank_chars(&g) { g } else { title }
                    },
                    None => title,
                }
            };
            assert(base@ == slide_base_key(slide));
            let key = if is_blank_chars(&base) {
                let mut v = lit("Verse ");
                push_dec(&mut v, (arrangement.len() + 1) as u64);
                v
            } else {
                base
            };
            let k = migrate_key_exec(&blocks, key, &slide.title, &slide.body);
            let ks = string_of(&k);
            match find_block(&blocks, &k) {
                None => {
                    blocks.push((string_of(&k), slide));
                    assert(blocks_view(blocks@) =~= bs.push((k@, ss[taken as int])));
                },
                Some(_) => {},
            }
            arrangement.push(ks);
            assert(name_list_s(arrangement@) =~= arr.push(k@));
            taken = taken + 1;
        }
        assert(ss.take(n as int) =~= ss);
        self.blocks = blocks;
        self.arrangement = arrangement;
        true
    }
}

/// The text of each string.
pub open spec fn name_list_s(v: Seq<String>) -> Seq<Seq<char>> {
    v.map_values(|s: String| s@)
}

/// Whether `v` is empty after trimming.
pub fn is_blank_chars(v: &Vec<char>) -> (r: bool)
    ensures
        r == (trim(v@).len() == 0),
{
    trim_chars(v).len() == 0
}


// ---------------------------------------------------------------------------
// Playing a song
// ---------------------------------------------------------------------------

/// The blocks named by an arrangement, in its order; unknown keys are skipped.
pub open spec fn arranged(bs: BlocksM, arr: Seq<Seq<char>>) -> Seq<LibrarySlide>
    decreases arr.len(),
{
    if arr.len() == 0 {
        seq![]
    } else {
        let rest = arranged(bs, arr.drop_last());
        match first_label(bs, arr.last()) {
            Some(i) => rest.push(bs[i].1),
            None => rest,
        }
    }
}

pub open spec fn block_values(bs: BlocksM) -> Seq<LibrarySlide> {
    bs.map_values(|p: (Seq<char>, LibrarySlide)| p.1)
}

/// `x` placed after every slide whose title is not after its own.
pub open spec fn insert_by_title(s: Seq<LibrarySlide>, x: LibrarySlide) -> Seq<LibrarySlide>
    decreases s.len(),
{
    if s.len() == 0 {
        seq![x]
    } else if !seq_lt(x.title@, s.last().title@) {
        s.push(x)
    } else {
        insert_by_title(s.drop_last(), x).push(s.last())
    }
}

/// Slides ordered by title, equal titles keeping their order.
pub open spec fn sort_by_title(s: Seq<LibrarySlide>) -> Seq<LibrarySlide>
    decreases s.len(),
{
    if s.len() == 0 {
        seq![]
    } else {
        insert_by_title(sort_by_title(s.drop_last()), s.last())
    }
}

/// The slides a song plays: its arrangement resolved to blocks (all blocks
/// when no key resolves); with no arrangement, its blocks by title; with no
/// blocks, the deprecated flat list.
pub open spec fn flattened(song: LibrarySong) -> Seq<LibrarySlide> {
    let bs = blocks_view(song.blocks@);
    if song.arrangement.len() > 0 {
        let a = arranged(bs, name_list_s(song.arrangement@));
        if a.len() == 0 && bs.len() > 0 { block_values(bs) } else { a }
    } else if bs.len() > 0 {
        sort_by_title(block_values(bs))
    } else {
        match song.slides {
            Some(v) => v@,
            None => seq![],
        }
    }
}

pub open spec fn deref_all(v: Seq<&LibrarySlide>) -> Seq<LibrarySlide> {
    v.map_values(|x: &LibrarySlide| *x)
}

proof fn lemma_insert_by_title_split(s: Seq<LibrarySlide>, x: LibrarySlide, j: int)
    requires
        0 <= j <= s.len(),
        forall|k: int| j <= k < s.len() ==> seq_lt(x.title@, #[trigger] s[k].title@),
        j > 0 ==> !seq_lt(x.title@, s[j - 1].title@),
    ensures
        insert_by_title(s, x) == s.take(j).push(x) + s.skip(j),
    decreases s.len(),
{
    if s.len() == 0 {
        assert(s.take(j).push(x) + s.skip(j) =~= seq![x]);
    } else if !seq_lt(x.title@, s.last().title@) {
        assert(j == s.len());
        assert(s.take(j).push(x) + s.skip(j) =~= s.push(x));
    } else {
        lemma_insert_by_title_split(s.drop_last(), x, j);
        assert(s.drop_last().take(j).push(x) + s.drop_last().skip(j) + seq![s.last()] =~= s.take(j).push(x) + s.skip(j));
    }
}

/// Stable insertion sort by title.
fn sort_refs_by_title<'a>(v: Vec<&'a LibrarySlide>) -> (r: Vec<&'a LibrarySlide>)
    ensures
        deref_all(r@) == sort_by_title(deref_all(v@)),
{
    let ghost m = deref_all(v@);
    let n = v.len();
    let mut rev = crate::scripture_import::into_reversed(v);
    let mut out: Vec<&'a LibrarySlide> = Vec::new();
    let mut taken: usize = 0;
    assert(deref_all(out@) =~= sort_by_title(m.take(0)));
    while rev.len() > 0
        invariant
            taken + rev.len() == n,
            m.len() == n,
            forall|k: int| 0 <= k < rev.len() ==> *#[trigger] rev@[k] == m[n - 1 - k],
            deref_all(out@) == sort_by_title(m.take(taken as int)),
        decreases rev.len(),
    {
        let x = rev.pop().unwrap();
        assert(*x == m[taken as int]);
        let xt = chars_of(x.title.as_str());
        let mut j: usize = out.len();
        while j > 0 && crate::scripture::name_lt(&xt, &chars_of(out[j - 1].title.as_str()))
            invariant
                j <= out.len(),
                xt@ == x.title@,
                forall|k: int| j <= k < out.len() ==> seq_lt(x.title@, #[trigger] out@[k].title@),
            decreases j,
        {
            j = j - 1;
        }
        let ghost before = deref_all(out@);
        proof {
            assert forall|k: int| j <= k < before.len() implies seq_lt(x.title@, #[trigger] before[k].title@) by {
                assert(before[k] == *out@[k]);
            }
            if j > 0 {
                assert(before[j - 1] == *out@[j - 1]);
            }
            lemma_insert_by_title_split(before, *x, j as int);
            assert(m.take(taken + 1).drop_last() =~= m.take(taken as int));
        }
        out.insert(j, x);
        assert(deref_all(out@) =~= before.take(j as int).push(*x) + before.skip(j as int));
        taken = taken + 1;
    }
    assert(m.take(n as int) =~= m);
    out
}

impl LibrarySong {
    /// The slides the song plays, in order (see [`flattened`]).
    pub fn flattened_slides(&self) -> (r: Vec<&LibrarySlide>)
        ensures
            deref_all(r@) == flattened(*self),
    {
        let ghost bs = blocks_view(self.blocks@);
        if self.arrangement.len() > 0 {
            let ghost arr = name_list_s(self.arrangement@);
            let mut out: Vec<&LibrarySlide> = Vec::new();
            let mut i: usize = 0;
            assert(deref_all(out@) =~= arranged(bs, arr.take(0)));
            while i < self.arrangement.len()
                invariant
                    i <= self.arrangement.len(),
                    bs == blocks_view(self.blocks@),
                    arr == name_list_s(self.arrangement@),
                    deref_all(out@) == arranged(bs, arr.take(i as int)),
                decreases self.arrangement.len() - i,
            {
                let key = chars_of(self.arrangement[i].as_str());
                assert(arr.take(i + 1).drop_last() =~= arr.take(i as int));
                assert(arr.take(i + 1).last() == key@);
                match find_block(&self.blocks, &key) {
                    Some(b) => {
                        let ghost before = deref_all(out@);
                        out.push(&self.blocks[b].1);
                        assert(deref_all(out@) =~= before.push(bs[b as int].1));
                    },
                    None => {},
                }
                i = i + 1;
            }
            assert(arr.take(self.arrangement.len() as int) =~= arr);
            if out.len() == 0 && self.blocks.len() > 0 {
                return self.block_refs();
            }
            out
        } else if self.blocks.len() > 0 {
            let refs = self.block_refs();
            sort_refs_by_title(refs)
        } else {
            match &self.slides {
                Some(v) => {
                    let mut out: Vec<&LibrarySlide> = Vec::new();
                    let mut i: usize = 0;
                    while i < v.len()
                        invariant
                            i <= v.len(),
                            deref_all(out@) == v@.take(i as int),
                        decreases v.len() - i,
                    {
                        let ghost before = deref_all(out@);
                        out.push(&v[i]);
                        assert(deref_all(out@) =~= before.push(v@[i as int]));
                        assert(v@.take(i + 1) =~= v@.take(i as int).push(v@[i as int]));
                        i = i + 1;
                    }
                    assert(v@.take(v.len() as int) =~= v@);
                    out
                },
                None => Vec::new(),
            }
        }
    }

    /// References to the blocks, in order.
    fn block_refs(&self) -> (r: Vec<&LibrarySlide>)
        ensures
            deref_all(r@) == block_values(blocks_view(self.blocks@)),
    {
        let mut out: Vec<&LibrarySlide> = Vec::new();
        let mut i: usize = 0;
        while i < self.blocks.len()
            invariant
                i <= self.blocks.len(),
                deref_all(out@) == block_values(blocks_view(self.blocks@)).take(i as int),
            decreases self.blocks.len() - i,
        {
            let ghost before = deref_all(out@);
            let ghost bv = block_values(blocks_view(self.blocks@));
            out.push(&self.blocks[i].1);
            assert(bv[i as int] == self.blocks@[i as int].1);
            assert(deref_all(out@) =~= before.push(bv[i as int]));
            assert(bv.take(i + 1) =~= bv.take(i as int).push(bv[i as int]));
            i = i + 1;
        }
        assert(block_values(blocks_view(self.blocks@)).take(self.blocks.len() as int) =~= block_values(blocks_view(self.blocks@)));
        out
    }
}


// ---------------------------------------------------------------------------
// Service presets
// ---------------------------------------------------------------------------

/// One item of a service preset's playlist.
#[derive(Clone, Debug)]
pub struct ServicePresetItem {
    pub title: String,
    pub item_type: String,
    pub reference_id: Option<String>,
    pub content: Option<String>,
}

/// A ready-made service: a named playlist to start a project from.
#[derive(Clone, Debug)]
pub struct ServicePreset {
    pub id: String,
    pub name: String,
    pub category: String,
    pub description: String,
    pub default_aspect: String,
    pub playlist_items: Vec<ServicePresetItem>,
}

/// `(title, type, reference id, content)`.
pub type PresetItemM = (Seq<char>, Seq<char>, Option<Seq<char>>, Option<Seq<char>>);

/// `(id, name, category, description, default aspect, items)`.
pub type PresetM = (Seq<char>, Seq<char>, Seq<char>, Seq<char>, Seq<char>, Seq<PresetItemM>);

pub open spec fn opt_text(o: Option<String>) -> Option<Seq<char>> {
    match o {
        Some(s) => Some(s@),
        None => None,
    }
}

pub open spec fn opt_str(o: Option<&str>) -> Option<Seq<char>> {
    match o {
        Some(s) => Some(s@),
        None => None,
    }
}

pub open spec fn preset_item_model(it: ServicePresetItem) -> PresetItemM {
    (it.title@, it.item_type@, opt_text(it.reference_id), opt_text(it.content))
}

pub open spec fn preset_model(p: ServicePreset) -> PresetM {
    (p.id@, p.name@, p.category@, p.description@, p.default_aspect@,
        p.playlist_items@.map_values(|it: ServicePresetItem| preset_item_model(it)))
}

/// The built-in service presets: Sunday morning, midweek, youth and blank.
pub open spec fn default_preset_models() -> Seq<PresetM> {
    seq![
        ("sunday-morning"@, "Sunday Morning Service"@, "Sunday Service"@, "Welcome, worship, scripture, sermon & closing — the classic Sunday flow."@, "16:9"@, seq![("Welcome"@, "slide"@, None, Some("Welcome to Worship\nWe're glad you're here!"@)), ("Worship — Amazing Grace"@, "song"@, Some("amazing-grace"@), Some("Amazing grace, how sweet the sound\nThat saved a wretch like me"@)), ("Worship — Great Is Thy Faithfulness"@, "song"@, Some("great-is-thy-faithfulness"@), Some("Great is Thy faithfulness, O God my Father"@)), ("Scripture Reading"@, "scripture"@, Some("John 3:16"@), Some("For God so loved the world… — John 3:16"@)), ("Sermon Outline — Title"@, "slide"@, None, Some("Today's Message\nSpeaker: Pastor\nText: John 3:16"@)), ("Closing Announcement"@, "slide"@, None, Some("Thanks for joining!\nSee you next Sunday"@))]),
        ("midweek"@, "Midweek Prayer & Bible Study"@, "Midweek"@, "Opening prayer, verse-by-verse study and prayer requests."@, "16:9"@, seq![("Opening Prayer"@, "slide"@, None, Some("Opening Prayer\nLet us pray together"@)), ("Scripture — Psalm 23:1"@, "scripture"@, Some("Psalm 23:1"@), Some("The Lord is my shepherd; I shall not want. — Psalm 23:1"@)), ("Scripture — Psalm 23:2"@, "scripture"@, Some("Psalm 23:2"@), Some("He makes me lie down in green pastures. — Psalm 23:2"@)), ("Scripture — Psalm 23:4"@, "scripture"@, Some("Psalm 23:4"@), Some("Even though I walk through the darkest valley… — Psalm 23:4"@)), ("Prayer Requests"@, "slide"@, None, Some("Prayer Requests\nShare your burdens"@)), ("Closing Blessing"@, "slide"@, None, Some("Go in peace — see you Sunday"@))]),
        ("youth"@, "Youth Event — Upbeat Service"@, "Youth"@, "High-energy songs, games & announcements for youth night."@, "16:9"@, seq![("Welcome — Youth Night!"@, "slide"@, None, Some("YOUTH NIGHT\nAre you ready?"@)), ("Upbeat Worship"@, "song"@, Some("youth-worship"@), Some("This is the day the Lord has made\nWe will rejoice!"@)), ("Game — Ice Breaker"@, "slide"@, None, Some("Quick Game\nTwo Truths & a Lie"@)), ("Announcements"@, "slide"@, None, Some("Upcoming Events\nRetreat — Dec 12"@)), ("Message — Live Boldly"@, "slide"@, None, Some("Live boldly for Christ\n1 Timothy 4:12"@))]),
        ("blank"@, "Blank / Custom Service"@, "Custom"@, "Empty canvas — start from scratch."@, "16:9"@, seq![]),
    ]
}

fn opt_string(o: Option<&str>) -> (r: Option<String>)
    ensures
        opt_text(r) == opt_str(o),
{
    match o {
        Some(s) => Some(lit_string(s)),
        None => None,
    }
}

fn preset_item(title: &str, item_type: &str, reference_id: Option<&str>, content: Option<&str>) -> (r: ServicePresetItem)
    ensures
        preset_item_model(r) == (title@, item_type@, opt_str(reference_id), opt_str(content)),
{
    ServicePresetItem {
        title: lit_string(title),
        item_type: lit_string(item_type),
        reference_id: opt_string(reference_id),
        content: opt_string(content),
    }
}

fn preset(id: &str, name: &str, category: &str, description: &str, aspect: &str, items: Vec<ServicePresetItem>) -> (r: ServicePreset)
    ensures
        preset_model(r) == (id@, name@, category@, description@, aspect@,
            items@.map_values(|it: ServicePresetItem| preset_item_model(it))),
{
    ServicePreset {
        id: lit_string(id),
        name: lit_string(name),
        category: lit_string(category),
        description: lit_string(description),
        default_aspect: lit_string(aspect),
        playlist_items: items,
    }
}

/// The built-in service presets (see [`default_preset_models`]).
pub fn default_presets() -> (r: Vec<ServicePreset>)
    ensures
        r@.map_values(|p: ServicePreset| preset_model(p)) == default_preset_models(),
{
    let mut out: Vec<ServicePreset> = Vec::new();
    let mut items: Vec<ServicePresetItem> = Vec::new();
    items.push(preset_item("Welcome", "slide", None, Some("Welcome to Worship\nWe're glad you're here!")));
    items.push(preset_item("Worship — Amazing Grace", "song", Some("amazing-grace"), Some("Amazing grace, how sweet the sound\nThat saved a wretch like me")));
    items.push(preset_item("Worship — Great Is Thy Faithfulness", "song", Some("great-is-thy-faithfulness"), Some("Great is Thy faithfulness, O God my Father")));
    items.push(preset_item("Scripture Reading", "scripture", Some("John 3:16"), Some("For God so loved the world… — John 3:16")));
    items.push(preset_item("Sermon Outline — Title", "slide", None, Some("Today's Message\nSpeaker: Pastor\nText: John 3:16")));
    items.push(preset_item("Closing Announcement", "slide", None, Some("Thanks for joining!\nSee you next Sunday")));
    out.push(preset("sunday-morning", "Sunday Morning Service", "Sunday Service", "Welcome, worship, scripture, sermon & closing — the classic Sunday flow.", "16:9", items));
    let mut items: Vec<ServicePresetItem> = Vec::new();
    items.push(preset_item("Opening Prayer", "slide", None, Some("Opening Prayer\nLet us pray together")));
    items.push(preset_item("Scripture — Psalm 23:1", "scripture", Some("Psalm 23:1"), Some("The Lord is my shepherd; I shall not want. — Psalm 23:1")));
    items.push(preset_item("Scripture — Psalm 23:2", "scripture", Some("Psalm 23:2"), Some("He makes me lie down in green pastures. — Psalm 23:2")));
    items.push(preset_item("Scripture — Psalm 23:4", "scripture", Some("Psalm 23:4"), Some("Even though I walk through the darkest valley… — Psalm 23:4")));
    items.push(preset_item("Prayer Requests", "slide", None, Some("Prayer Requests\nShare your burdens")));
    items.push(preset_item("Closing Blessing", "slide", None, Some("Go in peace — see you Sunday")));
    out.push(preset("midweek", "Midweek Prayer & Bible Study", "Midweek", "Opening prayer, verse-by-verse study and prayer requests.", "16:9", items));
    let mut items: Vec<ServicePresetItem> = Vec::new();
    items.push(preset_item("Welcome — Youth Night!", "slide", None, Some("YOUTH NIGHT\nAre you ready?")));
    items.push(preset_item("Upbeat Worship", "song", Some("youth-worship"), Some("This is the day the Lord has made\nWe will rejoice!")));
    items.push(preset_item("Game — Ice Breaker", "slide", None, Some("Quick Game\nTwo Truths & a Lie")));
    items.push(preset_item("Announcements", "slide", None, Some("Upcoming Events\nRetreat — Dec 12")));
    items.push(preset_item("Message — Live Boldly", "slide", None, Some("Live boldly for Christ\n1 Timothy 4:12")));
    out.push(preset("youth", "Youth Event — Upbeat Service", "Youth", "High-energy songs, games & announcements for youth night.", "16:9", items));
    let mut items: Vec<ServicePresetItem> = Vec::new();
    out.push(preset("blank", "Blank / Custom Service", "Custom", "Empty canvas — start from scratch.", "16:9", items));
    let ghost got = out@.map_values(|p: ServicePreset| preset_model(p));
    assert(got =~= default_preset_models()) by {
        assert forall|i: int| 0 <= i < got.len() implies got[i] =~~= default_preset_models()[i] by {
        }
    }
    out
}


// ---------------------------------------------------------------------------
// Library, templates, session and settings files
// ---------------------------------------------------------------------------

/// The song library file.
#[derive(Clone, Debug)]
pub struct Library {
    pub schema_version: u32,
    pub songs: Vec<LibrarySong>,
}

impl Default for Library {
    fn default() -> (r: Self)
        ensures
            r.schema_version == LIBRARY_SCHEMA_VERSION,
            r.songs.len() == 0,
    {
        Library { schema_version: LIBRARY_SCHEMA_VERSION, songs: Vec::new() }
    }
}

/// One slide of a reusable playlist structure (references, not media bytes).
#[derive(Clone, Debug)]
pub struct TemplateItem {
    pub title: String,
    pub body: String,
    pub background: Background,
    pub library_id: Option<String>,
    pub library_slide_id: Option<String>,
    pub auto_advance_secs: Option<u64>,
}

/// A named, reusable playlist (e.g. "Pre-Service Loop").
#[derive(Clone, Debug)]
pub struct PlaylistTemplate {
    pub id: String,
    pub name: String,
    pub created_at: String,
    pub items: Vec<TemplateItem>,
}

/// The playlist template file.
#[derive(Clone, Debug)]
pub struct TemplateStore {
    pub schema_version: u32,
    pub templates: Vec<PlaylistTemplate>,
}

impl Default for TemplateStore {
    fn default() -> (r: Self)
        ensures
            r.schema_version == SCHEMA_VERSION,
            r.templates.len() == 0,
    {
        TemplateStore { schema_version: SCHEMA_VERSION, templates: Vec::new() }
    }
}

/// Recovery bookkeeping.
#[derive(Clone, Debug)]
pub struct Session {
    pub project_path: Option<String>,
    pub last_saved_at: Option<String>,
    pub last_open_at: Option<String>,
    /// False until a clean exit is confirmed: detects crash recovery.
    pub clean_shutdown: bool,
}

impl Default for Session {
    fn default() -> (r: Self)
        ensures
            r.project_path is None,
            r.last_saved_at is None,
            r.last_open_at is None,
            !r.clean_shutdown,
    {
        Session { project_path: None, last_saved_at: None, last_open_at: None, clean_shutdown: false }
    }
}

/// Per-machine settings. The audio volume, a float, is kept beside them
/// by the application.
#[derive(Clone, Debug)]
pub struct Settings {
    pub output_display_index: Option<usize>,
    pub output_display_name: Option<String>,
    pub output_fullscreen: bool,
    pub stage_display_index: Option<usize>,
    pub stage_display_name: Option<String>,
    pub stage_visible: bool,
    /// Transition of newly created projects.
    pub default_transition: Transition,
    /// Look of the main Output window (`None`: the first look).
    pub output_look_id: Option<String>,
    /// Look of the Stage Display window.
    pub stage_look_id: Option<String>,
    /// NDI broadcast of the live slide on the LAN.
    pub ndi_enabled: bool,
    /// Look of the NDI feed (`None`: the first look).
    pub ndi_look_id: Option<String>,
    pub midi_enabled: bool,
    /// Stable port id of the selected MIDI input device.
    pub midi_device_id: Option<String>,
    pub osc_enabled: bool,
    /// UDP port of the OSC listener.
    pub osc_port: u16,
    /// Trigger-to-action mappings (MIDI and OSC).
    pub triggers: Vec<TriggerMapping>,
    /// The Stage Display web server for phones on the same network.
    pub stage_network_enabled: bool,
    pub stage_network_port: u16,
    /// PIN for the Stage Display feed; empty accepts any PIN.
    pub stage_network_pin: String,
    /// Selected audio output device.
    pub audio_output_device_id: Option<String>,
}

/// UDP port of the OSC listener unless one is given.
pub fn default_osc_port() -> (r: u16)
    ensures
        r == crate::osc::DEFAULT_OSC_PORT,
{
    crate::osc::DEFAULT_OSC_PORT
}

/// Port of the Stage Display server unless one is given.
pub fn default_stage_port() -> (r: u16)
    ensures
        r == crate::network::DEFAULT_STAGE_PORT,
{
    crate::network::DEFAULT_STAGE_PORT
}

impl Default for Settings {
    fn default() -> (r: Self)
        ensures
            r.output_display_index is None,
            r.output_display_name is None,
            !r.output_fullscreen,
            r.stage_display_index is None,
            r.stage_display_name is None,
            !r.stage_visible,
            r.default_transition == Transition::Cut,
            r.output_look_id is None,
            r.stage_look_id is None,
            !r.ndi_enabled,
            r.ndi_look_id is None,
            !r.midi_enabled,
            r.midi_device_id is None,
            !r.osc_enabled,
            r.osc_port == 9000,
            r.triggers.len() == 0,
            !r.stage_network_enabled,
            r.stage_network_port == crate::network::DEFAULT_STAGE_PORT,
            r.stage_network_pin@.len() == 0,
            r.audio_output_device_id is None,
    {
        Settings {
            output_display_index: None,
            output_display_name: None,
            output_fullscreen: false,
            stage_display_index: None,
            stage_display_name: None,
            stage_visible: false,
            default_transition: Transition::Cut,
            output_look_id: None,
            stage_look_id: None,
            ndi_enabled: false,
            ndi_look_id: None,
            midi_enabled: false,
            midi_device_id: None,
            osc_enabled: false,
            osc_port: 9000,
            triggers: Vec::new(),
            stage_network_enabled: false,
            stage_network_port: crate::network::DEFAULT_STAGE_PORT,
            stage_network_pin: String::new(),
            audio_output_device_id: None,
        }
    }
}

} // verus!
