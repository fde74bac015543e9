//! Editing the song library: finding and deleting songs, setting a song's
//! arrangement, migrating a loaded library, and the songs a new library
//! starts with.
use crate::commands::LibrarySlideInput;
use crate::project::{
    block_key, block_key_exec, is_default_background, opt_text, verse_label, KeyInfo, SlidePositioning,
    blocks_view, find_block, flattened, key_info, lit_string, migrate_all, name_list_s, opt_is, Background, Library,
    LibrarySlide, LibrarySong, LIBRARY_SCHEMA_VERSION,
};
use crate::scripture_import::{first_label, lemma_first_label_found, lemma_first_label_none};
use crate::text::{append, chars_of, dec, eq_chars, lit, push_dec, string_of, trim, trim_chars};
use vstd::prelude::*;

verus! {

/// Position of the first song with id `id`.
pub open spec fn song_pos(songs: Seq<LibrarySong>, id: Seq<char>) -> Option<int> {
    first_label(songs.map_values(|s: LibrarySong| (s.id@, ())), id)
}

/// Position of the first song with id `id`.
pub fn song_position(songs: &Vec<LibrarySong>, id: &str) -> (r: Option<usize>)
    ensures
        match r {
            Some(i) => i < songs.len() && song_pos(songs@, id@) == Some(i as int),
            None => song_pos(songs@, id@) is None,
        },
{
    let ghost m = songs@.map_values(|s: LibrarySong| (s.id@, ()));
    let target = chars_of(id);
    let mut i: usize = 0;
    while i < songs.len()
        invariant
            i <= songs.len(),
            m == songs@.map_values(|s: LibrarySong| (s.id@, ())),
            target@ == id@,
            forall|j: int| 0 <= j < i ==> #[trigger] m[j].0 != id@,
        decreases songs.len() - i,
    {
        assert(m[i as int].0 == songs@[i as int].id@);
        if eq_chars(&chars_of(songs[i].id.as_str()), &target) {
            proof {
                lemma_first_label_found(m, id@, i as int);
            }
            return Some(i);
        }
        i = i + 1;
    }
    proof {
        lemma_first_label_none(m, id@);
    }
    None
}

/// `"library song <id> not found"`.
pub open spec fn song_not_found_message(id: Seq<char>) -> Seq<char> {
    "library song "@ + id + " not found"@
}

fn song_not_found(id: &str) -> (r: String)
    ensures
        r@ == song_not_found_message(id@),
{
    let mut m = lit("library song ");
    append(&mut m, &chars_of(id));
    append(&mut m, &lit(" not found"));
    string_of(&m)
}

/// The songs without those whose id is `id`, in order.
pub open spec fn songs_without(ss: Seq<LibrarySong>, id: Seq<char>) -> Seq<LibrarySong>
    decreases ss.len(),
{
    if ss.len() == 0 {
        seq![]
    } else if ss.last().id@ == id {
        songs_without(ss.drop_last(), id)
    } else {
        songs_without(ss.drop_last(), id).push(ss.last())
    }
}

/// Delete every song with id `id`; none: refused, nothing changes.
pub fn delete_song(songs: &mut Vec<LibrarySong>, id: &str) -> (r: Result<(), String>)
    ensures
        song_pos(old(songs)@, id@) is None ==> (r matches Err(e) && e@ == song_not_found_message(id@)
            && final(songs)@ == old(songs)@),
        song_pos(old(songs)@, id@) is Some ==> r is Ok && final(songs)@ == songs_without(old(songs)@, id@),
{
    if song_position(songs, id).is_none() {
        return Err(song_not_found(id));
    }
    let target = chars_of(id);
    let ghost all = songs@;
    let n = songs.len();
    let mut taken_out: Vec<LibrarySong> = Vec::new();
    std::mem::swap(songs, &mut taken_out);
    let mut rev = crate::scripture_import::into_reversed(taken_out);
    let mut kept: Vec<LibrarySong> = Vec::new();
    let mut k: usize = 0;
    assert(all.take(0) =~= Seq::<LibrarySong>::empty());
    while rev.len() > 0
        invariant
            k + rev.len() == n,
            all.len() == n,
            target@ == id@,
            forall|q: int| 0 <= q < rev.len() ==> #[trigger] rev@[q] == all[n - 1 - q],
            kept@ == songs_without(all.take(k as int), id@),
        decreases rev.len(),
    {
        let s = rev.pop().unwrap();
        assert(all.take(k + 1).drop_last() =~= all.take(k as int));
        assert(all.take(k + 1).last() == s);
        if !eq_chars(&chars_of(s.id.as_str()), &target) {
            kept.push(s);
        }
        k = k + 1;
    }
    assert(all.take(n as int) =~= all);
    *songs = kept;
    Ok(())
}

/// Position of the first key that names no block.
pub open spec fn first_unknown_key(bs: Seq<(String, LibrarySlide)>, keys: Seq<Seq<char>>) -> Option<int>
    decreases keys.len(),
{
    if keys.len() == 0 {
        None
    } else {
        match first_unknown_key(bs, keys.drop_last()) {
            Some(i) => Some(i),
            None => if first_label(key_info(blocks_view(bs)), keys.last()) is None {
                Some(keys.len() - 1)
            } else {
                None
            },
        }
    }
}

/// `"block \"<key>\" not found in song \"<title>\""`.
pub open spec fn unknown_block_message(key: Seq<char>, title: Seq<char>) -> Seq<char> {
    "block \""@ + key + "\" not found in song \""@ + title + "\""@
}

/// Set the arrangement of the first song with id `id`: refused when empty,
/// when there is no such song, or at the first key that names none of its
/// blocks; otherwise it replaces the song's arrangement.
pub fn set_arrangement(songs: &mut Vec<LibrarySong>, id: &str, arrangement: Vec<String>) -> (r: Result<(), String>)
    ensures
        arrangement.len() == 0 ==> (r matches Err(e) && e@ == "arrangement must not be empty"@ && final(songs)@ == old(songs)@),
        arrangement.len() > 0 ==> match song_pos(old(songs)@, id@) {
            None => r matches Err(e) && e@ == song_not_found_message(id@) && final(songs)@ == old(songs)@,
            Some(i) => match first_unknown_key(old(songs)@[i].blocks@, name_list_s(arrangement@)) {
                Some(k) => r matches Err(e) && e@ == unknown_block_message(name_list_s(arrangement@)[k], old(songs)@[i].title@)
                    && final(songs)@ == old(songs)@,
                None => r is Ok && final(songs)@ == old(songs)@.update(i, LibrarySong { arrangement, ..old(songs)@[i] }),
            },
        },
{
    if arrangement.len() == 0 {
        return Err(lit_string("arrangement must not be empty"));
    }
    let i = match song_position(songs, id) {
        Some(i) => i,
        None => return Err(song_not_found(id)),
    };
    let ghost keys = name_list_s(arrangement@);
    let mut j: usize = 0;
    assert(keys.take(0) =~= Seq::<Seq<char>>::empty());
    while j < arrangement.len()
        invariant
            j <= arrangement.len(),
            i < songs.len(),
            songs@ == old(songs)@,
            song_pos(old(songs)@, id@) == Some(i as int),
            keys == name_list_s(arrangement@),
            first_unknown_key(songs@[i as int].blocks@, keys.take(j as int)) is None,
        decreases arrangement.len() - j,
    {
        assert(keys.take(j + 1).drop_last() =~= keys.take(j as int));
        let k = chars_of(arrangement[j].as_str());
        assert(keys.take(j + 1).last() == k@);
        if find_block(&songs[i].blocks, &k).is_none() {
            proof {
                assert(first_unknown_key(songs@[i as int].blocks@, keys.take(j + 1)) == Some(j as int));
                lemma_unknown_key_extends(songs@[i as int].blocks@, keys, j + 1);
            }
            let mut m = lit("block \"");
            append(&mut m, &k);
            append(&mut m, &lit("\" not found in song \""));
            append(&mut m, &chars_of(songs[i].title.as_str()));
            append(&mut m, &lit("\""));
            return Err(string_of(&m));
        }
        j = j + 1;
    }
    assert(keys.take(arrangement.len() as int) =~= keys);
    let mut s = songs.remove(i);
    let ghost s0 = s;
    s.arrangement = arrangement;
    songs.insert(i, s);
    assert(songs@ =~= old(songs)@.update(i as int, LibrarySong { arrangement: s.arrangement, ..s0 }));
    Ok(())
}

proof fn lemma_unknown_key_extends(bs: Seq<(String, LibrarySlide)>, keys: Seq<Seq<char>>, m: int)
    requires
        0 <= m <= keys.len(),
        first_unknown_key(bs, keys.take(m)) is Some,
    ensures
        first_unknown_key(bs, keys) == first_unknown_key(bs, keys.take(m)),
    decreases keys.len() - m,
{
    if m < keys.len() {
        assert(keys.take(keys.len() - 1).take(m) =~= keys.take(m));
        lemma_unknown_key_extends(bs, keys.take(keys.len() - 1), m);
        assert(keys.drop_last() =~= keys.take(keys.len() - 1));
    } else {
        assert(keys.take(m) =~= keys);
    }
}

/// A song that still has only the old flat slide list (and some slides).
pub open spec fn needs_migration(s: LibrarySong) -> bool {
    s.blocks.len() == 0 && (s.slides matches Some(v) && v.len() > 0)
}

/// `after` is `before` migrated (see `LibrarySong::migrate_if_needed`):
/// blocks and an arrangement built from the flat slides, which are dropped;
/// an empty flat list is dropped; any other song is unchanged.
pub open spec fn migrated_song(before: LibrarySong, after: LibrarySong) -> bool {
    &&& after.id == before.id
    &&& after.title == before.title
    &&& after.default_background == before.default_background
    &&& if before.blocks.len() > 0 || before.slides is None {
        after == before
    } else if !needs_migration(before) {
        after.slides is None && after.blocks == before.blocks && after.arrangement == before.arrangement
    } else {
        &&& after.slides is None
        &&& blocks_view(after.blocks@) == migrate_all(before.slides.unwrap()@).0
        &&& name_list_s(after.arrangement@) == migrate_all(before.slides.unwrap()@).1
    }
}

/// How many songs need migrating.
pub open spec fn migration_count(ss: Seq<LibrarySong>) -> nat
    decreases ss.len(),
{
    if ss.len() == 0 {
        0
    } else {
        migration_count(ss.drop_last()) + if needs_migration(ss.last()) { 1nat } else { 0nat }
    }
}

proof fn lemma_migration_count_bound(ss: Seq<LibrarySong>)
    ensures
        migration_count(ss) <= ss.len(),
    decreases ss.len(),
{
    if ss.len() > 0 {
        lemma_migration_count_bound(ss.drop_last());
    }
}

/// A loaded library brought up to date: every song is migrated, and the
/// schema version is raised when a song was migrated or the file was older.
/// Returns how many songs were migrated and whether the library changed
/// and should be written back.
pub fn migrate_library(library: &mut Library) -> (r: (usize, bool))
    requires
        forall|i: int| 0 <= i < old(library).songs.len() ==> ((#[trigger] old(library).songs@[i]).slides matches Some(v)
            ==> v.len() * 2 + 2 <= usize::MAX),
    ensures
        final(library).songs.len() == old(library).songs.len(),
        forall|i: int| 0 <= i < old(library).songs.len() ==> migrated_song(old(library).songs@[i], #[trigger] final(library).songs@[i]),
        r.0 == migration_count(old(library).songs@),
        r.1 == (r.0 > 0 || old(library).schema_version < LIBRARY_SCHEMA_VERSION),
        final(library).schema_version == (if r.1 { LIBRARY_SCHEMA_VERSION } else { old(library).schema_version }),
{
    let ghost orig = library.songs@;
    let n = library.songs.len();
    let mut migrated: usize = 0;
    let mut i: usize = 0;
    assert(orig.take(0) =~= Seq::<LibrarySong>::empty());
    while i < n
        invariant
            i <= n,
            n == orig.len(),
            orig == old(library).songs@,
            library.schema_version == old(library).schema_version,
            library.songs.len() == n,
            forall|q: int| 0 <= q < n ==> ((#[trigger] orig[q]).slides matches Some(v) ==> v.len() * 2 + 2 <= usize::MAX),
            forall|q: int| 0 <= q < i ==> migrated_song(orig[q], #[trigger] library.songs@[q]),
            forall|q: int| i <= q < n ==> #[trigger] library.songs@[q] == orig[q],
            migrated == migration_count(orig.take(i as int)),
            migrated <= i,
        decreases n - i,
    {
        let mut s = library.songs.remove(i);
        assert(s == orig[i as int]);
        let done = s.migrate_if_needed();
        assert(migrated_song(orig[i as int], s));
        assert(done == needs_migration(orig[i as int]));
        let ghost before = library.songs@;
        library.songs.insert(i, s);
        assert(orig.take(i + 1).drop_last() =~= orig.take(i as int));
        assert forall|q: int| 0 <= q < n && q != i implies #[trigger] library.songs@[q] == if q < i { before[q] } else { before[q - 1] } by {}
        if done {
            migrated = migrated + 1;
        }
        i = i + 1;
    }
    assert(orig.take(n as int) =~= orig);
    let bump = migrated > 0 || library.schema_version < LIBRARY_SCHEMA_VERSION;
    if bump {
        library.schema_version = LIBRARY_SCHEMA_VERSION;
    }
    (migrated, bump)
}

pub open spec fn amazing_grace_verse() -> Seq<char> {
    "Amazing grace, how sweet the sound\nThat saved a wretch like me\nI once was lost, but now am found\nWas blind, but now I see."@
}

pub open spec fn amazing_grace_chorus() -> Seq<char> {
    "Was grace that taught my heart to fear\nAnd grace my fears relieved\nHow precious did that grace appear\nThe hour I first believed."@
}

pub open spec fn faithfulness_verse() -> Seq<char> {
    "Great is Thy faithfulness, O God my Father\nThere is no shadow of turning with Thee\nThou changest not, Thy compassions, they fail not\nAs Thou hast been, Thou forever wilt be."@
}

pub open spec fn faithfulness_chorus() -> Seq<char> {
    "Great is Thy faithfulness!\nGreat is Thy faithfulness!\nMorning by morning new mercies I see\nAll I have needed Thy hand hath provided\nGreat is Thy faithfulness, Lord, unto me."@
}

/// A seeded block: filed and titled under `key`, labelled `key`, in group
/// `group`, with id `id`.
pub open spec fn seed_block(b: (String, LibrarySlide), key: Seq<char>, body: Seq<char>, group: Seq<char>, id: String) -> bool {
    &&& b.0@ == key
    &&& b.1.id == id
    &&& b.1.title@ == key
    &&& b.1.body@ == body
    &&& b.1.positioning is None
    &&& opt_is(b.1.group_id, group)
    &&& opt_is(b.1.group_label, key)
}

/// A seeded song: a verse and a chorus block played in that order on a
/// solid background.
pub open spec fn seed_song(s: LibrarySong, id: String, title: Seq<char>, color: Seq<char>, verse: Seq<char>, chorus: Seq<char>, verse_id: String, chorus_id: String) -> bool {
    &&& s.id == id
    &&& s.title@ == title
    &&& (s.default_background matches Background::Solid { color: c } && c@ == color)
    &&& s.slides is None
    &&& name_list_s(s.arrangement@) == seq!["Verse 1"@, "Chorus"@]
    &&& s.blocks.len() == 2
    &&& seed_block(s.blocks@[0], "Verse 1"@, verse, "verse-1"@, verse_id)
    &&& seed_block(s.blocks@[1], "Chorus"@, chorus, "chorus"@, chorus_id)
}

fn seed_slide(id: String, key: &str, body: &str, group: &str) -> (r: (String, LibrarySlide))
    ensures
        seed_block(r, key@, body@, group@, id),
{
    (lit_string(key), LibrarySlide {
        id,
        title: lit_string(key),
        body: lit_string(body),
        positioning: None,
        group_id: Some(lit_string(group)),
        group_label: Some(lit_string(key)),
    })
}

fn seed_song_of(id: String, title: &str, color: &str, verse: (String, LibrarySlide), chorus: (String, LibrarySlide)) -> (r: LibrarySong)
    ensures
        r.id == id,
        r.title@ == title@,
        r.default_background matches Background::Solid { color: c } && c@ == color@,
        r.slides is None,
        name_list_s(r.arrangement@) == seq!["Verse 1"@, "Chorus"@],
        r.blocks@ == seq![verse, chorus],
{
    let arrangement = vec![lit_string("Verse 1"), lit_string("Chorus")];
    assert(name_list_s(arrangement@) =~= seq!["Verse 1"@, "Chorus"@]);
    LibrarySong {
        id,
        title: lit_string(title),
        default_background: Background::Solid { color: lit_string(color) },
        blocks: vec![verse, chorus],
        arrangement,
        slides: None,
    }
}

/// The library a first launch starts with, given the ids to use (four
/// blocks, then the two songs): "Amazing Grace" and "Great Is Thy
/// Faithfulness", each a verse and a chorus.
pub fn seed_library_with_ids(ids: Vec<String>) -> (r: Library)
    requires
        ids.len() == 6,
    ensures
        r.schema_version == LIBRARY_SCHEMA_VERSION,
        r.songs.len() == 2,
        seed_song(r.songs@[0], ids@[4], "Amazing Grace"@, "#1f3a2f"@, amazing_grace_verse(), amazing_grace_chorus(), ids@[0], ids@[1]),
        seed_song(r.songs@[1], ids@[5], "Great Is Thy Faithfulness"@, "#0f2b4a"@, faithfulness_verse(), faithfulness_chorus(), ids@[2], ids@[3]),
{
    let ghost v = ids@;
    let mut rev = crate::scripture_import::into_reversed(ids);
    let id0 = rev.pop().unwrap();
    let id1 = rev.pop().unwrap();
    let id2 = rev.pop().unwrap();
    let id3 = rev.pop().unwrap();
    let id4 = rev.pop().unwrap();
    let id5 = rev.pop().unwrap();
    assert(id0 == v[0] && id1 == v[1] && id2 == v[2] && id3 == v[3] && id4 == v[4] && id5 == v[5]);
    proof {
        reveal_strlit("Verse 1");
        reveal_strlit("Chorus");
    }
    let ag_v = seed_slide(id0, "Verse 1", "Amazing grace, how sweet the sound\nThat saved a wretch like me\nI once was lost, but now am found\nWas blind, but now I see.", "verse-1");
    let ag_c = seed_slide(id1, "Chorus", "Was grace that taught my heart to fear\nAnd grace my fears relieved\nHow precious did that grace appear\nThe hour I first believed.", "chorus");
    let gf_v = seed_slide(id2, "Verse 1", "Great is Thy faithfulness, O God my Father\nThere is no shadow of turning with Thee\nThou changest not, Thy compassions, they fail not\nAs Thou hast been, Thou forever wilt be.", "verse-1");
    let gf_c = seed_slide(id3, "Chorus", "Great is Thy faithfulness!\nGreat is Thy faithfulness!\nMorning by morning new mercies I see\nAll I have needed Thy hand hath provided\nGreat is Thy faithfulness, Lord, unto me.", "chorus");
    let ag = seed_song_of(id4, "Amazing Grace", "#1f3a2f", ag_v, ag_c);
    let gf = seed_song_of(id5, "Great Is Thy Faithfulness", "#0f2b4a", gf_v, gf_c);
    Library { schema_version: LIBRARY_SCHEMA_VERSION, songs: vec![ag, gf] }
}

/// The first-launch library (see [`seed_library_with_ids`]) with fresh ids.
pub fn seed_library() -> (r: Library)
    ensures
        r.schema_version == LIBRARY_SCHEMA_VERSION,
        r.songs.len() == 2,
        exists|ids: Seq<String>| ids.len() == 6
            && (forall|k: int| 0 <= k < 6 ==> crate::triggers::is_uuid_text(#[trigger] ids[k]@))
            && seed_song(r.songs@[0], ids[4], "Amazing Grace"@, "#1f3a2f"@, amazing_grace_verse(), amazing_grace_chorus(), ids[0], ids[1])
            && #[trigger] seed_song(r.songs@[1], ids[5], "Great Is Thy Faithfulness"@, "#0f2b4a"@, faithfulness_verse(), faithfulness_chorus(), ids[2], ids[3]),
{
    let mut ids: Vec<String> = Vec::new();
    while ids.len() < 6
        invariant
            ids.len() <= 6,
            forall|k: int| 0 <= k < ids.len() ==> crate::triggers::is_uuid_text(#[trigger] ids@[k]@),
        decreases 6 - ids.len(),
    {
        ids.push(crate::triggers::new_uuid());
    }
    let ghost v = ids@;
    let r = seed_library_with_ids(ids);
    assert(seed_song(r.songs@[1], v[5], "Great Is Thy Faithfulness"@, "#0f2b4a"@, faithfulness_verse(), faithfulness_chorus(), v[2], v[3]));
    r
}

/// An editor slide as the model sees it: `(title, body, positioning, group
/// id, group label)`.
pub type InputM = (Seq<char>, Seq<char>, Option<SlidePositioning>, Option<Seq<char>>, Option<Seq<char>>);

pub open spec fn input_model(i: LibrarySlideInput) -> InputM {
    (i.title@, i.body@, i.positioning, opt_text(i.group_id), opt_text(i.group_label))
}

pub open spec fn inputs_model(v: Seq<LibrarySlideInput>) -> Seq<InputM> {
    v.map_values(|i: LibrarySlideInput| input_model(i))
}

/// A block made from an editor slide: `(key, id, body, positioning, group
/// id, group label)`; its title is its key.
pub type EditBlock = (Seq<char>, Seq<char>, Seq<char>, Option<SlidePositioning>, Seq<char>, Seq<char>);

pub open spec fn edit_info(bs: Seq<EditBlock>) -> KeyInfo {
    bs.map_values(|b: EditBlock| (b.0, (b.0, b.2)))
}

/// Editor slide `s` filed with block id `id`: its key is its title, or
/// `"Verse n"` (`n` the arrangement's new length) when blank; a different
/// body under a taken key gets the first free `"<key> (n)"`; a new key makes
/// a block, whose group id and label default to `"block-<number of
/// blocks>"` and the key.
pub open spec fn edit_step(st: (Seq<EditBlock>, Seq<Seq<char>>), s: InputM, id: Seq<char>) -> (Seq<EditBlock>, Seq<Seq<char>>) {
    let bs = st.0;
    let base = if trim(s.0).len() == 0 { verse_label((st.1.len() + 1) as nat) } else { s.0 };
    let k = block_key(edit_info(bs), base, seq![], s.1, false);
    let bs2 = if first_label(edit_info(bs), k) is None {
        bs.push((k, id, s.1, s.2, match s.3 {
            Some(g) => g,
            None => "block-"@ + dec((bs.len() + 1) as nat),
        }, match s.4 {
            Some(l) => l,
            None => k,
        }))
    } else {
        bs
    };
    (bs2, st.1.push(k))
}

pub open spec fn edit_run(ss: Seq<InputM>, ids: Seq<Seq<char>>) -> (Seq<EditBlock>, Seq<Seq<char>>)
    decreases ss.len(),
{
    if ss.len() == 0 {
        (seq![], seq![])
    } else {
        edit_step(edit_run(ss.drop_last(), ids), ss.last(), ids[ss.len() - 1])
    }
}

pub open spec fn edit_view(bs: Seq<(String, LibrarySlide)>) -> Seq<EditBlock> {
    bs.map_values(|p: (String, LibrarySlide)| (p.0@, p.1.id@, p.1.body@, p.1.positioning, match p.1.group_id {
        Some(g) => g@,
        None => seq![],
    }, match p.1.group_label {
        Some(l) => l@,
        None => seq![],
    }))
}

/// Blocks titled by their key, with a group id and label.
pub open spec fn edit_shaped(bs: Seq<(String, LibrarySlide)>) -> bool {
    forall|k: int|
        0 <= k < bs.len() ==> {
            &&& (#[trigger] bs[k]).1.title@ == bs[k].0@
            &&& bs[k].1.group_id is Some
            &&& bs[k].1.group_label is Some
        }
}

/// What the editor's new song gets: the blocks and arrangement its slides
/// make (see [`edit_step`]), or, with no slide list, one `"Verse 1"` block
/// holding `body` (group `"verse-1"`); an empty slide list is refused.
pub fn new_library_song_with_ids(
    title: String,
    body: Option<String>,
    background: Option<Background>,
    slides: Option<Vec<LibrarySlideInput>>,
    song_id: String,
    ids: Vec<String>,
) -> (r: Result<LibrarySong, String>)
    requires
        ids.len() == (match slides {
            Some(v) => v.len(),
            None => 1,
        }),
        ids.len() + 2 < usize::MAX,
    ensures
        slides matches Some(v) && v.len() == 0 ==> (r matches Err(e) && e@ == "no slides provided"@),
        !(slides matches Some(v) && v.len() == 0) ==> (r matches Ok(song) && {
            &&& song.id == song_id
            &&& song.title == title
            &&& (match background {
                Some(b) => song.default_background == b,
                None => is_default_background(song.default_background),
            })
            &&& song.slides is None
            &&& edit_shaped(song.blocks@)
            &&& match slides {
                Some(v) => edit_view(song.blocks@) == edit_run(inputs_model(v@), name_list_s(ids@)).0
                    && name_list_s(song.arrangement@) == edit_run(inputs_model(v@), name_list_s(ids@)).1,
                None => edit_view(song.blocks@) == seq![(
                    "Verse 1"@,
                    ids@[0]@,
                    match body {
                        Some(b) => b@,
                        None => Seq::<char>::empty(),
                    },
                    None::<SlidePositioning>,
                    "verse-1"@,
                    "Verse 1"@,
                )] && name_list_s(song.arrangement@) == seq!["Verse 1"@],
            }
        }),
{
    let default_background = match background {
        Some(b) => b,
        None => Background::default(),
    };
    let (blocks, arrangement) = match slides {
        Some(inputs) => {
            if inputs.len() == 0 {
                return Err(lit_string("no slides provided"));
            }
            edit_blocks(inputs, ids)
        },
        None => {
            let mut rev = crate::scripture_import::into_reversed(ids);
            let id = rev.pop().unwrap();
            let b = match body {
                Some(b) => b,
                None => {
                    let e = String::new();
                    assert(e@ =~= Seq::<char>::empty());
                    e
                },
            };
            let slide = LibrarySlide {
                id,
                title: lit_string("Verse 1"),
                body: b,
                positioning: None,
                group_id: Some(lit_string("verse-1")),
                group_label: Some(lit_string("Verse 1")),
            };
            let blocks = vec![(lit_string("Verse 1"), slide)];
            let arrangement = vec![lit_string("Verse 1")];
            assert(edit_view(blocks@) =~= seq![(
                "Verse 1"@,
                blocks@[0].1.id@,
                blocks@[0].1.body@,
                None::<SlidePositioning>,
                "verse-1"@,
                "Verse 1"@,
            )]);
            assert(name_list_s(arrangement@) =~= seq!["Verse 1"@]);
            (blocks, arrangement)
        },
    };
    Ok(LibrarySong { id: song_id, title, default_background, blocks, arrangement, slides: None })
}

fn edit_blocks(inputs: Vec<LibrarySlideInput>, ids: Vec<String>) -> (r: (Vec<(String, LibrarySlide)>, Vec<String>))
    requires
        ids.len() == inputs.len(),
        ids.len() + 2 < usize::MAX,
    ensures
        edit_shaped(r.0@),
        edit_view(r.0@) == edit_run(inputs_model(inputs@), name_list_s(ids@)).0,
        name_list_s(r.1@) == edit_run(inputs_model(inputs@), name_list_s(ids@)).1,
{
    let ghost ss = inputs_model(inputs@);
    let ghost idv = name_list_s(ids@);
    let n = inputs.len();
    let mut src = crate::scripture_import::into_reversed(inputs);
    let mut idsrc = crate::scripture_import::into_reversed(ids);
    let mut blocks: Vec<(String, LibrarySlide)> = Vec::new();
    let mut arrangement: Vec<String> = Vec::new();
    let mut i: usize = 0;
    assert(ss.take(0) =~= Seq::<InputM>::empty());
    assert(edit_view(blocks@) =~= Seq::<EditBlock>::empty());
    assert(name_list_s(arrangement@) =~= Seq::<Seq<char>>::empty());
    while src.len() > 0
        invariant
            i + src.len() == n,
            idsrc.len() == src.len(),
            ss.len() == n,
            idv.len() == n,
            n + 2 < usize::MAX,
            blocks.len() <= i,
            arrangement.len() == i,
            forall|k: int| 0 <= k < src.len() ==> input_model(#[trigger] src@[k]) == ss[n - 1 - k],
            forall|k: int| 0 <= k < idsrc.len() ==> (#[trigger] idsrc@[k])@ == idv[n - 1 - k],
            edit_shaped(blocks@),
            key_info(blocks_view(blocks@)) == edit_info(edit_view(blocks@)),
            edit_view(blocks@) == edit_run(ss.take(i as int), idv).0,
            name_list_s(arrangement@) == edit_run(ss.take(i as int), idv).1,
        decreases src.len(),
    {
        let input = src.pop().unwrap();
        let id = idsrc.pop().unwrap();
        assert(ss.take(i + 1).drop_last() =~= ss.take(i as int));
        assert(ss.take(i + 1).last() == input_model(input));
        assert(edit_run(ss.take(i + 1), idv) == edit_step(edit_run(ss.take(i as int), idv), input_model(input), idv[i as int])) by {
            assert(ss.take(i + 1).len() - 1 == i);
        }
        let ghost bs = edit_view(blocks@);
        let tc = chars_of(input.title.as_str());
        let base: Vec<char> = if trim_chars(&tc).len() == 0 {
            let mut v = lit("Verse ");
            push_dec(&mut v, (arrangement.len() + 1) as u64);
            v
        } else {
            tc
        };
        let k = block_key_exec(&blocks, base, &String::new(), &input.body, false);
        let ks = string_of(&k);
        match find_block(&blocks, &k) {
            None => {
                let gid = match input.group_id {
                    Some(g) => g,
                    None => {
                        let mut v = lit("block-");
                        push_dec(&mut v, (blocks.len() + 1) as u64);
                        string_of(&v)
                    },
                };
                let glabel = match input.group_label {
                    Some(l) => l,
                    None => string_of(&k),
                };
                let slide = LibrarySlide {
                    id,
                    title: string_of(&k),
                    body: input.body,
                    positioning: input.positioning,
                    group_id: Some(gid),
                    group_label: Some(glabel),
                };
                let ghost before = blocks@;
                blocks.push((string_of(&k), slide));
                assert(edit_view(blocks@) =~= edit_step(edit_run(ss.take(i as int), idv), input_model(input), idv[i as int]).0);
                assert(key_info(blocks_view(blocks@)) =~= edit_info(edit_view(blocks@)));
                assert(edit_shaped(blocks@)) by {
                    assert forall|q: int| 0 <= q < blocks@.len() implies {
                        &&& (#[trigger] blocks@[q]).1.title@ == blocks@[q].0@
                        &&& blocks@[q].1.group_id is Some
                        &&& blocks@[q].1.group_label is Some
                    } by {
                        if q < before.len() {
                            assert(blocks@[q] == before[q]);
                        }
                    }
                }
            },
            Some(_) => {},
        }
        let ghost abefore = name_list_s(arrangement@);
        arrangement.push(ks);
        assert(name_list_s(arrangement@) =~= abefore.push(k@));
        i = i + 1;
    }
    assert(ss.take(n as int) =~= ss);
    (blocks, arrangement)
}

/// The editor's new song (see [`new_library_song_with_ids`]) with fresh
/// ids.
pub fn new_library_song(
    title: String,
    body: Option<String>,
    background: Option<Background>,
    slides: Option<Vec<LibrarySlideInput>>,
) -> (r: Result<LibrarySong, String>)
    requires
        (match slides {
            Some(v) => v.len(),
            None => 1,
        }) + 2 < usize::MAX,
    ensures
        slides matches Some(v) && v.len() == 0 ==> (r matches Err(e) && e@ == "no slides provided"@),
        !(slides matches Some(v) && v.len() == 0) ==> (r matches Ok(song) && song.title == title && song.slides is None
            && edit_shaped(song.blocks@)
            && (slides matches Some(v) ==> exists|ids: Seq<Seq<char>>| ids.len() == v.len()
                && (forall|k: int| 0 <= k < ids.len() ==> crate::triggers::is_uuid_text(#[trigger] ids[k]))
                && #[trigger] edit_run(inputs_model(v@), ids) == (edit_view(song.blocks@), name_list_s(song.arrangement@)))),
{
    let n = match &slides {
        Some(v) => v.len(),
        None => 1,
    };
    let mut ids: Vec<String> = Vec::new();
    while ids.len() < n
        invariant
            ids.len() <= n,
            forall|k: int| 0 <= k < ids.len() ==> crate::triggers::is_uuid_text(#[trigger] ids@[k]@),
        decreases n - ids.len(),
    {
        ids.push(crate::triggers::new_uuid());
    }
    let ghost idv = name_list_s(ids@);
    assert(forall|k: int| 0 <= k < idv.len() ==> crate::triggers::is_uuid_text(#[trigger] idv[k]));
    let ghost sl = slides;
    let song_id = crate::triggers::new_uuid();
    let r = new_library_song_with_ids(title, body, background, slides, song_id, ids);
    proof {
        if let Some(v) = sl {
            if v.len() > 0 {
                let song = r.unwrap();
                assert(edit_run(inputs_model(v@), idv) == (edit_view(song.blocks@), name_list_s(song.arrangement@)));
            }
        }
    }
    r
}

/// A migrated song plays what the old flat list held: the same number of
/// slides, with the old slides' titles and bodies, in order.
pub proof fn law_migrated_song_plays_old_slides(before: LibrarySong, after: LibrarySong)
    requires
        needs_migration(before),
        migrated_song(before, after),
    ensures
        flattened(after).len() == before.slides.unwrap().len(),
        forall|i: int| 0 <= i < flattened(after).len() ==> (#[trigger] flattened(after)[i]).title@ == before.slides.unwrap()@[i].title@
            && flattened(after)[i].body@ == before.slides.unwrap()@[i].body@,
{
    let ss = before.slides.unwrap()@;
    crate::project::law_migration_preserves_playback(ss);
    assert(name_list_s(after.arrangement@).len() == after.arrangement.len());
    assert(after.arrangement.len() > 0);
}

/// The position of the block an arrangement key plays, in editor blocks.
pub open spec fn edit_pos(bs: Seq<EditBlock>, k: Seq<char>) -> Option<int> {
    first_label(edit_info(bs), k)
}

/// A song made in the editor plays what was entered: one arrangement entry
/// per entered slide, every entry names a block, no two blocks share a key,
/// and the block played at each position holds that slide's body.
pub proof fn law_editor_song_plays_input(ss: Seq<InputM>, ids: Seq<Seq<char>>)
    ensures
        edit_run(ss, ids).1.len() == ss.len(),
        forall|j: int| 0 <= j < ss.len() ==> ((#[trigger] edit_pos(edit_run(ss, ids).0, edit_run(ss, ids).1[j])) matches Some(p)
            && 0 <= p < edit_run(ss, ids).0.len() && edit_run(ss, ids).0[p].2 == ss[j].1),
        forall|a: int, b: int| 0 <= a < b < edit_run(ss, ids).0.len() ==> #[trigger] edit_run(ss, ids).0[a].0 != #[trigger] edit_run(ss, ids).0[b].0,
    decreases ss.len(),
{
    if ss.len() > 0 {
        law_editor_song_plays_input(ss.drop_last(), ids);
        let bs = edit_run(ss.drop_last(), ids).0;
        let arr = edit_run(ss.drop_last(), ids).1;
        let s = ss.last();
        let base = if trim(s.0).len() == 0 { verse_label((arr.len() + 1) as nat) } else { s.0 };
        let k = block_key(edit_info(bs), base, seq![], s.1, false);
        crate::project::lemma_block_key_sound(edit_info(bs), base, seq![], s.1, false);
        let bs2 = edit_run(ss, ids).0;
        let arr2 = edit_run(ss, ids).1;
        assert(arr2 == arr.push(k));
        match first_label(edit_info(bs), k) {
            None => {
                let nb = bs2[bs.len() as int];
                assert(bs2 == bs.push(nb));
                assert(nb.0 == k && nb.2 == s.1);
                assert(edit_info(bs2) =~= edit_info(bs).push((k, (k, s.1))));
                crate::scripture_import::lemma_first_label_push(edit_info(bs), (k, (k, s.1)), k);
                assert forall|j: int| 0 <= j < ss.len() implies ((#[trigger] edit_pos(bs2, arr2[j])) matches Some(p)
                    && 0 <= p < bs2.len() && bs2[p].2 == ss[j].1) by {
                    if j < ss.len() - 1 {
                        assert(arr2[j] == arr[j]);
                        assert(ss.drop_last()[j] == ss[j]);
                        crate::scripture_import::lemma_first_label_push(edit_info(bs), (k, (k, s.1)), arr[j]);
                        let p = edit_pos(bs, arr[j]).unwrap();
                        assert(bs2[p] == bs[p]);
                    } else {
                        assert(arr2[j] == k);
                    }
                }
                assert forall|a: int, b: int| 0 <= a < b < bs2.len() implies #[trigger] bs2[a].0 != #[trigger] bs2[b].0 by {
                    if b == bs.len() && bs2[a].0 == k {
                        assert(edit_info(bs)[a].0 == k);
                        crate::scripture_import::lemma_first_label_found(edit_info(bs), k, a);
                        let q = choose|q: int| 0 <= q < a && #[trigger] edit_info(bs)[q].0 == k;
                        crate::scripture_import::lemma_first_label_found(edit_info(bs), k, q);
                    }
                }
            },
            Some(p) => {
                assert(bs2 == bs);
                assert(edit_info(bs)[p].1.1 == bs[p].2);
                assert forall|j: int| 0 <= j < ss.len() implies ((#[trigger] edit_pos(bs2, arr2[j])) matches Some(q)
                    && 0 <= q < bs2.len() && bs2[q].2 == ss[j].1) by {
                    if j < ss.len() - 1 {
                        assert(arr2[j] == arr[j]);
                        assert(ss.drop_last()[j] == ss[j]);
                    } else {
                        assert(arr2[j] == k);
                    }
                }
            },
        }
    }
}

} // verus!
