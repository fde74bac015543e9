//! The scripture search index: every book of the loaded Bibles with its
//! chapters and verses, and a map from normalized names and abbreviations
//! ("jn", "1cor", "psalm") to the canonical book names they denote.
//!
//! A query names a book, optionally a chapter and a verse. An exact key
//! lists every book it denotes ("jud" is both Judges and Jude); otherwise
//! every book with a key that starts with the query is searched, in name
//! order.
use crate::scripture_books::{
    book_data_from, book_model, book_model_from, chapters_model, first_chapter_at, merge_book_data,
    merged_book_chapters, has_chapter_verse, law_merge_keeps_and_adds, BookData, BookM, ChapterM, RawBook, RawChapter, VerseM,
};
use crate::scripture_query::{parse_query, parsed_query};
use crate::text::{
    append, chars_of, dec, eq_chars, has_prefix, lit, lowercase, push_dec, starts_with, string_of,
    to_lowercase,
};
use vstd::prelude::*;

verus! {

// ---------------------------------------------------------------------------
// Ordering of names
// ---------------------------------------------------------------------------

/// Lexicographic order by code point, the order of `String`'s `Ord`
/// (UTF-8 byte order preserves code point order).
pub open spec fn seq_lt(a: Seq<char>, b: Seq<char>) -> bool
    decreases a.len(),
{
    if a.len() == 0 {
        b.len() > 0
    } else if b.len() == 0 {
        false
    } else if a[0] != b[0] {
        (a[0] as u32) < (b[0] as u32)
    } else {
        seq_lt(a.drop_first(), b.drop_first())
    }
}

pub proof fn lemma_seq_lt_irreflexive(a: Seq<char>)
    ensures
        !seq_lt(a, a),
    decreases a.len(),
{
    if a.len() > 0 {
        lemma_seq_lt_irreflexive(a.drop_first());
    }
}

pub proof fn lemma_seq_lt_transitive(a: Seq<char>, b: Seq<char>, c: Seq<char>)
    requires
        seq_lt(a, b),
        seq_lt(b, c),
    ensures
        seq_lt(a, c),
    decreases a.len(),
{
    if a.len() > 0 && b.len() > 0 && c.len() > 0 {
        if a[0] == b[0] && b[0] == c[0] {
            lemma_seq_lt_transitive(a.drop_first(), b.drop_first(), c.drop_first());
        }
    }
}

pub proof fn lemma_seq_lt_total(a: Seq<char>, b: Seq<char>)
    ensures
        a == b || seq_lt(a, b) || seq_lt(b, a),
    decreases a.len(),
{
    if a.len() > 0 && b.len() > 0 {
        if a[0] == b[0] {
            lemma_seq_lt_total(a.drop_first(), b.drop_first());
            if a.drop_first() == b.drop_first() {
                assert(a =~= seq![a[0]] + a.drop_first());
                assert(b =~= seq![b[0]] + b.drop_first());
            }
        } else {
            assert((a[0] as u32) != (b[0] as u32)) by {
                vstd::utf8::char_u32_cast(a[0], a[0] as u32);
                vstd::utf8::char_u32_cast(b[0], b[0] as u32);
            }
        }
    } else if a.len() == 0 && b.len() == 0 {
        assert(a =~= b);
    }
}

pub proof fn lemma_seq_lt_asymmetric(a: Seq<char>, b: Seq<char>)
    requires
        seq_lt(a, b),
    ensures
        !seq_lt(b, a),
{
    if seq_lt(b, a) {
        lemma_seq_lt_transitive(a, b, a);
        lemma_seq_lt_irreflexive(a);
    }
}

/// The names held by a list of character vectors.
pub open spec fn name_list(v: Seq<Vec<char>>) -> Seq<Seq<char>> {
    v.map_values(|l: Vec<char>| l@)
}

/// Strictly increasing, hence free of duplicates.
pub open spec fn strictly_sorted(s: Seq<Seq<char>>) -> bool {
    forall|i: int, j: int| 0 <= i < j < s.len() ==> seq_lt(s[i], s[j])
}

/// Two strictly sorted lists with the same members are the same list.
pub proof fn lemma_sorted_unique(a: Seq<Seq<char>>, b: Seq<Seq<char>>)
    requires
        strictly_sorted(a),
        strictly_sorted(b),
        forall|x: Seq<char>| a.contains(x) <==> b.contains(x),
    ensures
        a == b,
    decreases a.len(),
{
    if a.len() == 0 {
        if b.len() > 0 {
            assert(b.contains(b[0]));
        }
        assert(a =~= b);
    } else {
        assert(a.contains(a[0]));
        let j = choose|j: int| 0 <= j < b.len() && b[j] == a[0];
        assert(b.contains(b[0]));
        let i = choose|i: int| 0 <= i < a.len() && a[i] == b[0];
        if j > 0 {
            assert(seq_lt(b[0], b[j]));
            if i > 0 {
                assert(seq_lt(a[0], a[i]));
                lemma_seq_lt_asymmetric(b[0], a[0]);
            } else {
                lemma_seq_lt_irreflexive(a[0]);
            }
        }
        assert(b[0] == a[0]);
        let a1 = a.drop_first();
        let b1 = b.drop_first();
        assert forall|x: Seq<char>| a1.contains(x) <==> b1.contains(x) by {
            if a1.contains(x) {
                let k = choose|k: int| 0 <= k < a1.len() && a1[k] == x;
                assert(seq_lt(a[0], a[k + 1]));
                lemma_seq_lt_irreflexive(x);
                assert(b.contains(x));
                let m = choose|m: int| 0 <= m < b.len() && b[m] == x;
                assert(m != 0);
                assert(b1[m - 1] == x);
            }
            if b1.contains(x) {
                let k = choose|k: int| 0 <= k < b1.len() && b1[k] == x;
                assert(seq_lt(b[0], b[k + 1]));
                lemma_seq_lt_irreflexive(x);
                assert(a.contains(x));
                let m = choose|m: int| 0 <= m < a.len() && a[m] == x;
                assert(m != 0);
                assert(a1[m - 1] == x);
            }
        }
        lemma_sorted_unique(a1, b1);
        assert(a =~= seq![a[0]] + a1);
        assert(b =~= seq![b[0]] + b1);
    }
}

/// `x` added to a strictly sorted list at its place (nothing changes if it
/// is already there).
pub open spec fn insert_sorted(s: Seq<Seq<char>>, x: Seq<char>) -> Seq<Seq<char>>
    decreases s.len(),
{
    if s.len() == 0 {
        seq![x]
    } else if s[0] == x {
        s
    } else if seq_lt(x, s[0]) {
        seq![x] + s
    } else {
        seq![s[0]] + insert_sorted(s.drop_first(), x)
    }
}

proof fn lemma_insert_sorted(s: Seq<Seq<char>>, x: Seq<char>)
    requires
        strictly_sorted(s),
    ensures
        strictly_sorted(insert_sorted(s, x)),
        forall|y: Seq<char>| #[trigger] insert_sorted(s, x).contains(y) <==> (s.contains(y) || y == x),
    decreases s.len(),
{
    let r = insert_sorted(s, x);
    if s.len() == 0 {
        assert forall|y: Seq<char>| r.contains(y) <==> (s.contains(y) || y == x) by {
            if y == x {
                assert(r[0] == y);
            }
        }
    } else if s[0] == x {
        assert forall|y: Seq<char>| r.contains(y) <==> (s.contains(y) || y == x) by {
            if y == x {
                assert(s[0] == y);
            }
        }
    } else if seq_lt(x, s[0]) {
        assert forall|i: int, j: int| 0 <= i < j < r.len() implies seq_lt(r[i], r[j]) by {
            if i == 0 {
                if j > 1 {
                    lemma_seq_lt_transitive(x, s[0], s[j - 1]);
                }
            } else {
                assert(r[i] == s[i - 1] && r[j] == s[j - 1]);
            }
        }
        assert forall|y: Seq<char>| r.contains(y) <==> (s.contains(y) || y == x) by {
            if r.contains(y) {
                let k = choose|k: int| 0 <= k < r.len() && r[k] == y;
                if k > 0 {
                    assert(s[k - 1] == y);
                }
            }
            if s.contains(y) {
                let k = choose|k: int| 0 <= k < s.len() && s[k] == y;
                assert(r[k + 1] == y);
            }
            if y == x {
                assert(r[0] == y);
            }
        }
    } else {
        let t = s.drop_first();
        assert(strictly_sorted(t)) by {
            assert forall|i: int, j: int| 0 <= i < j < t.len() implies seq_lt(t[i], t[j]) by {
                assert(t[i] == s[i + 1] && t[j] == s[j + 1]);
            }
        }
        lemma_insert_sorted(t, x);
        let it = insert_sorted(t, x);
        lemma_seq_lt_total(x, s[0]);
        assert forall|i: int, j: int| 0 <= i < j < r.len() implies seq_lt(r[i], r[j]) by {
            if i == 0 {
                assert(r[0] == s[0]);
                assert(r[j] == it[j - 1]);
                assert(it.contains(it[j - 1]));
                if it[j - 1] == x {
                } else {
                    assert(t.contains(it[j - 1]));
                    let kk = choose|kk: int| 0 <= kk < t.len() && t[kk] == it[j - 1];
                    assert(s[kk + 1] == it[j - 1]);
                    assert(seq_lt(s[0], s[kk + 1]));
                }
            } else {
                assert(r[i] == it[i - 1] && r[j] == it[j - 1]);
            }
        }
        assert forall|y: Seq<char>| r.contains(y) <==> (s.contains(y) || y == x) by {
            if r.contains(y) {
                let k = choose|k: int| 0 <= k < r.len() && r[k] == y;
                if k > 0 {
                    assert(r[k] == it[k - 1]);
                    assert(it.contains(y));
                    if t.contains(y) {
                        let kk = choose|kk: int| 0 <= kk < t.len() && t[kk] == y;
                        assert(s[kk + 1] == y);
                    }
                } else {
                    assert(s[0] == y);
                }
            }
            if s.contains(y) {
                let k = choose|k: int| 0 <= k < s.len() && s[k] == y;
                if k == 0 {
                    assert(r[0] == y);
                } else {
                    assert(t[k - 1] == y);
                    assert(t.contains(y));
                    assert(it.contains(y));
                    let kk = choose|kk: int| 0 <= kk < it.len() && it[kk] == y;
                    assert(r[kk + 1] == y);
                }
            }
            if y == x {
                assert(insert_sorted(t, x).contains(x));
                let kk = choose|kk: int| 0 <= kk < it.len() && it[kk] == x;
                assert(r[kk + 1] == x);
            }
        }
    }
}

/// `x < y` in name order.
pub(crate) fn name_lt(a: &Vec<char>, b: &Vec<char>) -> (r: bool)
    ensures
        r == seq_lt(a@, b@),
{
    proof {
        lemma_seq_lt_skip0(a@, b@);
    }
    let mut i: usize = 0;
    while i < a.len() && i < b.len()
        invariant
            i <= a.len(),
            i <= b.len(),
            seq_lt(a@, b@) == seq_lt(a@.skip(i as int), b@.skip(i as int)),
        decreases a.len() - i,
    {
        if a[i] != b[i] {
            proof {
                assert(a@.skip(i as int)[0] == a@[i as int]);
                assert(b@.skip(i as int)[0] == b@[i as int]);
            }
            return (a[i] as u32) < (b[i] as u32);
        }
        assert(a@.skip(i as int).drop_first() =~= a@.skip(i + 1));
        assert(b@.skip(i as int).drop_first() =~= b@.skip(i + 1));
        i = i + 1;
    }
    a.len() - i == 0 && b.len() - i > 0
}

proof fn lemma_seq_lt_skip0(a: Seq<char>, b: Seq<char>)
    ensures
        seq_lt(a, b) == seq_lt(a.skip(0), b.skip(0)),
{
    assert(a.skip(0) =~= a);
    assert(b.skip(0) =~= b);
}

/// Insert `x` into the strictly sorted `v` at its place.
fn insert_sorted_exec(v: &mut Vec<Vec<char>>, x: &Vec<char>)
    requires
        strictly_sorted(name_list(old(v)@)),
    ensures
        name_list(final(v)@) == insert_sorted(name_list(old(v)@), x@),
        strictly_sorted(name_list(final(v)@)),
{
    let ghost s = name_list(v@);
    proof {
        lemma_insert_sorted(s, x@);
    }
    let mut j: usize = 0;
    assert(s.take(0) + insert_sorted(s.skip(0), x@) =~= insert_sorted(s, x@)) by {
        assert(s.skip(0) =~= s);
    }
    while j < v.len()
        invariant
            j <= v.len(),
            s == name_list(v@),
            s == name_list(old(v)@),
            strictly_sorted(s),
            strictly_sorted(insert_sorted(s, x@)),
            forall|k: int| 0 <= k < j ==> seq_lt(#[trigger] s[k], x@),
            insert_sorted(s, x@) == s.take(j as int) + insert_sorted(s.skip(j as int), x@),
        decreases v.len() - j,
    {
        proof {
            lemma_seq_lt_skip0(x@, x@);
        }
        if eq_chars(&v[j], x) {
            proof {
                assert(s.skip(j as int)[0] == s[j as int]);
                assert(insert_sorted(s.skip(j as int), x@) == s.skip(j as int));
                assert(s.take(j as int) + s.skip(j as int) =~= s);
                assert(name_list(v@) == s);
            }
            return;
        }
        if name_lt(x, &v[j]) {
            proof {
                assert(s.skip(j as int)[0] == s[j as int]);
            }
            let ghost before = v@;
            v.insert(j, clone_chars(x));
            proof {
                assert(name_list(v@) =~= s.take(j as int) + (seq![x@] + s.skip(j as int)));
            }
            return;
        }
        proof {
            assert(s.skip(j as int)[0] == s[j as int]);
            lemma_seq_lt_total(s[j as int], x@);
            assert(s.skip(j as int).drop_first() =~= s.skip(j + 1));
            assert(s.take(j as int) + (seq![s[j as int]] + insert_sorted(s.skip(j + 1), x@)) =~= s.take(j + 1) + insert_sorted(s.skip(j + 1), x@));
        }
        j = j + 1;
    }
    proof {
        assert(s.skip(j as int) =~= Seq::<Seq<char>>::empty());
        assert(s.take(j as int) =~= s);
    }
    v.push(clone_chars(x));
    assert(name_list(v@) =~= s + seq![x@]);
}

// ---------------------------------------------------------------------------
// The name map
// ---------------------------------------------------------------------------

/// Normalized book key: lower-cased, spaces removed.
pub open spec fn norm_key(raw: Seq<char>) -> Seq<char> {
    lowercase(raw).filter(|c: char| c != ' ')
}

struct NameEntry {
    key: Vec<char>,
    names: Vec<Vec<char>>,
}

spec fn entry_names(e: NameEntry) -> Seq<Seq<char>> {
    name_list(e.names@)
}

spec fn alias_map(es: Seq<NameEntry>) -> Map<Seq<char>, Seq<Seq<char>>>
    decreases es.len(),
{
    if es.len() == 0 {
        Map::empty()
    } else {
        alias_map(es.drop_last()).insert(es.last().key@, entry_names(es.last()))
    }
}

spec fn keys_unique(es: Seq<NameEntry>) -> bool {
    forall|i: int, j: int| 0 <= i < j < es.len() ==> es[i].key@ != es[j].key@
}

spec fn entries_sorted(es: Seq<NameEntry>) -> bool {
    forall|i: int| 0 <= i < es.len() ==> strictly_sorted(#[trigger] entry_names(es[i]))
}

proof fn lemma_alias_map(es: Seq<NameEntry>)
    requires
        keys_unique(es),
    ensures
        forall|k: Seq<char>| alias_map(es).contains_key(k) <==> exists|i: int| 0 <= i < es.len() && #[trigger] es[i].key@ == k,
        forall|i: int| 0 <= i < es.len() ==> alias_map(es)[#[trigger] es[i].key@] == entry_names(es[i]),
    decreases es.len(),
{
    if es.len() > 0 {
        let p = es.drop_last();
        assert(keys_unique(p)) by {
            assert forall|i: int, j: int| 0 <= i < j < p.len() implies p[i].key@ != p[j].key@ by {
                assert(p[i] == es[i] && p[j] == es[j]);
            }
        }
        lemma_alias_map(p);
        assert forall|k: Seq<char>| alias_map(es).contains_key(k) <==> exists|i: int| 0 <= i < es.len() && #[trigger] es[i].key@ == k by {
            if alias_map(p).contains_key(k) {
                let i = choose|i: int| 0 <= i < p.len() && #[trigger] p[i].key@ == k;
                assert(es[i] == p[i]);
            }
            if exists|i: int| 0 <= i < es.len() && #[trigger] es[i].key@ == k {
                let i = choose|i: int| 0 <= i < es.len() && #[trigger] es[i].key@ == k;
                if i < es.len() - 1 {
                    assert(p[i] == es[i]);
                }
            }
        }
        assert forall|i: int| 0 <= i < es.len() implies alias_map(es)[#[trigger] es[i].key@] == entry_names(es[i]) by {
            if i < es.len() - 1 {
                assert(p[i] == es[i]);
                assert(es[i].key@ != es.last().key@);
            }
        }
    }
}

/// `name` registered under `key` (kept sorted, without duplicates).
pub open spec fn register(m: Map<Seq<char>, Seq<Seq<char>>>, key: Seq<char>, name: Seq<char>) -> Map<Seq<char>, Seq<Seq<char>>> {
    m.insert(key, insert_sorted(if m.contains_key(key) { m[key] } else { seq![] }, name))
}

fn normalize_key(raw: &Vec<char>) -> (r: Vec<char>)
    ensures
        r@ == norm_key(raw@),
{
    let low = to_lowercase(raw);
    let ghost f = |c: char| c != ' ';
    let mut r: Vec<char> = Vec::new();
    let mut i: usize = 0;
    while i < low.len()
        invariant
            i <= low.len(),
            f == (|c: char| c != ' '),
            r@ == low@.take(i as int).filter(f),
        decreases low.len() - i,
    {
        proof {
            reveal(Seq::filter);
        }
        assert(low@.take(i + 1).drop_last() =~= low@.take(i as int));
        if low[i] != ' ' {
            r.push(low[i]);
        }
        i = i + 1;
    }
    assert(low@.take(low.len() as int) =~= low@);
    r
}

/// Register `canonical` under the normalized form of `key`.
fn add_alias(name_map: &mut Vec<NameEntry>, key: &Vec<char>, canonical: &Vec<char>)
    requires
        keys_unique(old(name_map)@),
        entries_sorted(old(name_map)@),
    ensures
        keys_unique(final(name_map)@),
        entries_sorted(final(name_map)@),
        alias_map(final(name_map)@) == register(alias_map(old(name_map)@), norm_key(key@), canonical@),
{
    let k = normalize_key(key);
    let ghost es = name_map@;
    proof {
        lemma_alias_map(es);
    }
    let mut i: usize = 0;
    while i < name_map.len()
        invariant
            i <= name_map.len(),
            k@ == norm_key(key@),
            es == name_map@,
            es == old(name_map)@,
            keys_unique(es),
            entries_sorted(es),
            forall|j: int| 0 <= j < i ==> #[trigger] es[j].key@ != k@,
        decreases name_map.len() - i,
    {
        if eq_chars(&name_map[i].key, &k) {
            let mut e = name_map.remove(i);
            proof {
                lemma_alias_map(es);
                assert(e == es[i as int]);
                assert(strictly_sorted(entry_names(es[i as int])));
            }
            insert_sorted_exec(&mut e.names, canonical);
            assert(e.key@ == es[i as int].key@);
            name_map.insert(i, e);
            let ghost es2 = name_map@;
            proof {
                assert(es2 =~= es.update(i as int, e));
                assert(keys_unique(es2)) by {
                    assert forall|a: int, b: int| 0 <= a < b < es2.len() implies es2[a].key@ != es2[b].key@ by {
                        assert(es2[a].key@ == es[a].key@);
                        assert(es2[b].key@ == es[b].key@);
                    }
                }
                assert(entries_sorted(es2)) by {
                    assert forall|a: int| 0 <= a < es2.len() implies strictly_sorted(#[trigger] entry_names(es2[a])) by {
                        if a != i {
                            assert(es2[a] == es[a]);
                        }
                    }
                }
                lemma_alias_map(es2);
                assert(alias_map(es2) =~= register(alias_map(es), k@, canonical@)) by {
                    assert forall|kk: Seq<char>| alias_map(es2).contains_key(kk) <==> register(alias_map(es), k@, canonical@).contains_key(kk) by {
                        if alias_map(es2).contains_key(kk) {
                            let j = choose|j: int| 0 <= j < es2.len() && #[trigger] es2[j].key@ == kk;
                            assert(es[j].key@ == kk);
                        }
                        if alias_map(es).contains_key(kk) {
                            let j = choose|j: int| 0 <= j < es.len() && #[trigger] es[j].key@ == kk;
                            assert(es2[j].key@ == kk);
                        }
                    }
                    assert forall|kk: Seq<char>| #[trigger] alias_map(es2).contains_key(kk) implies alias_map(es2)[kk] == register(alias_map(es), k@, canonical@)[kk] by {
                        let j = choose|j: int| 0 <= j < es2.len() && #[trigger] es2[j].key@ == kk;
                        if j != i {
                            assert(es2[j] == es[j]);
                        }
                    }
                }
            }
            return;
        }
        i = i + 1;
    }
    let mut names: Vec<Vec<char>> = Vec::new();
    names.push(canonical.clone());
    let e = NameEntry { key: k, names };
    name_map.push(e);
    let ghost es2 = name_map@;
    proof {
        assert(es2 =~= es.push(e));
        assert(es2.drop_last() =~= es);
        assert(entry_names(e) =~= seq![canonical@]);
        assert(!alias_map(es).contains_key(k@));
        assert(keys_unique(es2)) by {
            assert forall|a: int, b: int| 0 <= a < b < es2.len() implies es2[a].key@ != es2[b].key@ by {
                if b == es.len() {
                    assert(es2[a] == es[a]);
                } else {
                    assert(es2[a] == es[a] && es2[b] == es[b]);
                }
            }
        }
        assert(entries_sorted(es2)) by {
            assert forall|a: int| 0 <= a < es2.len() implies strictly_sorted(#[trigger] entry_names(es2[a])) by {
                if a < es.len() {
                    assert(es2[a] == es[a]);
                }
            }
        }
    }
}

// ---------------------------------------------------------------------------
// The index
// ---------------------------------------------------------------------------

/// A verse found by a search: `reference` reads e.g. `"John 3:16"`.
#[derive(Debug)]
pub struct ScriptureMatch {
    pub book: String,
    pub chapter: u32,
    pub verse: u32,
    pub reference: String,
    pub text: String,
}

/// `(book, chapter, verse, reference, text)`.
pub type MatchM = (Seq<char>, u32, u32, Seq<char>, Seq<char>);

pub open spec fn match_model(m: ScriptureMatch) -> MatchM {
    (m.book@, m.chapter, m.verse, m.reference@, m.text@)
}

pub open spec fn matches_model(ms: Seq<ScriptureMatch>) -> Seq<MatchM> {
    ms.map_values(|m: ScriptureMatch| match_model(m))
}

/// The reference text `"<book> <chapter>:<verse>"`.
pub open spec fn reference_text(book: Seq<char>, c: u32, v: u32) -> Seq<char> {
    book + " "@ + dec(c as nat) + ":"@ + dec(v as nat)
}

pub open spec fn hit(book: Seq<char>, c: u32, v: u32, text: Seq<char>) -> MatchM {
    (book, c, v, reference_text(book, c, v), text)
}

/// Hits for `chapter:verse` among the verses of one chapter numbered `c`.
pub open spec fn verse_number_hits(book: Seq<char>, c: u32, v: u32, vs: Seq<VerseM>) -> Seq<MatchM>
    decreases vs.len(),
{
    if vs.len() == 0 {
        seq![]
    } else {
        let rest = verse_number_hits(book, c, v, vs.drop_last());
        if vs.last().0 == v {
            rest.push(hit(book, c, v, vs.last().1))
        } else {
            rest
        }
    }
}

/// Hits listing verses in order (used for the first verses of a chapter).
pub open spec fn verse_list_hits(book: Seq<char>, c: u32, vs: Seq<VerseM>) -> Seq<MatchM> {
    vs.map_values(|x: VerseM| hit(book, c, x.0, x.1))
}

/// What one chapter contributes to a search: every verse `v` of chapter
/// `c` for `c:v`; the first five verses of chapter `c` for a bare `c`; the
/// first verse of chapter 1 when no chapter was asked for.
pub open spec fn chapter_hits(book: Seq<char>, ch: ChapterM, chapter: Option<u32>, verse: Option<u32>) -> Seq<MatchM> {
    match chapter {
        Some(c) => if ch.0 == c {
            match verse {
                Some(v) => verse_number_hits(book, c, v, ch.1),
                None => verse_list_hits(book, c, if ch.1.len() <= 5 { ch.1 } else { ch.1.take(5) }),
            }
        } else {
            seq![]
        },
        None => if ch.0 == 1 && ch.1.len() > 0 {
            seq![hit(book, 1, ch.1[0].0, ch.1[0].1)]
        } else {
            seq![]
        },
    }
}

/// Every hit in a book, chapter by chapter.
pub open spec fn book_hits(b: BookM, chs: Seq<ChapterM>, chapter: Option<u32>, verse: Option<u32>) -> Seq<MatchM>
    decreases chs.len(),
{
    if chs.len() == 0 {
        seq![]
    } else {
        book_hits(b, chs.drop_last(), chapter, verse) + chapter_hits(b.0, chs.last(), chapter, verse)
    }
}

/// A query that names only a book is answered, from each chapter, by the
/// first verse of chapter 1 (as `"<book> 1:<verse>"`), and by nothing from
/// any other chapter or from an empty chapter 1.
pub proof fn law_book_query_gives_first_verse(book: Seq<char>, ch: ChapterM, verse: Option<u32>)
    ensures
        ch.0 == 1 && ch.1.len() > 0 ==> chapter_hits(book, ch, None, verse) == seq![
            (book, 1u32, ch.1[0].0, book + " 1:"@ + dec(ch.1[0].0 as nat), ch.1[0].1)],
        !(ch.0 == 1 && ch.1.len() > 0) ==> chapter_hits(book, ch, None, verse).len() == 0,
{
    reveal_strlit(" 1:");
    reveal_strlit(" ");
    reveal_strlit(":");
    assert(dec(1) =~= seq!['1']);
    assert(" "@ + dec(1) + ":"@ =~= " 1:"@);
    assert(book + " "@ + dec(1) + ":"@ + dec(ch.1[0].0 as nat) =~= book + " 1:"@ + dec(ch.1[0].0 as nat));
}

/// In a book whose only chapter numbered 1 is `chs[k]`, and which has
/// verses, a query naming only the book finds exactly that chapter's first
/// verse.
pub proof fn law_book_query_finds_first_verse_of_chapter_one(b: BookM, chs: Seq<ChapterM>, k: int, verse: Option<u32>)
    requires
        0 <= k < chs.len(),
        chs[k].0 == 1,
        chs[k].1.len() > 0,
        forall|j: int| 0 <= j < chs.len() && j != k ==> #[trigger] chs[j].0 != 1,
    ensures
        book_hits(b, chs, None, verse) == seq![
            (b.0, 1u32, chs[k].1[0].0, b.0 + " 1:"@ + dec(chs[k].1[0].0 as nat), chs[k].1[0].1)],
    decreases chs.len(),
{
    let first = chs[k];
    law_book_query_gives_first_verse(b.0, first, verse);
    if k == chs.len() - 1 {
        lemma_book_query_no_hits(b, chs.drop_last(), verse);
        assert(book_hits(b, chs, None, verse) =~= book_hits(b, chs.drop_last(), None, verse)
            + chapter_hits(b.0, chs.last(), None, verse));
    } else {
        let last = chs.last();
        assert(last.0 != 1);
        law_book_query_gives_first_verse(b.0, last, verse);
        assert forall|j: int| 0 <= j < chs.drop_last().len() && j != k implies #[trigger] chs.drop_last()[j].0 != 1 by {
            assert(chs.drop_last()[j] == chs[j]);
        }
        law_book_query_finds_first_verse_of_chapter_one(b, chs.drop_last(), k, verse);
        assert(book_hits(b, chs, None, verse) =~= book_hits(b, chs.drop_last(), None, verse)
            + chapter_hits(b.0, last, None, verse));
    }
}

proof fn lemma_book_query_no_hits(b: BookM, chs: Seq<ChapterM>, verse: Option<u32>)
    requires
        forall|j: int| 0 <= j < chs.len() ==> #[trigger] chs[j].0 != 1,
    ensures
        book_hits(b, chs, None, verse) == Seq::<MatchM>::empty(),
    decreases chs.len(),
{
    if chs.len() > 0 {
        assert forall|j: int| 0 <= j < chs.drop_last().len() implies #[trigger] chs.drop_last()[j].0 != 1 by {
            assert(chs.drop_last()[j] == chs[j]);
        }
        lemma_book_query_no_hits(b, chs.drop_last(), verse);
        law_book_query_gives_first_verse(b.0, chs.last(), verse);
        assert(book_hits(b, chs, None, verse) =~= Seq::<MatchM>::empty());
    }
}

/// `acc` with hits appended for as long as it is shorter than `limit`.
pub open spec fn fill(acc: Seq<MatchM>, hits: Seq<MatchM>, limit: int) -> Seq<MatchM> {
    let room = if limit > acc.len() { limit - acc.len() } else { 0 };
    acc + (if hits.len() <= room { hits } else { hits.take(room) })
}

pub proof fn lemma_fill_push(acc: Seq<MatchM>, hs: Seq<MatchM>, h: MatchM, limit: int)
    ensures
        fill(acc, hs.push(h), limit) == fill(fill(acc, hs, limit), seq![h], limit),
{
    assert(fill(acc, hs.push(h), limit) =~= fill(fill(acc, hs, limit), seq![h], limit));
}

pub proof fn lemma_fill_concat(acc: Seq<MatchM>, h1: Seq<MatchM>, h2: Seq<MatchM>, limit: int)
    ensures
        fill(acc, h1 + h2, limit) == fill(fill(acc, h1, limit), h2, limit),
{
    assert(fill(acc, h1 + h2, limit) =~= fill(fill(acc, h1, limit), h2, limit));
}

pub proof fn lemma_fill_empty(acc: Seq<MatchM>, limit: int)
    ensures
        fill(acc, seq![], limit) == acc,
{
    assert(fill(acc, seq![], limit) =~= acc);
}

/// Position of the book named `name`.
pub open spec fn book_pos(bs: Seq<BookM>, name: Seq<char>) -> Option<int>
    decreases bs.len(),
{
    if bs.len() == 0 {
        None
    } else if bs[0].0 == name {
        Some(0)
    } else {
        match book_pos(bs.drop_first(), name) {
            Some(i) => Some(i + 1),
            None => None,
        }
    }
}

proof fn lemma_book_pos_found(bs: Seq<BookM>, name: Seq<char>, i: int)
    requires
        0 <= i < bs.len(),
        bs[i].0 == name,
        forall|j: int| 0 <= j < i ==> #[trigger] bs[j].0 != name,
    ensures
        book_pos(bs, name) == Some(i),
    decreases i,
{
    if i > 0 {
        assert forall|j: int| 0 <= j < i - 1 implies #[trigger] bs.drop_first()[j].0 != name by {
            assert(bs.drop_first()[j] == bs[j + 1]);
        }
        lemma_book_pos_found(bs.drop_first(), name, i - 1);
    }
}

proof fn lemma_book_pos_none(bs: Seq<BookM>, name: Seq<char>)
    requires
        forall|j: int| 0 <= j < bs.len() ==> #[trigger] bs[j].0 != name,
    ensures
        book_pos(bs, name) == None::<int>,
    decreases bs.len(),
{
    if bs.len() > 0 {
        assert forall|j: int| 0 <= j < bs.len() - 1 implies #[trigger] bs.drop_first()[j].0 != name by {
            assert(bs.drop_first()[j] == bs[j + 1]);
        }
        lemma_book_pos_none(bs.drop_first(), name);
    }
}

/// The hits of the books named in `names`, in that order, for as long as
/// fewer than `limit` were found: each book adds at most the room left.
pub open spec fn search_fold(bs: Seq<BookM>, names: Seq<Seq<char>>, chapter: Option<u32>, verse: Option<u32>, limit: int) -> Seq<MatchM>
    decreases names.len(),
{
    if names.len() == 0 {
        seq![]
    } else {
        let acc = search_fold(bs, names.drop_last(), chapter, verse, limit);
        match book_pos(bs, names.last()) {
            Some(i) => fill(acc, book_hits(bs[i], bs[i].1, chapter, verse), limit),
            None => acc,
        }
    }
}

/// A name registered under some key that starts with `prefix`.
pub open spec fn prefix_candidate(m: Map<Seq<char>, Seq<Seq<char>>>, prefix: Seq<char>, n: Seq<char>) -> bool {
    exists|k: Seq<char>| m.contains_key(k) && has_prefix(k, prefix) && #[trigger] m[k].contains(n)
}

/// The candidate names of a prefix, in name order.
pub open spec fn prefix_candidates(m: Map<Seq<char>, Seq<Seq<char>>>, prefix: Seq<char>) -> Seq<Seq<char>> {
    choose|l: Seq<Seq<char>>| strictly_sorted(l) && (forall|n: Seq<char>| l.contains(n) <==> prefix_candidate(m, prefix, n))
}

/// What a search returns: nothing for a query without a book; the books of
/// an exact key; otherwise the books of every key the query starts.
pub open spec fn search_result(m: Map<Seq<char>, Seq<Seq<char>>>, bs: Seq<BookM>, query: Seq<char>, limit: int) -> Seq<MatchM> {
    let (key, chapter, verse) = parsed_query(query);
    if key.len() == 0 {
        seq![]
    } else if m.contains_key(key) {
        search_fold(bs, m[key], chapter, verse, limit)
    } else {
        search_fold(bs, prefix_candidates(m, key), chapter, verse, limit)
    }
}

/// The search index.
pub struct ScriptureIndex {
    name_map: Vec<NameEntry>,
    books: Vec<BookData>,
}

pub open spec fn books_view(bs: Seq<BookData>) -> Seq<BookM> {
    bs.map_values(|b: BookData| book_model(b))
}

pub open spec fn names_unique(bs: Seq<BookM>) -> bool {
    forall|i: int, j: int| 0 <= i < j < bs.len() ==> bs[i].0 != bs[j].0
}

/// Every name list of the map is in name order without duplicates.
pub open spec fn aliases_sorted(m: Map<Seq<char>, Seq<Seq<char>>>) -> bool {
    forall|k: Seq<char>| #[trigger] m.contains_key(k) ==> strictly_sorted(m[k])
}

/// A book folded into the index: merged verse by verse into the book of
/// the same name, or added; its name becomes a key of its own.
pub open spec fn books_after(bs: Seq<BookM>, raw: RawBook) -> Seq<BookM> {
    match book_model_from(raw) {
        None => bs,
        Some((name, chs)) => match book_pos(bs, name) {
            Some(i) => bs.update(i, (name, merged_book_chapters(bs[i].1, chs))),
            None => bs.push((name, chs)),
        },
    }
}

pub open spec fn aliases_after(m: Map<Seq<char>, Seq<Seq<char>>>, raw: RawBook) -> Map<Seq<char>, Seq<Seq<char>>> {
    match book_model_from(raw) {
        None => m,
        Some((name, _)) => register(m, norm_key(name), name),
    }
}

/// The books after folding in `raws`, in order.
pub open spec fn books_after_all(bs: Seq<BookM>, raws: Seq<RawBook>) -> Seq<BookM>
    decreases raws.len(),
{
    if raws.len() == 0 {
        bs
    } else {
        books_after(books_after_all(bs, raws.drop_last()), raws.last())
    }
}

pub open spec fn aliases_after_all(m: Map<Seq<char>, Seq<Seq<char>>>, raws: Seq<RawBook>) -> Map<Seq<char>, Seq<Seq<char>>>
    decreases raws.len(),
{
    if raws.len() == 0 {
        m
    } else {
        aliases_after(aliases_after_all(m, raws.drop_last()), raws.last())
    }
}

/// The keys of the abbreviation table: for each book its canonical name and
/// then its abbreviations, each registered for the canonical name.
pub open spec fn table_aliases(upto: int) -> Map<Seq<char>, Seq<Seq<char>>>
    decreases upto,
{
    if upto <= 0 {
        Map::empty()
    } else {
        let i = (upto - 1) as u8;
        register_all(register(table_aliases(upto - 1), norm_key(table_canon(i)), table_canon(i)), table_abbrevs(i), table_canon(i))
    }
}

/// Every abbreviation of `abbrevs` registered for `canon`.
pub open spec fn register_all(m: Map<Seq<char>, Seq<Seq<char>>>, abbrevs: Seq<Seq<char>>, canon: Seq<char>) -> Map<Seq<char>, Seq<Seq<char>>>
    decreases abbrevs.len(),
{
    if abbrevs.len() == 0 {
        m
    } else {
        register(register_all(m, abbrevs.drop_last(), canon), norm_key(abbrevs.last()), canon)
    }
}

/// Verses in all books of `raws`, counted as listed.
pub open spec fn raw_verse_count(raws: Seq<RawBook>) -> nat
    decreases raws.len(),
{
    if raws.len() == 0 {
        0
    } else {
        raw_verse_count(raws.drop_last()) + chapter_verse_count(raws.last().chapters@)
    }
}

pub open spec fn chapter_verse_count(cs: Seq<RawChapter>) -> nat
    decreases cs.len(),
{
    if cs.len() == 0 {
        0
    } else {
        chapter_verse_count(cs.drop_last()) + cs.last().verses@.len()
    }
}

/// Position of the book named `name`.
fn find_book(books: &Vec<BookData>, name: &Vec<char>) -> (r: Option<usize>)
    ensures
        match r {
            Some(k) => k < books.len() && book_pos(books_view(books@), name@) == Some(k as int),
            None => book_pos(books_view(books@), name@) == None::<int>,
        },
{
    let ghost bs = books_view(books@);
    let mut k: usize = 0;
    while k < books.len()
        invariant
            k <= books.len(),
            bs == books_view(books@),
            forall|j: int| 0 <= j < k ==> #[trigger] bs[j].0 != name@,
        decreases books.len() - k,
    {
        assert(bs[k as int].0 == books@[k as int].name@);
        if eq_chars(&chars_of(books[k].name.as_str()), name) {
            proof {
                lemma_book_pos_found(bs, name@, k as int);
            }
            return Some(k);
        }
        k = k + 1;
    }
    proof {
        lemma_book_pos_none(bs, name@);
    }
    None
}

pub(crate) fn clone_chars(v: &Vec<char>) -> (r: Vec<char>)
    ensures
        r@ == v@,
{
    let mut r: Vec<char> = Vec::new();
    append(&mut r, v);
    r
}

pub(crate) fn make_hit(name: &String, c: u32, v: u32, text: &String) -> (r: ScriptureMatch)
    ensures
        match_model(r) == hit(name@, c, v, text@),
{
    let mut reference = chars_of(name.as_str());
    append(&mut reference, &lit(" "));
    push_dec(&mut reference, c as u64);
    append(&mut reference, &lit(":"));
    push_dec(&mut reference, v as u64);
    ScriptureMatch {
        book: name.clone(),
        chapter: c,
        verse: v,
        reference: string_of(&reference),
        text: text.clone(),
    }
}

/// Push `h` unless `results` already holds `limit` matches.
fn push_capped(results: &mut Vec<ScriptureMatch>, h: ScriptureMatch, limit: usize)
    ensures
        matches_model(final(results)@) == fill(matches_model(old(results)@), seq![match_model(h)], limit as int),
{
    let ghost before = matches_model(results@);
    if results.len() < limit {
        results.push(h);
        assert(matches_model(results@) =~= fill(before, seq![match_model(h)], limit as int));
    } else {
        assert(matches_model(results@) =~= fill(before, seq![match_model(h)], limit as int));
    }
}

proof fn limit_fits(acc: Seq<MatchM>, hits: Seq<MatchM>, limit: int)
    requires
        acc.len() <= limit,
    ensures
        fill(acc, hits, limit).len() <= limit,
{
}

impl ScriptureIndex {
    /// The name map: normalized key to the canonical names it denotes.
    pub closed spec fn aliases(&self) -> Map<Seq<char>, Seq<Seq<char>>> {
        alias_map(self.name_map@)
    }

    /// The books, in the order they were first added.
    pub closed spec fn books_model(&self) -> Seq<BookM> {
        books_view(self.books@)
    }

    /// Keys and book names are unique; name lists are sorted.
    pub closed spec fn wf(&self) -> bool {
        &&& keys_unique(self.name_map@)
        &&& entries_sorted(self.name_map@)
        &&& names_unique(self.books_model())
    }

    /// Every name list of a well-formed index is in name order.
    pub proof fn law_alias_lists_sorted(&self)
        requires
            self.wf(),
        ensures
            aliases_sorted(self.aliases()),
    {
        lemma_alias_map(self.name_map@);
        assert forall|k: Seq<char>| #[trigger] self.aliases().contains_key(k) implies strictly_sorted(self.aliases()[k]) by {
            let i = choose|i: int| 0 <= i < self.name_map@.len() && #[trigger] self.name_map@[i].key@ == k;
            assert(strictly_sorted(entry_names(self.name_map@[i])));
        }
    }

    /// Register a book, creating or extending its entry and making its
    /// canonical name searchable. Verse-level upsert: an import overwrites
    /// matching verses and keeps the rest of the book.
    fn add_book(name_map: &mut Vec<NameEntry>, books: &mut Vec<BookData>, raw: RawBook)
        requires
            keys_unique(old(name_map)@),
            entries_sorted(old(name_map)@),
            names_unique(books_view(old(books)@)),
        ensures
            keys_unique(final(name_map)@),
            entries_sorted(final(name_map)@),
            names_unique(books_view(final(books)@)),
            books_view(final(books)@) == books_after(books_view(old(books)@), raw),
            alias_map(final(name_map)@) == aliases_after(alias_map(old(name_map)@), raw),
    {
        let name = chars_of(raw.book.as_str());
        let ghost model = book_model_from(raw);
        let incoming = match book_data_from(raw) {
            Some(b) => b,
            None => return,
        };
        let ghost bs = books_view(books@);
        assert(incoming.name@ == name@);
        let mut i: usize = 0;
        while i < books.len()
            invariant
                i <= books.len(),
                bs == books_view(books@),
                bs == books_view(old(books)@),
                names_unique(bs),
                name_map@ == old(name_map)@,
                keys_unique(name_map@),
                entries_sorted(name_map@),
                incoming.name@ == name@,
                book_model_from(raw) == Some(book_model(incoming)),
                forall|j: int| 0 <= j < i ==> #[trigger] bs[j].0 != name@,
            decreases books.len() - i,
        {
            assert(bs[i as int].0 == books@[i as int].name@);
            if eq_chars(&chars_of(books[i].name.as_str()), &name) {
                proof {
                    lemma_book_pos_found(bs, name@, i as int);
                    assert(bs[i as int].0 == name@);
                }
                let mut b = books.remove(i);
                merge_book_data(&mut b, incoming);
                books.insert(i, b);
                proof {
                    let nb = books_view(books@);
                    assert(nb =~= bs.update(i as int, (name@, merged_book_chapters(bs[i as int].1, book_model(incoming).1))));
                    assert forall|a: int, c: int| 0 <= a < c < nb.len() implies nb[a].0 != nb[c].0 by {
                        assert(nb[a].0 == bs[a].0 && nb[c].0 == bs[c].0);
                    }
                }
                add_alias(name_map, &name, &name);
                return;
            }
            i = i + 1;
        }
        proof {
            lemma_book_pos_none(bs, name@);
        }
        books.push(incoming);
        proof {
            let nb = books_view(books@);
            assert(nb =~= bs.push(book_model(incoming)));
            assert forall|a: int, c: int| 0 <= a < c < nb.len() implies nb[a].0 != nb[c].0 by {
                if c < bs.len() {
                    assert(nb[a].0 == bs[a].0 && nb[c].0 == bs[c].0);
                } else {
                    assert(nb[a].0 == bs[a].0);
                }
            }
        }
        add_alias(name_map, &name, &name);
    }

    /// Build the index from raw book data: the abbreviation table, then
    /// every book.
    pub fn build(raw_books: Vec<RawBook>) -> (r: Self)
        ensures
            r.wf(),
            r.aliases() == aliases_after_all(table_aliases(66), raw_books@),
            r.books_model() == books_after_all(seq![], raw_books@),
    {
        let mut name_map: Vec<NameEntry> = Vec::new();
        let mut books: Vec<BookData> = Vec::new();
        let mut i: usize = 0;
        assert(alias_map(name_map@) =~= table_aliases(0));
        while i < 66
            invariant
                i <= 66,
                keys_unique(name_map@),
                entries_sorted(name_map@),
                alias_map(name_map@) == table_aliases(i as int),
            decreases 66 - i,
        {
            let canon = lit(table_canon_exec(i));
            add_alias(&mut name_map, &canon, &canon);
            let abbrevs = table_abbrevs_exec(i);
            let ghost start = alias_map(name_map@);
            let mut j: usize = 0;
            while j < abbrevs.len()
                invariant
                    j <= abbrevs.len(),
                    i < 66,
                    canon@ == table_canon(i as u8),
                    abbrevs@.map_values(|s: &'static str| s@) == table_abbrevs(i as u8),
                    keys_unique(name_map@),
                    entries_sorted(name_map@),
                    alias_map(name_map@) == register_all(start, table_abbrevs(i as u8).take(j as int), canon@),
                decreases abbrevs.len() - j,
            {
                let a = lit(abbrevs[j]);
                proof {
                    assert(table_abbrevs(i as u8).take(j + 1).drop_last() =~= table_abbrevs(i as u8).take(j as int));
                    assert(table_abbrevs(i as u8).take(j + 1).last() == a@);
                }
                add_alias(&mut name_map, &a, &canon);
                j = j + 1;
            }
            proof {
                assert(table_abbrevs(i as u8).take(abbrevs@.len() as int) =~= table_abbrevs(i as u8));
            }
            i = i + 1;
        }
        let ghost raws = raw_books@;
        let n = raw_books.len();
        let mut src = raw_books;
        let mut rev: Vec<RawBook> = Vec::new();
        while src.len() > 0
            invariant
                src.len() + rev.len() == n,
                raws.len() == n,
                forall|k: int| 0 <= k < rev.len() ==> #[trigger] rev@[k] == raws[n - 1 - k],
                forall|k: int| 0 <= k < src.len() ==> #[trigger] src@[k] == raws[k],
            decreases src.len(),
        {
            let x = src.pop().unwrap();
            rev.push(x);
        }
        let mut taken: usize = 0;
        assert(raws.take(0) =~= Seq::<RawBook>::empty());
        while rev.len() > 0
            invariant
                taken + rev.len() == n,
                raws.len() == n,
                forall|k: int| 0 <= k < rev.len() ==> #[trigger] rev@[k] == raws[n - 1 - k],
                keys_unique(name_map@),
                entries_sorted(name_map@),
                names_unique(books_view(books@)),
                alias_map(name_map@) == aliases_after_all(table_aliases(66), raws.take(taken as int)),
                books_view(books@) == books_after_all(seq![], raws.take(taken as int)),
            decreases rev.len(),
        {
            let x = rev.pop().unwrap();
            assert(x == raws[taken as int]);
            assert(raws.take(taken + 1).drop_last() =~= raws.take(taken as int));
            Self::add_book(&mut name_map, &mut books, x);
            taken = taken + 1;
        }
        assert(raws.take(n as int) =~= raws);
        assert(books_view(Seq::<BookData>::empty()) =~= Seq::<BookM>::empty());
        ScriptureIndex { name_map, books }
    }

    /// Merge imported books into the index: matching book/chapter/verse
    /// cells are overwritten, everything else stays. Returns the number of
    /// verses listed in `added`.
    pub fn merge_books(&mut self, added: Vec<RawBook>) -> (r: usize)
        requires
            old(self).wf(),
            raw_verse_count(added@) <= usize::MAX,
        ensures
            final(self).wf(),
            final(self).aliases() == aliases_after_all(old(self).aliases(), added@),
            final(self).books_model() == books_after_all(old(self).books_model(), added@),
            r == raw_verse_count(added@),
    {
        let ghost raws = added@;
        let ghost m0 = self.aliases();
        let ghost b0 = self.books_model();
        let n = added.len();
        let mut src = added;
        let mut rev: Vec<RawBook> = Vec::new();
        while src.len() > 0
            invariant
                src.len() + rev.len() == n,
                raws.len() == n,
                forall|k: int| 0 <= k < rev.len() ==> #[trigger] rev@[k] == raws[n - 1 - k],
                forall|k: int| 0 <= k < src.len() ==> #[trigger] src@[k] == raws[k],
            decreases src.len(),
        {
            let x = src.pop().unwrap();
            rev.push(x);
        }
        let mut taken: usize = 0;
        let mut imported: usize = 0;
        assert(raws.take(0) =~= Seq::<RawBook>::empty());
        while rev.len() > 0
            invariant
                taken + rev.len() == n,
                raws.len() == n,
                raw_verse_count(raws) <= usize::MAX,
                forall|k: int| 0 <= k < rev.len() ==> #[trigger] rev@[k] == raws[n - 1 - k],
                self.wf(),
                self.aliases() == aliases_after_all(m0, raws.take(taken as int)),
                self.books_model() == books_after_all(b0, raws.take(taken as int)),
                imported == raw_verse_count(raws.take(taken as int)),
            decreases rev.len(),
        {
            let x = rev.pop().unwrap();
            assert(x == raws[taken as int]);
            assert(raws.take(taken + 1).drop_last() =~= raws.take(taken as int));
            proof {
                lemma_raw_count_prefix(raws, taken + 1);
            }
            let mut count: usize = 0;
            let mut c: usize = 0;
            while c < x.chapters.len()
                invariant
                    c <= x.chapters.len(),
                    count == chapter_verse_count(x.chapters@.take(c as int)),
                    imported + chapter_verse_count(x.chapters@) <= usize::MAX,
                decreases x.chapters.len() - c,
            {
                assert(x.chapters@.take(c + 1).drop_last() =~= x.chapters@.take(c as int));
                proof {
                    lemma_chapter_count_prefix(x.chapters@, c + 1);
                }
                count = count + x.chapters[c].verses.len();
                c = c + 1;
            }
            assert(x.chapters@.take(x.chapters.len() as int) =~= x.chapters@);
            imported = imported + count;
            Self::add_book(&mut self.name_map, &mut self.books, x);
            taken = taken + 1;
        }
        assert(raws.take(n as int) =~= raws);
        imported
    }

    /// Parse a query string into (normalized book, chapter, verse).
    pub fn parse_query(query: &str) -> (r: (String, Option<u32>, Option<u32>))
        ensures
            ({
                let (b, c, v) = parsed_query(query@);
                r.0@ == b && r.1 == c && r.2 == v
            }),
    {
        parse_query(query)
    }

    /// Collect the hits of one book into `results`, pushing only while
    /// `results` holds fewer than `limit` matches.
    fn collect_verses(book: &BookData, chapter: Option<u32>, verse: Option<u32>, limit: usize, results: &mut Vec<ScriptureMatch>)
        ensures
            matches_model(final(results)@) == fill(
                matches_model(old(results)@),
                book_hits(book_model(*book), book_model(*book).1, chapter, verse),
                limit as int,
            ),
    {
        let ghost b = book_model(*book);
        let ghost acc0 = matches_model(results@);
        let mut ci: usize = 0;
        proof {
            assert(b.1.take(0) =~= Seq::<ChapterM>::empty());
            lemma_fill_empty(acc0, limit as int);
        }
        while ci < book.chapters.len()
            invariant
                ci <= book.chapters.len(),
                b == book_model(*book),
                acc0 == matches_model(old(results)@),
                matches_model(results@) == fill(acc0, book_hits(b, b.1.take(ci as int), chapter, verse), limit as int),
            decreases book.chapters.len() - ci,
        {
            let ch = &book.chapters[ci];
            let ghost chm = b.1[ci as int];
            let ghost prev = book_hits(b, b.1.take(ci as int), chapter, verse);
            assert(chm == (ch.chapter, crate::scripture_books::verses_model(ch.verses@)));
            assert(b.1.take(ci + 1).drop_last() =~= b.1.take(ci as int));
            assert(b.1.take(ci + 1).last() == chm);
            let ghost vs = chm.1;
            match chapter {
                Some(c) => {
                    if ch.chapter == c {
                        match verse {
                            Some(v) => {
                                let mut j: usize = 0;
                                assert(vs.take(0) =~= Seq::<VerseM>::empty());
                                proof { lemma_fill_concat(acc0, prev, seq![], limit as int); assert(prev + seq![] =~= prev); }
                                while j < ch.verses.len()
                                    invariant
                                        j <= ch.verses.len(),
                                        b.0 == book.name@,
                                        vs == crate::scripture_books::verses_model(ch.verses@),
                                        matches_model(results@) == fill(acc0, prev + verse_number_hits(b.0, c, v, vs.take(j as int)), limit as int),
                                    decreases ch.verses.len() - j,
                                {
                                    let ghost cur = verse_number_hits(b.0, c, v, vs.take(j as int));
                                    assert(vs.take(j + 1).drop_last() =~= vs.take(j as int));
                                    assert(vs.take(j + 1).last() == vs[j as int]);
                                    assert(vs[j as int] == (ch.verses@[j as int].verse, ch.verses@[j as int].text@));
                                    assert(b.0 == book.name@);
                                    if ch.verses[j].verse == v {
                                        let h = make_hit(&book.name, c, v, &ch.verses[j].text);
                                        proof {
                                            lemma_fill_push(acc0, prev + cur, match_model(h), limit as int);
                                            assert((prev + cur).push(match_model(h)) =~= prev + cur.push(match_model(h)));
                                        }
                                        push_capped(results, h, limit);
                                    }
                                    j = j + 1;
                                }
                                assert(vs.take(ch.verses.len() as int) =~= vs);
                            },
                            None => {
                                let stop: usize = if ch.verses.len() <= 5 { ch.verses.len() } else { 5 };
                                let ghost first = if vs.len() <= 5 { vs } else { vs.take(5) };
                                let mut j: usize = 0;
                                proof { assert(prev + seq![] =~= prev); }
                                while j < stop
                                    invariant
                                        j <= stop,
                                        b.0 == book.name@,
                                        stop <= ch.verses.len(),
                                        stop == first.len(),
                                        first == (if vs.len() <= 5 { vs } else { vs.take(5) }),
                                        vs == crate::scripture_books::verses_model(ch.verses@),
                                        matches_model(results@) == fill(acc0, prev + verse_list_hits(b.0, c, first.take(j as int)), limit as int),
                                    decreases stop - j,
                                {
                                    let ghost cur = verse_list_hits(b.0, c, first.take(j as int));
                                    assert(first[j as int] == vs[j as int]);
                                    assert(first.take(j + 1) =~= first.take(j as int).push(vs[j as int]));
                                    assert(vs[j as int] == (ch.verses@[j as int].verse, ch.verses@[j as int].text@));
                                    assert(b.0 == book.name@);
                                    let h = make_hit(&book.name, c, ch.verses[j].verse, &ch.verses[j].text);
                                    proof {
                                        lemma_fill_push(acc0, prev + cur, match_model(h), limit as int);
                                        assert(verse_list_hits(b.0, c, first.take(j + 1)) =~= cur.push(match_model(h)));
                                        assert((prev + cur).push(match_model(h)) =~= prev + cur.push(match_model(h)));
                                    }
                                    push_capped(results, h, limit);
                                    j = j + 1;
                                }
                                assert(first.take(stop as int) =~= first);
                            },
                        }
                    } else {
                        assert(prev + seq![] =~= prev);
                    }
                },
                None => {
                    if ch.chapter == 1 && ch.verses.len() > 0 {
                        let h = make_hit(&book.name, 1, ch.verses[0].verse, &ch.verses[0].text);
                        proof {
                            lemma_fill_push(acc0, prev, match_model(h), limit as int);
                            assert(prev.push(match_model(h)) =~= prev + seq![match_model(h)]);
                        }
                        push_capped(results, h, limit);
                    } else {
                        assert(prev + seq![] =~= prev);
                    }
                },
            }
            ci = ci + 1;
        }
        assert(b.1.take(book.chapters.len() as int) =~= b.1);
    }

    /// Search the books named in `names`, in order.
    fn search_books(&self, names: &Vec<Vec<char>>, chapter: Option<u32>, verse: Option<u32>, limit: usize) -> (r: Vec<ScriptureMatch>)
        ensures
            matches_model(r@) == search_fold(self.books_model(), name_list(names@), chapter, verse, limit as int),
    {
        let ghost ns = name_list(names@);
        let ghost bs = self.books_model();
        let mut results: Vec<ScriptureMatch> = Vec::new();
        let mut i: usize = 0;
        assert(ns.take(0) =~= Seq::<Seq<char>>::empty());
        assert(matches_model(results@) =~= Seq::<MatchM>::empty());
        while i < names.len()
            invariant
                i <= names.len(),
                ns == name_list(names@),
                bs == self.books_model(),
                matches_model(results@) == search_fold(bs, ns.take(i as int), chapter, verse, limit as int),
                results.len() <= limit,
            decreases names.len() - i,
        {
            let name = &names[i];
            assert(ns.take(i + 1).drop_last() =~= ns.take(i as int));
            assert(ns.take(i + 1).last() == name@);
            match find_book(&self.books, name) {
                Some(k) => {
                    let ghost acc = matches_model(results@);
                    Self::collect_verses(&self.books[k], chapter, verse, limit, &mut results);
                    proof {
                        let hs = book_hits(bs[k as int], bs[k as int].1, chapter, verse);
                        limit_fits(acc, hs, limit as int);
                    }
                },
                None => {},
            }
            i = i + 1;
        }
        assert(ns.take(names.len() as int) =~= ns);
        results
    }

    /// The names registered under keys that start with `prefix`, in name order.
    fn prefix_candidate_list(&self, prefix: &Vec<char>) -> (r: Vec<Vec<char>>)
        requires
            self.wf(),
        ensures
            name_list(r@) == prefix_candidates(self.aliases(), prefix@),
    {
        let ghost es = self.name_map@;
        let ghost m = self.aliases();
        proof {
            lemma_alias_map(es);
        }
        let mut cands: Vec<Vec<char>> = Vec::new();
        let mut i: usize = 0;
        while i < self.name_map.len()
            invariant
                i <= self.name_map.len(),
                es == self.name_map@,
                strictly_sorted(name_list(cands@)),
                forall|n: Seq<char>| #[trigger] name_list(cands@).contains(n) <==> exists|j: int|
                    0 <= j < i && has_prefix(#[trigger] es[j].key@, prefix@) && entry_names(es[j]).contains(n),
            decreases self.name_map.len() - i,
        {
            let e = &self.name_map[i];
            if starts_with(&e.key, prefix) {
                let ghost start = name_list(cands@);
                let mut j: usize = 0;
                while j < e.names.len()
                    invariant
                        j <= e.names.len(),
                        i < es.len(),
                        *e == es[i as int],
                        has_prefix(e.key@, prefix@),
                        strictly_sorted(name_list(cands@)),
                        forall|n: Seq<char>| #[trigger] name_list(cands@).contains(n) <==> (start.contains(n)
                            || entry_names(*e).take(j as int).contains(n)),
                    decreases e.names.len() - j,
                {
                    let ghost before = name_list(cands@);
                    let ghost x = e.names@[j as int]@;
                    proof {
                        lemma_insert_sorted(before, x);
                    }
                    insert_sorted_exec(&mut cands, &e.names[j]);
                    proof {
                        assert(name_list(cands@) == insert_sorted(before, x));
                        assert(entry_names(*e)[j as int] == x);
                        assert forall|n: Seq<char>| entry_names(*e).take(j + 1).contains(n) <==> (entry_names(*e).take(j as int).contains(n) || n == e.names@[j as int]@) by {
                            let t1 = entry_names(*e).take(j + 1);
                            let t0 = entry_names(*e).take(j as int);
                            if t1.contains(n) {
                                let q = choose|q: int| 0 <= q < t1.len() && t1[q] == n;
                                if q < j {
                                    assert(t0[q] == n);
                                }
                            }
                            if t0.contains(n) {
                                let q = choose|q: int| 0 <= q < t0.len() && t0[q] == n;
                                assert(t1[q] == n);
                            }
                            if n == e.names@[j as int]@ {
                                assert(t1[j as int] == n);
                            }
                        }
                        assert forall|n: Seq<char>| #[trigger] name_list(cands@).contains(n) <==> (start.contains(n)
                            || entry_names(*e).take(j + 1).contains(n)) by {
                            assert(before.contains(n) <==> (start.contains(n) || entry_names(*e).take(j as int).contains(n)));
                            assert(insert_sorted(before, x).contains(n) <==> (before.contains(n) || n == x));
                            assert(entry_names(*e).take(j + 1).contains(n) <==> (entry_names(*e).take(j as int).contains(n) || n == x));
                        }
                    }
                    j = j + 1;
                }
                proof {
                    assert(entry_names(*e).take(e.names.len() as int) =~= entry_names(*e));
                    assert forall|n: Seq<char>| #[trigger] name_list(cands@).contains(n) <==> exists|jj: int|
                        0 <= jj < i + 1 && has_prefix(#[trigger] es[jj].key@, prefix@) && entry_names(es[jj]).contains(n) by {
                        if exists|jj: int| 0 <= jj < i + 1 && has_prefix(#[trigger] es[jj].key@, prefix@) && entry_names(es[jj]).contains(n) {
                            let jj = choose|jj: int| 0 <= jj < i + 1 && has_prefix(#[trigger] es[jj].key@, prefix@) && entry_names(es[jj]).contains(n);
                            if jj < i {
                                assert(start.contains(n));
                            }
                        }
                    }
                }
            } else {
                proof {
                    assert forall|n: Seq<char>| #[trigger] name_list(cands@).contains(n) <==> exists|jj: int|
                        0 <= jj < i + 1 && has_prefix(#[trigger] es[jj].key@, prefix@) && entry_names(es[jj]).contains(n) by {
                        if exists|jj: int| 0 <= jj < i + 1 && has_prefix(#[trigger] es[jj].key@, prefix@) && entry_names(es[jj]).contains(n) {
                            let jj = choose|jj: int| 0 <= jj < i + 1 && has_prefix(#[trigger] es[jj].key@, prefix@) && entry_names(es[jj]).contains(n);
                            assert(jj < i);
                        }
                    }
                }
            }
            i = i + 1;
        }
        let ghost l = name_list(cands@);
        proof {
            assert forall|n: Seq<char>| l.contains(n) <==> prefix_candidate(m, prefix@, n) by {
                if l.contains(n) {
                    let jj = choose|jj: int| 0 <= jj < es.len() && has_prefix(#[trigger] es[jj].key@, prefix@) && entry_names(es[jj]).contains(n);
                    assert(m.contains_key(es[jj].key@));
                    assert(m[es[jj].key@].contains(n));
                }
                if prefix_candidate(m, prefix@, n) {
                    let k = choose|k: Seq<char>| m.contains_key(k) && has_prefix(k, prefix@) && #[trigger] m[k].contains(n);
                    let jj = choose|jj: int| 0 <= jj < es.len() && #[trigger] es[jj].key@ == k;
                    assert(has_prefix(es[jj].key@, prefix@) && entry_names(es[jj]).contains(n));
                }
            }
            let c = prefix_candidates(m, prefix@);
            assert(strictly_sorted(l) && (forall|n: Seq<char>| l.contains(n) <==> prefix_candidate(m, prefix@, n)));
            lemma_sorted_unique(l, c);
        }
        cands
    }

    /// Search the index for matching scripture references.
    pub fn search(&self, query: &str, limit: usize) -> (r: Vec<ScriptureMatch>)
        requires
            self.wf(),
        ensures
            matches_model(r@) == search_result(self.aliases(), self.books_model(), query@, limit as int),
    {
        let (key_s, chapter, verse) = parse_query(query);
        let key = chars_of(key_s.as_str());
        if key.len() == 0 {
            return Vec::new();
        }
        let ghost es = self.name_map@;
        proof {
            lemma_alias_map(es);
        }
        let mut i: usize = 0;
        while i < self.name_map.len()
            invariant
                i <= self.name_map.len(),
                es == self.name_map@,
                self.wf(),
                key@ == parsed_query(query@).0,
                key@.len() > 0,
                chapter == parsed_query(query@).1,
                verse == parsed_query(query@).2,
                forall|j: int| 0 <= j < i ==> #[trigger] es[j].key@ != key@,
            decreases self.name_map.len() - i,
        {
            if eq_chars(&self.name_map[i].key, &key) {
                proof {
                    lemma_alias_map(es);
                    assert(self.aliases()[key@] == name_list(self.name_map@[i as int].names@));
                }
                return self.search_books(&self.name_map[i].names, chapter, verse, limit);
            }
            i = i + 1;
        }
        proof {
            lemma_alias_map(es);
            assert(!self.aliases().contains_key(key@));
        }
        let cands = self.prefix_candidate_list(&key);
        self.search_books(&cands, chapter, verse, limit)
    }

    /// Number of books in the index.
    pub fn book_count(&self) -> (r: usize)
        ensures
            r == self.books_model().len(),
    {
        self.books.len()
    }
}

proof fn lemma_raw_count_prefix(raws: Seq<RawBook>, k: int)
    requires
        0 <= k <= raws.len(),
    ensures
        raw_verse_count(raws.take(k)) <= raw_verse_count(raws),
    decreases raws.len() - k,
{
    if k < raws.len() {
        lemma_raw_count_prefix(raws.drop_last(), k);
        assert(raws.drop_last().take(k) =~= raws.take(k));
    } else {
        assert(raws.take(k) =~= raws);
    }
}

proof fn lemma_chapter_count_prefix(cs: Seq<RawChapter>, k: int)
    requires
        0 <= k <= cs.len(),
    ensures
        chapter_verse_count(cs.take(k)) <= chapter_verse_count(cs),
    decreases cs.len() - k,
{
    if k < cs.len() {
        lemma_chapter_count_prefix(cs.drop_last(), k);
        assert(cs.drop_last().take(k) =~= cs.take(k));
    } else {
        assert(cs.take(k) =~= cs);
    }
}

// ---------------------------------------------------------------------------
// The abbreviation table
// ---------------------------------------------------------------------------

/// Canonical name of the `i`-th book of the abbreviation table (canonical order).
pub open spec fn table_canon(i: u8) -> Seq<char> {
    match i {
        0 => "Genesis"@,
        1 => "Exodus"@,
        2 => "Leviticus"@,
        3 => "Numbers"@,
        4 => "Deuteronomy"@,
        5 => "Joshua"@,
        6 => "Judges"@,
        7 => "Ruth"@,
        8 => "1 Samuel"@,
        9 => "2 Samuel"@,
        10 => "1 Kings"@,
        11 => "2 Kings"@,
        12 => "1 Chronicles"@,
        13 => "2 Chronicles"@,
        14 => "Ezra"@,
        15 => "Nehemiah"@,
        16 => "Esther"@,
        17 => "Job"@,
        18 => "Psalms"@,
        19 => "Proverbs"@,
        20 => "Ecclesiastes"@,
        21 => "Song of Solomon"@,
        22 => "Isaiah"@,
        23 => "Jeremiah"@,
        24 => "Lamentations"@,
        25 => "Ezekiel"@,
        26 => "Daniel"@,
        27 => "Hosea"@,
        28 => "Joel"@,
        29 => "Amos"@,
        30 => "Obadiah"@,
        31 => "Jonah"@,
        32 => "Micah"@,
        33 => "Nahum"@,
        34 => "Habakkuk"@,
        35 => "Zephaniah"@,
        36 => "Haggai"@,
        37 => "Zechariah"@,
        38 => "Malachi"@,
        39 => "Matthew"@,
        40 => "Mark"@,
        41 => "Luke"@,
        42 => "John"@,
        43 => "Acts"@,
        44 => "Romans"@,
        45 => "1 Corinthians"@,
        46 => "2 Corinthians"@,
        47 => "Galatians"@,
        48 => "Ephesians"@,
        49 => "Philippians"@,
        50 => "Colossians"@,
        51 => "1 Thessalonians"@,
        52 => "2 Thessalonians"@,
        53 => "1 Timothy"@,
        54 => "2 Timothy"@,
        55 => "Titus"@,
        56 => "Philemon"@,
        57 => "Hebrews"@,
        58 => "James"@,
        59 => "1 Peter"@,
        60 => "2 Peter"@,
        61 => "1 John"@,
        62 => "2 John"@,
        63 => "3 John"@,
        64 => "Jude"@,
        _ => "Revelation"@,
    }
}

/// The searchable abbreviations of the `i`-th book of the table.
pub open spec fn table_abbrevs(i: u8) -> Seq<Seq<char>> {
    match i {
        0 => seq!["gen"@, "gn"@, "ge"@],
        1 => seq!["exod"@, "ex"@, "exo"@],
        2 => seq!["lev"@, "lv"@, "le"@],
        3 => seq!["num"@, "nm"@, "nu"@],
        4 => seq!["deut"@, "dt"@, "de"@],
        5 => seq!["josh"@, "jos"@, "jsh"@],
        6 => seq!["judg"@, "jdg"@, "jud"@, "jg"@],
        7 => seq!["ruth"@, "rth"@, "ru"@],
        8 => seq!["1sam"@, "1sa"@, "1s"@, "1 sm"@],
        9 => seq!["2sam"@, "2sa"@, "2s"@, "2 sm"@],
        10 => seq!["1kgs"@, "1ki"@, "1k"@, "1 ki"@],
        11 => seq!["2kgs"@, "2ki"@, "2k"@, "2 ki"@],
        12 => seq!["1chr"@, "1ch"@, "1 chrono"@, "1 c"@],
        13 => seq!["2chr"@, "2ch"@, "2 chrono"@, "2 c"@],
        14 => seq!["ezra"@, "ezr"@],
        15 => seq!["neh"@, "ne"@],
        16 => seq!["esth"@, "est"@],
        17 => seq!["job"@],
        18 => seq!["ps"@, "psa"@, "psalm"@, "psalms"@, "psl"@],
        19 => seq!["prov"@, "prv"@, "pr"@],
        20 => seq!["eccl"@, "ecc"@, "qoh"@],
        21 => seq!["song"@, "sos"@, "ss"@, "sol"@, "song of sol"@],
        22 => seq!["isa"@, "is"@],
        23 => seq!["jer"@, "je"@, "jere"@],
        24 => seq!["lam"@, "la"@],
        25 => seq!["ezek"@, "ezk"@, "eze"@],
        26 => seq!["dan"@, "da"@],
        27 => seq!["hos"@, "ho"@],
        28 => seq!["joel"@, "jl"@],
        29 => seq!["amos"@, "am"@],
        30 => seq!["obad"@, "ob"@],
        31 => seq!["jon"@, "jnh"@],
        32 => seq!["mic"@, "mi"@],
        33 => seq!["nah"@, "na"@],
        34 => seq!["hab"@, "hb"@],
        35 => seq!["zeph"@, "zep"@, "zp"@],
        36 => seq!["hag"@, "hg"@],
        37 => seq!["zech"@, "zec"@, "zc"@],
        38 => seq!["mal"@, "ml"@],
        39 => seq!["matt"@, "mt"@],
        40 => seq!["mk"@, "mrk"@],
        41 => seq!["lk"@, "luk"@],
        42 => seq!["jn"@, "joh"@, "jhn"@],
        43 => seq!["act"@, "acts"@],
        44 => seq!["rom"@, "ro"@],
        45 => seq!["1cor"@, "1co"@, "1 c"@],
        46 => seq!["2cor"@, "2co"@, "2 c"@],
        47 => seq!["gal"@, "ga"@],
        48 => seq!["eph"@, "ep"@],
        49 => seq!["phil"@, "php"@, "phi"@],
        50 => seq!["col"@, "co"@],
        51 => seq!["1thess"@, "1th"@, "1 thes"@],
        52 => seq!["2thess"@, "2th"@, "2 thes"@],
        53 => seq!["1tim"@, "1ti"@, "1 ti"@],
        54 => seq!["2tim"@, "2ti"@, "2 ti"@],
        55 => seq!["tit"@, "ti"@],
        56 => seq!["phlm"@, "phm"@],
        57 => seq!["heb"@, "hebr"@],
        58 => seq!["jas"@, "jm"@],
        59 => seq!["1pet"@, "1pe"@, "1p"@, "1 pe"@],
        60 => seq!["2pet"@, "2pe"@, "2p"@, "2 pe"@],
        61 => seq!["1jn"@, "1jo"@, "1j"@, "1 joh"@],
        62 => seq!["2jn"@, "2jo"@, "2j"@, "2 joh"@],
        63 => seq!["3jn"@, "3jo"@, "3j"@, "3 joh"@],
        64 => seq!["jude"@, "jud"@, "jd"@],
        _ => seq!["rev"@, "re"@, "apoc"@],
    }
}

fn table_canon_exec(i: usize) -> (r: &'static str)
    requires
        i < 66,
    ensures
        r@ == table_canon(i as u8),
{
    match i {
        0 => "Genesis",
        1 => "Exodus",
        2 => "Leviticus",
        3 => "Numbers",
        4 => "Deuteronomy",
        5 => "Joshua",
        6 => "Judges",
        7 => "Ruth",
        8 => "1 Samuel",
        9 => "2 Samuel",
        10 => "1 Kings",
        11 => "2 Kings",
        12 => "1 Chronicles",
        13 => "2 Chronicles",
        14 => "Ezra",
        15 => "Nehemiah",
        16 => "Esther",
        17 => "Job",
        18 => "Psalms",
        19 => "Proverbs",
        20 => "Ecclesiastes",
        21 => "Song of Solomon",
        22 => "Isaiah",
        23 => "Jeremiah",
        24 => "Lamentations",
        25 => "Ezekiel",
        26 => "Daniel",
        27 => "Hosea",
        28 => "Joel",
        29 => "Amos",
        30 => "Obadiah",
        31 => "Jonah",
        32 => "Micah",
        33 => "Nahum",
        34 => "Habakkuk",
        35 => "Zephaniah",
        36 => "Haggai",
        37 => "Zechariah",
        38 => "Malachi",
        39 => "Matthew",
        40 => "Mark",
        41 => "Luke",
        42 => "John",
        43 => "Acts",
        44 => "Romans",
        45 => "1 Corinthians",
        46 => "2 Corinthians",
        47 => "Galatians",
        48 => "Ephesians",
        49 => "Philippians",
        50 => "Colossians",
        51 => "1 Thessalonians",
        52 => "2 Thessalonians",
        53 => "1 Timothy",
        54 => "2 Timothy",
        55 => "Titus",
        56 => "Philemon",
        57 => "Hebrews",
        58 => "James",
        59 => "1 Peter",
        60 => "2 Peter",
        61 => "1 John",
        62 => "2 John",
        63 => "3 John",
        64 => "Jude",
        _ => "Revelation",
    }
}

fn table_abbrevs_exec(i: usize) -> (r: Vec<&'static str>)
    requires
        i < 66,
    ensures
        r@.map_values(|s: &'static str| s@) == table_abbrevs(i as u8),
{
    let r = match i {
        0 => vec!["gen", "gn", "ge"],
        1 => vec!["exod", "ex", "exo"],
        2 => vec!["lev", "lv", "le"],
        3 => vec!["num", "nm", "nu"],
        4 => vec!["deut", "dt", "de"],
        5 => vec!["josh", "jos", "jsh"],
        6 => vec!["judg", "jdg", "jud", "jg"],
        7 => vec!["ruth", "rth", "ru"],
        8 => vec!["1sam", "1sa", "1s", "1 sm"],
        9 => vec!["2sam", "2sa", "2s", "2 sm"],
        10 => vec!["1kgs", "1ki", "1k", "1 ki"],
        11 => vec!["2kgs", "2ki", "2k", "2 ki"],
        12 => vec!["1chr", "1ch", "1 chrono", "1 c"],
        13 => vec!["2chr", "2ch", "2 chrono", "2 c"],
        14 => vec!["ezra", "ezr"],
        15 => vec!["neh", "ne"],
        16 => vec!["esth", "est"],
        17 => vec!["job"],
        18 => vec!["ps", "psa", "psalm", "psalms", "psl"],
        19 => vec!["prov", "prv", "pr"],
        20 => vec!["eccl", "ecc", "qoh"],
        21 => vec!["song", "sos", "ss", "sol", "song of sol"],
        22 => vec!["isa", "is"],
        23 => vec!["jer", "je", "jere"],
        24 => vec!["lam", "la"],
        25 => vec!["ezek", "ezk", "eze"],
        26 => vec!["dan", "da"],
        27 => vec!["hos", "ho"],
        28 => vec!["joel", "jl"],
        29 => vec!["amos", "am"],
        30 => vec!["obad", "ob"],
        31 => vec!["jon", "jnh"],
        32 => vec!["mic", "mi"],
        33 => vec!["nah", "na"],
        34 => vec!["hab", "hb"],
        35 => vec!["zeph", "zep", "zp"],
        36 => vec!["hag", "hg"],
        37 => vec!["zech", "zec", "zc"],
        38 => vec!["mal", "ml"],
        39 => vec!["matt", "mt"],
        40 => vec!["mk", "mrk"],
        41 => vec!["lk", "luk"],
        42 => vec!["jn", "joh", "jhn"],
        43 => vec!["act", "acts"],
        44 => vec!["rom", "ro"],
        45 => vec!["1cor", "1co", "1 c"],
        46 => vec!["2cor", "2co", "2 c"],
        47 => vec!["gal", "ga"],
        48 => vec!["eph", "ep"],
        49 => vec!["phil", "php", "phi"],
        50 => vec!["col", "co"],
        51 => vec!["1thess", "1th", "1 thes"],
        52 => vec!["2thess", "2th", "2 thes"],
        53 => vec!["1tim", "1ti", "1 ti"],
        54 => vec!["2tim", "2ti", "2 ti"],
        55 => vec!["tit", "ti"],
        56 => vec!["phlm", "phm"],
        57 => vec!["heb", "hebr"],
        58 => vec!["jas", "jm"],
        59 => vec!["1pet", "1pe", "1p", "1 pe"],
        60 => vec!["2pet", "2pe", "2p", "2 pe"],
        61 => vec!["1jn", "1jo", "1j", "1 joh"],
        62 => vec!["2jn", "2jo", "2j", "2 joh"],
        63 => vec!["3jn", "3jo", "3j", "3 joh"],
        64 => vec!["jude", "jud", "jd"],
        _ => vec!["rev", "re", "apoc"],
    };
    assert(r@.map_values(|s: &'static str| s@) =~= table_abbrevs(i as u8));
    r
}

// ---------------------------------------------------------------------------
// Browsing by book
// ---------------------------------------------------------------------------

/// The abbreviation table: each canonical book name with its searchable
/// abbreviations, in canonical order.
pub fn abbreviation_table() -> (r: Vec<(&'static str, Vec<&'static str>)>)
    ensures
        r.len() == 66,
        forall|i: int|
            #![trigger r@[i]]
            0 <= i < 66 ==> r@[i].0@ == table_canon(i as u8) && r@[i].1@.map_values(|s: &'static str| s@)
                == table_abbrevs(i as u8),
{
    let mut r: Vec<(&'static str, Vec<&'static str>)> = Vec::new();
    let mut i: usize = 0;
    while i < 66
        invariant
            i <= 66,
            r.len() == i,
            forall|k: int|
                #![trigger r@[k]]
                0 <= k < i ==> r@[k].0@ == table_canon(k as u8) && r@[k].1@.map_values(|s: &'static str| s@)
                    == table_abbrevs(k as u8),
        decreases 66 - i,
    {
        r.push((table_canon_exec(i), table_abbrevs_exec(i)));
        i = i + 1;
    }
    r
}

/// The canonical names of the table (below `upto`) that name a book of
/// `bs`, in table order.
pub open spec fn table_books(bs: Seq<BookM>, upto: nat) -> Seq<Seq<char>>
    decreases upto,
{
    if upto == 0 {
        seq![]
    } else {
        let rest = table_books(bs, (upto - 1) as nat);
        let c = table_canon((upto - 1) as u8);
        if book_pos(bs, c) is Some {
            rest.push(c)
        } else {
            rest
        }
    }
}

/// The contents of a list of strings.
pub open spec fn string_list(v: Seq<String>) -> Seq<Seq<char>> {
    v.map_values(|s: String| s@)
}

/// The names of the books.
pub open spec fn book_names(bs: Seq<BookM>) -> Seq<Seq<char>> {
    bs.map_values(|b: BookM| b.0)
}

/// Book names for display: the canonical books in table order, then every
/// other book in the order it was added.
pub open spec fn ordered_names(bs: Seq<BookM>) -> Seq<Seq<char>> {
    let t = table_books(bs, 66);
    t + book_names(bs).filter(|n: Seq<char>| !t.contains(n))
}

/// The first canonical name (from table position `from` on) whose key is `key`.
pub open spec fn table_match(key: Seq<char>, from: nat) -> Option<Seq<char>>
    decreases 66 - from,
{
    if from >= 66 {
        None
    } else if norm_key(table_canon(from as u8)) == key {
        Some(table_canon(from as u8))
    } else {
        table_match(key, from + 1)
    }
}

/// The first book whose lower-cased name is `low`.
pub open spec fn lower_match(bs: Seq<BookM>, low: Seq<char>) -> Option<Seq<char>>
    decreases bs.len(),
{
    if bs.len() == 0 {
        None
    } else if lowercase(bs[0].0) == low {
        Some(bs[0].0)
    } else {
        lower_match(bs.drop_first(), low)
    }
}

/// The key of a browsing request: lower-cased, without spaces or dots.
pub open spec fn browse_key(book: Seq<char>) -> Seq<char> {
    norm_key(book).filter(|c: char| c != '.')
}

/// The book a browsing request names: the canonical name with that key,
/// else the first name registered under the key, else a book whose name
/// matches ignoring case, else the request itself.
pub open spec fn resolved_book(m: Map<Seq<char>, Seq<Seq<char>>>, bs: Seq<BookM>, book: Seq<char>) -> Seq<char> {
    let key = browse_key(book);
    match table_match(key, 0) {
        Some(c) => c,
        None => if m.contains_key(key) && m[key].len() > 0 {
            m[key][0]
        } else {
            match lower_match(bs, lowercase(book)) {
                Some(n) => n,
                None => book,
            }
        },
    }
}

/// The verses of chapter `chapter` of the book named `name`.
pub open spec fn chapter_verses(bs: Seq<BookM>, name: Seq<char>, chapter: u32) -> Option<Seq<VerseM>> {
    match book_pos(bs, name) {
        None => None,
        Some(i) => match first_chapter_at(bs[i].1, chapter) {
            None => None,
            Some(j) => Some(bs[i].1[j].1),
        },
    }
}

/// The chapter numbers of the book named `name`.
pub open spec fn chapter_list(bs: Seq<BookM>, name: Seq<char>) -> Option<Seq<u32>> {
    match book_pos(bs, name) {
        None => None,
        Some(i) => Some(bs[i].1.map_values(|c: ChapterM| c.0)),
    }
}

pub open spec fn verse_pairs(v: Seq<(u32, String)>) -> Seq<VerseM> {
    v.map_values(|p: (u32, String)| (p.0, p.1@))
}

/// Whether `n` is one of the names in `list`.
fn contains_name(list: &Vec<Vec<char>>, n: &Vec<char>) -> (r: bool)
    ensures
        r == name_list(list@).contains(n@),
{
    let mut i: usize = 0;
    while i < list.len()
        invariant
            i <= list.len(),
            forall|j: int| 0 <= j < i ==> #[trigger] list@[j]@ != n@,
        decreases list.len() - i,
    {
        if eq_chars(&list[i], n) {
            assert(name_list(list@)[i as int] == n@);
            return true;
        }
        i = i + 1;
    }
    proof {
        if name_list(list@).contains(n@) {
            let j = choose|j: int| 0 <= j < name_list(list@).len() && name_list(list@)[j] == n@;
            assert(list@[j]@ == n@);
        }
    }
    false
}

impl ScriptureIndex {
    /// Position of the name-map entry with key `key`.
    fn find_key(&self, key: &Vec<char>) -> (r: Option<usize>)
        requires
            self.wf(),
        ensures
            match r {
                Some(i) => i < self.name_map.len() && self.aliases().contains_key(key@)
                    && self.aliases()[key@] == name_list(self.name_map@[i as int].names@),
                None => !self.aliases().contains_key(key@),
            },
    {
        let ghost es = self.name_map@;
        let mut i: usize = 0;
        while i < self.name_map.len()
            invariant
                i <= self.name_map.len(),
                es == self.name_map@,
                self.wf(),
                forall|j: int| 0 <= j < i ==> #[trigger] es[j].key@ != key@,
            decreases self.name_map.len() - i,
        {
            if eq_chars(&self.name_map[i].key, key) {
                proof {
                    lemma_alias_map(es);
                }
                return Some(i);
            }
            i = i + 1;
        }
        proof {
            lemma_alias_map(es);
        }
        None
    }

    /// The book a browsing request names (see `resolved_book`).
    fn resolve_book(&self, book: &str) -> (r: Vec<char>)
        requires
            self.wf(),
        ensures
            r@ == resolved_book(self.aliases(), self.books_model(), book@),
    {
        let raw = chars_of(book);
        let spaced = normalize_key(&raw);
        let mut key: Vec<char> = Vec::new();
        let mut p: usize = 0;
        while p < spaced.len()
            invariant
                p <= spaced.len(),
                key@ == spaced@.take(p as int).filter(|c: char| c != '.'),
            decreases spaced.len() - p,
        {
            proof {
                reveal(Seq::filter);
            }
            assert(spaced@.take(p + 1).drop_last() =~= spaced@.take(p as int));
            if spaced[p] != '.' {
                key.push(spaced[p]);
            }
            p = p + 1;
        }
        assert(spaced@.take(spaced.len() as int) =~= spaced@);
        assert(key@ == browse_key(book@));
        let mut i: usize = 0;
        while i < 66
            invariant
                i <= 66,
                key@ == browse_key(book@),
                table_match(key@, 0) == table_match(key@, i as nat),
            decreases 66 - i,
        {
            let canon = lit(table_canon_exec(i));
            let ck = normalize_key(&canon);
            if eq_chars(&ck, &key) {
                return canon;
            }
            i = i + 1;
        }
        match self.find_key(&key) {
            Some(e) => {
                if self.name_map[e].names.len() > 0 {
                    return clone_chars(&self.name_map[e].names[0]);
                }
            },
            None => {},
        }
        let low = to_lowercase(&raw);
        let ghost bs = self.books_model();
        let mut k: usize = 0;
        assert(bs.skip(0) =~= bs);
        while k < self.books.len()
            invariant
                k <= self.books.len(),
                bs == self.books_model(),
                low@ == lowercase(book@),
                raw@ == book@,
                table_match(browse_key(book@), 0) is None,
                !(self.aliases().contains_key(browse_key(book@)) && self.aliases()[browse_key(book@)].len() > 0),
                lower_match(bs, low@) == lower_match(bs.skip(k as int), low@),
            decreases self.books.len() - k,
        {
            let name = chars_of(self.books[k].name.as_str());
            let nl = to_lowercase(&name);
            assert(bs.skip(k as int)[0] == bs[k as int]);
            assert(bs[k as int].0 == name@);
            assert(bs.skip(k as int).drop_first() =~= bs.skip(k + 1));
            if eq_chars(&nl, &low) {
                return name;
            }
            k = k + 1;
        }
        assert(bs.skip(self.books.len() as int) =~= Seq::<BookM>::empty());
        raw
    }

    /// Book names for display (see `ordered_names`).
    pub fn ordered_book_names(&self) -> (r: Vec<String>)
        ensures
            string_list(r@) == ordered_names(self.books_model()),
    {
        let ghost bs = self.books_model();
        let mut out: Vec<String> = Vec::new();
        let mut table: Vec<Vec<char>> = Vec::new();
        let mut i: usize = 0;
        while i < 66
            invariant
                i <= 66,
                bs == self.books_model(),
                string_list(out@) == table_books(bs, i as nat),
                name_list(table@) == table_books(bs, i as nat),
            decreases 66 - i,
        {
            let canon = lit(table_canon_exec(i));
            if find_book(&self.books, &canon).is_some() {
                out.push(string_of(&canon));
                table.push(canon);
                assert(string_list(out@) =~= table_books(bs, (i + 1) as nat));
                assert(name_list(table@) =~= table_books(bs, (i + 1) as nat));
            } else {
                assert(table_books(bs, (i + 1) as nat) == table_books(bs, i as nat));
            }
            i = i + 1;
        }
        let ghost t = table_books(bs, 66);
        let ghost names = book_names(bs);
        let ghost f = |n: Seq<char>| !t.contains(n);
        let mut k: usize = 0;
        assert(names.take(0).filter(f) =~= Seq::<Seq<char>>::empty());
        assert(string_list(out@) =~= t + names.take(0).filter(f));
        while k < self.books.len()
            invariant
                k <= self.books.len(),
                bs == self.books_model(),
                names == book_names(bs),
                t == table_books(bs, 66),
                name_list(table@) == t,
                f == (|n: Seq<char>| !t.contains(n)),
                string_list(out@) == t + names.take(k as int).filter(f),
            decreases self.books.len() - k,
        {
            proof {
                reveal(Seq::filter);
            }
            let name = chars_of(self.books[k].name.as_str());
            assert(names[k as int] == name@);
            assert(names.take(k + 1).drop_last() =~= names.take(k as int));
            if !contains_name(&table, &name) {
                let sname = self.books[k].name.clone();
                assert(sname@ == name@);
                assert(!t.contains(name@));
                assert(names.take(k + 1).filter(f) == names.take(k as int).filter(f).push(name@));
                let ghost before = out@;
                out.push(sname);
                assert(out@ == before.push(sname));
                assert(string_list(out@) =~= string_list(before).push(name@));
                assert(string_list(out@) =~= t + names.take(k + 1).filter(f));
            } else {
                assert(names.take(k + 1).filter(f) == names.take(k as int).filter(f));
            }
            k = k + 1;
        }
        assert(names.take(self.books.len() as int) =~= names);
        out
    }

    /// The verses of one chapter of a book, as `(verse, text)` pairs; `None`
    /// when the book or the chapter is missing.
    pub fn get_chapter_verses(&self, book: &str, chapter: u32) -> (r: Option<Vec<(u32, String)>>)
        requires
            self.wf(),
        ensures
            match chapter_verses(self.books_model(), resolved_book(self.aliases(), self.books_model(), book@), chapter) {
                None => r is None,
                Some(vs) => r matches Some(v) && verse_pairs(v@) == vs,
            },
    {
        let canon = self.resolve_book(book);
        let ghost bs = self.books_model();
        let bi = match find_book(&self.books, &canon) {
            Some(b) => b,
            None => return None,
        };
        let b = &self.books[bi];
        let ghost chs = bs[bi as int].1;
        assert(chs == crate::scripture_books::chapters_model(b.chapters@));
        let mut j: usize = 0;
        while j < b.chapters.len()
            invariant
                j <= b.chapters.len(),
                chs == crate::scripture_books::chapters_model(b.chapters@),
                bs == self.books_model(),
                bi < bs.len(),
                chs == bs[bi as int].1,
                canon@ == resolved_book(self.aliases(), self.books_model(), book@),
                book_pos(bs, canon@) == Some(bi as int),
                forall|q: int| 0 <= q < j ==> #[trigger] chs[q].0 != chapter,
            decreases b.chapters.len() - j,
        {
            assert(chs[j as int].0 == b.chapters@[j as int].chapter);
            if b.chapters[j].chapter == chapter {
                proof {
                    crate::scripture_books::lemma_first_chapter_found(chs, chapter, j as int);
                }
                let vs = &b.chapters[j].verses;
                let ghost vm = chs[j as int].1;
                assert(vm == crate::scripture_books::verses_model(vs@));
                let mut out: Vec<(u32, String)> = Vec::new();
                let mut q: usize = 0;
                while q < vs.len()
                    invariant
                        q <= vs.len(),
                        vm == crate::scripture_books::verses_model(vs@),
                        verse_pairs(out@) == vm.take(q as int),
                    decreases vs.len() - q,
                {
                    let text = vs[q].text.clone();
                    assert(vm[q as int] == (vs@[q as int].verse, vs@[q as int].text@));
                    assert(text@ == vs@[q as int].text@);
                    let ghost before = out@;
                    out.push((vs[q].verse, text));
                    assert(verse_pairs(out@) =~= verse_pairs(before).push(vm[q as int]));
                    assert(vm.take(q + 1) =~= vm.take(q as int).push(vm[q as int]));
                    assert(verse_pairs(out@) =~= vm.take(q + 1));
                    q = q + 1;
                }
                assert(vm.take(vs.len() as int) =~= vm);
                return Some(out);
            }
            j = j + 1;
        }
        proof {
            crate::scripture_books::lemma_first_chapter_none(chs, chapter);
        }
        None
    }

    /// The chapter numbers of a book, in stored order; `None` when the
    /// book is missing.
    pub fn chapter_numbers(&self, book: &str) -> (r: Option<Vec<u32>>)
        requires
            self.wf(),
        ensures
            match chapter_list(self.books_model(), resolved_book(self.aliases(), self.books_model(), book@)) {
                None => r is None,
                Some(ns) => r matches Some(v) && v@ == ns,
            },
    {
        let canon = self.resolve_book(book);
        let ghost bs = self.books_model();
        let bi = match find_book(&self.books, &canon) {
            Some(b) => b,
            None => return None,
        };
        let b = &self.books[bi];
        let ghost chs = bs[bi as int].1;
        assert(chs == crate::scripture_books::chapters_model(b.chapters@));
        let mut out: Vec<u32> = Vec::new();
        let mut j: usize = 0;
        while j < b.chapters.len()
            invariant
                j <= b.chapters.len(),
                chs == crate::scripture_books::chapters_model(b.chapters@),
                out@ == chs.take(j as int).map_values(|c: ChapterM| c.0),
            decreases b.chapters.len() - j,
        {
            out.push(b.chapters[j].chapter);
            assert(out@ =~= chs.take(j + 1).map_values(|c: ChapterM| c.0));
            j = j + 1;
        }
        assert(chs.take(b.chapters.len() as int) =~= chs);
        Some(out)
    }
}
/// Some book named `b` has verse `v` in a chapter numbered `c`.
pub open spec fn has_book_verse(bs: Seq<BookM>, b: Seq<char>, c: u32, v: u32) -> bool {
    exists|i: int| 0 <= i < bs.len() && (#[trigger] bs[i]).0 == b && has_chapter_verse(bs[i].1, c, v)
}

proof fn lemma_book_pos_in(bs: Seq<BookM>, name: Seq<char>)
    ensures
        book_pos(bs, name) matches Some(k) ==> 0 <= k < bs.len() && bs[k].0 == name,
    decreases bs.len(),
{
    if bs.len() > 0 && bs[0].0 != name {
        lemma_book_pos_in(bs.drop_first(), name);
    }
}

proof fn lemma_books_after_keeps(bs: Seq<BookM>, raw: RawBook, b: Seq<char>, c: u32, v: u32)
    ensures
        has_book_verse(bs, b, c, v) ==> has_book_verse(books_after(bs, raw), b, c, v),
{
    if has_book_verse(bs, b, c, v) {
        let i = choose|i: int| 0 <= i < bs.len() && (#[trigger] bs[i]).0 == b && has_chapter_verse(bs[i].1, c, v);
        let r = books_after(bs, raw);
        match book_model_from(raw) {
            None => {},
            Some((name, chs)) => {
                lemma_book_pos_in(bs, name);
                match book_pos(bs, name) {
                    Some(k) => {
                        if k == i {
                            law_merge_keeps_and_adds(bs[i].1, chs, c, v);
                            assert(r[i].0 == b && has_chapter_verse(r[i].1, c, v));
                        } else {
                            assert(r[i] == bs[i]);
                        }
                    },
                    None => {
                        assert(r[i] == bs[i]);
                    },
                }
            },
        }
    }
}

/// Merging imported books into the index wipes nothing: every verse of
/// every book the index had (by book name, chapter and verse number) is
/// still there afterwards.
pub proof fn law_index_merge_keeps(bs: Seq<BookM>, raws: Seq<RawBook>, b: Seq<char>, c: u32, v: u32)
    ensures
        has_book_verse(bs, b, c, v) ==> has_book_verse(books_after_all(bs, raws), b, c, v),
    decreases raws.len(),
{
    if raws.len() > 0 {
        law_index_merge_keeps(bs, raws.drop_last(), b, c, v);
        lemma_books_after_keeps(books_after_all(bs, raws.drop_last()), raws.last(), b, c, v);
    }
}

/// An imported book's verses are in the index afterwards, under the book's
/// name (a book is taken when some chapter number parses).
pub proof fn law_index_merge_adds(bs: Seq<BookM>, raw: RawBook, c: u32, v: u32)
    requires
        book_model_from(raw) is Some,
        has_chapter_verse(book_model_from(raw).unwrap().1, c, v),
    ensures
        has_book_verse(books_after(bs, raw), raw.book@, c, v),
{
    let (name, chs) = book_model_from(raw).unwrap();
    let r = books_after(bs, raw);
    lemma_book_pos_in(bs, name);
    match book_pos(bs, name) {
        Some(k) => {
            law_merge_keeps_and_adds(bs[k].1, chs, c, v);
            assert(r[k].0 == raw.book@ && has_chapter_verse(r[k].1, c, v));
        },
        None => {
            assert(r[bs.len() as int] == (name, chs));
        },
    }
}

proof fn lemma_insert_sorted_keeps(s: Seq<Seq<char>>, x: Seq<char>, y: Seq<char>)
    ensures
        (s.contains(y) || y == x) ==> insert_sorted(s, x).contains(y),
    decreases s.len(),
{
    let r = insert_sorted(s, x);
    if s.len() == 0 {
        if y == x {
            assert(r[0] == y);
        }
    } else if s[0] == x {
        if y == x {
            assert(r[0] == y);
        }
    } else if seq_lt(x, s[0]) {
        if y == x {
            assert(r[0] == y);
        } else if s.contains(y) {
            let i = choose|i: int| 0 <= i < s.len() && s[i] == y;
            assert(r[i + 1] == y);
        }
    } else {
        lemma_insert_sorted_keeps(s.drop_first(), x, y);
        if y == s[0] {
            assert(r[0] == y);
        } else if s.contains(y) {
            let i = choose|i: int| 0 <= i < s.len() && s[i] == y;
            assert(s.drop_first()[i - 1] == y);
        }
        if insert_sorted(s.drop_first(), x).contains(y) {
            let j = choose|j: int| 0 <= j < insert_sorted(s.drop_first(), x).len() && insert_sorted(s.drop_first(), x)[j] == y;
            assert(r[j + 1] == y);
        }
    }
}

/// Merging imported books into the index forgets no alias: every name
/// registered under a key before is still registered under it afterwards.
pub proof fn law_index_merge_keeps_aliases(m: Map<Seq<char>, Seq<Seq<char>>>, raws: Seq<RawBook>, k: Seq<char>, n: Seq<char>)
    ensures
        m.contains_key(k) && m[k].contains(n) ==> aliases_after_all(m, raws).contains_key(k)
            && aliases_after_all(m, raws)[k].contains(n),
    decreases raws.len(),
{
    if raws.len() > 0 {
        law_index_merge_keeps_aliases(m, raws.drop_last(), k, n);
        let a = aliases_after_all(m, raws.drop_last());
        match book_model_from(raws.last()) {
            None => {},
            Some((name, _)) => {
                let key = norm_key(name);
                if key == k && a.contains_key(k) {
                    lemma_insert_sorted_keeps(a[k], name, n);
                }
            },
        }
    }
}

/// Merging registers an imported book (one with a chapter number that
/// parses) under the key of its name, so lookups by that name find it.
pub proof fn law_index_merge_registers(m: Map<Seq<char>, Seq<Seq<char>>>, raw: RawBook)
    requires
        book_model_from(raw) is Some,
    ensures
        aliases_after(m, raw).contains_key(norm_key(book_model_from(raw).unwrap().0)),
        aliases_after(m, raw)[norm_key(book_model_from(raw).unwrap().0)].contains(book_model_from(raw).unwrap().0),
{
    let name = book_model_from(raw).unwrap().0;
    let key = norm_key(name);
    lemma_insert_sorted_keeps(if m.contains_key(key) { m[key] } else { seq![] }, name, name);
}

proof fn lemma_table_books_indexed(bs: Seq<BookM>, upto: nat, x: Seq<char>)
    ensures
        table_books(bs, upto).contains(x) ==> book_names(bs).contains(x),
    decreases upto,
{
    if upto > 0 {
        lemma_table_books_indexed(bs, (upto - 1) as nat, x);
        let c = table_canon((upto - 1) as u8);
        let rest = table_books(bs, (upto - 1) as nat);
        if table_books(bs, upto).contains(x) && !rest.contains(x) {
            if book_pos(bs, c) is Some {
                assert(table_books(bs, upto) == rest.push(c));
                let j = choose|j: int| 0 <= j < rest.len() + 1 && rest.push(c)[j] == x;
                if j < rest.len() {
                    assert(rest[j] == x);
                }
                lemma_book_pos_in(bs, c);
                let k = book_pos(bs, c).unwrap();
                assert(book_names(bs)[k] == c);
            }
        }
    }
}

/// The browser's book list names exactly the indexed books: the canonical
/// ones first (in table order), then every other indexed name.
pub proof fn law_ordered_names_are_the_books(bs: Seq<BookM>, x: Seq<char>)
    ensures
        ordered_names(bs).contains(x) <==> book_names(bs).contains(x),
{
    let t = table_books(bs, 66);
    let rest = book_names(bs).filter(|n: Seq<char>| !t.contains(n));
    lemma_table_books_indexed(bs, 66, x);
    if book_names(bs).contains(x) && !t.contains(x) {
        let i = choose|i: int| 0 <= i < book_names(bs).len() && book_names(bs)[i] == x;
        book_names(bs).lemma_filter_contains(|n: Seq<char>| !t.contains(n), i);
        assert(rest.contains(x));
        let j = choose|j: int| 0 <= j < rest.len() && rest[j] == x;
        assert((t + rest)[t.len() + j] == x);
    }
    if t.contains(x) {
        let j = choose|j: int| 0 <= j < t.len() && t[j] == x;
        assert((t + rest)[j] == x);
    }
    if (t + rest).contains(x) && !t.contains(x) {
        let j = choose|j: int| 0 <= j < (t + rest).len() && (t + rest)[j] == x;
        assert(rest[j - t.len()] == x);
        assert(rest.contains(x));
        book_names(bs).lemma_filter_contains_rev(|n: Seq<char>| !t.contains(n), x);
    }
}

/// The hits of every book named in `names`, in that order, uncapped.
pub open spec fn named_hits(bs: Seq<BookM>, names: Seq<Seq<char>>, chapter: Option<u32>, verse: Option<u32>) -> Seq<MatchM>
    decreases names.len(),
{
    if names.len() == 0 {
        seq![]
    } else {
        named_hits(bs, names.drop_last(), chapter, verse) + match book_pos(bs, names.last()) {
            Some(i) => book_hits(bs[i], bs[i].1, chapter, verse),
            None => seq![],
        }
    }
}

/// A search over several books (an ambiguous key) returns the hits of all
/// of them, book after book, cut only at `limit`: the first `limit` of their
/// concatenation.
pub proof fn law_search_takes_every_book(bs: Seq<BookM>, names: Seq<Seq<char>>, chapter: Option<u32>, verse: Option<u32>, limit: int)
    ensures
        search_fold(bs, names, chapter, verse, limit) == fill(seq![], named_hits(bs, names, chapter, verse), limit),
    decreases names.len(),
{
    if names.len() == 0 {
        lemma_fill_empty(seq![], limit);
    } else {
        law_search_takes_every_book(bs, names.drop_last(), chapter, verse, limit);
        let prev = named_hits(bs, names.drop_last(), chapter, verse);
        match book_pos(bs, names.last()) {
            Some(i) => {
                lemma_fill_concat(seq![], prev, book_hits(bs[i], bs[i].1, chapter, verse), limit);
            },
            None => {
                assert(prev + seq![] =~= prev);
            },
        }
    }
}

} // verus!
