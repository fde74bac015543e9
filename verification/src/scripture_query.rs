//! Reading a free-text scripture reference ("john 3:16", "1 cor 13:4",
//! "psalm 23") into a normalized book key, a chapter and a verse.
use crate::text::{
    chars_of, find_first, join, lowercase, parse_u32, parse_u32_chars, slice_of, string_of, trim,
    trim_chars, to_lowercase, words, words_of, find_char, all_digits, is_digit,
};
use vstd::prelude::*;

verus! {

/// The reading state while scanning the words of a query.
pub struct QueryState {
    pub book_tokens: Seq<Seq<char>>,
    pub chapter: Option<u32>,
    pub verse: Option<u32>,
    pub seen_reference: bool,
}

pub open spec fn initial_state() -> QueryState {
    QueryState { book_tokens: seq![], chapter: None, verse: None, seen_reference: false }
}

/// A `chapter:verse` token: each side that parses as a number replaces the
/// current value.
pub open spec fn apply_colon(st: QueryState, tok: Seq<char>) -> QueryState {
    match find_char(tok, ':') {
        Some(k) => {
            let before = parse_u32(tok.take(k));
            let after = parse_u32(tok.skip(k + 1));
            QueryState {
                chapter: if before is Some { before } else { st.chapter },
                verse: if after is Some { after } else { st.verse },
                ..st
            }
        },
        None => st,
    }
}

/// One word of the query. Before a reference is seen, words build the book
/// name (a leading number in a longer query is an ordinal such as the `1`
/// of `1 cor`); a bare number or a `N:N` word is the reference; after it,
/// numbers and `N:N` words update chapter and verse and other words are
/// ignored.
pub open spec fn query_step(st: QueryState, tok: Seq<char>, n_tokens: nat) -> QueryState {
    let has_colon = find_char(tok, ':') is Some;
    let digits = all_digits(tok);
    if !st.seen_reference && digits && !has_colon {
        if st.book_tokens.len() == 0 && n_tokens > 1 {
            QueryState { book_tokens: st.book_tokens.push(tok), ..st }
        } else {
            QueryState { chapter: parse_u32(tok), seen_reference: true, ..st }
        }
    } else if !st.seen_reference {
        if has_colon {
            QueryState { seen_reference: true, ..apply_colon(st, tok) }
        } else {
            QueryState { book_tokens: st.book_tokens.push(tok), ..st }
        }
    } else if has_colon {
        apply_colon(st, tok)
    } else if digits {
        QueryState { chapter: parse_u32(tok), ..st }
    } else {
        st
    }
}

/// The state after reading all of `toks` (of a query of `n_tokens` words).
pub open spec fn query_run(toks: Seq<Seq<char>>, n_tokens: nat) -> QueryState
    decreases toks.len(),
{
    if toks.len() == 0 {
        initial_state()
    } else {
        query_step(query_run(toks.drop_last(), n_tokens), toks.last(), n_tokens)
    }
}

/// The words of a query: trimmed, lower-cased, split at whitespace.
pub open spec fn query_words(q: Seq<char>) -> Seq<Seq<char>> {
    words(lowercase(trim(q)))
}

/// The book key of a query: its book words run together, without `.`, `,`, `-`.
pub open spec fn book_key_of(tokens: Seq<Seq<char>>) -> Seq<char> {
    join(tokens, seq![]).filter(|c: char| c != '.' && c != ',' && c != '-')
}

/// `(book key, chapter, verse)` of a free-text reference.
pub open spec fn parsed_query(q: Seq<char>) -> (Seq<char>, Option<u32>, Option<u32>) {
    if lowercase(trim(q)).len() == 0 {
        (seq![], None, None)
    } else {
        let toks = query_words(q);
        let st = query_run(toks, toks.len());
        (book_key_of(st.book_tokens), st.chapter, st.verse)
    }
}

fn all_ascii_digits(v: &Vec<char>) -> (r: bool)
    ensures
        r == all_digits(v@),
{
    let mut i: usize = 0;
    while i < v.len()
        invariant
            i <= v.len(),
            forall|j: int| 0 <= j < i ==> is_digit(#[trigger] v@[j]),
        decreases v.len() - i,
    {
        if !('0' <= v[i] && v[i] <= '9') {
            assert(!is_digit(v@[i as int]));
            return false;
        }
        i = i + 1;
    }
    true
}

fn apply_colon_exec(chapter: &mut Option<u32>, verse: &mut Option<u32>, tok: &Vec<char>, Ghost(st): Ghost<QueryState>)
    requires
        st.chapter == *old(chapter),
        st.verse == *old(verse),
    ensures
        ({
            let s2 = apply_colon(st, tok@);
            s2.chapter == *final(chapter) && s2.verse == *final(verse)
        }),
{
    match find_first(tok, ':') {
        Some(k) => {
            let before = slice_of(tok, 0, k);
            let after = slice_of(tok, k + 1, tok.len());
            assert(before@ =~= tok@.take(k as int));
            assert(after@ =~= tok@.skip(k + 1));
            if let Some(c) = parse_u32_chars(&before) {
                *chapter = Some(c);
            }
            if let Some(v) = parse_u32_chars(&after) {
                *verse = Some(v);
            }
        },
        None => {},
    }
}

fn filter_book_chars(v: &Vec<char>) -> (r: Vec<char>)
    ensures
        r@ == v@.filter(|c: char| c != '.' && c != ',' && c != '-'),
{
    let ghost f = |c: char| c != '.' && c != ',' && c != '-';
    let mut r: Vec<char> = Vec::new();
    let mut i: usize = 0;
    while i < v.len()
        invariant
            i <= v.len(),
            f == (|c: char| c != '.' && c != ',' && c != '-'),
            r@ == v@.take(i as int).filter(f),
        decreases v.len() - i,
    {
        let c = v[i];
        proof {
            reveal(Seq::filter);
        }
        assert(v@.take(i + 1).drop_last() =~= v@.take(i as int));
        if c != '.' && c != ',' && c != '-' {
            r.push(c);
        }
        i = i + 1;
    }
    assert(v@.take(v.len() as int) =~= v@);
    r
}

/// Parse a query string into `(normalized book, chapter, verse)`.
///
/// Handles "john", "john 3", "john 3:16", "jn 3:16", "1 cor 13:4",
/// "1corinthians": book words accumulate until a number (the chapter) or a
/// `N:N` word (chapter and verse).
pub fn parse_query(query: &str) -> (r: (String, Option<u32>, Option<u32>))
    ensures
        ({
            let (b, c, v) = parsed_query(query@);
            r.0@ == b && r.1 == c && r.2 == v
        }),
{
    let q = to_lowercase(&trim_chars(&chars_of(query)));
    if q.len() == 0 {
        return (String::new(), None, None);
    }
    let tokens = words_of(&q);
    let ghost toks = tokens@.map_values(|l: Vec<char>| l@);
    let n = tokens.len();
    let mut book_tokens: Vec<Vec<char>> = Vec::new();
    let mut chapter: Option<u32> = None;
    let mut verse: Option<u32> = None;
    let mut seen = false;
    let mut i: usize = 0;
    assert(toks.take(0) =~= Seq::<Seq<char>>::empty());
    while i < n
        invariant
            i <= n,
            n == tokens.len(),
            toks == tokens@.map_values(|l: Vec<char>| l@),
            ({
                let st = query_run(toks.take(i as int), n as nat);
                &&& st.book_tokens == book_tokens@.map_values(|l: Vec<char>| l@)
                &&& st.chapter == chapter
                &&& st.verse == verse
                &&& st.seen_reference == seen
            }),
        decreases n - i,
    {
        let token = &tokens[i];
        let ghost st = query_run(toks.take(i as int), n as nat);
        assert(toks.take(i + 1).drop_last() =~= toks.take(i as int));
        assert(toks.take(i + 1).last() == token@);
        let has_colon = find_first(token, ':').is_some();
        let digits = all_ascii_digits(token);
        let ghost before = book_tokens@;
        if !seen && digits && !has_colon {
            if book_tokens.len() == 0 && n > 1 {
                book_tokens.push(token.clone());
                assert(book_tokens@.map_values(|l: Vec<char>| l@) =~= before.map_values(|l: Vec<char>| l@).push(token@));
            } else {
                chapter = parse_u32_chars(token);
                seen = true;
            }
        } else if !seen {
            if has_colon {
                apply_colon_exec(&mut chapter, &mut verse, token, Ghost(st));
                seen = true;
            } else {
                book_tokens.push(token.clone());
                assert(book_tokens@.map_values(|l: Vec<char>| l@) =~= before.map_values(|l: Vec<char>| l@).push(token@));
            }
        } else if has_colon {
            apply_colon_exec(&mut chapter, &mut verse, token, Ghost(st));
        } else if digits {
            chapter = parse_u32_chars(token);
        }
        i = i + 1;
    }
    assert(toks.take(n as int) =~= toks);
    let empty: Vec<char> = Vec::new();
    let joined = crate::text::join_with(&book_tokens, &empty);
    let book = filter_book_chars(&joined);
    (string_of(&book), chapter, verse)
}

} // verus!
