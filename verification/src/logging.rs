//! The structured event log: one `"<timestamp> <LEVEL> <message>"` line per
//! entry, read back newest first, rotated down to its most recent lines
//! once it grows past a cap.
use crate::text::{append, chars_of, find_char, find_first, lit, slice_of, string_of};
use vstd::prelude::*;

verus! {

/// Lines after which the log file is rotated.
pub const MAX_LINES: usize = 8000;

/// Lines kept by a rotation.
pub const ROTATE_KEEP: usize = 4000;

/// Severity of a log entry.
#[derive(Clone, Copy, Debug, PartialEq, Eq, Structural)]
pub enum Level {
    Info,
    Warn,
    Error,
}

pub open spec fn level_text(l: Level) -> Seq<char> {
    match l {
        Level::Info => "INFO"@,
        Level::Warn => "WARN"@,
        Level::Error => "ERROR"@,
    }
}

impl Level {
    /// `"INFO"`, `"WARN"` or `"ERROR"`.
    pub fn as_str(self) -> (r: &'static str)
        ensures
            r@ == level_text(self),
    {
        match self {
            Level::Info => "INFO",
            Level::Warn => "WARN",
            Level::Error => "ERROR",
        }
    }
}

/// One log entry as the frontend shows it.
#[derive(Clone, Debug)]
pub struct LogEntry {
    pub at: String,
    pub level: String,
    pub message: String,
}

/// The line written for an entry.
pub open spec fn log_line(at: Seq<char>, level: Level, message: Seq<char>) -> Seq<char> {
    at + " "@ + level_text(level) + " "@ + message
}

/// The line written for an entry at `at` (an RFC 3339 timestamp).
pub fn format_line(at: &str, level: Level, message: &str) -> (r: String)
    ensures
        r@ == log_line(at@, level, message@),
{
    let mut v = chars_of(at);
    append(&mut v, &lit(" "));
    append(&mut v, &lit(level.as_str()));
    append(&mut v, &lit(" "));
    append(&mut v, &chars_of(message));
    assert(v@ =~= log_line(at@, level, message@));
    string_of(&v)
}

/// A line read back as `(at, level, message)`: split at its first two
/// spaces (`splitn(3, ' ')`); a line without a space is no entry.
pub open spec fn entry_parts(line: Seq<char>) -> Option<(Seq<char>, Seq<char>, Seq<char>)> {
    match find_char(line, ' ') {
        None => None,
        Some(i) => {
            let rest = line.skip(i + 1);
            match find_char(rest, ' ') {
                None => Some((line.take(i), rest, seq![])),
                Some(j) => Some((line.take(i), rest.take(j), rest.skip(j + 1))),
            }
        },
    }
}

pub open spec fn entry_model(e: LogEntry) -> (Seq<char>, Seq<char>, Seq<char>) {
    (e.at@, e.level@, e.message@)
}

/// A log line read back as an entry (see [`entry_parts`]).
pub fn parse_entry(line: &str) -> (r: Option<LogEntry>)
    ensures
        match entry_parts(line@) {
            None => r is None,
            Some(p) => r matches Some(e) && entry_model(e) == p,
        },
{
    let v = chars_of(line);
    match find_first(&v, ' ') {
        None => None,
        Some(i) => {
            let at = slice_of(&v, 0, i);
            assert(at@ =~= v@.take(i as int));
            let rest = slice_of(&v, i + 1, v.len());
            assert(rest@ =~= v@.skip(i + 1));
            match find_first(&rest, ' ') {
                None => Some(LogEntry { at: string_of(&at), level: string_of(&rest), message: String::new() }),
                Some(j) => {
                    let level = slice_of(&rest, 0, j);
                    assert(level@ =~= rest@.take(j as int));
                    let msg = slice_of(&rest, j + 1, rest.len());
                    assert(msg@ =~= rest@.skip(j + 1));
                    Some(LogEntry { at: string_of(&at), level: string_of(&level), message: string_of(&msg) })
                },
            }
        },
    }
}

/// The entries of the last `limit` lines, newest first, skipping lines that
/// are no entry.
pub open spec fn recent_entries(lines: Seq<Seq<char>>, limit: nat) -> Seq<(Seq<char>, Seq<char>, Seq<char>)>
    decreases lines.len(),
{
    if lines.len() == 0 || limit == 0 {
        seq![]
    } else {
        let rest = recent_entries(lines.drop_last(), (limit - 1) as nat);
        match entry_parts(lines.last()) {
            Some(p) => seq![p] + rest,
            None => rest,
        }
    }
}

pub open spec fn entries_model(v: Seq<LogEntry>) -> Seq<(Seq<char>, Seq<char>, Seq<char>)> {
    v.map_values(|e: LogEntry| entry_model(e))
}

/// The most recent entries of a log's lines, newest first.
pub fn recent(lines: &Vec<String>, limit: usize) -> (r: Vec<LogEntry>)
    ensures
        entries_model(r@) == recent_entries(lines@.map_values(|s: String| s@), limit as nat),
{
    let ghost ls = lines@.map_values(|s: String| s@);
    let mut out: Vec<LogEntry> = Vec::new();
    let mut k: usize = lines.len();
    let mut left: usize = limit;
    assert(entries_model(out@) =~= Seq::<(Seq<char>, Seq<char>, Seq<char>)>::empty());
    assert(ls.take(k as int) =~= ls);
    assert(entries_model(out@) + recent_entries(ls.take(k as int), left as nat) =~= recent_entries(ls, limit as nat));
    while k > 0 && left > 0
        invariant
            k <= lines.len(),
            ls == lines@.map_values(|s: String| s@),
            left <= limit,
            entries_model(out@) + recent_entries(ls.take(k as int), left as nat) == recent_entries(ls, limit as nat),
        decreases k,
    {
        let ghost before = entries_model(out@);
        assert(ls.take(k as int).drop_last() =~= ls.take(k - 1));
        assert(ls.take(k as int).last() == lines@[k - 1]@);
        match parse_entry(lines[k - 1].as_str()) {
            Some(e) => {
                out.push(e);
                assert(entries_model(out@) =~= before.push(entry_model(e)));
                assert(before + recent_entries(ls.take(k as int), left as nat)
                    =~= entries_model(out@) + recent_entries(ls.take(k - 1), (left - 1) as nat));
            },
            None => {},
        }
        k = k - 1;
        left = left - 1;
    }
    proof {
        assert(recent_entries(ls.take(k as int), left as nat) =~= Seq::<(Seq<char>, Seq<char>, Seq<char>)>::empty());
        assert(ls.take(lines.len() as int) =~= ls);
    }
    out
}

/// Whether a log holding `count` lines is due for rotation.
pub fn needs_rotation(count: usize) -> (r: bool)
    ensures
        r == (count >= MAX_LINES),
{
    count >= MAX_LINES
}

/// A rotation of `total` lines: how many of the oldest are dropped and how
/// many lines remain.
pub fn rotation(total: usize) -> (r: (usize, usize))
    ensures
        r.0 == (if total > ROTATE_KEEP { total - ROTATE_KEEP } else { 0 }),
        r.1 == (if total < ROTATE_KEEP { total } else { ROTATE_KEEP }),
        r.0 + r.1 == total,
{
    let skip = if total > ROTATE_KEEP { total - ROTATE_KEEP } else { 0 };
    let keep = if total < ROTATE_KEEP { total } else { ROTATE_KEEP };
    (skip, keep)
}

/// A written log line reads back as its entry, whenever the timestamp holds
/// no space (an RFC 3339 timestamp holds none).
pub proof fn law_log_line_roundtrip(at: Seq<char>, level: Level, message: Seq<char>)
    requires
        forall|i: int| 0 <= i < at.len() ==> #[trigger] at[i] != ' ',
    ensures
        entry_parts(log_line(at, level, message)) == Some((at, level_text(level), message)),
{
    reveal_strlit(" ");
    reveal_strlit("INFO");
    reveal_strlit("WARN");
    reveal_strlit("ERROR");
    let line = log_line(at, level, message);
    let lt = level_text(level);
    assert(line[at.len() as int] == ' ');
    assert forall|j: int| 0 <= j < at.len() implies #[trigger] line[j] != ' ' by {
        assert(line[j] == at[j]);
    }
    crate::text::lemma_find_char_found(line, ' ', at.len() as int);
    let rest = line.skip(at.len() + 1int);
    assert(rest =~= lt + " "@ + message);
    assert(rest[lt.len() as int] == ' ');
    assert forall|j: int| 0 <= j < lt.len() implies #[trigger] rest[j] != ' ' by {
        assert(rest[j] == lt[j]);
    }
    crate::text::lemma_find_char_found(rest, ' ', lt.len() as int);
    assert(line.take(at.len() as int) =~= at);
    assert(rest.take(lt.len() as int) =~= lt);
    assert(rest.skip(lt.len() + 1int) =~= message);
}

} // verus!
