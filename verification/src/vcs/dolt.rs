//! The dolt backend.
//!
//! Dolt borrows git's vocabulary, but every reading comes from its `dolt_*`
//! system tables through `dolt sql -r json`. Running a query and decoding its
//! JSON into rows is the caller's part; what the rows mean, and every piece
//! of SQL that is sent, is decided here.
use vstd::prelude::*;

use crate::error::Error;
use crate::text::{
    chars_of, decimal, find, find_from, find_in, has_prefix, join, joined, lemma_find, lines,
    lines_of, occurs_at, owned, parse_bounded, parse_unsigned_up_to, push_all, push_decimal,
    push_str, same_text, slice, string_of, string_of_range, texts, trim, trim_end,
    trim_end_ws, trim_ws, views, lemma_lines_unbroken, lemma_trim_end_ws_prefix,
};
use crate::vcs::{
    branch_views, commit_views, file_views, opt_commit, opt_text, stash_views, Branch, BranchV,
    Change, Commit, CommitV, Detail, DetailV, Distance, FileChange, FileChangeV, RepoState,
    Snapshot, SnapshotV, Stash, StashV, LOG_LIMIT,
};

verus! {

/// The dolt backend.
pub struct DoltVcs;

/// How many characters of a commit hash are shown: dolt's hashes are 32
/// characters of base32, trimmed to a width comparable with git's.
pub const SHORT_ID_LEN: usize = 8;

/// Everything the dashboard needs that does not depend on knowing the
/// upstream, in one round trip. Ages are measured against `utc_timestamp()`
/// because `dolt_log.date` is UTC, and `dolt_log`'s first row is HEAD.
pub const SNAPSHOT_QUERY: &'static str = "select
  active_branch() as branch,
  (select remote from dolt_branches
     where name = active_branch() and remote != '') as upstream_remote,
  (select branch from dolt_branches
     where name = active_branch() and remote != '') as upstream_branch,
  (select count(*) from dolt_status where staged = 1) as staged,
  (select count(*) from dolt_status
     where staged = 0 and status not in ('new table', 'conflict')) as unstaged,
  (select count(*) from dolt_status
     where staged = 0 and status = 'new table') as untracked,
  (select count(*) from dolt_status where status = 'conflict') as conflicts,
  (select count(*) from dolt_stashes) as stashes,
  (select is_merging from dolt_merge_status) as merging,
  (select commit_hash from dolt_log limit 1) as head_id,
  (select message from dolt_log limit 1) as head_subject,
  (select timestampdiff(second, date, utc_timestamp()) from dolt_log limit 1) as head_age";

/// The statement reading `dolt_status` row by row.
pub const STATUS_QUERY: &'static str = "select table_name, staged, status from dolt_status";

/// The statement reading the stash table.
pub const STASH_QUERY: &'static str = "select stash_id, commit_message from dolt_stashes";

/// The statement reading every branch with its tip.
pub const BRANCH_QUERY: &'static str = "select name, remote, branch, hash, latest_commit_message,
           timestampdiff(second, latest_commit_date, utc_timestamp()) as age
         from dolt_branches";

/// Where each reading lands in the stream of documents [`detail_sql`] returns.
pub const DOC_SNAPSHOT: usize = 0;
pub const DOC_STATUS: usize = 1;
pub const DOC_LOG: usize = 2;
pub const DOC_STASHES: usize = 3;
pub const DOC_BRANCHES: usize = 4;

/// The statement reading the most recent commits, `limit` of them.
pub open spec fn log_query_of(limit: nat) -> Seq<char> {
    "select commit_hash, message,
               timestampdiff(second, date, utc_timestamp()) as age
             from dolt_log limit "@ + decimal(limit)
}

/// Everything the detail view reads, as one multi-statement invocation: one
/// JSON document comes back per statement, in the order of the `DOC_*`
/// positions.
pub open spec fn detail_sql_of() -> Seq<char> {
    joined(
        seq![SNAPSHOT_QUERY@, STATUS_QUERY@, log_query_of(LOG_LIMIT as nat), STASH_QUERY@, BRANCH_QUERY@],
        ";\n"@,
    )
}

/// Everything the detail view reads, as one multi-statement invocation.
pub fn detail_sql() -> (res: String)
    ensures
        res@ == detail_sql_of(),
{
    let mut log = owned(
        "select commit_hash, message,
               timestampdiff(second, date, utc_timestamp()) as age
             from dolt_log limit ",
    );
    push_decimal(&mut log, LOG_LIMIT as u64);
    let parts = vec![
        owned(SNAPSHOT_QUERY),
        owned(STATUS_QUERY),
        log,
        owned(STASH_QUERY),
        owned(BRANCH_QUERY),
    ];
    let res = join(&parts, ";\n");
    assert(views(parts@) =~= seq![
        SNAPSHOT_QUERY@,
        STATUS_QUERY@,
        log_query_of(LOG_LIMIT as nat),
        STASH_QUERY@,
        BRANCH_QUERY@,
    ]);
    res
}

/// The count and the unit an age in seconds is shown with; the vocabulary
/// and the switching points are git's, so rows from both backends read
/// alike.
pub open spec fn age_parts(s: nat) -> (nat, Seq<char>) {
    if s < 60 {
        (s, "s"@)
    } else if s < 3600 {
        (s / 60, "m"@)
    } else if s < 86400 {
        (s / 3600, "h"@)
    } else if s < 14 * 86400 {
        (s / 86400, "d"@)
    } else if s < 10 * 604800 {
        (s / 604800, "w"@)
    } else if s < 31556952 {
        (s / 2629746, "mo"@)
    } else {
        (s / 31556952, "y"@)
    }
}

/// An age in seconds squeezed into a column: `7320` is `2h`. A commit dated
/// in the future is clock skew, and reads as brand new.
pub open spec fn compact_age_of(seconds: int) -> Seq<char> {
    let s: nat = if seconds < 0 {
        0
    } else {
        seconds as nat
    };
    decimal(age_parts(s).0) + age_parts(s).1
}

/// Turn an age in seconds into something that fits a column: `7_320` is
/// `2h`, a month is git's average Gregorian month.
pub fn compact_age(seconds: i64) -> (res: String)
    ensures
        res@ == compact_age_of(seconds as int),
{
    let s: u64 = if seconds < 0 {
        0
    } else {
        seconds as u64
    };
    let (count, suffix): (u64, &str) = if s < 60 {
        (s, "s")
    } else if s < 3600 {
        (s / 60, "m")
    } else if s < 86400 {
        (s / 3600, "h")
    } else if s < 14 * 86400 {
        (s / 86400, "d")
    } else if s < 10 * 604800 {
        (s / 604800, "w")
    } else if s < 31556952 {
        (s / 2629746, "mo")
    } else {
        (s / 31556952, "y")
    };
    let mut out = String::new();
    push_decimal(&mut out, count);
    push_str(&mut out, suffix);
    assert(out@ =~= compact_age_of(seconds as int));
    out
}

/// The subject of a commit message: its first line, without trailing
/// whitespace.
pub open spec fn subject_of(message: Seq<char>) -> Seq<char> {
    let ls = lines_of(message);
    if ls.len() == 0 {
        Seq::empty()
    } else {
        trim_end_ws(ls[0])
    }
}

/// The subject of a commit message: its first line. `dolt_log.message` is
/// the whole message, where git's `%s` is the subject alone.
pub fn subject_line(message: &str) -> (res: String)
    ensures
        res@ == subject_of(message@),
{
    let c = chars_of(message);
    let ls = lines(&c);
    if ls.len() == 0 {
        String::new()
    } else {
        assert(texts(ls@)[0] == ls@[0]@);
        let t = trim_end(&ls[0]);
        string_of(&t)
    }
}

/// How one character is written inside a SQL string literal: dolt follows
/// MySQL, where a backslash escapes, so both it and the quote are doubled.
pub open spec fn escaped_char(c: char) -> Seq<char> {
    if c == '\\' {
        seq!['\\', '\\']
    } else if c == '\'' {
        seq!['\'', '\'']
    } else {
        seq![c]
    }
}

/// The text with each character escaped for a SQL string literal.
pub open spec fn escaped(s: Seq<char>) -> Seq<char>
    decreases s.len(),
{
    if s.len() == 0 {
        Seq::empty()
    } else {
        escaped(s.drop_last()) + escaped_char(s.last())
    }
}

/// A value quoted as a SQL string literal.
pub open spec fn quoted(s: Seq<char>) -> Seq<char> {
    seq!['\''] + escaped(s) + seq!['\'']
}

/// Quote a value for use as a SQL string literal. Branch names are the
/// repository's data, and dolt allows a `'` in one.
pub fn sql_literal(value: &str) -> (res: String)
    ensures
        res@ == quoted(value@),
{
    let c = chars_of(value);
    let mut out = String::new();
    out.push('\'');
    let n = c.len();
    let mut i: usize = 0;
    while i < n
        invariant
            n == c@.len(),
            c@ == value@,
            i <= n,
            out@ == seq!['\''] + escaped(c@.take(i as int)),
        decreases n - i,
    {
        let ch = c[i];
        if ch == '\\' {
            out.push('\\');
            out.push('\\');
        } else if ch == '\'' {
            out.push('\'');
            out.push('\'');
        } else {
            out.push(ch);
        }
        assert(c@.take(i + 1).drop_last() =~= c@.take(i as int));
        i += 1;
        assert(out@ =~= seq!['\''] + escaped(c@.take(i as int)));
    }
    out.push('\'');
    assert(c@.take(n as int) =~= c@);
    assert(out@ =~= quoted(value@));
    out
}

/// The statement counting the commits on each side of the upstream:
/// `remotes/<upstream>..<branch>` is ahead, the reverse range behind.
pub open spec fn ahead_behind_sql(branch: Seq<char>, upstream: Seq<char>) -> Seq<char> {
    "select (select count(*) from dolt_log("@ + quoted("remotes/"@ + upstream + ".."@ + branch)
        + ")) as ahead, (select count(*) from dolt_log("@ + quoted(
        branch + "..remotes/"@ + upstream,
    ) + ")) as behind"@
}

/// Count the commits on each side of the upstream. `upstream` is the display
/// form, `origin/main`; dolt's ref for it lives under `remotes/`.
pub fn ahead_behind_query(branch: &str, upstream: &str) -> (res: String)
    ensures
        res@ == ahead_behind_sql(branch@, upstream@),
{
    let mut a = owned("remotes/");
    push_str(&mut a, upstream);
    push_str(&mut a, "..");
    push_str(&mut a, branch);
    let ahead = sql_literal(a.as_str());
    let mut b = owned(branch);
    push_str(&mut b, "..remotes/");
    push_str(&mut b, upstream);
    let behind = sql_literal(b.as_str());
    let mut out = owned("select (select count(*) from dolt_log(");
    push_str(&mut out, ahead.as_str());
    push_str(&mut out, ")) as ahead, (select count(*) from dolt_log(");
    push_str(&mut out, behind.as_str());
    push_str(&mut out, ")) as behind");
    out
}

/// `s` with every occurrence of `p` replaced by `r`, as `str::replace` does:
/// matches are taken left to right without overlapping, and an empty pattern
/// matches between every two characters and at both ends.
pub open spec fn replaced(s: Seq<char>, p: Seq<char>, r: Seq<char>) -> Seq<char>
    decreases s.len(),
{
    if p.len() == 0 {
        if s.len() == 0 {
            r
        } else {
            r + seq![s[0]] + replaced(s.drop_first(), p, r)
        }
    } else {
        let k = find(s, p);
        if k < 0 || k + p.len() > s.len() {
            s
        } else {
            s.take(k) + r + replaced(s.skip(k + p.len()), p, r)
        }
    }
}

/// Drop the copy of the query that dolt echoes back inside its own error:
/// it is several hundred characters standing between the reader and the
/// few words that say what went wrong.
pub fn without_echoed_query(stderr: &str, sql: &str) -> (res: String)
    ensures
        res@ == replaced(stderr@, sql@, "…"@),
{
    let c = chars_of(stderr);
    let p = chars_of(sql);
    let n = c.len();
    let mut out = String::new();
    let mut i: usize = 0;
    assert(c@.skip(0) =~= c@);
    if p.len() == 0 {
        while i < n
            invariant
                n == c@.len(),
                c@ == stderr@,
                p@ == sql@,
                p@.len() == 0,
                i <= n,
                out@ + replaced(c@.skip(i as int), p@, "…"@) == replaced(stderr@, sql@, "…"@),
            decreases n - i,
        {
            let ghost before = out@;
            push_str(&mut out, "…");
            out.push(c[i]);
            assert(c@.skip(i as int).drop_first() =~= c@.skip(i + 1));
            assert(out@ + replaced(c@.skip(i + 1), p@, "…"@) =~= before + replaced(
                c@.skip(i as int),
                p@,
                "…"@,
            ));
            i += 1;
        }
        let ghost before = out@;
        push_str(&mut out, "…");
        assert(c@.skip(i as int) =~= Seq::<char>::empty());
        return out;
    }
    while i < n
        invariant
            n == c@.len(),
            c@ == stderr@,
            p@ == sql@,
            p@.len() > 0,
            i <= n,
            out@ + replaced(c@.skip(i as int), p@, "…"@) == replaced(stderr@, sql@, "…"@),
        decreases n - i,
    {
        let ghost rest = c@.skip(i as int);
        let ghost before = out@;
        match find_from(&c, i, &p) {
            None => {
                let tail = slice(&c, i, n);
                push_all(&mut out, &tail);
                assert(tail@ =~= rest);
                i = n;
                assert(c@.skip(n as int) =~= Seq::<char>::empty());
                assert(replaced(Seq::<char>::empty(), p@, "…"@) =~= Seq::<char>::empty());
                assert(out@ + replaced(c@.skip(i as int), p@, "…"@) =~= before + rest);
            },
            Some(k) => {
                proof {
                    lemma_find(rest, p@);
                    assert(occurs_at(rest, p@, k - i));
                }
                let plen = p.len();
                assert(k + plen <= n);
                let piece = slice(&c, i, k);
                push_all(&mut out, &piece);
                push_str(&mut out, "…");
                assert(piece@ =~= rest.take(k - i));
                assert(rest.skip(k - i + p@.len()) =~= c@.skip(k + plen));
                i = k + plen;
                assert(out@ + replaced(c@.skip(i as int), p@, "…"@) =~= before + replaced(
                    rest,
                    p@,
                    "…"@,
                ));
            },
        }
    }
    out
}

/// The table and where it was renamed from: dolt spells a rename by putting
/// both names in the one column, `sprockets -> widgets2`.
pub open spec fn rename_split(table: Seq<char>) -> (Seq<char>, Option<Seq<char>>) {
    let k = find(table, " -> "@);
    if k < 0 || k + 4 > table.len() {
        (table, None)
    } else {
        (table.skip(k + 4), Some(table.take(k)))
    }
}

/// Split a `dolt_status.table_name` into the table and, for a rename, the
/// name it had before.
pub fn split_rename(table: &str) -> (res: (String, Option<String>))
    ensures
        res.0@ == rename_split(table@).0,
        opt_text(res.1) == rename_split(table@).1,
{
    let c = chars_of(table);
    let arrow = chars_of(" -> ");
    proof {
        reveal_strlit(" -> ");
        lemma_find(c@, arrow@);
    }
    match find_in(&c, &arrow) {
        Some(k) => {
            let n = c.len();
            assert(k + 4 <= n);
            let to = string_of_range(&c, k + 4, n);
            let from = string_of_range(&c, 0, k);
            assert(to@ =~= table@.skip(k + 4));
            assert(from@ =~= table@.take(k as int));
            (to, Some(from))
        },
        None => (owned(table), None),
    }
}

/// What one `dolt_status.status` word means on its side: an unstaged `new
/// table` is one dolt was never told about, which git calls untracked.
pub open spec fn change_of(status: Seq<char>, staged: bool) -> Change {
    if status == "new table"@ && !staged {
        Change::Untracked
    } else if status == "new table"@ {
        Change::Added
    } else if status == "deleted"@ {
        Change::Deleted
    } else if status == "renamed"@ {
        Change::Renamed
    } else if status == "conflict"@ {
        Change::Conflicted
    } else {
        Change::Modified
    }
}

/// Read one `dolt_status.status` value as a [`Change`]; a word this build
/// does not know reads as a modification.
pub fn status_change(status: &str, staged: bool) -> (res: Change)
    ensures
        res == change_of(status@, staged),
{
    if same_text(status, "new table") && !staged {
        Change::Untracked
    } else if same_text(status, "new table") {
        Change::Added
    } else if same_text(status, "deleted") {
        Change::Deleted
    } else if same_text(status, "renamed") {
        Change::Renamed
    } else if same_text(status, "conflict") {
        Change::Conflicted
    } else {
        Change::Modified
    }
}


/// What `format!("{:?}", s)` writes for a string: the text quoted, with
/// its special characters escaped.
pub uninterp spec fn debug_text(s: Seq<char>) -> Seq<char>;

/// `<str as Debug>::fmt`, the quoted and escaped form of a text.
#[verifier::external_body]
fn debug_quote(s: &str) -> (res: String)
    ensures
        res@ == debug_text(s@),
{
    format!("{s:?}")
}

/// What `str::parse::<i64>` reads from `s`: an optional sign, then decimal
/// digits, the value in range.
pub open spec fn parse_i64(s: Seq<char>) -> Option<int> {
    if s.len() > 0 && s[0] == '-' {
        let d = s.drop_first();
        if d.len() > 0 && d[0] != '+' {
            match parse_bounded(d, 9223372036854775808) {
                Some(n) => Some(-n),
                None => None,
            }
        } else {
            None
        }
    } else {
        match parse_bounded(s, 9223372036854775807) {
            Some(n) => Some(n as int),
            None => None,
        }
    }
}

/// `str::parse::<i64>`.
fn parse_i64_text(v: &Vec<char>) -> (res: Option<i64>)
    ensures
        res matches Some(n) ==> parse_i64(v@) == Some(n as int),
        res is None ==> parse_i64(v@) is None,
{
    if v.len() > 0 && v[0] == '-' {
        let d = slice(v, 1, v.len());
        assert(d@ =~= v@.drop_first());
        if d.len() == 0 || d[0] == '+' {
            return None;
        }
        match parse_unsigned_up_to(&d, 9223372036854775808u64) {
            Some(n) => {
                if n == 9223372036854775808u64 {
                    Some(i64::MIN)
                } else {
                    let m = n as i64;
                    Some(-m)
                }
            },
            None => None,
        }
    } else {
        match parse_unsigned_up_to(v, 9223372036854775807u64) {
            Some(n) => Some(n as i64),
            None => None,
        }
    }
}

/// A value dolt may render as a number, a boolean or a string: run against
/// the database directly, `count(*)` is a number and `is_merging` a boolean;
/// through a `dolt sql-server`, every value arrives as a string.
#[derive(Debug, Clone, PartialEq, Eq)]
pub enum Wire {
    Bool(bool),
    Int(i64),
    Str(String),
}

/// The number a wire value stands for, if it stands for one.
pub open spec fn wire_number(w: Wire) -> Option<int> {
    match w {
        Wire::Bool(b) => Some(
            if b {
                1int
            } else {
                0int
            },
        ),
        Wire::Int(n) => Some(n as int),
        Wire::Str(t) => parse_i64(trim_ws(t@)),
    }
}

impl Wire {
    /// The number this value stands for, or why it stands for none.
    pub fn as_i64(&self) -> (res: Result<i64, String>)
        ensures
            match res {
                Ok(n) => wire_number(*self) == Some(n as int),
                Err(m) => wire_number(*self) is None && (self matches Wire::Str(t) && m@
                    == "expected a number, got "@ + debug_text(t@)),
            },
    {
        match self {
            Wire::Bool(flag) => Ok(
                if *flag {
                    1
                } else {
                    0
                },
            ),
            Wire::Int(number) => Ok(*number),
            Wire::Str(text) => {
                let c = chars_of(text.as_str());
                let t = trim(&c);
                match parse_i64_text(&t) {
                    Some(n) => Ok(n),
                    None => {
                        let mut m = owned("expected a number, got ");
                        let q = debug_quote(text.as_str());
                        push_str(&mut m, q.as_str());
                        Err(m)
                    },
                }
            },
        }
    }
}

/// A number squeezed into the range of a count.
pub open spec fn clamp_u32(n: int) -> u32 {
    if n < 0 {
        0
    } else if n > u32::MAX {
        u32::MAX
    } else {
        n as u32
    }
}

/// A count as the row carries it: an absent column is zero.
pub open spec fn count_of(o: Option<Wire>) -> Option<u32> {
    match o {
        None => Some(0),
        Some(w) => match wire_number(w) {
            Some(n) => Some(clamp_u32(n)),
            None => None,
        },
    }
}

/// A flag as the row carries it: an absent column is false, any number but
/// zero is true.
pub open spec fn flag_of(o: Option<Wire>) -> Option<bool> {
    match o {
        None => Some(false),
        Some(w) => match wire_number(w) {
            Some(n) => Some(n != 0),
            None => None,
        },
    }
}

/// A number of seconds as the row carries it: an absent column is zero.
pub open spec fn seconds_of(o: Option<Wire>) -> Option<int> {
    match o {
        None => Some(0),
        Some(w) => wire_number(w),
    }
}

/// Why a value that is there stands for no number: only text can fail to.
pub open spec fn number_error(o: Option<Wire>) -> Seq<char> {
    match o {
        Some(Wire::Str(t)) => "expected a number, got "@ + debug_text(t@),
        _ => Seq::empty(),
    }
}

/// The first position at which `ok` fails, below `n`.
pub open spec fn first_failing(ok: spec_fn(int) -> bool, n: int) -> int {
    choose|i: int|
        #![trigger ok(i)]
        0 <= i < n && !ok(i) && forall|k: int| 0 <= k < i ==> #[trigger] ok(k)
}

proof fn lemma_first_failing(ok: spec_fn(int) -> bool, n: int, i: int)
    requires
        0 <= i < n,
        !ok(i),
        forall|k: int| 0 <= k < i ==> #[trigger] ok(k),
    ensures
        first_failing(ok, n) == i,
{
    let j = first_failing(ok, n);
    assert(0 <= j < n && !ok(j) && forall|k: int| 0 <= k < j ==> #[trigger] ok(k));
    if j < i {
        assert(ok(j));
    } else if j > i {
        assert(ok(i));
    }
}

/// Read a count; anything unreadable is reported rather than counted as
/// zero.
fn read_count(o: &Option<Wire>) -> (res: Result<u32, String>)
    ensures
        match res {
            Ok(n) => count_of(*o) == Some(n),
            Err(m) => count_of(*o) is None && m@ == number_error(*o),
        },
{
    match o {
        None => Ok(0),
        Some(w) => {
            let n = w.as_i64()?;
            if n < 0 {
                Ok(0)
            } else if n > 4294967295 {
                Ok(u32::MAX)
            } else {
                Ok(n as u32)
            }
        },
    }
}

/// Read a flag.
fn read_flag(o: &Option<Wire>) -> (res: Result<bool, String>)
    ensures
        match res {
            Ok(b) => flag_of(*o) == Some(b),
            Err(m) => flag_of(*o) is None && m@ == number_error(*o),
        },
{
    match o {
        None => Ok(false),
        Some(w) => {
            let n = w.as_i64()?;
            Ok(n != 0)
        },
    }
}

/// Read a number of seconds.
fn read_seconds(o: &Option<Wire>) -> (res: Result<i64, String>)
    ensures
        match res {
            Ok(n) => seconds_of(*o) == Some(n as int),
            Err(m) => seconds_of(*o) is None && m@ == number_error(*o),
        },
{
    match o {
        None => Ok(0),
        Some(w) => w.as_i64(),
    }
}

/// The text of an optional string, or nothing.
pub open spec fn text_or_empty(o: Option<String>) -> Seq<char> {
    match o {
        Some(s) => s@,
        None => Seq::empty(),
    }
}

/// A commit hash abbreviated to [`SHORT_ID_LEN`] characters.
pub open spec fn short_of(id: Seq<char>) -> Seq<char> {
    if id.len() <= SHORT_ID_LEN {
        id
    } else {
        id.take(SHORT_ID_LEN as int)
    }
}

/// Abbreviate a commit hash.
fn short_id(id: &str) -> (res: String)
    ensures
        res@ == short_of(id@),
{
    let c = chars_of(id);
    if c.len() <= SHORT_ID_LEN {
        string_of(&c)
    } else {
        string_of_range(&c, 0, SHORT_ID_LEN)
    }
}

/// The commit a row describes.
pub open spec fn commit_of(id: Seq<char>, message: Option<String>, age: int) -> CommitV {
    CommitV { short_id: short_of(id), subject: subject_of(text_or_empty(message)), age: compact_age_of(age) }
}

/// Build the commit a row describes.
fn make_commit(id: &str, message: &Option<String>, age: i64) -> (res: Commit)
    ensures
        res@ == commit_of(id@, *message, age as int),
{
    proof {
        reveal_strlit("");
    }
    let subject = match message {
        Some(m) => subject_line(m.as_str()),
        None => subject_line(""),
    };
    Commit { short_id: short_id(id), subject, age: compact_age(age) }
}

/// The single row [`SNAPSHOT_QUERY`] produces. Dolt leaves null columns out
/// of its JSON rather than writing them as `null`, so every field may be
/// absent.
#[derive(Debug, Clone, Default)]
pub struct SnapshotRow {
    pub branch: Option<String>,
    pub upstream_remote: Option<String>,
    pub upstream_branch: Option<String>,
    pub staged: Option<Wire>,
    pub unstaged: Option<Wire>,
    pub untracked: Option<Wire>,
    pub conflicts: Option<Wire>,
    pub stashes: Option<Wire>,
    pub merging: Option<Wire>,
    pub head_id: Option<String>,
    pub head_subject: Option<String>,
    pub head_age: Option<Wire>,
}

/// Every value of the row can be read.
pub open spec fn snapshot_row_readable(row: SnapshotRow) -> bool {
    &&& count_of(row.staged) is Some
    &&& count_of(row.unstaged) is Some
    &&& count_of(row.untracked) is Some
    &&& count_of(row.conflicts) is Some
    &&& count_of(row.stashes) is Some
    &&& flag_of(row.merging) is Some
    &&& seconds_of(row.head_age) is Some
}

/// The reading a readable row stands for. Dolt has no detached HEAD, and
/// records only whether a merge is under way; the distance to the upstream
/// needs a second query and is zero here.
pub open spec fn snapshot_of_row(row: SnapshotRow) -> SnapshotV {
    let conflicts = count_of(row.conflicts).unwrap();
    SnapshotV {
        branch: opt_text(row.branch),
        upstream: match (row.upstream_remote, row.upstream_branch) {
            (Some(r), Some(b)) => Some(r@ + "/"@ + b@),
            _ => None,
        },
        ahead: 0,
        behind: 0,
        staged: count_of(row.staged).unwrap(),
        unstaged: count_of(row.unstaged).unwrap(),
        untracked: count_of(row.untracked).unwrap(),
        conflicts,
        stashes: count_of(row.stashes).unwrap(),
        head: match row.head_id {
            Some(id) => Some(commit_of(id@, row.head_subject, seconds_of(row.head_age).unwrap())),
            None => None,
        },
        state: if flag_of(row.merging).unwrap() || conflicts > 0 {
            RepoState::Merging
        } else {
            RepoState::Normal
        },
    }
}

/// Why a row cannot be read: the first of its values, in the order they
/// are read, that stands for no number.
pub open spec fn snapshot_row_error(row: SnapshotRow) -> Seq<char> {
    if count_of(row.staged) is None {
        number_error(row.staged)
    } else if count_of(row.unstaged) is None {
        number_error(row.unstaged)
    } else if count_of(row.untracked) is None {
        number_error(row.untracked)
    } else if count_of(row.conflicts) is None {
        number_error(row.conflicts)
    } else if count_of(row.stashes) is None {
        number_error(row.stashes)
    } else if flag_of(row.merging) is None {
        number_error(row.merging)
    } else {
        number_error(row.head_age)
    }
}

/// Read one snapshot row.
fn snapshot_from_row(row: &SnapshotRow) -> (res: Result<Snapshot, String>)
    ensures
        match res {
            Ok(s) => snapshot_row_readable(*row) && s@ == snapshot_of_row(*row),
            Err(m) => !snapshot_row_readable(*row) && m@ == snapshot_row_error(*row),
        },
{
    let staged = read_count(&row.staged)?;
    let unstaged = read_count(&row.unstaged)?;
    let untracked = read_count(&row.untracked)?;
    let conflicts = read_count(&row.conflicts)?;
    let stashes = read_count(&row.stashes)?;
    let merging = read_flag(&row.merging)?;
    let age = read_seconds(&row.head_age)?;
    let upstream = match (&row.upstream_remote, &row.upstream_branch) {
        (Some(r), Some(b)) => {
            let mut u = r.clone();
            push_str(&mut u, "/");
            push_str(&mut u, b.as_str());
            Some(u)
        },
        _ => None,
    };
    let head = match &row.head_id {
        Some(id) => Some(make_commit(id.as_str(), &row.head_subject, age)),
        None => None,
    };
    let branch = match &row.branch {
        Some(b) => Some(b.clone()),
        None => None,
    };
    let s = Snapshot {
        branch,
        upstream,
        ahead: 0,
        behind: 0,
        staged,
        unstaged,
        untracked,
        conflicts,
        stashes,
        head,
        state: if merging || conflicts > 0 {
            RepoState::Merging
        } else {
            RepoState::Normal
        },
    };
    Ok(s)
}

/// Every row of a result set can be read.
pub open spec fn snapshot_rows_readable(rows: Seq<SnapshotRow>) -> bool {
    forall|i: int| 0 <= i < rows.len() ==> snapshot_row_readable(#[trigger] rows[i])
}

/// Which snapshot rows can be read.
pub open spec fn snapshot_ok(rows: Seq<SnapshotRow>) -> spec_fn(int) -> bool {
    |i: int| snapshot_row_readable(rows[i])
}

/// Why a result set cannot be read: the first row that cannot.
pub open spec fn snapshot_rows_error(rows: Seq<SnapshotRow>) -> Seq<char> {
    snapshot_row_error(rows[first_failing(snapshot_ok(rows), rows.len() as int)])
}

/// The reading a result set stands for: its first row, and an empty result
/// set (which dolt prints as a bare `{}`) reads as the empty reading.
pub open spec fn snapshot_of_rows(rows: Seq<SnapshotRow>) -> SnapshotV {
    if rows.len() == 0 {
        crate::vcs::empty_snapshot()
    } else {
        snapshot_of_row(rows[0])
    }
}

impl DoltVcs {
    /// Read a repository's state from the rows [`SNAPSHOT_QUERY`] returned.
    /// A value that cannot be read is an error, not a zero.
    pub fn snapshot_from(rows: &Vec<SnapshotRow>) -> (res: Result<Snapshot, Error>)
        ensures
            match res {
                Ok(s) => snapshot_rows_readable(rows@) && s@ == snapshot_of_rows(rows@),
                Err(Error::BadOutput { program, message }) => !snapshot_rows_readable(rows@)
                    && program@ == "dolt"@ && message@ == snapshot_rows_error(rows@),
                Err(_) => false,
            },
    {
        let n = rows.len();
        let mut first: Option<Snapshot> = None;
        let mut i: usize = 0;
        while i < n
            invariant
                n == rows@.len(),
                i <= n,
                forall|k: int| 0 <= k < i ==> snapshot_row_readable(#[trigger] rows@[k]),
                i == 0 <==> first is None,
                first matches Some(s) ==> s@ == snapshot_of_row(rows@[0]),
            decreases n - i,
        {
            match snapshot_from_row(&rows[i]) {
                Ok(s) => {
                    if i == 0 {
                        first = Some(s);
                    }
                },
                Err(m) => {
                    proof {
                        lemma_first_failing(snapshot_ok(rows@), rows@.len() as int, i as int);
                    }
                    return Err(Error::BadOutput { program: owned("dolt"), message: m });
                },
            }
            i += 1;
        }
        match first {
            Some(s) => Ok(s),
            None => Ok(Snapshot::empty()),
        }
    }

    /// The statement that measures the checked-out branch against its
    /// upstream, when it has one.
    pub fn snapshot_range_query(snapshot: &Snapshot) -> (res: Option<String>)
        ensures
            match (snapshot@.branch, snapshot@.upstream) {
                (Some(b), Some(u)) => res matches Some(q) && q@ == ahead_behind_sql(b, u),
                _ => res is None,
            },
    {
        match (&snapshot.branch, &snapshot.upstream) {
            (Some(b), Some(u)) => Some(ahead_behind_query(b.as_str(), u.as_str())),
            _ => None,
        }
    }

    /// Put the measured distance to the upstream into a reading; an
    /// unmeasured one leaves the counts at zero.
    pub fn with_distance(snapshot: Snapshot, measured: Option<Distance>) -> (res: Snapshot)
        ensures
            match measured {
                Some(d) => res@ == (SnapshotV { ahead: d.ahead, behind: d.behind, ..snapshot@ }),
                None => res@ == snapshot@,
            },
    {
        match measured {
            Some(d) => Snapshot { ahead: d.ahead, behind: d.behind, ..snapshot },
            None => snapshot,
        }
    }
}

/// The one row an ahead/behind statement produces.
#[derive(Debug, Clone, Default)]
pub struct AheadBehindRow {
    pub ahead: Option<Wire>,
    pub behind: Option<Wire>,
}

/// The distance a readable ahead/behind result set stands for: its first
/// row, or level when it has none.
pub open spec fn distance_of_rows(rows: Seq<AheadBehindRow>) -> Option<Distance> {
    if exists|i: int|
        0 <= i < rows.len() && (count_of(#[trigger] rows[i].ahead) is None || count_of(
            rows[i].behind,
        ) is None) {
        None
    } else if rows.len() == 0 {
        Some(Distance { ahead: 0, behind: 0 })
    } else {
        Some(Distance { ahead: count_of(rows[0].ahead).unwrap(), behind: count_of(rows[0].behind).unwrap() })
    }
}

/// Both counts of the row can be read.
pub open spec fn distance_row_readable(row: AheadBehindRow) -> bool {
    count_of(row.ahead) is Some && count_of(row.behind) is Some
}

/// Which ahead/behind rows can be read.
pub open spec fn distance_ok(rows: Seq<AheadBehindRow>) -> spec_fn(int) -> bool {
    |i: int| distance_row_readable(rows[i])
}

/// Why an ahead/behind result set cannot be read: the first count, in the
/// order they are read, that stands for no number.
pub open spec fn distance_rows_error(rows: Seq<AheadBehindRow>) -> Seq<char> {
    let row = rows[first_failing(distance_ok(rows), rows.len() as int)];
    if count_of(row.ahead) is None {
        number_error(row.ahead)
    } else {
        number_error(row.behind)
    }
}

/// Read the counts an ahead/behind statement returned.
pub fn distance_from_rows(rows: &Vec<AheadBehindRow>) -> (res: Result<Distance, Error>)
    ensures
        match res {
            Ok(d) => distance_of_rows(rows@) == Some(d),
            Err(Error::BadOutput { program, message }) => distance_of_rows(rows@) is None
                && program@ == "dolt"@ && message@ == distance_rows_error(rows@),
            Err(_) => false,
        },
{
    let n = rows.len();
    let mut first = Distance { ahead: 0, behind: 0 };
    let mut i: usize = 0;
    while i < n
        invariant
            n == rows@.len(),
            i <= n,
            forall|k: int|
                0 <= k < i ==> count_of(#[trigger] rows@[k].ahead) is Some && count_of(
                    rows@[k].behind,
                ) is Some,
            i > 0 ==> first.ahead == count_of(rows@[0].ahead).unwrap() && first.behind
                == count_of(rows@[0].behind).unwrap(),
            i == 0 ==> first.ahead == 0 && first.behind == 0,
        decreases n - i,
    {
        let a = match read_count(&rows[i].ahead) {
            Ok(a) => a,
            Err(m) => {
                proof {
                    lemma_first_failing(distance_ok(rows@), rows@.len() as int, i as int);
                }
                return Err(Error::BadOutput { program: owned("dolt"), message: m });
            },
        };
        let b = match read_count(&rows[i].behind) {
            Ok(b) => b,
            Err(m) => {
                proof {
                    lemma_first_failing(distance_ok(rows@), rows@.len() as int, i as int);
                }
                return Err(Error::BadOutput { program: owned("dolt"), message: m });
            },
        };
        if i == 0 {
            first = Distance { ahead: a, behind: b };
        }
        i += 1;
    }
    Ok(first)
}


/// One row of `dolt_status`.
#[derive(Debug, Clone, Default)]
pub struct StatusRow {
    pub table_name: String,
    pub staged: Option<Wire>,
    pub status: String,
}

/// One row of `dolt_log`.
#[derive(Debug, Clone, Default)]
pub struct LogRow {
    pub commit_hash: Option<String>,
    pub message: Option<String>,
    pub age: Option<Wire>,
}

/// One row of `dolt_stashes`. There is no timestamp column to read.
#[derive(Debug, Clone, Default)]
pub struct StashRow {
    pub stash_id: Option<String>,
    pub commit_message: Option<String>,
}

/// One row of `dolt_branches`. `remote` and `branch` name the upstream and
/// are empty, not absent, when there is none.
#[derive(Debug, Clone, Default)]
pub struct BranchRow {
    pub name: Option<String>,
    pub remote: Option<String>,
    pub branch: Option<String>,
    pub hash: Option<String>,
    pub latest_commit_message: Option<String>,
    pub age: Option<Wire>,
}

/// The first position of a file with this path, or -1.
pub open spec fn path_index(files: Seq<FileChangeV>, path: Seq<char>) -> int
    decreases files.len(),
{
    if files.len() == 0 {
        -1
    } else {
        let r = path_index(files.drop_last(), path);
        if r >= 0 {
            r
        } else if files.last().path == path {
            files.len() - 1
        } else {
            -1
        }
    }
}

proof fn lemma_path_index(files: Seq<FileChangeV>, path: Seq<char>)
    ensures
        -1 <= path_index(files, path) < files.len(),
        path_index(files, path) >= 0 ==> files[path_index(files, path)].path == path,
        path_index(files, path) == -1 ==> forall|k: int|
            0 <= k < files.len() ==> (#[trigger] files[k]).path != path,
    decreases files.len(),
{
    if files.len() > 0 {
        let t = files.drop_last();
        lemma_path_index(t, path);
        assert forall|k: int| 0 <= k < t.len() implies (#[trigger] t[k]) == files[k] by {}
        if path_index(files, path) == -1 {
            assert forall|k: int| 0 <= k < files.len() implies (#[trigger] files[k]).path
                != path by {
                if k < t.len() {
                    assert(t[k] == files[k]);
                }
            }
        }
    }
}

/// Fold one `dolt_status` row in: dolt lists the staged and the unstaged
/// side of a table as two rows, and they fold into one entry per table.
pub open spec fn fold_status_row(files: Seq<FileChangeV>, row: StatusRow) -> Seq<FileChangeV> {
    let staged = flag_of(row.staged).unwrap();
    let change = change_of(row.status@, staged);
    let (path, origin) = rename_split(row.table_name@);
    let at = path_index(files, path);
    let base = if at < 0 {
        files.push(FileChangeV { path, origin: None, staged: None, unstaged: None })
    } else {
        files
    };
    let i = if at < 0 {
        files.len() as int
    } else {
        at
    };
    let f = base[i];
    base.update(
        i,
        FileChangeV {
            path: f.path,
            origin: if origin is Some {
                origin
            } else {
                f.origin
            },
            staged: if staged {
                Some(change)
            } else {
                f.staged
            },
            unstaged: if staged {
                f.unstaged
            } else {
                Some(change)
            },
        },
    )
}

/// The entries a run of readable `dolt_status` rows folds into.
pub open spec fn files_of(rows: Seq<StatusRow>) -> Seq<FileChangeV>
    decreases rows.len(),
{
    if rows.len() == 0 {
        Seq::empty()
    } else {
        fold_status_row(files_of(rows.drop_last()), rows.last())
    }
}

/// Every row's `staged` flag can be read.
pub open spec fn status_rows_readable(rows: Seq<StatusRow>) -> bool {
    forall|i: int| 0 <= i < rows.len() ==> flag_of(#[trigger] rows[i].staged) is Some
}

/// Which `dolt_status` rows can be read.
pub open spec fn status_ok(rows: Seq<StatusRow>) -> spec_fn(int) -> bool {
    |i: int| flag_of(rows[i].staged) is Some
}

/// Why a run of `dolt_status` rows cannot be read: the first `staged` flag
/// that stands for no number.
pub open spec fn status_rows_error(rows: Seq<StatusRow>) -> Seq<char> {
    number_error(rows[first_failing(status_ok(rows), rows.len() as int)].staged)
}

/// The first position of a file with this path.
fn find_path(files: &Vec<FileChange>, path: &String) -> (res: Option<usize>)
    ensures
        match res {
            Some(k) => path_index(file_views(files@), path@) == k,
            None => path_index(file_views(files@), path@) == -1,
        },
{
    let n = files.len();
    let mut i: usize = 0;
    while i < n
        invariant
            n == files@.len(),
            i <= n,
            path_index(file_views(files@).take(i as int), path@) == -1,
        decreases n - i,
    {
        let ghost pre = file_views(files@).take(i + 1);
        assert(pre.drop_last() =~= file_views(files@).take(i as int));
        if files[i].path == *path {
            proof {
                lemma_path_index(file_views(files@), path@);
                lemma_path_index(pre, path@);
                assert(path_index(pre, path@) == i);
                lemma_path_index_prefix(file_views(files@), path@, i + 1);
            }
            return Some(i);
        }
        i += 1;
    }
    assert(file_views(files@).take(n as int) =~= file_views(files@));
    None
}

/// A path found in a prefix is found at the same place in the whole.
proof fn lemma_path_index_prefix(files: Seq<FileChangeV>, path: Seq<char>, n: int)
    requires
        0 <= n <= files.len(),
        path_index(files.take(n), path) >= 0,
    ensures
        path_index(files, path) == path_index(files.take(n), path),
    decreases files.len() - n,
{
    if n < files.len() {
        let t = files.take(n + 1);
        assert(t.drop_last() =~= files.take(n));
        lemma_path_index_prefix(files, path, n + 1);
    } else {
        assert(files.take(n) =~= files);
    }
}

/// Fold `dolt_status`'s rows into one entry per table, in the order each
/// table first appears.
pub fn parse_files(rows: &Vec<StatusRow>) -> (res: Result<Vec<FileChange>, String>)
    ensures
        match res {
            Ok(files) => status_rows_readable(rows@) && file_views(files@) == files_of(rows@),
            Err(m) => !status_rows_readable(rows@) && m@ == status_rows_error(rows@),
        },
{
    let mut files: Vec<FileChange> = Vec::new();
    let n = rows.len();
    let mut i: usize = 0;
    while i < n
        invariant
            n == rows@.len(),
            i <= n,
            status_rows_readable(rows@.take(i as int)),
            file_views(files@) == files_of(rows@.take(i as int)),
        decreases n - i,
    {
        let row = &rows[i];
        let staged = match read_flag(&row.staged) {
            Ok(b) => b,
            Err(m) => {
                assert(!status_rows_readable(rows@)) by {
                    assert(flag_of(rows@[i as int].staged) is None);
                }
                proof {
                    assert forall|k: int| 0 <= k < i implies #[trigger] status_ok(rows@)(k) by {
                        assert(rows@.take(i as int)[k] == rows@[k]);
                    }
                    lemma_first_failing(status_ok(rows@), rows@.len() as int, i as int);
                }
                return Err(m);
            },
        };
        let change = status_change(row.status.as_str(), staged);
        let (path, origin) = split_rename(row.table_name.as_str());
        let ghost before = file_views(files@);
        proof {
            assert(rows@.take(i + 1).drop_last() =~= rows@.take(i as int));
            assert(rows@.take(i + 1).last() == rows@[i as int]);
            lemma_path_index(before, path@);
        }
        let index = match find_path(&files, &path) {
            Some(k) => k,
            None => {
                files.push(FileChange { path, origin: None, staged: None, unstaged: None });
                assert(file_views(files@) =~= before.push(
                    FileChangeV { path: rename_split(row.table_name@).0, origin: None, staged: None, unstaged: None },
                ));
                files.len() - 1
            },
        };
        let ghost base = file_views(files@);
        let old_file = files.remove(index);
        let new_file = FileChange {
            path: old_file.path,
            origin: if origin.is_some() {
                origin
            } else {
                old_file.origin
            },
            staged: if staged {
                Some(change)
            } else {
                old_file.staged
            },
            unstaged: if staged {
                old_file.unstaged
            } else {
                Some(change)
            },
        };
        files.insert(index, new_file);
        proof {
            assert(file_views(files@) =~= base.update(index as int, file_views(files@)[index as int]));
            assert(file_views(files@) =~= files_of(rows@.take(i + 1)));
            assert forall|k: int| 0 <= k < i + 1 implies flag_of(
                #[trigger] rows@.take(i + 1)[k].staged,
            ) is Some by {
                if k < i {
                    assert(rows@.take(i + 1)[k] == rows@.take(i as int)[k]);
                }
            }
        }
        i += 1;
    }
    assert(rows@.take(n as int) =~= rows@);
    Ok(files)
}

/// Every row's age can be read.
pub open spec fn log_rows_readable(rows: Seq<LogRow>) -> bool {
    forall|i: int| 0 <= i < rows.len() ==> seconds_of(#[trigger] rows[i].age) is Some
}

/// Which `dolt_log` rows can be read.
pub open spec fn log_ok(rows: Seq<LogRow>) -> spec_fn(int) -> bool {
    |i: int| seconds_of(rows[i].age) is Some
}

/// Why a run of `dolt_log` rows cannot be read: the first age that stands
/// for no number.
pub open spec fn log_rows_error(rows: Seq<LogRow>) -> Seq<char> {
    number_error(rows[first_failing(log_ok(rows), rows.len() as int)].age)
}

/// The commits a run of readable `dolt_log` rows lists: each row that names
/// a commit.
pub open spec fn commits_of(rows: Seq<LogRow>) -> Seq<CommitV>
    decreases rows.len(),
{
    if rows.len() == 0 {
        Seq::empty()
    } else {
        let rest = commits_of(rows.drop_last());
        let row = rows.last();
        match row.commit_hash {
            Some(id) => rest.push(commit_of(id@, row.message, seconds_of(row.age).unwrap())),
            None => rest,
        }
    }
}

/// Read the commit list.
pub fn commits_from_rows(rows: &Vec<LogRow>) -> (res: Result<Vec<Commit>, String>)
    ensures
        match res {
            Ok(v) => log_rows_readable(rows@) && commit_views(v@) == commits_of(rows@),
            Err(m) => !log_rows_readable(rows@) && m@ == log_rows_error(rows@),
        },
{
    let mut out: Vec<Commit> = Vec::new();
    let n = rows.len();
    let mut i: usize = 0;
    while i < n
        invariant
            n == rows@.len(),
            i <= n,
            log_rows_readable(rows@.take(i as int)),
            commit_views(out@) == commits_of(rows@.take(i as int)),
        decreases n - i,
    {
        let row = &rows[i];
        let age = match read_seconds(&row.age) {
            Ok(a) => a,
            Err(m) => {
                assert(seconds_of(rows@[i as int].age) is None);
                proof {
                    assert forall|k: int| 0 <= k < i implies seconds_of(#[trigger] rows@[k].age) is Some by {
                        assert(rows@.take(i as int)[k] == rows@[k]);
                    }
                    lemma_first_failing(log_ok(rows@), rows@.len() as int, i as int);
                }
                return Err(m);
            },
        };
        proof {
            assert(rows@.take(i + 1).drop_last() =~= rows@.take(i as int));
            assert(rows@.take(i + 1).last() == rows@[i as int]);
        }
        match &row.commit_hash {
            Some(id) => {
                let ghost before = commit_views(out@);
                let c = make_commit(id.as_str(), &row.message, age);
                let ghost cv = c@;
                out.push(c);
                assert(commit_views(out@) =~= before.push(cv));
            },
            None => {},
        }
        proof {
            assert forall|k: int| 0 <= k < i + 1 implies seconds_of(
                #[trigger] rows@.take(i + 1)[k].age,
            ) is Some by {
                if k < i {
                    assert(rows@.take(i + 1)[k] == rows@.take(i as int)[k]);
                }
            }
        }
        i += 1;
    }
    assert(rows@.take(n as int) =~= rows@);
    Ok(out)
}

/// The stash entry a row stands for: `dolt_stashes` has no timestamp, so
/// the age is left empty rather than filled with a plausible wrong one.
pub open spec fn stash_of_row(row: StashRow) -> StashV {
    StashV {
        id: text_or_empty(row.stash_id),
        message: subject_of(text_or_empty(row.commit_message)),
        age: Seq::empty(),
    }
}

/// Read the stash list.
pub fn stashes_from_rows(rows: &Vec<StashRow>) -> (res: Vec<Stash>)
    ensures
        stash_views(res@) == rows@.map_values(|r: StashRow| stash_of_row(r)),
{
    proof {
        reveal_strlit("");
    }
    let mut out: Vec<Stash> = Vec::new();
    let n = rows.len();
    let mut i: usize = 0;
    while i < n
        invariant
            n == rows@.len(),
            i <= n,
            stash_views(out@) == rows@.take(i as int).map_values(|r: StashRow| stash_of_row(r)),
        decreases n - i,
    {
        proof {
            reveal_strlit("");
        }
        let row = &rows[i];
        let id = match &row.stash_id {
            Some(s) => s.clone(),
            None => String::new(),
        };
        let message = match &row.commit_message {
            Some(m) => subject_line(m.as_str()),
            None => subject_line(""),
        };
        let ghost before = stash_views(out@);
        let st = Stash { id, message, age: String::new() };
        let ghost sv = st@;
        out.push(st);
        assert(sv == stash_of_row(rows@[i as int]));
        assert(stash_views(out@) =~= before.push(sv));
        assert(rows@.take(i + 1).map_values(|r: StashRow| stash_of_row(r)) =~= rows@.take(
            i as int,
        ).map_values(|r: StashRow| stash_of_row(r)).push(stash_of_row(rows@[i as int])));
        i += 1;
    }
    assert(rows@.take(n as int) =~= rows@);
    out
}

/// Every row's age can be read.
pub open spec fn branch_rows_readable(rows: Seq<BranchRow>) -> bool {
    forall|i: int| 0 <= i < rows.len() ==> seconds_of(#[trigger] rows[i].age) is Some
}

/// Which `dolt_branches` rows can be read.
pub open spec fn branch_ok(rows: Seq<BranchRow>) -> spec_fn(int) -> bool {
    |i: int| seconds_of(rows[i].age) is Some
}

/// Why a run of `dolt_branches` rows cannot be read: the first age that
/// stands for no number.
pub open spec fn branch_rows_error(rows: Seq<BranchRow>) -> Seq<char> {
    number_error(rows[first_failing(branch_ok(rows), rows.len() as int)].age)
}

/// The upstream a branch row names: both halves, when neither is empty.
pub open spec fn row_upstream(row: BranchRow) -> Option<Seq<char>> {
    match (row.remote, row.branch) {
        (Some(r), Some(b)) => if r@.len() > 0 && b@.len() > 0 {
            Some(r@ + "/"@ + b@)
        } else {
            None
        },
        _ => None,
    }
}

/// The branches a run of readable `dolt_branches` rows lists: each row that
/// names one, marked as checked out when it is `current`. How far each
/// stands from its upstream is not measured yet, which is not the same as
/// level.
pub open spec fn branches_of(rows: Seq<BranchRow>, current: Seq<char>) -> Seq<BranchV>
    decreases rows.len(),
{
    if rows.len() == 0 {
        Seq::empty()
    } else {
        let rest = branches_of(rows.drop_last(), current);
        let row = rows.last();
        match row.name {
            Some(name) => rest.push(
                BranchV {
                    name: name@,
                    upstream: row_upstream(row),
                    distance: None,
                    head: name@ == current,
                    tip: match row.hash {
                        Some(id) => Some(
                            commit_of(id@, row.latest_commit_message, seconds_of(row.age).unwrap()),
                        ),
                        None => None,
                    },
                },
            ),
            None => rest,
        }
    }
}

/// Read the branch list; `current` is the checked-out branch.
pub fn branches_from_rows(rows: &Vec<BranchRow>, current: &str) -> (res: Result<Vec<Branch>, String>)
    ensures
        match res {
            Ok(v) => branch_rows_readable(rows@) && branch_views(v@) == branches_of(rows@, current@),
            Err(m) => !branch_rows_readable(rows@) && m@ == branch_rows_error(rows@),
        },
{
    let mut out: Vec<Branch> = Vec::new();
    let n = rows.len();
    let mut i: usize = 0;
    while i < n
        invariant
            n == rows@.len(),
            i <= n,
            branch_rows_readable(rows@.take(i as int)),
            branch_views(out@) == branches_of(rows@.take(i as int), current@),
        decreases n - i,
    {
        let row = &rows[i];
        let age = match read_seconds(&row.age) {
            Ok(a) => a,
            Err(m) => {
                assert(seconds_of(rows@[i as int].age) is None);
                proof {
                    assert forall|k: int| 0 <= k < i implies seconds_of(#[trigger] rows@[k].age) is Some by {
                        assert(rows@.take(i as int)[k] == rows@[k]);
                    }
                    lemma_first_failing(branch_ok(rows@), rows@.len() as int, i as int);
                }
                return Err(m);
            },
        };
        proof {
            assert(rows@.take(i + 1).drop_last() =~= rows@.take(i as int));
            assert(rows@.take(i + 1).last() == rows@[i as int]);
        }
        match &row.name {
            Some(name) => {
                let upstream = match (&row.remote, &row.branch) {
                    (Some(r), Some(b)) => {
                        if !r.as_str().is_empty() && !b.as_str().is_empty() {
                            let mut u = r.clone();
                            push_str(&mut u, "/");
                            push_str(&mut u, b.as_str());
                            Some(u)
                        } else {
                            None
                        }
                    },
                    _ => None,
                };
                let tip = match &row.hash {
                    Some(id) => Some(make_commit(id.as_str(), &row.latest_commit_message, age)),
                    None => None,
                };
                let head = same_text(name.as_str(), current);
                let ghost before = branch_views(out@);
                let b = Branch { name: name.clone(), upstream, distance: None, head, tip };
                let ghost bv = b@;
                out.push(b);
                assert(branch_views(out@) =~= before.push(bv));
            },
            None => {},
        }
        proof {
            assert forall|k: int| 0 <= k < i + 1 implies seconds_of(
                #[trigger] rows@.take(i + 1)[k].age,
            ) is Some by {
                if k < i {
                    assert(rows@.take(i + 1)[k] == rows@.take(i as int)[k]);
                }
            }
        }
        i += 1;
    }
    assert(rows@.take(n as int) =~= rows@);
    Ok(out)
}

/// Every document of a detail reading can be read.
pub open spec fn detail_rows_readable(
    snapshot: Seq<SnapshotRow>,
    status: Seq<StatusRow>,
    log: Seq<LogRow>,
    branches: Seq<BranchRow>,
) -> bool {
    &&& snapshot_rows_readable(snapshot)
    &&& status_rows_readable(status)
    &&& log_rows_readable(log)
    &&& branch_rows_readable(branches)
}

/// Why the documents of a detail reading cannot be read: the first of
/// them, in the order they are read, that cannot.
pub open spec fn detail_rows_error(
    snapshot: Seq<SnapshotRow>,
    status: Seq<StatusRow>,
    log: Seq<LogRow>,
    branches: Seq<BranchRow>,
) -> Seq<char> {
    if !snapshot_rows_readable(snapshot) {
        snapshot_rows_error(snapshot)
    } else if !status_rows_readable(status) {
        status_rows_error(status)
    } else if !log_rows_readable(log) {
        log_rows_error(log)
    } else {
        branch_rows_error(branches)
    }
}

/// The detail reading the documents of [`detail_sql`] stand for, before any
/// branch is measured against its upstream.
pub open spec fn detail_of_rows(
    snapshot: Seq<SnapshotRow>,
    status: Seq<StatusRow>,
    log: Seq<LogRow>,
    stashes: Seq<StashRow>,
    branches: Seq<BranchRow>,
) -> DetailV {
    let s = snapshot_of_rows(snapshot);
    DetailV {
        snapshot: s,
        files: files_of(status),
        commits: commits_of(log),
        stashes: stashes.map_values(|r: StashRow| stash_of_row(r)),
        branches: branches_of(
            branches,
            match s.branch {
                Some(b) => b,
                None => Seq::empty(),
            },
        ),
    }
}

impl DoltVcs {
    /// Assemble a detail reading from the rows of each document
    /// [`detail_sql`] produced; a document that is missing has no rows.
    pub fn detail_from(
        snapshot: &Vec<SnapshotRow>,
        status: &Vec<StatusRow>,
        log: &Vec<LogRow>,
        stashes: &Vec<StashRow>,
        branches: &Vec<BranchRow>,
    ) -> (res: Result<Detail, Error>)
        ensures
            match res {
                Ok(d) => detail_rows_readable(snapshot@, status@, log@, branches@) && d@
                    == detail_of_rows(snapshot@, status@, log@, stashes@, branches@),
                Err(Error::BadOutput { program, message }) => !detail_rows_readable(
                    snapshot@,
                    status@,
                    log@,
                    branches@,
                ) && program@ == "dolt"@ && message@ == detail_rows_error(snapshot@, status@, log@, branches@),
                Err(_) => false,
            },
    {
        let snap = DoltVcs::snapshot_from(snapshot)?;
        let files = match parse_files(status) {
            Ok(f) => f,
            Err(m) => {
                return Err(Error::BadOutput { program: owned("dolt"), message: m });
            },
        };
        let commits = match commits_from_rows(log) {
            Ok(c) => c,
            Err(m) => {
                return Err(Error::BadOutput { program: owned("dolt"), message: m });
            },
        };
        let stash_list = stashes_from_rows(stashes);
        let current = match &snap.branch {
            Some(b) => b.clone(),
            None => String::new(),
        };
        let branch_list = match branches_from_rows(branches, current.as_str()) {
            Ok(b) => b,
            Err(m) => {
                return Err(Error::BadOutput { program: owned("dolt"), message: m });
            },
        };
        Ok(Detail { snapshot: snap, files, commits, stashes: stash_list, branches: branch_list })
    }
}


/// A subject never holds a line break: only the first line of a message
/// reaches it.
proof fn lemma_subject_unbroken(message: Seq<char>)
    ensures
        !subject_of(message).contains('\n'),
{
    let ls = lines_of(message);
    if ls.len() > 0 {
        lemma_lines_unbroken(message);
        let l = ls[0];
        assert(!l.contains('\n'));
        lemma_trim_end_ws_prefix(l);
        let t = trim_end_ws(l);
        assert forall|k: int| 0 <= k < t.len() implies t[k] != '\n' by {
            assert(t[k] == l[k]);
            if l[k] == '\n' {
                assert(l.contains('\n'));
            }
        }
    }
}

/// A commit as the detail view shows it: a one-line subject and a short id.
pub open spec fn commit_shaped(c: CommitV) -> bool {
    !c.subject.contains('\n') && c.short_id.len() <= SHORT_ID_LEN
}

/// No two entries share a path.
pub open spec fn paths_distinct(files: Seq<FileChangeV>) -> bool {
    forall|i: int, j: int| 0 <= i < j < files.len() ==> #[trigger] files[i].path != #[trigger] files[j].path
}

proof fn lemma_commit_shaped(id: Seq<char>, message: Option<String>, age: int)
    ensures
        commit_shaped(commit_of(id, message, age)),
{
    lemma_subject_unbroken(text_or_empty(message));
}

proof fn lemma_files_distinct(rows: Seq<StatusRow>)
    ensures
        paths_distinct(files_of(rows)),
    decreases rows.len(),
{
    if rows.len() > 0 {
        let prev = files_of(rows.drop_last());
        lemma_files_distinct(rows.drop_last());
        let row = rows.last();
        let (path, origin) = rename_split(row.table_name@);
        lemma_path_index(prev, path);
        let files = files_of(rows);
        assert forall|i: int, j: int| 0 <= i < j < files.len() implies #[trigger] files[i].path
            != #[trigger] files[j].path by {
            if j < prev.len() {
                assert(files[i].path == prev[i].path);
                assert(files[j].path == prev[j].path);
            } else {
                assert(files[i].path == prev[i].path);
            }
        }
    }
}

proof fn lemma_commits_shaped(rows: Seq<LogRow>)
    ensures
        forall|i: int| 0 <= i < commits_of(rows).len() ==> commit_shaped(#[trigger] commits_of(rows)[i]),
    decreases rows.len(),
{
    if rows.len() > 0 {
        lemma_commits_shaped(rows.drop_last());
        let row = rows.last();
        if let Some(id) = row.commit_hash {
            lemma_commit_shaped(id@, row.message, seconds_of(row.age).unwrap());
        }
        let cs = commits_of(rows);
        let prev = commits_of(rows.drop_last());
        assert forall|i: int| 0 <= i < cs.len() implies commit_shaped(#[trigger] cs[i]) by {
            if i < prev.len() {
                assert(cs[i] == prev[i]);
            }
        }
    }
}

proof fn lemma_branches_shaped(rows: Seq<BranchRow>, current: Seq<char>)
    ensures
        forall|i: int|
            0 <= i < branches_of(rows, current).len() ==> {
                let b = #[trigger] branches_of(rows, current)[i];
                &&& b.distance is None
                &&& b.head == (b.name == current)
                &&& (b.tip matches Some(c) ==> commit_shaped(c))
            },
    decreases rows.len(),
{
    if rows.len() > 0 {
        lemma_branches_shaped(rows.drop_last(), current);
        let row = rows.last();
        if let Some(id) = row.hash {
            lemma_commit_shaped(id@, row.latest_commit_message, seconds_of(row.age).unwrap());
        }
        let bs = branches_of(rows, current);
        let prev = branches_of(rows.drop_last(), current);
        assert forall|i: int| 0 <= i < bs.len() && i < prev.len() implies #[trigger] bs[i] == prev[i] by {}
    }
}

/// The shape of every detail reading from dolt's documents: a commit,
/// branch tip or stash shows one line of its message and a commit a short
/// id, no branch is measured yet, the checked-out branch is the one the
/// snapshot names, and no two file entries share a path.
pub proof fn law_dolt_detail_is_well_shaped(
    snapshot: Seq<SnapshotRow>,
    status: Seq<StatusRow>,
    log: Seq<LogRow>,
    stashes: Seq<StashRow>,
    branches: Seq<BranchRow>,
)
    ensures
        ({
            let d = detail_of_rows(snapshot, status, log, stashes, branches);
            let current = match d.snapshot.branch {
                Some(b) => b,
                None => Seq::empty(),
            };
            &&& forall|i: int| 0 <= i < d.commits.len() ==> commit_shaped(#[trigger] d.commits[i])
            &&& forall|i: int| 0 <= i < d.stashes.len() ==> !(#[trigger] d.stashes[i]).message.contains('\n')
            &&& forall|i: int|
                0 <= i < d.branches.len() ==> {
                    let b = #[trigger] d.branches[i];
                    &&& b.distance is None
                    &&& b.head == (b.name == current)
                    &&& (b.tip matches Some(c) ==> commit_shaped(c))
                }
            &&& (d.snapshot.head matches Some(c) ==> commit_shaped(c))
            &&& paths_distinct(d.files)
        }),
{
    let d = detail_of_rows(snapshot, status, log, stashes, branches);
    lemma_commits_shaped(log);
    lemma_files_distinct(status);
    let current = match d.snapshot.branch {
        Some(b) => b,
        None => Seq::empty(),
    };
    lemma_branches_shaped(branches, current);
    assert forall|i: int| 0 <= i < d.stashes.len() implies !(#[trigger] d.stashes[i]).message.contains('\n') by {
        lemma_subject_unbroken(text_or_empty(stashes[i].commit_message));
    }
    if snapshot.len() > 0 {
        let row = snapshot[0];
        if let Some(id) = row.head_id {
            lemma_commit_shaped(id@, row.head_subject, seconds_of(row.head_age).unwrap());
        }
    }
}

/// The branches that have an upstream, each with the statement that
/// measures it, in branch order.
pub open spec fn range_queries(bs: Seq<BranchV>) -> Seq<(int, Seq<char>)>
    decreases bs.len(),
{
    if bs.len() == 0 {
        Seq::empty()
    } else {
        let rest = range_queries(bs.drop_last());
        let b = bs.last();
        match b.upstream {
            Some(u) => rest.push((bs.len() - 1, ahead_behind_sql(b.name, u))),
            None => rest,
        }
    }
}

/// The queries as positions and text.
pub open spec fn query_views(qs: Seq<(usize, String)>) -> Seq<(int, Seq<char>)> {
    qs.map_values(|q: (usize, String)| (q.0 as int, q.1@))
}

/// One measurement folded into a detail reading: the branch gets its
/// distance, and when it is the checked-out branch, so does the header.
pub open spec fn apply_distance(d: DetailV, index: int, m: Option<Distance>) -> DetailV {
    match m {
        None => d,
        Some(dist) => {
            let b = d.branches[index];
            let branches = d.branches.update(index, BranchV { distance: Some(dist), ..b });
            if b.head {
                DetailV {
                    snapshot: SnapshotV { ahead: dist.ahead, behind: dist.behind, ..d.snapshot },
                    branches,
                    ..d
                }
            } else {
                DetailV { branches, ..d }
            }
        },
    }
}

/// The first `n` measurements folded into a detail reading, in order.
pub open spec fn applied(d: DetailV, idx: Seq<int>, ms: Seq<Option<Distance>>, n: nat) -> DetailV
    decreases n,
{
    if n == 0 {
        d
    } else {
        apply_distance(applied(d, idx, ms, (n - 1) as nat), idx[n - 1], ms[n - 1])
    }
}

impl DoltVcs {
    /// Each branch with an upstream, and the statement that measures it.
    pub fn distance_queries(detail: &Detail) -> (res: Vec<(usize, String)>)
        ensures
            query_views(res@) == range_queries(detail@.branches),
    {
        let ghost bs = detail@.branches;
        let n = detail.branches.len();
        let mut out: Vec<(usize, String)> = Vec::new();
        let mut i: usize = 0;
        while i < n
            invariant
                n == detail.branches@.len(),
                bs == detail@.branches,
                bs.len() == n,
                i <= n,
                query_views(out@) == range_queries(bs.take(i as int)),
            decreases n - i,
        {
            let b = &detail.branches[i];
            proof {
                assert(bs.take(i + 1).drop_last() =~= bs.take(i as int));
                assert(bs.take(i + 1).last() == b@);
            }
            match &b.upstream {
                Some(u) => {
                    let ghost before = query_views(out@);
                    let q = ahead_behind_query(b.name.as_str(), u.as_str());
                    let ghost qv = q@;
                    out.push((i, q));
                    assert(query_views(out@) =~= before.push((i as int, qv)));
                },
                None => {},
            }
            i += 1;
        }
        assert(bs.take(n as int) =~= bs);
        out
    }

    /// Every measuring statement, as one batch.
    pub fn batched_sql(queries: &Vec<(usize, String)>) -> (res: String)
        ensures
            res@ == joined(query_views(queries@).map_values(|q: (int, Seq<char>)| q.1), ";\n"@),
    {
        let mut parts: Vec<String> = Vec::new();
        let n = queries.len();
        let mut i: usize = 0;
        while i < n
            invariant
                n == queries@.len(),
                i <= n,
                views(parts@) == query_views(queries@).take(i as int).map_values(
                    |q: (int, Seq<char>)| q.1,
                ),
            decreases n - i,
        {
            let ghost before = views(parts@);
            parts.push(queries[i].1.clone());
            assert(views(parts@) =~= before.push(queries@[i as int].1@));
            assert(query_views(queries@).take(i + 1).map_values(|q: (int, Seq<char>)| q.1)
                =~= query_views(queries@).take(i as int).map_values(|q: (int, Seq<char>)| q.1).push(
                queries@[i as int].1@,
            ));
            i += 1;
        }
        assert(query_views(queries@).take(n as int) =~= query_views(queries@));
        join(&parts, ";\n")
    }

    /// The measurements of a batch, when it answered one per statement; a
    /// short or failed batch is asked again one statement at a time.
    pub fn whole_batch(batch: Option<Vec<Option<Distance>>>, n: usize) -> (res: Option<
        Vec<Option<Distance>>,
    >)
        ensures
            match batch {
                Some(docs) => if docs@.len() == n {
                    res == Some(docs)
                } else {
                    res is None
                },
                None => res is None,
            },
    {
        match batch {
            Some(docs) => if docs.len() == n {
                Some(docs)
            } else {
                None
            },
            None => None,
        }
    }

    /// The measurement a single statement gave: its first document, when the
    /// call succeeded and that document could be read.
    pub fn first_distance(answer: Option<Vec<Option<Distance>>>) -> (res: Option<Distance>)
        ensures
            match answer {
                Some(docs) => if docs@.len() > 0 {
                    res == docs@[0]
                } else {
                    res is None
                },
                None => res is None,
            },
    {
        match answer {
            Some(docs) => if docs.len() > 0 {
                docs[0]
            } else {
                None
            },
            None => None,
        }
    }

    /// Fold the measurements into a detail reading, pairing each with its
    /// query in order; a branch that could not be measured keeps no
    /// distance, which reads as nothing rather than as level.
    pub fn apply_distances(
        detail: &mut Detail,
        queries: &Vec<(usize, String)>,
        measured: &Vec<Option<Distance>>,
    )
        requires
            forall|k: int| 0 <= k < queries@.len() ==> (#[trigger] queries@[k]).0 < old(detail).branches@.len(),
        ensures
            final(detail)@ == applied(
                old(detail)@,
                queries@.map_values(|q: (usize, String)| q.0 as int),
                measured@,
                if queries@.len() < measured@.len() {
                    queries@.len()
                } else {
                    measured@.len()
                },
            ),
    {
        let ghost idx = queries@.map_values(|q: (usize, String)| q.0 as int);
        let n = if queries.len() < measured.len() {
            queries.len()
        } else {
            measured.len()
        };
        let mut k: usize = 0;
        while k < n
            invariant
                n <= queries@.len(),
                n <= measured@.len(),
                n == (if queries@.len() < measured@.len() {
                    queries@.len()
                } else {
                    measured@.len()
                }),
                idx == queries@.map_values(|q: (usize, String)| q.0 as int),
                k <= n,
                detail.branches@.len() == old(detail).branches@.len(),
                forall|j: int| 0 <= j < queries@.len() ==> (#[trigger] queries@[j]).0 < old(detail).branches@.len(),
                detail@ == applied(old(detail)@, idx, measured@, k as nat),
            decreases n - k,
        {
            let index = queries[k].0;
            match measured[k] {
                None => {},
                Some(dist) => {
                    let ghost before = detail@;
                    let mut b = detail.branches.remove(index);
                    let head = b.head;
                    b.distance = Some(dist);
                    detail.branches.insert(index, b);
                    if head {
                        detail.snapshot.ahead = dist.ahead;
                        detail.snapshot.behind = dist.behind;
                    }
                    assert(detail@.branches =~= before.branches.update(
                        index as int,
                        BranchV { distance: Some(dist), ..before.branches[index as int] },
                    ));
                },
            }
            k += 1;
            assert(detail@ == applied(old(detail)@, idx, measured@, k as nat));
        }
    }
}

} // verus!
