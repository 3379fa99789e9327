//! The git backend's readings: the grammar of what git prints, and what each
//! command's output means.
//!
//! Running git happens outside; every function here is a pure function from
//! the text git printed to the value it describes.

use vstd::prelude::*;

use crate::text::{has_prefix, starts_with, ends_with, has_suffix, split_char, trim, trim_ws, trim_start_in, trim_start_matches, chars_of, find, find_in, find_ws, first_ws, is_text, lemma_find, lemma_first_ws, lemma_split_on_len, lines, lines_of, parse_bounded, parse_unsigned_up_to, same, slice, split_on, split_words, string_of, texts, trim_end_in, trim_end_matches, trim_start, trim_start_ws, words};
use crate::vcs::{Detail, DetailV, RepoState, opt_text, settle_state, settled_state, BranchV, Branch, branch_views, Commit, CommitV, commit_views, opt_commit, Distance, Stash, StashV, stash_views, Change, FileChange, FileChangeV, Snapshot, SnapshotV, empty_snapshot, file_views};

verus! {

/// Field separator for `git log --format`: the ASCII unit separator.
pub const SEP: char = '\u{1f}';

/// The git backend.
pub struct GitVcs;

/// Split on the first run of whitespace, after dropping trailing `\r`/`\n`.
pub open spec fn ws_split(line: Seq<char>) -> Option<(Seq<char>, Seq<char>)> {
    let l = trim_end_in(line, seq!['\r', '\n']);
    let i = first_ws(l);
    if i < 0 {
        None
    } else {
        Some((l.take(i), trim_start_ws(l.skip(i))))
    }
}

/// Split on the first run of whitespace. `None` if there is no second field.
pub fn split_once_ws(line: &Vec<char>) -> (res: Option<(Vec<char>, Vec<char>)>)
    ensures
        match res {
            None => ws_split(line@) is None,
            Some((h, t)) => ws_split(line@) == Some((h@, t@)),
        },
{
    let set = vec!['\r', '\n'];
    assert(set@ =~= seq!['\r', '\n']);
    let l = trim_end_matches(line, &set);
    match find_ws(&l) {
        None => None,
        Some(i) => {
            proof {
                lemma_first_ws(l@);
            }
            let head = slice(&l, 0, i);
            let after = slice(&l, i, l.len());
            let tail = trim_start(&after);
            assert(head@ =~= l@.take(i as int));
            assert(after@ =~= l@.skip(i as int));
            Some((head, tail))
        },
    }
}

/// What is left of `rest` after dropping `n` whitespace-separated fields.
pub open spec fn skip_n(rest: Seq<char>, n: nat) -> Option<Seq<char>>
    decreases n,
{
    if n == 0 {
        Some(rest)
    } else {
        match ws_split(rest) {
            None => None,
            Some((_, t)) => skip_n(t, (n - 1) as nat),
        }
    }
}

/// Drop `n` whitespace-separated fields and return what is left, whole.
pub fn skip_fields(rest: &Vec<char>, n: usize) -> (res: Option<Vec<char>>)
    ensures
        match res {
            None => skip_n(rest@, n as nat) is None,
            Some(r) => skip_n(rest@, n as nat) == Some(r@),
        },
{
    let mut cur = slice(rest, 0, rest.len());
    assert(cur@ =~= rest@);
    let mut k: usize = 0;
    while k < n
        invariant
            k <= n,
            skip_n(rest@, n as nat) == skip_n(cur@, (n - k) as nat),
        decreases n - k,
    {
        match split_once_ws(&cur) {
            None => {
                return None;
            },
            Some((_, t)) => {
                cur = t;
            },
        }
        k += 1;
    }
    Some(cur)
}

/// One side of porcelain v2's `<XY>` pair; `.` means nothing changed there,
/// and a letter this build does not know is read as a modification.
pub open spec fn side_of(code: char) -> Option<Change> {
    if code == '.' {
        None
    } else if code == 'A' {
        Some(Change::Added)
    } else if code == 'D' {
        Some(Change::Deleted)
    } else if code == 'R' {
        Some(Change::Renamed)
    } else if code == 'C' {
        Some(Change::Copied)
    } else if code == 'T' {
        Some(Change::TypeChanged)
    } else {
        Some(Change::Modified)
    }
}

/// One half of porcelain v2's `<XY>` pair.
pub fn side_change(code: char) -> (res: Option<Change>)
    ensures
        res == side_of(code),
{
    match code {
        '.' => None,
        'A' => Some(Change::Added),
        'D' => Some(Change::Deleted),
        'R' => Some(Change::Renamed),
        'C' => Some(Change::Copied),
        'T' => Some(Change::TypeChanged),
        _ => Some(Change::Modified),
    }
}

/// A number as `str::parse::<u32>` reads it, or zero.
pub open spec fn u32_or_zero(s: Seq<char>) -> u32 {
    match parse_bounded(s, u32::MAX as nat) {
        Some(n) => n as u32,
        None => 0,
    }
}

/// `s.parse::<u32>().unwrap_or(0)`.
pub fn parse_u32_or_zero(s: &Vec<char>) -> (res: u32)
    ensures
        res == u32_or_zero(s@),
{
    match parse_unsigned_up_to(s, u32::MAX as u64) {
        Some(n) => n as u32,
        None => 0,
    }
}

/// One `+n`/`-n` token of `# branch.ab`.
pub open spec fn ab_token(snap: SnapshotV, tok: Seq<char>) -> SnapshotV {
    if tok.len() >= 1 && tok[0] == '+' {
        SnapshotV { ahead: u32_or_zero(tok.drop_first()), ..snap }
    } else if tok.len() >= 1 && tok[0] == '-' {
        SnapshotV { behind: u32_or_zero(tok.drop_first()), ..snap }
    } else {
        snap
    }
}

/// Every token of `# branch.ab`, left to right.
pub open spec fn ab_tokens(snap: SnapshotV, toks: Seq<Seq<char>>) -> SnapshotV
    decreases toks.len(),
{
    if toks.len() == 0 {
        snap
    } else {
        ab_token(ab_tokens(snap, toks.drop_last()), toks.last())
    }
}

/// What one `# branch.*` header line (the `# ` already stripped) says.
pub open spec fn header_step(snap: SnapshotV, rest: Seq<char>) -> SnapshotV {
    match ws_split(rest) {
        None => snap,
        Some((key, value)) => if key == "branch.head"@ {
            if value != "(detached)"@ {
                SnapshotV { branch: Some(value), ..snap }
            } else {
                snap
            }
        } else if key == "branch.upstream"@ {
            SnapshotV { upstream: Some(value), ..snap }
        } else if key == "branch.ab"@ {
            ab_tokens(snap, words(value))
        } else {
            snap
        },
    }
}

/// Parse one `# branch.*` header line (the `# ` prefix already stripped).
pub fn parse_branch_header(rest: &Vec<char>, snap: &mut Snapshot)
    ensures
        final(snap)@ == header_step(old(snap)@, rest@),
{
    let Some((key, value)) = split_once_ws(rest) else {
        return;
    };
    if is_text(&key, "branch.head") {
        if !is_text(&value, "(detached)") {
            snap.branch = Some(string_of(&value));
        }
    } else if is_text(&key, "branch.upstream") {
        snap.upstream = Some(string_of(&value));
    } else if is_text(&key, "branch.ab") {
        let toks = split_words(&value);
        let mut i: usize = 0;
        let ghost start = snap@;
        while i < toks.len()
            invariant
                i <= toks@.len(),
                texts(toks@) == words(value@),
                snap@ == ab_tokens(start, texts(toks@).take(i as int)),
                start == old(snap)@,
            decreases toks@.len() - i,
        {
            let tok = &toks[i];
            assert(texts(toks@).take(i + 1).drop_last() =~= texts(toks@).take(i as int));
            if tok.len() >= 1 && tok[0] == '+' {
                let n = slice(tok, 1, tok.len());
                assert(n@ =~= tok@.drop_first());
                snap.ahead = parse_u32_or_zero(&n);
            } else if tok.len() >= 1 && tok[0] == '-' {
                let n = slice(tok, 1, tok.len());
                assert(n@ =~= tok@.drop_first());
                snap.behind = parse_u32_or_zero(&n);
            }
            i += 1;
        }
        assert(texts(toks@).take(toks@.len() as int) =~= words(value@));
    }
}

pub proof fn lemma_ab_keeps_counts(snap: SnapshotV, toks: Seq<Seq<char>>)
    ensures
        ab_tokens(snap, toks).staged == snap.staged,
        ab_tokens(snap, toks).unstaged == snap.unstaged,
        ab_tokens(snap, toks).untracked == snap.untracked,
        ab_tokens(snap, toks).conflicts == snap.conflicts,
    decreases toks.len(),
{
    if toks.len() > 0 {
        lemma_ab_keeps_counts(snap, toks.drop_last());
    }
}

pub proof fn lemma_header_keeps_counts(snap: SnapshotV, rest: Seq<char>)
    ensures
        header_step(snap, rest).staged == snap.staged,
        header_step(snap, rest).unstaged == snap.unstaged,
        header_step(snap, rest).untracked == snap.untracked,
        header_step(snap, rest).conflicts == snap.conflicts,
{
    if let Some((key, value)) = ws_split(rest) {
        lemma_ab_keeps_counts(snap, words(value));
    }
}

/// The new path and, for a rename or copy, the one it came from: porcelain
/// separates them with a tab.
pub open spec fn tab_split(paths: Seq<char>) -> (Seq<char>, Option<Seq<char>>) {
    let k = find(paths, seq!['\t']);
    if k >= 0 {
        (paths.take(k), Some(paths.skip(k + 1)))
    } else {
        (paths, None)
    }
}

/// Everything one `git status --porcelain=v2 --branch` says.
#[derive(Debug)]
pub struct Status {
    pub snapshot: Snapshot,
    pub files: Vec<FileChange>,
}

/// A status reading as text and numbers.
pub struct StatusV {
    pub snapshot: SnapshotV,
    pub files: Seq<FileChangeV>,
}

impl View for Status {
    type V = StatusV;

    open spec fn view(&self) -> StatusV {
        StatusV { snapshot: self.snapshot@, files: file_views(self.files@) }
    }
}

/// Add one to a count.
pub open spec fn bump(n: u32) -> u32 {
    (n + 1) as u32
}

/// An ordinary (`1`) or rename/copy (`2`) entry.
pub open spec fn entry_line(acc: StatusV, ordinary: bool, rest: Seq<char>) -> StatusV {
    match ws_split(rest) {
        None => acc,
        Some((xy, after)) => {
            let staged = side_of(if xy.len() >= 1 { xy[0] } else { '.' });
            let unstaged = side_of(if xy.len() >= 2 { xy[1] } else { '.' });
            let snap = SnapshotV {
                staged: if staged is Some { bump(acc.snapshot.staged) } else { acc.snapshot.staged },
                unstaged: if unstaged is Some { bump(acc.snapshot.unstaged) } else { acc.snapshot.unstaged },
                ..acc.snapshot
            };
            match skip_n(after, if ordinary { 6 } else { 7 }) {
                None => StatusV { snapshot: snap, files: acc.files },
                Some(paths) => StatusV {
                    snapshot: snap,
                    files: acc.files.push(
                        FileChangeV {
                            path: tab_split(paths).0,
                            origin: tab_split(paths).1,
                            staged,
                            unstaged,
                        },
                    ),
                },
            }
        },
    }
}

/// An unmerged (`u`) entry: a conflict, on both sides.
pub open spec fn unmerged_line(acc: StatusV, rest: Seq<char>) -> StatusV {
    let snap = SnapshotV { conflicts: bump(acc.snapshot.conflicts), ..acc.snapshot };
    let path = match ws_split(rest) {
        None => None,
        Some((_, after)) => skip_n(after, 8),
    };
    match path {
        None => StatusV { snapshot: snap, files: acc.files },
        Some(p) => StatusV {
            snapshot: snap,
            files: acc.files.push(
                FileChangeV {
                    path: p,
                    origin: None,
                    staged: Some(Change::Conflicted),
                    unstaged: Some(Change::Conflicted),
                },
            ),
        },
    }
}

/// What one line of porcelain v2 adds to the reading.
pub open spec fn status_line(acc: StatusV, line: Seq<char>) -> StatusV {
    match ws_split(line) {
        None => acc,
        Some((tag, rest)) => if tag == "#"@ {
            StatusV { snapshot: header_step(acc.snapshot, rest), files: acc.files }
        } else if tag == "1"@ || tag == "2"@ {
            entry_line(acc, tag == "1"@, rest)
        } else if tag == "u"@ {
            unmerged_line(acc, rest)
        } else if tag == "?"@ {
            StatusV {
                snapshot: SnapshotV { untracked: bump(acc.snapshot.untracked), ..acc.snapshot },
                files: acc.files.push(
                    FileChangeV {
                        path: rest,
                        origin: None,
                        staged: None,
                        unstaged: Some(Change::Untracked),
                    },
                ),
            }
        } else {
            acc
        },
    }
}

/// What a run of porcelain v2 lines says, read top to bottom.
pub open spec fn status_of(lines: Seq<Seq<char>>) -> StatusV
    decreases lines.len(),
{
    if lines.len() == 0 {
        StatusV { snapshot: empty_snapshot(), files: Seq::empty() }
    } else {
        status_line(status_of(lines.drop_last()), lines.last())
    }
}

/// What `git status --porcelain=v2 --branch` printed, read.
pub open spec fn status_reading(out: Seq<char>) -> StatusV {
    status_of(lines_of(out))
}

/// How many of the files answer `p`.
pub open spec fn count_where(files: Seq<FileChangeV>, p: spec_fn(FileChangeV) -> bool) -> nat
    decreases files.len(),
{
    if files.len() == 0 {
        0
    } else {
        count_where(files.drop_last(), p) + if p(files.last()) { 1nat } else { 0nat }
    }
}

/// A file with a staged change (a conflict counts apart).
pub open spec fn staged_file(f: FileChangeV) -> bool {
    f.staged is Some && f.staged != Some(Change::Conflicted)
}

/// A tracked file with an unstaged change (a conflict counts apart).
pub open spec fn unstaged_file(f: FileChangeV) -> bool {
    f.unstaged is Some && f.unstaged != Some(Change::Untracked) && f.unstaged != Some(Change::Conflicted)
}

/// An untracked file.
pub open spec fn untracked_file(f: FileChangeV) -> bool {
    f.unstaged == Some(Change::Untracked)
}

/// A file in conflict.
pub open spec fn conflicted_file(f: FileChangeV) -> bool {
    f.staged == Some(Change::Conflicted)
}

/// A porcelain v2 line whose entry, if it is one, names its path: `1` with
/// six fields after `<XY>`, `2` with seven, `u` with eight.
pub open spec fn complete_status_line(line: Seq<char>) -> bool {
    match ws_split(line) {
        None => true,
        Some((tag, rest)) => if tag == "1"@ || tag == "2"@ {
            match ws_split(rest) {
                None => true,
                Some((_, after)) => skip_n(after, if tag == "1"@ { 6 } else { 7 }) is Some,
            }
        } else if tag == "u"@ {
            match ws_split(rest) {
                None => false,
                Some((_, after)) => skip_n(after, 8) is Some,
            }
        } else {
            true
        },
    }
}

proof fn lemma_count_push(files: Seq<FileChangeV>, f: FileChangeV, p: spec_fn(FileChangeV) -> bool)
    ensures
        count_where(files.push(f), p) == count_where(files, p) + if p(f) { 1nat } else { 0nat },
{
    assert(files.push(f).drop_last() =~= files);
}

proof fn lemma_count_bound(files: Seq<FileChangeV>, p: spec_fn(FileChangeV) -> bool)
    ensures
        count_where(files, p) <= files.len(),
    decreases files.len(),
{
    if files.len() > 0 {
        lemma_count_bound(files.drop_last(), p);
    }
}

/// The counters of a status reading are counts over its file list: staged
/// and unstaged changes, untracked files and conflicts each count the files
/// that carry them, and an ignored (`!`) line adds neither a file nor a
/// count, wherever every entry line names its path.
pub proof fn law_status_counts_are_file_counts(lines: Seq<Seq<char>>)
    requires
        lines.len() <= u32::MAX,
        forall|i: int| 0 <= i < lines.len() ==> #[trigger] complete_status_line(lines[i]),
    ensures
        status_of(lines).files.len() <= lines.len(),
        status_of(lines).snapshot.staged == count_where(status_of(lines).files, |f: FileChangeV| staged_file(f)),
        status_of(lines).snapshot.unstaged == count_where(status_of(lines).files, |f: FileChangeV| unstaged_file(f)),
        status_of(lines).snapshot.untracked == count_where(status_of(lines).files, |f: FileChangeV| untracked_file(f)),
        status_of(lines).snapshot.conflicts == count_where(status_of(lines).files, |f: FileChangeV| conflicted_file(f)),
    decreases lines.len(),
{
    let ps = |f: FileChangeV| staged_file(f);
    let pu = |f: FileChangeV| unstaged_file(f);
    let pn = |f: FileChangeV| untracked_file(f);
    let pc = |f: FileChangeV| conflicted_file(f);
    if lines.len() > 0 {
        let rest = lines.drop_last();
        let line = lines.last();
        assert forall|i: int| 0 <= i < rest.len() implies #[trigger] complete_status_line(rest[i]) by {
            assert(rest[i] == lines[i]);
        }
        assert(complete_status_line(line)) by {
            assert(line == lines[lines.len() - 1]);
        }
        law_status_counts_are_file_counts(rest);
        let acc = status_of(rest);
        lemma_count_bound(acc.files, ps);
        lemma_count_bound(acc.files, pu);
        lemma_count_bound(acc.files, pn);
        lemma_count_bound(acc.files, pc);
        let st = status_line(acc, line);
        assert(status_of(lines) == st);
        match ws_split(line) {
            None => {},
            Some((tag, tail)) => {
                if tag == "#"@ {
                    lemma_header_keeps_counts(acc.snapshot, tail);
                } else if tag == "1"@ || tag == "2"@ {
                    if let Some((xy, after)) = ws_split(tail) {
                        let staged = side_of(if xy.len() >= 1 { xy[0] } else { '.' });
                        let unstaged = side_of(if xy.len() >= 2 { xy[1] } else { '.' });
                        let paths = skip_n(after, if tag == "1"@ { 6 } else { 7 }).unwrap();
                        let f = FileChangeV {
                            path: tab_split(paths).0,
                            origin: tab_split(paths).1,
                            staged,
                            unstaged,
                        };
                        assert(st.files == acc.files.push(f));
                        lemma_count_push(acc.files, f, ps);
                        lemma_count_push(acc.files, f, pu);
                        lemma_count_push(acc.files, f, pn);
                        lemma_count_push(acc.files, f, pc);
                    }
                } else if tag == "u"@ {
                    let (_, after) = ws_split(tail).unwrap();
                    let p = skip_n(after, 8).unwrap();
                    let f = FileChangeV {
                        path: p,
                        origin: None,
                        staged: Some(Change::Conflicted),
                        unstaged: Some(Change::Conflicted),
                    };
                    assert(st.files == acc.files.push(f));
                    lemma_count_push(acc.files, f, ps);
                    lemma_count_push(acc.files, f, pu);
                    lemma_count_push(acc.files, f, pn);
                    lemma_count_push(acc.files, f, pc);
                } else if tag == "?"@ {
                    let f = FileChangeV { path: tail, origin: None, staged: None, unstaged: Some(Change::Untracked) };
                    assert(st.files == acc.files.push(f));
                    lemma_count_push(acc.files, f, ps);
                    lemma_count_push(acc.files, f, pu);
                    lemma_count_push(acc.files, f, pn);
                    lemma_count_push(acc.files, f, pc);
                }
            },
        }

    }
}

pub proof fn lemma_split_on_len_bound(s: Seq<char>, c: char)
    ensures
        split_on(s, c).len() <= s.len() + 1,
    decreases s.len(),
{
    if s.len() > 0 {
        lemma_split_on_len_bound(s.drop_last(), c);
        lemma_split_on_len(s.drop_last(), c);
    }
}

pub proof fn lemma_lines_bound(s: Seq<char>)
    ensures
        lines_of(s).len() <= s.len() + 1,
{
    lemma_split_on_len_bound(s, '\n');
    lemma_split_on_len(s, '\n');
}

/// The path part of an entry, split at the tab a rename puts between its new
/// path and its old one.
fn split_paths(paths: &Vec<char>) -> (res: (Vec<char>, Option<Vec<char>>))
    ensures
        res.0@ == tab_split(paths@).0,
        match res.1 {
            None => tab_split(paths@).1 is None,
            Some(o) => tab_split(paths@).1 == Some(o@),
        },
{
    let n = paths.len();
    let tab = vec!['\t'];
    assert(tab@ =~= seq!['\t']);
    match find_in(paths, &tab) {
        Some(k) => {
            proof {
                lemma_find(paths@, tab@);
                assert(k + 1 <= paths@.len());
            }
            let new = slice(paths, 0, k);
            let old = slice(paths, k + 1, n);
            assert(new@ =~= paths@.take(k as int));
            assert(old@ =~= paths@.skip(k + 1));
            (new, Some(old))
        },
        None => (slice(paths, 0, paths.len()), None),
    }
}

/// Parse `git status --porcelain=v2 --branch`.
///
/// Header lines start with `#`; entry lines with `1` (ordinary change), `2`
/// (rename or copy), `u` (unmerged) or `?` (untracked). The counts and the
/// per-path list come out of the same walk.
pub fn parse_status(out: &str) -> (res: Status)
    requires
        out@.len() < u32::MAX,
    ensures
        res@ == status_reading(out@),
{
    let chars = chars_of(out);
    let all = lines(&chars);
    proof {
        lemma_lines_bound(out@);
    }
    let mut snapshot = Snapshot::empty();
    let mut files: Vec<FileChange> = Vec::new();
    let mut i: usize = 0;
    assert(file_views(files@) =~= Seq::<FileChangeV>::empty());
    assert(texts(all@).take(0) =~= Seq::<Seq<char>>::empty());
    while i < all.len()
        invariant
            i <= all@.len() <= u32::MAX,
            texts(all@) == lines_of(out@),
            (StatusV { snapshot: snapshot@, files: file_views(files@) }) == status_of(
                texts(all@).take(i as int),
            ),
            snapshot.staged <= i,
            snapshot.unstaged <= i,
            snapshot.untracked <= i,
            snapshot.conflicts <= i,
        decreases all@.len() - i,
    {
        let line = &all[i];
        let ghost acc = StatusV { snapshot: snapshot@, files: file_views(files@) };
        assert(texts(all@).take(i + 1).drop_last() =~= texts(all@).take(i as int));
        assert(texts(all@).take(i + 1).last() == line@);
        if let Some((tag, rest)) = split_once_ws(line) {
            if is_text(&tag, "#") {
                proof {
                    lemma_header_keeps_counts(snapshot@, rest@);
                }
                parse_branch_header(&rest, &mut snapshot);
            } else if is_text(&tag, "1") || is_text(&tag, "2") {
                let ordinary = is_text(&tag, "1");
                if let Some((xy, after)) = split_once_ws(&rest) {
                    let x = if xy.len() >= 1 {
                        xy[0]
                    } else {
                        '.'
                    };
                    let y = if xy.len() >= 2 {
                        xy[1]
                    } else {
                        '.'
                    };
                    let staged = side_change(x);
                    let unstaged = side_change(y);
                    if staged.is_some() {
                        snapshot.staged = snapshot.staged + 1;
                    }
                    if unstaged.is_some() {
                        snapshot.unstaged = snapshot.unstaged + 1;
                    }
                    let skip: usize = if ordinary {
                        6
                    } else {
                        7
                    };
                    if let Some(paths) = skip_fields(&after, skip) {
                        let (path, origin) = split_paths(&paths);
                        let ghost old_files = files@;
                        let origin_text = match origin {
                            Some(o) => Some(string_of(&o)),
                            None => None,
                        };
                        let change = FileChange {
                            path: string_of(&path),
                            origin: origin_text,
                            staged,
                            unstaged,
                        };
                        files.push(change);
                        assert(file_views(files@) =~= file_views(old_files).push(change@));
                    }
                }
            } else if is_text(&tag, "u") {
                snapshot.conflicts = snapshot.conflicts + 1;
                let path = match split_once_ws(&rest) {
                    None => None,
                    Some((_, after)) => skip_fields(&after, 8),
                };
                if let Some(p) = path {
                    let ghost old_files = files@;
                    let change = FileChange {
                        path: string_of(&p),
                        origin: None,
                        staged: Some(Change::Conflicted),
                        unstaged: Some(Change::Conflicted),
                    };
                    files.push(change);
                    assert(file_views(files@) =~= file_views(old_files).push(change@));
                }
            } else if is_text(&tag, "?") {
                snapshot.untracked = snapshot.untracked + 1;
                let ghost old_files = files@;
                let change = FileChange {
                    path: string_of(&rest),
                    origin: None,
                    staged: None,
                    unstaged: Some(Change::Untracked),
                };
                files.push(change);
                assert(file_views(files@) =~= file_views(old_files).push(change@));
            }
        }
        assert((StatusV { snapshot: snapshot@, files: file_views(files@) }) == status_line(
            acc,
            line@,
        ));
        i += 1;
    }
    assert(texts(all@).take(all@.len() as int) =~= texts(all@));
    Status { snapshot, files }
}


/// The column suffix for one of git's time units, singular.
pub open spec fn unit_suffix(unit: Seq<char>) -> Option<Seq<char>> {
    if unit == "second"@ {
        Some("s"@)
    } else if unit == "minute"@ {
        Some("m"@)
    } else if unit == "hour"@ {
        Some("h"@)
    } else if unit == "day"@ {
        Some("d"@)
    } else if unit == "week"@ {
        Some("w"@)
    } else if unit == "month"@ {
        Some("mo"@)
    } else if unit == "year"@ {
        Some("y"@)
    } else {
        None
    }
}

/// git's `%cr` squeezed into a column: the leading count and a one- or
/// two-letter unit, or the phrase unchanged if it is not one git writes.
pub open spec fn relative_age(relative: Seq<char>) -> Seq<char> {
    let t = trim_ws(relative);
    let text = if has_suffix(t, " ago"@) {
        t.take(t.len() - 4)
    } else {
        t
    };
    let w = words(text);
    if text.len() == 0 || text == "in the future"@ || w.len() < 2 || parse_bounded(
        w[0],
        u64::MAX as nat,
    ) is None {
        text
    } else {
        let u = trim_end_in(w[1], seq![',']);
        let unit = if has_suffix(u, "s"@) {
            u.drop_last()
        } else {
            u
        };
        match unit_suffix(unit) {
            Some(suffix) => w[0] + suffix,
            None => text,
        }
    }
}

fn suffix_for(unit: &Vec<char>) -> (res: Option<&'static str>)
    ensures
        match res {
            None => unit_suffix(unit@) is None,
            Some(s) => unit_suffix(unit@) == Some(s@),
        },
{
    if is_text(unit, "second") {
        Some("s")
    } else if is_text(unit, "minute") {
        Some("m")
    } else if is_text(unit, "hour") {
        Some("h")
    } else if is_text(unit, "day") {
        Some("d")
    } else if is_text(unit, "week") {
        Some("w")
    } else if is_text(unit, "month") {
        Some("mo")
    } else if is_text(unit, "year") {
        Some("y")
    } else {
        None
    }
}

/// Squeeze git's `%cr` into something that fits a column: `28 hours ago` to
/// `28h`. Anything unrecognised is passed through untouched.
pub fn compact_relative_time(relative: &str) -> (res: String)
    ensures
        res@ == relative_age(relative@),
{
    let chars = chars_of(relative);
    let t = trim(&chars);
    let ago = chars_of(" ago");
    proof {
        reveal_strlit(" ago");
        reveal_strlit("s");
    }
    let text = if ends_with(&t, &ago) {
        slice(&t, 0, t.len() - 4)
    } else {
        slice(&t, 0, t.len())
    };
    assert(text@ =~= (if has_suffix(t@, " ago"@) {
        t@.take(t@.len() - 4)
    } else {
        t@
    }));
    let w = split_words(&text);
    if text.len() == 0 || is_text(&text, "in the future") || w.len() < 2 {
        return string_of(&text);
    }
    assert(w@[0]@ == words(text@)[0] && w@[1]@ == words(text@)[1]);
    if parse_unsigned_up_to(&w[0], u64::MAX).is_none() {
        return string_of(&text);
    }
    let comma = vec![','];
    assert(comma@ =~= seq![',']);
    let u = trim_end_matches(&w[1], &comma);
    let s = chars_of("s");
    let unit = if ends_with(&u, &s) {
        slice(&u, 0, u.len() - 1)
    } else {
        slice(&u, 0, u.len())
    };
    assert(unit@ =~= (if has_suffix(u@, "s"@) {
        u@.drop_last()
    } else {
        u@
    }));
    match suffix_for(&unit) {
        Some(suffix) => {
            let mut out = string_of(&w[0]);
            out.append(suffix);
            out
        },
        None => string_of(&text),
    }
}

/// The `n`th field, or nothing if there are fewer.
pub open spec fn field(fields: Seq<Seq<char>>, k: int) -> Seq<char> {
    if 0 <= k < fields.len() {
        fields[k]
    } else {
        Seq::empty()
    }
}

/// The `n`th of `fields`, or nothing if there are fewer.
fn field_at(fields: &Vec<Vec<char>>, k: usize) -> (res: Vec<char>)
    ensures
        res@ == field(texts(fields@), k as int),
{
    if k < fields.len() {
        slice(&fields[k], 0, fields[k].len())
    } else {
        Vec::new()
    }
}

/// One line of `git log --format=%h%x1f%s%x1f%cr`, if it names a commit.
pub open spec fn log_commit(line: Seq<char>) -> Option<CommitV> {
    let f = split_on(line, SEP);
    let id = trim_ws(field(f, 0));
    if id.len() == 0 {
        None
    } else {
        Some(CommitV { short_id: id, subject: field(f, 1), age: relative_age(field(f, 2)) })
    }
}

fn commit_of_line(line: &Vec<char>) -> (res: Option<Commit>)
    ensures
        opt_commit(res) == log_commit(line@),
{
    let f = split_char(line, SEP);
    let first = field_at(&f, 0);
    let id = trim(&first);
    if id.len() == 0 {
        return None;
    }
    let subject = field_at(&f, 1);
    let when = field_at(&f, 2);
    let when_text = string_of(&when);
    Some(
        Commit {
            short_id: string_of(&id),
            subject: string_of(&subject),
            age: compact_relative_time(when_text.as_str()),
        },
    )
}

/// The commit on the first line `git log -1` printed, if there is one.
pub open spec fn log_line_reading(out: Seq<char>) -> Option<CommitV> {
    let ls = lines_of(out);
    if ls.len() == 0 {
        None
    } else {
        log_commit(ls[0])
    }
}

/// Parse the single line `git log -1` prints.
pub fn parse_log_line(out: &str) -> (res: Option<Commit>)
    ensures
        opt_commit(res) == log_line_reading(out@),
{
    let chars = chars_of(out);
    let all = lines(&chars);
    if all.len() == 0 {
        return None;
    }
    assert(texts(all@)[0] == all@[0]@);
    commit_of_line(&all[0])
}

/// Every commit `git log` printed, most recent first.
pub open spec fn log_reading(out: Seq<char>) -> Seq<CommitV> {
    lines_of(out).filter_map(|l: Seq<char>| log_commit(l))
}

/// Parse every line of `git log`.
pub fn parse_log(out: &str) -> (res: Vec<Commit>)
    ensures
        commit_views(res@) == log_reading(out@),
{
    let chars = chars_of(out);
    let all = lines(&chars);
    let ghost ls = texts(all@);
    let ghost f = |l: Seq<char>| log_commit(l);
    let mut res: Vec<Commit> = Vec::new();
    let mut i: usize = 0;
    while i < all.len()
        invariant
            i <= all@.len(),
            ls == texts(all@),
            ls == lines_of(out@),
            f == (|l: Seq<char>| log_commit(l)),
            commit_views(res@) == ls.take(i as int).filter_map(f),
        decreases all@.len() - i,
    {
        proof {
            ls.lemma_filter_map_take_succ(f, i as int);
        }
        let ghost old_res = res@;
        match commit_of_line(&all[i]) {
            Some(c) => {
                res.push(c);
                assert(commit_views(res@) =~= commit_views(old_res) + seq![c@]);
            },
            None => {},
        }
        i += 1;
    }
    assert(ls.take(all@.len() as int) =~= ls);
    res
}

/// One line of `git stash list --format=%gd%x1f%gs%x1f%cr`.
pub open spec fn stash_entry(line: Seq<char>) -> Option<StashV> {
    let f = split_on(line, SEP);
    let id = trim_ws(field(f, 0));
    if id.len() == 0 {
        None
    } else {
        Some(StashV { id, message: field(f, 1), age: relative_age(field(f, 2)) })
    }
}

/// Every stash `git stash list` printed, newest first.
pub open spec fn stash_reading(out: Seq<char>) -> Seq<StashV> {
    lines_of(out).filter_map(|l: Seq<char>| stash_entry(l))
}

fn stash_of_line(line: &Vec<char>) -> (res: Option<Stash>)
    ensures
        match res {
            None => stash_entry(line@) is None,
            Some(s) => stash_entry(line@) == Some(s@),
        },
{
    let f = split_char(line, SEP);
    let first = field_at(&f, 0);
    let id = trim(&first);
    if id.len() == 0 {
        return None;
    }
    let message = field_at(&f, 1);
    let when = field_at(&f, 2);
    let when_text = string_of(&when);
    Some(
        Stash {
            id: string_of(&id),
            message: string_of(&message),
            age: compact_relative_time(when_text.as_str()),
        },
    )
}

/// Parse `git stash list`.
pub fn parse_stash_list(out: &str) -> (res: Vec<Stash>)
    ensures
        stash_views(res@) == stash_reading(out@),
{
    let chars = chars_of(out);
    let all = lines(&chars);
    let ghost ls = texts(all@);
    let ghost f = |l: Seq<char>| stash_entry(l);
    let mut res: Vec<Stash> = Vec::new();
    let mut i: usize = 0;
    while i < all.len()
        invariant
            i <= all@.len(),
            ls == texts(all@),
            ls == lines_of(out@),
            f == (|l: Seq<char>| stash_entry(l)),
            stash_views(res@) == ls.take(i as int).filter_map(f),
        decreases all@.len() - i,
    {
        proof {
            ls.lemma_filter_map_take_succ(f, i as int);
        }
        let ghost old_res = res@;
        match stash_of_line(&all[i]) {
            Some(st) => {
                res.push(st);
                assert(stash_views(res@) =~= stash_views(old_res) + seq![st@]);
            },
            None => {},
        }
        i += 1;
    }
    assert(ls.take(all@.len() as int) =~= ls);
    res
}

/// What one comma-separated part of `%(upstream:track)` says.
pub open spec fn track_part(d: Distance, part: Seq<char>) -> Distance {
    let w = words(part);
    if w.len() >= 2 && w[0] == "ahead"@ {
        Distance { ahead: u32_or_zero(w[1]), ..d }
    } else if w.len() >= 2 && w[0] == "behind"@ {
        Distance { behind: u32_or_zero(w[1]), ..d }
    } else {
        d
    }
}

/// Every part of `%(upstream:track)`, left to right.
pub open spec fn track_parts(parts: Seq<Seq<char>>) -> Distance
    decreases parts.len(),
{
    if parts.len() == 0 {
        Distance { ahead: 0, behind: 0 }
    } else {
        track_part(track_parts(parts.drop_last()), parts.last())
    }
}

/// `%(upstream:track)` read: `[ahead 2, behind 1]` and its shorter forms, or
/// no distance at all when the upstream is `[gone]`. Empty is level.
pub open spec fn track_distance(track: Seq<char>) -> Option<Distance> {
    let body = trim_end_in(trim_start_in(trim_ws(track), seq!['[']), seq![']']);
    if body == "gone"@ {
        None
    } else {
        Some(track_parts(split_on(body, ',')))
    }
}

/// Read `%(upstream:track)`.
pub fn parse_track(track: &str) -> (res: Option<Distance>)
    ensures
        res == track_distance(track@),
{
    let chars = chars_of(track);
    let t = trim(&chars);
    let open = vec!['['];
    let close = vec![']'];
    assert(open@ =~= seq!['[']);
    assert(close@ =~= seq![']']);
    let a = trim_start_matches(&t, &open);
    let body = trim_end_matches(&a, &close);
    if is_text(&body, "gone") {
        return None;
    }
    let parts = split_char(&body, ',');
    let ghost ps = texts(parts@);
    let mut distance = Distance { ahead: 0, behind: 0 };
    let mut i: usize = 0;
    while i < parts.len()
        invariant
            i <= parts@.len(),
            ps == texts(parts@),
            ps == split_on(body@, ','),
            distance == track_parts(ps.take(i as int)),
        decreases parts@.len() - i,
    {
        assert(ps.take(i + 1).drop_last() =~= ps.take(i as int));
        let w = split_words(&parts[i]);
        if w.len() >= 2 && is_text(&w[0], "ahead") {
            distance.ahead = parse_u32_or_zero(&w[1]);
        } else if w.len() >= 2 && is_text(&w[0], "behind") {
            distance.behind = parse_u32_or_zero(&w[1]);
        }
        i += 1;
    }
    assert(ps.take(parts@.len() as int) =~= ps);
    Some(distance)
}

/// One line of `git for-each-ref` in the branch format: name, upstream,
/// tracking, tip hash, tip subject, tip age, and `*` for the checked-out one.
pub open spec fn branch_entry(line: Seq<char>) -> Option<BranchV> {
    let f = split_on(line, SEP);
    let name = trim_ws(field(f, 0));
    let upstream = trim_ws(field(f, 1));
    let short_id = trim_ws(field(f, 3));
    if name.len() == 0 {
        None
    } else {
        Some(
            BranchV {
                name,
                upstream: if upstream.len() > 0 {
                    Some(upstream)
                } else {
                    None
                },
                distance: if upstream.len() > 0 {
                    track_distance(field(f, 2))
                } else {
                    None
                },
                head: trim_ws(field(f, 6)) == "*"@,
                tip: if short_id.len() > 0 {
                    Some(
                        CommitV {
                            short_id,
                            subject: field(f, 4),
                            age: relative_age(field(f, 5)),
                        },
                    )
                } else {
                    None
                },
            },
        )
    }
}

/// Every branch `git for-each-ref` printed.
pub open spec fn branch_reading(out: Seq<char>) -> Seq<BranchV> {
    lines_of(out).filter_map(|l: Seq<char>| branch_entry(l))
}

fn branch_of_line(line: &Vec<char>) -> (res: Option<Branch>)
    ensures
        match res {
            None => branch_entry(line@) is None,
            Some(b) => branch_entry(line@) == Some(b@),
        },
{
    let f = split_char(line, SEP);
    let f0 = field_at(&f, 0);
    let name = trim(&f0);
    if name.len() == 0 {
        return None;
    }
    let f1 = field_at(&f, 1);
    let upstream = trim(&f1);
    let track = field_at(&f, 2);
    let f3 = field_at(&f, 3);
    let short_id = trim(&f3);
    let subject = field_at(&f, 4);
    let when = field_at(&f, 5);
    let f6 = field_at(&f, 6);
    let mark = trim(&f6);
    let head = is_text(&mark, "*");
    let distance = if upstream.len() > 0 {
        let track_text = string_of(&track);
        parse_track(track_text.as_str())
    } else {
        None
    };
    let upstream_text = if upstream.len() > 0 {
        Some(string_of(&upstream))
    } else {
        None
    };
    let tip = if short_id.len() > 0 {
        let when_text = string_of(&when);
        Some(
            Commit {
                short_id: string_of(&short_id),
                subject: string_of(&subject),
                age: compact_relative_time(when_text.as_str()),
            },
        )
    } else {
        None
    };
    Some(Branch { name: string_of(&name), upstream: upstream_text, distance, head, tip })
}

/// Parse `git for-each-ref` in the branch format.
pub fn parse_branch_list(out: &str) -> (res: Vec<Branch>)
    ensures
        branch_views(res@) == branch_reading(out@),
{
    let chars = chars_of(out);
    let all = lines(&chars);
    let ghost ls = texts(all@);
    let ghost f = |l: Seq<char>| branch_entry(l);
    let mut res: Vec<Branch> = Vec::new();
    let mut i: usize = 0;
    while i < all.len()
        invariant
            i <= all@.len(),
            ls == texts(all@),
            ls == lines_of(out@),
            f == (|l: Seq<char>| branch_entry(l)),
            branch_views(res@) == ls.take(i as int).filter_map(f),
        decreases all@.len() - i,
    {
        proof {
            ls.lemma_filter_map_take_succ(f, i as int);
        }
        let ghost old_res = res@;
        match branch_of_line(&all[i]) {
            Some(b) => {
                res.push(b);
                assert(branch_views(res@) =~= branch_views(old_res) + seq![b@]);
            },
            None => {},
        }
        i += 1;
    }
    assert(ls.take(all@.len() as int) =~= ls);
    res
}


/// How many marker files git may leave behind mid-operation.
pub const MARKER_COUNT: usize = 6;

/// The state each marker file means, in the order they are checked: a
/// conflicted rebase also leaves merge-like markers, and "rebasing" is the
/// more useful thing to say.
pub open spec fn marker_state(i: int) -> RepoState {
    if i == 0 || i == 1 {
        RepoState::Rebasing
    } else if i == 2 {
        RepoState::Merging
    } else if i == 3 {
        RepoState::CherryPicking
    } else if i == 4 {
        RepoState::Reverting
    } else {
        RepoState::Bisecting
    }
}

/// The file name of each marker, in checking order.
pub open spec fn marker_name(i: int) -> Seq<char> {
    if i == 0 {
        "rebase-merge"@
    } else if i == 1 {
        "rebase-apply"@
    } else if i == 2 {
        "MERGE_HEAD"@
    } else if i == 3 {
        "CHERRY_PICK_HEAD"@
    } else if i == 4 {
        "REVERT_HEAD"@
    } else {
        "BISECT_LOG"@
    }
}

/// A marker file git leaves in its directory, and what it means.
pub fn marker(i: usize) -> (res: (&'static str, RepoState))
    requires
        i < MARKER_COUNT,
    ensures
        res.0@ == marker_name(i as int),
        res.1 == marker_state(i as int),
{
    match i {
        0 => ("rebase-merge", RepoState::Rebasing),
        1 => ("rebase-apply", RepoState::Rebasing),
        2 => ("MERGE_HEAD", RepoState::Merging),
        3 => ("CHERRY_PICK_HEAD", RepoState::CherryPicking),
        4 => ("REVERT_HEAD", RepoState::Reverting),
        _ => ("BISECT_LOG", RepoState::Bisecting),
    }
}

/// The state meant by the first marker, from position `i` on, that is present.
pub open spec fn first_marker(found: Seq<bool>, i: int) -> Option<RepoState>
    decreases found.len() - i,
{
    if i < 0 || i >= found.len() {
        None
    } else if found[i] {
        Some(marker_state(i))
    } else {
        first_marker(found, i + 1)
    }
}

/// The interrupted operation, given which of the marker files exist.
pub fn in_progress_state(found: &Vec<bool>) -> (res: Option<RepoState>)
    requires
        found@.len() == MARKER_COUNT,
    ensures
        res == first_marker(found@, 0),
{
    let mut i: usize = 0;
    while i < found.len()
        invariant
            i <= found@.len() == MARKER_COUNT,
            first_marker(found@, 0) == first_marker(found@, i as int),
        decreases found@.len() - i,
    {
        if found[i] {
            return Some(marker(i).1);
        }
        i += 1;
    }
    None
}

/// Each marker file means the operation git leaves it for: `rebase-merge`
/// and `rebase-apply` a rebase, `MERGE_HEAD` a merge, `CHERRY_PICK_HEAD` a
/// cherry-pick, `REVERT_HEAD` a revert, `BISECT_LOG` a bisect; every one of
/// them is checked, and the rebase markers before `MERGE_HEAD`, since a
/// conflicted rebase leaves merge-like markers too.
pub proof fn law_markers_mean_their_operation(i: int)
    requires
        0 <= i < MARKER_COUNT,
    ensures
        marker_name(i) == "rebase-merge"@ || marker_name(i) == "rebase-apply"@ ==> marker_state(i)
            == RepoState::Rebasing,
        marker_name(i) == "MERGE_HEAD"@ ==> marker_state(i) == RepoState::Merging,
        marker_name(i) == "CHERRY_PICK_HEAD"@ ==> marker_state(i) == RepoState::CherryPicking,
        marker_name(i) == "REVERT_HEAD"@ ==> marker_state(i) == RepoState::Reverting,
        marker_name(i) == "BISECT_LOG"@ ==> marker_state(i) == RepoState::Bisecting,
        exists|j: int| 0 <= j < MARKER_COUNT && #[trigger] marker_name(j) == "rebase-merge"@,
        exists|j: int| 0 <= j < MARKER_COUNT && #[trigger] marker_name(j) == "rebase-apply"@,
        exists|j: int| 0 <= j < MARKER_COUNT && #[trigger] marker_name(j) == "MERGE_HEAD"@,
        exists|j: int| 0 <= j < MARKER_COUNT && #[trigger] marker_name(j) == "CHERRY_PICK_HEAD"@,
        exists|j: int| 0 <= j < MARKER_COUNT && #[trigger] marker_name(j) == "REVERT_HEAD"@,
        exists|j: int| 0 <= j < MARKER_COUNT && #[trigger] marker_name(j) == "BISECT_LOG"@,
        forall|j: int, k: int|
            0 <= j < MARKER_COUNT && 0 <= k < MARKER_COUNT && (marker_name(j) == "rebase-merge"@
                || marker_name(j) == "rebase-apply"@) && marker_name(k) == "MERGE_HEAD"@ ==> j < k,
{
    reveal_strlit("rebase-merge");
    reveal_strlit("rebase-apply");
    reveal_strlit("MERGE_HEAD");
    reveal_strlit("CHERRY_PICK_HEAD");
    reveal_strlit("REVERT_HEAD");
    reveal_strlit("BISECT_LOG");
    assert(marker_name(0) == "rebase-merge"@);
    assert(marker_name(1) == "rebase-apply"@);
    assert(marker_name(2) == "MERGE_HEAD"@);
    assert(marker_name(3) == "CHERRY_PICK_HEAD"@);
    assert(marker_name(4) == "REVERT_HEAD"@);
    assert(marker_name(5) == "BISECT_LOG"@);
    assert forall|j: int, k: int|
        0 <= j < MARKER_COUNT && 0 <= k < MARKER_COUNT && (marker_name(j) == "rebase-merge"@
            || marker_name(j) == "rebase-apply"@) && marker_name(k) == "MERGE_HEAD"@ implies j < k by {
        if k != 2 {
            assert(marker_name(k) != "MERGE_HEAD"@) by {
                assert(marker_name(k).len() != 10 || marker_name(k)[0] != 'M');
            }
        }
        if j >= 2 {
            assert(marker_name(j) != "rebase-merge"@ && marker_name(j) != "rebase-apply"@) by {
                assert(marker_name(j)[0] != 'r');
            }
        }
    }
    assert(marker_name(i) == "rebase-merge"@ || marker_name(i) == "rebase-apply"@ ==> i < 2) by {
        if i >= 2 {
            assert(marker_name(i)[0] != 'r');
        }
    }
    assert(marker_name(i) == "MERGE_HEAD"@ ==> i == 2) by {
        if i != 2 {
            assert(marker_name(i).len() != 10 || marker_name(i)[0] != 'M');
        }
    }
    assert(marker_name(i) == "CHERRY_PICK_HEAD"@ ==> i == 3) by {
        if i != 3 {
            assert(marker_name(i).len() != 16 || marker_name(i)[0] != 'C');
        }
    }
    assert(marker_name(i) == "REVERT_HEAD"@ ==> i == 4) by {
        if i != 4 {
            assert(marker_name(i).len() != 11 || marker_name(i)[0] != 'R');
        }
    }
    assert(marker_name(i) == "BISECT_LOG"@ ==> i == 5) by {
        if i != 5 {
            assert(marker_name(i).len() != 10 || marker_name(i)[0] != 'B');
        }
    }
}

/// The operation reported is the one meant by the first marker present, in
/// checking order; with no marker present there is none.
pub proof fn law_first_marker_present_wins(found: Seq<bool>, i: int)
    requires
        found.len() == MARKER_COUNT,
        0 <= i < MARKER_COUNT,
        found[i],
        forall|j: int| 0 <= j < i ==> !found[j],
    ensures
        first_marker(found, 0) == Some(marker_state(i)),
{
    lemma_first_marker_skips(found, 0, i);
}

proof fn lemma_first_marker_skips(found: Seq<bool>, from: int, i: int)
    requires
        0 <= from <= i < found.len(),
        found[i],
        forall|j: int| from <= j < i ==> !found[j],
    ensures
        first_marker(found, from) == Some(marker_state(i)),
    decreases i - from,
{
    if from < i {
        lemma_first_marker_skips(found, from + 1, i);
    }
}

/// With no marker file present, no operation is under way.
pub proof fn law_no_marker_no_operation(found: Seq<bool>, from: int)
    requires
        0 <= from,
        forall|j: int| 0 <= j < found.len() ==> !found[j],
    ensures
        first_marker(found, from) is None,
    decreases found.len() - from,
{
    if from < found.len() {
        law_no_marker_no_operation(found, from + 1);
    }
}

/// Where a `.git` file points: the first line, `gitdir: <path>`.
pub open spec fn gitdir_target(contents: Seq<char>) -> Option<Seq<char>> {
    let ls = lines_of(contents);
    if ls.len() == 0 || !has_prefix(ls[0], "gitdir:"@) {
        None
    } else {
        Some(trim_ws(ls[0].skip(7)))
    }
}

/// Read the `gitdir:` line a worktree's or submodule's `.git` file holds.
pub fn parse_gitdir(contents: &str) -> (res: Option<String>)
    ensures
        opt_text(res) == gitdir_target(contents@),
{
    let chars = chars_of(contents);
    let all = lines(&chars);
    if all.len() == 0 {
        return None;
    }
    let first = &all[0];
    assert(texts(all@)[0] == first@);
    let prefix = chars_of("gitdir:");
    proof {
        reveal_strlit("gitdir:");
    }
    if !starts_with(first, &prefix) {
        return None;
    }
    let rest = slice(first, 7, first.len());
    assert(rest@ =~= first@.skip(7));
    let t = trim(&rest);
    Some(string_of(&t))
}

/// The text of an optional command output.
pub open spec fn opt_out(o: Option<&str>) -> Option<Seq<char>> {
    match o {
        Some(s) => Some(s@),
        None => None,
    }
}

/// A count printed on its own, or zero if it is not one.
pub open spec fn count_reading(out: Option<Seq<char>>) -> u32 {
    match out {
        Some(o) => u32_or_zero(trim_ws(o)),
        None => 0,
    }
}

/// A snapshot assembled from the outputs of the commands it runs: the status,
/// `git log -1` (absent on a repo with no commits), `git rev-list --count` of
/// the stash reflog (absent when there are no stashes), and the interrupted
/// operation found on disk, if any.
pub open spec fn snapshot_reading(
    status_out: Seq<char>,
    log_out: Option<Seq<char>>,
    count_out: Option<Seq<char>>,
    found: Option<RepoState>,
) -> SnapshotV {
    let s = status_reading(status_out).snapshot;
    SnapshotV {
        head: match log_out {
            Some(l) => log_line_reading(l),
            None => s.head,
        },
        stashes: count_reading(count_out),
        state: settled_state(found, s.conflicts),
        ..s
    }
}

/// A detail reading assembled from the outputs of the commands it runs.
/// Each list is empty when its command failed.
pub open spec fn detail_reading(
    status_out: Seq<char>,
    log_out: Option<Seq<char>>,
    stash_out: Option<Seq<char>>,
    branch_out: Option<Seq<char>>,
    found: Option<RepoState>,
) -> DetailV {
    let st = status_reading(status_out);
    let commits = match log_out {
        Some(l) => log_reading(l),
        None => Seq::empty(),
    };
    let stashes = match stash_out {
        Some(o) => stash_reading(o),
        None => Seq::empty(),
    };
    DetailV {
        snapshot: SnapshotV {
            head: if commits.len() > 0 {
                Some(commits[0])
            } else {
                None
            },
            stashes: stashes.len() as u32,
            state: settled_state(found, st.snapshot.conflicts),
            ..st.snapshot
        },
        files: st.files,
        commits,
        stashes,
        branches: match branch_out {
            Some(o) => branch_reading(o),
            None => Seq::empty(),
        },
    }
}

impl GitVcs {
    /// Read a repository's state from what git printed.
    pub fn snapshot_from(
        status_out: &str,
        log_out: Option<&str>,
        count_out: Option<&str>,
        found: Option<RepoState>,
    ) -> (res: Snapshot)
        requires
            status_out@.len() < u32::MAX,
        ensures
            res@ == snapshot_reading(status_out@, opt_out(log_out), opt_out(count_out), found),
    {
        let mut snapshot = parse_status(status_out).snapshot;
        if let Some(log) = log_out {
            snapshot.head = parse_log_line(log);
        }
        snapshot.stashes = match count_out {
            Some(out) => {
                let chars = chars_of(out);
                let t = trim(&chars);
                parse_u32_or_zero(&t)
            },
            None => 0,
        };
        snapshot.state = settle_state(found, snapshot.conflicts);
        snapshot
    }

    /// Read a repository in depth from what git printed.
    pub fn detail_from(
        status_out: &str,
        log_out: Option<&str>,
        stash_out: Option<&str>,
        branch_out: Option<&str>,
        found: Option<RepoState>,
    ) -> (res: Detail)
        requires
            status_out@.len() < u32::MAX,
        ensures
            res@ == detail_reading(
                status_out@,
                opt_out(log_out),
                opt_out(stash_out),
                opt_out(branch_out),
                found,
            ),
    {
        let Status { mut snapshot, files } = parse_status(status_out);
        let commits = match log_out {
            Some(l) => parse_log(l),
            None => Vec::new(),
        };
        snapshot.head = if commits.len() > 0 {
            Some(commits[0].copy())
        } else {
            None
        };
        let stashes = match stash_out {
            Some(o) => parse_stash_list(o),
            None => Vec::new(),
        };
        snapshot.stashes = stashes.len() as u32;
        let branches = match branch_out {
            Some(o) => parse_branch_list(o),
            None => Vec::new(),
        };
        snapshot.state = settle_state(found, snapshot.conflicts);
        let d = Detail { snapshot, files, commits, stashes, branches };
        assert(d@.commits =~= (match log_out {
            Some(l) => log_reading(l@),
            None => Seq::empty(),
        }));
        assert(d@.stashes =~= (match stash_out {
            Some(o) => stash_reading(o@),
            None => Seq::empty(),
        }));
        assert(d@.branches =~= (match branch_out {
            Some(o) => branch_reading(o@),
            None => Seq::empty(),
        }));
        d
    }
}

} // verus!
