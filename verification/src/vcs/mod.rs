//! The version-control model: what a reading of a repository holds.
//!
//! Backends shell out to the real CLI; what they print is parsed here, in
//! pure functions from text to these types, so the reading itself is
//! verified against the grammar of each tool's output.

pub mod dolt;
pub mod git;

use vstd::prelude::*;

use crate::text::{
    chars_of, is_ws, join, joined, lemma_split_on_len, lines, lines_of, slice, split_on, string_of,
    strip_cr, texts, trim, trim_end, trim_end_ws, trim_start_ws, trim_ws, views,
};

verus! {

/// What the repository is in the middle of, if anything.
#[derive(Debug, Clone, Copy, PartialEq, Eq, Default)]
pub enum RepoState {
    #[default]
    Normal,
    Merging,
    Rebasing,
    CherryPicking,
    Reverting,
    Bisecting,
    /// The registered path is gone.
    Missing,
}

/// What happened to one path, on one side of the index.
#[derive(Debug, Clone, Copy, PartialEq, Eq)]
pub enum Change {
    Added,
    Modified,
    Deleted,
    Renamed,
    Copied,
    TypeChanged,
    Untracked,
    Conflicted,
}

/// One commit: abbreviated hash, subject line, compacted age.
#[derive(Debug, Clone, PartialEq, Eq)]
pub struct Commit {
    pub short_id: String,
    pub subject: String,
    pub age: String,
}

/// A point-in-time reading of one repository, everything the dashboard needs.
#[derive(Debug, Clone, PartialEq, Eq, Default)]
pub struct Snapshot {
    /// `None` when HEAD is detached.
    pub branch: Option<String>,
    /// The configured upstream, e.g. `origin/main`.
    pub upstream: Option<String>,
    pub ahead: u32,
    pub behind: u32,
    pub staged: u32,
    pub unstaged: u32,
    pub untracked: u32,
    pub conflicts: u32,
    pub stashes: u32,
    /// `None` on a repo with no commits yet.
    pub head: Option<Commit>,
    pub state: RepoState,
}

/// One path that differs from HEAD.
#[derive(Debug, Clone, PartialEq, Eq)]
pub struct FileChange {
    pub path: String,
    /// Where a rename or a copy came from.
    pub origin: Option<String>,
    /// What is staged for commit.
    pub staged: Option<Change>,
    /// What has changed since the index.
    pub unstaged: Option<Change>,
}

/// One entry on the stash stack.
#[derive(Debug, Clone, PartialEq, Eq)]
pub struct Stash {
    pub id: String,
    pub message: String,
    pub age: String,
}

/// How far a branch stands from its upstream.
#[derive(Debug, Clone, Copy, PartialEq, Eq, Default)]
pub struct Distance {
    pub ahead: u32,
    pub behind: u32,
}

/// One branch, and how it stands against its upstream.
#[derive(Debug, Clone, PartialEq, Eq)]
pub struct Branch {
    pub name: String,
    pub upstream: Option<String>,
    /// How far from the upstream, when that could be measured.
    pub distance: Option<Distance>,
    /// True for the branch that is checked out.
    pub head: bool,
    /// The commit at the tip.
    pub tip: Option<Commit>,
}

/// A deeper reading of one repository, for the detail view.
#[derive(Debug, Clone, PartialEq, Eq, Default)]
pub struct Detail {
    pub snapshot: Snapshot,
    pub files: Vec<FileChange>,
    pub commits: Vec<Commit>,
    pub stashes: Vec<Stash>,
    pub branches: Vec<Branch>,
}

/// How many commits a detail reading walks back.
pub const LOG_LIMIT: usize = 10;

/// The most of a backend's complaint worth carrying in an error message.
pub const MAX_STDERR: usize = 200;

/// The text of an optional string.
pub open spec fn opt_text(o: Option<String>) -> Option<Seq<char>> {
    match o {
        Some(s) => Some(s@),
        None => None,
    }
}

/// A commit as text.
pub struct CommitV {
    pub short_id: Seq<char>,
    pub subject: Seq<char>,
    pub age: Seq<char>,
}

impl View for Commit {
    type V = CommitV;

    open spec fn view(&self) -> CommitV {
        CommitV { short_id: self.short_id@, subject: self.subject@, age: self.age@ }
    }
}

impl Commit {
    /// A copy of this commit.
    pub fn copy(&self) -> (res: Commit)
        ensures
            res@ == self@,
    {
        Commit {
            short_id: self.short_id.clone(),
            subject: self.subject.clone(),
            age: self.age.clone(),
        }
    }
}

/// The view of an optional commit.
pub open spec fn opt_commit(o: Option<Commit>) -> Option<CommitV> {
    match o {
        Some(c) => Some(c@),
        None => None,
    }
}

/// A snapshot as text and numbers.
pub struct SnapshotV {
    pub branch: Option<Seq<char>>,
    pub upstream: Option<Seq<char>>,
    pub ahead: u32,
    pub behind: u32,
    pub staged: u32,
    pub unstaged: u32,
    pub untracked: u32,
    pub conflicts: u32,
    pub stashes: u32,
    pub head: Option<CommitV>,
    pub state: RepoState,
}

impl View for Snapshot {
    type V = SnapshotV;

    open spec fn view(&self) -> SnapshotV {
        SnapshotV {
            branch: opt_text(self.branch),
            upstream: opt_text(self.upstream),
            ahead: self.ahead,
            behind: self.behind,
            staged: self.staged,
            unstaged: self.unstaged,
            untracked: self.untracked,
            conflicts: self.conflicts,
            stashes: self.stashes,
            head: opt_commit(self.head),
            state: self.state,
        }
    }
}

/// A copy of an optional string.
pub fn copy_opt(o: &Option<String>) -> (res: Option<String>)
    ensures
        opt_text(res) == opt_text(*o),
{
    match o {
        Some(s) => Some(s.clone()),
        None => None,
    }
}

impl Snapshot {
    /// A copy of this snapshot.
    pub fn copy(&self) -> (res: Snapshot)
        ensures
            res@ == self@,
    {
        Snapshot {
            branch: copy_opt(&self.branch),
            upstream: copy_opt(&self.upstream),
            ahead: self.ahead,
            behind: self.behind,
            staged: self.staged,
            unstaged: self.unstaged,
            untracked: self.untracked,
            conflicts: self.conflicts,
            stashes: self.stashes,
            head: match &self.head {
                Some(c) => Some(c.copy()),
                None => None,
            },
            state: self.state,
        }
    }
}

/// The reading of a repository with nothing in it at all.
pub open spec fn empty_snapshot() -> SnapshotV {
    SnapshotV {
        branch: None,
        upstream: None,
        ahead: 0,
        behind: 0,
        staged: 0,
        unstaged: 0,
        untracked: 0,
        conflicts: 0,
        stashes: 0,
        head: None,
        state: RepoState::Normal,
    }
}

/// A changed path as text.
pub struct FileChangeV {
    pub path: Seq<char>,
    pub origin: Option<Seq<char>>,
    pub staged: Option<Change>,
    pub unstaged: Option<Change>,
}

impl View for FileChange {
    type V = FileChangeV;

    open spec fn view(&self) -> FileChangeV {
        FileChangeV {
            path: self.path@,
            origin: opt_text(self.origin),
            staged: self.staged,
            unstaged: self.unstaged,
        }
    }
}

/// A stash entry as text.
pub struct StashV {
    pub id: Seq<char>,
    pub message: Seq<char>,
    pub age: Seq<char>,
}

impl View for Stash {
    type V = StashV;

    open spec fn view(&self) -> StashV {
        StashV { id: self.id@, message: self.message@, age: self.age@ }
    }
}

/// A branch as text.
pub struct BranchV {
    pub name: Seq<char>,
    pub upstream: Option<Seq<char>>,
    pub distance: Option<Distance>,
    pub head: bool,
    pub tip: Option<CommitV>,
}

impl View for Branch {
    type V = BranchV;

    open spec fn view(&self) -> BranchV {
        BranchV {
            name: self.name@,
            upstream: opt_text(self.upstream),
            distance: self.distance,
            head: self.head,
            tip: opt_commit(self.tip),
        }
    }
}

/// The views of a sequence of file changes.
pub open spec fn file_views(v: Seq<FileChange>) -> Seq<FileChangeV> {
    v.map_values(|f: FileChange| f@)
}

/// The views of a sequence of commits.
pub open spec fn commit_views(v: Seq<Commit>) -> Seq<CommitV> {
    v.map_values(|c: Commit| c@)
}

/// The views of a sequence of stashes.
pub open spec fn stash_views(v: Seq<Stash>) -> Seq<StashV> {
    v.map_values(|s: Stash| s@)
}

/// The views of a sequence of branches.
pub open spec fn branch_views(v: Seq<Branch>) -> Seq<BranchV> {
    v.map_values(|b: Branch| b@)
}

/// A detail reading as text and numbers.
pub struct DetailV {
    pub snapshot: SnapshotV,
    pub files: Seq<FileChangeV>,
    pub commits: Seq<CommitV>,
    pub stashes: Seq<StashV>,
    pub branches: Seq<BranchV>,
}

impl View for Detail {
    type V = DetailV;

    open spec fn view(&self) -> DetailV {
        DetailV {
            snapshot: self.snapshot@,
            files: file_views(self.files@),
            commits: commit_views(self.commits@),
            stashes: stash_views(self.stashes@),
            branches: branch_views(self.branches@),
        }
    }
}

/// The state a reading settles on: an in-progress operation found on disk
/// wins; otherwise conflicts imply a merge; otherwise nothing is under way.
pub open spec fn settled_state(found: Option<RepoState>, conflicts: u32) -> RepoState {
    match found {
        Some(state) => state,
        None => if conflicts > 0 {
            RepoState::Merging
        } else {
            RepoState::Normal
        },
    }
}

/// Settle the state of a reading from what was found on disk.
pub fn settle_state(found: Option<RepoState>, conflicts: u32) -> (res: RepoState)
    ensures
        res == settled_state(found, conflicts),
{
    match found {
        Some(state) => state,
        None => if conflicts > 0 {
            RepoState::Merging
        } else {
            RepoState::Normal
        },
    }
}

impl Detail {
    /// The detail reading of a registered path that is no longer there.
    pub fn missing() -> (res: Detail)
        ensures
            res@.snapshot == (SnapshotV { state: RepoState::Missing, ..empty_snapshot() }),
            res@.files.len() == 0,
            res@.commits.len() == 0,
            res@.stashes.len() == 0,
            res@.branches.len() == 0,
    {
        let d = Detail {
            snapshot: Snapshot::missing(),
            files: Vec::new(),
            commits: Vec::new(),
            stashes: Vec::new(),
            branches: Vec::new(),
        };
        d
    }
}

impl Snapshot {
    /// The reading of a repository with nothing to report.
    pub fn empty() -> (res: Snapshot)
        ensures
            res@ == empty_snapshot(),
    {
        Snapshot {
            branch: None,
            upstream: None,
            ahead: 0,
            behind: 0,
            staged: 0,
            unstaged: 0,
            untracked: 0,
            conflicts: 0,
            stashes: 0,
            head: None,
            state: RepoState::Normal,
        }
    }

    /// The reading of a registered path that is no longer there.
    pub fn missing() -> (res: Snapshot)
        ensures
            res@ == (SnapshotV { state: RepoState::Missing, ..empty_snapshot() }),
    {
        Snapshot { state: RepoState::Missing, ..Snapshot::empty() }
    }

    /// Nothing staged, modified, untracked or conflicted.
    pub open spec fn spec_is_clean(&self) -> bool {
        self.staged == 0 && self.unstaged == 0 && self.untracked == 0 && self.conflicts == 0
    }

    /// The branch matches its upstream, or has none to differ from.
    pub open spec fn spec_is_synced(&self) -> bool {
        self.ahead == 0 && self.behind == 0
    }

    /// True when nothing is staged, modified, untracked or conflicted.
    #[verifier::when_used_as_spec(spec_is_clean)]
    pub fn is_clean(&self) -> (res: bool)
        ensures
            res == self.spec_is_clean(),
    {
        self.staged == 0 && self.unstaged == 0 && self.untracked == 0 && self.conflicts == 0
    }

    /// True when the branch matches its upstream (or has none to differ from).
    #[verifier::when_used_as_spec(spec_is_synced)]
    pub fn is_synced(&self) -> (res: bool)
        ensures
            res == self.spec_is_synced(),
    {
        self.ahead == 0 && self.behind == 0
    }
}

impl RepoState {
    /// The word a state is shown as, if it is shown at all.
    pub open spec fn spec_label(self) -> Option<Seq<char>> {
        match self {
            RepoState::Normal => None,
            RepoState::Merging => Some("merging"@),
            RepoState::Rebasing => Some("rebasing"@),
            RepoState::CherryPicking => Some("cherry-picking"@),
            RepoState::Reverting => Some("reverting"@),
            RepoState::Bisecting => Some("bisecting"@),
            RepoState::Missing => Some("missing"@),
        }
    }

    pub fn label(self) -> (res: Option<&'static str>)
        ensures
            match res {
                Some(s) => self.spec_label() == Some(s@),
                None => self.spec_label() is None,
            },
    {
        match self {
            RepoState::Normal => None,
            RepoState::Merging => Some("merging"),
            RepoState::Rebasing => Some("rebasing"),
            RepoState::CherryPicking => Some("cherry-picking"),
            RepoState::Reverting => Some("reverting"),
            RepoState::Bisecting => Some("bisecting"),
            RepoState::Missing => Some("missing"),
        }
    }
}

impl Change {
    /// The one-character code git spells this change with.
    pub open spec fn spec_code(self) -> char {
        match self {
            Change::Added => 'A',
            Change::Modified => 'M',
            Change::Deleted => 'D',
            Change::Renamed => 'R',
            Change::Copied => 'C',
            Change::TypeChanged => 'T',
            Change::Untracked => '?',
            Change::Conflicted => 'U',
        }
    }

    /// One character, in git's spelling, for the two-column code the detail
    /// view prints.
    #[verifier::when_used_as_spec(spec_code)]
    pub fn code(self) -> (res: char)
        ensures
            res == self.spec_code(),
    {
        match self {
            Change::Added => 'A',
            Change::Modified => 'M',
            Change::Deleted => 'D',
            Change::Renamed => 'R',
            Change::Copied => 'C',
            Change::TypeChanged => 'T',
            Change::Untracked => '?',
            Change::Conflicted => 'U',
        }
    }
}

impl Distance {
    pub open spec fn spec_is_level(self) -> bool {
        self.ahead == 0 && self.behind == 0
    }

    /// Level with the upstream: nothing to push, nothing to pull.
    #[verifier::when_used_as_spec(spec_is_level)]
    pub fn is_level(self) -> (res: bool)
        ensures
            res == self.spec_is_level(),
    {
        self.ahead == 0 && self.behind == 0
    }
}

/// The non-blank lines of `text`, each trimmed.
pub open spec fn kept_lines(text: Seq<char>) -> Seq<Seq<char>> {
    lines_of(text).map_values(|l: Seq<char>| trim_ws(l)).filter(|l: Seq<char>| l.len() > 0)
}

/// A complaint squeezed onto one bounded line: its non-blank lines, trimmed
/// and joined with `; `, cut at [`MAX_STDERR`] characters with an ellipsis.
pub open spec fn one_line_of(text: Seq<char>) -> Seq<char> {
    let joined = joined(kept_lines(text), "; "@);
    if joined.len() <= MAX_STDERR {
        joined
    } else {
        trim_end_ws(joined.take(MAX_STDERR as int)).push('…')
    }
}

/// No character of `s` is `c`.
pub open spec fn free_of(s: Seq<char>, c: char) -> bool {
    forall|i: int| 0 <= i < s.len() ==> s[i] != c
}

proof fn lemma_trim_start_free(s: Seq<char>, c: char)
    requires
        free_of(s, c),
    ensures
        free_of(trim_start_ws(s), c),
    decreases s.len(),
{
    if s.len() > 0 && is_ws(s[0]) {
        assert(free_of(s.drop_first(), c)) by {
            assert forall|i: int| 0 <= i < s.drop_first().len() implies s.drop_first()[i] != c by {
                assert(s.drop_first()[i] == s[i + 1]);
            }
        }
        lemma_trim_start_free(s.drop_first(), c);
    }
}

proof fn lemma_trim_end(s: Seq<char>, c: char)
    ensures
        trim_end_ws(s).len() <= s.len(),
        free_of(s, c) ==> free_of(trim_end_ws(s), c),
    decreases s.len(),
{
    if s.len() > 0 && is_ws(s.last()) {
        lemma_trim_end(s.drop_last(), c);
        assert(free_of(s, c) ==> free_of(s.drop_last(), c)) by {
            if free_of(s, c) {
                assert forall|i: int| 0 <= i < s.drop_last().len() implies s.drop_last()[i] != c by {
                    assert(s.drop_last()[i] == s[i]);
                }
            }
        }
    }
}

proof fn lemma_split_pieces_free(s: Seq<char>, c: char)
    ensures
        forall|k: int| 0 <= k < split_on(s, c).len() ==> free_of(#[trigger] split_on(s, c)[k], c),
    decreases s.len(),
{
    if s.len() > 0 {
        let r = split_on(s.drop_last(), c);
        lemma_split_pieces_free(s.drop_last(), c);
        lemma_split_on_len(s.drop_last(), c);
        if s.last() != c {
            let grown = r.last().push(s.last());
            assert(free_of(grown, c)) by {
                assert forall|i: int| 0 <= i < grown.len() implies grown[i] != c by {
                    if i < r.last().len() {
                        assert(grown[i] == r.last()[i]);
                        assert(free_of(r[r.len() - 1], c));
                    }
                }
            }
            assert forall|k: int| 0 <= k < split_on(s, c).len() implies free_of(#[trigger] split_on(s, c)[k], c) by {
                if k < r.len() - 1 {
                    assert(split_on(s, c)[k] == r[k]);
                }
            }
        } else {
            assert forall|k: int| 0 <= k < split_on(s, c).len() implies free_of(#[trigger] split_on(s, c)[k], c) by {
                if k < r.len() {
                    assert(split_on(s, c)[k] == r[k]);
                } else {
                    assert(split_on(s, c)[k] == Seq::<char>::empty());
                }
            }
        }
    }
}

proof fn lemma_kept_lines_free(text: Seq<char>)
    ensures
        forall|k: int| 0 <= k < kept_lines(text).len() ==> free_of(#[trigger] kept_lines(text)[k], '\n'),
{
    let parts = split_on(text, '\n');
    lemma_split_pieces_free(text, '\n');
    lemma_split_on_len(text, '\n');
    let ls = lines_of(text);
    assert forall|k: int| 0 <= k < ls.len() implies free_of(#[trigger] ls[k], '\n') by {
        if k < parts.len() - 1 {
            assert(ls[k] == strip_cr(parts[k]));
            assert(free_of(parts[k], '\n'));
            if parts[k].len() > 0 && parts[k].last() == '\r' {
                assert forall|i: int| 0 <= i < strip_cr(parts[k]).len() implies strip_cr(parts[k])[i] != '\n' by {
                    assert(strip_cr(parts[k])[i] == parts[k][i]);
                }
            }
        } else {
            assert(ls[k] == parts.last());
            assert(free_of(parts[parts.len() - 1], '\n'));
        }
    }
    let trimmed = ls.map_values(|l: Seq<char>| trim_ws(l));
    assert forall|k: int| 0 <= k < trimmed.len() implies free_of(#[trigger] trimmed[k], '\n') by {
        lemma_trim_start_free(ls[k], '\n');
        lemma_trim_end(trim_start_ws(ls[k]), '\n');
    }
    let f = |l: Seq<char>| l.len() > 0;
    assert forall|k: int| 0 <= k < trimmed.filter(f).len() implies free_of(#[trigger] trimmed.filter(f)[k], '\n') by {
        assert(trimmed.filter(f).contains(trimmed.filter(f)[k]));
        trimmed.lemma_filter_contains_rev(f, trimmed.filter(f)[k]);
        let j = choose|j: int| 0 <= j < trimmed.len() && trimmed[j] == trimmed.filter(f)[k];
        assert(free_of(trimmed[j], '\n'));
    }
}

proof fn lemma_joined_free(parts: Seq<Seq<char>>, sep: Seq<char>, c: char)
    requires
        free_of(sep, c),
        forall|k: int| 0 <= k < parts.len() ==> free_of(#[trigger] parts[k], c),
    ensures
        free_of(joined(parts, sep), c),
    decreases parts.len(),
{
    if parts.len() > 1 {
        lemma_joined_free(parts.drop_last(), sep, c);
        let a = joined(parts.drop_last(), sep);
        let whole = a + sep + parts.last();
        assert(free_of(parts[parts.len() - 1], c));
        assert forall|i: int| 0 <= i < whole.len() implies whole[i] != c by {
            if i < a.len() {
                assert(whole[i] == a[i]);
            } else if i < a.len() + sep.len() {
                assert(whole[i] == sep[i - a.len()]);
            } else {
                assert(whole[i] == parts.last()[i - a.len() - sep.len()]);
            }
        }
    } else if parts.len() == 1 {
        assert(free_of(parts[0], c));
    }
}

/// A complaint squeezed by [`one_line`] is one line, whatever it was, and
/// never longer than [`MAX_STDERR`] characters and the ellipsis: one
/// unreadable repo cannot stretch the dashboard past the terminal.
pub proof fn law_one_line_is_one_bounded_line(text: Seq<char>)
    ensures
        free_of(one_line_of(text), '\n'),
        one_line_of(text).len() <= MAX_STDERR + 1,
{
    lemma_kept_lines_free(text);
    reveal_strlit("; ");
    lemma_joined_free(kept_lines(text), "; "@, '\n');
    let j = joined(kept_lines(text), "; "@);
    if j.len() > MAX_STDERR {
        let cut = j.take(MAX_STDERR as int);
        assert(free_of(cut, '\n')) by {
            assert forall|i: int| 0 <= i < cut.len() implies cut[i] != '\n' by {
                assert(cut[i] == j[i]);
            }
        }
        lemma_trim_end(cut, '\n');
        let r = trim_end_ws(cut).push('…');
        assert forall|i: int| 0 <= i < r.len() implies r[i] != '\n' by {
            if i < trim_end_ws(cut).len() {
                assert(r[i] == trim_end_ws(cut)[i]);
            }
        }
    }
}

/// Squeeze a backend's multi-line complaint onto one bounded line.
pub fn one_line(text: &str) -> (res: String)
    ensures
        res@ == one_line_of(text@),
{
    let chars = chars_of(text);
    let all = lines(&chars);
    let ghost trimmed = lines_of(text@).map_values(|l: Seq<char>| trim_ws(l));
    let mut kept: Vec<String> = Vec::new();
    let mut i: usize = 0;
    while i < all.len()
        invariant
            i <= all@.len(),
            texts(all@) == lines_of(text@),
            trimmed == lines_of(text@).map_values(|l: Seq<char>| trim_ws(l)),
            views(kept@) == trimmed.take(i as int).filter(|l: Seq<char>| l.len() > 0),
        decreases all@.len() - i,
    {
        let t = trim(&all[i]);
        proof {
            let f = |l: Seq<char>| l.len() > 0;
            assert(trimmed.take(i + 1).drop_last() =~= trimmed.take(i as int));
            assert(trimmed.take(i + 1).last() == t@);
            reveal_with_fuel(Seq::filter, 1);
        }
        if t.len() > 0 {
            let ghost old_kept = kept@;
            let s = string_of(&t);
            kept.push(s);
            assert(views(kept@) =~= views(old_kept).push(t@));
        }
        i += 1;
    }
    assert(trimmed.take(all@.len() as int) =~= trimmed);
    let joined = join(&kept, "; ");
    let jc = chars_of(joined.as_str());
    if jc.len() <= MAX_STDERR {
        joined
    } else {
        let head = slice(&jc, 0, MAX_STDERR);
        let cut = trim_end(&head);
        let mut out = string_of(&cut);
        out.push('…');
        out
    }
}

/// The backends in the order a path is tried against them. Dolt comes first
/// because it is the more specific answer: a dolt database inside a git
/// working tree is detected as dolt, which is what registering it meant.
pub open spec fn detection_order_of() -> Seq<crate::registry::model::VcsKind> {
    seq![crate::registry::model::VcsKind::Dolt, crate::registry::model::VcsKind::Git]
}

/// The backends in the order a path is tried against them.
pub fn detection_order() -> (res: Vec<crate::registry::model::VcsKind>)
    ensures
        res@ == detection_order_of(),
{
    let v = vec![crate::registry::model::VcsKind::Dolt, crate::registry::model::VcsKind::Git];
    assert(v@ =~= detection_order_of());
    v
}

} // verus!
