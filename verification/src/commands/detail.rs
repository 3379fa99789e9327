//! `grit detail`: one repository, in depth.
//!
//! Where the dashboard gives every repo one row, this gives one repo a card:
//! the header the dashboard would have shown, then a section each for the
//! changed paths, the recent commits, the branches and the stash stack, each
//! only when it has something in it. Every section is a [`Table`], so
//! alignment, truncation and colour come from the dashboard's one layout.
use vstd::prelude::*;

use crate::commands::status::{
    branch_cell_of, state_cell, state_cell_of, sync_cell, sync_cell_of, tally, opt_string,
    lemma_distance_text, lemma_styled_text,
};
use crate::registry::location::{abbreviate, abbreviated, home_dir, opt_str};
use crate::registry::model::{Repo, RepoV};
use crate::render::table::{
    cell_views, one_line, painted_lines, pushed, pushed_spaced, spans_blank, styled_of, table_lines,
    spans_text, lemma_one_line_keeps, lemma_decimal_digits, is_cc,
    Align, Cell, ColumnV, Span, SpanV, Table, TableV, span_views, painted_spans, upper_text, uppercase,
};
use crate::render::theme::{
    dim, hue, plain_style, strong, Color, Style, Theme, AHEAD, BEHIND, BULLET, NONE, SYNCED,
};
use crate::render::{counted, footer_sep, paint, painted, plural};
use crate::text::{decimal, join, joined, owned, push_decimal, push_str, trim, trim_ws, chars_of, string_of, views};
use crate::vcs::{
    Branch, BranchV, Change, Commit, CommitV, Detail, DetailV, FileChange, FileChangeV, RepoState,
    Snapshot, SnapshotV, Stash, StashV,
};

verus! {

/// The one-line summary under the card: what there is, counted, and nothing
/// for what there is not.
pub open spec fn detail_summary_of(d: DetailV) -> Seq<Seq<char>> {
    let p: Seq<Seq<char>> = Seq::empty();
    let p = if d.files.len() > 0 {
        p.push(counted(d.files.len(), "change"@, "changes"@))
    } else {
        p
    };
    let p = if d.branches.len() > 0 {
        p.push(counted(d.branches.len(), "branch"@, "branches"@))
    } else {
        p
    };
    if d.stashes.len() > 0 {
        p.push(counted(d.stashes.len(), "stash"@, "stashes"@))
    } else {
        p
    }
}

/// The one-line summary under the card, sharing its words with the
/// dashboard's.
pub fn summarise(detail: &Detail) -> (res: Vec<String>)
    ensures
        views(res@) == detail_summary_of(detail@),
{
    let mut parts: Vec<String> = Vec::new();
    if detail.files.len() > 0 {
        parts.push(plural(detail.files.len(), "change", "changes"));
    }
    if detail.branches.len() > 0 {
        parts.push(plural(detail.branches.len(), "branch", "branches"));
    }
    if detail.stashes.len() > 0 {
        parts.push(plural(detail.stashes.len(), "stash", "stashes"));
    }
    assert(views(parts@) =~= detail_summary_of(detail@));
    parts
}

/// One side of the two-column code: the change's letter, in the colour the
/// dashboard uses for that side, or a space when nothing is on it.
pub open spec fn side_of(change: Option<Change>, staged: bool) -> (Seq<char>, Style) {
    match change {
        None => (" "@, dim()),
        Some(c) => (
            seq![c.spec_code()],
            match c {
                Change::Conflicted => Style { fg: Some(Color::Red), bold: true, dimmed: false },
                Change::Untracked => hue(Color::Blue),
                _ => if staged {
                    hue(Color::Green)
                } else {
                    hue(Color::Yellow)
                },
            },
        ),
    }
}

/// The code cell: staged on the left, unstaged on the right.
pub open spec fn code_cell_of(f: FileChangeV) -> Seq<SpanV> {
    let (l, ls) = side_of(f.staged, true);
    let (r, rs) = side_of(f.unstaged, false);
    pushed(styled_of(l, ls), r, rs)
}

/// One side of the code.
fn side(change: Option<Change>, staged: bool) -> (res: (String, Style))
    ensures
        res.0@ == side_of(change, staged).0,
        res.1 == side_of(change, staged).1,
{
    match change {
        None => (owned(" "), Theme::muted()),
        Some(c) => {
            let mut s = String::new();
            s.push(c.code());
            let style = match c {
                Change::Conflicted => Theme::conflict(),
                Change::Untracked => Theme::untracked(),
                _ => if staged {
                    Theme::staged()
                } else {
                    Theme::unstaged()
                },
            };
            assert(s@ =~= seq![c.spec_code()]);
            (s, style)
        },
    }
}

/// The two-column code, in git's letters: a space rather than a dot for a
/// side with nothing on it.
pub fn code_cell(file: &FileChange) -> (res: Cell)
    ensures
        res@ == code_cell_of(file@),
{
    let (left, left_style) = side(file.staged, true);
    let (right, right_style) = side(file.unstaged, false);
    Cell::styled(left.as_str(), left_style).push(right.as_str(), right_style)
}

/// The path, and where a rename or copy came from.
pub open spec fn path_cell_of(f: FileChangeV) -> Seq<SpanV> {
    let c = styled_of(f.path, plain_style());
    match f.origin {
        Some(o) => pushed_spaced(c, "← "@ + o, dim()),
        None => c,
    }
}

/// The path, and where it came from: this is the side it came *from*.
pub fn path_cell(file: &FileChange) -> (res: Cell)
    ensures
        res@ == path_cell_of(file@),
{
    let cell = Cell::plain(file.path.as_str());
    match &file.origin {
        Some(origin) => {
            let mut t = owned("← ");
            push_str(&mut t, origin.as_str());
            cell.push_spaced(t.as_str(), Theme::muted())
        },
        None => cell,
    }
}

/// The backend and the tags: registry facts, which sit with the path.
pub open spec fn about_cell_of(r: RepoV) -> Seq<SpanV> {
    let c = styled_of(r.entry.kind.spec_as_str(), hue(Color::Blue));
    if r.entry.tags.len() == 0 {
        c
    } else {
        pushed(pushed(c, " "@ + BULLET@ + " "@, dim()), joined(r.entry.tags, ", "@), hue(Color::Magenta))
    }
}

/// The backend and the tags.
pub fn about_cell(repo: &Repo) -> (res: Cell)
    ensures
        res@ == about_cell_of(repo@),
{
    let cell = Cell::styled(repo.kind().as_str(), Theme::kind());
    if repo.entry.tags.len() == 0 {
        return cell;
    }
    let mut sep = owned(" ");
    push_str(&mut sep, BULLET);
    push_str(&mut sep, " ");
    let tags = join(&repo.entry.tags, ", ");
    cell.push(sep.as_str(), Theme::muted()).push(tags.as_str(), Theme::tag())
}

/// Every span of `part` pushed onto `c`, in order.
pub open spec fn pushed_all(c: Seq<SpanV>, part: Seq<SpanV>) -> Seq<SpanV>
    decreases part.len(),
{
    if part.len() == 0 {
        c
    } else {
        pushed(pushed_all(c, part.drop_last()), part.last().text, part.last().style)
    }
}

/// A part of the header added after a two-space gap, unless it is blank.
pub open spec fn with_part(c: Seq<SpanV>, part: Seq<SpanV>) -> Seq<SpanV> {
    if spans_blank(part) {
        c
    } else {
        pushed_all(pushed(c, "  "@, plain_style()), part)
    }
}

/// `main  →  origin/main  ↑2 ↓1  ●3 ○1 ?2`, or `missing`.
pub open spec fn header_cell_of(snap: SnapshotV) -> Seq<SpanV> {
    if snap.state == RepoState::Missing {
        styled_of("missing"@, hue(Color::Red))
    } else {
        let c = branch_cell_of(snap);
        let c = match snap.upstream {
            Some(u) => pushed(pushed(pushed(pushed(c, "  "@, plain_style()), "→"@, dim()), "  "@, plain_style()), u, dim()),
            None => c,
        };
        with_part(with_part(c, sync_cell_of(snap)), state_cell_of(snap))
    }
}

/// Push every span of `part` onto `cell`.
fn push_all_spans(cell: Cell, part: &Cell) -> (res: Cell)
    ensures
        res@ == pushed_all(cell@, part@),
{
    let mut c = cell;
    let ghost start = c@;
    let spans = part.spans();
    let n = spans.len();
    let mut i: usize = 0;
    while i < n
        invariant
            n == part@.len(),
            span_views(spans@) == part@,
            i <= n,
            c@ == pushed_all(start, part@.take(i as int)),
        decreases n - i,
    {
        let span = &spans[i];
        assert(span@ == part@[i as int]);
        c = c.push(span.text.as_str(), span.style);
        assert(part@.take(i + 1).drop_last() =~= part@.take(i as int));
        i += 1;
    }
    assert(part@.take(n as int) =~= part@);
    c
}

/// The header line of the card.
pub fn header_cell(snap: &Snapshot) -> (res: Cell)
    ensures
        res@ == header_cell_of(snap@),
{
    if matches!(snap.state, RepoState::Missing) {
        return Cell::styled("missing", Theme::warn());
    }
    let mut cell = crate::commands::status::branch_cell(snap);
    match &snap.upstream {
        Some(upstream) => {
            cell = cell.push("  ", Style::new()).push("→", Theme::muted()).push("  ", Style::new()).push(
                upstream.as_str(),
                Theme::muted(),
            );
        },
        None => {},
    }
    let sync = sync_cell(snap);
    if !sync.is_empty() {
        cell = cell.push("  ", Style::new());
        cell = push_all_spans(cell, &sync);
    }
    let state = state_cell(snap);
    if !state.is_empty() {
        cell = cell.push("  ", Style::new());
        cell = push_all_spans(cell, &state);
    }
    cell
}

/// How a branch stands against its upstream: `·` with no upstream, nothing
/// when it was not measured (which is not the same as level), `✓` when
/// level, `↑n ↓n` otherwise.
pub open spec fn branch_sync_of(b: BranchV) -> Seq<SpanV> {
    match b.upstream {
        None => styled_of(NONE@, dim()),
        Some(_) => match b.distance {
            None => Seq::empty(),
            Some(d) => if d.ahead == 0 && d.behind == 0 {
                styled_of(SYNCED@, hue(Color::Green))
            } else {
                let c: Seq<SpanV> = Seq::empty();
                let c = if d.ahead > 0 {
                    pushed(c, tally(AHEAD@, d.ahead), hue(Color::Yellow))
                } else {
                    c
                };
                if d.behind > 0 {
                    pushed_spaced(c, tally(BEHIND@, d.behind), hue(Color::Red))
                } else {
                    c
                }
            },
        },
    }
}

/// A branch's sync cell on the detail card says how it stands against its
/// upstream: `·` without one, nothing when the distance was not measured,
/// `✓` exactly when nothing is ahead or behind, and otherwise `↑` with the
/// commits ahead, `↓` with the commits behind, or both, space-separated; a
/// branch with commits waiting upstream is never shown as in sync.
pub proof fn law_branch_sync_shows_the_distance(b: BranchV)
    ensures
        ({
            let t = spans_text(branch_sync_of(b));
            &&& b.upstream is None ==> t == NONE@
            &&& b.upstream is Some && b.distance is None ==> t.len() == 0
            &&& b.distance matches Some(d) ==> (b.upstream is Some ==> (
                (t == SYNCED@ <==> d.ahead == 0 && d.behind == 0)
                && (d.ahead > 0 && d.behind == 0 ==> t == AHEAD@ + decimal(d.ahead as nat))
                && (d.ahead == 0 && d.behind > 0 ==> t == BEHIND@ + decimal(d.behind as nat))
                && (d.ahead > 0 && d.behind > 0 ==> t == AHEAD@ + decimal(d.ahead as nat) + " "@ + BEHIND@
                    + decimal(d.behind as nat))
            ))
        }),
{
    reveal_strlit("·");
    reveal_strlit("✓");
    lemma_styled_text(NONE@, dim());
    lemma_styled_text(SYNCED@, hue(Color::Green));
    assert forall|i: int| 0 <= i < NONE@.len() implies !is_cc(#[trigger] NONE@[i]) by {}
    assert forall|i: int| 0 <= i < SYNCED@.len() implies !is_cc(#[trigger] SYNCED@[i]) by {}
    lemma_one_line_keeps(NONE@);
    lemma_one_line_keeps(SYNCED@);
    assert(spans_text(Seq::<SpanV>::empty()) =~= Seq::<char>::empty());
    if b.upstream is Some {
        if let Some(d) = b.distance {
            if !(d.ahead == 0 && d.behind == 0) {
                lemma_distance_text(d.ahead, d.behind);
                lemma_decimal_digits(d.ahead as nat);
                lemma_decimal_digits(d.behind as nat);
                reveal_strlit("↑");
                reveal_strlit("↓");
                let t = spans_text(branch_sync_of(b));
                assert(t.len() >= 2);
                assert(t != SYNCED@);
            }
        }
    }
}

/// How a branch stands against its upstream.
pub fn branch_sync_cell(branch: &Branch) -> (res: Cell)
    ensures
        res@ == branch_sync_of(branch@),
{
    if branch.upstream.is_none() {
        return Cell::styled(NONE, Theme::muted());
    }
    match branch.distance {
        None => Cell::empty(),
        Some(d) => {
            if d.ahead == 0 && d.behind == 0 {
                return Cell::styled(SYNCED, Theme::ok());
            }
            let mut cell = Cell::empty();
            if d.ahead > 0 {
                let mut t = owned(AHEAD);
                push_decimal(&mut t, d.ahead as u64);
                cell = cell.push(t.as_str(), Theme::ahead());
            }
            if d.behind > 0 {
                let mut t = owned(BEHIND);
                push_decimal(&mut t, d.behind as u64);
                cell = cell.push_spaced(t.as_str(), Theme::behind());
            }
            cell
        },
    }
}

/// A section's table: no header row, because the section title above it is
/// the label, and no rule.
pub open spec fn card_table_of(headers: Seq<Seq<char>>, color: bool, width: Option<usize>) -> TableV {
    TableV {
        columns: headers.map_values(|h: Seq<char>| ColumnV { header: h, align: Align::Left, flex: false }),
        rows: Seq::empty(),
        color,
        width,
        rule: false,
        header: false,
        indent: true,
    }
}

/// Start a section's table with these headers.
fn card_table<const N: usize>(headers: [&str; N], color: bool, width: Option<usize>) -> (res: Table)
    ensures
        res@ == card_table_of(headers@.map_values(|h: &str| h@), color, width),
{
    let t = Table::new(headers).color(color).terminal_width(width).no_header().no_rule();
    assert(t@.columns =~= headers@.map_values(|h: &str| h@).map_values(
        |h: Seq<char>| ColumnV { header: h, align: Align::Left, flex: false },
    ));
    assert(t@.rows =~= Seq::<Seq<Seq<SpanV>>>::empty());
    t
}

/// A section's columns, the one that flexes and the one on the right.
pub open spec fn section_columns(headers: Seq<Seq<char>>, flex: int, right: int) -> Seq<ColumnV> {
    Seq::new(
        headers.len(),
        |i: int| ColumnV {
            header: headers[i],
            align: if i == right {
                Align::Right
            } else {
                Align::Left
            },
            flex: i == flex,
        },
    )
}

/// A section as a table, before its rows.
pub open spec fn section_of(headers: Seq<Seq<char>>, flex: int, right: int, color: bool, width: Option<usize>, rows: Seq<Seq<Seq<SpanV>>>) -> TableV {
    TableV {
        columns: section_columns(headers, flex, right),
        rows,
        color,
        width,
        rule: false,
        header: false,
        indent: true,
    }
}

/// The changed paths, one row each, or no section when there are none.
pub open spec fn changes_rows(files: Seq<FileChangeV>) -> Seq<Seq<Seq<SpanV>>> {
    files.map_values(|f: FileChangeV| seq![code_cell_of(f), path_cell_of(f)])
}

/// The changes section.
pub fn changes_table(files: &Vec<FileChange>, color: bool, width: Option<usize>) -> (res: Option<Table>)
    ensures
        match res {
            None => files@.len() == 0,
            Some(t) => files@.len() > 0 && t@ == section_of(seq!["code"@, "path"@], 1, -1, color, width, changes_rows(crate::vcs::file_views(files@))),
        },
{
    if files.len() == 0 {
        return None;
    }
    let mut table = card_table(["code", "path"], color, width).flex(1);
    let ghost fv = crate::vcs::file_views(files@);
    assert(table@.columns =~= section_columns(seq!["code"@, "path"@], 1, -1));
    assert(table@.rows =~= changes_rows(fv).take(0));
    let n = files.len();
    let mut i: usize = 0;
    while i < n
        invariant
            n == files@.len(),
            fv == crate::vcs::file_views(files@),
            i <= n,
            table@ == section_of(seq!["code"@, "path"@], 1, -1, color, width, changes_rows(fv).take(i as int)),
        decreases n - i,
    {
        let f = &files[i];
        let cells = vec![code_cell(f), path_cell(f)];
        let ghost cv = cell_views(cells@);
        assert(cv =~= seq![code_cell_of(fv[i as int]), path_cell_of(fv[i as int])]);
        table.push_row(cells);
        assert(changes_rows(fv).take(i + 1) =~= changes_rows(fv).take(i as int).push(cv));
        i += 1;
    }
    assert(changes_rows(fv).take(n as int) =~= changes_rows(fv));
    Some(table)
}

/// A commit's row.
pub open spec fn commit_row_of(c: CommitV) -> Seq<Seq<SpanV>> {
    seq![styled_of(c.short_id, hue(Color::Yellow)), styled_of(c.subject, plain_style()), styled_of(c.age, dim())]
}

/// The commits section.
pub fn commits_table(detail: &Detail, color: bool, width: Option<usize>) -> (res: Option<Table>)
    ensures
        match res {
            None => detail@.commits.len() == 0,
            Some(t) => detail@.commits.len() > 0 && t@ == section_of(
                seq!["commit"@, "subject"@, "age"@],
                1,
                2,
                color,
                width,
                detail@.commits.map_values(|c: CommitV| commit_row_of(c)),
            ),
        },
{
    if detail.commits.len() == 0 {
        return None;
    }
    let mut table = card_table(["commit", "subject", "age"], color, width).flex(1).align(2, Align::Right);
    let ghost cs = detail@.commits;
    assert(table@.columns =~= section_columns(seq!["commit"@, "subject"@, "age"@], 1, 2));
    assert(table@.rows =~= cs.map_values(|c: CommitV| commit_row_of(c)).take(0));
    let n = detail.commits.len();
    let mut i: usize = 0;
    while i < n
        invariant
            n == detail.commits@.len(),
            cs == detail@.commits,
            i <= n,
            table@ == section_of(seq!["commit"@, "subject"@, "age"@], 1, 2, color, width, cs.map_values(|c: CommitV| commit_row_of(c)).take(i as int)),
        decreases n - i,
    {
        let c = &detail.commits[i];
        let cells = vec![
            Cell::styled(c.short_id.as_str(), Theme::sha()),
            Cell::styled(c.subject.as_str(), Theme::subject()),
            Cell::styled(c.age.as_str(), Theme::muted()),
        ];
        let ghost cv = cell_views(cells@);
        assert(cv =~= commit_row_of(cs[i as int]));
        table.push_row(cells);
        assert(cs.map_values(|c: CommitV| commit_row_of(c)).take(i + 1) =~= cs.map_values(|c: CommitV| commit_row_of(c)).take(i as int).push(cv));
        i += 1;
    }
    assert(cs.map_values(|c: CommitV| commit_row_of(c)).take(n as int) =~= cs.map_values(|c: CommitV| commit_row_of(c)));
    Some(table)
}

/// A branch's row: the checked-out marker, the name, the upstream, how it
/// stands, and its tip.
pub open spec fn branch_row_of(b: BranchV) -> Seq<Seq<SpanV>> {
    seq![
        if b.head {
            styled_of("*"@, hue(Color::Green))
        } else {
            Seq::empty()
        },
        styled_of(b.name, hue(Color::Cyan)),
        match b.upstream {
            Some(u) => styled_of(u, dim()),
            None => styled_of(NONE@, dim()),
        },
        branch_sync_of(b),
        match b.tip {
            Some(t) => styled_of(t.subject, plain_style()),
            None => styled_of("no commits yet"@, dim()),
        },
        match b.tip {
            Some(t) => styled_of(t.age, dim()),
            None => Seq::empty(),
        },
    ]
}

/// The branches section.
pub fn branches_table(branches: &Vec<Branch>, color: bool, width: Option<usize>) -> (res: Option<Table>)
    ensures
        match res {
            None => branches@.len() == 0,
            Some(t) => branches@.len() > 0 && t@ == section_of(
                seq!["at"@, "branch"@, "upstream"@, "sync"@, "subject"@, "age"@],
                4,
                5,
                color,
                width,
                crate::vcs::branch_views(branches@).map_values(|b: BranchV| branch_row_of(b)),
            ),
        },
{
    if branches.len() == 0 {
        return None;
    }
    let mut table = card_table(["at", "branch", "upstream", "sync", "subject", "age"], color, width).flex(4).align(5, Align::Right);
    let ghost bs = crate::vcs::branch_views(branches@);
    let ghost headers = seq!["at"@, "branch"@, "upstream"@, "sync"@, "subject"@, "age"@];
    assert(table@.columns =~= section_columns(headers, 4, 5));
    assert(table@.rows =~= bs.map_values(|b: BranchV| branch_row_of(b)).take(0));
    let n = branches.len();
    let mut i: usize = 0;
    while i < n
        invariant
            n == branches@.len(),
            bs == crate::vcs::branch_views(branches@),
            headers == seq!["at"@, "branch"@, "upstream"@, "sync"@, "subject"@, "age"@],
            i <= n,
            table@ == section_of(headers, 4, 5, color, width, bs.map_values(|b: BranchV| branch_row_of(b)).take(i as int)),
        decreases n - i,
    {
        let b = &branches[i];
        let at = if b.head {
            Cell::styled("*", Theme::ok())
        } else {
            Cell::empty()
        };
        let upstream = match &b.upstream {
            Some(u) => Cell::styled(u.as_str(), Theme::muted()),
            None => Cell::styled(NONE, Theme::muted()),
        };
        let subject = match &b.tip {
            Some(t) => Cell::styled(t.subject.as_str(), Theme::subject()),
            None => Cell::styled("no commits yet", Theme::muted()),
        };
        let age = match &b.tip {
            Some(t) => Cell::styled(t.age.as_str(), Theme::muted()),
            None => Cell::empty(),
        };
        let cells = vec![at, Cell::styled(b.name.as_str(), Theme::branch()), upstream, branch_sync_cell(b), subject, age];
        let ghost cv = cell_views(cells@);
        assert(cv =~= branch_row_of(bs[i as int]));
        table.push_row(cells);
        assert(bs.map_values(|b: BranchV| branch_row_of(b)).take(i + 1) =~= bs.map_values(|b: BranchV| branch_row_of(b)).take(i as int).push(cv));
        i += 1;
    }
    assert(bs.map_values(|b: BranchV| branch_row_of(b)).take(n as int) =~= bs.map_values(|b: BranchV| branch_row_of(b)));
    Some(table)
}

/// A stash's row.
pub open spec fn stash_row_of(s: StashV) -> Seq<Seq<SpanV>> {
    seq![styled_of(s.id, hue(Color::Magenta)), styled_of(s.message, plain_style()), styled_of(s.age, dim())]
}

/// The stashes section.
pub fn stashes_table(detail: &Detail, color: bool, width: Option<usize>) -> (res: Option<Table>)
    ensures
        match res {
            None => detail@.stashes.len() == 0,
            Some(t) => detail@.stashes.len() > 0 && t@ == section_of(
                seq!["id"@, "message"@, "age"@],
                1,
                2,
                color,
                width,
                detail@.stashes.map_values(|s: StashV| stash_row_of(s)),
            ),
        },
{
    if detail.stashes.len() == 0 {
        return None;
    }
    let mut table = card_table(["id", "message", "age"], color, width).flex(1).align(2, Align::Right);
    let ghost ss = detail@.stashes;
    assert(table@.columns =~= section_columns(seq!["id"@, "message"@, "age"@], 1, 2));
    assert(table@.rows =~= ss.map_values(|s: StashV| stash_row_of(s)).take(0));
    let n = detail.stashes.len();
    let mut i: usize = 0;
    while i < n
        invariant
            n == detail.stashes@.len(),
            ss == detail@.stashes,
            i <= n,
            table@ == section_of(seq!["id"@, "message"@, "age"@], 1, 2, color, width, ss.map_values(|s: StashV| stash_row_of(s)).take(i as int)),
        decreases n - i,
    {
        let s = &detail.stashes[i];
        let cells = vec![
            Cell::styled(s.id.as_str(), Theme::stash()),
            Cell::styled(s.message.as_str(), Theme::subject()),
            Cell::styled(s.age.as_str(), Theme::muted()),
        ];
        let ghost cv = cell_views(cells@);
        assert(cv =~= stash_row_of(ss[i as int]));
        table.push_row(cells);
        assert(ss.map_values(|s: StashV| stash_row_of(s)).take(i + 1) =~= ss.map_values(|s: StashV| stash_row_of(s)).take(i as int).push(cv));
        i += 1;
    }
    assert(ss.map_values(|s: StashV| stash_row_of(s)).take(n as int) =~= ss.map_values(|s: StashV| stash_row_of(s)));
    Some(table)
}

/// One piece of the card, before anyone decides how to paint it: a line of
/// styled spans at the table margin, an empty line, or a titled section.
pub enum Block {
    Line(Cell),
    Blank,
    Section(&'static str, Table),
}

/// A block as text.
pub enum BlockV {
    Line(Seq<SpanV>),
    Blank,
    Section(Seq<char>, TableV),
}

impl View for Block {
    type V = BlockV;

    open spec fn view(&self) -> BlockV {
        match self {
            Block::Line(c) => BlockV::Line(c@),
            Block::Blank => BlockV::Blank,
            Block::Section(title, table) => BlockV::Section(title@, table@),
        }
    }
}

/// The views of a stack of blocks.
pub open spec fn block_views(v: Seq<Block>) -> Seq<BlockV> {
    v.map_values(|b: Block| b@)
}

/// A section with a blank line above it, or nothing when it has no rows.
pub open spec fn section_blocks(present: bool, title: Seq<char>, table: TableV) -> Seq<BlockV> {
    if present {
        seq![BlockV::Blank, BlockV::Section(title, table)]
    } else {
        Seq::empty()
    }
}

/// The card as blocks: who the repo is, what it is, how it stands, and then,
/// unless its working tree is missing, a section for each kind of content it
/// has and the summary line.
pub open spec fn card_blocks_of(r: RepoV, d: DetailV, color: bool, width: Option<usize>, home: Option<Seq<char>>) -> Seq<BlockV> {
    let head = seq![
        BlockV::Blank,
        BlockV::Line(pushed(pushed(styled_of(r.alias, strong()), "  "@, plain_style()), abbreviated(r.entry.path, home), dim())),
        BlockV::Line(about_cell_of(r)),
        BlockV::Blank,
        BlockV::Line(header_cell_of(d.snapshot)),
    ];
    if d.snapshot.state == RepoState::Missing {
        head
    } else {
        let parts = detail_summary_of(d);
        head
            + section_blocks(d.files.len() > 0, "changes"@,
                section_of(seq!["code"@, "path"@], 1, -1, color, width, changes_rows(d.files)))
            + section_blocks(d.commits.len() > 0, "commits"@,
                section_of(seq!["commit"@, "subject"@, "age"@], 1, 2, color, width,
                    d.commits.map_values(|c: CommitV| commit_row_of(c))))
            + section_blocks(d.branches.len() > 0, "branches"@,
                section_of(seq!["at"@, "branch"@, "upstream"@, "sync"@, "subject"@, "age"@], 4, 5, color, width,
                    d.branches.map_values(|b: BranchV| branch_row_of(b))))
            + section_blocks(d.stashes.len() > 0, "stashes"@,
                section_of(seq!["id"@, "message"@, "age"@], 1, 2, color, width,
                    d.stashes.map_values(|s: StashV| stash_row_of(s))))
            + if parts.len() > 0 {
                seq![BlockV::Blank, BlockV::Line(styled_of(joined(parts, footer_sep()), dim()))]
            } else {
                Seq::empty()
            }
    }
}

/// Append a section, if there is one, with its blank line.
fn push_section(blocks: &mut Vec<Block>, title: &'static str, table: Option<Table>)
    ensures
        block_views(final(blocks)@) == block_views(old(blocks)@) + match table {
            Some(t) => section_blocks(true, title@, t@),
            None => Seq::empty(),
        },
{
    let ghost before = block_views(blocks@);
    match table {
        Some(t) => {
            blocks.push(Block::Blank);
            blocks.push(Block::Section(title, t));
            assert(block_views(blocks@) =~= before + section_blocks(true, title@, t@));
        },
        None => {
            assert(block_views(blocks@) =~= before + Seq::empty());
        },
    }
}

/// The card as blocks, with the repo's path shown against `home`.
pub fn build_card_in(repo: &Repo, detail: &Detail, color: bool, width: Option<usize>, home: Option<&str>) -> (res: Vec<Block>)
    ensures
        block_views(res@) == card_blocks_of(repo@, detail@, color, width, opt_str(home)),
{
    let shown = abbreviate(repo.path(), home);
    let title = Cell::styled(repo.alias.as_str(), Theme::alias()).push("  ", Style::new()).push(shown.as_str(), Theme::path());
    let mut blocks: Vec<Block> = Vec::new();
    blocks.push(Block::Blank);
    blocks.push(Block::Line(title));
    blocks.push(Block::Line(about_cell(repo)));
    blocks.push(Block::Blank);
    blocks.push(Block::Line(header_cell(&detail.snapshot)));
    let ghost head = block_views(blocks@);
    assert(head =~= card_blocks_of(repo@, detail@, color, width, opt_str(home)).take(5));
    if matches!(detail.snapshot.state, RepoState::Missing) {
        assert(head =~= card_blocks_of(repo@, detail@, color, width, opt_str(home)));
        return blocks;
    }
    push_section(&mut blocks, "changes", changes_table(&detail.files, color, width));
    push_section(&mut blocks, "commits", commits_table(detail, color, width));
    push_section(&mut blocks, "branches", branches_table(&detail.branches, color, width));
    push_section(&mut blocks, "stashes", stashes_table(detail, color, width));
    let parts = summarise(detail);
    let ghost mid = block_views(blocks@);
    if parts.len() > 0 {
        let mut sep = owned(" ");
        push_str(&mut sep, BULLET);
        push_str(&mut sep, " ");
        let line = join(&parts, sep.as_str());
        blocks.push(Block::Blank);
        blocks.push(Block::Line(Cell::styled(line.as_str(), Theme::muted())));
        assert(block_views(blocks@) =~= mid + seq![BlockV::Blank, BlockV::Line(styled_of(joined(views(parts@), footer_sep()), dim()))]);
    } else {
        assert(block_views(blocks@) =~= mid + Seq::empty());
    }
    assert(block_views(blocks@) =~= card_blocks_of(repo@, detail@, color, width, opt_str(home)));
    blocks
}

/// The card as blocks, the repo's path shown with the user's home directory
/// collapsed to `~` where there is one.
pub fn build_card(repo: &Repo, detail: &Detail, color: bool, width: Option<usize>) -> (res: Vec<Block>)
    ensures
        exists|home: Option<Seq<char>>| block_views(res@) == card_blocks_of(repo@, detail@, color, width, home),
{
    let h = crate::registry::location::home();
    let blocks = match &h {
        Some(s) => build_card_in(repo, detail, color, width, Some(s.as_str())),
        None => build_card_in(repo, detail, color, width, None),
    };
    assert(block_views(blocks@) == card_blocks_of(repo@, detail@, color, width, opt_string(h)));
    blocks
}

/// The margin a table indents by, for the lines that are not tables.
pub const MARGIN: &'static str = "  ";

/// A block painted: a line at the margin, an empty line, or a section's
/// title in capitals above its table.
pub open spec fn painted_block(b: BlockV, color: bool) -> Seq<char> {
    match b {
        BlockV::Blank => seq!['\n'],
        BlockV::Line(c) => MARGIN@ + painted_spans(c, color) + seq!['\n'],
        BlockV::Section(title, t) => MARGIN@ + painted(upper_text(title), dim(), color) + seq!['\n']
            + painted_lines(table_lines(t), t.color),
    }
}

/// The blocks painted, one after another.
pub open spec fn painted_blocks(bs: Seq<BlockV>, color: bool) -> Seq<char>
    decreases bs.len(),
{
    if bs.len() == 0 {
        Seq::empty()
    } else {
        painted_blocks(bs.drop_last(), color) + painted_block(bs.last(), color)
    }
}

/// A cell's spans, painted, with nothing padded around them.
fn render_cell(cell: &Cell, color: bool) -> (res: String)
    ensures
        res@ == painted_spans(cell@, color),
{
    let mut out = String::new();
    let spans = cell.spans();
    let n = spans.len();
    let mut i: usize = 0;
    while i < n
        invariant
            n == cell@.len(),
            span_views(spans@) == cell@,
            i <= n,
            out@ == painted_spans(cell@.take(i as int), color),
        decreases n - i,
    {
        assert(spans@[i as int]@ == cell@[i as int]);
        let p = paint(spans[i].text.as_str(), spans[i].style, color);
        push_str(&mut out, p.as_str());
        assert(cell@.take(i + 1).drop_last() =~= cell@.take(i as int));
        i += 1;
    }
    assert(cell@.take(n as int) =~= cell@);
    out
}

/// The blocks, painted for a terminal.
pub fn paint_blocks(blocks: &Vec<Block>, color: bool) -> (res: String)
    ensures
        res@ == painted_blocks(block_views(blocks@), color),
{
    let ghost bv = block_views(blocks@);
    let mut out = String::new();
    let n = blocks.len();
    let mut i: usize = 0;
    while i < n
        invariant
            n == blocks@.len(),
            bv == block_views(blocks@),
            i <= n,
            out@ == painted_blocks(bv.take(i as int), color),
        decreases n - i,
    {
        let ghost start = out@;
        assert(bv[i as int] == blocks@[i as int]@);
        match &blocks[i] {
            Block::Blank => {
                out.push('\n');
            },
            Block::Line(cell) => {
                push_str(&mut out, MARGIN);
                let p = render_cell(cell, color);
                push_str(&mut out, p.as_str());
                out.push('\n');
            },
            Block::Section(title, table) => {
                push_str(&mut out, MARGIN);
                let up = uppercase(title);
                let p = paint(up.as_str(), Theme::header(), color);
                push_str(&mut out, p.as_str());
                out.push('\n');
                let t = table.render();
                push_str(&mut out, t.as_str());
                assert(out@ =~= start + painted_block(bv[i as int], color));
            },
        }
        assert(out@ =~= start + painted_block(bv[i as int], color));
        assert(bv.take(i + 1).drop_last() =~= bv.take(i as int));
        i += 1;
    }
    assert(bv.take(n as int) =~= bv);
    out
}

/// The card, painted: the blocks, with the home directory collapsed in the
/// repo's path where there is one.
pub fn card(repo: &Repo, detail: &Detail, color: bool, width: Option<usize>) -> (res: String)
    ensures
        exists|home: Option<Seq<char>>| res@ == painted_blocks(card_blocks_of(repo@, detail@, color, width, home), color),
{
    let blocks = build_card(repo, detail, color, width);
    paint_blocks(&blocks, color)
}

} // verus!
