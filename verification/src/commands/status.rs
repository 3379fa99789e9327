//! `grit status`: the dashboard.
//!
//! Each repo is read by its backend; what the readings come to on screen —
//! the cells of each row and the summary under the table — is decided here.
use vstd::prelude::*;

use crate::registry::location::{abbreviate, abbreviated, home, opt_str};
use crate::registry::model::{Repo, RepoV};
use crate::render::table::{
    cell_views, pushed, pushed_spaced, spans_blank, styled_of, Align, Cell, SpanV, Table, TableV,
    ColumnV, spans_text, lemma_count_text_kept, lemma_one_line_keeps, lemma_pushed_text,
};
use crate::render::theme::{
    dim, hue, Color, Style, Theme, AHEAD, BEHIND, CONFLICT, NONE, STAGED, STASH, SYNCED, UNSTAGED,
    UNTRACKED,
};
use crate::render::{counted, footer, footer_of, plural};
use crate::text::{chars_of, decimal, lines, lines_of, owned, push_decimal, push_str, string_of, texts, views};
use crate::vcs::{RepoState, Snapshot, SnapshotV};

verus! {

/// One repo's reading, or why it could not be read.
#[derive(Debug)]
pub struct Row {
    pub repo: Repo,
    pub outcome: Result<Snapshot, String>,
}

/// The first line of a message, or nothing.
pub open spec fn first_line_of(s: Seq<char>) -> Seq<char> {
    if lines_of(s).len() == 0 {
        Seq::empty()
    } else {
        lines_of(s)[0]
    }
}

/// Errors are multi-line, carrying hints; a table cell gets the first line.
pub fn first_line(s: &str) -> (res: String)
    ensures
        res@ == first_line_of(s@),
{
    let c = chars_of(s);
    let ls = lines(&c);
    if ls.len() == 0 {
        String::new()
    } else {
        assert(texts(ls@)[0] == ls@[0]@);
        string_of(&ls[0])
    }
}

/// A symbol followed by a count, as `↑2`.
pub open spec fn tally(symbol: Seq<char>, n: u32) -> Seq<char> {
    symbol + decimal(n as nat)
}

/// A symbol followed by a count.
fn tally_text(symbol: &str, n: u32) -> (res: String)
    ensures
        res@ == tally(symbol@, n),
{
    let mut s = owned(symbol);
    push_decimal(&mut s, n as u64);
    s
}

/// The branch, or `detached`.
pub open spec fn branch_cell_of(snap: SnapshotV) -> Seq<SpanV> {
    match snap.branch {
        Some(b) => styled_of(b, hue(Color::Cyan)),
        None => styled_of("detached"@, hue(Color::Magenta)),
    }
}

/// The branch the repo is on, or that it is on none.
pub fn branch_cell(snap: &Snapshot) -> (res: Cell)
    ensures
        res@ == branch_cell_of(snap@),
{
    match &snap.branch {
        Some(branch) => Cell::styled(branch.as_str(), Theme::branch()),
        None => Cell::styled("detached", Theme::detached()),
    }
}

/// `✓` in sync, `↑n` / `↓n` otherwise, `·` when there is no upstream to
/// compare against: three different cases, shown differently.
pub open spec fn sync_cell_of(snap: SnapshotV) -> Seq<SpanV> {
    if snap.upstream is None {
        styled_of(NONE@, dim())
    } else if snap.ahead == 0 && snap.behind == 0 {
        styled_of(SYNCED@, hue(Color::Green))
    } else {
        let c: Seq<SpanV> = Seq::empty();
        let c = if snap.ahead > 0 {
            pushed(c, tally(AHEAD@, snap.ahead), hue(Color::Yellow))
        } else {
            c
        };
        if snap.behind > 0 {
            pushed_spaced(c, tally(BEHIND@, snap.behind), hue(Color::Red))
        } else {
            c
        }
    }
}

/// How the repo stands against its upstream.
pub fn sync_cell(snap: &Snapshot) -> (res: Cell)
    ensures
        res@ == sync_cell_of(snap@),
{
    if snap.upstream.is_none() {
        return Cell::styled(NONE, Theme::muted());
    }
    if snap.is_synced() {
        return Cell::styled(SYNCED, Theme::ok());
    }
    let mut cell = Cell::empty();
    if snap.ahead > 0 {
        let t = tally_text(AHEAD, snap.ahead);
        cell = cell.push(t.as_str(), Theme::ahead());
    }
    if snap.behind > 0 {
        let t = tally_text(BEHIND, snap.behind);
        cell = cell.push_spaced(t.as_str(), Theme::behind());
    }
    cell
}

/// The text of a cell of one span.
pub proof fn lemma_styled_text(text: Seq<char>, style: Style)
    ensures
        spans_text(styled_of(text, style)) == crate::render::table::one_line(text),
{
    let c = styled_of(text, style);
    assert(c.drop_last() =~= Seq::<SpanV>::empty());
    assert(spans_text(Seq::<SpanV>::empty()) =~= Seq::<char>::empty());
    assert(c.last().text == crate::render::table::one_line(text));
    assert(Seq::<char>::empty() + crate::render::table::one_line(text) =~= crate::render::table::one_line(text));
}

/// The texts of the distance to an upstream, `↑a`, `↓b` or `↑a ↓b`, made of
/// cells: what each arrangement of non-zero counts reads as.
pub proof fn lemma_distance_text(ahead: u32, behind: u32)
    requires
        ahead > 0 || behind > 0,
    ensures
        ({
            let c: Seq<SpanV> = Seq::empty();
            let c = if ahead > 0 {
                pushed(c, tally(AHEAD@, ahead), hue(Color::Yellow))
            } else {
                c
            };
            let t = spans_text(
                if behind > 0 {
                    pushed_spaced(c, tally(BEHIND@, behind), hue(Color::Red))
                } else {
                    c
                },
            );
            &&& ahead > 0 && behind == 0 ==> t == AHEAD@ + decimal(ahead as nat)
            &&& ahead == 0 && behind > 0 ==> t == BEHIND@ + decimal(behind as nat)
            &&& ahead > 0 && behind > 0 ==> t == AHEAD@ + decimal(ahead as nat) + " "@ + BEHIND@
                + decimal(behind as nat)
        }),
{
    reveal_strlit("↑");
    reveal_strlit("↓");
    reveal_strlit(" ");
    let up = tally(AHEAD@, ahead);
    let down = tally(BEHIND@, behind);
    assert forall|i: int| 0 <= i < AHEAD@.len() implies !crate::render::table::is_cc(#[trigger] AHEAD@[i]) by {}
    assert forall|i: int| 0 <= i < BEHIND@.len() implies !crate::render::table::is_cc(#[trigger] BEHIND@[i]) by {}
    lemma_count_text_kept(AHEAD@, ahead as nat);
    lemma_count_text_kept(BEHIND@, behind as nat);
    let e: Seq<SpanV> = Seq::empty();
    assert(spans_text(e) =~= Seq::<char>::empty());
    lemma_pushed_text(e, up, hue(Color::Yellow));
    let c = if ahead > 0 {
        pushed(e, up, hue(Color::Yellow))
    } else {
        e
    };
    lemma_pushed_text(c, down, hue(Color::Red));
    if ahead > 0 {
        assert(up.len() > 0);
        let p = pushed(e, up, hue(Color::Yellow));
        assert(p[0].text.len() > 0);
        assert(!spans_blank(p));
        assert(Seq::<char>::empty() + up =~= up);
    } else {
        assert(spans_blank(e));
        assert(Seq::<char>::empty() + down =~= down);
    }
}

/// The dashboard's SYNC column says how the branch stands against its
/// upstream: `·` without one, `✓` exactly when nothing is ahead or behind,
/// and otherwise `↑` with the commits ahead, `↓` with the commits behind, or
/// both, space-separated; a branch with commits waiting upstream is never
/// shown as in sync.
pub proof fn law_sync_cell_shows_the_distance(snap: SnapshotV)
    ensures
        ({
            let t = spans_text(sync_cell_of(snap));
            &&& snap.upstream is None ==> t == NONE@
            &&& snap.upstream is Some ==> {
                &&& (t == SYNCED@ <==> snap.ahead == 0 && snap.behind == 0)
                &&& (snap.ahead > 0 && snap.behind == 0 ==> t == AHEAD@ + decimal(snap.ahead as nat))
                &&& (snap.ahead == 0 && snap.behind > 0 ==> t == BEHIND@ + decimal(snap.behind as nat))
                &&& (snap.ahead > 0 && snap.behind > 0 ==> t == AHEAD@ + decimal(snap.ahead as nat) + " "@
                    + BEHIND@ + decimal(snap.behind as nat))
            }
        }),
{
    reveal_strlit("·");
    reveal_strlit("✓");
    reveal_strlit("↑");
    reveal_strlit("↓");
    lemma_styled_text(NONE@, dim());
    lemma_styled_text(SYNCED@, hue(Color::Green));
    assert forall|i: int| 0 <= i < NONE@.len() implies !crate::render::table::is_cc(#[trigger] NONE@[i]) by {}
    assert forall|i: int| 0 <= i < SYNCED@.len() implies !crate::render::table::is_cc(#[trigger] SYNCED@[i]) by {}
    lemma_one_line_keeps(NONE@);
    lemma_one_line_keeps(SYNCED@);
    if snap.upstream is Some && !(snap.ahead == 0 && snap.behind == 0) {
        lemma_distance_text(snap.ahead, snap.behind);
        crate::render::table::lemma_decimal_digits(snap.ahead as nat);
        crate::render::table::lemma_decimal_digits(snap.behind as nat);
        let t = spans_text(sync_cell_of(snap));
        assert(t.len() >= 2);
        assert(t != SYNCED@);
    }
}

/// What is under way and what is waiting, most urgent first: an operation
/// in progress, conflicts, staged, unstaged, untracked, stashes; `clean`
/// when there is nothing to report.
pub open spec fn state_cell_of(snap: SnapshotV) -> Seq<SpanV> {
    let c: Seq<SpanV> = Seq::empty();
    let c = match snap.state.spec_label() {
        Some(l) => pushed(c, l, hue(Color::Red)),
        None => c,
    };
    let c = if snap.conflicts > 0 {
        pushed_spaced(c, tally(CONFLICT@, snap.conflicts), Style { fg: Some(Color::Red), bold: true, dimmed: false })
    } else {
        c
    };
    let c = if snap.staged > 0 {
        pushed_spaced(c, tally(STAGED@, snap.staged), hue(Color::Green))
    } else {
        c
    };
    let c = if snap.unstaged > 0 {
        pushed_spaced(c, tally(UNSTAGED@, snap.unstaged), hue(Color::Yellow))
    } else {
        c
    };
    let c = if snap.untracked > 0 {
        pushed_spaced(c, tally(UNTRACKED@, snap.untracked), hue(Color::Blue))
    } else {
        c
    };
    let c = if snap.stashes > 0 {
        pushed_spaced(c, tally(STASH@, snap.stashes), hue(Color::Magenta))
    } else {
        c
    };
    if spans_blank(c) {
        styled_of("clean"@, dim())
    } else {
        c
    }
}

/// The working tree's state.
pub fn state_cell(snap: &Snapshot) -> (res: Cell)
    ensures
        res@ == state_cell_of(snap@),
{
    let mut cell = Cell::empty();
    match snap.state.label() {
        Some(label) => {
            cell = cell.push(label, Theme::warn());
        },
        None => {},
    }
    if snap.conflicts > 0 {
        let t = tally_text(CONFLICT, snap.conflicts);
        cell = cell.push_spaced(t.as_str(), Theme::conflict());
    }
    if snap.staged > 0 {
        let t = tally_text(STAGED, snap.staged);
        cell = cell.push_spaced(t.as_str(), Theme::staged());
    }
    if snap.unstaged > 0 {
        let t = tally_text(UNSTAGED, snap.unstaged);
        cell = cell.push_spaced(t.as_str(), Theme::unstaged());
    }
    if snap.untracked > 0 {
        let t = tally_text(UNTRACKED, snap.untracked);
        cell = cell.push_spaced(t.as_str(), Theme::untracked());
    }
    if snap.stashes > 0 {
        let t = tally_text(STASH, snap.stashes);
        cell = cell.push_spaced(t.as_str(), Theme::stash());
    }
    if cell.is_empty() {
        return Cell::styled("clean", Theme::muted());
    }
    cell
}

/// The row for a repo that was read: its path, shown as `shown`, appears
/// only when the repo is missing.
pub open spec fn snapshot_cells_of(alias: Seq<char>, snap: SnapshotV, shown: Seq<char>) -> Seq<Seq<SpanV>> {
    if snap.state == RepoState::Missing {
        seq![
            styled_of(alias, Style { fg: None, bold: true, dimmed: false }),
            styled_of(NONE@, dim()),
            Seq::empty(),
            styled_of("missing"@, hue(Color::Red)),
            Seq::empty(),
            styled_of(shown, dim()),
            Seq::empty(),
        ]
    } else {
        let (commit, subject, age) = match snap.head {
            Some(h) => (
                styled_of(h.short_id, hue(Color::Yellow)),
                styled_of(h.subject, crate::render::theme::plain_style()),
                styled_of(h.age, dim()),
            ),
            None => (styled_of(NONE@, dim()), styled_of("no commits yet"@, dim()), Seq::empty()),
        };
        seq![
            styled_of(alias, Style { fg: None, bold: true, dimmed: false }),
            branch_cell_of(snap),
            sync_cell_of(snap),
            state_cell_of(snap),
            commit,
            subject,
            age,
        ]
    }
}

/// The row for a repo that was read, its path shown with `home` collapsed
/// to `~`.
pub fn snapshot_cells_in(repo: &Repo, snap: &Snapshot, home: Option<&str>) -> (res: Vec<Cell>)
    ensures
        cell_views(res@) == snapshot_cells_of(repo@.alias, snap@, abbreviated(repo@.entry.path, opt_str(home))),
{
    if matches!(snap.state, RepoState::Missing) {
        let shown = abbreviate(repo.path(), home);
        let cells = vec![
            Cell::styled(repo.alias.as_str(), Theme::alias()),
            Cell::styled(NONE, Theme::muted()),
            Cell::empty(),
            Cell::styled("missing", Theme::warn()),
            Cell::empty(),
            Cell::styled(shown.as_str(), Theme::muted()),
            Cell::empty(),
        ];
        assert(cell_views(cells@) =~= snapshot_cells_of(repo@.alias, snap@, abbreviated(repo@.entry.path, opt_str(home))));
        return cells;
    }
    let (commit, subject, age) = match &snap.head {
        Some(head) => (
            Cell::styled(head.short_id.as_str(), Theme::sha()),
            Cell::styled(head.subject.as_str(), Theme::subject()),
            Cell::styled(head.age.as_str(), Theme::muted()),
        ),
        None => (
            Cell::styled(NONE, Theme::muted()),
            Cell::styled("no commits yet", Theme::muted()),
            Cell::empty(),
        ),
    };
    let cells = vec![
        Cell::styled(repo.alias.as_str(), Theme::alias()),
        branch_cell(snap),
        sync_cell(snap),
        state_cell(snap),
        commit,
        subject,
        age,
    ];
    assert(cell_views(cells@) =~= snapshot_cells_of(repo@.alias, snap@, abbreviated(repo@.entry.path, opt_str(home))));
    cells
}

/// The view of an optional string.
pub open spec fn opt_string(o: Option<String>) -> Option<Seq<char>> {
    match o {
        Some(s) => Some(s@),
        None => None,
    }
}

/// The row for a repo that was read, its path shown with the user's home
/// directory collapsed to `~`.
pub fn snapshot_cells(repo: &Repo, snap: &Snapshot) -> (res: Vec<Cell>)
    ensures
        exists|home: Option<Seq<char>>|
            cell_views(res@) == snapshot_cells_of(repo@.alias, snap@, abbreviated(repo@.entry.path, home)),
{
    let h = home();
    let cells = match &h {
        Some(s) => snapshot_cells_in(repo, snap, Some(s.as_str())),
        None => snapshot_cells_in(repo, snap, None),
    };
    assert(cell_views(cells@) == snapshot_cells_of(repo@.alias, snap@, abbreviated(repo@.entry.path, opt_string(h))));
    cells
}

/// The row for a repo that could not be read: the message in the subject
/// column.
pub open spec fn error_cells_of(alias: Seq<char>, message: Seq<char>) -> Seq<Seq<SpanV>> {
    seq![
        styled_of(alias, Style { fg: None, bold: true, dimmed: false }),
        styled_of(NONE@, dim()),
        Seq::empty(),
        styled_of("error"@, hue(Color::Red)),
        Seq::empty(),
        styled_of(message, hue(Color::Red)),
        Seq::empty(),
    ]
}

/// The row for a repo that could not be read.
pub fn error_cells(repo: &Repo, message: &str) -> (res: Vec<Cell>)
    ensures
        cell_views(res@) == error_cells_of(repo@.alias, message@),
{
    let cells = vec![
        Cell::styled(repo.alias.as_str(), Theme::alias()),
        Cell::styled(NONE, Theme::muted()),
        Cell::empty(),
        Cell::styled("error", Theme::warn()),
        Cell::empty(),
        Cell::styled(message, Theme::warn()),
        Cell::empty(),
    ];
    assert(cell_views(cells@) =~= error_cells_of(repo@.alias, message@));
    cells
}

/// A reading with something to report in its working tree, of a repo that
/// is there.
pub open spec fn is_dirty(r: Row) -> bool {
    match r.outcome {
        Ok(s) => s.state != RepoState::Missing && !s.spec_is_clean(),
        Err(_) => false,
    }
}

/// A reading of a repo that is there.
pub open spec fn is_live(r: Row) -> bool {
    match r.outcome {
        Ok(s) => s.state != RepoState::Missing,
        Err(_) => false,
    }
}

pub open spec fn is_ahead(r: Row) -> bool {
    match r.outcome {
        Ok(s) => s.ahead > 0,
        Err(_) => false,
    }
}

pub open spec fn is_behind(r: Row) -> bool {
    match r.outcome {
        Ok(s) => s.behind > 0,
        Err(_) => false,
    }
}

pub open spec fn is_stashed(r: Row) -> bool {
    match r.outcome {
        Ok(s) => s.stashes > 0,
        Err(_) => false,
    }
}

pub open spec fn is_missing(r: Row) -> bool {
    match r.outcome {
        Ok(s) => s.state == RepoState::Missing,
        Err(_) => false,
    }
}

pub open spec fn is_failed(r: Row) -> bool {
    r.outcome is Err
}

/// The bullet-separated line under the table: the number of repos, then
/// only the facts that are not zero, each repo counted once per condition;
/// a quiet day reads `4 repos · all clean`.
pub open spec fn summary_of(rows: Seq<Row>) -> Seq<Seq<char>> {
    let dirty = rows.filter(|r: Row| is_dirty(r)).len();
    let ahead = rows.filter(|r: Row| is_ahead(r)).len();
    let behind = rows.filter(|r: Row| is_behind(r)).len();
    let stashed = rows.filter(|r: Row| is_stashed(r)).len();
    let missing = rows.filter(|r: Row| is_missing(r)).len();
    let failed = rows.filter(|r: Row| is_failed(r)).len();
    let live = rows.filter(|r: Row| is_live(r)).len();
    let p = seq![counted(rows.len(), "repo"@, "repos"@)];
    let p = if dirty > 0 {
        p.push(decimal(dirty) + " dirty"@)
    } else {
        p
    };
    let p = if ahead > 0 {
        p.push(decimal(ahead) + " ahead"@)
    } else {
        p
    };
    let p = if behind > 0 {
        p.push(decimal(behind) + " behind"@)
    } else {
        p
    };
    let p = if stashed > 0 {
        p.push(counted(stashed, "stash"@, "stashes"@))
    } else {
        p
    };
    let p = if missing > 0 {
        p.push(decimal(missing) + " missing"@)
    } else {
        p
    };
    let p = if failed > 0 {
        p.push(decimal(failed) + " unreadable"@)
    } else {
        p
    };
    if p.len() == 1 && live > 0 {
        p.push("all clean"@)
    } else {
        p
    }
}

proof fn lemma_push_contains(s: Seq<Seq<char>>, a: Seq<char>)
    ensures
        s.push(a).contains(a),
        forall|y: Seq<char>| s.contains(y) ==> #[trigger] s.push(a).contains(y),
{
    assert(s.push(a)[s.len() as int] == a);
    assert forall|y: Seq<char>| s.contains(y) implies #[trigger] s.push(a).contains(y) by {
        let k = choose|k: int| 0 <= k < s.len() && s[k] == y;
        assert(s.push(a)[k] == y);
    }
}

/// The footer under the dashboard counts each condition over the readable
/// repos, whatever else holds of them: it starts with the number of repos,
/// and names how many have work in their tree, commits ahead of their
/// upstream, commits waiting upstream (diverged branches among them), stashes
/// and missing directories, and how many could not be read, whenever that
/// number is not zero.
pub proof fn law_summary_counts_every_condition(rows: Seq<Row>)
    ensures
        ({
            let parts = summary_of(rows);
            let dirty = rows.filter(
                |r: Row| r.outcome matches Ok(s) && s.state != RepoState::Missing && !(s.staged == 0
                    && s.unstaged == 0 && s.untracked == 0 && s.conflicts == 0),
            ).len();
            let ahead = rows.filter(|r: Row| r.outcome matches Ok(s) && s.ahead > 0).len();
            let behind = rows.filter(|r: Row| r.outcome matches Ok(s) && s.behind > 0).len();
            let stashed = rows.filter(|r: Row| r.outcome matches Ok(s) && s.stashes > 0).len();
            let missing = rows.filter(|r: Row| r.outcome matches Ok(s) && s.state == RepoState::Missing).len();
            let failed = rows.filter(|r: Row| r.outcome is Err).len();
            &&& parts.len() >= 1
            &&& parts[0] == counted(rows.len(), "repo"@, "repos"@)
            &&& dirty > 0 ==> parts.contains(decimal(dirty) + " dirty"@)
            &&& ahead > 0 ==> parts.contains(decimal(ahead) + " ahead"@)
            &&& behind > 0 ==> parts.contains(decimal(behind) + " behind"@)
            &&& stashed > 0 ==> parts.contains(counted(stashed, "stash"@, "stashes"@))
            &&& missing > 0 ==> parts.contains(decimal(missing) + " missing"@)
            &&& failed > 0 ==> parts.contains(decimal(failed) + " unreadable"@)
            &&& parts.contains("all clean"@) <==> (dirty == 0 && ahead == 0 && behind == 0 && stashed == 0
                && missing == 0 && failed == 0 && rows.filter(
                |r: Row| r.outcome matches Ok(s) && s.state != RepoState::Missing,
            ).len() > 0)
        }),
{
    let fd = |r: Row| r.outcome matches Ok(s) && s.state != RepoState::Missing && !(s.staged == 0
        && s.unstaged == 0 && s.untracked == 0 && s.conflicts == 0);
    let fa = |r: Row| r.outcome matches Ok(s) && s.ahead > 0;
    let fb = |r: Row| r.outcome matches Ok(s) && s.behind > 0;
    let fs = |r: Row| r.outcome matches Ok(s) && s.stashes > 0;
    let fm = |r: Row| r.outcome matches Ok(s) && s.state == RepoState::Missing;
    let ff = |r: Row| r.outcome is Err;
    assert(fd =~= (|r: Row| is_dirty(r)));
    assert(fa =~= (|r: Row| is_ahead(r)));
    assert(fb =~= (|r: Row| is_behind(r)));
    assert(fs =~= (|r: Row| is_stashed(r)));
    assert(fm =~= (|r: Row| is_missing(r)));
    assert(ff =~= (|r: Row| is_failed(r)));
    let dirty = rows.filter(|r: Row| is_dirty(r)).len();
    let ahead = rows.filter(|r: Row| is_ahead(r)).len();
    let behind = rows.filter(|r: Row| is_behind(r)).len();
    let stashed = rows.filter(|r: Row| is_stashed(r)).len();
    let missing = rows.filter(|r: Row| is_missing(r)).len();
    let failed = rows.filter(|r: Row| is_failed(r)).len();
    let live = rows.filter(|r: Row| is_live(r)).len();
    let x0 = counted(rows.len(), "repo"@, "repos"@);
    let xd = decimal(dirty) + " dirty"@;
    let xa = decimal(ahead) + " ahead"@;
    let xb = decimal(behind) + " behind"@;
    let xs = counted(stashed, "stash"@, "stashes"@);
    let xm = decimal(missing) + " missing"@;
    let xf = decimal(failed) + " unreadable"@;
    let p0 = seq![x0];
    let p1 = if dirty > 0 { p0.push(xd) } else { p0 };
    let p2 = if ahead > 0 { p1.push(xa) } else { p1 };
    let p3 = if behind > 0 { p2.push(xb) } else { p2 };
    let p4 = if stashed > 0 { p3.push(xs) } else { p3 };
    let p5 = if missing > 0 { p4.push(xm) } else { p4 };
    let p6 = if failed > 0 { p5.push(xf) } else { p5 };
    let p7 = if p6.len() == 1 && live > 0 { p6.push("all clean"@) } else { p6 };
    assert(summary_of(rows) == p7);
    lemma_push_contains(p0, xd);
    lemma_push_contains(p1, xa);
    lemma_push_contains(p2, xb);
    lemma_push_contains(p3, xs);
    lemma_push_contains(p4, xm);
    lemma_push_contains(p5, xf);
    lemma_push_contains(p6, "all clean"@);
    let fl = |r: Row| r.outcome matches Ok(s) && s.state != RepoState::Missing;
    assert(fl =~= (|r: Row| is_live(r)));
    reveal_strlit("all clean");
    crate::render::table::lemma_decimal_digits(rows.len() as nat);
    crate::render::table::lemma_decimal_digits(dirty as nat);
    crate::render::table::lemma_decimal_digits(ahead as nat);
    crate::render::table::lemma_decimal_digits(behind as nat);
    crate::render::table::lemma_decimal_digits(stashed as nat);
    crate::render::table::lemma_decimal_digits(missing as nat);
    crate::render::table::lemma_decimal_digits(failed as nat);
    assert(x0[0] != 'a' && xd[0] != 'a' && xa[0] != 'a' && xb[0] != 'a' && xs[0] != 'a' && xm[0] != 'a'
        && xf[0] != 'a');
    assert(forall|y: Seq<char>| p6.contains(y) ==> y[0] != 'a') by {
        assert forall|y: Seq<char>| p6.contains(y) implies y[0] != 'a' by {
            let k = choose|k: int| 0 <= k < p6.len() && p6[k] == y;
            assert(p6[k] == x0 || p6[k] == xd || p6[k] == xa || p6[k] == xb || p6[k] == xs || p6[k] == xm
                || p6[k] == xf);
        }
    }
    if p7.contains("all clean"@) && !(p6.len() == 1 && live > 0) {
        assert(p6.contains("all clean"@));
        assert("all clean"@[0] == 'a');
    }
    assert(p7[0] == x0) by {
        assert(p1[0] == x0);
        assert(p2[0] == x0);
        assert(p3[0] == x0);
        assert(p4[0] == x0);
        assert(p5[0] == x0);
        assert(p6[0] == x0);
    }
}

/// A count followed by a word.
fn count_text(n: usize, word: &str) -> (res: String)
    ensures
        res@ == decimal(n as nat) + word@,
{
    let mut s = String::new();
    push_decimal(&mut s, n as u64);
    push_str(&mut s, word);
    s
}

/// One more of `pred` among the rows when the next row has it.
proof fn lemma_filter_step(rows: Seq<Row>, i: int, pred: spec_fn(Row) -> bool)
    requires
        0 <= i < rows.len(),
    ensures
        rows.take(i + 1).filter(pred).len() == rows.take(i).filter(pred).len() + if pred(rows[i]) {
            1int
        } else {
            0int
        },
{
    assert(rows.take(i + 1).drop_last() =~= rows.take(i));
    reveal_with_fuel(Seq::filter, 1);
}

/// The bullet-separated line under the table.
pub fn summarise(rows: &Vec<Row>) -> (res: Vec<String>)
    ensures
        views(res@) == summary_of(rows@),
{
    let n = rows.len();
    let mut dirty: usize = 0;
    let mut ahead: usize = 0;
    let mut behind: usize = 0;
    let mut stashed: usize = 0;
    let mut missing: usize = 0;
    let mut failed: usize = 0;
    let mut live: usize = 0;
    let mut i: usize = 0;
    while i < n
        invariant
            n == rows@.len(),
            i <= n,
            dirty == rows@.take(i as int).filter(|r: Row| is_dirty(r)).len(),
            ahead == rows@.take(i as int).filter(|r: Row| is_ahead(r)).len(),
            behind == rows@.take(i as int).filter(|r: Row| is_behind(r)).len(),
            stashed == rows@.take(i as int).filter(|r: Row| is_stashed(r)).len(),
            missing == rows@.take(i as int).filter(|r: Row| is_missing(r)).len(),
            failed == rows@.take(i as int).filter(|r: Row| is_failed(r)).len(),
            live == rows@.take(i as int).filter(|r: Row| is_live(r)).len(),
            dirty <= i && ahead <= i && behind <= i && stashed <= i && missing <= i && failed <= i
                && live <= i,
        decreases n - i,
    {
        proof {
            lemma_filter_step(rows@, i as int, |r: Row| is_dirty(r));
            lemma_filter_step(rows@, i as int, |r: Row| is_ahead(r));
            lemma_filter_step(rows@, i as int, |r: Row| is_behind(r));
            lemma_filter_step(rows@, i as int, |r: Row| is_stashed(r));
            lemma_filter_step(rows@, i as int, |r: Row| is_missing(r));
            lemma_filter_step(rows@, i as int, |r: Row| is_failed(r));
            lemma_filter_step(rows@, i as int, |r: Row| is_live(r));
        }
        match &rows[i].outcome {
            Ok(s) => {
                let here = !matches!(s.state, RepoState::Missing);
                if here {
                    live += 1;
                    if !s.is_clean() {
                        dirty += 1;
                    }
                } else {
                    missing += 1;
                }
                if s.ahead > 0 {
                    ahead += 1;
                }
                if s.behind > 0 {
                    behind += 1;
                }
                if s.stashes > 0 {
                    stashed += 1;
                }
            },
            Err(_) => {
                failed += 1;
            },
        }
        i += 1;
    }
    assert(rows@.take(n as int) =~= rows@);
    let mut parts: Vec<String> = Vec::new();
    parts.push(plural(n, "repo", "repos"));
    if dirty > 0 {
        parts.push(count_text(dirty, " dirty"));
    }
    if ahead > 0 {
        parts.push(count_text(ahead, " ahead"));
    }
    if behind > 0 {
        parts.push(count_text(behind, " behind"));
    }
    if stashed > 0 {
        parts.push(plural(stashed, "stash", "stashes"));
    }
    if missing > 0 {
        parts.push(count_text(missing, " missing"));
    }
    if failed > 0 {
        parts.push(count_text(failed, " unreadable"));
    }
    if parts.len() == 1 && live > 0 {
        parts.push(owned("all clean"));
    }
    assert(views(parts@) =~= summary_of(rows@));
    parts
}

/// The dashboard's columns.
pub open spec fn dashboard_columns() -> Seq<ColumnV> {
    seq![
        ColumnV { header: "alias"@, align: Align::Left, flex: false },
        ColumnV { header: "branch"@, align: Align::Left, flex: false },
        ColumnV { header: "sync"@, align: Align::Left, flex: false },
        ColumnV { header: "state"@, align: Align::Left, flex: false },
        ColumnV { header: "commit"@, align: Align::Left, flex: false },
        ColumnV { header: "subject"@, align: Align::Left, flex: true },
        ColumnV { header: "age"@, align: Align::Right, flex: false },
    ]
}

/// The cells a row becomes, the missing path shown with `home` collapsed.
pub open spec fn row_cells_of(r: Row, home: Option<Seq<char>>) -> Seq<Seq<SpanV>> {
    match r.outcome {
        Ok(s) => snapshot_cells_of(r.repo@.alias, s@, abbreviated(r.repo@.entry.path, home)),
        Err(m) => error_cells_of(r.repo@.alias, m@),
    }
}

/// The dashboard as a table: one row per repo, in order; the subject
/// column shrinks to fit and the age sits on the right.
pub fn build_table(rows: &Vec<Row>, color: bool, width: Option<usize>, home: Option<&str>) -> (res: Table)
    ensures
        res@.columns == dashboard_columns(),
        res@.rows == rows@.map_values(|r: Row| row_cells_of(r, opt_str(home))),
        res@.color == color,
        res@.width == width,
        res@.rule,
        res@.header,
        res@.indent,
{
    let table = Table::new(["alias", "branch", "sync", "state", "commit", "subject", "age"]);
    let table = table.color(color).terminal_width(width).flex(5).align(6, Align::Right);
    let mut table = table;
    assert(table@.columns =~= dashboard_columns());
    assert(table@.rows =~= Seq::<Seq<Seq<SpanV>>>::empty());
    let n = rows.len();
    let mut i: usize = 0;
    while i < n
        invariant
            n == rows@.len(),
            i <= n,
            table@.columns == dashboard_columns(),
            table@.rows == rows@.take(i as int).map_values(|r: Row| row_cells_of(r, opt_str(home))),
            table@.color == color,
            table@.width == width,
            table@.rule,
            table@.header,
            table@.indent,
        decreases n - i,
    {
        let row = &rows[i];
        let cells = match &row.outcome {
            Ok(snap) => snapshot_cells_in(&row.repo, snap, home),
            Err(msg) => error_cells(&row.repo, msg.as_str()),
        };
        let ghost before = table@.rows;
        let ghost cv = cell_views(cells@);
        assert(cv.len() == 7);
        assert(cells@.len() == cv.len());
        table.push_row(cells);
        assert(rows@.take(i + 1).map_values(|r: Row| row_cells_of(r, opt_str(home))) =~= rows@.take(
            i as int,
        ).map_values(|r: Row| row_cells_of(r, opt_str(home))).push(cv));
        i += 1;
    }
    assert(rows@.take(n as int) =~= rows@);
    table
}

/// The dashboard's table over `rows`, the paths shown against `home`.
pub open spec fn dashboard_table_of(rows: Seq<Row>, color: bool, width: Option<usize>, home: Option<Seq<char>>) -> TableV {
    TableV {
        columns: dashboard_columns(),
        rows: rows.map_values(|r: Row| row_cells_of(r, home)),
        color,
        width,
        rule: true,
        header: true,
        indent: true,
    }
}

/// The dashboard printed: the table, a blank line, and the footer's parts.
pub open spec fn dashboard_of(rows: Seq<Row>, parts: Seq<Seq<char>>, color: bool, width: Option<usize>, home: Option<Seq<char>>) -> Seq<char> {
    crate::render::table::painted_lines(crate::render::table::table_lines(dashboard_table_of(rows, color, width, home)), color)
        + "\n"@ + footer_of(parts, color)
}

/// The dashboard under a footer of `parts`, the paths shown against `home`.
fn dashboard_with(rows: &Vec<Row>, parts: &Vec<String>, color: bool, width: Option<usize>, home: Option<&str>) -> (res: String)
    ensures
        res@ == dashboard_of(rows@, views(parts@), color, width, opt_str(home)),
{
    let table = build_table(rows, color, width, home);
    assert(table@ == dashboard_table_of(rows@, color, width, opt_str(home)));
    let mut out = table.render();
    push_str(&mut out, "\n");
    let f = footer(parts, color);
    push_str(&mut out, f.as_str());
    out
}

/// The dashboard, the paths shown against `home`.
pub fn dashboard_in(rows: &Vec<Row>, color: bool, width: Option<usize>, home: Option<&str>) -> (res: String)
    ensures
        res@ == dashboard_of(rows@, summary_of(rows@), color, width, opt_str(home)),
{
    dashboard_with(rows, &summarise(rows), color, width, home)
}

/// The dashboard as printed, the paths shown with the user's home directory
/// collapsed to `~` where there is one.
pub fn dashboard(rows: &Vec<Row>, color: bool, width: Option<usize>) -> (res: String)
    ensures
        exists|home: Option<Seq<char>>| res@ == dashboard_of(rows@, summary_of(rows@), color, width, home),
{
    let h = home();
    match &h {
        Some(s) => dashboard_in(rows, color, width, Some(s.as_str())),
        None => dashboard_in(rows, color, width, None),
    }
}

/// The dashboard of a cached reading, whose footer also says how old it is,
/// the paths shown against `home`.
pub fn cached_dashboard(rows: &Vec<Row>, age: &str, color: bool, width: Option<usize>, home: Option<&str>) -> (res: String)
    ensures
        res@ == dashboard_of(rows@, summary_of(rows@).push(age@ + " ago"@), color, width, opt_str(home)),
{
    let mut parts = summarise(rows);
    let mut ago = owned(age);
    push_str(&mut ago, " ago");
    let ghost before = views(parts@);
    parts.push(ago);
    assert(views(parts@) =~= before.push(age@ + " ago"@));
    dashboard_with(rows, &parts, color, width, home)
}

/// The exit code of a dashboard: a repo that could not be read at all is a
/// failure; a repo whose directory is gone is information.
pub fn exit_code(rows: &Vec<Row>) -> (res: i32)
    ensures
        res == (if exists|i: int| 0 <= i < rows@.len() && (#[trigger] rows@[i]).outcome is Err {
            1i32
        } else {
            0i32
        }),
{
    let n = rows.len();
    let mut i: usize = 0;
    while i < n
        invariant
            n == rows@.len(),
            i <= n,
            forall|k: int| 0 <= k < i ==> (#[trigger] rows@[k]).outcome is Ok,
        decreases n - i,
    {
        if rows[i].outcome.is_err() {
            return 1;
        }
        i += 1;
    }
    0
}

} // verus!
