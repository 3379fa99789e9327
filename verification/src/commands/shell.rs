//! `grit shell`: the dashboard at the prompt, and the plumbing behind it.
//!
//! A line editor cannot be handed ANSI: the table is drawn as part of the line
//! being edited, where escape codes print as literal characters. What zsh
//! colours with instead is `region_highlight`, a list of character ranges over
//! its own buffer. So `preview` emits the two halves separately, plain text and
//! the ranges to paint, and the shell puts them back together. The ranges are
//! the styled spans the table was already laying out, counted rather than
//! painted.
use vstd::prelude::*;

use crate::cache::{CachedRow, StatusCache};
use crate::commands::status::{build_table, dashboard_columns, row_cells_of, summarise, summary_of, Row};
use crate::registry::location::{abbreviated, opt_str};
use crate::registry::model::{repo_views, Repo, RepoV};
use crate::render::table::{
    flattened, highlight_fold, painted_lines, spans_text, table_lines, Highlight, TableV,
};
use crate::render::theme::{dim, zsh_spelling, zsh_style, Theme, BULLET};
use crate::render::{footer_sep, paint, painted};
use crate::shell::{Change, Shell};
use crate::text::{chars_of, decimal, join, joined, owned, push_decimal, push_str, views};
use crate::vcs::{copy_opt, opt_text};

verus! {

/// What to say when `$SHELL` names no shell grit knows.
pub open spec fn unknown_shell_text() -> Seq<char> {
    "could not tell which shell you use from $SHELL\nsay which: grit shell enable zsh"@
}

/// Which shell to set up: the one named, else the one `$SHELL` names. An
/// unrecognised `$SHELL` is worth a sentence rather than a guess: writing one
/// shell's integration into another's startup file would leave an error on
/// every prompt.
pub fn choose_shell(given: Option<Shell>, from_env: Option<Shell>) -> (res: Result<Shell, String>)
    ensures
        match res {
            Ok(s) => Some(s) == (if given is Some {
                given
            } else {
                from_env
            }),
            Err(m) => given is None && from_env is None && m@ == unknown_shell_text(),
        },
{
    match given {
        Some(s) => Ok(s),
        None => match from_env {
            Some(s) => Ok(s),
            None => Err(owned("could not tell which shell you use from $SHELL\nsay which: grit shell enable zsh")),
        },
    }
}

/// What `grit shell enable` reports, given what it did to the file shown as
/// `shown`.
pub open spec fn enable_text(change: Change, shell: Shell, shown: Seq<char>, color: bool) -> Seq<char> {
    match change {
        Change::Added => "added the "@ + shell.spec_as_str() + " integration to "@ + painted(shown, dim(), color)
            + "\n"@ + "  "@ + painted("·"@, dim(), color)
            + " type `grit`, pause, and the dashboard appears under the line\n"@ + "  "@ + painted(
            "·"@,
            dim(),
            color,
        ) + " start a new shell to pick it up, or run: exec "@ + shell.spec_as_str() + "\n"@,
        Change::AlreadyEnabled => "the "@ + shell.spec_as_str() + " integration is already in "@ + shown
            + "\n"@,
        _ => shown + " already loads the integration on a line grit did not write\n"@
            + "  nothing to do — it is left alone rather than duplicated\n"@,
    }
}

/// What `grit shell enable` reports. Enabling only ever adds, finds it
/// already there, or finds a hand-written line.
pub fn enable_report(change: Change, shell: Shell, shown: &str, color: bool) -> (res: String)
    requires
        change is Added || change is AlreadyEnabled || change is Managed,
    ensures
        res@ == enable_text(change, shell, shown@, color),
{
    let name = shell.as_str();
    let mut s = String::new();
    match change {
        Change::Added => {
            push_str(&mut s, "added the ");
            push_str(&mut s, name);
            push_str(&mut s, " integration to ");
            let p = paint(shown, Theme::path(), color);
            push_str(&mut s, p.as_str());
            push_str(&mut s, "\n");
            push_str(&mut s, "  ");
            let dot = paint("·", Theme::muted(), color);
            push_str(&mut s, dot.as_str());
            push_str(&mut s, " type `grit`, pause, and the dashboard appears under the line\n");
            push_str(&mut s, "  ");
            push_str(&mut s, dot.as_str());
            push_str(&mut s, " start a new shell to pick it up, or run: exec ");
            push_str(&mut s, name);
            push_str(&mut s, "\n");
        },
        Change::AlreadyEnabled => {
            push_str(&mut s, "the ");
            push_str(&mut s, name);
            push_str(&mut s, " integration is already in ");
            push_str(&mut s, shown);
            push_str(&mut s, "\n");
        },
        _ => {
            push_str(&mut s, shown);
            push_str(&mut s, " already loads the integration on a line grit did not write\n");
            push_str(&mut s, "  nothing to do — it is left alone rather than duplicated\n");
        },
    }
    assert(s@ =~= enable_text(change, shell, shown@, color));
    s
}

/// What `grit shell disable` reports, given what it did to the file shown
/// as `shown`.
pub open spec fn disable_text(change: Change, shell: Shell, shown: Seq<char>, color: bool) -> Seq<char> {
    match change {
        Change::Removed => "removed the "@ + shell.spec_as_str() + " integration from "@ + painted(
            shown,
            dim(),
            color,
        ) + "\n"@ + "  "@ + painted("·"@, dim(), color) + " open shells keep it until they are restarted\n"@,
        Change::NotEnabled => "the "@ + shell.spec_as_str() + " integration is not in "@ + shown + "\n"@,
        _ => shown + " loads the integration on a line grit did not write\n"@
            + "  remove that line yourself — grit will not edit what it did not add\n"@,
    }
}

/// What `grit shell disable` reports. Disabling only ever removes, finds
/// nothing, or finds a hand-written line.
pub fn disable_report(change: Change, shell: Shell, shown: &str, color: bool) -> (res: String)
    requires
        change is Removed || change is NotEnabled || change is Managed,
    ensures
        res@ == disable_text(change, shell, shown@, color),
{
    let name = shell.as_str();
    let mut s = String::new();
    match change {
        Change::Removed => {
            push_str(&mut s, "removed the ");
            push_str(&mut s, name);
            push_str(&mut s, " integration from ");
            let p = paint(shown, Theme::path(), color);
            push_str(&mut s, p.as_str());
            push_str(&mut s, "\n");
            push_str(&mut s, "  ");
            let dot = paint("·", Theme::muted(), color);
            push_str(&mut s, dot.as_str());
            push_str(&mut s, " open shells keep it until they are restarted\n");
        },
        Change::NotEnabled => {
            push_str(&mut s, "the ");
            push_str(&mut s, name);
            push_str(&mut s, " integration is not in ");
            push_str(&mut s, shown);
            push_str(&mut s, "\n");
        },
        _ => {
            push_str(&mut s, shown);
            push_str(&mut s, " loads the integration on a line grit did not write\n");
            push_str(&mut s, "  remove that line yourself — grit will not edit what it did not add\n");
        },
    }
    assert(s@ =~= disable_text(change, shell, shown@, color));
    s
}

/// A cached row read back as a dashboard row's outcome: its snapshot, or
/// the message that stood in for one.
pub open spec fn cached_outcome_matches(outcome: Result<crate::vcs::Snapshot, String>, row: CachedRow) -> bool {
    match outcome {
        Ok(s) => row.snapshot is Some && s@ == row.snapshot->0@,
        Err(m) => row.snapshot is None && m@ == match row.error {
            Some(e) => e@,
            None => Seq::empty(),
        },
    }
}

/// The dashboard rows a cache holds for `repos`, pairwise: the cache must
/// have been checked to describe them.
pub fn select_cached(cache: &StatusCache, repos: &Vec<Repo>) -> (res: Vec<Row>)
    requires
        cache.rows@.len() == repos@.len(),
    ensures
        res@.len() == repos@.len(),
        forall|i: int|
            0 <= i < repos@.len() ==> (#[trigger] res@[i]).repo@ == repos@[i]@ && cached_outcome_matches(
                res@[i].outcome,
                cache.rows@[i],
            ),
{
    let mut out: Vec<Row> = Vec::new();
    let n = repos.len();
    let mut i: usize = 0;
    while i < n
        invariant
            n == repos@.len(),
            n == cache.rows@.len(),
            i <= n,
            out@.len() == i,
            forall|k: int|
                0 <= k < i ==> (#[trigger] out@[k]).repo@ == repos@[k]@ && cached_outcome_matches(
                    out@[k].outcome,
                    cache.rows@[k],
                ),
        decreases n - i,
    {
        let row = &cache.rows[i];
        let outcome = match &row.snapshot {
            Some(s) => Ok(s.copy()),
            None => match &row.error {
                Some(e) => Err(e.clone()),
                None => Err(String::new()),
            },
        };
        out.push(Row { repo: repos[i].copy(), outcome });
        i += 1;
    }
    out
}

/// The cache's record of one dashboard row.
pub open spec fn caches(c: CachedRow, r: Row) -> bool {
    &&& c.alias@ == r.repo@.alias
    &&& c.path@ == r.repo@.entry.path
    &&& c.kind == r.repo@.entry.kind
    &&& views(c.tags@) == r.repo@.entry.tags
    &&& match r.outcome {
        Ok(s) => c.snapshot is Some && c.snapshot->0@ == s@ && c.error is None,
        Err(m) => c.snapshot is None && c.error is Some && c.error->0@ == m@,
    }
}

/// The rows to keep in the cache, one per dashboard row, in order.
pub fn cache_rows(rows: &Vec<Row>) -> (res: Vec<CachedRow>)
    ensures
        res@.len() == rows@.len(),
        forall|i: int| 0 <= i < rows@.len() ==> caches(#[trigger] res@[i], rows@[i]),
{
    let mut out: Vec<CachedRow> = Vec::new();
    let n = rows.len();
    let mut i: usize = 0;
    while i < n
        invariant
            n == rows@.len(),
            i <= n,
            out@.len() == i,
            forall|k: int| 0 <= k < i ==> caches(#[trigger] out@[k], rows@[k]),
        decreases n - i,
    {
        let r = &rows[i];
        let (snapshot, error) = match &r.outcome {
            Ok(s) => (Some(s.copy()), None),
            Err(m) => (None, Some(m.clone())),
        };
        out.push(
            CachedRow {
                alias: r.repo.alias.clone(),
                path: r.repo.entry.path.clone(),
                kind: r.repo.entry.kind,
                tags: crate::registry::model::copy_strings(&r.repo.entry.tags),
                snapshot,
                error,
            },
        );
        i += 1;
    }
    out
}

/// A dashboard row kept in the cache and read back has the outcome it had:
/// the same reading, or the same message in its place.
pub proof fn law_cached_rows_read_back(kept: CachedRow, row: Row, back: Result<crate::vcs::Snapshot, String>)
    requires
        caches(kept, row),
        cached_outcome_matches(back, kept),
    ensures
        match (back, row.outcome) {
            (Ok(a), Ok(b)) => a@ == b@,
            (Err(a), Err(b)) => a@ == b@,
            _ => false,
        },
{
}

/// A cached reading is too old to show when a limit is given and its age is
/// past it.
pub fn too_old(max_age: Option<i64>, age: i64) -> (res: bool)
    ensures
        res == (max_age is Some && age > max_age->0),
{
    match max_age {
        Some(m) => age > m,
        None => false,
    }
}

/// A refresh is skipped when a positive freshness limit is given and the
/// cache there is younger than it. A limit of 0 always takes a reading.
pub fn still_fresh(max_age: i64, cache_age: Option<i64>) -> (res: bool)
    ensures
        res == (max_age > 0 && cache_age is Some && cache_age->0 < max_age),
{
    if max_age <= 0 {
        return false;
    }
    match cache_age {
        Some(a) => a < max_age,
        None => false,
    }
}

/// The dashboard's table over `rows`, as the line editor is given it: plain,
/// with its header, rule and margin.
pub open spec fn preview_table_of(rows: Seq<Row>, width: Option<usize>, home: Option<Seq<char>>) -> TableV {
    TableV {
        columns: dashboard_columns(),
        rows: rows.map_values(|r: Row| row_cells_of(r, home)),
        color: false,
        width,
        rule: true,
        header: true,
        indent: true,
    }
}

/// The parts of the preview's footer: the dashboard's summary of every
/// repo, how many did not fit, and how old the reading is.
pub open spec fn preview_parts(rows: Seq<Row>, shown: nat, age: Seq<char>) -> Seq<Seq<char>> {
    let p = summary_of(rows);
    let p = if shown < rows.len() {
        p.push(decimal((rows.len() - shown) as nat) + " more"@)
    } else {
        p
    };
    p.push(age + " ago"@)
}

/// The ranges zsh can paint, each as `start end spec`; a style zsh has no
/// spelling for is left unpainted.
pub open spec fn zsh_specs(hs: Seq<Highlight>) -> Seq<Seq<char>>
    decreases hs.len(),
{
    if hs.len() == 0 {
        Seq::empty()
    } else {
        let rest = zsh_specs(hs.drop_last());
        let h = hs.last();
        match zsh_spelling(h.style) {
            Some(sp) => rest.push(decimal(h.start as nat) + " "@ + decimal(h.end as nat) + " "@ + sp),
            None => rest,
        }
    }
}

/// Lines, each followed by a line break.
pub open spec fn line_block(ls: Seq<Seq<char>>) -> Seq<char>
    decreases ls.len(),
{
    if ls.len() == 0 {
        Seq::empty()
    } else {
        line_block(ls.drop_last()) + ls.last() + seq!['\n']
    }
}

/// How many of `len` rows fit under `max_rows`.
pub open spec fn shown_count(len: nat, max_rows: Option<usize>) -> nat {
    match max_rows {
        Some(m) if len > m => m as nat,
        _ => len,
    }
}

/// The preview the line editor draws under what is being typed: the number
/// of highlight lines, the highlights as `start end spec` (offsets in
/// characters from the start of the table), then the table as plain text
/// with a blank line and the footer under it, the footer highlighted muted
/// from its indent on. Nothing at all when no rows may be shown.
pub open spec fn preview_of(rows: Seq<Row>, max_rows: Option<usize>, age: Seq<char>, width: Option<usize>, home: Option<Seq<char>>) -> Seq<char> {
    if max_rows == Some(0usize) || rows.len() == 0 {
        Seq::empty()
    } else {
        let n = shown_count(rows.len(), max_rows);
        let spans = flattened(table_lines(preview_table_of(rows.take(n as int), width, home)));
        let body = spans_text(spans) + seq!['\n'];
        let line = "  "@ + joined(preview_parts(rows, n, age), footer_sep());
        let hs = highlight_fold(spans).0.push(
            Highlight { start: body.len() as usize, end: (body.len() + line.len()) as usize, style: dim() },
        );
        let specs = zsh_specs(hs);
        decimal(specs.len()) + seq!['\n'] + line_block(specs) + body + line + seq!['\n']
    }
}

/// The first `n` rows, copied.
fn first_rows(rows: &Vec<Row>, n: usize) -> (res: Vec<Row>)
    requires
        n <= rows@.len(),
    ensures
        res@.len() == n,
        forall|i: int|
            0 <= i < n ==> (#[trigger] res@[i]).repo@ == rows@[i].repo@ && match (res@[i].outcome, rows@[i].outcome) {
                (Ok(a), Ok(b)) => a@ == b@,
                (Err(a), Err(b)) => a@ == b@,
                _ => false,
            },
{
    let mut out: Vec<Row> = Vec::new();
    let mut i: usize = 0;
    while i < n
        invariant
            n <= rows@.len(),
            i <= n,
            out@.len() == i,
            forall|k: int|
                0 <= k < i ==> (#[trigger] out@[k]).repo@ == rows@[k].repo@ && match (out@[k].outcome, rows@[k].outcome) {
                    (Ok(a), Ok(b)) => a@ == b@,
                    (Err(a), Err(b)) => a@ == b@,
                    _ => false,
                },
        decreases n - i,
    {
        let r = &rows[i];
        let outcome = match &r.outcome {
            Ok(s) => Ok(s.copy()),
            Err(m) => Err(m.clone()),
        };
        out.push(Row { repo: r.repo.copy(), outcome });
        i += 1;
    }
    out
}

/// The highlights zsh can paint, as lines of `start end spec`.
fn spec_lines(hs: &Vec<Highlight>) -> (res: Vec<String>)
    ensures
        views(res@) == zsh_specs(hs@),
{
    let mut out: Vec<String> = Vec::new();
    let n = hs.len();
    let mut i: usize = 0;
    while i < n
        invariant
            n == hs@.len(),
            i <= n,
            views(out@) == zsh_specs(hs@.take(i as int)),
        decreases n - i,
    {
        let h = &hs[i];
        assert(hs@.take(i + 1).drop_last() =~= hs@.take(i as int));
        match zsh_style(h.style) {
            Some(sp) => {
                let mut line = String::new();
                push_decimal(&mut line, h.start as u64);
                push_str(&mut line, " ");
                push_decimal(&mut line, h.end as u64);
                push_str(&mut line, " ");
                push_str(&mut line, sp);
                let ghost before = views(out@);
                out.push(line);
                assert(views(out@) =~= before.push(line@));
            },
            None => {},
        }
        i += 1;
    }
    assert(hs@.take(n as int) =~= hs@);
    out
}

/// The cached dashboard as the line editor needs it, the paths shown
/// against `home`.
pub fn preview(rows: &Vec<Row>, max_rows: Option<usize>, age: &str, width: Option<usize>, home: Option<&str>) -> (res: String)
    ensures
        res@ == preview_of(rows@, max_rows, age@, width, opt_str(home)),
{
    if rows.len() == 0 {
        return String::new();
    }
    match max_rows {
        Some(0) => {
            return String::new();
        },
        _ => {},
    }
    let total = rows.len();
    let n = match max_rows {
        Some(m) if total > m => m,
        _ => total,
    };
    let shown = first_rows(rows, n);
    let ghost sv = shown@.map_values(|r: Row| row_cells_of(r, opt_str(home)));
    assert(sv =~= rows@.take(n as int).map_values(|r: Row| row_cells_of(r, opt_str(home))));
    let mut parts = summarise(rows);
    if n < total {
        let mut more = String::new();
        push_decimal(&mut more, (total - n) as u64);
        push_str(&mut more, " more");
        let ghost before = views(parts@);
        parts.push(more);
        assert(views(parts@) =~= before.push(more@));
    }
    let mut ago = owned(age);
    push_str(&mut ago, " ago");
    let ghost before = views(parts@);
    parts.push(ago);
    assert(views(parts@) =~= before.push(ago@));
    assert(views(parts@) =~= preview_parts(rows@, n as nat, age@));
    let table = build_table(&shown, false, width, home);
    assert(table@ == preview_table_of(rows@.take(n as int), width, opt_str(home)));
    let (mut text, mut ranges) = table.render_highlighted();
    text.push('\n');
    let start = chars_of(text.as_str()).len();
    let mut sep = owned(" ");
    push_str(&mut sep, BULLET);
    push_str(&mut sep, " ");
    let joined_parts = join(&parts, sep.as_str());
    let mut line = owned("  ");
    push_str(&mut line, joined_parts.as_str());
    push_str(&mut text, line.as_str());
    let end = chars_of(text.as_str()).len();
    ranges.push(Highlight { start, end, style: Theme::muted() });
    text.push('\n');
    let specs = spec_lines(&ranges);
    let mut out = String::new();
    push_decimal(&mut out, specs.len() as u64);
    out.push('\n');
    let ghost head = out@;
    let m = specs.len();
    let mut i: usize = 0;
    while i < m
        invariant
            m == specs@.len(),
            i <= m,
            out@ == head + line_block(views(specs@).take(i as int)),
        decreases m - i,
    {
        push_str(&mut out, specs[i].as_str());
        out.push('\n');
        assert(views(specs@).take(i + 1).drop_last() =~= views(specs@).take(i as int));
        assert(out@ =~= head + line_block(views(specs@).take(i + 1)));
        i += 1;
    }
    assert(views(specs@).take(m as int) =~= views(specs@));
    push_str(&mut out, text.as_str());
    assert(out@ =~= preview_of(rows@, max_rows, age@, width, opt_str(home)));
    out
}

/// The dashboard's rows alone, one repo per line, for a picker: no header,
/// no rule and no margin, so every line is one to select and the alias is
/// its first field. Painted, since a picker draws on the terminal itself.
pub open spec fn picker_rows_of(rows: Seq<Row>, color: bool, width: Option<usize>, home: Option<Seq<char>>) -> Seq<char> {
    painted_lines(
        table_lines(
            TableV {
                columns: dashboard_columns(),
                rows: rows.map_values(|r: Row| row_cells_of(r, home)),
                color,
                width,
                rule: false,
                header: false,
                indent: false,
            },
        ),
        color,
    )
}

/// The dashboard's rows alone, for a picker, the paths shown against
/// `home`.
pub fn picker_rows(rows: &Vec<Row>, color: bool, width: Option<usize>, home: Option<&str>) -> (res: String)
    ensures
        res@ == picker_rows_of(rows@, color, width, opt_str(home)),
{
    let table = build_table(rows, color, width, home).no_header().no_rule().no_indent();
    table.render()
}

} // verus!
