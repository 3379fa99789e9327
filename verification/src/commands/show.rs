//! `grit show`: what is registered, where, and under which tags.
use vstd::prelude::*;

use crate::commands::status::opt_string;
use crate::registry::location::home;
use crate::registry::location::{abbreviate, abbreviated, opt_str};
use crate::registry::model::{repo_views, Repo, RepoV};
use crate::registry::{lists_tags, Registry};
use crate::render::table::{
    cell_views, painted_lines, styled_of, table_lines, Align, Cell, ColumnV, SpanV, Table, TableV,
};
use crate::render::theme::{dim, hue, strong, Color, Style, Theme, NONE};
use crate::render::{counted, footer, footer_of, paint, painted, plural};
use crate::text::{join, joined, owned, push_str, views};

verus! {

/// The tags cell: the tags joined, or `·` for none.
pub open spec fn tags_cell_of(r: RepoV) -> Seq<SpanV> {
    if r.entry.tags.len() == 0 {
        styled_of(NONE@, dim())
    } else {
        styled_of(joined(r.entry.tags, ", "@), hue(Color::Magenta))
    }
}

/// The tags cell of a repo.
pub fn tags_cell(repo: &Repo) -> (res: Cell)
    ensures
        res@ == tags_cell_of(repo@),
{
    if repo.entry.tags.len() == 0 {
        return Cell::styled(NONE, Theme::muted());
    }
    let tags = join(&repo.entry.tags, ", ");
    Cell::styled(tags.as_str(), Theme::tag())
}

/// The listing's columns: the path flexes.
pub open spec fn show_columns() -> Seq<ColumnV> {
    seq![
        ColumnV { header: "alias"@, align: Align::Left, flex: false },
        ColumnV { header: "kind"@, align: Align::Left, flex: false },
        ColumnV { header: "tags"@, align: Align::Left, flex: false },
        ColumnV { header: "path"@, align: Align::Left, flex: true },
    ]
}

/// One repo's row in the listing.
pub open spec fn show_row_of(r: RepoV, home: Option<Seq<char>>) -> Seq<Seq<SpanV>> {
    seq![
        styled_of(r.alias, strong()),
        styled_of(r.entry.kind.spec_as_str(), hue(Color::Blue)),
        tags_cell_of(r),
        styled_of(abbreviated(r.entry.path, home), dim()),
    ]
}

/// The listing as a table.
pub open spec fn show_table_of(repos: Seq<RepoV>, color: bool, width: Option<usize>, home: Option<Seq<char>>) -> TableV {
    TableV {
        columns: show_columns(),
        rows: repos.map_values(|r: RepoV| show_row_of(r, home)),
        color,
        width,
        rule: true,
        header: true,
        indent: true,
    }
}

/// The listing as a table, the paths shown against `home`.
pub fn show_table(repos: &Vec<Repo>, color: bool, width: Option<usize>, home: Option<&str>) -> (res: Table)
    ensures
        res@ == show_table_of(repo_views(repos@), color, width, opt_str(home)),
{
    let mut table = Table::new(["alias", "kind", "tags", "path"]).color(color).terminal_width(width).flex(3);
    let ghost rv = repo_views(repos@);
    assert(table@.columns =~= show_columns());
    assert(table@.rows =~= rv.map_values(|r: RepoV| show_row_of(r, opt_str(home))).take(0));
    let n = repos.len();
    let mut i: usize = 0;
    while i < n
        invariant
            n == repos@.len(),
            rv == repo_views(repos@),
            i <= n,
            table@ == (TableV {
                rows: rv.map_values(|r: RepoV| show_row_of(r, opt_str(home))).take(i as int),
                ..show_table_of(rv, color, width, opt_str(home))
            }),
        decreases n - i,
    {
        let repo = &repos[i];
        let shown = abbreviate(repo.entry.path.as_str(), home);
        let cells = vec![
            Cell::styled(repo.alias.as_str(), Theme::alias()),
            Cell::styled(repo.kind().as_str(), Theme::kind()),
            tags_cell(repo),
            Cell::styled(shown.as_str(), Theme::path()),
        ];
        let ghost cv = cell_views(cells@);
        assert(cv =~= show_row_of(rv[i as int], opt_str(home)));
        table.push_row(cells);
        assert(rv.map_values(|r: RepoV| show_row_of(r, opt_str(home))).take(i + 1) =~= rv.map_values(
            |r: RepoV| show_row_of(r, opt_str(home)),
        ).take(i as int).push(cv));
        i += 1;
    }
    assert(rv.map_values(|r: RepoV| show_row_of(r, opt_str(home))).take(n as int) =~= rv.map_values(
        |r: RepoV| show_row_of(r, opt_str(home)),
    ));
    table
}

/// The footer's parts: how many repos are listed, every tag in use, and
/// where the config file is.
pub open spec fn show_parts(count: nat, tags: Seq<Seq<char>>, config: Seq<char>, home: Option<Seq<char>>) -> Seq<Seq<char>> {
    let p = seq![counted(count, "repo"@, "repos"@)];
    let p = if tags.len() > 0 {
        p.push("tags: "@ + joined(tags, ", "@))
    } else {
        p
    };
    p.push(abbreviated(config, home))
}

/// The first-run message: that nothing is registered, the exact command to
/// type next, and where the config file is.
pub open spec fn empty_hint_of(config: Seq<char>, home: Option<Seq<char>>, color: bool) -> Seq<char> {
    "  "@ + painted("No repositories registered yet."@, dim(), color) + "\n\n"@ + "  "@ + painted(
        "grit -r <alias> <path>"@,
        Style { fg: Some(Color::Cyan), bold: true, dimmed: false },
        color,
    ) + "  "@ + painted("register one"@, dim(), color) + "\n\n"@ + "  "@ + painted(
        "config: "@ + abbreviated(config, home),
        dim(),
        color,
    ) + "\n"@
}

/// The first-run message, the config path shown against `home`.
pub fn empty_hint(config: &str, home: Option<&str>, color: bool) -> (res: String)
    ensures
        res@ == empty_hint_of(config@, opt_str(home), color),
{
    let mut s = owned("  ");
    let a = paint("No repositories registered yet.", Theme::muted(), color);
    push_str(&mut s, a.as_str());
    push_str(&mut s, "\n\n");
    push_str(&mut s, "  ");
    let b = paint("grit -r <alias> <path>", Theme::banner(), color);
    push_str(&mut s, b.as_str());
    push_str(&mut s, "  ");
    let c = paint("register one", Theme::muted(), color);
    push_str(&mut s, c.as_str());
    push_str(&mut s, "\n\n");
    push_str(&mut s, "  ");
    let mut label = owned("config: ");
    let shown = abbreviate(config, home);
    push_str(&mut label, shown.as_str());
    let d = paint(label.as_str(), Theme::muted(), color);
    push_str(&mut s, d.as_str());
    push_str(&mut s, "\n");
    assert(s@ =~= empty_hint_of(config@, opt_str(home), color));
    s
}

/// What `grit show` prints for `repos` of `registry`: the first-run message
/// when there are none, else the table, a blank line and the footer.
pub open spec fn show_of(
    repos: Seq<RepoV>,
    tags: Seq<Seq<char>>,
    config: Seq<char>,
    color: bool,
    width: Option<usize>,
    home: Option<Seq<char>>,
) -> Seq<char> {
    if repos.len() == 0 {
        empty_hint_of(config, home, color)
    } else {
        painted_lines(table_lines(show_table_of(repos, color, width, home)), color) + "\n"@ + footer_of(
            show_parts(repos.len(), tags, config, home),
            color,
        )
    }
}

/// What `grit show` prints for `repos`, picked from `registry`, the paths
/// shown against `home`.
pub fn show_in(registry: &Registry, repos: &Vec<Repo>, color: bool, width: Option<usize>, home: Option<&str>) -> (res: String)
    ensures
        exists|tags: Seq<Seq<char>>|
            lists_tags(registry.listing(), tags) && res@ == show_of(
                repo_views(repos@),
                tags,
                registry.location(),
                color,
                width,
                opt_str(home),
            ),
{
    let tags = registry.tags();
    if repos.len() == 0 {
        let s = empty_hint(registry.path(), home, color);
        assert(res_is(s@, registry, repos, views(tags@), color, width, opt_str(home)));
        return s;
    }
    let table = show_table(repos, color, width, home);
    let mut out = table.render();
    push_str(&mut out, "\n");
    let mut parts: Vec<String> = Vec::new();
    parts.push(plural(repos.len(), "repo", "repos"));
    if tags.len() > 0 {
        let mut t = owned("tags: ");
        let list = join(&tags, ", ");
        push_str(&mut t, list.as_str());
        let ghost before = views(parts@);
        parts.push(t);
        assert(views(parts@) =~= before.push(t@));
    }
    let config = abbreviate(registry.path(), home);
    let ghost before = views(parts@);
    parts.push(config);
    assert(views(parts@) =~= before.push(config@));
    assert(views(parts@) =~= show_parts(repos@.len() as nat, views(tags@), registry.location(), opt_str(home)));
    let f = footer(&parts, color);
    push_str(&mut out, f.as_str());
    assert(res_is(out@, registry, repos, views(tags@), color, width, opt_str(home)));
    out
}

/// `text` is what `grit show` prints with these tags in use.
spec fn res_is(
    text: Seq<char>,
    registry: &Registry,
    repos: &Vec<Repo>,
    tags: Seq<Seq<char>>,
    color: bool,
    width: Option<usize>,
    home: Option<Seq<char>>,
) -> bool {
    text =~= show_of(repo_views(repos@), tags, registry.location(), color, width, home)
}

/// What `grit show` prints, the paths shown with the user's home directory
/// collapsed to `~` where there is one.
pub fn show(registry: &Registry, repos: &Vec<Repo>, color: bool, width: Option<usize>) -> (res: String)
    ensures
        exists|tags: Seq<Seq<char>>, h: Option<Seq<char>>|
            lists_tags(registry.listing(), tags) && res@ == show_of(
                repo_views(repos@),
                tags,
                registry.location(),
                color,
                width,
                h,
            ),
{
    let h = home();
    match &h {
        Some(s) => show_in(registry, repos, color, width, Some(s.as_str())),
        None => show_in(registry, repos, color, width, None),
    }
}

} // verus!
