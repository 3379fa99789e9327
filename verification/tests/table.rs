use grit::render::table::{Align, Cell, Highlight, Table, GAP};
use grit::render::theme::{Style, Theme, ELLIPSIS};
use unicode_width::UnicodeWidthStr;


#[test]
fn a_newline_in_a_cell_cannot_break_the_row() {
    let cell = Cell::plain("subject\n\nand a body that would land in the next column");
    assert!(!cell.text().contains('\n'), "{:?}", cell.text());
    assert!(
        cell.text().starts_with("subject  and a body"),
        "{:?}",
        cell.text()
    );
}

#[test]
fn tabs_and_carriage_returns_go_the_same_way() {
    let cell = Cell::plain("a\tb\rc");
    assert_eq!(cell.text(), "a b c");
}

#[test]
fn a_pushed_span_is_flattened_too() {
    let cell = Cell::plain("first").push("second\nthird", Style::new());
    assert!(!cell.text().contains('\n'), "{:?}", cell.text());
}

#[test]
fn ordinary_text_is_left_exactly_as_it_was() {
    let text = "✨ ship the 2.0 rewrite ✨ (#420) — with a, comma";
    assert_eq!(Cell::plain(text).text(), text);
}

/// What one cell contributes to a line, truncated to `max` columns.
fn truncated(cell: &Cell, max: usize) -> String {
    cell.visible_spans(Some(max))
        .iter()
        .map(|s| s.text.as_str())
        .collect()
}

fn table() -> Table {
    let mut t = Table::new(["alias", "branch"]).color(false);
    t.push_row(vec![Cell::plain("api"), Cell::plain("main")]);
    t.push_row(vec![
        Cell::plain("dashboard"),
        Cell::plain("fix/login-redirect"),
    ]);
    t
}

/// Column widths for [`table`]: `dashboard` and `fix/login-redirect` are
/// the widest entries, and both beat their headers.
const ALIAS_W: usize = 9;
const BRANCH_W: usize = 18;

#[test]
fn columns_are_padded_to_the_widest_entry() {
    let out = table().render();
    let lines: Vec<&str> = out.lines().collect();
    assert_eq!(lines[0], "  ALIAS      BRANCH");
    assert_eq!(lines[2], "  api        main");
    assert_eq!(lines[3], "  dashboard  fix/login-redirect");
}

#[test]
fn the_rule_spans_the_table_but_not_the_indent() {
    let out = table().render();
    let rule = out.lines().nth(1).unwrap();
    assert!(rule.starts_with("  ─"));
    assert_eq!(rule.trim_start().chars().count(), ALIAS_W + BRANCH_W + GAP);
}

#[test]
fn a_header_wider_than_its_data_sets_the_column_width() {
    let mut t = Table::new(["alias", "description"]).color(false);
    t.push_row(vec![Cell::plain("a"), Cell::plain("x")]);
    assert_eq!(t.render().lines().nth(2).unwrap(), "  a      x");
}

#[test]
fn no_line_carries_trailing_whitespace() {
    for line in table().render().lines() {
        assert!(!line.ends_with(' '), "trailing space in {line:?}");
    }
}

#[test]
fn right_aligned_columns_pad_on_the_left() {
    let mut t = Table::new(["n", "count"])
        .color(false)
        .align(1, Align::Right)
        .no_rule();
    t.push_row(vec![Cell::plain("a"), Cell::plain("7")]);
    t.push_row(vec![Cell::plain("b"), Cell::plain("1234")]);
    let out = t.render();
    let lines: Vec<&str> = out.lines().collect();
    // The `count` header is 5 wide, so that is the column width.
    assert_eq!(lines[0], "  N  COUNT");
    assert_eq!(lines[1], "  a      7");
    assert_eq!(lines[2], "  b   1234");
}

#[test]
fn width_is_measured_in_display_columns_not_bytes() {
    // Each CJK glyph occupies two columns.
    let cell = Cell::plain("日本語");
    assert_eq!(cell.width(), 6);
    assert_eq!(cell.text().len(), 9);
}

#[test]
fn multi_span_cells_sum_their_widths() {
    let cell = Cell::plain("●3")
        .push_spaced("○1", Style::new())
        .push_spaced("⚑1", Style::new());
    assert_eq!(cell.text(), "●3 ○1 ⚑1");
    assert_eq!(cell.width(), 8);
}

#[test]
fn push_spaced_does_not_lead_with_a_space() {
    let cell = Cell::empty().push_spaced("first", Style::new());
    assert_eq!(cell.text(), "first");
}

#[test]
fn the_flex_column_shrinks_when_the_terminal_is_narrow() {
    let mut t = Table::new(["alias", "subject"])
        .color(false)
        .flex(1)
        .no_rule()
        .terminal_width(Some(24));
    t.push_row(vec![
        Cell::plain("api"),
        Cell::plain("a rather long commit subject"),
    ]);
    let line = t.render().lines().nth(1).unwrap().to_string();
    assert!(line.width() <= 24, "{line:?} is {} wide", line.width());
    assert!(line.ends_with(ELLIPSIS));
}

#[test]
fn a_wide_terminal_leaves_the_flex_column_alone() {
    let mut t = Table::new(["alias", "subject"])
        .color(false)
        .flex(1)
        .no_rule()
        .terminal_width(Some(200));
    t.push_row(vec![
        Cell::plain("api"),
        Cell::plain("add rate limit headers"),
    ]);
    assert_eq!(
        t.render().lines().nth(1).unwrap(),
        "  api    add rate limit headers"
    );
}

#[test]
fn truncation_never_splits_a_wide_character() {
    let rendered = truncated(&Cell::plain("日本語です"), 5);
    // 5 columns: two glyphs (4 cols) plus the ellipsis.
    assert_eq!(rendered, "日本…");
    assert!(rendered.width() <= 5);
}

#[test]
fn truncation_spans_style_boundaries() {
    let cell = Cell::plain("abc").push("defghi", Style::new());
    assert_eq!(truncated(&cell, 5), "abcd…");
}

/// The characters a highlight covers, which is the only thing that makes
/// an offset bug visible.
fn covered(text: &str, h: &Highlight) -> String {
    text.chars().skip(h.start).take(h.end - h.start).collect()
}

#[test]
fn the_highlighted_text_is_what_the_uncoloured_table_renders() {
    let (text, _) = table().render_highlighted();
    assert_eq!(text, table().color(false).render());
}

#[test]
fn offsets_are_characters_not_bytes() {
    // `日本語` is 3 characters, 9 bytes and 6 display columns; a renderer
    // that reported any of the other two would send zsh's region_highlight
    // to the wrong place.
    let mut t = Table::new(["branch"]).no_rule();
    t.push_row(vec![Cell::styled("日本語", Theme::branch())]);

    let (text, ranges) = t.render_highlighted();
    let branch = ranges
        .iter()
        .find(|h| h.style == Theme::branch())
        .expect("the branch cell is styled");

    assert_eq!(covered(&text, branch), "日本語");
    assert_eq!(branch.end - branch.start, 3);
}

#[test]
fn a_highlight_lands_on_its_own_cell_and_no_further() {
    let mut t = Table::new(["alias", "branch"]).no_rule();
    t.push_row(vec![
        Cell::styled("dashboard", Theme::alias()),
        Cell::styled("main", Theme::branch()),
    ]);

    let (text, ranges) = t.render_highlighted();
    for want in ["dashboard", "main"] {
        let style = if want == "main" {
            Theme::branch()
        } else {
            Theme::alias()
        };
        let found = ranges.iter().find(|h| h.style == style).unwrap();
        assert_eq!(covered(&text, found), want);
    }
}

#[test]
fn padding_and_gaps_carry_no_highlight() {
    let mut t = Table::new(["alias", "branch"]).no_rule();
    t.push_row(vec![Cell::plain("api"), Cell::plain("main")]);

    let (_, ranges) = t.render_highlighted();
    // Only the header is styled; the two plain cells and every space
    // between them are left alone.
    assert!(
        ranges.iter().all(|h| h.style == Theme::header()),
        "unstyled text produced {ranges:?}"
    );
}

#[test]
fn adjacent_runs_of_one_style_become_a_single_range() {
    // `↑2 ↓5` is three spans — two styled, one plain space — so it stays
    // three ranges; `↑2 ↑5` sharing a style would still not merge, because
    // the space between them breaks the run. Two touching spans do merge.
    let cell = Cell::styled("ab", Theme::sha()).push("cd", Theme::sha());
    let mut t = Table::new(["x"]).no_rule();
    t.push_row(vec![cell]);

    let (text, ranges) = t.render_highlighted();
    let sha: Vec<_> = ranges.iter().filter(|h| h.style == Theme::sha()).collect();
    assert_eq!(sha.len(), 1);
    assert_eq!(covered(&text, sha[0]), "abcd");
}

#[test]
fn every_line_ends_with_a_newline_the_offsets_account_for() {
    let (text, ranges) = table().render_highlighted();
    assert!(text.ends_with('\n'));
    for h in &ranges {
        assert!(
            !covered(&text, h).contains('\n'),
            "{h:?} spans a line break"
        );
    }
}

#[test]
fn a_truncated_cell_highlights_only_what_survived() {
    let mut t = Table::new(["alias", "subject"])
        .flex(1)
        .no_rule()
        .terminal_width(Some(20));
    t.push_row(vec![
        Cell::plain("api"),
        Cell::styled("a rather long commit subject", Theme::subject().bold()),
    ]);

    let (text, ranges) = t.render_highlighted();
    let subject = ranges
        .iter()
        .find(|h| h.style == Theme::subject().bold())
        .unwrap();
    assert!(text.contains(&covered(&text, subject)));
    assert!(!covered(&text, subject).contains(ELLIPSIS));
}

#[test]
fn colour_is_off_by_default_and_adds_escapes_when_on() {
    let mut t = Table::new(["branch"]).no_rule();
    t.push_row(vec![Cell::styled("main", Theme::branch())]);

    let plain = t.clone().color(false).render();
    let fancy = t.color(true).render();
    assert!(plain.contains("main") && !plain.contains('\u{1b}'));
    assert!(
        fancy.contains('\u{1b}'),
        "expected ANSI escapes in {fancy:?}"
    );
    assert!(fancy.contains("main"));
}

#[test]
fn highlight_ranges_are_ordered_styled_and_inside_the_text() {
    let mut t = Table::new(["alias", "branch", "sync"]);
    t.push_row(vec![
        Cell::styled("dashboard", Theme::alias()),
        Cell::styled("main", Theme::branch()),
        Cell::styled("↑2", Theme::ahead()).push(" ", Style::new()).push("↓5", Theme::behind()),
    ]);
    t.push_row(vec![Cell::plain("api"), Cell::styled("日本語", Theme::branch()), Cell::plain("")]);
    t.push_row(vec![
        Cell::styled("two\nlines", Theme::alias()),
        Cell::styled("main", Theme::branch()).push("\r\n", Theme::ahead()),
        Cell::plain("x"),
    ]);
    let (text, ranges) = t.render_highlighted();
    let len = text.chars().count();
    assert!(!ranges.is_empty());
    for h in &ranges {
        assert!(h.start < h.end && h.end <= len, "{h:?}");
        assert_ne!(h.style, Style::new());
        assert!(!covered(&text, h).contains('\n'), "{h:?}");
    }
    for pair in ranges.windows(2) {
        assert!(pair[0].end <= pair[1].start, "{pair:?}");
    }
}
