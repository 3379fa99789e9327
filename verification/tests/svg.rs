use grit::render::svg::{dark, light, Screen};
use grit::render::table::{Cell, Table};
use grit::render::theme::Theme;
fn screen() -> Screen {
    let mut table = Table::new(["alias", "sync"]).no_rule();
    table.push_row(vec![
        Cell::styled("api", Theme::alias()),
        Cell::styled("✓", Theme::ok()),
    ]);

    let mut screen = Screen::new();
    screen.line("$ grit status", Theme::muted());
    screen.table(&table);
    screen
}

#[test]
fn the_plain_text_is_what_an_uncoloured_terminal_would_print() {
    let mut table = Table::new(["alias"]).color(false).no_rule();
    table.push_row(vec![Cell::styled("api", Theme::alias())]);

    let mut screen = Screen::new();
    screen.table(&table);
    assert_eq!(screen.text(), table.render());
}

#[test]
fn a_tables_highlights_are_shifted_by_the_lines_above_it() {
    let svg = screen().to_svg(&dark());
    // `api` is bold; if the offset were not shifted past the prompt line,
    // the range would land on `$ grit status` instead.
    assert!(svg.contains(">api</tspan>"), "{svg}");
    let bold = svg
        .lines()
        .find(|l| l.contains(">api</tspan>"))
        .expect("a run for the alias");
    assert!(bold.contains("class=\"fg b\""), "{bold}");
}

#[test]
fn every_colour_in_the_theme_reaches_the_stylesheet() {
    let svg = screen().to_svg(&dark());
    for (token, hex) in dark().colors {
        assert!(
            svg.contains(&format!(".c-{token} {{ fill: {hex} }}")),
            "{token}"
        );
    }
}

#[test]
fn the_two_palettes_paint_the_same_geometry() {
    let (dark, light) = (screen().to_svg(&dark()), screen().to_svg(&light()));
    let strip = |s: &str| {
        s.lines()
            .filter(|l| !l.contains("fill:") && !l.contains("fill=\""))
            .collect::<Vec<_>>()
            .join("\n")
    };
    assert_eq!(strip(&dark), strip(&light));
}

#[test]
fn padding_produces_no_runs_of_its_own() {
    let mut table = Table::new(["alias", "branch"]).no_rule();
    table.push_row(vec![Cell::plain("a"), Cell::plain("main")]);
    let mut screen = Screen::new();
    screen.table(&table);

    let svg = screen.to_svg(&dark());
    assert!(!svg.contains("> </tspan>"), "{svg}");
    assert!(!svg.contains("></tspan>"), "{svg}");
}

#[test]
fn markup_in_a_commit_subject_cannot_escape_the_document() {
    let mut table = Table::new(["subject"]).no_rule();
    table.push_row(vec![Cell::plain("fix <script> & \"quotes\"")]);
    let mut screen = Screen::new();
    screen.table(&table);

    let svg = screen.to_svg(&dark());
    assert!(svg.contains("fix &lt;script&gt; &amp; \"quotes\""), "{svg}");
    assert!(!svg.contains("<script>"), "{svg}");
}

#[test]
fn the_document_is_self_contained_and_well_formed_enough_to_embed() {
    let svg = screen().to_svg(&light());
    assert!(svg.starts_with("<svg xmlns="));
    assert!(svg.trim_end().ends_with("</svg>"));
    assert_eq!(svg.matches("<text").count(), svg.matches("</text>").count());
}

#[test]
fn the_description_carries_the_whole_table_as_text() {
    let svg = screen().to_svg(&dark());
    for line in screen().text().lines().filter(|l| !l.trim().is_empty()) {
        assert!(svg.contains(line.trim_end()), "missing {line:?}");
    }
}
