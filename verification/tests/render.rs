use grit::render::theme::{ColorChoice, Style, Theme, zsh_style};
use grit::render::{divider, footer, outcome, paint, plural, repeat};
use unicode_width::UnicodeWidthStr;

#[test]
fn plural_agrees_with_the_count() {
    assert_eq!(plural(0, "repo", "repos"), "0 repos");
    assert_eq!(plural(1, "repo", "repos"), "1 repo");
    assert_eq!(plural(4, "repo", "repos"), "4 repos");
}

#[test]
fn footer_joins_parts_with_a_bullet() {
    let parts = vec!["4 repos".to_string(), "1 dirty".to_string()];
    assert_eq!(footer(&parts, false), "  4 repos · 1 dirty\n");
}

#[test]
fn footer_of_nothing_is_nothing() {
    assert_eq!(footer(&vec![], false), "");
}

#[test]
fn divider_labels_and_fills_to_width() {
    let d = divider("docs", Some(20), false);
    assert!(d.starts_with("── docs ─"));
    assert_eq!(d.trim_end_matches('\n').width(), 20);
}

#[test]
fn always_and_never_ignore_the_terminal() {
    assert!(ColorChoice::Always.enabled_for(false, false));
    assert!(!ColorChoice::Never.enabled_for(true, false));
}

#[test]
fn every_named_style_has_a_zsh_spelling() {
    let named = [
        (Theme::header(), "fg=8"),
        (Theme::rule(), "fg=238"),
        (Theme::alias(), "bold"),
        (Theme::branch(), "fg=cyan"),
        (Theme::detached(), "fg=magenta"),
        (Theme::sha(), "fg=yellow"),
        (Theme::kind(), "fg=blue"),
        (Theme::ok(), "fg=green"),
        (Theme::behind(), "fg=red"),
        (Theme::untracked(), "fg=blue"),
        (Theme::conflict(), "fg=red,bold"),
        (Theme::stash(), "fg=magenta"),
        (Theme::banner(), "fg=cyan,bold"),
    ];
    for (style, spec) in named {
        assert_eq!(zsh_style(style), Some(spec));
    }
}

#[test]
fn styles_that_are_the_same_colour_share_a_spelling() {
    // Not an accident worth guarding against — several columns are yellow
    // on purpose — but the lookup must not depend on which one asked.
    for style in [Theme::sha(), Theme::ahead(), Theme::unstaged()] {
        assert_eq!(zsh_style(style), Some("fg=yellow"));
    }
    for style in [Theme::header(), Theme::muted(), Theme::path()] {
        assert_eq!(zsh_style(style), Some("fg=8"));
    }
}

#[test]
fn unstyled_text_asks_zsh_for_nothing() {
    assert_eq!(zsh_style(Theme::subject()), None);
    assert_eq!(zsh_style(Style::new()), None);
}

#[test]
fn auto_requires_a_terminal() {
    assert!(!ColorChoice::Auto.enabled_for(false, false));
}

#[test]
fn no_color_turns_auto_off_even_on_a_terminal() {
    assert!(ColorChoice::Auto.enabled_for(true, false));
    assert!(!ColorChoice::Auto.enabled_for(true, true));
    assert!(ColorChoice::Always.enabled_for(true, true));
}

#[test]
fn paint_adds_escapes_only_when_colour_is_on_and_there_is_text() {
    assert_eq!(paint("x", Theme::warn(), false), "x");
    assert_eq!(paint("", Theme::warn(), true), "");
    let painted = paint("x", Theme::warn(), true);
    assert!(painted.contains("\u{1b}["), "{painted:?}");
    assert!(painted.contains('x'));
    assert_ne!(painted, "x");
}

#[test]
fn repeat_lays_copies_end_to_end() {
    assert_eq!(repeat("─", 3), "───");
    assert_eq!(repeat("ab", 0), "");
}

#[test]
fn an_outcome_sits_under_the_divider() {
    assert_eq!(outcome("✓ ok", Theme::ok(), false), "  ✓ ok\n");
}
