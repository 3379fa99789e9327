use grit::cache::CACHE_ENV;
use grit::cli::{shorthand_position, AFTER_HELP, ENABLE_HELP};
use grit::registry::CONFIG_ENV;
use grit::shell::{BEGIN, END};

/// `ENABLE_HELP` shows the block `shell enable` writes, markers and all.
#[test]
fn the_enable_help_quotes_the_real_block_markers() {
    for marker in [BEGIN, END] {
        assert!(
            ENABLE_HELP.contains(marker),
            "`shell enable` help does not show the marker it writes: {marker}"
        );
    }
}

/// Every environment variable the root help advertises has to be one grit
/// actually reads.
#[test]
fn the_advertised_environment_variables_are_the_real_ones() {
    for name in [CONFIG_ENV, CACHE_ENV, "XDG_CONFIG_HOME", "NO_COLOR", "COLUMNS"] {
        assert!(
            AFTER_HELP.contains(name),
            "`grit --help` does not mention {name}"
        );
    }
}

/// The top-level flags as the grammar declares them: `--color` takes a value,
/// the rest take none.
fn flags() -> Vec<(String, usize)> {
    vec![
        ("--color".to_string(), 1),
        ("-k".to_string(), 0),
        ("--keep-going".to_string(), 0),
        ("-h".to_string(), 0),
        ("--help".to_string(), 0),
        ("-V".to_string(), 0),
        ("--version".to_string(), 0),
    ]
}

fn argv(parts: &[&str]) -> Vec<Option<String>> {
    parts.iter().map(|p| Some(p.to_string())).collect()
}

#[test]
fn the_shorthand_is_found_where_the_command_would_be() {
    assert_eq!(shorthand_position(&argv(&["grit", "-r", "docs", "/code/docs"]), &flags()), Some(1));
    assert_eq!(shorthand_position(&argv(&["grit", "--register", "docs"]), &flags()), Some(1));
}

#[test]
fn the_shorthand_is_found_after_global_flags() {
    for prefix in [
        vec!["grit", "--color", "never"],
        vec!["grit", "--color=never"],
        vec!["grit", "-k"],
    ] {
        let at = prefix.len();
        let mut parts = prefix.clone();
        parts.extend(["-r", "docs", "/code/docs"]);
        assert_eq!(shorthand_position(&argv(&parts), &flags()), Some(at), "{prefix:?}");
    }
}

#[test]
fn a_dash_r_after_the_target_is_left_for_git() {
    assert_eq!(shorthand_position(&argv(&["grit", "docs", "push", "-r"]), &flags()), None);
}

#[test]
fn an_argument_that_is_not_text_stops_the_scan() {
    let mut args = argv(&["grit"]);
    args.push(None);
    args.push(Some("-r".to_string()));
    assert_eq!(shorthand_position(&args, &flags()), None);
}

#[test]
fn an_empty_or_bare_argv_has_no_shorthand() {
    assert_eq!(shorthand_position(&argv(&["grit"]), &flags()), None);
    assert_eq!(shorthand_position(&vec![], &flags()), None);
}
