use grit::shell::{eval_line, is_enabled, mentions_init, script, with_block, without_block, Shell, BEGIN, END};


#[test]
fn the_block_is_added_with_a_blank_line_in_front_of_it() {
    let out = with_block("export PATH=/usr/bin\n", Shell::Zsh).unwrap();
    assert!(out.starts_with("export PATH=/usr/bin\n\n"), "{out:?}");
    assert!(out.contains(r#"eval "$(grit shell init zsh)""#), "{out:?}");
    assert!(out.ends_with("\n"), "{out:?}");
}

#[test]
fn a_file_not_ending_in_a_newline_does_not_get_the_marker_welded_on() {
    let out = with_block("setopt nomatch", Shell::Zsh).unwrap();
    assert!(out.starts_with("setopt nomatch\n"), "{out:?}");
    assert!(out.lines().any(|l| l == BEGIN), "{out:?}");
}

#[test]
fn an_empty_file_gets_the_block_and_no_leading_blank_line() {
    let out = with_block("", Shell::Zsh).unwrap();
    assert!(out.starts_with(BEGIN), "{out:?}");
}

#[test]
fn enabling_twice_adds_nothing() {
    let once = with_block("", Shell::Zsh).unwrap();
    assert_eq!(with_block(&once, Shell::Zsh), None);
}

#[test]
fn fish_is_sourced_rather_than_evalled() {
    assert_eq!(eval_line(Shell::Fish), "grit shell init fish | source");
    assert!(eval_line(Shell::Bash).starts_with("eval "));
}

#[test]
fn disabling_restores_the_file_it_started_as() {
    let original = "export PATH=/usr/bin\nsetopt nomatch\n";
    let enabled = with_block(original, Shell::Zsh).unwrap();
    assert_eq!(without_block(&enabled).as_deref(), Some(original));
}

#[test]
fn a_full_cycle_leaves_no_growing_pile_of_blank_lines() {
    let original = "setopt nomatch\n";
    let mut text = original.to_string();
    for _ in 0..5 {
        text = with_block(&text, Shell::Zsh).unwrap();
        text = without_block(&text).unwrap();
    }
    assert_eq!(text, original);
}

#[test]
fn what_is_written_around_the_block_survives_disabling() {
    let text = format!("before\n\n{BEGIN}\neval \"$(grit shell init zsh)\"\n{END}\nafter\n");
    assert_eq!(
        without_block(&text).as_deref(),
        Some("before\nafter\n"),
        "{text:?}"
    );
}

#[test]
fn blank_lines_the_user_put_there_survive_a_cycle() {
    // The seam is trimmed by exactly what was added, so a file that ended
    // in its own blank line still does.
    let original = "setopt nomatch\n\n";
    let enabled = with_block(original, Shell::Zsh).unwrap();
    assert_eq!(without_block(&enabled).as_deref(), Some(original));
}

#[test]
fn disabling_a_file_without_the_block_changes_nothing() {
    assert_eq!(without_block("setopt nomatch\n"), None);
}

#[test]
fn a_hand_written_eval_counts_as_enabled() {
    // Someone who followed the README rather than running `enable`.
    assert!(is_enabled("eval \"$(grit shell init zsh)\"\n"));
    assert_eq!(
        with_block("eval \"$(grit shell init zsh)\"\n", Shell::Zsh),
        None
    );
}

#[test]
fn the_documentation_comment_in_the_script_is_not_mistaken_for_a_live_line() {
    // `grit shell init zsh` prints its own usage as a comment, and someone
    // may well have pasted the whole thing in.
    assert!(!mentions_init("#   eval \"$(grit shell init zsh)\"\n"));
    assert!(!is_enabled("# eval \"$(grit shell init zsh)\"\n"));
}

#[test]
fn every_shell_has_a_script_that_calls_back_into_grit() {
    for shell in [Shell::Zsh, Shell::Bash, Shell::Fish] {
        let text = script(shell);
        assert!(!text.is_empty(), "{shell:?} has an empty script");
        assert!(text.contains("grit shell"), "{shell:?} never calls back in");
    }
}

#[test]
fn zsh_draws_the_cached_dashboard_under_the_line() {
    let zsh = script(Shell::Zsh);
    assert!(zsh.contains("grit shell preview"));
    assert!(zsh.contains("POSTDISPLAY"));
    assert!(zsh.contains("region_highlight"));
    assert!(zsh.contains("GRIT_PREVIEW_DELAY"));
}

#[test]
fn every_shell_binds_the_dashboard_and_the_picker() {
    for shell in [Shell::Zsh, Shell::Bash, Shell::Fish] {
        let text = script(shell);
        assert!(text.contains("grit --color always shell rows --cached"), "{shell:?} has no picker");
        assert!(text.contains("fzf"), "{shell:?} has no picker");
        assert!(text.contains("grit --color always detail {1}"), "{shell:?} picker has no detail pane");
        assert!(text.contains("GRIT_PICKER_KEY"), "{shell:?} picker key cannot be changed");
        assert!(text.contains("GRIT_PREVIEW_KEY"), "{shell:?} dashboard key cannot be changed");
    }
}
