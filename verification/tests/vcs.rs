use grit::vcs::{one_line, MAX_STDERR};

#[test]
fn a_multi_line_complaint_becomes_one_line() {
    assert_eq!(one_line("boom\nhint: try again"), "boom; hint: try again");
}

#[test]
fn blank_lines_are_dropped_rather_than_joined() {
    assert_eq!(one_line("boom\n\n\nhint"), "boom; hint");
}

#[test]
fn a_single_line_is_left_alone() {
    assert_eq!(one_line("  no database selected  "), "no database selected");
}

#[test]
fn an_enormous_complaint_is_capped() {
    // One unreadable repo must not stretch the dashboard past the terminal.
    let flattened = one_line(&"x".repeat(1_000));
    assert_eq!(flattened.chars().count(), MAX_STDERR + 1);
    assert!(flattened.ends_with('…'));
}

#[test]
fn capping_does_not_split_a_multibyte_character() {
    // Slicing on a byte index inside a `—` would panic.
    let flattened = one_line(&"—".repeat(1_000));
    assert!(flattened.ends_with('…'));
}

