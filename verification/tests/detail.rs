use grit::commands::detail::{
    branch_sync_cell, branches_table, changes_table, code_cell, commits_table, path_cell,
    stashes_table, summarise,
};
use grit::render::theme::{NONE, SYNCED};
use grit::vcs::{Branch, Change, Detail, Distance, FileChange, Stash};
fn file(path: &str, staged: Option<Change>, unstaged: Option<Change>) -> FileChange {
    FileChange {
        path: path.to_string(),
        origin: None,
        staged,
        unstaged,
    }
}

#[test]
fn a_file_staged_and_then_modified_again_shows_both_sides() {
    let cell = code_cell(&file(
        "a.txt",
        Some(Change::Modified),
        Some(Change::Modified),
    ));
    assert_eq!(cell.text(), "MM");
}

#[test]
fn a_side_with_nothing_on_it_is_a_space_not_a_dot() {
    let cell = code_cell(&file("a.txt", None, Some(Change::Modified)));
    assert_eq!(cell.text(), " M");
}

#[test]
fn an_untracked_file_is_marked_on_the_unstaged_side() {
    let cell = code_cell(&file("new.md", None, Some(Change::Untracked)));
    assert_eq!(cell.text(), " ?");
}

#[test]
fn a_conflict_is_marked_on_both_sides() {
    let cell = code_cell(&file(
        "f.txt",
        Some(Change::Conflicted),
        Some(Change::Conflicted),
    ));
    assert_eq!(cell.text(), "UU");
}

#[test]
fn a_rename_says_where_it_came_from() {
    let mut renamed = file("new.txt", Some(Change::Renamed), None);
    renamed.origin = Some("old.txt".to_string());
    assert_eq!(path_cell(&renamed).text(), "new.txt ← old.txt");
}

#[test]
fn the_code_column_is_always_two_columns_wide() {
    // Ragged codes would knock the path column out of line on every row
    // that happened to have one side clean.
    for (staged, unstaged) in [
        (None, None),
        (Some(Change::Added), None),
        (None, Some(Change::Deleted)),
        (Some(Change::Modified), Some(Change::Modified)),
    ] {
        assert_eq!(code_cell(&file("x", staged, unstaged)).width(), 2);
    }
}

#[test]
fn the_summary_names_only_what_is_there() {
    let detail = Detail {
        files: vec![file("a", None, Some(Change::Modified))],
        stashes: vec![Stash {
            id: "stash@{0}".into(),
            message: "wip".into(),
            age: "4h".into(),
        }],
        ..Detail::default()
    };
    assert_eq!(summarise(&detail), ["1 change", "1 stash"]);
}

#[test]
fn a_quiet_repo_summarises_to_nothing_rather_than_to_zeroes() {
    assert!(summarise(&Detail::default()).is_empty());
}

#[test]
fn empty_sections_are_left_out_entirely() {
    let (color, width) = (false, Some(80));
    assert!(changes_table(&vec![], color, width).is_none());
    assert!(branches_table(&vec![], color, width).is_none());
    assert!(commits_table(&Detail::default(), color, width).is_none());
    assert!(stashes_table(&Detail::default(), color, width).is_none());
}

fn branch(upstream: Option<&str>, distance: Option<(u32, u32)>) -> Branch {
    Branch {
        name: "main".to_string(),
        upstream: upstream.map(|u| u.to_string()),
        distance: distance.map(|(ahead, behind)| Distance { ahead, behind }),
        head: true,
        tip: None,
    }
}

#[test]
fn a_branch_level_with_its_upstream_gets_a_tick() {
    assert_eq!(branch_sync_cell(&branch(Some("origin/main"), Some((0, 0)))).text(), SYNCED);
}

#[test]
fn a_diverged_branch_counts_both_ways() {
    assert_eq!(branch_sync_cell(&branch(Some("origin/main"), Some((2, 5)))).text(), "↑2 ↓5");
}

#[test]
fn branch_a_branch_with_no_upstream_is_marked_as_having_none() {
    assert_eq!(branch_sync_cell(&branch(None, None)).text(), NONE);
}

#[test]
fn a_distance_nobody_measured_renders_as_nothing_at_all() {
    // Not a tick, and not a glyph of its own: "not measured" is the
    // absence of a reading, and anything on screen would look like one.
    assert!(branch_sync_cell(&branch(Some("origin/main"), None)).is_empty());
}
