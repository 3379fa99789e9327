use grit::commands::status::{
    branch_cell, first_line, snapshot_cells, state_cell, summarise, sync_cell, Row,
};
use grit::registry::model::{Repo, RepoEntry, VcsKind};
use grit::render::theme::{NONE, SYNCED};
use grit::vcs::{Commit, RepoState, Snapshot};
fn repo(alias: &str) -> Repo {
    Repo {
        alias: alias.to_string(),
        entry: RepoEntry {
            path: format!("/code/{alias}"),
            kind: VcsKind::Git,
            tags: vec![],
            added_at: None,
        },
    }
}

fn row(alias: &str, snap: Snapshot) -> Row {
    Row {
        repo: repo(alias),
        outcome: Ok(snap),
    }
}

fn clean() -> Snapshot {
    Snapshot {
        branch: Some("main".into()),
        upstream: Some("origin/main".into()),
        head: Some(Commit {
            short_id: "abc1234".into(),
            subject: "do a thing".into(),
            age: "3h".into(),
        }),
        ..Snapshot::default()
    }
}

#[test]
fn a_clean_synced_repo_shows_a_tick_and_clean() {
    let snap = clean();
    assert_eq!(sync_cell(&snap).text(), SYNCED);
    assert_eq!(state_cell(&snap).text(), "clean");
}

#[test]
fn no_upstream_is_not_the_same_as_in_sync() {
    let snap = Snapshot {
        upstream: None,
        ..clean()
    };
    assert_eq!(sync_cell(&snap).text(), NONE);
}

#[test]
fn ahead_and_behind_are_shown_together() {
    let snap = Snapshot {
        ahead: 2,
        behind: 5,
        ..clean()
    };
    assert_eq!(sync_cell(&snap).text(), "↑2 ↓5");
}

#[test]
fn working_tree_counts_are_ordered_most_to_least_urgent() {
    let snap = Snapshot {
        staged: 3,
        unstaged: 1,
        untracked: 2,
        conflicts: 1,
        stashes: 4,
        ..clean()
    };
    assert_eq!(state_cell(&snap).text(), "!1 ●3 ○1 ?2 ⚑4");
}

#[test]
fn a_stash_alone_still_counts_as_something_to_show() {
    let snap = Snapshot {
        stashes: 1,
        ..clean()
    };
    assert_eq!(state_cell(&snap).text(), "⚑1");
}

#[test]
fn an_in_progress_rebase_is_labelled() {
    let snap = Snapshot {
        state: RepoState::Rebasing,
        conflicts: 2,
        ..clean()
    };
    assert_eq!(state_cell(&snap).text(), "rebasing !2");
}

#[test]
fn a_detached_head_says_so() {
    let snap = Snapshot {
        branch: None,
        ..clean()
    };
    assert_eq!(branch_cell(&snap).text(), "detached");
}

#[test]
fn a_missing_repo_renders_a_row_rather_than_failing() {
    let snap = Snapshot {
        state: RepoState::Missing,
        ..Snapshot::default()
    };
    let cells = snapshot_cells(&repo("gone"), &snap);
    assert_eq!(cells[3].text(), "missing");
}

#[test]
fn a_repo_with_no_commits_is_described_not_blank() {
    let snap = Snapshot {
        branch: Some("main".into()),
        head: None,
        ..Snapshot::default()
    };
    let cells = snapshot_cells(&repo("fresh"), &snap);
    assert_eq!(cells[5].text(), "no commits yet");
}

#[test]
fn a_quiet_summary_says_all_clean() {
    let rows = vec![row("a", clean()), row("b", clean())];
    assert_eq!(summarise(&rows), ["2 repos", "all clean"]);
}

#[test]
fn the_summary_counts_each_condition_once_per_repo() {
    let rows = vec![
        row("a", clean()),
        row(
            "b",
            Snapshot {
                staged: 3,
                unstaged: 1,
                ahead: 1,
                ..clean()
            },
        ),
        row(
            "c",
            Snapshot {
                stashes: 1,
                behind: 2,
                ..clean()
            },
        ),
    ];
    assert_eq!(
        summarise(&rows),
        ["3 repos", "1 dirty", "1 ahead", "1 behind", "1 stash"]
    );
}

#[test]
fn unreadable_repos_are_reported_in_the_summary() {
    let rows = vec![
        row("a", clean()),
        Row {
            repo: repo("b"),
            outcome: Err("git blew up".into()),
        },
    ];
    assert!(summarise(&rows).contains(&"1 unreadable".to_string()));
}

#[test]
fn only_the_first_line_of_an_error_reaches_the_table() {
    assert_eq!(first_line("boom\nhint: try again"), "boom");
}
