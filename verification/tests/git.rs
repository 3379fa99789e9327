use grit::vcs::git::{compact_relative_time, parse_branch_list, parse_log, parse_log_line, parse_stash_list, parse_status, parse_track};
use grit::vcs::{Change, Distance, Snapshot};
/// A clean repo tracking an in-sync upstream.
const CLEAN: &str = "\
# branch.oid a1b2c3d4e5f60718293a4b5c6d7e8f9012345678
# branch.head main
# branch.upstream origin/main
# branch.ab +0 -0
";

/// Every entry shape porcelain v2 produces, captured verbatim from a real
/// repository put into each state. The tab in the rename line is a real
/// tab: git separates the new path from the old one with one, and a test
/// that spelled it with spaces would pass while the parser was wrong.
const DIRTY: &str = "\
# branch.oid b777c552d7c3bada129bcbb1f6179985786fb1dd
# branch.head main
# branch.upstream origin/main
# branch.ab +4 -0
1 MM N... 100644 100644 100644 5626abf0f72e58d7a153368ba57db4c673c0e171 292ff6938d747033475548d8c0588a90ed085a8b a.txt
1 .D N... 100644 100644 000000 abaddc0b9edd523c69166a2c9f3a9e31a4c873e3 abaddc0b9edd523c69166a2c9f3a9e31a4c873e3 gone.txt
2 R. N... 100644 100644 100644 9d80ddb4cc7365318accecc8f8084993ecf72e69 9d80ddb4cc7365318accecc8f8084993ecf72e69 R100 renamed.txt\told.txt
1 A. N... 000000 100644 100644 0000000000000000000000000000000000000000 d1dee6292a637e55a303e241872da540648a1a7a with space.txt
? c.txt
? deep/
";

/// A conflicted merge. Three stages means two more modes and one more hash
/// on the line than an ordinary entry carries.
const CONFLICTED: &str = "\
# branch.oid 6069f139223a3138340854a7a2a3b26cb484782a
# branch.head main
u UU N... 100644 100644 100644 100644 df967b96a579e45a18b8251732d16804b2e56a55 ba2906d0666cf726c7eaadd2cd3db615dedfdf3a 2299c37978265a95cbe835a4b0f0bbf15aad5549 f.txt
";

fn paths(out: &str) -> Vec<String> {
    parse_status(out)
        .files
        .into_iter()
        .map(|f| f.path)
        .collect()
}

#[test]
fn the_file_list_and_the_counts_come_from_one_walk() {
    let status = parse_status(DIRTY);
    // Two staged (the MM and the rename, plus the add) against three
    // unstaged sides: whatever the list says, the header has to agree.
    assert_eq!(status.snapshot.staged, 3);
    assert_eq!(status.snapshot.unstaged, 2);
    assert_eq!(status.snapshot.untracked, 2);
    assert_eq!(status.files.len(), 6);
}

#[test]
fn a_file_staged_and_modified_again_carries_both_sides() {
    let file = parse_status(DIRTY).files.remove(0);
    assert_eq!(file.path, "a.txt");
    assert_eq!(file.staged, Some(Change::Modified));
    assert_eq!(file.unstaged, Some(Change::Modified));
}

#[test]
fn a_rename_keeps_the_path_it_came_from() {
    let renamed = parse_status(DIRTY)
        .files
        .into_iter()
        .find(|f| f.path == "renamed.txt")
        .expect("the rename is in the fixture");
    assert_eq!(renamed.origin.as_deref(), Some("old.txt"));
    assert_eq!(renamed.staged, Some(Change::Renamed));
    assert_eq!(renamed.unstaged, None);
}

#[test]
fn a_path_with_a_space_in_it_survives_the_field_walk() {
    // The path is the last field and is not split again, which is the
    // whole reason `skip_fields` returns the remainder whole.
    assert!(paths(DIRTY).contains(&"with space.txt".to_string()));
}

#[test]
fn an_untracked_directory_is_one_entry_not_its_contents() {
    // grit does not pass `-uall`, so git collapses a directory nobody has
    // added into a single row — and the count and the list agree on that.
    let status = parse_status(DIRTY);
    assert!(status.files.iter().any(|f| f.path == "deep/"));
    assert_eq!(status.snapshot.untracked, 2);
}

#[test]
fn an_untracked_file_is_unstaged_and_nothing_else() {
    let untracked = parse_status(DIRTY)
        .files
        .into_iter()
        .find(|f| f.path == "c.txt")
        .expect("the untracked file is in the fixture");
    assert_eq!(untracked.staged, None);
    assert_eq!(untracked.unstaged, Some(Change::Untracked));
}

#[test]
fn a_deletion_is_told_apart_from_a_modification() {
    let gone = parse_status(DIRTY)
        .files
        .into_iter()
        .find(|f| f.path == "gone.txt")
        .expect("the deletion is in the fixture");
    assert_eq!(gone.unstaged, Some(Change::Deleted));
}

#[test]
fn an_unmerged_entry_is_conflicted_on_both_sides() {
    let status = parse_status(CONFLICTED);
    assert_eq!(status.snapshot.conflicts, 1);
    let file = &status.files[0];
    assert_eq!(file.path, "f.txt");
    assert_eq!(file.staged, Some(Change::Conflicted));
    assert_eq!(file.unstaged, Some(Change::Conflicted));
}

#[test]
fn a_status_with_no_entries_lists_no_files() {
    assert!(parse_status(CLEAN).files.is_empty());
}

#[test]
fn a_code_this_build_does_not_know_still_counts_and_still_lists() {
    // A letter git has not shipped yet must not silently drop the path,
    // and must not change the count the dashboard has always given.
    let out = DIRTY.replace("1 MM N...", "1 XM N...");
    let status = parse_status(&out);
    assert_eq!(status.snapshot.staged, 3);
    assert_eq!(status.files[0].staged, Some(Change::Modified));
}

#[test]
fn the_log_reads_every_line_not_just_the_first() {
    let out = "abc1234\u{1f}first\u{1f}2 hours ago\ndef5678\u{1f}second\u{1f}3 days ago\n";
    let commits = parse_log(out);
    assert_eq!(commits.len(), 2);
    assert_eq!(commits[0].short_id, "abc1234");
    assert_eq!(commits[1].age, "3d");
}

#[test]
fn an_empty_log_is_no_commits_rather_than_one_blank_one() {
    assert!(parse_log("").is_empty());
    assert!(parse_log("\n").is_empty());
}

#[test]
fn the_stash_list_is_read_newest_first() {
    let out = "\
stash@{0}\u{1f}On main: second stash\u{1f}16 seconds ago
stash@{1}\u{1f}On main: wip: fiddling with a\u{1f}2 days ago
";
    let stashes = parse_stash_list(out);
    assert_eq!(stashes.len(), 2);
    assert_eq!(stashes[0].id, "stash@{0}");
    assert_eq!(stashes[0].message, "On main: second stash");
    assert_eq!(stashes[1].age, "2d");
}

#[test]
fn no_stashes_is_an_empty_list_not_a_blank_entry() {
    assert!(parse_stash_list("").is_empty());
}

#[test]
fn a_branch_line_is_read_field_by_field() {
    let out = "main\u{1f}origin/main\u{1f}[ahead 2]\u{1f}5b38814\u{1f}local only 2\u{1f}3 hours ago\u{1f}*\n";
    let branches = parse_branch_list(out);
    assert_eq!(branches.len(), 1);

    let branch = &branches[0];
    assert_eq!(branch.name, "main");
    assert_eq!(branch.upstream.as_deref(), Some("origin/main"));
    assert_eq!(branch.distance, distance(2, 0));
    assert!(branch.head);

    let tip = branch.tip.as_ref().expect("the branch has a commit");
    assert_eq!(tip.short_id, "5b38814");
    assert_eq!(tip.age, "3h");
}

#[test]
fn a_branch_that_is_not_checked_out_is_not_marked() {
    let out = "side\u{1f}\u{1f}\u{1f}abc1234\u{1f}wip\u{1f}2 days ago\u{1f}\n";
    let branch = parse_branch_list(out).remove(0);
    assert!(!branch.head);
    assert_eq!(branch.upstream, None);
    // No upstream means nothing to measure against, not a measurement of
    // zero — the same distinction `[gone]` turns on.
    assert_eq!(branch.distance, None);
}

fn distance(ahead: u32, behind: u32) -> Option<Distance> {
    Some(Distance { ahead, behind })
}

#[test]
fn the_tracking_field_is_read_in_all_the_shapes_git_writes_it() {
    // Empty is level, not unknown: git writes nothing rather than
    // `[ahead 0, behind 0]` for a branch that matches its upstream.
    assert_eq!(parse_track(""), distance(0, 0));
    assert_eq!(parse_track("[ahead 2]"), distance(2, 0));
    assert_eq!(parse_track("[behind 7]"), distance(0, 7));
    assert_eq!(parse_track("[ahead 2, behind 7]"), distance(2, 7));
}

#[test]
fn an_upstream_that_is_gone_reports_no_distance_at_all() {
    // Not zero, which reads as "in sync". There is nothing left to be in
    // sync with — and git still names the upstream in `%(upstream:short)`,
    // so this is the only field that can say so.
    assert_eq!(parse_track("[gone]"), None);
}

#[test]
fn a_branch_with_a_deleted_upstream_keeps_the_name_and_loses_the_distance() {
    let out =
        "main\u{1f}origin/main\u{1f}[gone]\u{1f}abc1234\u{1f}one\u{1f}2 days ago\u{1f}*\n";
    let branch = parse_branch_list(out).remove(0);
    assert_eq!(branch.upstream.as_deref(), Some("origin/main"));
    assert_eq!(branch.distance, None);
}

#[test]
fn clean_repo_has_no_counts() {
    let s = parse_status(CLEAN).snapshot;
    assert_eq!(s.branch.as_deref(), Some("main"));
    assert_eq!(s.upstream.as_deref(), Some("origin/main"));
    assert_eq!((s.ahead, s.behind), (0, 0));
    assert!(s.is_clean());
    assert!(s.is_synced());
}

#[test]
fn ahead_and_behind_are_read_from_branch_ab() {
    let out = CLEAN.replace("+0 -0", "+3 -12");
    let s = parse_status(&out).snapshot;
    assert_eq!((s.ahead, s.behind), (3, 12));
    assert!(!s.is_synced());
}

#[test]
fn detached_head_has_no_branch() {
    let out = CLEAN.replace("main", "(detached)");
    let s = parse_status(&out).snapshot;
    assert_eq!(s.branch, None);
}

#[test]
fn a_branch_with_no_upstream_has_no_ab_line() {
    let out = "\
# branch.oid a1b2c3d4
# branch.head feature/thing
";
    let s = parse_status(out).snapshot;
    assert_eq!(s.branch.as_deref(), Some("feature/thing"));
    assert_eq!(s.upstream, None);
    assert!(s.is_synced());
}

#[test]
fn a_slash_in_the_branch_name_survives() {
    let out = CLEAN.replace("head main", "head feature/rate-limits");
    assert_eq!(
        parse_status(&out).snapshot.branch.as_deref(),
        Some("feature/rate-limits")
    );
}

#[test]
fn xy_first_column_counts_as_staged() {
    let out = format!("{CLEAN}1 M. N... 100644 100644 100644 abc123 def456 src/main.rs\n");
    let s = parse_status(&out).snapshot;
    assert_eq!((s.staged, s.unstaged), (1, 0));
    assert!(!s.is_clean());
}

#[test]
fn xy_second_column_counts_as_unstaged() {
    let out = format!("{CLEAN}1 .M N... 100644 100644 100644 abc123 def456 src/main.rs\n");
    let s = parse_status(&out).snapshot;
    assert_eq!((s.staged, s.unstaged), (0, 1));
}

#[test]
fn a_file_changed_on_both_sides_counts_once_each() {
    let out = format!("{CLEAN}1 MM N... 100644 100644 100644 abc123 def456 src/main.rs\n");
    let s = parse_status(&out).snapshot;
    assert_eq!((s.staged, s.unstaged), (1, 1));
}

#[test]
fn renames_are_counted_like_ordinary_changes() {
    let out = format!(
        "{CLEAN}2 R. N... 100644 100644 100644 abc123 def456 R100 new/path.rs\u{0}old/path.rs\n"
    );
    let s = parse_status(&out).snapshot;
    assert_eq!((s.staged, s.unstaged), (1, 0));
}

#[test]
fn untracked_and_ignored_are_told_apart() {
    let out = format!("{CLEAN}? notes.md\n? build/out.log\n! target/\n");
    let s = parse_status(&out).snapshot;
    assert_eq!(s.untracked, 2);
    assert_eq!((s.staged, s.unstaged), (0, 0));
}

#[test]
fn unmerged_entries_are_conflicts() {
    let out = format!(
        "{CLEAN}u UU N... 100644 100644 100644 100644 a1 b2 c3 src/conflict.rs\n\
         u UU N... 100644 100644 100644 100644 a1 b2 c3 src/other.rs\n"
    );
    let s = parse_status(&out).snapshot;
    assert_eq!(s.conflicts, 2);
    assert!(!s.is_clean());
}

#[test]
fn a_path_with_spaces_does_not_shift_the_columns() {
    let out = format!("{CLEAN}1 .M N... 100644 100644 100644 abc123 def456 my notes/a b.md\n");
    let s = parse_status(&out).snapshot;
    assert_eq!((s.staged, s.unstaged), (0, 1));
}

#[test]
fn a_realistic_mixed_status_adds_up() {
    let out = "\
# branch.oid 3f9c1e0b7a2d5148e6c0b9f3a7d215c84e0b6d92
# branch.head feature/rate-limits
# branch.upstream origin/feature/rate-limits
# branch.ab +1 -0
1 M. N... 100644 100644 100644 aaa bbb Cargo.toml
1 .M N... 100644 100644 100644 ccc ddd src/lib.rs
1 MM N... 100644 100644 100644 eee fff src/main.rs
? scratch.txt
";
    let s = parse_status(out).snapshot;
    assert_eq!(
        (s.staged, s.unstaged, s.untracked, s.conflicts),
        (2, 2, 1, 0)
    );
    assert_eq!(s.ahead, 1);
}

#[test]
fn empty_output_parses_to_the_default_snapshot() {
    assert_eq!(parse_status("").snapshot, Snapshot::default());
}

#[test]
fn log_line_splits_on_the_unit_separator() {
    let line = "3f9c1e0b\u{1f}add rate limit headers\u{1f}28 hours ago\n";
    let commit = parse_log_line(line).unwrap();
    assert_eq!(commit.short_id, "3f9c1e0b");
    assert_eq!(commit.subject, "add rate limit headers");
    assert_eq!(commit.age, "28h");
}

#[test]
fn git_a_subject_containing_unicode_and_punctuation_is_preserved() {
    let subject = "✨ ship the 2.0 rewrite ✨ (#420) — with a, comma";
    let line = format!("a1b2c3d4\u{1f}{subject}\u{1f}35 hours ago");
    let commit = parse_log_line(&line).unwrap();
    assert_eq!(commit.subject, subject);
}

#[test]
fn a_repo_with_no_commits_yields_no_head() {
    assert_eq!(parse_log_line(""), None);
    assert_eq!(parse_log_line("\n"), None);
}

#[test]
fn relative_times_are_compacted() {
    let cases = [
        ("28 hours ago", "28h"),
        ("1 hour ago", "1h"),
        ("45 seconds ago", "45s"),
        ("3 minutes ago", "3m"),
        ("5 days ago", "5d"),
        ("2 weeks ago", "2w"),
        ("7 months ago", "7mo"),
        ("1 year ago", "1y"),
        ("2 years, 3 months ago", "2y"),
    ];
    for (input, want) in cases {
        assert_eq!(compact_relative_time(input), want, "input: {input}");
    }
}

#[test]
fn unrecognised_relative_times_pass_through_unchanged() {
    assert_eq!(compact_relative_time("in the future"), "in the future");
    assert_eq!(compact_relative_time(""), "");
    assert_eq!(compact_relative_time("some day"), "some day");
}

#[test]
fn every_counter_counts_the_files_that_carry_it() {
    let ignored = format!("{DIRTY}! build/\n");
    for out in [CLEAN, DIRTY, CONFLICTED, ignored.as_str()] {
        let status = parse_status(out);
        let count = |p: &dyn Fn(&grit::vcs::FileChange) -> bool| status.files.iter().filter(|f| p(f)).count() as u32;
        let staged = count(&|f| f.staged.is_some() && f.staged != Some(Change::Conflicted));
        let unstaged = count(&|f| {
            f.unstaged.is_some() && f.unstaged != Some(Change::Untracked) && f.unstaged != Some(Change::Conflicted)
        });
        let untracked = count(&|f| f.unstaged == Some(Change::Untracked));
        let conflicts = count(&|f| f.staged == Some(Change::Conflicted));
        assert_eq!(status.snapshot.staged, staged, "{out}");
        assert_eq!(status.snapshot.unstaged, unstaged, "{out}");
        assert_eq!(status.snapshot.untracked, untracked, "{out}");
        assert_eq!(status.snapshot.conflicts, conflicts, "{out}");
    }
    // The ignored line adds neither a file nor a count.
    assert_eq!(parse_status(&ignored).files.len(), parse_status(DIRTY).files.len());
    assert_eq!(parse_status(CONFLICTED).snapshot.conflicts, 1);
}
