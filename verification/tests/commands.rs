use grit::commands::detail::{build_card_in, paint_blocks, Block};
use grit::commands::register::{
    check_registration, known_kinds, normalize_tags, not_a_repo, record_registration,
    registered_line, remove_all, removed_line,
};
use grit::commands::shell::{
    cache_rows, choose_shell, disable_report, enable_report, picker_rows, preview, select_cached,
    still_fresh, too_old,
};
use grit::commands::show::{empty_hint, show_in, tags_cell};
use grit::commands::status::{cached_dashboard, dashboard_in, Row};
use grit::commands::{bare_word, not_a_command_message, BareWord};
use grit::context::{env_width, terminal_width};
use grit::cache::StatusCache;
use grit::error::{report, Error};
use grit::registry::model::{Repo, RepoEntry, VcsKind};
use grit::registry::Registry;
use grit::shell::{Change, Shell};
use grit::vcs::dolt::Wire;
use grit::vcs::{Commit, Detail, RepoState, Snapshot};

fn entry(path: &str, tags: &[&str]) -> RepoEntry {
    RepoEntry {
        path: path.to_string(),
        kind: VcsKind::Git,
        tags: tags.iter().map(|s| s.to_string()).collect(),
        added_at: None,
    }
}

fn fixture() -> Registry {
    let mut r = Registry::empty_at("/cfg/config.toml");
    r.insert("docs".into(), entry("/code/docs", &["release"]));
    r.insert("api".into(), entry("/code/api", &["release", "core"]));
    r.insert("solo".into(), entry("/code/solo", &[]));
    r
}

fn repo(alias: &str, tags: &[&str]) -> Repo {
    Repo { alias: alias.to_string(), entry: entry(&format!("/code/{alias}"), tags) }
}

fn clean() -> Snapshot {
    Snapshot {
        branch: Some("main".into()),
        upstream: Some("origin/main".into()),
        head: Some(Commit { short_id: "abc1234".into(), subject: "do a thing".into(), age: "3h".into() }),
        ..Snapshot::default()
    }
}

#[test]
fn what_is_read_back_is_what_was_filed() {
    let mut r = fixture();
    r.insert("web".into(), entry("/code/web", &["frontend"]));
    let got = r.get("web").unwrap();
    assert_eq!(got.entry.path, "/code/web");
    assert_eq!(got.entry.tags, ["frontend"]);
}

#[test]
fn removing_what_was_just_filed_leaves_the_registry_as_it_was() {
    let mut r = fixture();
    let before: Vec<_> = r.all().into_iter().map(|x| x.alias).collect();
    r.insert("web".into(), entry("/code/web", &[]));
    r.remove("web").unwrap();
    let after: Vec<_> = r.all().into_iter().map(|x| x.alias).collect();
    assert_eq!(before, after);
}

#[test]
fn the_backends_are_named_in_the_order_they_are_tried() {
    assert_eq!(known_kinds(), "dolt or git");
    assert_eq!(not_a_repo("/tmp/x").message(), "/tmp/x is not a dolt or git repository");
}

#[test]
fn a_registration_is_vetted_before_the_path_is_looked_at() {
    let r = fixture();
    assert!(matches!(check_registration(&r, "status", false), Err(Error::ReservedAlias(_))));
    assert!(matches!(check_registration(&r, "has space", false), Err(Error::InvalidAlias { .. })));
    assert!(matches!(
        check_registration(&r, "docs", false),
        Err(Error::DuplicateAlias { existing, .. }) if existing == "/code/docs"
    ));
    assert!(check_registration(&r, "docs", true).is_ok());
    assert!(check_registration(&r, "fresh", false).is_ok());
}

#[test]
fn tags_are_filed_sorted_and_once_each() {
    let tags = vec!["b".to_string(), "a".to_string(), "b".to_string()];
    assert_eq!(normalize_tags(&tags), ["a", "b"]);
}

#[test]
fn a_registration_files_the_root_with_a_time() {
    let mut r = fixture();
    let tags = vec!["x".to_string(), "x".to_string()];
    let (replaced, filed, when) = record_registration(&mut r, "web", VcsKind::Dolt, "/code/web", &tags);
    assert!(!replaced);
    assert_eq!(filed, ["x"]);
    let got = r.get("web").unwrap();
    assert_eq!(got.entry.kind, VcsKind::Dolt);
    let stamp = got.entry.added_at.expect("the time it was added");
    assert_eq!(Some(stamp.clone()), when);
    assert!(stamp.parse::<jiff::Timestamp>().is_ok(), "{stamp}");
    let (replaced, _, _) = record_registration(&mut r, "web", VcsKind::Git, "/code/web2", &vec![]);
    assert!(replaced);
}

#[test]
fn the_registration_receipt_names_alias_tags_and_path() {
    let tags = vec!["a".to_string(), "b".to_string()];
    assert_eq!(
        registered_line(false, "api", &tags, "/home/me/code/api", Some("/home/me"), false),
        "registered api [a, b] → ~/code/api"
    );
    assert_eq!(
        registered_line(true, "api", &vec![], "/srv/api", Some("/home/me"), false),
        "re-registered api → /srv/api"
    );
    assert_eq!(removed_line("api", "/home/me/x", Some("/home/me"), false), "removed api ← ~/x");
}

#[test]
fn removing_is_all_or_nothing() {
    let mut r = fixture();
    let names = vec!["api".to_string(), "nope".to_string()];
    assert!(matches!(remove_all(&mut r, &names), Err(Error::UnknownAlias(a)) if a == "nope"));
    assert_eq!(r.all().len(), 3);

    let names = vec!["solo".to_string(), "api".to_string()];
    let entries = remove_all(&mut r, &names).unwrap();
    assert_eq!(entries.len(), 2);
    assert_eq!(entries[0].path, "/code/solo");
    let left: Vec<_> = r.all().into_iter().map(|x| x.alias).collect();
    assert_eq!(left, ["docs"]);
}

#[test]
fn an_alias_named_twice_is_gone_by_its_second_turn() {
    let mut r = fixture();
    let names = vec!["api".to_string(), "api".to_string()];
    assert!(matches!(remove_all(&mut r, &names), Err(Error::UnknownAlias(a)) if a == "api"));
}

#[test]
fn a_repo_without_tags_shows_a_dot() {
    assert_eq!(tags_cell(&repo("a", &[])).text(), "·");
    assert_eq!(tags_cell(&repo("a", &["x", "y"])).text(), "x, y");
}

#[test]
fn the_listing_ends_with_a_footer_of_counts_tags_and_config() {
    let r = fixture();
    let repos = r.all();
    let out = show_in(&r, &repos, false, None, Some("/home/me"));
    let lines: Vec<&str> = out.lines().collect();
    assert_eq!(lines[0], "  ALIAS  KIND  TAGS           PATH");
    assert_eq!(lines[2], "  api    git   release, core  /code/api");
    assert_eq!(out.lines().last().unwrap(), "  3 repos · tags: core, release · /cfg/config.toml");
}

#[test]
fn an_empty_listing_says_what_to_type() {
    let r = Registry::empty_at("/home/me/.config/grit/config.toml");
    let out = show_in(&r, &vec![], false, None, Some("/home/me"));
    assert_eq!(out, empty_hint("/home/me/.config/grit/config.toml", Some("/home/me"), false));
    assert_eq!(
        out,
        "  No repositories registered yet.\n\n  grit -r <alias> <path>  register one\n\n  config: ~/.config/grit/config.toml\n"
    );
}

#[test]
fn a_missing_repo_gets_a_header_and_nothing_else() {
    let detail = Detail::missing();
    let blocks = build_card_in(&repo("gone", &[]), &detail, false, None, None);
    assert_eq!(blocks.len(), 5);
    assert!(matches!(blocks[0], Block::Blank));
    let text = paint_blocks(&blocks, false);
    assert_eq!(text, "\n  gone  /code/gone\n  git\n\n  missing\n");
}

#[test]
fn a_card_titles_each_section_in_capitals() {
    let detail = Detail {
        snapshot: clean(),
        commits: vec![Commit { short_id: "abc1234".into(), subject: "do a thing".into(), age: "3h".into() }],
        ..Detail::default()
    };
    let text = paint_blocks(&build_card_in(&repo("api", &["core"]), &detail, false, None, None), false);
    assert!(text.contains("\n  COMMITS\n"), "{text}");
    assert!(text.contains("  api  /code/api\n  git · core\n"), "{text}");
    assert!(!text.contains("CHANGES"), "{text}");
}

#[test]
fn the_shell_named_wins_over_the_environment() {
    assert_eq!(choose_shell(Some(Shell::Fish), Some(Shell::Zsh)), Ok(Shell::Fish));
    assert_eq!(choose_shell(None, Some(Shell::Zsh)), Ok(Shell::Zsh));
    assert!(choose_shell(None, None).unwrap_err().starts_with("could not tell which shell"));
}

#[test]
fn enabling_and_disabling_report_what_they_did() {
    assert_eq!(
        enable_report(Change::AlreadyEnabled, Shell::Zsh, "~/.zshrc", false),
        "the zsh integration is already in ~/.zshrc\n"
    );
    assert!(enable_report(Change::Added, Shell::Bash, "~/.bashrc", false)
        .starts_with("added the bash integration to ~/.bashrc\n"));
    assert_eq!(
        disable_report(Change::NotEnabled, Shell::Fish, "x", false),
        "the fish integration is not in x\n"
    );
}

#[test]
fn a_cached_reading_comes_back_as_the_rows_it_was() {
    let rows = vec![
        Row { repo: repo("api", &[]), outcome: Ok(clean()) },
        Row { repo: repo("web", &[]), outcome: Err("git blew up".into()) },
    ];
    let cache = StatusCache::new("/cfg/config.toml", cache_rows(&rows)).expect("the clock can be read");
    let repos = vec![repo("api", &[]), repo("web", &[])];
    assert!(cache.matches("/cfg/config.toml", &repos));
    let back = select_cached(&cache, &repos);
    assert_eq!(back[0].outcome.as_ref().unwrap().branch.as_deref(), Some("main"));
    assert_eq!(back[1].outcome.as_ref().unwrap_err(), "git blew up");
}

#[test]
fn freshness_limits_are_read_the_way_the_integration_means_them() {
    assert!(too_old(Some(10), 11));
    assert!(!too_old(Some(10), 10));
    assert!(!too_old(None, 1_000_000));
    assert!(still_fresh(60, Some(5)));
    assert!(!still_fresh(0, Some(5)));
    assert!(!still_fresh(60, None));
}

#[test]
fn the_preview_counts_its_highlights_before_the_table() {
    let rows = vec![Row { repo: repo("api", &[]), outcome: Ok(clean()) }];
    let out = preview(&rows, None, "3s", Some(80), None);
    let mut lines = out.lines();
    let n: usize = lines.next().unwrap().parse().unwrap();
    for _ in 0..n {
        let spec = lines.next().unwrap();
        let parts: Vec<&str> = spec.splitn(3, ' ').collect();
        let (start, end): (usize, usize) = (parts[0].parse().unwrap(), parts[1].parse().unwrap());
        assert!(start < end, "{spec}");
    }
    let table: Vec<&str> = lines.collect();
    assert!(table[0].starts_with("  ALIAS"));
    assert_eq!(table.last().unwrap(), &"  1 repo · all clean · 3s ago");
    assert_eq!(preview(&rows, Some(0), "3s", None, None), "");
    assert_eq!(preview(&vec![], None, "3s", None, None), "");
}

#[test]
fn a_preview_that_does_not_fit_says_how_many_more() {
    let rows = vec![
        Row { repo: repo("api", &[]), outcome: Ok(clean()) },
        Row { repo: repo("web", &[]), outcome: Ok(clean()) },
    ];
    let out = preview(&rows, Some(1), "1m", None, None);
    assert!(out.ends_with("  2 repos · all clean · 1 more · 1m ago\n"), "{out}");
}

#[test]
fn the_picker_gets_bare_rows_with_the_alias_first() {
    let rows = vec![Row { repo: repo("api", &[]), outcome: Ok(clean()) }];
    let out = picker_rows(&rows, false, None, None);
    assert_eq!(out.lines().count(), 1);
    assert!(out.starts_with("api    main"), "{out}");
}

#[test]
fn a_cached_dashboard_says_how_old_it_is() {
    let rows = vec![Row { repo: repo("api", &[]), outcome: Ok(clean()) }];
    let live = dashboard_in(&rows, false, None, None);
    let cached = cached_dashboard(&rows, "5m", false, None, None);
    assert!(live.ends_with("  1 repo · all clean\n"), "{live}");
    assert!(cached.ends_with("  1 repo · all clean · 5m ago\n"), "{cached}");
}

#[test]
fn an_error_report_dims_its_hints_and_causes() {
    let text = report("boom\nhint: try again", &vec!["disk full".to_string()], false);
    assert_eq!(text, "error: boom\n       hint: try again\n       caused by: disk full\n");
    assert_eq!(report("", &vec![], false), "error: something went wrong\n");
}

#[test]
fn help_and_version_are_answered_before_any_alias() {
    assert_eq!(bare_word("version"), Some(BareWord::Version));
    assert_eq!(bare_word("help"), Some(BareWord::Help));
    assert_eq!(bare_word("docs"), None);
    assert!(not_a_command_message("nope").starts_with("`nope` is not a grit command\n"));
}

#[test]
fn a_value_that_is_not_a_number_is_quoted_in_the_complaint() {
    let w = Wire::Str("lo\"ts".to_string());
    assert_eq!(w.as_i64().unwrap_err(), "expected a number, got \"lo\\\"ts\"");
    assert_eq!(Wire::Str(" 42 ".to_string()).as_i64(), Ok(42));
    assert_eq!(Wire::Bool(true).as_i64(), Ok(1));
}

#[test]
fn a_width_from_the_environment_wins_and_nonsense_is_ignored() {
    assert_eq!(terminal_width(Some("100"), Some("80")), Some(100));
    assert_eq!(terminal_width(Some("0"), Some(" 80 ")), Some(80));
    assert_eq!(env_width(Some("wide")), None);
}

#[test]
fn a_state_is_labelled_in_words() {
    assert_eq!(RepoState::CherryPicking.label(), Some("cherry-picking"));
    assert_eq!(RepoState::Normal.label(), None);
}
