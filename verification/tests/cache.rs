use grit::cache::{CachedRow, StatusCache};
use grit::registry::model::{Repo, RepoEntry, VcsKind};
use grit::vcs::Snapshot;

fn repo(alias: &str) -> Repo {
    Repo {
        alias: alias.to_string(),
        entry: RepoEntry {
            path: format!("/code/{alias}"),
            kind: VcsKind::Git,
            tags: vec![],
            added_at: None,
        },
    }
}

fn row(alias: &str) -> CachedRow {
    CachedRow {
        alias: alias.to_string(),
        path: format!("/code/{alias}"),
        kind: VcsKind::Git,
        tags: vec![],
        snapshot: Some(Snapshot {
            branch: Some("main".into()),
            ..Snapshot::default()
        }),
        error: None,
    }
}

fn cache(aliases: &[&str]) -> StatusCache {
    StatusCache::new(
        "/cfg/config.toml",
        aliases.iter().copied().map(row).collect(),
    )
    .expect("the clock can be read")
}

#[test]
fn a_cache_matches_the_registry_it_was_taken_from() {
    let config = "/cfg/config.toml";
    assert!(cache(&["api", "docs"]).matches(config, &vec![repo("api"), repo("docs")]));
}

#[test]
fn a_registered_or_removed_repo_invalidates_the_cache() {
    let config = "/cfg/config.toml";
    let cache = cache(&["api", "docs"]);

    assert!(!cache.matches(config, &vec![repo("api")]));
    assert!(!cache.matches(config, &vec![repo("api"), repo("docs"), repo("web")]));
    assert!(!cache.matches(config, &vec![repo("api"), repo("dokks")]));
}

#[test]
fn a_moved_repo_invalidates_the_cache() {
    let config = "/cfg/config.toml";
    let mut moved = repo("api");
    moved.entry.path = "/elsewhere/api".to_string();

    assert!(!cache(&["api"]).matches(config, &vec![moved]));
}

#[test]
fn a_cache_from_another_registry_is_never_used() {
    // Two registries share one cache file unless GRIT_CACHE says otherwise,
    // so the file has to know which one it came from.
    assert!(!cache(&["api"]).matches("/other/config.toml", &vec![repo("api")]));
}

#[test]
fn a_fresh_cache_reports_a_fresh_age() {
    assert_eq!(cache(&[]).age().as_deref(), Some("0s"));
}

#[test]
fn a_cache_of_another_version_is_no_cache() {
    let mut old = cache(&["api"]);
    old.version = 99;
    assert!(old.checked().is_none());
    assert!(cache(&["api"]).checked().is_some());
}

#[test]
fn age_is_measured_against_the_given_clock_and_clamped() {
    let mut c = cache(&[]);
    c.captured_at = 1_000;
    assert_eq!(c.age_seconds_at(1_090), 90);
    assert_eq!(c.age_seconds_at(900), -100);
    c.captured_at = i64::MIN;
    assert_eq!(c.age_seconds_at(i64::MAX), i64::MAX);
}
