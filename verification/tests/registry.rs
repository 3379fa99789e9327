use grit::error::Error;
use grit::registry::model::{RegistryFile, Repo, RepoEntry, VcsKind};
use grit::registry::{validate_alias, Registry};

fn entry(path: &str, tags: &[&str]) -> RepoEntry {
    RepoEntry {
        path: path.to_string(),
        kind: VcsKind::Git,
        tags: tags.iter().map(|s| s.to_string()).collect(),
        added_at: None,
    }
}

fn fixture() -> Registry {
    let mut r = Registry::empty_at("/tmp/does-not-matter.toml");
    r.insert("docs".into(), entry("/code/docs", &["release"]));
    r.insert("api".into(), entry("/code/api", &["release", "core"]));
    r.insert("solo".into(), entry("/code/solo", &[]));
    r
}

#[test]
fn all_is_alphabetical_regardless_of_insertion_order() {
    let aliases: Vec<_> = fixture().all().into_iter().map(|r| r.alias).collect();
    assert_eq!(aliases, ["api", "docs", "solo"]);
}

#[test]
fn get_reports_the_alias_it_could_not_find() {
    let err = fixture().get("nope").unwrap_err();
    assert!(matches!(err, Error::UnknownAlias(a) if a == "nope"));
}

#[test]
fn by_tag_matches_every_repo_carrying_it() {
    let aliases: Vec<_> = fixture()
        .by_tag("release")
        .unwrap()
        .into_iter()
        .map(|r| r.alias)
        .collect();
    assert_eq!(aliases, ["api", "docs"]);
}

#[test]
fn an_unknown_tag_is_an_error_not_an_empty_list() {
    let err = fixture().by_tag("nope").unwrap_err();
    assert!(matches!(err, Error::UnknownTag { .. }));
    // The tags that do exist are named in the error, so the reader does not
    // have to go and run `grit show` to find the one they meant.
    let msg = err.message();
    assert!(msg.starts_with("no repos tagged `nope`"), "{msg}");
    assert!(msg.contains("tags in use: core, release"), "{msg}");
}

#[test]
fn an_unknown_tag_with_no_tags_at_all_says_how_to_make_one() {
    let mut registry = Registry::empty_at("/tmp/grit-test.toml");
    registry.insert("docs".to_string(), entry("/code/docs", &[]));
    let msg = registry.by_tag("nope").unwrap_err().message();
    assert!(msg.contains("no tags are in use"), "{msg}");
}

#[test]
fn resolve_target_distinguishes_aliases_from_groups() {
    let reg = fixture();
    assert_eq!(reg.resolve_target("docs").unwrap().len(), 1);
    assert_eq!(reg.resolve_target("@release").unwrap().len(), 2);
}

#[test]
fn select_with_no_filters_returns_everything() {
    assert_eq!(fixture().select(&vec![], None).unwrap().len(), 3);
}

#[test]
fn select_combines_alias_and_tag_filters() {
    let reg = fixture();
    let picked = reg
        .select(&vec!["api".into(), "solo".into()], Some("release"))
        .unwrap();
    let aliases: Vec<_> = picked.into_iter().map(|r| r.alias).collect();
    assert_eq!(aliases, ["api"]);
}

#[test]
fn tags_are_deduplicated_and_sorted() {
    assert_eq!(fixture().tags(), ["core", "release"]);
}

#[test]
fn check_available_refuses_a_taken_alias_unless_forced() {
    let reg = fixture();
    assert!(reg.check_available("docs", false).is_err());
    assert!(reg.check_available("docs", true).is_ok());
    assert!(reg.check_available("fresh", false).is_ok());
}

#[test]
fn valid_aliases_are_accepted() {
    for alias in ["docs", "api", "a_b", "v1.2", "x9"] {
        assert!(validate_alias(alias).is_ok(), "{alias} should be valid");
    }
}

#[test]
fn invalid_aliases_are_rejected_with_a_reason() {
    assert!(matches!(
        validate_alias("status").unwrap_err(),
        Error::ReservedAlias(_)
    ));
    for alias in ["", "@release", "-r", "has space", "sla/sh"] {
        assert!(
            validate_alias(alias).is_err(),
            "{alias:?} should be rejected"
        );
    }
}

#[test]
fn a_config_from_the_future_is_refused() {
    // What `version = 999` in the file reads as, handed to the library.
    let file = RegistryFile { version: 999, repos: vec![] };
    assert!(matches!(
        Registry::from_file("/tmp/config.toml", file).unwrap_err(),
        Error::ConfigVersion { found: 999, .. }
    ));
}

#[test]
fn a_registry_written_out_reads_back_as_it_was() {
    let saved = fixture();
    let reloaded = Registry::from_file("/tmp/does-not-matter.toml", saved.file()).unwrap();
    let before: Vec<_> = saved.all().into_iter().map(|r| (r.alias, r.entry.path, r.entry.tags)).collect();
    let after: Vec<_> = reloaded.all().into_iter().map(|r| (r.alias, r.entry.path, r.entry.tags)).collect();
    assert_eq!(before, after);
}

#[test]
fn entries_read_out_of_order_are_listed_in_order() {
    let file = RegistryFile {
        version: 1,
        repos: vec![
            Repo { alias: "web".into(), entry: entry("/code/web", &[]) },
            Repo { alias: "api".into(), entry: entry("/code/api", &[]) },
        ],
    };
    let r = Registry::from_file("/tmp/x.toml", file).unwrap();
    let aliases: Vec<_> = r.all().into_iter().map(|x| x.alias).collect();
    assert_eq!(aliases, ["api", "web"]);
}

/// Every subcommand, and every alias of one, must be unavailable as a repo
/// alias, or registering it would shadow the command.
#[test]
fn every_subcommand_is_reserved() {
    for name in ["register", "add", "remove", "rm", "show", "status", "detail", "shell", "help", "version"] {
        assert!(
            matches!(validate_alias(name), Err(Error::ReservedAlias(a)) if a == name),
            "subcommand `{name}` can be registered as an alias"
        );
    }
}
