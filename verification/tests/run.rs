use grit::commands::run::{exit_code, needs_command_message, plan, FanOut, Refusal};
use grit::error::Error;
use grit::registry::model::{RepoEntry, VcsKind};
use grit::registry::Registry;

fn registry_with(aliases: &[(&str, &[&str])]) -> Registry {
    let mut registry = Registry::empty_at("/tmp/grit-test.toml");
    for (alias, tags) in aliases {
        registry.insert(
            (*alias).to_string(),
            RepoEntry {
                path: format!("/code/{alias}"),
                kind: VcsKind::Git,
                tags: tags.iter().map(|s| s.to_string()).collect(),
                added_at: None,
            },
        );
    }
    registry
}

fn argv(parts: &[&str]) -> Vec<String> {
    parts.iter().map(|p| p.to_string()).collect()
}

fn refusal_text(r: Refusal) -> String {
    match r {
        Refusal::NothingToRun => "nothing to run".to_string(),
        Refusal::Target(e) => e.message(),
        Refusal::NeedsCommand(m) => m,
    }
}

#[test]
fn an_unknown_alias_is_rejected_before_anything_runs() {
    let registry = registry_with(&[("docs", &[])]);
    let Err(err) = plan(&registry, &argv(&["nope", "status"])) else {
        panic!("an unknown alias was planned");
    };
    assert!(refusal_text(err).contains("no repo registered under alias"));
}

#[test]
fn an_unknown_group_is_rejected_before_anything_runs() {
    let registry = registry_with(&[("docs", &["release"])]);
    let Err(err) = plan(&registry, &argv(&["@nope", "fetch"])) else {
        panic!("an unknown group was planned");
    };
    assert!(refusal_text(err).contains("no repos tagged"));
}

#[test]
fn a_target_with_no_command_explains_what_to_type() {
    let registry = registry_with(&[("docs", &[])]);
    let Err(err) = plan(&registry, &argv(&["docs"])) else {
        panic!("a bare target was planned");
    };
    let msg = refusal_text(err);
    assert!(msg.contains("needs a command to run"), "{msg}");
    assert!(msg.contains("grit status docs"), "{msg}");
}

#[test]
fn a_group_with_no_command_suggests_the_untagged_form() {
    let registry = registry_with(&[("docs", &["release"])]);
    let Err(err) = plan(&registry, &argv(&["@release"])) else {
        panic!("a bare group was planned");
    };
    assert!(refusal_text(err).contains("grit status release"));
}

#[test]
fn a_normal_exit_code_passes_straight_through() {
    assert_eq!(exit_code(Some(0), None), 0);
    assert_eq!(exit_code(Some(1), None), 1);
}

#[test]
fn a_process_killed_by_a_signal_exits_as_the_shell_would_say() {
    assert_eq!(exit_code(None, Some(9)), 137);
    assert_eq!(exit_code(None, None), 1);
}

#[test]
fn nothing_at_all_is_nothing_to_run() {
    let registry = registry_with(&[("docs", &[])]);
    assert!(matches!(plan(&registry, &vec![]), Err(Refusal::NothingToRun)));
}

#[test]
fn an_unknown_target_is_reported_before_a_missing_command() {
    let registry = registry_with(&[("docs", &[])]);
    assert!(matches!(
        plan(&registry, &argv(&["nope"])),
        Err(Refusal::Target(Error::UnknownAlias(a))) if a == "nope"
    ));
}

#[test]
fn a_group_plans_every_member_in_alias_order() {
    let registry = registry_with(&[("web", &["release"]), ("api", &["release"]), ("solo", &[])]);
    let repos = plan(&registry, &argv(&["@release", "fetch"])).ok().unwrap();
    let aliases: Vec<_> = repos.into_iter().map(|r| r.alias).collect();
    assert_eq!(aliases, ["api", "web"]);
}

#[test]
fn the_explanation_strips_every_leading_sigil() {
    assert_eq!(
        needs_command_message("@@x"),
        "`grit @@x` needs a command to run, e.g. `grit @@x status`\nfor grit's own view of the repo, use `grit status x`"
    );
}

#[test]
fn a_fan_out_stops_at_the_first_failure_unless_told_to_keep_going() {
    let mut f = FanOut::new(3);
    assert_eq!(f.record("api", 0, false, false), None);
    let note = f.record("docs", 2, false, false).unwrap();
    assert_eq!(note, "\n  stopped at `docs` (exit 2); 1 left. pass -k to keep going\n");
    assert_eq!(f.exit_code(), 2);
}

#[test]
fn keeping_going_tallies_every_failure_and_keeps_the_first_code() {
    let mut f = FanOut::new(3);
    assert_eq!(f.record("api", 3, true, false), None);
    assert_eq!(f.record("docs", 0, true, false), None);
    assert_eq!(f.record("web", -1, true, false), None);
    assert_eq!(f.exit_code(), 3);
    assert_eq!(f.summary(false), "\n  3 repos · failed: api, web\n");
}

#[test]
fn a_clean_fan_out_says_all_ok() {
    let mut f = FanOut::new(2);
    f.record("api", 0, false, false);
    f.record("docs", 0, false, false);
    assert_eq!(f.exit_code(), 0);
    assert_eq!(f.summary(false), "\n  2 repos · all ok\n");
}

#[test]
fn a_negative_exit_code_is_spelled_with_its_sign() {
    let mut f = FanOut::new(1);
    let note = f.record("api", -3, false, false).unwrap();
    assert!(note.contains("(exit -3); 0 left."), "{note}");
}
