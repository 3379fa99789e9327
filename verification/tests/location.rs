use etcetera::BaseStrategy;
use grit::registry::location::{abbreviate, abbreviate_home, cache_path, config_path};

#[test]
fn abbreviate_leaves_unrelated_paths_alone() {
    let p = "/opt/homebrew/bin/git";
    assert_eq!(abbreviate_home(p), "/opt/homebrew/bin/git");
}

#[test]
fn abbreviate_collapses_the_home_prefix() {
    let Ok(strategy) = etcetera::choose_base_strategy() else {
        return; // no home dir in this environment; nothing to assert
    };
    let p = strategy.home_dir().join("Work").join("repo");
    assert_eq!(abbreviate_home(p.to_str().unwrap()), "~/Work/repo");
}

#[test]
fn only_a_whole_leading_directory_is_collapsed() {
    assert_eq!(abbreviate("/home/me", Some("/home/me")), "~");
    assert_eq!(abbreviate("/home/me/src", Some("/home/me")), "~/src");
    assert_eq!(abbreviate("/home/mein/src", Some("/home/me")), "/home/mein/src");
    assert_eq!(abbreviate("/home/me/src", Some("")), "/home/me/src");
    assert_eq!(abbreviate("/home/me/src", None), "/home/me/src");
}

#[test]
fn the_config_environment_variable_wins_over_the_default() {
    assert_eq!(config_path(Some("/tmp/x.toml")).unwrap(), "/tmp/x.toml");
}

#[test]
fn without_an_override_the_files_live_in_the_platform_directories() {
    let Ok(strategy) = etcetera::choose_base_strategy() else {
        return; // no home dir in this environment; nothing to assert
    };
    let config = config_path(None).unwrap();
    assert_eq!(config, strategy.config_dir().join("grit").join("config.toml").to_str().unwrap());
    let cache = cache_path(Some("")).unwrap();
    assert_eq!(cache, strategy.cache_dir().join("grit").join("status.json").to_str().unwrap());
}

#[test]
fn the_home_prefix_is_matched_by_whole_components() {
    // `Path::strip_prefix` compares components, so a trailing separator on
    // the home directory or on the path does not matter.
    assert_eq!(abbreviate("/home/u/code", Some("/home/u/")), "~/code");
    assert_eq!(abbreviate("/home/u", Some("/home/u/")), "~");
    assert_eq!(abbreviate("/home/u/", Some("/home/u")), "~");
    assert_eq!(abbreviate("/home/u/code/", Some("/home/u")), "~/code");
    assert_eq!(abbreviate("/home/user2/code", Some("/home/u/")), "/home/user2/code");
    // The root holds every absolute path.
    assert_eq!(abbreviate("/code", Some("/")), "~/code");
    assert_eq!(abbreviate("/", Some("/")), "~");
    assert_eq!(abbreviate("code", Some("/")), "code");
}
