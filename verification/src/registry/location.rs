//! Where the registry lives on disk.
//!
//! Resolution order: `$GRIT_CONFIG`, a full path to the file; otherwise
//! `grit/config.toml` under the platform's configuration directory, which
//! on every platform is the XDG-style `~/.config` unless `XDG_CONFIG_HOME`
//! moves it.
use etcetera::BaseStrategy;
use vstd::prelude::*;

use crate::error::Error;
use crate::shell::{joined_path, join_path};
use crate::text::{
    chars_of, has_prefix, owned, push_str, slice, starts_with, string_of, trim_end_in, trim_end_matches,
    trim_start_in, trim_start_matches,
};

verus! {

/// `etcetera::home_dir`: the user's home directory, or why there is none. It
/// depends on the environment, so nothing is stated of it.
#[verifier::external_body]
pub(crate) fn home_dir() -> (res: Result<String, String>) {
    match etcetera::home_dir() {
        Ok(p) => Ok(p.to_string_lossy().into_owned()),
        Err(e) => Err(e.to_string()),
    }
}

/// `etcetera::choose_base_strategy` and its `config_dir`: the directory
/// configuration belongs in, or why there is none. It depends on the
/// environment, so nothing is stated of it.
#[verifier::external_body]
fn base_config_dir() -> (res: Result<String, String>) {
    match etcetera::choose_base_strategy() {
        Ok(s) => Ok(s.config_dir().to_string_lossy().into_owned()),
        Err(e) => Err(e.to_string()),
    }
}

/// `etcetera::choose_base_strategy` and its `cache_dir`: the directory
/// caches belong in, or why there is none. It depends on the environment,
/// so nothing is stated of it.
#[verifier::external_body]
fn base_cache_dir() -> (res: Result<String, String>) {
    match etcetera::choose_base_strategy() {
        Ok(s) => Ok(s.cache_dir().to_string_lossy().into_owned()),
        Err(e) => Err(e.to_string()),
    }
}

/// The error for an environment with no home directory.
pub open spec fn no_home_message(why: Seq<char>) -> Seq<char> {
    "no home directory found ("@ + why + ")"@
}

/// The error for an environment with no home directory.
fn no_home(why: String) -> (res: Error)
    ensures
        res matches Error::NoConfigHome(m) && m@ == no_home_message(why@),
{
    let mut s = owned("no home directory found (");
    push_str(&mut s, why.as_str());
    push_str(&mut s, ")");
    Error::NoConfigHome(s)
}

/// A path named by an environment variable, when it is set and not empty.
pub open spec fn env_path(value: Option<Seq<char>>) -> Option<Seq<char>> {
    match value {
        Some(v) => if v.len() > 0 {
            Some(v)
        } else {
            None
        },
        None => None,
    }
}

/// The view of an optional text.
pub open spec fn opt_str(o: Option<&str>) -> Option<Seq<char>> {
    match o {
        Some(s) => Some(s@),
        None => None,
    }
}

/// A file `grit/<name>` under a base directory.
pub open spec fn grit_file(base: Seq<char>, name: Seq<char>) -> Seq<char> {
    joined_path(joined_path(base, "grit"@), name)
}

/// The file under `dir`, or the error when the directory could not be found.
fn under(dir: Result<String, String>, name: &str) -> (res: Result<String, Error>)
    ensures
        match dir {
            Ok(d) => res matches Ok(p) && p@ == grit_file(d@, name@),
            Err(why) => res matches Err(Error::NoConfigHome(m)) && m@ == no_home_message(why@),
        },
{
    match dir {
        Ok(d) => {
            let g = join_path(d.as_str(), "grit");
            Ok(join_path(g.as_str(), name))
        },
        Err(why) => Err(no_home(why)),
    }
}

/// The registry file: `$GRIT_CONFIG` when it is set and not empty (its value
/// is `config_env`), otherwise `grit/config.toml` in the configuration
/// directory.
pub fn config_path(config_env: Option<&str>) -> (res: Result<String, Error>)
    ensures
        match env_path(opt_str(config_env)) {
            Some(p) => res matches Ok(q) && q@ == p,
            None => match res {
                Ok(q) => exists|d: Seq<char>| q@ == grit_file(d, "config.toml"@),
                Err(Error::NoConfigHome(_)) => true,
                Err(_) => false,
            },
        },
{
    match config_env {
        Some(v) if !v.is_empty() => Ok(owned(v)),
        _ => under(base_config_dir(), "config.toml"),
    }
}

/// The status cache: `$GRIT_CACHE` when it is set and not empty (its value
/// is `cache_env`), otherwise `grit/status.json` in the cache directory.
pub fn cache_path(cache_env: Option<&str>) -> (res: Result<String, Error>)
    ensures
        match env_path(opt_str(cache_env)) {
            Some(p) => res matches Ok(q) && q@ == p,
            None => match res {
                Ok(q) => exists|d: Seq<char>| q@ == grit_file(d, "status.json"@),
                Err(Error::NoConfigHome(_)) => true,
                Err(_) => false,
            },
        },
{
    match cache_env {
        Some(v) if !v.is_empty() => Ok(owned(v)),
        _ => under(base_cache_dir(), "status.json"),
    }
}

/// The home directory without its trailing separators: `/home/u/` and
/// `/home/u` name the same directory, and `/` has no components left.
pub open spec fn home_stem(home: Seq<char>) -> Seq<char> {
    trim_end_in(home, seq!['/'])
}

/// `path` lies in the directory `stem` names, compared component by
/// component: either the root (`stem` empty), which holds every absolute
/// path, or the path goes on from `stem` with a separator or not at all.
pub open spec fn lies_under(path: Seq<char>, stem: Seq<char>) -> bool {
    let rest = path.skip(stem.len() as int);
    &&& has_prefix(path, stem)
    &&& if stem.len() == 0 {
        rest.len() > 0 && rest[0] == '/'
    } else {
        rest.len() == 0 || rest[0] == '/'
    }
}

/// What is left of `path` below the home directory, without the
/// separators around it.
pub open spec fn below_home(path: Seq<char>, stem: Seq<char>) -> Seq<char> {
    trim_start_in(trim_end_in(path.skip(stem.len() as int), seq!['/']), seq!['/'])
}

/// A path with the home directory collapsed to `~`, for display only, the
/// way `Path::strip_prefix` matches: by whole components, so a trailing
/// separator on either side does not matter. The home directory itself is
/// `~`, a path under it is `~/` and the rest, and anything else is left as
/// it is.
pub open spec fn abbreviated(path: Seq<char>, home: Option<Seq<char>>) -> Seq<char> {
    match home {
        Some(h) if h.len() > 0 => if lies_under(path, home_stem(h)) {
            let rest = below_home(path, home_stem(h));
            if rest.len() == 0 {
                "~"@
            } else {
                "~/"@ + rest
            }
        } else {
            path
        },
        _ => path,
    }
}

/// Collapse `home` to `~` at the front of `path`.
pub fn abbreviate(path: &str, home: Option<&str>) -> (res: String)
    ensures
        res@ == abbreviated(path@, opt_str(home)),
{
    match home {
        Some(h) if !h.is_empty() => {
            let p = chars_of(path);
            let slash = vec!['/'];
            assert(slash@ =~= seq!['/']);
            let stem = trim_end_matches(&chars_of(h), &slash);
            let n = stem.len();
            if !starts_with(&p, &stem) {
                return owned(path);
            }
            let under = if n == 0 {
                p.len() > 0 && p[0] == '/'
            } else {
                p.len() == n || p[n] == '/'
            };
            if !under {
                return owned(path);
            }
            let rest0 = slice(&p, n, p.len());
            assert(rest0@ =~= path@.skip(n as int));
            let rest = trim_start_matches(&trim_end_matches(&rest0, &slash), &slash);
            if rest.len() == 0 {
                owned("~")
            } else {
                let mut out = owned("~/");
                push_str(&mut out, string_of(&rest).as_str());
                out
            }
        },
        _ => owned(path),
    }
}

/// The user's home directory, if there is one to collapse paths against.
pub fn home() -> (res: Option<String>) {
    match home_dir() {
        Ok(h) => Some(h),
        Err(_) => None,
    }
}

/// Render a path with the user's home directory collapsed to `~`.
pub fn abbreviate_home(path: &str) -> (res: String)
    ensures
        res@ == abbreviated(path@, None) || exists|h: Seq<char>| res@ == abbreviated(path@, Some(h)),
{
    match home_dir() {
        Ok(h) => abbreviate(path, Some(h.as_str())),
        Err(_) => owned(path),
    }
}

} // verus!
