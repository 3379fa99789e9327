//! The command-line grammar's data: what each command was asked, and the
//! help text shown under each command's generated help.
//!
//! The grammar itself is declared where the arguments are parsed; these are
//! the plain values a parsed command line comes to.
use vstd::prelude::*;

use crate::render::theme::ColorChoice;
use crate::shell::Shell;
use crate::text::same_text;

verus! {

/// Shown under the generated help.
///
/// The passthrough forms live here because clap cannot list an external
/// subcommand under `Commands:`, and they are the point of the tool.
pub const AFTER_HELP: &'static str = "\
Running git or dolt in a repo:
  grit <alias> <args...>   run the repo's own VCS there, from anywhere
  grit @<tag> <args...>    run it in every repo carrying that tag

Examples:
  grit -r docs ~/code/docs --tag release   register a repo under an alias
  grit status                              dashboard for every repo
  grit status --tag release                just the release group
  grit show                                aliases, paths and tags
  grit detail docs                         one repo in depth
  grit docs commit -am \"changelog\"         run git in the docs repo
  grit @release fetch                      fetch every repo tagged release
  grit -k @release fetch                   keep going when one of them fails
  grit help status                         same as `grit status --help`

Seeing the dashboard without asking for it:
  grit shell enable                        add the integration to your rc file
  eval \"$(grit shell init zsh)\"            or write that line yourself

Environment:
  GRIT_CONFIG        the registry file  (default ~/.config/grit/config.toml)
  GRIT_CACHE         the last reading   (default ~/.cache/grit/status.json)
  XDG_CONFIG_HOME    moves both of those defaults, as does XDG_CACHE_HOME
  NO_COLOR           set to anything non-empty to drop colour; see --color
  COLUMNS            table width to assume when stdout is not a terminal

Every command carries its own examples:
  grit register --help   grit status --help   grit shell enable --help
";

/// Shown under `grit shell enable --help`.
pub const ENABLE_HELP: &'static str = "\
Examples:
  grit shell enable                  the startup file for the shell $SHELL names
  grit shell enable zsh              ~/.zshrc, or $ZDOTDIR/.zshrc if that is set
  grit shell enable bash             ~/.bashrc
  grit shell enable fish             ~/.config/fish/config.fish
  grit shell enable --file ~/.zshrc.local     somewhere of your choosing

It appends one marked block, and tells you which file it touched:

  # >>> grit shell integration >>>
  eval \"$(grit shell init zsh)\"
  # <<< grit shell integration <<<

Running it twice is harmless — an existing block is left as it is rather than
added a second time. `grit shell disable` takes back exactly that block.
";

/// Shown under `grit shell disable --help`.
pub const DISABLE_HELP: &'static str = "\
Examples:
  grit shell disable                 the startup file for the shell $SHELL names
  grit shell disable zsh             name the shell yourself
  grit shell disable --file ~/.zshrc.local     the file `enable --file` wrote

Only the marked block that `enable` wrote is removed, matched by its markers.
An `eval \"$(grit shell init …)\"` line you added by hand is reported and left
alone: guessing where somebody's own line ends is how a tool eats a config.
";

/// Shown under `grit shell init --help`.
pub const INIT_HELP: &'static str = "\
Examples:
  grit shell init zsh                print the zsh integration
  eval \"$(grit shell init zsh)\"      what a startup file should contain
  grit shell init zsh > ~/.grit.zsh  keep a copy and source that instead

  grit shell init bash               ^G, since bash runs no hook while idle
  grit shell init fish               ^G, for the same reason

This only prints. It writes nothing and changes nothing; `grit shell enable`
is the one that edits a file.
";

/// Shown under `grit register --help`.
pub const REGISTER_HELP: &'static str = "\
Examples:
  grit -r api ~/code/api                    register that path as `api`
  grit -r api                               register the current directory
  grit -r api ~/code/api/src                any directory inside it will do
  grit -r api ~/code/api -t release,backend two tags at once
  grit -r api ~/code/api -t release -t web  the same, spelled out
  grit -r api ~/moved/api --force           point an existing alias elsewhere
  grit register api ~/code/api              the long form; `grit add` also works

grit stores the repository *root*, whichever directory inside it you name, and
works out whether that root is a git or a dolt repository by looking — you
never say which. A dolt database inside a git working tree registers as the
database. It has to be a directory: the path is where grit runs the detection,
so naming a file in the repo is an error rather than a shorthand for its
parent.
";

/// Shown under `grit remove --help`.
pub const REMOVE_HELP: &'static str = "\
Examples:
  grit rm api                  forget one alias
  grit rm api docs webapp      forget several at once
  grit remove api              the long form

Only grit's registry entry goes. The repository on disk is left alone.
";

/// Shown under `grit show --help`.
pub const SHOW_HELP: &'static str = "\
Examples:
  grit show                    every registered repo: alias, kind, tags, path
  grit show --tag release      just the repos tagged `release`
  grit show --json             the same, machine-readable

Reading the JSON in a script. It is an object — `repos`, plus the `config`
file the answer came from — where `grit status --json` is a bare array:
  grit show --json | jq -r '.repos[].path'
  grit show --json | jq -r '.repos[] | select(.kind == \"dolt\") | .alias'
  cd \"$(grit show --json | jq -r '.repos[] | select(.alias == \"api\") | .path')\"
";

/// Shown under `grit detail --help`.
pub const DETAIL_HELP: &'static str = "\
Examples:
  grit detail api              everything grit knows about one repo
  grit detail api --json       the same, machine-readable

What it shows, in sections, and each one only when it has something in it:
  the header      branch, upstream, sync and working-tree state
  CHANGES         one row per changed path, with a two-column code
                  left = staged, right = unstaged; `?` untracked, `U` conflicted
  COMMITS         the last few, most recent first
  BRANCHES        each branch against its upstream; `*` marks the current one
                  a blank sync column means nothing was compared — no upstream,
                  or one that has been deleted — which is not the same as `✓`
  STASHES         the stash stack, newest first

Unlike `grit status`, this runs the backend every time — there is no cache
behind it, because it is one repo and it is asked for by name.

  grit detail api --json | jq -r '.files[].path'
  grit detail api --json | jq -r '.branches[] | select(.distance.behind > 0) | .name'
";

/// Shown under `grit status --help`.
pub const STATUS_HELP: &'static str = "\
Examples:
  grit status                  every registered repo
  grit status api docs         just these two
  grit status --tag release    just the repos tagged `release`
  grit status --json           the full snapshot, machine-readable
  grit status --cached         the last reading, in milliseconds

Reading the table:
  SYNC    ✓ in sync · ↑n ahead · ↓n behind · · no upstream to compare against
  STATE   !n conflicts · ●n staged · ○n unstaged · ?n untracked · ⚑n stashes
          `clean` when there is nothing to report, and `missing` when the
          registered path is gone. An in-progress merge, rebase, cherry-pick,
          revert or bisect is named here instead.

--cached runs no git and no dolt at all, which is what makes it cheap enough
for a shell prompt or a tmux status line. It prints nothing and exits non-zero
when there is no reading yet, so a script can tell that apart from an empty
registry:

  grit status --cached || grit status     show the cache, or go and take one

Only an unfiltered run refills that cache. A run narrowed by alias or by --tag
leaves it untouched, so a partial reading can never pass itself off as the
whole dashboard — which would read as `clean` rather than as `not looked at`.
";

/// Shown under `grit shell --help`.
pub const SHELL_HELP: &'static str = "\
Examples:
  grit shell enable                     add it to the startup file for $SHELL
  grit shell enable zsh                 name the shell yourself
  grit shell enable --file ~/.zshrc     write to a particular file
  grit shell disable                    take back exactly the block it wrote
  grit shell init zsh                   print the integration, to eval yourself

grit edits a startup file when you ask it to and at no other time — installing
grit changes nothing on its own. `disable` removes only the marked block that
`enable` wrote; a line you added yourself is reported rather than edited.

zsh draws the table after a pause. bash and fish bind a key instead, because
neither runs a hook while you sit at the prompt.

Keys, in all three shells:
  ^G^G    the repo picker: every repo, with `grit detail` beside it. Needs fzf.
  ^G^P    the inline dashboard, on demand

Both are chords, and nothing is bound to ^G on its own. A line editor resolves
an ambiguous prefix by waiting for the next key — 404ms in zsh, 504ms in
readline — and charges it to the shorter binding, so anything left on a bare ^G
pauses before it fires, every press. The letters also stay clear of
fzf-git.sh's ^G^{f,b,t,r,h,s,l,e,w}, which is common and claims ^G too.

GRIT_PREVIEW_KEY='^G' still works if you want the old single key. It will just
pause. grit binds what you ask for and does not rearrange it.

Inside the picker:
  enter   put `grit <alias> ` on the command line, for you to finish
  ctrl-d  cd to the repo
  ctrl-r  take a fresh reading

Tuning, set *before* the eval:
  GRIT_PREVIEW_TRIGGERS=( grit gs )     buffers that summon it   (grit)
  GRIT_PREVIEW_DELAY=0.2                seconds of stillness     (0.5)
  GRIT_PREVIEW_KEY='^T'                 draw it on demand      (^G^P)
  GRIT_PREVIEW_IDLE=0                   the key only, no timer
  GRIT_PICKER_KEY='^T^R'                open the picker        (^G^G)
  GRIT_PICKER_HEIGHT=100%               how much screen it takes (80%)
  GRIT_PICKER_PREVIEW=down,60%          where the detail pane goes

Before, because the keys are bound as the script is sourced — set them
afterwards and the binding is already made. The rest are read as you type, so
they do take effect later; setting everything up front is the rule that holds.
";

/// `grit register <alias> [path]`.
#[derive(Debug, Clone, PartialEq, Eq)]
pub struct RegisterArgs {
    /// Short name to refer to the repo by.
    pub alias: String,
    /// Path to the repo. Any directory inside it works; grit stores the root.
    pub path: String,
    /// Group labels.
    pub tags: Vec<String>,
    /// Overwrite the alias if it is already registered.
    pub force: bool,
}

/// `grit remove <alias>...`.
#[derive(Debug, Clone, PartialEq, Eq)]
pub struct RemoveArgs {
    /// Aliases to forget.
    pub aliases: Vec<String>,
}

/// `grit show`.
#[derive(Debug, Clone, PartialEq, Eq)]
pub struct ShowArgs {
    /// Only show repos carrying this tag.
    pub tag: Option<String>,
    /// Emit JSON instead of a table.
    pub json: bool,
}

/// `grit status`.
#[derive(Debug, Clone, PartialEq, Eq)]
pub struct StatusArgs {
    /// Only these aliases. Default is every registered repo.
    pub aliases: Vec<String>,
    /// Only repos carrying this tag.
    pub tag: Option<String>,
    /// Emit JSON instead of a table.
    pub json: bool,
    /// Show the last reading instead of taking a new one.
    pub cached: bool,
}

/// `grit detail <alias>`.
#[derive(Debug, Clone, PartialEq, Eq)]
pub struct DetailArgs {
    /// The repo to look at.
    pub alias: String,
    /// Emit JSON instead of the card.
    pub json: bool,
}

/// `grit shell <command>`.
#[derive(Debug, Clone, PartialEq, Eq)]
pub struct ShellArgs {
    pub command: ShellCommand,
}

/// The shell subcommands: `enable`, `disable` and `init` are what anyone
/// types; the rest are the protocol the emitted script speaks back to grit.
#[derive(Debug, Clone, PartialEq, Eq)]
pub enum ShellCommand {
    Enable(ShellSetupArgs),
    Disable(ShellSetupArgs),
    Init(ShellInitArgs),
    Preview(ShellPreviewArgs),
    Refresh(ShellRefreshArgs),
    Rows(ShellRowsArgs),
    Path(ShellPathArgs),
}

/// `grit shell init <shell>`.
#[derive(Debug, Clone, PartialEq, Eq)]
pub struct ShellInitArgs {
    pub shell: Shell,
}

/// `grit shell enable|disable [shell] [--file path]`.
#[derive(Debug, Clone, PartialEq, Eq)]
pub struct ShellSetupArgs {
    /// Which shell. Defaults to the one `$SHELL` names.
    pub shell: Option<Shell>,
    /// Edit this file instead of the shell's usual startup file.
    pub file: Option<String>,
}

/// `grit shell preview`.
#[derive(Debug, Clone, PartialEq, Eq)]
pub struct ShellPreviewArgs {
    /// Show at most this many repos, and say how many were left out.
    pub max_rows: Option<usize>,
    /// Draw nothing if the last reading is older than this many seconds.
    pub max_age: Option<i64>,
}

/// `grit shell path <alias>`.
#[derive(Debug, Clone, PartialEq, Eq)]
pub struct ShellPathArgs {
    /// The repo to locate.
    pub alias: String,
}

/// `grit shell rows`.
#[derive(Debug, Clone, PartialEq, Eq)]
pub struct ShellRowsArgs {
    /// Show the last reading rather than taking a new one.
    pub cached: bool,
}

/// `grit shell refresh`.
#[derive(Debug, Clone, PartialEq, Eq)]
pub struct ShellRefreshArgs {
    /// Do nothing if the cache is younger than this many seconds.
    pub max_age: i64,
}

/// The two spellings of the register shorthand.
pub open spec fn is_shorthand(arg: Seq<char>) -> bool {
    arg == "-r"@ || arg == "--register"@
}

/// How many values the top-level flag `name` takes, if it is one.
pub open spec fn flag_values(flags: Seq<(String, usize)>, name: Seq<char>) -> Option<nat>
    decreases flags.len(),
{
    if flags.len() == 0 {
        None
    } else if flags[0].0@ == name {
        Some(flags[0].1 as nat)
    } else {
        flag_values(flags.drop_first(), name)
    }
}

/// The text before the first `=`, if there is one.
pub open spec fn before_equals(arg: Seq<char>) -> Option<Seq<char>> {
    let k = crate::text::find(arg, "="@);
    if k < 0 {
        None
    } else {
        Some(arg.take(k))
    }
}

/// Where the register shorthand stands among the arguments, scanning from
/// `i`: the scan walks the top-level flags, each with the values it takes
/// (one inline with `=`), and stops at the first word that is none of them,
/// which is the subcommand or the passthrough target. An argument that is not
/// text stops it too.
pub open spec fn shorthand_from(args: Seq<Option<String>>, flags: Seq<(String, usize)>, i: nat) -> Option<nat>
    decreases (if i < args.len() {
        args.len() - i
    } else {
        0
    }),
{
    if i >= args.len() {
        None
    } else {
        match args[i as int] {
            None => None,
            Some(a) => if is_shorthand(a@) {
                Some(i)
            } else {
                match before_equals(a@) {
                    Some(name) if flag_values(flags, name) is Some => shorthand_from(args, flags, i + 1),
                    _ => match flag_values(flags, a@) {
                        Some(v) => shorthand_from(args, flags, i + 1 + v),
                        None => None,
                    },
                }
            },
        }
    }
}

/// How many values a top-level flag takes, if `name` is one.
fn values_of(flags: &Vec<(String, usize)>, name: &str) -> (res: Option<usize>)
    ensures
        match res {
            Some(v) => flag_values(flags@, name@) == Some(v as nat),
            None => flag_values(flags@, name@) is None,
        },
{
    let n = flags.len();
    let mut i: usize = 0;
    assert(flags@.skip(0) =~= flags@);
    while i < n
        invariant
            n == flags@.len(),
            i <= n,
            flag_values(flags@, name@) == flag_values(flags@.skip(i as int), name@),
        decreases n - i,
    {
        assert(flags@.skip(i as int)[0] == flags@[i as int]);
        if same_text(flags[i].0.as_str(), name) {
            return Some(flags[i].1);
        }
        assert(flags@.skip(i as int).drop_first() =~= flags@.skip(i + 1));
        i += 1;
    }
    assert(flags@.skip(n as int) =~= Seq::<(String, usize)>::empty());
    None
}

/// Where `grit -r ...` names the register shorthand, so it can be rewritten
/// to `grit register ...`: `args` is the whole command line, the program's
/// name first, each argument as text when it is text; `flags` is every
/// top-level flag with how many values it takes.
pub fn shorthand_position(args: &Vec<Option<String>>, flags: &Vec<(String, usize)>) -> (res: Option<usize>)
    ensures
        match res {
            Some(i) => shorthand_from(args@, flags@, 1) == Some(i as nat),
            None => shorthand_from(args@, flags@, 1) is None,
        },
{
    let n = args.len();
    let mut i: usize = 1;
    loop
        invariant
            n == args@.len(),
            i >= 1,
            shorthand_from(args@, flags@, 1) == shorthand_from(args@, flags@, i as nat),
        decreases n - i + 1,
    {
        if i >= n {
            return None;
        }
        let arg = match &args[i] {
            Some(a) => a.as_str(),
            None => {
                return None;
            },
        };
        if same_text(arg, "-r") || same_text(arg, "--register") {
            return Some(i);
        }
        let c = crate::text::chars_of(arg);
        let eq = crate::text::chars_of("=");
        let inline_flag = match crate::text::find_in(&c, &eq) {
            Some(k) => {
                proof {
                    crate::text::lemma_find(c@, eq@);
                }
                let name = crate::text::string_of_range(&c, 0, k);
                assert(name@ =~= arg@.take(k as int));
                values_of(flags, name.as_str()).is_some()
            },
            None => false,
        };
        if inline_flag {
            i += 1;
        } else {
            match values_of(flags, arg) {
                Some(v) => {
                    if v >= n - i {
                        assert(shorthand_from(args@, flags@, (i + 1 + v) as nat) is None);
                        return None;
                    }
                    i = i + 1 + v;
                },
                None => {
                    return None;
                },
            }
        }
    }
}

} // verus!
