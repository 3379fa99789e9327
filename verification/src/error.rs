//! The library's typed error, and the sentence each one is told with.
//!
//! Everything under `registry/` and `vcs/` returns [`Error`]. The command
//! layer attaches the context of what the user was doing; this enum says only
//! what went wrong.
use vstd::prelude::*;

use crate::registry::model::VcsKind;
use crate::render::theme::{dim, hue, Color, Theme};
use crate::render::{paint, painted};
use crate::text::{chars_of, decimal, decimal_string, join, joined, lines, lines_of, owned, push_str, string_of, texts, views};

verus! {

#[derive(Debug, Clone, PartialEq, Eq)]
pub enum Error {
    /// No repo is registered under this alias.
    UnknownAlias(String),
    /// No repo carries this tag; `known` lists the tags that are in use.
    UnknownTag { tag: String, known: Vec<String> },
    /// The alias is the name of a grit command.
    ReservedAlias(String),
    /// The alias is taken, by the repo at `existing`.
    DuplicateAlias { alias: String, existing: String },
    /// The alias cannot be used, for `reason`.
    InvalidAlias { alias: String, reason: String },
    /// The path holds no repository of this kind.
    NotARepo { path: String, kinds: String },
    /// The path does not exist.
    PathNotFound(String),
    /// There is nowhere to keep the config file.
    NoConfigHome(String),
    /// The config file is not valid TOML; `message` is the parser's.
    ConfigParse { path: String, message: String },
    /// The config file was written in a newer format than this build reads.
    ConfigVersion { path: String, found: u32, supported: u32 },
    /// An I/O operation on `path` failed.
    Io { context: String, path: String, message: String },
    /// The backend's program could not be started.
    Spawn { program: String, message: String },
    /// The backend's program ran and reported failure.
    CommandFailed { program: String, args: String, status: String, stderr: String },
    /// The backend's program printed something that could not be read.
    BadOutput { program: String, message: String },
}

/// The sentence an error is told with.
pub open spec fn message_of(e: Error) -> Seq<char> {
    match e {
        Error::UnknownAlias(a) => "no repo registered under alias `"@ + a@
            + "`\nrun `grit show` to see what is registered"@,
        Error::UnknownTag { tag, known } => "no repos tagged `"@ + tag@ + "`\n"@ + if known@.len()
            == 0 {
            "no tags are in use yet; add one with `grit -r <alias> <path> --tag <tag>`"@
        } else {
            "tags in use: "@ + joined(views(known@), ", "@)
        },
        Error::ReservedAlias(a) => "`"@ + a@ + "` is a grit command, so it can't be used as an alias"@,
        Error::DuplicateAlias { alias, existing } => "alias `"@ + alias@ + "` is already registered to "@
            + existing@ + "\npass --force to overwrite it"@,
        Error::InvalidAlias { alias, reason } => "invalid alias `"@ + alias@ + "`: "@ + reason@
            + "\naliases may contain letters, digits, `-`, `_` and `.`"@,
        Error::NotARepo { path, kinds } => path@ + " is not a "@ + kinds@ + " repository"@,
        Error::PathNotFound(p) => p@ + " does not exist"@,
        Error::NoConfigHome(why) => "could not work out where to store grit's config: "@ + why@,
        Error::ConfigParse { path, message } => "config file "@ + path@ + " is not valid TOML: "@
            + message@,
        Error::ConfigVersion { path, found, supported } => "config file "@ + path@
            + " was written by a newer grit (format v"@ + decimal(found as nat)
            + ", this build understands v"@ + decimal(supported as nat) + ")"@,
        Error::Io { context, path, message } => context@ + " ("@ + path@ + "): "@ + message@,
        Error::Spawn { program, message } => "could not run `"@ + program@ + "`: "@ + message@
            + "\nis it installed and on your PATH?"@,
        Error::CommandFailed { program, args, status, stderr } => "`"@ + program@ + " "@ + args@
            + "` failed with "@ + status@ + ": "@ + stderr@,
        Error::BadOutput { program, message } => "could not read what `"@ + program@
            + "` printed: "@ + message@,
    }
}

impl Error {
    /// The sentence this error is told with, as its `Display` would print it.
    pub fn message(&self) -> (res: String)
        ensures
            res@ == message_of(*self),
    {
        match self {
            Error::UnknownAlias(a) => {
                let mut s = owned("no repo registered under alias `");
                push_str(&mut s, a.as_str());
                push_str(&mut s, "`\nrun `grit show` to see what is registered");
                s
            },
            Error::UnknownTag { tag, known } => {
                let mut s = owned("no repos tagged `");
                push_str(&mut s, tag.as_str());
                push_str(&mut s, "`\n");
                let mut rest = String::new();
                if known.len() == 0 {
                    push_str(
                        &mut rest,
                        "no tags are in use yet; add one with `grit -r <alias> <path> --tag <tag>`",
                    );
                } else {
                    push_str(&mut rest, "tags in use: ");
                    let list = join(known, ", ");
                    push_str(&mut rest, list.as_str());
                }
                push_str(&mut s, rest.as_str());
                s
            },
            Error::ReservedAlias(a) => {
                let mut s = owned("`");
                push_str(&mut s, a.as_str());
                push_str(&mut s, "` is a grit command, so it can't be used as an alias");
                s
            },
            Error::DuplicateAlias { alias, existing } => {
                let mut s = owned("alias `");
                push_str(&mut s, alias.as_str());
                push_str(&mut s, "` is already registered to ");
                push_str(&mut s, existing.as_str());
                push_str(&mut s, "\npass --force to overwrite it");
                s
            },
            Error::InvalidAlias { alias, reason } => {
                let mut s = owned("invalid alias `");
                push_str(&mut s, alias.as_str());
                push_str(&mut s, "`: ");
                push_str(&mut s, reason.as_str());
                push_str(&mut s, "\naliases may contain letters, digits, `-`, `_` and `.`");
                s
            },
            Error::NotARepo { path, kinds } => {
                let mut s = path.clone();
                push_str(&mut s, " is not a ");
                push_str(&mut s, kinds.as_str());
                push_str(&mut s, " repository");
                s
            },
            Error::PathNotFound(p) => {
                let mut s = p.clone();
                push_str(&mut s, " does not exist");
                s
            },
            Error::NoConfigHome(why) => {
                let mut s = owned("could not work out where to store grit's config: ");
                push_str(&mut s, why.as_str());
                s
            },
            Error::ConfigParse { path, message } => {
                let mut s = owned("config file ");
                push_str(&mut s, path.as_str());
                push_str(&mut s, " is not valid TOML: ");
                push_str(&mut s, message.as_str());
                s
            },
            Error::ConfigVersion { path, found, supported } => {
                let mut s = owned("config file ");
                push_str(&mut s, path.as_str());
                push_str(&mut s, " was written by a newer grit (format v");
                let f = decimal_string(*found as u64);
                push_str(&mut s, f.as_str());
                push_str(&mut s, ", this build understands v");
                let v = decimal_string(*supported as u64);
                push_str(&mut s, v.as_str());
                push_str(&mut s, ")");
                s
            },
            Error::Io { context, path, message } => {
                let mut s = context.clone();
                push_str(&mut s, " (");
                push_str(&mut s, path.as_str());
                push_str(&mut s, "): ");
                push_str(&mut s, message.as_str());
                s
            },
            Error::Spawn { program, message } => {
                let mut s = owned("could not run `");
                push_str(&mut s, program.as_str());
                push_str(&mut s, "`: ");
                push_str(&mut s, message.as_str());
                push_str(&mut s, "\nis it installed and on your PATH?");
                s
            },
            Error::CommandFailed { program, args, status, stderr } => {
                let mut s = owned("`");
                push_str(&mut s, program.as_str());
                push_str(&mut s, " ");
                push_str(&mut s, args.as_str());
                push_str(&mut s, "` failed with ");
                push_str(&mut s, status.as_str());
                push_str(&mut s, ": ");
                push_str(&mut s, stderr.as_str());
                s
            },
            Error::BadOutput { program, message } => {
                let mut s = owned("could not read what `");
                push_str(&mut s, program.as_str());
                push_str(&mut s, "` printed: ");
                push_str(&mut s, message.as_str());
                s
            },
        }
    }
}

/// Lines set under the first line of a report: indented past `error: `,
/// dimmed, one per line.
pub open spec fn indented_lines(ls: Seq<Seq<char>>, color: bool) -> Seq<char>
    decreases ls.len(),
{
    if ls.len() == 0 {
        Seq::empty()
    } else {
        indented_lines(ls.drop_last(), color) + "       "@ + painted(ls.last(), dim(), color) + "\n"@
    }
}

/// How an error is reported on stderr: its first line after `error:`, the
/// hints on its other lines dimmed underneath, then each cause the command
/// layer attached.
pub open spec fn report_of(message: Seq<char>, causes: Seq<Seq<char>>, color: bool) -> Seq<char> {
    let ls = lines_of(message);
    let first = if ls.len() > 0 {
        ls[0]
    } else {
        "something went wrong"@
    };
    let rest = if ls.len() > 0 {
        ls.drop_first()
    } else {
        Seq::empty()
    };
    painted("error:"@, hue(Color::Red), color) + " "@ + first + "\n"@ + indented_lines(rest, color)
        + indented_lines(causes.map_values(|c: Seq<char>| "caused by: "@ + c), color)
}

/// Append the indented, dimmed lines.
fn push_indented(out: &mut String, ls: &Vec<String>, color: bool)
    ensures
        final(out)@ == old(out)@ + indented_lines(views(ls@), color),
{
    let ghost start = out@;
    let n = ls.len();
    let mut i: usize = 0;
    while i < n
        invariant
            n == ls@.len(),
            i <= n,
            out@ == start + indented_lines(views(ls@).take(i as int), color),
        decreases n - i,
    {
        push_str(out, "       ");
        let p = paint(ls[i].as_str(), Theme::muted(), color);
        push_str(out, p.as_str());
        push_str(out, "\n");
        assert(views(ls@).take(i + 1).drop_last() =~= views(ls@).take(i as int));
        assert(out@ =~= start + indented_lines(views(ls@).take(i + 1), color));
        i += 1;
    }
    assert(views(ls@).take(n as int) =~= views(ls@));
}

/// The report of an error whose message is `message` and whose attached
/// causes, outermost first, are `causes`.
pub fn report(message: &str, causes: &Vec<String>, color: bool) -> (res: String)
    ensures
        res@ == report_of(message@, views(causes@), color),
{
    let ls = lines(&chars_of(message));
    let n = ls.len();
    let mut out = paint("error:", Theme::warn(), color);
    push_str(&mut out, " ");
    if n > 0 {
        let first = string_of(&ls[0]);
        push_str(&mut out, first.as_str());
    } else {
        push_str(&mut out, "something went wrong");
    }
    push_str(&mut out, "\n");
    let mut rest: Vec<String> = Vec::new();
    let mut i: usize = 1;
    while i < n
        invariant
            n == ls@.len(),
            1 <= i <= n || n == 0,
            n > 0 ==> views(rest@) == texts(ls@).subrange(1, i as int),
            n == 0 ==> rest@.len() == 0,
        decreases n - i,
    {
        let ghost before = views(rest@);
        rest.push(string_of(&ls[i]));
        assert(views(rest@) =~= before.push(ls@[i as int]@));
        assert(texts(ls@).subrange(1, i + 1) =~= texts(ls@).subrange(1, i as int).push(ls@[i as int]@));
        i += 1;
    }
    proof {
        if n > 0 {
            assert(texts(ls@).subrange(1, n as int) =~= lines_of(message@).drop_first());
        } else {
            assert(views(rest@) =~= Seq::<Seq<char>>::empty());
        }
    }
    push_indented(&mut out, &rest, color);
    let mut labelled: Vec<String> = Vec::new();
    let m = causes.len();
    let mut j: usize = 0;
    while j < m
        invariant
            m == causes@.len(),
            j <= m,
            views(labelled@) == views(causes@).take(j as int).map_values(|c: Seq<char>| "caused by: "@ + c),
        decreases m - j,
    {
        let mut c = owned("caused by: ");
        push_str(&mut c, causes[j].as_str());
        let ghost before = views(labelled@);
        labelled.push(c);
        assert(views(labelled@) =~= before.push(c@));
        assert(views(causes@).take(j + 1).map_values(|c: Seq<char>| "caused by: "@ + c) =~= views(causes@).take(
            j as int,
        ).map_values(|c: Seq<char>| "caused by: "@ + c).push(c@));
        j += 1;
    }
    assert(views(causes@).take(m as int) =~= views(causes@));
    push_indented(&mut out, &labelled, color);
    assert(out@ =~= report_of(message@, views(causes@), color));
    out
}

} // verus!
