//! `grit <alias|@tag> <args...>`: run a repo's VCS from anywhere.
//!
//! grit adds nothing to the command it runs; the caller spawns it with the
//! terminal inherited. What is decided here is which repos a target names,
//! when there is nothing to run, and, for a group, the fan-out: one repo after
//! another, stopping at the first failure unless told to keep going, and the
//! tally at the end.
use vstd::prelude::*;

use crate::error::Error;
use crate::registry::model::{repo_views, Repo, RepoV};
use crate::registry::{is_group, Registry};
use crate::render::theme::{dim, hue, Color, Theme, BULLET};
use crate::render::{counted, footer, footer_of, footer_sep, paint, painted, plural};
use crate::text::{
    chars_of, decimal, join, joined, owned, push_decimal, push_signed, push_str, signed_decimal,
    string_of, trim_start_in, trim_start_matches, views,
};

verus! {

/// Why a run was refused before anything ran.
pub enum Refusal {
    /// No target at all.
    NothingToRun,
    /// The target names no repo or no group.
    Target(Error),
    /// A target with no command after it; the text explains what to type.
    NeedsCommand(String),
}

/// What to say to `grit <target>` with no command after it.
pub open spec fn needs_command_text(target: Seq<char>) -> Seq<char> {
    "`grit "@ + target + "` needs a command to run, e.g. `grit "@ + target + " status`\n"@
        + "for grit's own view of the repo, use `grit status "@ + trim_start_in(target, seq!['@'])
        + "`"@
}

/// The explanation for a target given no command.
pub fn needs_command_message(target: &str) -> (res: String)
    ensures
        res@ == needs_command_text(target@),
{
    let mut s = owned("`grit ");
    push_str(&mut s, target);
    push_str(&mut s, "` needs a command to run, e.g. `grit ");
    push_str(&mut s, target);
    push_str(&mut s, " status`\n");
    push_str(&mut s, "for grit's own view of the repo, use `grit status ");
    let sigil = vec!['@'];
    assert(sigil@ =~= seq!['@']);
    let bare = trim_start_matches(&chars_of(target), &sigil);
    let bare_text = string_of(&bare);
    push_str(&mut s, bare_text.as_str());
    push_str(&mut s, "`");
    assert(s@ =~= needs_command_text(target@));
    s
}

/// The repos that `argv` (target first, then the command) runs in, in
/// listing order, or why nothing runs: no target, a target that names
/// nothing (which is reported before the missing command is), or no command.
pub fn plan(registry: &Registry, argv: &Vec<String>) -> (res: Result<Vec<Repo>, Refusal>)
    ensures
        argv@.len() == 0 ==> res is Err && res->Err_0 is NothingToRun,
        argv@.len() > 0 ==> {
            let target = argv@[0]@;
            match res {
                Ok(v) => argv@.len() > 1 && v@.len() > 0 && if is_group(target) {
                    repo_views(v@) == crate::registry::tagged(registry.listing(), target.drop_first())
                } else {
                    registry@.contains_key(target) && repo_views(v@) == seq![
                        RepoV { alias: target, entry: registry@[target] },
                    ]
                },
                Err(Refusal::NothingToRun) => false,
                Err(Refusal::Target(e)) => if is_group(target) {
                    crate::registry::tagged(registry.listing(), target.drop_first()).len() == 0
                        && e is UnknownTag
                } else {
                    !registry@.contains_key(target) && match e {
                        Error::UnknownAlias(a) => a@ == target,
                        _ => false,
                    }
                },
                Err(Refusal::NeedsCommand(m)) => argv@.len() == 1 && m@ == needs_command_text(target)
                    && if is_group(target) {
                    crate::registry::tagged(registry.listing(), target.drop_first()).len() > 0
                } else {
                    registry@.contains_key(target)
                },
            }
        },
{
    if argv.len() == 0 {
        return Err(Refusal::NothingToRun);
    }
    let target = argv[0].as_str();
    let repos = match registry.resolve_target(target) {
        Ok(v) => v,
        Err(e) => {
            return Err(Refusal::Target(e));
        },
    };
    assert(repo_views(repos@).len() == repos@.len());
    if argv.len() == 1 {
        return Err(Refusal::NeedsCommand(needs_command_message(target)));
    }
    Ok(repos)
}

/// The exit code a child's status comes to: its own code, `128 + signal` for
/// one killed by a signal (the shell's convention, which keeps the signal
/// rather than flattening it), and 1 when there is neither.
pub open spec fn exit_code_of(code: Option<i32>, signal: Option<i32>) -> int {
    match code {
        Some(c) => c as int,
        None => match signal {
            Some(s) => 128 + s,
            None => 1,
        },
    }
}

/// Turn a child's exit status, as its code and the signal that ended it,
/// into an exit code we can return.
pub fn exit_code(code: Option<i32>, signal: Option<i32>) -> (res: i32)
    requires
        code is None && signal is Some ==> signal->0 <= i32::MAX - 128,
    ensures
        res == exit_code_of(code, signal),
{
    match code {
        Some(c) => c,
        None => match signal {
            Some(s) => 128 + s,
            None => 1,
        },
    }
}

/// A fan-out as it runs: how many repos it covers, how many have run, the
/// first non-zero exit code seen, and the aliases that failed, in order.
pub struct FanOut {
    total: usize,
    ran: usize,
    first_failure: i32,
    failed: Vec<String>,
}

/// A fan-out as numbers and names.
pub struct FanOutV {
    pub total: nat,
    pub ran: nat,
    pub first_failure: int,
    pub failed: Seq<Seq<char>>,
}

impl View for FanOut {
    type V = FanOutV;

    closed spec fn view(&self) -> FanOutV {
        FanOutV {
            total: self.total as nat,
            ran: self.ran as nat,
            first_failure: self.first_failure as int,
            failed: views(self.failed@),
        }
    }
}

/// The note printed when a fan-out stops at a failure: a blank line, then,
/// in the warning colour, where it stopped, the exit code, how many repos
/// were left, and how to keep going.
pub open spec fn stopped_text(alias: Seq<char>, code: int, left: nat, color: bool) -> Seq<char> {
    "\n"@ + painted(
        "  stopped at `"@ + alias + "` (exit "@ + signed_decimal(code) + "); "@ + decimal(left)
            + " left. pass -k to keep going\n"@,
        hue(Color::Red),
        color,
    )
}

/// The parts of the tally under a finished fan-out: how many ran, and either
/// `all ok` or which failed.
pub open spec fn tally_parts(f: FanOutV) -> Seq<Seq<char>> {
    seq![
        counted(f.ran, "repo"@, "repos"@),
        if f.failed.len() == 0 {
            "all ok"@
        } else {
            "failed: "@ + joined(f.failed, ", "@)
        },
    ]
}

/// A fan-out after the command exited with `code` in the repo `alias`.
pub open spec fn after(f: FanOutV, alias: Seq<char>, code: int) -> FanOutV {
    FanOutV {
        total: f.total,
        ran: f.ran + 1,
        first_failure: if f.first_failure == 0 {
            code
        } else {
            f.first_failure
        },
        failed: if code != 0 {
            f.failed.push(alias)
        } else {
            f.failed
        },
    }
}

/// A fan-out after every repo in turn, `aliases[i]` exiting with `codes[i]`.
pub open spec fn after_all(f: FanOutV, aliases: Seq<Seq<char>>, codes: Seq<int>) -> FanOutV
    decreases codes.len(),
{
    if codes.len() == 0 || aliases.len() == 0 {
        f
    } else {
        after_all(after(f, aliases[0], codes[0]), aliases.drop_first(), codes.drop_first())
    }
}

/// The first exit code that is not 0, or 0 when they all are.
pub open spec fn first_nonzero(codes: Seq<int>) -> int
    decreases codes.len(),
{
    if codes.len() == 0 {
        0
    } else if codes[0] != 0 {
        codes[0]
    } else {
        first_nonzero(codes.drop_first())
    }
}

/// The aliases whose command failed, in order.
pub open spec fn failures(aliases: Seq<Seq<char>>, codes: Seq<int>) -> Seq<Seq<char>>
    decreases codes.len(),
{
    if codes.len() == 0 || aliases.len() == 0 {
        Seq::empty()
    } else {
        (if codes[0] != 0 {
            seq![aliases[0]]
        } else {
            Seq::empty()
        }) + failures(aliases.drop_first(), codes.drop_first())
    }
}

proof fn lemma_failure_sticks(f: FanOutV, aliases: Seq<Seq<char>>, codes: Seq<int>)
    requires
        f.first_failure != 0,
    ensures
        after_all(f, aliases, codes).first_failure == f.first_failure,
    decreases codes.len(),
{
    if codes.len() > 0 && aliases.len() > 0 {
        lemma_failure_sticks(after(f, aliases[0], codes[0]), aliases.drop_first(), codes.drop_first());
    }
}

/// Running a fan-out to the end, with `-k`, exits with the first failure's
/// code, or 0 when every repo succeeded, and names every repo that failed,
/// in the order they ran: each repo's exit code becomes grit's unless an
/// earlier one already failed.
pub proof fn law_fan_out_exits_with_its_first_failure(f: FanOutV, aliases: Seq<Seq<char>>, codes: Seq<int>)
    requires
        f.first_failure == 0,
        aliases.len() == codes.len(),
    ensures
        after_all(f, aliases, codes).first_failure == first_nonzero(codes),
        after_all(f, aliases, codes).failed == f.failed + failures(aliases, codes),
        after_all(f, aliases, codes).ran == f.ran + codes.len(),
    decreases codes.len(),
{
    if codes.len() == 0 {
        assert(f.failed + failures(aliases, codes) =~= f.failed);
    } else {
        let g = after(f, aliases[0], codes[0]);
        if codes[0] != 0 {
            lemma_failure_sticks(g, aliases.drop_first(), codes.drop_first());
        } else {
            law_fan_out_exits_with_its_first_failure(g, aliases.drop_first(), codes.drop_first());
        }
        lemma_failed_grow(g, aliases.drop_first(), codes.drop_first());
        lemma_ran_grows(g, aliases.drop_first(), codes.drop_first());
        assert(g.failed + failures(aliases.drop_first(), codes.drop_first()) =~= f.failed + failures(aliases, codes));
    }
}

proof fn lemma_failed_grow(f: FanOutV, aliases: Seq<Seq<char>>, codes: Seq<int>)
    requires
        aliases.len() == codes.len(),
    ensures
        after_all(f, aliases, codes).failed == f.failed + failures(aliases, codes),
    decreases codes.len(),
{
    if codes.len() == 0 {
        assert(f.failed + failures(aliases, codes) =~= f.failed);
    } else {
        let g = after(f, aliases[0], codes[0]);
        lemma_failed_grow(g, aliases.drop_first(), codes.drop_first());
        assert(g.failed + failures(aliases.drop_first(), codes.drop_first()) =~= f.failed + failures(aliases, codes));
    }
}

proof fn lemma_ran_grows(f: FanOutV, aliases: Seq<Seq<char>>, codes: Seq<int>)
    requires
        aliases.len() == codes.len(),
    ensures
        after_all(f, aliases, codes).ran == f.ran + codes.len(),
    decreases codes.len(),
{
    if codes.len() > 0 {
        lemma_ran_grows(after(f, aliases[0], codes[0]), aliases.drop_first(), codes.drop_first());
    }
}

/// A fan-out run without `-k`: repos in turn until the first failure, which
/// is the last to run.
pub open spec fn until_stopped(f: FanOutV, aliases: Seq<Seq<char>>, codes: Seq<int>) -> FanOutV
    decreases codes.len(),
{
    if codes.len() == 0 || aliases.len() == 0 {
        f
    } else if codes[0] != 0 {
        after(f, aliases[0], codes[0])
    } else {
        until_stopped(after(f, aliases[0], codes[0]), aliases.drop_first(), codes.drop_first())
    }
}

/// How many repos a run without `-k` gets through: up to and including the
/// first failure, or all of them.
pub open spec fn ran_until_stopped(codes: Seq<int>) -> nat
    decreases codes.len(),
{
    if codes.len() == 0 {
        0
    } else if codes[0] != 0 {
        1
    } else {
        1 + ran_until_stopped(codes.drop_first())
    }
}

/// A run without `-k` stops at the first repo that fails, having run it and
/// every repo before it and no other, and exits with that repo's code; a run
/// in which nothing fails runs every repo and exits with 0. Only the repo it
/// stopped at is named as failed.
pub proof fn law_a_stopped_run_exits_with_the_failure(f: FanOutV, aliases: Seq<Seq<char>>, codes: Seq<int>)
    requires
        f.first_failure == 0,
        aliases.len() == codes.len(),
    ensures
        until_stopped(f, aliases, codes).first_failure == first_nonzero(codes),
        until_stopped(f, aliases, codes).ran == f.ran + ran_until_stopped(codes),
        until_stopped(f, aliases, codes).failed == f.failed + failures(aliases, codes).take(
            if first_nonzero(codes) != 0 { 1int } else { 0int },
        ),
    decreases codes.len(),
{
    if codes.len() == 0 {
        assert(f.failed + failures(aliases, codes).take(0) =~= f.failed);
    } else if codes[0] != 0 {
        assert(failures(aliases, codes).take(1) =~= seq![aliases[0]]);
    } else {
        let g = after(f, aliases[0], codes[0]);
        law_a_stopped_run_exits_with_the_failure(g, aliases.drop_first(), codes.drop_first());
        assert(failures(aliases, codes) =~= failures(aliases.drop_first(), codes.drop_first()));
    }
}

impl FanOut {
    /// A fan-out over `total` repos, none of them run yet.
    pub fn new(total: usize) -> (res: FanOut)
        ensures
            res@ == (FanOutV { total: total as nat, ran: 0, first_failure: 0, failed: Seq::empty() }),
    {
        let f = FanOut { total, ran: 0, first_failure: 0, failed: Vec::new() };
        assert(views(f.failed@) =~= Seq::<Seq<char>>::empty());
        f
    }

    /// The exit code of the whole fan-out: the first failure's, or 0.
    pub fn exit_code(&self) -> (res: i32)
        ensures
            res == self@.first_failure,
    {
        self.first_failure
    }

    /// Record that the command exited with `code` in the repo `alias`, the
    /// next one in turn. Returns the note to print when the fan-out stops
    /// here: at a failure, unless told to keep going.
    pub fn record(&mut self, alias: &str, code: i32, keep_going: bool, color: bool) -> (res: Option<String>)
        requires
            old(self)@.ran < old(self)@.total,
        ensures
            final(self)@ == after(old(self)@, alias@, code as int),
            match res {
                Some(note) => code != 0 && !keep_going && note@ == stopped_text(
                    alias@,
                    code as int,
                    (old(self)@.total - old(self)@.ran - 1) as nat,
                    color,
                ),
                None => code == 0 || keep_going,
            },
    {
        self.ran = self.ran + 1;
        if code == 0 {
            return None;
        }
        let ghost before = views(self.failed@);
        self.failed.push(owned(alias));
        assert(views(self.failed@) =~= before.push(alias@));
        if self.first_failure == 0 {
            self.first_failure = code;
        }
        if keep_going {
            return None;
        }
        let left = self.total - self.ran;
        let mut text = owned("  stopped at `");
        push_str(&mut text, alias);
        push_str(&mut text, "` (exit ");
        push_signed(&mut text, code as i64);
        push_str(&mut text, "); ");
        push_decimal(&mut text, left as u64);
        push_str(&mut text, " left. pass -k to keep going\n");
        let mut note = owned("\n");
        let p = paint(text.as_str(), Theme::warn(), color);
        push_str(&mut note, p.as_str());
        Some(note)
    }

    /// The tally printed after the last repo: a blank line, then the footer.
    pub fn summary(&self, color: bool) -> (res: String)
        ensures
            res@ == "\n"@ + footer_of(tally_parts(self@), color),
    {
        let mut parts: Vec<String> = Vec::new();
        parts.push(plural(self.ran, "repo", "repos"));
        if self.failed.len() == 0 {
            parts.push(owned("all ok"));
        } else {
            let mut s = owned("failed: ");
            let names = join(&self.failed, ", ");
            push_str(&mut s, names.as_str());
            parts.push(s);
        }
        assert(views(parts@) =~= tally_parts(self@));
        let mut out = owned("\n");
        let f = footer(&parts, color);
        push_str(&mut out, f.as_str());
        out
    }
}

} // verus!
