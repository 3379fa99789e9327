//! The shell integration: the scripts, and putting them in a startup file.
//!
//! `grit shell init <shell>` only prints a script; something has to `eval` it
//! from a startup file before any of it runs. `enable` and `disable` decide
//! what that file should hold; reading and writing it is the caller's part.
//!
//! Nothing here happens on its own: a startup file is edited when asked, and
//! what was put in is exactly what is taken out again.
use vstd::prelude::*;

use crate::error::Error;
use crate::registry::location::home_dir;
use crate::text::{
    chars_of, contains, ends_with, find, find_from, find_in, has_prefix, has_suffix, lemma_find,
    lines, lines_of, occurs_at, owned, push_all, push_str, slice, starts_with, string_of,
    string_of_range, texts, trim_start, trim_start_ws,
};

verus! {

/// The shells with an integration.
#[derive(Debug, Clone, Copy, PartialEq, Eq, Structural, Hash)]
pub enum Shell {
    Zsh,
    Bash,
    Fish,
}

impl Shell {
    /// The shell's name.
    pub open spec fn spec_as_str(self) -> Seq<char> {
        match self {
            Shell::Zsh => "zsh"@,
            Shell::Bash => "bash"@,
            Shell::Fish => "fish"@,
        }
    }

    /// The shell's name, as its executable is called.
    pub fn as_str(self) -> (res: &'static str)
        ensures
            res@ == self.spec_as_str(),
    {
        match self {
            Shell::Zsh => "zsh",
            Shell::Bash => "bash",
            Shell::Fish => "fish",
        }
    }

    /// The shell a program path such as `$SHELL` names, if there is a script
    /// for it: its last component starts with the shell's name, so a version
    /// suffix does not have to be anticipated.
    pub fn from_program(program: &str) -> (res: Option<Shell>)
        ensures
            ({
                let name = base_name(program@);
                match res {
                    Some(s) => has_prefix(name, s.spec_as_str()) && (s == Shell::Bash ==> !has_prefix(
                        name,
                        "zsh"@,
                    )) && (s == Shell::Fish ==> !has_prefix(name, "zsh"@) && !has_prefix(
                        name,
                        "bash"@,
                    )),
                    None => !has_prefix(name, "zsh"@) && !has_prefix(name, "bash"@) && !has_prefix(
                        name,
                        "fish"@,
                    ),
                }
            }),
    {
        let c = chars_of(program);
        let n = c.len();
        let mut i: usize = n;
        assert(c@.take(n as int) =~= c@);
        assert(c@.skip(n as int) =~= Seq::<char>::empty());
        while i > 0 && c[i - 1] != '/'
            invariant
                c@ == program@,
                n == c@.len(),
                i <= n,
                base_name(c@) == base_name(c@.take(i as int)) + c@.skip(i as int),
            decreases i,
        {
            assert(c@.take(i as int).drop_last() =~= c@.take(i - 1));
            assert(c@.skip(i - 1) =~= seq![c@[i - 1]] + c@.skip(i as int));
            i -= 1;
        }
        let name = slice(&c, i, n);
        proof {
            assert(name@ =~= c@.skip(i as int));
            if i > 0 {
                assert(c@.take(i as int).last() == '/');
            }
            assert(base_name(c@.take(i as int)) =~= Seq::<char>::empty());
        }
        if starts_with(&name, &chars_of("zsh")) {
            Some(Shell::Zsh)
        } else if starts_with(&name, &chars_of("bash")) {
            Some(Shell::Bash)
        } else if starts_with(&name, &chars_of("fish")) {
            Some(Shell::Fish)
        } else {
            None
        }
    }
}

/// What follows the last `/` of a path.
pub open spec fn base_name(p: Seq<char>) -> Seq<char>
    decreases p.len(),
{
    if p.len() == 0 || p.last() == '/' {
        Seq::empty()
    } else {
        base_name(p.drop_last()).push(p.last())
    }
}

/// The integration script for zsh.
pub const ZSH_SCRIPT: &'static str = "# grit shell integration for zsh.
#
# Load it from ~/.zshrc with
#   eval \"$(grit shell init zsh)\"
# or let grit write that for you: grit shell enable zsh
#
# While a line that starts with `grit` sits still for a moment, the dashboard
# is drawn under it from the last reading. ^G^P draws it on demand, and ^G^G
# opens the repo picker, which needs fzf. Set these before the eval:
#   GRIT_PREVIEW_TRIGGERS=( grit gs )   buffers that summon it        (grit)
#   GRIT_PREVIEW_DELAY=0.2              seconds of stillness          (0.5)
#   GRIT_PREVIEW_KEY='^T'               draw it on demand             (^G^P)
#   GRIT_PREVIEW_IDLE=0                 the key only, no timer
#   GRIT_PICKER_KEY='^T^R'              open the picker               (^G^G)
#   GRIT_PICKER_HEIGHT=100%             how much screen it takes      (80%)
#   GRIT_PICKER_PREVIEW=down,60%        where the detail pane goes    (right,60%)

(( ${+GRIT_PREVIEW_TRIGGERS} )) || typeset -ga GRIT_PREVIEW_TRIGGERS=( grit )
: ${GRIT_PREVIEW_DELAY:=0.5}
: ${GRIT_PREVIEW_KEY:='^G^P'}
: ${GRIT_PREVIEW_IDLE:=1}
: ${GRIT_PICKER_KEY:='^G^G'}
: ${GRIT_PICKER_HEIGHT:=80%}
: ${GRIT_PICKER_PREVIEW:=right,60%}

# Jump to a registered repository: gcd <alias>
gcd() {
  local dir
  dir=\"$(grit shell path \"$1\")\" || return
  builtin cd -- \"$dir\"
}

# Keep the dashboard warm: a fresh reading in the background, at most once
# every thirty seconds, whenever a prompt is drawn.
_grit_refresh() {
  (grit shell refresh --max-age 30 >/dev/null 2>&1 &)
}

autoload -Uz add-zsh-hook add-zle-hook-widget
add-zsh-hook precmd _grit_refresh

typeset -g _grit_timer_fd=
typeset -g _grit_last_buffer=
typeset -ga _grit_highlights=()

# The first word of the line is one that summons the dashboard.
_grit_wants() {
  local word=${${(z)BUFFER}[1]}
  [[ -n $word ]] && (( ${GRIT_PREVIEW_TRIGGERS[(Ie)$word]} ))
}

# Take the dashboard back off the line.
_grit_clear() {
  POSTDISPLAY=
  region_highlight=( ${region_highlight:|_grit_highlights} )
  _grit_highlights=()
}

# Draw the cached dashboard under what is typed. `grit shell preview` prints
# how many highlight lines follow, those lines as `start end spec` counted
# from the table's first character, then the table as plain text; the
# offsets are shifted past the buffer and the newline in front of the table.
_grit_draw() {
  local out line start end spec base count i
  local -a lines hl
  out=\"$(grit shell preview --max-rows $(( LINES > 8 ? LINES - 6 : 2 )) --max-age 600 2>/dev/null)\" || return
  [[ -n $out ]] || return
  lines=( \"${(@f)out}\" )
  count=${lines[1]}
  [[ $count == <-> ]] || return
  base=$(( ${#BUFFER} + 1 ))
  for (( i = 2; i <= count + 1; i++ )); do
    line=${lines[i]}
    start=${line%% *}; line=${line#* }
    end=${line%% *}; spec=${line#* }
    hl+=( \"$(( start + base )) $(( end + base )) $spec\" )
  done
  _grit_clear
  POSTDISPLAY=$'\\n'\"${(F)lines[count+2,-1]}\"
  _grit_highlights=( $hl )
  region_highlight+=( $hl )
}

# Forget a pending timer.
_grit_disarm() {
  [[ -n $_grit_timer_fd ]] || return
  zle -F $_grit_timer_fd 2>/dev/null
  exec {_grit_timer_fd}<&- 2>/dev/null
  _grit_timer_fd=
}

# The timer went off: the line has been still for the delay.
_grit_timer_done() {
  local fd=$1
  zle -F $fd 2>/dev/null
  exec {fd}<&- 2>/dev/null
  [[ $fd == $_grit_timer_fd ]] || return
  _grit_timer_fd=
  _grit_wants || return
  _grit_draw
  zle -R
}
zle -N _grit_timer_done

# On every change to the line: take the dashboard off, and start counting
# the pause again if the line still asks for it.
_grit_pre_redraw() {
  [[ $BUFFER == $_grit_last_buffer ]] && return
  _grit_last_buffer=$BUFFER
  _grit_disarm
  [[ -n $POSTDISPLAY ]] && _grit_clear
  (( GRIT_PREVIEW_IDLE )) || return
  _grit_wants || return
  exec {_grit_timer_fd}< <(sleep $GRIT_PREVIEW_DELAY; print)
  zle -F -w $_grit_timer_fd _grit_timer_done
}
add-zle-hook-widget line-pre-redraw _grit_pre_redraw

# Leave nothing behind when the line is accepted or abandoned.
_grit_line_finish() {
  _grit_disarm
  _grit_clear
  _grit_last_buffer=
}
add-zle-hook-widget line-finish _grit_line_finish

# The dashboard on demand, whatever is typed.
_grit_preview_key() {
  _grit_draw
  zle -R
}
zle -N _grit_preview_key
bindkey \"$GRIT_PREVIEW_KEY\" _grit_preview_key

# The repo picker: enter puts `grit <alias> ` on the line, ctrl-d goes to
# the repo, ctrl-r takes a fresh reading.
_grit_picker() {
  if (( ! $+commands[fzf] )); then
    zle -M 'grit: the picker needs fzf'
    return
  fi
  local out key alias
  local -a picked
  _grit_clear
  out=\"$(grit --color always shell rows --cached | fzf --ansi --no-sort --reverse \\
    --height \"$GRIT_PICKER_HEIGHT\" \\
    --preview 'grit --color always detail {1}' --preview-window \"$GRIT_PICKER_PREVIEW\" \\
    --expect ctrl-d --bind 'ctrl-r:reload(grit --color always shell rows)')\"
  zle reset-prompt
  picked=( \"${(@f)out}\" )
  key=${picked[1]}
  alias=${${picked[2]}%% *}
  [[ -n $alias ]] || return
  if [[ $key == ctrl-d ]]; then
    BUFFER=\"gcd ${(q)alias}\"
    zle accept-line
  else
    BUFFER=\"grit $alias \"
    CURSOR=${#BUFFER}
  fi
}
zle -N _grit_picker
bindkey \"$GRIT_PICKER_KEY\" _grit_picker
";

/// The integration script for bash.
pub const BASH_SCRIPT: &'static str = "# grit shell integration for bash.
#
# Load it from ~/.bashrc with
#   eval \"$(grit shell init bash)\"
# or let grit write that for you: grit shell enable bash
#
# bash runs no hook while you sit at the prompt, so the dashboard is drawn on
# a key: ^G^P. ^G^G opens the repo picker, which needs fzf. Set these before
# the eval:
#   GRIT_PREVIEW_KEY='^T'          draw the dashboard               (^G^P)
#   GRIT_PICKER_KEY='^T^R'         open the picker                  (^G^G)
#   GRIT_PICKER_HEIGHT=100%        how much screen it takes         (80%)
#   GRIT_PICKER_PREVIEW=down,60%   where the detail pane goes       (right,60%)

: \"${GRIT_PREVIEW_KEY:=^G^P}\"
: \"${GRIT_PICKER_KEY:=^G^G}\"
: \"${GRIT_PICKER_HEIGHT:=80%}\"
: \"${GRIT_PICKER_PREVIEW:=right,60%}\"

# Jump to a registered repository: gcd <alias>
gcd() {
  local dir
  dir=\"$(grit shell path \"$1\")\" || return
  builtin cd -- \"$dir\"
}

# Keep the dashboard warm: a fresh reading in the background, at most once
# every thirty seconds, whenever a prompt is drawn.
_grit_refresh() {
  (grit shell refresh --max-age 30 >/dev/null 2>&1 &)
}

case \";${PROMPT_COMMAND:-};\" in
  *\";_grit_refresh;\"*) ;;
  *) PROMPT_COMMAND=\"_grit_refresh${PROMPT_COMMAND:+;$PROMPT_COMMAND}\" ;;
esac

# A key written as `^G^P` in readline's spelling, `\\C-g\\C-p`.
_grit_keyseq() {
  local k=$1 out=
  while [[ -n $k ]]; do
    if [[ ${k:0:1} == '^' && ${#k} -ge 2 ]]; then
      local c=${k:1:1}
      out+=\"\\\\C-${c,,}\"
      k=${k:2}
    else
      out+=${k:0:1}
      k=${k:1}
    fi
  done
  printf '%s' \"$out\"
}

# The dashboard on demand: the last reading, or a fresh one if there is none.
_grit_dashboard() {
  printf '\\n'
  grit status --cached 2>/dev/null || grit status
}

# The repo picker: enter puts `grit <alias> ` on the line, ctrl-d goes to
# the repo, ctrl-r takes a fresh reading.
_grit_picker() {
  if ! command -v fzf >/dev/null 2>&1; then
    printf 'grit: the picker needs fzf\\n' >&2
    return
  fi
  local out key line alias
  out=\"$(grit --color always shell rows --cached | fzf --ansi --no-sort --reverse \\
    --height \"$GRIT_PICKER_HEIGHT\" \\
    --preview 'grit --color always detail {1}' --preview-window \"$GRIT_PICKER_PREVIEW\" \\
    --expect ctrl-d --bind 'ctrl-r:reload(grit --color always shell rows)')\" || return
  key=${out%%$'\\n'*}
  line=${out#*$'\\n'}
  [[ $line == \"$out\" ]] && return
  alias=${line%% *}
  [[ -n $alias ]] || return
  if [[ $key == ctrl-d ]]; then
    gcd \"$alias\"
  else
    READLINE_LINE=\"grit $alias \"
    READLINE_POINT=${#READLINE_LINE}
  fi
}

bind -x \"\\\"$(_grit_keyseq \"$GRIT_PREVIEW_KEY\")\\\": _grit_dashboard\"
bind -x \"\\\"$(_grit_keyseq \"$GRIT_PICKER_KEY\")\\\": _grit_picker\"
";

/// The integration script for fish.
pub const FISH_SCRIPT: &'static str = "# grit shell integration for fish.
#
# Load it from ~/.config/fish/config.fish with
#   grit shell init fish | source
# or let grit write that for you: grit shell enable fish
#
# fish runs no hook while you sit at the prompt, so the dashboard is drawn on
# a key: ^G^P. ^G^G opens the repo picker, which needs fzf. Set these before
# the source, keys in fish's own spelling:
#   set -g GRIT_PREVIEW_KEY \\ct             draw the dashboard     (\\cg\\cp)
#   set -g GRIT_PICKER_KEY \\ct\\cr           open the picker        (\\cg\\cg)
#   set -g GRIT_PICKER_HEIGHT 100%          how much screen it takes (80%)
#   set -g GRIT_PICKER_PREVIEW down,60%     where the detail pane goes (right,60%)

set -q GRIT_PICKER_HEIGHT; or set -g GRIT_PICKER_HEIGHT 80%
set -q GRIT_PICKER_PREVIEW; or set -g GRIT_PICKER_PREVIEW right,60%

# Jump to a registered repository: gcd <alias>
function gcd
    set -l dir (grit shell path $argv[1]); or return
    builtin cd -- $dir
end

# Keep the dashboard warm: a fresh reading in the background, at most once
# every thirty seconds, whenever a prompt is drawn.
function __grit_refresh --on-event fish_prompt
    command grit shell refresh --max-age 30 >/dev/null 2>&1 &
    disown 2>/dev/null
end

# The dashboard on demand: the last reading, or a fresh one if there is none.
function __grit_dashboard
    echo
    grit status --cached 2>/dev/null; or grit status
    commandline -f repaint
end

# The repo picker: enter puts `grit <alias> ` on the line, ctrl-d goes to
# the repo, ctrl-r takes a fresh reading.
function __grit_picker
    if not type -q fzf
        echo 'grit: the picker needs fzf' >&2
        commandline -f repaint
        return
    end
    set -l out (grit --color always shell rows --cached | fzf --ansi --no-sort --reverse \\
        --height $GRIT_PICKER_HEIGHT \\
        --preview 'grit --color always detail {1}' --preview-window $GRIT_PICKER_PREVIEW \\
        --expect ctrl-d --bind 'ctrl-r:reload(grit --color always shell rows)')
    or begin
        commandline -f repaint
        return
    end
    set -l alias (string split -m1 ' ' -- $out[2])[1]
    if test -n \"$alias\"
        if test \"$out[1]\" = ctrl-d
            gcd $alias
        else
            commandline -r \"grit $alias \"
        end
    end
    commandline -f repaint
end

if set -q GRIT_PREVIEW_KEY
    bind $GRIT_PREVIEW_KEY __grit_dashboard
else
    bind \\cg\\cp __grit_dashboard
end
if set -q GRIT_PICKER_KEY
    bind $GRIT_PICKER_KEY __grit_picker
else
    bind \\cg\\cg __grit_picker
end
";

/// The script for a shell.
pub open spec fn script_of(shell: Shell) -> Seq<char> {
    match shell {
        Shell::Zsh => ZSH_SCRIPT@,
        Shell::Bash => BASH_SCRIPT@,
        Shell::Fish => FISH_SCRIPT@,
    }
}

/// The integration for a shell: what `grit shell init` prints.
pub fn script(shell: Shell) -> (res: &'static str)
    ensures
        res@ == script_of(shell),
{
    match shell {
        Shell::Zsh => ZSH_SCRIPT,
        Shell::Bash => BASH_SCRIPT,
        Shell::Fish => FISH_SCRIPT,
    }
}

/// The line that loads the integration.
pub open spec fn eval_line_of(shell: Shell) -> Seq<char> {
    match shell {
        Shell::Fish => "grit shell init fish | source"@,
        Shell::Zsh => "eval \"$(grit shell init zsh)\""@,
        Shell::Bash => "eval \"$(grit shell init bash)\""@,
    }
}

/// The line that loads the integration: fish has no `eval "$(...)"`, so a
/// pipe into `source` is its idiom.
pub fn eval_line(shell: Shell) -> (res: String)
    ensures
        res@ == eval_line_of(shell),
{
    match shell {
        Shell::Fish => owned("grit shell init fish | source"),
        Shell::Zsh => owned("eval \"$(grit shell init zsh)\""),
        Shell::Bash => owned("eval \"$(grit shell init bash)\""),
    }
}

/// The marker line in front of what grit writes into a startup file.
pub const BEGIN: &'static str = "# >>> grit shell integration >>>";

/// The marker line after what grit writes into a startup file.
pub const END: &'static str = "# <<< grit shell integration <<<";

/// What was found in a startup file, and what was done about it.
#[derive(Debug, Clone, Copy, PartialEq, Eq, Structural)]
pub enum Change {
    Added,
    AlreadyEnabled,
    Removed,
    NotEnabled,
    /// Loaded by a line grit did not write. Reported rather than edited: a
    /// hand-written line may be doing more than the block would.
    Managed,
}

/// The block grit writes, markers and all.
pub open spec fn block_of(shell: Shell) -> Seq<char> {
    BEGIN@ + "\n"@ + eval_line_of(shell) + "\n"@ + END@ + "\n"@
}

/// The block grit writes, markers and all.
pub fn block(shell: Shell) -> (res: String)
    ensures
        res@ == block_of(shell),
{
    let mut s = owned(BEGIN);
    push_str(&mut s, "\n");
    let line = eval_line(shell);
    push_str(&mut s, line.as_str());
    push_str(&mut s, "\n");
    push_str(&mut s, END);
    push_str(&mut s, "\n");
    s
}

/// A line that loads the integration: it names `grit shell init` and is not
/// a comment.
pub open spec fn live_mention(line: Seq<char>) -> bool {
    !has_prefix(trim_start_ws(line), "#"@) && find(line, "grit shell init"@) >= 0
}

/// Some line of the text loads the integration.
pub open spec fn mentions(text: Seq<char>) -> bool {
    exists|i: int| 0 <= i < lines_of(text).len() && live_mention(#[trigger] lines_of(text)[i])
}

/// The integration is loaded, however it got there.
pub open spec fn enabled(text: Seq<char>) -> bool {
    find(text, BEGIN@) >= 0 || mentions(text)
}

/// A line that loads the integration without grit's markers around it.
pub fn mentions_init(contents: &str) -> (res: bool)
    ensures
        res == mentions(contents@),
{
    let c = chars_of(contents);
    let all = lines(&c);
    let key = chars_of("grit shell init");
    let hash = chars_of("#");
    let n = all.len();
    let mut i: usize = 0;
    while i < n
        invariant
            n == all@.len(),
            texts(all@) == lines_of(contents@),
            key@ == "grit shell init"@,
            hash@ == "#"@,
            i <= n,
            forall|k: int| 0 <= k < i ==> !live_mention(#[trigger] lines_of(contents@)[k]),
        decreases n - i,
    {
        let line = &all[i];
        let lead = trim_start(line);
        assert(texts(all@)[i as int] == line@);
        if !starts_with(&lead, &hash) && contains(line, &key) {
            assert(live_mention(lines_of(contents@)[i as int]));
            return true;
        }
        i += 1;
    }
    false
}

/// True when the integration is loaded, however it got there.
pub fn is_enabled(contents: &str) -> (res: bool)
    ensures
        res == enabled(contents@),
{
    let c = chars_of(contents);
    let b = chars_of(BEGIN);
    contains(&c, &b) || mentions_init(contents)
}

/// The text with the block added after it, on a line of its own and behind
/// a blank line unless the text is empty.
pub open spec fn added(text: Seq<char>, shell: Shell) -> Seq<char> {
    let lead = if text.len() == 0 {
        text
    } else if text.last() != '\n' {
        text + "\n\n"@
    } else {
        text + "\n"@
    };
    lead + block_of(shell)
}

/// `contents` with the block appended, or `None` if it is already loaded.
pub fn with_block(contents: &str, shell: Shell) -> (res: Option<String>)
    ensures
        match res {
            Some(out) => !enabled(contents@) && out@ == added(contents@, shell),
            None => enabled(contents@),
        },
{
    if is_enabled(contents) {
        return None;
    }
    let c = chars_of(contents);
    let mut out = owned(contents);
    if c.len() > 0 && c[c.len() - 1] != '\n' {
        out.push('\n');
    }
    if c.len() > 0 {
        out.push('\n');
    }
    let b = block(shell);
    push_str(&mut out, b.as_str());
    proof {
        reveal_strlit("\n\n");
        reveal_strlit("\n");
        if c@.len() > 0 && c@.last() != '\n' {
            assert(contents@ + "\n\n"@ =~= contents@.push('\n').push('\n'));
        } else if c@.len() > 0 {
            assert(contents@ + "\n"@ =~= contents@.push('\n'));
        }
    }
    Some(out)
}

/// The text with grit's block taken out: from the first start marker to the
/// first end marker after it, together with the one newline on each side
/// that adding it put there. `None` if there is no block to take.
pub open spec fn removed(text: Seq<char>) -> Option<Seq<char>> {
    let start = find(text, BEGIN@);
    if start < 0 {
        None
    } else {
        let rel = find(text.skip(start), END@);
        if rel < 0 {
            None
        } else {
            let end = start + rel + END@.len();
            let head = text.take(start);
            let head = if has_suffix(head, "\n\n"@) {
                head.drop_last()
            } else {
                head
            };
            let tail = text.skip(end);
            let tail = if tail.len() > 0 && tail[0] == '\n' {
                tail.drop_first()
            } else {
                tail
            };
            Some(head + tail)
        }
    }
}

/// `contents` with grit's block taken out, or `None` if there is none.
pub fn without_block(contents: &str) -> (res: Option<String>)
    ensures
        match res {
            Some(out) => removed(contents@) == Some(out@),
            None => removed(contents@) is None,
        },
{
    let c = chars_of(contents);
    let b = chars_of(BEGIN);
    let e = chars_of(END);
    let start = match find_in(&c, &b) {
        Some(k) => k,
        None => {
            return None;
        },
    };
    proof {
        lemma_find(c@, b@);
    }
    let at = match find_from(&c, start, &e) {
        Some(k) => k,
        None => {
            return None;
        },
    };
    proof {
        lemma_find(c@.skip(start as int), e@);
        assert(c@.skip(start as int).len() == c@.len() - start);
        assert(occurs_at(c@.skip(start as int), e@, at - start));
        reveal_strlit("\n\n");
    }
    let elen = e.len();
    let clen = c.len();
    assert(at + elen <= clen);
    let end = at + elen;
    let head = slice(&c, 0, start);
    let two = chars_of("\n\n");
    let head_len = if ends_with(&head, &two) {
        start - 1
    } else {
        start
    };
    let mut out = string_of_range(&c, 0, head_len);
    let from = if end < c.len() && c[end] == '\n' {
        end + 1
    } else {
        end
    };
    let tail = slice(&c, from, c.len());
    push_all(&mut out, &tail);
    proof {
        let hd = c@.take(start as int);
        assert(head@ =~= hd);
        if has_suffix(hd, "\n\n"@) {
            assert(c@.subrange(0, head_len as int) =~= hd.drop_last());
        } else {
            assert(c@.subrange(0, head_len as int) =~= hd);
        }
        let tl = c@.skip(end as int);
        if tl.len() > 0 && tl[0] == '\n' {
            assert(tail@ =~= tl.drop_first());
        } else {
            assert(tail@ =~= tl);
        }
    }
    Some(out)
}

/// What enabling the integration on a startup file holding `contents` comes
/// to: the change, and the new text to write when there is one.
pub open spec fn enable_plan(contents: Seq<char>, shell: Shell) -> (Change, Option<Seq<char>>) {
    if mentions(contents) && find(contents, BEGIN@) < 0 {
        (Change::Managed, None)
    } else if enabled(contents) {
        (Change::AlreadyEnabled, None)
    } else {
        (Change::Added, Some(added(contents, shell)))
    }
}

/// Decide what enabling the integration does to a startup file that holds
/// `contents` (an absent file reads as empty): the change, and the text to
/// write back when there is something to write.
pub fn enable(contents: &str, shell: Shell) -> (res: (Change, Option<String>))
    ensures
        res.0 == enable_plan(contents@, shell).0,
        match res.1 {
            Some(out) => enable_plan(contents@, shell).1 == Some(out@),
            None => enable_plan(contents@, shell).1 is None,
        },
{
    let c = chars_of(contents);
    let b = chars_of(BEGIN);
    if mentions_init(contents) && !contains(&c, &b) {
        return (Change::Managed, None);
    }
    match with_block(contents, shell) {
        None => (Change::AlreadyEnabled, None),
        Some(updated) => (Change::Added, Some(updated)),
    }
}

/// What disabling the integration on a startup file holding `contents`
/// comes to: the change, and the new text to write when there is one.
pub open spec fn disable_plan(contents: Seq<char>) -> (Change, Option<Seq<char>>) {
    match removed(contents) {
        Some(out) => (Change::Removed, Some(out)),
        None => if mentions(contents) {
            (Change::Managed, None)
        } else {
            (Change::NotEnabled, None)
        },
    }
}

/// Decide what disabling the integration does to a startup file that holds
/// `contents`: the change, and the text to write back when there is
/// something to write.
pub fn disable(contents: &str) -> (res: (Change, Option<String>))
    ensures
        res.0 == disable_plan(contents@).0,
        match res.1 {
            Some(out) => disable_plan(contents@).1 == Some(out@),
            None => disable_plan(contents@).1 is None,
        },
{
    match without_block(contents) {
        Some(updated) => (Change::Removed, Some(updated)),
        None => if mentions_init(contents) {
            (Change::Managed, None)
        } else {
            (Change::NotEnabled, None)
        },
    }
}

/// `dir` joined with the relative path `name`, as `Path::join` does.
pub open spec fn joined_path(dir: Seq<char>, name: Seq<char>) -> Seq<char> {
    if dir.len() == 0 || dir.last() == '/' {
        dir + name
    } else {
        dir + "/"@ + name
    }
}

/// `dir` joined with the relative path `name`.
pub fn join_path(dir: &str, name: &str) -> (res: String)
    ensures
        res@ == joined_path(dir@, name@),
{
    let d = chars_of(dir);
    let mut s = owned(dir);
    if d.len() > 0 && d[d.len() - 1] != '/' {
        push_str(&mut s, "/");
    }
    push_str(&mut s, name);
    s
}

/// A directory named by an environment variable, when it is set and not
/// empty.
pub open spec fn set_dir(var: Option<Seq<char>>) -> Option<Seq<char>> {
    match var {
        Some(d) => if d.len() > 0 {
            Some(d)
        } else {
            None
        },
        None => None,
    }
}

/// Where a shell reads its interactive startup from, given the home
/// directory and the values of `$ZDOTDIR` and `$XDG_CONFIG_HOME`.
pub open spec fn rc_path_of(
    shell: Shell,
    home: Seq<char>,
    zdotdir: Option<Seq<char>>,
    xdg_config_home: Option<Seq<char>>,
) -> Seq<char> {
    match shell {
        Shell::Zsh => match set_dir(zdotdir) {
            Some(d) => joined_path(d, ".zshrc"@),
            None => joined_path(home, ".zshrc"@),
        },
        Shell::Bash => joined_path(home, ".bashrc"@),
        Shell::Fish => match set_dir(xdg_config_home) {
            Some(d) => joined_path(joined_path(d, "fish"@), "config.fish"@),
            None => joined_path(joined_path(joined_path(home, ".config"@), "fish"@), "config.fish"@),
        },
    }
}

/// The view of an optional text.
pub open spec fn opt_view(o: Option<&str>) -> Option<Seq<char>> {
    match o {
        Some(s) => Some(s@),
        None => None,
    }
}

/// Where a shell reads its interactive startup from: zsh respects
/// `$ZDOTDIR`, fish `$XDG_CONFIG_HOME`.
pub fn rc_path_in(shell: Shell, home: &str, zdotdir: Option<&str>, xdg_config_home: Option<&str>) -> (res:
    String)
    ensures
        res@ == rc_path_of(shell, home@, opt_view(zdotdir), opt_view(xdg_config_home)),
{
    match shell {
        Shell::Zsh => match zdotdir {
            Some(d) if !d.is_empty() => join_path(d, ".zshrc"),
            _ => join_path(home, ".zshrc"),
        },
        Shell::Bash => join_path(home, ".bashrc"),
        Shell::Fish => match xdg_config_home {
            Some(d) if !d.is_empty() => {
                let f = join_path(d, "fish");
                join_path(f.as_str(), "config.fish")
            },
            _ => {
                let c = join_path(home, ".config");
                let f = join_path(c.as_str(), "fish");
                join_path(f.as_str(), "config.fish")
            },
        },
    }
}

/// Where a shell reads its interactive startup from, given the values of
/// `$ZDOTDIR` and `$XDG_CONFIG_HOME`; an error when there is no home
/// directory to put it in.
pub fn rc_path(shell: Shell, zdotdir: Option<&str>, xdg_config_home: Option<&str>) -> (res: Result<
    String,
    Error,
>)
    ensures
        match res {
            Ok(p) => exists|home: Seq<char>|
                p@ == rc_path_of(shell, home, opt_view(zdotdir), opt_view(xdg_config_home)),
            Err(e) => e is NoConfigHome,
        },
{
    match home_dir() {
        Ok(home) => Ok(rc_path_in(shell, home.as_str(), zdotdir, xdg_config_home)),
        Err(why) => {
            let mut s = owned("no home directory found (");
            push_str(&mut s, why.as_str());
            push_str(&mut s, ")");
            Err(Error::NoConfigHome(s))
        },
    }
}


/// No character of `s` is `x`.
pub open spec fn lacks(s: Seq<char>, x: char) -> bool
    decreases s.len(),
{
    s.len() == 0 || (s[0] != x && lacks(s.drop_first(), x))
}

proof fn lemma_lacks(s: Seq<char>, x: char)
    requires
        lacks(s, x),
    ensures
        forall|i: int| 0 <= i < s.len() ==> s[i] != x,
    decreases s.len(),
{
    if s.len() > 0 {
        lemma_lacks(s.drop_first(), x);
        assert forall|i: int| 0 <= i < s.len() implies s[i] != x by {
            if i > 0 {
                assert(s[i] == s.drop_first()[i - 1]);
            }
        }
    }
}

/// If `p[j]` is nowhere in the first `m + j` characters of `s`, then `p`
/// occurs at none of the first `m` positions.
proof fn lemma_no_match_before(s: Seq<char>, p: Seq<char>, j: int, m: int)
    requires
        0 <= j < p.len(),
        forall|i: int| 0 <= i < m + j && i < s.len() ==> s[i] != p[j],
    ensures
        forall|k: int| 0 <= k < m ==> !occurs_at(s, p, k),
{
    assert forall|k: int| 0 <= k < m implies !occurs_at(s, p, k) by {
        if occurs_at(s, p, k) {
            assert(s.subrange(k, k + p.len())[j] == s[k + j]);
        }
    }
}

/// The first occurrence is where it is found to be.
proof fn lemma_find_at(s: Seq<char>, p: Seq<char>, m: int)
    requires
        occurs_at(s, p, m),
        forall|k: int| 0 <= k < m ==> !occurs_at(s, p, k),
    ensures
        find(s, p) == m,
{
    lemma_find(s, p);
}

/// The literal facts the laws below rest on.
proof fn lemma_marker_text(shell: Shell)
    ensures
        lacks(BEGIN@, '\n'),
        lacks(BEGIN@, '<'),
        lacks(eval_line_of(shell), '<'),
        BEGIN@.len() > 0,
        END@.len() > 2,
        END@[0] == '#',
        END@[1] == ' ',
        END@[2] == '<',
        "\n"@ == seq!['\n'],
        "\n\n"@ == seq!['\n', '\n'],
{
    reveal_strlit("# >>> grit shell integration >>>");
    reveal_strlit("# <<< grit shell integration <<<");
    reveal_strlit("\n");
    reveal_strlit("\n\n");
    reveal_strlit("grit shell init fish | source");
    reveal_strlit("eval \"$(grit shell init zsh)\"");
    reveal_strlit("eval \"$(grit shell init bash)\"");
    reveal_with_fuel(lacks, 40);
}

/// Where the block starts in the text it was added to.
pub open spec fn lead_len(text: Seq<char>) -> int {
    if text.len() == 0 {
        0
    } else if text.last() != '\n' {
        text.len() + 2int
    } else {
        text.len() + 1int
    }
}

/// The start marker of the added block is the first one in the result.
proof fn lemma_added_begin(text: Seq<char>, shell: Shell)
    requires
        find(text, BEGIN@) < 0,
    ensures
        find(added(text, shell), BEGIN@) == lead_len(text),
        added(text, shell).skip(lead_len(text)) == block_of(shell),
        added(text, shell).take(lead_len(text)) == if text.len() == 0 {
            text
        } else if text.last() != '\n' {
            text + "\n\n"@
        } else {
            text + "\n"@
        },
{
    lemma_marker_text(shell);
    lemma_lacks(BEGIN@, '\n');
    lemma_find(text, BEGIN@);
    let s = added(text, shell);
    let p = BEGIN@;
    let n = lead_len(text);
    let b = block_of(shell);
    assert(s.skip(n) =~= b);
    assert(s.subrange(n, n + p.len()) =~= p);
    assert forall|k: int| 0 <= k < n implies !occurs_at(s, p, k) by {
        if occurs_at(s, p, k) {
            if k + p.len() <= text.len() {
                assert(text.subrange(k, k + p.len()) =~= s.subrange(k, k + p.len()));
                assert(occurs_at(text, p, k));
            } else {
                let i = if k >= text.len() {
                    k
                } else {
                    text.len() as int
                };
                assert(s[i] == '\n');
                assert(s.subrange(k, k + p.len())[i - k] == s[i]);
            }
        }
    }
    lemma_find_at(s, p, n);
}

/// The end marker of a block is the first one in it.
proof fn lemma_block_end(shell: Shell)
    ensures
        ({
            let m: int = BEGIN@.len() + 1int + eval_line_of(shell).len() + 1int;
            &&& find(block_of(shell), END@) == m
            &&& block_of(shell).skip(m + END@.len()) == "\n"@
        }),
{
    lemma_marker_text(shell);
    lemma_lacks(BEGIN@, '<');
    lemma_lacks(eval_line_of(shell), '<');
    let b = block_of(shell);
    let e = END@;
    let m: int = BEGIN@.len() + 1int + eval_line_of(shell).len() + 1int;
    assert(b.subrange(m, m + e.len()) =~= e);
    assert forall|i: int| 0 <= i < m + 2 && i < b.len() implies b[i] != e[2] by {
        if i < BEGIN@.len() {
            assert(b[i] == BEGIN@[i]);
        } else if i == BEGIN@.len() {
        } else if i < BEGIN@.len() + 1 + eval_line_of(shell).len() {
            assert(b[i] == eval_line_of(shell)[i - BEGIN@.len() - 1]);
        } else if i < m {
        } else {
            assert(b[i] == e[i - m]);
        }
    }
    lemma_no_match_before(b, e, 2, m);
    lemma_find_at(b, e, m);
    assert(b.skip(m + e.len()) =~= "\n"@);
}

/// Disabling undoes enabling: taking the block back out of a startup file
/// that did not load the integration gives back exactly the file it was, as
/// long as that file was empty or ended its last line.
pub proof fn law_disable_undoes_enable(text: Seq<char>, shell: Shell)
    requires
        !enabled(text),
        text.len() == 0 || text.last() == '\n',
    ensures
        removed(added(text, shell)) == Some(text),
{
    lemma_marker_text(shell);
    lemma_added_begin(text, shell);
    lemma_block_end(shell);
    let s = added(text, shell);
    let n = lead_len(text);
    let m: int = BEGIN@.len() + 1int + eval_line_of(shell).len() + 1int;
    let end: int = n + m + END@.len();
    assert(s.skip(n) == block_of(shell));
    assert(s.skip(end) =~= block_of(shell).skip(m + END@.len()));
    let head = s.take(n);
    if text.len() > 0 {
        assert(head =~= text + "\n"@);
        assert(head.take(head.len() - 2) =~= text.drop_last());
        assert(has_suffix(head, "\n\n"@)) by {
            assert(head.skip(head.len() - 2) =~= seq!['\n', '\n']);
        }
        assert(head.drop_last() =~= text);
    } else {
        assert(head =~= text);
    }
    assert(s.skip(end).drop_first() =~= Seq::<char>::empty());
    assert(removed(s) == Some(text)) by {
        if text.len() > 0 {
            assert(head.drop_last() + s.skip(end).drop_first() =~= text);
        } else {
            assert(!has_suffix(head, "\n\n"@));
            assert(head + s.skip(end).drop_first() =~= text);
        }
    }
}

/// Enabling twice adds nothing: once the block is added the integration
/// reads as loaded.
pub proof fn law_enabling_twice_adds_nothing(text: Seq<char>, shell: Shell)
    ensures
        enabled(added(text, shell)),
{
    lemma_marker_text(shell);
    let s = added(text, shell);
    let n = lead_len(text);
    assert(s.subrange(n, n + BEGIN@.len()) =~= BEGIN@);
    assert(occurs_at(s, BEGIN@, n));
    lemma_find(s, BEGIN@);
}

} // verus!
