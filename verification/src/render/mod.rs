//! Turning data into terminal output.
//!
//! Commands build tables and lines and hand them a colour setting and a
//! width; nothing in here knows about the registry or about git.
pub mod svg;
pub mod table;
pub mod theme;

use owo_colors::OwoColorize;
use vstd::prelude::*;

use crate::render::table::{display_width, text_width};
use crate::render::theme::{Color, Style, Theme, BULLET, RULE, dim, hue, strong};
use crate::text::{decimal, join, joined, owned, push_decimal, push_str, views};

verus! {

/// What owo-colors writes for `text` painted in `style`: the style's ANSI
/// prefix, the text, and the reset.
pub uninterp spec fn ansi_painted(text: Seq<char>, style: Style) -> Seq<char>;

/// `owo_colors::OwoColorize::style` on a string, displayed: the style is
/// rebuilt field by field as owo-colors' own, and what its `Display` writes
/// is returned as it is.
#[verifier::external_body]
fn ansi(text: &str, style: Style) -> (res: String)
    ensures
        res@ == ansi_painted(text@, style),
{
    let mut s = owo_colors::Style::new();
    s = match style.fg {
        Some(Color::Red) => s.red(),
        Some(Color::Green) => s.green(),
        Some(Color::Yellow) => s.yellow(),
        Some(Color::Blue) => s.blue(),
        Some(Color::Magenta) => s.magenta(),
        Some(Color::Cyan) => s.cyan(),
        Some(Color::Xterm(n)) => s.color(owo_colors::XtermColors::from(n)),
        None => s,
    };
    s = if style.bold { s.bold() } else { s };
    s = if style.dimmed { s.dimmed() } else { s };
    format!("{}", text.style(s))
}

/// Text as painted: escaped in its style when colour is on and there is
/// something to paint, as it is otherwise.
pub open spec fn painted(text: Seq<char>, style: Style, color: bool) -> Seq<char> {
    if color && text.len() > 0 {
        ansi_painted(text, style)
    } else {
        text
    }
}

/// Apply a style, or don't.
pub fn paint(text: &str, style: Style, color: bool) -> (res: String)
    ensures
        res@ == painted(text@, style, color),
{
    if color && !text.is_empty() {
        ansi(text, style)
    } else {
        owned(text)
    }
}

/// `1 repo` / `3 repos`: the count, and the word that agrees with it.
pub open spec fn counted(n: nat, singular: Seq<char>, plural: Seq<char>) -> Seq<char> {
    decimal(n) + " "@ + if n == 1 {
        singular
    } else {
        plural
    }
}

/// `1 repo` / `3 repos`, because "1 repos" looks careless.
pub fn plural(n: usize, one: &str, many: &str) -> (res: String)
    ensures
        res@ == counted(n as nat, one@, many@),
{
    let mut s = String::new();
    push_decimal(&mut s, n as u64);
    push_str(&mut s, " ");
    if n == 1 {
        push_str(&mut s, one);
    } else {
        push_str(&mut s, many);
    }
    s
}

/// The separator between the parts of a footer.
pub open spec fn footer_sep() -> Seq<char> {
    " "@ + BULLET@ + " "@
}

/// The one-line summary under a table: the parts joined with a bullet,
/// muted and indented; nothing at all when there are no parts.
pub open spec fn footer_of(parts: Seq<Seq<char>>, color: bool) -> Seq<char> {
    if parts.len() == 0 {
        Seq::empty()
    } else {
        "  "@ + painted(joined(parts, footer_sep()), dim(), color) + "\n"@
    }
}

/// The one-line summary printed under a table, e.g. `4 repos · 1 dirty`.
pub fn footer(parts: &Vec<String>, color: bool) -> (res: String)
    ensures
        res@ == footer_of(views(parts@), color),
{
    if parts.len() == 0 {
        return String::new();
    }
    let mut sep = owned(" ");
    push_str(&mut sep, BULLET);
    push_str(&mut sep, " ");
    let joined_parts = join(parts, sep.as_str());
    let mut s = owned("  ");
    let painted_parts = paint(joined_parts.as_str(), Theme::muted(), color);
    push_str(&mut s, painted_parts.as_str());
    push_str(&mut s, "\n");
    s
}

/// The receipt printed under a repo's output during a fan-out, e.g. `  ✓ ok`,
/// indented to sit under the divider.
pub fn outcome(note: &str, style: Style, color: bool) -> (res: String)
    ensures
        res@ == "  "@ + painted(note@, style, color) + "\n"@,
{
    let mut s = owned("  ");
    let p = paint(note, style, color);
    push_str(&mut s, p.as_str());
    push_str(&mut s, "\n");
    s
}

/// `n` copies of `s`.
pub open spec fn repeated(s: Seq<char>, n: nat) -> Seq<char>
    decreases n,
{
    if n == 0 {
        Seq::empty()
    } else {
        repeated(s, (n - 1) as nat) + s
    }
}

/// `n` copies of `s`, as `str::repeat` gives them.
pub fn repeat(s: &str, n: usize) -> (res: String)
    ensures
        res@ == repeated(s@, n as nat),
{
    let mut out = String::new();
    let mut i: usize = 0;
    while i < n
        invariant
            i <= n,
            out@ == repeated(s@, i as nat),
        decreases n - i,
    {
        push_str(&mut out, s);
        i += 1;
    }
    out
}

/// The widest a divider gets: a separator, not a banner.
pub const DIVIDER_MAX: usize = 72;

/// A dim `── alias ─────` divider, as wide as the terminal up to
/// [`DIVIDER_MAX`] columns.
pub open spec fn divider_of(label: Seq<char>, width: Option<usize>, color: bool) -> Seq<char> {
    let lead = repeated(RULE@, 2);
    let head = lead + " "@ + label + " "@;
    let total: int = match width {
        Some(w) => if w < DIVIDER_MAX {
            w as int
        } else {
            DIVIDER_MAX as int
        },
        None => DIVIDER_MAX as int,
    };
    let fill: nat = if total > display_width(head) {
        (total - display_width(head)) as nat
    } else {
        0
    };
    painted(lead, hue(Color::Xterm(238)), color) + painted(" "@ + label + " "@, strong(), color)
        + painted(repeated(RULE@, fill), hue(Color::Xterm(238)), color) + "\n"@
}

/// A dim `── alias ─────` divider, used between repos during a fan-out.
pub fn divider(label: &str, width: Option<usize>, color: bool) -> (res: String)
    ensures
        res@ == divider_of(label@, width, color),
{
    let lead = repeat(RULE, 2);
    let mut head = lead.clone();
    push_str(&mut head, " ");
    push_str(&mut head, label);
    push_str(&mut head, " ");
    let total: usize = match width {
        Some(w) => if w < DIVIDER_MAX {
            w
        } else {
            DIVIDER_MAX
        },
        None => DIVIDER_MAX,
    };
    let used = text_width(head.as_str());
    let fill: usize = if total > used {
        total - used
    } else {
        0
    };
    let tail = repeat(RULE, fill);
    let mut spaced = owned(" ");
    push_str(&mut spaced, label);
    push_str(&mut spaced, " ");
    let mut out = paint(lead.as_str(), Theme::rule(), color);
    let mid = paint(spaced.as_str(), Style::new().bold(), color);
    push_str(&mut out, mid.as_str());
    let end = paint(tail.as_str(), Theme::rule(), color);
    push_str(&mut out, end.as_str());
    push_str(&mut out, "\n");
    out
}

} // verus!
