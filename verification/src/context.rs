//! Everything a command needs that is not its own arguments.
//!
//! Commands take a [`Ctx`] rather than reading globals, which is what lets a
//! test point grit at a throwaway registry and force colour off.
use vstd::prelude::*;

use crate::registry::Registry;
use crate::text::{chars_of, parse_bounded, parse_unsigned_up_to, trim, trim_ws};

verus! {

/// The registry, and how output is to be drawn.
pub struct Ctx {
    pub registry: Registry,
    /// Already resolved: no command has to think about `NO_COLOR`.
    pub color: bool,
    /// Terminal width in columns, if known.
    pub width: Option<usize>,
}

impl Ctx {
    /// A context over an explicit registry, with colour and width fixed.
    pub fn with_registry(registry: Registry, color: bool, width: Option<usize>) -> (res: Ctx)
        ensures
            res.registry == registry,
            res.color == color,
            res.width == width,
    {
        Ctx { registry, color, width }
    }
}

/// A width an environment variable gives: set, a whole number once trimmed,
/// and not zero, because a table fitted to no columns at all is every cell
/// cut back to its ellipsis.
pub open spec fn width_of(value: Option<Seq<char>>) -> Option<usize> {
    match value {
        Some(v) => match parse_bounded(trim_ws(v), usize::MAX as nat) {
            Some(n) if n > 0 => Some(n as usize),
            _ => None,
        },
        None => None,
    }
}

/// The view of an optional text.
pub open spec fn opt_view(o: Option<&str>) -> Option<Seq<char>> {
    match o {
        Some(s) => Some(s@),
        None => None,
    }
}

/// A width from an environment variable's value, if it means anything.
pub fn env_width(value: Option<&str>) -> (res: Option<usize>)
    ensures
        res == width_of(opt_view(value)),
{
    match value {
        Some(v) => {
            let c = chars_of(v);
            let t = trim(&c);
            match parse_unsigned_up_to(&t, usize::MAX as u64) {
                Some(n) if n > 0 => Some(n as usize),
                _ => None,
            }
        },
        None => None,
    }
}

/// `terminal_size::terminal_size`: the width of the first of stdout, stderr
/// and stdin that is a terminal. Which width depends on the terminal, so only
/// this is stated: a terminal reporting no columns gives `None`, so a width
/// it does give is at least one column, and it is a `u16`.
#[verifier::external_body]
fn measured_width() -> (res: Option<usize>)
    ensures
        res matches Some(w) ==> 0 < w <= u16::MAX,
{
    match terminal_size::terminal_size() {
        Some((w, _)) => Some(w.0 as usize),
        None => None,
    }
}

/// The width to lay out to. The most specific name wins: `$FZF_PREVIEW_COLUMNS`
/// (`fzf_preview_columns`), set only inside an fzf preview pane, whose size
/// only fzf knows; then `$COLUMNS` (`columns`), which lets a script pin the
/// geometry; then the terminal itself.
pub fn terminal_width(fzf_preview_columns: Option<&str>, columns: Option<&str>) -> (res: Option<usize>)
    ensures
        width_of(opt_view(fzf_preview_columns)) is Some ==> res == width_of(opt_view(fzf_preview_columns)),
        width_of(opt_view(fzf_preview_columns)) is None && width_of(opt_view(columns)) is Some ==> res
            == width_of(opt_view(columns)),
        res matches Some(w) ==> w > 0,
{
    match env_width(fzf_preview_columns) {
        Some(w) => Some(w),
        None => match env_width(columns) {
            Some(w) => Some(w),
            None => measured_width(),
        },
    }
}

} // verus!
