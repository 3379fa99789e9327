//! Colours and symbols.
//!
//! Every colour grit prints is named here, so the palette can be judged and
//! changed in one place. The vocabulary is small and borrowed from git's own
//! defaults: yellow hashes, cyan refs.
use vstd::prelude::*;

use crate::text::{decimal, decimal_string, owned};

verus! {

/// A foreground colour: one of the named ANSI hues, or an xterm palette slot.
#[derive(Debug, Clone, Copy, PartialEq, Eq, Structural, Hash)]
pub enum Color {
    Red,
    Green,
    Yellow,
    Blue,
    Magenta,
    Cyan,
    Xterm(u8),
}

/// How a run of text is painted: a colour, bold, dimmed, or nothing at all.
#[derive(Debug, Clone, Copy, PartialEq, Eq, Structural, Hash)]
pub struct Style {
    pub fg: Option<Color>,
    pub bold: bool,
    pub dimmed: bool,
}

/// The style that paints nothing.
pub open spec fn plain_style() -> Style {
    Style { fg: None, bold: false, dimmed: false }
}

impl Style {
    /// The style that paints nothing.
    pub fn new() -> (res: Style)
        ensures
            res == plain_style(),
    {
        Style { fg: None, bold: false, dimmed: false }
    }

    /// This style, bold.
    pub fn bold(self) -> (res: Style)
        ensures
            res == (Style { bold: true, ..self }),
    {
        Style { bold: true, ..self }
    }

    /// This style, dimmed.
    pub fn dimmed(self) -> (res: Style)
        ensures
            res == (Style { dimmed: true, ..self }),
    {
        Style { dimmed: true, ..self }
    }

    /// This style in the colour `c`.
    pub fn color(self, c: Color) -> (res: Style)
        ensures
            res == (Style { fg: Some(c), ..self }),
    {
        Style { fg: Some(c), ..self }
    }

    /// Whether this style paints nothing.
    pub fn is_plain(&self) -> (res: bool)
        ensures
            res == (*self == plain_style()),
    {
        self.fg.is_none() && !self.bold && !self.dimmed
    }
}

/// Whether to emit ANSI escapes.
#[derive(Debug, Clone, Copy, PartialEq, Eq, Structural)]
pub enum ColorChoice {
    /// Colour when the stream is a terminal and `NO_COLOR` is unset.
    Auto,
    Always,
    Never,
}

impl Default for ColorChoice {
    fn default() -> (res: ColorChoice)
        ensures
            res == ColorChoice::Auto,
    {
        ColorChoice::Auto
    }
}

/// Whether a stream gets colour: forced on or off, or, left to itself, when
/// it is a terminal and `NO_COLOR` is not set to anything non-empty.
pub open spec fn color_enabled(choice: ColorChoice, stream_is_terminal: bool, no_color: bool) -> bool {
    match choice {
        ColorChoice::Always => true,
        ColorChoice::Never => false,
        ColorChoice::Auto => stream_is_terminal && !no_color,
    }
}

impl ColorChoice {
    /// Resolve to a yes or no for a stream. `no_color` is whether `NO_COLOR`
    /// is set to something non-empty, per <https://no-color.org>.
    pub fn enabled_for(self, stream_is_terminal: bool, no_color: bool) -> (res: bool)
        ensures
            res == color_enabled(self, stream_is_terminal, no_color),
    {
        match self {
            ColorChoice::Always => true,
            ColorChoice::Never => false,
            ColorChoice::Auto => stream_is_terminal && !no_color,
        }
    }
}

/// Whether an environment variable's value asks for no colour: set, and to
/// something non-empty.
pub fn no_color_value(value: Option<&str>) -> (res: bool)
    ensures
        res == match value {
            Some(v) => v@.len() > 0,
            None => false,
        },
{
    match value {
        Some(v) => !v.is_empty(),
        None => false,
    }
}

/// Symbols used in the status column. Single-width so columns stay aligned.
pub const SYNCED: &'static str = "✓";
pub const AHEAD: &'static str = "↑";
pub const BEHIND: &'static str = "↓";
pub const STAGED: &'static str = "●";
pub const UNSTAGED: &'static str = "○";
pub const UNTRACKED: &'static str = "?";
pub const CONFLICT: &'static str = "!";
pub const STASH: &'static str = "⚑";
pub const NONE: &'static str = "·";
pub const ELLIPSIS: &'static str = "…";
pub const RULE: &'static str = "─";
pub const BULLET: &'static str = "·";

/// A dimmed style.
pub open spec fn dim() -> Style {
    Style { fg: None, bold: false, dimmed: true }
}

/// A style that is only a colour.
pub open spec fn hue(c: Color) -> Style {
    Style { fg: Some(c), bold: false, dimmed: false }
}

/// A style that is only bold.
pub open spec fn strong() -> Style {
    Style { fg: None, bold: true, dimmed: false }
}

/// The named styles, grouped by what they mean rather than by colour.
pub struct Theme;

impl Theme {
    pub fn header() -> (res: Style)
        ensures
            res == dim(),
    {
        Style::new().dimmed()
    }

    pub fn rule() -> (res: Style)
        ensures
            res == hue(Color::Xterm(238)),
    {
        Style::new().color(Color::Xterm(238))
    }

    pub fn alias() -> (res: Style)
        ensures
            res == strong(),
    {
        Style::new().bold()
    }

    pub fn branch() -> (res: Style)
        ensures
            res == hue(Color::Cyan),
    {
        Style::new().color(Color::Cyan)
    }

    pub fn detached() -> (res: Style)
        ensures
            res == hue(Color::Magenta),
    {
        Style::new().color(Color::Magenta)
    }

    pub fn sha() -> (res: Style)
        ensures
            res == hue(Color::Yellow),
    {
        Style::new().color(Color::Yellow)
    }

    pub fn subject() -> (res: Style)
        ensures
            res == plain_style(),
    {
        Style::new()
    }

    pub fn muted() -> (res: Style)
        ensures
            res == dim(),
    {
        Style::new().dimmed()
    }

    pub fn path() -> (res: Style)
        ensures
            res == dim(),
    {
        Style::new().dimmed()
    }

    pub fn tag() -> (res: Style)
        ensures
            res == hue(Color::Magenta),
    {
        Style::new().color(Color::Magenta)
    }

    pub fn kind() -> (res: Style)
        ensures
            res == hue(Color::Blue),
    {
        Style::new().color(Color::Blue)
    }

    pub fn ok() -> (res: Style)
        ensures
            res == hue(Color::Green),
    {
        Style::new().color(Color::Green)
    }

    pub fn ahead() -> (res: Style)
        ensures
            res == hue(Color::Yellow),
    {
        Style::new().color(Color::Yellow)
    }

    pub fn behind() -> (res: Style)
        ensures
            res == hue(Color::Red),
    {
        Style::new().color(Color::Red)
    }

    pub fn staged() -> (res: Style)
        ensures
            res == hue(Color::Green),
    {
        Style::new().color(Color::Green)
    }

    pub fn unstaged() -> (res: Style)
        ensures
            res == hue(Color::Yellow),
    {
        Style::new().color(Color::Yellow)
    }

    pub fn untracked() -> (res: Style)
        ensures
            res == hue(Color::Blue),
    {
        Style::new().color(Color::Blue)
    }

    pub fn conflict() -> (res: Style)
        ensures
            res == (Style { fg: Some(Color::Red), bold: true, dimmed: false }),
    {
        Style::new().color(Color::Red).bold()
    }

    pub fn stash() -> (res: Style)
        ensures
            res == hue(Color::Magenta),
    {
        Style::new().color(Color::Magenta)
    }

    pub fn warn() -> (res: Style)
        ensures
            res == hue(Color::Red),
    {
        Style::new().color(Color::Red)
    }

    pub fn banner() -> (res: Style)
        ensures
            res == (Style { fg: Some(Color::Cyan), bold: true, dimmed: false }),
    {
        Style::new().bold().color(Color::Cyan)
    }
}

/// How zsh's `region_highlight` spells a style, if it can: it has no dim
/// attribute, so dimmed text becomes grey 8. Styles that are the same
/// instruction share a spelling; a style with none goes unpainted.
pub open spec fn zsh_spelling(style: Style) -> Option<Seq<char>> {
    if style == plain_style() {
        None
    } else if style == dim() {
        Some("fg=8"@)
    } else if style == hue(Color::Xterm(238)) {
        Some("fg=238"@)
    } else if style == strong() {
        Some("bold"@)
    } else if style == hue(Color::Cyan) {
        Some("fg=cyan"@)
    } else if style == hue(Color::Magenta) {
        Some("fg=magenta"@)
    } else if style == hue(Color::Yellow) {
        Some("fg=yellow"@)
    } else if style == hue(Color::Blue) {
        Some("fg=blue"@)
    } else if style == hue(Color::Green) {
        Some("fg=green"@)
    } else if style == hue(Color::Red) {
        Some("fg=red"@)
    } else if style == (Style { fg: Some(Color::Red), bold: true, dimmed: false }) {
        Some("fg=red,bold"@)
    } else if style == (Style { fg: Some(Color::Cyan), bold: true, dimmed: false }) {
        Some("fg=cyan,bold"@)
    } else {
        None
    }
}

/// How zsh should paint text styled this way, if it can.
pub fn zsh_style(style: Style) -> (res: Option<&'static str>)
    ensures
        match res {
            Some(s) => zsh_spelling(style) == Some(s@),
            None => zsh_spelling(style) is None,
        },
{
    if style.is_plain() {
        None
    } else if style == Theme::header() {
        Some("fg=8")
    } else if style == Theme::rule() {
        Some("fg=238")
    } else if style == Theme::alias() {
        Some("bold")
    } else if style == Theme::branch() {
        Some("fg=cyan")
    } else if style == Theme::detached() {
        Some("fg=magenta")
    } else if style == Theme::sha() {
        Some("fg=yellow")
    } else if style == Theme::kind() {
        Some("fg=blue")
    } else if style == Theme::ok() {
        Some("fg=green")
    } else if style == Theme::behind() {
        Some("fg=red")
    } else if style == Theme::conflict() {
        Some("fg=red,bold")
    } else if style == Theme::banner() {
        Some("fg=cyan,bold")
    } else {
        None
    }
}

/// The colour token and weight a style is drawn with where colours are
/// named rather than escaped: the zsh colour names, and grey 8 for dimmed.
#[derive(Debug, Clone, PartialEq, Eq)]
pub struct Ink {
    pub color: Option<String>,
    pub bold: bool,
}

/// The colour token of a style.
pub open spec fn ink_token(style: Style) -> Option<Seq<char>> {
    match style.fg {
        Some(Color::Red) => Some("red"@),
        Some(Color::Green) => Some("green"@),
        Some(Color::Yellow) => Some("yellow"@),
        Some(Color::Blue) => Some("blue"@),
        Some(Color::Magenta) => Some("magenta"@),
        Some(Color::Cyan) => Some("cyan"@),
        Some(Color::Xterm(n)) => Some(decimal(n as nat)),
        None => if style.dimmed {
            Some("8"@)
        } else {
            None
        },
    }
}

/// The colour token and weight a style is drawn with.
pub fn ink(style: Style) -> (res: Ink)
    ensures
        res.bold == style.bold,
        match res.color {
            Some(c) => ink_token(style) == Some(c@),
            None => ink_token(style) is None,
        },
{
    let color = match style.fg {
        Some(Color::Red) => Some(owned("red")),
        Some(Color::Green) => Some(owned("green")),
        Some(Color::Yellow) => Some(owned("yellow")),
        Some(Color::Blue) => Some(owned("blue")),
        Some(Color::Magenta) => Some(owned("magenta")),
        Some(Color::Cyan) => Some(owned("cyan")),
        Some(Color::Xterm(n)) => Some(decimal_string(n as u64)),
        None => if style.dimmed {
            Some(owned("8"))
        } else {
            None
        },
    };
    Ink { color, bold: style.bold }
}

} // verus!
