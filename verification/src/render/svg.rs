//! The dashboard as an SVG, for places that render pictures but not colour.
//!
//! Not a picture of the dashboard but the dashboard itself: rendered through
//! the same [`Table`] the terminal gets and coloured from the same theme, so
//! the image cannot drift from what the terminal prints. Like
//! `render_highlighted`, it consumes plain text plus styled ranges, so
//! alignment cannot disagree either.
//!
//! Geometry is monospace, in CSS pixels: 14px type, an 8.4px advance, 20px
//! lines and 16px of padding. Lengths are kept in tenths of a pixel, where
//! every one of them is a whole number.
use vstd::prelude::*;

use crate::render::table::{highlight_fold, sat_add, Highlight, Table};
use crate::render::theme::{ink_token, plain_style, Style, ink};
use crate::text::{
    chars_of, decimal, lines, lines_of, owned, push_decimal_wide, push_str, string_of, texts,
    trim_ws, trim, split_on, lemma_split_on_len, lemma_split_on_free, lemma_split_on_concat,
};

verus! {

/// A named set of colours for one medium: the page's background and
/// foreground, and the hex each colour token is drawn in.
#[derive(Debug, Clone, PartialEq, Eq)]
pub struct Palette {
    pub name: &'static str,
    pub background: &'static str,
    pub foreground: &'static str,
    pub colors: Vec<(&'static str, &'static str)>,
}

/// The hex a token is drawn in: the first entry for it, or the foreground,
/// so a colour the palette does not list is legible rather than invisible.
pub open spec fn resolved(colors: Seq<(&'static str, &'static str)>, token: Seq<char>, fg: Seq<char>) -> Seq<char>
    decreases colors.len(),
{
    if colors.len() == 0 {
        fg
    } else if colors[0].0@ == token {
        colors[0].1@
    } else {
        resolved(colors.drop_first(), token, fg)
    }
}

impl Palette {
    /// The hex a token is drawn in.
    pub fn resolve(&self, token: &str) -> (res: &'static str)
        ensures
            res@ == resolved(self.colors@, token@, self.foreground@),
    {
        let n = self.colors.len();
        let mut i: usize = 0;
        assert(self.colors@.skip(0) =~= self.colors@);
        while i < n
            invariant
                n == self.colors@.len(),
                i <= n,
                resolved(self.colors@, token@, self.foreground@) == resolved(
                    self.colors@.skip(i as int),
                    token@,
                    self.foreground@,
                ),
            decreases n - i,
        {
            let (name, hex) = self.colors[i];
            assert(self.colors@.skip(i as int)[0] == self.colors@[i as int]);
            if crate::text::same_text(name, token) {
                return hex;
            }
            assert(self.colors@.skip(i as int).drop_first() =~= self.colors@.skip(i + 1));
            i += 1;
        }
        assert(self.colors@.skip(n as int) =~= Seq::<(&'static str, &'static str)>::empty());
        self.foreground
    }
}

/// Primer's dark palette, so the image sits in a dark page.
pub fn dark() -> (res: Palette)
    ensures
        res.name@ == "dark"@,
        res.colors@.len() == 8,
        palette_unbroken(res),
{
    let res = Palette {
        name: "dark",
        background: "#0d1117",
        foreground: "#c9d1d9",
        colors: vec![
            ("green", "#3fb950"),
            ("yellow", "#d29922"),
            ("red", "#f85149"),
            ("blue", "#58a6ff"),
            ("magenta", "#bc8cff"),
            ("cyan", "#39c5cf"),
            ("8", "#6e7681"),
            ("238", "#3d444d"),
        ],
    };
    proof {
        reveal_strlit("#0d1117");
        reveal_strlit("#c9d1d9");
        reveal_strlit("green");
        reveal_strlit("#3fb950");
        reveal_strlit("yellow");
        reveal_strlit("#d29922");
        reveal_strlit("red");
        reveal_strlit("#f85149");
        reveal_strlit("blue");
        reveal_strlit("#58a6ff");
        reveal_strlit("magenta");
        reveal_strlit("#bc8cff");
        reveal_strlit("cyan");
        reveal_strlit("#39c5cf");
        reveal_strlit("8");
        reveal_strlit("#6e7681");
        reveal_strlit("238");
        reveal_strlit("#3d444d");
    }
    res
}

/// Primer's light palette: the same hues, darkened to keep contrast on white.
pub fn light() -> (res: Palette)
    ensures
        res.name@ == "light"@,
        res.colors@.len() == 8,
        palette_unbroken(res),
{
    let res = Palette {
        name: "light",
        background: "#ffffff",
        foreground: "#24292f",
        colors: vec![
            ("green", "#1a7f37"),
            ("yellow", "#9a6700"),
            ("red", "#cf222e"),
            ("blue", "#0969da"),
            ("magenta", "#8250df"),
            ("cyan", "#1b7c83"),
            ("8", "#6e7781"),
            ("238", "#afb8c1"),
        ],
    };
    proof {
        reveal_strlit("#ffffff");
        reveal_strlit("#24292f");
        reveal_strlit("green");
        reveal_strlit("#1a7f37");
        reveal_strlit("yellow");
        reveal_strlit("#9a6700");
        reveal_strlit("red");
        reveal_strlit("#cf222e");
        reveal_strlit("blue");
        reveal_strlit("#0969da");
        reveal_strlit("magenta");
        reveal_strlit("#8250df");
        reveal_strlit("cyan");
        reveal_strlit("#1b7c83");
        reveal_strlit("8");
        reveal_strlit("#6e7781");
        reveal_strlit("238");
        reveal_strlit("#afb8c1");
    }
    res
}

/// Lines of styled text, accumulated the way a terminal session reads: the
/// plain text, the styled ranges over it, and how many characters there are.
#[derive(Debug, Clone)]
pub struct Screen {
    text: String,
    highlights: Vec<Highlight>,
    at: usize,
}

/// A screen as text and ranges.
pub struct ScreenV {
    pub text: Seq<char>,
    pub highlights: Seq<Highlight>,
    pub at: nat,
}

impl View for Screen {
    type V = ScreenV;

    closed spec fn view(&self) -> ScreenV {
        ScreenV { text: self.text@, highlights: self.highlights@, at: self.at as nat }
    }
}

/// The ranges moved along by `offset` characters.
pub open spec fn shifted(hs: Seq<Highlight>, offset: nat) -> Seq<Highlight> {
    hs.map_values(
        |h: Highlight|
            Highlight {
                start: sat_add(h.start as nat, offset) as usize,
                end: sat_add(h.end as nat, offset) as usize,
                style: h.style,
            },
    )
}

impl Screen {
    /// An empty screen.
    pub fn new() -> (res: Screen)
        ensures
            res@.text.len() == 0,
            res@.highlights.len() == 0,
            res@.at == 0,
    {
        Screen { text: String::new(), highlights: Vec::new(), at: 0 }
    }

    /// Append one line, all of it in `style`; an unstyled or empty line
    /// makes no range.
    pub fn line(&mut self, text: &str, style: Style)
        ensures
            final(self)@.text == old(self)@.text + text@ + seq!['\n'],
            final(self)@.at == sat_add(sat_add(old(self)@.at, text@.len()), 1),
            final(self)@.highlights == if style == plain_style() || text@.len() == 0 {
                old(self)@.highlights
            } else {
                old(self)@.highlights.push(
                    Highlight {
                        start: old(self)@.at as usize,
                        end: sat_add(old(self)@.at, text@.len()) as usize,
                        style,
                    },
                )
            },
    {
        let n = chars_of(text).len();
        let start = self.at;
        self.at = if self.at > usize::MAX - n {
            usize::MAX
        } else {
            self.at + n
        };
        push_str(&mut self.text, text);
        if !(style.is_plain() || n == 0) {
            self.highlights.push(Highlight { start, end: self.at, style });
        }
        self.text.push('\n');
        self.at = if self.at == usize::MAX {
            usize::MAX
        } else {
            self.at + 1
        };
    }

    /// Append an empty line.
    pub fn blank(&mut self)
        ensures
            final(self)@.text == old(self)@.text + seq!['\n'],
            final(self)@.at == sat_add(old(self)@.at, 1),
            final(self)@.highlights == old(self)@.highlights,
    {
        proof {
            reveal_strlit("");
        }
        self.line("", Style::new());
        assert(self@.text =~= old(self)@.text + seq!['\n']);
    }

    /// Append a whole table, keeping its ranges aligned with the text above.
    pub fn table(&mut self, table: &Table)
        ensures
            ({
                let lines = crate::render::table::flattened(crate::render::table::table_lines(table@));
                let text = crate::render::table::spans_text(lines);
                &&& final(self)@.text == old(self)@.text + text
                &&& final(self)@.highlights == old(self)@.highlights + shifted(
                    highlight_fold(lines).0,
                    old(self)@.at,
                )
                &&& final(self)@.at == sat_add(old(self)@.at, text.len())
            }),
    {
        let (text, highlights) = table.render_highlighted();
        let offset = self.at;
        let ghost hv = highlights@;
        let n = highlights.len();
        let mut i: usize = 0;
        let ghost start = self.highlights@;
        let ghost start_text = self.text@;
        while i < n
            invariant
                n == highlights@.len(),
                hv == highlights@,
                i <= n,
                self.text@ == start_text,
                self.at == offset,
                self.highlights@ == start + shifted(hv.take(i as int), offset as nat),
            decreases n - i,
        {
            let h = highlights[i];
            let s = if h.start > usize::MAX - offset {
                usize::MAX
            } else {
                h.start + offset
            };
            let e = if h.end > usize::MAX - offset {
                usize::MAX
            } else {
                h.end + offset
            };
            self.highlights.push(Highlight { start: s, end: e, style: h.style });
            assert(shifted(hv.take(i + 1), offset as nat) =~= shifted(hv.take(i as int), offset as nat).push(
                Highlight { start: s, end: e, style: h.style },
            ));
            i += 1;
        }
        assert(hv.take(n as int) =~= hv);
        let len = chars_of(text.as_str()).len();
        self.at = if self.at > usize::MAX - len {
            usize::MAX
        } else {
            self.at + len
        };
        push_str(&mut self.text, text.as_str());
    }

    /// The plain text, exactly as a terminal without colour would show it.
    pub fn text(&self) -> (res: &str)
        ensures
            res@ == self@.text,
    {
        self.text.as_str()
    }
}

/// The style the ranges give character `i`: the last range covering it, or
/// none.
pub open spec fn style_at(hs: Seq<Highlight>, i: int) -> Style
    decreases hs.len(),
{
    if hs.len() == 0 {
        plain_style()
    } else if hs.last().start <= i < hs.last().end {
        hs.last().style
    } else {
        style_at(hs.drop_last(), i)
    }
}

/// A run of one style on one line, at a column.
#[derive(Debug, Clone, PartialEq, Eq)]
pub struct Run {
    pub col: usize,
    pub text: String,
    pub style: Style,
}

/// A run as text.
pub struct RunV {
    pub col: nat,
    pub text: Seq<char>,
    pub style: Style,
}

impl View for Run {
    type V = RunV;

    open spec fn view(&self) -> RunV {
        RunV { col: self.col as nat, text: self.text@, style: self.style }
    }
}

/// The views of a sequence of runs.
pub open spec fn run_views(v: Seq<Run>) -> Seq<RunV> {
    v.map_values(|r: Run| r@)
}

/// How many spaces a text starts with.
pub open spec fn lead_spaces(t: Seq<char>) -> nat
    decreases t.len(),
{
    if t.len() > 0 && t[0] == ' ' {
        1 + lead_spaces(t.drop_first())
    } else {
        0
    }
}

/// A run stripped to its non-blank text, its column moved past the spaces
/// it started with.
pub open spec fn trim_run(r: RunV) -> RunV {
    RunV { col: sat_add(r.col, lead_spaces(r.text)), text: trim_ws(r.text), style: r.style }
}

/// Each run stripped to its ink, and the runs that were only padding gone.
pub open spec fn trimmed(rs: Seq<RunV>) -> Seq<RunV> {
    rs.map_values(|r: RunV| trim_run(r)).filter(|r: RunV| r.text.len() > 0)
}

/// Characters grouped into runs of one style, line by line: the lines done
/// so far, the runs of the line under way, and the column reached.
pub open spec fn run_fold(cs: Seq<char>, styles: Seq<Style>) -> (Seq<Seq<RunV>>, Seq<RunV>, nat)
    decreases cs.len(),
{
    if cs.len() == 0 {
        (Seq::empty(), Seq::empty(), 0)
    } else {
        let r = run_fold(cs.drop_last(), styles);
        let i = cs.len() - 1;
        let ch = cs.last();
        if ch == '\n' {
            (r.0.push(trimmed(r.1)), Seq::empty(), 0)
        } else if r.1.len() > 0 && r.1.last().style == styles[i] {
            (r.0, r.1.update(r.1.len() - 1, RunV { text: r.1.last().text.push(ch), ..r.1.last() }), sat_add(r.2, 1))
        } else {
            (r.0, r.1.push(RunV { col: r.2, text: seq![ch], style: styles[i] }), sat_add(r.2, 1))
        }
    }
}

/// Every line of the text as its runs.
pub open spec fn svg_lines(cs: Seq<char>, styles: Seq<Style>) -> Seq<Seq<RunV>> {
    let r = run_fold(cs, styles);
    if r.1.len() > 0 {
        r.0.push(trimmed(r.1))
    } else {
        r.0
    }
}

/// The column one past the last character of any run.
pub open spec fn max_end(ls: Seq<Seq<RunV>>) -> nat
    decreases ls.len(),
{
    if ls.len() == 0 {
        0
    } else {
        let rest = max_end(ls.drop_last());
        let here = line_end(ls.last());
        if here > rest {
            here
        } else {
            rest
        }
    }
}

/// The column one past the last character of any run on one line.
pub open spec fn line_end(rs: Seq<RunV>) -> nat
    decreases rs.len(),
{
    if rs.len() == 0 {
        0
    } else {
        let rest = line_end(rs.drop_last());
        let here = sat_add(rs.last().col, rs.last().text.len());
        if here > rest {
            here
        } else {
            rest
        }
    }
}

/// Text made safe for XML character data.
pub open spec fn escaped_xml(s: Seq<char>) -> Seq<char>
    decreases s.len(),
{
    if s.len() == 0 {
        Seq::empty()
    } else {
        escaped_xml(s.drop_last()) + if s.last() == '&' {
            "&amp;"@
        } else if s.last() == '<' {
            "&lt;"@
        } else if s.last() == '>' {
            "&gt;"@
        } else {
            seq![s.last()]
        }
    }
}

/// Make text safe for XML character data.
pub fn escape(text: &str) -> (res: String)
    ensures
        res@ == escaped_xml(text@),
{
    let c = chars_of(text);
    let n = c.len();
    let mut out = String::new();
    let mut i: usize = 0;
    while i < n
        invariant
            n == c@.len(),
            c@ == text@,
            i <= n,
            out@ == escaped_xml(c@.take(i as int)),
        decreases n - i,
    {
        let ch = c[i];
        if ch == '&' {
            push_str(&mut out, "&amp;");
        } else if ch == '<' {
            push_str(&mut out, "&lt;");
        } else if ch == '>' {
            push_str(&mut out, "&gt;");
        } else {
            out.push(ch);
        }
        assert(c@.take(i + 1).drop_last() =~= c@.take(i as int));
        i += 1;
    }
    assert(c@.take(n as int) =~= c@);
    out
}

/// The CSS classes a style asks for: its colour token, or the foreground,
/// and `b` when it is bold.
pub open spec fn class_text(style: Style) -> Seq<char> {
    (match ink_token(style) {
        Some(t) => "c-"@ + t,
        None => "fg"@,
    }) + if style.bold {
        " b"@
    } else {
        Seq::empty()
    }
}

/// The CSS classes a style asks for.
pub fn class_of(style: Style) -> (res: String)
    ensures
        res@ == class_text(style),
{
    let k = ink(style);
    let mut classes = match &k.color {
        Some(token) => {
            let mut c = owned("c-");
            push_str(&mut c, token.as_str());
            c
        },
        None => owned("fg"),
    };
    if k.bold {
        push_str(&mut classes, " b");
    }
    proof {
        reveal_strlit("");
    }
    assert(classes@ =~= class_text(style));
    classes
}

/// A length in tenths of a pixel, written with one decimal.
pub open spec fn tenths(n: nat) -> Seq<char> {
    decimal(n / 10) + "."@ + decimal(n % 10)
}

/// A length in tenths of a pixel, rounded to a whole pixel.
pub open spec fn rounded(n: nat) -> Seq<char> {
    decimal((n + 5) / 10)
}

/// The opening of the document, sized to `columns` by `rows`.
pub open spec fn svg_head(columns: nat, rows: nat) -> Seq<char> {
    let w = rounded(320 + 84 * columns);
    let h = rounded(320 + 200 * rows);
    "<svg xmlns=\"http://www.w3.org/2000/svg\" viewBox=\"0 0 "@ + w + " "@ + h + "\" width=\""@ + w
        + "\" height=\""@ + h
        + "\" font-family=\"ui-monospace, SFMono-Regular, Menlo, Consolas, monospace\" font-size=\"14\" role=\"img\">\n"@
}

/// The text lines, escaped, one per line.
pub open spec fn desc_lines(ls: Seq<Seq<char>>) -> Seq<char>
    decreases ls.len(),
{
    if ls.len() == 0 {
        Seq::empty()
    } else {
        desc_lines(ls.drop_last()) + escaped_xml(ls.last()) + "\n"@
    }
}

/// A class rule per palette colour.
pub open spec fn color_rules(p: Palette, colors: Seq<(&'static str, &'static str)>) -> Seq<char>
    decreases colors.len(),
{
    if colors.len() == 0 {
        Seq::empty()
    } else {
        color_rules(p, colors.drop_last()) + "    .c-"@ + colors.last().0@ + " { fill: "@ + resolved(
            p.colors@,
            colors.last().0@,
            p.foreground@,
        ) + " }\n"@
    }
}

/// The runs of one line as positioned spans.
pub open spec fn tspans(rs: Seq<RunV>) -> Seq<char>
    decreases rs.len(),
{
    if rs.len() == 0 {
        Seq::empty()
    } else {
        let r = rs.last();
        tspans(rs.drop_last()) + "<tspan x=\""@ + tenths(160 + 84 * r.col) + "\" class=\""@
            + class_text(r.style) + "\">"@ + escaped_xml(r.text) + "</tspan>"@
    }
}

/// Each line that has runs, as a text element at its baseline.
pub open spec fn text_rows(ls: Seq<Seq<RunV>>) -> Seq<char>
    decreases ls.len(),
{
    if ls.len() == 0 {
        Seq::empty()
    } else {
        let row = ls.len() - 1;
        text_rows(ls.drop_last()) + if ls.last().len() == 0 {
            Seq::empty()
        } else {
            "  <text y=\""@ + tenths((300 + 200 * row) as nat) + "\" xml:space=\"preserve\">"@
                + tspans(ls.last()) + "</text>\n"@
        }
    }
}

/// The whole document for a screen.
pub open spec fn svg_of(s: ScreenV, p: Palette) -> Seq<char> {
    let styles = Seq::new(s.text.len(), |i: int| style_at(s.highlights, i));
    let ls = svg_lines(s.text, styles);
    svg_head(max_end(ls), ls.len()) + "  <title>grit status</title>\n  <desc>\n"@ + desc_lines(
        lines_of(s.text),
    ) + "  </desc>\n"@ + "  <style>\n"@ + "    .fg { fill: "@ + p.foreground@ + " }\n"@
        + "    .b { font-weight: 600 }\n"@ + color_rules(p, p.colors@) + "  </style>\n"@
        + "  <rect width=\"100%\" height=\"100%\" rx=\"6\" fill=\""@ + p.background@ + "\"/>\n"@
        + text_rows(ls) + "</svg>\n"@
}


/// `pat` occurs somewhere in `l`.
pub open spec fn contains_text(l: Seq<char>, pat: Seq<char>) -> bool {
    exists|i: int| 0 <= i && i + pat.len() <= l.len() && #[trigger] l.subrange(i, i + pat.len()) == pat
}

/// A line that sets a fill: a colour rule or a painted shape.
pub open spec fn paints_fill(l: Seq<char>) -> bool {
    contains_text(l, "fill:"@) || contains_text(l, "fill=\""@)
}

/// The lines that set no fill, in order.
pub open spec fn unpainted_lines(ls: Seq<Seq<char>>) -> Seq<Seq<char>>
    decreases ls.len(),
{
    if ls.len() == 0 {
        Seq::empty()
    } else {
        let r = unpainted_lines(ls.drop_last());
        if paints_fill(ls.last()) {
            r
        } else {
            r.push(ls.last())
        }
    }
}

/// A document's lines, less those that set a fill.
pub open spec fn without_fills(t: Seq<char>) -> Seq<Seq<char>> {
    unpainted_lines(split_on(t, '\n'))
}

/// The lines of whole-line text that set no fill.
pub open spec fn unpainted_block(t: Seq<char>) -> Seq<Seq<char>> {
    unpainted_lines(split_on(t, '\n').drop_last())
}

/// Whole lines: empty, or ending at a line break.
pub open spec fn whole_lines(t: Seq<char>) -> bool {
    t.len() == 0 || t.last() == '\n'
}

/// None of a palette's names and colours holds a line break.
pub open spec fn palette_unbroken(p: Palette) -> bool {
    &&& !p.foreground@.contains('\n')
    &&& !p.background@.contains('\n')
    &&& forall|i: int|
        0 <= i < p.colors@.len() ==> !(#[trigger] p.colors@[i]).0@.contains('\n') && !p.colors@[i].1@.contains(
            '\n',
        )
}

proof fn lemma_unpainted_concat(a: Seq<Seq<char>>, b: Seq<Seq<char>>)
    ensures
        unpainted_lines(a + b) == unpainted_lines(a) + unpainted_lines(b),
    decreases b.len(),
{
    if b.len() == 0 {
        assert(a + b =~= a);
        assert(unpainted_lines(a) + unpainted_lines(b) =~= unpainted_lines(a));
    } else {
        lemma_unpainted_concat(a, b.drop_last());
        assert((a + b).drop_last() =~= a + b.drop_last());
        let x = unpainted_lines(a);
        let y = unpainted_lines(b.drop_last());
        assert((x + y).push(b.last()) =~= x + y.push(b.last()));
    }
}

/// Whole lines followed by more text: the unpainted lines of each.
proof fn lemma_block_then(a: Seq<char>, b: Seq<char>)
    requires
        whole_lines(a),
    ensures
        without_fills(a + b) == unpainted_block(a) + without_fills(b),
        whole_lines(b) ==> whole_lines(a + b) && unpainted_block(a + b) == unpainted_block(a) + unpainted_block(b),
{
    lemma_split_on_concat(a, b, '\n');
    lemma_split_on_len(b, '\n');
    let x = split_on(a, '\n').drop_last();
    let y = split_on(b, '\n');
    lemma_unpainted_concat(x, y);
    assert((x + y).drop_last() =~= x + y.drop_last());
    lemma_unpainted_concat(x, y.drop_last());
    if b.len() > 0 {
        assert((a + b).last() == b.last());
    } else {
        assert(a + b =~= a);
    }
}

/// A single line that sets a fill leaves nothing behind.
proof fn lemma_fill_line(l: Seq<char>)
    requires
        !l.contains('\n'),
        paints_fill(l),
    ensures
        whole_lines(l + "\n"@),
        unpainted_block(l + "\n"@) == Seq::<Seq<char>>::empty(),
{
    reveal_strlit("\n");
    lemma_split_on_free(l, '\n');
    lemma_block_then(Seq::<char>::empty(), l + "\n"@);
    let t = l + "\n"@;
    assert(t.last() == '\n');
    assert(t.drop_last() =~= l);
    assert(split_on(t, '\n') == split_on(l, '\n').push(Seq::<char>::empty()));
    assert(split_on(t, '\n').drop_last() =~= seq![l]);
    assert(seq![l].drop_last() =~= Seq::<Seq<char>>::empty());
    assert(seq![l].last() == l);
    assert(unpainted_lines(seq![l]) == unpainted_lines(Seq::<Seq<char>>::empty()));
}

proof fn lemma_resolved_unbroken(colors: Seq<(&'static str, &'static str)>, token: Seq<char>, fg: Seq<char>)
    requires
        !fg.contains('\n'),
        forall|i: int| 0 <= i < colors.len() ==> !(#[trigger] colors[i]).1@.contains('\n'),
    ensures
        !resolved(colors, token, fg).contains('\n'),
    decreases colors.len(),
{
    if colors.len() > 0 && colors[0].0@ != token {
        let rest = colors.drop_first();
        assert forall|i: int| 0 <= i < rest.len() implies !(#[trigger] rest[i]).1@.contains('\n') by {
            assert(rest[i] == colors[i + 1]);
        }
        lemma_resolved_unbroken(rest, token, fg);
    }
}

/// No two pieces of a line break's absence make one.
proof fn lemma_concat_unbroken(a: Seq<char>, b: Seq<char>)
    requires
        !a.contains('\n'),
        !b.contains('\n'),
    ensures
        !(a + b).contains('\n'),
{
    if (a + b).contains('\n') {
        let k = choose|k: int| 0 <= k < (a + b).len() && (a + b)[k] == '\n';
        if k < a.len() {
            assert(a[k] == '\n');
        } else {
            assert(b[k - a.len()] == '\n');
        }
    }
}

/// The colour rules set fills and nothing else.
proof fn lemma_color_rules_unpainted(p: Palette, colors: Seq<(&'static str, &'static str)>)
    requires
        palette_unbroken(p),
        forall|i: int| 0 <= i < colors.len() ==> !(#[trigger] colors[i]).0@.contains('\n'),
    ensures
        whole_lines(color_rules(p, colors)),
        unpainted_block(color_rules(p, colors)) == Seq::<Seq<char>>::empty(),
    decreases colors.len(),
{
    if colors.len() == 0 {
        assert(split_on(Seq::<char>::empty(), '\n').drop_last() =~= Seq::<Seq<char>>::empty());
    } else {
        let rest = colors.drop_last();
        assert forall|i: int| 0 <= i < rest.len() implies !(#[trigger] rest[i]).0@.contains('\n') by {
            assert(rest[i] == colors[i]);
        }
        lemma_color_rules_unpainted(p, rest);
        let tok = colors.last().0@;
        assert(!tok.contains('\n')) by {
            assert(colors.last() == colors[colors.len() - 1]);
        }
        let hex = resolved(p.colors@, tok, p.foreground@);
        lemma_resolved_unbroken(p.colors@, tok, p.foreground@);
        reveal_strlit("    .c-");
        reveal_strlit(" { fill: ");
        reveal_strlit(" }\n");
        reveal_strlit(" }");
        reveal_strlit("\n");
        reveal_strlit("fill:");
        let l = "    .c-"@ + tok + " { fill: "@ + hex + " }"@;
        let at: int = 7 + tok.len() as int + 3;
        assert(l.subrange(at, at + 5) =~= "fill:"@);
        assert(paints_fill(l));
        assert(!l.contains('\n')) by {
            assert(!"    .c-"@.contains('\n')) by {
                if "    .c-"@.contains('\n') {
                    let k = choose|k: int| 0 <= k < "    .c-"@.len() && "    .c-"@[k] == '\n';
                }
            }
            assert(!" { fill: "@.contains('\n')) by {
                if " { fill: "@.contains('\n') {
                    let k = choose|k: int| 0 <= k < " { fill: "@.len() && " { fill: "@[k] == '\n';
                }
            }
            assert(!" }"@.contains('\n')) by {
                if " }"@.contains('\n') {
                    let k = choose|k: int| 0 <= k < " }"@.len() && " }"@[k] == '\n';
                }
            }
            lemma_concat_unbroken("    .c-"@, tok);
            lemma_concat_unbroken("    .c-"@ + tok, " { fill: "@);
            lemma_concat_unbroken("    .c-"@ + tok + " { fill: "@, hex);
            lemma_concat_unbroken("    .c-"@ + tok + " { fill: "@ + hex, " }"@);
        }
        lemma_fill_line(l);
        let prev = color_rules(p, rest);
        assert(color_rules(p, colors) =~= prev + (l + "\n"@));
        lemma_block_then(prev, l + "\n"@);
    }
}

/// The two palettes paint the same geometry: a screen's document in one
/// palette and in another differ only in lines that set a fill, so text,
/// positions, classes and size are the same in both.
pub proof fn law_palettes_differ_only_in_fills(s: ScreenV, p: Palette, q: Palette)
    requires
        palette_unbroken(p),
        palette_unbroken(q),
    ensures
        without_fills(svg_of(s, p)) == without_fills(svg_of(s, q)),
{
    lemma_svg_without_fills(s, p);
    lemma_svg_without_fills(s, q);
}

/// The screen's part of its document, with the fills left out.
pub open spec fn svg_unpainted(s: ScreenV) -> Seq<Seq<char>> {
    let styles = Seq::new(s.text.len(), |i: int| style_at(s.highlights, i));
    let ls = svg_lines(s.text, styles);
    let top = svg_head(max_end(ls), ls.len()) + "  <title>grit status</title>\n  <desc>\n"@ + desc_lines(
        lines_of(s.text),
    ) + "  </desc>\n"@ + "  <style>\n"@;
    unpainted_block(top) + unpainted_block("    .b { font-weight: 600 }\n"@) + unpainted_block(
        "  </style>\n"@,
    ) + without_fills(text_rows(ls) + "</svg>\n"@)
}

proof fn lemma_svg_without_fills(s: ScreenV, p: Palette)
    requires
        palette_unbroken(p),
    ensures
        without_fills(svg_of(s, p)) == svg_unpainted(s),
{
    let styles = Seq::new(s.text.len(), |i: int| style_at(s.highlights, i));
    let ls = svg_lines(s.text, styles);
    let top = svg_head(max_end(ls), ls.len()) + "  <title>grit status</title>\n  <desc>\n"@ + desc_lines(
        lines_of(s.text),
    ) + "  </desc>\n"@ + "  <style>\n"@;
    reveal_strlit("  <style>\n");
    reveal_strlit("    .fg { fill: ");
    reveal_strlit(" }\n");
    reveal_strlit(" }");
    reveal_strlit("\n");
    reveal_strlit("fill:");
    reveal_strlit("fill=\"");
    reveal_strlit("    .b { font-weight: 600 }\n");
    reveal_strlit("  </style>\n");
    reveal_strlit("  <rect width=\"100%\" height=\"100%\" rx=\"6\" fill=\"");
    reveal_strlit("\"/>\n");
    reveal_strlit("\"/>");
    let fg_line = "    .fg { fill: "@ + p.foreground@ + " }"@;
    let bold = "    .b { font-weight: 600 }\n"@;
    let rules = color_rules(p, p.colors@);
    let close = "  </style>\n"@;
    let rect_head = "  <rect width=\"100%\" height=\"100%\" rx=\"6\" fill=\""@;
    let rect_line = rect_head + p.background@ + "\"/>"@;
    let tail = text_rows(ls) + "</svg>\n"@;
    assert(svg_of(s, p) =~= top + (fg_line + "\n"@) + bold + rules + close + (rect_line + "\n"@) + tail);
    // the foreground rule
    assert(fg_line.subrange(10, 10int + "fill:"@.len()) =~= "fill:"@);
    assert(paints_fill(fg_line));
    assert(!fg_line.contains('\n')) by {
        if fg_line.contains('\n') {
            let k = choose|k: int| 0 <= k < fg_line.len() && fg_line[k] == '\n';
            if 16 <= k < 16 + p.foreground@.len() {
                assert(p.foreground@[k - 16] == '\n');
            }
        }
    }
    lemma_fill_line(fg_line);
    // the background
    let at: int = rect_head.len() - 6;
    assert(rect_line.subrange(at, at + 6) =~= "fill=\""@);
    assert(paints_fill(rect_line));
    assert(!rect_line.contains('\n')) by {
        if rect_line.contains('\n') {
            let k = choose|k: int| 0 <= k < rect_line.len() && rect_line[k] == '\n';
            if rect_head.len() <= k < rect_head.len() + p.background@.len() {
                assert(p.background@[k - rect_head.len()] == '\n');
            }
        }
    }
    lemma_fill_line(rect_line);
    // the colour rules
    assert forall|i: int| 0 <= i < p.colors@.len() implies !(#[trigger] p.colors@[i]).0@.contains('\n') by {}
    lemma_color_rules_unpainted(p, p.colors@);
    // stitch the blocks together
    assert(top.last() == '\n');
    assert(bold.last() == '\n');
    assert(close.last() == '\n');
    lemma_block_then(top, fg_line + "\n"@);
    lemma_block_then(top + (fg_line + "\n"@), bold);
    lemma_block_then(top + (fg_line + "\n"@) + bold, rules);
    lemma_block_then(top + (fg_line + "\n"@) + bold + rules, close);
    lemma_block_then(top + (fg_line + "\n"@) + bold + rules + close, rect_line + "\n"@);
    lemma_block_then(top + (fg_line + "\n"@) + bold + rules + close + (rect_line + "\n"@), tail);
    assert(unpainted_block(top) + Seq::<Seq<char>>::empty() =~= unpainted_block(top));
    assert(svg_unpainted(s) =~= unpainted_block(top) + Seq::<Seq<char>>::empty() + unpainted_block(bold)
        + Seq::<Seq<char>>::empty() + unpainted_block(close) + Seq::<Seq<char>>::empty() + without_fills(tail));
}

/// The views of lines of runs.
pub open spec fn line_views(v: Seq<Vec<Run>>) -> Seq<Seq<RunV>> {
    v.map_values(|l: Vec<Run>| run_views(l@))
}

/// How many spaces a text starts with.
fn count_lead_spaces(t: &Vec<char>) -> (res: usize)
    ensures
        res as nat == lead_spaces(t@),
{
    let n = t.len();
    let mut k: usize = 0;
    assert(t@.skip(0) =~= t@);
    while k < n && t[k] == ' '
        invariant
            n == t@.len(),
            k <= n,
            lead_spaces(t@) == k + lead_spaces(t@.skip(k as int)),
        decreases n - k,
    {
        assert(t@.skip(k as int).drop_first() =~= t@.skip(k + 1));
        k += 1;
    }
    if k < n {
        assert(t@.skip(k as int)[0] == t@[k as int]);
    } else {
        assert(t@.skip(k as int) =~= Seq::<char>::empty());
    }
    k
}

/// Strip each run to its ink, dropping the runs that were only padding.
fn trim_runs(runs: &Vec<Run>) -> (res: Vec<Run>)
    ensures
        run_views(res@) == trimmed(run_views(runs@)),
{
    let ghost rv = run_views(runs@);
    let ghost mapped = rv.map_values(|r: RunV| trim_run(r));
    let n = runs.len();
    let mut out: Vec<Run> = Vec::new();
    let mut i: usize = 0;
    while i < n
        invariant
            n == runs@.len(),
            rv == run_views(runs@),
            mapped == rv.map_values(|r: RunV| trim_run(r)),
            i <= n,
            run_views(out@) == mapped.take(i as int).filter(|r: RunV| r.text.len() > 0),
        decreases n - i,
    {
        let r = &runs[i];
        let c = chars_of(r.text.as_str());
        let lead = count_lead_spaces(&c);
        let t = trim(&c);
        let col = if r.col > usize::MAX - lead {
            usize::MAX
        } else {
            r.col + lead
        };
        proof {
            assert(mapped.take(i + 1).drop_last() =~= mapped.take(i as int));
            assert(mapped.take(i + 1).last() == trim_run(rv[i as int]));
            reveal_with_fuel(Seq::filter, 1);
        }
        if t.len() > 0 {
            let ghost before = run_views(out@);
            let run = Run { col, text: string_of(&t), style: r.style };
            let ghost v = run@;
            out.push(run);
            assert(v == trim_run(rv[i as int]));
            assert(run_views(out@) =~= before.push(v));
        }
        i += 1;
    }
    assert(mapped.take(n as int) =~= mapped);
    out
}

impl Screen {
    /// The style each character is drawn in.
    fn styles_of(&self, n: usize) -> (res: Vec<Style>)
        ensures
            res@ == Seq::new(n as nat, |i: int| style_at(self@.highlights, i)),
    {
        let mut styles: Vec<Style> = Vec::new();
        let mut i: usize = 0;
        while i < n
            invariant
                i <= n,
                styles@.len() == i,
                forall|k: int| 0 <= k < i ==> (#[trigger] styles@[k]) == plain_style(),
            decreases n - i,
        {
            styles.push(Style::new());
            i += 1;
        }
        let ghost hs = self@.highlights;
        let m = self.highlights.len();
        let mut k: usize = 0;
        while k < m
            invariant
                m == self.highlights@.len(),
                hs == self@.highlights,
                k <= m,
                styles@.len() == n,
                forall|j: int| 0 <= j < n ==> (#[trigger] styles@[j]) == style_at(hs.take(k as int), j),
            decreases m - k,
        {
            let h = self.highlights[k];
            let stop = if h.end < n {
                h.end
            } else {
                n
            };
            let ghost before = styles@;
            let mut j = h.start;
            while j < stop
                invariant
                    h.start <= j,
                    j <= stop || j == h.start,
                    stop <= n,
                    stop == (if h.end < n {
                        h.end
                    } else {
                        n
                    }),
                    styles@.len() == n,
                    before.len() == n,
                    forall|x: int| 0 <= x < n ==> (#[trigger] before[x]) == style_at(hs.take(k as int), x),
                    forall|x: int|
                        0 <= x < n ==> (#[trigger] styles@[x]) == if h.start <= x < j {
                            h.style
                        } else {
                            before[x]
                        },
                decreases stop - j,
            {
                styles.set(j, h.style);
                j += 1;
            }
            proof {
                assert(hs.take(k + 1).drop_last() =~= hs.take(k as int));
                assert(hs.take(k + 1).last() == h);
                assert forall|x: int| 0 <= x < n implies (#[trigger] styles@[x]) == style_at(
                    hs.take(k + 1),
                    x,
                ) by {
                    assert(before[x] == style_at(hs.take(k as int), x));
                    if h.start <= x < h.end {
                        assert(x < stop);
                        assert(x < j);
                    } else {
                        assert(!(h.start <= x < j));
                    }
                }
            }
            k += 1;
        }
        assert(hs.take(m as int) =~= hs);
        assert(styles@ =~= Seq::new(n as nat, |i: int| style_at(self@.highlights, i)));
        styles
    }
}

/// Group characters into runs of one style, line by line, each run stripped
/// to its ink and placed at its own column.
fn runs_of(chars: &Vec<char>, styles: &Vec<Style>) -> (res: Vec<Vec<Run>>)
    requires
        styles@.len() == chars@.len(),
    ensures
        line_views(res@) == svg_lines(chars@, styles@),
{
    let n = chars.len();
    let mut done: Vec<Vec<Run>> = Vec::new();
    let mut runs: Vec<Run> = Vec::new();
    let mut col: usize = 0;
    let mut i: usize = 0;
    while i < n
        invariant
            n == chars@.len(),
            styles@.len() == n,
            i <= n,
            (line_views(done@), run_views(runs@), col as nat) == run_fold(chars@.take(i as int), styles@),
        decreases n - i,
    {
        let ch = chars[i];
        let st = styles[i];
        let ghost cs = chars@.take(i + 1);
        assert(cs.drop_last() =~= chars@.take(i as int));
        assert(cs.last() == ch);
        let ghost prev_done = line_views(done@);
        let ghost prev_runs = run_views(runs@);
        if ch == '\n' {
            let t = trim_runs(&runs);
            let ghost tv = run_views(t@);
            done.push(t);
            assert(line_views(done@) =~= prev_done.push(tv));
            runs = Vec::new();
            assert(run_views(runs@) =~= Seq::<RunV>::empty());
            col = 0;
        } else {
            let rn = runs.len();
            if rn > 0 && runs[rn - 1].style == st {
                let mut last = runs.pop().unwrap();
                last.text.push(ch);
                let ghost lv = last@;
                runs.push(last);
                assert(run_views(runs@) =~= prev_runs.update(rn - 1, lv));
            } else {
                let mut t = String::new();
                t.push(ch);
                assert(t@ =~= seq![ch]);
                let run = Run { col, text: t, style: st };
                let ghost v = run@;
                runs.push(run);
                assert(run_views(runs@) =~= prev_runs.push(v));
            }
            col = if col == usize::MAX {
                usize::MAX
            } else {
                col + 1
            };
        }
        i += 1;
    }
    assert(chars@.take(n as int) =~= chars@);
    if runs.len() > 0 {
        let ghost prev_done = line_views(done@);
        let t = trim_runs(&runs);
        let ghost tv = run_views(t@);
        done.push(t);
        assert(line_views(done@) =~= prev_done.push(tv));
    }
    done
}

/// The column one past the last character of any run.
fn widest(ls: &Vec<Vec<Run>>) -> (res: usize)
    ensures
        res as nat == max_end(line_views(ls@)),
{
    let ghost lv = line_views(ls@);
    let n = ls.len();
    let mut best: usize = 0;
    let mut i: usize = 0;
    while i < n
        invariant
            n == ls@.len(),
            lv == line_views(ls@),
            i <= n,
            best as nat == max_end(lv.take(i as int)),
        decreases n - i,
    {
        let line = &ls[i];
        let ghost rv = run_views(line@);
        let m = line.len();
        let mut here: usize = 0;
        let mut j: usize = 0;
        while j < m
            invariant
                m == line@.len(),
                rv == run_views(line@),
                j <= m,
                here as nat == line_end(rv.take(j as int)),
            decreases m - j,
        {
            let r = &line[j];
            let len = chars_of(r.text.as_str()).len();
            let end = if r.col > usize::MAX - len {
                usize::MAX
            } else {
                r.col + len
            };
            assert(rv.take(j + 1).drop_last() =~= rv.take(j as int));
            if end > here {
                here = end;
            }
            j += 1;
        }
        assert(rv.take(m as int) =~= rv);
        assert(lv.take(i + 1).drop_last() =~= lv.take(i as int));
        if here > best {
            best = here;
        }
        i += 1;
    }
    assert(lv.take(n as int) =~= lv);
    best
}

/// Append a length in tenths of a pixel, with one decimal.
fn push_tenths(s: &mut String, n: u128)
    ensures
        final(s)@ == old(s)@ + tenths(n as nat),
{
    push_decimal_wide(s, n / 10);
    push_str(s, ".");
    push_decimal_wide(s, n % 10);
}

impl Screen {
    /// Render to a standalone SVG document: the plain text as its
    /// description, a class per palette colour, and every run placed at its
    /// own column so the columns stay square in any monospace font.
    pub fn to_svg(&self, palette: &Palette) -> (res: String)
        ensures
            res@ == svg_of(self@, *palette),
    {
        let chars = chars_of(self.text.as_str());
        let styles = self.styles_of(chars.len());
        let ls = runs_of(&chars, &styles);
        let columns = widest(&ls);
        let rows = ls.len();
        let ghost lv = line_views(ls@);

        let w: u128 = (320 + 84 * (columns as u128) + 5) / 10;
        let h: u128 = (320 + 200 * (rows as u128) + 5) / 10;
        let mut out = owned("<svg xmlns=\"http://www.w3.org/2000/svg\" viewBox=\"0 0 ");
        push_decimal_wide(&mut out, w);
        push_str(&mut out, " ");
        push_decimal_wide(&mut out, h);
        push_str(&mut out, "\" width=\"");
        push_decimal_wide(&mut out, w);
        push_str(&mut out, "\" height=\"");
        push_decimal_wide(&mut out, h);
        push_str(
            &mut out,
            "\" font-family=\"ui-monospace, SFMono-Regular, Menlo, Consolas, monospace\" font-size=\"14\" role=\"img\">\n",
        );
        let ghost head_part = out@;
        assert(head_part == svg_head(max_end(lv), lv.len()));

        push_str(&mut out, "  <title>grit status</title>\n  <desc>\n");
        let text_lines = lines(&chars);
        let ghost tl = texts(text_lines@);
        let ghost before_desc = out@;
        let tn = text_lines.len();
        let mut i: usize = 0;
        while i < tn
            invariant
                tn == text_lines@.len(),
                tl == texts(text_lines@),
                i <= tn,
                out@ == before_desc + desc_lines(tl.take(i as int)),
            decreases tn - i,
        {
            let line = string_of(&text_lines[i]);
            let e = escape(line.as_str());
            push_str(&mut out, e.as_str());
            push_str(&mut out, "\n");
            assert(tl.take(i + 1).drop_last() =~= tl.take(i as int));
            i += 1;
        }
        assert(tl.take(tn as int) =~= tl);
        push_str(&mut out, "  </desc>\n");
        push_str(&mut out, "  <style>\n");
        push_str(&mut out, "    .fg { fill: ");
        push_str(&mut out, palette.foreground);
        push_str(&mut out, " }\n");
        push_str(&mut out, "    .b { font-weight: 600 }\n");
        let ghost before_rules = out@;
        let cn = palette.colors.len();
        let mut k: usize = 0;
        while k < cn
            invariant
                cn == palette.colors@.len(),
                k <= cn,
                out@ == before_rules + color_rules(*palette, palette.colors@.take(k as int)),
            decreases cn - k,
        {
            let (token, _) = palette.colors[k];
            push_str(&mut out, "    .c-");
            push_str(&mut out, token);
            push_str(&mut out, " { fill: ");
            let hex = palette.resolve(token);
            push_str(&mut out, hex);
            push_str(&mut out, " }\n");
            assert(palette.colors@.take(k + 1).drop_last() =~= palette.colors@.take(k as int));
            k += 1;
        }
        assert(palette.colors@.take(cn as int) =~= palette.colors@);
        push_str(&mut out, "  </style>\n");
        push_str(&mut out, "  <rect width=\"100%\" height=\"100%\" rx=\"6\" fill=\"");
        push_str(&mut out, palette.background);
        push_str(&mut out, "\"/>\n");
        let ghost before_rows = out@;
        let mut r: usize = 0;
        while r < rows
            invariant
                rows == ls@.len(),
                lv == line_views(ls@),
                r <= rows,
                out@ == before_rows + text_rows(lv.take(r as int)),
            decreases rows - r,
        {
            let line = &ls[r];
            let ghost rv = run_views(line@);
            assert(lv.take(r + 1).drop_last() =~= lv.take(r as int));
            assert(lv.take(r + 1).last() == rv);
            if line.len() > 0 {
                push_str(&mut out, "  <text y=\"");
                push_tenths(&mut out, 300 + 200 * (r as u128));
                push_str(&mut out, "\" xml:space=\"preserve\">");
                let ghost before_spans = out@;
                let m = line.len();
                let mut j: usize = 0;
                while j < m
                    invariant
                        m == line@.len(),
                        rv == run_views(line@),
                        j <= m,
                        out@ == before_spans + tspans(rv.take(j as int)),
                    decreases m - j,
                {
                    let run = &line[j];
                    push_str(&mut out, "<tspan x=\"");
                    push_tenths(&mut out, 160 + 84 * (run.col as u128));
                    push_str(&mut out, "\" class=\"");
                    let c = class_of(run.style);
                    push_str(&mut out, c.as_str());
                    push_str(&mut out, "\">");
                    let e = escape(run.text.as_str());
                    push_str(&mut out, e.as_str());
                    push_str(&mut out, "</tspan>");
                    assert(rv.take(j + 1).drop_last() =~= rv.take(j as int));
                    j += 1;
                }
                assert(rv.take(m as int) =~= rv);
                push_str(&mut out, "</text>\n");
            }
            r += 1;
        }
        assert(lv.take(rows as int) =~= lv);
        push_str(&mut out, "</svg>\n");
        out
    }
}

} // verus!
