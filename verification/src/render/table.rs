//! A small aligned-column printer.
//!
//! It does exactly what grit's listings need: columns sized to their content,
//! measured in display width so CJK and emoji do not knock the alignment out;
//! cells built from several differently-coloured pieces (`●3 ○1 ⚑1`); and one
//! column that may flex, shrinking with an ellipsis when the table is wider
//! than the terminal.
//!
//! Styling is applied at render time rather than baked into the strings, so
//! truncation never cuts through an escape, and one layout serves two
//! renderers: [`Table::render`], which paints, and
//! [`Table::render_highlighted`], which hands back plain text plus the ranges
//! that were going to be coloured.
use vstd::prelude::*;

use crate::render::theme::{Style, Theme, ELLIPSIS, RULE, dim, plain_style};
use crate::text::{chars_of, decimal, owned, push_str, string_of, trim_end_in};

verus! {

/// How many terminal columns a text takes, as unicode-width measures it.
pub uninterp spec fn display_width(s: Seq<char>) -> nat;

/// `UnicodeWidthStr::width`: the display width of a text.
#[verifier::external_body]
pub(crate) fn text_width(s: &str) -> (res: usize)
    ensures
        res == display_width(s@),
{
    unicode_width::UnicodeWidthStr::width(s)
}

/// The display width of one character, measured as a one-character text.
pub open spec fn char_width(c: char) -> nat {
    display_width(seq![c])
}

/// The display width of one character.
fn char_columns(c: char) -> (res: usize)
    ensures
        res == char_width(c),
{
    let mut s = String::new();
    s.push(c);
    assert(s@ =~= seq![c]);
    text_width(s.as_str())
}

/// `a + b`, held at the largest `usize`.
pub open spec fn sat_add(a: nat, b: nat) -> nat {
    if a + b > usize::MAX {
        usize::MAX as nat
    } else {
        a + b
    }
}

/// A control character, as `char::is_control` reads it: Unicode's `Cc`.
pub open spec fn is_cc(c: char) -> bool {
    c <= '\u{1f}' || ('\u{7f}' <= c && c <= '\u{9f}')
}

/// The character as a table cell holds it: a control character is a space.
pub open spec fn flat_char(c: char) -> char {
    if is_cc(c) {
        ' '
    } else {
        c
    }
}

/// Text as one row of a table can hold it: every control character, a
/// newline or a tab among them, collapsed to a space, so nothing vanishes and
/// nothing breaks the row.
pub open spec fn one_line(s: Seq<char>) -> Seq<char> {
    s.map_values(|c: char| flat_char(c))
}

/// Flatten text onto one line of a table.
pub fn single_line(text: &str) -> (res: String)
    ensures
        res@ == one_line(text@),
{
    let c = chars_of(text);
    let n = c.len();
    let mut out = String::new();
    let mut i: usize = 0;
    while i < n
        invariant
            n == c@.len(),
            c@ == text@,
            i <= n,
            out@ == one_line(c@.take(i as int)),
        decreases n - i,
    {
        let ch = c[i];
        if ch <= '\u{1f}' || ('\u{7f}' <= ch && ch <= '\u{9f}') {
            out.push(' ');
        } else {
            out.push(ch);
        }
        i += 1;
        assert(out@ =~= one_line(c@.take(i as int)));
    }
    assert(c@.take(n as int) =~= c@);
    out
}

/// A run of text sharing one style.
#[derive(Debug, Clone, PartialEq, Eq)]
pub struct Span {
    pub text: String,
    pub style: Style,
}

/// A span as text.
pub struct SpanV {
    pub text: Seq<char>,
    pub style: Style,
}

impl View for Span {
    type V = SpanV;

    open spec fn view(&self) -> SpanV {
        SpanV { text: self.text@, style: self.style }
    }
}

/// The views of a sequence of spans.
pub open spec fn span_views(v: Seq<Span>) -> Seq<SpanV> {
    v.map_values(|s: Span| s@)
}

impl Span {
    /// A copy of this span.
    pub fn copy(&self) -> (res: Span)
        ensures
            res@ == self@,
    {
        Span { text: self.text.clone(), style: self.style }
    }
}

/// An unstyled span.
fn unstyled(text: &str) -> (res: Span)
    ensures
        res@ == (SpanV { text: text@, style: plain_style() }),
{
    Span { text: owned(text), style: Style::new() }
}

/// One table cell: zero or more styled spans laid end to end, each on one
/// line.
#[derive(Debug, PartialEq, Eq)]
pub struct Cell {
    spans: Vec<Span>,
}

impl View for Cell {
    type V = Seq<SpanV>;

    closed spec fn view(&self) -> Seq<SpanV> {
        span_views(self.spans@)
    }
}

/// No span holds a line break.
pub open spec fn spans_unbroken(s: Seq<SpanV>) -> bool {
    forall|i: int| 0 <= i < s.len() ==> !(#[trigger] s[i]).text.contains('\n')
}

impl Cell {
    /// A cell never holds a line break: every way of building one flattens
    /// its text onto one line.
    #[verifier::type_invariant]
    spec fn unbroken(self) -> bool {
        spans_unbroken(span_views(self.spans@))
    }
}

impl Clone for Cell {
    /// A copy, span for span.
    fn clone(&self) -> (res: Cell)
        ensures
            res@ == self@,
    {
        proof {
            use_type_invariant(self);
        }
        let n = self.spans.len();
        let mut spans: Vec<Span> = Vec::new();
        let mut i: usize = 0;
        while i < n
            invariant
                n == self.spans@.len(),
                i <= n,
                span_views(spans@) == span_views(self.spans@).take(i as int),
            decreases n - i,
        {
            let ghost before = span_views(spans@);
            let sp = self.spans[i].copy();
            assert(sp@ == span_views(self.spans@)[i as int]);
            spans.push(sp);
            assert(span_views(spans@) =~= before.push(sp@));
            assert(span_views(spans@) =~= span_views(self.spans@).take(i + 1));
            i += 1;
        }
        assert(span_views(self.spans@).take(n as int) =~= span_views(self.spans@));
        Cell { spans }
    }
}

/// Text flattened onto one line holds no line break.
pub proof fn lemma_one_line_unbroken(s: Seq<char>)
    ensures
        !one_line(s).contains('\n'),
{
    if one_line(s).contains('\n') {
        let k = choose|k: int| 0 <= k < one_line(s).len() && one_line(s)[k] == '\n';
        assert(is_cc(s[k]));
    }
}

/// The spans' text, laid end to end.
pub open spec fn spans_text(s: Seq<SpanV>) -> Seq<char>
    decreases s.len(),
{
    if s.len() == 0 {
        Seq::empty()
    } else {
        spans_text(s.drop_last()) + s.last().text
    }
}

/// The spans' display width, summed.
pub open spec fn spans_width(s: Seq<SpanV>) -> nat
    decreases s.len(),
{
    if s.len() == 0 {
        0
    } else {
        sat_add(spans_width(s.drop_last()), display_width(s.last().text))
    }
}

/// Every span is empty.
pub open spec fn spans_blank(s: Seq<SpanV>) -> bool {
    forall|i: int| 0 <= i < s.len() ==> (#[trigger] s[i]).text.len() == 0
}

/// The characters of `text` that fit after `used` columns without passing
/// `budget`, stopping at the first that does not; and the columns used then.
pub open spec fn fitting(text: Seq<char>, used: nat, budget: nat) -> (Seq<char>, nat)
    decreases text.len(),
{
    if text.len() == 0 {
        (Seq::empty(), used)
    } else if used + char_width(text[0]) > budget {
        (Seq::empty(), used)
    } else {
        let r = fitting(text.drop_first(), used + char_width(text[0]), budget);
        (seq![text[0]] + r.0, r.1)
    }
}

/// The spans that survive being cut to `budget` columns after `used`: each
/// keeps the characters that still fit, a span left with none is dropped, and
/// nothing more is taken once the budget is spent.
pub open spec fn fitted_spans(s: Seq<SpanV>, used: nat, budget: nat) -> Seq<SpanV>
    decreases s.len(),
{
    if s.len() == 0 || used >= budget {
        Seq::empty()
    } else {
        let r = fitting(s[0].text, used, budget);
        let rest = fitted_spans(s.drop_first(), r.1, budget);
        if r.0.len() > 0 {
            seq![SpanV { text: r.0, style: s[0].style }] + rest
        } else {
            rest
        }
    }
}

/// The spans a cell shows when it may take at most `max` columns: all of them
/// when it fits; nothing in no room at all; otherwise what fits before an
/// ellipsis.
pub open spec fn visible_of(cell: Seq<SpanV>, max: Option<usize>) -> Seq<SpanV> {
    match max {
        Some(m) if spans_width(cell) > m => if m == 0 {
            Seq::empty()
        } else {
            let budget: nat = if m >= display_width(ELLIPSIS@) {
                (m - display_width(ELLIPSIS@)) as nat
            } else {
                0
            };
            fitted_spans(cell, 0, budget).push(SpanV { text: ELLIPSIS@, style: dim() })
        },
        _ => cell,
    }
}

/// The width a cell takes when it may take at most `max` columns.
pub open spec fn rendered_width_of(cell: Seq<SpanV>, max: Option<usize>) -> nat {
    match max {
        Some(m) if spans_width(cell) > m => m as nat,
        _ => spans_width(cell),
    }
}

/// The spans of a cell of one span.
pub open spec fn styled_of(text: Seq<char>, style: Style) -> Seq<SpanV> {
    seq![SpanV { text: one_line(text), style }]
}

/// A cell's spans with a span appended, unless it is empty.
pub open spec fn pushed(c: Seq<SpanV>, text: Seq<char>, style: Style) -> Seq<SpanV> {
    if text.len() == 0 {
        c
    } else {
        c.push(SpanV { text: one_line(text), style })
    }
}

/// A cell's spans with a span appended after a space, unless the cell is
/// still blank, and nothing appended for empty text.
pub open spec fn pushed_spaced(c: Seq<SpanV>, text: Seq<char>, style: Style) -> Seq<SpanV> {
    if text.len() == 0 {
        c
    } else if spans_blank(c) {
        c.push(SpanV { text: one_line(text), style })
    } else {
        c.push(SpanV { text: " "@, style: plain_style() }).push(SpanV { text: one_line(text), style })
    }
}

impl Cell {
    pub fn empty() -> (res: Cell)
        ensures
            res@ == Seq::<SpanV>::empty(),
    {
        let spans: Vec<Span> = Vec::new();
        assert(span_views(spans@) =~= Seq::<SpanV>::empty());
        Cell { spans }
    }

    /// A cell with no styling of its own.
    pub fn plain(text: &str) -> (res: Cell)
        ensures
            res@ == seq![SpanV { text: one_line(text@), style: plain_style() }],
    {
        Cell::styled(text, Style::new())
    }

    /// A cell of one span in `style`.
    pub fn styled(text: &str, style: Style) -> (res: Cell)
        ensures
            res@ == seq![SpanV { text: one_line(text@), style }],
    {
        let t = single_line(text);
        proof {
            lemma_one_line_unbroken(text@);
        }
        let spans = vec![Span { text: t, style }];
        assert(span_views(spans@) =~= seq![SpanV { text: one_line(text@), style }]);
        let c = Cell { spans };
        c
    }

    /// Append a span, unless it is empty. Returns the cell, so cells can be
    /// built in one expression.
    pub fn push(self, text: &str, style: Style) -> (res: Cell)
        ensures
            res@ == if text@.len() == 0 {
                self@
            } else {
                self@.push(SpanV { text: one_line(text@), style })
            },
    {
        let t = single_line(text);
        proof {
            use_type_invariant(&self);
            lemma_one_line_unbroken(text@);
        }
        let ghost before = self@;
        if t.as_str().is_empty() {
            return self;
        }
        let Cell { mut spans } = self;
        spans.push(Span { text: t, style });
        assert(span_views(spans@) =~= before.push(SpanV { text: one_line(text@), style }));
        Cell { spans }
    }

    /// Append a span preceded by a space, unless the cell is still empty, in
    /// which case there is nothing to separate it from.
    pub fn push_spaced(self, text: &str, style: Style) -> (res: Cell)
        ensures
            res@ == if text@.len() == 0 {
                self@
            } else if spans_blank(self@) {
                self@.push(SpanV { text: one_line(text@), style })
            } else {
                self@.push(SpanV { text: " "@, style: plain_style() }).push(
                    SpanV { text: one_line(text@), style },
                )
            },
    {
        if text.is_empty() {
            return self;
        }
        if self.is_empty() {
            return self.push(text, style);
        }
        proof {
            reveal_strlit(" ");
        }
        let c = self.push(" ", Style::new());
        assert(one_line(" "@) =~= " "@);
        c.push(text, style)
    }

    /// Every span is empty.
    pub fn is_empty(&self) -> (res: bool)
        ensures
            res == spans_blank(self@),
    {
        let n = self.spans.len();
        let mut i: usize = 0;
        while i < n
            invariant
                n == self.spans@.len(),
                i <= n,
                forall|k: int| 0 <= k < i ==> (#[trigger] self@[k]).text.len() == 0,
            decreases n - i,
        {
            if !self.spans[i].text.as_str().is_empty() {
                assert(self@[i as int].text.len() != 0);
                return false;
            }
            i += 1;
        }
        true
    }

    /// Total display width, ignoring styling.
    pub fn width(&self) -> (res: usize)
        ensures
            res == spans_width(self@),
    {
        let n = self.spans.len();
        let mut total: usize = 0;
        let mut i: usize = 0;
        while i < n
            invariant
                n == self.spans@.len(),
                i <= n,
                total == spans_width(self@.take(i as int)),
            decreases n - i,
        {
            let w = text_width(self.spans[i].text.as_str());
            assert(self@.take(i + 1).drop_last() =~= self@.take(i as int));
            total = if total > usize::MAX - w {
                usize::MAX
            } else {
                total + w
            };
            i += 1;
        }
        assert(self@.take(n as int) =~= self@);
        total
    }

    /// The unstyled text.
    pub fn text(&self) -> (res: String)
        ensures
            res@ == spans_text(self@),
    {
        let n = self.spans.len();
        let mut out = String::new();
        let mut i: usize = 0;
        while i < n
            invariant
                n == self.spans@.len(),
                i <= n,
                out@ == spans_text(self@.take(i as int)),
            decreases n - i,
        {
            push_str(&mut out, self.spans[i].text.as_str());
            assert(self@.take(i + 1).drop_last() =~= self@.take(i as int));
            i += 1;
        }
        assert(self@.take(n as int) =~= self@);
        out
    }

    /// The spans, in order.
    pub fn spans(&self) -> (res: &Vec<Span>)
        ensures
            span_views(res@) == self@,
    {
        &self.spans
    }

    /// The spans that survive truncation to `max` display columns: cut on a
    /// character boundary, with room left for the ellipsis.
    pub fn visible_spans(&self, max: Option<usize>) -> (res: Vec<Span>)
        ensures
            span_views(res@) == visible_of(self@, max),
    {
        let w = self.width();
        let m = match max {
            Some(m) if w > m => m,
            _ => {
                let mut all: Vec<Span> = Vec::new();
                let n = self.spans.len();
                let mut i: usize = 0;
                while i < n
                    invariant
                        n == self.spans@.len(),
                        i <= n,
                        span_views(all@) == self@.take(i as int),
                    decreases n - i,
                {
                    let ghost before = span_views(all@);
                    all.push(self.spans[i].copy());
                    assert(span_views(all@) =~= before.push(self@[i as int]));
                    assert(self@.take(i + 1) =~= self@.take(i as int).push(self@[i as int]));
                    i += 1;
                }
                assert(self@.take(n as int) =~= self@);
                return all;
            },
        };
        if m == 0 {
            let none: Vec<Span> = Vec::new();
            assert(span_views(none@) =~= Seq::<SpanV>::empty());
            return none;
        }
        let ew = text_width(ELLIPSIS);
        let budget: usize = if m >= ew {
            m - ew
        } else {
            0
        };
        let mut out: Vec<Span> = Vec::new();
        let mut used: usize = 0;
        let n = self.spans.len();
        let mut i: usize = 0;
        assert(self@.skip(0) =~= self@);
        assert(span_views(out@) =~= Seq::<SpanV>::empty());
        while i < n && used < budget
            invariant
                n == self.spans@.len(),
                i <= n,
                used <= budget,
                span_views(out@) + fitted_spans(self@.skip(i as int), used as nat, budget as nat)
                    == fitted_spans(self@, 0, budget as nat),
            decreases n - i,
        {
            let ghost rest = self@.skip(i as int);
            let span = &self.spans[i];
            let c = chars_of(span.text.as_str());
            let ghost text = c@;
            assert(rest[0] == self@[i as int]);
            let cn = c.len();
            let mut taken = String::new();
            let mut j: usize = 0;
            let mut done = false;
            let ghost start_used = used;
            assert(c@.skip(0) =~= c@);
            while j < cn && !done
                invariant
                    cn == c@.len(),
                    j <= cn,
                    used <= budget,
                    taken@ + fitting(c@.skip(j as int), used as nat, budget as nat).0
                        == fitting(text, start_used as nat, budget as nat).0,
                    fitting(c@.skip(j as int), used as nat, budget as nat).1 == fitting(
                        text,
                        start_used as nat,
                        budget as nat,
                    ).1,
                    done ==> fitting(c@.skip(j as int), used as nat, budget as nat).0
                        == Seq::<char>::empty() && fitting(
                        c@.skip(j as int),
                        used as nat,
                        budget as nat,
                    ).1 == used,
                    c@ == text,
                decreases cn - j + (if done {
                    0int
                } else {
                    1int
                }),
            {
                let ch = c[j];
                let cw = char_columns(ch);
                assert(c@.skip(j as int)[0] == ch);
                if cw > budget || used > budget - cw {
                    done = true;
                } else {
                    let ghost before = taken@;
                    taken.push(ch);
                    used = used + cw;
                    assert(c@.skip(j as int).drop_first() =~= c@.skip(j + 1));
                    j += 1;
                    assert(taken@ + fitting(c@.skip(j as int), used as nat, budget as nat).0
                        =~= before + fitting(c@.skip(j - 1), (used - cw) as nat, budget as nat).0);
                }
            }
            proof {
                let f = fitting(c@.skip(j as int), used as nat, budget as nat);
                if !done {
                    assert(c@.skip(j as int) =~= Seq::<char>::empty());
                }
                assert(f.0 =~= Seq::<char>::empty());
                assert(taken@ + f.0 =~= taken@);
                assert(taken@ == fitting(text, start_used as nat, budget as nat).0);
                assert(used == fitting(text, start_used as nat, budget as nat).1);
                assert(rest.drop_first() =~= self@.skip(i + 1));
            }
            let ghost before = span_views(out@);
            if !taken.as_str().is_empty() {
                out.push(Span { text: taken, style: span.style });
                assert(span_views(out@) =~= before.push(SpanV { text: fitting(text, start_used as nat, budget as nat).0, style: rest[0].style }));
            }
            i += 1;
        }
        proof {
            if i == n {
                assert(self@.skip(i as int) =~= Seq::<SpanV>::empty());
            }
            assert(fitted_spans(self@.skip(i as int), used as nat, budget as nat) =~= Seq::<SpanV>::empty());
            assert(span_views(out@) + Seq::<SpanV>::empty() =~= span_views(out@));
        }
        let ghost before = span_views(out@);
        out.push(Span { text: owned(ELLIPSIS), style: Theme::muted() });
        assert(span_views(out@) =~= before.push(SpanV { text: ELLIPSIS@, style: dim() }));
        out
    }

    /// Display width after truncation to `max`.
    pub fn rendered_width(&self, max: Option<usize>) -> (res: usize)
        ensures
            res == rendered_width_of(self@, max),
    {
        let w = self.width();
        match max {
            Some(m) if w > m => m,
            _ => w,
        }
    }
}


/// `str::to_uppercase`: the text with every character mapped to its
/// uppercase form, which for some characters is more than one.
pub uninterp spec fn upper_text(s: Seq<char>) -> Seq<char>;

/// `str::to_uppercase`.
#[verifier::external_body]
pub(crate) fn uppercase(s: &str) -> (res: String)
    ensures
        res@ == upper_text(s@),
{
    s.to_uppercase()
}

/// Spaces between columns.
pub const GAP: usize = 2;

/// Left margin, so output does not sit flush against the terminal edge.
pub const INDENT: &'static str = "  ";

/// A flex column never shrinks below this, even on a very narrow terminal.
pub const MIN_FLEX_WIDTH: usize = 8;

/// Which side of its column a cell sits against.
#[derive(Debug, Clone, Copy, PartialEq, Eq, Structural)]
pub enum Align {
    Left,
    Right,
}

/// One column: its header, its alignment, and whether it is the one that
/// absorbs the shrinking when space runs out.
#[derive(Debug, Clone, PartialEq, Eq)]
pub struct Column {
    pub header: String,
    pub align: Align,
    pub flex: bool,
}

/// A column as text.
pub struct ColumnV {
    pub header: Seq<char>,
    pub align: Align,
    pub flex: bool,
}

/// A table as text: its columns, its rows of cells, and how it is laid out.
pub struct TableV {
    pub columns: Seq<ColumnV>,
    pub rows: Seq<Seq<Seq<SpanV>>>,
    pub color: bool,
    pub width: Option<usize>,
    pub rule: bool,
    pub header: bool,
    pub indent: bool,
}

/// The views of a row of cells.
pub open spec fn cell_views(v: Seq<Cell>) -> Seq<Seq<SpanV>> {
    v.map_values(|c: Cell| c@)
}

/// Every cell of every row holds no line break.
pub open spec fn rows_unbroken(rows: Seq<Seq<Seq<SpanV>>>) -> bool {
    forall|r: int, c: int|
        0 <= r < rows.len() && 0 <= c < rows[r].len() ==> spans_unbroken(#[trigger] rows[r][c])
}

/// A table: columns sized to their content, a flex column that shrinks, and
/// one layout behind both renderers.
#[derive(Debug)]
pub struct Table {
    columns: Vec<Column>,
    rows: Vec<Vec<Cell>>,
    color: bool,
    width: Option<usize>,
    rule: bool,
    header: bool,
    indent: bool,
}

impl View for Table {
    type V = TableV;

    closed spec fn view(&self) -> TableV {
        TableV {
            columns: self.columns@.map_values(
                |c: Column| ColumnV { header: c.header@, align: c.align, flex: c.flex },
            ),
            rows: self.rows@.map_values(|r: Vec<Cell>| cell_views(r@)),
            color: self.color,
            width: self.width,
            rule: self.rule,
            header: self.header,
            indent: self.indent,
        }
    }
}

impl Table {
    /// No cell of a table holds a line break.
    #[verifier::type_invariant]
    spec fn cells_unbroken(self) -> bool {
        rows_unbroken(self@.rows)
    }
}

/// A row of cells, copied cell by cell.
fn copy_row(row: &Vec<Cell>) -> (res: Vec<Cell>)
    ensures
        cell_views(res@) == cell_views(row@),
{
    let n = row.len();
    let mut out: Vec<Cell> = Vec::new();
    let mut i: usize = 0;
    while i < n
        invariant
            n == row@.len(),
            i <= n,
            cell_views(out@) == cell_views(row@).take(i as int),
        decreases n - i,
    {
        let ghost before = cell_views(out@);
        let c = row[i].clone();
        assert(c@ == cell_views(row@)[i as int]);
        out.push(c);
        assert(cell_views(out@) =~= before.push(c@));
        assert(cell_views(out@) =~= cell_views(row@).take(i + 1));
        i += 1;
    }
    assert(cell_views(row@).take(n as int) =~= cell_views(row@));
    out
}

impl Clone for Table {
    /// A copy of the table, column for column and cell for cell.
    fn clone(&self) -> (res: Table)
        ensures
            res@ == self@,
    {
        proof {
            use_type_invariant(self);
        }
        let mut columns: Vec<Column> = Vec::new();
        let n = self.columns.len();
        let mut i: usize = 0;
        while i < n
            invariant
                n == self.columns@.len(),
                i <= n,
                columns@.len() == i,
                forall|k: int|
                    0 <= k < i ==> (#[trigger] columns@[k]).header@ == self.columns@[k].header@
                        && columns@[k].align == self.columns@[k].align && columns@[k].flex
                        == self.columns@[k].flex,
            decreases n - i,
        {
            let c = &self.columns[i];
            columns.push(Column { header: c.header.clone(), align: c.align, flex: c.flex });
            i += 1;
        }
        let m = self.rows.len();
        let mut rows: Vec<Vec<Cell>> = Vec::new();
        let mut j: usize = 0;
        while j < m
            invariant
                m == self.rows@.len(),
                j <= m,
                rows@.len() == j,
                forall|k: int| 0 <= k < j ==> cell_views(#[trigger] rows@[k]@) == cell_views(self.rows@[k]@),
            decreases m - j,
        {
            rows.push(copy_row(&self.rows[j]));
            j += 1;
        }
        assert(rows@.map_values(|r: Vec<Cell>| cell_views(r@)) =~= self@.rows);
        let t = Table {
            columns,
            rows,
            color: self.color,
            width: self.width,
            rule: self.rule,
            header: self.header,
            indent: self.indent,
        };
        assert(t@.columns =~= self@.columns);
        assert(t@.rows =~= self@.rows);
        t
    }
}

/// The cell at column `i` of a row, or an empty one if the row is short.
pub open spec fn cell_at(row: Seq<Seq<SpanV>>, i: int) -> Seq<SpanV> {
    if 0 <= i < row.len() {
        row[i]
    } else {
        Seq::empty()
    }
}

/// The widest cell in column `i` among the rows.
pub open spec fn widest_cell(rows: Seq<Seq<Seq<SpanV>>>, i: int) -> nat
    decreases rows.len(),
{
    if rows.len() == 0 {
        0
    } else {
        let rest = widest_cell(rows.drop_last(), i);
        let here: nat = if 0 <= i < rows.last().len() {
            spans_width(rows.last()[i])
        } else {
            0
        };
        if here > rest {
            here
        } else {
            rest
        }
    }
}

/// Natural width of column `i`: the widest of its header and its cells.
pub open spec fn natural_width(t: TableV, i: int) -> nat {
    let cells = widest_cell(t.rows, i);
    let head = display_width(t.columns[i].header);
    if cells > head {
        cells
    } else {
        head
    }
}

/// The first flex column, or -1.
pub open spec fn flex_index(cols: Seq<ColumnV>) -> int
    decreases cols.len(),
{
    if cols.len() == 0 {
        -1
    } else {
        let r = flex_index(cols.drop_last());
        if r >= 0 {
            r
        } else if cols.last().flex {
            cols.len() - 1
        } else {
            -1
        }
    }
}

/// The widths summed.
pub open spec fn sum_widths(w: Seq<nat>) -> nat
    decreases w.len(),
{
    if w.len() == 0 {
        0
    } else {
        sat_add(sum_widths(w.drop_last()), w.last())
    }
}

/// The columns the gaps between `n` columns take.
pub open spec fn gaps(n: nat) -> nat {
    if n == 0 {
        0
    } else if GAP * (n - 1) > usize::MAX {
        usize::MAX as nat
    } else {
        (GAP * (n - 1)) as nat
    }
}

/// Column widths after fitting to the terminal: when the table would be
/// wider than the terminal, the flex column gives up the overflow, down to
/// [`MIN_FLEX_WIDTH`].
pub open spec fn fitted_widths_of(t: TableV) -> Seq<nat> {
    let w = Seq::new(t.columns.len(), |i: int| natural_width(t, i));
    let k = flex_index(t.columns);
    match t.width {
        Some(available) if k >= 0 => {
            let total = sat_add(
                sat_add(sum_widths(w), gaps(t.columns.len())),
                if t.indent {
                    display_width(INDENT@)
                } else {
                    0
                },
            );
            if total <= available {
                w
            } else {
                let over = (total - available) as nat;
                let shrunk: nat = if w[k] > over {
                    (w[k] - over) as nat
                } else {
                    0
                };
                w.update(
                    k,
                    if shrunk > MIN_FLEX_WIDTH {
                        shrunk
                    } else {
                        MIN_FLEX_WIDTH as nat
                    },
                )
            }
        },
        _ => w,
    }
}

/// An unstyled span.
pub open spec fn bare(text: Seq<char>) -> SpanV {
    SpanV { text, style: plain_style() }
}

/// `n` spaces.
pub open spec fn spaces(n: nat) -> Seq<char> {
    Seq::new(n, |i: int| ' ')
}

/// `n` rule characters.
pub open spec fn rule_text(n: nat) -> Seq<char>
    decreases n,
{
    if n == 0 {
        Seq::empty()
    } else {
        rule_text((n - 1) as nat) + RULE@
    }
}

/// What column `i` contributes to a line: the cell's visible spans and its
/// padding, on the side its alignment puts it, then the gap to the next
/// column.
pub open spec fn column_piece(t: TableV, widths: Seq<nat>, cells: Seq<Seq<SpanV>>, i: int) -> Seq<SpanV> {
    let cell = cell_at(cells, i);
    let max: Option<usize> = if i == flex_index(t.columns) {
        Some(widths[i] as usize)
    } else {
        None
    };
    let pad: nat = if widths[i] > rendered_width_of(cell, max) {
        (widths[i] - rendered_width_of(cell, max)) as nat
    } else {
        0
    };
    let last = i + 1 >= t.columns.len();
    let body = match t.columns[i].align {
        Align::Left => visible_of(cell, max) + if last {
            Seq::empty()
        } else {
            seq![bare(spaces(pad))]
        },
        Align::Right => seq![bare(spaces(pad))] + visible_of(cell, max),
    };
    body + if last {
        Seq::empty()
    } else {
        seq![bare(spaces(GAP as nat))]
    }
}

/// The pieces of the first `k` columns, in order.
pub open spec fn column_pieces(t: TableV, widths: Seq<nat>, cells: Seq<Seq<SpanV>>, k: int) -> Seq<SpanV>
    decreases k,
{
    if k <= 0 {
        Seq::empty()
    } else {
        column_pieces(t, widths, cells, k - 1) + column_piece(t, widths, cells, k - 1)
    }
}

/// A line with its trailing spaces taken off, and the spans they emptied.
pub open spec fn trim_tail(line: Seq<SpanV>) -> Seq<SpanV>
    decreases line.len(),
{
    if line.len() == 0 {
        line
    } else {
        let t = trim_end_in(line.last().text, seq![' ']);
        if t.len() == 0 {
            trim_tail(line.drop_last())
        } else {
            line.drop_last().push(SpanV { text: t, style: line.last().style })
        }
    }
}

/// The margin a line starts with.
pub open spec fn margin(t: TableV) -> Seq<SpanV> {
    if t.indent {
        seq![bare(INDENT@)]
    } else {
        Seq::empty()
    }
}

/// One laid-out line: the margin, then every column, with no trailing
/// whitespace.
pub open spec fn line_of(t: TableV, widths: Seq<nat>, cells: Seq<Seq<SpanV>>) -> Seq<SpanV> {
    trim_tail(margin(t) + column_pieces(t, widths, cells, t.columns.len() as int))
}

/// The header row: each header in capitals, dimmed.
pub open spec fn header_cells(t: TableV) -> Seq<Seq<SpanV>> {
    t.columns.map_values(
        |c: ColumnV| seq![SpanV { text: one_line(upper_text(c.header)), style: dim() }],
    )
}

/// The rule under the header, spanning the columns but not the margin.
pub open spec fn rule_line(t: TableV, widths: Seq<nat>) -> Seq<SpanV> {
    margin(t).push(
        SpanV {
            text: rule_text(sat_add(sum_widths(widths), gaps(widths.len()))),
            style: crate::render::theme::hue(crate::render::theme::Color::Xterm(238)),
        },
    )
}

/// Every line of the table: the header, the rule, then each row, all laid
/// out in the one geometry.
pub open spec fn table_lines(t: TableV) -> Seq<Seq<SpanV>> {
    let w = fitted_widths_of(t);
    (if t.header {
        seq![line_of(t, w, header_cells(t))]
    } else {
        Seq::empty()
    }) + (if t.rule {
        seq![rule_line(t, w)]
    } else {
        Seq::empty()
    }) + t.rows.map_values(|r: Seq<Seq<SpanV>>| line_of(t, w, r))
}

impl Table {
    /// Start a table with the given column headers, all left-aligned, with a
    /// header row, a rule and a margin, uncoloured and never truncated.
    pub fn new<const N: usize>(headers: [&str; N]) -> (res: Table)
        ensures
            res@.columns.len() == N,
            forall|i: int|
                0 <= i < N ==> (#[trigger] res@.columns[i]) == (ColumnV {
                    header: headers@[i]@,
                    align: Align::Left,
                    flex: false,
                }),
            res@.rows.len() == 0,
            !res@.color,
            res@.width is None,
            res@.rule,
            res@.header,
            res@.indent,
    {
        let mut columns: Vec<Column> = Vec::new();
        let mut i: usize = 0;
        while i < N
            invariant
                i <= N,
                headers@.len() == N,
                columns@.len() == i,
                forall|k: int|
                    0 <= k < i ==> (#[trigger] columns@[k]).header@ == headers@[k]@ && columns@[k].align
                        == Align::Left && !columns@[k].flex,
            decreases N - i,
        {
            columns.push(Column { header: owned(headers[i]), align: Align::Left, flex: false });
            i += 1;
        }
        let t = Table {
            columns,
            rows: Vec::new(),
            color: false,
            width: None,
            rule: true,
            header: true,
            indent: true,
        };
        assert(t@.rows =~= Seq::<Seq<Seq<SpanV>>>::empty());
        t
    }

    /// Paint when rendering, or not.
    pub fn color(self, on: bool) -> (res: Table)
        ensures
            res@ == (TableV { color: on, ..self@ }),
    {
        proof {
            use_type_invariant(&self);
        }
        Table { color: on, ..self }
    }

    /// Constrain the table to `width` columns. Without this it never
    /// truncates.
    pub fn terminal_width(self, width: Option<usize>) -> (res: Table)
        ensures
            res@ == (TableV { width, ..self@ }),
    {
        proof {
            use_type_invariant(&self);
        }
        Table { width, ..self }
    }

    /// Mark the column that should shrink: only one is, so a later call
    /// replaces an earlier one.
    pub fn flex(self, index: usize) -> (res: Table)
        ensures
            res@.columns.len() == self@.columns.len(),
            forall|i: int|
                0 <= i < self@.columns.len() ==> (#[trigger] res@.columns[i]) == (ColumnV {
                    flex: i == index,
                    ..self@.columns[i]
                }),
            res@.rows == self@.rows,
            res@.color == self@.color,
            res@.width == self@.width,
            res@.rule == self@.rule,
            res@.header == self@.header,
            res@.indent == self@.indent,
    {
        proof {
            use_type_invariant(&self);
        }
        let mut t = self;
        let mut cols: Vec<Column> = Vec::new();
        std::mem::swap(&mut cols, &mut t.columns);
        let ghost before = cols@;
        let n = cols.len();
        let mut out: Vec<Column> = Vec::new();
        let mut i: usize = 0;
        while i < n
            invariant
                n == cols@.len(),
                cols@ == before,
                i <= n,
                out@.len() == i,
                forall|k: int|
                    0 <= k < i ==> (#[trigger] out@[k]).header@ == before[k].header@ && out@[k].align
                        == before[k].align && out@[k].flex == (k == index),
            decreases n - i,
        {
            let c = &cols[i];
            out.push(Column { header: c.header.clone(), align: c.align, flex: i == index });
            i += 1;
        }
        t.columns = out;
        t
    }

    /// Set a column's alignment; an index past the last column changes
    /// nothing.
    pub fn align(self, index: usize, align: Align) -> (res: Table)
        ensures
            res@.columns == if index < self@.columns.len() {
                self@.columns.update(index as int, ColumnV { align, ..self@.columns[index as int] })
            } else {
                self@.columns
            },
            res@.rows == self@.rows,
            res@.color == self@.color,
            res@.width == self@.width,
            res@.rule == self@.rule,
            res@.header == self@.header,
            res@.indent == self@.indent,
    {
        proof {
            use_type_invariant(&self);
        }
        let mut t = self;
        if index < t.columns.len() {
            let ghost before = t@.columns;
            let mut cols: Vec<Column> = Vec::new();
            std::mem::swap(&mut cols, &mut t.columns);
            let c = cols.remove(index);
            cols.insert(index, Column { header: c.header, align, flex: c.flex });
            t.columns = cols;
            assert(t@.columns =~= before.update(index as int, ColumnV { align, ..before[index as int] }));
        }
        t
    }

    /// Leave out the rule under the header.
    pub fn no_rule(self) -> (res: Table)
        ensures
            res@ == (TableV { rule: false, ..self@ }),
    {
        proof {
            use_type_invariant(&self);
        }
        Table { rule: false, ..self }
    }

    /// Leave out the header row.
    pub fn no_header(self) -> (res: Table)
        ensures
            res@ == (TableV { header: false, ..self@ }),
    {
        proof {
            use_type_invariant(&self);
        }
        Table { header: false, ..self }
    }

    /// Leave out the margin, so each line starts with its first cell.
    pub fn no_indent(self) -> (res: Table)
        ensures
            res@ == (TableV { indent: false, ..self@ }),
    {
        proof {
            use_type_invariant(&self);
        }
        Table { indent: false, ..self }
    }

    /// Add a row, one cell per column.
    pub fn push_row(&mut self, cells: Vec<Cell>)
        requires
            cells@.len() == old(self)@.columns.len(),
        ensures
            final(self)@ == (TableV { rows: old(self)@.rows.push(cell_views(cells@)), ..old(self)@ }),
    {
        proof {
            use_type_invariant(&*self);
        }
        let ghost before = self@;
        let ghost cv = cell_views(cells@);
        let n = cells.len();
        let mut k: usize = 0;
        while k < n
            invariant
                n == cells@.len(),
                k <= n,
                forall|j: int| 0 <= j < k ==> spans_unbroken(#[trigger] cells@[j]@),
            decreases n - k,
        {
            let c = &cells[k];
            proof {
                use_type_invariant(c);
            }
            k += 1;
        }
        let mut rows: Vec<Vec<Cell>> = Vec::new();
        std::mem::swap(&mut rows, &mut self.rows);
        rows.push(cells);
        assert(rows@.map_values(|r: Vec<Cell>| cell_views(r@)) =~= before.rows.push(cv));
        self.rows = rows;
    }

    /// No row has been added.
    pub fn is_empty(&self) -> (res: bool)
        ensures
            res == (self@.rows.len() == 0),
    {
        self.rows.len() == 0
    }
}


/// A run of the rendered table that carries a style, as character offsets
/// into the text [`Table::render_highlighted`] returned alongside it.
#[derive(Debug, Clone, Copy, PartialEq, Eq, Structural)]
pub struct Highlight {
    pub start: usize,
    /// One past the last character, so `end - start` is the length.
    pub end: usize,
    pub style: Style,
}

/// The widths as numbers.
pub open spec fn nat_widths(v: Seq<usize>) -> Seq<nat> {
    v.map_values(|w: usize| w as nat)
}

/// The line break that ends every line.
pub open spec fn newline() -> SpanV {
    bare(seq!['\n'])
}

/// The lines laid end to end, each followed by its line break.
pub open spec fn flattened(ls: Seq<Seq<SpanV>>) -> Seq<SpanV>
    decreases ls.len(),
{
    if ls.len() == 0 {
        Seq::empty()
    } else {
        flattened(ls.drop_last()) + ls.last().push(newline())
    }
}

/// The ranges that carry a style, over spans laid end to end, and the
/// position reached: unstyled and empty runs make no range, and a run that
/// continues the last range in its style extends it.
pub open spec fn highlight_fold(s: Seq<SpanV>) -> (Seq<Highlight>, nat)
    decreases s.len(),
{
    if s.len() == 0 {
        (Seq::empty(), 0)
    } else {
        let r = highlight_fold(s.drop_last());
        let sp = s.last();
        let start = r.1;
        let end = sat_add(start, sp.text.len());
        if sp.style == plain_style() || sp.text.len() == 0 {
            (r.0, end)
        } else if r.0.len() > 0 && r.0.last().end == start && r.0.last().style == sp.style {
            (r.0.update(r.0.len() - 1, Highlight { end: end as usize, ..r.0.last() }), end)
        } else {
            (r.0.push(Highlight { start: start as usize, end: end as usize, style: sp.style }), end)
        }
    }
}

/// The spans painted and laid end to end.
pub open spec fn painted_spans(s: Seq<SpanV>, color: bool) -> Seq<char>
    decreases s.len(),
{
    if s.len() == 0 {
        Seq::empty()
    } else {
        painted_spans(s.drop_last(), color) + crate::render::painted(s.last().text, s.last().style, color)
    }
}

/// The lines painted, each followed by a line break.
pub open spec fn painted_lines(ls: Seq<Seq<SpanV>>, color: bool) -> Seq<char>
    decreases ls.len(),
{
    if ls.len() == 0 {
        Seq::empty()
    } else {
        painted_lines(ls.drop_last(), color) + painted_spans(ls.last(), color) + seq!['\n']
    }
}

/// Spans painted without colour are their text.
proof fn lemma_unpainted_spans(s: Seq<SpanV>)
    ensures
        painted_spans(s, false) == spans_text(s),
    decreases s.len(),
{
    if s.len() > 0 {
        lemma_unpainted_spans(s.drop_last());
    }
}

/// The text of spans laid end to end is their texts laid end to end.
proof fn lemma_spans_text_concat(a: Seq<SpanV>, b: Seq<SpanV>)
    ensures
        spans_text(a + b) == spans_text(a) + spans_text(b),
    decreases b.len(),
{
    if b.len() == 0 {
        assert(a + b =~= a);
    } else {
        lemma_spans_text_concat(a, b.drop_last());
        assert((a + b).drop_last() =~= a + b.drop_last());
    }
}

/// Lines painted without colour are the text of the flattened lines: the
/// plain text a line editor is handed is exactly what an uncoloured
/// terminal would print, so offsets counted over one land on the other.
pub proof fn law_highlighted_text_is_the_plain_render(lines: Seq<Seq<SpanV>>)
    ensures
        painted_lines(lines, false) == spans_text(flattened(lines)),
    decreases lines.len(),
{
    if lines.len() > 0 {
        let rest = lines.drop_last();
        let last = lines.last();
        law_highlighted_text_is_the_plain_render(rest);
        lemma_unpainted_spans(last);
        lemma_spans_text_concat(flattened(rest), last.push(newline()));
        assert(last.push(newline()).drop_last() =~= last);
        assert(spans_text(last.push(newline())) =~= spans_text(last) + seq!['\n']);
        assert(painted_lines(lines, false) =~= painted_lines(rest, false) + painted_spans(last, false) + seq!['\n']);
        assert(spans_text(flattened(rest)) + (spans_text(last) + seq!['\n']) =~= spans_text(flattened(rest)) + spans_text(last) + seq!['\n']);
    }
}

/// Ranges that lie inside text of `len` characters, each non-empty and
/// styled, in order and never overlapping.
pub open spec fn ranges_in_order(hs: Seq<Highlight>, len: nat) -> bool {
    &&& forall|i: int|
        0 <= i < hs.len() ==> #[trigger] hs[i].start < hs[i].end <= len && hs[i].style != plain_style()
    &&& forall|i: int, j: int| 0 <= i < j < hs.len() ==> #[trigger] hs[i].end <= #[trigger] hs[j].start
}

/// No styled span carries a line break.
pub open spec fn styled_spans_unbroken(s: Seq<SpanV>) -> bool {
    forall|i: int|
        0 <= i < s.len() && #[trigger] s[i].style != plain_style() ==> !s[i].text.contains('\n')
}

/// Every character a range covers is no line break.
pub open spec fn ranges_unbroken(hs: Seq<Highlight>, text: Seq<char>) -> bool {
    forall|i: int, k: int|
        #![trigger hs[i], text[k]]
        0 <= i < hs.len() && hs[i].start <= k < hs[i].end ==> text[k] != '\n'
}

/// The ranges [`Table::render_highlighted`] hands back, over any spans laid
/// end to end whose text fits the offsets: they end where the text ends,
/// each is non-empty and styled, they come in order and never overlap, and
/// where no styled span holds a line break no range covers one.
pub proof fn law_highlight_ranges_are_ordered(s: Seq<SpanV>)
    requires
        spans_text(s).len() <= usize::MAX,
    ensures
        highlight_fold(s).1 == spans_text(s).len(),
        ranges_in_order(highlight_fold(s).0, highlight_fold(s).1),
        styled_spans_unbroken(s) ==> ranges_unbroken(highlight_fold(s).0, spans_text(s)),
    decreases s.len(),
{
    if s.len() > 0 {
        let prev = s.drop_last();
        let sp = s.last();
        law_highlight_ranges_are_ordered(prev);
        let r = highlight_fold(prev);
        let t = spans_text(s);
        let pt = spans_text(prev);
        assert(t == pt + sp.text);
        let hs = highlight_fold(s).0;
        let end: nat = pt.len() + sp.text.len();
        assert forall|i: int| 0 <= i < hs.len() implies #[trigger] hs[i].start < hs[i].end <= end
            && hs[i].style != plain_style() by {
            if i < r.0.len() {
                assert(r.0[i].start < r.0[i].end);
            }
        }
        assert forall|i: int, j: int| 0 <= i < j < hs.len() implies #[trigger] hs[i].end <= #[trigger] hs[j].start by {
            if j < r.0.len() {
                assert(r.0[i].end <= r.0[j].start);
            } else {
                assert(r.0[i].end <= r.1) by {
                    assert(r.0[i].start < r.0[i].end);
                }
            }
        }
        if styled_spans_unbroken(s) {
            assert(styled_spans_unbroken(prev)) by {
                assert forall|i: int|
                    0 <= i < prev.len() && #[trigger] prev[i].style != plain_style() implies !prev[i].text.contains('\n') by {
                    assert(prev[i] == s[i]);
                }
            }
            assert(sp == s[s.len() - 1]);
            assert forall|i: int, k: int|
                #![trigger hs[i], t[k]]
                0 <= i < hs.len() && hs[i].start <= k < hs[i].end implies t[k] != '\n' by {
                if k < pt.len() {
                    assert(t[k] == pt[k]);
                    if i < r.0.len() && k < r.0[i].end {
                        assert(pt[k] != '\n');
                    } else {
                        let last: int = r.0.len() - 1;
                        assert(r.0[last].start <= k < r.0[last].end);
                        assert(pt[k] != '\n');
                    }
                } else {
                    assert(t[k] == sp.text[k - pt.len()]);
                    if t[k] == '\n' {
                        assert(sp.text.contains('\n'));
                    }
                }
            }
        }
    }
}

/// Text with no control character is left as it is by [`one_line`].
pub proof fn lemma_one_line_keeps(s: Seq<char>)
    requires
        forall|i: int| 0 <= i < s.len() ==> !is_cc(#[trigger] s[i]),
    ensures
        one_line(s) == s,
{
    assert(one_line(s) =~= s);
}

/// A decimal spelling is digits, at least one of them.
pub proof fn lemma_decimal_digits(n: nat)
    ensures
        decimal(n).len() >= 1,
        forall|i: int| 0 <= i < decimal(n).len() ==> '0' <= #[trigger] decimal(n)[i] <= '9',
    decreases n,
{
    if n >= 10 {
        lemma_decimal_digits(n / 10);
        let d = decimal(n / 10);
        assert forall|i: int| 0 <= i < decimal(n).len() implies '0' <= #[trigger] decimal(n)[i] <= '9' by {
            if i < d.len() {
                assert(decimal(n)[i] == d[i]);
            }
        }
    }
}

/// A symbol that is no control character, followed by a count, is shown as
/// it is.
pub proof fn lemma_count_text_kept(symbol: Seq<char>, n: nat)
    requires
        forall|i: int| 0 <= i < symbol.len() ==> !is_cc(#[trigger] symbol[i]),
    ensures
        one_line(symbol + decimal(n)) == symbol + decimal(n),
{
    lemma_decimal_digits(n);
    let t = symbol + decimal(n);
    assert forall|i: int| 0 <= i < t.len() implies !is_cc(#[trigger] t[i]) by {
        if i >= symbol.len() {
            assert(t[i] == decimal(n)[i - symbol.len()]);
        }
    }
    lemma_one_line_keeps(t);
}

/// The text of a cell with one more span.
pub proof fn lemma_pushed_text(c: Seq<SpanV>, text: Seq<char>, style: Style)
    ensures
        spans_text(pushed(c, text, style)) == spans_text(c) + one_line(text),
        spans_text(pushed_spaced(c, text, style)) == if text.len() == 0 {
            spans_text(c)
        } else if spans_blank(c) {
            spans_text(c) + one_line(text)
        } else {
            spans_text(c) + " "@ + one_line(text)
        },
{
    if text.len() == 0 {
        assert(one_line(text) =~= Seq::<char>::empty());
        assert(spans_text(c) + one_line(text) =~= spans_text(c));
    } else {
        let a = c.push(SpanV { text: one_line(text), style });
        assert(a.drop_last() =~= c);
        if !spans_blank(c) {
            let b = c.push(SpanV { text: " "@, style: plain_style() });
            assert(b.drop_last() =~= c);
            assert(spans_text(b) == spans_text(c) + " "@);
            let d = b.push(SpanV { text: one_line(text), style });
            assert(d.drop_last() =~= b);
            assert(spans_text(d) == spans_text(b) + one_line(text));
        }
    }
}

/// The front of a text without line breaks has none.
proof fn lemma_take_unbroken(t: Seq<char>, n: int)
    requires
        !t.contains('\n'),
        0 <= n <= t.len(),
    ensures
        !t.take(n).contains('\n'),
{
    if t.take(n).contains('\n') {
        let k = choose|k: int| 0 <= k < t.take(n).len() && t.take(n)[k] == '\n';
        assert(t[k] == '\n');
    }
}

proof fn lemma_concat_unbroken(a: Seq<SpanV>, b: Seq<SpanV>)
    requires
        spans_unbroken(a),
        spans_unbroken(b),
    ensures
        spans_unbroken(a + b),
{
    assert forall|i: int| 0 <= i < (a + b).len() implies !(#[trigger] (a + b)[i]).text.contains('\n') by {
        if i < a.len() {
            assert((a + b)[i] == a[i]);
        } else {
            assert((a + b)[i] == b[i - a.len()]);
        }
    }
}

proof fn lemma_fitting_prefix(text: Seq<char>, used: nat, budget: nat)
    ensures
        fitting(text, used, budget).0.len() <= text.len(),
        fitting(text, used, budget).0 == text.take(fitting(text, used, budget).0.len() as int),
    decreases text.len(),
{
    if text.len() > 0 && used + char_width(text[0]) <= budget {
        lemma_fitting_prefix(text.drop_first(), used + char_width(text[0]), budget);
        let r = fitting(text.drop_first(), used + char_width(text[0]), budget);
        assert(seq![text[0]] + r.0 =~= text.take(r.0.len() as int + 1));
    } else {
        assert(fitting(text, used, budget).0 =~= text.take(0));
    }
}

proof fn lemma_fitted_unbroken(s: Seq<SpanV>, used: nat, budget: nat)
    requires
        spans_unbroken(s),
    ensures
        spans_unbroken(fitted_spans(s, used, budget)),
    decreases s.len(),
{
    if s.len() > 0 && used < budget {
        let r = fitting(s[0].text, used, budget);
        let rest = s.drop_first();
        assert(spans_unbroken(rest)) by {
            assert forall|i: int| 0 <= i < rest.len() implies !(#[trigger] rest[i]).text.contains('\n') by {
                assert(rest[i] == s[i + 1]);
            }
        }
        lemma_fitted_unbroken(rest, r.1, budget);
        lemma_fitting_prefix(s[0].text, used, budget);
        assert(!s[0].text.contains('\n'));
        lemma_take_unbroken(s[0].text, r.0.len() as int);
        if r.0.len() > 0 {
            let head = seq![SpanV { text: r.0, style: s[0].style }];
            assert(spans_unbroken(head));
            lemma_concat_unbroken(head, fitted_spans(rest, r.1, budget));
        }
    }
}

proof fn lemma_spaces_unbroken(n: nat)
    ensures
        spans_unbroken(seq![bare(spaces(n))]),
{
    let t = spaces(n);
    if t.contains('\n') {
        let k = choose|k: int| 0 <= k < t.len() && t[k] == '\n';
        assert(t[k] == ' ');
    }
    assert(seq![bare(spaces(n))][0] == bare(spaces(n)));
}

proof fn lemma_visible_unbroken(cell: Seq<SpanV>, max: Option<usize>)
    requires
        spans_unbroken(cell),
    ensures
        spans_unbroken(visible_of(cell, max)),
{
    match max {
        Some(m) if spans_width(cell) > m => if m != 0 {
            let budget: nat = if m >= display_width(ELLIPSIS@) {
                (m - display_width(ELLIPSIS@)) as nat
            } else {
                0
            };
            lemma_fitted_unbroken(cell, 0, budget);
            reveal_strlit("…");
            let e = seq![SpanV { text: ELLIPSIS@, style: dim() }];
            assert(!ELLIPSIS@.contains('\n')) by {
                if ELLIPSIS@.contains('\n') {
                    let k = choose|k: int| 0 <= k < ELLIPSIS@.len() && ELLIPSIS@[k] == '\n';
                }
            }
            assert(spans_unbroken(e));
            lemma_concat_unbroken(fitted_spans(cell, 0, budget), e);
            assert(fitted_spans(cell, 0, budget).push(SpanV { text: ELLIPSIS@, style: dim() })
                =~= fitted_spans(cell, 0, budget) + e);
        } else {
        },
        _ => {},
    }
}

/// Every cell of a row holds no line break.
pub open spec fn cells_unbroken(cells: Seq<Seq<SpanV>>) -> bool {
    forall|c: int| 0 <= c < cells.len() ==> spans_unbroken(#[trigger] cells[c])
}

proof fn lemma_pieces_unbroken(t: TableV, widths: Seq<nat>, cells: Seq<Seq<SpanV>>, k: int)
    requires
        cells_unbroken(cells),
        k <= t.columns.len(),
        widths.len() == t.columns.len(),
    ensures
        spans_unbroken(column_pieces(t, widths, cells, k)),
    decreases k,
{
    if k > 0 {
        lemma_pieces_unbroken(t, widths, cells, k - 1);
        let i = k - 1;
        let cell = cell_at(cells, i);
        assert(spans_unbroken(cell)) by {
            if 0 <= i < cells.len() {
                assert(spans_unbroken(cells[i]));
            }
        }
        let max: Option<usize> = if i == flex_index(t.columns) {
            Some(widths[i] as usize)
        } else {
            None
        };
        let pad: nat = if widths[i] > rendered_width_of(cell, max) {
            (widths[i] - rendered_width_of(cell, max)) as nat
        } else {
            0
        };
        lemma_visible_unbroken(cell, max);
        lemma_spaces_unbroken(pad);
        lemma_spaces_unbroken(GAP as nat);
        lemma_concat_unbroken(visible_of(cell, max), seq![bare(spaces(pad))]);
        lemma_concat_unbroken(seq![bare(spaces(pad))], visible_of(cell, max));
        assert(spans_unbroken(Seq::<SpanV>::empty()));
        lemma_concat_unbroken(visible_of(cell, max), Seq::<SpanV>::empty());
        let piece = column_piece(t, widths, cells, i);
        let last = i + 1 >= t.columns.len();
        let body = match t.columns[i].align {
            Align::Left => visible_of(cell, max) + if last {
                Seq::empty()
            } else {
                seq![bare(spaces(pad))]
            },
            Align::Right => seq![bare(spaces(pad))] + visible_of(cell, max),
        };
        assert(spans_unbroken(body));
        lemma_concat_unbroken(body, seq![bare(spaces(GAP as nat))]);
        lemma_concat_unbroken(body, Seq::<SpanV>::empty());
        assert(spans_unbroken(piece));
        lemma_concat_unbroken(column_pieces(t, widths, cells, k - 1), piece);
    }
}

proof fn lemma_trim_end_in_prefix(s: Seq<char>, set: Seq<char>)
    ensures
        trim_end_in(s, set).len() <= s.len(),
        trim_end_in(s, set) == s.take(trim_end_in(s, set).len() as int),
    decreases s.len(),
{
    if s.len() > 0 && set.contains(s.last()) {
        lemma_trim_end_in_prefix(s.drop_last(), set);
        assert(s.drop_last().take(trim_end_in(s, set).len() as int) =~= s.take(trim_end_in(s, set).len() as int));
    } else {
        assert(s.take(s.len() as int) =~= s);
    }
}

proof fn lemma_trim_tail_unbroken(line: Seq<SpanV>)
    requires
        spans_unbroken(line),
    ensures
        spans_unbroken(trim_tail(line)),
    decreases line.len(),
{
    if line.len() > 0 {
        let front = line.drop_last();
        assert(spans_unbroken(front)) by {
            assert forall|i: int| 0 <= i < front.len() implies !(#[trigger] front[i]).text.contains('\n') by {
                assert(front[i] == line[i]);
            }
        }
        let t = trim_end_in(line.last().text, seq![' ']);
        if t.len() == 0 {
            lemma_trim_tail_unbroken(front);
        } else {
            lemma_trim_end_in_prefix(line.last().text, seq![' ']);
            assert(!line.last().text.contains('\n')) by {
                assert(line.last() == line[line.len() - 1]);
            }
            lemma_take_unbroken(line.last().text, t.len() as int);
            let tail = seq![SpanV { text: t, style: line.last().style }];
            assert(spans_unbroken(tail));
            lemma_concat_unbroken(front, tail);
            assert(front.push(SpanV { text: t, style: line.last().style }) =~= front + tail);
        }
    }
}

proof fn lemma_margin_unbroken(t: TableV)
    ensures
        spans_unbroken(margin(t)),
{
    if t.indent {
        reveal_strlit("  ");
        assert(!INDENT@.contains('\n')) by {
            if INDENT@.contains('\n') {
                let k = choose|k: int| 0 <= k < INDENT@.len() && INDENT@[k] == '\n';
            }
        }
        assert(margin(t)[0] == bare(INDENT@));
    }
}

proof fn lemma_line_unbroken(t: TableV, widths: Seq<nat>, cells: Seq<Seq<SpanV>>)
    requires
        cells_unbroken(cells),
        widths.len() == t.columns.len(),
    ensures
        spans_unbroken(line_of(t, widths, cells)),
{
    lemma_margin_unbroken(t);
    lemma_pieces_unbroken(t, widths, cells, t.columns.len() as int);
    lemma_concat_unbroken(margin(t), column_pieces(t, widths, cells, t.columns.len() as int));
    lemma_trim_tail_unbroken(margin(t) + column_pieces(t, widths, cells, t.columns.len() as int));
}

proof fn lemma_rule_text_unbroken(n: nat)
    ensures
        !rule_text(n).contains('\n'),
    decreases n,
{
    if n > 0 {
        lemma_rule_text_unbroken((n - 1) as nat);
        reveal_strlit("─");
        let a = rule_text((n - 1) as nat);
        let r = a + RULE@;
        assert(rule_text(n) == r);
        if r.contains('\n') {
            let k = choose|k: int| 0 <= k < r.len() && r[k] == '\n';
            if k < a.len() {
                assert(a[k] == '\n');
            } else {
                assert(RULE@[k - a.len()] == '\n');
            }
        }
    }
}

proof fn lemma_table_lines_unbroken(t: TableV)
    requires
        rows_unbroken(t.rows),
    ensures
        forall|i: int| 0 <= i < table_lines(t).len() ==> spans_unbroken(#[trigger] table_lines(t)[i]),
{
    let w = fitted_widths_of(t);
    assert(w.len() == t.columns.len()) by {
        let base = Seq::new(t.columns.len(), |i: int| natural_width(t, i));
        let k = flex_index(t.columns);
        lemma_flex_bounds(t.columns);
        assert(base.len() == t.columns.len());
        match t.width {
            Some(available) if k >= 0 => {
                assert(w.len() == base.len());
            },
            _ => {
                assert(w == base);
            },
        }
    }
    let hc = header_cells(t);
    assert(cells_unbroken(hc)) by {
        assert forall|c: int| 0 <= c < hc.len() implies spans_unbroken(#[trigger] hc[c]) by {
            lemma_one_line_unbroken(upper_text(t.columns[c].header));
            assert(hc[c] == seq![SpanV { text: one_line(upper_text(t.columns[c].header)), style: dim() }]);
            assert(hc[c][0].text == one_line(upper_text(t.columns[c].header)));
        }
    }
    lemma_line_unbroken(t, w, hc);
    let rl = rule_line(t, w);
    assert(spans_unbroken(rl)) by {
        lemma_margin_unbroken(t);
        let n = sat_add(sum_widths(w), gaps(w.len()));
        lemma_rule_text_unbroken(n);
        let r = seq![SpanV { text: rule_text(n), style: crate::render::theme::hue(crate::render::theme::Color::Xterm(238)) }];
        assert(spans_unbroken(r));
        lemma_concat_unbroken(margin(t), r);
        assert(rl =~= margin(t) + r);
    }
    let head: Seq<Seq<SpanV>> = if t.header {
        seq![line_of(t, w, hc)]
    } else {
        Seq::empty()
    };
    let rule: Seq<Seq<SpanV>> = if t.rule {
        seq![rl]
    } else {
        Seq::empty()
    };
    let body = t.rows.map_values(|r: Seq<Seq<SpanV>>| line_of(t, w, r));
    let ls = table_lines(t);
    assert(ls == head + rule + body);
    assert forall|i: int| 0 <= i < ls.len() implies spans_unbroken(#[trigger] ls[i]) by {
        if i < head.len() {
            assert(ls[i] == head[i]);
        } else if i < head.len() + rule.len() {
            assert(ls[i] == rule[i - head.len()]);
        } else {
            let r = i - head.len() - rule.len();
            assert(ls[i] == body[r]);
            assert(cells_unbroken(t.rows[r])) by {
                assert forall|c: int| 0 <= c < t.rows[r].len() implies spans_unbroken(#[trigger] t.rows[r][c]) by {}
            }
            lemma_line_unbroken(t, w, t.rows[r]);
        }
    }
}

proof fn lemma_flattened_unbroken(ls: Seq<Seq<SpanV>>)
    requires
        forall|i: int| 0 <= i < ls.len() ==> spans_unbroken(#[trigger] ls[i]),
    ensures
        styled_spans_unbroken(flattened(ls)),
    decreases ls.len(),
{
    if ls.len() > 0 {
        let front = ls.drop_last();
        assert forall|i: int| 0 <= i < front.len() implies spans_unbroken(#[trigger] front[i]) by {
            assert(front[i] == ls[i]);
        }
        lemma_flattened_unbroken(front);
        let a = flattened(front);
        let last = ls.last();
        assert(spans_unbroken(last)) by {
            assert(last == ls[ls.len() - 1]);
        }
        let b = last.push(newline());
        let f = flattened(ls);
        assert(f == a + b);
        assert forall|i: int| 0 <= i < f.len() && #[trigger] f[i].style != plain_style() implies !f[i].text.contains('\n') by {
            if i < a.len() {
                assert(f[i] == a[i]);
            } else if i < a.len() + last.len() {
                assert(f[i] == last[i - a.len()]);
            } else {
                assert(f[i] == newline());
            }
        }
    }
}

/// No highlight range of a table covers a line break: every cell, however
/// it was built, holds its text on one line, headers are flattened too, and
/// the line breaks between rows are unstyled. Together with the order of the
/// ranges, this is what a line editor needs to paint them.
pub proof fn law_table_highlights_stay_on_their_line(t: TableV)
    requires
        rows_unbroken(t.rows),
        spans_text(flattened(table_lines(t))).len() <= usize::MAX,
    ensures
        styled_spans_unbroken(flattened(table_lines(t))),
        ranges_in_order(
            highlight_fold(flattened(table_lines(t))).0,
            spans_text(flattened(table_lines(t))).len(),
        ),
        ranges_unbroken(highlight_fold(flattened(table_lines(t))).0, spans_text(flattened(table_lines(t)))),
{
    lemma_table_lines_unbroken(t);
    lemma_flattened_unbroken(table_lines(t));
    law_highlight_ranges_are_ordered(flattened(table_lines(t)));
}

/// Text that does not end in a space.
pub open spec fn ends_clean(text: Seq<char>) -> bool {
    text.len() == 0 || text.last() != ' '
}

proof fn lemma_trim_end_spaces(s: Seq<char>)
    ensures
        ends_clean(trim_end_in(s, seq![' '])),
    decreases s.len(),
{
    assert(seq![' '][0] == ' ');
    if s.len() > 0 && seq![' '].contains(s.last()) {
        lemma_trim_end_spaces(s.drop_last());
    } else if s.len() > 0 {
        assert(s.last() != ' ');
    }
}

proof fn lemma_trim_tail_clean(line: Seq<SpanV>)
    ensures
        ends_clean(spans_text(trim_tail(line))),
    decreases line.len(),
{
    if line.len() > 0 {
        let t = trim_end_in(line.last().text, seq![' ']);
        lemma_trim_end_spaces(line.last().text);
        if t.len() == 0 {
            lemma_trim_tail_clean(line.drop_last());
        } else {
            let out = line.drop_last().push(SpanV { text: t, style: line.last().style });
            assert(out.drop_last() =~= line.drop_last());
            assert(spans_text(out) == spans_text(line.drop_last()) + t);
        }
    }
}

/// No laid-out line ends in a space: the padding after a row's last cell,
/// and every gap it leaves, is taken off again. The rule ends in a rule
/// character whenever it is drawn at all.
pub proof fn law_no_line_ends_in_a_space(t: TableV, widths: Seq<nat>, cells: Seq<Seq<SpanV>>)
    ensures
        ends_clean(spans_text(line_of(t, widths, cells))),
        sat_add(sum_widths(widths), gaps(widths.len())) > 0 ==> ends_clean(spans_text(rule_line(t, widths))),
{
    lemma_trim_tail_clean(margin(t) + column_pieces(t, widths, cells, t.columns.len() as int));
    let n = sat_add(sum_widths(widths), gaps(widths.len()));
    if n > 0 {
        let line = rule_line(t, widths);
        assert(line.drop_last() =~= margin(t));
        reveal_strlit("─");
        let r = rule_text(n);
        assert(r == rule_text((n - 1) as nat) + RULE@);
        assert(r.last() == '─');
        assert(spans_text(line) == spans_text(margin(t)) + r);
    }
}

/// `n` spaces.
fn space_string(n: usize) -> (res: String)
    ensures
        res@ == spaces(n as nat),
{
    let mut out = String::new();
    let mut i: usize = 0;
    while i < n
        invariant
            i <= n,
            out@ == spaces(i as nat),
        decreases n - i,
    {
        out.push(' ');
        i += 1;
        assert(out@ =~= spaces(i as nat));
    }
    out
}

/// `n` rule characters.
fn rule_string(n: usize) -> (res: String)
    ensures
        res@ == rule_text(n as nat),
{
    let mut out = String::new();
    let mut i: usize = 0;
    while i < n
        invariant
            i <= n,
            out@ == rule_text(i as nat),
        decreases n - i,
    {
        push_str(&mut out, RULE);
        i += 1;
    }
    out
}

/// `a + b`, held at the largest `usize`.
fn add_sat(a: usize, b: usize) -> (res: usize)
    ensures
        res == sat_add(a as nat, b as nat),
{
    if a > usize::MAX - b {
        usize::MAX
    } else {
        a + b
    }
}

/// Copy `more` onto the end of `line`.
fn append_spans(line: &mut Vec<Span>, more: &Vec<Span>)
    ensures
        span_views(final(line)@) == span_views(old(line)@) + span_views(more@),
{
    let ghost start = span_views(line@);
    let ghost add = span_views(more@);
    let n = more.len();
    let mut k: usize = 0;
    while k < n
        invariant
            n == more@.len(),
            add == span_views(more@),
            k <= n,
            span_views(line@) == start + add.take(k as int),
        decreases n - k,
    {
        let ghost b = span_views(line@);
        line.push(more[k].copy());
        assert(span_views(line@) =~= b.push(add[k as int]));
        assert(add.take(k + 1) =~= add.take(k as int).push(add[k as int]));
        k += 1;
    }
    assert(add.take(n as int) =~= add);
}

/// A line with its trailing spaces taken off.
fn trim_line(input: Vec<Span>) -> (res: Vec<Span>)
    ensures
        span_views(res@) == trim_tail(span_views(input@)),
{
    let ghost given = span_views(input@);
    let mut line = input;
    let space = vec![' '];
    assert(space@ =~= seq![' ']);
    loop
        invariant
            given == span_views(input@),
            trim_tail(span_views(line@)) == trim_tail(given),
            space@ == seq![' '],
        decreases line@.len(),
    {
        if line.len() == 0 {
            assert(span_views(line@) =~= Seq::<SpanV>::empty());
            assert(trim_tail(span_views(line@)) == span_views(line@));
            assert(trim_tail(given) == span_views(line@));
            return line;
        }
        let ghost lv = span_views(line@);
        let last = line.pop().unwrap();
        assert(span_views(line@) =~= lv.drop_last());
        assert(lv.last() == last@);
        let c = chars_of(last.text.as_str());
        let t = crate::text::trim_end_matches(&c, &space);
        if t.len() == 0 {
            assert(trim_tail(lv) == trim_tail(lv.drop_last()));
            continue;
        }
        line.push(Span { text: string_of(&t), style: last.style });
        assert(span_views(line@) =~= lv.drop_last().push(SpanV { text: t@, style: last.style }));
        assert(trim_tail(lv) == span_views(line@));
        assert(trim_tail(given) == span_views(line@));
        return line;
    }
}

impl Table {
    /// The index of the first flex column.
    fn flex_position(&self) -> (res: Option<usize>)
        ensures
            match res {
                Some(k) => flex_index(self@.columns) == k,
                None => flex_index(self@.columns) == -1,
            },
    {
        let n = self.columns.len();
        let mut i: usize = 0;
        while i < n
            invariant
                n == self.columns@.len(),
                n == self@.columns.len(),
                i <= n,
                flex_index(self@.columns.take(i as int)) == -1,
            decreases n - i,
        {
            assert(self@.columns.take(i + 1).drop_last() =~= self@.columns.take(i as int));
            if self.columns[i].flex {
                proof {
                    assert(flex_index(self@.columns.take(i + 1)) == i);
                    lemma_flex_prefix(self@.columns, i + 1);
                }
                return Some(i);
            }
            i += 1;
        }
        assert(self@.columns.take(n as int) =~= self@.columns);
        None
    }

    /// Natural width of each column: the widest of its header and its cells.
    fn natural_widths(&self) -> (res: Vec<usize>)
        ensures
            nat_widths(res@) == Seq::new(self@.columns.len(), |i: int| natural_width(self@, i)),
    {
        let n = self.columns.len();
        let m = self.rows.len();
        let mut out: Vec<usize> = Vec::new();
        let mut i: usize = 0;
        while i < n
            invariant
                n == self.columns@.len(),
                n == self@.columns.len(),
                m == self.rows@.len(),
                m == self@.rows.len(),
                i <= n,
                out@.len() == i,
                forall|k: int| 0 <= k < i ==> (#[trigger] out@[k]) as nat == natural_width(self@, k),
            decreases n - i,
        {
            let mut widest: usize = 0;
            let mut j: usize = 0;
            while j < m
                invariant
                    m == self.rows@.len(),
                    m == self@.rows.len(),
                    j <= m,
                    widest as nat == widest_cell(self@.rows.take(j as int), i as int),
                decreases m - j,
            {
                let row = &self.rows[j];
                assert(self@.rows.take(j + 1).drop_last() =~= self@.rows.take(j as int));
                assert(self@.rows.take(j + 1).last() == cell_views(row@));
                if i < row.len() {
                    let w = row[i].width();
                    if w > widest {
                        widest = w;
                    }
                }
                j += 1;
            }
            assert(self@.rows.take(m as int) =~= self@.rows);
            let head = text_width(self.columns[i].header.as_str());
            out.push(if widest > head {
                widest
            } else {
                head
            });
            i += 1;
        }
        assert(nat_widths(out@) =~= Seq::new(self@.columns.len(), |i: int| natural_width(self@, i)));
        out
    }

    /// Column widths after fitting to the terminal.
    fn fitted_widths(&self) -> (res: Vec<usize>)
        ensures
            nat_widths(res@) == fitted_widths_of(self@),
    {
        let mut widths = self.natural_widths();
        let ghost w = nat_widths(widths@);
        proof {
            lemma_flex_bounds(self@.columns);
            assert(w.len() == widths@.len());
        }
        let (available, k) = match (self.width, self.flex_position()) {
            (Some(a), Some(k)) => (a, k),
            _ => {
                return widths;
            },
        };
        let n = widths.len();
        let mut total: usize = 0;
        let mut i: usize = 0;
        while i < n
            invariant
                n == widths@.len(),
                w == nat_widths(widths@),
                i <= n,
                total as nat == sum_widths(w.take(i as int)),
            decreases n - i,
        {
            assert(w.take(i + 1).drop_last() =~= w.take(i as int));
            total = add_sat(total, widths[i]);
            i += 1;
        }
        assert(w.take(n as int) =~= w);
        let cols = self.columns.len();
        let gap_total: usize = if cols == 0 {
            0
        } else if cols - 1 > usize::MAX / GAP {
            usize::MAX
        } else {
            GAP * (cols - 1)
        };
        assert(gap_total as nat == gaps(cols as nat)) by (nonlinear_arith)
            requires
                cols == 0 ==> gap_total == 0,
                cols > 0 && cols - 1 > usize::MAX / 2 ==> gap_total == usize::MAX,
                cols > 0 && cols - 1 <= usize::MAX / 2 ==> gap_total == 2 * (cols - 1),
        ;
        total = add_sat(total, gap_total);
        let margin_width: usize = if self.indent {
            text_width(INDENT)
        } else {
            0
        };
        total = add_sat(total, margin_width);
        if total <= available {
            return widths;
        }
        let over = total - available;
        let shrunk: usize = if widths[k] > over {
            widths[k] - over
        } else {
            0
        };
        let value: usize = if shrunk > MIN_FLEX_WIDTH {
            shrunk
        } else {
            MIN_FLEX_WIDTH
        };
        widths.set(k, value);
        assert(nat_widths(widths@) =~= fitted_widths_of(self@));
        widths
    }

    /// One laid-out line of `cells` in the geometry `widths`.
    fn line_spans(&self, cells: &Vec<Cell>, widths: &Vec<usize>, flex: Option<usize>) -> (res: Vec<Span>)
        requires
            widths@.len() == self@.columns.len(),
            match flex {
                Some(k) => flex_index(self@.columns) == k,
                None => flex_index(self@.columns) == -1,
            },
        ensures
            span_views(res@) == line_of(self@, nat_widths(widths@), cell_views(cells@)),
    {
        let ghost t = self@;
        let ghost wv = nat_widths(widths@);
        let ghost cv = cell_views(cells@);
        let mut line: Vec<Span> = Vec::new();
        if self.indent {
            line.push(unstyled(INDENT));
        }
        assert(span_views(line@) =~= margin(t) + column_pieces(t, wv, cv, 0));
        let n = self.columns.len();
        let empty = Cell::empty();
        let mut i: usize = 0;
        while i < n
            invariant
                n == self.columns@.len(),
                n == t.columns.len(),
                t == self@,
                wv == nat_widths(widths@),
                cv == cell_views(cells@),
                widths@.len() == n,
                match flex {
                    Some(k) => flex_index(t.columns) == k,
                    None => flex_index(t.columns) == -1,
                },
                empty@.len() == 0,
                i <= n,
                span_views(line@) == margin(t) + column_pieces(t, wv, cv, i as int),
            decreases n - i,
        {
            let piece = self.column_spans(cells, widths, flex, i, &empty);
            append_spans(&mut line, &piece);
            i += 1;
        }
        trim_line(line)
    }

    /// What column `i` contributes to a line of `cells`.
    fn column_spans(
        &self,
        cells: &Vec<Cell>,
        widths: &Vec<usize>,
        flex: Option<usize>,
        i: usize,
        empty: &Cell,
    ) -> (res: Vec<Span>)
        requires
            widths@.len() == self@.columns.len(),
            i < self@.columns.len(),
            empty@.len() == 0,
            match flex {
                Some(k) => flex_index(self@.columns) == k,
                None => flex_index(self@.columns) == -1,
            },
        ensures
            span_views(res@) == column_piece(self@, nat_widths(widths@), cell_views(cells@), i as int),
    {
        let ghost t = self@;
        let ghost wv = nat_widths(widths@);
        let ghost cv = cell_views(cells@);
        let n = self.columns.len();
        let cell = if i < cells.len() {
            &cells[i]
        } else {
            empty
        };
        assert(cell@ == cell_at(cv, i as int));
        let max: Option<usize> = match flex {
            Some(k) if k == i => Some(widths[i]),
            _ => None,
        };
        let rw = cell.rendered_width(max);
        let pad_n: usize = if widths[i] > rw {
            widths[i] - rw
        } else {
            0
        };
        let visible = cell.visible_spans(max);
        let last = i + 1 >= n;
        let mut out: Vec<Span> = Vec::new();
        match self.columns[i].align {
            Align::Left => {
                append_spans(&mut out, &visible);
                if !last {
                    let pad = space_string(pad_n);
                    let ghost b = span_views(out@);
                    out.push(Span { text: pad, style: Style::new() });
                    assert(span_views(out@) =~= b.push(bare(spaces(pad_n as nat))));
                }
            },
            Align::Right => {
                let pad = space_string(pad_n);
                out.push(Span { text: pad, style: Style::new() });
                assert(span_views(out@) =~= seq![bare(spaces(pad_n as nat))]);
                append_spans(&mut out, &visible);
            },
        }
        if !last {
            let gap = space_string(GAP);
            let ghost b = span_views(out@);
            out.push(Span { text: gap, style: Style::new() });
            assert(span_views(out@) =~= b.push(bare(spaces(GAP as nat))));
        }
        assert(span_views(out@) =~= column_piece(t, wv, cv, i as int));
        out
    }

    /// Every line of the table, as the styled spans it is laid out from: the
    /// single layout path both renderers consume.
    pub fn lines(&self) -> (res: Vec<Vec<Span>>)
        ensures
            res@.map_values(|l: Vec<Span>| span_views(l@)) == table_lines(self@),
    {
        let widths = self.fitted_widths();
        let flex = self.flex_position();
        let ghost t = self@;
        let ghost w = nat_widths(widths@);
        let mut out: Vec<Vec<Span>> = Vec::new();
        proof {
            lemma_fitted_len(self@);
            assert(nat_widths(widths@).len() == widths@.len());
        }
        let ghost head = if t.header {
            seq![line_of(t, w, header_cells(t))]
        } else {
            Seq::empty()
        };
        let ghost rule = if t.rule {
            seq![rule_line(t, w)]
        } else {
            Seq::empty()
        };
        if self.header {
            let mut cells: Vec<Cell> = Vec::new();
            let n = self.columns.len();
            let mut i: usize = 0;
            while i < n
                invariant
                    n == self.columns@.len(),
                    n == t.columns.len(),
                    t == self@,
                    i <= n,
                    cell_views(cells@) == header_cells(t).take(i as int),
                decreases n - i,
            {
                let up = uppercase(self.columns[i].header.as_str());
                let ghost before = cell_views(cells@);
                let c = Cell::styled(up.as_str(), Theme::header());
                let ghost cv = c@;
                cells.push(c);
                assert(cell_views(cells@) =~= before.push(cv));
                assert(header_cells(t).take(i + 1) =~= header_cells(t).take(i as int).push(
                    header_cells(t)[i as int],
                ));
                i += 1;
            }
            assert(header_cells(t).take(n as int) =~= header_cells(t));
            let l = self.line_spans(&cells, &widths, flex);
            out.push(l);
        }
        assert(out@.map_values(|l: Vec<Span>| span_views(l@)) =~= head);
        if self.rule {
            let n = widths.len();
            let mut total: usize = 0;
            let mut i: usize = 0;
            while i < n
                invariant
                    n == widths@.len(),
                    w == nat_widths(widths@),
                    i <= n,
                    total as nat == sum_widths(w.take(i as int)),
                decreases n - i,
            {
                assert(w.take(i + 1).drop_last() =~= w.take(i as int));
                total = add_sat(total, widths[i]);
                i += 1;
            }
            assert(w.take(n as int) =~= w);
            let gap_total: usize = if n == 0 {
                0
            } else if n - 1 > usize::MAX / GAP {
                usize::MAX
            } else {
                GAP * (n - 1)
            };
            assert(gap_total as nat == gaps(n as nat)) by (nonlinear_arith)
                requires
                    n == 0 ==> gap_total == 0,
                    n > 0 && n - 1 > usize::MAX / 2 ==> gap_total == usize::MAX,
                    n > 0 && n - 1 <= usize::MAX / 2 ==> gap_total == 2 * (n - 1),
            ;
            let span = add_sat(total, gap_total);
            let mut l: Vec<Span> = Vec::new();
            if self.indent {
                l.push(unstyled(INDENT));
            }
            l.push(Span { text: rule_string(span), style: Theme::rule() });
            let ghost before = out@.map_values(|l: Vec<Span>| span_views(l@));
            let ghost lv = span_views(l@);
            assert(lv =~= rule_line(t, w));
            out.push(l);
            assert(out@.map_values(|l: Vec<Span>| span_views(l@)) =~= before.push(lv));
        }
        assert(out@.map_values(|l: Vec<Span>| span_views(l@)) =~= head + rule);
        let ghost top = head + rule;
        let m = self.rows.len();
        let mut j: usize = 0;
        while j < m
            invariant
                m == self.rows@.len(),
                m == t.rows.len(),
                t == self@,
                w == nat_widths(widths@),
                widths@.len() == t.columns.len(),
                match flex {
                    Some(k) => flex_index(t.columns) == k,
                    None => flex_index(t.columns) == -1,
                },
                j <= m,
                out@.map_values(|l: Vec<Span>| span_views(l@)) == top + t.rows.take(j as int).map_values(
                    |r: Seq<Seq<SpanV>>| line_of(t, w, r),
                ),
            decreases m - j,
        {
            let l = self.line_spans(&self.rows[j], &widths, flex);
            let ghost before = out@.map_values(|l: Vec<Span>| span_views(l@));
            let ghost lv = span_views(l@);
            out.push(l);
            assert(out@.map_values(|l: Vec<Span>| span_views(l@)) =~= before.push(lv));
            assert(t.rows.take(j + 1).map_values(|r: Seq<Seq<SpanV>>| line_of(t, w, r))
                =~= t.rows.take(j as int).map_values(|r: Seq<Seq<SpanV>>| line_of(t, w, r)).push(
                line_of(t, w, t.rows[j as int]),
            ));
            j += 1;
        }
        assert(t.rows.take(m as int) =~= t.rows);
        out
    }

    /// Render the whole table, painted, each line ending in a newline.
    pub fn render(&self) -> (res: String)
        ensures
            res@ == painted_lines(table_lines(self@), self@.color),
    {
        let lines = self.lines();
        let ghost ls = lines@.map_values(|l: Vec<Span>| span_views(l@));
        let mut out = String::new();
        let n = lines.len();
        let mut i: usize = 0;
        while i < n
            invariant
                n == lines@.len(),
                ls == lines@.map_values(|l: Vec<Span>| span_views(l@)),
                i <= n,
                out@ == painted_lines(ls.take(i as int), self@.color),
            decreases n - i,
        {
            let line = &lines[i];
            let ghost lv = span_views(line@);
            let ghost start = out@;
            let m = line.len();
            let mut k: usize = 0;
            while k < m
                invariant
                    m == line@.len(),
                    lv == span_views(line@),
                    k <= m,
                    out@ == start + painted_spans(lv.take(k as int), self@.color),
                decreases m - k,
            {
                let p = crate::render::paint(line[k].text.as_str(), line[k].style, self.color);
                push_str(&mut out, p.as_str());
                assert(lv.take(k + 1).drop_last() =~= lv.take(k as int));
                k += 1;
            }
            assert(lv.take(m as int) =~= lv);
            out.push('\n');
            assert(ls.take(i + 1).drop_last() =~= ls.take(i as int));
            i += 1;
        }
        assert(ls.take(n as int) =~= ls);
        out
    }

    /// The same table as plain text, plus the ranges that carry a style.
    /// Offsets count characters, the unit zsh's `region_highlight` indexes
    /// its buffer in; ranges never overlap, and unstyled runs make none.
    pub fn render_highlighted(&self) -> (res: (String, Vec<Highlight>))
        ensures
            res.0@ == spans_text(flattened(table_lines(self@))),
            res.1@ == highlight_fold(flattened(table_lines(self@))).0,
            res.0@.len() <= usize::MAX ==> ranges_in_order(res.1@, res.0@.len()) && ranges_unbroken(
                res.1@,
                res.0@,
            ),
    {
        proof {
            use_type_invariant(self);
            if spans_text(flattened(table_lines(self@))).len() <= usize::MAX {
                law_table_highlights_stay_on_their_line(self@);
            }
        }
        let lines = self.lines();
        let ghost ls = lines@.map_values(|l: Vec<Span>| span_views(l@));
        let mut text = String::new();
        let mut ranges: Vec<Highlight> = Vec::new();
        let mut at: usize = 0;
        let n = lines.len();
        let mut i: usize = 0;
        while i < n
            invariant
                n == lines@.len(),
                ls == lines@.map_values(|l: Vec<Span>| span_views(l@)),
                i <= n,
                text@ == spans_text(flattened(ls.take(i as int))),
                ranges@ == highlight_fold(flattened(ls.take(i as int))).0,
                at as nat == highlight_fold(flattened(ls.take(i as int))).1,
            decreases n - i,
        {
            let line = &lines[i];
            let ghost lv = span_views(line@);
            let ghost base = flattened(ls.take(i as int));
            let m = line.len();
            let mut k: usize = 0;
            while k < m
                invariant
                    m == line@.len(),
                    lv == span_views(line@),
                    k <= m,
                    text@ == spans_text(base + lv.take(k as int)),
                    ranges@ == highlight_fold(base + lv.take(k as int)).0,
                    at as nat == highlight_fold(base + lv.take(k as int)).1,
                decreases m - k,
            {
                let span = &line[k];
                let ghost prefix = base + lv.take(k as int);
                let ghost next = base + lv.take(k + 1);
                assert(next.drop_last() =~= prefix);
                assert(next.last() == span@);
                let len = chars_of(span.text.as_str()).len();
                let start = at;
                at = add_sat(at, len);
                push_str(&mut text, span.text.as_str());
                if !(span.style.is_plain() || len == 0) {
                    let rn = ranges.len();
                    if rn > 0 && ranges[rn - 1].end == start && ranges[rn - 1].style == span.style {
                        let last = ranges[rn - 1];
                        ranges.set(rn - 1, Highlight { end: at, ..last });
                    } else {
                        ranges.push(Highlight { start, end: at, style: span.style });
                    }
                }
                assert(ranges@ =~= highlight_fold(next).0);
                k += 1;
            }
            assert(lv.take(m as int) =~= lv);
            let ghost prefix = base + lv;
            let ghost next = prefix.push(newline());
            text.push('\n');
            at = add_sat(at, 1);
            proof {
                assert(next.drop_last() =~= prefix);
                assert(ls.take(i + 1).drop_last() =~= ls.take(i as int));
                assert(flattened(ls.take(i + 1)) =~= next);
            }
            i += 1;
        }
        assert(ls.take(n as int) =~= ls);
        (text, ranges)
    }
}

proof fn lemma_flex_bounds(cols: Seq<ColumnV>)
    ensures
        -1 <= flex_index(cols) < cols.len(),
    decreases cols.len(),
{
    if cols.len() > 0 {
        lemma_flex_bounds(cols.drop_last());
    }
}

proof fn lemma_fitted_len(t: TableV)
    ensures
        fitted_widths_of(t).len() == t.columns.len(),
{
    lemma_flex_bounds(t.columns);
}

/// The widths added up, without a ceiling.
pub open spec fn plain_sum(w: Seq<nat>) -> nat
    decreases w.len(),
{
    if w.len() == 0 {
        0
    } else {
        plain_sum(w.drop_last()) + w.last()
    }
}

proof fn lemma_sum_unsaturated(w: Seq<nat>)
    requires
        plain_sum(w) <= usize::MAX,
    ensures
        sum_widths(w) == plain_sum(w),
    decreases w.len(),
{
    if w.len() > 0 {
        lemma_sum_unsaturated(w.drop_last());
    }
}

proof fn lemma_sum_update(w: Seq<nat>, k: int, x: nat)
    requires
        0 <= k < w.len(),
    ensures
        plain_sum(w.update(k, x)) + w[k] == plain_sum(w) + x,
    decreases w.len(),
{
    let u = w.update(k, x);
    if k == w.len() - 1 {
        assert(u.drop_last() =~= w.drop_last());
    } else {
        lemma_sum_update(w.drop_last(), k, x);
        assert(u.drop_last() =~= w.drop_last().update(k, x));
    }
}

/// How wide a table is laid out with these column widths: the columns, the
/// gaps between them and the margin.
pub open spec fn laid_out_width(t: TableV, widths: Seq<nat>) -> nat {
    sat_add(
        sat_add(sum_widths(widths), gaps(t.columns.len())),
        if t.indent {
            display_width(INDENT@)
        } else {
            0
        },
    )
}

/// A table wider than the terminal gives up exactly the overflow from its
/// flex column, never below [`MIN_FLEX_WIDTH`], and no other column changes:
/// whenever the flex column can absorb the overflow the table fills the
/// terminal exactly, and otherwise the flex column is left at the minimum.
/// A table that fits keeps its natural widths.
pub proof fn law_flex_column_absorbs_the_overflow(t: TableV)
    requires
        flex_index(t.columns) >= 0,
        t.width is Some,
        plain_sum(Seq::new(t.columns.len(), |i: int| natural_width(t, i))) + gaps(t.columns.len())
            + display_width(INDENT@) <= usize::MAX,
    ensures
        ({
            let w = Seq::new(t.columns.len(), |i: int| natural_width(t, i));
            let f = fitted_widths_of(t);
            let k = flex_index(t.columns);
            let available = t.width.unwrap() as nat;
            let total = laid_out_width(t, w);
            &&& f.len() == w.len()
            &&& forall|i: int| 0 <= i < w.len() && i != k ==> f[i] == w[i]
            &&& total <= available ==> f == w
            &&& total > available ==> f[k] >= MIN_FLEX_WIDTH
            &&& total > available && w[k] >= (total - available) + MIN_FLEX_WIDTH ==> laid_out_width(t, f)
                == available
            &&& total > available && w[k] < (total - available) + MIN_FLEX_WIDTH ==> f[k] == MIN_FLEX_WIDTH
        }),
{
    let w = Seq::new(t.columns.len(), |i: int| natural_width(t, i));
    let f = fitted_widths_of(t);
    let k = flex_index(t.columns);
    lemma_flex_bounds(t.columns);
    let available = t.width.unwrap() as nat;
    let iw: nat = if t.indent {
        display_width(INDENT@)
    } else {
        0
    };
    lemma_sum_unsaturated(w);
    let total = laid_out_width(t, w);
    assert(total == plain_sum(w) + gaps(t.columns.len()) + iw);
    if total > available {
        let over = (total - available) as nat;
        let shrunk: nat = if w[k] > over {
            (w[k] - over) as nat
        } else {
            0
        };
        let x: nat = if shrunk > MIN_FLEX_WIDTH {
            shrunk
        } else {
            MIN_FLEX_WIDTH as nat
        };
        assert(f == w.update(k, x));
        lemma_sum_update(w, k, x);
        if w[k] >= over + MIN_FLEX_WIDTH {
            assert(x == w[k] - over);
            lemma_sum_unsaturated(f);
            assert(laid_out_width(t, f) == plain_sum(f) + gaps(t.columns.len()) + iw);
        }
    }
}

/// A flex column found in a prefix is the first in the whole.
proof fn lemma_flex_prefix(cols: Seq<ColumnV>, n: int)
    requires
        0 <= n <= cols.len(),
        flex_index(cols.take(n)) >= 0,
    ensures
        flex_index(cols) == flex_index(cols.take(n)),
    decreases cols.len() - n,
{
    if n < cols.len() {
        assert(cols.take(n + 1).drop_last() =~= cols.take(n));
        lemma_flex_prefix(cols, n + 1);
    } else {
        assert(cols.take(n) =~= cols);
    }
}

} // verus!
