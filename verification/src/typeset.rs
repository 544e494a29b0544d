//! The typesetter of the document preview: word-wraps styled runs into lines within a width, with
//! block indents, item markers and quote bars.
//!
//! Each format is a parser that drives a [`LineBuilder`].

use crate::popup::least;
use crate::surface::{cells_of, width_of, Glyphs, Style, Theme};
use crate::text::{chars_of, is_white, repeat, repeated, string_of, strings, white};
use vstd::prelude::*;

verus! {

/// One display line: styled runs of text, left to right.
pub type Line = Vec<(String, Style)>;

/// A run of text in one style.
pub struct Run {
    /// The text.
    pub text: Seq<char>,
    /// Its style.
    pub style: Style,
}

/// The contents of a line.
pub open spec fn runs(line: Seq<(String, Style)>) -> Seq<Run> {
    line.map_values(|r: (String, Style)| Run { text: r.0@, style: r.1 })
}

/// The contents of a list of lines.
pub open spec fn pages(v: Seq<Vec<(String, Style)>>) -> Seq<Seq<Run>> {
    v.map_values(|l: Vec<(String, Style)>| runs(l@))
}

/// The styles of a rendered document.
#[derive(Clone, Copy, Debug, PartialEq, Eq, Structural)]
pub struct Palette {
    /// Plain text.
    pub body: Style,
    /// Code.
    pub code: Style,
    /// Links.
    pub link: Style,
    /// Headings.
    pub heading: Style,
    /// Rules.
    pub rule: Style,
    /// The bars of quotations.
    pub quote: Style,
    /// The box of a completed task.
    pub task_done: Style,
}

impl Palette {
    /// The styles in the colours of a theme.
    #[verifier::allow_in_spec]
    pub fn new(theme: &Theme) -> Self
        returns
            (Palette {
                body: theme.base_style(),
                code: theme.accented(),
                link: Style::new(theme.info, theme.background).underline(),
                heading: theme.base_style().bold(),
                rule: theme.accented(),
                quote: theme.accented(),
                task_done: Style::new(theme.success, theme.background),
            }),
    {
        Palette {
            body: theme.base_style(),
            code: theme.accented(),
            link: Style::new(theme.info, theme.background).underline(),
            heading: theme.base_style().bold(),
            rule: theme.accented(),
            quote: theme.accented(),
            task_done: Style::new(theme.success, theme.background),
        }
    }
}

/// A number of columns, kept within the range of `usize`.
pub open spec fn capped(n: int) -> nat {
    least(n, usize::MAX as int) as nat
}

/// How many cells the runs of a line take together.
pub open spec fn runs_width(glyphs: Glyphs, line: Seq<Run>) -> nat
    decreases line.len(),
{
    if line.len() == 0 {
        0
    } else {
        runs_width(glyphs, line.drop_last()) + width_of(glyphs, line.last().text)
    }
}

/// The display width of `text` in terminal cells.
pub fn text_width(glyphs: &Glyphs, text: &str) -> (r: usize)
    ensures
        r == capped(width_of(*glyphs, text@) as int),
{
    let t = chars_of(text);
    cells_width(glyphs, t.as_slice())
}

/// The display width of some characters in terminal cells.
pub fn cells_width(glyphs: &Glyphs, t: &[char]) -> (r: usize)
    ensures
        r == capped(width_of(*glyphs, t@) as int),
{
    let mut r: usize = 0;
    let mut i: usize = 0;
    assert(t@.take(0).len() == 0);
    while i < t.len()
        invariant
            i <= t@.len(),
            r == capped(width_of(*glyphs, t@.take(i as int)) as int),
        decreases t@.len() - i,
    {
        proof {
            assert(t@.take(i + 1).drop_last() =~= t@.take(i as int));
            assert(t@.take(i + 1).last() == t@[i as int]);
        }
        r = r.saturating_add(glyphs.char_width(t[i]) as usize);
        i += 1;
    }
    assert(t@.take(i as int) =~= t@);
    r
}

/// The state of a [`LineBuilder`].
#[verifier::ext_equal]
pub struct Layout {
    /// The width to wrap at.
    pub width: nat,
    /// The styles.
    pub palette: Palette,
    /// The widths of glyphs.
    pub glyphs: Glyphs,
    /// The finished lines.
    pub lines: Seq<Seq<Run>>,
    /// The line under construction.
    pub line: Seq<Run>,
    /// Whether there is one.
    pub started: bool,
    /// The column behind its last run.
    pub col: nat,
    /// The width of its bars, indent and marker.
    pub prefix: nat,
    /// The indent of the current block.
    pub indent: nat,
    /// How many quotations the current block is in.
    pub quotes: nat,
    /// What stands in place of the indent on the next line, if anything.
    pub marker: Option<Seq<Run>>,
    /// Whether a space is owed before the next word.
    pub space: bool,
}

/// The bars of quotations.
pub open spec fn bars(n: nat, style: Style) -> Seq<Run> {
    Seq::new(n, |i: int| Run { text: "│ "@, style })
}

impl Layout {
    /// With a line begun, if there is none: the bars, then the marker or the indent.
    pub open spec fn begun(self) -> Layout {
        if self.started {
            self
        } else {
            let prefix = match self.marker {
                Some(marker) => marker,
                None => if self.indent > 0 {
                    seq![Run { text: repeat(' ', self.indent), style: self.palette.body }]
                } else {
                    Seq::empty()
                },
            };
            let width = match self.marker {
                Some(marker) => runs_width(self.glyphs, marker),
                None => self.indent,
            };
            let col = capped((2 * self.quotes + width) as int);
            Layout {
                line: bars(self.quotes, self.palette.quote) + prefix,
                col,
                prefix: col,
                marker: None,
                started: true,
                space: false,
                ..self
            }
        }
    }

    /// With a run put onto the line.
    pub open spec fn raw(self, text: Seq<char>, style: Style) -> Layout {
        let b = self.begun();
        Layout {
            line: b.line.push(Run { text, style }),
            col: capped((b.col + width_of(b.glyphs, text)) as int),
            ..b
        }
    }

    /// With a run put onto the line, and no space owed.
    pub open spec fn appended(self, text: Seq<char>, style: Style) -> Layout {
        Layout { space: false, ..self }.raw(text, style)
    }

    /// Whether a word does not fit behind what the line holds.
    pub open spec fn overflows(self, word: Seq<char>) -> bool {
        self.col > self.prefix && capped(
            self.col + width_of(self.glyphs, word) + if self.space {
                1int
            } else {
                0
            },
        ) > self.width
    }

    /// With a word placed: on a new line if it does not fit, else behind the space that is owed.
    pub open spec fn word(self, word: Seq<char>, style: Style) -> Layout {
        let b = self.begun();
        let at = if b.overflows(word) {
            b.ended().begun()
        } else if b.space && b.col > b.prefix {
            b.raw(" "@, b.palette.body)
        } else {
            b
        };
        Layout { space: false, ..at }.raw(word, style)
    }

    /// With a word placed, unless it is empty.
    pub open spec fn flushed(self, word: Seq<char>, style: Style) -> Layout {
        if word.len() > 0 {
            self.word(word, style)
        } else {
            self
        }
    }

    /// With the words of a text placed, where `word` is what was read of the first one. White space
    /// owes one space.
    pub open spec fn spanned(self, word: Seq<char>, text: Seq<char>, style: Style) -> Layout
        decreases text.len(),
    {
        if text.len() == 0 {
            self.flushed(word, style)
        } else if is_white(text[0]) {
            Layout { space: true, ..self.flushed(word, style) }.spanned(
                Seq::empty(),
                text.drop_first(),
                style,
            )
        } else {
            self.spanned(word.push(text[0]), text.drop_first(), style)
        }
    }

    /// With a text put onto the lines, wrapped between words.
    pub open spec fn span(self, text: Seq<char>, style: Style) -> Layout {
        self.spanned(Seq::empty(), text, style)
    }

    /// With the line ended, if there is one.
    pub open spec fn ended(self) -> Layout {
        if self.started {
            Layout {
                lines: self.lines.push(self.line),
                line: Seq::empty(),
                col: 0,
                prefix: 0,
                started: false,
                ..self
            }
        } else {
            self
        }
    }

    /// With the line ended and a blank line added, unless there is one already or no line at all.
    pub open spec fn blanked(self) -> Layout {
        let e = self.ended();
        if e.lines.len() > 0 && e.lines.last().len() > 0 {
            Layout { lines: e.lines.push(Seq::empty()), ..e }
        } else {
            e
        }
    }

    /// With the line ended and a rule of the full width added.
    pub open spec fn ruled(self) -> Layout {
        let e = self.ended();
        Layout {
            lines: e.lines.push(
                seq![Run { text: repeat('─', e.width), style: e.palette.rule }],
            ),
            ..e
        }
    }

    /// With another indent.
    pub open spec fn indented(self, indent: nat) -> Layout {
        Layout { indent, ..self }
    }

    /// With another depth of quotation.
    pub open spec fn quoted(self, quotes: nat) -> Layout {
        Layout { quotes, ..self }
    }

    /// With a marker for the next line.
    pub open spec fn marked(self, marker: Seq<Run>) -> Layout {
        Layout { marker: Some(marker), ..self }
    }

    /// All lines, without blank ones at the end.
    pub open spec fn finished(self) -> Seq<Seq<Run>> {
        without_blanks(self.ended().lines)
    }

    /// A line under construction holds something, no blank line stands first, and no two follow one
    /// another.
    pub open spec fn tidy(self) -> bool {
        &&& self.started ==> self.line.len() > 0
        &&& self.lines.len() > 0 ==> self.lines[0].len() > 0
        &&& forall|i: int| 0 < i < self.lines.len() ==> #[trigger] separate(self.lines, i)
    }
}

/// Whether line `i` and the one before it are not both blank.
pub open spec fn separate(lines: Seq<Seq<Run>>, i: int) -> bool {
    lines[i - 1].len() > 0 || lines[i].len() > 0
}

/// The lines without the blank ones at the end.
pub open spec fn without_blanks(lines: Seq<Seq<Run>>) -> Seq<Seq<Run>>
    decreases lines.len(),
{
    if lines.len() > 0 && lines.last().len() == 0 {
        without_blanks(lines.drop_last())
    } else {
        lines
    }
}

/// A builder with nothing in it.
pub open spec fn empty_layout(width: nat, palette: Palette, glyphs: Glyphs) -> Layout {
    Layout {
        width: if width == 0 {
            1
        } else {
            width
        },
        palette,
        glyphs,
        lines: Seq::empty(),
        line: Seq::empty(),
        started: false,
        col: 0,
        prefix: 0,
        indent: 0,
        quotes: 0,
        marker: None,
        space: false,
    }
}

/// Builds the lines of a document.
pub struct LineBuilder<'a> {
    width: usize,
    palette: Palette,
    glyphs: &'a Glyphs,
    lines: Vec<Line>,
    line: Line,
    started: bool,
    col: usize,
    prefix: usize,
    indent: usize,
    quotes: usize,
    marker: Option<Line>,
    space: bool,
}

impl<'a> View for LineBuilder<'a> {
    type V = Layout;

    closed spec fn view(&self) -> Layout {
        Layout {
            width: self.width as nat,
            palette: self.palette,
            glyphs: *self.glyphs,
            lines: pages(self.lines@),
            line: runs(self.line@),
            started: self.started,
            col: self.col as nat,
            prefix: self.prefix as nat,
            indent: self.indent as nat,
            quotes: self.quotes as nat,
            marker: match self.marker {
                Some(m) => Some(runs(m@)),
                None => None,
            },
            space: self.space,
        }
    }
}

/// Adds a run to a line.
pub fn add_run(line: &mut Line, text: String, style: Style)
    ensures
        runs(final(line)@) == runs(old(line)@).push(Run { text: text@, style }),
{
    let ghost new = Run { text: text@, style };
    line.push((text, style));
    assert(runs(line@) =~= runs(old(line)@).push(new));
}

/// The number of the next item.
pub open spec fn next_number(n: u64) -> u64 {
    if n < u64::MAX {
        (n + 1) as u64
    } else {
        n
    }
}

/// A marker behind `base` blanks.
pub open spec fn marker_runs(base: nat, marker: Seq<char>, body: Style, style: Style) -> Seq<Run> {
    let blanks = if base > 0 {
        seq![Run { text: repeat(' ', base), style: body }]
    } else {
        Seq::empty()
    };
    if marker.len() > 0 {
        blanks.push(Run { text: marker, style })
    } else {
        blanks
    }
}

/// A marker behind `base` blanks.
pub(crate) fn marker_line(base: usize, marker: &str, body: Style, style: Style) -> (r: Line)
    ensures
        runs(r@) == marker_runs(base as nat, marker@, body, style),
{
    let mut r: Line = Vec::new();
    assert(runs(r@) =~= Seq::<Run>::empty());
    if base > 0 {
        let blanks = repeated(' ', base);
        add_run(&mut r, blanks, body);
        assert(runs(r@) =~= seq![Run { text: repeat(' ', base as nat), style: body }]);
    }
    let t = chars_of(marker);
    if t.len() > 0 {
        add_run(&mut r, marker.to_owned(), style);
    }
    r
}

/// Adds a line to a list.
fn add_line(lines: &mut Vec<Line>, line: Line)
    ensures
        pages(final(lines)@) == pages(old(lines)@).push(runs(line@)),
{
    lines.push(line);
    assert(pages(lines@) =~= pages(old(lines)@).push(runs(line@)));
}

impl<'a> LineBuilder<'a> {
    /// A builder with nothing in it, for lines of `width` columns.
    pub fn new(width: usize, palette: &Palette, glyphs: &'a Glyphs) -> (r: Self)
        ensures
            r@ == empty_layout(width as nat, *palette, *glyphs),
    {
        let r = LineBuilder {
            width: if width == 0 {
                1
            } else {
                width
            },
            palette: *palette,
            glyphs,
            lines: Vec::new(),
            line: Vec::new(),
            started: false,
            col: 0,
            prefix: 0,
            indent: 0,
            quotes: 0,
            marker: None,
            space: false,
        };
        assert(r@ =~= empty_layout(width as nat, *palette, *glyphs));
        r
    }

    /// The styles.
    pub fn palette(&self) -> (r: Palette)
        ensures
            r == self@.palette,
    {
        self.palette
    }

    /// The widths of glyphs.
    pub fn glyphs(&self) -> (r: &Glyphs)
        ensures
            *r == self@.glyphs,
    {
        self.glyphs
    }

    /// Sets the indent of the current block.
    pub fn set_indent(&mut self, columns: usize)
        ensures
            final(self)@ == old(self)@.indented(columns as nat),
    {
        self.indent = columns;
    }

    /// The indent of the current block.
    pub fn indent(&self) -> (r: usize)
        ensures
            r == self@.indent,
    {
        self.indent
    }

    /// Sets how many quotations the current block is in.
    pub fn set_quote_depth(&mut self, depth: usize)
        ensures
            final(self)@ == old(self)@.quoted(depth as nat),
    {
        self.quotes = depth;
    }

    /// Sets what stands in place of the indent on the next line.
    pub fn set_marker(&mut self, marker: Line)
        ensures
            final(self)@ == old(self)@.marked(runs(marker@)),
    {
        self.marker = Some(marker);
    }

    /// Puts `text` onto the lines, wrapped between words. Spacing is kept across calls: no space
    /// comes between two texts unless one of them has white space there.
    pub fn push_span(&mut self, text: &str, style: Style)
        ensures
            final(self)@ == old(self)@.span(text@, style),
    {
        let t = chars_of(text);
        let mut word: Vec<char> = Vec::new();
        let mut i: usize = 0;
        assert(t@.skip(0) =~= t@);
        assert(word@ =~= Seq::<char>::empty());
        while i < t.len()
            invariant
                i <= t@.len(),
                old(self)@.span(text@, style) == self@.spanned(word@, t@.skip(i as int), style),
            decreases t@.len() - i,
        {
            assert(t@.skip(i as int).drop_first() =~= t@.skip(i + 1));
            if white(t[i]) {
                self.flush_word(word.as_slice(), style);
                word = Vec::new();
                assert(word@ =~= Seq::<char>::empty());
                self.space = true;
            } else {
                word.push(t[i]);
            }
            i += 1;
        }
        self.flush_word(word.as_slice(), style);
    }

    fn flush_word(&mut self, word: &[char], style: Style)
        ensures
            final(self)@ == old(self)@.flushed(word@, style),
    {
        if word.len() > 0 {
            self.emit_word(word, style);
        }
    }

    /// Places one word.
    fn emit_word(&mut self, word: &[char], style: Style)
        ensures
            final(self)@ == old(self)@.word(word@, style),
    {
        self.ensure_line();
        let width = cells_width(self.glyphs, word);
        let mid_line = self.col > self.prefix;
        let space = self.space && mid_line;
        let advance: usize = if space {
            width.saturating_add(1)
        } else {
            width
        };
        if mid_line && self.col.saturating_add(advance) > self.width {
            self.end_line();
            self.ensure_line();
        } else if space {
            self.append_raw(" ", self.palette.body);
        }
        self.space = false;
        let text = string_of(word);
        self.append_raw(text.as_str(), style);
    }

    /// Owes a space before the next word.
    pub fn soft_break(&mut self)
        ensures
            final(self)@ == (Layout { space: true, ..old(self)@ }),
    {
        self.space = true;
    }

    /// Puts one run onto the line as it is.
    pub fn append(&mut self, text: &str, style: Style)
        ensures
            final(self)@ == old(self)@.appended(text@, style),
    {
        self.space = false;
        self.append_raw(text, style);
    }

    fn append_raw(&mut self, text: &str, style: Style)
        ensures
            final(self)@ == old(self)@.raw(text@, style),
    {
        self.ensure_line();
        self.col = self.col.saturating_add(text_width(self.glyphs, text));
        add_run(&mut self.line, text.to_owned(), style);
    }

    /// Begins a line, if there is none.
    fn ensure_line(&mut self)
        ensures
            final(self)@ == old(self)@.begun(),
    {
        if self.started {
            return ;
        }
        let mut line: Line = Vec::new();
        let mut col: usize = 0;
        let mut i: usize = 0;
        let ghost quotes = self.quotes as nat;
        let ghost palette = self.palette;
        assert(runs(line@) =~= bars(0, palette.quote));
        while i < self.quotes
            invariant
                i <= self.quotes,
                *self == *old(self),
                palette == self.palette,
                col == capped(2 * i),
                runs(line@) == bars(i as nat, palette.quote),
            decreases self.quotes - i,
        {
            add_run(&mut line, "│ ".to_owned(), self.palette.quote);
            assert(runs(line@) =~= bars((i + 1) as nat, palette.quote));
            col = col.saturating_add(2);
            i += 1;
        }
        match self.marker.take() {
            Some(marker) => {
                let ghost m = runs(marker@);
                let mut k: usize = 0;
                assert(m.take(0) =~= Seq::empty());
                assert(runs(line@) =~= bars(quotes, palette.quote) + m.take(0));
                while k < marker.len()
                    invariant
                        k <= marker@.len(),
                        m == runs(marker@),
                        *self == (LineBuilder { marker: None, ..*old(self) }),
                        quotes == self.quotes,
                        palette == self.palette,
                        col == capped((2 * quotes + runs_width(*self.glyphs, m.take(k as int))) as int),
                        runs(line@) == bars(quotes, palette.quote) + m.take(k as int),
                    decreases marker@.len() - k,
                {
                    proof {
                        assert(m.take(k + 1).drop_last() =~= m.take(k as int));
                        assert(m.take(k + 1).last() == m[k as int]);
                    }
                    col = col.saturating_add(text_width(self.glyphs, marker[k].0.as_str()));
                    let ghost before = runs(line@);
                    add_run(&mut line, marker[k].0.clone(), marker[k].1);
                    assert(runs(line@) =~= bars(quotes, palette.quote) + m.take(k + 1));
                    k += 1;
                }
                assert(m.take(k as int) =~= m);
            },
            None => {
                if self.indent > 0 {
                    let indent = repeated(' ', self.indent);
                    add_run(&mut line, indent, self.palette.body);
                    col = col.saturating_add(self.indent);
                }
            },
        }
        self.line = line;
        self.col = col;
        self.prefix = col;
        self.started = true;
        self.space = false;
        assert(self@ =~= old(self)@.begun());
    }

    /// Ends the line, if there is one.
    pub fn end_line(&mut self)
        ensures
            final(self)@ == old(self)@.ended(),
    {
        if self.started {
            let mut line: Line = Vec::new();
            assert(runs(line@) =~= Seq::<Run>::empty());
            std::mem::swap(&mut self.line, &mut line);
            add_line(&mut self.lines, line);
            self.col = 0;
            self.prefix = 0;
            self.started = false;
        }
    }

    /// Adds a blank line, unless there is one already or no line at all.
    pub fn blank(&mut self)
        ensures
            final(self)@ == old(self)@.blanked(),
    {
        self.end_line();
        let n = self.lines.len();
        if n > 0 {
            assert(self@.lines.last() == runs(self.lines@[n - 1]@));
            if self.lines[n - 1].len() > 0 {
                let line: Line = Vec::new();
                assert(runs(line@) =~= Seq::<Run>::empty());
                add_line(&mut self.lines, line);
            }
        }
    }

    /// Adds a rule of the full width.
    pub fn rule(&mut self)
        ensures
            final(self)@ == old(self)@.ruled(),
    {
        self.end_line();
        let mut line: Line = Vec::new();
        add_run(&mut line, repeated('─', self.width), self.palette.rule);
        assert(runs(line@) =~= seq![
            Run { text: repeat('─', self.width as nat), style: self.palette.rule },
        ]);
        add_line(&mut self.lines, line);
    }

    /// The finished lines, without blank ones at the end.
    pub fn finish(self) -> (r: Vec<Line>)
        ensures
            pages(r@) == self@.finished(),
    {
        let mut this = self;
        this.end_line();
        let mut lines = this.lines;
        while lines.len() > 0 && lines[lines.len() - 1].len() == 0
            invariant
                self@.finished() == without_blanks(pages(lines@)),
            decreases lines@.len(),
        {
            let ghost before = pages(lines@);
            assert(before.last() == runs(lines@.last()@));
            lines.pop();
            assert(pages(lines@) =~= before.drop_last());
        }
        proof {
            if lines@.len() > 0 {
                assert(pages(lines@).last() == runs(lines@.last()@));
            }
        }
        lines
    }
}

/// The contents of the cells of a table.
pub open spec fn cells(rows: Seq<Vec<String>>) -> Seq<Seq<Seq<char>>> {
    rows.map_values(|r: Vec<String>| strings(r@))
}

/// How many columns the first `n` rows of a table have.
pub open spec fn table_columns(rows: Seq<Seq<Seq<char>>>, n: nat) -> nat
    decreases n,
{
    if n == 0 {
        0
    } else {
        let before = table_columns(rows, (n - 1) as nat);
        if rows[n - 1].len() > before {
            rows[n - 1].len()
        } else {
            before
        }
    }
}

/// The width of the widest cell that the first `n` rows have in a column.
pub open spec fn column_width(
    glyphs: Glyphs,
    rows: Seq<Seq<Seq<char>>>,
    column: int,
    n: nat,
) -> nat
    decreases n,
{
    if n == 0 {
        0
    } else {
        let before = column_width(glyphs, rows, column, (n - 1) as nat);
        if column < rows[n - 1].len() {
            let width = capped(width_of(glyphs, rows[n - 1][column]) as int);
            if width > before {
                width
            } else {
                before
            }
        } else {
            before
        }
    }
}

/// The widths of all columns of a table.
pub open spec fn table_widths(glyphs: Glyphs, rows: Seq<Seq<Seq<char>>>) -> Seq<nat> {
    Seq::new(
        table_columns(rows, rows.len()),
        |c: int| column_width(glyphs, rows, c, rows.len()),
    )
}

/// A cell of a row, padded to the width of its column unless that is the last one.
pub open spec fn padded_cell(
    glyphs: Glyphs,
    row: Seq<Seq<char>>,
    column: int,
    widths: Seq<nat>,
) -> Seq<char> {
    let cell = if column < row.len() {
        row[column]
    } else {
        Seq::empty()
    };
    let width = capped(width_of(glyphs, cell) as int);
    if column + 1 == widths.len() || widths[column] <= width {
        cell
    } else {
        cell + repeat(' ', (widths[column] - width) as nat)
    }
}

impl Layout {
    /// With the cells of a row from `column` on put onto the line.
    pub open spec fn table_row(
        self,
        row: Seq<Seq<char>>,
        column: nat,
        widths: Seq<nat>,
        style: Style,
    ) -> Layout
        decreases widths.len() - column,
    {
        if column >= widths.len() {
            self
        } else {
            let separated = if column > 0 {
                self.appended(" │ "@, self.palette.rule)
            } else {
                self
            };
            separated.appended(
                padded_cell(self.glyphs, row, column as int, widths),
                style,
            ).table_row(row, column + 1, widths, style)
        }
    }

    /// With the rule below the head of a table put onto the line, from `column` on.
    pub open spec fn table_rule(self, column: nat, widths: Seq<nat>) -> Layout
        decreases widths.len() - column,
    {
        if column >= widths.len() {
            self
        } else {
            let separated = if column > 0 {
                self.appended("─┼─"@, self.palette.rule)
            } else {
                self
            };
            separated.appended(
                repeat('─', widths[column as int]),
                self.palette.rule,
            ).table_rule(column + 1, widths)
        }
    }

    /// With the rows of a table from `index` on added, and a rule below the last head row.
    pub open spec fn table_rows(
        self,
        rows: Seq<Seq<Seq<char>>>,
        index: nat,
        head_rows: nat,
        widths: Seq<nat>,
    ) -> Layout
        decreases rows.len() - index,
    {
        if index >= rows.len() {
            self
        } else {
            let style = if index < head_rows {
                self.palette.heading
            } else {
                self.palette.body
            };
            let row = self.table_row(rows[index as int], 0, widths, style).ended();
            let ruled = if index + 1 == head_rows {
                row.table_rule(0, widths).ended()
            } else {
                row
            };
            ruled.table_rows(rows, index + 1, head_rows, widths)
        }
    }

    /// With a table added between blank lines.
    pub open spec fn table(self, rows: Seq<Seq<Seq<char>>>, head_rows: nat) -> Layout {
        if rows.len() == 0 {
            self
        } else {
            self.blanked().table_rows(
                rows,
                0,
                head_rows,
                table_widths(self.glyphs, rows),
            ).blanked()
        }
    }
}

fn count_columns(rows: &[Vec<String>]) -> (r: usize)
    ensures
        r == table_columns(cells(rows@), rows@.len()),
{
    let ghost all = cells(rows@);
    let mut r: usize = 0;
    let mut i: usize = 0;
    while i < rows.len()
        invariant
            i <= rows@.len(),
            all == cells(rows@),
            r == table_columns(all, i as nat),
        decreases rows@.len() - i,
    {
        assert(all[i as int] == strings(rows@[i as int]@));
        if rows[i].len() > r {
            r = rows[i].len();
        }
        i += 1;
    }
    r
}

fn measure_column(glyphs: &Glyphs, rows: &[Vec<String>], column: usize) -> (r: usize)
    ensures
        r == column_width(*glyphs, cells(rows@), column as int, rows@.len()),
{
    let ghost all = cells(rows@);
    let mut r: usize = 0;
    let mut i: usize = 0;
    while i < rows.len()
        invariant
            i <= rows@.len(),
            all == cells(rows@),
            r == column_width(*glyphs, all, column as int, i as nat),
        decreases rows@.len() - i,
    {
        assert(all[i as int] == strings(rows@[i as int]@));
        if column < rows[i].len() {
            let width = text_width(glyphs, rows[i][column].as_str());
            if width > r {
                r = width;
            }
        }
        i += 1;
    }
    r
}

/// The contents of a list of widths.
pub open spec fn nats(v: Seq<usize>) -> Seq<nat> {
    v.map_values(|n: usize| n as nat)
}

fn put_row(builder: &mut LineBuilder<'_>, row: &[String], widths: &[usize], style: Style)
    ensures
        final(builder)@ == old(builder)@.table_row(strings(row@), 0, nats(widths@), style),
{
    let ghost all = strings(row@);
    let ghost ws = nats(widths@);
    let mut column: usize = 0;
    while column < widths.len()
        invariant
            column <= widths@.len(),
            all == strings(row@),
            ws == nats(widths@),
            old(builder)@.table_row(all, 0, ws, style) == builder@.table_row(
                all,
                column as nat,
                ws,
                style,
            ),
        decreases widths@.len() - column,
    {
        let palette = builder.palette();
        let count = widths.len();
        let mut cell = if column < row.len() {
            row[column].clone()
        } else {
            String::new()
        };
        let ghost bare = cell@;
        assert(column < row@.len() ==> all[column as int] == row@[column as int]@);
        assert(column >= row@.len() ==> cell@ =~= Seq::<char>::empty());
        let width = text_width(builder.glyphs(), cell.as_str());
        assert(ws[column as int] == widths@[column as int]);
        if column + 1 != count && widths[column] > width {
            cell.append(repeated(' ', widths[column] - width).as_str());
        }
        assert(cell@ == padded_cell(builder@.glyphs, all, column as int, ws));
        if column > 0 {
            builder.append(" │ ", palette.rule);
        }
        builder.append(cell.as_str(), style);
        column += 1;
    }
}

fn put_rule(builder: &mut LineBuilder<'_>, widths: &[usize])
    ensures
        final(builder)@ == old(builder)@.table_rule(0, nats(widths@)),
{
    let ghost ws = nats(widths@);
    let mut column: usize = 0;
    while column < widths.len()
        invariant
            column <= widths@.len(),
            ws == nats(widths@),
            old(builder)@.table_rule(0, ws) == builder@.table_rule(column as nat, ws),
        decreases widths@.len() - column,
    {
        let palette = builder.palette();
        if column > 0 {
            builder.append("─┼─", palette.rule);
        }
        assert(ws[column as int] == widths@[column as int]);
        builder.append(repeated('─', widths[column]).as_str(), palette.rule);
        column += 1;
    }
}

/// Adds a table of plain cells as aligned columns, with a rule below its `head_rows` head rows.
pub fn render_table(builder: &mut LineBuilder<'_>, rows: &[Vec<String>], head_rows: usize)
    ensures
        final(builder)@ == old(builder)@.table(cells(rows@), head_rows as nat),
{
    if rows.len() == 0 {
        return ;
    }
    let ghost all = cells(rows@);
    let columns = count_columns(rows);
    let mut widths: Vec<usize> = Vec::new();
    let mut c: usize = 0;
    while c < columns
        invariant
            c <= columns,
            c == widths@.len(),
            all == cells(rows@),
            forall|k: int|
                0 <= k < c ==> #[trigger] widths@[k] == column_width(
                    builder@.glyphs,
                    all,
                    k,
                    rows@.len(),
                ),
        decreases columns - c,
    {
        widths.push(measure_column(builder.glyphs(), rows, c));
        c += 1;
    }
    let ghost ws = nats(widths@);
    assert(ws =~= table_widths(builder@.glyphs, all));
    builder.blank();
    let ghost base = builder@;
    let mut i: usize = 0;
    while i < rows.len()
        invariant
            i <= rows@.len(),
            all == cells(rows@),
            ws == nats(widths@),
            base.table_rows(all, 0, head_rows as nat, ws) == builder@.table_rows(
                all,
                i as nat,
                head_rows as nat,
                ws,
            ),
        decreases rows@.len() - i,
    {
        let palette = builder.palette();
        let style = if i < head_rows {
            palette.heading
        } else {
            palette.body
        };
        assert(all[i as int] == strings(rows@[i as int]@));
        put_row(builder, rows[i].as_slice(), widths.as_slice(), style);
        builder.end_line();
        let next: usize = i + 1;
        if next == head_rows {
            put_rule(builder, widths.as_slice());
            builder.end_line();
        }
        i = next;
    }
    builder.blank();
}

/// The characters of a text that are not white space.
pub open spec fn ink(t: Seq<char>) -> Seq<char>
    decreases t.len(),
{
    if t.len() == 0 {
        t
    } else if is_white(t.last()) {
        ink(t.drop_last())
    } else {
        ink(t.drop_last()).push(t.last())
    }
}

/// The characters of a line that are not white space.
pub open spec fn line_ink(line: Seq<Run>) -> Seq<char>
    decreases line.len(),
{
    if line.len() == 0 {
        Seq::empty()
    } else {
        line_ink(line.drop_last()) + ink(line.last().text)
    }
}

/// The characters of some lines that are not white space.
pub open spec fn lines_ink(lines: Seq<Seq<Run>>) -> Seq<char>
    decreases lines.len(),
{
    if lines.len() == 0 {
        Seq::empty()
    } else {
        lines_ink(lines.drop_last()) + line_ink(lines.last())
    }
}

impl Layout {
    /// The characters of all lines that are not white space.
    pub open spec fn ink(self) -> Seq<char> {
        lines_ink(self.ended().lines)
    }
}

proof fn lemma_ink_add(a: Seq<char>, b: Seq<char>)
    ensures
        ink(a + b) == ink(a) + ink(b),
    decreases b.len(),
{
    if b.len() == 0 {
        assert(a + b =~= a);
        assert(ink(a) + ink(b) =~= ink(a));
    } else {
        assert((a + b).drop_last() =~= a + b.drop_last());
        lemma_ink_add(a, b.drop_last());
        assert(ink(a + b) =~= ink(a) + ink(b));
    }
}

proof fn lemma_line_ink_push(line: Seq<Run>, run: Run)
    ensures
        line_ink(line.push(run)) == line_ink(line) + ink(run.text),
{
    assert(line.push(run).drop_last() =~= line);
}

proof fn lemma_lines_ink_push(lines: Seq<Seq<Run>>, line: Seq<Run>)
    ensures
        lines_ink(lines.push(line)) == lines_ink(lines) + line_ink(line),
{
    assert(lines.push(line).drop_last() =~= lines);
}

proof fn lemma_blank_ink(n: nat)
    ensures
        ink(repeat(' ', n)) == Seq::<char>::empty(),
    decreases n,
{
    if n > 0 {
        assert(repeat(' ', n).drop_last() =~= repeat(' ', (n - 1) as nat));
        lemma_blank_ink((n - 1) as nat);
    }
}

/// A line of prose without bars and markers: the ones that a text adds are such lines.
pub open spec fn plain(l: Layout) -> bool {
    l.quotes == 0 && l.marker is None && (!l.started ==> l.line.len() == 0)
}

proof fn lemma_begun_ink(l: Layout)
    requires
        plain(l),
    ensures
        plain(l.begun()),
        l.begun().started,
        l.begun().ink() == l.ink(),
        l.begun().ink() == lines_ink(l.begun().lines) + line_ink(l.begun().line),
{
    let b = l.begun();
    lemma_lines_ink_push(b.lines, b.line);
    if !l.started {
        lemma_blank_ink(l.indent);
        let none = Seq::<Run>::empty();
        if l.indent > 0 {
            let run = Run { text: repeat(' ', l.indent), style: l.palette.body };
            assert(b.line =~= none.push(run));
            lemma_line_ink_push(none, run);
        } else {
            assert(b.line =~= none);
        }
        assert(line_ink(b.line) =~= Seq::<char>::empty());
        assert(b.ink() =~= l.ink());
    }
}

proof fn lemma_raw_ink(l: Layout, text: Seq<char>, style: Style)
    requires
        plain(l),
    ensures
        plain(l.raw(text, style)),
        l.raw(text, style).started,
        l.raw(text, style).ink() == l.ink() + ink(text),
{
    lemma_begun_ink(l);
    let b = l.begun();
    let r = l.raw(text, style);
    lemma_line_ink_push(b.line, Run { text, style });
    lemma_lines_ink_push(r.lines, r.line);
    assert(r.ink() =~= l.ink() + ink(text));
}

proof fn lemma_word_ink(l: Layout, word: Seq<char>, style: Style)
    requires
        plain(l),
    ensures
        plain(l.word(word, style)),
        l.word(word, style).ink() == l.ink() + ink(word),
{
    lemma_begun_ink(l);
    let b = l.begun();
    if b.overflows(word) {
        lemma_begun_ink(b.ended());
        lemma_raw_ink(Layout { space: false, ..b.ended().begun() }, word, style);
    } else if b.space && b.col > b.prefix {
        reveal_strlit(" ");
        assert(" "@ =~= repeat(' ', 1));
        lemma_blank_ink(1);
        lemma_raw_ink(b, " "@, b.palette.body);
        let c = b.raw(" "@, b.palette.body);
        assert(c.ink() =~= l.ink());
        assert(Layout { space: false, ..c }.ink() == c.ink());
        lemma_raw_ink(Layout { space: false, ..c }, word, style);
    } else {
        assert(Layout { space: false, ..b }.ink() == b.ink());
        lemma_raw_ink(Layout { space: false, ..b }, word, style);
    }
}

proof fn lemma_ink_first(text: Seq<char>)
    requires
        text.len() > 0,
    ensures
        ink(text) == if is_white(text[0]) {
            ink(text.drop_first())
        } else {
            seq![text[0]] + ink(text.drop_first())
        },
{
    let first = seq![text[0]];
    assert(text =~= first + text.drop_first());
    lemma_ink_add(first, text.drop_first());
    assert(first.drop_last() =~= Seq::<char>::empty());
    reveal_with_fuel(ink, 2);
    if is_white(text[0]) {
        assert(ink(text) =~= ink(text.drop_first()));
    } else {
        assert(ink(first) =~= first);
    }
}

proof fn lemma_flushed_ink(l: Layout, word: Seq<char>, style: Style)
    requires
        plain(l),
    ensures
        plain(l.flushed(word, style)),
        l.flushed(word, style).ink() == l.ink() + ink(word),
{
    if word.len() > 0 {
        lemma_word_ink(l, word, style);
    } else {
        assert(l.ink() + ink(word) =~= l.ink());
    }
}

proof fn lemma_spanned_ink(l: Layout, word: Seq<char>, text: Seq<char>, style: Style)
    requires
        plain(l),
    ensures
        plain(l.spanned(word, text, style)),
        l.spanned(word, text, style).ink() == l.ink() + ink(word) + ink(text),
    decreases text.len(),
{
    lemma_flushed_ink(l, word, style);
    if text.len() == 0 {
        assert(l.ink() + ink(word) + ink(text) =~= l.ink() + ink(word));
    } else {
        let rest = text.drop_first();
        lemma_ink_first(text);
        if is_white(text[0]) {
            let f = l.flushed(word, style);
            let g = Layout { space: true, ..f };
            assert(g.ink() == f.ink());
            lemma_spanned_ink(g, Seq::empty(), rest, style);
            assert(l.ink() + ink(word) + ink(Seq::<char>::empty()) + ink(rest) =~= l.ink() + ink(
                word,
            ) + ink(text));
        } else {
            lemma_spanned_ink(l, word.push(text[0]), rest, style);
            assert(word.push(text[0]).drop_last() =~= word);
            assert(l.ink() + ink(word.push(text[0])) + ink(rest) =~= l.ink() + ink(word) + ink(
                text,
            ));
        }
    }
}

/// Wrapping loses and adds nothing but white space: a text put onto plain lines adds its characters
/// in their order.
pub proof fn law_wrapping_keeps_text(l: Layout, text: Seq<char>, style: Style)
    requires
        plain(l),
    ensures
        l.span(text, style).ink() == l.ink() + ink(text),
{
    lemma_spanned_ink(l, Seq::empty(), text, style);
    assert(l.ink() + ink(Seq::<char>::empty()) + ink(text) =~= l.ink() + ink(text));
}

/// A line grows past the width only where one word alone does not fit: after a word is placed, the
/// line either fits or holds that word directly behind its bars, indent and marker. (A blank takes
/// one cell.)
pub proof fn law_words_wrap(l: Layout, word: Seq<char>, style: Style)
    requires
        cells_of(l.glyphs, ' ') == 1,
    ensures
        ({
            let b = l.begun();
            let after = l.word(word, style);
            let run = Run { text: word, style };
            ||| after.col <= l.width
            ||| b.col <= b.prefix && after.line == b.line.push(run)
            ||| after.line == b.ended().begun().line.push(run)
        }),
{
    let b = l.begun();
    if !b.overflows(word) && b.col > b.prefix && b.space {
        reveal_strlit(" ");
        reveal_with_fuel(width_of, 2);
        assert(" "@.drop_last() =~= Seq::<char>::empty());
        assert(width_of(b.glyphs, " "@) == 1);
    }
}

proof fn lemma_begun_tidy(l: Layout)
    requires
        l.tidy(),
    ensures
        l.begun().lines == l.lines,
        l.begun().started,
{
}

proof fn lemma_push_tidy(l: Layout, line: Seq<Run>)
    requires
        l.tidy(),
        line.len() > 0 || (l.lines.len() > 0 && l.lines.last().len() > 0),
    ensures
        (Layout { lines: l.lines.push(line), line: Seq::empty(), started: false, ..l }).tidy(),
{
    let lines = l.lines.push(line);
    assert forall|i: int| 0 < i < lines.len() implies #[trigger] separate(lines, i) by {
        if i < l.lines.len() {
            assert(separate(l.lines, i));
        }
    }
}

proof fn lemma_ended_tidy(l: Layout)
    requires
        l.tidy(),
    ensures
        l.ended().tidy(),
        !l.ended().started,
{
    if l.started {
        lemma_push_tidy(l, l.line);
        let e = l.ended();
        assert(e.lines == l.lines.push(l.line));
        assert forall|i: int| 0 < i < e.lines.len() implies #[trigger] separate(e.lines, i) by {
            if i < l.lines.len() {
                assert(separate(l.lines, i));
            }
        }
    }
}

proof fn lemma_blanked_tidy(l: Layout)
    requires
        l.tidy(),
    ensures
        l.blanked().tidy(),
{
    lemma_ended_tidy(l);
    let e = l.ended();
    if e.lines.len() > 0 && e.lines.last().len() > 0 {
        lemma_push_tidy(e, Seq::empty());
    }
}

proof fn lemma_ruled_tidy(l: Layout)
    requires
        l.tidy(),
    ensures
        l.ruled().tidy(),
{
    lemma_ended_tidy(l);
    let e = l.ended();
    lemma_push_tidy(e, seq![Run { text: repeat('─', e.width), style: e.palette.rule }]);
}

proof fn lemma_raw_tidy(l: Layout, text: Seq<char>, style: Style)
    requires
        l.tidy(),
    ensures
        l.raw(text, style).tidy(),
{
    lemma_begun_tidy(l);
    assert(l.raw(text, style).lines == l.lines);
}

proof fn lemma_appended_tidy(l: Layout, text: Seq<char>, style: Style)
    requires
        l.tidy(),
    ensures
        l.appended(text, style).tidy(),
{
    lemma_raw_tidy(Layout { space: false, ..l }, text, style);
}

proof fn lemma_word_tidy(l: Layout, word: Seq<char>, style: Style)
    requires
        l.tidy(),
    ensures
        l.word(word, style).tidy(),
{
    let b = l.begun();
    lemma_begun_tidy(l);
    if b.overflows(word) {
        let e = b.ended();
        if l.started {
            lemma_ended_tidy(l);
        } else {
            assert(b.col == b.prefix);
        }
        let c = e.begun();
        assert(c.lines == e.lines);
        assert(Layout { space: false, ..c }.raw(word, style).lines == e.lines);
    } else if b.space && b.col > b.prefix {
        let c = b.raw(" "@, b.palette.body);
        assert(Layout { space: false, ..c }.raw(word, style).lines == l.lines);
    } else {
        assert(Layout { space: false, ..b }.raw(word, style).lines == l.lines);
    }
}

proof fn lemma_spanned_tidy(l: Layout, word: Seq<char>, text: Seq<char>, style: Style)
    requires
        l.tidy(),
    ensures
        l.spanned(word, text, style).tidy(),
    decreases text.len(),
{
    if word.len() > 0 {
        lemma_word_tidy(l, word, style);
    }
    if text.len() > 0 {
        if is_white(text[0]) {
            let f = l.flushed(word, style);
            let g = Layout { space: true, ..f };
            assert(g.lines == f.lines);
            lemma_spanned_tidy(g, Seq::empty(), text.drop_first(), style);
        } else {
            lemma_spanned_tidy(l, word.push(text[0]), text.drop_first(), style);
        }
    }
}

proof fn lemma_row_tidy(
    l: Layout,
    row: Seq<Seq<char>>,
    column: nat,
    widths: Seq<nat>,
    style: Style,
)
    requires
        l.tidy(),
    ensures
        l.table_row(row, column, widths, style).tidy(),
    decreases widths.len() - column,
{
    if column < widths.len() {
        lemma_appended_tidy(l, " │ "@, l.palette.rule);
        let a = if column > 0 {
            l.appended(" │ "@, l.palette.rule)
        } else {
            l
        };
        let cell = padded_cell(l.glyphs, row, column as int, widths);
        lemma_appended_tidy(a, cell, style);
        lemma_row_tidy(a.appended(cell, style), row, column + 1, widths, style);
    }
}

proof fn lemma_rule_tidy(l: Layout, column: nat, widths: Seq<nat>)
    requires
        l.tidy(),
    ensures
        l.table_rule(column, widths).tidy(),
    decreases widths.len() - column,
{
    if column < widths.len() {
        lemma_appended_tidy(l, "─┼─"@, l.palette.rule);
        let a = if column > 0 {
            l.appended("─┼─"@, l.palette.rule)
        } else {
            l
        };
        let dashes = repeat('─', widths[column as int]);
        lemma_appended_tidy(a, dashes, l.palette.rule);
        lemma_rule_tidy(a.appended(dashes, l.palette.rule), column + 1, widths);
    }
}

proof fn lemma_table_tidy(
    l: Layout,
    rows: Seq<Seq<Seq<char>>>,
    index: nat,
    head_rows: nat,
    widths: Seq<nat>,
)
    requires
        l.tidy(),
    ensures
        l.table_rows(rows, index, head_rows, widths).tidy(),
    decreases rows.len() - index,
{
    if index < rows.len() {
        let style = if index < head_rows {
            l.palette.heading
        } else {
            l.palette.body
        };
        lemma_row_tidy(l, rows[index as int], 0, widths, style);
        let filled = l.table_row(rows[index as int], 0, widths, style);
        lemma_ended_tidy(filled);
        let row = filled.ended();
        lemma_rule_tidy(row, 0, widths);
        lemma_ended_tidy(row.table_rule(0, widths));
        let ruled = if index + 1 == head_rows {
            row.table_rule(0, widths).ended()
        } else {
            row
        };
        lemma_table_tidy(ruled, rows, index + 1, head_rows, widths);
    }
}

/// Whatever is added, a line under construction holds something, no blank line stands first, and
/// no two follow one another.
pub proof fn law_lines_stay_tidy(
    l: Layout,
    text: Seq<char>,
    style: Style,
    rows: Seq<Seq<Seq<char>>>,
    head_rows: nat,
)
    requires
        l.tidy(),
    ensures
        l.ended().tidy(),
        l.blanked().tidy(),
        l.ruled().tidy(),
        l.appended(text, style).tidy(),
        l.span(text, style).tidy(),
        l.table(rows, head_rows).tidy(),
{
    lemma_ended_tidy(l);
    lemma_blanked_tidy(l);
    lemma_ruled_tidy(l);
    lemma_appended_tidy(l, text, style);
    lemma_spanned_tidy(l, Seq::empty(), text, style);
    let ws = table_widths(l.glyphs, rows);
    lemma_table_tidy(l.blanked(), rows, 0, head_rows, ws);
    lemma_blanked_tidy(l.blanked().table_rows(rows, 0, head_rows, ws));
}

/// A finished document does not end in a blank line.
pub proof fn law_no_blank_end(l: Layout)
    ensures
        l.finished().len() > 0 ==> l.finished().last().len() > 0,
{
    lemma_without_blanks(l.ended().lines);
}

proof fn lemma_without_blanks(lines: Seq<Seq<Run>>)
    ensures
        without_blanks(lines).len() > 0 ==> without_blanks(lines).last().len() > 0,
    decreases lines.len(),
{
    if lines.len() > 0 && lines.last().len() == 0 {
        lemma_without_blanks(lines.drop_last());
    }
}

proof fn lemma_width_add(glyphs: Glyphs, a: Seq<char>, n: nat)
    requires
        cells_of(glyphs, ' ') == 1,
    ensures
        width_of(glyphs, a + repeat(' ', n)) == width_of(glyphs, a) + n,
    decreases n,
{
    if n == 0 {
        assert(a + repeat(' ', n) =~= a);
    } else {
        assert((a + repeat(' ', n)).drop_last() =~= a + repeat(' ', (n - 1) as nat));
        lemma_width_add(glyphs, a, (n - 1) as nat);
    }
}

proof fn lemma_column_covers(
    glyphs: Glyphs,
    rows: Seq<Seq<Seq<char>>>,
    column: int,
    n: nat,
    i: int,
)
    requires
        0 <= i < n <= rows.len(),
        0 <= column < rows[i].len(),
    ensures
        capped(width_of(glyphs, rows[i][column]) as int) <= column_width(glyphs, rows, column, n),
    decreases n,
{
    if i < n - 1 {
        lemma_column_covers(glyphs, rows, column, (n - 1) as nat, i);
    }
}

/// The columns of a table line up: every cell that has another one behind it is as wide as its
/// column. (A blank takes one cell, and no cell is wider than the largest `usize`.)
pub proof fn law_columns_line_up(
    glyphs: Glyphs,
    rows: Seq<Seq<Seq<char>>>,
    index: int,
    column: int,
)
    requires
        cells_of(glyphs, ' ') == 1,
        0 <= index < rows.len(),
        0 <= column < table_columns(rows, rows.len()) - 1,
        column < rows[index].len() ==> width_of(glyphs, rows[index][column]) <= usize::MAX,
    ensures
        width_of(
            glyphs,
            padded_cell(glyphs, rows[index], column, table_widths(glyphs, rows)),
        ) == table_widths(glyphs, rows)[column],
{
    let ws = table_widths(glyphs, rows);
    let cell = if column < rows[index].len() {
        rows[index][column]
    } else {
        Seq::empty()
    };
    if column < rows[index].len() {
        lemma_column_covers(glyphs, rows, column, rows.len(), index);
    }
    if ws[column] > width_of(glyphs, cell) {
        lemma_width_add(glyphs, cell, (ws[column] - width_of(glyphs, cell)) as nat);
    }
}

/// Whether a text is one word: not empty, and without white space.
pub open spec fn is_word(w: Seq<char>) -> bool {
    w.len() > 0 && forall|k: int| 0 <= k < w.len() ==> !is_white(#[trigger] w[k])
}

proof fn lemma_spanned_word(l: Layout, word: Seq<char>, text: Seq<char>, rest: Seq<char>, style: Style)
    requires
        forall|k: int| 0 <= k < text.len() ==> !is_white(#[trigger] text[k]),
    ensures
        l.spanned(word, text + rest, style) == l.spanned(word + text, rest, style),
    decreases text.len(),
{
    if text.len() == 0 {
        assert(text + rest =~= rest);
        assert(word + text =~= word);
    } else {
        let t = text + rest;
        let tail = text.drop_first();
        assert(t[0] == text[0]);
        assert(t.drop_first() =~= tail + rest);
        assert forall|k: int| 0 <= k < tail.len() implies !is_white(#[trigger] tail[k]) by {
            assert(tail[k] == text[k + 1]);
        }
        lemma_spanned_word(l, word.push(text[0]), tail, rest, style);
        assert(word.push(text[0]) + tail =~= word + text);
    }
}

/// A text of one word is placed as that word.
pub proof fn lemma_span_word(l: Layout, w: Seq<char>, style: Style)
    requires
        is_word(w),
    ensures
        l.span(w, style) == l.word(w, style),
{
    lemma_spanned_word(l, Seq::empty(), w, Seq::empty(), style);
    assert(w + Seq::<char>::empty() =~= w);
    assert(Seq::<char>::empty() + w =~= w);
}

/// A text of two words is placed as those words, with a space owed between them.
pub proof fn lemma_span_two(l: Layout, a: Seq<char>, gap: char, b: Seq<char>, style: Style)
    requires
        is_word(a),
        is_word(b),
        is_white(gap),
    ensures
        l.span(a + seq![gap] + b, style) == (Layout { space: true, ..l.word(a, style) }).word(b, style),
{
    let none = Seq::<char>::empty();
    lemma_spanned_word(l, none, a, seq![gap] + b, style);
    assert(a + (seq![gap] + b) =~= a + seq![gap] + b);
    assert(none + a =~= a);
    let rest = seq![gap] + b;
    assert(rest.drop_first() =~= b);
    assert(rest[0] == gap);
    let m = Layout { space: true, ..l.word(a, style) };
    assert(l.spanned(a, rest, style) == m.spanned(none, b, style));
    lemma_span_word(m, b, style);
}

/// Words that white space keeps apart stand apart by one blank on a line, or on two lines where they
/// do not fit together; words that nothing keeps apart are set side by side.
pub proof fn law_words_stand_apart(l: Layout, a: Seq<char>, gap: char, b: Seq<char>, style: Style)
    requires
        is_word(a),
        is_word(b),
        is_white(gap),
        l.span(a, style).prefix < l.span(a, style).col < usize::MAX,
    ensures
        ({
            let x = l.span(a, style);
            let apart = l.span(a + seq![gap] + b, style);
            let beside = x.span(b, style);
            let fits = x.col + 1 + width_of(l.glyphs, b) <= l.width;
            let space = Run { text: " "@, style: l.palette.body };
            let word = Run { text: b, style };
            &&& fits ==> apart.lines == x.lines && apart.line == x.line.push(space).push(word)
            &&& fits ==> beside.lines == x.lines && beside.line == x.line.push(word)
            &&& !fits && l.width < usize::MAX ==> apart.lines == x.lines.push(x.line)
                && apart.line.last() == word
        }),
{
    lemma_span_word(l, a, style);
    lemma_span_two(l, a, gap, b, style);
    lemma_span_word(l.span(a, style), b, style);
}

/// White space around words and between them counts as one blank: how much there is, and of what
/// kind, does not matter.
pub proof fn law_white_space_is_one_blank(l: Layout, gap: char, text: Seq<char>, style: Style)
    requires
        is_white(gap),
    ensures
        l.span(seq![gap, ' '] + text, style) == l.span(seq![' '] + text, style),
{
    let t = seq![gap, ' '] + text;
    let u = seq![' '] + text;
    assert(t.drop_first() =~= u);
    assert(u.drop_first() =~= text);
    assert(t[0] == gap);
    assert(u[0] == ' ');
    let none = Seq::<char>::empty();
    let s = Layout { space: true, ..l };
    assert(l.spanned(none, t, style) == s.spanned(none, u, style));
    assert(s.spanned(none, u, style) == s.spanned(none, text, style));
    assert(l.spanned(none, u, style) == s.spanned(none, text, style));
}

/// The first word on a line stands behind the bars of the quotations, and behind the marker of the
/// line or, without one, the indent.
pub proof fn law_a_line_begins(l: Layout, w: Seq<char>, style: Style)
    requires
        is_word(w),
        !l.started,
    ensures
        ({
            let x = l.span(w, style);
            let bar = Run { text: "│ "@, style: l.palette.quote };
            let blanks = Run { text: Seq::new(l.indent, |i: int| ' '), style: l.palette.body };
            let front = match l.marker {
                Some(marker) => marker,
                None => if l.indent > 0 {
                    seq![blanks]
                } else {
                    Seq::empty()
                },
            };
            &&& x.line == Seq::new(l.quotes, |i: int| bar) + front.push(Run { text: w, style })
            &&& x.lines == l.lines
            &&& x.started
            &&& x.marker is None
        }),
{
    lemma_span_word(l, w, style);
    let b = l.begun();
    assert(!b.overflows(w));
    let bar = Run { text: "│ "@, style: l.palette.quote };
    assert(bars(l.quotes, l.palette.quote) =~= Seq::new(l.quotes, |i: int| bar));
    assert(repeat(' ', l.indent) =~= Seq::new(l.indent, |i: int| ' '));
    let x = l.span(w, style);
    let front = match l.marker {
        Some(marker) => marker,
        None => if l.indent > 0 {
            seq![Run { text: repeat(' ', l.indent), style: l.palette.body }]
        } else {
            Seq::empty()
        },
    };
    assert(x.line =~= Seq::new(l.quotes, |i: int| bar) + front.push(Run { text: w, style }));
}

/// Ending a line keeps it, a blank line comes once and not first, and a rule goes over the whole
/// width.
pub proof fn law_lines_are_ended(l: Layout)
    ensures
        l.started ==> l.ended().lines == l.lines.push(l.line) && !l.ended().started,
        !l.started ==> l.ended() == l,
        ({
            let e = l.ended().lines;
            &&& e.len() > 0 && e.last().len() > 0 ==> l.blanked().lines == e.push(Seq::empty())
            &&& e.len() == 0 || e.last().len() == 0 ==> l.blanked().lines == e
            &&& l.ruled().lines == e.push(
                seq![Run { text: Seq::new(l.width, |i: int| '─'), style: l.palette.rule }],
            )
        }),
        !l.blanked().started,
        !l.ruled().started,
{
    assert(repeat('─', l.width) =~= Seq::new(l.width, |i: int| '─'));
}

/// A row of a table shows its cells from left to right with a bar between each two, and cells that a
/// row does not have are empty.
pub proof fn law_table_row_shows_cells(l: Layout, a: Seq<char>, b: Seq<char>, widths: Seq<nat>, style: Style)
    requires
        widths.len() == 2,
        l.started,
    ensures
        ({
            let r = l.table_row(seq![a, b], 0, widths, style);
            let pad = widths[0] - capped(width_of(l.glyphs, a) as int);
            &&& r.lines == l.lines
            &&& r.line == l.line + seq![
                Run {
                    text: a + Seq::new(
                        (if pad > 0 {
                            pad
                        } else {
                            0
                        }) as nat,
                        |i: int| ' ',
                    ),
                    style,
                },
                Run { text: " │ "@, style: l.palette.rule },
                Run { text: b, style },
            ]
        }),
{
    let row = seq![a, b];
    let pad = widths[0] - capped(width_of(l.glyphs, a) as int);
    let r0 = l.appended(padded_cell(l.glyphs, row, 0, widths), style);
    assert(l.table_row(row, 0, widths, style) == r0.table_row(row, 1, widths, style));
    let r1 = r0.appended(" │ "@, r0.palette.rule).appended(
        padded_cell(l.glyphs, row, 1, widths),
        style,
    );
    assert(r0.table_row(row, 1, widths, style) == r1.table_row(row, 2, widths, style));
    assert(r1.table_row(row, 2, widths, style) == r1);
    let blanks = Seq::new(
        (if pad > 0 {
            pad
        } else {
            0
        }) as nat,
        |i: int| ' ',
    );
    assert(padded_cell(l.glyphs, row, 0, widths) =~= a + blanks) by {
        if pad > 0 {
            assert(repeat(' ', pad as nat) =~= blanks);
        }
    }
    assert(padded_cell(l.glyphs, row, 1, widths) == b);
    assert(r1.line =~= l.line + seq![
        Run { text: a + blanks, style },
        Run { text: " │ "@, style: l.palette.rule },
        Run { text: b, style },
    ]);
}

/// The columns of a table are as wide as its widest cell: some row has a cell of that width, and none
/// has a wider one.
pub proof fn law_column_is_as_wide_as_its_widest(
    glyphs: Glyphs,
    rows: Seq<Seq<Seq<char>>>,
    column: int,
    i: int,
)
    requires
        0 <= i < rows.len(),
        0 <= column < rows[i].len(),
    ensures
        column < table_widths(glyphs, rows).len(),
        table_widths(glyphs, rows)[column] >= capped(width_of(glyphs, rows[i][column]) as int),
        exists|k: int|
            {
                &&& 0 <= k < rows.len()
                &&& column < (#[trigger] rows[k]).len()
                &&& table_widths(glyphs, rows)[column] == capped(
                    width_of(glyphs, rows[k][column]) as int,
                )
            },
{
    lemma_widest(glyphs, rows, column, rows.len(), i);
    lemma_columns_cover(rows, rows.len(), i);
}

proof fn lemma_columns_cover(rows: Seq<Seq<Seq<char>>>, n: nat, i: int)
    requires
        0 <= i < n <= rows.len(),
    ensures
        table_columns(rows, n) >= rows[i].len(),
    decreases n,
{
    if i < n - 1 {
        lemma_columns_cover(rows, (n - 1) as nat, i);
    }
}

proof fn lemma_widest(glyphs: Glyphs, rows: Seq<Seq<Seq<char>>>, column: int, n: nat, i: int)
    requires
        0 <= i < n <= rows.len(),
        0 <= column < rows[i].len(),
    ensures
        column_width(glyphs, rows, column, n) >= capped(width_of(glyphs, rows[i][column]) as int),
        exists|k: int|
            {
                &&& 0 <= k < n
                &&& column < (#[trigger] rows[k]).len()
                &&& column_width(glyphs, rows, column, n) == capped(
                    width_of(glyphs, rows[k][column]) as int,
                )
            },
    decreases n,
{
    let last = rows[n - 1];
    if i < n - 1 {
        lemma_widest(glyphs, rows, column, (n - 1) as nat, i);
        let before = column_width(glyphs, rows, column, (n - 1) as nat);
        let k = choose|k: int|
            {
                &&& 0 <= k < n - 1
                &&& column < (#[trigger] rows[k]).len()
                &&& before == capped(width_of(glyphs, rows[k][column]) as int)
            };
        if column < last.len() && capped(width_of(glyphs, last[column]) as int) > before {
            assert(column < rows[n - 1].len());
        } else {
            assert(column < rows[k].len());
        }
    } else {
        lemma_some_width(glyphs, rows, column, (n - 1) as nat);
        let before = column_width(glyphs, rows, column, (n - 1) as nat);
        if capped(width_of(glyphs, last[column]) as int) > before || before == 0 {
            assert(column < rows[n - 1].len());
        } else {
            let k = choose|k: int|
                {
                    &&& 0 <= k < n - 1
                    &&& column < (#[trigger] rows[k]).len()
                    &&& before == capped(width_of(glyphs, rows[k][column]) as int)
                };
            assert(column < rows[k].len());
        }
    }
}

proof fn lemma_some_width(glyphs: Glyphs, rows: Seq<Seq<Seq<char>>>, column: int, n: nat)
    requires
        n <= rows.len(),
        0 <= column,
    ensures
        column_width(glyphs, rows, column, n) == 0 || exists|k: int|
            {
                &&& 0 <= k < n
                &&& column < (#[trigger] rows[k]).len()
                &&& column_width(glyphs, rows, column, n) == capped(
                    width_of(glyphs, rows[k][column]) as int,
                )
            },
    decreases n,
{
    if n > 0 {
        lemma_some_width(glyphs, rows, column, (n - 1) as nat);
        let before = column_width(glyphs, rows, column, (n - 1) as nat);
        if column_width(glyphs, rows, column, n) == before {
            if before > 0 {
                let k = choose|k: int|
                    {
                        &&& 0 <= k < n - 1
                        &&& column < (#[trigger] rows[k]).len()
                        &&& before == capped(width_of(glyphs, rows[k][column]) as int)
                    };
                assert(column < rows[k].len());
            }
        } else {
            assert(column < rows[n - 1].len());
        }
    }
}

/// Blank lines at the end are left out, and no other line is.
pub proof fn law_blank_lines_at_the_end_go(lines: Seq<Seq<Run>>)
    ensures
        ({
            let r = without_blanks(lines);
            &&& r.len() <= lines.len()
            &&& r == lines.take(r.len() as int)
            &&& r.len() > 0 ==> r.last().len() > 0
            &&& forall|k: int| r.len() <= k < lines.len() ==> (#[trigger] lines[k]).len() == 0
        }),
    decreases lines.len(),
{
    if lines.len() > 0 && lines.last().len() == 0 {
        let d = lines.drop_last();
        law_blank_lines_at_the_end_go(d);
        let r = without_blanks(d);
        assert(lines.take(r.len() as int) =~= d.take(r.len() as int));
        assert forall|k: int| r.len() <= k < lines.len() implies (#[trigger] lines[k]).len() == 0 by {
            if k < d.len() {
                assert(d[k] == lines[k]);
            }
        }
    } else {
        assert(lines.take(lines.len() as int) =~= lines);
    }
}

} // verus!
