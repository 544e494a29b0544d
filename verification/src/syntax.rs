//! Syntax highlighting: the categories of tokens, the spans of a text that belong to them, and the
//! highlighter of the languages that have a grammar.
//!
//! The grammar's parser reports the parts of a source in order, together with the captures that
//! start and end around them; [`collect`] makes spans of these marks. A span's category takes its
//! style from the theme, so that highlighting keeps to the theme's colours.

use crate::paths::{extension, extension_of};
use crate::surface::{Rgb, Style, Theme};
use crate::text::{chars_are, chars_of};
use tree_sitter_highlight::{HighlightConfiguration, HighlightEvent, Highlighter};
use vstd::prelude::*;

verus! {

/// A syntax category.
#[derive(Clone, Copy, Debug, PartialEq, Eq, Structural)]
pub enum HighlightKind {
    /// Keywords.
    Keyword,
    /// Type names.
    Type,
    /// Names of functions, methods and macros.
    Function,
    /// String and character literals.
    String,
    /// Comments.
    Comment,
    /// Numeric literals.
    Number,
    /// Constants and builtin values.
    Constant,
    /// Attributes.
    Attribute,
    /// Operators and punctuation.
    Punctuation,
    /// Variables and properties.
    Variable,
}

/// A colour halfway between two, rounded down.
pub open spec fn halfway(a: Rgb, b: Rgb) -> Rgb {
    Rgb {
        r: ((a.r + b.r) / 2) as u8,
        g: ((a.g + b.g) / 2) as u8,
        b: ((a.b + b.b) / 2) as u8,
    }
}

fn midpoint(a: u8, b: u8) -> (r: u8)
    ensures
        r == (a + b) / 2,
{
    ((a as u16 + b as u16) / 2) as u8
}

/// Blends `fg` halfway towards `bg`.
pub fn dim(fg: Rgb, bg: Rgb) -> (r: Rgb)
    ensures
        r == halfway(fg, bg),
{
    Rgb { r: midpoint(fg.r, bg.r), g: midpoint(fg.g, bg.g), b: midpoint(fg.b, bg.b) }
}

/// The style of a category in the colours of a theme.
pub open spec fn style_of(kind: HighlightKind, theme: Theme) -> Style {
    match kind {
        HighlightKind::Keyword => theme.accented(),
        HighlightKind::Type => theme.accented(),
        HighlightKind::Attribute => theme.accented(),
        HighlightKind::Function => theme.base_style().bold(),
        HighlightKind::String => Style::new(theme.success, theme.background),
        HighlightKind::Comment => Style::new(
            halfway(theme.foreground, theme.background),
            theme.background,
        ),
        HighlightKind::Number => Style::new(theme.info, theme.background),
        HighlightKind::Constant => Style::new(theme.info, theme.background),
        HighlightKind::Punctuation => theme.base_style(),
        HighlightKind::Variable => theme.base_style(),
    }
}

impl HighlightKind {
    /// The style of this category in the colours of a theme.
    pub fn style(self, theme: &Theme) -> (r: Style)
        ensures
            r == style_of(self, *theme),
    {
        match self {
            HighlightKind::Keyword => theme.accented(),
            HighlightKind::Type => theme.accented(),
            HighlightKind::Attribute => theme.accented(),
            HighlightKind::Function => theme.base_style().bold(),
            HighlightKind::String => Style::new(theme.success, theme.background),
            HighlightKind::Comment => Style::new(
                dim(theme.foreground, theme.background),
                theme.background,
            ),
            HighlightKind::Number => Style::new(theme.info, theme.background),
            HighlightKind::Constant => Style::new(theme.info, theme.background),
            HighlightKind::Punctuation => theme.base_style(),
            HighlightKind::Variable => theme.base_style(),
        }
    }
}

/// A range of bytes that belongs to a category.
#[derive(Clone, Copy, Debug, PartialEq, Eq, Structural)]
pub struct Span {
    /// The first byte.
    pub start: usize,
    /// The byte behind the last one.
    pub end: usize,
    /// The category.
    pub value: HighlightKind,
}

/// The spans of a text, in the order in which they were found.
#[derive(Debug)]
pub struct SpanLayer {
    spans: Vec<Span>,
}

impl View for SpanLayer {
    type V = Seq<Span>;

    closed spec fn view(&self) -> Seq<Span> {
        self.spans@
    }
}

impl Clone for SpanLayer {
    fn clone(&self) -> (r: Self)
        ensures
            r@ == self@,
    {
        let r = SpanLayer { spans: self.spans.clone() };
        assert(r@ =~= self@);
        r
    }
}

/// Whether a span has bytes in common with a range.
pub open spec fn overlaps(span: Span, start: nat, end: nat) -> bool {
    span.start < end && span.end > start
}

impl SpanLayer {
    /// A layer without spans.
    pub fn new() -> (r: Self)
        ensures
            r@ == Seq::<Span>::empty(),
    {
        SpanLayer { spans: Vec::new() }
    }

    /// A layer of the given spans.
    pub fn from_sorted(spans: Vec<Span>) -> (r: Self)
        ensures
            r@ == spans@,
    {
        SpanLayer { spans }
    }

    /// Whether there is no span.
    pub fn is_empty(&self) -> (r: bool)
        ensures
            r == (self@.len() == 0),
    {
        self.spans.len() == 0
    }

    /// All spans.
    pub fn spans(&self) -> (r: &[Span])
        ensures
            r@ == self@,
    {
        self.spans.as_slice()
    }

    /// The spans that have bytes in common with a range.
    pub fn spans_in(&self, start: usize, end: usize) -> (r: Vec<Span>)
        ensures
            r@ == self@.filter(|s: Span| overlaps(s, start as nat, end as nat)),
    {
        let ghost keep = |s: Span| overlaps(s, start as nat, end as nat);
        let mut r: Vec<Span> = Vec::new();
        let mut i: usize = 0;
        assert(self.spans@.take(0).filter(keep) =~= Seq::empty()) by {
            assert(self.spans@.take(0) =~= Seq::empty());
            reveal(Seq::filter);
        }
        while i < self.spans.len()
            invariant
                i <= self.spans@.len(),
                keep == (|s: Span| overlaps(s, start as nat, end as nat)),
                r@ == self.spans@.take(i as int).filter(keep),
            decreases self.spans@.len() - i,
        {
            let span = self.spans[i];
            proof {
                let next = self.spans@.take(i + 1);
                assert(next.drop_last() =~= self.spans@.take(i as int));
                assert(next.last() == span);
                reveal(Seq::filter);
            }
            if span.start < end && span.end > start {
                r.push(span);
            }
            i += 1;
        }
        assert(self.spans@.take(i as int) =~= self.spans@);
        r
    }
}

/// The style of a byte: that of the last of the first `n` spans that holds it, or `base`.
pub open spec fn byte_style(spans: Seq<Span>, n: nat, byte: nat, base: Style, theme: Theme) -> Style
    decreases n,
{
    if n == 0 {
        base
    } else {
        let span = spans[n - 1];
        if span.start <= byte < span.end {
            style_of(span.value, theme)
        } else {
            byte_style(spans, (n - 1) as nat, byte, base, theme)
        }
    }
}

/// The styles of the bytes from `start` up to `end`.
pub fn visible_styles(
    layer: &SpanLayer,
    start: usize,
    end: usize,
    base: Style,
    theme: &Theme,
) -> (r: Vec<Style>)
    ensures
        r@.len() == if start < end {
            end - start
        } else {
            0
        },
        forall|i: int|
            0 <= i < r@.len() ==> #[trigger] r@[i] == byte_style(
                layer@,
                layer@.len(),
                (start + i) as nat,
                base,
                *theme,
            ),
{
    let mut styles: Vec<Style> = Vec::new();
    if start >= end {
        return styles;
    }
    let len: usize = end - start;
    let mut k: usize = 0;
    while k < len
        invariant
            k <= len,
            styles@.len() == k,
            forall|i: int| 0 <= i < k ==> #[trigger] styles@[i] == base,
        decreases len - k,
    {
        styles.push(base);
        k += 1;
    }
    let spans = layer.spans();
    let mut n: usize = 0;
    while n < spans.len()
        invariant
            start < end,
            len == end - start,
            spans@ == layer@,
            n <= spans@.len(),
            styles@.len() == len,
            forall|i: int|
                0 <= i < len ==> #[trigger] styles@[i] == byte_style(
                    layer@,
                    n as nat,
                    (start + i) as nat,
                    base,
                    *theme,
                ),
        decreases spans@.len() - n,
    {
        let span = spans[n];
        let style = span.value.style(theme);
        if span.start < end && span.end > start && span.start < span.end {
            let from: usize = if span.start > start {
                span.start - start
            } else {
                0
            };
            let to: usize = if span.end < end {
                span.end - start
            } else {
                len
            };
            let ghost before = styles@;
            let mut j: usize = from;
            while j < to
                invariant
                    from <= j <= to <= len,
                    styles@.len() == len,
                    before.len() == len,
                    forall|i: int|
                        0 <= i < len ==> #[trigger] styles@[i] == if from <= i < j {
                            style
                        } else {
                            before[i]
                        },
                decreases to - j,
            {
                styles.set(j, style);
                j += 1;
            }
        }
        n += 1;
    }
    styles
}

/// The names of the captures that the highlighter knows, with their categories. A grammar's capture
/// counts as the longest of these names that is a prefix of its own.
pub open spec fn captures() -> Seq<(Seq<char>, HighlightKind)> {
    seq![
        ("attribute"@, HighlightKind::Attribute),
        ("comment"@, HighlightKind::Comment),
        ("constant"@, HighlightKind::Constant),
        ("constant.builtin"@, HighlightKind::Constant),
        ("constructor"@, HighlightKind::Function),
        ("function"@, HighlightKind::Function),
        ("function.macro"@, HighlightKind::Function),
        ("function.method"@, HighlightKind::Function),
        ("keyword"@, HighlightKind::Keyword),
        ("label"@, HighlightKind::Constant),
        ("number"@, HighlightKind::Number),
        ("operator"@, HighlightKind::Punctuation),
        ("property"@, HighlightKind::Variable),
        ("punctuation"@, HighlightKind::Punctuation),
        ("string"@, HighlightKind::String),
        ("type"@, HighlightKind::Type),
        ("type.builtin"@, HighlightKind::Type),
        ("variable"@, HighlightKind::Variable),
        ("variable.builtin"@, HighlightKind::Constant),
    ]
}

/// The names of the captures.
pub open spec fn capture_names() -> Seq<Seq<char>> {
    captures().map_values(|c: (Seq<char>, HighlightKind)| c.0)
}

/// The captures with their categories.
fn capture_table() -> (r: Vec<(&'static str, HighlightKind)>)
    ensures
        r@.map_values(|c: (&str, HighlightKind)| (c.0@, c.1)) == captures(),
{
    let r = vec![
        ("attribute", HighlightKind::Attribute),
        ("comment", HighlightKind::Comment),
        ("constant", HighlightKind::Constant),
        ("constant.builtin", HighlightKind::Constant),
        ("constructor", HighlightKind::Function),
        ("function", HighlightKind::Function),
        ("function.macro", HighlightKind::Function),
        ("function.method", HighlightKind::Function),
        ("keyword", HighlightKind::Keyword),
        ("label", HighlightKind::Constant),
        ("number", HighlightKind::Number),
        ("operator", HighlightKind::Punctuation),
        ("property", HighlightKind::Variable),
        ("punctuation", HighlightKind::Punctuation),
        ("string", HighlightKind::String),
        ("type", HighlightKind::Type),
        ("type.builtin", HighlightKind::Type),
        ("variable", HighlightKind::Variable),
        ("variable.builtin", HighlightKind::Constant),
    ];
    assert(r@.map_values(|c: (&str, HighlightKind)| (c.0@, c.1)) =~= captures());
    r
}

/// What the grammar's parser reports.
#[derive(Clone, Copy, Debug, PartialEq, Eq, Structural)]
pub enum Mark {
    /// The capture with this index starts.
    Start(usize),
    /// The innermost capture ends.
    End,
    /// A part of the source.
    Source(usize, usize),
    /// The parser failed.
    Failed,
}

/// The spans that the marks from `i` on make, where `stack` holds the captures that are open.
pub open spec fn collected(marks: Seq<Mark>, i: nat, stack: Seq<HighlightKind>) -> Seq<Span>
    decreases marks.len() - i,
{
    if i >= marks.len() {
        Seq::empty()
    } else {
        match marks[i as int] {
            Mark::Start(index) => collected(
                marks,
                i + 1,
                if index < captures().len() {
                    stack.push(captures()[index as int].1)
                } else {
                    stack
                },
            ),
            Mark::End => collected(
                marks,
                i + 1,
                if stack.len() > 0 {
                    stack.drop_last()
                } else {
                    stack
                },
            ),
            Mark::Source(start, end) => if start < end && stack.len() > 0 {
                seq![Span { start, end, value: stack.last() }] + collected(marks, i + 1, stack)
            } else {
                collected(marks, i + 1, stack)
            },
            Mark::Failed => Seq::empty(),
        }
    }
}

/// The spans that some marks make: each part of the source inside a capture, in the category of the
/// innermost one. What follows a failure is left out.
pub fn collect(marks: &[Mark]) -> (r: SpanLayer)
    ensures
        r@ == collected(marks@, 0, Seq::empty()),
{
    let table = capture_table();
    let ghost known = table@.map_values(|c: (&str, HighlightKind)| (c.0@, c.1));
    let mut spans: Vec<Span> = Vec::new();
    let mut stack: Vec<HighlightKind> = Vec::new();
    let mut i: usize = 0;
    assert(stack@ =~= Seq::empty());
    assert(spans@ + collected(marks@, 0, stack@) =~= collected(marks@, 0, Seq::empty()));
    while i < marks.len()
        invariant_except_break
            i <= marks@.len(),
            spans@ + collected(marks@, i as nat, stack@) == collected(marks@, 0, Seq::empty()),
        invariant
            known == table@.map_values(|c: (&str, HighlightKind)| (c.0@, c.1)),
            known == captures(),
        ensures
            spans@ == collected(marks@, 0, Seq::empty()),
        decreases marks@.len() - i,
    {
        match marks[i] {
            Mark::Start(index) => {
                assert(known.len() == table@.len());
                if index < table.len() {
                    assert(known[index as int].1 == table@[index as int].1);
                    stack.push(table[index].1);
                }
            },
            Mark::End => {
                let ghost before = stack@;
                stack.pop();
                assert(before.len() > 0 ==> stack@ =~= before.drop_last());
            },
            Mark::Source(start, end) => {
                let n = stack.len();
                if end > start && n > 0 {
                    let span = Span { start, end, value: stack[n - 1] };
                    let ghost before = spans@;
                    let ghost rest = collected(marks@, (i + 1) as nat, stack@);
                    spans.push(span);
                    assert(spans@ + rest =~= before + (seq![span] + rest));
                }
            },
            Mark::Failed => {
                assert(spans@ + Seq::empty() =~= spans@);
                break ;
            },
        }
        i += 1;
        proof {
            if i == marks@.len() {
                assert(spans@ + collected(marks@, i as nat, stack@) =~= spans@);
            }
        }
    }
    SpanLayer { spans }
}

/// The marks that the parser of the Rust grammar reports for a source, with the captures known by
/// `names`; none if it cannot parse.
pub uninterp spec fn rust_marks(names: Seq<Seq<char>>, source: Seq<u8>) -> Option<Seq<Mark>>;

/// `tree_sitter_highlight::Highlighter::highlight`, on the grammar and the query of
/// `tree_sitter_rust` with `names` as the captures to report: the events for a source in order. They
/// depend on the names and the source alone.
#[verifier::external_body]
fn parse_rust(names: &[&str], source: &[u8]) -> (r: Option<Vec<Mark>>)
    ensures
        match r {
            Some(marks) => rust_marks(names@.map_values(|n: &str| n@), source@) == Some(marks@),
            None => rust_marks(names@.map_values(|n: &str| n@), source@) is None,
        },
{
    let (language, query) = (tree_sitter_rust::LANGUAGE.into(), tree_sitter_rust::HIGHLIGHTS_QUERY);
    let mut config = HighlightConfiguration::new(language, "majestic", query, "", "").ok()?;
    config.configure(names);
    let mut highlighter = Highlighter::new();
    let events = highlighter.highlight(&config, source, None, None, |_| None).ok()?;
    Some(events.map(|event| match event {
        Ok(HighlightEvent::HighlightStart(capture)) => Mark::Start(capture.0),
        Ok(HighlightEvent::HighlightEnd) => Mark::End,
        Ok(HighlightEvent::Source { start, end }) => Mark::Source(start, end),
        Err(_) => Mark::Failed,
    }).collect())
}

/// A highlighter for one language.
#[derive(Debug)]
pub struct SyntaxHighlighter {
    names: Vec<&'static str>,
}

impl SyntaxHighlighter {
    /// The names of the captures that are reported.
    pub closed spec fn names(self) -> Seq<Seq<char>> {
        self.names@.map_values(|n: &str| n@)
    }

    /// Whether a path's extension belongs to a language with a grammar.
    pub fn supports(path: &str) -> (r: bool)
        ensures
            r == (extension(path@) == Some("rs"@)),
    {
        let p = chars_of(path);
        match extension_of(p.as_slice()) {
            Some(ext) => chars_are(ext.as_slice(), "rs"),
            None => false,
        }
    }

    /// A highlighter for the language of a path's extension, if it has a grammar.
    pub fn for_path(path: &str) -> (r: Option<Self>)
        ensures
            r is Some == (extension(path@) == Some("rs"@)),
            r is Some ==> r->0.names() == capture_names(),
    {
        if !SyntaxHighlighter::supports(path) {
            return None;
        }
        let table = capture_table();
        let mut names: Vec<&'static str> = Vec::new();
        let ghost known = table@.map_values(|c: (&str, HighlightKind)| (c.0@, c.1));
        let mut i: usize = 0;
        while i < table.len()
            invariant
                i <= table@.len(),
                i == names@.len(),
                known == table@.map_values(|c: (&str, HighlightKind)| (c.0@, c.1)),
                forall|k: int| 0 <= k < i ==> (#[trigger] names@[k])@ == known[k].0,
            decreases table@.len() - i,
        {
            names.push(table[i].0);
            i += 1;
        }
        let r = SyntaxHighlighter { names };
        assert(r.names() =~= capture_names());
        Some(r)
    }

    /// The spans of a source; none if it cannot be parsed.
    pub fn highlight(&mut self, source: &[u8]) -> (r: SpanLayer)
        ensures
            r@ == match rust_marks(old(self).names(), source@) {
                Some(marks) => collected(marks, 0, Seq::empty()),
                None => Seq::empty(),
            },
            final(self).names() == old(self).names(),
    {
        match parse_rust(self.names.as_slice(), source) {
            Some(marks) => collect(marks.as_slice()),
            None => SpanLayer::new(),
        }
    }
}

/// Every span holds at least one byte, and comes from a part of the source that the parser reported.
pub proof fn law_spans_are_parts(marks: Seq<Mark>, i: nat, stack: Seq<HighlightKind>, k: int)
    requires
        0 <= k < collected(marks, i, stack).len(),
    ensures
        ({
            let span = collected(marks, i, stack)[k];
            &&& span.start < span.end
            &&& exists|j: int|
                i <= j < marks.len() && #[trigger] marks[j] == Mark::Source(span.start, span.end)
        }),
    decreases marks.len() - i,
{
    if i < marks.len() {
        match marks[i as int] {
            Mark::Start(index) => {
                law_spans_are_parts(
                    marks,
                    i + 1,
                    if index < captures().len() {
                        stack.push(captures()[index as int].1)
                    } else {
                        stack
                    },
                    k,
                );
            },
            Mark::End => {
                law_spans_are_parts(
                    marks,
                    i + 1,
                    if stack.len() > 0 {
                        stack.drop_last()
                    } else {
                        stack
                    },
                    k,
                );
            },
            Mark::Source(start, end) => {
                if start < end && stack.len() > 0 {
                    if k == 0 {
                        assert(marks[i as int] == Mark::Source(start, end));
                    } else {
                        law_spans_are_parts(marks, i + 1, stack, k - 1);
                    }
                } else {
                    law_spans_are_parts(marks, i + 1, stack, k);
                }
            },
            Mark::Failed => {},
        }
    }
}

/// A byte has the style of the last span that holds it, and the base style where none does.
pub proof fn law_last_span_gives_the_style(
    spans: Seq<Span>,
    n: nat,
    byte: nat,
    base: Style,
    theme: Theme,
    k: int,
)
    requires
        n <= spans.len(),
        -1 <= k < n,
        k >= 0 ==> spans[k].start <= byte < spans[k].end,
        forall|j: int| k < j < n ==> !((#[trigger] spans[j]).start <= byte < spans[j].end),
    ensures
        k >= 0 ==> byte_style(spans, n, byte, base, theme) == style_of(spans[k].value, theme),
        k < 0 ==> byte_style(spans, n, byte, base, theme) == base,
    decreases n,
{
    if n > 0 && k < n - 1 {
        let last = spans[n - 1];
        assert(!(last.start <= byte < last.end));
        law_last_span_gives_the_style(spans, (n - 1) as nat, byte, base, theme, k);
    }
}

/// A part of the source has the category of the innermost capture around it: one that begins is
/// innermost until it ends, and then the one around it is again. A part outside of all captures, and
/// an empty one, has none.
pub proof fn law_innermost_capture_counts(
    marks: Seq<Mark>,
    i: nat,
    outer: Seq<HighlightKind>,
    index: usize,
    start: usize,
    end: usize,
)
    requires
        i + 3 <= marks.len(),
        marks[i as int] == Mark::Start(index),
        marks[i + 1int] == Mark::Source(start, end),
        marks[i + 2int] == Mark::End,
        index < captures().len(),
        start < end,
    ensures
        collected(marks, i, outer) == seq![Span { start, end, value: captures()[index as int].1 }] + collected(
            marks,
            i + 3,
            outer,
        ),
{
    let stack = outer.push(captures()[index as int].1);
    assert(collected(marks, i, outer) == collected(marks, i + 1, stack));
    assert(collected(marks, i + 1, stack) == seq![Span { start, end, value: stack.last() }] + collected(
        marks,
        i + 2,
        stack,
    ));
    assert(collected(marks, i + 2, stack) == collected(marks, i + 3, stack.drop_last()));
    assert(stack.drop_last() =~= outer);
}

/// A part outside of all captures has no span.
pub proof fn law_plain_source_has_no_span(marks: Seq<Mark>, i: nat, start: usize, end: usize)
    requires
        i < marks.len(),
        marks[i as int] == Mark::Source(start, end),
    ensures
        collected(marks, i, Seq::empty()) == collected(marks, i + 1, Seq::empty()),
{
}

} // verus!
