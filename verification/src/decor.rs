//! What a language server says of a document, as it is shown in the text: problems underlined in
//! the colour of their severity, uses of a symbol tinted, hints between the characters, and folded
//! regions with their interior hidden.

use crate::diagnostic::{covers_offset, span_covers, Diagnostic, Severity};
use crate::fold::FoldRange;
use crate::inlay::InlayHint;
use crate::occurrence::Occurrence;
use crate::surface::{Rgb, Style, Theme};
use crate::syntax::{byte_style, Span};
use crate::text::{char_bytes, chars_of, lemma_offset_mono, lemma_offset_step, offset, utf8_len};
use std::ops::Range;
use vstd::prelude::*;

verus! {

/// The colour of a severity.
#[verifier::allow_in_spec]
pub fn severity_colour(severity: Severity, theme: &Theme) -> Rgb
    returns
        (match severity {
            Severity::Error => theme.error,
            Severity::Warning => theme.accent,
            Severity::Information => theme.info,
            Severity::Hint => theme.success,
        }),
{
    match severity {
        Severity::Error => theme.error,
        Severity::Warning => theme.accent,
        Severity::Information => theme.info,
        Severity::Hint => theme.success,
    }
}

/// The severity of the first problem from `i` on that covers a byte.
pub open spec fn problem_at(all: Seq<Diagnostic>, byte: nat, i: nat) -> Option<Severity>
    decreases all.len() - i,
{
    if i >= all.len() {
        None
    } else if span_covers(all[i as int].range, byte) {
        Some(all[i as int].severity)
    } else {
        problem_at(all, byte, i + 1)
    }
}

/// Whether the first use from `i` on that covers a byte is a write.
pub open spec fn use_at(all: Seq<Occurrence>, byte: nat, i: nat) -> Option<bool>
    decreases all.len() - i,
{
    if i >= all.len() {
        None
    } else if span_covers(all[i as int].range, byte) {
        Some(all[i as int].write)
    } else {
        use_at(all, byte, i + 1)
    }
}

/// What is shown of a document beside its text.
pub struct Look {
    /// The spans of the syntax.
    pub highlights: Seq<Span>,
    /// The problems.
    pub diagnostics: Seq<Diagnostic>,
    /// The hints.
    pub hints: Seq<InlayHint>,
    /// The uses of the symbol under the cursor.
    pub occurrences: Seq<Occurrence>,
}

/// A style with the tint of a use and the underline of a problem. Writes are tinted more strongly.
pub open spec fn decorated(
    style: Style,
    used: Option<bool>,
    problem: Option<Severity>,
    theme: Theme,
) -> Style {
    let tinted = match used {
        Some(write) => Style {
            bg: if write {
                theme.accent
            } else {
                theme.info
            },
            ..style
        },
        None => style,
    };
    match problem {
        Some(severity) => Style { fg: severity_colour(severity, &theme), ..tinted }.underline(),
        None => tinted,
    }
}

impl Look {
    /// The style of the character at a byte.
    pub open spec fn style_at(self, byte: nat, theme: Theme) -> Style {
        decorated(
            byte_style(self.highlights, self.highlights.len(), byte, theme.base_style(), theme),
            use_at(self.occurrences, byte, 0),
            problem_at(self.diagnostics, byte, 0),
            theme,
        )
    }
}

/// The muted style of hints and of the marker of a folded region.
#[verifier::allow_in_spec]
pub fn muted(theme: &Theme) -> Style
    returns
        Style::new(theme.info, theme.background).italic(),
{
    Style::new(theme.info, theme.background).italic()
}

/// The texts of the hints from `i` on that are shown just before a byte.
pub open spec fn hint_text(hints: Seq<InlayHint>, byte: nat, i: nat) -> Seq<char>
    decreases hints.len() - i,
{
    if i >= hints.len() {
        Seq::empty()
    } else {
        (if hints[i as int].byte == byte {
            hints[i as int].text@
        } else {
            Seq::empty()
        }) + hint_text(hints, byte, i + 1)
    }
}

/// A line from character `i` on, at the byte `byte`, with its hints between the characters and
/// behind the last one.
pub open spec fn shown_text(hints: Seq<InlayHint>, line: Seq<char>, i: nat, byte: nat) -> Seq<char>
    decreases line.len() - i,
{
    if i >= line.len() {
        hint_text(hints, byte, 0)
    } else {
        hint_text(hints, byte, 0) + seq![line[i as int]] + shown_text(
            hints,
            line,
            i + 1,
            byte + utf8_len(line[i as int]),
        )
    }
}

/// A text in one style.
pub open spec fn styled(t: Seq<char>, style: Style) -> Seq<(char, Style)> {
    t.map_values(|c: char| (c, style))
}

/// The glyphs of a line from character `i` on, at the byte `byte`, with their styles: the hints
/// muted, and each character in its own style.
pub open spec fn shown_glyphs(look: Look, line: Seq<char>, i: nat, byte: nat, theme: Theme) -> Seq<
    (char, Style),
>
    decreases line.len() - i,
{
    let hints = styled(hint_text(look.hints, byte, 0), muted(&theme));
    if i >= line.len() {
        hints
    } else {
        hints + seq![(line[i as int], look.style_at(byte, theme))] + shown_glyphs(
            look,
            line,
            i + 1,
            byte + utf8_len(line[i as int]),
            theme,
        )
    }
}

/// What is drawn of a line is its text with the hints, which the column of the cursor counts.
pub proof fn law_glyphs_show_the_text(look: Look, line: Seq<char>, i: nat, byte: nat, theme: Theme)
    ensures
        shown_glyphs(look, line, i, byte, theme).map_values(|g: (char, Style)| g.0) == shown_text(
            look.hints,
            line,
            i,
            byte,
        ),
    decreases line.len() - i,
{
    let symbol = |g: (char, Style)| g.0;
    let text = hint_text(look.hints, byte, 0);
    let hints = styled(text, muted(&theme));
    assert(hints.map_values(symbol) =~= text);
    if i < line.len() {
        let c = line[i as int];
        let next = byte + utf8_len(c);
        law_glyphs_show_the_text(look, line, i + 1, next, theme);
        let rest = shown_glyphs(look, line, i + 1, next, theme);
        let all = shown_glyphs(look, line, i, byte, theme);
        assert(all.map_values(symbol) =~= hints.map_values(symbol) + seq![c] + rest.map_values(
            symbol,
        ));
    }
}

/// Without hints a line is shown as it is.
pub proof fn law_no_hints_no_change(line: Seq<char>, i: nat, byte: nat)
    requires
        i <= line.len(),
    ensures
        shown_text(Seq::empty(), line, i, byte) == line.skip(i as int),
    decreases line.len() - i,
{
    let none = Seq::<InlayHint>::empty();
    assert(hint_text(none, byte, 0) =~= Seq::empty());
    if i < line.len() {
        let c = line[i as int];
        law_no_hints_no_change(line, i + 1, byte + utf8_len(c));
        assert(line.skip(i as int) =~= seq![c] + line.skip(i + 1int));
        assert(shown_text(none, line, i, byte) =~= seq![c] + line.skip(i + 1int));
    }
}

/// Adds the hints before a byte to a line.
fn add_hints(out: &mut Vec<char>, hints: &[InlayHint], byte: usize)
    ensures
        final(out)@ == old(out)@ + hint_text(hints@, byte as nat, 0),
{
    let mut i: usize = 0;
    assert(out@ + hint_text(hints@, byte as nat, 0) =~= old(out)@ + hint_text(
        hints@,
        byte as nat,
        0,
    ));
    while i < hints.len()
        invariant
            i <= hints@.len(),
            out@ + hint_text(hints@, byte as nat, i as nat) == old(out)@ + hint_text(
                hints@,
                byte as nat,
                0,
            ),
        decreases hints@.len() - i,
    {
        let ghost before = out@;
        let ghost rest = hint_text(hints@, byte as nat, (i + 1) as nat);
        if hints[i].byte == byte {
            let mut text = chars_of(hints[i].text.as_str());
            out.append(&mut text);
            assert(out@ + rest =~= before + (hints@[i as int].text@ + rest));
        } else {
            assert(before + (Seq::<char>::empty() + rest) =~= before + rest);
        }
        i += 1;
    }
    assert(out@ + Seq::<char>::empty() =~= out@);
}

/// A line at the byte `start` as it is shown, with its hints.
pub fn with_hints(hints: &[InlayHint], line: &[char], start: usize) -> (r: Vec<char>)
    requires
        start + offset(line@, line@.len() as int) <= usize::MAX,
    ensures
        r@ == shown_text(hints@, line@, 0, start as nat),
{
    let mut r: Vec<char> = Vec::new();
    let mut byte: usize = start;
    let mut i: usize = 0;
    assert(offset(line@, 0) == 0);
    assert(r@ + shown_text(hints@, line@, 0, start as nat) =~= shown_text(
        hints@,
        line@,
        0,
        start as nat,
    ));
    while i < line.len()
        invariant
            i <= line@.len(),
            byte == start + offset(line@, i as int),
            start + offset(line@, line@.len() as int) <= usize::MAX,
            r@ + shown_text(hints@, line@, i as nat, byte as nat) == shown_text(
                hints@,
                line@,
                0,
                start as nat,
            ),
        decreases line@.len() - i,
    {
        let ghost before = r@;
        let ch = line[i];
        proof {
            lemma_offset_step(line@, i as int);
            lemma_offset_mono(line@, i + 1, line@.len() as int);
        }
        add_hints(&mut r, hints, byte);
        r.push(ch);
        let ghost rest = shown_text(
            hints@,
            line@,
            (i + 1) as nat,
            (byte + utf8_len(ch)) as nat,
        );
        let ghost here = hint_text(hints@, byte as nat, 0);
        assert(r@ + rest =~= before + (here + seq![ch] + rest));
        byte += char_bytes(ch);
        i += 1;
    }
    add_hints(&mut r, hints, byte);
    r
}

/// The severity of the first problem that covers a byte.
fn find_problem(all: &[Diagnostic], byte: usize) -> (r: Option<Severity>)
    ensures
        r == problem_at(all@, byte as nat, 0),
{
    let mut i: usize = 0;
    while i < all.len()
        invariant
            i <= all@.len(),
            problem_at(all@, byte as nat, 0) == problem_at(all@, byte as nat, i as nat),
        decreases all@.len() - i,
    {
        if all[i].covers(byte) {
            return Some(all[i].severity);
        }
        i += 1;
    }
    None
}

/// Whether the first use that covers a byte is a write.
fn find_use(all: &[Occurrence], byte: usize) -> (r: Option<bool>)
    ensures
        r == use_at(all@, byte as nat, 0),
{
    let mut i: usize = 0;
    while i < all.len()
        invariant
            i <= all@.len(),
            use_at(all@, byte as nat, 0) == use_at(all@, byte as nat, i as nat),
        decreases all@.len() - i,
    {
        if all[i].covers(byte) {
            return Some(all[i].write);
        }
        i += 1;
    }
    None
}

/// Adds the hints before a byte to the glyphs of a line.
fn add_hint_glyphs(out: &mut Vec<(char, Style)>, hints: &[InlayHint], byte: usize, theme: &Theme)
    ensures
        final(out)@ == old(out)@ + styled(hint_text(hints@, byte as nat, 0), muted(theme)),
{
    let mut text: Vec<char> = Vec::new();
    add_hints(&mut text, hints, byte);
    assert(text@ =~= hint_text(hints@, byte as nat, 0));
    let style = muted(theme);
    let mut i: usize = 0;
    while i < text.len()
        invariant
            i <= text@.len(),
            style == muted(theme),
            out@ =~= old(out)@ + styled(text@.take(i as int), style),
        decreases text@.len() - i,
    {
        out.push((text[i], style));
        i += 1;
    }
    assert(text@.take(i as int) =~= text@);
}

/// The glyphs of a line at the byte `start`, whose plain styles begin with its first byte.
pub fn glyphs_of(
    line: &[char],
    start: usize,
    styles: &[Style],
    diagnostics: &[Diagnostic],
    hints: &[InlayHint],
    occurrences: &[Occurrence],
    theme: &Theme,
    Ghost(look): Ghost<Look>,
) -> (r: Vec<(char, Style)>)
    requires
        start + offset(line@, line@.len() as int) <= usize::MAX,
        styles@.len() == offset(line@, line@.len() as int),
        look.diagnostics == diagnostics@,
        look.hints == hints@,
        look.occurrences == occurrences@,
        forall|i: int|
            0 <= i < styles@.len() ==> #[trigger] styles@[i] == byte_style(
                look.highlights,
                look.highlights.len(),
                (start + i) as nat,
                theme.base_style(),
                *theme,
            ),
    ensures
        r@ == shown_glyphs(look, line@, 0, start as nat, *theme),
{
    let mut r: Vec<(char, Style)> = Vec::new();
    let mut byte: usize = 0;
    let mut i: usize = 0;
    let ghost all = shown_glyphs(look, line@, 0, start as nat, *theme);
    assert(offset(line@, 0) == 0);
    assert(r@ + all =~= all);
    while i < line.len()
        invariant
            i <= line@.len(),
            byte == offset(line@, i as int),
            start + offset(line@, line@.len() as int) <= usize::MAX,
            styles@.len() == offset(line@, line@.len() as int),
            look.diagnostics == diagnostics@,
            look.hints == hints@,
            look.occurrences == occurrences@,
            forall|i: int|
                0 <= i < styles@.len() ==> #[trigger] styles@[i] == byte_style(
                    look.highlights,
                    look.highlights.len(),
                    (start + i) as nat,
                    theme.base_style(),
                    *theme,
                ),
            r@ + shown_glyphs(look, line@, i as nat, (start + byte) as nat, *theme) == all,
        decreases line@.len() - i,
    {
        let ghost before = r@;
        let ch = line[i];
        proof {
            lemma_offset_step(line@, i as int);
            lemma_offset_mono(line@, i + 1, line@.len() as int);
        }
        add_hint_glyphs(&mut r, hints, start + byte, theme);
        let mut style = styles[byte];
        if let Some(write) = find_use(occurrences, start + byte) {
            style = Style {
                bg: if write {
                    theme.accent
                } else {
                    theme.info
                },
                ..style
            };
        }
        if let Some(severity) = find_problem(diagnostics, start + byte) {
            style = Style { fg: severity_colour(severity, theme), ..style }.underline();
        }
        assert(style == look.style_at((start + byte) as nat, *theme));
        r.push((ch, style));
        let ghost here = styled(
            hint_text(hints@, (start + byte) as nat, 0),
            muted(theme),
        );
        let ghost rest = shown_glyphs(
            look,
            line@,
            (i + 1) as nat,
            (start + byte + utf8_len(ch)) as nat,
            *theme,
        );
        assert(r@ + rest =~= before + (here + seq![(ch, style)] + rest));
        byte += char_bytes(ch);
        i += 1;
    }
    add_hint_glyphs(&mut r, hints, start + byte, theme);
    r
}

/// Whether a span covers a byte of a line, whose end counts with it.
pub open spec fn touches(range: Range<usize>, from: nat, to: nat) -> bool {
    exists|byte: nat| from <= byte <= to && #[trigger] span_covers(range, byte)
}

fn touches_line(range: &Range<usize>, from: usize, to: usize) -> (r: bool)
    requires
        from <= to,
    ensures
        r == touches(*range, from as nat, to as nat),
{
    let first = if range.start < from {
        from
    } else {
        range.start
    };
    let r = first <= to && covers_offset(range, first);
    assert(r ==> span_covers(*range, first as nat));
    r
}

/// The message of the first problem from `i` on in a line from byte `from` to byte `to`.
pub open spec fn line_message(all: Seq<Diagnostic>, from: nat, to: nat, i: nat) -> Option<Seq<char>>
    decreases all.len() - i,
{
    if i >= all.len() {
        None
    } else if touches(all[i as int].range, from, to) {
        Some(all[i as int].message@)
    } else {
        line_message(all, from, to, i + 1)
    }
}

/// The message of the first problem in a line from byte `from` to byte `to`.
pub fn find_message(all: &[Diagnostic], from: usize, to: usize) -> (r: Option<&str>)
    requires
        from <= to,
    ensures
        match r {
            Some(message) => line_message(all@, from as nat, to as nat, 0) == Some(message@),
            None => line_message(all@, from as nat, to as nat, 0) is None,
        },
{
    let mut i: usize = 0;
    while i < all.len()
        invariant
            i <= all@.len(),
            from <= to,
            line_message(all@, from as nat, to as nat, 0) == line_message(
                all@,
                from as nat,
                to as nat,
                i as nat,
            ),
        decreases all@.len() - i,
    {
        if touches_line(&all[i].range, from, to) {
            return Some(all[i].message.as_str());
        }
        i += 1;
    }
    None
}

/// Whether a line is hidden in a folded region.
pub open spec fn hidden(folded: Seq<FoldRange>, line: nat) -> bool {
    exists|i: int| 0 <= i < folded.len() && (#[trigger] folded[i]).covers(line)
}

/// Whether a line is the header of a folded region.
pub open spec fn heads(folded: Seq<FoldRange>, line: nat) -> bool {
    exists|i: int|
        0 <= i < folded.len() && (#[trigger] folded[i]).start == line && folded[i].end > line
}

/// Whether a line is hidden in a folded region.
pub fn is_hidden(folded: &[FoldRange], line: usize) -> (r: bool)
    ensures
        r == hidden(folded@, line as nat),
{
    let mut i: usize = 0;
    while i < folded.len()
        invariant
            i <= folded@.len(),
            forall|k: int| 0 <= k < i ==> !(#[trigger] folded@[k]).covers(line as nat),
        decreases folded@.len() - i,
    {
        if folded[i].hides(line) {
            assert(folded@[i as int].covers(line as nat));
            return true;
        }
        i += 1;
    }
    false
}

/// Whether a line is the header of a folded region.
pub fn is_head(folded: &[FoldRange], line: usize) -> (r: bool)
    ensures
        r == heads(folded@, line as nat),
{
    let mut i: usize = 0;
    while i < folded.len()
        invariant
            i <= folded@.len(),
            forall|k: int|
                0 <= k < i ==> !((#[trigger] folded@[k]).start == line && folded@[k].end > line),
        decreases folded@.len() - i,
    {
        if folded[i].start == line && folded[i].end > line {
            assert(folded@[i as int].start == line);
            return true;
        }
        i += 1;
    }
    false
}

/// The last line up to `line` that is not hidden.
pub open spec fn shown_line(folded: Seq<FoldRange>, line: nat) -> nat
    decreases line,
{
    if line == 0 || !hidden(folded, line) {
        line
    } else {
        shown_line(folded, (line - 1) as nat)
    }
}

/// How many lines from `from` on and before `to` are not hidden.
pub open spec fn shown_between(folded: Seq<FoldRange>, from: nat, to: nat) -> nat
    decreases to,
{
    if from >= to {
        0
    } else {
        shown_between(folded, from, (to - 1) as nat) + if hidden(folded, (to - 1) as nat) {
            0nat
        } else {
            1
        }
    }
}

/// The line that is `n` shown lines above `line`, or the first one.
pub open spec fn line_above(folded: Seq<FoldRange>, line: nat, n: nat) -> nat
    decreases n,
{
    if n == 0 || line == 0 {
        line
    } else {
        line_above(folded, shown_line(folded, (line - 1) as nat), (n - 1) as nat)
    }
}

/// The last line up to `line` that is not hidden.
pub fn find_shown_line(folded: &[FoldRange], line: usize) -> (r: usize)
    ensures
        r == shown_line(folded@, line as nat),
        r <= line,
{
    let mut at = line;
    while at > 0 && is_hidden(folded, at)
        invariant
            at <= line,
            shown_line(folded@, line as nat) == shown_line(folded@, at as nat),
        decreases at,
    {
        at -= 1;
    }
    at
}

/// How many lines from `from` on and before `to` are not hidden.
pub fn count_shown(folded: &[FoldRange], from: usize, to: usize) -> (r: usize)
    ensures
        r == shown_between(folded@, from as nat, to as nat),
        from <= to ==> r <= to - from,
{
    let mut r: usize = 0;
    let mut at = from;
    while at < to
        invariant
            from <= to ==> from <= at <= to,
            from > to ==> at == from,
            r == shown_between(folded@, from as nat, at as nat),
            r <= at - from,
        decreases to - at,
    {
        if !is_hidden(folded, at) {
            r += 1;
        }
        at += 1;
    }
    r
}

/// The line that is `n` shown lines above `line`, or the first one.
pub fn find_line_above(folded: &[FoldRange], line: usize, n: usize) -> (r: usize)
    ensures
        r == line_above(folded@, line as nat, n as nat),
{
    let mut at = line;
    let mut left = n;
    while left > 0 && at > 0
        invariant
            line_above(folded@, line as nat, n as nat) == line_above(
                folded@,
                at as nat,
                left as nat,
            ),
        decreases left,
    {
        at = find_shown_line(folded, at - 1);
        left -= 1;
    }
    at
}

proof fn lemma_shown_line(folded: Seq<FoldRange>, line: nat)
    ensures
        shown_line(folded, line) <= line,
        forall|k: nat| shown_line(folded, line) < k <= line ==> #[trigger] hidden(folded, k),
        !hidden(folded, shown_line(folded, line)),
    decreases line,
{
    if line == 0 {
        assert(!hidden(folded, 0));
    } else if hidden(folded, line) {
        lemma_shown_line(folded, (line - 1) as nat);
    }
}

proof fn lemma_shown_joins(folded: Seq<FoldRange>, a: nat, b: nat, c: nat)
    requires
        a <= b <= c,
    ensures
        shown_between(folded, a, c) == shown_between(folded, a, b) + shown_between(folded, b, c),
    decreases c,
{
    if b < c {
        lemma_shown_joins(folded, a, b, (c - 1) as nat);
    }
}

proof fn lemma_hidden_run(folded: Seq<FoldRange>, a: nat, b: nat)
    requires
        forall|k: nat| a <= k < b ==> #[trigger] hidden(folded, k),
    ensures
        shown_between(folded, a, b) == 0,
    decreases b,
{
    if a < b {
        assert(hidden(folded, (b - 1) as nat));
        lemma_hidden_run(folded, a, (b - 1) as nat);
    }
}

/// From the line that is `n` shown lines above another one, no more than `n` lines are shown up to
/// it; it is not below it, and it is itself shown if the other one is.
pub proof fn law_lines_above(folded: Seq<FoldRange>, line: nat, n: nat)
    ensures
        line_above(folded, line, n) <= line,
        shown_between(folded, line_above(folded, line, n), line) <= n,
        !hidden(folded, line) ==> !hidden(folded, line_above(folded, line, n)),
    decreases n,
{
    if n > 0 && line > 0 {
        let p = shown_line(folded, (line - 1) as nat);
        lemma_shown_line(folded, (line - 1) as nat);
        law_lines_above(folded, p, (n - 1) as nat);
        let top = line_above(folded, line, n);
        lemma_shown_joins(folded, top, p, line);
        lemma_shown_joins(folded, p, p + 1, line);
        lemma_hidden_run(folded, p + 1, line);
        assert(shown_between(folded, p, p + 1) <= 1) by {
            assert(shown_between(folded, p, p) == 0);
        }
    }
}

/// While nothing is folded every line is shown.
pub proof fn law_nothing_folded(line: nat, n: nat)
    ensures
        shown_line(Seq::empty(), line) == line,
        shown_between(Seq::empty(), n, line) == if n <= line {
            line - n
        } else {
            0
        },
        line_above(Seq::empty(), line, n) == if n <= line {
            line - n
        } else {
            0
        },
    decreases line + n,
{
    let none = Seq::<FoldRange>::empty();
    assert(!hidden(none, line));
    if n < line {
        law_nothing_folded((line - 1) as nat, n);
        assert(!hidden(none, (line - 1) as nat));
    }
    if n > 0 && line > 0 {
        law_nothing_folded((line - 1) as nat, (n - 1) as nat);
        assert(!hidden(none, (line - 1) as nat));
    }
}

/// The innermost foldable region among the first `n` that holds a line; the first of equal ones.
pub open spec fn innermost(folds: Seq<FoldRange>, line: nat, n: nat) -> Option<FoldRange>
    decreases n,
{
    if n == 0 || n > folds.len() {
        None
    } else {
        let f = folds[n - 1];
        let best = innermost(folds, line, (n - 1) as nat);
        if f.start < f.end && f.start <= line <= f.end && (match best {
            Some(b) => f.end - f.start < b.end - b.start,
            None => true,
        }) {
            Some(f)
        } else {
            best
        }
    }
}

/// The innermost foldable region that holds a line.
pub fn find_innermost(folds: &[FoldRange], line: usize) -> (r: Option<FoldRange>)
    ensures
        r == innermost(folds@, line as nat, folds@.len()),
        r matches Some(f) ==> f.start < f.end && f.start <= line <= f.end,
{
    let mut best: Option<FoldRange> = None;
    let mut i: usize = 0;
    while i < folds.len()
        invariant
            i <= folds@.len(),
            best == innermost(folds@, line as nat, i as nat),
            best matches Some(f) ==> f.start < f.end && f.start <= line <= f.end,
        decreases folds@.len() - i,
    {
        let f = folds[i];
        let better = match best {
            Some(b) => f.start < f.end && f.end - f.start < b.end - b.start,
            None => true,
        };
        if f.start < f.end && f.start <= line && line <= f.end && better {
            best = Some(f);
        }
        i += 1;
    }
    best
}

/// Those of the first `n` folded regions that are not `f`.
pub open spec fn others(folded: Seq<FoldRange>, f: FoldRange, n: nat) -> Seq<FoldRange>
    decreases n,
{
    if n == 0 || n > folded.len() {
        Seq::empty()
    } else {
        let before = others(folded, f, (n - 1) as nat);
        if folded[n - 1] == f {
            before
        } else {
            before.push(folded[n - 1])
        }
    }
}

/// The folded regions other than `f`.
pub fn without(folded: &[FoldRange], f: FoldRange) -> (r: Vec<FoldRange>)
    ensures
        r@ == others(folded@, f, folded@.len()),
{
    let mut r: Vec<FoldRange> = Vec::new();
    let mut i: usize = 0;
    while i < folded.len()
        invariant
            i <= folded@.len(),
            r@ == others(folded@, f, i as nat),
        decreases folded@.len() - i,
    {
        if folded[i] != f {
            r.push(folded[i]);
        }
        i += 1;
    }
    r
}

/// Those of the first `n` folded regions that are among `folds`.
pub open spec fn still(folded: Seq<FoldRange>, folds: Seq<FoldRange>, n: nat) -> Seq<FoldRange>
    decreases n,
{
    if n == 0 || n > folded.len() {
        Seq::empty()
    } else {
        let before = still(folded, folds, (n - 1) as nat);
        if folds.contains(folded[n - 1]) {
            before.push(folded[n - 1])
        } else {
            before
        }
    }
}

/// Whether a region is on a list.
pub fn is_among(folds: &[FoldRange], f: FoldRange) -> (r: bool)
    ensures
        r == folds@.contains(f),
{
    let mut i: usize = 0;
    while i < folds.len()
        invariant
            i <= folds@.len(),
            forall|k: int| 0 <= k < i ==> folds@[k] != f,
        decreases folds@.len() - i,
    {
        if folds[i] == f {
            return true;
        }
        i += 1;
    }
    false
}

/// The folded regions that are among `folds`.
pub fn kept(folded: &[FoldRange], folds: &[FoldRange]) -> (r: Vec<FoldRange>)
    ensures
        r@ == still(folded@, folds@, folded@.len()),
{
    let mut r: Vec<FoldRange> = Vec::new();
    let mut i: usize = 0;
    while i < folded.len()
        invariant
            i <= folded@.len(),
            r@ == still(folded@, folds@, i as nat),
        decreases folded@.len() - i,
    {
        if is_among(folds, folded[i]) {
            r.push(folded[i]);
        }
        i += 1;
    }
    r
}

/// Folding a region and unfolding it gives back what was folded before.
pub proof fn law_unfolding_undoes_folding(folded: Seq<FoldRange>, f: FoldRange)
    requires
        !folded.contains(f),
    ensures
        folded.push(f).contains(f),
        others(folded.push(f), f, (folded.len() + 1) as nat) == folded,
{
    let more = folded.push(f);
    assert(more[folded.len() as int] == f);
    lemma_others(folded, f, folded.len());
    assert(folded.take(folded.len() as int) =~= folded);
}

proof fn lemma_others(folded: Seq<FoldRange>, f: FoldRange, n: nat)
    requires
        !folded.contains(f),
        n <= folded.len(),
    ensures
        others(folded.push(f), f, n) == folded.take(n as int),
    decreases n,
{
    if n > 0 {
        lemma_others(folded, f, (n - 1) as nat);
        assert(folded.push(f)[n - 1] == folded[n - 1]);
        assert(folded.contains(folded[n - 1]));
        assert(folded.take(n as int) =~= folded.take(n - 1).push(folded[n - 1]));
    } else {
        assert(folded.take(0) =~= Seq::empty());
    }
}

/// The problem shown at a byte is the first that covers it, and there is one wherever one covers it.
pub proof fn law_first_problem_is_shown(all: Seq<Diagnostic>, byte: nat, i: nat, k: int)
    requires
        i <= k < all.len(),
        span_covers(all[k].range, byte),
        forall|j: int| i <= j < k ==> !span_covers((#[trigger] all[j]).range, byte),
    ensures
        problem_at(all, byte, i) == Some(all[k].severity),
    decreases k - i,
{
    if i < k {
        assert(!span_covers(all[i as int].range, byte));
        law_first_problem_is_shown(all, byte, i + 1, k);
    }
}

/// Where no problem covers a byte, none is shown there.
pub proof fn law_no_problem_no_mark(all: Seq<Diagnostic>, byte: nat, i: nat)
    requires
        forall|j: int| i <= j < all.len() ==> !span_covers((#[trigger] all[j]).range, byte),
    ensures
        problem_at(all, byte, i) is None,
    decreases all.len() - i,
{
    if i < all.len() {
        law_no_problem_no_mark(all, byte, i + 1);
    }
}

/// The message shown for a line is that of the first problem that covers a byte of it.
pub proof fn law_first_message_is_shown(all: Seq<Diagnostic>, from: nat, to: nat, i: nat, k: int, byte: nat)
    requires
        i <= k < all.len(),
        from <= byte <= to,
        span_covers(all[k].range, byte),
        forall|j: int| i <= j < k ==> !touches((#[trigger] all[j]).range, from, to),
    ensures
        line_message(all, from, to, i) == Some(all[k].message@),
    decreases k - i,
{
    if i < k {
        assert(!touches(all[i as int].range, from, to));
        law_first_message_is_shown(all, from, to, i + 1, k, byte);
    }
}

/// A problem is underlined in the colour of its severity and leaves the background as it is; a use of
/// the name under the cursor has its own background and leaves the rest as it is; without either the
/// style stays.
pub proof fn law_marks_change_their_part_of_the_style(
    style: Style,
    write: bool,
    used: Option<bool>,
    severity: Severity,
    theme: Theme,
)
    ensures
        decorated(style, None, None, theme) == style,
        decorated(style, used, Some(severity), theme).attrs.underline,
        decorated(style, None, Some(severity), theme).bg == style.bg,
        decorated(style, used, Some(severity), theme).fg == match severity {
            Severity::Error => theme.error,
            Severity::Warning => theme.accent,
            Severity::Information => theme.info,
            Severity::Hint => theme.success,
        },
        decorated(style, Some(true), None, theme) == (Style { bg: theme.accent, ..style }),
        decorated(style, Some(false), None, theme) == (Style { bg: theme.info, ..style }),
{
}

/// A hint is shown before the character at its byte, with the other hints of that byte in order.
pub proof fn law_hints_stand_at_their_byte(hints: Seq<InlayHint>, h: InlayHint, byte: nat, i: nat)
    requires
        i <= hints.len(),
    ensures
        hint_text(hints.push(h), byte, i) == hint_text(hints, byte, i) + if h.byte == byte {
            h.text@
        } else {
            Seq::empty()
        },
    decreases hints.len() - i,
{
    let all = hints.push(h);
    let none = Seq::<char>::empty();
    if i == hints.len() {
        assert(all[i as int] == h);
        assert(hint_text(all, byte, i + 1) == none);
        assert(hint_text(all, byte, i) =~= none + if h.byte == byte {
            h.text@
        } else {
            none
        });
    } else {
        law_hints_stand_at_their_byte(hints, h, byte, i + 1);
        assert(all[i as int] == hints[i as int]);
        let here = if hints[i as int].byte == byte {
            hints[i as int].text@
        } else {
            none
        };
        let last = if h.byte == byte {
            h.text@
        } else {
            none
        };
        assert(here + (hint_text(hints, byte, i + 1) + last) =~= here + hint_text(hints, byte, i + 1)
            + last);
    }
}

/// The region that is folded at a line is the smallest of those that hold it.
pub proof fn law_innermost_is_smallest(folds: Seq<FoldRange>, line: nat, n: nat, k: int)
    requires
        0 <= k < n <= folds.len(),
        folds[k].start < folds[k].end,
        folds[k].start <= line <= folds[k].end,
    ensures
        innermost(folds, line, n) matches Some(f) && f.start <= line <= f.end && f.start < f.end
            && f.end - f.start <= folds[k].end - folds[k].start,
    decreases n,
{
    lemma_innermost_holds(folds, line, (n - 1) as nat);
    if k < n - 1 {
        law_innermost_is_smallest(folds, line, (n - 1) as nat, k);
    }
}

proof fn lemma_innermost_holds(folds: Seq<FoldRange>, line: nat, n: nat)
    requires
        n <= folds.len(),
    ensures
        innermost(folds, line, n) matches Some(f) ==> f.start <= line <= f.end && f.start < f.end,
    decreases n,
{
    if n > 0 {
        lemma_innermost_holds(folds, line, (n - 1) as nat);
    }
}

} // verus!
