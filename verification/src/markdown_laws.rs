//! What the preview of a Markdown document shows, piece by piece.

use crate::markdown::{code_lines, laid_out, unread, Part, Reading, Tag};
use crate::surface::{width_of, Attrs, Glyphs, Style};
use crate::text::{decimal, find_char, law_find_char_is_first, repeat, split};
use crate::typeset::{
    bars, capped, ink, is_word, law_wrapping_keeps_text, lemma_span_word, plain, without_blanks, Layout, Palette, Run,
};
use vstd::prelude::*;

verus! {

/// A line break of the source never joins the words on its two sides: the next word stands on the
/// same line behind one blank, or on a new line where it does not fit.
pub proof fn law_soft_break_never_joins(r: Reading, w: Seq<char>)
    requires
        r.table is None,
        !r.code,
        is_word(w),
        r.layout.started,
        r.layout.prefix < r.layout.col,
        r.layout.col + 1 + width_of(r.layout.glyphs, w) <= usize::MAX,
    ensures
        ({
            let l = r.layout;
            let x = r.read(Part::SoftBreak).read(Part::Text(w)).layout;
            let run = Run { text: w, style: r.inline_style() };
            if l.col + 1 + width_of(l.glyphs, w) <= l.width {
                &&& x.lines == l.lines
                &&& x.line == l.line.push(Run { text: " "@, style: l.palette.body }).push(run)
            } else {
                &&& x.lines == l.lines.push(l.line)
                &&& x.line.last() == run
            }
        }),
{
    let s = r.read(Part::SoftBreak);
    lemma_span_word(s.layout, w, s.inline_style());
}

/// A forced line break ends the line: what follows it stands on the next one.
pub proof fn law_hard_break_ends_the_line(r: Reading, w: Seq<char>)
    requires
        r.table is None,
        !r.code,
        is_word(w),
        r.layout.started,
    ensures
        ({
            let x = r.read(Part::HardBreak).read(Part::Text(w)).layout;
            &&& x.lines == r.layout.lines.push(r.layout.line)
            &&& x.line.last() == Run { text: w, style: r.inline_style() }
        }),
{
    let s = r.read(Part::HardBreak);
    lemma_span_word(s.layout, w, s.inline_style());
}

/// The lines before a block: those that were there, with the line under way, and one blank line behind
/// them where there are any.
pub open spec fn set_apart(before: Layout, after: Layout) -> bool {
    let there = if before.started {
        before.lines.push(before.line)
    } else {
        before.lines
    };
    &&& !after.started
    &&& after.lines == if there.len() == 0 || there.last().len() == 0 {
        there
    } else {
        there.push(Seq::empty())
    }
}

/// A paragraph, a heading, a list and a code block each begin on a line of their own behind a blank
/// line.
pub proof fn law_blocks_stand_apart(r: Reading, level: usize, first: Option<u64>)
    requires
        r.table is None,
    ensures
        set_apart(r.layout, r.read(Part::Start(Tag::Paragraph)).layout),
        set_apart(r.layout, r.read(Part::Start(Tag::Heading(level))).layout),
        set_apart(r.layout, r.read(Part::Start(Tag::List(first))).layout),
        set_apart(r.layout, r.read(Part::Start(Tag::CodeBlock)).layout),
{
}

/// A paragraph and an item end with their line.
pub proof fn law_paragraph_ends_its_line(r: Reading)
    requires
        r.table is None,
        r.layout.started,
    ensures
        ({
            let p = r.read(Part::End(Tag::Paragraph)).layout;
            let i = r.read(Part::End(Tag::Item)).layout;
            let q = r.read(Part::Start(Tag::BlockQuote)).layout;
            let e = r.read(Part::End(Tag::BlockQuote)).layout;
            &&& p.lines == r.layout.lines.push(r.layout.line) && !p.started
            &&& i.lines == r.layout.lines.push(r.layout.line) && !i.started
            &&& q.lines == r.layout.lines.push(r.layout.line) && !q.started
            &&& e.lines == r.layout.lines.push(r.layout.line) && !e.started
        }),
{
}

/// A thematic break is a rule of the full width between blank lines.
pub proof fn law_rule_stands_between_blanks(r: Reading)
    requires
        r.table is None,
    ensures
        ({
            let l = r.layout;
            let x = r.read(Part::Rule).layout;
            let n = x.lines.len();
            let rule = Run { text: Seq::new(l.width, |i: int| '─'), style: l.palette.rule };
            &&& !x.started
            &&& n >= 2
            &&& x.lines[n - 1].len() == 0
            &&& x.lines[n - 2] == seq![rule]
            &&& set_apart(l, (Layout { lines: x.lines.take(n - 2), ..x }))
        }),
{
    let l = r.layout;
    let x = r.read(Part::Rule).layout;
    let b = l.blanked();
    assert(repeat('─', l.width) =~= Seq::new(l.width, |i: int| '─'));
    assert(b.ruled().lines.len() == b.lines.len() + 1);
    assert(x.lines.len() == b.lines.len() + 2);
    assert(x.lines.take(x.lines.len() - 2) =~= b.lines);
}

/// A heading shows its text in the style of headings. Below the two top levels there is a rule of the
/// full width, below the others there is none, and the text behind it has its own style again.
pub proof fn law_heading_has_its_style_and_rule(r: Reading, level: usize)
    requires
        r.table is None,
        r.layout.started,
    ensures
        ({
            let l = r.layout;
            let s = r.read(Part::Start(Tag::Heading(level)));
            let e = r.read(Part::End(Tag::Heading(level)));
            let rule = Run { text: Seq::new(l.width, |i: int| '─'), style: l.palette.rule };
            &&& s.inline_style() == l.palette.heading
            &&& !e.heading
            &&& !e.layout.started
            &&& e.layout.lines == if level == 0 || level == 1 || level == 2 {
                l.lines.push(l.line).push(seq![rule])
            } else {
                l.lines.push(l.line)
            }
        }),
{
    assert(repeat('─', r.layout.width) =~= Seq::new(r.layout.width, |i: int| '─'));
}

/// Strong text is bold, emphasised text italic, the text of a link or an image in the style of links,
/// and behind its end the style is what it was before.
pub proof fn law_inline_styles(r: Reading)
    requires
        r.table is None,
        !r.heading,
        !r.link,
        r.strong < usize::MAX,
        r.emphasis < usize::MAX,
    ensures
        ({
            let s = r.inline_style();
            let strong = r.read(Part::Start(Tag::Strong));
            let emphasis = r.read(Part::Start(Tag::Emphasis));
            let link = r.read(Part::Start(Tag::Link));
            let image = r.read(Part::Start(Tag::Image));
            let p = r.layout.palette;
            &&& strong.inline_style() == (Style { attrs: Attrs { bold: true, ..s.attrs }, ..s })
            &&& emphasis.inline_style() == (Style { attrs: Attrs { italic: true, ..s.attrs }, ..s })
            &&& r.strong == 0 && r.emphasis == 0 ==> s == p.body && link.inline_style() == p.link
                && image.inline_style() == p.link
            &&& strong.read(Part::End(Tag::Strong)) == r
            &&& emphasis.read(Part::End(Tag::Emphasis)) == r
            &&& link.read(Part::End(Tag::Link)) == r
            &&& image.read(Part::End(Tag::Image)) == r
        }),
{
}

/// Text is set in the style of the place it stands in, inline code in the style of code, and not a
/// character of either is lost.
pub proof fn law_text_is_kept(r: Reading, text: Seq<char>)
    requires
        r.table is None,
        plain(r.layout),
    ensures
        !r.code ==> r.read(Part::Text(text)).layout.ink() == r.layout.ink() + ink(text),
        r.read(Part::Code(text)).layout.ink() == r.layout.ink() + ink(text),
{
    law_wrapping_keeps_text(r.layout, text, r.inline_style());
    law_wrapping_keeps_text(r.layout, text, r.layout.palette.code);
}

/// A word is set in the style of the place it stands in, a word of inline code in the style of code.
pub proof fn law_words_have_their_style(r: Reading, w: Seq<char>)
    requires
        r.table is None,
        is_word(w),
    ensures
        !r.code ==> r.read(Part::Text(w)).layout.line.last() == (Run { text: w, style: r.inline_style() }),
        r.read(Part::Code(w)).layout.line.last() == (Run { text: w, style: r.layout.palette.code }),
{
    lemma_span_word(r.layout, w, r.inline_style());
    lemma_span_word(r.layout, w, r.layout.palette.code);
}

/// The marker of an item stands at the depth of its list, two columns for each list around it, and
/// the further lines of the item stand behind the marker.
pub open spec fn marked_at(r: Reading, x: Reading, marker: Seq<char>, style: Style) -> bool {
    let l = r.layout;
    let base = (2 * (r.lists.len() - 1)) as nat;
    let run = Run { text: marker, style };
    x.layout.marker == Some(
        if base > 0 {
            seq![Run { text: Seq::new(base, |i: int| ' '), style: l.palette.body }, run]
        } else {
            seq![run]
        },
    )
}

/// An item of a list without numbers has a bullet.
pub proof fn law_item_has_a_bullet(r: Reading)
    requires
        r.table is None,
        0 < r.lists.len(),
        r.lists.last() is None,
        2 * r.lists.len() + width_of(r.layout.glyphs, "• "@) <= usize::MAX,
    ensures
        ({
            let x = r.read(Part::Start(Tag::Item));
            &&& marked_at(r, x, "• "@, r.layout.palette.body)
            &&& x.layout.indent == 2 * (r.lists.len() - 1) + width_of(r.layout.glyphs, "• "@)
            &&& x.lists == r.lists
            &&& !x.layout.started
            &&& r.layout.started ==> x.layout.lines == r.layout.lines.push(r.layout.line)
        }),
{
    reveal_strlit("• ");
    let base = (2 * (r.lists.len() - 1)) as nat;
    let x = r.read(Part::Start(Tag::Item));
    assert(repeat(' ', base) =~= Seq::new(base, |i: int| ' '));
    assert(r.list_base() == base);
    let run = Run { text: "• "@, style: r.layout.palette.body };
    if base > 0 {
        assert(x.layout.marker->0 =~= seq![
            Run { text: Seq::new(base, |i: int| ' '), style: r.layout.palette.body },
            run,
        ]);
    } else {
        assert(x.layout.marker->0 =~= seq![run]);
    }
}

/// The items of a numbered list are numbered one after the other, from the number that it starts
/// with.
pub proof fn law_items_are_numbered(r: Reading, n: u64)
    requires
        r.table is None,
        0 < r.lists.len(),
        r.lists.last() == Some(n),
        n < u64::MAX,
        2 * r.lists.len() + width_of(r.layout.glyphs, decimal(n as nat) + ". "@) <= usize::MAX,
    ensures
        ({
            let x = r.read(Part::Start(Tag::Item));
            let marker = decimal(n as nat) + ". "@;
            &&& marked_at(r, x, marker, r.layout.palette.body)
            &&& x.layout.indent == 2 * (r.lists.len() - 1) + width_of(r.layout.glyphs, marker)
            &&& x.lists == r.lists.drop_last().push(Some((n + 1) as u64))
            &&& !x.layout.started
            &&& r.layout.started ==> x.layout.lines == r.layout.lines.push(r.layout.line)
        }),
{
    reveal_strlit(". ");
    let marker = decimal(n as nat) + ". "@;
    let base = (2 * (r.lists.len() - 1)) as nat;
    let x = r.read(Part::Start(Tag::Item));
    assert(repeat(' ', base) =~= Seq::new(base, |i: int| ' '));
    assert(r.list_base() == base);
    assert(marker.len() > 0);
    let run = Run { text: marker, style: r.layout.palette.body };
    if base > 0 {
        assert(x.layout.marker->0 =~= seq![
            Run { text: Seq::new(base, |i: int| ' '), style: r.layout.palette.body },
            run,
        ]);
    } else {
        assert(x.layout.marker->0 =~= seq![run]);
    }
    assert(x.lists =~= r.lists.drop_last().push(Some((n + 1) as u64)));
}

/// A task shows a box in place of the bullet: a ticked one in the style of done tasks, or an empty
/// one.
pub proof fn law_task_shows_its_box(r: Reading)
    requires
        r.table is None,
        0 < r.lists.len(),
        2 * r.lists.len() <= usize::MAX,
    ensures
        marked_at(r, r.read(Part::Task(true)), "☑ "@, r.layout.palette.task_done),
        marked_at(r, r.read(Part::Task(false)), "☐ "@, r.layout.palette.body),
        r.read(Part::Task(true)).layout.lines == r.layout.lines,
        r.read(Part::Task(false)).layout.lines == r.layout.lines,
{
    reveal_strlit("☑ ");
    reveal_strlit("☐ ");
    let base = (2 * (r.lists.len() - 1)) as nat;
    let p = r.layout.palette;
    assert(repeat(' ', base) =~= Seq::new(base, |i: int| ' '));
    assert(r.list_base() == base);
    let done = Run { text: "☑ "@, style: p.task_done };
    let open = Run { text: "☐ "@, style: p.body };
    let blanks = Run { text: Seq::new(base, |i: int| ' '), style: p.body };
    if base > 0 {
        assert(r.read(Part::Task(true)).layout.marker->0 =~= seq![blanks, done]);
        assert(r.read(Part::Task(false)).layout.marker->0 =~= seq![blanks, open]);
    } else {
        assert(r.read(Part::Task(true)).layout.marker->0 =~= seq![done]);
        assert(r.read(Part::Task(false)).layout.marker->0 =~= seq![open]);
    }
}

/// The lists nest: a list that begins is the innermost one, starts with its number, and is gone at
/// its end.
pub proof fn law_lists_nest(r: Reading, first: Option<u64>)
    requires
        r.table is None,
    ensures
        r.read(Part::Start(Tag::List(first))).lists == r.lists.push(first),
        r.lists.len() > 0 ==> r.read(Part::End(Tag::List(first))).lists == r.lists.drop_last(),
{
}

/// A block that ends leaves the reader as it was before the block began, but for the lines. Within a
/// quotation there is one bar more, within a code block the lines are inset by two columns more.
pub proof fn law_blocks_leave_nothing_behind(r: Reading)
    requires
        r.table is None,
        r.quotes < usize::MAX,
        r.layout.indent <= usize::MAX - 2,
        !r.code,
        r.layout.quotes == r.quotes,
    ensures
        ({
            let within = r.read(Part::Start(Tag::CodeBlock));
            let code = within.read(Part::End(Tag::CodeBlock));
            let quoted = r.read(Part::Start(Tag::BlockQuote));
            let quote = quoted.read(Part::End(Tag::BlockQuote));
            &&& within.code && within.layout.indent == r.layout.indent + 2
            &&& quoted.layout.quotes == r.layout.quotes + 1
            &&& code == (Reading { layout: code.layout, ..r })
            &&& code.layout.indent == r.layout.indent
            &&& quote == (Reading { layout: quote.layout, ..r })
            &&& quote.layout.quotes == r.layout.quotes
        }),
{
}

proof fn lemma_two_lines(a: Seq<char>, b: Seq<char>)
    requires
        !a.contains('\n'),
        !b.contains('\n'),
    ensures
        split(a + seq!['\n'] + b, '\n', 0) == seq![a, b],
{
    let t = a + seq!['\n'] + b;
    let n = a.len() as int;
    law_find_char_is_first(t, '\n', 0);
    let p = find_char(t, '\n', 0);
    assert(t[n] == '\n');
    assert(p == n) by {
        if p < n {
            assert(t[p] == a[p]);
            assert(a.contains(a[p]));
        }
    }
    law_find_char_is_first(t, '\n', n + 1);
    let q = find_char(t, '\n', n + 1);
    assert(q == t.len()) by {
        if q < t.len() {
            assert(t[q] == b[q - n - 1]);
            assert(b.contains(b[q - n - 1]));
        }
    }
    assert(t.subrange(0, n) =~= a);
    assert(t.skip(n + 1) =~= b);
    assert(split(t, '\n', n + 1) =~= seq![b]);
    assert(split(t, '\n', 0) =~= seq![a, b]);
}

/// Each line of a code block is shown on a line of its own, as it is and in the style of code.
pub proof fn law_code_is_shown_as_it_is(r: Reading, a: Seq<char>, b: Seq<char>)
    requires
        r.table is None,
        r.code,
        !r.layout.started,
        r.layout.marker is None,
        r.layout.quotes == 0,
        r.layout.indent > 0,
        !a.contains('\n'),
        !b.contains('\n'),
        a.len() > 0,
        b.len() > 0,
    ensures
        ({
            let l = r.layout;
            let x = r.read(Part::Text(a + seq!['\n'] + b)).layout;
            let blanks = Run { text: Seq::new(l.indent, |i: int| ' '), style: l.palette.body };
            &&& x.lines == l.lines.push(seq![blanks, Run { text: a, style: l.palette.code }])
            &&& x.line == seq![blanks, Run { text: b, style: l.palette.code }]
        }),
{
    let l = r.layout;
    let c = l.palette.code;
    let blanks = Run { text: Seq::new(l.indent, |i: int| ' '), style: l.palette.body };
    assert(repeat(' ', l.indent) =~= Seq::new(l.indent, |i: int| ' '));
    assert(bars(0, l.palette.quote) =~= Seq::<Run>::empty());
    lemma_two_lines(a, b);
    let ls = split(a + seq!['\n'] + b, '\n', 0);
    let one = l.appended(a, c);
    assert(one.line =~= seq![blanks, Run { text: a, style: c }]);
    let two = one.ended().appended(b, c);
    assert(two.line =~= seq![blanks, Run { text: b, style: c }]);
    assert(code_lines(l, ls, 0) == code_lines(one.ended(), ls, 1));
    assert(code_lines(one.ended(), ls, 1) == code_lines(two, ls, 2));
    assert(code_lines(two, ls, 2) == two);
}

/// What is read of a table is its cells, row by row, and the rows up to the end of the head are the
/// head.
pub proof fn law_table_cells_are_kept(r: Reading, text: Seq<char>)
    requires
        r.table is Some,
    ensures
        ({
            let g = r.table->0;
            let begun = r.read(Part::Start(Tag::TableCell)).table->0;
            let more = r.read(Part::Text(text)).table->0;
            let code = r.read(Part::Code(text)).table->0;
            let cell = r.read(Part::End(Tag::TableCell)).table->0;
            let row = r.read(Part::End(Tag::TableRow)).table->0;
            let head = r.read(Part::End(Tag::TableHead)).table->0;
            &&& begun.cell.len() == 0 && begun.row == g.row && begun.rows == g.rows
            &&& more.cell == g.cell + text && more.row == g.row && more.rows == g.rows
            &&& code.cell == g.cell + text && code.row == g.row && code.rows == g.rows
            &&& cell.row == g.row.push(g.cell) && cell.rows == g.rows && cell.cell.len() == 0
            &&& row.rows == g.rows.push(g.row) && row.row.len() == 0 && row.head_rows == g.head_rows
            &&& head.rows == g.rows.push(g.row) && head.row.len() == 0 && head.head_rows
                == head.rows.len()
        }),
{
}

/// A table is set as a whole at its end, and nothing of it before.
pub proof fn law_table_is_set_at_its_end(r: Reading, part: Part)
    requires
        r.table is Some,
    ensures
        part != Part::End(Tag::Table) ==> r.read(part).layout == r.layout && r.read(part).table is Some,
        r.read(Part::End(Tag::Table)).table is None,
        r.read(Part::End(Tag::Table)).layout == r.layout.table(r.table->0.rows, r.table->0.head_rows),
{
}

/// `r` with the piece at `i` of `all` read.
#[verifier::opaque]
spec fn next(r: Reading, all: Seq<Part>, i: nat) -> Reading {
    r.read(all[i as int])
}

/// `r` with the pieces from `i` on read.
#[verifier::opaque]
spec fn rest(r: Reading, all: Seq<Part>, i: nat) -> Reading {
    r.read_all(all, i)
}

proof fn lemma_rest(r: Reading, all: Seq<Part>, i: nat)
    ensures
        i < all.len() ==> rest(r, all, i) == rest(next(r, all, i), all, i + 1),
        i >= all.len() ==> rest(r, all, i) == r,
{
    reveal(next);
    reveal(rest);
}

proof fn lemma_paragraph_begins(r: Reading, all: Seq<Part>, i: nat)
    requires
        all[i as int] == Part::Start(Tag::Paragraph),
        r.table is None,
        !r.layout.started,
        r.layout.lines.len() == 0,
    ensures
        next(r, all, i) == r,
{
    reveal(next);
}

proof fn lemma_paragraph_ends(r: Reading, all: Seq<Part>, i: nat)
    requires
        all[i as int] == Part::End(Tag::Paragraph),
        r.table is None,
        r.layout.started,
        r.layout.line.len() > 0,
    ensures
        next(r, all, i).layout.finished() == without_blanks(r.layout.lines.push(r.layout.line)),
{
    reveal(next);
}

proof fn lemma_first_word(r: Reading, all: Seq<Part>, i: nat, w: Seq<char>)
    requires
        all[i as int] == Part::Text(w),
        is_word(w),
        r.table is None,
        !r.code,
        !r.layout.started,
        r.layout.marker is None,
        r.layout.indent == 0,
        r.layout.quotes == 0,
    ensures
        ({
            let x = next(r, all, i);
            &&& x == r.on(x.layout)
            &&& x.layout == (Layout {
                line: x.layout.line,
                started: true,
                col: x.layout.col,
                prefix: 0,
                space: false,
                ..r.layout
            })
            &&& x.layout.line == Seq::<Run>::empty().push(Run { text: w, style: r.inline_style() })
            &&& x.layout.col == capped(width_of(r.layout.glyphs, w) as int)
        }),
{
    reveal(next);
    lemma_span_word(r.layout, w, r.inline_style());
    assert(bars(0, r.layout.palette.quote) =~= Seq::<Run>::empty());
    let x = next(r, all, i);
    assert(x.layout.line =~= Seq::<Run>::empty().push(Run { text: w, style: r.inline_style() }));
}

proof fn lemma_broken_word(r: Reading, all: Seq<Part>, i: nat, w: Seq<char>)
    requires
        all[i as int] == Part::SoftBreak,
        all[i as int + 1] == Part::Text(w),
        r.table is None,
        !r.code,
        is_word(w),
        r.layout.started,
        r.layout.prefix < r.layout.col,
        r.layout.col + 1 + width_of(r.layout.glyphs, w) <= r.layout.width,
        r.layout.width <= usize::MAX,
    ensures
        ({
            let x = next(next(r, all, i), all, i + 1);
            &&& x.table is None
            &&& x.layout.started
            &&& x.layout.lines == r.layout.lines
            &&& x.layout.line == r.layout.line.push(
                Run { text: " "@, style: r.layout.palette.body },
            ).push(Run { text: w, style: r.inline_style() })
        }),
{
    reveal(next);
    law_soft_break_never_joins(r, w);
    let s = r.read(Part::SoftBreak);
    lemma_span_word(s.layout, w, s.inline_style());
}

/// The display lines of a parsed document.
#[verifier::opaque]
spec fn shown(all: Seq<Part>, width: nat, palette: Palette, glyphs: Glyphs) -> Seq<Seq<Run>> {
    laid_out(all, width, palette, glyphs)
}

proof fn lemma_shown(all: Seq<Part>, width: nat, palette: Palette, glyphs: Glyphs)
    ensures
        shown(all, width, palette, glyphs) == rest(
            unread(width, palette, glyphs),
            all,
            0,
        ).layout.finished(),
{
    reveal(shown);
    reveal(rest);
}

proof fn lemma_one_line(lines: Seq<Seq<Run>>, line: Seq<Run>)
    requires
        lines.len() == 0,
        line.len() > 0,
    ensures
        without_blanks(lines.push(line)).len() == 1,
        without_blanks(lines.push(line))[0] == line,
{
    assert(lines.push(line).last() == line);
}

proof fn lemma_soft_break(
    all: Seq<Part>,
    a: Seq<char>,
    b: Seq<char>,
    width: nat,
    palette: Palette,
    glyphs: Glyphs,
)
    requires
        all.len() == 5,
        all[0] == Part::Start(Tag::Paragraph),
        all[1] == Part::Text(a),
        all[2] == Part::SoftBreak,
        all[3] == Part::Text(b),
        all[4] == Part::End(Tag::Paragraph),
        is_word(a),
        is_word(b),
        width_of(glyphs, a) > 0,
        width_of(glyphs, a) + 1 + width_of(glyphs, b) <= width,
        width <= usize::MAX,
    ensures
        shown(all, width, palette, glyphs).len() == 1,
        shown(all, width, palette, glyphs)[0] == Seq::<Run>::empty().push(
            Run { text: a, style: palette.body },
        ).push(Run { text: " "@, style: palette.body }).push(Run { text: b, style: palette.body }),
{
    let r0 = unread(width, palette, glyphs);
    lemma_shown(all, width, palette, glyphs);
    lemma_rest(r0, all, 0);
    lemma_paragraph_begins(r0, all, 0);
    assert(r0.inline_style() == palette.body);
    let r1 = next(r0, all, 1);
    lemma_rest(r0, all, 1);
    lemma_first_word(r0, all, 1, a);
    let r2 = next(r1, all, 2);
    let r3 = next(r2, all, 3);
    lemma_rest(r1, all, 2);
    lemma_rest(r2, all, 3);
    lemma_broken_word(r1, all, 2, b);
    lemma_rest(r3, all, 4);
    lemma_paragraph_ends(r3, all, 4);
    lemma_rest(next(r3, all, 4), all, 5);
    lemma_one_line(r3.layout.lines, r3.layout.line);
}

/// Two words of a paragraph that the source keeps apart by a line break, and that fit on one line, are
/// shown on one line with one blank between them.
pub proof fn law_soft_break_shows_one_blank(
    a: Seq<char>,
    b: Seq<char>,
    width: nat,
    palette: Palette,
    glyphs: Glyphs,
)
    requires
        is_word(a),
        is_word(b),
        width_of(glyphs, a) > 0,
        width_of(glyphs, a) + 1 + width_of(glyphs, b) <= width,
        width <= usize::MAX,
    ensures
        ({
            let lines = laid_out(
                seq![
                    Part::Start(Tag::Paragraph),
                    Part::Text(a),
                    Part::SoftBreak,
                    Part::Text(b),
                    Part::End(Tag::Paragraph),
                ],
                width,
                palette,
                glyphs,
            );
            &&& lines.len() == 1
            &&& lines[0] == seq![
                Run { text: a, style: palette.body },
                Run { text: " "@, style: palette.body },
                Run { text: b, style: palette.body },
            ]
        }),
{
    let all = seq![
        Part::Start(Tag::Paragraph),
        Part::Text(a),
        Part::SoftBreak,
        Part::Text(b),
        Part::End(Tag::Paragraph),
    ];
    lemma_soft_break(all, a, b, width, palette, glyphs);
    reveal(shown);
}

} // verus!
