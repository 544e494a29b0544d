//! What the preview of a Texinfo document shows, block by block.

use crate::surface::{width_of, Style};
use crate::text::{decimal, repeat, trim, trim_end};
use crate::texinfo::{
    argument_of, block_indent, block_quotes, command_of, ends_verbatim, entry_name, inlined, is_honoured, name_of,
    row_cells, Block,
    Columns, Command, Reading,
};
use crate::texinfo_laws::{lemma_bare, no_commands};
use crate::typeset::{
    bars, capped, ink, is_word, law_wrapping_keeps_text, lemma_span_word, marker_runs, plain, Layout, Run,
};
use vstd::prelude::*;

verus! {

proof fn lemma_one_block(blocks: Seq<Block>)
    requires
        blocks.len() == 1,
        blocks[0] != Block::Quotation,
        blocks[0] != Block::Menu,
    ensures
        block_indent(blocks) == 2,
        block_quotes(blocks) == 0,
{
    let none = Seq::<Block>::empty();
    assert(blocks.drop_last() =~= none);
    assert(block_indent(none) == 0);
    assert(block_quotes(none) == 0);
}

/// The first word of a line behind a marker.
proof fn lemma_marked(l: Layout, w: Seq<char>, style: Style)
    requires
        is_word(w),
        no_commands(w),
        !l.started,
        l.marker is Some,
        l.quotes == 0,
    ensures
        ({
            let x = inlined(l, Seq::empty(), w, style);
            &&& x.line == l.marker->0.push(Run { text: w, style })
            &&& x.lines == l.lines
            &&& x.indent == l.indent
            &&& x.started
        }),
{
    lemma_bare(l, w, style);
    lemma_span_word(l, w, style);
    assert(bars(0, l.palette.quote) + l.marker->0 =~= l.marker->0);
}

/// A heading stands on a line of its own behind what was there, in the style of headings, with a rule
/// of the full width below the two top levels and none below the others.
pub proof fn law_heading_shows_its_title(r: Reading, title: Seq<char>, level: nat)
    requires
        is_word(title),
        no_commands(title),
        !r.layout.started,
    ensures
        ({
            let l = r.layout;
            let x = r.headed(title, level).layout;
            let n = x.lines.len();
            let rule = Run { text: Seq::new(l.width, |i: int| '─'), style: l.palette.rule };
            let shown = if level <= 2 {
                n - 2
            } else {
                n - 1
            };
            &&& !x.started
            &&& shown >= l.lines.len()
            &&& x.lines[shown].last() == Run { text: title, style: l.palette.heading }
            &&& level <= 2 ==> x.lines.last() == seq![rule]
            &&& l.lines.len() > 0 && l.lines.last().len() > 0 ==> shown == l.lines.len() + 1
                && x.lines[shown - 1].len() == 0
            &&& forall|i: int| 0 <= i < l.lines.len() ==> #[trigger] x.lines[i] == l.lines[i]
        }),
{
    let b = r.layout.blanked();
    lemma_bare(b, title, b.palette.heading);
    lemma_span_word(b, title, b.palette.heading);
    assert(repeat('─', r.layout.width) =~= Seq::new(r.layout.width, |i: int| '─'));
}

/// A heading command is a heading of its level.
pub proof fn law_heading_command(r: Reading, word: Seq<char>, title: Seq<char>, level: usize)
    requires
        command_of(word) == Command::Heading(level),
    ensures
        r.obeyed(word, title) == r.headed(title, level as nat),
{
}

/// How far a block is inset: two columns for each block around it and itself, but quotations and menus,
/// and each quotation has a bar.
pub proof fn law_blocks_are_inset(blocks: Seq<Block>, block: Block)
    requires
        block_indent(blocks) + 2 <= usize::MAX,
    ensures
        block_indent(blocks.push(block)) == block_indent(blocks) + if block == Block::Quotation || block
            == Block::Menu {
            0nat
        } else {
            2
        },
        block_quotes(blocks.push(block)) == block_quotes(blocks) + if block == Block::Quotation {
            1nat
        } else {
            0
        },
        block_indent(Seq::empty()) == 0,
        block_quotes(Seq::empty()) == 0,
{
    assert(blocks.push(block).drop_last() =~= blocks);
}

/// A block that opens is the innermost one, on a new line at its own inset; where it closes, the text
/// goes on as in the block around it.
pub proof fn law_blocks_open_and_close(r: Reading, block: Block)
    ensures
        ({
            let x = r.opened(block);
            let y = x.closed();
            &&& x.blocks == r.blocks.push(block)
            &&& !x.layout.started
            &&& x.layout.indent == block_indent(r.blocks.push(block))
            &&& x.layout.quotes == block_quotes(r.blocks.push(block))
            &&& y.blocks == r.blocks
            &&& y.layout.indent == block_indent(r.blocks)
            &&& y.layout.quotes == block_quotes(r.blocks)
            &&& !y.layout.started
            &&& y.skip == r.skip && y.table == r.table
        }),
{
    assert(r.blocks.push(block).drop_last() =~= r.blocks);
}

/// Every line of an example is shown on a line of its own, as it is but for the white space at its
/// end, in the style of code.
pub proof fn law_example_is_shown_as_it_is(r: Reading, raw: Seq<char>)
    requires
        r.skip.len() == 0,
        r.blocks.len() > 0,
        r.blocks.last() == Block::Verbatim,
        !ends_verbatim(raw),
        !r.layout.started,
    ensures
        ({
            let x = r.read(raw);
            &&& x.blocks == r.blocks
            &&& !x.layout.started
            &&& x.layout.lines.len() == r.layout.lines.len() + 1
            &&& x.layout.lines.drop_last() == r.layout.lines
            &&& x.layout.lines.last().last() == Run { text: trim_end(raw), style: r.layout.palette.code }
        }),
{
    assert(r.read(raw).layout.lines.drop_last() =~= r.layout.lines);
}

/// The items of a numbered list are numbered one after the other.
pub proof fn law_items_are_numbered(r: Reading, n: u64, w: Seq<char>)
    requires
        r.blocks.len() == 1,
        r.blocks.last() == Block::Enumerate(n),
        n < u64::MAX,
        is_word(w),
        no_commands(w),
    ensures
        ({
            let x = r.with_item(w);
            let p = r.layout.palette;
            &&& x.blocks == r.blocks.drop_last().push(Block::Enumerate((n + 1) as u64))
            &&& x.layout.line == seq![
                Run { text: decimal(n as nat) + ". "@, style: p.body },
                Run { text: w, style: p.body },
            ]
            &&& r.layout.started ==> x.layout.lines == r.layout.lines.push(r.layout.line)
        }),
{
    reveal_strlit(". ");
    let s = r.on(r.layout.ended()).reflowed();
    let p = r.layout.palette;
    lemma_one_block(r.blocks);
    let marker = decimal(n as nat) + ". "@;
    assert(marker.len() > 0);
    let m = s.layout.marked(marker_runs(0, marker, p.body, p.body)).indented(
        capped(width_of(s.layout.glyphs, marker) as int),
    );
    lemma_marked(m, w, p.body);
    let x = r.with_item(w);
    assert(x.layout.line =~= seq![
        Run { text: marker, style: p.body },
        Run { text: w, style: p.body },
    ]);
    assert(x.blocks =~= r.blocks.drop_last().push(Block::Enumerate((n + 1) as u64)));
}

/// An item of a list without numbers has a bullet.
pub proof fn law_item_has_a_bullet(r: Reading, w: Seq<char>)
    requires
        r.blocks.len() == 1,
        r.blocks.last() == Block::Itemize,
        is_word(w),
        no_commands(w),
    ensures
        ({
            let x = r.with_item(w);
            let p = r.layout.palette;
            &&& x.blocks == r.blocks
            &&& x.layout.line == seq![Run { text: "• "@, style: p.body }, Run { text: w, style: p.body }]
            &&& x.layout.indent == 2
            &&& r.layout.started ==> x.layout.lines == r.layout.lines.push(r.layout.line)
        }),
{
    reveal_strlit("• ");
    let s = r.on(r.layout.ended()).reflowed();
    let p = r.layout.palette;
    lemma_one_block(r.blocks);
    let m = s.layout.marked(marker_runs(0, "• "@, p.body, p.body)).indented(2);
    lemma_marked(m, w, p.body);
    let x = r.with_item(w);
    assert(x.layout.line =~= seq![Run { text: "• "@, style: p.body }, Run { text: w, style: p.body }]);
}

/// A term of a table stands on a line of its own in the style of headings, and what explains it is
/// inset by two columns.
pub proof fn law_term_is_a_heading(r: Reading, w: Seq<char>)
    requires
        r.blocks.len() == 1,
        r.blocks.last() == Block::Table,
        is_word(w),
        no_commands(w),
        !r.layout.started,
    ensures
        ({
            let x = r.with_item(w);
            &&& x.blocks == r.blocks
            &&& x.layout.lines == r.layout.lines.push(
                seq![Run { text: w, style: r.layout.palette.heading }],
            )
            &&& !x.layout.started
            &&& x.layout.indent == 2
        }),
{
    let s = r.on(r.layout.ended()).reflowed();
    let p = r.layout.palette;
    lemma_one_block(r.blocks);
    let m = s.layout.marked(marker_runs(0, Seq::empty(), p.body, p.body)).indented(0);
    lemma_marked(m, w, p.heading);
    let y = inlined(m, Seq::empty(), w, p.heading);
    assert(y.line =~= seq![Run { text: w, style: p.heading }]);
}

/// A line of prose is set in the style of the body, and not a character of it is lost.
pub proof fn law_prose_is_kept(r: Reading, raw: Seq<char>)
    requires
        r.skip.len() == 0,
        r.table is None,
        r.blocks.len() == 0,
        trim(raw).len() > 0,
        no_commands(trim(raw)),
        plain(r.layout),
    ensures
        r.read(raw).layout == r.layout.span(trim(raw), r.layout.palette.body),
        r.read(raw).layout.ink() == r.layout.ink() + ink(trim(raw)),
{
    let line = trim(raw);
    assert(line[0] != '@');
    lemma_bare(r.layout, line, r.layout.palette.body);
    law_wrapping_keeps_text(r.layout, line, r.layout.palette.body);
}

/// A blank line ends the paragraph.
pub proof fn law_blank_line_ends_the_paragraph(r: Reading, raw: Seq<char>)
    requires
        r.skip.len() == 0,
        r.table is None,
        r.blocks.len() == 0,
        trim(raw).len() == 0,
        r.layout.started,
        r.layout.line.len() > 0,
    ensures
        r.read(raw).layout.lines == r.layout.lines.push(r.layout.line).push(Seq::empty()),
        !r.read(raw).layout.started,
{
}

/// An entry of a menu shows its name behind a bullet, in the style of links, on a line of its own.
pub proof fn law_menu_entry_is_a_link(r: Reading, line: Seq<char>)
    requires
        r.blocks.len() > 0,
        r.blocks.last() == Block::Menu,
        line.len() > 0,
        line[0] == '*',
        !r.layout.started,
    ensures
        ({
            let x = r.with_prose(line).layout;
            let shown = x.lines.last();
            let p = r.layout.palette;
            &&& !x.started
            &&& x.lines.drop_last() == r.layout.lines
            &&& shown.last() == Run { text: entry_name(line), style: p.link }
            &&& shown.drop_last().last() == Run { text: "• "@, style: p.body }
        }),
{
    let x = r.with_prose(line).layout;
    assert(x.lines.drop_last() =~= r.layout.lines);
    let one = r.layout.appended("• "@, r.layout.palette.body);
    assert(x.lines.last().drop_last() =~= one.line);
}

/// A row of a table with columns is kept; a head row also counts as one of the head.
pub proof fn law_table_rows_are_kept(r: Reading, line: Seq<char>)
    requires
        r.table is Some,
        line.len() > 0,
        line[0] == '@',
        r.table->0.head_rows < usize::MAX,
    ensures
        ({
            let t = r.table->0;
            let word = name_of(line.skip(1));
            let cells = row_cells(argument_of(line.skip(1)));
            let x = r.with_table_line(line);
            &&& word == "item"@ ==> x.table == Some(Columns { rows: t.rows.push(cells), head_rows: t.head_rows })
            &&& word == "headitem"@ ==> x.table == Some(
                Columns { rows: t.rows.push(cells), head_rows: t.head_rows + 1 },
            )
            &&& word == "item"@ || word == "headitem"@ ==> x.layout == r.layout && x.blocks == r.blocks
        }),
{
    reveal_strlit("item");
    reveal_strlit("headitem");
    assert("item"@.len() == 4);
    assert("headitem"@.len() == 8);
}

/// The commands of a line: a comment or a setting shows nothing, a block opens, an end closes the
/// innermost block and a section that is honoured anyway ends without a trace, a space leaves a blank
/// line, and prose behind its command is set as it is.
pub proof fn law_commands_are_obeyed(r: Reading, word: Seq<char>, arg: Seq<char>, block: Block)
    requires
        no_commands(arg),
        arg.len() > 0,
    ensures
        ({
            let x = r.obeyed(word, arg);
            let c = command_of(word);
            &&& c is Nothing ==> x == r
            &&& c == Command::Open(block) ==> x.blocks == r.blocks.push(block) && !x.layout.started
            &&& c is End && is_honoured(arg) ==> x == r
            &&& c is End && !is_honoured(arg) && r.blocks.len() > 0 ==> x.blocks == r.blocks.drop_last()
                && !x.layout.started && x.layout.indent == block_indent(r.blocks.drop_last())
            &&& c is Space && r.layout.started && r.layout.line.len() > 0 ==> x.layout.lines
                == r.layout.lines.push(r.layout.line).push(Seq::empty())
            &&& c is Prose ==> x.layout == r.layout.span(arg, r.layout.palette.body)
            &&& c is Skip ==> x.skip == r.skip.push(word) && x.layout == r.layout
            &&& c is Multitable ==> x.table is Some && x.table->0.rows.len() == 0 && x.table->0.head_rows == 0
            &&& c is Definition ==> x.blocks == r.blocks.push(Block::Definition)
        }),
{
    lemma_bare(r.layout, arg, r.layout.palette.body);
}

/// A definition shows what it defines in the style of headings, and what follows is inset.
pub proof fn law_definition_is_a_heading(r: Reading, w: Seq<char>)
    requires
        r.blocks.len() == 0,
        is_word(w),
        no_commands(w),
    ensures
        ({
            let x = r.with_definition(w);
            &&& x.layout.lines.last() == seq![Run { text: w, style: r.layout.palette.heading }]
            &&& !x.layout.started
            &&& x.layout.indent == 2
            &&& x.blocks == seq![Block::Definition]
        }),
{
    let o = r.opened(Block::Definition);
    let p = r.layout.palette;
    assert(o.blocks =~= seq![Block::Definition]);
    lemma_one_block(o.blocks);
    let m = o.layout.marked(marker_runs(0, Seq::empty(), p.body, p.body)).indented(0);
    lemma_marked(m, w, p.heading);
    let y = inlined(m, Seq::empty(), w, p.heading);
    assert(y.line =~= seq![Run { text: w, style: p.heading }]);
}

} // verus!
