//! The Markdown reader of the document preview: a source becomes styled display lines.
//!
//! [`layout`] has the source parsed by `pulldown-cmark` with GitHub's extensions and drives a
//! [`LineBuilder`] with the pieces ([`lay_out`]): headings in bold with a rule below the top levels,
//! code and links in their styles, quotations barred, bullet, numbered and task lists, code blocks
//! and tables as aligned columns. Struck-through text is drawn plain; HTML, footnotes and formulas
//! are left out.

use crate::surface::{width_of, Attrs, Glyphs, Style};
use crate::text::{
    chars_of, decimal, decimal_of, split, split_at_char, string_of, strings, texts,
};
use crate::typeset::{
    capped, cells, empty_layout, marker_line, marker_runs, next_number, pages, render_table,
    text_width, Layout, Line, LineBuilder, Palette, Run,
};
use pulldown_cmark::{Event, Options, Parser, TagEnd};
use vstd::prelude::*;

verus! {

/// Columns of indent for each level of lists.
pub const INDENT: usize = 2;

/// Columns that a code block is inset by.
pub const CODE_INDENT: usize = 2;

/// What a piece starts or ends.
#[derive(Clone, Copy, Debug, PartialEq, Eq, Structural)]
pub enum Tag {
    /// A paragraph.
    Paragraph,
    /// A heading of the given level.
    Heading(usize),
    /// A quotation.
    BlockQuote,
    /// A code block.
    CodeBlock,
    /// A list: numbered from the given number on, or of bullets.
    List(Option<u64>),
    /// A list item.
    Item,
    /// A table.
    Table,
    /// The head row of a table.
    TableHead,
    /// A row of a table.
    TableRow,
    /// A cell of a table.
    TableCell,
    /// Emphasised text.
    Emphasis,
    /// Strong text.
    Strong,
    /// A link.
    Link,
    /// An image, whose text stands for it.
    Image,
    /// Anything else.
    Other,
}

/// One piece of a parsed document.
#[derive(Clone, Debug, PartialEq, Eq)]
pub enum Piece {
    /// Something starts.
    Start(Tag),
    /// Something ends.
    End(Tag),
    /// Text.
    Text(String),
    /// Inline code.
    Code(String),
    /// A forced line break.
    HardBreak,
    /// A line break of the source.
    SoftBreak,
    /// A thematic break.
    Rule,
    /// The box of a task, checked or not.
    Task(bool),
    /// Anything else.
    Other,
}

/// The contents of a [`Piece`].
pub enum Part {
    /// Something starts.
    Start(Tag),
    /// Something ends.
    End(Tag),
    /// Text.
    Text(Seq<char>),
    /// Inline code.
    Code(Seq<char>),
    /// A forced line break.
    HardBreak,
    /// A line break of the source.
    SoftBreak,
    /// A thematic break.
    Rule,
    /// The box of a task, checked or not.
    Task(bool),
    /// Anything else.
    Other,
}

impl View for Piece {
    type V = Part;

    open spec fn view(&self) -> Part {
        match *self {
            Piece::Start(tag) => Part::Start(tag),
            Piece::End(tag) => Part::End(tag),
            Piece::Text(text) => Part::Text(text@),
            Piece::Code(text) => Part::Code(text@),
            Piece::HardBreak => Part::HardBreak,
            Piece::SoftBreak => Part::SoftBreak,
            Piece::Rule => Part::Rule,
            Piece::Task(checked) => Part::Task(checked),
            Piece::Other => Part::Other,
        }
    }
}

/// The contents of a list of pieces.
pub open spec fn parts(v: Seq<Piece>) -> Seq<Part> {
    v.map_values(|p: Piece| p@)
}

/// The parser's event, which [`shape`] tells apart.
#[verifier::external_type_specification]
#[verifier::external_body]
pub struct ExEvent<'a>(pulldown_cmark::Event<'a>);

/// The parser's tag, which [`tag_of`] tells apart.
#[verifier::external_type_specification]
#[verifier::external_body]
pub struct ExTagEnd(pulldown_cmark::TagEnd);

/// An event of the parser, with the tag of what starts or ends. A list that starts stands apart, as
/// its tag alone does not tell how it is numbered.
enum Shape {
    Start(Tag),
    List(Option<u64>),
    End(Tag),
    Text(String),
    Code(String),
    HardBreak,
    SoftBreak,
    Rule,
    Task(bool),
    Other,
}

/// `pulldown_cmark::TagEnd`: one tag for each variant that the preview tells apart. The outside type
/// is opaque, so nothing is stated of which variant gives which tag.
#[verifier::external_body]
fn tag_of(end: TagEnd) -> (r: Tag) {
    match end {
        TagEnd::Paragraph => Tag::Paragraph,
        TagEnd::Heading(level) => Tag::Heading(level as usize),
        TagEnd::BlockQuote(_) => Tag::BlockQuote,
        TagEnd::CodeBlock => Tag::CodeBlock,
        TagEnd::List(_) => Tag::List(None),
        TagEnd::Item => Tag::Item,
        TagEnd::Table => Tag::Table,
        TagEnd::TableHead => Tag::TableHead,
        TagEnd::TableRow => Tag::TableRow,
        TagEnd::TableCell => Tag::TableCell,
        TagEnd::Emphasis => Tag::Emphasis,
        TagEnd::Strong => Tag::Strong, TagEnd::Link => Tag::Link,
        TagEnd::Image => Tag::Image, _ => Tag::Other,
    }
}

/// `pulldown_cmark::Event`: one shape for each variant that the preview tells apart, with its text.
/// The outside type is opaque, so nothing is stated of which variant gives which shape.
#[verifier::external_body]
fn shape(event: Event<'_>) -> (r: Shape) {
    match event {
        Event::Start(pulldown_cmark::Tag::List(first)) => Shape::List(first),
        Event::Start(tag) => Shape::Start(tag_of(tag.to_end())),
        Event::End(tag) => Shape::End(tag_of(tag)),
        Event::Text(text) => Shape::Text(text.into_string()),
        Event::Code(text) => Shape::Code(text.into_string()),
        Event::HardBreak => Shape::HardBreak,
        Event::SoftBreak => Shape::SoftBreak,
        Event::Rule => Shape::Rule,
        Event::TaskListMarker(checked) => Shape::Task(checked),
        _ => Shape::Other,
    }
}

impl Shape {
    /// What the preview is told of an event.
    spec fn part(self) -> Part {
        match self {
            Shape::Start(tag) => Part::Start(tag),
            Shape::List(first) => Part::Start(Tag::List(first)),
            Shape::End(tag) => Part::End(tag),
            Shape::Text(text) => Part::Text(text@),
            Shape::Code(text) => Part::Code(text@),
            Shape::HardBreak => Part::HardBreak,
            Shape::SoftBreak => Part::SoftBreak,
            Shape::Rule => Part::Rule,
            Shape::Task(checked) => Part::Task(checked),
            Shape::Other => Part::Other,
        }
    }

    /// What the preview is told of an event.
    fn into_piece(self) -> (r: Piece)
        ensures
            r@ == self.part(),
    {
        match self {
            Shape::Start(tag) => Piece::Start(tag),
            Shape::List(first) => Piece::Start(Tag::List(first)),
            Shape::End(tag) => Piece::End(tag),
            Shape::Text(text) => Piece::Text(text),
            Shape::Code(text) => Piece::Code(text),
            Shape::HardBreak => Piece::HardBreak,
            Shape::SoftBreak => Piece::SoftBreak,
            Shape::Rule => Piece::Rule,
            Shape::Task(checked) => Piece::Task(checked),
            Shape::Other => Piece::Other,
        }
    }
}

/// The piece for an event of the parser.
fn piece(event: Event<'_>) -> (r: Piece) {
    shape(event).into_piece()
}

/// The extensions of Markdown that the preview has parsed: tables, footnotes, strikethrough and
/// task lists, as the bits of `pulldown_cmark::Options`.
pub const EXTENSIONS: u32 = 0b11110;

/// The pieces that the parser finds in a source, with the extensions that are set in `options`.
pub uninterp spec fn parsed(source: Seq<char>, options: u32) -> Seq<Part>;

/// `pulldown_cmark::Parser::new_ext`: the events of a source from first to last, each as a piece.
/// They depend on the source and the options alone.
#[verifier::external_body]
fn parse(source: &str, options: u32) -> (r: Vec<Piece>)
    ensures
        parts(r@) == parsed(source@, options),
{
    let options = Options::from_bits_truncate(options);
    Parser::new_ext(source, options).map(|event| piece(event)).collect()
}

/// A table while it is read.
#[verifier::ext_equal]
pub struct Grid {
    /// The rows read so far.
    pub rows: Seq<Seq<Seq<char>>>,
    /// How many of them are head rows.
    pub head_rows: nat,
    /// The cells of the current row.
    pub row: Seq<Seq<char>>,
    /// The text of the current cell.
    pub cell: Seq<char>,
}

/// The state of a Markdown reader.
#[verifier::ext_equal]
pub struct Reading {
    /// The lines so far.
    pub layout: Layout,
    /// How many strong texts the current one is in.
    pub strong: nat,
    /// How many emphasised texts the current one is in.
    pub emphasis: nat,
    /// Whether the current text belongs to a link.
    pub link: bool,
    /// Whether it belongs to a heading.
    pub heading: bool,
    /// Whether it belongs to a code block.
    pub code: bool,
    /// How many quotations it is in.
    pub quotes: nat,
    /// The lists that are open, innermost last: the number of the next item, or none for bullets.
    pub lists: Seq<Option<u64>>,
    /// The table that is being read, if any.
    pub table: Option<Grid>,
}

/// A count less one, if there is any.
pub open spec fn less(n: nat) -> nat {
    if n == 0 {
        0
    } else {
        (n - 1) as nat
    }
}

/// A builder with the lines of a code block from `i` on added, each as it is.
pub open spec fn code_lines(l: Layout, ls: Seq<Seq<char>>, i: nat) -> Layout
    decreases ls.len() - i,
{
    if i >= ls.len() {
        l
    } else {
        let put = l.appended(ls[i as int], l.palette.code);
        code_lines(
            if i + 1 < ls.len() {
                put.ended()
            } else {
                put
            },
            ls,
            i + 1,
        )
    }
}

impl Reading {
    /// With other lines.
    pub open spec fn on(self, layout: Layout) -> Reading {
        Reading { layout, ..self }
    }

    /// The style of the current text.
    pub open spec fn inline_style(self) -> Style {
        let p = self.layout.palette;
        if self.heading {
            p.heading
        } else {
            let base = if self.link {
                p.link
            } else {
                p.body
            };
            Style {
                attrs: Attrs {
                    bold: base.attrs.bold || self.strong > 0,
                    italic: base.attrs.italic || self.emphasis > 0,
                    ..base.attrs
                },
                ..base
            }
        }
    }

    /// The column at which the markers of the innermost list stand.
    pub open spec fn list_base(self) -> nat {
        if self.lists.len() == 0 {
            0
        } else {
            capped(INDENT * (self.lists.len() - 1))
        }
    }

    /// With an item of the innermost list begun.
    pub open spec fn with_item(self) -> Reading {
        let l = self.layout.ended();
        let p = l.palette;
        let base = self.list_base();
        let last = if self.lists.len() > 0 {
            self.lists.last()
        } else {
            None
        };
        let marker = match last {
            Some(number) => decimal(number as nat) + ". "@,
            None => "• "@,
        };
        Reading {
            lists: match last {
                Some(number) => self.lists.update(
                    self.lists.len() - 1,
                    Some(next_number(number)),
                ),
                None => self.lists,
            },
            ..self.on(
                l.marked(marker_runs(base, marker, p.body, p.body)).indented(
                    capped((base + capped(width_of(l.glyphs, marker) as int)) as int),
                ),
            )
        }
    }

    /// With the bullet of the item replaced by the box of a task.
    pub open spec fn with_task(self, checked: bool) -> Reading {
        let p = self.layout.palette;
        self.on(
            self.layout.marked(
                if checked {
                    marker_runs(self.list_base(), "☑ "@, p.body, p.task_done)
                } else {
                    marker_runs(self.list_base(), "☐ "@, p.body, p.body)
                },
            ),
        )
    }

    /// With the start of something read.
    pub open spec fn started(self, tag: Tag) -> Reading {
        let l = self.layout;
        match tag {
            Tag::Paragraph => self.on(l.blanked()),
            Tag::Heading(_) => Reading { heading: true, ..self.on(l.blanked()) },
            Tag::Strong => Reading { strong: capped(self.strong + 1int), ..self },
            Tag::Emphasis => Reading { emphasis: capped(self.emphasis + 1int), ..self },
            Tag::Link => Reading { link: true, ..self },
            Tag::Image => Reading { link: true, ..self },
            Tag::List(first) => Reading { lists: self.lists.push(first), ..self.on(l.blanked()) },
            Tag::Item => self.with_item(),
            Tag::CodeBlock => {
                let b = l.blanked();
                Reading {
                    code: true,
                    ..self.on(b.indented(capped(b.indent + CODE_INDENT)))
                }
            },
            Tag::BlockQuote => {
                let quotes = capped(self.quotes + 1int);
                Reading { quotes, ..self.on(l.ended().quoted(quotes)) }
            },
            Tag::Table => Reading {
                table: Some(
                    Grid { rows: Seq::empty(), head_rows: 0, row: Seq::empty(), cell: Seq::empty() },
                ),
                ..self
            },
            _ => self,
        }
    }

    /// With the end of something read.
    pub open spec fn stopped(self, tag: Tag) -> Reading {
        let l = self.layout;
        match tag {
            Tag::Paragraph => self.on(l.ended()),
            Tag::Item => self.on(l.ended()),
            Tag::Heading(level) => Reading {
                heading: false,
                ..self.on(
                    if level <= 2 {
                        l.ended().ruled()
                    } else {
                        l.ended()
                    },
                )
            },
            Tag::Strong => Reading { strong: less(self.strong), ..self },
            Tag::Emphasis => Reading { emphasis: less(self.emphasis), ..self },
            Tag::Link => Reading { link: false, ..self },
            Tag::Image => Reading { link: false, ..self },
            Tag::List(_) => {
                let lists = if self.lists.len() > 0 {
                    self.lists.drop_last()
                } else {
                    self.lists
                };
                Reading {
                    lists,
                    ..self.on(
                        if lists.len() == 0 {
                            l.ended()
                        } else {
                            l
                        },
                    )
                }
            },
            Tag::CodeBlock => {
                let e = l.ended();
                Reading {
                    code: false,
                    ..self.on(
                        e.indented(
                            if e.indent < CODE_INDENT {
                                0
                            } else {
                                (e.indent - CODE_INDENT) as nat
                            },
                        ),
                    )
                }
            },
            Tag::BlockQuote => Reading {
                quotes: less(self.quotes),
                ..self.on(l.ended().quoted(less(self.quotes)))
            },
            _ => self,
        }
    }

    /// With a piece of a table read.
    pub open spec fn tabled(self, part: Part) -> Reading {
        let g = self.table->0;
        match part {
            Part::End(Tag::Table) => Reading {
                table: None,
                ..self.on(self.layout.table(g.rows, g.head_rows))
            },
            _ => Reading {
                table: Some(
                    match part {
                        Part::Start(Tag::TableHead) => Grid { row: Seq::empty(), ..g },
                        Part::Start(Tag::TableRow) => Grid { row: Seq::empty(), ..g },
                        Part::Start(Tag::TableCell) => Grid { cell: Seq::empty(), ..g },
                        Part::Text(text) => Grid { cell: g.cell + text, ..g },
                        Part::Code(text) => Grid { cell: g.cell + text, ..g },
                        Part::End(Tag::TableCell) => Grid {
                            row: g.row.push(g.cell),
                            cell: Seq::empty(),
                            ..g
                        },
                        Part::End(Tag::TableHead) => Grid {
                            rows: g.rows.push(g.row),
                            row: Seq::empty(),
                            head_rows: g.rows.len() + 1,
                            ..g
                        },
                        Part::End(Tag::TableRow) => Grid {
                            rows: g.rows.push(g.row),
                            row: Seq::empty(),
                            ..g
                        },
                        _ => g,
                    },
                ),
                ..self
            },
        }
    }

    /// With a piece read.
    pub open spec fn read(self, part: Part) -> Reading {
        let l = self.layout;
        if self.table is Some {
            self.tabled(part)
        } else {
            match part {
                Part::Start(tag) => self.started(tag),
                Part::End(tag) => self.stopped(tag),
                Part::Text(text) => if self.code {
                    self.on(code_lines(l, split(text, '\n', 0), 0))
                } else {
                    self.on(l.span(text, self.inline_style()))
                },
                Part::Code(text) => self.on(l.span(text, l.palette.code)),
                Part::HardBreak => self.on(l.ended()),
                Part::SoftBreak => self.on(Layout { space: true, ..l }),
                Part::Rule => self.on(l.blanked().ruled().blanked()),
                Part::Task(checked) => self.with_task(checked),
                Part::Other => self,
            }
        }
    }

    /// With the pieces from `i` on read.
    pub open spec fn read_all(self, all: Seq<Part>, i: nat) -> Reading
        decreases all.len() - i,
    {
        if i >= all.len() {
            self
        } else {
            self.read(all[i as int]).read_all(all, i + 1)
        }
    }
}

/// A reader that has read nothing.
pub open spec fn unread(width: nat, palette: Palette, glyphs: Glyphs) -> Reading {
    Reading {
        layout: empty_layout(width, palette, glyphs),
        strong: 0,
        emphasis: 0,
        link: false,
        heading: false,
        code: false,
        quotes: 0,
        lists: Seq::empty(),
        table: None,
    }
}

/// The display lines of a parsed document.
pub open spec fn laid_out(
    all: Seq<Part>,
    width: nat,
    palette: Palette,
    glyphs: Glyphs,
) -> Seq<Seq<Run>> {
    unread(width, palette, glyphs).read_all(all, 0).layout.finished()
}

/// A table while it is read.
struct TableState {
    rows: Vec<Vec<String>>,
    head_rows: usize,
    row: Vec<String>,
    cell: String,
}

impl View for TableState {
    type V = Grid;

    closed spec fn view(&self) -> Grid {
        Grid {
            rows: cells(self.rows@),
            head_rows: self.head_rows as nat,
            row: strings(self.row@),
            cell: self.cell@,
        }
    }
}

/// A Markdown reader.
struct Layouter<'a> {
    builder: LineBuilder<'a>,
    strong: usize,
    emphasis: usize,
    link: bool,
    heading: bool,
    code: bool,
    quotes: usize,
    lists: Vec<Option<u64>>,
    table: Option<TableState>,
}

impl<'a> View for Layouter<'a> {
    type V = Reading;

    closed spec fn view(&self) -> Reading {
        Reading {
            layout: self.builder@,
            strong: self.strong as nat,
            emphasis: self.emphasis as nat,
            link: self.link,
            heading: self.heading,
            code: self.code,
            quotes: self.quotes as nat,
            lists: self.lists@,
            table: match self.table {
                Some(t) => Some(t@),
                None => None,
            },
        }
    }
}

impl TableState {
    fn new() -> (r: Self)
        ensures
            r@ == (Grid {
                rows: Seq::empty(),
                head_rows: 0,
                row: Seq::empty(),
                cell: Seq::empty(),
            }),
    {
        let r = TableState {
            rows: Vec::new(),
            head_rows: 0,
            row: Vec::new(),
            cell: String::new(),
        };
        assert(r@.rows =~= Seq::empty());
        assert(r@.row =~= Seq::empty());
        assert(r@.cell =~= Seq::empty());
        r
    }

    /// Forgets the current row.
    fn clear_row(&mut self)
        ensures
            final(self)@ == (Grid { row: Seq::empty(), ..old(self)@ }),
    {
        self.row = Vec::new();
        assert(self@.row =~= Seq::empty());
    }

    /// Forgets the current cell.
    fn clear_cell(&mut self)
        ensures
            final(self)@ == (Grid { cell: Seq::empty(), ..old(self)@ }),
    {
        self.cell = String::new();
        assert(self@.cell =~= Seq::empty());
    }

    /// Puts the current cell into the current row.
    fn end_cell(&mut self)
        ensures
            final(self)@ == (Grid {
                row: old(self)@.row.push(old(self)@.cell),
                cell: Seq::empty(),
                ..old(self)@
            }),
    {
        self.row.push(self.cell.clone());
        self.cell = String::new();
        assert(self@.row =~= old(self)@.row.push(old(self)@.cell));
        assert(self@.cell =~= Seq::empty());
    }

    /// Puts the current row into the table.
    fn end_row(&mut self)
        ensures
            final(self)@ == (Grid {
                rows: old(self)@.rows.push(old(self)@.row),
                row: Seq::empty(),
                ..old(self)@
            }),
            final(self).rows@.len() == old(self)@.rows.len() + 1,
            final(self).head_rows == old(self).head_rows,
    {
        let mut row: Vec<String> = Vec::new();
        std::mem::swap(&mut self.row, &mut row);
        self.rows.push(row);
        assert(self@.rows =~= old(self)@.rows.push(old(self)@.row));
        assert(self@.row =~= Seq::empty());
    }

    /// Reads a piece of the table.
    fn read(&mut self, piece: &Piece)
        requires
            piece@ != Part::End(Tag::Table),
        ensures
            forall|r: Reading|
                r.table == Some(old(self)@) ==> #[trigger] r.tabled(piece@) == (Reading {
                    table: Some(final(self)@),
                    ..r
                }),
    {
        match piece {
            Piece::Start(tag) => match *tag {
                Tag::TableHead => {
                    self.clear_row();
                },
                Tag::TableRow => {
                    self.clear_row();
                },
                Tag::TableCell => {
                    self.clear_cell();
                },
                _ => {},
            },
            Piece::End(tag) => match *tag {
                Tag::TableCell => {
                    self.end_cell();
                },
                Tag::TableHead => {
                    self.end_row();
                    self.head_rows = self.rows.len();
                },
                Tag::TableRow => {
                    self.end_row();
                },
                _ => {},
            },
            Piece::Text(text) => {
                self.cell.append(text.as_str());
            },
            Piece::Code(text) => {
                self.cell.append(text.as_str());
            },
            _ => {},
        }
    }
}

impl<'a> Layouter<'a> {
    fn new(width: usize, palette: &Palette, glyphs: &'a Glyphs) -> (r: Self)
        ensures
            r@ == unread(width as nat, *palette, *glyphs),
    {
        let r = Layouter {
            builder: LineBuilder::new(width, palette, glyphs),
            strong: 0,
            emphasis: 0,
            link: false,
            heading: false,
            code: false,
            quotes: 0,
            lists: Vec::new(),
            table: None,
        };
        assert(r@.lists =~= Seq::empty());
        r
    }

    /// Reads a piece.
    fn event(&mut self, piece: &Piece)
        ensures
            final(self)@ == old(self)@.read(piece@),
    {
        if self.table.is_some() {
            self.table_event(piece);
            return ;
        }
        let palette = self.builder.palette();
        match piece {
            Piece::Start(tag) => {
                self.start_tag(*tag);
            },
            Piece::End(tag) => {
                self.end_tag(*tag);
            },
            Piece::Text(text) => {
                if self.code {
                    self.code_text(text.as_str());
                } else {
                    let style = self.inline_style();
                    self.builder.push_span(text.as_str(), style);
                }
            },
            Piece::Code(text) => {
                self.builder.push_span(text.as_str(), palette.code);
            },
            Piece::HardBreak => {
                self.builder.end_line();
            },
            Piece::SoftBreak => {
                self.builder.soft_break();
            },
            Piece::Rule => {
                self.builder.blank();
                self.builder.rule();
                self.builder.blank();
            },
            Piece::Task(checked) => {
                self.task_marker(*checked);
            },
            Piece::Other => {},
        }
    }

    fn start_tag(&mut self, tag: Tag)
        requires
            old(self)@.table is None,
        ensures
            final(self)@ == old(self)@.started(tag),
    {
        match tag {
            Tag::Paragraph => {
                self.builder.blank();
            },
            Tag::Heading(_) => {
                self.builder.blank();
                self.heading = true;
            },
            Tag::Strong => {
                self.strong = self.strong.saturating_add(1);
            },
            Tag::Emphasis => {
                self.emphasis = self.emphasis.saturating_add(1);
            },
            Tag::Link => {
                self.link = true;
            },
            Tag::Image => {
                self.link = true;
            },
            Tag::List(first) => {
                self.builder.blank();
                self.lists.push(first);
            },
            Tag::Item => {
                self.start_item();
            },
            Tag::CodeBlock => {
                self.builder.blank();
                self.code = true;
                let indent = self.builder.indent().saturating_add(CODE_INDENT);
                self.builder.set_indent(indent);
            },
            Tag::BlockQuote => {
                self.builder.end_line();
                self.quotes = self.quotes.saturating_add(1);
                self.builder.set_quote_depth(self.quotes);
            },
            Tag::Table => {
                self.table = Some(TableState::new());
            },
            _ => {},
        }
    }

    fn end_tag(&mut self, tag: Tag)
        ensures
            final(self)@ == old(self)@.stopped(tag),
    {
        match tag {
            Tag::Paragraph => {
                self.builder.end_line();
            },
            Tag::Item => {
                self.builder.end_line();
            },
            Tag::Heading(level) => {
                self.end_heading(level);
            },
            Tag::Strong => {
                self.strong = self.strong.saturating_sub(1);
            },
            Tag::Emphasis => {
                self.emphasis = self.emphasis.saturating_sub(1);
            },
            Tag::Link => {
                self.link = false;
            },
            Tag::Image => {
                self.link = false;
            },
            Tag::List(_) => {
                self.end_list();
            },
            Tag::CodeBlock => {
                self.end_code();
            },
            Tag::BlockQuote => {
                self.end_quote();
            },
            _ => {},
        }
    }

    fn end_heading(&mut self, level: usize)
        ensures
            final(self)@ == old(self)@.stopped(Tag::Heading(level)),
    {
        self.builder.end_line();
        self.heading = false;
        if level <= 2 {
            self.builder.rule();
        }
    }

    fn end_code(&mut self)
        ensures
            final(self)@ == old(self)@.stopped(Tag::CodeBlock),
    {
        self.builder.end_line();
        self.code = false;
        let indent = self.builder.indent().saturating_sub(CODE_INDENT);
        self.builder.set_indent(indent);
    }

    fn end_quote(&mut self)
        ensures
            final(self)@ == old(self)@.stopped(Tag::BlockQuote),
    {
        self.builder.end_line();
        self.quotes = self.quotes.saturating_sub(1);
        self.builder.set_quote_depth(self.quotes);
    }

    fn end_list(&mut self)
        ensures
            final(self)@ == old(self)@.stopped(Tag::List(None)),
    {
        self.lists.pop();
        assert(old(self)@.lists.len() > 0 ==> self.lists@ =~= old(self)@.lists.drop_last());
        if self.lists.len() == 0 {
            self.builder.end_line();
        }
    }

    /// The column at which the markers of the innermost list stand.
    fn list_base(&self) -> (r: usize)
        ensures
            r == self@.list_base(),
    {
        let n = self.lists.len();
        if n == 0 {
            0
        } else {
            (n - 1).saturating_add(n - 1)
        }
    }

    /// Begins a list item: its marker, and the indent behind it.
    fn start_item(&mut self)
        ensures
            final(self)@ == old(self)@.with_item(),
    {
        self.builder.end_line();
        let palette = self.builder.palette();
        let base = self.list_base();
        let n = self.lists.len();
        let last = if n > 0 {
            self.lists[n - 1]
        } else {
            None
        };
        let marker = match last {
            Some(number) => {
                let mut marker = decimal_of(number as u128);
                marker.append(". ");
                self.lists.set(n - 1, Some(number.saturating_add(1)));
                marker
            },
            None => "• ".to_owned(),
        };
        let width = text_width(self.builder.glyphs(), marker.as_str());
        self.builder.set_marker(marker_line(base, marker.as_str(), palette.body, palette.body));
        self.builder.set_indent(base.saturating_add(width));
    }

    /// Replaces the bullet of an item by the box of a task.
    fn task_marker(&mut self, checked: bool)
        ensures
            final(self)@ == old(self)@.with_task(checked),
    {
        let palette = self.builder.palette();
        let base = self.list_base();
        let marker = if checked {
            marker_line(base, "☑ ", palette.body, palette.task_done)
        } else {
            marker_line(base, "☐ ", palette.body, palette.body)
        };
        self.builder.set_marker(marker);
    }

    /// Adds the text of a code block, line by line.
    fn code_text(&mut self, text: &str)
        ensures
            final(self)@ == old(self)@.on(
                code_lines(old(self)@.layout, split(text@, '\n', 0), 0),
            ),
    {
        let t = chars_of(text);
        let ls = split_at_char(t.as_slice(), '\n');
        let ghost all = texts(ls@);
        let ghost base = self.builder@;
        let palette = self.builder.palette();
        let mut i: usize = 0;
        while i < ls.len()
            invariant
                i <= ls@.len(),
                all == texts(ls@),
                base == old(self)@.layout,
                palette == self.builder@.palette,
                self@ == old(self)@.on(self.builder@),
                code_lines(base, all, 0) == code_lines(self.builder@, all, i as nat),
            decreases ls@.len() - i,
        {
            assert(all[i as int] == ls@[i as int]@);
            let line = string_of(ls[i].as_slice());
            self.builder.append(line.as_str(), palette.code);
            let next: usize = i + 1;
            if next < ls.len() {
                self.builder.end_line();
            }
            i = next;
        }
    }

    /// The style of the current text.
    fn inline_style(&self) -> (r: Style)
        ensures
            r == self@.inline_style(),
    {
        let palette = self.builder.palette();
        if self.heading {
            return palette.heading;
        }
        let mut style = if self.link {
            palette.link
        } else {
            palette.body
        };
        if self.strong > 0 {
            style = style.bold();
        }
        if self.emphasis > 0 {
            style = style.italic();
        }
        style
    }

    /// Reads a piece of a table; at its end the table is added.
    fn table_event(&mut self, piece: &Piece)
        requires
            old(self)@.table is Some,
        ensures
            final(self)@ == old(self)@.tabled(piece@),
    {
        if let Some(mut table) = self.table.take() {
            if let Piece::End(tag) = piece {
                if *tag == Tag::Table {
                    render_table(&mut self.builder, table.rows.as_slice(), table.head_rows);
                    return ;
                }
            }
            table.read(piece);
            self.table = Some(table);
        }
    }
}

/// Lays parsed Markdown out into display lines of `width` columns.
pub fn lay_out(pieces: &[Piece], width: usize, palette: &Palette, glyphs: &Glyphs) -> (r: Vec<Line>)
    ensures
        pages(r@) == laid_out(parts(pieces@), width as nat, *palette, *glyphs),
{
    let ghost all = parts(pieces@);
    let mut reader = Layouter::new(width, palette, glyphs);
    let ghost start = reader@;
    let mut i: usize = 0;
    while i < pieces.len()
        invariant
            i <= pieces@.len(),
            all == parts(pieces@),
            start.read_all(all, 0) == reader@.read_all(all, i as nat),
        decreases pieces@.len() - i,
    {
        assert(all[i as int] == pieces@[i as int]@);
        reader.event(&pieces[i]);
        i += 1;
    }
    reader.builder.finish()
}

/// Lays a Markdown source out into display lines of `width` columns.
pub fn layout(source: &str, width: usize, palette: &Palette, glyphs: &Glyphs) -> (r: Vec<Line>)
    ensures
        pages(r@) == laid_out(parsed(source@, EXTENSIONS), width as nat, *palette, *glyphs),
{
    let pieces = parse(source, EXTENSIONS);
    lay_out(pieces.as_slice(), width, palette, glyphs)
}

} // verus!
