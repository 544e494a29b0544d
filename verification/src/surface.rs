//! The drawing surface: colours, styles, rectangles and a grid of styled character cells.
//!
//! Everything that the editor shows is drawn onto a [`Surface`], which the host then presents on a
//! terminal. Drawing outside the surface has no effect.

use crate::text::chars_of;
use vstd::prelude::*;

verus! {

/// A colour.
#[derive(Clone, Copy, Debug, PartialEq, Eq, Structural)]
pub struct Rgb {
    /// Red.
    pub r: u8,
    /// Green.
    pub g: u8,
    /// Blue.
    pub b: u8,
}

/// Text attributes.
#[derive(Clone, Copy, Debug, PartialEq, Eq, Structural)]
pub struct Attrs {
    /// Bold.
    pub bold: bool,
    /// Italic.
    pub italic: bool,
    /// Underlined.
    pub underline: bool,
    /// Foreground and background exchanged.
    pub reverse: bool,
}

/// The colours and attributes of a cell.
#[derive(Clone, Copy, Debug, PartialEq, Eq, Structural)]
pub struct Style {
    /// The colour of the glyph.
    pub fg: Rgb,
    /// The colour behind it.
    pub bg: Rgb,
    /// Text attributes.
    pub attrs: Attrs,
}

impl Style {
    /// A plain style.
    #[verifier::allow_in_spec]
    pub fn new(fg: Rgb, bg: Rgb) -> Self
        returns
            (Style {
                fg,
                bg,
                attrs: Attrs { bold: false, italic: false, underline: false, reverse: false },
            }),
    {
        Style {
            fg,
            bg,
            attrs: Attrs { bold: false, italic: false, underline: false, reverse: false },
        }
    }

    /// This style in bold.
    #[verifier::allow_in_spec]
    pub fn bold(self) -> Self
        returns
            (Style { attrs: Attrs { bold: true, ..self.attrs }, ..self }),
    {
        Style { attrs: Attrs { bold: true, ..self.attrs }, ..self }
    }

    /// This style in italic.
    #[verifier::allow_in_spec]
    pub fn italic(self) -> Self
        returns
            (Style { attrs: Attrs { italic: true, ..self.attrs }, ..self }),
    {
        Style { attrs: Attrs { italic: true, ..self.attrs }, ..self }
    }

    /// This style underlined.
    #[verifier::allow_in_spec]
    pub fn underline(self) -> Self
        returns
            (Style { attrs: Attrs { underline: true, ..self.attrs }, ..self }),
    {
        Style { attrs: Attrs { underline: true, ..self.attrs }, ..self }
    }

    /// This style with foreground and background exchanged by the terminal.
    #[verifier::allow_in_spec]
    pub fn reverse(self) -> Self
        returns
            (Style { attrs: Attrs { reverse: true, ..self.attrs }, ..self }),
    {
        Style { attrs: Attrs { reverse: true, ..self.attrs }, ..self }
    }
}

/// The six colours that everything is drawn in.
#[derive(Clone, Copy, Debug, PartialEq, Eq, Structural)]
pub struct Theme {
    /// Behind everything.
    pub background: Rgb,
    /// Plain text.
    pub foreground: Rgb,
    /// Borders, bars and whatever is selected.
    pub accent: Rgb,
    /// Additions and completed tasks.
    pub success: Rgb,
    /// Errors and deletions.
    pub error: Rgb,
    /// Notices and links.
    pub info: Rgb,
}

impl Theme {
    /// Plain text on the background.
    #[verifier::allow_in_spec]
    pub fn base_style(&self) -> Style
        returns
            Style::new(self.foreground, self.background),
    {
        Style::new(self.foreground, self.background)
    }

    /// The style of whatever is selected, and of bars.
    #[verifier::allow_in_spec]
    pub fn inverse(&self) -> Style
        returns
            Style::new(self.background, self.accent),
    {
        Style::new(self.background, self.accent)
    }

    /// The style of borders and secondary text.
    #[verifier::allow_in_spec]
    pub fn accented(&self) -> Style
        returns
            Style::new(self.accent, self.background),
    {
        Style::new(self.accent, self.background)
    }
}

/// The largest coordinate or extent that a rectangle may have.
pub const MAX_EXTENT: u32 = 0x0fff_ffff;

/// A rectangle of cells.
#[derive(Clone, Copy, Debug, PartialEq, Eq, Structural)]
pub struct Rect {
    /// The leftmost column.
    pub x: u32,
    /// The topmost row.
    pub y: u32,
    /// How many columns it has.
    pub width: u32,
    /// How many rows it has.
    pub height: u32,
}

impl Rect {
    /// Whether its coordinates leave room to compute with them.
    pub open spec fn wf(self) -> bool {
        self.x <= MAX_EXTENT && self.y <= MAX_EXTENT && self.width <= MAX_EXTENT && self.height
            <= MAX_EXTENT
    }

    /// Whether its right and lower edges are within the range of coordinates.
    pub open spec fn fits(self) -> bool {
        self.right_col() <= u32::MAX && self.bottom_row() <= u32::MAX
    }

    /// Creates a rectangle.
    #[verifier::allow_in_spec]
    pub fn new(x: u32, y: u32, width: u32, height: u32) -> Self
        returns
            (Rect { x, y, width, height }),
    {
        Rect { x, y, width, height }
    }

    /// The column behind the rightmost one.
    pub open spec fn right_col(self) -> int {
        self.x + self.width
    }

    /// The row below the last one.
    pub open spec fn bottom_row(self) -> int {
        self.y + self.height
    }

    /// The column behind the rightmost one.
    pub fn right(&self) -> (r: u32)
        requires
            self.x + self.width <= u32::MAX,
        ensures
            r == self.right_col(),
    {
        self.x + self.width
    }

    /// The row below the last one.
    pub fn bottom(&self) -> (r: u32)
        requires
            self.y + self.height <= u32::MAX,
        ensures
            r == self.bottom_row(),
    {
        self.y + self.height
    }

    /// Whether it holds no cell.
    #[verifier::allow_in_spec]
    pub fn is_empty(&self) -> bool
        returns
            self.width == 0 || self.height == 0,
    {
        self.width == 0 || self.height == 0
    }

    /// The first `rows` rows and the rest.
    pub open spec fn top_split(self, rows: u32) -> (Rect, Rect) {
        let n = if rows < self.height {
            rows
        } else {
            self.height
        };
        (
            Rect { height: n, ..self },
            Rect { y: (self.y + n) as u32, height: (self.height - n) as u32, ..self },
        )
    }

    /// Everything but the last `rows` rows, and those.
    pub open spec fn bottom_split(self, rows: u32) -> (Rect, Rect) {
        let n = if rows < self.height {
            rows
        } else {
            self.height
        };
        (
            Rect { height: (self.height - n) as u32, ..self },
            Rect { y: (self.y + self.height - n) as u32, height: n, ..self },
        )
    }

    /// Splits off the first `rows` rows.
    pub fn split_top(&self, rows: u32) -> (r: (Rect, Rect))
        requires
            self.y + self.height <= u32::MAX,
        ensures
            r == self.top_split(rows),
    {
        let n: u32 = if rows < self.height {
            rows
        } else {
            self.height
        };
        (
            Rect { height: n, ..*self },
            Rect { y: self.y + n, height: self.height - n, ..*self },
        )
    }

    /// Splits off the last `rows` rows.
    pub fn split_bottom(&self, rows: u32) -> (r: (Rect, Rect))
        requires
            self.y + self.height <= u32::MAX,
        ensures
            r == self.bottom_split(rows),
    {
        let n: u32 = if rows < self.height {
            rows
        } else {
            self.height
        };
        (
            Rect { height: self.height - n, ..*self },
            Rect { y: self.y + self.height - n, height: n, ..*self },
        )
    }

    /// The rectangle inside a border of one cell.
    pub open spec fn inner(self) -> Rect {
        Rect {
            x: (self.x + 1) as u32,
            y: (self.y + 1) as u32,
            width: (self.width - 2) as u32,
            height: (self.height - 2) as u32,
        }
    }

    /// The rectangle inside a border of one cell.
    pub fn inset(&self) -> (r: Rect)
        requires
            self.x < u32::MAX,
            self.y < u32::MAX,
            self.width >= 2,
            self.height >= 2,
        ensures
            r == self.inner(),
    {
        Rect { x: self.x + 1, y: self.y + 1, width: self.width - 2, height: self.height - 2 }
    }

    /// A rectangle of the given size in the middle of this one.
    pub open spec fn centred(self, width: u32, height: u32) -> Rect {
        Rect {
            x: (self.x + (self.width - width) / 2) as u32,
            y: (self.y + (self.height - height) / 2) as u32,
            width,
            height,
        }
    }

    /// A rectangle of the given size in the middle of this one.
    pub fn centre(&self, width: u32, height: u32) -> (r: Rect)
        requires
            self.wf(),
            width <= self.width,
            height <= self.height,
        ensures
            r == self.centred(width, height),
            r.right_col() <= self.right_col(),
            r.bottom_row() <= self.bottom_row(),
    {
        Rect {
            x: self.x + (self.width - width) / 2,
            y: self.y + (self.height - height) / 2,
            width,
            height,
        }
    }
}

/// One cell: a glyph and its style.
#[derive(Clone, Copy, Debug, PartialEq, Eq, Structural)]
pub struct Cell {
    /// The glyph.
    pub symbol: char,
    /// Its style.
    pub style: Style,
}

impl Cell {
    /// Creates a cell.
    #[verifier::allow_in_spec]
    pub fn new(symbol: char, style: Style) -> Self
        returns
            (Cell { symbol, style }),
    {
        Cell { symbol, style }
    }
}

/// A range of characters, both ends included.
#[derive(Clone, Copy, Debug, PartialEq, Eq, Structural)]
pub struct CharRange {
    /// The first character.
    pub first: char,
    /// The last character.
    pub last: char,
}

/// How many cells the terminal gives to each glyph: two for the characters of `wide`, none for
/// those of `zero`, one for all others.
#[derive(Debug)]
pub struct Glyphs {
    /// The characters of double width.
    pub wide: Vec<CharRange>,
    /// The characters that take no cell of their own.
    pub zero: Vec<CharRange>,
}

/// Whether `c` lies in one of the ranges.
pub open spec fn in_ranges(ranges: Seq<CharRange>, c: char) -> bool {
    exists|i: int| 0 <= i < ranges.len() && (#[trigger] ranges[i]).first <= c <= ranges[i].last
}

/// How many cells `c` takes.
pub open spec fn cells_of(glyphs: Glyphs, c: char) -> nat {
    if in_ranges(glyphs.wide@, c) {
        2
    } else if in_ranges(glyphs.zero@, c) {
        0
    } else {
        1
    }
}

/// How many cells the characters of `t` take together.
pub open spec fn width_of(glyphs: Glyphs, t: Seq<char>) -> nat
    decreases t.len(),
{
    if t.len() == 0 {
        0
    } else {
        width_of(glyphs, t.drop_last()) + cells_of(glyphs, t.last())
    }
}

fn contains(ranges: &[CharRange], c: char) -> (r: bool)
    ensures
        r == in_ranges(ranges@, c),
{
    let mut i: usize = 0;
    while i < ranges.len()
        invariant
            i <= ranges@.len(),
            forall|k: int|
                0 <= k < i ==> !((#[trigger] ranges@[k]).first <= c <= ranges@[k].last),
        decreases ranges@.len() - i,
    {
        if ranges[i].first <= c && c <= ranges[i].last {
            return true;
        }
        i += 1;
    }
    false
}

impl Glyphs {
    /// The table for a terminal without wide glyphs.
    pub fn narrow() -> (r: Self)
        ensures
            r.wide@.len() == 0,
            r.zero@.len() == 0,
    {
        Glyphs { wide: Vec::new(), zero: Vec::new() }
    }

    /// How many cells `c` takes.
    pub fn char_width(&self, c: char) -> (r: u32)
        ensures
            r == cells_of(*self, c),
            r <= 2,
    {
        if contains(self.wide.as_slice(), c) {
            2
        } else if contains(self.zero.as_slice(), c) {
            0
        } else {
            1
        }
    }
}

impl Clone for Glyphs {
    fn clone(&self) -> (r: Self)
        ensures
            r.wide@ == self.wide@,
            r.zero@ == self.zero@,
    {
        let r = Glyphs { wide: self.wide.clone(), zero: self.zero.clone() };
        assert(r.wide@ =~= self.wide@);
        assert(r.zero@ =~= self.zero@);
        r
    }
}

/// The contents of a [`Surface`].
#[verifier::ext_equal]
pub struct Canvas {
    /// How many columns there are.
    pub width: nat,
    /// The rows of cells, from the top.
    pub rows: Seq<Seq<Cell>>,
    /// The widths of glyphs.
    pub glyphs: Glyphs,
}

impl Canvas {
    /// Every row has as many cells as there are columns.
    pub open spec fn wf(self) -> bool {
        &&& self.width <= u16::MAX
        &&& self.rows.len() <= u16::MAX
        &&& forall|y: int| 0 <= y < self.rows.len() ==> (#[trigger] self.rows[y]).len() == self.width
    }

    /// With the cell in column `x` and row `y` replaced; outside there is nothing to replace.
    pub open spec fn put(self, x: int, y: int, cell: Cell) -> Canvas {
        if 0 <= x < self.width && 0 <= y < self.rows.len() {
            Canvas { rows: self.rows.update(y, self.rows[y].update(x, cell)), ..self }
        } else {
            self
        }
    }

    /// With a glyph drawn at a position; a glyph of double width blanks the cell behind it.
    pub open spec fn glyph(self, x: int, y: int, c: char, style: Style) -> Canvas {
        let d = self.put(x, y, Cell::new(c, style));
        if cells_of(self.glyphs, c) == 2 {
            d.put(x + 1, y, Cell::new(' ', style))
        } else {
            d
        }
    }

    /// With a text drawn from a position on, up to the right edge.
    pub open spec fn text(self, x: int, y: int, t: Seq<char>, style: Style) -> Canvas
        decreases t.len(),
    {
        if t.len() == 0 || x >= self.width {
            self
        } else if cells_of(self.glyphs, t[0]) == 0 {
            self.text(x, y, t.drop_first(), style)
        } else {
            self.glyph(x, y, t[0], style).text(
                x + cells_of(self.glyphs, t[0]),
                y,
                t.drop_first(),
                style,
            )
        }
    }

    /// The column behind a text drawn from column `x` on.
    pub open spec fn text_end(self, x: int, t: Seq<char>) -> int
        decreases t.len(),
    {
        if t.len() == 0 || x >= self.width {
            x
        } else {
            self.text_end(x + cells_of(self.glyphs, t[0]), t.drop_first())
        }
    }

    /// With the cells of a row from column `x` up to `end` blanked.
    pub open spec fn blank(self, x: int, end: int, y: int, style: Style) -> Canvas
        decreases end - x,
    {
        if x >= end {
            self
        } else {
            self.glyph(x, y, ' ', style).blank(x + 1, end, y, style)
        }
    }

    /// With the rows from `y` up to `end` blanked between two columns.
    pub open spec fn blank_rows(self, x: int, right: int, y: int, end: int, style: Style) -> Canvas
        decreases end - y,
    {
        if y >= end {
            self
        } else {
            self.blank(x, right, y, style).blank_rows(x, right, y + 1, end, style)
        }
    }

    /// With the border and the inside of one row of a box drawn, from column `x` on.
    pub open spec fn box_row(self, r: Rect, x: int, y: int, theme: Theme) -> Canvas
        decreases r.right_col() - x,
    {
        if x >= r.right_col() {
            self
        } else {
            let symbol = box_symbol(r, x, y);
            self.glyph(
                x,
                y,
                symbol,
                if symbol == ' ' {
                    theme.base_style()
                } else {
                    theme.accented()
                },
            ).box_row(r, x + 1, y, theme)
        }
    }

    /// With the rows of a box drawn, from row `y` on.
    pub open spec fn box_rows(self, r: Rect, y: int, theme: Theme) -> Canvas
        decreases r.bottom_row() - y,
    {
        if y >= r.bottom_row() {
            self
        } else {
            self.box_row(r, r.x as int, y, theme).box_rows(r, y + 1, theme)
        }
    }

    /// With a bordered box drawn, its title on the top edge.
    pub open spec fn boxed(self, r: Rect, theme: Theme, title: Seq<char>) -> Canvas {
        self.box_rows(r, r.y as int, theme).text(
            r.x + 2,
            r.y as int,
            seq![' '] + title + seq![' '],
            theme.accented(),
        )
    }
}

/// The symbol of a box at a position within it.
pub open spec fn box_symbol(r: Rect, x: int, y: int) -> char {
    let right = r.right_col() - 1;
    let bottom = r.bottom_row() - 1;
    if x == r.x && y == r.y {
        '┌'
    } else if x == right && y == r.y {
        '┐'
    } else if x == r.x && y == bottom {
        '└'
    } else if x == right && y == bottom {
        '┘'
    } else if y == r.y || y == bottom {
        '─'
    } else if x == r.x || x == right {
        '│'
    } else {
        ' '
    }
}

/// A grid of styled cells to draw on.
#[derive(Debug)]
pub struct Surface {
    width: u16,
    rows: Vec<Vec<Cell>>,
    glyphs: Glyphs,
}

impl View for Surface {
    type V = Canvas;

    closed spec fn view(&self) -> Canvas {
        Canvas {
            width: self.width as nat,
            rows: self.rows@.map_values(|row: Vec<Cell>| row@),
            glyphs: self.glyphs,
        }
    }
}

impl Surface {
    /// A surface of blank cells in `style`, with the widths of glyphs that the terminal has.
    pub fn with_glyphs(width: u16, height: u16, style: Style, glyphs: Glyphs) -> (r: Self)
        ensures
            r@.wf(),
            r@.width == width,
            r@.rows == Seq::new(
                height as nat,
                |y: int| Seq::new(width as nat, |x: int| Cell::new(' ', style)),
            ),
            r@.glyphs == glyphs,
    {
        let mut rows: Vec<Vec<Cell>> = Vec::new();
        let mut y: u16 = 0;
        let ghost line = Seq::new(width as nat, |x: int| Cell::new(' ', style));
        while y < height
            invariant
                y <= height,
                rows@.len() == y,
                line == Seq::new(width as nat, |x: int| Cell::new(' ', style)),
                forall|k: int| 0 <= k < y ==> (#[trigger] rows@[k])@ == line,
            decreases height - y,
        {
            let mut row: Vec<Cell> = Vec::new();
            let mut x: u16 = 0;
            while x < width
                invariant
                    x <= width,
                    row@.len() == x,
                    forall|k: int| 0 <= k < x ==> #[trigger] row@[k] == Cell::new(' ', style),
                decreases width - x,
            {
                row.push(Cell::new(' ', style));
                x += 1;
            }
            assert(row@ =~= line);
            rows.push(row);
            y += 1;
        }
        let r = Surface { width, rows, glyphs };
        assert(r@.rows =~= Seq::new(height as nat, |y: int| line));
        assert(r@.rows =~= Seq::new(
            height as nat,
            |y: int| Seq::new(width as nat, |x: int| Cell::new(' ', style)),
        ));
        r
    }

    /// A surface of blank cells in `style`, for a terminal without wide glyphs.
    pub fn new(width: u16, height: u16, style: Style) -> (r: Self)
        ensures
            r@.wf(),
            r@.width == width,
            r@.rows == Seq::new(
                height as nat,
                |y: int| Seq::new(width as nat, |x: int| Cell::new(' ', style)),
            ),
            r@.glyphs.wide@.len() == 0,
            r@.glyphs.zero@.len() == 0,
    {
        Surface::with_glyphs(width, height, style, Glyphs::narrow())
    }

    /// How many columns there are.
    pub fn width(&self) -> (r: u32)
        requires
            self@.wf(),
        ensures
            r == self@.width,
            r <= u16::MAX,
    {
        self.width as u32
    }

    /// How many rows there are.
    pub fn height(&self) -> (r: u32)
        requires
            self@.wf(),
        ensures
            r == self@.rows.len(),
            r <= u16::MAX,
    {
        self.rows.len() as u32
    }

    /// The rectangle of all cells.
    pub fn area(&self) -> (r: Rect)
        requires
            self@.wf(),
        ensures
            r == Rect::new(0, 0, self@.width as u32, self@.rows.len() as u32),
            r.wf(),
    {
        Rect { x: 0, y: 0, width: self.width(), height: self.height() }
    }

    /// The widths of glyphs.
    pub fn glyphs(&self) -> (r: &Glyphs)
        ensures
            *r == self@.glyphs,
    {
        &self.glyphs
    }

    /// The cell in column `x` and row `y`, if there is one.
    pub fn cell(&self, x: u32, y: u32) -> (r: Option<Cell>)
        requires
            self@.wf(),
        ensures
            r == if x < self@.width && y < self@.rows.len() {
                Some(self@.rows[y as int][x as int])
            } else {
                None
            },
    {
        if x < self.width as u32 && y < self.rows.len() as u32 {
            assert(self@.rows[y as int].len() == self@.width);
            Some(self.rows[y as usize][x as usize])
        } else {
            None
        }
    }

    /// Replaces a cell.
    pub fn set(&mut self, x: u32, y: u32, cell: Cell)
        requires
            old(self)@.wf(),
        ensures
            final(self)@ == old(self)@.put(x as int, y as int, cell),
            final(self)@.wf(),
    {
        if x < self.width as u32 && y < self.rows.len() as u32 {
            let ghost before = self@;
            assert(before.rows[y as int].len() == before.width);
            let row = &mut self.rows[y as usize];
            row.set(x as usize, cell);
            assert(self@.rows =~= before.rows.update(
                y as int,
                before.rows[y as int].update(x as int, cell),
            ));
            assert forall|k: int| 0 <= k < self@.rows.len() implies (
            #[trigger] self@.rows[k]).len() == self@.width by {
                assert(before.rows[k].len() == before.width);
            }
        }
    }

    /// Draws a glyph.
    pub fn set_char(&mut self, x: u32, y: u32, c: char, style: Style)
        requires
            old(self)@.wf(),
        ensures
            final(self)@ == old(self)@.glyph(x as int, y as int, c, style),
            final(self)@.wf(),
    {
        let wide = self.glyphs.char_width(c) == 2;
        self.set(x, y, Cell::new(c, style));
        if wide && x < u32::MAX {
            self.set(x + 1, y, Cell::new(' ', style));
        }
    }

    /// Draws the characters of a text from a position on; says in which column it ends.
    pub fn set_chars(&mut self, x: u32, y: u32, t: &[char], style: Style) -> (r: u32)
        requires
            old(self)@.wf(),
        ensures
            final(self)@ == old(self)@.text(x as int, y as int, t@, style),
            final(self)@.wf(),
            final(self)@.width == old(self)@.width,
            final(self)@.glyphs == old(self)@.glyphs,
            r == old(self)@.text_end(x as int, t@),
            r <= x || r <= old(self)@.width + 1,
            r >= x,
    {
        let ghost before = self@;
        let ghost from = x as int;
        let mut x: u32 = x;
        let mut i: usize = 0;
        assert(t@.skip(0) =~= t@);
        while i < t.len() && x < self.width as u32
            invariant
                i <= t@.len(),
                self@.wf(),
                self@.width == before.width,
                self@.glyphs == before.glyphs,
                from <= x,
                x <= from || x <= before.width + 1,
                before.width <= u16::MAX,
                before.text(from, y as int, t@, style) == self@.text(
                    x as int,
                    y as int,
                    t@.skip(i as int),
                    style,
                ),
                before.text_end(from, t@) == self@.text_end(x as int, t@.skip(i as int)),
            decreases t@.len() - i,
        {
            proof {
                let rest = t@.skip(i as int);
                assert(rest[0] == t@[i as int]);
                assert(rest.drop_first() =~= t@.skip(i + 1));
            }
            let cells = self.glyphs.char_width(t[i]);
            let ghost now = self@;
            if cells > 0 {
                self.set_char(x, y, t[i], style);
                proof {
                    lemma_text_end_width(now, self@, x + cells as int, t@.skip(i + 1));
                }
                x = x + cells;
            }
            i += 1;
        }
        proof {
            if i >= t.len() {
                assert(t@.skip(i as int).len() == 0);
            }
        }
        x
    }

    /// Draws a text from a position on; says in which column it ends.
    pub fn set_str(&mut self, x: u32, y: u32, t: &str, style: Style) -> (r: u32)
        requires
            old(self)@.wf(),
        ensures
            final(self)@ == old(self)@.text(x as int, y as int, t@, style),
            final(self)@.wf(),
            final(self)@.width == old(self)@.width,
            final(self)@.glyphs == old(self)@.glyphs,
            r == old(self)@.text_end(x as int, t@),
            r <= x || r <= old(self)@.width + 1,
            r >= x,
    {
        let chars = chars_of(t);
        self.set_chars(x, y, chars.as_slice(), style)
    }

    /// Blanks the cells of a row from column `x` up to `end`.
    pub fn blank(&mut self, x: u32, end: u32, y: u32, style: Style)
        requires
            old(self)@.wf(),
        ensures
            final(self)@ == old(self)@.blank(x as int, end as int, y as int, style),
            final(self)@.wf(),
    {
        let ghost before = self@;
        let ghost from = x as int;
        let mut x: u32 = x;
        while x < end
            invariant
                self@.wf(),
                before.blank(from, end as int, y as int, style) == self@.blank(
                    x as int,
                    end as int,
                    y as int,
                    style,
                ),
            decreases end - x,
        {
            self.set_char(x, y, ' ', style);
            x += 1;
        }
    }

    /// Blanks a rectangle.
    pub fn fill(&mut self, area: Rect, style: Style)
        requires
            old(self)@.wf(),
            area.x + area.width <= u32::MAX,
            area.y + area.height <= u32::MAX,
        ensures
            final(self)@ == old(self)@.blank_rows(
                area.x as int,
                area.right_col(),
                area.y as int,
                area.bottom_row(),
                style,
            ),
            final(self)@.wf(),
    {
        let ghost before = self@;
        let mut y: u32 = area.y;
        while y < area.bottom()
            invariant
                self@.wf(),
                area.x + area.width <= u32::MAX,
                area.y + area.height <= u32::MAX,
                before.blank_rows(
                    area.x as int,
                    area.right_col(),
                    area.y as int,
                    area.bottom_row(),
                    style,
                ) == self@.blank_rows(
                    area.x as int,
                    area.right_col(),
                    y as int,
                    area.bottom_row(),
                    style,
                ),
            decreases area.bottom_row() - y,
        {
            self.blank(area.x, area.right(), y, style);
            y += 1;
        }
    }

    /// Draws a bordered box with `title` on its top edge.
    pub fn draw_box(&mut self, r: Rect, theme: &Theme, title: &str)
        requires
            old(self)@.wf(),
            0 < r.width,
            0 < r.height,
            r.x + r.width < u32::MAX - 2,
            r.y + r.height < u32::MAX,
        ensures
            final(self)@ == old(self)@.boxed(r, *theme, title@),
            final(self)@.wf(),
    {
        let ghost before = self@;
        let mut y: u32 = r.y;
        while y < r.bottom()
            invariant
                self@.wf(),
                0 < r.width,
                0 < r.height,
                r.x + r.width < u32::MAX - 2,
                r.y + r.height < u32::MAX,
                before.box_rows(r, r.y as int, *theme) == self@.box_rows(r, y as int, *theme),
            decreases r.bottom_row() - y,
        {
            let ghost line = self@;
            let mut x: u32 = r.x;
            while x < r.right()
                invariant
                    self@.wf(),
                    0 < r.width,
                    0 < r.height,
                    y < r.bottom_row(),
                    r.x + r.width < u32::MAX - 2,
                    r.y + r.height < u32::MAX,
                    line.box_row(r, r.x as int, y as int, *theme) == self@.box_row(
                        r,
                        x as int,
                        y as int,
                        *theme,
                    ),
                decreases r.right_col() - x,
            {
                let right: u32 = r.right() - 1;
                let bottom: u32 = r.bottom() - 1;
                let symbol = if x == r.x && y == r.y {
                    '┌'
                } else if x == right && y == r.y {
                    '┐'
                } else if x == r.x && y == bottom {
                    '└'
                } else if x == right && y == bottom {
                    '┘'
                } else if y == r.y || y == bottom {
                    '─'
                } else if x == r.x || x == right {
                    '│'
                } else {
                    ' '
                };
                assert(symbol == box_symbol(r, x as int, y as int));
                let style = if symbol == ' ' {
                    theme.base_style()
                } else {
                    theme.accented()
                };
                self.set_char(x, y, symbol, style);
                x += 1;
            }
            y += 1;
        }
        let mut label = String::new();
        label.push(' ');
        label.append(title);
        label.push(' ');
        assert(label@ =~= seq![' '] + title@ + seq![' ']);
        self.set_str(r.x + 2, r.y, label.as_str(), theme.accented());
    }
}

/// Where a text ends depends on the widths of glyphs and on the right edge alone.
pub proof fn lemma_text_end_width(a: Canvas, b: Canvas, x: int, t: Seq<char>)
    requires
        a.width == b.width,
        a.glyphs == b.glyphs,
    ensures
        a.text_end(x, t) == b.text_end(x, t),
    decreases t.len(),
{
    if t.len() > 0 && x < a.width {
        lemma_text_end_width(a, b, x + cells_of(a.glyphs, t[0]), t.drop_first());
    }
}

/// Splitting rows off a rectangle gives two that lie on top of each other and make it up.
pub proof fn law_split_tiles(r: Rect, rows: u32)
    requires
        r.y + r.height <= u32::MAX,
    ensures
        r.top_split(rows).0.y == r.y,
        r.top_split(rows).0.bottom_row() == r.top_split(rows).1.y,
        r.top_split(rows).1.bottom_row() == r.bottom_row(),
        r.bottom_split(rows).0.y == r.y,
        r.bottom_split(rows).0.bottom_row() == r.bottom_split(rows).1.y,
        r.bottom_split(rows).1.bottom_row() == r.bottom_row(),
{
}

/// What the cell at a place shows.
pub open spec fn shows(c: Canvas, x: int, y: int, symbol: char, style: Style) -> bool {
    &&& 0 <= y < c.rows.len()
    &&& 0 <= x < c.rows[y].len()
    &&& c.rows[y][x] == Cell::new(symbol, style)
}

/// A glyph is drawn into its cell, and into no cell of another row or before it.
pub proof fn law_glyph_fills_its_cell(c: Canvas, x: int, y: int, symbol: char, style: Style, i: int, j: int)
    requires
        c.wf(),
    ensures
        ({
            let d = c.glyph(x, y, symbol, style);
            &&& d.rows.len() == c.rows.len() && d.width == c.width && d.wf()
            &&& 0 <= x < c.width && 0 <= y < c.rows.len() ==> shows(d, x, y, symbol, style)
            &&& 0 <= i < c.width && 0 <= j < c.rows.len() && (j != y || i < x || i > x + 1) ==> d.rows[j][i]
                == c.rows[j][i]
            &&& 0 <= i < c.width && 0 <= j < c.rows.len() && i != x && cells_of(c.glyphs, symbol) != 2
                ==> d.rows[j][i] == c.rows[j][i]
            &&& !(0 <= y < c.rows.len()) ==> d == c
        }),
{
}

/// A text of narrow characters is drawn one cell for each, as far as the canvas goes, and no other
/// cell changes.
pub proof fn law_text_is_drawn_cell_by_cell(c: Canvas, x: int, y: int, t: Seq<char>, style: Style, i: int, j: int)
    requires
        c.wf(),
        0 <= x,
        0 <= y < c.rows.len(),
        forall|k: int| 0 <= k < t.len() ==> cells_of(c.glyphs, #[trigger] t[k]) == 1,
        0 <= i < c.width,
        0 <= j < c.rows.len(),
    ensures
        ({
            let d = c.text(x, y, t, style);
            &&& d.wf() && d.width == c.width && d.rows.len() == c.rows.len() && d.glyphs == c.glyphs
            &&& j == y && x <= i < x + t.len() ==> shows(d, i, j, t[i - x], style)
            &&& j != y || i < x || i >= x + t.len() ==> d.rows[j][i] == c.rows[j][i]
        }),
    decreases t.len(),
{
    if t.len() > 0 && x < c.width {
        let first = t[0];
        assert(cells_of(c.glyphs, first) == 1);
        let e = c.glyph(x, y, first, style);
        law_glyph_fills_its_cell(c, x, y, first, style, i, j);
        let tail = t.drop_first();
        assert forall|k: int| 0 <= k < tail.len() implies cells_of(e.glyphs, #[trigger] tail[k]) == 1 by {
            assert(tail[k] == t[k + 1]);
        }
        law_text_is_drawn_cell_by_cell(e, x + 1, y, tail, style, i, j);
        if j == y && x < i < x + t.len() {
            assert(tail[i - x - 1] == t[i - x]);
        }
    }
}

/// The border of a box has its corners at the corners, lines between them and blanks inside.
pub proof fn law_box_has_a_border(r: Rect, x: int, y: int)
    requires
        r.width >= 2,
        r.height >= 2,
        r.x <= x < r.x + r.width,
        r.y <= y < r.y + r.height,
    ensures
        ({
            let left = x == r.x;
            let right = x == r.x + r.width - 1;
            let top = y == r.y;
            let bottom = y == r.y + r.height - 1;
            let symbol = box_symbol(r, x, y);
            &&& top && left ==> symbol == '┌'
            &&& top && right ==> symbol == '┐'
            &&& bottom && left ==> symbol == '└'
            &&& bottom && right ==> symbol == '┘'
            &&& (top || bottom) && !left && !right ==> symbol == '─'
            &&& (left || right) && !top && !bottom ==> symbol == '│'
            &&& !left && !right && !top && !bottom ==> symbol == ' '
        }),
{
}

} // verus!
