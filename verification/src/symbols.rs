//! The document-symbols picker: every definition in the current file.

use crate::popup::{
    below_cursor, first_visible, least, place_below, popup_rows, popup_width, rows_for, scroll_start,
    widest, width_for, Picker,
};
use crate::surface::{width_of, Canvas, Glyphs, Rect, Surface, Theme, MAX_EXTENT};
use crate::text::{decimal, decimal_of, repeat, repeated};
use crate::typeset::text_width;
use vstd::prelude::*;

verus! {

/// One definition in the current file.
#[derive(Clone, Debug, PartialEq, Eq)]
pub struct Symbol {
    /// The symbol's name.
    pub name: String,
    /// A one-character badge for the symbol's kind.
    pub kind: char,
    /// The zero-based line of the symbol's name.
    pub line: u32,
    /// The zero-based character of the symbol's name within its line.
    pub character: u32,
    /// Nesting depth, zero at the top level; shown as indentation.
    pub depth: u16,
}

impl Symbol {
    /// The indented badge with a space behind it.
    pub open spec fn badge(self) -> Seq<char> {
        let depth = least(self.depth as int, MAX_INDENT_DEPTH as int);
        repeat(' ', (INDENT_PER_DEPTH * depth) as nat).push(self.kind).push(' ')
    }

    /// The indented badge with a space behind it.
    pub fn prefix(&self) -> (r: String)
        ensures
            r@ == self.badge(),
    {
        let depth: u16 = if self.depth < MAX_INDENT_DEPTH {
            self.depth
        } else {
            MAX_INDENT_DEPTH
        };
        let mut r = repeated(' ', (INDENT_PER_DEPTH * depth) as usize);
        r.push(self.kind);
        r.push(' ');
        r
    }

    /// The indented badge and the name, as shown in the list.
    pub fn row_text(&self) -> (r: String)
        ensures
            r@ == self.badge() + self.name@,
    {
        let mut r = self.prefix();
        r.append(self.name.as_str());
        r
    }
}

/// A document-symbols picker: every definition plus the current selection.
#[derive(Clone, Debug)]
pub struct Symbols {
    items: Vec<Symbol>,
    selected: usize,
}

/// The largest number of entries shown at once.
pub const MAX_ROWS: u32 = 14;

/// The largest width of the popup.
pub const MAX_WIDTH: u32 = 56;

/// The smallest width of the popup.
pub const MIN_WIDTH: u32 = 18;

/// Columns of indentation per nesting level.
pub const INDENT_PER_DEPTH: u16 = 2;

/// The deepest nesting that is still indented further.
pub const MAX_INDENT_DEPTH: u16 = 6;

impl View for Symbols {
    type V = Picker<Symbol>;

    closed spec fn view(&self) -> Picker<Symbol> {
        Picker { items: self.items@, selected: self.selected as nat }
    }
}

/// The columns that a symbol wants: the width of its row.
pub open spec fn item_width(glyphs: Glyphs, item: Symbol) -> nat {
    width_of(glyphs, item.badge() + item.name@)
}

/// The title of the popup.
pub open spec fn title(n: nat) -> Seq<char> {
    "symbols ("@ + decimal(n) + ")"@
}

/// The box of the popup.
pub open spec fn popup_box(
    p: Picker<Symbol>,
    area: Rect,
    cursor: (u16, u16),
    glyphs: Glyphs,
) -> Rect {
    below_cursor(
        area,
        cursor,
        popup_width(
            widest(p.items, |item: Symbol| item_width(glyphs, item), p.items.len()),
            MIN_WIDTH,
            MAX_WIDTH,
            area.width,
        ),
        (popup_rows(p.items.len(), MAX_ROWS) + 2) as u32,
    )
}

/// One entry drawn into the row `y` of the inside of the box.
pub open spec fn draw_item(
    c: Canvas,
    item: Symbol,
    selected: bool,
    inner: Rect,
    y: int,
    theme: Theme,
) -> Canvas {
    let style = if selected {
        theme.inverse()
    } else {
        theme.base_style()
    };
    let dim = if selected {
        theme.inverse()
    } else {
        theme.accented()
    };
    let blank = c.blank(inner.x as int, inner.right_col(), y, style);
    let after = blank.text_end(inner.x as int, item.badge());
    blank.text(inner.x as int, y, item.badge(), dim).text(after, y, item.name@, style)
}

/// The entries from the visible row `row` on drawn into the box.
pub open spec fn draw_items(
    c: Canvas,
    p: Picker<Symbol>,
    inner: Rect,
    row: nat,
    theme: Theme,
) -> Canvas
    decreases inner.height - row,
{
    let index = first_visible(p.selected, inner.height as nat) + row;
    if row >= inner.height || index >= p.items.len() {
        c
    } else {
        draw_items(
            draw_item(
                c,
                p.items[index as int],
                index == p.selected,
                inner,
                inner.y + row as int,
                theme,
            ),
            p,
            inner,
            row + 1,
            theme,
        )
    }
}

/// The popup drawn over `c`.
pub open spec fn drawn(
    c: Canvas,
    p: Picker<Symbol>,
    area: Rect,
    cursor: (u16, u16),
    theme: Theme,
) -> Canvas {
    if p.items.len() == 0 || area.width < MIN_WIDTH || area.height < 3 {
        c
    } else {
        let r = popup_box(p, area, cursor, c.glyphs);
        draw_items(c.boxed(r, theme, title(p.items.len())), p, r.inner(), 0, theme)
    }
}

impl Symbols {
    /// Builds a popup over `items` with the first one selected.
    pub fn new(items: Vec<Symbol>) -> (r: Self)
        ensures
            r@ == Picker::fresh(items@),
    {
        Symbols { items, selected: 0 }
    }

    /// Whether there is nothing to show.
    pub fn is_empty(&self) -> (r: bool)
        ensures
            r == (self@.items.len() == 0),
    {
        self.items.len() == 0
    }

    /// Moves the selection up one, as far as the top.
    pub fn select_up(&mut self)
        ensures
            final(self)@ == old(self)@.up(),
    {
        if self.selected > 0 {
            self.selected -= 1;
        }
    }

    /// Moves the selection down one, as far as the bottom.
    pub fn select_down(&mut self)
        ensures
            final(self)@ == old(self)@.down(),
    {
        if self.items.len() > 0 && self.selected < self.items.len() - 1 {
            self.selected += 1;
        }
    }

    /// The selected entry.
    pub fn selected(&self) -> (r: Option<&Symbol>)
        ensures
            match r {
                Some(item) => self@.chosen() == Some(*item),
                None => self@.chosen() is None,
            },
    {
        if self.selected < self.items.len() {
            Some(&self.items[self.selected])
        } else {
            None
        }
    }

    /// The columns that the widest entry wants, as far as they can be counted.
    fn content_width(&self, glyphs: &Glyphs) -> (r: usize)
        ensures
            r == least(
                widest(
                    self@.items,
                    |item: Symbol| item_width(*glyphs, item),
                    self@.items.len(),
                ) as int,
                usize::MAX as int,
            ),
    {
        let ghost w = |item: Symbol| item_width(*glyphs, item);
        let mut best: usize = 0;
        let mut i: usize = 0;
        while i < self.items.len()
            invariant
                i <= self.items@.len(),
                w == (|item: Symbol| item_width(*glyphs, item)),
                best == least(widest(self.items@, w, i as nat) as int, usize::MAX as int),
            decreases self.items@.len() - i,
        {
            let wanted = wanted_width(glyphs, &self.items[i]);
            if best < wanted {
                best = wanted;
            }
            i += 1;
        }
        best
    }

    /// Draws the popup at `cursor`, a position on the screen, inside `area`: just below the
    /// cursor, or above it when there is no room.
    pub fn render(&self, surface: &mut Surface, area: Rect, cursor: (u16, u16), theme: &Theme)
        requires
            old(surface)@.wf(),
            area.wf(),
        ensures
            final(surface)@ == drawn(old(surface)@, self@, area, cursor, *theme),
            final(surface)@.wf(),
    {
        if self.items.len() == 0 || area.width < MIN_WIDTH || area.height < 3 {
            return ;
        }
        let rows = rows_for(self.items.len(), MAX_ROWS);
        let content = self.content_width(surface.glyphs());
        let width = width_for(content, MIN_WIDTH, MAX_WIDTH, area.width);
        let r = place_below(area, cursor, width, rows + 2);
        assert(r == popup_box(self@, area, cursor, surface@.glyphs));
        let mut title = "symbols (".to_owned();
        title.append(decimal_of(self.items.len() as u128).as_str());
        title.append(")");
        surface.draw_box(r, theme, title.as_str());
        let inner = r.inset();
        let start = scroll_start(self.selected, inner.height);
        let ghost base = surface@;
        let mut row: u32 = 0;
        while row < inner.height && start < self.items.len() && (row as usize) < self.items.len()
            - start
            invariant
                surface@.wf(),
                inner.x + inner.width <= u32::MAX,
                inner.x <= MAX_EXTENT + 1,
                inner.y + inner.height <= u32::MAX,
                start == first_visible(self@.selected, inner.height as nat),
                row <= inner.height,
                draw_items(base, self@, inner, 0, *theme) == draw_items(
                    surface@,
                    self@,
                    inner,
                    row as nat,
                    *theme,
                ),
            decreases inner.height - row,
        {
            let index: usize = start + row as usize;
            let item = &self.items[index];
            let selected = index == self.selected;
            let y: u32 = inner.y + row;
            let style = if selected {
                theme.inverse()
            } else {
                theme.base_style()
            };
            let dim = if selected {
                theme.inverse()
            } else {
                theme.accented()
            };
            surface.blank(inner.x, inner.right(), y, style);
            let after = surface.set_str(inner.x, y, item.prefix().as_str(), dim);
            surface.set_str(after, y, item.name.as_str(), style);
            row += 1;
        }
    }
}

fn wanted_width(glyphs: &Glyphs, item: &Symbol) -> (r: usize)
    ensures
        r == least(item_width(*glyphs, *item) as int, usize::MAX as int),
{
    text_width(glyphs, item.row_text().as_str())
}

/// A symbol is shown by its letter, inset by its depth up to the deepest that is told apart.
pub proof fn law_symbols_are_inset_by_depth(s: Symbol)
    ensures
        s.badge().last() == ' ',
        s.badge()[s.badge().len() - 2] == s.kind,
        s.depth <= MAX_INDENT_DEPTH ==> s.badge().len() == INDENT_PER_DEPTH * s.depth + 2,
        s.depth > MAX_INDENT_DEPTH ==> s.badge().len() == INDENT_PER_DEPTH * MAX_INDENT_DEPTH + 2,
        forall|k: int| 0 <= k < s.badge().len() - 2 ==> #[trigger] s.badge()[k] == ' ',
{
}

} // verus!
