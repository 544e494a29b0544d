//! The find-references popup: every use of a symbol, each with its location and the text of its
//! line.

use crate::paths::{file_name, file_name_of};
use crate::popup::{
    below_cursor, first_visible, least, place_below, popup_rows, popup_width, rows_for, scroll_start,
    widest, width_for, Picker,
};
use crate::surface::{width_of, Canvas, Glyphs, Rect, Surface, Theme, MAX_EXTENT};
use crate::text::{chars_of, decimal, decimal_of, string_of};
use crate::typeset::text_width;
use vstd::prelude::*;

verus! {

/// One use of a symbol.
#[derive(Clone, Debug, PartialEq, Eq)]
pub struct Reference {
    /// The file that the use is in.
    pub path: String,
    /// The zero-based line of the use.
    pub line: u32,
    /// The zero-based character within the line.
    pub character: u32,
    /// The trimmed text of the line, shown after the location. Empty if the file could not be
    /// read.
    pub preview: String,
}

impl Reference {
    /// The file's name and the one-based line, as shown in the list.
    pub open spec fn place(self) -> Seq<char> {
        (match file_name(self.path@) {
            Some(name) => name,
            None => seq!['?'],
        }).push(':') + decimal(least(self.line + 1, u32::MAX as int) as nat)
    }

    /// The file's name and the one-based line, as shown in the list.
    pub fn location(&self) -> (r: String)
        ensures
            r@ == self.place(),
    {
        let path = chars_of(self.path.as_str());
        let mut r = match file_name_of(path.as_slice()) {
            Some(name) => string_of(name.as_slice()),
            None => {
                let mut unknown = String::new();
                unknown.push('?');
                assert(unknown@ =~= seq!['?']);
                unknown
            },
        };
        r.push(':');
        r.append(decimal_of(self.line.saturating_add(1) as u128).as_str());
        r
    }
}

/// A find-references popup: every use plus the current selection.
#[derive(Clone, Debug)]
pub struct References {
    items: Vec<Reference>,
    selected: usize,
}

/// The largest number of entries shown at once.
pub const MAX_ROWS: u32 = 12;

/// The largest width of the popup.
pub const MAX_WIDTH: u32 = 64;

/// The smallest width of the popup.
pub const MIN_WIDTH: u32 = 20;

impl View for References {
    type V = Picker<Reference>;

    closed spec fn view(&self) -> Picker<Reference> {
        Picker { items: self.items@, selected: self.selected as nat }
    }
}

/// The columns that a reference wants: the width of its location, and of its preview with a
/// space.
pub open spec fn item_width(glyphs: Glyphs, item: Reference) -> nat {
    width_of(glyphs, item.place()) + if item.preview@.len() == 0 {
        0
    } else {
        width_of(glyphs, item.preview@) + 1
    }
}

/// The title of the popup.
pub open spec fn title(n: nat) -> Seq<char> {
    "references ("@ + decimal(n) + ")"@
}

/// The box of the popup.
pub open spec fn popup_box(
    p: Picker<Reference>,
    area: Rect,
    cursor: (u16, u16),
    glyphs: Glyphs,
) -> Rect {
    below_cursor(
        area,
        cursor,
        popup_width(
            widest(p.items, |item: Reference| item_width(glyphs, item), p.items.len()),
            MIN_WIDTH,
            MAX_WIDTH,
            area.width,
        ),
        (popup_rows(p.items.len(), MAX_ROWS) + 2) as u32,
    )
}

/// One entry drawn into the row `y` of the inside of the box.
pub open spec fn draw_item(
    c: Canvas,
    item: Reference,
    selected: bool,
    inner: Rect,
    y: int,
    theme: Theme,
) -> Canvas {
    let style = if selected {
        theme.inverse()
    } else {
        theme.base_style()
    };
    let dim = if selected {
        theme.inverse()
    } else {
        theme.accented()
    };
    let blank = c.blank(inner.x as int, inner.right_col(), y, style);
    let labelled = blank.text(inner.x as int, y, item.place(), style);
    let after = blank.text_end(inner.x as int, item.place());
    if item.preview@.len() > 0 && after + 1 < inner.right_col() {
        labelled.text(after + 1, y, seq![' '] + item.preview@, dim)
    } else {
        labelled
    }
}

/// The entries from the visible row `row` on drawn into the box.
pub open spec fn draw_items(
    c: Canvas,
    p: Picker<Reference>,
    inner: Rect,
    row: nat,
    theme: Theme,
) -> Canvas
    decreases inner.height - row,
{
    let index = first_visible(p.selected, inner.height as nat) + row;
    if row >= inner.height || index >= p.items.len() {
        c
    } else {
        draw_items(
            draw_item(
                c,
                p.items[index as int],
                index == p.selected,
                inner,
                inner.y + row as int,
                theme,
            ),
            p,
            inner,
            row + 1,
            theme,
        )
    }
}

/// The popup drawn over `c`.
pub open spec fn drawn(
    c: Canvas,
    p: Picker<Reference>,
    area: Rect,
    cursor: (u16, u16),
    theme: Theme,
) -> Canvas {
    if p.items.len() == 0 || area.width < MIN_WIDTH || area.height < 3 {
        c
    } else {
        let r = popup_box(p, area, cursor, c.glyphs);
        draw_items(c.boxed(r, theme, title(p.items.len())), p, r.inner(), 0, theme)
    }
}

impl References {
    /// Builds a popup over `items` with the first one selected.
    pub fn new(items: Vec<Reference>) -> (r: Self)
        ensures
            r@ == Picker::fresh(items@),
    {
        References { items, selected: 0 }
    }

    /// Whether there is nothing to show.
    pub fn is_empty(&self) -> (r: bool)
        ensures
            r == (self@.items.len() == 0),
    {
        self.items.len() == 0
    }

    /// Moves the selection up one, as far as the top.
    pub fn select_up(&mut self)
        ensures
            final(self)@ == old(self)@.up(),
    {
        if self.selected > 0 {
            self.selected -= 1;
        }
    }

    /// Moves the selection down one, as far as the bottom.
    pub fn select_down(&mut self)
        ensures
            final(self)@ == old(self)@.down(),
    {
        if self.items.len() > 0 && self.selected < self.items.len() - 1 {
            self.selected += 1;
        }
    }

    /// The selected entry.
    pub fn selected(&self) -> (r: Option<&Reference>)
        ensures
            match r {
                Some(item) => self@.chosen() == Some(*item),
                None => self@.chosen() is None,
            },
    {
        if self.selected < self.items.len() {
            Some(&self.items[self.selected])
        } else {
            None
        }
    }

    /// The columns that the widest entry wants, as far as they can be counted.
    fn content_width(&self, glyphs: &Glyphs) -> (r: usize)
        ensures
            r == least(
                widest(
                    self@.items,
                    |item: Reference| item_width(*glyphs, item),
                    self@.items.len(),
                ) as int,
                usize::MAX as int,
            ),
    {
        let ghost w = |item: Reference| item_width(*glyphs, item);
        let mut best: usize = 0;
        let mut i: usize = 0;
        while i < self.items.len()
            invariant
                i <= self.items@.len(),
                w == (|item: Reference| item_width(*glyphs, item)),
                best == least(widest(self.items@, w, i as nat) as int, usize::MAX as int),
            decreases self.items@.len() - i,
        {
            let wanted = wanted_width(glyphs, &self.items[i]);
            if best < wanted {
                best = wanted;
            }
            i += 1;
        }
        best
    }

    /// Draws the popup at `cursor`, a position on the screen, inside `area`: just below the
    /// cursor, or above it when there is no room.
    pub fn render(&self, surface: &mut Surface, area: Rect, cursor: (u16, u16), theme: &Theme)
        requires
            old(surface)@.wf(),
            area.wf(),
        ensures
            final(surface)@ == drawn(old(surface)@, self@, area, cursor, *theme),
            final(surface)@.wf(),
    {
        if self.items.len() == 0 || area.width < MIN_WIDTH || area.height < 3 {
            return ;
        }
        let rows = rows_for(self.items.len(), MAX_ROWS);
        let content = self.content_width(surface.glyphs());
        let width = width_for(content, MIN_WIDTH, MAX_WIDTH, area.width);
        let r = place_below(area, cursor, width, rows + 2);
        assert(r == popup_box(self@, area, cursor, surface@.glyphs));
        let mut title = "references (".to_owned();
        title.append(decimal_of(self.items.len() as u128).as_str());
        title.append(")");
        surface.draw_box(r, theme, title.as_str());
        let inner = r.inset();
        let start = scroll_start(self.selected, inner.height);
        let ghost base = surface@;
        let mut row: u32 = 0;
        while row < inner.height && start < self.items.len() && (row as usize) < self.items.len()
            - start
            invariant
                surface@.wf(),
                inner.x + inner.width <= u32::MAX,
                inner.x <= MAX_EXTENT + 1,
                inner.y + inner.height <= u32::MAX,
                start == first_visible(self@.selected, inner.height as nat),
                row <= inner.height,
                draw_items(base, self@, inner, 0, *theme) == draw_items(
                    surface@,
                    self@,
                    inner,
                    row as nat,
                    *theme,
                ),
            decreases inner.height - row,
        {
            let index: usize = start + row as usize;
            let item = &self.items[index];
            let selected = index == self.selected;
            let y: u32 = inner.y + row;
            let style = if selected {
                theme.inverse()
            } else {
                theme.base_style()
            };
            let dim = if selected {
                theme.inverse()
            } else {
                theme.accented()
            };
            surface.blank(inner.x, inner.right(), y, style);
            let after = surface.set_str(inner.x, y, item.location().as_str(), style);
            if !item.preview.as_str().is_empty() && after + 1 < inner.right() {
                let mut text = String::new();
                text.push(' ');
                text.append(item.preview.as_str());
                assert(text@ =~= seq![' '] + item.preview@);
                surface.set_str(after + 1, y, text.as_str(), dim);
            }
            row += 1;
        }
    }
}

fn wanted_width(glyphs: &Glyphs, item: &Reference) -> (r: usize)
    ensures
        r == least(item_width(*glyphs, *item) as int, usize::MAX as int),
{
    let label = text_width(glyphs, item.location().as_str());
    if item.preview.as_str().is_empty() {
        label
    } else {
        label.saturating_add(text_width(glyphs, item.preview.as_str())).saturating_add(1)
    }
}

/// A reference is shown by the name of its file and its line, counted from one.
pub proof fn law_place_is_file_and_line(r: Reference, name: Seq<char>)
    requires
        r.line < u32::MAX,
        file_name(r.path@) == Some(name),
    ensures
        r.place() == name + seq![':'] + decimal((r.line + 1) as nat),
{
    assert(r.place() =~= name + seq![':'] + decimal((r.line + 1) as nat));
}

} // verus!
