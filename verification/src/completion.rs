//! The completion popup: a scrollable list of candidates at the cursor.

use crate::popup::{
    below_cursor, first_visible, least, place_below, popup_rows, popup_width, rows_for, scroll_start,
    widest, width_for, Picker,
};
use crate::surface::{width_of, Canvas, Glyphs, Rect, Surface, Theme, MAX_EXTENT};
use crate::typeset::text_width;
use vstd::prelude::*;

verus! {

/// One completion candidate.
#[derive(Clone, Debug, PartialEq, Eq)]
pub struct CompletionItem {
    /// The text shown in the list.
    pub label: String,
    /// The text inserted when the item is chosen, in place of the typed prefix.
    pub insert_text: String,
    /// A detail (type or signature) shown after the label, if any.
    pub detail: Option<String>,
}

/// A completion popup: candidates plus the current selection.
#[derive(Clone, Debug)]
pub struct Completion {
    items: Vec<CompletionItem>,
    selected: usize,
}

/// The largest number of entries shown at once.
pub const MAX_ROWS: u32 = 10;

/// The largest width of the popup.
pub const MAX_WIDTH: u32 = 48;

/// The smallest width of the popup.
pub const MIN_WIDTH: u32 = 14;

impl View for Completion {
    type V = Picker<CompletionItem>;

    closed spec fn view(&self) -> Picker<CompletionItem> {
        Picker { items: self.items@, selected: self.selected as nat }
    }
}

/// The columns that a candidate wants: the width of its label, and of its detail with a space.
pub open spec fn item_width(glyphs: Glyphs, item: CompletionItem) -> nat {
    width_of(glyphs, item.label@) + match item.detail {
        Some(detail) => width_of(glyphs, detail@) + 1,
        None => 0,
    }
}

/// The title of the popup.
pub open spec fn title(n: nat) -> Seq<char> {
    "completion"@
}

/// The box of the popup.
pub open spec fn popup_box(
    p: Picker<CompletionItem>,
    area: Rect,
    cursor: (u16, u16),
    glyphs: Glyphs,
) -> Rect {
    below_cursor(
        area,
        cursor,
        popup_width(
            widest(p.items, |item: CompletionItem| item_width(glyphs, item), p.items.len()),
            MIN_WIDTH,
            MAX_WIDTH,
            area.width,
        ),
        (popup_rows(p.items.len(), MAX_ROWS) + 2) as u32,
    )
}

/// One entry drawn into the row `y` of the inside of the box.
pub open spec fn draw_item(
    c: Canvas,
    item: CompletionItem,
    selected: bool,
    inner: Rect,
    y: int,
    theme: Theme,
) -> Canvas {
    let style = if selected {
        theme.inverse()
    } else {
        theme.base_style()
    };
    let dim = if selected {
        theme.inverse()
    } else {
        theme.accented()
    };
    let blank = c.blank(inner.x as int, inner.right_col(), y, style);
    let labelled = blank.text(inner.x as int, y, item.label@, style);
    let after = blank.text_end(inner.x as int, item.label@);
    match item.detail {
        Some(detail) => if after + 1 < inner.right_col() {
            labelled.text(after + 1, y, seq![' '] + detail@, dim)
        } else {
            labelled
        },
        None => labelled,
    }
}

/// The entries from the visible row `row` on drawn into the box.
pub open spec fn draw_items(
    c: Canvas,
    p: Picker<CompletionItem>,
    inner: Rect,
    row: nat,
    theme: Theme,
) -> Canvas
    decreases inner.height - row,
{
    let index = first_visible(p.selected, inner.height as nat) + row;
    if row >= inner.height || index >= p.items.len() {
        c
    } else {
        draw_items(
            draw_item(
                c,
                p.items[index as int],
                index == p.selected,
                inner,
                inner.y + row as int,
                theme,
            ),
            p,
            inner,
            row + 1,
            theme,
        )
    }
}

/// The popup drawn over `c`.
pub open spec fn drawn(
    c: Canvas,
    p: Picker<CompletionItem>,
    area: Rect,
    cursor: (u16, u16),
    theme: Theme,
) -> Canvas {
    if p.items.len() == 0 || area.width < MIN_WIDTH || area.height < 3 {
        c
    } else {
        let r = popup_box(p, area, cursor, c.glyphs);
        draw_items(c.boxed(r, theme, title(p.items.len())), p, r.inner(), 0, theme)
    }
}

impl Completion {
    /// Builds a popup over `items` with the first one selected.
    pub fn new(items: Vec<CompletionItem>) -> (r: Self)
        ensures
            r@ == Picker::fresh(items@),
    {
        Completion { items, selected: 0 }
    }

    /// Whether there is nothing to show.
    pub fn is_empty(&self) -> (r: bool)
        ensures
            r == (self@.items.len() == 0),
    {
        self.items.len() == 0
    }

    /// Moves the selection up one, as far as the top.
    pub fn select_up(&mut self)
        ensures
            final(self)@ == old(self)@.up(),
    {
        if self.selected > 0 {
            self.selected -= 1;
        }
    }

    /// Moves the selection down one, as far as the bottom.
    pub fn select_down(&mut self)
        ensures
            final(self)@ == old(self)@.down(),
    {
        if self.items.len() > 0 && self.selected < self.items.len() - 1 {
            self.selected += 1;
        }
    }

    /// The selected entry.
    pub fn selected(&self) -> (r: Option<&CompletionItem>)
        ensures
            match r {
                Some(item) => self@.chosen() == Some(*item),
                None => self@.chosen() is None,
            },
    {
        if self.selected < self.items.len() {
            Some(&self.items[self.selected])
        } else {
            None
        }
    }

    /// The columns that the widest entry wants, as far as they can be counted.
    fn content_width(&self, glyphs: &Glyphs) -> (r: usize)
        ensures
            r == least(
                widest(
                    self@.items,
                    |item: CompletionItem| item_width(*glyphs, item),
                    self@.items.len(),
                ) as int,
                usize::MAX as int,
            ),
    {
        let ghost w = |item: CompletionItem| item_width(*glyphs, item);
        let mut best: usize = 0;
        let mut i: usize = 0;
        while i < self.items.len()
            invariant
                i <= self.items@.len(),
                w == (|item: CompletionItem| item_width(*glyphs, item)),
                best == least(widest(self.items@, w, i as nat) as int, usize::MAX as int),
            decreases self.items@.len() - i,
        {
            let wanted = wanted_width(glyphs, &self.items[i]);
            if best < wanted {
                best = wanted;
            }
            i += 1;
        }
        best
    }

    /// Draws the popup at `cursor`, a position on the screen, inside `area`: just below the
    /// cursor, or above it when there is no room.
    pub fn render(&self, surface: &mut Surface, area: Rect, cursor: (u16, u16), theme: &Theme)
        requires
            old(surface)@.wf(),
            area.wf(),
        ensures
            final(surface)@ == drawn(old(surface)@, self@, area, cursor, *theme),
            final(surface)@.wf(),
    {
        if self.items.len() == 0 || area.width < MIN_WIDTH || area.height < 3 {
            return ;
        }
        let rows = rows_for(self.items.len(), MAX_ROWS);
        let content = self.content_width(surface.glyphs());
        let width = width_for(content, MIN_WIDTH, MAX_WIDTH, area.width);
        let r = place_below(area, cursor, width, rows + 2);
        assert(r == popup_box(self@, area, cursor, surface@.glyphs));
        surface.draw_box(r, theme, "completion");
        let inner = r.inset();
        let start = scroll_start(self.selected, inner.height);
        let ghost base = surface@;
        let mut row: u32 = 0;
        while row < inner.height && start < self.items.len() && (row as usize) < self.items.len()
            - start
            invariant
                surface@.wf(),
                inner.x + inner.width <= u32::MAX,
                inner.x <= MAX_EXTENT + 1,
                inner.y + inner.height <= u32::MAX,
                start == first_visible(self@.selected, inner.height as nat),
                row <= inner.height,
                draw_items(base, self@, inner, 0, *theme) == draw_items(
                    surface@,
                    self@,
                    inner,
                    row as nat,
                    *theme,
                ),
            decreases inner.height - row,
        {
            let index: usize = start + row as usize;
            let item = &self.items[index];
            let selected = index == self.selected;
            let y: u32 = inner.y + row;
            let style = if selected {
                theme.inverse()
            } else {
                theme.base_style()
            };
            let dim = if selected {
                theme.inverse()
            } else {
                theme.accented()
            };
            surface.blank(inner.x, inner.right(), y, style);
            let after = surface.set_str(inner.x, y, item.label.as_str(), style);
            if let Some(detail) = &item.detail {
                if after + 1 < inner.right() {
                    let mut text = String::new();
                    text.push(' ');
                    text.append(detail.as_str());
                    assert(text@ =~= seq![' '] + detail@);
                    surface.set_str(after + 1, y, text.as_str(), dim);
                }
            }
            row += 1;
        }
    }
}

fn wanted_width(glyphs: &Glyphs, item: &CompletionItem) -> (r: usize)
    ensures
        r == least(item_width(*glyphs, *item) as int, usize::MAX as int),
{
    let label = text_width(glyphs, item.label.as_str());
    match &item.detail {
        Some(detail) => label.saturating_add(text_width(glyphs, detail.as_str())).saturating_add(1),
        None => label,
    }
}

} // verus!
