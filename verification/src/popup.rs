//! What the popups share: where they open, how wide they are, and lists with a selection.

use crate::surface::{Canvas, Rect, Style, Surface, MAX_EXTENT};
use crate::text::strings;
use vstd::prelude::*;

verus! {

/// The smaller of two numbers.
pub open spec fn least(a: int, b: int) -> int {
    if a < b {
        a
    } else {
        b
    }
}

/// The larger of two numbers.
pub open spec fn most(a: int, b: int) -> int {
    if a < b {
        b
    } else {
        a
    }
}

/// A number kept between two bounds.
pub open spec fn clamp(n: int, low: int, high: int) -> int {
    if n < low {
        low
    } else if n > high {
        high
    } else {
        n
    }
}

/// The width of a bordered popup for a content of `content` columns: between two bounds, and no
/// wider than the area it opens in.
pub open spec fn popup_width(content: nat, low: u32, high: u32, available: u32) -> u32 {
    least(clamp(content + 2int, low as int, high as int), available as int) as u32
}

/// The width of a bordered popup.
pub fn width_for(content: usize, low: u32, high: u32, available: u32) -> (r: u32)
    requires
        low <= high,
    ensures
        r == popup_width(content as nat, low, high, available),
        r <= available,
        r <= high,
        low <= available ==> r >= low,
{
    let wanted: u32 = if content >= high as usize {
        high
    } else {
        let n: u32 = content as u32;
        if high - n < 2 {
            high
        } else {
            n + 2
        }
    };
    let bounded: u32 = if wanted < low {
        low
    } else {
        wanted
    };
    if bounded < available {
        bounded
    } else {
        available
    }
}

/// The largest of the widths that the first `n` entries want.
pub open spec fn widest<T>(items: Seq<T>, width: spec_fn(T) -> nat, n: nat) -> nat
    decreases n,
{
    if n == 0 {
        0
    } else {
        most(widest(items, width, (n - 1) as nat) as int, width(items[n - 1]) as int) as nat
    }
}

/// How many rows a list popup has: one per entry, up to a maximum.
pub open spec fn popup_rows(entries: nat, max: u32) -> u32 {
    least(entries as int, max as int) as u32
}

/// How many rows a list popup has.
pub fn rows_for(entries: usize, max: u32) -> (r: u32)
    ensures
        r == popup_rows(entries as nat, max),
        r <= max,
        r <= entries,
{
    if entries < max as usize {
        entries as u32
    } else {
        max
    }
}

/// The box of a popup at a cursor: below it, or above it where the area ends too early, and in any
/// case inside the area, whose height it does not exceed.
pub open spec fn below_cursor(area: Rect, cursor: (u16, u16), width: u32, height: u32) -> Rect {
    let rows = least(height as int, area.height as int);
    let wanted = if cursor.1 + 1 + rows <= area.bottom_row() {
        cursor.1 + 1
    } else {
        cursor.1 - rows
    };
    Rect {
        x: clamp(cursor.0 as int, area.x as int, area.right_col() - width) as u32,
        y: clamp(wanted, area.y as int, area.bottom_row() - rows) as u32,
        width,
        height: rows as u32,
    }
}

/// The box of a popup at a cursor, preferably below it.
pub fn place_below(area: Rect, cursor: (u16, u16), width: u32, height: u32) -> (r: Rect)
    requires
        area.wf(),
        width <= area.width,
        height <= MAX_EXTENT,
    ensures
        r == below_cursor(area, cursor, width, height),
        r.x <= MAX_EXTENT,
        r.y <= MAX_EXTENT,
        r.width == width,
        r.height == least(height as int, area.height as int),
{
    let cy: u32 = cursor.1 as u32;
    let rows: u32 = if height < area.height {
        height
    } else {
        area.height
    };
    let y: u32 = if cy + 1 + rows <= area.bottom() {
        cy + 1
    } else {
        cy.saturating_sub(rows)
    };
    Rect {
        x: held(cursor.0 as u32, area.x, area.right() - width),
        y: held(y, area.y, area.bottom() - rows),
        width,
        height: rows,
    }
}

/// A number kept between two bounds.
pub fn held(n: u32, low: u32, high: u32) -> (r: u32)
    requires
        low <= high,
    ensures
        r == clamp(n as int, low as int, high as int),
{
    if n < low {
        low
    } else if n > high {
        high
    } else {
        n
    }
}

/// A popup that is no wider than its area lies inside it.
pub proof fn law_popup_stays_inside(area: Rect, cursor: (u16, u16), width: u32, height: u32)
    requires
        area.wf(),
        width <= area.width,
    ensures
        ({
            let r = below_cursor(area, cursor, width, height);
            &&& area.x <= r.x && r.right_col() <= area.right_col()
            &&& area.y <= r.y && r.bottom_row() <= area.bottom_row()
        }),
{
}

/// The first visible entry of a list of which `rows` are shown, so that the selected one is.
pub open spec fn first_visible(selected: nat, rows: nat) -> nat {
    if rows == 0 || selected < rows {
        0
    } else {
        (selected + 1 - rows) as nat
    }
}

/// The first visible entry of a list.
pub fn scroll_start(selected: usize, rows: u32) -> (r: usize)
    ensures
        r == first_visible(selected as nat, rows as nat),
        r <= selected,
{
    let rows = rows as usize;
    if rows == 0 || selected < rows {
        0
    } else {
        selected - (rows - 1)
    }
}

/// The selected entry is always among the visible ones.
pub proof fn law_selection_visible(selected: nat, rows: nat)
    requires
        rows > 0,
    ensures
        first_visible(selected, rows) <= selected < first_visible(selected, rows) + rows,
{
}

/// A list with a selected entry.
pub struct Picker<T> {
    /// The entries.
    pub items: Seq<T>,
    /// The index of the selected one.
    pub selected: nat,
}

impl<T> Picker<T> {
    /// The list with its first entry selected.
    pub open spec fn fresh(items: Seq<T>) -> Self {
        Picker { items, selected: 0 }
    }

    /// With the entry above selected; the first one stays.
    pub open spec fn up(self) -> Self {
        Picker {
            selected: if self.selected > 0 {
                (self.selected - 1) as nat
            } else {
                0
            },
            ..self
        }
    }

    /// With the entry below selected; the last one stays.
    pub open spec fn down(self) -> Self {
        Picker {
            selected: if self.selected + 1 < self.items.len() {
                self.selected + 1
            } else {
                self.selected
            },
            ..self
        }
    }

    /// The selected entry, if there is one.
    pub open spec fn chosen(self) -> Option<T> {
        if self.selected < self.items.len() {
            Some(self.items[self.selected as int])
        } else {
            None
        }
    }

    /// Whether the selection lies in the list, if the list has entries.
    pub open spec fn in_range(self) -> bool {
        self.items.len() > 0 ==> self.selected < self.items.len()
    }
}

/// The selection starts in the list and never leaves it.
pub proof fn law_selection_stays_in_range<T>(p: Picker<T>)
    ensures
        Picker::fresh(p.items).in_range(),
        p.in_range() ==> p.up().in_range() && p.down().in_range(),
{
}

/// The entry below, then the entry above, is the entry itself, unless it is the last one.
pub proof fn law_down_then_up<T>(p: Picker<T>)
    requires
        p.selected + 1 < p.items.len(),
    ensures
        p.down().up() == p,
{
}

/// Lines drawn into the rows of a rectangle, from row `row` on.
pub open spec fn draw_lines(
    c: Canvas,
    inner: Rect,
    lines: Seq<Seq<char>>,
    row: nat,
    style: Style,
) -> Canvas
    decreases inner.height - row,
{
    if row >= inner.height || row >= lines.len() {
        c
    } else {
        draw_lines(
            c.text(inner.x as int, inner.y + row as int, lines[row as int], style),
            inner,
            lines,
            row + 1,
            style,
        )
    }
}

/// Draws lines into the rows of a rectangle, as many as it has.
pub fn put_lines(surface: &mut Surface, inner: Rect, lines: &[String], style: Style)
    requires
        old(surface)@.wf(),
        inner.y + inner.height <= u32::MAX,
    ensures
        final(surface)@ == draw_lines(old(surface)@, inner, strings(lines@), 0, style),
        final(surface)@.wf(),
{
    let ghost before = surface@;
    let mut row: u32 = 0;
    while row < inner.height && (row as usize) < lines.len()
        invariant
            surface@.wf(),
            row <= inner.height,
            inner.y + inner.height <= u32::MAX,
            draw_lines(before, inner, strings(lines@), 0, style) == draw_lines(
                surface@,
                inner,
                strings(lines@),
                row as nat,
                style,
            ),
        decreases inner.height - row,
    {
        surface.set_str(inner.x, inner.y + row, lines[row as usize].as_str(), style);
        row += 1;
    }
}

/// Up selects the entry above and down the entry below; at the ends the selection stays.
pub proof fn law_selection_goes_one_by_one<T>(p: Picker<T>)
    requires
        p.selected < p.items.len(),
    ensures
        p.selected + 1 < p.items.len() ==> p.down().chosen() == Some(p.items[p.selected + 1int]),
        p.selected + 1 == p.items.len() ==> p.down() == p,
        p.selected > 0 ==> p.up().chosen() == Some(p.items[p.selected - 1]),
        p.selected == 0 ==> p.up() == p,
        p.chosen() == Some(p.items[p.selected as int]),
        p.up().items == p.items && p.down().items == p.items,
        Picker::fresh(p.items).chosen() == Some(p.items[0]),
{
}

/// A list scrolls only as far as it has to: up to the row of the selected entry.
pub proof fn law_list_scrolls_no_further(selected: nat, rows: nat)
    requires
        rows > 0,
    ensures
        selected < rows ==> first_visible(selected, rows) == 0,
        selected >= rows ==> first_visible(selected, rows) + rows == selected + 1,
{
}

/// A popup stands right below the cursor where there is room for it, and right above it otherwise; its
/// left edge is at the cursor where there is room, and as far right as there is otherwise.
pub proof fn law_popup_stands_by_the_cursor(area: Rect, cursor: (u16, u16), width: u32, height: u32)
    requires
        area.wf(),
        area.x <= cursor.0 < area.x + area.width,
        area.y <= cursor.1 < area.y + area.height,
        0 < width <= area.width,
        0 < height <= area.height,
    ensures
        ({
            let r = below_cursor(area, cursor, width, height);
            &&& r.width == width && r.height == height
            &&& cursor.1 + 1 + height <= area.y + area.height ==> r.y == cursor.1 + 1
            &&& cursor.1 + 1 + height > area.y + area.height && cursor.1 - height >= area.y ==> r.y + height
                == cursor.1
            &&& cursor.0 + width <= area.x + area.width ==> r.x == cursor.0
            &&& cursor.0 + width > area.x + area.width ==> r.x + width == area.x + area.width
        }),
{
}

/// The widest of some entries is as wide as one of them, and none is wider.
pub proof fn law_widest_is_the_largest_width<T>(items: Seq<T>, width: spec_fn(T) -> nat, n: nat, k: int)
    requires
        0 <= k < n <= items.len(),
    ensures
        width(items[k]) <= widest(items, width, n),
        exists|j: int| 0 <= j < n && #[trigger] width(items[j]) == widest(items, width, n),
    decreases n,
{
    let last = items[n - 1];
    if n == 1 {
        assert(widest(items, width, 0) == 0);
        assert(width(items[0]) == widest(items, width, n));
    } else {
        if k < n - 1 {
            law_widest_is_the_largest_width(items, width, (n - 1) as nat, k);
        } else {
            law_widest_is_the_largest_width(items, width, (n - 1) as nat, 0);
        }
        if widest(items, width, n) == width(last) {
            assert(width(items[n - 1]) == widest(items, width, n));
        } else {
            let j = choose|j: int|
                0 <= j < n - 1 && #[trigger] width(items[j]) == widest(items, width, (n - 1) as nat);
            assert(width(items[j]) == widest(items, width, n));
        }
    }
}

/// A popup is two cells wider than its contents, for its border, within its bounds and the area.
pub proof fn law_popup_is_as_wide_as_its_contents(content: nat, low: u32, high: u32, available: u32)
    requires
        low <= high <= available,
    ensures
        low <= content + 2 <= high ==> popup_width(content, low, high, available) == content + 2,
        content + 2 < low ==> popup_width(content, low, high, available) == low,
        content + 2 > high ==> popup_width(content, low, high, available) == high,
{
}

} // verus!
