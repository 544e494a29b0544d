//! The signature-help popup: the parameters of the call being typed, with the active one marked.

use crate::popup::{clamp, held, least, most, popup_width, width_for};
use crate::surface::{Canvas, Rect, Style, Surface, Theme};
use crate::text::{char_bytes, chars_of, trim, trim_bounds, utf8_len};
use vstd::prelude::*;

verus! {

/// A signature-help popup: the active signature's label and the byte range of its active
/// parameter.
#[derive(Clone, Debug, PartialEq, Eq)]
pub struct SignatureHelp {
    label: String,
    active: Option<(usize, usize)>,
}

/// The largest number of rows that the label wraps to.
pub const MAX_ROWS: u32 = 8;

/// The largest width of the popup.
pub const MAX_WIDTH: u32 = 72;

/// The smallest width of the popup.
pub const MIN_WIDTH: u32 = 14;

/// How many rows of `width` columns a label of `len` characters takes, at least one and no more
/// than are shown.
pub open spec fn label_rows(len: nat, width: nat) -> nat {
    least(most(((len + width - 1) / width as int) as int, 1), MAX_ROWS as int) as nat
}

/// The box of the popup: above the cursor if there is room, else below it, else at the top, and in
/// any case inside the area, whose height it does not exceed.
pub open spec fn popup_box(len: nat, area: Rect, cursor: (u16, u16)) -> Rect {
    let width = popup_width(len, MIN_WIDTH, MAX_WIDTH, area.width);
    let height = least(label_rows(len, (width - 2) as nat) + 2int, area.height as int);
    let wanted = if cursor.1 >= area.y + height {
        cursor.1 - height
    } else if cursor.1 + 1 + height <= area.bottom_row() {
        cursor.1 + 1
    } else {
        area.y as int
    };
    Rect {
        x: clamp(cursor.0 as int, area.x as int, area.right_col() - width) as u32,
        y: clamp(wanted, area.y as int, area.bottom_row() - height) as u32,
        width,
        height: height as u32,
    }
}

/// The popup lies inside its area, if that is large enough to draw it at all.
pub proof fn law_box_stays_inside(len: nat, area: Rect, cursor: (u16, u16))
    requires
        area.wf(),
        area.width >= MIN_WIDTH,
        area.height >= 3,
    ensures
        ({
            let r = popup_box(len, area, cursor);
            &&& area.x <= r.x && r.right_col() <= area.right_col()
            &&& area.y <= r.y && r.bottom_row() <= area.bottom_row()
        }),
{
}

/// The style of the character at a byte offset of the label.
pub open spec fn char_style(active: Option<(usize, usize)>, byte: nat, theme: Theme) -> Style {
    match active {
        Some((start, end)) => if start <= byte < end {
            theme.inverse()
        } else {
            theme.base_style()
        },
        None => theme.base_style(),
    }
}

/// The characters of the label from index `i` on drawn into the box, wrapped at its width; `byte`
/// is the byte offset of the next one and `row`, `col` its place.
pub open spec fn draw_label(
    c: Canvas,
    label: Seq<char>,
    active: Option<(usize, usize)>,
    inner: Rect,
    i: int,
    byte: nat,
    row: nat,
    col: nat,
    theme: Theme,
) -> Canvas
    decreases label.len() - i,
{
    if i >= label.len() {
        c
    } else {
        let row2 = if col >= inner.width {
            row + 1
        } else {
            row
        };
        let col2: nat = if col >= inner.width {
            0
        } else {
            col
        };
        if col >= inner.width && row2 >= inner.height {
            c
        } else {
            draw_label(
                c.glyph(
                    inner.x + col2 as int,
                    inner.y + row2 as int,
                    label[i],
                    char_style(active, byte, theme),
                ),
                label,
                active,
                inner,
                i + 1,
                byte + utf8_len(label[i]),
                row2,
                col2 + 1,
                theme,
            )
        }
    }
}

/// The popup drawn over `c`.
pub open spec fn drawn(
    c: Canvas,
    label: Seq<char>,
    active: Option<(usize, usize)>,
    area: Rect,
    cursor: (u16, u16),
    theme: Theme,
) -> Canvas {
    if trim(label).len() == 0 || area.width < MIN_WIDTH || area.height < 3 {
        c
    } else {
        let r = popup_box(label.len(), area, cursor);
        let inner = r.inner();
        draw_label(
            c.boxed(r, theme, "signature"@).blank_rows(
                inner.x as int,
                inner.right_col(),
                inner.y as int,
                inner.bottom_row(),
                theme.base_style(),
            ),
            label,
            active,
            inner,
            0,
            0,
            0,
            0,
            theme,
        )
    }
}

impl SignatureHelp {
    /// The label of the signature.
    pub closed spec fn text(self) -> Seq<char> {
        self.label@
    }

    /// The byte range of the active parameter, if any.
    pub closed spec fn range(self) -> Option<(usize, usize)> {
        self.active
    }

    /// Builds a popup from a label and the byte range of the active parameter within it.
    pub fn new(label: &str, active: Option<(usize, usize)>) -> (r: Self)
        ensures
            r.text() == label@,
            r.range() == active,
    {
        SignatureHelp { label: label.to_owned(), active }
    }

    /// Whether there is nothing to show.
    pub fn is_empty(&self) -> (r: bool)
        ensures
            r == (trim(self.text()).len() == 0),
    {
        let chars = chars_of(self.label.as_str());
        let (from, to) = trim_bounds(chars.as_slice());
        from == to
    }

    /// Draws the popup near `cursor`, a position on the screen, inside `area`. It prefers to open
    /// above the cursor, so as not to cover the arguments being typed.
    pub fn render(&self, surface: &mut Surface, area: Rect, cursor: (u16, u16), theme: &Theme)
        requires
            old(surface)@.wf(),
            area.wf(),
        ensures
            final(surface)@ == drawn(
                old(surface)@,
                self.text(),
                self.range(),
                area,
                cursor,
                *theme,
            ),
            final(surface)@.wf(),
    {
        if self.is_empty() || area.width < MIN_WIDTH || area.height < 3 {
            return ;
        }
        let chars = chars_of(self.label.as_str());
        let width = width_for(chars.len(), MIN_WIDTH, MAX_WIDTH, area.width);
        let inner_width: u32 = width - 2;
        let rows = wrapped_rows(chars.len(), inner_width);
        let height: u32 = if rows + 2 < area.height {
            rows + 2
        } else {
            area.height
        };
        let cy: u32 = cursor.1 as u32;
        let wanted: u32 = if cy >= area.y + height {
            cy - height
        } else if cy + 1 + height <= area.bottom() {
            cy + 1
        } else {
            area.y
        };
        let x = held(cursor.0 as u32, area.x, area.right() - width);
        let y = held(wanted, area.y, area.bottom() - height);
        let r = Rect { x, y, width, height };
        assert(r == popup_box(chars@.len(), area, cursor));
        surface.draw_box(r, theme, "signature");
        let inner = r.inset();
        surface.fill(inner, theme.base_style());
        let ghost base = surface@;
        let mut byte: u128 = 0;
        let mut col: u32 = 0;
        let mut row: u32 = 0;
        let mut i: usize = 0;
        while i < chars.len()
            invariant
                surface@.wf(),
                i <= chars@.len(),
                chars@ == self.text(),
                byte <= 4 * i,
                col <= inner.width,
                row < inner.height,
                inner.x + inner.width <= u32::MAX,
                inner.y + inner.height <= u32::MAX,
                inner.width >= 1,
                drawn(old(surface)@, self.text(), self.range(), area, cursor, *theme)
                    == draw_label(base, self.text(), self.range(), inner, 0, 0, 0, 0, *theme),
                draw_label(
                    base,
                    self.text(),
                    self.range(),
                    inner,
                    0,
                    0,
                    0,
                    0,
                    *theme,
                ) == draw_label(
                    surface@,
                    self.text(),
                    self.range(),
                    inner,
                    i as int,
                    byte as nat,
                    row as nat,
                    col as nat,
                    *theme,
                ),
            decreases chars@.len() - i,
        {
            if col >= inner.width {
                if row + 1 >= inner.height {
                    return ;
                }
                col = 0;
                row += 1;
            }
            let style = match self.active {
                Some((start, end)) => if start as u128 <= byte && byte < end as u128 {
                    theme.inverse()
                } else {
                    theme.base_style()
                },
                None => theme.base_style(),
            };
            surface.set_char(inner.x + col, inner.y + row, chars[i], style);
            byte = byte + char_bytes(chars[i]) as u128;
            col += 1;
            i += 1;
        }
    }
}

/// How many rows of `width` columns a label of `len` characters takes.
fn wrapped_rows(len: usize, width: u32) -> (r: u32)
    requires
        width >= 1,
        width <= MAX_WIDTH,
    ensures
        r == label_rows(len as nat, width as nat),
        1 <= r <= MAX_ROWS,
{
    let len: u128 = len as u128;
    let width: u128 = width as u128;
    let n: u128 = (len + width - 1) / width;
    if n < 1 {
        1
    } else if n < MAX_ROWS as u128 {
        n as u32
    } else {
        MAX_ROWS
    }
}

/// The active parameter stands out from the rest of the label, from its first byte up to its last.
pub proof fn law_active_parameter_stands_out(start: usize, end: usize, byte: nat, theme: Theme)
    ensures
        start <= byte < end ==> char_style(Some((start, end)), byte, theme) == theme.inverse(),
        byte < start || end <= byte ==> char_style(Some((start, end)), byte, theme) == theme.base_style(),
        char_style(None, byte, theme) == theme.base_style(),
{
}

} // verus!
