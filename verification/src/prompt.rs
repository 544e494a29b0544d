//! A one-line modal text input.

use crate::popup::least;
use crate::surface::{Canvas, Rect, Surface, Theme};
use crate::text::{chars_of, slice_of};
use vstd::prelude::*;

verus! {

/// A single-line modal text input with a title.
#[derive(Clone, Debug)]
pub struct Prompt {
    title: String,
    input: String,
}

/// The preferred width of the box.
pub const WIDTH: u32 = 48;

/// The prompt drawn over `c`.
pub open spec fn drawn(
    c: Canvas,
    title: Seq<char>,
    input: Seq<char>,
    area: Rect,
    theme: Theme,
) -> Canvas {
    if area.width < 3 || area.height < 3 {
        c
    } else {
        let r = area.centred(least(WIDTH as int, area.width as int) as u32, 3);
        let inner = r.inner();
        let line = input.push('\u{2588}');
        c.boxed(r, theme, title).blank(
            inner.x as int,
            inner.right_col(),
            inner.y as int,
            theme.base_style(),
        ).text(
            inner.x as int,
            inner.y as int,
            line.take(least(line.len() as int, inner.width as int)),
            theme.base_style(),
        )
    }
}

impl Prompt {
    /// The title.
    pub closed spec fn heading(self) -> Seq<char> {
        self.title@
    }

    /// The input.
    pub closed spec fn text(self) -> Seq<char> {
        self.input@
    }

    /// A prompt titled `title`, pre-filled with `initial`.
    pub fn new(title: &str, initial: &str) -> (r: Self)
        ensures
            r.heading() == title@,
            r.text() == initial@,
    {
        Prompt { title: title.to_owned(), input: initial.to_owned() }
    }

    /// Appends `c` to the input.
    pub fn push(&mut self, c: char)
        ensures
            final(self).heading() == old(self).heading(),
            final(self).text() == old(self).text().push(c),
    {
        self.input.push(c);
    }

    /// Removes the last character of the input, if there is one.
    pub fn backspace(&mut self)
        ensures
            final(self).heading() == old(self).heading(),
            final(self).text() == if old(self).text().len() > 0 {
                old(self).text().drop_last()
            } else {
                old(self).text()
            },
    {
        self.input.pop();
    }

    /// The input.
    pub fn input(&self) -> (r: &str)
        ensures
            r@ == self.text(),
    {
        self.input.as_str()
    }

    /// Draws the prompt as a box in the middle of `area`: the title on the border, the input and
    /// a caret inside, clipped to the box.
    pub fn render(&self, surface: &mut Surface, area: Rect, theme: &Theme)
        requires
            old(surface)@.wf(),
            area.wf(),
        ensures
            final(surface)@ == drawn(
                old(surface)@,
                self.heading(),
                self.text(),
                area,
                *theme,
            ),
            final(surface)@.wf(),
    {
        if area.width < 3 || area.height < 3 {
            return ;
        }
        let width: u32 = if WIDTH < area.width {
            WIDTH
        } else {
            area.width
        };
        let r = area.centre(width, 3);
        surface.draw_box(r, theme, self.title.as_str());
        let inner = r.inset();
        surface.blank(inner.x, inner.right(), inner.y, theme.base_style());
        let mut line = chars_of(self.input.as_str());
        line.push('\u{2588}');
        let n: usize = if line.len() < inner.width as usize {
            line.len()
        } else {
            inner.width as usize
        };
        let shown = slice_of(line.as_slice(), 0, n);
        assert(shown@ =~= self.text().push('\u{2588}').take(n as int));
        surface.set_chars(inner.x, inner.y, shown.as_slice(), theme.base_style());
    }
}

} // verus!
