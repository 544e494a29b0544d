//! The document preview: a modal pane that shows a source document formatted.
//!
//! A [`Preview`] lays its source out for the width of the pane ([`crate::markdown`],
//! [`crate::texinfo`]) and draws the part that is scrolled into view.

use crate::popup::{least, most};
use crate::surface::{Canvas, Glyphs, Rect, Surface, Theme};
use crate::typeset::{pages, runs, Line, Palette, Run};
use vstd::prelude::*;

verus! {

/// Which markup language a [`Preview`] renders.
#[derive(Clone, Copy, Debug, PartialEq, Eq, Structural)]
pub enum PreviewKind {
    /// Markdown with GitHub's extensions.
    Markdown,
    /// GNU Texinfo.
    Texinfo,
}

/// The name of a markup language.
pub open spec fn label_of(kind: PreviewKind) -> Seq<char> {
    match kind {
        PreviewKind::Markdown => "Markdown"@,
        PreviewKind::Texinfo => "Texinfo"@,
    }
}

impl PreviewKind {
    /// The name for the header.
    pub fn label(self) -> (r: &'static str)
        ensures
            r@ == label_of(self),
    {
        match self {
            PreviewKind::Markdown => "Markdown",
            PreviewKind::Texinfo => "Texinfo",
        }
    }
}

/// The display lines of a source.
pub open spec fn rendered(
    kind: PreviewKind,
    source: Seq<char>,
    width: nat,
    palette: Palette,
    glyphs: Glyphs,
) -> Seq<Seq<Run>> {
    match kind {
        PreviewKind::Markdown => crate::markdown::laid_out(
            crate::markdown::parsed(source, crate::markdown::EXTENSIONS),
            width,
            palette,
            glyphs,
        ),
        PreviewKind::Texinfo => crate::texinfo::laid_out(source, width, palette, glyphs),
    }
}

/// A scrollable, styled rendering of a source document.
pub struct Preview {
    source: String,
    title: String,
    kind: PreviewKind,
    lines: Vec<Line>,
    width: u32,
    scroll: usize,
}

/// The state of a [`Preview`].
pub struct Pane {
    /// The source.
    pub source: Seq<char>,
    /// The title.
    pub title: Seq<char>,
    /// The markup language.
    pub kind: PreviewKind,
    /// The display lines; none before it is first drawn.
    pub lines: Seq<Seq<Run>>,
    /// The width that they were laid out for.
    pub width: u32,
    /// The first line in view.
    pub scroll: nat,
}

impl View for Preview {
    type V = Pane;

    closed spec fn view(&self) -> Pane {
        Pane {
            source: self.source@,
            title: self.title@,
            kind: self.kind,
            lines: pages(self.lines@),
            width: self.width,
            scroll: self.scroll as nat,
        }
    }
}

impl Pane {
    /// Laid out for a pane of the size of `body`, if it was not for that width, and scrolled no
    /// further than its end.
    pub open spec fn fitted(self, body: Rect, theme: Theme, glyphs: Glyphs) -> Pane {
        let lines = if self.width != body.width {
            rendered(self.kind, self.source, body.width as nat, Palette::new(&theme), glyphs)
        } else {
            self.lines
        };
        Pane {
            lines,
            width: body.width,
            scroll: least(self.scroll as int, most(lines.len() - body.height, 0)) as nat,
            ..self
        }
    }

    /// After it was drawn into `area`.
    pub open spec fn after_drawing(self, area: Rect, theme: Theme, glyphs: Glyphs) -> Pane {
        let body = area.top_split(1).1;
        if area.is_empty() || body.is_empty() {
            self
        } else {
            self.fitted(body, theme, glyphs)
        }
    }

    /// Drawn over `c`: a header, and the lines in view.
    pub open spec fn drawn(self, c: Canvas, area: Rect, theme: Theme) -> Canvas {
        if area.is_empty() {
            c
        } else {
            let (header, body) = area.top_split(1);
            let titled = c.blank(
                header.x as int,
                header.right_col(),
                header.y as int,
                theme.inverse(),
            ).text(
                header.x as int,
                header.y as int,
                " "@ + self.title + " — "@ + label_of(self.kind) + " preview · q to close"@,
                theme.inverse(),
            );
            if body.is_empty() {
                titled
            } else {
                draw_lines(titled, self.fitted(body, theme, c.glyphs), body, 0, theme)
            }
        }
    }
}

/// The runs of a line from `i` on drawn from column `x` on, as far as they start before `right`.
pub open spec fn draw_runs(c: Canvas, line: Seq<Run>, i: nat, x: int, y: int, right: int) -> Canvas
    decreases line.len() - i,
{
    if i >= line.len() || x >= right {
        c
    } else {
        let run = line[i as int];
        draw_runs(
            c.text(x, y, run.text, run.style),
            line,
            i + 1,
            c.text_end(x, run.text),
            y,
            right,
        )
    }
}

/// The lines in view from row `i` on drawn into `body`, each over a blank line.
pub open spec fn draw_lines(c: Canvas, p: Pane, body: Rect, i: nat, theme: Theme) -> Canvas
    decreases body.height - i,
{
    if i >= body.height {
        c
    } else {
        let y = body.y + i as int;
        let blank = c.blank(body.x as int, body.right_col(), y, theme.base_style());
        let index = p.scroll + i;
        draw_lines(
            if index < p.lines.len() {
                draw_runs(blank, p.lines[index as int], 0, body.x as int, y, body.right_col())
            } else {
                blank
            },
            p,
            body,
            i + 1,
            theme,
        )
    }
}

fn put_runs(surface: &mut Surface, line: &Line, x: u32, y: u32, right: u32)
    requires
        old(surface)@.wf(),
    ensures
        final(surface)@ == draw_runs(
            old(surface)@,
            runs(line@),
            0,
            x as int,
            y as int,
            right as int,
        ),
        final(surface)@.wf(),
{
    let ghost all = runs(line@);
    let ghost base = surface@;
    let mut column: u32 = x;
    let mut i: usize = 0;
    while i < line.len() && column < right
        invariant
            surface@.wf(),
            i <= line@.len(),
            all == runs(line@),
            draw_runs(base, all, 0, x as int, y as int, right as int) == draw_runs(
                surface@,
                all,
                i as nat,
                column as int,
                y as int,
                right as int,
            ),
        decreases line@.len() - i,
    {
        assert(all[i as int] == (Run { text: line@[i as int].0@, style: line@[i as int].1 }));
        column = surface.set_str(column, y, line[i].0.as_str(), line[i].1);
        i += 1;
    }
}

impl Preview {
    /// A preview of `source`, not yet laid out.
    pub fn new(source: &str, title: &str, kind: PreviewKind) -> (r: Self)
        ensures
            r@ == (Pane {
                source: source@,
                title: title@,
                kind,
                lines: Seq::empty(),
                width: 0,
                scroll: 0,
            }),
    {
        let r = Preview {
            source: source.to_owned(),
            title: title.to_owned(),
            kind,
            lines: Vec::new(),
            width: 0,
            scroll: 0,
        };
        assert(r@.lines =~= Seq::empty());
        r
    }

    /// Scrolls down by `rows`.
    pub fn scroll_down(&mut self, rows: usize)
        ensures
            final(self)@ == (Pane {
                scroll: least(old(self)@.scroll + rows, usize::MAX as int) as nat,
                ..old(self)@
            }),
    {
        self.scroll = self.scroll.saturating_add(rows);
    }

    /// Scrolls up by `rows`.
    pub fn scroll_up(&mut self, rows: usize)
        ensures
            final(self)@ == (Pane {
                scroll: most(old(self)@.scroll - rows, 0) as nat,
                ..old(self)@
            }),
    {
        self.scroll = self.scroll.saturating_sub(rows);
    }

    /// Draws the header and the lines in view into `area`, laid out anew if the width changed.
    pub fn render(&mut self, surface: &mut Surface, area: Rect, theme: &Theme)
        requires
            old(surface)@.wf(),
            area.wf(),
        ensures
            final(surface)@ == old(self)@.drawn(old(surface)@, area, *theme),
            final(surface)@.wf(),
            final(self)@ == old(self)@.after_drawing(area, *theme, old(surface)@.glyphs),
    {
        if area.is_empty() {
            return ;
        }
        let (header, body) = area.split_top(1);
        if !body.is_empty() {
            self.fit(body, theme, surface.glyphs());
        }
        surface.blank(header.x, header.right(), header.y, theme.inverse());
        let mut title = " ".to_owned();
        title.append(self.title.as_str());
        title.append(" — ");
        title.append(self.kind.label());
        title.append(" preview · q to close");
        surface.set_str(header.x, header.y, title.as_str(), theme.inverse());
        if body.is_empty() {
            return ;
        }
        let ghost base = surface@;
        let mut i: u32 = 0;
        while i < body.height
            invariant
                surface@.wf(),
                i <= body.height,
                body.x + body.width <= u32::MAX,
                body.y + body.height <= u32::MAX,
                draw_lines(base, self@, body, 0, *theme) == draw_lines(
                    surface@,
                    self@,
                    body,
                    i as nat,
                    *theme,
                ),
            decreases body.height - i,
        {
            let y: u32 = body.y + i;
            surface.blank(body.x, body.right(), y, theme.base_style());
            if self.scroll < self.lines.len() && (i as usize) < self.lines.len() - self.scroll {
                let index: usize = self.scroll + i as usize;
                assert(self@.lines[index as int] == runs(self.lines@[index as int]@));
                put_runs(surface, &self.lines[index], body.x, y, body.right());
            }
            i += 1;
        }
    }

    /// Lays the source out for the width of `body`, if it was not, and keeps the scroll position
    /// in the document.
    fn fit(&mut self, body: Rect, theme: &Theme, glyphs: &Glyphs)
        requires
            !body.is_empty(),
        ensures
            final(self)@ == old(self)@.fitted(body, *theme, *glyphs),
    {
        if self.width != body.width {
            let palette = Palette::new(theme);
            let columns = body.width as usize;
            self.lines = match self.kind {
                PreviewKind::Markdown => crate::markdown::layout(
                    self.source.as_str(),
                    columns,
                    &palette,
                    glyphs,
                ),
                PreviewKind::Texinfo => crate::texinfo::layout(
                    self.source.as_str(),
                    columns,
                    &palette,
                    glyphs,
                ),
            };
            self.width = body.width;
        }
        let height = body.height as usize;
        let end: usize = if self.lines.len() > height {
            self.lines.len() - height
        } else {
            0
        };
        assert(self@.lines.len() == self.lines@.len());
        if self.scroll > end {
            self.scroll = end;
        }
    }
}

} // verus!
