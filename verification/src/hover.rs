//! The hover popup: documentation for the symbol at the cursor.

use crate::popup::{
    below_cursor, least, most, place_below, popup_rows, popup_width, rows_for, widest, width_for,
};
use crate::surface::{Canvas, Rect, Surface, Theme};
use crate::text::{
    chars_of, is_white, leading_white, lemma_line_end, line_end, lines, lines_of, slice_of,
    string_of, strings, texts, trailing_white, trim, trim_bounds, trim_start, without_return,
};
use vstd::prelude::*;

verus! {

/// A hover popup: the documentation lines and the first visible one.
#[derive(Clone, Debug)]
pub struct Hover {
    lines: Vec<String>,
    scroll: usize,
}

/// The state of a [`Hover`].
pub struct HoverState {
    /// The lines.
    pub lines: Seq<Seq<char>>,
    /// The index of the first visible one.
    pub scroll: nat,
}

/// The largest number of lines shown at once.
pub const MAX_ROWS: u32 = 12;

/// The largest width of the popup.
pub const MAX_WIDTH: u32 = 72;

/// The smallest width of the popup.
pub const MIN_WIDTH: u32 = 14;

impl View for Hover {
    type V = HoverState;

    closed spec fn view(&self) -> HoverState {
        HoverState { lines: strings(self.lines@), scroll: self.scroll as nat }
    }
}

/// Whether a line holds nothing but white space.
pub open spec fn is_blank(line: Seq<char>) -> bool {
    trim(line).len() == 0
}

/// `ls` without the blank lines at its start.
pub open spec fn without_leading(ls: Seq<Seq<char>>) -> Seq<Seq<char>>
    decreases ls.len(),
{
    if ls.len() > 0 && is_blank(ls[0]) {
        without_leading(ls.drop_first())
    } else {
        ls
    }
}

/// `ls` without the blank lines at its end.
pub open spec fn without_trailing(ls: Seq<Seq<char>>) -> Seq<Seq<char>>
    decreases ls.len(),
{
    if ls.len() > 0 && is_blank(ls.last()) {
        without_trailing(ls.drop_last())
    } else {
        ls
    }
}

/// The lines that a hover popup shows for a text.
pub open spec fn hover_lines(text: Seq<char>) -> Seq<Seq<char>> {
    without_trailing(without_leading(lines(text)))
}

/// The box of the popup.
pub open spec fn popup_box(h: HoverState, area: Rect, cursor: (u16, u16)) -> Rect {
    below_cursor(
        area,
        cursor,
        popup_width(
            widest(h.lines, |line: Seq<char>| line.len(), h.lines.len()),
            MIN_WIDTH,
            MAX_WIDTH,
            area.width,
        ),
        (popup_rows(h.lines.len(), MAX_ROWS) + 2) as u32,
    )
}

/// The first line drawn: the scroll offset, but no further than the last line.
pub open spec fn first_line(h: HoverState) -> int {
    least(h.scroll as int, most(h.lines.len() - 1, 0))
}

/// The lines from the visible row `row` on drawn into the box, clipped to its inside.
pub open spec fn draw_rows(c: Canvas, h: HoverState, inner: Rect, row: nat, theme: Theme) -> Canvas
    decreases inner.height - row,
{
    let index = first_line(h) + row;
    if row >= inner.height || index >= h.lines.len() {
        c
    } else {
        let line = h.lines[index];
        let y = inner.y + row as int;
        draw_rows(
            c.blank(inner.x as int, inner.right_col(), y, theme.base_style()).text(
                inner.x as int,
                y,
                line.take(least(line.len() as int, inner.width as int)),
                theme.base_style(),
            ),
            h,
            inner,
            row + 1,
            theme,
        )
    }
}

/// The popup drawn over `c`.
pub open spec fn drawn(
    c: Canvas,
    h: HoverState,
    area: Rect,
    cursor: (u16, u16),
    theme: Theme,
) -> Canvas {
    if h.lines.len() == 0 || area.width < MIN_WIDTH || area.height < 3 {
        c
    } else {
        let r = popup_box(h, area, cursor);
        draw_rows(c.boxed(r, theme, "hover"@), h, r.inner(), 0, theme)
    }
}

fn blank_line(line: &[char]) -> (r: bool)
    ensures
        r == is_blank(line@),
{
    let (from, to) = trim_bounds(line);
    from == to
}

impl Hover {
    /// Builds a hover popup from `text`, one entry per line, without the blank lines around it.
    pub fn new(text: &str) -> (r: Self)
        ensures
            r@ == (HoverState { lines: hover_lines(text@), scroll: 0 }),
    {
        let chars = chars_of(text);
        let all = lines_of(chars.as_slice());
        let ghost ls = texts(all@);
        let mut from: usize = 0;
        assert(ls.skip(0) =~= ls);
        while from < all.len() && blank_line(all[from].as_slice())
            invariant
                from <= all@.len(),
                ls == texts(all@),
                without_leading(ls) == without_leading(ls.skip(from as int)),
            decreases all@.len() - from,
        {
            assert(ls.skip(from as int)[0] == all@[from as int]@);
            assert(ls.skip(from as int).drop_first() =~= ls.skip(from + 1));
            from += 1;
        }
        let ghost rest = ls.skip(from as int);
        proof {
            if from < all.len() {
                assert(rest[0] == all@[from as int]@);
            }
            assert(without_leading(ls) == rest);
        }
        let mut to: usize = all.len();
        assert(rest.take(rest.len() as int) =~= rest);
        while to > from && blank_line(all[to - 1].as_slice())
            invariant
                from <= to <= all@.len(),
                ls == texts(all@),
                rest == ls.skip(from as int),
                without_trailing(rest) == without_trailing(rest.take(to - from)),
            decreases to,
        {
            assert(rest.take(to - from).last() == all@[to - 1]@);
            assert(rest.take(to - from).drop_last() =~= rest.take(to - from - 1));
            to -= 1;
        }
        let ghost kept = rest.take(to - from);
        proof {
            if to > from {
                assert(kept.last() == all@[to - 1]@);
            }
            assert(without_trailing(rest) == kept);
        }
        let mut out: Vec<String> = Vec::new();
        let mut i: usize = from;
        while i < to
            invariant
                from <= i <= to <= all@.len(),
                ls == texts(all@),
                kept == ls.skip(from as int).take(to - from),
                strings(out@) =~= kept.take(i - from),
            decreases to - i,
        {
            let line = string_of(all[i].as_slice());
            let ghost before = strings(out@);
            out.push(line);
            assert(strings(out@) =~= before.push(ls[i as int]));
            assert(kept[i - from] == ls[i as int]);
            assert(strings(out@) =~= kept.take(i + 1 - from));
            i += 1;
        }
        assert(strings(out@) =~= kept);
        Hover { lines: out, scroll: 0 }
    }

    /// The lines.
    pub fn lines(&self) -> (r: &Vec<String>)
        ensures
            strings(r@) == self@.lines,
    {
        &self.lines
    }

    /// The index of the first visible line.
    pub fn scroll(&self) -> (r: usize)
        ensures
            r == self@.scroll,
    {
        self.scroll
    }

    /// Whether there is nothing to show.
    pub fn is_empty(&self) -> (r: bool)
        ensures
            r == (self@.lines.len() == 0),
    {
        self.lines.len() == 0
    }

    /// Scrolls up one line, as far as the top.
    pub fn scroll_up(&mut self)
        ensures
            final(self)@ == old(self)@.up(),
    {
        if self.scroll > 0 {
            self.scroll -= 1;
        }
    }

    /// Scrolls down one line, as far as the last one.
    pub fn scroll_down(&mut self)
        ensures
            final(self)@ == old(self)@.down(),
    {
        if self.lines.len() > 0 && self.scroll < self.lines.len() - 1 {
            self.scroll += 1;
        }
    }

    fn content_width(&self) -> (r: usize)
        ensures
            r == widest(self@.lines, |line: Seq<char>| line.len(), self@.lines.len()),
    {
        let ghost w = |line: Seq<char>| line.len();
        let mut best: usize = 0;
        let mut i: usize = 0;
        while i < self.lines.len()
            invariant
                i <= self.lines@.len(),
                w == (|line: Seq<char>| line.len()),
                best == widest(strings(self.lines@), w, i as nat),
            decreases self.lines@.len() - i,
        {
            let wanted = self.lines[i].as_str().unicode_len();
            if best < wanted {
                best = wanted;
            }
            i += 1;
        }
        best
    }

    /// Draws the popup at `cursor`, a position on the screen, inside `area`: just below the
    /// cursor, or above it when there is no room.
    pub fn render(&self, surface: &mut Surface, area: Rect, cursor: (u16, u16), theme: &Theme)
        requires
            old(surface)@.wf(),
            area.wf(),
        ensures
            final(surface)@ == drawn(old(surface)@, self@, area, cursor, *theme),
            final(surface)@.wf(),
    {
        if self.lines.len() == 0 || area.width < MIN_WIDTH || area.height < 3 {
            return ;
        }
        let rows = rows_for(self.lines.len(), MAX_ROWS);
        let content = self.content_width();
        let width = width_for(content, MIN_WIDTH, MAX_WIDTH, area.width);
        let r = place_below(area, cursor, width, rows + 2);
        assert(r == popup_box(self@, area, cursor));
        surface.draw_box(r, theme, "hover");
        let inner = r.inset();
        let last: usize = self.lines.len() - 1;
        let start: usize = if self.scroll < last {
            self.scroll
        } else {
            last
        };
        let ghost base = surface@;
        let mut row: u32 = 0;
        while row < inner.height && (row as usize) < self.lines.len() - start
            invariant
                surface@.wf(),
                inner.x + inner.width <= u32::MAX,
                inner.y + inner.height <= u32::MAX,
                start == first_line(self@),
                start < self.lines@.len(),
                row <= inner.height,
                draw_rows(base, self@, inner, 0, *theme) == draw_rows(
                    surface@,
                    self@,
                    inner,
                    row as nat,
                    *theme,
                ),
            decreases inner.height - row,
        {
            let line = chars_of(self.lines[start + row as usize].as_str());
            let n: usize = if line.len() < inner.width as usize {
                line.len()
            } else {
                inner.width as usize
            };
            let shown = slice_of(line.as_slice(), 0, n);
            assert(shown@ =~= line@.take(n as int));
            let y: u32 = inner.y + row;
            surface.blank(inner.x, inner.right(), y, theme.base_style());
            surface.set_chars(inner.x, y, shown.as_slice(), theme.base_style());
            row += 1;
        }
    }
}

proof fn lemma_without_leading(ls: Seq<Seq<char>>)
    ensures
        without_leading(ls).len() > 0 ==> !is_blank(without_leading(ls)[0]),
    decreases ls.len(),
{
    if ls.len() > 0 && is_blank(ls[0]) {
        lemma_without_leading(ls.drop_first());
    }
}

proof fn lemma_without_trailing(ls: Seq<Seq<char>>)
    ensures
        without_trailing(ls).len() > 0 ==> !is_blank(without_trailing(ls).last()) && ls.len() > 0
            && without_trailing(ls)[0] == ls[0],
    decreases ls.len(),
{
    if ls.len() > 0 && is_blank(ls.last()) {
        lemma_without_trailing(ls.drop_last());
    }
}

/// What a hover popup shows neither starts nor ends with a blank line.
pub proof fn law_no_blank_edges(text: Seq<char>)
    ensures
        hover_lines(text).len() > 0 ==> !is_blank(hover_lines(text)[0]) && !is_blank(
            hover_lines(text).last(),
        ),
{
    lemma_without_leading(lines(text));
    lemma_without_trailing(without_leading(lines(text)));
}

/// Whether every character is white space.
pub open spec fn all_white(t: Seq<char>) -> bool {
    forall|k: int| 0 <= k < t.len() ==> is_white(#[trigger] t[k])
}

proof fn lemma_leading_white(t: Seq<char>)
    ensures
        leading_white(t) <= t.len(),
        forall|k: int| 0 <= k < leading_white(t) ==> is_white(#[trigger] t[k]),
        leading_white(t) < t.len() ==> !is_white(t[leading_white(t) as int]),
    decreases t.len(),
{
    if t.len() > 0 && is_white(t[0]) {
        let u = t.drop_first();
        lemma_leading_white(u);
        assert forall|k: int| 0 <= k < leading_white(t) implies is_white(#[trigger] t[k]) by {
            if k > 0 {
                assert(u[k - 1] == t[k]);
            }
        }
        if leading_white(t) < t.len() {
            assert(u[leading_white(u) as int] == t[leading_white(t) as int]);
        }
    }
}

proof fn lemma_trailing_white(t: Seq<char>)
    ensures
        trailing_white(t) <= t.len(),
        t.len() > 0 && !is_white(t[0]) ==> trailing_white(t) < t.len(),
    decreases t.len(),
{
    if t.len() > 0 && is_white(t.last()) {
        lemma_trailing_white(t.drop_last());
        if t.len() > 1 {
            assert(t.drop_last()[0] == t[0]);
        }
    }
}

/// A line is blank exactly if every character of it is white space.
proof fn lemma_blank(t: Seq<char>)
    ensures
        is_blank(t) <==> all_white(t),
{
    lemma_leading_white(t);
    let u = trim_start(t);
    lemma_trailing_white(u);
    if leading_white(t) < t.len() {
        assert(u[0] == t[leading_white(t) as int]);
    } else {
        assert(u.len() == 0);
    }
}

proof fn lemma_white_lines(t: Seq<char>)
    ensures
        all_white(t) <==> forall|i: int|
            0 <= i < lines(t).len() ==> all_white(#[trigger] lines(t)[i]),
    decreases t.len(),
{
    let all = lines(t);
    if t.len() > 0 {
        lemma_line_end(t, 0);
        let end = line_end(t, 0);
        if end < t.len() {
            let head = t.take(end);
            let line = without_return(head);
            let rest = t.skip(end + 1);
            lemma_white_lines(rest);
            assert(all[0] == line);
            assert(all.skip(1) =~= lines(rest));
            assert(is_white('\n') && is_white('\r'));
            assert(t[end] == '\n');
            assert(all_white(head) <==> all_white(line)) by {
                if all_white(line) {
                    assert forall|k: int| 0 <= k < head.len() implies is_white(
                        #[trigger] head[k],
                    ) by {
                        if k < line.len() {
                            assert(line[k] == head[k]);
                        }
                    }
                }
                if all_white(head) {
                    assert forall|k: int| 0 <= k < line.len() implies is_white(
                        #[trigger] line[k],
                    ) by {
                        assert(line[k] == head[k]);
                    }
                }
            }
            assert(all_white(t) <==> all_white(head) && all_white(rest)) by {
                if all_white(t) {
                    assert forall|k: int| 0 <= k < head.len() implies is_white(
                        #[trigger] head[k],
                    ) by {
                        assert(head[k] == t[k]);
                    }
                    assert forall|k: int| 0 <= k < rest.len() implies is_white(
                        #[trigger] rest[k],
                    ) by {
                        assert(rest[k] == t[k + end + 1]);
                    }
                }
                if all_white(head) && all_white(rest) {
                    assert forall|k: int| 0 <= k < t.len() implies is_white(#[trigger] t[k]) by {
                        if k < end {
                            assert(head[k] == t[k]);
                        } else if k > end {
                            assert(rest[k - end - 1] == t[k]);
                        }
                    }
                }
            }
            if all_white(line) && all_white(rest) {
                assert forall|i: int| 0 <= i < all.len() implies all_white(#[trigger] all[i]) by {
                    if i > 0 {
                        assert(all[i] == lines(rest)[i - 1]);
                    }
                }
            }
            if forall|i: int| 0 <= i < all.len() ==> all_white(#[trigger] all[i]) {
                assert(all_white(all[0]));
                assert forall|i: int| 0 <= i < lines(rest).len() implies all_white(
                    #[trigger] lines(rest)[i],
                ) by {
                    assert(all[i + 1] == lines(rest)[i]);
                }
            }
        } else {
            assert(all[0] == t);
        }
    }
}

proof fn lemma_all_blank(ls: Seq<Seq<char>>)
    ensures
        without_leading(ls).len() == 0 <==> forall|i: int|
            0 <= i < ls.len() ==> is_blank(#[trigger] ls[i]),
    decreases ls.len(),
{
    if ls.len() > 0 && is_blank(ls[0]) {
        let rest = ls.drop_first();
        lemma_all_blank(rest);
        if forall|i: int| 0 <= i < rest.len() ==> is_blank(#[trigger] rest[i]) {
            assert forall|i: int| 0 <= i < ls.len() implies is_blank(#[trigger] ls[i]) by {
                if i > 0 {
                    assert(rest[i - 1] == ls[i]);
                }
            }
        }
        if forall|i: int| 0 <= i < ls.len() ==> is_blank(#[trigger] ls[i]) {
            assert forall|i: int| 0 <= i < rest.len() implies is_blank(#[trigger] rest[i]) by {
                assert(rest[i] == ls[i + 1]);
            }
        }
    }
}

proof fn lemma_solid_start_stays(ls: Seq<Seq<char>>)
    requires
        ls.len() > 0,
        !is_blank(ls[0]),
    ensures
        without_trailing(ls).len() > 0,
    decreases ls.len(),
{
    if is_blank(ls.last()) {
        assert(ls.len() > 1);
        assert(ls.drop_last()[0] == ls[0]);
        lemma_solid_start_stays(ls.drop_last());
    }
}

/// A popup has nothing to show exactly if its text is blank.
pub proof fn law_empty_iff_blank(text: Seq<char>)
    ensures
        hover_lines(text).len() == 0 <==> is_blank(text),
{
    let ls = lines(text);
    lemma_blank(text);
    lemma_white_lines(text);
    lemma_all_blank(ls);
    assert((forall|i: int| 0 <= i < ls.len() ==> is_blank(#[trigger] ls[i])) <==> (forall|i: int|
        0 <= i < ls.len() ==> all_white(#[trigger] ls[i]))) by {
        if forall|i: int| 0 <= i < ls.len() ==> is_blank(#[trigger] ls[i]) {
            assert forall|i: int| 0 <= i < ls.len() implies all_white(#[trigger] ls[i]) by {
                lemma_blank(ls[i]);
            }
        }
        if forall|i: int| 0 <= i < ls.len() ==> all_white(#[trigger] ls[i]) {
            assert forall|i: int| 0 <= i < ls.len() implies is_blank(#[trigger] ls[i]) by {
                lemma_blank(ls[i]);
            }
        }
    }
    let kept = without_leading(ls);
    lemma_without_leading(ls);
    if kept.len() > 0 {
        lemma_solid_start_stays(kept);
    }
}

impl HoverState {
    /// Scrolled up one line, as far as the top.
    pub open spec fn up(self) -> HoverState {
        HoverState {
            scroll: if self.scroll > 0 {
                (self.scroll - 1) as nat
            } else {
                0
            },
            ..self
        }
    }

    /// Scrolled down one line, as far as the last one.
    pub open spec fn down(self) -> HoverState {
        HoverState {
            scroll: if self.scroll + 1 < self.lines.len() {
                self.scroll + 1
            } else {
                self.scroll
            },
            ..self
        }
    }

    /// After a series of scrolls, each up or down.
    pub open spec fn scrolled(self, ups: Seq<bool>) -> HoverState
        decreases ups.len(),
    {
        if ups.len() == 0 {
            self
        } else {
            let before = self.scrolled(ups.drop_last());
            if ups.last() {
                before.up()
            } else {
                before.down()
            }
        }
    }
}

/// However a popup is scrolled, it shows the same lines, and is empty exactly if its text is blank.
pub proof fn law_scrolling_keeps_the_lines(text: Seq<char>, ups: Seq<bool>)
    ensures
        ({
            let h = HoverState { lines: hover_lines(text), scroll: 0 };
            &&& h.scrolled(ups).lines == h.lines
            &&& h.scrolled(ups).lines.len() == 0 <==> is_blank(text)
        }),
    decreases ups.len(),
{
    law_empty_iff_blank(text);
    if ups.len() > 0 {
        law_scrolling_keeps_the_lines(text, ups.drop_last());
    }
}

/// The text scrolls by one line at a time, up to its ends.
pub proof fn law_scrolling_goes_line_by_line(h: HoverState)
    ensures
        h.scroll > 0 ==> h.up().scroll + 1 == h.scroll,
        h.scroll == 0 ==> h.up() == h,
        h.scroll + 1 < h.lines.len() ==> h.down().scroll == h.scroll + 1,
        h.scroll + 1 >= h.lines.len() ==> h.down() == h,
        h.up().lines == h.lines && h.down().lines == h.lines,
{
}

} // verus!
