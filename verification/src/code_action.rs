//! The code-actions menu: the quick-fixes and refactorings that a language server offers at the
//! cursor.

use crate::rename::RenameEdit;
use crate::popup::{
    below_cursor, first_visible, least, place_below, popup_rows, popup_width, rows_for, scroll_start,
    widest, width_for, Picker,
};
use crate::surface::{Canvas, Rect, Surface, Theme, MAX_EXTENT};
use crate::text::{chars_of, decimal, decimal_of, slice_of};
use vstd::prelude::*;

verus! {

/// A JSON value, carried through as it came.
#[verifier::external_type_specification]
#[verifier::external_body]
pub struct ExValue(serde_json::Value);

/// A code action's command: its identifier and its JSON arguments.
#[derive(Clone, Debug, PartialEq, Eq)]
pub struct Command {
    /// The command identifier that the server registered.
    pub id: String,
    /// The arguments that the server attached to the command.
    pub arguments: Vec<serde_json::Value>,
}

/// One offered code action: a title, the edits that applying it performs, and a command to run
/// when it has none.
#[derive(Clone, Debug, PartialEq, Eq)]
pub struct CodeAction {
    /// The action's title, shown in the menu.
    pub title: String,
    /// The edits that applying this action performs. Empty for an action that only runs a command.
    pub edits: Vec<RenameEdit>,
    /// The command to run, if any.
    pub command: Option<Command>,
}

impl CodeAction {
    /// Creates a code action with `title` that applies `edits` and runs no command.
    pub fn new(title: &str, edits: Vec<RenameEdit>) -> (r: Self)
        ensures
            r.title@ == title@,
            r.edits == edits,
            r.command is None,
    {
        CodeAction { title: title.to_owned(), edits, command: None }
    }

    /// Attaches a command to run.
    pub fn with_command(self, command: Command) -> (r: Self)
        ensures
            r == (CodeAction { command: Some(command), ..self }),
    {
        CodeAction { title: self.title, edits: self.edits, command: Some(command) }
    }

    /// Whether selecting this action does something: applies an edit or runs a command.
    pub fn is_applicable(&self) -> (r: bool)
        ensures
            r == (self.edits@.len() > 0 || self.command is Some),
    {
        self.edits.len() > 0 || self.command.is_some()
    }
}

/// A code-actions menu: the offered actions plus the current selection.
#[derive(Clone, Debug)]
pub struct CodeActions {
    items: Vec<CodeAction>,
    selected: usize,
}

/// The largest number of entries shown at once.
pub const MAX_ROWS: u32 = 10;

/// The largest width of the popup.
pub const MAX_WIDTH: u32 = 60;

/// The smallest width of the popup.
pub const MIN_WIDTH: u32 = 20;

impl View for CodeActions {
    type V = Picker<CodeAction>;

    closed spec fn view(&self) -> Picker<CodeAction> {
        Picker { items: self.items@, selected: self.selected as nat }
    }
}

/// The columns that an action wants: the characters of its title.
pub open spec fn item_width(item: CodeAction) -> nat {
    item.title@.len()
}

/// The title of the popup.
pub open spec fn title(n: nat) -> Seq<char> {
    "code actions ("@ + decimal(n) + ")"@
}

/// The box of the popup.
pub open spec fn popup_box(p: Picker<CodeAction>, area: Rect, cursor: (u16, u16)) -> Rect {
    below_cursor(
        area,
        cursor,
        popup_width(
            widest(p.items, |item: CodeAction| item_width(item), p.items.len()),
            MIN_WIDTH,
            MAX_WIDTH,
            area.width,
        ),
        (popup_rows(p.items.len(), MAX_ROWS) + 2) as u32,
    )
}

/// One entry drawn into the row `y` of the inside of the box.
pub open spec fn draw_item(
    c: Canvas,
    item: CodeAction,
    selected: bool,
    inner: Rect,
    y: int,
    theme: Theme,
) -> Canvas {
    let style = if selected {
        theme.inverse()
    } else {
        theme.base_style()
    };
    let shown = item.title@.take(least(item.title@.len() as int, inner.width as int));
    c.blank(inner.x as int, inner.right_col(), y, style).text(inner.x as int, y, shown, style)
}

/// The entries from the visible row `row` on drawn into the box.
pub open spec fn draw_items(
    c: Canvas,
    p: Picker<CodeAction>,
    inner: Rect,
    row: nat,
    theme: Theme,
) -> Canvas
    decreases inner.height - row,
{
    let index = first_visible(p.selected, inner.height as nat) + row;
    if row >= inner.height || index >= p.items.len() {
        c
    } else {
        draw_items(
            draw_item(
                c,
                p.items[index as int],
                index == p.selected,
                inner,
                inner.y + row as int,
                theme,
            ),
            p,
            inner,
            row + 1,
            theme,
        )
    }
}

/// The popup drawn over `c`.
pub open spec fn drawn(
    c: Canvas,
    p: Picker<CodeAction>,
    area: Rect,
    cursor: (u16, u16),
    theme: Theme,
) -> Canvas {
    if p.items.len() == 0 || area.width < MIN_WIDTH || area.height < 3 {
        c
    } else {
        let r = popup_box(p, area, cursor);
        draw_items(c.boxed(r, theme, title(p.items.len())), p, r.inner(), 0, theme)
    }
}

impl CodeActions {
    /// Builds a popup over `items` with the first one selected.
    pub fn new(items: Vec<CodeAction>) -> (r: Self)
        ensures
            r@ == Picker::fresh(items@),
    {
        CodeActions { items, selected: 0 }
    }

    /// Whether there is nothing to show.
    pub fn is_empty(&self) -> (r: bool)
        ensures
            r == (self@.items.len() == 0),
    {
        self.items.len() == 0
    }

    /// Moves the selection up one, as far as the top.
    pub fn select_up(&mut self)
        ensures
            final(self)@ == old(self)@.up(),
    {
        if self.selected > 0 {
            self.selected -= 1;
        }
    }

    /// Moves the selection down one, as far as the bottom.
    pub fn select_down(&mut self)
        ensures
            final(self)@ == old(self)@.down(),
    {
        if self.items.len() > 0 && self.selected < self.items.len() - 1 {
            self.selected += 1;
        }
    }

    /// The selected entry.
    pub fn selected(&self) -> (r: Option<&CodeAction>)
        ensures
            match r {
                Some(item) => self@.chosen() == Some(*item),
                None => self@.chosen() is None,
            },
    {
        if self.selected < self.items.len() {
            Some(&self.items[self.selected])
        } else {
            None
        }
    }

    /// The columns that the widest entry wants, as far as they can be counted.
    fn content_width(&self) -> (r: usize)
        ensures
            r == least(
                widest(
                    self@.items,
                    |item: CodeAction| item_width(item),
                    self@.items.len(),
                ) as int,
                usize::MAX as int,
            ),
    {
        let ghost w = |item: CodeAction| item_width(item);
        let mut best: usize = 0;
        let mut i: usize = 0;
        while i < self.items.len()
            invariant
                i <= self.items@.len(),
                w == (|item: CodeAction| item_width(item)),
                best == least(widest(self.items@, w, i as nat) as int, usize::MAX as int),
            decreases self.items@.len() - i,
        {
            let wanted = wanted_width(&self.items[i]);
            if best < wanted {
                best = wanted;
            }
            i += 1;
        }
        best
    }

    /// Draws the popup at `cursor`, a position on the screen, inside `area`: just below the
    /// cursor, or above it when there is no room.
    pub fn render(&self, surface: &mut Surface, area: Rect, cursor: (u16, u16), theme: &Theme)
        requires
            old(surface)@.wf(),
            area.wf(),
        ensures
            final(surface)@ == drawn(old(surface)@, self@, area, cursor, *theme),
            final(surface)@.wf(),
    {
        if self.items.len() == 0 || area.width < MIN_WIDTH || area.height < 3 {
            return ;
        }
        let rows = rows_for(self.items.len(), MAX_ROWS);
        let content = self.content_width();
        let width = width_for(content, MIN_WIDTH, MAX_WIDTH, area.width);
        let r = place_below(area, cursor, width, rows + 2);
        assert(r == popup_box(self@, area, cursor));
        let mut title = "code actions (".to_owned();
        title.append(decimal_of(self.items.len() as u128).as_str());
        title.append(")");
        surface.draw_box(r, theme, title.as_str());
        let inner = r.inset();
        let start = scroll_start(self.selected, inner.height);
        let ghost base = surface@;
        let mut row: u32 = 0;
        while row < inner.height && start < self.items.len() && (row as usize) < self.items.len()
            - start
            invariant
                surface@.wf(),
                inner.x + inner.width <= u32::MAX,
                inner.x <= MAX_EXTENT + 1,
                inner.y + inner.height <= u32::MAX,
                start == first_visible(self@.selected, inner.height as nat),
                row <= inner.height,
                draw_items(base, self@, inner, 0, *theme) == draw_items(
                    surface@,
                    self@,
                    inner,
                    row as nat,
                    *theme,
                ),
            decreases inner.height - row,
        {
            let index: usize = start + row as usize;
            let item = &self.items[index];
            let selected = index == self.selected;
            let y: u32 = inner.y + row;
            let style = if selected {
                theme.inverse()
            } else {
                theme.base_style()
            };
            surface.blank(inner.x, inner.right(), y, style);
            let title = chars_of(item.title.as_str());
            let n: usize = if title.len() < inner.width as usize {
                title.len()
            } else {
                inner.width as usize
            };
            let shown = slice_of(title.as_slice(), 0, n);
            assert(shown@ =~= item.title@.take(n as int));
            surface.set_chars(inner.x, y, shown.as_slice(), style);
            row += 1;
        }
    }
}

fn wanted_width(item: &CodeAction) -> (r: usize)
    ensures
        r == least(item_width(*item) as int, usize::MAX as int),
{
    item.title.as_str().unicode_len()
}

} // verus!
