//! The [`Finder`]: the fuzzy file picker and command palette.
//!
//! A modal box that holds a query line and the candidates that match it, best first. Typing filters
//! anew; accepting yields the [`Action`] of the selected candidate for the host to perform.

use crate::fuzzy::{fuzzy_rank, is_ranking, views};
use crate::popup::{first_visible, least, most, scroll_start};
use crate::surface::{Canvas, Rect, Surface, Theme};
use crate::text::{chars_of, slice_of, string_of};
use vstd::prelude::*;

verus! {

/// What accepting a selection asks the host to do.
#[derive(Clone, Debug, PartialEq, Eq)]
pub enum Action {
    /// Open this file in the editor.
    OpenFile(String),
    /// Run this editor command by name.
    RunCommand(String),
}

/// An [`Action`] with its argument as a text.
pub enum Ask {
    /// Open this file.
    OpenFile(Seq<char>),
    /// Run this command.
    RunCommand(Seq<char>),
}

impl View for Action {
    type V = Ask;

    open spec fn view(&self) -> Ask {
        match *self {
            Action::OpenFile(path) => Ask::OpenFile(path@),
            Action::RunCommand(name) => Ask::RunCommand(name@),
        }
    }
}

#[derive(Clone, Debug)]
struct Item {
    label: String,
    action: Action,
}

/// A modal fuzzy picker over a fixed set of items.
#[derive(Debug)]
pub struct Finder {
    title: String,
    query: String,
    items: Vec<Item>,
    filtered: Vec<usize>,
    selected: usize,
}

/// The state of a [`Finder`].
pub struct FinderState {
    /// The title of the box.
    pub title: Seq<char>,
    /// The query.
    pub query: Seq<char>,
    /// The labels of the candidates.
    pub labels: Seq<Seq<char>>,
    /// What each candidate asks for.
    pub asks: Seq<Ask>,
    /// The candidates that match the query, best first.
    pub filtered: Seq<usize>,
    /// Which of those is selected.
    pub selected: nat,
}

impl View for Finder {
    type V = FinderState;

    closed spec fn view(&self) -> FinderState {
        FinderState {
            title: self.title@,
            query: self.query@,
            labels: self.items@.map_values(|item: Item| item.label@),
            asks: self.items@.map_values(|item: Item| item.action@),
            filtered: self.filtered@,
            selected: self.selected as nat,
        }
    }
}

impl FinderState {
    /// The results are the ranking of the candidates for the query.
    pub open spec fn wf(self) -> bool {
        &&& self.labels.len() == self.asks.len()
        &&& is_ranking(self.query, self.labels, self.filtered)
    }

    /// What the selected candidate asks for, if there is one.
    pub open spec fn accepted(self) -> Option<Ask> {
        if self.selected < self.filtered.len() {
            Some(self.asks[self.filtered[self.selected as int] as int])
        } else {
            None
        }
    }

    /// Whether this is `before` with another query, filtered anew and the first result selected.
    pub open spec fn requeried(self, before: FinderState, query: Seq<char>) -> bool {
        &&& self.query == query
        &&& self.title == before.title
        &&& self.labels == before.labels
        &&& self.asks == before.asks
        &&& self.selected == 0
        &&& self.wf()
    }
}

/// A path as shown: without the directory `root` that it lies under.
pub open spec fn relative(root: Seq<char>, path: Seq<char>) -> Seq<char> {
    let rest = path.skip(root.len() as int);
    if root.is_prefix_of(path) && root.len() > 0 && root.last() == '/' {
        rest
    } else if root.is_prefix_of(path) && rest.len() > 0 && rest[0] == '/' {
        rest.drop_first()
    } else {
        path
    }
}

/// One result drawn into the row `y`.
pub open spec fn draw_result(
    c: Canvas,
    label: Seq<char>,
    selected: bool,
    inner: Rect,
    y: int,
    theme: Theme,
) -> Canvas {
    let style = if selected {
        theme.inverse()
    } else {
        theme.base_style()
    };
    c.blank(inner.x as int, inner.right_col(), y, style).text(inner.x as int, y, label, style)
}

/// The results from the visible row `row` on, of `rows`, drawn below the query line.
pub open spec fn draw_results(
    c: Canvas,
    f: FinderState,
    inner: Rect,
    rows: nat,
    row: nat,
    theme: Theme,
) -> Canvas
    decreases rows - row,
{
    let index = first_visible(f.selected, rows) + row;
    if row >= rows || index >= f.filtered.len() {
        c
    } else {
        draw_results(
            draw_result(
                c,
                f.labels[f.filtered[index as int] as int],
                index == f.selected,
                inner,
                inner.y + 1 + row,
                theme,
            ),
            f,
            inner,
            rows,
            row + 1,
            theme,
        )
    }
}

/// The box of the picker.
pub open spec fn finder_box(area: Rect) -> Rect {
    area.centred(least(area.width as int, 64) as u32, least(area.height as int, 18) as u32)
}

/// The picker drawn over `c`.
pub open spec fn drawn(c: Canvas, f: FinderState, area: Rect, theme: Theme) -> Canvas {
    if area.width < 3 || area.height < 3 {
        c
    } else {
        let r = finder_box(area);
        let inner = r.inner();
        draw_results(
            c.boxed(r, theme, f.title).text(
                inner.x as int,
                inner.y as int,
                ("> "@ + f.query).push('\u{2588}'),
                theme.base_style(),
            ),
            f,
            inner,
            (inner.height - 1) as nat,
            0,
            theme,
        )
    }
}

/// A path without the directory that it lies under.
fn shown_path(root: &[char], path: &[char]) -> (r: Vec<char>)
    ensures
        r@ == relative(root@, path@),
{
    let mut prefix = root.len() <= path.len();
    let mut i: usize = 0;
    while prefix && i < root.len()
        invariant
            i <= root@.len(),
            prefix ==> root@.len() <= path@.len() && root@.take(i as int) =~= path@.take(i as int),
            !prefix ==> !root@.is_prefix_of(path@),
        decreases root@.len() - i,
    {
        if root[i] != path[i] {
            prefix = false;
            assert(root@[i as int] != path@[i as int]);
            assert(!root@.is_prefix_of(path@)) by {
                if root@.is_prefix_of(path@) {
                    assert(path@.subrange(0, root@.len() as int)[i as int] == root@[i as int]);
                }
            }
        }
        i += 1;
    }
    let n = root.len();
    if prefix {
        assert(root@.take(n as int) =~= root@);
        assert(root@.is_prefix_of(path@));
        if n > 0 && root[n - 1] == '/' {
            let r = slice_of(path, n, path.len());
            assert(r@ =~= path@.skip(n as int));
            return r;
        }
        if path.len() > n && path[n] == '/' {
            let r = slice_of(path, n + 1, path.len());
            assert(r@ =~= path@.skip(n as int).drop_first());
            return r;
        }
    }
    let r = slice_of(path, 0, path.len());
    assert(r@ =~= path@);
    r
}

impl Finder {
    /// A picker over `paths`, shown relative to the directory `root` that they lie under.
    pub fn files(root: &str, paths: &[String]) -> (r: Self)
        ensures
            r@.wf(),
            r@.title == "Open File"@,
            r@.query == Seq::<char>::empty(),
            r@.labels == paths@.map_values(|p: String| relative(root@, p@)),
            r@.asks == paths@.map_values(|p: String| Ask::OpenFile(p@)),
            r@.selected == 0,
    {
        let base = chars_of(root);
        let mut items: Vec<Item> = Vec::new();
        let mut i: usize = 0;
        while i < paths.len()
            invariant
                i <= paths@.len(),
                base@ == root@,
                items@.len() == i,
                forall|k: int|
                    0 <= k < i ==> (#[trigger] items@[k]).label@ == relative(root@, paths@[k]@)
                        && items@[k].action@ == Ask::OpenFile(paths@[k]@),
            decreases paths@.len() - i,
        {
            let path = chars_of(paths[i].as_str());
            let label = string_of(shown_path(base.as_slice(), path.as_slice()).as_slice());
            items.push(Item { label, action: Action::OpenFile(paths[i].clone()) });
            i += 1;
        }
        let r = Finder::over("Open File", items);
        assert(r@.labels =~= paths@.map_values(|p: String| relative(root@, p@)));
        assert(r@.asks =~= paths@.map_values(|p: String| Ask::OpenFile(p@)));
        r
    }

    /// A command palette over the named commands.
    pub fn commands(names: &[&str]) -> (r: Self)
        ensures
            r@.wf(),
            r@.title == "Command Palette"@,
            r@.query == Seq::<char>::empty(),
            r@.labels == names@.map_values(|n: &str| n@),
            r@.asks == names@.map_values(|n: &str| Ask::RunCommand(n@)),
            r@.selected == 0,
    {
        let mut items: Vec<Item> = Vec::new();
        let mut i: usize = 0;
        while i < names.len()
            invariant
                i <= names@.len(),
                items@.len() == i,
                forall|k: int|
                    0 <= k < i ==> (#[trigger] items@[k]).label@ == names@[k]@
                        && items@[k].action@ == Ask::RunCommand(names@[k]@),
            decreases names@.len() - i,
        {
            items.push(
                Item {
                    label: names[i].to_owned(),
                    action: Action::RunCommand(names[i].to_owned()),
                },
            );
            i += 1;
        }
        let r = Finder::over("Command Palette", items);
        assert(r@.labels =~= names@.map_values(|n: &str| n@));
        assert(r@.asks =~= names@.map_values(|n: &str| Ask::RunCommand(n@)));
        r
    }

    fn over(title: &str, items: Vec<Item>) -> (r: Self)
        ensures
            r@.wf(),
            r@.title == title@,
            r@.query == Seq::<char>::empty(),
            r.items == items,
            r@.selected == 0,
    {
        let mut finder = Finder {
            title: title.to_owned(),
            query: String::new(),
            items,
            filtered: Vec::new(),
            selected: 0,
        };
        finder.refilter();
        finder
    }

    /// The query.
    pub fn query(&self) -> (r: &str)
        ensures
            r@ == self@.query,
    {
        self.query.as_str()
    }

    /// Appends `c` to the query and filters anew.
    pub fn push(&mut self, c: char)
        ensures
            final(self)@.requeried(old(self)@, old(self)@.query.push(c)),
    {
        self.query.push(c);
        self.refilter();
    }

    /// Removes the last character of the query, if there is one, and filters anew.
    pub fn backspace(&mut self)
        ensures
            final(self)@.requeried(
                old(self)@,
                if old(self)@.query.len() > 0 {
                    old(self)@.query.drop_last()
                } else {
                    old(self)@.query
                },
            ),
    {
        self.query.pop();
        self.refilter();
    }

    /// Moves the selection up one result.
    pub fn select_up(&mut self)
        ensures
            final(self)@ == (FinderState {
                selected: most(old(self)@.selected - 1, 0) as nat,
                ..old(self)@
            }),
    {
        if self.selected > 0 {
            self.selected -= 1;
        }
    }

    /// Moves the selection down one result.
    pub fn select_down(&mut self)
        ensures
            final(self)@ == (FinderState {
                selected: if old(self)@.selected + 1 < old(self)@.filtered.len() {
                    old(self)@.selected + 1
                } else {
                    old(self)@.selected
                },
                ..old(self)@
            }),
    {
        if self.filtered.len() > 0 && self.selected < self.filtered.len() - 1 {
            self.selected += 1;
        }
    }

    /// What the selected candidate asks for, if there is one.
    pub fn accept(&self) -> (r: Option<&Action>)
        requires
            self@.wf(),
        ensures
            match r {
                Some(action) => self@.accepted() == Some(action@),
                None => self@.accepted() is None,
            },
    {
        if self.selected < self.filtered.len() {
            let item: usize = self.filtered[self.selected];
            assert(self@.filtered[self.selected as int] < self@.labels.len());
            Some(&self.items[item].action)
        } else {
            None
        }
    }

    fn refilter(&mut self)
        ensures
            final(self)@.requeried(old(self)@, old(self)@.query),
            final(self).items == old(self).items,
    {
        let mut labels: Vec<&str> = Vec::new();
        let mut i: usize = 0;
        while i < self.items.len()
            invariant
                i <= self.items@.len(),
                labels@.len() == i,
                forall|k: int| 0 <= k < i ==> (#[trigger] labels@[k])@ == self.items@[k].label@,
            decreases self.items@.len() - i,
        {
            labels.push(self.items[i].label.as_str());
            i += 1;
        }
        assert(views(labels@) =~= self@.labels);
        let filtered = fuzzy_rank(self.query.as_str(), labels.as_slice());
        self.filtered = filtered;
        self.selected = 0;
    }

    /// Draws the picker as a box in the middle of `area`.
    pub fn render(&self, surface: &mut Surface, area: Rect, theme: &Theme)
        requires
            old(surface)@.wf(),
            area.wf(),
            self@.wf(),
        ensures
            final(surface)@ == drawn(old(surface)@, self@, area, *theme),
            final(surface)@.wf(),
    {
        if area.width < 3 || area.height < 3 {
            return ;
        }
        let width: u32 = if area.width < 64 {
            area.width
        } else {
            64
        };
        let height: u32 = if area.height < 18 {
            area.height
        } else {
            18
        };
        let r = area.centre(width, height);
        surface.draw_box(r, theme, self.title.as_str());
        let inner = r.inset();
        let mut line = "> ".to_owned();
        line.append(self.query.as_str());
        line.push('\u{2588}');
        surface.set_str(inner.x, inner.y, line.as_str(), theme.base_style());
        let rows: u32 = inner.height - 1;
        let start = scroll_start(self.selected, rows);
        let ghost base = surface@;
        let mut row: u32 = 0;
        while row < rows && start < self.filtered.len() && (row as usize) < self.filtered.len()
            - start
            invariant
                surface@.wf(),
                self@.wf(),
                inner.x + inner.width <= u32::MAX,
                inner.y + inner.height <= u32::MAX,
                rows == inner.height - 1,
                start == first_visible(self@.selected, rows as nat),
                row <= rows,
                draw_results(base, self@, inner, rows as nat, 0, *theme) == draw_results(
                    surface@,
                    self@,
                    inner,
                    rows as nat,
                    row as nat,
                    *theme,
                ),
            decreases rows - row,
        {
            let index: usize = start + row as usize;
            let item: usize = self.filtered[index];
            assert(self@.filtered[index as int] < self@.labels.len());
            let style = if index == self.selected {
                theme.inverse()
            } else {
                theme.base_style()
            };
            let y: u32 = inner.y + 1 + row;
            surface.blank(inner.x, inner.right(), y, style);
            surface.set_str(inner.x, y, self.items[item].label.as_str(), style);
            row += 1;
        }
    }
}

/// A path below the root is shown without it and without the slash between them, whether the root is
/// written with a slash at its end or not; any other path is shown whole.
pub proof fn law_paths_are_shown_from_the_root(root: Seq<char>, rest: Seq<char>, other: Seq<char>)
    requires
        root.len() > 0,
        root.last() != '/',
        !root.is_prefix_of(other),
    ensures
        relative(root, root + seq!['/'] + rest) == rest,
        relative(root.push('/'), root + seq!['/'] + rest) == rest,
        relative(root, other) == other,
{
    let path = root + seq!['/'] + rest;
    assert(root.is_prefix_of(path));
    assert(path.skip(root.len() as int) =~= seq!['/'] + rest);
    assert((seq!['/'] + rest).drop_first() =~= rest);
    let slashed = root.push('/');
    assert(slashed.is_prefix_of(path));
    assert(path.skip(slashed.len() as int) =~= rest);
}

} // verus!
