//! The file explorer: a collapsible tree of one directory, and the walk that collects files for
//! the picker.
//!
//! Reading directories is the host's part. It hands in [`Listing`]s, snapshots of the directories
//! that [`FileTree::wanted`] names, and the tree works out its rows from them.

use crate::paths::{file_name, file_name_of};
use crate::popup::most;
use crate::surface::{Canvas, Rect, Style, Surface, Theme};
use crate::text::{chars_of, repeat, repeated, same_text, string_of, strings};
use vstd::prelude::*;

verus! {

/// The lower-case form of a text by Unicode's mapping.
pub uninterp spec fn lowercase(t: Seq<char>) -> Seq<char>;

/// `str::to_lowercase`: the lower-case form of a text, which depends on the text alone.
#[verifier::external_body]
fn to_lower(t: &str) -> (r: String)
    ensures
        r@ == lowercase(t@),
{
    t.to_lowercase()
}

/// One entry of a directory.
#[derive(Clone, Debug, PartialEq, Eq)]
pub struct Entry {
    /// Its name.
    pub name: String,
    /// Whether it is a directory.
    pub is_dir: bool,
}

/// The contents of an [`Entry`].
pub struct Item {
    /// Its name.
    pub name: Seq<char>,
    /// Whether it is a directory.
    pub is_dir: bool,
}

impl View for Entry {
    type V = Item;

    open spec fn view(&self) -> Item {
        Item { name: self.name@, is_dir: self.is_dir }
    }
}

/// The contents of a list of entries.
pub open spec fn items(v: Seq<Entry>) -> Seq<Item> {
    v.map_values(|e: Entry| e@)
}

/// The entries of one directory, in any order.
#[derive(Clone, Debug, PartialEq, Eq)]
pub struct Listing {
    /// The directory.
    pub dir: String,
    /// Its entries.
    pub entries: Vec<Entry>,
}

/// Whether one text stands before another, character by character.
pub open spec fn text_before(a: Seq<char>, b: Seq<char>) -> bool
    decreases a.len(),
{
    if b.len() == 0 {
        false
    } else if a.len() == 0 {
        true
    } else if a[0] == b[0] {
        text_before(a.drop_first(), b.drop_first())
    } else {
        a[0] < b[0]
    }
}

/// Whether one text stands before another, character by character.
pub fn stands_before(a: &[char], b: &[char]) -> (r: bool)
    ensures
        r == text_before(a@, b@),
{
    let mut i: usize = 0;
    assert(a@.skip(0) =~= a@);
    assert(b@.skip(0) =~= b@);
    while i < a.len() && i < b.len() && a[i] == b[i]
        invariant
            i <= a@.len(),
            i <= b@.len(),
            text_before(a@, b@) == text_before(a@.skip(i as int), b@.skip(i as int)),
        decreases a@.len() - i,
    {
        assert(a@.skip(i as int).drop_first() =~= a@.skip(i + 1));
        assert(b@.skip(i as int).drop_first() =~= b@.skip(i + 1));
        i += 1;
    }
    if i >= b.len() {
        false
    } else if i >= a.len() {
        true
    } else {
        a[i] < b[i]
    }
}

/// Whether one entry is listed before another: directories first, then by name in lower case.
pub open spec fn listed_before(a: Item, b: Item) -> bool {
    (a.is_dir && !b.is_dir) || (a.is_dir == b.is_dir && text_before(
        lowercase(a.name),
        lowercase(b.name),
    ))
}

/// A sorted list with one more entry, behind all those that it does not stand before.
pub open spec fn place(sorted: Seq<Item>, e: Item) -> Seq<Item>
    decreases sorted.len(),
{
    if sorted.len() > 0 && listed_before(e, sorted.last()) {
        place(sorted.drop_last(), e).push(sorted.last())
    } else {
        sorted.push(e)
    }
}

/// Whether an entry is hidden.
pub open spec fn hidden(e: Item) -> bool {
    e.name.len() > 0 && e.name[0] == '.'
}

/// The entries of a directory as listed: without the hidden ones, directories first, then by name.
pub open spec fn sorted(entries: Seq<Item>) -> Seq<Item>
    decreases entries.len(),
{
    if entries.len() == 0 {
        Seq::empty()
    } else if hidden(entries.last()) {
        sorted(entries.drop_last())
    } else {
        place(sorted(entries.drop_last()), entries.last())
    }
}

proof fn lemma_text_order(a: Seq<char>, b: Seq<char>, c: Seq<char>)
    ensures
        text_before(a, b) ==> !text_before(b, a),
        !text_before(a, b) && !text_before(b, c) ==> !text_before(a, c),
    decreases a.len(),
{
    if a.len() > 0 && b.len() > 0 {
        lemma_text_order(
            a.drop_first(),
            b.drop_first(),
            if c.len() > 0 {
                c.drop_first()
            } else {
                c
            },
        );
    }
}

proof fn lemma_listing_order(a: Item, b: Item, c: Item)
    ensures
        listed_before(a, b) ==> !listed_before(b, a),
        !listed_before(a, b) && !listed_before(b, c) ==> !listed_before(a, c),
{
    lemma_text_order(lowercase(a.name), lowercase(b.name), lowercase(c.name));
}

/// Whether entries stand in the order of a listing.
pub open spec fn in_order(list: Seq<Item>) -> bool {
    forall|i: int, j: int|
        0 <= i < j < list.len() ==> !listed_before(#[trigger] list[j], #[trigger] list[i])
}

proof fn lemma_place(list: Seq<Item>, e: Item)
    requires
        in_order(list),
    ensures
        in_order(place(list, e)),
        place(list, e).to_multiset() == list.to_multiset().insert(e),
        forall|k: int|
            0 <= k < place(list, e).len() ==> (#[trigger] place(list, e)[k]) == e
                || list.contains(place(list, e)[k]),
    decreases list.len(),
{
    broadcast use vstd::seq_lib::group_to_multiset_ensures;

    let all = place(list, e);
    if list.len() > 0 && listed_before(e, list.last()) {
        let head = list.drop_last();
        let last = list.last();
        lemma_place(head, e);
        lemma_listing_order(e, last, e);
        let start = place(head, e);
        assert(head.push(last) =~= list);
        assert(all.to_multiset() =~= list.to_multiset().insert(e));
        assert forall|k: int| 0 <= k < all.len() implies (#[trigger] all[k]) == e
            || list.contains(all[k]) by {
            if k < start.len() {
                assert(all[k] == start[k]);
                if start[k] != e {
                    let m = choose|m: int| 0 <= m < head.len() && head[m] == start[k];
                    assert(list[m] == start[k]);
                }
            } else {
                assert(list[list.len() - 1] == all[k]);
            }
        }
        assert forall|i: int, j: int| 0 <= i < j < all.len() implies !listed_before(
            #[trigger] all[j],
            #[trigger] all[i],
        ) by {
            if j < start.len() {
                assert(all[i] == start[i] && all[j] == start[j]);
            } else {
                assert(all[i] == start[i]);
                if start[i] != e {
                    let m = choose|m: int| 0 <= m < head.len() && head[m] == start[i];
                    assert(list[m] == start[i]);
                    assert(!listed_before(list[list.len() - 1], list[m]));
                }
            }
        }
    } else {
        assert forall|i: int, j: int| 0 <= i < j < all.len() implies !listed_before(
            #[trigger] all[j],
            #[trigger] all[i],
        ) by {
            if j == list.len() && i < list.len() - 1 {
                assert(!listed_before(list[list.len() - 1], list[i]));
                lemma_listing_order(e, list.last(), list[i]);
            }
        }
        assert forall|k: int| 0 <= k < all.len() implies (#[trigger] all[k]) == e
            || list.contains(all[k]) by {
            if k < list.len() {
                assert(list[k] == all[k]);
            }
        }
    }
}

/// A listing is in order, and holds each entry that is not hidden, and no other.
pub proof fn law_listing_is_sorted(entries: Seq<Item>)
    ensures
        in_order(sorted(entries)),
        sorted(entries).to_multiset() == entries.filter(|e: Item| !hidden(e)).to_multiset(),
    decreases entries.len(),
{
    broadcast use vstd::seq_lib::group_to_multiset_ensures;

    reveal(Seq::filter);
    let shown = |e: Item| !hidden(e);
    if entries.len() > 0 {
        let before = entries.drop_last();
        law_listing_is_sorted(before);
        if !hidden(entries.last()) {
            lemma_place(sorted(before), entries.last());
            assert(entries.filter(shown) == before.filter(shown).push(entries.last()));
        } else {
            assert(entries.filter(shown) == before.filter(shown));
        }
    } else {
        assert(entries.filter(shown) =~= Seq::empty());
    }
}

fn before(a: &Entry, b: &Entry) -> (r: bool)
    ensures
        r == listed_before(a@, b@),
{
    if a.is_dir != b.is_dir {
        a.is_dir
    } else {
        let x = chars_of(to_lower(a.name.as_str()).as_str());
        let y = chars_of(to_lower(b.name.as_str()).as_str());
        stands_before(x.as_slice(), y.as_slice())
    }
}

fn place_entry(list: &mut Vec<Entry>, e: Entry)
    ensures
        items(final(list)@) == place(items(old(list)@), e@),
{
    let mut i: usize = list.len();
    let ghost all = items(list@);
    proof {
        assert(all.take(i as int) =~= all);
        assert(place(all, e@) =~= place(all.take(i as int), e@) + all.skip(i as int));
    }
    while i > 0 && before(&e, &list[i - 1])
        invariant
            i <= list@.len(),
            all == items(list@),
            place(all, e@) == place(all.take(i as int), e@) + all.skip(i as int),
        decreases i,
    {
        proof {
            let head = all.take(i as int);
            assert(head.last() == list@[i - 1]@);
            assert(head.drop_last() =~= all.take(i - 1));
            assert(place(head, e@) + all.skip(i as int) =~= place(all.take(i - 1), e@) + all.skip(
                i - 1,
            ));
        }
        i -= 1;
    }
    proof {
        let head = all.take(i as int);
        if i > 0 {
            assert(head.last() == list@[i - 1]@);
        }
        assert(place(head, e@) == head.push(e@));
    }
    let ghost item = e@;
    list.insert(i, e);
    assert(items(list@) =~= all.take(i as int).push(item) + all.skip(i as int));
}

/// The entries of a directory as listed: without the hidden ones, directories first, then by name
/// in lower case.
pub fn sort_entries(entries: &[Entry]) -> (r: Vec<Entry>)
    ensures
        items(r@) == sorted(items(entries@)),
{
    let mut list: Vec<Entry> = Vec::new();
    let mut i: usize = 0;
    assert(items(list@) =~= sorted(items(entries@.take(0))));
    while i < entries.len()
        invariant
            i <= entries@.len(),
            items(list@) == sorted(items(entries@.take(i as int))),
        decreases entries@.len() - i,
    {
        let ghost next = items(entries@.take(i + 1));
        assert(next.drop_last() =~= items(entries@.take(i as int)));
        assert(next.last() == entries@[i as int]@);
        let e = &entries[i];
        let name = e.name.as_str();
        if !(name.unicode_len() > 0 && name.get_char(0) == '.') {
            place_entry(&mut list, Entry { name: e.name.clone(), is_dir: e.is_dir });
        }
        i += 1;
    }
    assert(entries@.take(i as int) =~= entries@);
    list
}

/// The path of an entry of a directory.
pub open spec fn join(dir: Seq<char>, name: Seq<char>) -> Seq<char> {
    if dir.len() == 0 || dir.last() == '/' {
        dir + name
    } else {
        dir.push('/') + name
    }
}

/// The path of an entry of a directory.
pub fn join_path(dir: &str, name: &str) -> (r: String)
    ensures
        r@ == join(dir@, name@),
{
    let n = dir.unicode_len();
    let mut r = dir.to_owned();
    if n > 0 && dir.get_char(n - 1) != '/' {
        r.push('/');
    }
    r.append(name);
    r
}

/// The entries of a directory in a snapshot; none if it was not listed.
pub open spec fn entries_of(listings: Seq<Listing>, dir: Seq<char>) -> Seq<Item>
    decreases listings.len(),
{
    if listings.len() == 0 {
        Seq::empty()
    } else if listings[0].dir@ == dir {
        sorted(items(listings[0].entries@))
    } else {
        entries_of(listings.drop_first(), dir)
    }
}

/// The length of the longest directory path in a snapshot.
pub open spec fn longest(listings: Seq<Listing>) -> nat
    decreases listings.len(),
{
    if listings.len() == 0 {
        0
    } else {
        most(listings.last().dir@.len() as int, longest(listings.drop_last()) as int) as nat
    }
}

/// One line of the tree.
pub struct Line {
    /// The path of the file or directory.
    pub path: Seq<char>,
    /// How deep it lies.
    pub depth: nat,
    /// Whether it is a directory.
    pub is_dir: bool,
}

/// The lines for the entries of `dir` from the index `i` on, each directory followed by its own
/// entries if it is expanded and listed.
pub open spec fn lines_from(
    listings: Seq<Listing>,
    expanded: Seq<Seq<char>>,
    dir: Seq<char>,
    i: int,
    depth: nat,
) -> Seq<Line>
    decreases longest(listings) + 1 - dir.len(), entries_of(listings, dir).len() - i,
{
    let entries = entries_of(listings, dir);
    if i < 0 || i >= entries.len() {
        Seq::empty()
    } else {
        let path = join(dir, entries[i].name);
        let below = if entries[i].is_dir && expanded.contains(path) && dir.len() < path.len()
            <= longest(listings) {
            lines_from(listings, expanded, path, 0, depth + 1)
        } else {
            Seq::empty()
        };
        seq![Line { path, depth, is_dir: entries[i].is_dir }] + below + lines_from(
            listings,
            expanded,
            dir,
            i + 1,
            depth,
        )
    }
}

#[derive(Clone, Debug)]
struct Row {
    path: String,
    depth: usize,
    is_dir: bool,
}

impl Row {
    spec fn line(self) -> Line {
        Line { path: self.path@, depth: self.depth as nat, is_dir: self.is_dir }
    }
}

spec fn row_lines(rows: Seq<Row>) -> Seq<Line> {
    rows.map_values(|r: Row| r.line())
}

/// A collapsible file explorer rooted at one directory.
#[derive(Debug)]
pub struct FileTree {
    root: String,
    expanded: Vec<String>,
    rows: Vec<Row>,
    selected: usize,
    top: usize,
}

/// The state of a [`FileTree`].
pub struct Tree {
    /// The root directory.
    pub root: Seq<char>,
    /// The expanded directories.
    pub expanded: Seq<Seq<char>>,
    /// The visible lines.
    pub lines: Seq<Line>,
    /// The index of the selected line.
    pub selected: nat,
    /// The index of the first line shown.
    pub top: nat,
}

impl View for FileTree {
    type V = Tree;

    closed spec fn view(&self) -> Tree {
        Tree {
            root: self.root@,
            expanded: strings(self.expanded@),
            lines: row_lines(self.rows@),
            selected: self.selected as nat,
            top: self.top as nat,
        }
    }
}

/// The index of the first line for a path, or -1.
pub open spec fn line_of(lines: Seq<Line>, path: Seq<char>, i: int) -> int
    decreases lines.len() - i,
{
    if i < 0 || i >= lines.len() {
        -1
    } else if lines[i].path == path {
        i
    } else {
        line_of(lines, path, i + 1)
    }
}

/// The index of the first occurrence of a path in a list, or -1.
pub open spec fn index_of(list: Seq<Seq<char>>, path: Seq<char>, i: int) -> int
    decreases list.len() - i,
{
    if i < 0 || i >= list.len() {
        -1
    } else if list[i] == path {
        i
    } else {
        index_of(list, path, i + 1)
    }
}

impl Tree {
    /// With the lines worked out anew from a snapshot, and the selection within them.
    pub open spec fn rebuilt(self, listings: Seq<Listing>) -> Tree {
        let lines = lines_from(listings, self.expanded, self.root, 0, 0);
        Tree {
            lines,
            selected: if self.selected >= lines.len() {
                most(lines.len() - 1, 0) as nat
            } else {
                self.selected
            },
            ..self
        }
    }

    /// With the line for a path selected, if there is one.
    pub open spec fn selecting(self, path: Seq<char>) -> Tree {
        let i = line_of(self.lines, path, 0);
        if i >= 0 {
            Tree { selected: i as nat, ..self }
        } else {
            self
        }
    }

    /// With a directory collapsed if it was expanded, and expanded if it was not.
    pub open spec fn toggled(self, path: Seq<char>) -> Tree {
        let i = index_of(self.expanded, path, 0);
        Tree {
            expanded: if i >= 0 {
                self.expanded.remove(i)
            } else {
                self.expanded.push(path)
            },
            ..self
        }
    }

    /// With the selected line activated: a directory is collapsed or expanded and stays selected.
    pub open spec fn activated(self, listings: Seq<Listing>) -> Tree {
        let line = self.lines[self.selected as int];
        if self.selected < self.lines.len() && line.is_dir {
            self.toggled(line.path).rebuilt(listings).selecting(line.path)
        } else {
            self
        }
    }

    /// With the selected line among the `rows` shown.
    pub open spec fn scrolled(self, rows: nat) -> Tree {
        Tree {
            top: if rows == 0 {
                self.top
            } else if self.selected < self.top {
                self.selected
            } else if self.selected >= self.top + rows {
                (self.selected + 1 - rows) as nat
            } else {
                self.top
            },
            ..self
        }
    }
}

/// The style of a line: inverted when selected, accented for a directory.
pub open spec fn line_style(line: Line, selected: bool, focused: bool, theme: Theme) -> Style {
    if selected && focused {
        theme.inverse()
    } else if selected {
        Style::new(theme.background, theme.foreground)
    } else if line.is_dir {
        theme.accented()
    } else {
        theme.base_style()
    }
}

/// A line as shown: indented, with a marker for a directory, and the name.
pub open spec fn line_label(line: Line, expanded: Seq<Seq<char>>) -> Seq<char> {
    let marker = if line.is_dir && expanded.contains(line.path) {
        "▾ "@
    } else if line.is_dir {
        "▸ "@
    } else {
        "  "@
    };
    repeat(' ', 2 * line.depth) + marker + match file_name(line.path) {
        Some(name) => name,
        None => Seq::empty(),
    }
}

/// The lines from the shown row `i` on drawn into `list`.
pub open spec fn draw_lines(
    c: Canvas,
    t: Tree,
    list: Rect,
    i: nat,
    theme: Theme,
    focused: bool,
) -> Canvas
    decreases list.height - i,
{
    let index = t.top + i;
    if i >= list.height || index >= t.lines.len() {
        c
    } else {
        let line = t.lines[index as int];
        let style = line_style(line, index == t.selected, focused, theme);
        let y = list.y + i as int;
        draw_lines(
            c.blank(list.x as int, list.right_col(), y, style).text(
                list.x as int,
                y,
                line_label(line, t.expanded),
                style,
            ),
            t,
            list,
            i + 1,
            theme,
            focused,
        )
    }
}

/// The explorer drawn over `c`: a title above the lines.
pub open spec fn drawn(c: Canvas, t: Tree, area: Rect, theme: Theme, focused: bool) -> Canvas {
    if area.is_empty() {
        c
    } else {
        let (title, list) = area.top_split(1);
        let style = theme.base_style().bold();
        let titled = c.blank(title.x as int, title.right_col(), title.y as int, style).text(
            title.x as int,
            title.y as int,
            " EXPLORER"@,
            style,
        );
        if list.is_empty() {
            titled
        } else {
            draw_lines(titled, t.scrolled(list.height as nat), list, 0, theme, focused)
        }
    }
}

/// The tree after it was drawn into an area: scrolled, if there was room for lines.
pub open spec fn after_drawing(t: Tree, area: Rect) -> Tree {
    if area.is_empty() || area.height < 2 {
        t
    } else {
        t.scrolled((area.height - 1) as nat)
    }
}

/// Whether a list holds a path.
fn holds(list: &[String], path: &str) -> (r: bool)
    ensures
        r == strings(list@).contains(path@),
{
    let mut i: usize = 0;
    while i < list.len()
        invariant
            i <= list@.len(),
            forall|k: int| 0 <= k < i ==> (#[trigger] list@[k])@ != path@,
        decreases list@.len() - i,
    {
        if same_text(list[i].as_str(), path) {
            assert(strings(list@)[i as int] == path@);
            return true;
        }
        i += 1;
    }
    assert forall|k: int| 0 <= k < list@.len() implies #[trigger] strings(list@)[k] != path@ by {
        assert(list@[k]@ != path@);
    }
    false
}

/// The sorted entries of a directory in a snapshot.
fn find_entries(listings: &[Listing], dir: &str) -> (r: Vec<Entry>)
    ensures
        items(r@) == entries_of(listings@, dir@),
{
    let mut i: usize = 0;
    assert(listings@.skip(0) =~= listings@);
    while i < listings.len()
        invariant
            i <= listings@.len(),
            entries_of(listings@, dir@) == entries_of(listings@.skip(i as int), dir@),
        decreases listings@.len() - i,
    {
        assert(listings@.skip(i as int)[0] == listings@[i as int]);
        if same_text(listings[i].dir.as_str(), dir) {
            return sort_entries(listings[i].entries.as_slice());
        }
        assert(listings@.skip(i as int).drop_first() =~= listings@.skip(i + 1));
        i += 1;
    }
    let r: Vec<Entry> = Vec::new();
    assert(items(r@) =~= Seq::empty());
    r
}

/// A directory that is listed is no longer than the longest listed one.
proof fn lemma_listed_length(listings: Seq<Listing>, dir: Seq<char>)
    requires
        entries_of(listings, dir).len() > 0,
    ensures
        dir.len() <= longest(listings),
    decreases listings.len(),
{
    if listings[0].dir@ == dir {
        lemma_longest(listings, 0);
    } else {
        lemma_listed_length(listings.drop_first(), dir);
        lemma_longest_rest(listings);
    }
}

proof fn lemma_longest(listings: Seq<Listing>, i: int)
    requires
        0 <= i < listings.len(),
    ensures
        listings[i].dir@.len() <= longest(listings),
    decreases listings.len(),
{
    if i < listings.len() - 1 {
        lemma_longest(listings.drop_last(), i);
    }
}

proof fn lemma_longest_rest(listings: Seq<Listing>)
    requires
        listings.len() > 0,
    ensures
        longest(listings.drop_first()) <= longest(listings),
    decreases listings.len(),
{
    let rest = listings.drop_first();
    if rest.len() > 0 {
        lemma_longest_rest(listings.drop_last());
        assert(listings.drop_last().drop_first() =~= rest.drop_last());
        assert(rest.last() == listings.last());
    }
}

/// The length of the longest directory path in a snapshot.
fn find_longest(listings: &[Listing]) -> (r: usize)
    ensures
        r == longest(listings@),
{
    let mut best: usize = 0;
    let mut i: usize = 0;
    while i < listings.len()
        invariant
            i <= listings@.len(),
            best == longest(listings@.take(i as int)),
        decreases listings@.len() - i,
    {
        let n = listings[i].dir.as_str().unicode_len();
        assert(listings@.take(i + 1).drop_last() =~= listings@.take(i as int));
        if best < n {
            best = n;
        }
        i += 1;
    }
    assert(listings@.take(i as int) =~= listings@);
    best
}

/// Appends the lines for the entries of `dir`.
fn append_children(
    rows: &mut Vec<Row>,
    listings: &[Listing],
    expanded: &[String],
    dir: &str,
    depth: usize,
    limit: usize,
)
    requires
        limit == longest(listings@),
        depth <= dir@.len(),
        dir@.len() <= limit || entries_of(listings@, dir@).len() == 0,
    ensures
        row_lines(final(rows)@) == row_lines(old(rows)@) + lines_from(
            listings@,
            strings(expanded@),
            dir@,
            0,
            depth as nat,
        ),
    decreases limit + 1 - dir@.len(),
{
    let entries = find_entries(listings, dir);
    let ghost start = row_lines(rows@);
    let ghost all = lines_from(listings@, strings(expanded@), dir@, 0, depth as nat);
    let mut i: usize = 0;
    assert(start + all == start + all);
    while i < entries.len()
        invariant
            i <= entries@.len(),
            limit == longest(listings@),
            depth <= dir@.len(),
            dir@.len() <= limit || entries_of(listings@, dir@).len() == 0,
            items(entries@) == entries_of(listings@, dir@),
            row_lines(rows@) + lines_from(
                listings@,
                strings(expanded@),
                dir@,
                i as int,
                depth as nat,
            ) == start + all,
        decreases entries@.len() - i,
    {
        let entry = &entries[i];
        assert(items(entries@)[i as int] == entry@);
        let path = join_path(dir, entry.name.as_str());
        let length = path.as_str().unicode_len();
        let from = dir.unicode_len();
        let descend = entry.is_dir && holds(expanded, path.as_str()) && from < length && length
            <= limit;
        let ghost line = Line { path: path@, depth: depth as nat, is_dir: entry.is_dir };
        let ghost rest = lines_from(
            listings@,
            strings(expanded@),
            dir@,
            i + 1,
            depth as nat,
        );
        let ghost below = if descend {
            lines_from(listings@, strings(expanded@), path@, 0, (depth + 1) as nat)
        } else {
            Seq::empty()
        };
        let ghost before = row_lines(rows@);
        rows.push(Row { path: path.clone(), depth, is_dir: entry.is_dir });
        assert(row_lines(rows@) =~= before.push(line));
        assert(before + (seq![line] + below + rest) == start + all);
        if descend {
            append_children(rows, listings, expanded, path.as_str(), depth + 1, limit);
        }
        assert(row_lines(rows@) =~= before.push(line) + below);
        assert(row_lines(rows@) + rest =~= before + (seq![line] + below + rest));
        i += 1;
    }
    assert(row_lines(rows@) + Seq::<Line>::empty() =~= row_lines(rows@));
}

impl FileTree {
    /// Builds a tree rooted at `root`, with the root expanded.
    pub fn new(root: &str, listings: &[Listing]) -> (r: Self)
        ensures
            r@ == (Tree {
                root: root@,
                expanded: seq![root@],
                lines: Seq::empty(),
                selected: 0,
                top: 0,
            }).rebuilt(listings@),
    {
        let mut expanded: Vec<String> = Vec::new();
        expanded.push(root.to_owned());
        let mut tree = FileTree {
            root: root.to_owned(),
            expanded,
            rows: Vec::new(),
            selected: 0,
            top: 0,
        };
        assert(tree@.expanded =~= seq![root@]);
        assert(tree@.lines =~= Seq::empty());
        tree.rebuild(listings);
        tree
    }

    /// The root directory.
    pub fn root(&self) -> (r: &str)
        ensures
            r@ == self@.root,
    {
        self.root.as_str()
    }

    /// The names of the visible lines, with how deep they lie.
    pub fn names(&self) -> (r: Vec<(String, usize)>)
        ensures
            r@.len() == self@.lines.len(),
            forall|i: int|
                0 <= i < r@.len() ==> (#[trigger] r@[i]).1 == self@.lines[i].depth && r@[i].0@
                    == match file_name(self@.lines[i].path) {
                    Some(name) => name,
                    None => Seq::empty(),
                },
    {
        let mut out: Vec<(String, usize)> = Vec::new();
        let mut i: usize = 0;
        while i < self.rows.len()
            invariant
                i <= self.rows@.len(),
                out@.len() == i,
                forall|k: int|
                    0 <= k < i ==> (#[trigger] out@[k]).1 == self@.lines[k].depth && out@[k].0@
                        == match file_name(self@.lines[k].path) {
                        Some(name) => name,
                        None => Seq::empty(),
                    },
            decreases self.rows@.len() - i,
        {
            let name = name_of(self.rows[i].path.as_str());
            out.push((name, self.rows[i].depth));
            i += 1;
        }
        out
    }

    /// The directories that the host has to list for the next rebuild: the root, those that are
    /// expanded, and the selected one.
    pub fn wanted(&self) -> (r: Vec<String>)
        ensures
            strings(r@) == seq![self@.root] + self@.expanded + if self@.selected
                < self@.lines.len() && self@.lines[self@.selected as int].is_dir {
                seq![self@.lines[self@.selected as int].path]
            } else {
                Seq::empty()
            },
    {
        let mut out: Vec<String> = Vec::new();
        out.push(self.root.clone());
        let mut i: usize = 0;
        assert(strings(out@) =~= seq![self@.root] + self@.expanded.take(0));
        while i < self.expanded.len()
            invariant
                i <= self.expanded@.len(),
                strings(out@) == seq![self@.root] + self@.expanded.take(i as int),
            decreases self.expanded@.len() - i,
        {
            let ghost before = strings(out@);
            out.push(self.expanded[i].clone());
            assert(strings(out@) =~= before.push(self@.expanded[i as int]));
            assert(strings(out@) =~= seq![self@.root] + self@.expanded.take(i + 1));
            i += 1;
        }
        assert(self@.expanded.take(i as int) =~= self@.expanded);
        let ghost before = strings(out@);
        if self.selected < self.rows.len() && self.rows[self.selected].is_dir {
            out.push(self.rows[self.selected].path.clone());
            assert(strings(out@) =~= before + seq![self@.lines[self@.selected as int].path]);
        } else {
            assert(strings(out@) =~= before + Seq::<Seq<char>>::empty());
        }
        out
    }

    /// Moves the selection up one line.
    pub fn select_up(&mut self)
        ensures
            final(self)@ == (Tree {
                selected: most(old(self)@.selected - 1, 0) as nat,
                ..old(self)@
            }),
    {
        if self.selected > 0 {
            self.selected -= 1;
        }
    }

    /// Moves the selection down one line.
    pub fn select_down(&mut self)
        ensures
            final(self)@ == (Tree {
                selected: if old(self)@.selected + 1 < old(self)@.lines.len() {
                    old(self)@.selected + 1
                } else {
                    old(self)@.selected
                },
                ..old(self)@
            }),
    {
        if self.rows.len() > 0 && self.selected < self.rows.len() - 1 {
            self.selected += 1;
        }
    }

    /// Activates the selected line: toggles a directory, or gives the path of a file to open.
    pub fn activate(&mut self, listings: &[Listing]) -> (r: Option<String>)
        ensures
            ({
                let t = old(self)@;
                let line = t.lines[t.selected as int];
                &&& final(self)@ == t.activated(listings@)
                &&& match r {
                    Some(path) => t.selected < t.lines.len() && !line.is_dir && path@ == line.path,
                    None => t.selected >= t.lines.len() || line.is_dir,
                }
            }),
    {
        if self.selected >= self.rows.len() {
            return None;
        }
        let path = self.rows[self.selected].path.clone();
        if self.rows[self.selected].is_dir {
            self.toggle(path.as_str(), listings);
            None
        } else {
            Some(path)
        }
    }

    /// Works the lines out anew from a snapshot, keeping the expanded directories and the selected
    /// path.
    pub fn refresh(&mut self, listings: &[Listing])
        ensures
            ({
                let t = old(self)@;
                final(self)@ == if t.selected < t.lines.len() {
                    t.rebuilt(listings@).selecting(t.lines[t.selected as int].path)
                } else {
                    t.rebuilt(listings@)
                }
            }),
    {
        if self.selected < self.rows.len() {
            let path = self.rows[self.selected].path.clone();
            self.rebuild(listings);
            self.select_path(path.as_str());
        } else {
            self.rebuild(listings);
        }
    }

    fn select_path(&mut self, path: &str)
        ensures
            final(self)@ == old(self)@.selecting(path@),
    {
        let mut i: usize = 0;
        while i < self.rows.len()
            invariant
                i <= self.rows@.len(),
                *self == *old(self),
                line_of(self@.lines, path@, 0) == line_of(self@.lines, path@, i as int),
            decreases self.rows@.len() - i,
        {
            if same_text(self.rows[i].path.as_str(), path) {
                self.selected = i;
                return ;
            }
            i += 1;
        }
    }

    fn toggle(&mut self, path: &str, listings: &[Listing])
        ensures
            final(self)@ == old(self)@.toggled(path@).rebuilt(listings@).selecting(path@),
    {
        let ghost before = self@;
        let mut at: Option<usize> = None;
        let mut i: usize = 0;
        while i < self.expanded.len() && at.is_none()
            invariant
                i <= self.expanded@.len(),
                *self == *old(self),
                before == self@,
                match at {
                    Some(k) => k < self.expanded@.len() && index_of(before.expanded, path@, 0) == k,
                    None => index_of(before.expanded, path@, 0) == index_of(
                        before.expanded,
                        path@,
                        i as int,
                    ),
                },
            decreases self.expanded@.len() - i + if at is None {
                1int
            } else {
                0
            },
        {
            if same_text(self.expanded[i].as_str(), path) {
                at = Some(i);
            } else {
                i += 1;
            }
        }
        match at {
            Some(k) => {
                self.expanded.remove(k);
                assert(self@.expanded =~= before.expanded.remove(k as int));
            },
            None => {
                self.expanded.push(path.to_owned());
                assert(self@.expanded =~= before.expanded.push(path@));
            },
        }
        assert(self@ == before.toggled(path@));
        self.rebuild(listings);
        self.select_path(path);
    }

    fn rebuild(&mut self, listings: &[Listing])
        ensures
            final(self)@ == old(self)@.rebuilt(listings@),
    {
        let limit = find_longest(listings);
        let mut rows: Vec<Row> = Vec::new();
        proof {
            if entries_of(listings@, self.root@).len() > 0 {
                lemma_listed_length(listings@, self.root@);
            }
        }
        append_children(
            &mut rows,
            listings,
            self.expanded.as_slice(),
            self.root.as_str(),
            0,
            limit,
        );
        self.rows = rows;
        proof {
            let lines = lines_from(listings@, self@.expanded, self@.root, 0, 0);
            assert(row_lines(Seq::<Row>::empty()) + lines =~= lines);
            assert(self@.lines == lines);
        }
        if self.selected >= self.rows.len() {
            self.selected = if self.rows.len() > 0 {
                self.rows.len() - 1
            } else {
                0
            };
        }
    }

    /// Draws the explorer into `area`: a title above the lines, scrolled so that the selected one
    /// is shown.
    pub fn render(&mut self, surface: &mut Surface, area: Rect, theme: &Theme, focused: bool)
        requires
            old(surface)@.wf(),
            area.wf(),
        ensures
            final(surface)@ == drawn(old(surface)@, old(self)@, area, *theme, focused),
            final(surface)@.wf(),
            final(self)@ == after_drawing(old(self)@, area),
    {
        if area.is_empty() {
            return ;
        }
        let (title, list) = area.split_top(1);
        let style = theme.base_style().bold();
        surface.blank(title.x, title.right(), title.y, style);
        surface.set_str(title.x, title.y, " EXPLORER", style);
        if list.is_empty() {
            return ;
        }
        self.scroll_into_view(list.height);
        let ghost base = surface@;
        let mut i: u32 = 0;
        while i < list.height && self.top < self.rows.len() && (i as usize) < self.rows.len()
            - self.top
            invariant
                surface@.wf(),
                list.x + list.width <= u32::MAX,
                list.y + list.height <= u32::MAX,
                i <= list.height,
                draw_lines(base, self@, list, 0, *theme, focused) == draw_lines(
                    surface@,
                    self@,
                    list,
                    i as nat,
                    *theme,
                    focused,
                ),
            decreases list.height - i,
        {
            let index: usize = self.top + i as usize;
            let row = &self.rows[index];
            let selected = index == self.selected;
            let style = if selected && focused {
                theme.inverse()
            } else if selected {
                Style::new(theme.background, theme.foreground)
            } else if row.is_dir {
                theme.accented()
            } else {
                theme.base_style()
            };
            let y: u32 = list.y + i;
            surface.blank(list.x, list.right(), y, style);
            let label = label_for(row, self.expanded.as_slice());
            surface.set_str(list.x, y, label.as_str(), style);
            i += 1;
        }
    }

    fn scroll_into_view(&mut self, rows: u32)
        ensures
            final(self)@ == old(self)@.scrolled(rows as nat),
    {
        let rows = rows as usize;
        if rows == 0 {
            return ;
        }
        if self.selected < self.top {
            self.top = self.selected;
        } else if self.selected - self.top >= rows {
            self.top = self.selected - (rows - 1);
        }
    }
}

/// The final component of a path; empty if it has none.
fn name_of(path: &str) -> (r: String)
    ensures
        r@ == match file_name(path@) {
            Some(name) => name,
            None => Seq::empty(),
        },
{
    let chars = chars_of(path);
    match file_name_of(chars.as_slice()) {
        Some(name) => string_of(name.as_slice()),
        None => String::new(),
    }
}

/// A line as shown.
fn label_for(row: &Row, expanded: &[String]) -> (r: String)
    ensures
        r@ == line_label(row.line(), strings(expanded@)),
{
    let mut label = String::new();
    let mut i: usize = 0;
    assert(label@ =~= repeat(' ', 0));
    while i < row.depth
        invariant
            i <= row.depth,
            label@ == repeat(' ', 2 * i as nat),
        decreases row.depth - i,
    {
        label.append(repeated(' ', 2).as_str());
        assert(label@ =~= repeat(' ', 2 * (i + 1) as nat));
        i += 1;
    }
    if row.is_dir && holds(expanded, row.path.as_str()) {
        label.append("▾ ");
    } else if row.is_dir {
        label.append("▸ ");
    } else {
        label.append("  ");
    }
    label.append(name_of(row.path.as_str()).as_str());
    label
}

/// A walk over directories that collects files, up to a limit. The host lists the directory that
/// [`FileWalk::next_dir`] names and hands the entries to [`FileWalk::visit`].
#[derive(Debug)]
pub struct FileWalk {
    files: Vec<String>,
    stack: Vec<String>,
    limit: usize,
}

/// The state of a [`FileWalk`].
pub struct Walk {
    /// The files found so far.
    pub files: Seq<Seq<char>>,
    /// The directories still to visit, the next one last.
    pub stack: Seq<Seq<char>>,
    /// How many files are collected at most.
    pub limit: nat,
}

impl View for FileWalk {
    type V = Walk;

    closed spec fn view(&self) -> Walk {
        Walk {
            files: strings(self.files@),
            stack: strings(self.stack@),
            limit: self.limit as nat,
        }
    }
}

impl Walk {
    /// After the first `n` listed entries of a directory: directories are still to be visited,
    /// files are collected while there is room.
    pub open spec fn visited(self, dir: Seq<char>, entries: Seq<Item>, n: nat) -> Walk
        decreases n,
    {
        if n == 0 {
            self
        } else {
            let w = self.visited(dir, entries, (n - 1) as nat);
            let path = join(dir, entries[n - 1].name);
            if entries[n - 1].is_dir {
                Walk { stack: w.stack.push(path), ..w }
            } else if w.files.len() < w.limit {
                Walk { files: w.files.push(path), ..w }
            } else {
                w
            }
        }
    }
}

impl FileWalk {
    /// Starts a walk at `root` that collects up to `limit` files.
    pub fn new(root: &str, limit: usize) -> (r: Self)
        ensures
            r@ == (Walk { files: Seq::empty(), stack: seq![root@], limit: limit as nat }),
    {
        let mut stack: Vec<String> = Vec::new();
        stack.push(root.to_owned());
        let r = FileWalk { files: Vec::new(), stack, limit };
        assert(r@.files =~= Seq::empty());
        assert(r@.stack =~= seq![root@]);
        r
    }

    /// The next directory to list; `None` when the walk is over or has collected enough.
    pub fn next_dir(&mut self) -> (r: Option<String>)
        ensures
            match r {
                Some(dir) => {
                    &&& old(self)@.stack.len() > 0
                    &&& old(self)@.files.len() < old(self)@.limit
                    &&& dir@ == old(self)@.stack.last()
                    &&& final(self)@ == (Walk {
                        stack: old(self)@.stack.drop_last(),
                        ..old(self)@
                    })
                },
                None => {
                    &&& final(self)@.files == old(self)@.files
                    &&& old(self)@.stack.len() == 0 || old(self)@.files.len() >= old(self)@.limit
                },
            },
    {
        let next = self.stack.pop();
        proof {
            if old(self)@.stack.len() > 0 {
                assert(self@.stack =~= old(self)@.stack.drop_last());
            }
        }
        match next {
            Some(dir) => if self.files.len() >= self.limit {
                None
            } else {
                Some(dir)
            },
            None => None,
        }
    }

    /// Takes the entries of a directory, in any order.
    pub fn visit(&mut self, dir: &str, entries: &[Entry])
        ensures
            final(self)@ == old(self)@.visited(
                dir@,
                sorted(items(entries@)),
                sorted(items(entries@)).len(),
            ),
    {
        let list = sort_entries(entries);
        let ghost all = items(list@);
        let mut i: usize = 0;
        while i < list.len()
            invariant
                i <= list@.len(),
                all == items(list@),
                self@ == old(self)@.visited(dir@, all, i as nat),
            decreases list@.len() - i,
        {
            let ghost before = self@;
            assert(all[i as int] == list@[i as int]@);
            let path = join_path(dir, list[i].name.as_str());
            let ghost p = path@;
            if list[i].is_dir {
                self.stack.push(path);
                assert(self@.stack =~= before.stack.push(p));
            } else if self.files.len() < self.limit {
                self.files.push(path);
                assert(self@.files =~= before.files.push(p));
            }
            i += 1;
        }
    }

    /// The files collected.
    pub fn files(&self) -> (r: &Vec<String>)
        ensures
            strings(r@) == self@.files,
    {
        &self.files
    }
}

/// A walk never collects more files than its limit.
pub proof fn law_walk_is_bounded(w: Walk, dir: Seq<char>, entries: Seq<Item>, n: nat)
    requires
        w.files.len() <= w.limit,
        n <= entries.len(),
    ensures
        w.visited(dir, entries, n).files.len() <= w.limit,
        w.visited(dir, entries, n).limit == w.limit,
    decreases n,
{
    if n > 0 {
        law_walk_is_bounded(w, dir, entries, (n - 1) as nat);
    }
}

/// Whether every entry of a snapshot has a name.
pub open spec fn named(listings: Seq<Listing>) -> bool {
    forall|dir: Seq<char>, i: int|
        0 <= i < entries_of(listings, dir).len() ==> (#[trigger] entries_of(
            listings,
            dir,
        )[i]).name.len() > 0
}

/// Whether two lists of directories hold the same ones, but for `path` perhaps.
spec fn same_but(a: Seq<Seq<char>>, b: Seq<Seq<char>>, path: Seq<char>) -> bool {
    forall|p: Seq<char>| p != path ==> #[trigger] a.contains(p) == b.contains(p)
}

/// Whether the lines for the same entries do not depend on the order of the expanded directories.
proof fn lemma_same_lines(
    listings: Seq<Listing>,
    a: Seq<Seq<char>>,
    b: Seq<Seq<char>>,
    dir: Seq<char>,
    i: int,
    depth: nat,
)
    requires
        forall|p: Seq<char>| #[trigger] a.contains(p) == b.contains(p),
    ensures
        lines_from(listings, a, dir, i, depth) == lines_from(listings, b, dir, i, depth),
    decreases longest(listings) + 1 - dir.len(), entries_of(listings, dir).len() - i,
{
    let entries = entries_of(listings, dir);
    if 0 <= i < entries.len() {
        let path = join(dir, entries[i].name);
        assert(a.contains(path) == b.contains(path));
        if entries[i].is_dir && a.contains(path) && dir.len() < path.len() <= longest(listings) {
            lemma_same_lines(listings, a, b, path, 0, depth + 1);
        }
        lemma_same_lines(listings, a, b, dir, i + 1, depth);
    }
}

/// Whether a path lies below a directory.
pub open spec fn lies_below(dir: Seq<char>, path: Seq<char>) -> bool {
    &&& path.len() > dir.len()
    &&& path.take(dir.len() as int) == dir
    &&& dir.len() == 0 || dir.last() == '/' || path[dir.len() as int] == '/'
}

/// The lines that do not lie below a directory stay when only that one is expanded or collapsed.
proof fn lemma_other_line_stays(
    listings: Seq<Listing>,
    a: Seq<Seq<char>>,
    b: Seq<Seq<char>>,
    at: Seq<char>,
    dir: Seq<char>,
    i: int,
    depth: nat,
    line: Line,
)
    requires
        named(listings),
        same_but(a, b, at),
        !lies_below(at, line.path),
        lines_from(listings, a, dir, i, depth).contains(line),
    ensures
        lines_from(listings, b, dir, i, depth).contains(line),
    decreases longest(listings) + 1 - dir.len(), entries_of(listings, dir).len() - i,
{
    let entries = entries_of(listings, dir);
    if 0 <= i < entries.len() {
        let path = join(dir, entries[i].name);
        let here = Line { path, depth, is_dir: entries[i].is_dir };
        let deep = entries[i].is_dir && dir.len() < path.len() <= longest(listings);
        let below_a = if deep && a.contains(path) {
            lines_from(listings, a, path, 0, depth + 1)
        } else {
            Seq::empty()
        };
        let below_b = if deep && b.contains(path) {
            lines_from(listings, b, path, 0, depth + 1)
        } else {
            Seq::empty()
        };
        let rest_a = lines_from(listings, a, dir, i + 1, depth);
        let rest_b = lines_from(listings, b, dir, i + 1, depth);
        let all_a = lines_from(listings, a, dir, i, depth);
        let all_b = lines_from(listings, b, dir, i, depth);
        assert(all_a == seq![here] + below_a + rest_a);
        assert(all_b == seq![here] + below_b + rest_b);
        let k = choose|k: int| 0 <= k < all_a.len() && all_a[k] == line;
        if k == 0 {
            assert(all_b[0] == line);
        } else if k <= below_a.len() {
            assert(below_a[k - 1] == line);
            if path == at {
                lemma_lines_lie_deeper(listings, a, path, 0, depth + 1, k - 1);
            } else {
                assert(a.contains(path) == b.contains(path));
                lemma_other_line_stays(listings, a, b, at, path, 0, depth + 1, line);
                let m = choose|m: int| 0 <= m < below_b.len() && below_b[m] == line;
                assert(all_b[m + 1] == line);
            }
        } else {
            assert(rest_a[k - 1 - below_a.len()] == line);
            lemma_other_line_stays(listings, a, b, at, dir, i + 1, depth, line);
            let m = choose|m: int| 0 <= m < rest_b.len() && rest_b[m] == line;
            assert(all_b[m + 1 + below_b.len()] == line);
        }
    }
}

/// What is listed in a directory lies below it.
proof fn lemma_lines_lie_deeper(
    listings: Seq<Listing>,
    expanded: Seq<Seq<char>>,
    dir: Seq<char>,
    i: int,
    depth: nat,
    k: int,
)
    requires
        named(listings),
        0 <= k < lines_from(listings, expanded, dir, i, depth).len(),
    ensures
        lies_below(dir, lines_from(listings, expanded, dir, i, depth)[k].path),
    decreases longest(listings) + 1 - dir.len(), entries_of(listings, dir).len() - i,
{
    let entries = entries_of(listings, dir);
    if 0 <= i < entries.len() {
        let path = join(dir, entries[i].name);
        let below = if entries[i].is_dir && expanded.contains(path) && dir.len() < path.len()
            <= longest(listings) {
            lines_from(listings, expanded, path, 0, depth + 1)
        } else {
            Seq::empty()
        };
        let all = lines_from(listings, expanded, dir, i, depth);
        assert(path.take(dir.len() as int) =~= dir);
        if k > 0 && k <= below.len() {
            assert(all[k] == below[k - 1]);
            lemma_lines_lie_deeper(listings, expanded, path, 0, depth + 1, k - 1);
            assert(all[k].path.take(dir.len() as int) =~= path.take(dir.len() as int));
            assert(all[k].path.take(path.len() as int)[dir.len() as int] == path[dir.len() as int]);
        } else if k > below.len() {
            assert(all[k] == lines_from(listings, expanded, dir, i + 1, depth)[k - 1
                - below.len()]);
            lemma_lines_lie_deeper(
                listings,
                expanded,
                dir,
                i + 1,
                depth,
                k - 1 - below.len(),
            );
        }
    }
}

proof fn lemma_index_of(list: Seq<Seq<char>>, path: Seq<char>, i: int)
    requires
        0 <= i,
    ensures
        index_of(list, path, i) >= 0 ==> i <= index_of(list, path, i) < list.len() && list[index_of(
            list,
            path,
            i,
        )] == path,
        index_of(list, path, i) < 0 ==> forall|k: int| i <= k < list.len() ==> list[k] != path,
    decreases list.len() - i,
{
    if i < list.len() && list[i] != path {
        lemma_index_of(list, path, i + 1);
    }
}

proof fn lemma_line_of(lines: Seq<Line>, path: Seq<char>, i: int)
    requires
        0 <= i,
    ensures
        line_of(lines, path, i) >= 0 ==> i <= line_of(lines, path, i) < lines.len()
            && lines[line_of(lines, path, i)].path == path,
        line_of(lines, path, i) < 0 ==> forall|k: int|
            i <= k < lines.len() ==> (#[trigger] lines[k]).path != path,
    decreases lines.len() - i,
{
    if i < lines.len() && lines[i].path != path {
        lemma_line_of(lines, path, i + 1);
    }
}

/// Expanding or collapsing a directory concerns no other one, and doing it twice concerns none.
proof fn lemma_toggled_twice(t: Tree, path: Seq<char>)
    requires
        t.expanded.no_duplicates(),
    ensures
        t.toggled(path).expanded.no_duplicates(),
        same_but(t.expanded, t.toggled(path).expanded, path),
        t.toggled(path).expanded.contains(path) == !t.expanded.contains(path),
{
    let a = t.expanded;
    let b = t.toggled(path).expanded;
    lemma_index_of(a, path, 0);
    let i = index_of(a, path, 0);
    if i >= 0 {
        assert(b == a.remove(i));
        assert forall|p: Seq<char>| p != path implies #[trigger] a.contains(p) == b.contains(p) by {
            if a.contains(p) {
                let k = choose|k: int| 0 <= k < a.len() && a[k] == p;
                assert(b[if k < i {
                    k
                } else {
                    k - 1
                }] == p);
            }
            if b.contains(p) {
                let k = choose|k: int| 0 <= k < b.len() && b[k] == p;
                assert(a[if k < i {
                    k
                } else {
                    k + 1
                }] == p);
            }
        }
        assert(!b.contains(path)) by {
            if b.contains(path) {
                let k = choose|k: int| 0 <= k < b.len() && b[k] == path;
                assert(a[if k < i {
                    k
                } else {
                    k + 1
                }] == path);
            }
        }
        assert forall|x: int, y: int| 0 <= x < b.len() && 0 <= y < b.len() && x != y implies b[x]
            != b[y] by {
            assert(b[x] == a[if x < i {
                x
            } else {
                x + 1
            }]);
            assert(b[y] == a[if y < i {
                y
            } else {
                y + 1
            }]);
        }
    } else {
        assert(b == a.push(path));
        assert forall|p: Seq<char>| p != path implies #[trigger] a.contains(p) == b.contains(p) by {
            if a.contains(p) {
                let k = choose|k: int| 0 <= k < a.len() && a[k] == p;
                assert(b[k] == p);
            }
            if b.contains(p) {
                let k = choose|k: int| 0 <= k < b.len() && b[k] == p;
                assert(a[k] == p);
            }
        }
        assert(b[a.len() as int] == path);
    }
}

/// Whether a tree shows what a snapshot holds, with each path a file or a directory, not both.
pub open spec fn shows(t: Tree, listings: Seq<Listing>) -> bool {
    &&& named(listings)
    &&& t.expanded.no_duplicates()
    &&& t.lines == lines_from(listings, t.expanded, t.root, 0, 0)
    &&& forall|i: int, j: int|
        0 <= i < t.lines.len() && 0 <= j < t.lines.len() && (#[trigger] t.lines[i]).path == (
        #[trigger] t.lines[j]).path ==> t.lines[i].is_dir == t.lines[j].is_dir
}

proof fn lemma_activated(t: Tree, listings: Seq<Listing>)
    requires
        shows(t, listings),
        t.selected < t.lines.len(),
        t.lines[t.selected as int].is_dir,
    ensures
        ({
            let u = t.activated(listings);
            let path = t.lines[t.selected as int].path;
            &&& u.lines == lines_from(listings, u.expanded, u.root, 0, 0)
            &&& u.root == t.root
            &&& u.expanded == t.toggled(path).expanded
            &&& u.selected < u.lines.len()
            &&& u.lines[u.selected as int].path == path
            &&& u.lines[u.selected as int].is_dir
        }),
{
    let line = t.lines[t.selected as int];
    let u = t.activated(listings);
    let a = t.expanded;
    let b = u.expanded;
    lemma_toggled_twice(t, line.path);
    assert(t.lines.contains(line));
    lemma_other_line_stays(listings, a, b, line.path, t.root, 0, 0, line);
    let k = choose|k: int| 0 <= k < u.lines.len() && u.lines[k] == line;
    lemma_line_of(u.lines, line.path, 0);
    assert(u.lines[k].path == line.path);
    let here = u.lines[u.selected as int];
    assert(u.lines.contains(here));
    assert(same_but(b, a, line.path));
    lemma_other_line_stays(listings, b, a, line.path, t.root, 0, 0, here);
    let m = choose|m: int| 0 <= m < t.lines.len() && t.lines[m] == here;
    assert(t.lines[m].path == t.lines[t.selected as int].path);
}

/// Activating a directory selects it still, and activating it again gives the lines back, as long as
/// the directories on disk do not change. A file, or nothing, is left as it is.
pub proof fn law_second_activation_restores(t: Tree, listings: Seq<Listing>)
    requires
        shows(t, listings),
    ensures
        ({
            let u = t.activated(listings);
            let line = t.lines[t.selected as int];
            if t.selected < t.lines.len() && line.is_dir {
                &&& u.selected < u.lines.len()
                &&& u.lines[u.selected as int].path == line.path
                &&& u.lines[u.selected as int].is_dir
                &&& u.activated(listings).lines == t.lines
            } else {
                u == t
            }
        }),
{
    let line = t.lines[t.selected as int];
    if t.selected < t.lines.len() && line.is_dir {
        lemma_activated(t, listings);
        let u = t.activated(listings);
        let v = u.activated(listings);
        lemma_toggled_twice(t, line.path);
        lemma_toggled_twice(u, line.path);
        assert(v.expanded == u.toggled(line.path).expanded);
        assert forall|p: Seq<char>| #[trigger] v.expanded.contains(p) == t.expanded.contains(
            p,
        ) by {
            assert(t.expanded.contains(p) == u.expanded.contains(p) || p == line.path);
            assert(u.expanded.contains(p) == v.expanded.contains(p) || p == line.path);
        }
        lemma_same_lines(listings, v.expanded, t.expanded, t.root, 0, 0);
    }
}

/// Expanding a directory that is not among the lines changes none of them.
proof fn lemma_unlisted_path(
    listings: Seq<Listing>,
    a: Seq<Seq<char>>,
    b: Seq<Seq<char>>,
    at: Seq<char>,
    dir: Seq<char>,
    i: int,
    depth: nat,
)
    requires
        same_but(a, b, at),
        forall|k: int|
            0 <= k < lines_from(listings, a, dir, i, depth).len() ==> (#[trigger] lines_from(
                listings,
                a,
                dir,
                i,
                depth,
            )[k]).path != at,
    ensures
        lines_from(listings, b, dir, i, depth) == lines_from(listings, a, dir, i, depth),
    decreases longest(listings) + 1 - dir.len(), entries_of(listings, dir).len() - i,
{
    let entries = entries_of(listings, dir);
    if 0 <= i < entries.len() {
        let path = join(dir, entries[i].name);
        let here = Line { path, depth, is_dir: entries[i].is_dir };
        let deep = entries[i].is_dir && dir.len() < path.len() <= longest(listings);
        let below = if deep && a.contains(path) {
            lines_from(listings, a, path, 0, depth + 1)
        } else {
            Seq::empty()
        };
        let rest = lines_from(listings, a, dir, i + 1, depth);
        let all = lines_from(listings, a, dir, i, depth);
        assert(all == seq![here] + below + rest);
        assert(all[0].path != at);
        assert(a.contains(path) == b.contains(path));
        assert forall|k: int| 0 <= k < rest.len() implies (#[trigger] rest[k]).path != at by {
            assert(all[k + 1 + below.len()] == rest[k]);
        }
        lemma_unlisted_path(listings, a, b, at, dir, i + 1, depth);
        if deep && a.contains(path) {
            assert forall|k: int| 0 <= k < below.len() implies (#[trigger] below[k]).path != at by {
                assert(all[k + 1] == below[k]);
            }
            lemma_unlisted_path(listings, a, b, at, path, 0, depth + 1);
        }
    }
}

/// Whether a path is that of one line alone, the `k`-th.
pub open spec fn only_line(lines: Seq<Line>, k: int, path: Seq<char>) -> bool {
    &&& 0 <= k < lines.len()
    &&& forall|j: int| 0 <= j < lines.len() ==> ((#[trigger] lines[j]).path == path <==> j == k)
}

/// Lines with those of an expanded directory behind its own line, the `k`-th.
pub open spec fn opened_at(lines: Seq<Line>, k: int, below: Seq<Line>) -> Seq<Line> {
    lines.take(k + 1) + below + lines.skip(k + 1)
}

proof fn lemma_opened(
    listings: Seq<Listing>,
    a: Seq<Seq<char>>,
    b: Seq<Seq<char>>,
    at: Seq<char>,
    dir: Seq<char>,
    i: int,
    depth: nat,
    k: int,
)
    requires
        named(listings),
        same_but(a, b, at),
        !a.contains(at),
        b.contains(at),
        only_line(lines_from(listings, a, dir, i, depth), k, at),
        lines_from(listings, a, dir, i, depth)[k].is_dir,
    ensures
        ({
            let lines = lines_from(listings, a, dir, i, depth);
            lines_from(listings, b, dir, i, depth) == opened_at(
                lines,
                k,
                lines_from(listings, b, at, 0, lines[k].depth + 1),
            )
        }),
    decreases longest(listings) + 1 - dir.len(), entries_of(listings, dir).len() - i,
{
    let entries = entries_of(listings, dir);
    if 0 <= i < entries.len() {
        let path = join(dir, entries[i].name);
        let here = Line { path, depth, is_dir: entries[i].is_dir };
        let deep = entries[i].is_dir && dir.len() < path.len() <= longest(listings);
        let below_a = if deep && a.contains(path) {
            lines_from(listings, a, path, 0, depth + 1)
        } else {
            Seq::empty()
        };
        let below_b = if deep && b.contains(path) {
            lines_from(listings, b, path, 0, depth + 1)
        } else {
            Seq::empty()
        };
        let rest_a = lines_from(listings, a, dir, i + 1, depth);
        let rest_b = lines_from(listings, b, dir, i + 1, depth);
        let all_a = lines_from(listings, a, dir, i, depth);
        let all_b = lines_from(listings, b, dir, i, depth);
        let n = below_a.len() as int;
        assert(all_a == seq![here] + below_a + rest_a);
        assert(all_b == seq![here] + below_b + rest_b);
        assert(all_a[0].path == path);
        assert(path.len() > dir.len());
        let sub = lines_from(listings, b, at, 0, all_a[k].depth + 1);
        assert forall|j: int| 0 <= j < rest_a.len() implies ((#[trigger] rest_a[j]).path == at
            <==> j == k - 1 - n) by {
            assert(all_a[j + 1 + n] == rest_a[j]);
        }
        assert forall|j: int| 0 <= j < below_a.len() implies ((#[trigger] below_a[j]).path == at
            <==> j == k - 1) by {
            assert(all_a[j + 1] == below_a[j]);
        }
        if k == 0 {
            assert(path == at);
            lemma_unlisted_path(listings, a, b, at, dir, i + 1, depth);
            if path.len() > longest(listings) {
                if entries_of(listings, path).len() > 0 {
                    lemma_listed_length(listings, path);
                }
                assert(sub == Seq::<Line>::empty());
            }
            assert(below_b == sub);
            assert(all_b =~= opened_at(all_a, k, sub));
        } else {
            assert(path != at);
            assert(a.contains(path) == b.contains(path));
            if k <= n {
                assert(all_a[k] == below_a[k - 1]);
                lemma_opened(listings, a, b, at, path, 0, depth + 1, k - 1);
                lemma_unlisted_path(listings, a, b, at, dir, i + 1, depth);
                assert(all_b =~= opened_at(all_a, k, sub));
            } else {
                assert(all_a[k] == rest_a[k - 1 - n]);
                lemma_opened(listings, a, b, at, dir, i + 1, depth, k - 1 - n);
                if deep && a.contains(path) {
                    lemma_unlisted_path(listings, a, b, at, path, 0, depth + 1);
                }
                assert(all_b =~= opened_at(all_a, k, sub));
            }
        }
    }
}

/// Activating a directory that is collapsed puts the lines of its entries behind its own, which
/// stays selected, and leaves all others as they are. Activating it again takes them away.
pub proof fn law_activation_opens_and_closes(t: Tree, listings: Seq<Listing>)
    requires
        shows(t, listings),
        t.selected < t.lines.len(),
        t.lines[t.selected as int].is_dir,
        only_line(t.lines, t.selected as int, t.lines[t.selected as int].path),
        !t.expanded.contains(t.lines[t.selected as int].path),
    ensures
        ({
            let line = t.lines[t.selected as int];
            let u = t.activated(listings);
            &&& u.selected == t.selected
            &&& u.lines == opened_at(
                t.lines,
                t.selected as int,
                lines_from(listings, u.expanded, line.path, 0, line.depth + 1),
            )
            &&& u.activated(listings).lines == t.lines
        }),
{
    let line = t.lines[t.selected as int];
    let u = t.activated(listings);
    let k = t.selected as int;
    lemma_activated(t, listings);
    lemma_toggled_twice(t, line.path);
    law_second_activation_restores(t, listings);
    lemma_opened(listings, t.expanded, u.expanded, line.path, t.root, 0, 0, k);
    lemma_first_line(u.lines, line.path, 0, k);
}

proof fn lemma_first_line(lines: Seq<Line>, path: Seq<char>, i: int, k: int)
    requires
        0 <= i <= k < lines.len(),
        lines[k].path == path,
        forall|j: int| i <= j < k ==> (#[trigger] lines[j]).path != path,
    ensures
        line_of(lines, path, i) == k,
    decreases k - i,
{
    if i < k {
        lemma_first_line(lines, path, i + 1, k);
    }
}

/// Activating a directory concerns what lies below it alone: every other line is shown as before.
pub proof fn law_activation_keeps_other_lines(t: Tree, listings: Seq<Listing>, line: Line)
    requires
        shows(t, listings),
        t.selected < t.lines.len(),
        !lies_below(t.lines[t.selected as int].path, line.path),
    ensures
        t.activated(listings).lines.contains(line) == t.lines.contains(line),
{
    let here = t.lines[t.selected as int];
    if here.is_dir {
        let u = t.activated(listings);
        lemma_activated(t, listings);
        lemma_toggled_twice(t, here.path);
        assert(same_but(u.expanded, t.expanded, here.path));
        if t.lines.contains(line) {
            lemma_other_line_stays(
                listings,
                t.expanded,
                u.expanded,
                here.path,
                t.root,
                0,
                0,
                line,
            );
        }
        if u.lines.contains(line) {
            lemma_other_line_stays(
                listings,
                u.expanded,
                t.expanded,
                here.path,
                t.root,
                0,
                0,
                line,
            );
        }
    }
}

proof fn lemma_more_lines(
    listings: Seq<Listing>,
    a: Seq<Seq<char>>,
    b: Seq<Seq<char>>,
    dir: Seq<char>,
    i: int,
    depth: nat,
    line: Line,
)
    requires
        forall|p: Seq<char>| #[trigger] a.contains(p) ==> b.contains(p),
        lines_from(listings, a, dir, i, depth).contains(line),
    ensures
        lines_from(listings, b, dir, i, depth).contains(line),
    decreases longest(listings) + 1 - dir.len(), entries_of(listings, dir).len() - i,
{
    let entries = entries_of(listings, dir);
    if 0 <= i < entries.len() {
        let path = join(dir, entries[i].name);
        let here = Line { path, depth, is_dir: entries[i].is_dir };
        let deep = entries[i].is_dir && dir.len() < path.len() <= longest(listings);
        let below_a = if deep && a.contains(path) {
            lines_from(listings, a, path, 0, depth + 1)
        } else {
            Seq::empty()
        };
        let below_b = if deep && b.contains(path) {
            lines_from(listings, b, path, 0, depth + 1)
        } else {
            Seq::empty()
        };
        let rest_a = lines_from(listings, a, dir, i + 1, depth);
        let rest_b = lines_from(listings, b, dir, i + 1, depth);
        let all_a = lines_from(listings, a, dir, i, depth);
        let all_b = lines_from(listings, b, dir, i, depth);
        assert(all_a == seq![here] + below_a + rest_a);
        assert(all_b == seq![here] + below_b + rest_b);
        let k = choose|k: int| 0 <= k < all_a.len() && all_a[k] == line;
        if k == 0 {
            assert(all_b[0] == line);
        } else if k <= below_a.len() {
            assert(below_a[k - 1] == line);
            assert(b.contains(path));
            lemma_more_lines(listings, a, b, path, 0, depth + 1, line);
            let m = choose|m: int| 0 <= m < below_b.len() && below_b[m] == line;
            assert(all_b[m + 1] == line);
        } else {
            assert(rest_a[k - 1 - below_a.len()] == line);
            lemma_more_lines(listings, a, b, dir, i + 1, depth, line);
            let m = choose|m: int| 0 <= m < rest_b.len() && rest_b[m] == line;
            assert(all_b[m + 1 + below_b.len()] == line);
        }
    }
}

/// Expanding a directory hides no line, and collapsing one brings none.
pub proof fn law_expanding_keeps_lines(
    listings: Seq<Listing>,
    root: Seq<char>,
    expanded: Seq<Seq<char>>,
    path: Seq<char>,
    line: Line,
)
    requires
        lines_from(listings, expanded, root, 0, 0).contains(line),
    ensures
        lines_from(listings, expanded.push(path), root, 0, 0).contains(line),
{
    let more = expanded.push(path);
    assert forall|p: Seq<char>| #[trigger] expanded.contains(p) implies more.contains(p) by {
        let k = choose|k: int| 0 <= k < expanded.len() && expanded[k] == p;
        assert(more[k] == p);
    }
    lemma_more_lines(listings, expanded, more, root, 0, 0, line);
}

/// The files that a snapshot shows below a directory, from entry `i` on, in reading order.
pub open spec fn all_files(listings: Seq<Listing>, dir: Seq<char>, i: int) -> Seq<Seq<char>>
    decreases longest(listings) + 1 - dir.len(), entries_of(listings, dir).len() - i,
{
    let entries = entries_of(listings, dir);
    if i < 0 || i >= entries.len() {
        Seq::empty()
    } else {
        let path = join(dir, entries[i].name);
        let here = if !entries[i].is_dir {
            seq![path]
        } else if dir.len() < path.len() <= longest(listings) {
            all_files(listings, path, 0)
        } else {
            Seq::empty()
        };
        here + all_files(listings, dir, i + 1)
    }
}

/// How often a path occurs in a list.
pub open spec fn times(list: Seq<Seq<char>>, path: Seq<char>) -> nat {
    list.to_multiset().count(path)
}

impl Walk {
    /// Whether the walk is over: nothing is left to list, or enough is collected.
    pub open spec fn over(self) -> bool {
        self.stack.len() == 0 || self.files.len() >= self.limit
    }

    /// After one more directory of a snapshot.
    pub open spec fn stepped(self, listings: Seq<Listing>) -> Walk {
        if self.over() {
            self
        } else {
            let dir = self.stack.last();
            let entries = entries_of(listings, dir);
            Walk { stack: self.stack.drop_last(), ..self }.visited(dir, entries, entries.len())
        }
    }

    /// After `k` directories of a snapshot.
    pub open spec fn walked(self, listings: Seq<Listing>, k: nat) -> Walk
        decreases k,
    {
        if k == 0 {
            self
        } else {
            self.walked(listings, (k - 1) as nat).stepped(listings)
        }
    }
}

/// The files below directories that are still to be visited.
spec fn pending(listings: Seq<Listing>, stack: Seq<Seq<char>>) -> Seq<Seq<char>>
    decreases stack.len(),
{
    if stack.len() == 0 {
        Seq::empty()
    } else {
        all_files(listings, stack.last(), 0) + pending(listings, stack.drop_last())
    }
}

proof fn lemma_times(a: Seq<Seq<char>>, b: Seq<Seq<char>>, p: Seq<char>, path: Seq<char>)
    ensures
        times(a + b, path) == times(a, path) + times(b, path),
        times(a.push(p), path) == times(a, path) + times(seq![p], path),
        times(a, path) <= a.len(),
        times(Seq::empty(), path) == 0,
{
    broadcast use vstd::multiset::group_multiset_axioms;
    broadcast use vstd::seq_lib::group_to_multiset_ensures;

    vstd::seq_lib::lemma_multiset_commutative(a, b);
    vstd::seq_lib::lemma_multiset_commutative(a, seq![p]);
    assert(a.push(p) =~= a + seq![p]);
    a.to_multiset_ensures();
    Seq::<Seq<char>>::empty().to_multiset_ensures();
}

/// Whether what is collected, what is still to be visited and `rest` make up `all`, or the limit is
/// reached and more files were seen than it allows.
spec fn accounts(
    listings: Seq<Listing>,
    w: Walk,
    rest: Seq<Seq<char>>,
    all: Seq<Seq<char>>,
    path: Seq<char>,
) -> bool {
    let left = pending(listings, w.stack);
    &&& w.files.len() <= w.limit
    &&& times(w.files, path) + times(left, path) + times(rest, path) <= times(all, path)
    &&& w.files.len() + left.len() + rest.len() <= all.len()
    &&& {
        ||| times(w.files, path) + times(left, path) + times(rest, path) == times(all, path)
            && w.files.len() + left.len() + rest.len() == all.len()
        ||| w.files.len() == w.limit < all.len()
    }
}

proof fn lemma_visited_accounts(
    listings: Seq<Listing>,
    w: Walk,
    dir: Seq<char>,
    n: nat,
    all: Seq<Seq<char>>,
    path: Seq<char>,
)
    requires
        named(listings),
        n <= entries_of(listings, dir).len(),
        accounts(listings, w, all_files(listings, dir, 0), all, path),
    ensures
        accounts(
            listings,
            w.visited(dir, entries_of(listings, dir), n),
            all_files(listings, dir, n as int),
            all,
            path,
        ),
        w.visited(dir, entries_of(listings, dir), n).limit == w.limit,
    decreases n,
{
    if n > 0 {
        let entries = entries_of(listings, dir);
        lemma_visited_accounts(listings, w, dir, (n - 1) as nat, all, path);
        let v = w.visited(dir, entries, (n - 1) as nat);
        let e = entries[n - 1];
        let p = join(dir, e.name);
        let rest = all_files(listings, dir, n as int);
        let before = all_files(listings, dir, n - 1);
        assert(p.len() > dir.len());
        if e.is_dir {
            let here = all_files(listings, p, 0);
            if p.len() > longest(listings) {
                if entries_of(listings, p).len() > 0 {
                    lemma_listed_length(listings, p);
                }
                assert(here == Seq::<Seq<char>>::empty());
            }
            assert(before == here + rest);
            lemma_times(here, rest, p, path);
            assert(v.stack.push(p).drop_last() =~= v.stack);
            lemma_times(here, pending(listings, v.stack), p, path);
            assert(pending(listings, v.stack.push(p)) == here + pending(listings, v.stack));
        } else {
            assert(before == seq![p] + rest);
            lemma_times(seq![p], rest, p, path);
            lemma_times(v.files, rest, p, path);
        }
    }
}

proof fn lemma_walked_accounts(
    listings: Seq<Listing>,
    root: Seq<char>,
    limit: nat,
    k: nat,
    path: Seq<char>,
)
    requires
        named(listings),
    ensures
        ({
            let start = Walk { files: Seq::empty(), stack: seq![root], limit };
            let w = start.walked(listings, k);
            w.limit == limit && accounts(
                listings,
                w,
                Seq::empty(),
                all_files(listings, root, 0),
                path,
            )
        }),
    decreases k,
{
    let start = Walk { files: Seq::<Seq<char>>::empty(), stack: seq![root], limit };
    let all = all_files(listings, root, 0);
    let none = Seq::<Seq<char>>::empty();
    lemma_times(none, none, root, path);
    if k == 0 {
        assert(start.stack.drop_last() =~= none);
        assert(pending(listings, none) == none);
        assert(pending(listings, start.stack) =~= all);
    } else {
        lemma_walked_accounts(listings, root, limit, (k - 1) as nat, path);
        let w = start.walked(listings, (k - 1) as nat);
        if !w.over() {
            let dir = w.stack.last();
            let popped = Walk { stack: w.stack.drop_last(), ..w };
            let here = all_files(listings, dir, 0);
            lemma_times(here, pending(listings, popped.stack), root, path);
            lemma_visited_accounts(
                listings,
                popped,
                dir,
                entries_of(listings, dir).len(),
                all,
                path,
            );
        }
    }
}

/// A walk that is over has collected each file below its root as often as the tree shows it, if
/// they are no more than its limit. Else it has collected as many as the limit says, none of them
/// more often than the tree shows it.
pub proof fn law_walk_finds_every_file(
    listings: Seq<Listing>,
    root: Seq<char>,
    limit: nat,
    k: nat,
    path: Seq<char>,
)
    requires
        named(listings),
        (Walk { files: Seq::empty(), stack: seq![root], limit }).walked(listings, k).over(),
    ensures
        ({
            let start = Walk { files: Seq::empty(), stack: seq![root], limit };
            let found = start.walked(listings, k).files;
            let all = all_files(listings, root, 0);
            &&& times(found, path) <= times(all, path)
            &&& all.len() <= limit ==> found.len() == all.len() && times(found, path) == times(
                all,
                path,
            )
            &&& all.len() > limit ==> found.len() == limit
        }),
{
    let start = Walk { files: Seq::<Seq<char>>::empty(), stack: seq![root], limit };
    let w = start.walked(listings, k);
    lemma_walked_accounts(listings, root, limit, k, path);
    let left = pending(listings, w.stack);
    lemma_times(left, left, root, path);
    lemma_times(Seq::empty(), Seq::empty(), root, path);
}

/// How many directories a snapshot shows below a directory, from entry `i` on.
pub open spec fn dirs_below(listings: Seq<Listing>, dir: Seq<char>, i: int) -> nat
    decreases longest(listings) + 1 - dir.len(), entries_of(listings, dir).len() - i,
{
    let entries = entries_of(listings, dir);
    if i < 0 || i >= entries.len() {
        0
    } else {
        let path = join(dir, entries[i].name);
        let here = if !entries[i].is_dir {
            0
        } else if dir.len() < path.len() <= longest(listings) {
            1 + dirs_below(listings, path, 0)
        } else {
            1
        };
        here + dirs_below(listings, dir, i + 1)
    }
}

/// How many directories are still to be visited.
spec fn steps_left(listings: Seq<Listing>, stack: Seq<Seq<char>>) -> nat
    decreases stack.len(),
{
    if stack.len() == 0 {
        0
    } else {
        1 + dirs_below(listings, stack.last(), 0) + steps_left(listings, stack.drop_last())
    }
}

proof fn lemma_visited_steps(listings: Seq<Listing>, w: Walk, dir: Seq<char>, n: nat)
    requires
        named(listings),
        n <= entries_of(listings, dir).len(),
    ensures
        ({
            let v = w.visited(dir, entries_of(listings, dir), n);
            steps_left(listings, v.stack) + dirs_below(listings, dir, n as int) == steps_left(
                listings,
                w.stack,
            ) + dirs_below(listings, dir, 0)
        }),
    decreases n,
{
    if n > 0 {
        let entries = entries_of(listings, dir);
        lemma_visited_steps(listings, w, dir, (n - 1) as nat);
        let v = w.visited(dir, entries, (n - 1) as nat);
        let p = join(dir, entries[n - 1].name);
        assert(p.len() > dir.len());
        if entries[n - 1].is_dir {
            if p.len() > longest(listings) {
                if entries_of(listings, p).len() > 0 {
                    lemma_listed_length(listings, p);
                }
                assert(dirs_below(listings, p, 0) == 0);
            }
            assert(v.stack.push(p).drop_last() =~= v.stack);
        }
    }
}

proof fn lemma_walked_steps(listings: Seq<Listing>, start: Walk, k: nat)
    requires
        named(listings),
    ensures
        start.walked(listings, k).over() || steps_left(listings, start.walked(listings, k).stack) + k
            == steps_left(listings, start.stack),
    decreases k,
{
    if k > 0 {
        lemma_walked_steps(listings, start, (k - 1) as nat);
        let w = start.walked(listings, (k - 1) as nat);
        if !w.over() {
            let dir = w.stack.last();
            let popped = Walk { stack: w.stack.drop_last(), ..w };
            lemma_visited_steps(listings, popped, dir, entries_of(listings, dir).len());
        }
    }
}

/// A walk visits its root and each directory below it once at most: then it is over.
pub proof fn law_walk_ends(listings: Seq<Listing>, root: Seq<char>, limit: nat)
    requires
        named(listings),
    ensures
        (Walk { files: Seq::empty(), stack: seq![root], limit }).walked(
            listings,
            1 + dirs_below(listings, root, 0),
        ).over(),
{
    let start = Walk { files: Seq::<Seq<char>>::empty(), stack: seq![root], limit };
    assert(start.stack.drop_last() =~= Seq::empty());
    assert(steps_left(listings, Seq::empty()) == 0);
    lemma_walked_steps(listings, start, 1 + dirs_below(listings, root, 0));
}

/// After a rebuild the selection lies in the tree, if the tree has lines.
pub proof fn law_selection_in_tree(t: Tree, listings: Seq<Listing>)
    ensures
        t.rebuilt(listings).lines.len() > 0 ==> t.rebuilt(listings).selected < t.rebuilt(
            listings,
        ).lines.len(),
{
}

/// No listed entry is a hidden one.
pub proof fn law_no_hidden_entries(entries: Seq<Item>, i: int)
    requires
        0 <= i < sorted(entries).len(),
    ensures
        !hidden(sorted(entries)[i]),
    decreases entries.len(),
{
    if entries.len() > 0 {
        let rest = sorted(entries.drop_last());
        assert forall|k: int| 0 <= k < rest.len() implies !hidden(#[trigger] rest[k]) by {
            law_no_hidden_entries(entries.drop_last(), k);
        }
        if !hidden(entries.last()) {
            lemma_place_keeps(rest, entries.last(), i);
        }
    }
}

proof fn lemma_place_keeps(list: Seq<Item>, e: Item, i: int)
    requires
        !hidden(e),
        forall|k: int| 0 <= k < list.len() ==> !hidden(#[trigger] list[k]),
        0 <= i < place(list, e).len(),
    ensures
        !hidden(place(list, e)[i]),
    decreases list.len(),
{
    if list.len() > 0 && listed_before(e, list.last()) {
        let rest = place(list.drop_last(), e);
        if i < rest.len() {
            lemma_place_keeps(list.drop_last(), e, i);
        }
    }
}

/// The order of texts is one: no text stands before itself, of two different ones one stands before
/// the other, and never both.
pub proof fn law_texts_are_ordered(a: Seq<char>, b: Seq<char>)
    ensures
        !text_before(a, a),
        a != b ==> text_before(a, b) || text_before(b, a),
        !(text_before(a, b) && text_before(b, a)),
    decreases a.len(),
{
    if a.len() > 0 && b.len() > 0 {
        law_texts_are_ordered(a.drop_first(), b.drop_first());
        if a[0] == b[0] && a.drop_first() == b.drop_first() {
            assert(a =~= seq![a[0]] + a.drop_first());
            assert(b =~= seq![b[0]] + b.drop_first());
        }
    } else if a.len() > 0 {
        law_texts_are_ordered(a.drop_first(), a.drop_first());
    } else if b.len() == 0 {
        assert(a =~= b);
    }
}

/// The first character in which two texts differ decides their order, and a text stands before its
/// continuations.
pub proof fn law_first_difference_decides(common: Seq<char>, a: char, b: char, x: Seq<char>, y: Seq<char>)
    requires
        a < b,
    ensures
        text_before(common + seq![a] + x, common + seq![b] + y),
        text_before(common, common + seq![b] + y),
    decreases common.len(),
{
    let s = common + seq![a] + x;
    let t = common + seq![b] + y;
    if common.len() > 0 {
        let c = common.drop_first();
        law_first_difference_decides(c, a, b, x, y);
        assert(s[0] == common[0] && t[0] == common[0]);
        assert(s.drop_first() =~= c + seq![a] + x);
        assert(t.drop_first() =~= c + seq![b] + y);
    } else {
        assert(s[0] == a && t[0] == b);
    }
}

/// Directories are listed before files, and within each by their names in lower case.
pub proof fn law_directories_come_first(a: Item, b: Item)
    ensures
        a.is_dir && !b.is_dir ==> listed_before(a, b) && !listed_before(b, a),
        a.is_dir == b.is_dir && text_before(lowercase(a.name), lowercase(b.name)) ==> listed_before(a, b)
            && !listed_before(b, a),
{
    law_texts_are_ordered(lowercase(a.name), lowercase(b.name));
}

/// The path of an entry has one slash between the directory and the name.
pub proof fn law_paths_are_joined_by_one_slash(dir: Seq<char>, name: Seq<char>)
    ensures
        dir.len() > 0 && dir.last() != '/' ==> join(dir, name) == dir + seq!['/'] + name,
        join(dir.push('/'), name) == dir + seq!['/'] + name,
        join(Seq::empty(), name) == name,
{
    assert(dir.push('/') + name =~= dir + seq!['/'] + name);
    assert(Seq::<char>::empty() + name =~= name);
}

/// A line of the tree is inset by two columns for each directory around it; a directory is marked by
/// an arrow that tells whether it is open, and a file by none.
pub proof fn law_lines_are_labelled(line: Line, expanded: Seq<Seq<char>>, name: Seq<char>)
    requires
        file_name(line.path) == Some(name),
    ensures
        ({
            let inset = Seq::new(2 * line.depth, |i: int| ' ');
            let label = line_label(line, expanded);
            &&& line.is_dir && expanded.contains(line.path) ==> label == inset + "▾ "@ + name
            &&& line.is_dir && !expanded.contains(line.path) ==> label == inset + "▸ "@ + name
            &&& !line.is_dir ==> label == inset + "  "@ + name
        }),
{
    assert(repeat(' ', 2 * line.depth) =~= Seq::new(2 * line.depth, |i: int| ' '));
}

/// Scrolling brings the selected line into view, and not further than it has to.
pub proof fn law_selected_line_is_in_view(t: Tree, rows: nat)
    requires
        rows > 0,
    ensures
        ({
            let x = t.scrolled(rows);
            &&& x.top <= t.selected < x.top + rows
            &&& t.top <= t.selected < t.top + rows ==> x.top == t.top
            &&& t.selected < t.top ==> x.top == t.selected
            &&& t.selected >= t.top + rows ==> x.top + rows == t.selected + 1
            &&& x.selected == t.selected && x.lines == t.lines && x.expanded == t.expanded
        }),
{
}

} // verus!
