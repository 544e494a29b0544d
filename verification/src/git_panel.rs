//! The Git status panel: branch, staged, unstaged and untracked changes, with stage, unstage,
//! commit, diff and refresh.
//!
//! Running `git` is the host's part: an operation of the panel says which command to run
//! ([`GitCommand`], [`DiffRequest`]), and the host hands back what it printed.

use crate::git::{find_path, line_path};
use crate::popup::{least, most};
use crate::surface::{Canvas, Rect, Rgb, Style, Surface, Theme};
use crate::text::{
    byte_len, chars_of, counted_bytes, decimal, decimal_of, digit_value, find_char, find_char_from,
    has_prefix, law_decimal_is_read_back, law_find_char_is_first, law_one_more_line, leading_white,
    lemma_byte_len_concat, lemma_index_of_offset, lemma_trim_id, lines, lines_of, offset, trim_start,
    pad, padded, parse_number, parse_u32, slice_of, spaced, split, split_at_char,
    squeezed, starts_with, string_of, strings, texts, trim, trim_bounds, trimmed, words,
};
use vstd::prelude::*;

verus! {

/// Which part of the working tree a change belongs to.
#[derive(Clone, Copy, Debug, PartialEq, Eq, Structural)]
pub enum Section {
    /// In the index.
    Staged,
    /// In the work tree.
    Unstaged,
    /// Not tracked.
    Untracked,
}

/// One changed file, with its porcelain status code.
#[derive(Clone, Debug, PartialEq, Eq)]
pub struct Change {
    /// The status code: `M`, `A`, `D`, `R`, `?` and so on.
    pub code: char,
    /// The path.
    pub path: String,
}

/// The contents of a [`Change`].
pub struct Chg {
    /// The status code.
    pub code: char,
    /// The path.
    pub path: Seq<char>,
}

impl View for Change {
    type V = Chg;

    open spec fn view(&self) -> Chg {
        Chg { code: self.code, path: self.path@ }
    }
}

/// The contents of a list of changes.
pub open spec fn changes(v: Seq<Change>) -> Seq<Chg> {
    v.map_values(|c: Change| c@)
}

/// The parsed working-tree status.
#[derive(Clone, Debug, PartialEq, Eq)]
pub struct RepoStatus {
    /// The branch.
    pub branch: String,
    /// How many commits it is ahead of its upstream.
    pub ahead: u32,
    /// How many commits it is behind its upstream.
    pub behind: u32,
    /// The changes in the index.
    pub staged: Vec<Change>,
    /// The changes in the work tree.
    pub unstaged: Vec<Change>,
    /// The files that are not tracked.
    pub untracked: Vec<Change>,
}

/// The contents of a [`RepoStatus`].
pub struct Status {
    /// The branch.
    pub branch: Seq<char>,
    /// How many commits it is ahead of its upstream.
    pub ahead: nat,
    /// How many commits it is behind its upstream.
    pub behind: nat,
    /// The changes in the index.
    pub staged: Seq<Chg>,
    /// The changes in the work tree.
    pub unstaged: Seq<Chg>,
    /// The files that are not tracked.
    pub untracked: Seq<Chg>,
}

impl View for RepoStatus {
    type V = Status;

    open spec fn view(&self) -> Status {
        Status {
            branch: self.branch@,
            ahead: self.ahead as nat,
            behind: self.behind as nat,
            staged: changes(self.staged@),
            unstaged: changes(self.unstaged@),
            untracked: changes(self.untracked@),
        }
    }
}

/// The count behind a word of the branch line; 0 if it is no number.
pub open spec fn count_of(t: Seq<char>) -> nat {
    match parse_number(trim(t), u32::MAX as nat) {
        Some(n) => n,
        None => 0,
    }
}

/// The counts ahead and behind after the first `n` parts between the brackets.
pub open spec fn counts(parts: Seq<Seq<char>>, start: (nat, nat), n: nat) -> (nat, nat)
    decreases n,
{
    if n == 0 {
        start
    } else {
        let (ahead, behind) = counts(parts, start, (n - 1) as nat);
        let part = trim(parts[n - 1]);
        if starts_with(part, "ahead "@) {
            (count_of(part.skip(6)), behind)
        } else if starts_with(part, "behind "@) {
            (ahead, count_of(part.skip(7)))
        } else {
            (ahead, behind)
        }
    }
}

/// Whether the name of a branch ends at `i`: at a blank, at three dots, or with the text.
pub open spec fn name_ends(t: Seq<char>, i: int) -> bool {
    i >= t.len() || t[i] == ' ' || (i + 2 < t.len() && t[i] == '.' && t[i + 1] == '.' && t[i + 2]
        == '.')
}

/// The index from `i` on at which the name of a branch ends.
pub open spec fn head_end(t: Seq<char>, i: int) -> int
    decreases t.len() - i,
{
    if name_ends(t, i) {
        i
    } else {
        head_end(t, i + 1)
    }
}

/// Whether the name of a branch ends at `i`.
fn ends_name(t: &[char], i: usize) -> (r: bool)
    requires
        i <= t@.len(),
    ensures
        r == name_ends(t@, i as int),
{
    let n = t.len();
    i == n || t[i] == ' ' || (n - i > 2 && t[i] == '.' && t[i + 1] == '.' && t[i + 2] == '.')
}

/// A branch line without the words of a repository that has no commits.
pub open spec fn branch_text(line: Seq<char>) -> Seq<char> {
    if starts_with(line, "No commits yet on "@) {
        line.skip("No commits yet on "@.len() as int)
    } else {
        line
    }
}

/// The status with what the branch line `branch...upstream [ahead N, behind M]` says.
pub open spec fn with_branch(s: Status, line: Seq<char>) -> Status {
    let t = branch_text(line);
    let head = t.take(head_end(t, 0));
    let open = find_char(t, '[', 0);
    let rest = t.skip(open + 1);
    let close = find_char(rest, ']', 0);
    let (ahead, behind) = if open < t.len() && close < rest.len() {
        let parts = split(rest.take(close), ',', 0);
        counts(parts, (s.ahead, s.behind), parts.len())
    } else {
        (s.ahead, s.behind)
    };
    Status {
        branch: if head.len() == 0 {
            "(detached)"@
        } else {
            head
        },
        ahead,
        behind,
        ..s
    }
}

/// The status with what one line of the output says.
pub open spec fn with_line(s: Status, line: Seq<char>) -> Status {
    if starts_with(line, "## "@) {
        with_branch(s, line.skip(3))
    } else if byte_len(line) < 4 {
        s
    } else {
        let index = line[0];
        let worktree = if line.len() > 1 {
            line[1]
        } else {
            ' '
        };
        let path = line_path(line);
        if index == '?' && worktree == '?' {
            Status { untracked: s.untracked.push(Chg { code: '?', path }), ..s }
        } else {
            Status {
                staged: if index != ' ' {
                    s.staged.push(Chg { code: index, path })
                } else {
                    s.staged
                },
                unstaged: if worktree != ' ' {
                    s.unstaged.push(Chg { code: worktree, path })
                } else {
                    s.unstaged
                },
                ..s
            }
        }
    }
}

/// The status that the first `n` lines of the output describe.
pub open spec fn status_of(ls: Seq<Seq<char>>, n: nat) -> Status
    decreases n,
{
    if n == 0 {
        Status {
            branch: Seq::empty(),
            ahead: 0,
            behind: 0,
            staged: Seq::empty(),
            unstaged: Seq::empty(),
            untracked: Seq::empty(),
        }
    } else {
        with_line(status_of(ls, (n - 1) as nat), ls[n - 1])
    }
}

/// The status that the output of `git status --porcelain -b` describes.
pub open spec fn parsed(porcelain: Seq<char>) -> Status {
    status_of(lines(porcelain), lines(porcelain).len())
}

/// Reads the count behind a word of the branch line.
fn read_count(t: &[char]) -> (r: u32)
    ensures
        r == count_of(t@),
{
    let t = trimmed(t);
    match parse_u32(t.as_slice()) {
        Some(n) => n,
        None => 0,
    }
}

/// Reads the branch line.
pub fn parse_branch(line: &[char], status: &mut RepoStatus)
    ensures
        final(status)@ == with_branch(old(status)@, line@),
{
    proof {
        reveal_strlit("No commits yet on ");
        reveal_strlit("ahead ");
        reveal_strlit("behind ");
    }
    let from: usize = if has_prefix(line, "No commits yet on ") {
        18
    } else {
        0
    };
    let t = slice_of(line, from, line.len());
    proof {
        assert(t@ =~= line@.skip(from as int));
        if from == 0 {
            assert(t@ =~= line@);
        }
        assert(t@ == branch_text(line@));
    }
    let mut end: usize = 0;
    while !ends_name(t.as_slice(), end)
        invariant
            end <= t@.len(),
            head_end(t@, 0) == head_end(t@, end as int),
        decreases t@.len() - end,
    {
        end += 1;
    }
    let head = slice_of(t.as_slice(), 0, end);
    assert(head@ =~= t@.take(end as int));
    status.branch = if head.len() == 0 {
        "(detached)".to_owned()
    } else {
        string_of(head.as_slice())
    };
    let open = find_char_from(t.as_slice(), '[', 0);
    if open < t.len() {
        let rest = slice_of(t.as_slice(), open + 1, t.len());
        assert(rest@ =~= t@.skip(open + 1));
        let close = find_char_from(rest.as_slice(), ']', 0);
        if close < rest.len() {
            let inside = slice_of(rest.as_slice(), 0, close);
            assert(inside@ =~= rest@.take(close as int));
            let parts = split_at_char(inside.as_slice(), ',');
            let ghost all = texts(parts@);
            let ghost start = (old(status)@.ahead, old(status)@.behind);
            let ghost branch = status@.branch;
            let mut i: usize = 0;
            while i < parts.len()
                invariant
                    i <= parts@.len(),
                    all == texts(parts@),
                    status@ == (Status {
                        branch,
                        ahead: counts(all, start, i as nat).0,
                        behind: counts(all, start, i as nat).1,
                        ..old(status)@
                    }),
                    "ahead "@.len() == 6,
                    "behind "@.len() == 7,
                decreases parts@.len() - i,
            {
                let part = trimmed(parts[i].as_slice());
                assert(part@ == trim(all[i as int]));
                if has_prefix(part.as_slice(), "ahead ") {
                    let count = slice_of(part.as_slice(), 6, part.len());
                    assert(count@ =~= part@.skip(6));
                    status.ahead = read_count(count.as_slice());
                } else if has_prefix(part.as_slice(), "behind ") {
                    let count = slice_of(part.as_slice(), 7, part.len());
                    assert(count@ =~= part@.skip(7));
                    status.behind = read_count(count.as_slice());
                }
                i += 1;
            }
        }
    }
}

/// Adds a change to a list.
fn add_change(list: &mut Vec<Change>, code: char, path: &[char])
    ensures
        changes(final(list)@) == changes(old(list)@).push(Chg { code, path: path@ }),
{
    list.push(Change { code, path: string_of(path) });
    assert(changes(list@) =~= changes(old(list)@).push(Chg { code, path: path@ }));
}

/// Reads the output of `git status --porcelain -b`.
pub fn parse_status(porcelain: &str) -> (r: RepoStatus)
    ensures
        r@ == parsed(porcelain@),
{
    let text = chars_of(porcelain);
    let ls = lines_of(text.as_slice());
    let ghost all = texts(ls@);
    let mut status = RepoStatus {
        branch: String::new(),
        ahead: 0,
        behind: 0,
        staged: Vec::new(),
        unstaged: Vec::new(),
        untracked: Vec::new(),
    };
    proof {
        reveal_strlit("## ");
        assert(changes(status.staged@) =~= Seq::empty());
        assert(changes(status.unstaged@) =~= Seq::empty());
        assert(changes(status.untracked@) =~= Seq::empty());
    }
    let mut i: usize = 0;
    while i < ls.len()
        invariant
            i <= ls@.len(),
            all == texts(ls@),
            status@ == status_of(all, i as nat),
            "## "@.len() == 3,
        decreases ls@.len() - i,
    {
        let line = &ls[i];
        assert(all[i as int] == line@);
        let whole = string_of(line.as_slice());
        if has_prefix(line.as_slice(), "## ") {
            let rest = slice_of(line.as_slice(), 3, line.len());
            assert(rest@ =~= line@.skip(3));
            parse_branch(rest.as_slice(), &mut status);
        } else if counted_bytes(whole.as_str()) >= 4 {
            proof {
                if line@.len() == 0 {
                    assert(byte_len(line@) == 0);
                }
            }
            let index = line[0];
            let worktree = if line.len() > 1 {
                line[1]
            } else {
                ' '
            };
            let path = find_path(line.as_slice());
            if index == '?' && worktree == '?' {
                add_change(&mut status.untracked, '?', path.as_slice());
            } else {
                if index != ' ' {
                    add_change(&mut status.staged, index, path.as_slice());
                }
                if worktree != ' ' {
                    add_change(&mut status.unstaged, worktree, path.as_slice());
                }
            }
        }
        i += 1;
    }
    status
}

/// One row of the list: a section header with its count, or a file of a section.
#[derive(Clone, Copy, Debug, PartialEq, Eq, Structural)]
pub enum Row {
    /// A section header.
    Header(Section, usize),
    /// A file, by its index in the section.
    File(Section, usize),
}

/// The first `n` files of a section as rows.
pub open spec fn file_rows(section: Section, n: nat) -> Seq<Row> {
    Seq::new(n, |i: int| Row::File(section, i as usize))
}

/// The rows of a section: none if it is empty, else a header and its files.
pub open spec fn section_rows(section: Section, n: nat) -> Seq<Row> {
    if n == 0 {
        Seq::empty()
    } else {
        seq![Row::Header(section, n as usize)] + file_rows(section, n)
    }
}

/// The rows of a status.
pub open spec fn rows_of(s: Status) -> Seq<Row> {
    section_rows(Section::Staged, s.staged.len()) + section_rows(
        Section::Unstaged,
        s.unstaged.len(),
    ) + section_rows(Section::Untracked, s.untracked.len())
}

/// Whether the row with index `i` is a file.
pub open spec fn is_file(rows: Seq<Row>, i: int) -> bool {
    0 <= i < rows.len() && rows[i] is File
}

/// The index of the first file row from `i` on, or -1.
pub open spec fn file_from(rows: Seq<Row>, i: int) -> int
    decreases rows.len() - i,
{
    if i >= rows.len() {
        -1
    } else if is_file(rows, i) {
        i
    } else {
        file_from(rows, i + 1)
    }
}

/// The index of the last file row up to `i`, or -1.
pub open spec fn file_up_to(rows: Seq<Row>, i: int) -> int
    decreases i + 1,
{
    if i < 0 {
        -1
    } else if is_file(rows, i) {
        i
    } else {
        file_up_to(rows, i - 1)
    }
}

/// A diff shown over the status list.
#[derive(Clone, Debug)]
struct DiffView {
    title: String,
    lines: Vec<String>,
    scroll: usize,
}

/// The contents of a diff view.
pub struct Diff {
    /// Its title.
    pub title: Seq<char>,
    /// Its lines.
    pub lines: Seq<Seq<char>>,
    /// The first line shown.
    pub scroll: nat,
}

/// The Git status panel.
#[derive(Debug)]
pub struct GitPanel {
    status: RepoStatus,
    rows: Vec<Row>,
    selected: usize,
    scroll: usize,
    notice: Option<String>,
    diff: Option<DiffView>,
}

/// The state of a [`GitPanel`].
pub struct Panel {
    /// The working-tree status.
    pub status: Status,
    /// The rows of the list.
    pub rows: Seq<Row>,
    /// The index of the selected row.
    pub selected: nat,
    /// The first row shown.
    pub scroll: nat,
    /// A notice about the last operation, if any.
    pub notice: Option<Seq<char>>,
    /// The diff shown over the list, if any.
    pub diff: Option<Diff>,
}

impl View for GitPanel {
    type V = Panel;

    closed spec fn view(&self) -> Panel {
        Panel {
            status: self.status@,
            rows: self.rows@,
            selected: self.selected as nat,
            scroll: self.scroll as nat,
            notice: crate::document::opt_text(self.notice),
            diff: match self.diff {
                Some(d) => Some(
                    Diff { title: d.title@, lines: strings(d.lines@), scroll: d.scroll as nat },
                ),
                None => None,
            },
        }
    }
}

/// A `git` command for the host to run: its arguments, and the notice for when it succeeds.
#[derive(Clone, Debug, PartialEq, Eq)]
pub struct GitCommand {
    /// The arguments.
    pub args: Vec<String>,
    /// The notice on success.
    pub success: String,
}

/// A diff for the host to produce.
#[derive(Clone, Debug, PartialEq, Eq)]
pub struct DiffRequest {
    /// The arguments for `git`.
    pub args: Vec<String>,
    /// The path.
    pub path: String,
    /// Which diff it is: `staged` or `worktree`.
    pub label: String,
}

impl Panel {
    /// The rows are those of the status.
    pub open spec fn wf(self) -> bool {
        self.rows == rows_of(self.status)
    }

    /// With another status, and the selection on a file if there is one.
    pub open spec fn with_status(self, status: Status) -> Panel {
        let rows = rows_of(status);
        Panel {
            status,
            rows,
            selected: if is_file(rows, self.selected as int) {
                self.selected
            } else {
                most(file_from(rows, 0), 0) as nat
            },
            ..self
        }
    }

    /// With the next file selected, if there is one.
    pub open spec fn forward(self) -> Panel {
        let i = file_from(self.rows, self.selected + 1int);
        if i >= 0 {
            Panel { selected: i as nat, ..self }
        } else {
            self
        }
    }

    /// With the previous file selected, if there is one.
    pub open spec fn backward(self) -> Panel {
        let i = file_up_to(self.rows, least(self.selected as int, self.rows.len() as int) - 1);
        if i >= 0 {
            Panel { selected: i as nat, ..self }
        } else {
            self
        }
    }

    /// The selected change and its section, if a file is selected.
    pub open spec fn selected_change(self) -> Option<(Section, Chg)> {
        if is_file(self.rows, self.selected as int) {
            match self.rows[self.selected as int] {
                Row::File(section, index) => {
                    let list = section_changes(self.status, section);
                    if index < list.len() {
                        Some((section, list[index as int]))
                    } else {
                        None
                    }
                },
                Row::Header(..) => None,
            }
        } else {
            None
        }
    }

    /// With a notice.
    pub open spec fn noting(self, notice: Seq<char>) -> Panel {
        Panel { notice: Some(notice), ..self }
    }

    /// Scrolled so that the selected row is among the `rows` shown.
    pub open spec fn scrolled(self, rows: nat) -> Panel {
        Panel {
            scroll: if self.selected < self.scroll {
                self.selected
            } else if self.selected >= self.scroll + rows {
                (self.selected + 1 - rows) as nat
            } else {
                self.scroll
            },
            ..self
        }
    }
}

/// The changes of a section.
pub open spec fn section_changes(s: Status, section: Section) -> Seq<Chg> {
    match section {
        Section::Staged => s.staged,
        Section::Unstaged => s.unstaged,
        Section::Untracked => s.untracked,
    }
}

/// The title of a section.
pub open spec fn title_of(section: Section) -> Seq<char> {
    match section {
        Section::Staged => "Staged changes"@,
        Section::Unstaged => "Unstaged changes"@,
        Section::Untracked => "Untracked files"@,
    }
}

/// The title of a section.
pub fn section_title(section: Section) -> (r: &'static str)
    ensures
        r@ == title_of(section),
{
    match section {
        Section::Staged => "Staged changes",
        Section::Unstaged => "Unstaged changes",
        Section::Untracked => "Untracked files",
    }
}

/// A word for a status code.
pub open spec fn word_for(code: char) -> Seq<char> {
    if code == 'A' {
        "new file"@
    } else if code == 'D' {
        "deleted"@
    } else if code == 'R' {
        "renamed"@
    } else if code == 'C' {
        "copied"@
    } else if code == 'T' {
        "typechange"@
    } else if code == '?' {
        "untracked"@
    } else {
        "modified"@
    }
}

/// A word for a status code.
pub fn code_label(code: char) -> (r: &'static str)
    ensures
        r@ == word_for(code),
{
    if code == 'A' {
        "new file"
    } else if code == 'D' {
        "deleted"
    } else if code == 'R' {
        "renamed"
    } else if code == 'C' {
        "copied"
    } else if code == 'T' {
        "typechange"
    } else if code == '?' {
        "untracked"
    } else {
        "modified"
    }
}

/// The colour for a status code.
pub open spec fn color_for(code: char, theme: Theme) -> Rgb {
    if code == 'A' {
        theme.success
    } else if code == 'D' {
        theme.error
    } else if code == '?' {
        theme.info
    } else {
        theme.foreground
    }
}

/// The colour for a status code.
pub fn code_color(code: char, theme: &Theme) -> (r: Rgb)
    ensures
        r == color_for(code, *theme),
{
    if code == 'A' {
        theme.success
    } else if code == 'D' {
        theme.error
    } else if code == '?' {
        theme.info
    } else {
        theme.foreground
    }
}

/// The style of a diff line: added, removed, a hunk header, or plain.
pub open spec fn diff_style(line: Seq<char>, theme: Theme) -> Style {
    Style::new(
        if starts_with(line, "+"@) {
            theme.success
        } else if starts_with(line, "-"@) {
            theme.error
        } else if starts_with(line, "@@"@) {
            theme.accent
        } else {
            theme.foreground
        },
        theme.background,
    )
}

/// The style of a diff line.
pub fn diff_line_style(line: &str, theme: &Theme) -> (r: Style)
    ensures
        r == diff_style(line@, *theme),
{
    let t = chars_of(line);
    let foreground = if has_prefix(t.as_slice(), "+") {
        theme.success
    } else if has_prefix(t.as_slice(), "-") {
        theme.error
    } else if has_prefix(t.as_slice(), "@@") {
        theme.accent
    } else {
        theme.foreground
    };
    Style::new(foreground, theme.background)
}

/// The branch with its distance to the upstream, such as `main ↑1 ↓2`.
pub open spec fn branch_label_of(s: Status) -> Seq<char> {
    s.branch + (if s.ahead > 0 {
        " ↑"@ + decimal(s.ahead)
    } else {
        Seq::empty()
    }) + (if s.behind > 0 {
        " ↓"@ + decimal(s.behind)
    } else {
        Seq::empty()
    })
}

/// One row drawn at `y`: a header, or a file with its code, inverted to the end when selected.
pub open spec fn draw_row(
    c: Canvas,
    area: Rect,
    y: int,
    row: Row,
    s: Status,
    selected: bool,
    theme: Theme,
) -> Canvas {
    match row {
        Row::Header(section, count) => c.text(
            area.x as int,
            y,
            title_of(section) + " ("@ + decimal(count as nat) + ")"@,
            theme.accented().bold(),
        ),
        Row::File(section, index) => {
            let list = section_changes(s, section);
            if index < list.len() {
                let change = list[index as int];
                let style = if selected {
                    theme.inverse()
                } else {
                    Style::new(color_for(change.code, theme), theme.background)
                };
                let label = "  "@ + padded(word_for(change.code), 9) + " "@ + change.path;
                let d = c.text(area.x as int, y, label, style);
                if selected {
                    d.blank(c.text_end(area.x as int, label), area.right_col(), y, style)
                } else {
                    d
                }
            } else {
                c
            }
        },
    }
}

/// The rows from the shown row `i` on drawn into `body`, each over a blank line.
pub open spec fn draw_rows(c: Canvas, p: Panel, body: Rect, i: nat, theme: Theme) -> Canvas
    decreases body.height - i,
{
    if i >= body.height {
        c
    } else {
        let y = body.y + i as int;
        let blank = c.blank(body.x as int, body.right_col(), y, theme.base_style());
        let index = p.scroll + i;
        let d = if index < p.rows.len() {
            draw_row(
                blank,
                body,
                y,
                p.rows[index as int],
                p.status,
                index == p.selected,
                theme,
            )
        } else if p.rows.len() == 0 && i == 0 {
            blank.text(body.x as int, y, "  working tree clean"@, theme.base_style())
        } else {
            blank
        };
        draw_rows(d, p, body, i + 1, theme)
    }
}

/// The status list drawn over `c`.
pub open spec fn draw_status(c: Canvas, p: Panel, area: Rect, theme: Theme) -> Canvas {
    let (header, body) = area.top_split(1);
    let title = " Git · "@ + branch_label_of(p.status)
        + " · s stage · u unstage · c commit · d diff · g refresh · q close"@;
    let titled = c.blank(header.x as int, header.right_col(), header.y as int, theme.inverse()).text(
        header.x as int,
        header.y as int,
        title,
        theme.inverse(),
    );
    if body.is_empty() {
        titled
    } else {
        let listed = draw_rows(titled, p.scrolled(body.height as nat), body, 0, theme);
        match p.notice {
            Some(notice) => {
                let last = body.bottom_row() - 1;
                listed.blank(body.x as int, body.right_col(), last, theme.base_style()).text(
                    body.x as int,
                    last,
                    "  "@ + notice,
                    Style::new(theme.info, theme.background),
                )
            },
            None => listed,
        }
    }
}

/// A diff no further scrolled than its end allows.
pub open spec fn settled(d: Diff, rows: nat) -> Diff {
    Diff { scroll: least(d.scroll as int, most(d.lines.len() - rows, 0)) as nat, ..d }
}

/// The lines of a diff from the shown row `i` on drawn into `body`, each over a blank line.
pub open spec fn draw_diff_lines(c: Canvas, d: Diff, body: Rect, i: nat, theme: Theme) -> Canvas
    decreases body.height - i,
{
    if i >= body.height {
        c
    } else {
        let y = body.y + i as int;
        let blank = c.blank(body.x as int, body.right_col(), y, theme.base_style());
        let index = d.scroll + i;
        draw_diff_lines(
            if index < d.lines.len() {
                blank.text(
                    body.x as int,
                    y,
                    d.lines[index as int],
                    diff_style(d.lines[index as int], theme),
                )
            } else {
                blank
            },
            d,
            body,
            i + 1,
            theme,
        )
    }
}

/// A diff drawn over `c`.
pub open spec fn draw_diff(c: Canvas, d: Diff, area: Rect, theme: Theme) -> Canvas {
    let (header, body) = area.top_split(1);
    draw_diff_lines(
        c.blank(header.x as int, header.right_col(), header.y as int, theme.inverse()).text(
            header.x as int,
            header.y as int,
            " Diff · "@ + d.title + " · q back"@,
            theme.inverse(),
        ),
        settled(d, body.height as nat),
        body,
        0,
        theme,
    )
}

/// The panel drawn over `c`: the diff if one is open, else the status list.
pub open spec fn drawn(c: Canvas, p: Panel, area: Rect, theme: Theme) -> Canvas {
    if area.is_empty() {
        c
    } else {
        match p.diff {
            Some(d) => draw_diff(c, d, area, theme),
            None => draw_status(c, p, area, theme),
        }
    }
}

/// The panel after it was drawn into an area.
pub open spec fn after_drawing(p: Panel, area: Rect) -> Panel {
    if area.is_empty() {
        p
    } else {
        match p.diff {
            Some(d) => Panel { diff: Some(settled(d, (area.height - 1) as nat)), ..p },
            None => if area.height < 2 {
                p
            } else {
                p.scrolled((area.height - 1) as nat)
            },
        }
    }
}

/// A list of two strings.
fn words2(a: &str, b: &str) -> (r: Vec<String>)
    ensures
        strings(r@) == seq![a@, b@],
{
    let mut r: Vec<String> = Vec::new();
    r.push(a.to_owned());
    r.push(b.to_owned());
    assert(strings(r@) =~= seq![a@, b@]);
    r
}

/// Adds a string to a list.
fn add_word(list: &mut Vec<String>, word: &str)
    ensures
        strings(final(list)@) == strings(old(list)@).push(word@),
{
    list.push(word.to_owned());
    assert(strings(list@) =~= strings(old(list)@).push(word@));
}

/// A message on one line.
pub fn one_line(message: &str) -> (r: String)
    ensures
        r@ == spaced(words(message@)),
{
    let t = chars_of(message);
    squeezed(t.as_slice())
}

impl GitPanel {
    /// Opens the panel on a work tree whose `git status --porcelain -b` printed `porcelain`.
    pub fn open(porcelain: &str) -> (r: Self)
        ensures
            r@ == (Panel {
                status: parsed(porcelain@),
                rows: Seq::empty(),
                selected: 0,
                scroll: 0,
                notice: None,
                diff: None,
            }).with_status(parsed(porcelain@)),
            r@.wf(),
    {
        let mut panel = GitPanel {
            status: parse_status(porcelain),
            rows: Vec::new(),
            selected: 0,
            scroll: 0,
            notice: None,
            diff: None,
        };
        panel.rebuild_rows();
        panel
    }

    /// The working-tree status.
    pub fn status(&self) -> (r: &RepoStatus)
        ensures
            r@ == self@.status,
    {
        &self.status
    }

    /// The notice about the last operation, if any.
    pub fn notice(&self) -> (r: &Option<String>)
        ensures
            crate::document::opt_text(*r) == self@.notice,
    {
        &self.notice
    }

    /// Takes the output of a new `git status`; without one the status stays as it is.
    pub fn refresh(&mut self, porcelain: Option<&str>)
        requires
            old(self)@.wf(),
        ensures
            final(self)@ == old(self)@.with_status(
                match porcelain {
                    Some(text) => parsed(text@),
                    None => old(self)@.status,
                },
            ),
            final(self)@.wf(),
    {
        if let Some(text) = porcelain {
            self.status = parse_status(text);
        }
        self.rebuild_rows();
    }

    /// Works out the rows of the status and keeps the selection on a file.
    fn rebuild_rows(&mut self)
        ensures
            final(self)@ == old(self)@.with_status(old(self)@.status),
    {
        let mut rows: Vec<Row> = Vec::new();
        let staged = self.status.staged.len();
        let unstaged = self.status.unstaged.len();
        let untracked = self.status.untracked.len();
        push_section(&mut rows, Section::Staged, staged);
        push_section(&mut rows, Section::Unstaged, unstaged);
        push_section(&mut rows, Section::Untracked, untracked);
        assert(rows@ =~= rows_of(self@.status));
        self.rows = rows;
        if !self.file_at(self.selected) {
            self.selected = match self.first_file() {
                Some(i) => i,
                None => 0,
            };
        }
    }

    fn file_at(&self, i: usize) -> (r: bool)
        ensures
            r == is_file(self.rows@, i as int),
    {
        i < self.rows.len() && matches!(self.rows[i], Row::File(..))
    }

    /// The index of the first file row.
    fn first_file(&self) -> (r: Option<usize>)
        ensures
            match r {
                Some(i) => i == file_from(self.rows@, 0),
                None => file_from(self.rows@, 0) == -1,
            },
    {
        let mut i: usize = 0;
        while i < self.rows.len()
            invariant
                i <= self.rows@.len(),
                file_from(self.rows@, 0) == file_from(self.rows@, i as int),
            decreases self.rows@.len() - i,
        {
            if self.file_at(i) {
                return Some(i);
            }
            i += 1;
        }
        None
    }

    /// Selects the next file, or the previous one; headers are skipped.
    pub fn select(&mut self, forward: bool)
        requires
            old(self)@.wf(),
        ensures
            final(self)@ == if forward {
                old(self)@.forward()
            } else {
                old(self)@.backward()
            },
            final(self)@.wf(),
    {
        let n = self.rows.len();
        if forward {
            if self.selected >= n {
                return ;
            }
            let mut i: usize = self.selected + 1;
            while i < n
                invariant
                    i <= n,
                    n == self.rows@.len(),
                    *self == *old(self),
                    old(self)@.wf(),
                    forward,
                    file_from(self.rows@, self.selected + 1) == file_from(self.rows@, i as int),
                decreases n - i,
            {
                if self.file_at(i) {
                    self.selected = i;
                    return ;
                }
                i += 1;
            }
        } else {
            let mut i: usize = if self.selected < n {
                self.selected
            } else {
                n
            };
            let ghost from = i - 1;
            while i > 0
                invariant
                    i <= n,
                    n == self.rows@.len(),
                    *self == *old(self),
                    old(self)@.wf(),
                    !forward,
                    from == least(self.selected as int, n as int) - 1,
                    file_up_to(self.rows@, from) == file_up_to(self.rows@, i - 1),
                decreases i,
            {
                if self.file_at(i - 1) {
                    self.selected = i - 1;
                    return ;
                }
                i -= 1;
            }
        }
    }

    /// The selected change and its section, if a file is selected.
    pub fn selected_change(&self) -> (r: Option<(Section, &Change)>)
        requires
            self@.wf(),
        ensures
            match r {
                Some((section, change)) => self@.selected_change() == Some((section, change@)),
                None => self@.selected_change() is None,
            },
    {
        if self.selected >= self.rows.len() {
            return None;
        }
        match self.rows[self.selected] {
            Row::File(section, index) => {
                let list = match section {
                    Section::Staged => &self.status.staged,
                    Section::Unstaged => &self.status.unstaged,
                    Section::Untracked => &self.status.untracked,
                };
                assert(changes(list@) == section_changes(self@.status, section));
                if index < list.len() {
                    Some((section, &list[index]))
                } else {
                    None
                }
            },
            Row::Header(..) => None,
        }
    }

    /// Stages the selected file.
    pub fn stage(&self) -> (r: Option<GitCommand>)
        requires
            self@.wf(),
        ensures
            match self@.selected_change() {
                Some((_, change)) => r is Some && strings(r->0.args@) == seq![
                    "add"@,
                    "--"@,
                    change.path,
                ] && r->0.success@ == "staged "@ + change.path,
                None => r is None,
            },
    {
        match self.selected_change() {
            Some((_, change)) => {
                let mut args = words2("add", "--");
                add_word(&mut args, change.path.as_str());
                assert(strings(args@) =~= seq!["add"@, "--"@, change.path@]);
                let mut success = "staged ".to_owned();
                success.append(change.path.as_str());
                Some(GitCommand { args, success })
            },
            None => None,
        }
    }

    /// Stages every change.
    pub fn stage_all(&self) -> (r: GitCommand)
        ensures
            strings(r.args@) == seq!["add"@, "-A"@],
            r.success@ == "staged all changes"@,
    {
        GitCommand { args: words2("add", "-A"), success: "staged all changes".to_owned() }
    }

    /// Unstages the selected file.
    pub fn unstage(&self) -> (r: Option<GitCommand>)
        requires
            self@.wf(),
        ensures
            match self@.selected_change() {
                Some((_, change)) => r is Some && strings(r->0.args@) == seq![
                    "reset"@,
                    "-q"@,
                    "HEAD"@,
                    "--"@,
                    change.path,
                ] && r->0.success@ == "unstaged "@ + change.path,
                None => r is None,
            },
    {
        match self.selected_change() {
            Some((_, change)) => {
                let mut args = words2("reset", "-q");
                add_word(&mut args, "HEAD");
                add_word(&mut args, "--");
                add_word(&mut args, change.path.as_str());
                assert(strings(args@) =~= seq!["reset"@, "-q"@, "HEAD"@, "--"@, change.path@]);
                let mut success = "unstaged ".to_owned();
                success.append(change.path.as_str());
                Some(GitCommand { args, success })
            },
            None => None,
        }
    }

    /// Unstages everything.
    pub fn unstage_all(&self) -> (r: GitCommand)
        ensures
            strings(r.args@) == seq!["reset"@, "-q"@, "HEAD"@],
            r.success@ == "unstaged all changes"@,
    {
        let mut args = words2("reset", "-q");
        add_word(&mut args, "HEAD");
        assert(strings(args@) =~= seq!["reset"@, "-q"@, "HEAD"@]);
        GitCommand { args, success: "unstaged all changes".to_owned() }
    }

    /// Commits the staged changes with `message`. A blank message, or nothing staged, is noted
    /// instead.
    pub fn commit(&mut self, message: &str) -> (r: Option<GitCommand>)
        requires
            old(self)@.wf(),
        ensures
            if trim(message@).len() == 0 {
                r is None && final(self)@ == old(self)@.noting("commit aborted: empty message"@)
            } else if old(self)@.status.staged.len() == 0 {
                r is None && final(self)@ == old(self)@.noting("nothing staged to commit"@)
            } else {
                final(self)@ == old(self)@ && r is Some && strings(r->0.args@) == seq![
                    "commit"@,
                    "-m"@,
                    message@,
                ] && r->0.success@ == "committed"@
            },
            final(self)@.wf(),
    {
        let t = chars_of(message);
        let (from, to) = trim_bounds(t.as_slice());
        if from == to {
            self.notice = Some("commit aborted: empty message".to_owned());
            return None;
        }
        assert(self@.status.staged.len() == self.status.staged@.len());
        if self.status.staged.len() == 0 {
            self.notice = Some("nothing staged to commit".to_owned());
            return None;
        }
        let mut args = words2("commit", "-m");
        add_word(&mut args, message);
        assert(strings(args@) =~= seq!["commit"@, "-m"@, message@]);
        Some(GitCommand { args, success: "committed".to_owned() })
    }

    /// Takes the outcome of a command: notes its success or its error on one line, and the new
    /// status.
    pub fn finish(&mut self, success: &str, error: Option<&str>, porcelain: Option<&str>)
        requires
            old(self)@.wf(),
        ensures
            final(self)@ == old(self)@.noting(
                match error {
                    Some(message) => spaced(words(message@)),
                    None => success@,
                },
            ).with_status(
                match porcelain {
                    Some(text) => parsed(text@),
                    None => old(self)@.status,
                },
            ),
            final(self)@.wf(),
    {
        self.notice = Some(
            match error {
                Some(message) => one_line(message),
                None => success.to_owned(),
            },
        );
        self.refresh(porcelain);
    }

    /// Asks for a diff of the selected file: of the index or of the work tree, by its section. An
    /// untracked file has none, which is noted.
    pub fn show_diff(&mut self) -> (r: Option<DiffRequest>)
        requires
            old(self)@.wf(),
        ensures
            match old(self)@.selected_change() {
                Some((section, change)) => match section {
                    Section::Staged => final(self)@ == old(self)@ && r is Some && strings(
                        r->0.args@,
                    ) == seq!["diff"@, "--staged"@, "--"@, change.path] && r->0.path@
                        == change.path && r->0.label@ == "staged"@,
                    Section::Unstaged => final(self)@ == old(self)@ && r is Some && strings(
                        r->0.args@,
                    ) == seq!["diff"@, "--"@, change.path] && r->0.path@ == change.path
                        && r->0.label@ == "worktree"@,
                    Section::Untracked => r is None && final(self)@ == old(self)@.noting(
                        "untracked file — stage it to diff"@,
                    ),
                },
                None => r is None && final(self)@ == old(self)@,
            },
            final(self)@.wf(),
    {
        let (section, path): (Section, String) = match self.selected_change() {
            Some((section, change)) => (section, change.path.clone()),
            None => {
                return None;
            },
        };
        match section {
            Section::Staged => {
                let mut args = words2("diff", "--staged");
                add_word(&mut args, "--");
                add_word(&mut args, path.as_str());
                assert(strings(args@) =~= seq!["diff"@, "--staged"@, "--"@, path@]);
                Some(DiffRequest { args, path, label: "staged".to_owned() })
            },
            Section::Unstaged => {
                let mut args = words2("diff", "--");
                add_word(&mut args, path.as_str());
                assert(strings(args@) =~= seq!["diff"@, "--"@, path@]);
                Some(DiffRequest { args, path, label: "worktree".to_owned() })
            },
            Section::Untracked => {
                self.notice = Some("untracked file — stage it to diff".to_owned());
                None
            },
        }
    }

    /// Takes the outcome of a diff: opens it, or notes that it is empty or failed.
    pub fn diff_ready(&mut self, request: &DiffRequest, output: Result<String, String>)
        requires
            old(self)@.wf(),
        ensures
            final(self)@ == match output {
                Ok(text) => if trim(text@).len() > 0 {
                    Panel {
                        diff: Some(
                            Diff {
                                title: request.path@ + " ("@ + request.label@ + ")"@,
                                lines: lines(text@),
                                scroll: 0,
                            },
                        ),
                        ..old(self)@
                    }
                } else {
                    old(self)@.noting("no "@ + request.label@ + " changes in "@ + request.path@)
                },
                Err(message) => old(self)@.noting(spaced(words(message@))),
            },
            final(self)@.wf(),
    {
        match output {
            Ok(text) => {
                let t = chars_of(text.as_str());
                let (from, to) = trim_bounds(t.as_slice());
                if from < to {
                    let mut title = request.path.clone();
                    title.append(" (");
                    title.append(request.label.as_str());
                    title.append(")");
                    let parts = lines_of(t.as_slice());
                    let ghost all = texts(parts@);
                    let mut ls: Vec<String> = Vec::new();
                    let mut i: usize = 0;
                    assert(strings(ls@) =~= all.take(0));
                    while i < parts.len()
                        invariant
                            i <= parts@.len(),
                            all == texts(parts@),
                            strings(ls@) == all.take(i as int),
                        decreases parts@.len() - i,
                    {
                        let ghost before = strings(ls@);
                        ls.push(string_of(parts[i].as_slice()));
                        assert(strings(ls@) =~= before.push(all[i as int]));
                        assert(strings(ls@) =~= all.take(i + 1));
                        i += 1;
                    }
                    assert(all.take(i as int) =~= all);
                    self.diff = Some(DiffView { title, lines: ls, scroll: 0 });
                } else {
                    let mut notice = "no ".to_owned();
                    notice.append(request.label.as_str());
                    notice.append(" changes in ");
                    notice.append(request.path.as_str());
                    self.notice = Some(notice);
                }
            },
            Err(message) => {
                self.notice = Some(one_line(message.as_str()));
            },
        }
    }

    /// Whether a diff is open.
    pub fn diff_open(&self) -> (r: bool)
        ensures
            r == (self@.diff is Some),
    {
        self.diff.is_some()
    }

    /// Closes the diff.
    pub fn close_diff(&mut self)
        ensures
            final(self)@ == (Panel { diff: None, ..old(self)@ }),
    {
        self.diff = None;
    }

    /// Scrolls the diff down by `delta` lines, or up by a negative one.
    pub fn scroll_diff(&mut self, delta: i32)
        ensures
            final(self)@ == match old(self)@.diff {
                Some(d) => Panel {
                    diff: Some(
                        Diff {
                            scroll: least(most(d.scroll + delta, 0), usize::MAX as int) as nat,
                            ..d
                        },
                    ),
                    ..old(self)@
                },
                None => old(self)@,
            },
    {
        if let Some(mut diff) = self.diff.take() {
            if delta < 0 {
                let by: usize = (-(delta as i64)) as usize;
                diff.scroll = diff.scroll.saturating_sub(by);
            } else {
                diff.scroll = diff.scroll.saturating_add(delta as usize);
            }
            self.diff = Some(diff);
        }
    }

    /// Draws the panel into `area`: the diff if one is open, else the status list.
    pub fn render(&mut self, surface: &mut Surface, area: Rect, theme: &Theme)
        requires
            old(surface)@.wf(),
            area.wf(),
            old(self)@.wf(),
        ensures
            final(surface)@ == drawn(old(surface)@, old(self)@, area, *theme),
            final(surface)@.wf(),
            final(self)@ == after_drawing(old(self)@, area),
            final(self)@.wf(),
    {
        if area.is_empty() {
            return ;
        }
        if self.diff.is_some() {
            self.render_diff(surface, area, theme);
        } else {
            self.render_status(surface, area, theme);
        }
    }

    /// Draws the status list.
    fn render_status(&mut self, surface: &mut Surface, area: Rect, theme: &Theme)
        requires
            old(surface)@.wf(),
            area.wf(),
            !area.is_empty(),
            old(self)@.wf(),
            old(self)@.diff is None,
        ensures
            final(surface)@ == draw_status(old(surface)@, old(self)@, area, *theme),
            final(surface)@.wf(),
            final(self)@ == after_drawing(old(self)@, area),
            final(self)@.wf(),
    {
        let (header, body) = area.split_top(1);
        surface.blank(header.x, header.right(), header.y, theme.inverse());
        let mut title = " Git · ".to_owned();
        title.append(self.branch_label().as_str());
        title.append(" · s stage · u unstage · c commit · d diff · g refresh · q close");
        surface.set_str(header.x, header.y, title.as_str(), theme.inverse());
        if body.is_empty() {
            return ;
        }
        let height = body.height as usize;
        if self.selected < self.scroll {
            self.scroll = self.selected;
        } else if self.selected - self.scroll >= height {
            self.scroll = self.selected - (height - 1);
        }
        let ghost base = surface@;
        let mut i: u32 = 0;
        while i < body.height
            invariant
                surface@.wf(),
                i <= body.height,
                body.x + body.width <= u32::MAX,
                body.y + body.height <= u32::MAX,
                self@.wf(),
                draw_rows(base, self@, body, 0, *theme) == draw_rows(
                    surface@,
                    self@,
                    body,
                    i as nat,
                    *theme,
                ),
            decreases body.height - i,
        {
            let y: u32 = body.y + i;
            surface.blank(body.x, body.right(), y, theme.base_style());
            if self.scroll < self.rows.len() && (i as usize) < self.rows.len() - self.scroll {
                let index: usize = self.scroll + i as usize;
                put_row(
                    surface,
                    body,
                    y,
                    self.rows[index],
                    &self.status,
                    index == self.selected,
                    theme,
                );
            } else if self.rows.len() == 0 && i == 0 {
                surface.set_str(body.x, y, "  working tree clean", theme.base_style());
            }
            i += 1;
        }
        if let Some(notice) = &self.notice {
            let last: u32 = body.bottom() - 1;
            surface.blank(body.x, body.right(), last, theme.base_style());
            let mut text = "  ".to_owned();
            text.append(notice.as_str());
            surface.set_str(body.x, last, text.as_str(), Style::new(theme.info, theme.background));
        }
    }

    /// Draws the diff.
    fn render_diff(&mut self, surface: &mut Surface, area: Rect, theme: &Theme)
        requires
            old(surface)@.wf(),
            area.wf(),
            !area.is_empty(),
            old(self)@.wf(),
            old(self)@.diff is Some,
        ensures
            final(surface)@ == draw_diff(old(surface)@, old(self)@.diff->0, area, *theme),
            final(surface)@.wf(),
            final(self)@ == after_drawing(old(self)@, area),
            final(self)@.wf(),
    {
        let (header, body) = area.split_top(1);
        surface.blank(header.x, header.right(), header.y, theme.inverse());
        if let Some(mut diff) = self.diff.take() {
            let mut title = " Diff · ".to_owned();
            title.append(diff.title.as_str());
            title.append(" · q back");
            surface.set_str(header.x, header.y, title.as_str(), theme.inverse());
            let height = body.height as usize;
            let max_scroll: usize = if diff.lines.len() > height {
                diff.lines.len() - height
            } else {
                0
            };
            if diff.scroll > max_scroll {
                diff.scroll = max_scroll;
            }
            let ghost d = Diff {
                title: diff.title@,
                lines: strings(diff.lines@),
                scroll: diff.scroll as nat,
            };
            assert(strings(diff.lines@).len() == diff.lines@.len());
            let ghost base = surface@;
            let mut i: u32 = 0;
            while i < body.height
                invariant
                    surface@.wf(),
                    i <= body.height,
                    body.x + body.width <= u32::MAX,
                    body.y + body.height <= u32::MAX,
                    d == (Diff {
                        title: diff.title@,
                        lines: strings(diff.lines@),
                        scroll: diff.scroll as nat,
                    }),
                    draw_diff_lines(base, d, body, 0, *theme) == draw_diff_lines(
                        surface@,
                        d,
                        body,
                        i as nat,
                        *theme,
                    ),
                decreases body.height - i,
            {
                let y: u32 = body.y + i;
                surface.blank(body.x, body.right(), y, theme.base_style());
                if diff.scroll < diff.lines.len() && (i as usize) < diff.lines.len() - diff.scroll {
                    let line = diff.lines[diff.scroll + i as usize].as_str();
                    assert(d.lines[d.scroll + i] == line@);
                    let style = diff_line_style(line, theme);
                    surface.set_str(body.x, y, line, style);
                }
                i += 1;
            }
            self.diff = Some(diff);
        }
    }

    /// The branch with its distance to the upstream.
    pub fn branch_label(&self) -> (r: String)
        ensures
            r@ == branch_label_of(self@.status),
    {
        let mut r = self.status.branch.clone();
        if self.status.ahead > 0 {
            r.append(" ↑");
            r.append(decimal_of(self.status.ahead as u128).as_str());
        }
        if self.status.behind > 0 {
            r.append(" ↓");
            r.append(decimal_of(self.status.behind as u128).as_str());
        }
        assert(r@ =~= branch_label_of(self@.status));
        r
    }
}

/// Appends the rows of a section.
fn push_section(rows: &mut Vec<Row>, section: Section, n: usize)
    ensures
        final(rows)@ == old(rows)@ + section_rows(section, n as nat),
{
    if n == 0 {
        assert(rows@ =~= old(rows)@ + section_rows(section, 0));
        return ;
    }
    rows.push(Row::Header(section, n));
    let mut i: usize = 0;
    while i < n
        invariant
            i <= n,
            rows@ =~= old(rows)@ + seq![Row::Header(section, n)] + file_rows(section, i as nat),
        decreases n - i,
    {
        rows.push(Row::File(section, i));
        i += 1;
    }
    assert(rows@ =~= old(rows)@ + section_rows(section, n as nat));
}

/// Draws one row at `y`.
fn put_row(
    surface: &mut Surface,
    area: Rect,
    y: u32,
    row: Row,
    status: &RepoStatus,
    selected: bool,
    theme: &Theme,
)
    requires
        old(surface)@.wf(),
        area.x + area.width <= u32::MAX,
    ensures
        final(surface)@ == draw_row(
            old(surface)@,
            area,
            y as int,
            row,
            status@,
            selected,
            *theme,
        ),
        final(surface)@.wf(),
{
    match row {
        Row::Header(section, count) => {
            let mut label = section_title(section).to_owned();
            label.append(" (");
            label.append(decimal_of(count as u128).as_str());
            label.append(")");
            surface.set_str(area.x, y, label.as_str(), theme.accented().bold());
        },
        Row::File(section, index) => {
            let list = match section {
                Section::Staged => &status.staged,
                Section::Unstaged => &status.unstaged,
                Section::Untracked => &status.untracked,
            };
            assert(changes(list@) == section_changes(status@, section));
            if index < list.len() {
                let change = &list[index];
                assert(section_changes(status@, section)[index as int] == change@);
                let style = if selected {
                    theme.inverse()
                } else {
                    Style::new(code_color(change.code, theme), theme.background)
                };
                let mut label = "  ".to_owned();
                label.append(pad(code_label(change.code), 9).as_str());
                label.append(" ");
                label.append(change.path.as_str());
                let end = surface.set_str(area.x, y, label.as_str(), style);
                if selected {
                    surface.blank(end, area.right(), y, style);
                }
            }
        },
    }
}

proof fn lemma_file_from(rows: Seq<Row>, i: int)
    requires
        0 <= i,
    ensures
        file_from(rows, i) == -1 || (i <= file_from(rows, i) && is_file(rows, file_from(rows, i))),
        (exists|k: int| i <= k && is_file(rows, k)) ==> file_from(rows, i) >= 0,
    decreases rows.len() - i,
{
    if i < rows.len() && !is_file(rows, i) {
        lemma_file_from(rows, i + 1);
        if exists|k: int| i <= k && is_file(rows, k) {
            let k = choose|k: int| i <= k && is_file(rows, k);
            assert(i + 1 <= k && is_file(rows, k));
        }
    }
}

proof fn lemma_file_up_to(rows: Seq<Row>, i: int)
    ensures
        file_up_to(rows, i) == -1 || is_file(rows, file_up_to(rows, i)),
    decreases i + 1,
{
    if i >= 0 && !is_file(rows, i) {
        lemma_file_up_to(rows, i - 1);
    }
}

/// The selection is on a file whenever there is one: after a new status, and after moving it.
pub proof fn law_selection_on_file(p: Panel, status: Status)
    requires
        p.wf(),
    ensures
        (exists|i: int| is_file(rows_of(status), i)) ==> is_file(
            p.with_status(status).rows,
            p.with_status(status).selected as int,
        ),
        is_file(p.rows, p.selected as int) ==> is_file(p.forward().rows, p.forward().selected as int)
            && is_file(p.backward().rows, p.backward().selected as int),
{
    lemma_file_from(rows_of(status), 0);
    if exists|i: int| is_file(rows_of(status), i) {
        let k = choose|i: int| is_file(rows_of(status), i);
        assert(0 <= k && is_file(rows_of(status), k));
    }
    lemma_file_from(p.rows, p.selected + 1int);
    lemma_file_up_to(p.rows, least(p.selected as int, p.rows.len() as int) - 1);
}

/// Each change of the status has a row, so that every changed file can be selected.
pub proof fn law_every_change_has_a_row(s: Status, section: Section, index: int)
    requires
        0 <= index < section_changes(s, section).len(),
        section_changes(s, section).len() <= usize::MAX,
    ensures
        rows_of(s).contains(Row::File(section, index as usize)),
{
    let a = section_rows(Section::Staged, s.staged.len());
    let b = section_rows(Section::Unstaged, s.unstaged.len());
    let c = section_rows(Section::Untracked, s.untracked.len());
    match section {
        Section::Staged => {
            assert(a[1 + index] == Row::File(section, index as usize));
            assert(rows_of(s)[1 + index] == a[1 + index]);
        },
        Section::Unstaged => {
            assert(b[1 + index] == Row::File(section, index as usize));
            assert(rows_of(s)[a.len() + 1 + index] == b[1 + index]);
        },
        Section::Untracked => {
            assert(c[1 + index] == Row::File(section, index as usize));
            assert(rows_of(s)[a.len() + b.len() + 1 + index] == c[1 + index]);
        },
    }
}

proof fn lemma_status_prefix(ls: Seq<Seq<char>>, line: Seq<char>, n: nat)
    requires
        n <= ls.len(),
    ensures
        status_of(ls.push(line), n) == status_of(ls, n),
    decreases n,
{
    if n > 0 {
        lemma_status_prefix(ls, line, (n - 1) as nat);
        assert(ls.push(line)[n - 1] == ls[n - 1]);
    }
}

/// What one more line of output means for the status.
proof fn lemma_one_more_change(before: Seq<char>, line: Seq<char>)
    requires
        before.len() == 0 || before.last() == '\n',
        !line.contains('\n'),
        line.len() > 0 ==> line.last() != '\r',
    ensures
        parsed(before + line.push('\n')) == with_line(parsed(before), line),
{
    law_one_more_line(before, line);
    let ls = lines(before);
    lemma_status_prefix(ls, line, ls.len());
}

/// A line of output for a path: its two codes, a blank and the path.
pub open spec fn status_line(x: char, y: char, path: Seq<char>) -> Seq<char> {
    seq![x, y, ' '] + path
}

proof fn lemma_status_line(x: char, y: char, path: Seq<char>)
    requires
        x < '\u{80}',
        y < '\u{80}',
        path.len() > 0,
    ensures
        byte_len(status_line(x, y, path)) >= 4,
        crate::git::from_byte(status_line(x, y, path), 3) == path,
{
    let line = status_line(x, y, path);
    let head = seq![x, y, ' '];
    lemma_byte_len_concat(head, path);
    assert(head.drop_last().drop_last().drop_last() =~= Seq::<char>::empty());
    reveal_with_fuel(byte_len, 4);
    assert(byte_len(head) == 3);
    assert(line.take(3) =~= head);
    assert(offset(line, 3) == 3);
    lemma_index_of_offset(line, 3);
    assert(line.skip(3) =~= path);
    assert(byte_len(path) >= 1) by {
        reveal_with_fuel(byte_len, 2);
    }
}

/// No changed file of the output is missing from the panel: a line adds its path to the staged
/// changes exactly if its first code is not blank and to the unstaged ones exactly if its second code
/// is not, each under that code, whatever it is; the line of an untracked file adds it there. Nothing
/// else changes.
pub proof fn law_every_changed_file_is_listed(
    before: Seq<char>,
    x: char,
    y: char,
    path: Seq<char>,
)
    requires
        before.len() == 0 || before.last() == '\n',
        x < '\u{80}' && x != '\n',
        y < '\u{80}' && y != '\n',
        !(x == '#' && y == '#'),
        path.len() > 0,
        !path.contains('\n'),
        path.last() != '\r',
        forall|k: int| 0 <= k <= path.len() - 4 ==> #[trigger] path.subrange(k, k + 4) != " -> "@,
    ensures
        ({
            let s = parsed(before);
            let r = parsed(before + status_line(x, y, path).push('\n'));
            let untracked = x == '?' && y == '?';
            &&& r.staged == if !untracked && x != ' ' {
                s.staged.push(Chg { code: x, path })
            } else {
                s.staged
            }
            &&& r.unstaged == if !untracked && y != ' ' {
                s.unstaged.push(Chg { code: y, path })
            } else {
                s.unstaged
            }
            &&& r.untracked == if untracked {
                s.untracked.push(Chg { code: '?', path })
            } else {
                s.untracked
            }
            &&& r.branch == s.branch && r.ahead == s.ahead && r.behind == s.behind
        }),
{
    let line = status_line(x, y, path);
    lemma_plain_line(x, y, path);
    lemma_one_more_change(before, line);
    lemma_status_line(x, y, path);
    lemma_no_branch_line(x, y, path);
    reveal_strlit(" -> ");
    assert forall|k: int| 0 <= k implies !crate::search::occurs_at(path, " -> "@, k) by {
        if k + 4 <= path.len() {
            assert(path.subrange(k, k + 4) != " -> "@);
        }
    }
    lemma_no_occurrence(path, " -> "@, 0);
}

proof fn lemma_plain_line(x: char, y: char, path: Seq<char>)
    requires
        x != '\n',
        y != '\n',
        path.len() > 0,
        !path.contains('\n'),
        path.last() != '\r',
    ensures
        !status_line(x, y, path).contains('\n'),
        status_line(x, y, path).last() != '\r',
{
    let line = status_line(x, y, path);
    if line.contains('\n') {
        let k = choose|k: int| 0 <= k < line.len() && line[k] == '\n';
        assert(k >= 3);
        assert(path[k - 3] == '\n');
    }
    assert(line.last() == path.last());
}

proof fn lemma_no_branch_line(x: char, y: char, path: Seq<char>)
    requires
        !(x == '#' && y == '#'),
    ensures
        !starts_with(status_line(x, y, path), "## "@),
{
    reveal_strlit("## ");
    let line = status_line(x, y, path);
    if starts_with(line, "## "@) {
        assert(line.take(3)[0] == x);
        assert(line.take(3)[1] == y);
    }
}

proof fn lemma_no_occurrence(t: Seq<char>, q: Seq<char>, i: int)
    requires
        0 <= i,
        forall|k: int| i <= k ==> !crate::search::occurs_at(t, q, k),
    ensures
        crate::search::next_occurrence(t, q, i) == -1,
    decreases t.len() + 1 - i,
{
    if i <= t.len() - q.len() {
        lemma_no_occurrence(t, q, i + 1);
    }
}

proof fn lemma_first_occurrence(t: Seq<char>, q: Seq<char>, i: int, p: int)
    requires
        0 <= i <= p,
        crate::search::occurs_at(t, q, p),
        forall|k: int| i <= k < p ==> !crate::search::occurs_at(t, q, k),
    ensures
        crate::search::next_occurrence(t, q, i) == p,
    decreases p - i,
{
    if i < p {
        lemma_first_occurrence(t, q, i + 1, p);
    }
}

/// A file that was renamed in the index is listed by its new name.
pub proof fn law_rename_is_listed_by_its_new_name(
    before: Seq<char>,
    from: Seq<char>,
    to: Seq<char>,
)
    requires
        before.len() == 0 || before.last() == '\n',
        !from.contains('\n'),
        !from.contains(' '),
        to.len() > 0,
        !to.contains('\n'),
        to.last() != '\r',
    ensures
        ({
            let s = parsed(before);
            let r = parsed(before + status_line('R', ' ', from + " -> "@ + to).push('\n'));
            &&& r.staged == s.staged.push(Chg { code: 'R', path: to })
            &&& r.unstaged == s.unstaged && r.untracked == s.untracked
        }),
{
    reveal_strlit(" -> ");
    let path = from + " -> "@ + to;
    let n = from.len() as int;
    assert(!path.contains('\n')) by {
        if path.contains('\n') {
            let k = choose|k: int| 0 <= k < path.len() && path[k] == '\n';
            if k < n {
                assert(from[k] == '\n');
            } else if k >= n + 4 {
                assert(to[k - n - 4] == '\n');
            } else {
                assert(path[k] == " -> "@[k - n]);
            }
        }
    }
    assert(path.last() == to.last());
    lemma_plain_line('R', ' ', path);
    let line = status_line('R', ' ', path);
    lemma_one_more_change(before, line);
    lemma_status_line('R', ' ', path);
    lemma_no_branch_line('R', ' ', path);
    assert(path.subrange(n, n + 4) =~= " -> "@);
    assert(crate::search::occurs_at(path, " -> "@, n));
    assert forall|k: int| 0 <= k < n implies !crate::search::occurs_at(path, " -> "@, k) by {
        if crate::search::occurs_at(path, " -> "@, k) {
            assert(path.subrange(k, k + 4)[0] == from[k]);
            assert(from.contains(' '));
        }
    }
    lemma_first_occurrence(path, " -> "@, 0, n);
    assert(path.skip(n + 4) =~= to);
}

/// The line of a branch names it up to the dots before its upstream, and touches no change.
pub proof fn law_branch_is_named(before: Seq<char>, name: Seq<char>, upstream: Seq<char>)
    requires
        before.len() == 0 || before.last() == '\n',
        name.len() > 0,
        forall|k: int| 0 <= k < name.len() ==> (#[trigger] name[k]) != ' ' && name[k] != '.' && name[k]
            != '\n' && name[k] != '[' && name[k] != 'N' && name[k] != '\r',
        forall|k: int| 0 <= k < upstream.len() ==> (#[trigger] upstream[k]) != '\n' && upstream[k]
            != '[' && upstream[k] != '\r',
    ensures
        ({
            let s = parsed(before);
            let r = parsed(before + ("## "@ + name).push('\n'));
            let u = parsed(before + ("## "@ + name + "..."@ + upstream).push('\n'));
            &&& r.branch == name && u.branch == name
            &&& r.staged == s.staged && r.unstaged == s.unstaged && r.untracked == s.untracked
            &&& u.staged == s.staged && u.unstaged == s.unstaged && u.untracked == s.untracked
            &&& r.ahead == s.ahead && u.ahead == s.ahead
        }),
{
    reveal_strlit("## ");
    reveal_strlit("...");
    reveal_strlit("No commits yet on ");
    let a = "## "@ + name;
    let b = "## "@ + name + "..."@ + upstream;
    assert(!a.contains('\n')) by {
        if a.contains('\n') {
            let k = choose|k: int| 0 <= k < a.len() && a[k] == '\n';
            assert(k >= 3);
            assert(name[k - 3] == '\n');
        }
    }
    assert(a.last() == name[name.len() - 1]);
    let n = name.len() as int;
    assert(!b.contains('\n')) by {
        if b.contains('\n') {
            let k = choose|k: int| 0 <= k < b.len() && b[k] == '\n';
            assert(k >= 3);
            if k < 3 + n {
                assert(b[k] == name[k - 3]);
            } else if k >= 6 + n {
                assert(b[k] == upstream[k - 6 - n]);
            } else {
                assert(b[k] == '.');
            }
        }
    }
    assert(b.last() != '\r') by {
        if upstream.len() > 0 {
            assert(b.last() == upstream[upstream.len() - 1]);
        } else {
            assert(b.last() == '.');
        }
    }
    lemma_one_more_change(before, a);
    lemma_one_more_change(before, b);
    assert(a.take(3) =~= "## "@);
    assert(b.take(3) =~= "## "@);
    let x = a.skip(3);
    let y = b.skip(3);
    assert(x =~= name);
    assert(y =~= name + "..."@ + upstream);
    assert(!starts_with(x, "No commits yet on "@)) by {
        if starts_with(x, "No commits yet on "@) {
            assert(x.take(18)[0] == name[0]);
        }
    }
    assert(!starts_with(y, "No commits yet on "@)) by {
        if starts_with(y, "No commits yet on "@) {
            assert(y.take(18)[0] == name[0]);
        }
    }
    lemma_head_ends(x, 0, n);
    lemma_head_ends(y, 0, n);
    assert(x.take(n) =~= name);
    assert(y.take(n) =~= name);
    law_find_char_is_first(x, '[', 0);
    law_find_char_is_first(y, '[', 0);
    let p = find_char(x, '[', 0);
    assert(p == x.len()) by {
        if p < x.len() {
            assert(x[p] == name[p]);
        }
    }
    let q = find_char(y, '[', 0);
    assert(q == y.len()) by {
        if q < y.len() {
            if q < n {
                assert(y[q] == name[q]);
            } else if q >= n + 3 {
                assert(y[q] == upstream[q - n - 3]);
            } else {
                assert(y[q] == '.');
            }
        }
    }
}

proof fn lemma_head_ends(t: Seq<char>, i: int, e: int)
    requires
        0 <= i <= e <= t.len(),
        forall|k: int| i <= k < e ==> (#[trigger] t[k]) != ' ' && t[k] != '.',
        e == t.len() || (e + 2 < t.len() && t[e] == '.' && t[e + 1] == '.' && t[e + 2] == '.'),
    ensures
        head_end(t, i) == e,
    decreases e - i,
{
    if i < e {
        assert(t[i] != ' ');
        lemma_head_ends(t, i + 1, e);
    }
}

/// The counts behind a branch are the numbers behind their words: ahead, behind, or both.
pub proof fn law_distance_is_told(s: Status, n: nat, m: nat)
    requires
        n <= u32::MAX,
        m <= u32::MAX,
    ensures
        ({
            let ahead = "ahead "@ + decimal(n);
            let behind = "behind "@ + decimal(m);
            &&& counts(seq![ahead], (s.ahead, s.behind), 1) == (n, s.behind)
            &&& counts(seq![behind], (s.ahead, s.behind), 1) == (s.ahead, m)
            &&& counts(seq![ahead, seq![' '] + behind], (s.ahead, s.behind), 2) == (n, m)
        }),
{
    reveal_strlit("ahead ");
    reveal_strlit("behind ");
    let ahead = "ahead "@ + decimal(n);
    let behind = "behind "@ + decimal(m);
    lemma_counted("ahead "@, n);
    lemma_counted("behind "@, m);
    assert(!starts_with(behind, "ahead "@)) by {
        assert(behind[0] == 'b');
        assert(behind.take(6)[0] == 'b');
    }
    let spaced = seq![' '] + behind;
    assert(trim(spaced) == behind) by {
        assert(spaced.drop_first() =~= behind);
        assert(leading_white(behind) == 0);
        assert(leading_white(spaced) == 1);
        assert(spaced.skip(1) =~= behind);
        assert(trim_start(behind) =~= behind) by {
            assert(behind.skip(0) =~= behind);
        }
    }
    reveal_with_fuel(counts, 3);
    let both = seq![ahead, spaced];
    assert(both[0] == ahead && both[1] == spaced);
    assert(seq![ahead][0] == ahead);
    assert(seq![behind][0] == behind);
}

proof fn lemma_counted(word: Seq<char>, n: nat)
    requires
        word.len() > 0,
        word[0] == 'a' || word[0] == 'b',
        n <= u32::MAX,
    ensures
        starts_with(word + decimal(n), word),
        trim(word + decimal(n)) == word + decimal(n),
        count_of((word + decimal(n)).skip(word.len() as int)) == n,
{
    let t = word + decimal(n);
    law_decimal_is_read_back(n, u32::MAX as nat);
    assert(t.take(word.len() as int) =~= word);
    assert(t.skip(word.len() as int) =~= decimal(n));
    let d = decimal(n);
    assert(digit_value(d[0]) < 10);
    assert(digit_value(d[d.len() - 1]) < 10);
    assert(t[0] == word[0]);
    assert(t.last() == d[d.len() - 1]);
    lemma_trim_id(t);
    lemma_trim_id(d);
}

proof fn lemma_files_on(rows: Seq<Row>, i: int, k: int)
    requires
        0 <= i,
    ensures
        file_from(rows, i) == -1 || i <= file_from(rows, i) < rows.len(),
        i <= k && is_file(rows, k) ==> 0 <= file_from(rows, i) <= k,
    decreases rows.len() - i,
{
    if i < rows.len() && !is_file(rows, i) {
        lemma_files_on(rows, i + 1, k);
    }
}

proof fn lemma_files_back(rows: Seq<Row>, i: int, k: int)
    ensures
        i < 0 ==> file_up_to(rows, i) == -1,
        file_up_to(rows, i) == -1 || 0 <= file_up_to(rows, i) <= i,
        k <= i && is_file(rows, k) ==> k <= file_up_to(rows, i),
    decreases i + 1,
{
    if i >= 0 && !is_file(rows, i) {
        lemma_files_back(rows, i - 1, k);
    }
}

/// Stepping to the next file and back selects the file again, and no file between is passed over.
pub proof fn law_selecting_steps_file_by_file(p: Panel, i: int)
    requires
        p.wf(),
        is_file(p.rows, p.selected as int),
    ensures
        ({
            let on = p.forward();
            &&& on.selected > p.selected ==> on.backward().selected == p.selected
            &&& p.selected < i < on.selected ==> !is_file(p.rows, i)
            &&& on.selected == p.selected && p.selected < i ==> !is_file(p.rows, i)
            &&& on.rows == p.rows && on.status == p.status
        }),
        ({
            let back = p.backward();
            &&& back.selected < p.selected ==> back.forward().selected == p.selected
            &&& back.selected < i < p.selected ==> !is_file(p.rows, i)
            &&& back.selected == p.selected && i < p.selected ==> !is_file(p.rows, i)
        }),
{
    let s = p.selected as int;
    lemma_file_from(p.rows, s + 1);
    lemma_file_up_to(p.rows, s - 1);
    lemma_files_on(p.rows, s + 1, i);
    lemma_files_back(p.rows, s - 1, i);
    let on = p.forward();
    if on.selected > p.selected {
        lemma_file_up_to(p.rows, on.selected - 1);
        lemma_files_back(p.rows, on.selected - 1, s);
        lemma_files_on(p.rows, s + 1, file_up_to(p.rows, on.selected - 1));
    }
    let back = p.backward();
    if back.selected < p.selected {
        lemma_file_from(p.rows, back.selected + 1int);
        lemma_files_on(p.rows, back.selected + 1int, i);
        lemma_files_on(p.rows, back.selected + 1int, s);
        lemma_files_back(p.rows, s - 1, file_from(p.rows, back.selected + 1int));
    }
}

/// The words and colours of the letters: an addition and a deletion have their own colours, and so has
/// a file that git does not know; every other letter has the plain one.
pub proof fn law_letters_have_words_and_colours(code: char, theme: Theme)
    ensures
        word_for('A') == "new file"@ && color_for('A', theme) == theme.success,
        word_for('D') == "deleted"@ && color_for('D', theme) == theme.error,
        word_for('?') == "untracked"@ && color_for('?', theme) == theme.info,
        word_for('R') == "renamed"@ && word_for('C') == "copied"@ && word_for('T') == "typechange"@,
        word_for('M') == "modified"@,
        code != 'A' && code != 'D' && code != '?' ==> color_for(code, theme) == theme.foreground,
        code != 'A' && code != 'D' && code != '?' && code != 'R' && code != 'C' && code != 'T' ==> word_for(code)
            == "modified"@,
{
}

/// A line of a diff is coloured by how it begins: added, removed, the head of a hunk, or plain.
pub proof fn law_diff_lines_are_coloured(rest: Seq<char>, theme: Theme)
    ensures
        diff_style(seq!['+'] + rest, theme).fg == theme.success,
        diff_style(seq!['-'] + rest, theme).fg == theme.error,
        diff_style(seq!['@', '@'] + rest, theme).fg == theme.accent,
        diff_style(seq![' '] + rest, theme).fg == theme.foreground,
{
    reveal_strlit("+");
    reveal_strlit("-");
    reveal_strlit("@@");
    assert("+"@ =~= seq!['+']);
    assert("-"@ =~= seq!['-']);
    assert("@@"@ =~= seq!['@', '@']);
    let a = seq!['+'] + rest;
    let b = seq!['-'] + rest;
    let c = seq!['@', '@'] + rest;
    let e = seq![' '] + rest;
    assert(a.take(1) =~= seq!['+']);
    assert(b.take(1) =~= seq!['-']);
    assert(c.take(2) =~= seq!['@', '@']);
    assert(a[0] == '+' && b[0] == '-' && c[0] == '@' && c[1] == '@' && e[0] == ' ');
    assert(seq!['+'][0] == '+' && seq!['-'][0] == '-' && seq!['@', '@'][0] == '@');
}

/// The branch is shown with how far it is ahead and behind, and alone where it is neither.
pub proof fn law_branch_label_tells_the_distance(s: Status)
    ensures
        s.ahead == 0 && s.behind == 0 ==> branch_label_of(s) == s.branch,
        s.ahead > 0 && s.behind == 0 ==> branch_label_of(s) == s.branch + (" ↑"@ + decimal(s.ahead)),
        s.ahead == 0 && s.behind > 0 ==> branch_label_of(s) == s.branch + (" ↓"@ + decimal(s.behind)),
        s.ahead > 0 && s.behind > 0 ==> branch_label_of(s) == s.branch + (" ↑"@ + decimal(s.ahead)) + (" ↓"@
            + decimal(s.behind)),
{
    let none = Seq::<char>::empty();
    assert(s.branch + none =~= s.branch);
    assert(s.branch + (" ↑"@ + decimal(s.ahead)) + none =~= s.branch + (" ↑"@ + decimal(s.ahead)));
    assert(s.branch + none + none =~= s.branch);
}

} // verus!
