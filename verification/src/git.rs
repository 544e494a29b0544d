//! Working-tree status for the explorer's decorations, read from `git status --porcelain`.

use crate::files::{join, join_path};
use crate::search::{find_from, law_first_occurrence_is_found, next_occurrence, occurs_at};
use crate::text::{
    byte_len, chars_of, counted_bytes, find_index, index_at, lemma_byte_len_concat, lemma_index_of_offset, lines,
    lines_of, offset, same_text, slice_of,
    string_of, texts,
};
use vstd::prelude::*;

verus! {

/// A file's working-tree status, as far as the explorer shows it.
#[derive(Clone, Copy, Debug, PartialEq, Eq, Structural)]
pub enum GitStatus {
    /// Tracked and changed, renamed or copied.
    Modified,
    /// Newly added and staged.
    Added,
    /// Not tracked.
    Untracked,
    /// Removed.
    Deleted,
}

/// The status that a two-character code stands for.
pub open spec fn class_of(code: Seq<char>) -> GitStatus {
    if code == seq!['?', '?'] {
        GitStatus::Untracked
    } else if code.contains('D') {
        GitStatus::Deleted
    } else if code.contains('A') {
        GitStatus::Added
    } else {
        GitStatus::Modified
    }
}

fn has_char(t: &[char], c: char) -> (r: bool)
    ensures
        r == t@.contains(c),
{
    let mut i: usize = 0;
    while i < t.len()
        invariant
            i <= t@.len(),
            forall|k: int| 0 <= k < i ==> #[trigger] t@[k] != c,
        decreases t@.len() - i,
    {
        if t[i] == c {
            return true;
        }
        i += 1;
    }
    false
}

/// The status that a two-character code stands for.
pub fn classify(code: &str) -> (r: GitStatus)
    ensures
        r == class_of(code@),
{
    let t = chars_of(code);
    let untracked = t.len() == 2 && t[0] == '?' && t[1] == '?';
    proof {
        if untracked {
            assert(t@ =~= seq!['?', '?']);
        }
    }
    if untracked {
        GitStatus::Untracked
    } else if has_char(t.as_slice(), 'D') {
        GitStatus::Deleted
    } else if has_char(t.as_slice(), 'A') {
        GitStatus::Added
    } else {
        GitStatus::Modified
    }
}

/// The part of a status line from byte `n` on.
pub open spec fn from_byte(line: Seq<char>, n: nat) -> Seq<char> {
    line.skip(index_at(line, n))
}

/// The path of a status line; of a rename `old -> new`, the new one.
pub open spec fn line_path(line: Seq<char>) -> Seq<char> {
    let path = from_byte(line, 3);
    let arrow = next_occurrence(path, " -> "@, 0);
    if arrow >= 0 {
        path.skip(arrow + 4)
    } else {
        path
    }
}

/// The path of a status line.
pub fn find_path(line: &[char]) -> (r: Vec<char>)
    ensures
        r@ == line_path(line@),
{
    let from = find_index(line, 3);
    let path = slice_of(line, from, line.len());
    assert(path@ =~= from_byte(line@, 3));
    let arrow = chars_of(" -> ");
    proof {
        reveal_strlit(" -> ");
    }
    match find_from(path.as_slice(), arrow.as_slice(), 0) {
        Some(p) => {
            let n = path.len();
            let r = slice_of(path.as_slice(), p + 4, n);
            assert(r@ =~= path@.skip(p + 4));
            r
        },
        None => path,
    }
}

/// The statuses after the first `n` lines: each path under `root` with the status that the last
/// line for it gives.
pub open spec fn statuses_of(
    root: Seq<char>,
    ls: Seq<Seq<char>>,
    n: nat,
) -> Map<Seq<char>, GitStatus>
    decreases n,
{
    if n == 0 {
        Map::empty()
    } else {
        let line = ls[n - 1];
        let before = statuses_of(root, ls, (n - 1) as nat);
        if byte_len(line) < 4 {
            before
        } else {
            before.insert(join(root, line_path(line)), class_of(line.take(index_at(line, 2))))
        }
    }
}

/// The changed paths of a repository and their statuses.
#[derive(Clone, Debug)]
pub struct Statuses {
    entries: Vec<(String, GitStatus)>,
}

spec fn entries_map(v: Seq<(String, GitStatus)>) -> Map<Seq<char>, GitStatus>
    decreases v.len(),
{
    if v.len() == 0 {
        Map::empty()
    } else {
        entries_map(v.drop_last()).insert(v.last().0@, v.last().1)
    }
}

impl View for Statuses {
    type V = Map<Seq<char>, GitStatus>;

    closed spec fn view(&self) -> Map<Seq<char>, GitStatus> {
        entries_map(self.entries@)
    }
}

/// Reads the output of `git status --porcelain` for the work tree at `root`.
pub fn statuses(root: &str, porcelain: &str) -> (r: Statuses)
    ensures
        r@ == statuses_of(root@, lines(porcelain@), lines(porcelain@).len()),
{
    let text = chars_of(porcelain);
    let ls = lines_of(text.as_slice());
    let ghost all = texts(ls@);
    let mut entries: Vec<(String, GitStatus)> = Vec::new();
    let mut i: usize = 0;
    while i < ls.len()
        invariant
            i <= ls@.len(),
            all == texts(ls@),
            entries_map(entries@) == statuses_of(root@, all, i as nat),
        decreases ls@.len() - i,
    {
        let line = &ls[i];
        assert(all[i as int] == line@);
        let whole = string_of(line.as_slice());
        if counted_bytes(whole.as_str()) >= 4 {
            let end = find_index(line.as_slice(), 2);
            let code = slice_of(line.as_slice(), 0, end);
            assert(code@ =~= line@.take(end as int));
            let status = classify(string_of(code.as_slice()).as_str());
            let path = find_path(line.as_slice());
            let full = join_path(root, string_of(path.as_slice()).as_str());
            let ghost before = entries@;
            entries.push((full, status));
            assert(entries@.drop_last() =~= before);
        }
        i += 1;
    }
    Statuses { entries }
}

impl Statuses {
    /// The status of a path; `None` if it is clean.
    pub fn get(&self, path: &str) -> (r: Option<GitStatus>)
        ensures
            match r {
                Some(status) => self@.dom().contains(path@) && self@[path@] == status,
                None => !self@.dom().contains(path@),
            },
    {
        let mut n: usize = self.entries.len();
        assert(self.entries@.take(n as int) =~= self.entries@);
        while n > 0
            invariant
                n <= self.entries@.len(),
                ({
                    let part = entries_map(self.entries@.take(n as int));
                    self@.dom().contains(path@) == part.dom().contains(path@) && (
                    self@.dom().contains(path@) ==> self@[path@] == part[path@])
                }),
            decreases n,
        {
            proof {
                let part = self.entries@.take(n as int);
                assert(part.drop_last() =~= self.entries@.take(n - 1));
                assert(part.last() == self.entries@[n - 1]);
            }
            if same_text(self.entries[n - 1].0.as_str(), path) {
                return Some(self.entries[n - 1].1);
            }
            n -= 1;
        }
        None
    }

    /// Whether nothing changed.
    pub fn is_empty(&self) -> (r: bool)
        ensures
            r ==> self@ == Map::<Seq<char>, GitStatus>::empty(),
            !r ==> exists|path: Seq<char>| self@.dom().contains(path),
    {
        if self.entries.len() == 0 {
            true
        } else {
            proof {
                let last = self.entries@.last().0@;
                assert(self@.dom().contains(last));
            }
            false
        }
    }
}

/// The two letters of a status line tell the status: two question marks a file that git does not
/// know, a `D` on either side a deletion, otherwise an `A` on either side an addition, and any other
/// pair a change.
pub proof fn law_letters_tell_the_status(x: char, y: char)
    ensures
        ({
            let status = class_of(seq![x, y]);
            &&& x == '?' && y == '?' ==> status == GitStatus::Untracked
            &&& x == 'D' || y == 'D' ==> status == GitStatus::Deleted
            &&& x != 'D' && y != 'D' && (x == 'A' || y == 'A') ==> status == GitStatus::Added
            &&& x != 'D' && y != 'D' && x != 'A' && y != 'A' && (x != '?' || y != '?') ==> status
                == GitStatus::Modified
        }),
{
    let code = seq![x, y];
    assert(code[0] == x && code[1] == y);
    assert(code.contains('D') == (x == 'D' || y == 'D')) by {
        if x == 'D' {
            assert(code[0] == 'D');
        }
        if y == 'D' {
            assert(code[1] == 'D');
        }
    }
    assert(code.contains('A') == (x == 'A' || y == 'A')) by {
        if x == 'A' {
            assert(code[0] == 'A');
        }
        if y == 'A' {
            assert(code[1] == 'A');
        }
    }
    assert(seq!['?', '?'][0] == '?' && seq!['?', '?'][1] == '?');
    if x == '?' && y == '?' {
        assert(code =~= seq!['?', '?']);
    }
}

proof fn lemma_status_line(line: Seq<char>, x: char, y: char, path: Seq<char>)
    requires
        line == seq![x, y, ' '] + path,
        x <= '\u{7f}',
        y <= '\u{7f}',
    ensures
        from_byte(line, 3) == path,
        line.take(index_at(line, 2)) == seq![x, y],
        path.len() > 0 ==> byte_len(line) >= 4,
{
    let head = seq![x, y, ' '];
    reveal_with_fuel(byte_len, 4);
    assert(seq![x, y, ' '].drop_last() =~= seq![x, y]);
    assert(seq![x, y].drop_last() =~= seq![x]);
    assert(seq![x].drop_last() =~= Seq::<char>::empty());
    assert(byte_len(Seq::<char>::empty()) == 0);
    assert(byte_len(seq![x]) == 1);
    assert(byte_len(seq![x, y]) == 2);
    assert(byte_len(head) == 3);
    assert(line.take(3) =~= head);
    assert(line.take(2) =~= seq![x, y]);
    lemma_index_of_offset(line, 3);
    lemma_index_of_offset(line, 2);
    assert(line.skip(3) =~= path);
    lemma_byte_len_concat(head, path);
    if path.len() > 0 {
        lemma_byte_len_concat(path.drop_last(), seq![path.last()]);
        assert(path.drop_last() + seq![path.last()] =~= path);
        assert(seq![path.last()].drop_last() =~= Seq::<char>::empty());
    }
}

/// A changed file is found under its path with its status; a renamed one under its new path.
pub proof fn law_status_is_found_by_path(
    root: Seq<char>,
    before: Seq<Seq<char>>,
    x: char,
    y: char,
    old_path: Seq<char>,
    path: Seq<char>,
)
    requires
        x <= '\u{7f}',
        y <= '\u{7f}',
        path.len() > 0,
        forall|k: int| 0 <= k ==> !(#[trigger] occurs_at(path, " -> "@, k)),
        forall|k: int|
            0 <= k < old_path.len() ==> !(#[trigger] occurs_at(old_path + " -> "@ + path, " -> "@, k)),
    ensures
        ({
            let plain = before.push(seq![x, y, ' '] + path);
            let moved = before.push(seq![x, y, ' '] + (old_path + " -> "@ + path));
            let n = before.len() + 1;
            &&& statuses_of(root, plain, n).contains_key(join(root, path))
            &&& statuses_of(root, plain, n)[join(root, path)] == class_of(seq![x, y])
            &&& statuses_of(root, moved, n).contains_key(join(root, path))
            &&& statuses_of(root, moved, n)[join(root, path)] == class_of(seq![x, y])
        }),
{
    reveal_strlit(" -> ");
    assert(" -> "@.len() == 4);
    lemma_status_line(seq![x, y, ' '] + path, x, y, path);
    law_first_occurrence_is_found(path, " -> "@, path.len() as int + 1);
    let t = old_path + " -> "@ + path;
    lemma_status_line(seq![x, y, ' '] + t, x, y, t);
    let p = old_path.len() as int;
    assert(t.subrange(p, p + 4) =~= " -> "@);
    assert(occurs_at(t, " -> "@, p));
    law_first_occurrence_is_found(t, " -> "@, p);
    assert(t.skip(p + 4) =~= path);
}

/// The status of a file stays as its line says when lines of other files follow.
pub proof fn law_other_lines_change_nothing(root: Seq<char>, ls: Seq<Seq<char>>, n: nat, path: Seq<char>)
    requires
        0 < n <= ls.len(),
        join(root, line_path(ls[n - 1])) != path,
        statuses_of(root, ls, (n - 1) as nat).contains_key(path),
    ensures
        statuses_of(root, ls, n).contains_key(path),
        statuses_of(root, ls, n)[path] == statuses_of(root, ls, (n - 1) as nat)[path],
{
}

} // verus!
