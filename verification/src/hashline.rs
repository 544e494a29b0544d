//! Tagged reads and edits: the agent-facing layer over a document.
//!
//! [`tagged_read`] renders a document as `LINE:TAG│text` lines; the agent then cites those
//! `LINE:TAG` anchors in [`HashlineEdit`]s instead of repeating old text. [`apply`] guards the way
//! to the document: a single citation that is out of range, or whose tag no longer matches
//! the live line, rejects the whole batch before anything changes. Accepted edits are applied back
//! to front, so that each of them still finds the line that it cites. What tag a line has is the
//! host's to compute: [`cited_lines`] hands out the lines in question and [`apply`] takes the outcome.

use crate::buffer::{replaced, Buffer, Caret};
use crate::document::{Doc, Document};
use crate::text::{
    byte_len, decimal, decimal_of, find_line_end, find_offset, find_row_start, index_at,
    lemma_byte_len_concat, lemma_index_bounds, lemma_index_mono, lemma_index_of_offset,
    lemma_line_end, lemma_offset_mono, lemma_offset_step, lemma_row_mono, lemma_row_start,
    lemma_row_start_bounds, lemma_row_step, lemma_splice_bytes, line_end, line_of, newlines, offset,
    row_start, slice_of, splice, string_of,
};
use vstd::prelude::*;

verus! {

/// A reference to a line by its 0-based number and the tag that was read for it.
#[derive(Clone, Debug, PartialEq, Eq)]
pub struct LineRef {
    /// The 0-based line number.
    pub line: usize,
    /// The tag that the agent read for that line.
    pub tag: String,
}

impl LineRef {
    /// Creates a reference to the 0-based `line` with `tag`.
    pub fn new(line: usize, tag: &str) -> (r: Self)
        ensures
            r.line == line,
            r.tag@ == tag@,
    {
        LineRef { line, tag: tag.to_owned() }
    }
}

/// One tagged edit that an agent proposes. It only applies while the tag it cites is fresh.
#[derive(Clone, Debug, PartialEq, Eq)]
pub enum HashlineEdit {
    /// Replace the cited line's content with `text`; its line ending is kept.
    Replace {
        /// The line whose content is replaced.
        at: LineRef,
        /// The replacement content, without a trailing line break.
        text: String,
    },
    /// Insert `text` as a new line immediately after the cited line.
    InsertAfter {
        /// The line that the new line is inserted after.
        at: LineRef,
        /// The content of the inserted line, without a trailing line break.
        text: String,
    },
    /// Delete the cited line and its line ending.
    Delete {
        /// The line to delete.
        at: LineRef,
    },
}

impl HashlineEdit {
    /// The line that this edit cites.
    pub open spec fn cited(self) -> LineRef {
        match self {
            HashlineEdit::Replace { at, .. } => at,
            HashlineEdit::InsertAfter { at, .. } => at,
            HashlineEdit::Delete { at } => at,
        }
    }

    /// The line that this edit cites.
    pub fn anchor(&self) -> (r: &LineRef)
        ensures
            *r == self.cited(),
    {
        match self {
            HashlineEdit::Replace { at, .. } => at,
            HashlineEdit::InsertAfter { at, .. } => at,
            HashlineEdit::Delete { at } => at,
        }
    }
}

/// Why a tagged edit could not be applied. Both reject the whole batch before any change.
#[derive(Clone, Debug, PartialEq, Eq)]
pub enum HashlineError {
    /// The cited line is past the end of the document.
    OutOfRange {
        /// The 0-based line that the edit cited.
        line: usize,
        /// How many lines the document has.
        lines: usize,
    },
    /// The cited tag no longer matches the live line: the document changed since it was read.
    StaleTag {
        /// The 0-based line that the edit cited.
        line: usize,
        /// The tag that the agent cited.
        cited: String,
        /// The tag that the live line has now.
        actual: String,
    },
}

impl HashlineError {
    /// The message for the agent.
    pub open spec fn text(self) -> Seq<char> {
        match self {
            HashlineError::OutOfRange { line, lines } => "line "@ + decimal((line + 1) as nat)
                + " is out of range (buffer has "@ + decimal(lines as nat) + " lines)"@,
            HashlineError::StaleTag { line, cited, actual } => "line "@ + decimal(
                (line + 1) as nat,
            ) + " changed since it was read (tag "@ + cited@ + " is now "@ + actual@
                + "); re-read before editing"@,
        }
    }

    /// The message for the agent.
    pub fn message(&self) -> (r: String)
        ensures
            r@ == self.text(),
    {
        match self {
            HashlineError::OutOfRange { line, lines } => {
                let mut r = "line ".to_owned();
                r.append(decimal_of(*line as u128 + 1).as_str());
                r.append(" is out of range (buffer has ");
                r.append(decimal_of(*lines as u128).as_str());
                r.append(" lines)");
                r
            },
            HashlineError::StaleTag { line, cited, actual } => {
                let mut r = "line ".to_owned();
                r.append(decimal_of(*line as u128 + 1).as_str());
                r.append(" changed since it was read (tag ");
                r.append(cited.as_str());
                r.append(" is now ");
                r.append(actual.as_str());
                r.append("); re-read before editing");
                r
            },
        }
    }
}

/// One rendered line: its 1-based number, its tag, the separator `│` and its text.
pub open spec fn tagged_line(row: nat, tag: Seq<char>, text: Seq<char>) -> Seq<char> {
    decimal(row + 1).push(':') + tag.push('│') + text.push('\n')
}

/// The tag of a row, empty where none was computed.
pub open spec fn tag_of(tags: Seq<String>, row: nat) -> Seq<char> {
    if row < tags.len() {
        tags[row as int]@
    } else {
        Seq::empty()
    }
}

/// The first `rows` lines of a text, rendered with their tags.
pub open spec fn tagged_lines(t: Seq<char>, tags: Seq<String>, rows: nat) -> Seq<char>
    decreases rows,
{
    if rows == 0 {
        Seq::empty()
    } else {
        tagged_lines(t, tags, (rows - 1) as nat) + tagged_line(
            (rows - 1) as nat,
            tag_of(tags, (rows - 1) as nat),
            line_of(t, (rows - 1) as nat),
        )
    }
}

/// The line numbered `row` of a document, without its line break.
pub fn line_text(doc: &Document, row: usize) -> (r: Vec<char>)
    requires
        row <= newlines(doc@.text),
    ensures
        r@ == line_of(doc@.text, row as nat),
{
    let start = find_row_start(doc.chars(), row);
    let end = find_line_end(doc.chars(), start);
    slice_of(doc.chars(), start, end)
}

/// Renders the whole document as tagged lines `LINE:TAG│text`, with `LINE` 1-based. `tags` holds
/// the tag of each line.
pub fn tagged_read(doc: &Document, tags: &[String]) -> (r: String)
    ensures
        r@ == tagged_lines(doc@.text, tags@, newlines(doc@.text) + 1),
{
    let last = crate::text::count_newlines(doc.chars());
    let mut out = String::new();
    let mut row: usize = 0;
    loop
        invariant_except_break
            out@ == tagged_lines(doc@.text, tags@, row as nat),
        invariant
            row <= last,
            last == newlines(doc@.text),
        ensures
            row == last,
            out@ == tagged_lines(doc@.text, tags@, newlines(doc@.text) + 1),
        decreases last - row,
    {
        let ghost before = out@;
        let ghost tag = tag_of(tags@, row as nat);
        let ghost line = line_of(doc@.text, row as nat);
        out.append(decimal_of(row as u128 + 1).as_str());
        out.push(':');
        if row < tags.len() {
            out.append(tags[row].as_str());
        }
        out.push('│');
        out.append(string_of(line_text(doc, row).as_slice()).as_str());
        out.push('\n');
        assert(out@ =~= before + tagged_line(row as nat, tag, line));
        if row == last {
            break;
        }
        row += 1;
    }
    out
}

/// What the host found out about the tag that an edit cites.
#[derive(Clone, Debug, PartialEq, Eq)]
pub struct TagCheck {
    /// Whether the cited tag matches the live line.
    pub fresh: bool,
    /// The tag that the live line has now, as long as the cited one.
    pub actual: String,
}

/// The live text of each cited line, for the host to compute its tag; `None` past the end.
pub fn cited_lines(doc: &Document, edits: &[HashlineEdit]) -> (r: Vec<Option<String>>)
    ensures
        r@.len() == edits@.len(),
        forall|i: int|
            0 <= i < edits@.len() ==> match #[trigger] r@[i] {
                Some(line) => edits@[i].cited().line <= newlines(doc@.text) && line@ == line_of(
                    doc@.text,
                    edits@[i].cited().line as nat,
                ),
                None => edits@[i].cited().line > newlines(doc@.text),
            },
{
    let last = crate::text::count_newlines(doc.chars());
    let mut r: Vec<Option<String>> = Vec::new();
    let mut i: usize = 0;
    while i < edits.len()
        invariant
            i <= edits@.len(),
            last == newlines(doc@.text),
            r@.len() == i,
            forall|k: int|
                0 <= k < i ==> match #[trigger] r@[k] {
                    Some(line) => edits@[k].cited().line <= newlines(doc@.text) && line@
                        == line_of(doc@.text, edits@[k].cited().line as nat),
                    None => edits@[k].cited().line > newlines(doc@.text),
                },
        decreases edits@.len() - i,
    {
        let line = edits[i].anchor().line;
        if line <= last {
            r.push(Some(string_of(line_text(doc, line).as_slice())));
        } else {
            r.push(None);
        }
        i += 1;
    }
    r
}

/// A replacement of a byte range that an edit comes down to.
pub struct Patch {
    /// Where the replaced text starts.
    pub start: nat,
    /// Where it ends.
    pub end: nat,
    /// What replaces it.
    pub text: Seq<char>,
}

struct Resolved {
    start: usize,
    end: usize,
    text: String,
}

impl Resolved {
    spec fn patch(self) -> Patch {
        Patch { start: self.start as nat, end: self.end as nat, text: self.text@ }
    }
}

/// The replacement that an edit of a line of `t` comes down to.
pub open spec fn resolve(t: Seq<char>, edit: HashlineEdit) -> Patch {
    let line = edit.cited().line as nat;
    let start = offset(t, row_start(t, line));
    let content_end = offset(t, line_end(t, row_start(t, line)));
    let next = offset(t, row_start(t, line + 1));
    let last = line >= newlines(t);
    match edit {
        HashlineEdit::Replace { text, .. } => Patch { start, end: content_end, text: text@ },
        HashlineEdit::InsertAfter { text, .. } => if last {
            Patch { start: byte_len(t), end: byte_len(t), text: seq!['\n'] + text@ }
        } else {
            Patch { start: next, end: next, text: text@.push('\n') }
        },
        HashlineEdit::Delete { .. } => if newlines(t) == 0 {
            Patch { start: 0, end: byte_len(t), text: Seq::empty() }
        } else if last {
            Patch { start: (start - 1) as nat, end: byte_len(t), text: Seq::empty() }
        } else {
            Patch { start, end: next, text: Seq::empty() }
        },
    }
}

/// Whether `e` is applied before `f`: it cites a later line, or it inserts behind the line that `f`
/// replaces or deletes.
pub open spec fn goes_first(e: HashlineEdit, f: HashlineEdit) -> bool {
    ||| e.cited().line > f.cited().line
    ||| e.cited().line == f.cited().line && e is InsertAfter && !(f is InsertAfter)
}

/// Whether `e`, which was given after `f`, takes its place: both replace or delete one line.
pub open spec fn overrides(e: HashlineEdit, f: HashlineEdit) -> bool {
    e.cited().line == f.cited().line && !(e is InsertAfter) && !(f is InsertAfter)
}

/// `order` with `e` placed behind all the edits that do not have to wait for it.
pub open spec fn place(order: Seq<HashlineEdit>, e: HashlineEdit) -> Seq<HashlineEdit>
    decreases order.len(),
{
    if order.len() > 0 && goes_first(e, order.last()) {
        place(order.drop_last(), e).push(order.last())
    } else if order.len() > 0 && overrides(e, order.last()) {
        order.drop_last().push(e)
    } else {
        order.push(e)
    }
}

/// The order in which the edits of a batch are applied: the highest line first, insertions before
/// the other edits of a line, insertions behind one line as given. Of several edits that replace or
/// delete one line the last one counts.
pub open spec fn back_to_front(edits: Seq<HashlineEdit>) -> Seq<HashlineEdit>
    decreases edits.len(),
{
    if edits.len() == 0 {
        Seq::empty()
    } else {
        place(back_to_front(edits.drop_last()), edits.last())
    }
}

/// View and document after one replacement.
pub open spec fn patched(s: (Caret, Doc), p: Patch) -> (Caret, Doc) {
    replaced(s.0, s.1, (index_at(s.1.text, p.start), index_at(s.1.text, p.end)), p.text)
}

/// View and document after a series of edits, each of the text that those before it leave.
pub open spec fn edited_all(s: (Caret, Doc), order: Seq<HashlineEdit>) -> (Caret, Doc)
    decreases order.len(),
{
    if order.len() == 0 {
        s
    } else {
        let before = edited_all(s, order.drop_last());
        patched(before, resolve(before.1.text, order.last()))
    }
}

/// The lines of a text, without their line breaks. A text has at least one.
pub open spec fn rows(t: Seq<char>) -> Seq<Seq<char>> {
    Seq::new(newlines(t) + 1, |row: int| line_of(t, row as nat))
}

/// The lines of a text after an edit of one of them. What is left of the last line is empty.
pub open spec fn rows_edited(ls: Seq<Seq<char>>, edit: HashlineEdit) -> Seq<Seq<char>> {
    let n = edit.cited().line as int;
    match edit {
        HashlineEdit::Replace { text, .. } => ls.take(n) + rows(text@) + ls.skip(n + 1),
        HashlineEdit::InsertAfter { text, .. } => ls.take(n + 1) + rows(text@) + ls.skip(n + 1),
        HashlineEdit::Delete { .. } => at_least_one(ls.take(n) + ls.skip(n + 1)),
    }
}

/// Lines, or the empty one of an empty text if there are none.
pub open spec fn at_least_one(ls: Seq<Seq<char>>) -> Seq<Seq<char>> {
    if ls.len() == 0 {
        seq![Seq::empty()]
    } else {
        ls
    }
}

/// The edit that replaces or deletes a line, the last one of them.
pub open spec fn change_of(edits: Seq<HashlineEdit>, line: nat) -> Option<HashlineEdit>
    decreases edits.len(),
{
    if edits.len() == 0 {
        None
    } else if edits.last().cited().line == line && !(edits.last() is InsertAfter) {
        Some(edits.last())
    } else {
        change_of(edits.drop_last(), line)
    }
}

/// What is inserted right behind a line, what was given last first.
pub open spec fn inserted_after(edits: Seq<HashlineEdit>, line: nat) -> Seq<Seq<char>>
    decreases edits.len(),
{
    if edits.len() == 0 {
        Seq::empty()
    } else {
        let earlier = inserted_after(edits.drop_last(), line);
        match edits.last() {
            HashlineEdit::InsertAfter { at, text } => if at.line == line {
                rows(text@) + earlier
            } else {
                earlier
            },
            _ => earlier,
        }
    }
}

/// What a batch makes of one line: its new content, itself or nothing, and what is inserted behind.
pub open spec fn row_rewritten(
    edits: Seq<HashlineEdit>,
    line: nat,
    content: Seq<char>,
) -> Seq<Seq<char>> {
    (match change_of(edits, line) {
        Some(HashlineEdit::Replace { text, .. }) => rows(text@),
        Some(_) => Seq::empty(),
        None => seq![content],
    }) + inserted_after(edits, line)
}

/// What a batch makes of the lines from `i` on, one after the other.
pub open spec fn rows_rewritten(
    edits: Seq<HashlineEdit>,
    ls: Seq<Seq<char>>,
    i: nat,
) -> Seq<Seq<char>>
    decreases ls.len() - i,
{
    if i >= ls.len() {
        Seq::empty()
    } else {
        row_rewritten(edits, i, ls[i as int]) + rows_rewritten(edits, ls, i + 1)
    }
}

/// Whether an edit is let through.
pub open spec fn passes(t: Seq<char>, edit: HashlineEdit, check: TagCheck) -> bool {
    edit.cited().line <= newlines(t) && check.fresh
}

/// The error for an edit that is not let through.
pub open spec fn is_failure(
    t: Seq<char>,
    edit: HashlineEdit,
    check: TagCheck,
    error: HashlineError,
) -> bool {
    if edit.cited().line > newlines(t) {
        error matches HashlineError::OutOfRange { line, lines } && line == edit.cited().line
            && lines == newlines(t) + 1
    } else {
        error matches HashlineError::StaleTag { line, cited, actual } && line == edit.cited().line
            && cited@ == edit.cited().tag@ && actual@ == check.actual@
    }
}

/// Whether every edit of a batch is let through.
pub open spec fn all_pass(t: Seq<char>, edits: Seq<HashlineEdit>, checks: Seq<TagCheck>) -> bool {
    forall|i: int| 0 <= i < edits.len() ==> passes(t, #[trigger] edits[i], checks[i])
}

/// Turns an edit of a line that the document has into a replacement.
fn resolve_edit(doc: &Document, edit: &HashlineEdit) -> (r: Resolved)
    requires
        doc@.wf(),
        edit.cited().line <= newlines(doc@.text),
    ensures
        r.patch() == resolve(doc@.text, *edit),
        r.start <= r.end,
{
    let t = doc.chars();
    let line = edit.anchor().line;
    let last = line >= crate::text::count_newlines(t);
    let start = find_row_start(t, line);
    let end = find_line_end(t, start);
    proof {
        lemma_row_start_bounds(t@, line as nat);
        lemma_offset_mono(t@, start as int, end as int);
        if start > 0 {
            lemma_offset_mono(t@, 0, start as int);
        }
        if start == 0 {
            assert(t@.take(0) =~= Seq::<char>::empty());
        }
        assert(t@.take(t@.len() as int) =~= t@);
        lemma_offset_mono(t@, start as int, t@.len() as int);
        if line < newlines(t@) {
            let next = row_start(t@, line as nat + 1);
            lemma_row_start_bounds(t@, line as nat + 1);
            if next < start {
                lemma_row_mono(t@, next, start as int);
            }
            lemma_offset_mono(t@, start as int, next);
        }
    }
    match edit {
        HashlineEdit::Replace { text, .. } => Resolved {
            start: find_offset(t, start),
            end: find_offset(t, end),
            text: text.clone(),
        },
        HashlineEdit::InsertAfter { text, .. } => {
            if last {
                let len = doc.len_bytes();
                let mut new = String::new();
                new.push('\n');
                new.append(text.as_str());
                assert(new@ =~= seq!['\n'] + text@);
                Resolved { start: len, end: len, text: new }
            } else {
                let next = find_offset(t, find_row_start(t, line + 1));
                let mut new = text.clone();
                new.push('\n');
                Resolved { start: next, end: next, text: new }
            }
        },
        HashlineEdit::Delete { .. } => {
            let nothing = String::new();
            assert(nothing@ =~= Seq::<char>::empty());
            if crate::text::count_newlines(t) == 0 {
                Resolved { start: 0, end: doc.len_bytes(), text: nothing }
            } else if last {
                Resolved {
                    start: find_offset(t, start) - 1,
                    end: doc.len_bytes(),
                    text: nothing,
                }
            } else {
                let next = find_offset(t, find_row_start(t, line + 1));
                Resolved { start: find_offset(t, start), end: next, text: nothing }
            }
        },
    }
}

/// The edits that a list of indices stands for.
spec fn picked(edits: Seq<HashlineEdit>, order: Seq<usize>) -> Seq<HashlineEdit> {
    order.map_values(|i: usize| edits[i as int])
}

/// Places the edit numbered `k` in the order of application.
fn place_edit(edits: &[HashlineEdit], order: &mut Vec<usize>, k: usize)
    requires
        k < edits@.len(),
        forall|i: int| 0 <= i < old(order)@.len() ==> (#[trigger] old(order)@[i]) < edits@.len(),
    ensures
        picked(edits@, final(order)@) == place(picked(edits@, old(order)@), edits@[k as int]),
        forall|i: int| 0 <= i < final(order)@.len() ==> (#[trigger] final(order)@[i]) < edits@.len(),
{
    let ghost e = edits@[k as int];
    let line = edits[k].anchor().line;
    let inserts = matches!(edits[k], HashlineEdit::InsertAfter { .. });
    let ghost all = picked(edits@, order@);
    let mut i: usize = order.len();
    proof {
        assert(all.take(i as int) =~= all);
        assert(place(all, e) =~= place(all.take(i as int), e) + all.skip(i as int));
    }
    while i > 0
        invariant
            i <= order@.len(),
            k < edits@.len(),
            e == edits@[k as int],
            line == e.cited().line,
            inserts == (e is InsertAfter),
            *order == *old(order),
            all == picked(edits@, order@),
            forall|j: int| 0 <= j < order@.len() ==> (#[trigger] order@[j]) < edits@.len(),
            place(all, e) == place(all.take(i as int), e) + all.skip(i as int),
        ensures
            i == 0 || !goes_first(e, all[i - 1]),
        decreases i,
    {
        let other = &edits[order[i - 1]];
        let theirs = other.anchor().line;
        assert(all[i - 1] == *other);
        let first = line > theirs || (line == theirs && inserts && !matches!(
            other,
            HashlineEdit::InsertAfter { .. }
        ));
        if !first {
            break;
        }
        proof {
            let head = all.take(i as int);
            assert(head.last() == all[i - 1]);
            assert(head.drop_last() =~= all.take(i - 1));
            assert(place(head, e) + all.skip(i as int) =~= place(all.take(i - 1), e) + all.skip(
                i - 1,
            ));
        }
        i -= 1;
    }
    let ghost head = all.take(i as int);
    let ghost before = order@;
    if i > 0 {
        assert(head.last() == all[i - 1]);
        let other = &edits[order[i - 1]];
        assert(all[i - 1] == *other);
        if !inserts && other.anchor().line == line && !matches!(
            other,
            HashlineEdit::InsertAfter { .. }
        ) {
            order[i - 1] = k;
            assert(place(head, e) == head.drop_last().push(e));
            assert(picked(edits@, order@) =~= head.drop_last().push(e) + all.skip(i as int));
            return ;
        }
    }
    assert(place(head, e) == head.push(e));
    order.insert(i, k);
    assert(picked(edits@, order@) =~= head.push(e) + all.skip(i as int));
}

/// The numbers of the edits of a batch in the order of their application.
fn order_edits(edits: &[HashlineEdit]) -> (r: Vec<usize>)
    ensures
        picked(edits@, r@) == back_to_front(edits@),
        forall|i: int| 0 <= i < r@.len() ==> (#[trigger] r@[i]) < edits@.len(),
{
    let mut order: Vec<usize> = Vec::new();
    let mut k: usize = 0;
    assert(picked(edits@, order@) =~= back_to_front(edits@.take(0)));
    while k < edits.len()
        invariant
            k <= edits@.len(),
            picked(edits@, order@) == back_to_front(edits@.take(k as int)),
            forall|i: int| 0 <= i < order@.len() ==> (#[trigger] order@[i]) < edits@.len(),
        decreases edits@.len() - k,
    {
        place_edit(edits, &mut order, k);
        assert(edits@.take(k + 1).drop_last() =~= edits@.take(k as int));
        k += 1;
    }
    assert(edits@.take(k as int) =~= edits@);
    order
}

/// How many bytes an edit adds at most.
pub open spec fn edit_bytes(edit: HashlineEdit) -> nat {
    match edit {
        HashlineEdit::Replace { text, .. } => byte_len(text@),
        HashlineEdit::InsertAfter { text, .. } => byte_len(text@) + 1,
        HashlineEdit::Delete { .. } => 0,
    }
}

/// How many bytes the edits of a batch add at most.
pub open spec fn batch_bytes(edits: Seq<HashlineEdit>) -> nat
    decreases edits.len(),
{
    if edits.len() == 0 {
        0
    } else {
        batch_bytes(edits.drop_last()) + edit_bytes(edits.last())
    }
}

/// Whether what a batch adds can be counted.
pub open spec fn batch_room(d: Doc, edits: Seq<HashlineEdit>) -> bool {
    &&& byte_len(d.text) + batch_bytes(edits) < usize::MAX
    &&& d.revision + edits.len() <= u64::MAX
}

/// Whether what a batch adds can be counted.
pub fn batch_fits(doc: &Document, edits: &[HashlineEdit]) -> (r: bool)
    requires
        doc@.wf(),
    ensures
        r == batch_room(doc@, edits@),
{
    let ghost base = byte_len(doc@.text);
    let mut len = doc.len_bytes();
    let mut i: usize = 0;
    assert(edits@.take(0) =~= Seq::empty());
    while i < edits.len()
        invariant
            i <= edits@.len(),
            base == byte_len(doc@.text),
            len == base + batch_bytes(edits@.take(i as int)),
            len < usize::MAX,
        decreases edits@.len() - i,
    {
        let ghost more = edit_bytes(edits@[i as int]);
        let added = match &edits[i] {
            HashlineEdit::Replace { text, .. } => crate::text::counted_bytes(text.as_str()),
            HashlineEdit::InsertAfter { text, .. } => crate::text::counted_bytes(
                text.as_str(),
            ).saturating_add(1),
            HashlineEdit::Delete { .. } => 0,
        };
        assert(added == more || (added == usize::MAX && more >= usize::MAX));
        assert(edits@.take(i + 1).drop_last() =~= edits@.take(i as int));
        if added >= usize::MAX - len {
            proof {
                lemma_batch_grows(edits@, i + 1);
            }
            return false;
        }
        len = len + added;
        i += 1;
    }
    assert(edits@.take(i as int) =~= edits@);
    edits.len() as u64 <= u64::MAX - doc.revision()
}

proof fn lemma_batch_grows(edits: Seq<HashlineEdit>, n: int)
    requires
        0 <= n <= edits.len(),
    ensures
        batch_bytes(edits.take(n)) <= batch_bytes(edits),
    decreases edits.len(),
{
    if n < edits.len() {
        lemma_batch_grows(edits.drop_last(), n);
        assert(edits.drop_last().take(n) =~= edits.take(n));
    } else {
        assert(edits.take(n) =~= edits);
    }
}

proof fn lemma_place_bytes(order: Seq<HashlineEdit>, e: HashlineEdit)
    ensures
        batch_bytes(place(order, e)) <= batch_bytes(order) + edit_bytes(e),
        place(order, e).len() <= order.len() + 1,
    decreases order.len(),
{
    assert(order.push(e).drop_last() =~= order);
    if order.len() > 0 {
        let head = order.drop_last();
        if goes_first(e, order.last()) {
            lemma_place_bytes(head, e);
            assert(place(head, e).push(order.last()).drop_last() =~= place(head, e));
        } else {
            assert(head.push(e).drop_last() =~= head);
        }
    }
}

proof fn lemma_order_bytes(edits: Seq<HashlineEdit>)
    ensures
        batch_bytes(back_to_front(edits)) <= batch_bytes(edits),
        back_to_front(edits).len() <= edits.len(),
    decreases edits.len(),
{
    if edits.len() > 0 {
        lemma_order_bytes(edits.drop_last());
        lemma_place_bytes(back_to_front(edits.drop_last()), edits.last());
    }
}

proof fn lemma_patch_bytes(t: Seq<char>, edit: HashlineEdit)
    ensures
        byte_len(resolve(t, edit).text) == edit_bytes(edit),
{
    match edit {
        HashlineEdit::InsertAfter { text, .. } => {
            reveal_with_fuel(byte_len, 2);
            assert(text@.push('\n').drop_last() =~= text@);
            lemma_byte_len_concat(seq!['\n'], text@);
            assert(seq!['\n'].drop_last() =~= Seq::<char>::empty());
        },
        HashlineEdit::Delete { .. } => {
            assert(byte_len(Seq::<char>::empty()) == 0);
        },
        _ => {},
    }
}

/// Where a line ends is settled by the line break, or the end of the text, behind it.
proof fn lemma_line_ends_at(t: Seq<char>, i: int, e: int)
    requires
        0 <= i <= e <= t.len(),
        forall|k: int| i <= k < e ==> t[k] != '\n',
        e < t.len() ==> t[e] == '\n',
    ensures
        line_end(t, i) == e,
{
    lemma_line_end(t, i);
}

proof fn lemma_newlines_concat(a: Seq<char>, b: Seq<char>)
    ensures
        newlines(a + b) == newlines(a) + newlines(b),
    decreases b.len(),
{
    if b.len() > 0 {
        lemma_newlines_concat(a, b.drop_last());
        assert((a + b).drop_last() =~= a + b.drop_last());
    } else {
        assert(a + b =~= a);
    }
}

/// The lines of a text whose parts are held apart by a line break are those of its parts.
proof fn lemma_rows_join(a: Seq<char>, b: Seq<char>)
    ensures
        rows(a + seq!['\n'] + b) == rows(a) + rows(b),
{
    let c = a + seq!['\n'] + b;
    let na = newlines(a);
    lemma_newlines_concat(a + seq!['\n'], b);
    assert((a + seq!['\n']).drop_last() =~= a);
    assert(newlines(a + seq!['\n']) == na + 1);
    assert forall|row: nat| row <= na implies #[trigger] line_of(c, row) == line_of(a, row) by {
        lemma_join_first(a, b, row);
    }
    assert forall|row: nat| row <= newlines(b) implies line_of(c, na + 1 + row)
        == #[trigger] line_of(b, row) by {
        lemma_join_second(a, b, row);
    }
    assert forall|k: int| 0 <= k < rows(c).len() implies rows(c)[k] == (rows(a) + rows(b))[k] by {
        if k <= na {
            assert(line_of(c, k as nat) == line_of(a, k as nat));
        } else {
            let row = (k - na - 1) as nat;
            assert(line_of(c, na + 1 + row) == line_of(b, row));
            assert((na + 1 + row) as int == k);
        }
    }
    assert(rows(c) =~= rows(a) + rows(b));
}

proof fn lemma_join_first(a: Seq<char>, b: Seq<char>, row: nat)
    requires
        row <= newlines(a),
    ensures
        line_of(a + seq!['\n'] + b, row) == line_of(a, row),
{
    let c = a + seq!['\n'] + b;
    let i = row_start(a, row);
    lemma_row_start_bounds(a, row);
    lemma_line_end(a, i);
    let e = line_end(a, i);
    assert(c.take(i) =~= a.take(i));
    assert(i > 0 ==> c[i - 1] == a[i - 1]);
    lemma_row_start(c, row, i);
    assert forall|k: int| i <= k < e implies c[k] != '\n' by {
        assert(c[k] == a[k]);
    }
    assert(c[e] == '\n') by {
        if e < a.len() {
            assert(c[e] == a[e]);
        }
    }
    lemma_line_ends_at(c, i, e);
    assert(c.subrange(i, e) =~= a.subrange(i, e));
}

proof fn lemma_join_second(a: Seq<char>, b: Seq<char>, row: nat)
    requires
        row <= newlines(b),
    ensures
        line_of(a + seq!['\n'] + b, newlines(a) + 1 + row) == line_of(b, row),
{
    let front = a + seq!['\n'];
    let c = front + b;
    let m = front.len() as int;
    let i = row_start(b, row);
    lemma_row_start_bounds(b, row);
    lemma_line_end(b, i);
    let e = line_end(b, i);
    assert(front.drop_last() =~= a);
    assert(c.take(m + i) =~= front + b.take(i));
    lemma_newlines_concat(front, b.take(i));
    assert(c[m + i - 1] == '\n') by {
        if i > 0 {
            assert(c[m + i - 1] == b[i - 1]);
        } else {
            assert(c[m - 1] == front[m - 1]);
        }
    }
    lemma_row_start(c, newlines(a) + 1 + row, m + i);
    assert forall|k: int| m + i <= k < m + e implies c[k] != '\n' by {
        assert(c[k] == b[k - m]);
    }
    if e < b.len() {
        assert(c[m + e] == b[e]);
    }
    lemma_line_ends_at(c, m + i, m + e);
    assert(c.subrange(m + i, m + e) =~= b.subrange(i, e));
}

/// A text is its lines up to one, that one, and the rest: what stands before the line, with the
/// line break, and what stands behind its line break.
proof fn lemma_around_line(t: Seq<char>, n: nat)
    requires
        n <= newlines(t),
    ensures
        ({
            let i = row_start(t, n);
            let j = line_end(t, i);
            &&& 0 <= i <= j <= t.len()
            &&& i > 0 <==> n > 0
            &&& j < t.len() <==> n < newlines(t)
            &&& n > 0 ==> t[i - 1] == '\n' && rows(t.take(i - 1)) == rows(t).take(n as int)
            &&& n < newlines(t) ==> {
                &&& t[j] == '\n'
                &&& row_start(t, n + 1) == j + 1
                &&& rows(t.take(j)) == rows(t).take(n + 1int)
                &&& rows(t.skip(j + 1)) == rows(t).skip(n + 1int)
            }
        }),
{
    let i = row_start(t, n);
    lemma_row_start_bounds(t, n);
    lemma_line_end(t, i);
    let j = line_end(t, i);
    lemma_row_mono(t, 0, i);
    if n > 0 {
        let p = t.take(i - 1);
        assert(p + seq!['\n'] + t.skip(i) =~= t);
        lemma_rows_join(p, t.skip(i));
        lemma_row_step(t, i - 1);
        assert(rows(t).take(n as int) =~= rows(p));
    } else if i > 0 {
        lemma_row_step(t, i - 1);
    }
    if j < t.len() {
        lemma_row_step(t, j);
        lemma_row_mono(t, j + 1, t.len() as int);
        lemma_row_start(t, n + 1, j + 1);
        let p = t.take(j);
        let s = t.skip(j + 1);
        assert(p + seq!['\n'] + s =~= t);
        lemma_rows_join(p, s);
        assert(rows(t).take(n + 1int) =~= rows(p));
        assert(rows(t).skip(n + 1int) =~= rows(s));
    } else {
        lemma_row_mono(t, j, t.len() as int);
    }
}

/// The text after an edit of one of its lines.
pub open spec fn text_edited(t: Seq<char>, edit: HashlineEdit) -> Seq<char> {
    let p = resolve(t, edit);
    splice(t, index_at(t, p.start), index_at(t, p.end), p.text)
}

proof fn lemma_replace_rows(t: Seq<char>, edit: HashlineEdit)
    requires
        edit.cited().line <= newlines(t),
        edit is Replace,
    ensures
        rows(text_edited(t, edit)) == rows_edited(rows(t), edit),
{
    let n = edit.cited().line as nat;
    let i = row_start(t, n);
    let j = line_end(t, i);
    lemma_around_line(t, n);
    lemma_index_of_offset(t, i);
    lemma_index_of_offset(t, j);
    let ins = edit->Replace_text@;
    let u = text_edited(t, edit);
    assert(u =~= t.take(i) + ins + t.skip(j));
    let tail = ins + t.skip(j);
    if j < t.len() {
        assert(tail =~= ins + seq!['\n'] + t.skip(j + 1));
        lemma_rows_join(ins, t.skip(j + 1));
    } else {
        assert(tail =~= ins);
        assert(rows(t).skip(n + 1int) =~= Seq::empty());
    }
    assert(rows(tail) =~= rows(ins) + rows(t).skip(n + 1int));
    if n > 0 {
        assert(u =~= t.take(i - 1) + seq!['\n'] + tail);
        lemma_rows_join(t.take(i - 1), tail);
    } else {
        assert(u =~= tail);
        assert(rows(t).take(0) =~= Seq::empty());
    }
    assert(rows(u) =~= rows_edited(rows(t), edit));
}

proof fn lemma_insert_rows(t: Seq<char>, edit: HashlineEdit)
    requires
        edit.cited().line <= newlines(t),
        edit is InsertAfter,
    ensures
        rows(text_edited(t, edit)) == rows_edited(rows(t), edit),
{
    let n = edit.cited().line as nat;
    let j = line_end(t, row_start(t, n));
    lemma_around_line(t, n);
    let ins = edit->InsertAfter_text@;
    let u = text_edited(t, edit);
    assert(t.take(t.len() as int) =~= t);
    if n < newlines(t) {
        let s = t.skip(j + 1);
        lemma_index_of_offset(t, j + 1);
        assert(u =~= t.take(j) + seq!['\n'] + (ins + seq!['\n'] + s));
        lemma_rows_join(ins, s);
        lemma_rows_join(t.take(j), ins + seq!['\n'] + s);
    } else {
        lemma_index_of_offset(t, t.len() as int);
        assert(u =~= t + seq!['\n'] + ins);
        lemma_rows_join(t, ins);
        assert(rows(t).take(n + 1int) =~= rows(t));
        assert(rows(t).skip(n + 1int) =~= Seq::empty());
    }
    assert(rows(u) =~= rows_edited(rows(t), edit));
}

proof fn lemma_delete_rows(t: Seq<char>, edit: HashlineEdit)
    requires
        edit.cited().line <= newlines(t),
        edit is Delete,
    ensures
        rows(text_edited(t, edit)) == rows_edited(rows(t), edit),
{
    let n = edit.cited().line as nat;
    let i = row_start(t, n);
    let j = line_end(t, i);
    lemma_around_line(t, n);
    let u = text_edited(t, edit);
    let ls = rows(t);
    assert(t.take(t.len() as int) =~= t);
    assert(t.take(0) =~= Seq::<char>::empty());
    lemma_index_of_offset(t, t.len() as int);
    if newlines(t) == 0 {
        lemma_index_of_offset(t, 0);
        assert(u =~= Seq::empty());
        assert(line_of(u, 0) =~= Seq::empty());
        assert(rows(u) =~= seq![Seq::<char>::empty()]);
        assert(ls.take(n as int) + ls.skip(n + 1int) =~= Seq::empty());
    } else if n == newlines(t) {
        lemma_offset_step(t, i - 1);
        lemma_index_of_offset(t, i - 1);
        assert(u =~= t.take(i - 1));
        assert(ls.take(n as int) + ls.skip(n + 1int) =~= ls.take(n as int));
    } else {
        let s = t.skip(j + 1);
        lemma_index_of_offset(t, i);
        lemma_index_of_offset(t, j + 1);
        assert(u =~= t.take(i) + s);
        if n > 0 {
            assert(u =~= t.take(i - 1) + seq!['\n'] + s);
            lemma_rows_join(t.take(i - 1), s);
        } else {
            assert(u =~= s);
            assert(ls.take(0) + ls.skip(1) =~= ls.skip(1));
        }
    }
    assert(rows(u) =~= rows_edited(ls, edit));
}

/// An edit lands on the line that it cites and on no other: the line is replaced, deleted, or
/// followed by what is inserted, and every other line is what it was. Lines of the same text are told
/// apart by their number.
pub proof fn law_edit_changes_one_line(t: Seq<char>, edit: HashlineEdit)
    requires
        edit.cited().line <= newlines(t),
    ensures
        rows(text_edited(t, edit)) == rows_edited(rows(t), edit),
{
    match edit {
        HashlineEdit::Replace { .. } => lemma_replace_rows(t, edit),
        HashlineEdit::InsertAfter { .. } => lemma_insert_rows(t, edit),
        HashlineEdit::Delete { .. } => lemma_delete_rows(t, edit),
    }
}

/// Whether edits stand in an order of application: the highest line first, and of the edits of a
/// line nothing behind the one that replaces or deletes it.
pub open spec fn in_order(order: Seq<HashlineEdit>) -> bool {
    forall|i: int, j: int|
        0 <= i < j < order.len() ==> comes_before(#[trigger] order[i], #[trigger] order[j])
}

/// Whether `e` may be applied before `f`.
pub open spec fn comes_before(e: HashlineEdit, f: HashlineEdit) -> bool {
    e.cited().line > f.cited().line || (e.cited().line == f.cited().line && e is InsertAfter)
}

proof fn lemma_place(order: Seq<HashlineEdit>, e: HashlineEdit)
    requires
        in_order(order),
    ensures
        in_order(place(order, e)),
        forall|k: int|
            0 <= k < place(order, e).len() ==> (#[trigger] place(order, e)[k]) == e
                || order.contains(place(order, e)[k]),
    decreases order.len(),
{
    let all = place(order, e);
    if order.len() > 0 {
        let head = order.drop_last();
        let last = order.last();
        assert(in_order(head));
        if goes_first(e, last) {
            lemma_place(head, e);
            let start = place(head, e);
            assert forall|k: int| 0 <= k < all.len() implies (#[trigger] all[k]) == e
                || order.contains(all[k]) by {
                if k < start.len() {
                    assert(all[k] == start[k]);
                    if start[k] != e {
                        let m = choose|m: int| 0 <= m < head.len() && head[m] == start[k];
                        assert(order[m] == start[k]);
                    }
                } else {
                    assert(order[order.len() - 1] == all[k]);
                }
            }
            assert forall|i: int, j: int| 0 <= i < j < all.len() implies comes_before(
                #[trigger] all[i],
                #[trigger] all[j],
            ) by {
                assert(all[i] == start[i]);
                if j < start.len() {
                    assert(all[j] == start[j]);
                } else if start[i] != e {
                    let m = choose|m: int| 0 <= m < head.len() && head[m] == start[i];
                    assert(order[m] == start[i]);
                    assert(comes_before(order[m], order[order.len() - 1]));
                }
            }
        } else {
            assert forall|k: int| 0 <= k < all.len() implies (#[trigger] all[k]) == e
                || order.contains(all[k]) by {
                if k < all.len() - 1 {
                    assert(order[k] == all[k]);
                }
            }
            assert forall|i: int, j: int| 0 <= i < j < all.len() implies comes_before(
                #[trigger] all[i],
                #[trigger] all[j],
            ) by {
                assert(all[i] == order[i]);
                if j < all.len() - 1 {
                    assert(all[j] == order[j]);
                } else if i < order.len() - 1 {
                    assert(comes_before(order[i], order[order.len() - 1]));
                }
            }
        }
    }
}

proof fn lemma_ordered(edits: Seq<HashlineEdit>, last: nat)
    requires
        forall|i: int| 0 <= i < edits.len() ==> (#[trigger] edits[i]).cited().line <= last,
    ensures
        in_order(back_to_front(edits)),
        forall|i: int|
            0 <= i < back_to_front(edits).len() ==> (#[trigger] back_to_front(
                edits,
            )[i]).cited().line <= last,
    decreases edits.len(),
{
    if edits.len() > 0 {
        let head = edits.drop_last();
        lemma_ordered(head, last);
        lemma_place(back_to_front(head), edits.last());
        assert forall|i: int| 0 <= i < back_to_front(edits).len() implies (#[trigger] back_to_front(
            edits,
        )[i]).cited().line <= last by {
            let e = back_to_front(edits)[i];
            if e != edits.last() {
                let m = choose|m: int|
                    0 <= m < back_to_front(head).len() && back_to_front(head)[m] == e;
                assert(back_to_front(head)[m].cited().line <= last);
            }
        }
    }
}

/// What one more edit means for a line.
proof fn lemma_one_more(order: Seq<HashlineEdit>, e: HashlineEdit, line: nat)
    ensures
        change_of(order.push(e), line) == if e.cited().line == line && !(e is InsertAfter) {
            Some(e)
        } else {
            change_of(order, line)
        },
        inserted_after(order.push(e), line) == if e.cited().line == line && e is InsertAfter {
            rows(e->InsertAfter_text@) + inserted_after(order, line)
        } else {
            inserted_after(order, line)
        },
{
    assert(order.push(e).drop_last() =~= order);
    assert(order.push(e).last() == e);
}

/// Placing an edit among others means for every line what adding it behind them means.
proof fn lemma_place_means(order: Seq<HashlineEdit>, e: HashlineEdit, line: nat)
    ensures
        change_of(place(order, e), line) == change_of(order.push(e), line),
        inserted_after(place(order, e), line) == inserted_after(order.push(e), line),
    decreases order.len(),
{
    if order.len() > 0 {
        let head = order.drop_last();
        let last = order.last();
        assert(head.push(last) =~= order);
        lemma_one_more(order, e, line);
        lemma_one_more(head, e, line);
        lemma_one_more(head, last, line);
        if goes_first(e, last) {
            lemma_place_means(head, e, line);
            lemma_one_more(place(head, e), last, line);
        }
    }
}

proof fn lemma_order_means(edits: Seq<HashlineEdit>, line: nat)
    ensures
        change_of(back_to_front(edits), line) == change_of(edits, line),
        inserted_after(back_to_front(edits), line) == inserted_after(edits, line),
    decreases edits.len(),
{
    if edits.len() > 0 {
        let head = edits.drop_last();
        lemma_order_means(head, line);
        lemma_place_means(back_to_front(head), edits.last(), line);
        assert(back_to_front(head).push(edits.last()).drop_last() =~= back_to_front(head));
    }
}

proof fn lemma_order_rewrites(edits: Seq<HashlineEdit>, ls: Seq<Seq<char>>, i: nat)
    ensures
        rows_rewritten(back_to_front(edits), ls, i) == rows_rewritten(edits, ls, i),
    decreases ls.len() - i,
{
    if i < ls.len() {
        lemma_order_means(edits, i);
        lemma_order_rewrites(edits, ls, i + 1);
    }
}

/// Lines that no edit cites stay.
proof fn lemma_uncited(edits: Seq<HashlineEdit>, line: nat)
    requires
        forall|i: int| 0 <= i < edits.len() ==> (#[trigger] edits[i]).cited().line != line,
    ensures
        change_of(edits, line) is None,
        inserted_after(edits, line) == Seq::<Seq<char>>::empty(),
    decreases edits.len(),
{
    if edits.len() > 0 {
        assert(edits.last().cited().line != line);
        assert forall|i: int| 0 <= i < edits.drop_last().len() implies (
        #[trigger] edits.drop_last()[i]).cited().line != line by {
            assert(edits.drop_last()[i] == edits[i]);
        }
        lemma_uncited(edits.drop_last(), line);
    }
}

/// The lines before those that are cited stay as they are.
proof fn lemma_lines_before(edits: Seq<HashlineEdit>, ls: Seq<Seq<char>>, i: nat, n: nat)
    requires
        i <= n <= ls.len(),
        forall|k: int| 0 <= k < edits.len() ==> (#[trigger] edits[k]).cited().line >= n,
    ensures
        rows_rewritten(edits, ls, i) == ls.subrange(i as int, n as int) + rows_rewritten(
            edits,
            ls,
            n,
        ),
    decreases n - i,
{
    if i < n {
        lemma_lines_before(edits, ls, i + 1, n);
        lemma_uncited(edits, i);
        let rest = rows_rewritten(edits, ls, n);
        assert(rows_rewritten(edits, ls, i) =~= seq![ls[i as int]] + (ls.subrange(i + 1int, n as int)
            + rest));
        assert(seq![ls[i as int]] + (ls.subrange(i + 1int, n as int) + rest) =~= ls.subrange(
            i as int,
            n as int,
        ) + rest);
    } else {
        assert(ls.subrange(i as int, n as int) + rows_rewritten(edits, ls, n) =~= rows_rewritten(
            edits,
            ls,
            n,
        ));
    }
}

/// An edit of a line leaves what becomes of the lines behind it.
proof fn lemma_lines_behind(edits: Seq<HashlineEdit>, e: HashlineEdit, ls: Seq<Seq<char>>, i: nat)
    requires
        i > e.cited().line,
    ensures
        rows_rewritten(edits.push(e), ls, i) == rows_rewritten(edits, ls, i),
    decreases ls.len() - i,
{
    if i < ls.len() {
        lemma_lines_behind(edits, e, ls, i + 1);
        assert(edits.push(e).drop_last() =~= edits);
    }
}

/// No edit has replaced or deleted the line of the next one, in an order of application.
proof fn lemma_not_changed(edits: Seq<HashlineEdit>, line: nat)
    requires
        forall|k: int|
            0 <= k < edits.len() ==> (#[trigger] edits[k]).cited().line > line || (
            edits[k].cited().line == line && edits[k] is InsertAfter),
    ensures
        change_of(edits, line) is None,
    decreases edits.len(),
{
    if edits.len() > 0 {
        let last = edits.last();
        assert(last == edits[edits.len() - 1]);
        let head = edits.drop_last();
        assert forall|k: int| 0 <= k < head.len() implies (#[trigger] head[k]).cited().line > line
            || (head[k].cited().line == line && head[k] is InsertAfter) by {
            assert(head[k] == edits[k]);
        }
        lemma_not_changed(head, line);
    }
}

/// One more edit, in an order of application: where the text has become what the edits so far make
/// of its lines, it becomes what all of them do.
proof fn lemma_edit_rewrites(
    done: Seq<HashlineEdit>,
    e: HashlineEdit,
    ls: Seq<Seq<char>>,
    now: Seq<Seq<char>>,
)
    requires
        e.cited().line < ls.len(),
        forall|k: int| 0 <= k < done.len() ==> comes_before(#[trigger] done[k], e),
        now == at_least_one(rows_rewritten(done, ls, 0)),
    ensures
        e.cited().line < now.len(),
        rows_edited(now, e) == at_least_one(rows_rewritten(done.push(e), ls, 0)),
{
    let n = e.cited().line as nat;
    let all = done.push(e);
    assert forall|k: int| 0 <= k < all.len() implies (#[trigger] all[k]).cited().line >= n by {
        if k < done.len() {
            assert(all[k] == done[k]);
        }
    }
    assert forall|k: int| 0 <= k < done.len() implies (#[trigger] done[k]).cited().line >= n by {
        assert(comes_before(done[k], e));
    }
    assert forall|k: int| 0 <= k < done.len() implies (#[trigger] done[k]).cited().line > n || (
    done[k].cited().line == n && done[k] is InsertAfter) by {
        assert(comes_before(done[k], e));
    }
    lemma_lines_before(done, ls, 0, n);
    lemma_lines_before(all, ls, 0, n);
    lemma_lines_behind(done, e, ls, n + 1);
    lemma_not_changed(done, n);
    assert(all.drop_last() =~= done);
    let front = ls.subrange(0, n as int);
    let more = inserted_after(done, n);
    let rest = rows_rewritten(done, ls, n + 1);
    let line = seq![ls[n as int]];
    assert(now =~= front + (line + more + rest));
    assert(now.take(n as int) =~= front);
    assert(now.take(n + 1int) =~= front + line);
    assert(now.skip(n + 1int) =~= more + rest);
    match e {
        HashlineEdit::Replace { text, .. } => {
            assert(rows_rewritten(all, ls, n) =~= rows(text@) + more + rest);
            assert(rows_edited(now, e) =~= front + (rows(text@) + more + rest));
            assert(rows(text@).len() > 0);
        },
        HashlineEdit::InsertAfter { text, .. } => {
            assert(inserted_after(all, n) == rows(text@) + more);
            assert(rows_rewritten(all, ls, n) =~= line + (rows(text@) + more) + rest);
            assert(rows_edited(now, e) =~= front + (line + (rows(text@) + more) + rest));
        },
        HashlineEdit::Delete { .. } => {
            assert(rows_rewritten(all, ls, n) =~= more + rest);
            assert(now.take(n as int) + now.skip(n + 1int) =~= front + (more + rest));
        },
    }
}

/// Edits in an order of application make of the lines of a text what they say.
proof fn lemma_order_applied(s: (Caret, Doc), order: Seq<HashlineEdit>)
    requires
        in_order(order),
        forall|i: int|
            0 <= i < order.len() ==> (#[trigger] order[i]).cited().line <= newlines(s.1.text),
    ensures
        rows(edited_all(s, order).1.text) == at_least_one(
            rows_rewritten(order, rows(s.1.text), 0),
        ),
    decreases order.len(),
{
    let ls = rows(s.1.text);
    if order.len() > 0 {
        let done = order.drop_last();
        let e = order.last();
        assert(done.push(e) =~= order);
        assert forall|i: int| 0 <= i < done.len() implies (#[trigger] done[i]).cited().line
            <= newlines(s.1.text) by {
            assert(done[i] == order[i]);
        }
        assert forall|k: int| 0 <= k < done.len() implies comes_before(#[trigger] done[k], e) by {
            assert(comes_before(order[k], order[order.len() - 1]));
        }
        assert(in_order(done)) by {
            assert forall|i: int, j: int| 0 <= i < j < done.len() implies comes_before(
                #[trigger] done[i],
                #[trigger] done[j],
            ) by {
                assert(comes_before(order[i], order[j]));
            }
        }
        lemma_order_applied(s, done);
        let t = edited_all(s, done).1.text;
        assert(e == order[order.len() - 1]);
        lemma_edit_rewrites(done, e, ls, rows(t));
        law_edit_changes_one_line(t, e);
        assert(edited_all(s, order).1.text == text_edited(t, e));
    } else {
        lemma_lines_before(order, ls, 0, ls.len());
        assert(ls.subrange(0, ls.len() as int) + Seq::<Seq<char>>::empty() =~= ls);
    }
}

/// A batch makes of every line what its edits of that line say, whatever order they were given in:
/// the line is replaced, deleted or kept, and what is inserted after it follows it.
pub proof fn law_batch_rewrites_lines(s: (Caret, Doc), edits: Seq<HashlineEdit>)
    requires
        forall|i: int|
            0 <= i < edits.len() ==> (#[trigger] edits[i]).cited().line <= newlines(s.1.text),
    ensures
        rows(edited_all(s, back_to_front(edits)).1.text) == at_least_one(
            rows_rewritten(edits, rows(s.1.text), 0),
        ),
{
    lemma_ordered(edits, newlines(s.1.text));
    lemma_order_applied(s, back_to_front(edits));
    lemma_order_rewrites(edits, rows(s.1.text), 0);
}

/// The edits of a batch are applied with the highest line first, and each finds its line as it was
/// read: none before it has replaced or deleted that line.
pub proof fn law_batch_goes_back_to_front(edits: Seq<HashlineEdit>)
    ensures
        in_order(back_to_front(edits)),
{
    lemma_ordered(edits, usize::MAX as nat);
}

/// Applies `edits` to the document through `buffer`, all of them or none. `checks` says of each
/// edit whether the tag that it cites is fresh. The first citation that is out of range or stale
/// rejects the whole batch, and nothing changes; otherwise the edits are applied back to front, each
/// to the line that it cites. Of several edits that replace or delete one line the last one counts.
pub fn apply(
    buffer: &mut Buffer,
    doc: &mut Document,
    edits: &[HashlineEdit],
    checks: &[TagCheck],
) -> (r: Result<(), HashlineError>)
    requires
        old(doc)@.wf(),
        checks@.len() == edits@.len(),
        all_pass(old(doc)@.text, edits@, checks@) ==> batch_room(old(doc)@, edits@),
    ensures
        r is Ok == all_pass(old(doc)@.text, edits@, checks@),
        match r {
            Ok(_) => (final(buffer).caret(), final(doc)@) == edited_all(
                (old(buffer).caret(), old(doc)@),
                back_to_front(edits@),
            ),
            Err(error) => {
                &&& final(buffer).caret() == old(buffer).caret()
                &&& final(doc)@ == old(doc)@
                &&& exists|i: int|
                    {
                        &&& 0 <= i < edits@.len()
                        &&& #[trigger] is_failure(old(doc)@.text, edits@[i], checks@[i], error)
                        &&& !passes(old(doc)@.text, edits@[i], checks@[i])
                        &&& forall|k: int|
                            0 <= k < i ==> passes(
                                old(doc)@.text,
                                #[trigger] edits@[k],
                                checks@[k],
                            )
                    }
            },
        },
        final(doc)@.wf(),
{
    let ghost t = doc@.text;
    let ghost s = (buffer.caret(), doc@);
    let last = crate::text::count_newlines(doc.chars());
    proof {
        crate::text::lemma_bytes_bound(t);
    }
    let mut i: usize = 0;
    while i < edits.len()
        invariant
            i <= edits@.len(),
            checks@.len() == edits@.len(),
            last == newlines(t),
            last < usize::MAX,
            t == doc@.text,
            doc@ == s.1,
            s == (old(buffer).caret(), old(doc)@),
            buffer.caret() == s.0,
            doc@.wf(),
            forall|k: int| 0 <= k < i ==> passes(t, #[trigger] edits@[k], checks@[k]),
        decreases edits@.len() - i,
    {
        let anchor = edits[i].anchor();
        if anchor.line > last {
            let error = HashlineError::OutOfRange { line: anchor.line, lines: last + 1 };
            assert(!passes(t, edits@[i as int], checks@[i as int]));
            assert(is_failure(t, edits@[i as int], checks@[i as int], error));
            return Err(error);
        }
        if !checks[i].fresh {
            let error = HashlineError::StaleTag {
                line: anchor.line,
                cited: anchor.tag.clone(),
                actual: checks[i].actual.clone(),
            };
            assert(!passes(t, edits@[i as int], checks@[i as int]));
            assert(is_failure(t, edits@[i as int], checks@[i as int], error));
            return Err(error);
        }
        i += 1;
    }
    assert forall|k: int| 0 <= k < edits@.len() implies (#[trigger] edits@[k]).cited().line
        <= newlines(t) by {
        assert(passes(t, edits@[k], checks@[k]));
    }
    let order = order_edits(edits);
    let ghost all = picked(edits@, order@);
    let mut i: usize = 0;
    proof {
        lemma_ordered(edits@, newlines(t));
        lemma_order_bytes(edits@);
        assert(all.take(0) =~= Seq::empty());
        assert(edited_all(s, all.take(0)) == s);
    }
    while i < order.len()
        invariant
            i <= order@.len(),
            t == s.1.text,
            all == picked(edits@, order@),
            in_order(all),
            forall|k: int| 0 <= k < order@.len() ==> (#[trigger] order@[k]) < edits@.len(),
            forall|k: int| 0 <= k < all.len() ==> (#[trigger] all[k]).cited().line <= newlines(t),
            doc@.wf(),
            byte_len(doc@.text) + batch_bytes(all) - batch_bytes(all.take(i as int)) < usize::MAX,
            doc@.revision + (order@.len() - i) <= u64::MAX,
            (buffer.caret(), doc@) == edited_all(s, all.take(i as int)),
        decreases order@.len() - i,
    {
        let edit = &edits[order[i]];
        proof {
            let done = all.take(i as int);
            assert(*edit == all[i as int]);
            assert(all.take(i + 1).drop_last() =~= done);
            assert(all.take(i + 1).last() == *edit);
            assert(in_order(done)) by {
                assert forall|a: int, b: int| 0 <= a < b < done.len() implies comes_before(
                    #[trigger] done[a],
                    #[trigger] done[b],
                ) by {
                    assert(comes_before(all[a], all[b]));
                }
            }
            assert forall|k: int| 0 <= k < done.len() implies comes_before(
                #[trigger] done[k],
                *edit,
            ) by {
                assert(comes_before(all[k], all[i as int]));
            }
            lemma_order_applied(s, done);
            lemma_edit_rewrites(done, *edit, rows(t), rows(doc@.text));
            lemma_batch_grows(all, i + 1);
            lemma_patch_bytes(doc@.text, *edit);
        }
        let p = resolve_edit(doc, edit);
        proof {
            let text = doc@.text;
            let from = index_at(text, p.start as nat);
            let to = index_at(text, p.end as nat);
            lemma_index_mono(text, p.start as nat, p.end as nat);
            lemma_index_bounds(text, p.start as nat);
            lemma_index_bounds(text, p.end as nat);
            lemma_splice_bytes(text, from, to, p.text@);
            lemma_offset_mono(text, from, to);
        }
        buffer.replace_range(doc, p.start, p.end, p.text.as_str());
        i += 1;
    }
    assert(all.take(i as int) =~= all);
    Ok(())
}

/// A batch with one stale or misplaced citation changes nothing, whatever its other edits are.
pub proof fn law_one_bad_citation_rejects(
    t: Seq<char>,
    edits: Seq<HashlineEdit>,
    checks: Seq<TagCheck>,
    i: int,
)
    requires
        0 <= i < edits.len(),
        edits[i].cited().line > newlines(t) || !checks[i].fresh,
    ensures
        !all_pass(t, edits, checks),
{
    assert(!passes(t, edits[i], checks[i]));
}

/// Replacing a line by its own text leaves the document's text as it is.
pub proof fn law_replace_by_itself(t: Seq<char>, edit: HashlineEdit)
    requires
        edit.cited().line <= newlines(t),
        edit matches HashlineEdit::Replace { text, .. } && text@ == line_of(
            t,
            edit.cited().line as nat,
        ),
    ensures
        ({
            let p = resolve(t, edit);
            splice(t, index_at(t, p.start), index_at(t, p.end), p.text) == t
        }),
{
    let i = row_start(t, edit.cited().line as nat);
    lemma_row_start_bounds(t, edit.cited().line as nat);
    lemma_line_end(t, i);
    let j = line_end(t, i);
    lemma_index_of_offset(t, i);
    lemma_index_of_offset(t, j);
    assert(splice(t, i, j, t.subrange(i, j)) =~= t);
}

} // verus!
