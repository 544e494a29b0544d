//! The editable [`Buffer`]: a view over a shared [`Document`].
//!
//! A buffer holds a cursor, a selection anchor and a goal column of its own; the text, its undo
//! history and its journal belong to the document, which every operation is handed. Several
//! buffers can view one document: edits and undo are then shared, while each view places its
//! cursor independently. A cursor that another view's edit left out of range, or inside a
//! character, is snapped back to a boundary whenever it is used.

use crate::document::{edit_of, Doc, Document, Edit};
use crate::text::{
    byte_len, chars_of, find_index, find_line_end, find_line_start, find_offset, find_row,
    find_row_start, index_at, is_boundary, lemma_byte_len_concat, lemma_index_bounds, lemma_index_mono,
    lemma_index_of_offset,
    lemma_line_end, lemma_line_start, lemma_offset_mono, lemma_row_mono, lemma_row_start_bounds,
    line_end, line_of, line_start, newlines, offset, row_at, row_start, slice_of, snap, splice,
    string_of,
};
use std::ops::Range;
use vstd::prelude::*;

verus! {

/// A position as a row and a byte column in it.
#[derive(Clone, Copy, Debug, PartialEq, Eq, Structural)]
pub struct Point {
    /// The row, from zero.
    pub row: usize,
    /// The byte column in the row, from zero.
    pub column: usize,
}

/// A view over a shared [`Document`]: a cursor, a selection and a goal column.
#[derive(Debug)]
pub struct Buffer {
    document: usize,
    cursor: usize,
    selection_anchor: Option<usize>,
    goal_column: Option<usize>,
    last_edit: Option<Edit>,
}

/// The state of a [`Buffer`].
pub struct Caret {
    /// Which document is viewed.
    pub document: nat,
    /// The byte offset of the cursor.
    pub cursor: nat,
    /// The byte offset of the other end of the selection, if one is active.
    pub anchor: Option<nat>,
    /// The column, in characters, that vertical motion tries to keep.
    pub goal: Option<nat>,
    /// The last edit made through this view, until it is taken.
    pub last_edit: Option<Edit>,
}

/// An optional number as a natural number.
pub open spec fn opt_nat(n: Option<usize>) -> Option<nat> {
    match n {
        Some(n) => Some(n as nat),
        None => None,
    }
}

impl Buffer {
    /// The state of the view.
    pub closed spec fn caret(self) -> Caret {
        Caret {
            document: self.document as nat,
            cursor: self.cursor as nat,
            anchor: opt_nat(self.selection_anchor),
            goal: opt_nat(self.goal_column),
            last_edit: self.last_edit,
        }
    }
}

/// Which side of a change at its own position an offset stays on.
#[derive(Clone, Copy, Debug, PartialEq, Eq, Structural)]
pub enum Bias {
    /// Text inserted at the offset goes behind it.
    Left,
    /// Text inserted at the offset goes before it.
    Right,
}

/// Where an offset ends up after an edit: before the edit it stays, behind it it moves with the
/// text, and inside the replaced text it goes to the side of the new text that its bias says.
pub open spec fn rebased(at: nat, bias: Bias, edit: Edit) -> nat {
    if at < edit.start || (at == edit.start && bias is Left) {
        at
    } else if at >= edit.start + edit.old_len {
        capped(at - edit.old_len + edit.new_len)
    } else if bias is Left {
        edit.start as nat
    } else {
        capped(edit.start + edit.new_len)
    }
}

/// An offset, or the largest one that the machine can count.
pub open spec fn capped(at: int) -> nat {
    if at <= usize::MAX {
        at as nat
    } else {
        usize::MAX as nat
    }
}

impl Caret {
    /// A first view of a document: the cursor at the start, nothing selected.
    pub open spec fn fresh(document: nat) -> Caret {
        Caret { document, cursor: 0, anchor: None, goal: None, last_edit: None }
    }

    /// The index of the character under the cursor.
    pub open spec fn at(self, t: Seq<char>) -> int {
        index_at(t, self.cursor)
    }

    /// The view with cursor and anchor snapped to boundaries of the text.
    pub open spec fn clamped(self, t: Seq<char>) -> Caret {
        Caret {
            cursor: snap(t, self.cursor),
            anchor: match self.anchor {
                Some(a) => Some(snap(t, a)),
                None => None,
            },
            ..self
        }
    }

    /// The selected characters as a range of indices, if any are selected.
    pub open spec fn selection(self, t: Seq<char>) -> Option<(int, int)> {
        match self.anchor {
            Some(a) => {
                let x = index_at(t, a);
                let y = self.at(t);
                if x < y {
                    Some((x, y))
                } else if y < x {
                    Some((y, x))
                } else {
                    None
                }
            },
            None => None,
        }
    }

    /// The column of the cursor, in characters.
    pub open spec fn column(self, t: Seq<char>) -> nat {
        (self.at(t) - line_start(t, self.at(t))) as nat
    }

    /// The row of the cursor.
    pub open spec fn row(self, t: Seq<char>) -> nat {
        row_at(t, self.at(t))
    }

    /// The view at the start of a motion that grows or drops the selection.
    pub open spec fn started(self, t: Seq<char>, extend: bool) -> Caret {
        let c = self.clamped(t);
        Caret {
            anchor: if !extend {
                None
            } else if c.anchor is None {
                Some(c.cursor)
            } else {
                c.anchor
            },
            ..c
        }
    }

    /// The view with the cursor before the character with index `i`.
    pub open spec fn put(self, t: Seq<char>, i: int) -> Caret {
        Caret { cursor: offset(t, i), goal: None, ..self }
    }

    /// The view moved one character left.
    pub open spec fn left(self, t: Seq<char>, extend: bool) -> Caret {
        let c = self.started(t, extend);
        c.put(
            t,
            if c.at(t) > 0 {
                c.at(t) - 1
            } else {
                c.at(t)
            },
        )
    }

    /// The view moved one character right.
    pub open spec fn right(self, t: Seq<char>, extend: bool) -> Caret {
        let c = self.started(t, extend);
        c.put(
            t,
            if c.at(t) < t.len() {
                c.at(t) + 1
            } else {
                c.at(t)
            },
        )
    }

    /// The view moved to a row, in the goal column if the row is long enough.
    pub open spec fn to_row(self, t: Seq<char>, row: nat) -> Caret {
        let goal = match self.goal {
            Some(g) => g,
            None => self.column(t),
        };
        let width = line_of(t, row).len();
        Caret {
            cursor: offset(
                t,
                row_start(t, row) + if goal < width {
                    goal
                } else {
                    width
                },
            ),
            goal: Some(goal),
            ..self
        }
    }

    /// The view moved up by `n` rows, or to the first one.
    pub open spec fn up(self, t: Seq<char>, n: nat, extend: bool) -> Caret {
        let c = self.started(t, extend);
        c.to_row(
            t,
            if c.row(t) < n {
                0
            } else {
                (c.row(t) - n) as nat
            },
        )
    }

    /// The view moved down by `n` rows, or to the last one.
    pub open spec fn down(self, t: Seq<char>, n: nat, extend: bool) -> Caret {
        let c = self.started(t, extend);
        c.to_row(
            t,
            if c.row(t) + n < newlines(t) {
                c.row(t) + n
            } else {
                newlines(t)
            },
        )
    }

    /// The view after an edit through it: the cursor behind the new text, nothing selected.
    pub open spec fn replacing(self, t: Seq<char>, i: int, j: int, ins: Seq<char>) -> Caret {
        Caret {
            cursor: offset(t, i) + byte_len(ins),
            anchor: None,
            goal: None,
            last_edit: Some(edit_of(t, i, j, ins)),
            ..self
        }
    }

    /// The characters that an insertion replaces: the selection, or none at the cursor.
    pub open spec fn target(self, t: Seq<char>) -> (int, int) {
        match self.selection(t) {
            Some(range) => range,
            None => (self.at(t), self.at(t)),
        }
    }

    /// The characters that Backspace removes.
    pub open spec fn before(self, t: Seq<char>) -> (int, int) {
        match self.selection(t) {
            Some(range) => range,
            None => if self.at(t) > 0 {
                (self.at(t) - 1, self.at(t))
            } else {
                (self.at(t), self.at(t))
            },
        }
    }

    /// The characters that Delete removes.
    pub open spec fn behind(self, t: Seq<char>) -> (int, int) {
        match self.selection(t) {
            Some(range) => range,
            None => if self.at(t) < t.len() {
                (self.at(t), self.at(t) + 1)
            } else {
                (self.at(t), self.at(t))
            },
        }
    }

    /// The characters that killing a line removes: up to the end of the line, or the line break.
    pub open spec fn rest_of_line(self, t: Seq<char>) -> (int, int) {
        let i = self.at(t);
        if i < line_end(t, i) {
            (i, line_end(t, i))
        } else if i < t.len() {
            (i, i + 1)
        } else {
            (i, i)
        }
    }

    /// The view after the history moved under it.
    pub open spec fn resettled(self, t: Seq<char>) -> Caret {
        Caret { cursor: snap(t, self.cursor), anchor: None, goal: None, ..self }
    }

    /// The view after an edit that another view of the document made.
    pub open spec fn shifted(self, edit: Edit) -> Caret {
        Caret {
            cursor: rebased(self.cursor, Bias::Right, edit),
            anchor: match self.anchor {
                Some(a) => Some(rebased(a, Bias::Left, edit)),
                None => None,
            },
            ..self
        }
    }
}

/// The view and the document after the view replaced a range of characters.
pub open spec fn replaced(c: Caret, d: Doc, range: (int, int), ins: Seq<char>) -> (Caret, Doc) {
    (c.replacing(d.text, range.0, range.1, ins), d.edited(range.0, range.1, ins))
}

/// The view and the document after the view removed a range of characters; an empty range
/// leaves both as they are.
pub open spec fn removed(c: Caret, d: Doc, range: (int, int)) -> (Caret, Doc) {
    if range.0 < range.1 {
        replaced(c, d, range, Seq::empty())
    } else {
        (c, d)
    }
}

/// The view and the document after inserting `ins` at the cursor or over the selection.
pub open spec fn inserted(c: Caret, d: Doc, ins: Seq<char>) -> (Caret, Doc) {
    let k = c.clamped(d.text);
    replaced(k, d, k.target(d.text), ins)
}

/// The view and the document after Backspace.
pub open spec fn backspaced(c: Caret, d: Doc) -> (Caret, Doc) {
    let k = c.clamped(d.text);
    removed(k, d, k.before(d.text))
}

/// The view and the document after Delete.
pub open spec fn deleted(c: Caret, d: Doc) -> (Caret, Doc) {
    let k = c.clamped(d.text);
    removed(k, d, k.behind(d.text))
}

/// The view and the document after killing the rest of the line.
pub open spec fn line_killed(c: Caret, d: Doc) -> (Caret, Doc) {
    let k = c.clamped(d.text);
    removed(k, d, k.rest_of_line(d.text))
}

/// The view and the document after deleting the selection, if there is one.
pub open spec fn selection_deleted(c: Caret, d: Doc) -> (Caret, Doc) {
    match c.selection(d.text) {
        Some(range) => replaced(c, d, range, Seq::empty()),
        None => (c, d),
    }
}

/// The view and the document after an undo through the view.
pub open spec fn undone_through(c: Caret, d: Doc) -> (Caret, Doc) {
    if d.past.len() > 0 {
        (c.resettled(d.undone().text), d.undone())
    } else {
        (c, d)
    }
}

/// The view and the document after a redo through the view.
pub open spec fn redone_through(c: Caret, d: Doc) -> (Caret, Doc) {
    if d.future.len() > 0 {
        (c.resettled(d.redone().text), d.redone())
    } else {
        (c, d)
    }
}

/// Facts about the cursor that every operation uses.
proof fn lemma_clamped(c: Caret, t: Seq<char>)
    ensures
        0 <= c.at(t) <= t.len(),
        c.clamped(t).at(t) == c.at(t),
        c.clamped(t).cursor == offset(t, c.at(t)),
        c.clamped(t).selection(t) == c.selection(t),
        c.started(t, true).at(t) == c.at(t),
        c.started(t, false).at(t) == c.at(t),
        match c.selection(t) {
            Some((lo, hi)) => 0 <= lo < hi <= t.len(),
            None => true,
        },
{
    lemma_index_bounds(t, c.cursor);
    lemma_index_of_offset(t, c.at(t));
    if let Some(a) = c.anchor {
        lemma_index_bounds(t, a);
        lemma_index_of_offset(t, index_at(t, a));
    }
}

impl Buffer {
    /// A first view of the document numbered `document`.
    pub fn over(document: usize) -> (r: Self)
        ensures
            r.caret() == Caret::fresh(document as nat),
    {
        Buffer { document, cursor: 0, selection_anchor: None, goal_column: None, last_edit: None }
    }

    /// Makes this a view of the document numbered `document`, at the same place.
    pub(crate) fn set_document_id(&mut self, document: usize)
        ensures
            final(self).caret() == (Caret { document: document as nat, ..old(self).caret() }),
    {
        self.document = document;
    }

    /// Creates an empty, unnamed document with a first view of it.
    pub fn scratch() -> (r: (Document, Self))
        ensures
            r.0@ == Doc::fresh(Seq::empty(), None),
            r.0@.wf(),
            r.1.caret() == Caret::fresh(0),
    {
        proof {
            reveal_strlit("");
            assert(""@ =~= Seq::empty());
        }
        (Document::new("", None), Buffer::over(0))
    }

    /// Creates an unnamed document that holds `text`, with a first view of it.
    pub fn from_text(text: &str) -> (r: (Document, Self))
        requires
            byte_len(text@) < usize::MAX,
        ensures
            r.0@ == Doc::fresh(text@, None),
            r.0@.wf(),
            r.1.caret() == Caret::fresh(0),
    {
        (Document::new(text, None), Buffer::over(0))
    }

    /// A second view of the same document, with its cursor at the start and no selection.
    pub fn view(&self) -> (r: Self)
        ensures
            r.caret() == Caret::fresh(self.caret().document),
    {
        Buffer::over(self.document)
    }

    /// Which document is viewed: equal for all views of one document.
    pub fn document_id(&self) -> (r: usize)
        ensures
            r == self.caret().document,
    {
        self.document
    }

    /// Takes the edit that was last made through this view, for the host to pass on to the other
    /// views of the document.
    pub fn take_last_edit(&mut self) -> (r: Option<Edit>)
        ensures
            r == old(self).caret().last_edit,
            final(self).caret() == (Caret { last_edit: None, ..old(self).caret() }),
    {
        self.last_edit.take()
    }

    /// Moves cursor and selection with the text across an edit that another view made.
    pub fn shift_cursor(&mut self, edit: &Edit)
        ensures
            final(self).caret() == old(self).caret().shifted(*edit),
    {
        self.cursor = rebase(self.cursor, Bias::Right, edit);
        if let Some(anchor) = self.selection_anchor {
            self.selection_anchor = Some(rebase(anchor, Bias::Left, edit));
        }
    }

    /// The cursor's byte offset, snapped to a boundary of the current text.
    pub fn cursor(&self, doc: &Document) -> (r: usize)
        requires
            doc@.wf(),
        ensures
            r == snap(doc@.text, self.caret().cursor),
            is_boundary(doc@.text, r as nat),
            r <= byte_len(doc@.text),
    {
        proof {
            lemma_index_bounds(doc@.text, self.caret().cursor);
        }
        find_offset(doc.chars(), find_index(doc.chars(), self.cursor))
    }

    /// Moves the cursor to `at`, snapped to a boundary, and drops any selection.
    pub fn set_cursor(&mut self, doc: &Document, at: usize)
        requires
            doc@.wf(),
        ensures
            final(self).caret() == (Caret {
                cursor: snap(doc@.text, at as nat),
                anchor: None,
                goal: None,
                ..old(self).caret()
            }),
    {
        proof {
            lemma_index_bounds(doc@.text, at as nat);
        }
        self.cursor = find_offset(doc.chars(), find_index(doc.chars(), at));
        self.selection_anchor = None;
        self.goal_column = None;
    }

    /// The cursor's row and byte column.
    pub fn cursor_point(&self, doc: &Document) -> (r: Point)
        requires
            doc@.wf(),
        ensures
            r.row == self.caret().row(doc@.text),
            r.column == offset(doc@.text, self.caret().at(doc@.text)) - offset(
                doc@.text,
                line_start(doc@.text, self.caret().at(doc@.text)),
            ),
    {
        let t = doc.chars();
        let i = find_index(t, self.cursor);
        let start = find_line_start(t, i);
        proof {
            lemma_line_start(t@, i as int);
            lemma_offset_mono(t@, start as int, i as int);
        }
        Point { row: find_row(t, i), column: find_offset(t, i) - find_offset(t, start) }
    }

    /// The cursor's column, in characters from the start of its line.
    pub fn cursor_column(&self, doc: &Document) -> (r: usize)
        requires
            doc@.wf(),
        ensures
            r == self.caret().column(doc@.text),
    {
        let i = find_index(doc.chars(), self.cursor);
        i - find_line_start(doc.chars(), i)
    }

    /// The selected characters as a range of indices.
    fn selected(&self, t: &[char]) -> (r: Option<(usize, usize)>)
        ensures
            match self.caret().selection(t@) {
                Some((lo, hi)) => r matches Some(p) && p.0 == lo && p.1 == hi,
                None => r is None,
            },
    {
        match self.selection_anchor {
            Some(anchor) => {
                let x = find_index(t, anchor);
                let y = find_index(t, self.cursor);
                if x < y {
                    Some((x, y))
                } else if y < x {
                    Some((y, x))
                } else {
                    None
                }
            },
            None => None,
        }
    }

    /// The selected byte range, if a non-empty selection is active.
    pub fn selection(&self, doc: &Document) -> (r: Option<Range<usize>>)
        requires
            doc@.wf(),
        ensures
            match self.caret().selection(doc@.text) {
                Some((lo, hi)) => r is Some && r->0.start == offset(doc@.text, lo) && r->0.end
                    == offset(doc@.text, hi) && r->0.start < r->0.end,
                None => r is None,
            },
    {
        let t = doc.chars();
        proof {
            lemma_clamped(self.caret(), t@);
        }
        match self.selected(t) {
            Some((lo, hi)) => {
                proof {
                    lemma_offset_mono(t@, lo as int, hi as int);
                }
                Some(Range { start: find_offset(t, lo), end: find_offset(t, hi) })
            },
            None => None,
        }
    }

    /// The selected text, if any.
    pub fn selected_text(&self, doc: &Document) -> (r: Option<String>)
        requires
            doc@.wf(),
        ensures
            match self.caret().selection(doc@.text) {
                Some((lo, hi)) => r is Some && r->0@ == doc@.text.subrange(lo, hi),
                None => r is None,
            },
    {
        let t = doc.chars();
        proof {
            lemma_clamped(self.caret(), t@);
        }
        match self.selected(t) {
            Some((lo, hi)) => Some(string_of(slice_of(t, lo, hi).as_slice())),
            None => None,
        }
    }

    /// Replaces the characters from index `i` up to `j` by `ins`.
    fn replace(&mut self, doc: &mut Document, i: usize, j: usize, ins: &[char])
        requires
            old(doc)@.wf(),
            old(doc)@.room(byte_len(ins@)),
            i <= j <= old(doc)@.text.len(),
        ensures
            (final(self).caret(), final(doc)@) == replaced(
                old(self).caret(),
                old(doc)@,
                (i as int, j as int),
                ins@,
            ),
            final(doc)@.wf(),
    {
        proof {
            lemma_offset_mono(doc@.text, i as int, j as int);
        }
        let edit = doc.apply_edit(i, j, ins);
        self.last_edit = Some(edit);
        self.cursor = edit.start + edit.new_len;
        self.selection_anchor = None;
        self.goal_column = None;
    }

    /// Removes the characters from index `i` up to `j`, if there are any.
    fn remove(&mut self, doc: &mut Document, i: usize, j: usize)
        requires
            old(doc)@.wf(),
            old(doc)@.room(0),
            i <= j <= old(doc)@.text.len(),
        ensures
            (final(self).caret(), final(doc)@) == removed(old(self).caret(), old(doc)@, (i as int, j as int)),
            final(doc)@.wf(),
    {
        if i < j {
            let nothing: Vec<char> = Vec::new();
            assert(nothing@ =~= Seq::empty());
            self.replace(doc, i, j, nothing.as_slice());
        }
    }

    /// Replaces the text between the byte offsets `start` and `end` by `text`.
    pub fn replace_range(&mut self, doc: &mut Document, start: usize, end: usize, text: &str)
        requires
            old(doc)@.wf(),
            old(doc)@.room(byte_len(text@)),
            start <= end,
        ensures
            (final(self).caret(), final(doc)@) == replaced(
                old(self).caret(),
                old(doc)@,
                (
                    index_at(old(doc)@.text, start as nat),
                    index_at(old(doc)@.text, end as nat),
                ),
                text@,
            ),
            final(doc)@.wf(),
    {
        let i = find_index(doc.chars(), start);
        let j = find_index(doc.chars(), end);
        proof {
            lemma_index_mono(doc@.text, start as nat, end as nat);
            lemma_index_bounds(doc@.text, end as nat);
        }
        let ins = chars_of(text);
        self.replace(doc, i, j, ins.as_slice());
    }

    /// Inserts `text` at the cursor, replacing the selection if one is active.
    pub fn insert(&mut self, doc: &mut Document, text: &str)
        requires
            old(doc)@.wf(),
            old(doc)@.room(byte_len(text@)),
        ensures
            (final(self).caret(), final(doc)@) == inserted(old(self).caret(), old(doc)@, text@),
            final(doc)@.wf(),
    {
        self.clamp(doc);
        proof {
            lemma_clamped(self.caret(), doc@.text);
        }
        let ins = chars_of(text);
        match self.selected(doc.chars()) {
            Some((lo, hi)) => self.replace(doc, lo, hi, ins.as_slice()),
            None => {
                let i = find_index(doc.chars(), self.cursor);
                self.replace(doc, i, i, ins.as_slice())
            },
        }
    }

    /// Inserts a single character.
    pub fn insert_char(&mut self, doc: &mut Document, ch: char)
        requires
            old(doc)@.wf(),
            old(doc)@.room(byte_len(seq![ch])),
        ensures
            (final(self).caret(), final(doc)@) == inserted(old(self).caret(), old(doc)@, seq![ch]),
            final(doc)@.wf(),
    {
        let mut text = String::new();
        text.push(ch);
        assert(text@ =~= seq![ch]);
        self.insert(doc, text.as_str());
    }

    /// Deletes the selection, or the character before the cursor.
    pub fn backspace(&mut self, doc: &mut Document)
        requires
            old(doc)@.wf(),
            old(doc)@.room(0),
        ensures
            (final(self).caret(), final(doc)@) == backspaced(old(self).caret(), old(doc)@),
            final(doc)@.wf(),
    {
        self.clamp(doc);
        proof {
            lemma_clamped(self.caret(), doc@.text);
        }
        match self.selected(doc.chars()) {
            Some((lo, hi)) => self.remove(doc, lo, hi),
            None => {
                let i = find_index(doc.chars(), self.cursor);
                if i > 0 {
                    self.remove(doc, i - 1, i);
                }
            },
        }
    }

    /// Deletes the selection, or the character at the cursor.
    pub fn delete_forward(&mut self, doc: &mut Document)
        requires
            old(doc)@.wf(),
            old(doc)@.room(0),
        ensures
            (final(self).caret(), final(doc)@) == deleted(old(self).caret(), old(doc)@),
            final(doc)@.wf(),
    {
        self.clamp(doc);
        proof {
            lemma_clamped(self.caret(), doc@.text);
        }
        match self.selected(doc.chars()) {
            Some((lo, hi)) => self.remove(doc, lo, hi),
            None => {
                let i = find_index(doc.chars(), self.cursor);
                if i < doc.chars().len() {
                    self.remove(doc, i, i + 1);
                }
            },
        }
    }

    /// Deletes the active selection if any; says whether anything was removed.
    pub fn delete_selection(&mut self, doc: &mut Document) -> (r: bool)
        requires
            old(doc)@.wf(),
            old(doc)@.room(0),
        ensures
            (final(self).caret(), final(doc)@) == selection_deleted(old(self).caret(), old(doc)@),
            r == (old(self).caret().selection(old(doc)@.text) is Some),
            final(doc)@.wf(),
    {
        proof {
            lemma_clamped(self.caret(), doc@.text);
        }
        match self.selected(doc.chars()) {
            Some((lo, hi)) => {
                self.remove(doc, lo, hi);
                true
            },
            None => false,
        }
    }

    /// Selects the whole text.
    pub fn select_all(&mut self, doc: &Document)
        requires
            doc@.wf(),
        ensures
            final(self).caret() == (Caret {
                cursor: byte_len(doc@.text),
                anchor: Some(0),
                goal: None,
                ..old(self).caret()
            }),
    {
        self.selection_anchor = Some(0);
        self.cursor = doc.len_bytes();
        self.goal_column = None;
    }

    /// Kills the text from the cursor to the end of its line, or the line break if the cursor is
    /// already there, and returns it. An empty text means that there was nothing to kill.
    pub fn kill_line(&mut self, doc: &mut Document) -> (r: String)
        requires
            old(doc)@.wf(),
            old(doc)@.room(0),
        ensures
            (final(self).caret(), final(doc)@) == line_killed(old(self).caret(), old(doc)@),
            ({
                let range = old(self).caret().rest_of_line(old(doc)@.text);
                r@ == old(doc)@.text.subrange(range.0, range.1)
            }),
            final(doc)@.wf(),
    {
        proof {
            lemma_clamped(self.caret(), doc@.text);
        }
        self.clamp(doc);
        let i = find_index(doc.chars(), self.cursor);
        let end = find_line_end(doc.chars(), i);
        let j: usize = if i < end {
            end
        } else if i < doc.chars().len() {
            i + 1
        } else {
            i
        };
        let killed = string_of(slice_of(doc.chars(), i, j).as_slice());
        self.remove(doc, i, j);
        killed
    }

    /// Undoes the last edit, if any; says whether the text changed hands.
    pub fn undo(&mut self, doc: &mut Document) -> (r: bool)
        requires
            old(doc)@.wf(),
            old(doc)@.room(0),
        ensures
            (final(self).caret(), final(doc)@) == undone_through(old(self).caret(), old(doc)@),
            r == (old(doc)@.past.len() > 0),
            final(doc)@.wf(),
    {
        if doc.undo() {
            self.resettle(doc);
            true
        } else {
            false
        }
    }

    /// Redoes the edit that was undone last, if any; says whether the text changed hands.
    pub fn redo(&mut self, doc: &mut Document) -> (r: bool)
        requires
            old(doc)@.wf(),
            old(doc)@.room(0),
        ensures
            (final(self).caret(), final(doc)@) == redone_through(old(self).caret(), old(doc)@),
            r == (old(doc)@.future.len() > 0),
            final(doc)@.wf(),
    {
        if doc.redo() {
            self.resettle(doc);
            true
        } else {
            false
        }
    }

    /// Moves the cursor one character left.
    pub fn move_left(&mut self, doc: &Document, extend: bool)
        requires
            doc@.wf(),
        ensures
            final(self).caret() == old(self).caret().left(doc@.text, extend),
    {
        self.start_motion(doc, extend);
        proof {
            lemma_clamped(self.caret(), doc@.text);
        }
        let i = find_index(doc.chars(), self.cursor);
        if i > 0 {
            self.put(doc, i - 1);
        } else {
            self.put(doc, i);
        }
    }

    /// Moves the cursor one character right.
    pub fn move_right(&mut self, doc: &Document, extend: bool)
        requires
            doc@.wf(),
        ensures
            final(self).caret() == old(self).caret().right(doc@.text, extend),
    {
        self.start_motion(doc, extend);
        proof {
            lemma_clamped(self.caret(), doc@.text);
        }
        let i = find_index(doc.chars(), self.cursor);
        if i < doc.chars().len() {
            self.put(doc, i + 1);
        } else {
            self.put(doc, i);
        }
    }

    /// Moves the cursor up one line, keeping the goal column. On the first line it stays.
    pub fn move_up(&mut self, doc: &Document, extend: bool)
        requires
            doc@.wf(),
        ensures
            final(self).caret() == if old(self).caret().row(doc@.text) > 0 {
                old(self).caret().up(doc@.text, 1, extend)
            } else {
                old(self).caret().started(doc@.text, extend)
            },
    {
        proof {
            lemma_clamped(self.caret(), doc@.text);
        }
        self.start_motion(doc, extend);
        let row = self.row(doc);
        if row > 0 {
            self.move_to_row(doc, row - 1);
        }
    }

    /// Moves the cursor down one line, keeping the goal column. On the last line it stays.
    pub fn move_down(&mut self, doc: &Document, extend: bool)
        requires
            doc@.wf(),
        ensures
            final(self).caret() == if old(self).caret().row(doc@.text) < newlines(doc@.text) {
                old(self).caret().down(doc@.text, 1, extend)
            } else {
                old(self).caret().started(doc@.text, extend)
            },
    {
        proof {
            lemma_clamped(self.caret(), doc@.text);
        }
        self.start_motion(doc, extend);
        let row = self.row(doc);
        if row < crate::text::count_newlines(doc.chars()) {
            self.move_to_row(doc, row + 1);
        }
    }

    /// Moves the cursor to the start of its line.
    pub fn move_line_start(&mut self, doc: &Document, extend: bool)
        requires
            doc@.wf(),
        ensures
            final(self).caret() == old(self).caret().started(doc@.text, extend).put(
                doc@.text,
                line_start(doc@.text, old(self).caret().at(doc@.text)),
            ),
    {
        proof {
            lemma_clamped(self.caret(), doc@.text);
        }
        self.start_motion(doc, extend);
        let i = find_index(doc.chars(), self.cursor);
        let start = find_line_start(doc.chars(), i);
        self.put(doc, start);
    }

    /// Moves the cursor to the end of its line.
    pub fn move_line_end(&mut self, doc: &Document, extend: bool)
        requires
            doc@.wf(),
        ensures
            final(self).caret() == old(self).caret().started(doc@.text, extend).put(
                doc@.text,
                line_end(doc@.text, old(self).caret().at(doc@.text)),
            ),
    {
        proof {
            lemma_clamped(self.caret(), doc@.text);
        }
        self.start_motion(doc, extend);
        let i = find_index(doc.chars(), self.cursor);
        let end = find_line_end(doc.chars(), i);
        self.put(doc, end);
    }

    /// Moves the cursor up to `rows` lines up, at least one, keeping the goal column.
    pub fn move_page_up(&mut self, doc: &Document, rows: usize, extend: bool)
        requires
            doc@.wf(),
        ensures
            final(self).caret() == old(self).caret().up(
                doc@.text,
                if rows == 0 {
                    1
                } else {
                    rows as nat
                },
                extend,
            ),
    {
        proof {
            lemma_clamped(self.caret(), doc@.text);
        }
        self.start_motion(doc, extend);
        let row = self.row(doc);
        let by: usize = if rows == 0 {
            1
        } else {
            rows
        };
        if row < by {
            self.move_to_row(doc, 0);
        } else {
            self.move_to_row(doc, row - by);
        }
    }

    /// Moves the cursor up to `rows` lines down, at least one, keeping the goal column.
    pub fn move_page_down(&mut self, doc: &Document, rows: usize, extend: bool)
        requires
            doc@.wf(),
        ensures
            final(self).caret() == old(self).caret().down(
                doc@.text,
                if rows == 0 {
                    1
                } else {
                    rows as nat
                },
                extend,
            ),
    {
        proof {
            lemma_clamped(self.caret(), doc@.text);
        }
        self.start_motion(doc, extend);
        let row = self.row(doc);
        let by: usize = if rows == 0 {
            1
        } else {
            rows
        };
        let last = crate::text::count_newlines(doc.chars());
        if by < last - row {
            self.move_to_row(doc, row + by);
        } else {
            self.move_to_row(doc, last);
        }
    }

    /// The row of the cursor.
    fn row(&self, doc: &Document) -> (r: usize)
        ensures
            r == self.caret().row(doc@.text),
            r <= newlines(doc@.text),
    {
        let i = find_index(doc.chars(), self.cursor);
        proof {
            lemma_row_mono(doc@.text, i as int, i as int);
        }
        find_row(doc.chars(), i)
    }

    /// Puts the cursor before the character with index `i`.
    fn put(&mut self, doc: &Document, i: usize)
        requires
            doc@.wf(),
            i <= doc@.text.len(),
        ensures
            final(self).caret() == old(self).caret().put(doc@.text, i as int),
    {
        self.cursor = find_offset(doc.chars(), i);
        self.goal_column = None;
    }

    fn resettle(&mut self, doc: &Document)
        requires
            doc@.wf(),
        ensures
            final(self).caret() == old(self).caret().resettled(doc@.text),
    {
        self.cursor = self.cursor(doc);
        self.selection_anchor = None;
        self.goal_column = None;
    }

    fn start_motion(&mut self, doc: &Document, extend: bool)
        requires
            doc@.wf(),
        ensures
            final(self).caret() == old(self).caret().started(doc@.text, extend),
            final(self).caret().at(doc@.text) == old(self).caret().at(doc@.text),
    {
        proof {
            lemma_clamped(self.caret(), doc@.text);
        }
        self.clamp(doc);
        if extend {
            if self.selection_anchor.is_none() {
                self.selection_anchor = Some(self.cursor);
            }
        } else {
            self.selection_anchor = None;
        }
    }

    /// Snaps the cursor and the selection anchor to boundaries of the text.
    fn clamp(&mut self, doc: &Document)
        requires
            doc@.wf(),
        ensures
            final(self).caret() == old(self).caret().clamped(doc@.text),
    {
        self.cursor = self.cursor(doc);
        if let Some(anchor) = self.selection_anchor {
            proof {
                lemma_index_bounds(doc@.text, anchor as nat);
            }
            let i = find_index(doc.chars(), anchor);
            self.selection_anchor = Some(find_offset(doc.chars(), i));
        }
    }

    /// Moves to a row, keeping the goal column.
    fn move_to_row(&mut self, doc: &Document, row: usize)
        requires
            doc@.wf(),
            row <= newlines(doc@.text),
        ensures
            final(self).caret() == old(self).caret().to_row(doc@.text, row as nat),
    {
        let goal: usize = match self.goal_column {
            Some(goal) => goal,
            None => self.cursor_column(doc),
        };
        let start = find_row_start(doc.chars(), row);
        let end = find_line_end(doc.chars(), start);
        let width: usize = end - start;
        let column: usize = if goal < width {
            goal
        } else {
            width
        };
        self.cursor = find_offset(doc.chars(), start + column);
        self.goal_column = Some(goal);
    }
}

/// Where the offset `at` ends up after `edit`.
fn rebase(at: usize, bias: Bias, edit: &Edit) -> (r: usize)
    ensures
        r == rebased(at as nat, bias, *edit),
{
    if at < edit.start || (at == edit.start && bias == Bias::Left) {
        at
    } else if at - edit.start >= edit.old_len {
        (at - edit.old_len).saturating_add(edit.new_len)
    } else if bias == Bias::Left {
        edit.start
    } else {
        edit.start.saturating_add(edit.new_len)
    }
}

/// A cursor that is used always lies on a boundary within the text, whatever other views did to
/// the document.
pub proof fn law_cursor_on_boundary(c: Caret, t: Seq<char>)
    ensures
        is_boundary(t, snap(t, c.cursor)),
        snap(t, c.cursor) <= byte_len(t),
        snap(t, c.cursor) <= c.cursor,
{
    lemma_index_bounds(t, c.cursor);
}

/// Behind an insertion at or before it, a cursor in another view keeps its distance to the text
/// that followed it.
pub proof fn law_sibling_tracks_insertion(c: Caret, t: Seq<char>, i: int, ins: Seq<char>)
    requires
        0 <= i <= t.len(),
        byte_len(t) + byte_len(ins) < usize::MAX,
        offset(t, i) <= c.cursor <= byte_len(t),
    ensures
        c.shifted(edit_of(t, i, i, ins)).cursor == c.cursor + byte_len(ins),
{
    lemma_offset_mono(t, i, i);
}

/// An edit behind a cursor in another view leaves that cursor where it is.
pub proof fn law_sibling_before_edit_stays(c: Caret, t: Seq<char>, i: int, j: int, ins: Seq<char>)
    requires
        0 <= i <= j <= t.len(),
        byte_len(t) + byte_len(ins) < usize::MAX,
        c.cursor < offset(t, i),
    ensures
        c.shifted(edit_of(t, i, j, ins)).cursor == c.cursor,
{
    lemma_offset_mono(t, i, j);
}

/// Inserting over a selection puts the new text in its place and leaves nothing selected.
pub proof fn law_insert_replaces_selection(c: Caret, d: Doc, ins: Seq<char>)
    requires
        c.selection(d.text) is Some,
    ensures
        ({
            let (lo, hi) = c.selection(d.text)->0;
            inserted(c, d, ins).1.text == splice(d.text, lo, hi, ins)
        }),
        inserted(c, d, ins).0.anchor is None,
{
    lemma_clamped(c, d.text);
}

proof fn lemma_row_within(t: Seq<char>, row: nat, k: int)
    requires
        row <= newlines(t),
        0 <= k <= line_of(t, row).len(),
    ensures
        row_start(t, row) + k <= t.len(),
        row_at(t, row_start(t, row) + k) == row,
        line_start(t, row_start(t, row) + k) == row_start(t, row),
    decreases k,
{
    lemma_row_start_bounds(t, row);
    let i = row_start(t, row);
    lemma_line_end(t, i);
    if k > 0 {
        lemma_row_within(t, row, k - 1);
        crate::text::lemma_row_step(t, i + k - 1);
    }
}

/// Vertical motion keeps the column: one line down and one line up again ends where it began,
/// however short the line between is.
pub proof fn law_down_then_up(c: Caret, t: Seq<char>)
    requires
        c.goal is None,
        c.row(t) < newlines(t),
    ensures
        c.down(t, 1, false).up(t, 1, false).cursor == snap(t, c.cursor),
{
    lemma_clamped(c, t);
    let i = c.at(t);
    let row = c.row(t);
    lemma_line_start(t, i);
    let column = i - line_start(t, i);
    let width = line_of(t, row + 1).len();
    let k = if column < width {
        column
    } else {
        width as int
    };
    let there = row_start(t, row + 1) + k;
    lemma_row_start_bounds(t, row + 1);
    lemma_line_end(t, row_start(t, row + 1));
    lemma_row_within(t, row + 1, k);
    let d = c.down(t, 1, false);
    assert(d.cursor == offset(t, there));
    lemma_index_of_offset(t, there);
    lemma_clamped(d, t);
    lemma_row_start_bounds(t, row);
    lemma_line_end(t, i);
    lemma_same_line_end(t, row_start(t, row), i);
}

proof fn lemma_same_line_end(t: Seq<char>, a: int, b: int)
    requires
        0 <= a <= b <= t.len(),
        forall|k: int| a <= k < b ==> t[k] != '\n',
    ensures
        line_end(t, a) == line_end(t, b),
    decreases b - a,
{
    if a < b {
        lemma_same_line_end(t, a + 1, b);
    }
}

/// Whether the cursor of a view stands before the character with index `i`, and nothing is selected.
pub open spec fn rests_at(c: Caret, t: Seq<char>, i: int) -> bool {
    &&& 0 <= i <= t.len()
    &&& c.cursor == offset(t, i)
    &&& c.anchor is None || c.anchor == Some(c.cursor)
}

/// Whether the characters from `lo` up to `hi` are selected: the cursor stands at one end of them,
/// the other end of the selection at the other.
pub open spec fn has_selected(c: Caret, t: Seq<char>, lo: int, hi: int) -> bool {
    &&& 0 <= lo < hi <= t.len()
    &&& {
        ||| c.cursor == offset(t, lo) && c.anchor == Some(offset(t, hi))
        ||| c.cursor == offset(t, hi) && c.anchor == Some(offset(t, lo))
    }
}

/// What is selected is the selection.
pub proof fn lemma_has_selected(c: Caret, t: Seq<char>, lo: int, hi: int)
    requires
        has_selected(c, t, lo, hi),
    ensures
        c.selection(t) == Some((lo, hi)),
        c.clamped(t) == c,
{
    lemma_index_of_offset(t, lo);
    lemma_index_of_offset(t, hi);
}

/// Where the cursor stands is its index, and there is no selection.
pub proof fn lemma_rests_at(c: Caret, t: Seq<char>, i: int)
    requires
        rests_at(c, t, i),
    ensures
        c.selection(t) is None,
        c.at(t) == i,
        c.clamped(t) == c,
{
    lemma_index_of_offset(t, i);
}

/// With a selection, Delete, Backspace and the deletion of a selection all take exactly the selected
/// characters away, put the cursor where they stood and leave nothing selected. Typed or pasted text
/// takes their place. It is one step to undo.
pub proof fn law_selection_is_what_goes(c: Caret, d: Doc, lo: int, hi: int, ins: Seq<char>)
    requires
        has_selected(c, d.text, lo, hi),
    ensures
        ({
            let t = d.text;
            let left = t.take(lo) + t.skip(hi);
            &&& deleted(c, d).1.text == left
            &&& backspaced(c, d).1.text == left
            &&& selection_deleted(c, d).1.text == left
            &&& inserted(c, d, ins).1.text == t.take(lo) + ins + t.skip(hi)
            &&& rests_at(deleted(c, d).0, left, lo)
            &&& rests_at(backspaced(c, d).0, left, lo)
            &&& rests_at(selection_deleted(c, d).0, left, lo)
            &&& rests_at(inserted(c, d, ins).0, inserted(c, d, ins).1.text, lo + ins.len())
            &&& deleted(c, d).1.past == d.past.push(t)
            &&& backspaced(c, d).1.past == d.past.push(t)
            &&& selection_deleted(c, d).1.past == d.past.push(t)
            &&& inserted(c, d, ins).1.past == d.past.push(t)
        }),
{
    let t = d.text;
    lemma_has_selected(c, t, lo, hi);
    let none = Seq::<char>::empty();
    assert(splice(t, lo, hi, none) =~= t.take(lo) + t.skip(hi));
    let left = t.take(lo) + t.skip(hi);
    assert(left.take(lo) =~= t.take(lo));
    let with = t.take(lo) + ins + t.skip(hi);
    assert(splice(t, lo, hi, ins) =~= with);
    assert(with.take(lo + ins.len()) =~= t.take(lo) + ins);
    lemma_byte_len_concat(t.take(lo), ins);
    assert(byte_len(none) == 0);
}

/// Without a selection, Delete takes the one character at the cursor away and Backspace the one
/// before it; at the end and at the start of the text they take nothing. Typed text goes in at the
/// cursor, which ends behind it.
pub proof fn law_one_character_goes(c: Caret, d: Doc, i: int, ins: Seq<char>)
    requires
        rests_at(c, d.text, i),
    ensures
        ({
            let t = d.text;
            &&& i < t.len() ==> {
                &&& deleted(c, d).1.text == t.take(i) + t.skip(i + 1)
                &&& rests_at(deleted(c, d).0, deleted(c, d).1.text, i)
            }
            &&& i == t.len() ==> deleted(c, d) == (c, d)
            &&& i > 0 ==> {
                &&& backspaced(c, d).1.text == t.take(i - 1) + t.skip(i)
                &&& rests_at(backspaced(c, d).0, backspaced(c, d).1.text, i - 1)
            }
            &&& i == 0 ==> backspaced(c, d) == (c, d)
            &&& selection_deleted(c, d) == (c, d)
            &&& inserted(c, d, ins).1.text == t.take(i) + ins + t.skip(i)
            &&& rests_at(inserted(c, d, ins).0, inserted(c, d, ins).1.text, i + ins.len())
        }),
{
    let t = d.text;
    let none = Seq::<char>::empty();
    lemma_rests_at(c, t, i);
    assert(byte_len(none) == 0);
    if i < t.len() {
        let left = t.take(i) + t.skip(i + 1);
        assert(splice(t, i, i + 1, none) =~= left);
        assert(left.take(i) =~= t.take(i));
    }
    if i > 0 {
        let left = t.take(i - 1) + t.skip(i);
        assert(splice(t, i - 1, i, none) =~= left);
        assert(left.take(i - 1) =~= t.take(i - 1));
    }
    let with = t.take(i) + ins + t.skip(i);
    assert(splice(t, i, i, ins) =~= with);
    assert(with.take(i + ins.len()) =~= t.take(i) + ins);
    lemma_byte_len_concat(t.take(i), ins);
}

/// One Backspace takes back one typed character: text and cursor are what they were.
pub proof fn law_backspace_undoes_typing(c: Caret, d: Doc, i: int, ch: char)
    requires
        rests_at(c, d.text, i),
    ensures
        ({
            let typed = inserted(c, d, seq![ch]);
            &&& backspaced(typed.0, typed.1).1.text == d.text
            &&& backspaced(typed.0, typed.1).0.cursor == c.cursor
        }),
{
    let t = d.text;
    let typed = inserted(c, d, seq![ch]);
    let u = typed.1.text;
    assert(u == t.take(i) + seq![ch] + t.skip(i) && rests_at(typed.0, u, i + 1)) by {
        law_one_character_goes(c, d, i, seq![ch]);
    }
    let back = backspaced(typed.0, typed.1);
    assert(back.1.text == u.take(i) + u.skip(i + 1) && rests_at(back.0, back.1.text, i)) by {
        law_one_character_goes(typed.0, typed.1, i + 1, seq![ch]);
    }
    assert(u.take(i) + u.skip(i + 1) =~= t);
}

/// A character that Delete took comes back by typing it.
pub proof fn law_typing_undoes_delete(c: Caret, d: Doc, i: int)
    requires
        rests_at(c, d.text, i),
        i < d.text.len(),
    ensures
        ({
            let gone = deleted(c, d);
            inserted(gone.0, gone.1, seq![d.text[i]]).1.text == d.text
        }),
{
    let t = d.text;
    let gone = deleted(c, d);
    let v = gone.1.text;
    assert(v == t.take(i) + t.skip(i + 1) && rests_at(gone.0, v, i)) by {
        law_one_character_goes(c, d, i, Seq::empty());
    }
    assert(inserted(gone.0, gone.1, seq![t[i]]).1.text == v.take(i) + seq![t[i]] + v.skip(i)) by {
        law_one_character_goes(gone.0, gone.1, i, seq![t[i]]);
    }
    assert(v.take(i) + seq![t[i]] + v.skip(i) =~= t);
}

/// Killing takes the text from the cursor up to the end of its line away; where the cursor stands at
/// that end, it takes the line break.
pub proof fn law_kill_takes_the_rest_of_the_line(c: Caret, d: Doc, i: int, j: int)
    requires
        rests_at(c, d.text, i),
        i <= j <= d.text.len(),
        forall|k: int| i <= k < j ==> d.text[k] != '\n',
        j < d.text.len() ==> d.text[j] == '\n',
    ensures
        ({
            let t = d.text;
            let killed = line_killed(c, d).1.text;
            &&& i < j ==> killed == t.take(i) + t.skip(j)
            &&& i == j && j < t.len() ==> killed == t.take(i) + t.skip(j + 1)
            &&& i == t.len() ==> killed == t
        }),
{
    let t = d.text;
    lemma_rests_at(c, t, i);
    lemma_line_end(t, i);
    let none = Seq::<char>::empty();
    if i < j {
        assert(splice(t, i, j, none) =~= t.take(i) + t.skip(j));
    } else if j < t.len() {
        assert(splice(t, i, i + 1, none) =~= t.take(i) + t.skip(j + 1));
    }
}

/// A motion goes one character on or back and stops at the ends of the text. Without a selection to
/// extend it leaves nothing selected; extending one selects what was gone over, from where the first
/// such motion began.
pub proof fn law_motions_go_one_character(c: Caret, t: Seq<char>, i: int)
    requires
        0 <= i <= t.len(),
        c.cursor == offset(t, i),
        c.anchor matches Some(a) ==> exists|k: int| 0 <= k <= t.len() && a == #[trigger] offset(t, k),
    ensures
        ({
            let on = if i < t.len() {
                i + 1
            } else {
                i
            };
            let back = if i > 0 {
                i - 1
            } else {
                i
            };
            let from = match c.anchor {
                Some(a) => Some(a),
                None => Some(c.cursor),
            };
            &&& c.right(t, false).cursor == offset(t, on) && c.right(t, false).anchor is None
            &&& c.left(t, false).cursor == offset(t, back) && c.left(t, false).anchor is None
            &&& c.right(t, true).cursor == offset(t, on) && c.right(t, true).anchor == from
            &&& c.left(t, true).cursor == offset(t, back) && c.left(t, true).anchor == from
        }),
{
    lemma_index_of_offset(t, i);
    if let Some(a) = c.anchor {
        let k = choose|k: int| 0 <= k <= t.len() && a == #[trigger] offset(t, k);
        lemma_index_of_offset(t, k);
    }
}

/// A vertical motion lands in the row it names, or the last one that there is, in the column it came
/// from, or at the end of a shorter line.
pub proof fn law_vertical_motions(c: Caret, t: Seq<char>, i: int, n: nat)
    requires
        rests_at(c, t, i),
        c.goal is None,
    ensures
        ({
            let down = c.down(t, n, false);
            let up = c.up(t, n, false);
            let row = row_at(t, i);
            let column = i - line_start(t, i);
            let to = if row + n <= newlines(t) {
                row + n
            } else {
                newlines(t)
            };
            let back = if row >= n {
                (row - n) as nat
            } else {
                0
            };
            &&& lands(down, t, to, column)
            &&& lands(up, t, back, column)
        }),
{
    lemma_rests_at(c, t, i);
    lemma_line_start(t, i);
    lemma_row_mono(t, i, t.len() as int);
    let row = row_at(t, i);
    let to = if row + n <= newlines(t) {
        row + n
    } else {
        newlines(t)
    };
    let back = if row >= n {
        (row - n) as nat
    } else {
        0
    };
    lemma_lands(t, to, (i - line_start(t, i)) as nat);
    lemma_lands(t, back, (i - line_start(t, i)) as nat);
}

/// Whether a view stands in a row, in the column or at the end of the line where it is shorter.
pub open spec fn lands(c: Caret, t: Seq<char>, row: nat, column: int) -> bool {
    exists|k: int|
        {
            &&& 0 <= k <= t.len()
            &&& c.cursor == #[trigger] offset(t, k)
            &&& row_at(t, k) == row
            &&& k - line_start(t, k) <= column
            &&& k - line_start(t, k) < column ==> k == t.len() || t[k] == '\n'
        }
}

proof fn lemma_lands(t: Seq<char>, row: nat, column: nat)
    requires
        row <= newlines(t),
    ensures
        ({
            let width = line_of(t, row).len();
            let k = row_start(t, row) + if column < width {
                column
            } else {
                width
            };
            &&& 0 <= k <= t.len()
            &&& row_at(t, k) == row
            &&& line_start(t, k) == row_start(t, row)
            &&& column > width ==> k == t.len() || t[k] == '\n'
        }),
{
    let width = line_of(t, row).len();
    let m = if column < width {
        column
    } else {
        width
    };
    lemma_row_start_bounds(t, row);
    lemma_line_end(t, row_start(t, row));
    lemma_row_within(t, row, m as int);
}

} // verus!
