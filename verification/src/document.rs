//! The shared [`Document`]: content, undo history, file bookkeeping and the record of edits that
//! a crash-safe journal keeps.
//!
//! Reading and writing files and the journal is the host's part: the document says which edits
//! are still to be journaled ([`Document::take_ops`]), takes note of a failed journal
//! ([`Document::journal_failed`]) and of a completed save ([`Document::mark_saved`]), and decides
//! on opening whether a journal that was left behind is replayed ([`Document::open`]).

use crate::text::{
    byte_len, chars_of, count_bytes, find_index, find_offset, index_at, is_boundary,
    lemma_index_bounds, lemma_index_of_offset, lemma_offset_mono, lemma_splice_bytes, offset,
    splice, spliced, string_of, texts,
};
use vstd::prelude::*;

verus! {

/// A replacement in a text, in byte offsets: where it starts and how long the old and the new
/// text are.
#[derive(Clone, Copy, Debug, PartialEq, Eq, Structural)]
pub struct Edit {
    /// The byte offset of the replaced text.
    pub start: usize,
    /// How many bytes were replaced.
    pub old_len: usize,
    /// How many bytes replaced them.
    pub new_len: usize,
}

/// A replacement as the journal records it, with the new text.
#[derive(Clone, Debug, PartialEq, Eq)]
pub struct EditOp {
    /// The byte offset of the replaced text.
    pub start: usize,
    /// How many bytes were replaced.
    pub old_len: usize,
    /// The text that replaced them.
    pub text: String,
}

/// The contents of an [`EditOp`].
pub struct Op {
    /// The byte offset of the replaced text.
    pub start: nat,
    /// How many bytes were replaced.
    pub old_len: nat,
    /// The text that replaced them.
    pub text: Seq<char>,
}

impl View for EditOp {
    type V = Op;

    open spec fn view(&self) -> Op {
        Op { start: self.start as nat, old_len: self.old_len as nat, text: self.text@ }
    }
}

/// The contents of a list of journal records.
pub open spec fn ops_view(ops: Seq<EditOp>) -> Seq<Op> {
    ops.map_values(|op: EditOp| op@)
}

/// Whether a record replaces whole characters of `t` and the result has a byte length that the
/// machine can count.
pub open spec fn op_fits(t: Seq<char>, op: Op) -> bool {
    &&& op.start + op.old_len <= byte_len(t)
    &&& is_boundary(t, op.start)
    &&& is_boundary(t, op.start + op.old_len)
    &&& byte_len(apply_op(t, op)) < usize::MAX
}

/// `t` after the replacement of a record.
pub open spec fn apply_op(t: Seq<char>, op: Op) -> Seq<char> {
    splice(t, index_at(t, op.start), index_at(t, op.start + op.old_len), op.text)
}

/// Whether every record fits the text that the records before it leave.
pub open spec fn replay_fits(t: Seq<char>, ops: Seq<Op>) -> bool
    decreases ops.len(),
{
    ops.len() == 0 || (replay_fits(t, ops.drop_last()) && op_fits(
        replayed(t, ops.drop_last()),
        ops.last(),
    ))
}

/// `t` after all the replacements of a journal, in order.
pub open spec fn replayed(t: Seq<char>, ops: Seq<Op>) -> Seq<char>
    decreases ops.len(),
{
    if ops.len() == 0 {
        t
    } else {
        apply_op(replayed(t, ops.drop_last()), ops.last())
    }
}

/// Applies a record to `t`, if it fits.
fn apply(t: &[char], op: &EditOp) -> (r: Option<Vec<char>>)
    requires
        byte_len(t@) < usize::MAX,
    ensures
        r is Some == op_fits(t@, op@),
        r is Some ==> r->0@ == apply_op(t@, op@),
{
    let i = find_index(t, op.start);
    proof {
        lemma_index_bounds(t@, op.start as nat);
    }
    if find_offset(t, i) != op.start || op.old_len > usize::MAX - op.start {
        return None;
    }
    let end: usize = op.start + op.old_len;
    let j = find_index(t, end);
    proof {
        lemma_index_bounds(t@, end as nat);
    }
    if find_offset(t, j) != end {
        return None;
    }
    proof {
        lemma_offset_mono(t@, j as int, j as int);
        if j < i {
            lemma_offset_mono(t@, j as int, i as int);
        }
    }
    let ins = chars_of(op.text.as_str());
    let next = spliced(t, i, j, ins.as_slice());
    match count_bytes(next.as_slice()) {
        Some(n) => if n < usize::MAX {
            Some(next)
        } else {
            None
        },
        None => None,
    }
}

/// Replays the records of a journal over the text they were recorded for: `None` if one of them
/// does not fit.
pub fn replay(base: &[char], ops: &[EditOp]) -> (r: Option<Vec<char>>)
    requires
        byte_len(base@) < usize::MAX,
    ensures
        r is Some == replay_fits(base@, ops_view(ops@)),
        r is Some ==> r->0@ == replayed(base@, ops_view(ops@)),
{
    let mut t = crate::text::slice_of(base, 0, base.len());
    assert(t@ =~= base@);
    let mut i: usize = 0;
    while i < ops.len()
        invariant
            i <= ops@.len(),
            byte_len(t@) < usize::MAX,
            replay_fits(base@, ops_view(ops@.take(i as int))),
            t@ == replayed(base@, ops_view(ops@.take(i as int))),
        decreases ops@.len() - i,
    {
        let ghost next = ops_view(ops@.take(i + 1));
        assert(next.drop_last() =~= ops_view(ops@.take(i as int)));
        match apply(t.as_slice(), &ops[i]) {
            Some(u) => {
                t = u;
            },
            None => {
                proof {
                    assert(ops_view(ops@).take(i + 1) =~= next);
                    assert(next.last() == ops@[i as int]@);
                    lemma_no_replay(base@, ops_view(ops@), i + 1);
                }
                return None;
            },
        }
        i += 1;
    }
    assert(ops@.take(i as int) =~= ops@);
    Some(t)
}

proof fn lemma_no_replay(t: Seq<char>, ops: Seq<Op>, n: int)
    requires
        0 <= n <= ops.len(),
        !replay_fits(t, ops.take(n)),
    ensures
        !replay_fits(t, ops),
    decreases ops.len() - n,
{
    if n < ops.len() {
        assert(ops.take(n + 1).drop_last() =~= ops.take(n));
        lemma_no_replay(t, ops, n + 1);
    } else {
        assert(ops.take(n) =~= ops);
    }
}

/// What the host has to do about the journal of a document that was just opened.
#[derive(Clone, Copy, Debug, PartialEq, Eq, Structural)]
pub enum JournalAction {
    /// Go on appending to the journal that was left behind.
    Append,
    /// Start a fresh journal for a text of this many bytes.
    Create {
        /// The byte length of the text that the journal starts from.
        base_len: u64,
    },
}

/// A journal as it was found on disk.
#[derive(Clone, Debug, PartialEq, Eq)]
pub struct SavedJournal {
    /// The byte length of the text that the journal was started for.
    pub base_len: u64,
    /// Its records, oldest first.
    pub ops: Vec<EditOp>,
}

/// Whether a journal left behind holds unsaved edits of a text of the given content.
pub open spec fn recoverable(text: Seq<char>, saved: Option<SavedJournal>) -> bool {
    saved is Some && saved->0.base_len == byte_len(text) && saved->0.ops@.len() > 0
}

/// The shared document. Cursor, selection and viewport belong to the views of it.
#[derive(Debug)]
pub struct Document {
    text: Vec<char>,
    past: Vec<Vec<char>>,
    future: Vec<Vec<char>>,
    path: Option<String>,
    journaling: bool,
    ops: Vec<EditOp>,
    journal_error: Option<String>,
    recovered: bool,
    dirty: bool,
    revision: u64,
}

/// The state of a [`Document`].
pub struct Doc {
    /// The current text.
    pub text: Seq<char>,
    /// The texts that undo goes back to, the nearest last.
    pub past: Seq<Seq<char>>,
    /// The texts that redo goes forward to, the nearest last.
    pub future: Seq<Seq<char>>,
    /// The file path, if any.
    pub path: Option<Seq<char>>,
    /// Whether edits are journaled.
    pub journaling: bool,
    /// The edits that are still to be journaled, oldest first.
    pub ops: Seq<Op>,
    /// The error that stopped journaling, if any.
    pub journal_error: Option<Seq<char>>,
    /// Whether the text was recovered from a journal.
    pub recovered: bool,
    /// Whether there are unsaved changes.
    pub dirty: bool,
    /// How many times the text changed.
    pub revision: nat,
}

/// The content of an optional string.
pub open spec fn opt_text(s: Option<String>) -> Option<Seq<char>> {
    match s {
        Some(s) => Some(s@),
        None => None,
    }
}

/// A copy of an optional string.
pub fn clone_opt(s: &Option<String>) -> (r: Option<String>)
    ensures
        opt_text(r) == opt_text(*s),
{
    match s {
        Some(s) => Some(s.clone()),
        None => None,
    }
}

impl View for Document {
    type V = Doc;

    closed spec fn view(&self) -> Doc {
        Doc {
            text: self.text@,
            past: texts(self.past@),
            future: texts(self.future@),
            path: opt_text(self.path),
            journaling: self.journaling,
            ops: ops_view(self.ops@),
            journal_error: opt_text(self.journal_error),
            recovered: self.recovered,
            dirty: self.dirty,
            revision: self.revision as nat,
        }
    }
}

impl Doc {
    /// Every text of the history has a byte length that the machine can count.
    pub open spec fn wf(self) -> bool {
        &&& byte_len(self.text) < usize::MAX
        &&& forall|i: int|
            0 <= i < self.past.len() ==> byte_len(#[trigger] self.past[i]) < usize::MAX
        &&& forall|i: int|
            0 <= i < self.future.len() ==> byte_len(#[trigger] self.future[i]) < usize::MAX
    }

    /// Whether `n` more bytes and one more change can be counted.
    pub open spec fn room(self, n: nat) -> bool {
        &&& byte_len(self.text) + n < usize::MAX
        &&& self.revision < u64::MAX
    }

    /// A document that was just created with this text and path.
    pub open spec fn fresh(text: Seq<char>, path: Option<Seq<char>>) -> Doc {
        Doc {
            text,
            past: Seq::empty(),
            future: Seq::empty(),
            path,
            journaling: false,
            ops: Seq::empty(),
            journal_error: None,
            recovered: false,
            dirty: false,
            revision: 0,
        }
    }

    /// The journal record of replacing the characters from `i` up to `j` by `ins`.
    pub open spec fn record(self, i: int, j: int, ins: Seq<char>) -> Op {
        Op {
            start: offset(self.text, i),
            old_len: (offset(self.text, j) - offset(self.text, i)) as nat,
            text: ins,
        }
    }

    /// The document after replacing the characters from `i` up to `j` by `ins`: one more step
    /// to undo, nothing to redo.
    pub open spec fn edited(self, i: int, j: int, ins: Seq<char>) -> Doc {
        Doc {
            text: splice(self.text, i, j, ins),
            past: self.past.push(self.text),
            future: Seq::empty(),
            ops: if self.journaling {
                self.ops.push(self.record(i, j, ins))
            } else {
                self.ops
            },
            dirty: true,
            revision: self.revision + 1,
            ..self
        }
    }

    /// The journal record of going over to another text as a whole.
    pub open spec fn rewrite(self, text: Seq<char>) -> Op {
        Op { start: 0, old_len: byte_len(self.text), text }
    }

    /// The edits to be journaled once the document has gone over to another text.
    pub open spec fn rewritten(self, text: Seq<char>) -> Seq<Op> {
        if self.journaling {
            self.ops.push(self.rewrite(text))
        } else {
            self.ops
        }
    }

    /// The document after undoing its last edit, if there is one. The journal records it too.
    pub open spec fn undone(self) -> Doc {
        if self.past.len() == 0 {
            self
        } else {
            Doc {
                text: self.past.last(),
                past: self.past.drop_last(),
                future: self.future.push(self.text),
                ops: self.rewritten(self.past.last()),
                dirty: true,
                revision: self.revision + 1,
                ..self
            }
        }
    }

    /// The document after redoing the edit that was undone last, if there is one.
    pub open spec fn redone(self) -> Doc {
        if self.future.len() == 0 {
            self
        } else {
            Doc {
                text: self.future.last(),
                future: self.future.drop_last(),
                past: self.past.push(self.text),
                ops: self.rewritten(self.future.last()),
                dirty: true,
                revision: self.revision + 1,
                ..self
            }
        }
    }
}

/// The edit of replacing the characters of `t` from `i` up to `j` by `ins`.
pub open spec fn edit_of(t: Seq<char>, i: int, j: int, ins: Seq<char>) -> Edit {
    Edit {
        start: offset(t, i) as usize,
        old_len: (offset(t, j) - offset(t, i)) as usize,
        new_len: byte_len(ins) as usize,
    }
}

impl Document {
    /// Creates a document that holds `text`.
    pub fn new(text: &str, path: Option<String>) -> (r: Self)
        requires
            byte_len(text@) < usize::MAX,
        ensures
            r@ == Doc::fresh(text@, opt_text(path)),
            r@.wf(),
    {
        let r = Document {
            text: chars_of(text),
            past: Vec::new(),
            future: Vec::new(),
            path,
            journaling: false,
            ops: Vec::new(),
            journal_error: None,
            recovered: false,
            dirty: false,
            revision: 0,
        };
        assert(r@.past =~= Seq::empty());
        assert(r@.future =~= Seq::empty());
        assert(r@.ops =~= Seq::empty());
        r
    }

    /// Opens a document whose file holds `text` (empty for a missing file), next to which the
    /// journal `saved` was found. A journal that was started for a text of this length and holds
    /// records is replayed: the document is then recovered, with unsaved changes. Any other
    /// journal is replaced by a fresh one.
    pub fn open(path: String, text: &str, saved: Option<SavedJournal>) -> (r: (
        Self,
        JournalAction,
    ))
        requires
            byte_len(text@) < usize::MAX,
            recoverable(text@, saved) ==> replay_fits(text@, ops_view(saved->0.ops@)),
        ensures
            r.0@ == (Doc {
                journaling: true,
                recovered: recoverable(text@, saved),
                dirty: recoverable(text@, saved),
                ..Doc::fresh(
                    if recoverable(text@, saved) {
                        replayed(text@, ops_view(saved->0.ops@))
                    } else {
                        text@
                    },
                    Some(path@),
                )
            }),
            r.0@.wf(),
            r.1 == if recoverable(text@, saved) {
                JournalAction::Append
            } else {
                JournalAction::Create { base_len: byte_len(text@) as u64 }
            },
    {
        let base = chars_of(text);
        let base_len = find_offset(base.as_slice(), base.len());
        proof {
            lemma_offset_mono(base@, 0, base@.len() as int);
        }
        let mut doc = Document::new(text, Some(path));
        doc.journaling = true;
        match saved {
            Some(saved) => {
                if saved.base_len == base_len as u64 && saved.ops.len() > 0 {
                    match replay(base.as_slice(), saved.ops.as_slice()) {
                        Some(recovered) => {
                            proof {
                                lemma_replayed_fits(text@, ops_view(saved.ops@));
                            }
                            doc.text = recovered;
                            doc.recovered = true;
                            doc.dirty = true;
                            return (doc, JournalAction::Append);
                        },
                        None => {},
                    }
                }
            },
            None => {},
        }
        (doc, JournalAction::Create { base_len: base_len as u64 })
    }

    /// The path of the journal beside the file `path`.
    pub fn journal_path(path: &str) -> (r: String)
        ensures
            r@ == path@ + ".mjjournal"@,
    {
        let mut r = path.to_owned();
        r.append(".mjjournal");
        r
    }

    /// The current text.
    pub fn text(&self) -> (r: String)
        ensures
            r@ == self@.text,
    {
        string_of(self.text.as_slice())
    }

    /// The characters of the current text.
    pub fn chars(&self) -> (r: &[char])
        ensures
            r@ == self@.text,
    {
        self.text.as_slice()
    }

    /// The byte length of the current text.
    pub fn len_bytes(&self) -> (r: usize)
        requires
            self@.wf(),
        ensures
            r == byte_len(self@.text),
    {
        proof {
            lemma_offset_mono(self.text@, 0, self.text@.len() as int);
        }
        find_offset(self.text.as_slice(), self.text.len())
    }

    /// The file path, if any.
    pub fn path(&self) -> (r: &Option<String>)
        ensures
            opt_text(*r) == self@.path,
    {
        &self.path
    }

    /// Whether there are unsaved changes.
    pub fn is_dirty(&self) -> (r: bool)
        ensures
            r == self@.dirty,
    {
        self.dirty
    }

    /// A counter that grows with every change of the text.
    pub fn revision(&self) -> (r: u64)
        ensures
            r == self@.revision,
    {
        self.revision
    }

    /// Whether the text was recovered from a journal when the document was opened.
    pub fn was_recovered(&self) -> (r: bool)
        ensures
            r == self@.recovered,
    {
        self.recovered
    }

    /// The message of the error that stopped journaling, if one occurred.
    pub fn journal_error(&self) -> (r: &Option<String>)
        ensures
            opt_text(*r) == self@.journal_error,
    {
        &self.journal_error
    }

    /// Hands out the edits that are still to be journaled.
    pub fn take_ops(&mut self) -> (r: Vec<EditOp>)
        ensures
            ops_view(r@) == old(self)@.ops,
            final(self)@ == (Doc { ops: Seq::empty(), ..old(self)@ }),
    {
        let mut r: Vec<EditOp> = Vec::new();
        std::mem::swap(&mut r, &mut self.ops);
        assert(self@.ops =~= Seq::empty());
        r
    }

    /// Takes note that the journal could not be written: journaling stops, and the message is
    /// kept to be shown.
    pub fn journal_failed(&mut self, message: String)
        ensures
            final(self)@ == (Doc {
                journaling: false,
                ops: Seq::empty(),
                journal_error: Some(message@),
                ..old(self)@
            }),
    {
        self.journaling = false;
        self.ops = Vec::new();
        self.journal_error = Some(message);
        assert(self@.ops =~= Seq::empty());
    }

    /// Takes note that the text was written to its file and a fresh journal started. A document
    /// without a path cannot have been saved and stays as it is.
    pub fn mark_saved(&mut self) -> (r: bool)
        ensures
            r == (old(self)@.path is Some),
            final(self)@ == if r {
                Doc {
                    journaling: true,
                    ops: Seq::empty(),
                    journal_error: None,
                    recovered: false,
                    dirty: false,
                    ..old(self)@
                }
            } else {
                old(self)@
            },
    {
        if self.path.is_none() {
            return false;
        }
        self.journaling = true;
        self.ops = Vec::new();
        self.journal_error = None;
        self.recovered = false;
        self.dirty = false;
        assert(self@.ops =~= Seq::empty());
        true
    }

    /// Replaces the characters from index `i` up to `j` by `ins`, recording a step to undo.
    pub fn apply_edit(&mut self, i: usize, j: usize, ins: &[char]) -> (r: Edit)
        requires
            old(self)@.wf(),
            old(self)@.room(byte_len(ins@)),
            i <= j <= old(self)@.text.len(),
        ensures
            final(self)@ == old(self)@.edited(i as int, j as int, ins@),
            final(self)@.wf(),
            r == edit_of(old(self)@.text, i as int, j as int, ins@),
    {
        proof {
            lemma_splice_bytes(self.text@, i as int, j as int, ins@);
            lemma_offset_mono(self.text@, i as int, j as int);
            lemma_offset_mono(ins@, 0, ins@.len() as int);
        }
        let start = find_offset(self.text.as_slice(), i);
        let old_len: usize = find_offset(self.text.as_slice(), j) - start;
        let new_len = find_offset(ins, ins.len());
        let mut text = spliced(self.text.as_slice(), i, j, ins);
        std::mem::swap(&mut text, &mut self.text);
        self.past.push(text);
        self.future = Vec::new();
        if self.journaling {
            self.ops.push(EditOp { start, old_len, text: string_of(ins) });
        }
        self.dirty = true;
        self.revision = self.revision + 1;
        proof {
            let new = old(self)@.edited(i as int, j as int, ins@);
            assert(self@.past =~= new.past);
            assert(self@.future =~= new.future);
            assert(self@.ops =~= new.ops);
            assert forall|k: int| 0 <= k < new.past.len() implies byte_len(
                #[trigger] new.past[k],
            ) < usize::MAX by {
                if k < old(self)@.past.len() {
                    assert(new.past[k] == old(self)@.past[k]);
                }
            }
        }
        Edit { start, old_len, new_len }
    }

    /// Records that the document goes over to another text.
    fn record_rewrite(&mut self, text: &[char])
        requires
            old(self)@.wf(),
        ensures
            final(self)@ == (Doc { ops: old(self)@.rewritten(text@), ..old(self)@ }),
    {
        if self.journaling {
            let old_len = self.len_bytes();
            self.ops.push(EditOp { start: 0, old_len, text: string_of(text) });
            assert(self@.ops =~= old(self)@.rewritten(text@));
        }
    }

    /// Undoes the last edit; `false` if there is none.
    pub fn undo(&mut self) -> (r: bool)
        requires
            old(self)@.wf(),
            old(self)@.revision < u64::MAX,
        ensures
            r == (old(self)@.past.len() > 0),
            final(self)@ == old(self)@.undone(),
            final(self)@.wf(),
    {
        match self.past.pop() {
            Some(mut text) => {
                proof {
                    assert(self@.past =~= old(self)@.past.drop_last());
                    assert forall|k: int| 0 <= k < self@.past.len() implies byte_len(
                        #[trigger] self@.past[k],
                    ) < usize::MAX by {
                        assert(self@.past[k] == old(self)@.past[k]);
                    }
                }
                self.record_rewrite(text.as_slice());
                std::mem::swap(&mut text, &mut self.text);
                self.future.push(text);
                self.dirty = true;
                self.revision = self.revision + 1;
                proof {
                    let new = old(self)@.undone();
                    assert(self@.past =~= new.past);
                    assert(self@.future =~= new.future);
                    assert(byte_len(old(self)@.past.last()) < usize::MAX);
                    assert forall|k: int| 0 <= k < new.past.len() implies byte_len(
                        #[trigger] new.past[k],
                    ) < usize::MAX by {
                        assert(new.past[k] == old(self)@.past[k]);
                    }
                    assert forall|k: int| 0 <= k < new.future.len() implies byte_len(
                        #[trigger] new.future[k],
                    ) < usize::MAX by {
                        if k < old(self)@.future.len() {
                            assert(new.future[k] == old(self)@.future[k]);
                        }
                    }
                }
                true
            },
            None => false,
        }
    }

    /// Redoes the edit that was undone last; `false` if there is none.
    pub fn redo(&mut self) -> (r: bool)
        requires
            old(self)@.wf(),
            old(self)@.revision < u64::MAX,
        ensures
            r == (old(self)@.future.len() > 0),
            final(self)@ == old(self)@.redone(),
            final(self)@.wf(),
    {
        match self.future.pop() {
            Some(mut text) => {
                proof {
                    assert(self@.future =~= old(self)@.future.drop_last());
                    assert forall|k: int| 0 <= k < self@.future.len() implies byte_len(
                        #[trigger] self@.future[k],
                    ) < usize::MAX by {
                        assert(self@.future[k] == old(self)@.future[k]);
                    }
                }
                self.record_rewrite(text.as_slice());
                std::mem::swap(&mut text, &mut self.text);
                self.past.push(text);
                self.dirty = true;
                self.revision = self.revision + 1;
                proof {
                    let new = old(self)@.redone();
                    assert(self@.past =~= new.past);
                    assert(self@.future =~= new.future);
                    assert(byte_len(old(self)@.future.last()) < usize::MAX);
                    assert forall|k: int| 0 <= k < new.past.len() implies byte_len(
                        #[trigger] new.past[k],
                    ) < usize::MAX by {
                        if k < old(self)@.past.len() {
                            assert(new.past[k] == old(self)@.past[k]);
                        }
                    }
                    assert forall|k: int| 0 <= k < new.future.len() implies byte_len(
                        #[trigger] new.future[k],
                    ) < usize::MAX by {
                        assert(new.future[k] == old(self)@.future[k]);
                    }
                }
                true
            },
            None => false,
        }
    }
}

/// A text that records fit to has a byte length that the machine can count.
proof fn lemma_replayed_fits(t: Seq<char>, ops: Seq<Op>)
    requires
        byte_len(t) < usize::MAX,
        replay_fits(t, ops),
    ensures
        byte_len(replayed(t, ops)) < usize::MAX,
{
}

/// Undoing an edit gives back the text from before it, and the history with it.
pub proof fn law_undo_reverts_edit(d: Doc, i: int, j: int, ins: Seq<char>)
    ensures
        d.edited(i, j, ins).undone().text == d.text,
        d.edited(i, j, ins).undone().past == d.past,
{
    assert(d.past.push(d.text).drop_last() =~= d.past);
}

/// Redoing what was undone gives back the text and the history from before the undo.
pub proof fn law_redo_reverts_undo(d: Doc)
    requires
        d.past.len() > 0,
    ensures
        d.undone().redone().text == d.text,
        d.undone().redone().past == d.past,
        d.undone().redone().future == d.future,
{
    assert(d.past.drop_last().push(d.past.last()) =~= d.past);
    assert(d.future.push(d.text).drop_last() =~= d.future);
}

/// Undoing what was redone gives back the text and the history from before the redo.
pub proof fn law_undo_reverts_redo(d: Doc)
    requires
        d.future.len() > 0,
    ensures
        d.redone().undone().text == d.text,
        d.redone().undone().past == d.past,
        d.redone().undone().future == d.future,
{
    assert(d.future.drop_last().push(d.future.last()) =~= d.future);
    assert(d.past.push(d.text).drop_last() =~= d.past);
}

/// Whether the journal of a document holds its text: the records that were written for the saved
/// text `base` and those that are still to be written replay to the current text.
pub open spec fn journal_holds(base: Seq<char>, written: Seq<Op>, d: Doc) -> bool {
    d.journaling ==> replay_fits(base, written + d.ops) && replayed(base, written + d.ops)
        == d.text
}

proof fn lemma_one_more(base: Seq<char>, written: Seq<Op>, d: Doc, op: Op)
    requires
        d.journaling,
        journal_holds(base, written, d),
        op_fits(d.text, op),
    ensures
        replay_fits(base, written + d.ops.push(op)),
        replayed(base, written + d.ops.push(op)) == apply_op(d.text, op),
{
    let all = written + d.ops.push(op);
    assert(all.drop_last() =~= written + d.ops);
    assert(all.last() == op);
}

proof fn lemma_rewrite_fits(d: Doc, text: Seq<char>)
    requires
        byte_len(text) < usize::MAX,
    ensures
        op_fits(d.text, d.rewrite(text)),
        apply_op(d.text, d.rewrite(text)) == text,
{
    let t = d.text;
    lemma_index_of_offset(t, 0);
    lemma_index_of_offset(t, t.len() as int);
    assert(t.take(0) =~= Seq::empty());
    assert(t.take(t.len() as int) =~= t);
    assert(offset(t, 0) == 0);
    assert(offset(t, t.len() as int) == byte_len(t));
    assert(splice(t, 0, t.len() as int, text) =~= text);
}

/// The journal follows the text through every edit, undo and redo, so that a crash loses nothing
/// that was journaled and brings nothing back that was undone.
pub proof fn law_journal_follows_the_text(
    base: Seq<char>,
    written: Seq<Op>,
    d: Doc,
    i: int,
    j: int,
    ins: Seq<char>,
)
    requires
        d.wf(),
        journal_holds(base, written, d),
    ensures
        0 <= i <= j <= d.text.len() && d.room(byte_len(ins)) ==> journal_holds(
            base,
            written,
            d.edited(i, j, ins),
        ),
        journal_holds(base, written, d.undone()),
        journal_holds(base, written, d.redone()),
{
    if d.journaling {
        if 0 <= i <= j <= d.text.len() && d.room(byte_len(ins)) {
            let op = d.record(i, j, ins);
            lemma_offset_mono(d.text, i, j);
            lemma_index_of_offset(d.text, i);
            lemma_index_of_offset(d.text, j);
            lemma_splice_bytes(d.text, i, j, ins);
            lemma_one_more(base, written, d, op);
        }
        if d.past.len() > 0 {
            let text = d.past.last();
            lemma_rewrite_fits(d, text);
            lemma_one_more(base, written, d, d.rewrite(text));
        }
        if d.future.len() > 0 {
            let text = d.future.last();
            lemma_rewrite_fits(d, text);
            lemma_one_more(base, written, d, d.rewrite(text));
        }
    }
}

/// Writing the records that are still to be written keeps the journal in step, and a document whose
/// journal holds its text is recovered with that text.
pub proof fn law_journal_recovers_the_text(base: Seq<char>, written: Seq<Op>, d: Doc)
    requires
        journal_holds(base, written, d),
        d.journaling,
    ensures
        journal_holds(base, written + d.ops, (Doc { ops: Seq::empty(), ..d })),
        replay_fits(base, written + d.ops),
        replayed(base, written + d.ops) == d.text,
{
    assert(written + d.ops + Seq::<Op>::empty() =~= written + d.ops);
}

/// A fresh journal holds the text that it is started for.
pub proof fn law_fresh_journal_holds(d: Doc)
    requires
        d.ops.len() == 0,
    ensures
        journal_holds(d.text, Seq::empty(), d),
{
    assert(Seq::<Op>::empty() + d.ops =~= Seq::empty());
}

/// Every edit bumps the revision and marks the document as changed.
pub proof fn law_edit_bumps_revision(d: Doc, i: int, j: int, ins: Seq<char>)
    ensures
        d.edited(i, j, ins).revision == d.revision + 1,
        d.edited(i, j, ins).dirty,
{
}

/// An edit puts the new text in the place of the old one and leaves what is before and behind it; the
/// text before the edit is the one to go back to, what was undone cannot be redone any more, and the
/// document has unsaved changes.
pub proof fn law_edit_replaces_a_part(d: Doc, i: int, j: int, ins: Seq<char>)
    requires
        0 <= i <= j <= d.text.len(),
    ensures
        ({
            let x = d.edited(i, j, ins);
            &&& x.text == d.text.take(i) + ins + d.text.skip(j)
            &&& x.past == d.past.push(d.text)
            &&& x.future.len() == 0
            &&& x.dirty
            &&& x.path == d.path
            &&& x.undone().text == d.text && x.undone().dirty
            &&& d.journaling ==> x.ops.len() == d.ops.len() + 1 && x.ops.last().start == byte_len(d.text.take(i))
                && x.ops.last().text == ins && x.ops.last().start + x.ops.last().old_len == byte_len(
                d.text.take(j),
            )
            &&& !d.journaling ==> x.ops == d.ops
        }),
{
    assert(splice(d.text, i, j, ins) =~= d.text.take(i) + ins + d.text.skip(j));
    lemma_offset_mono(d.text, i, j);
}

/// With nothing to undo or to redo, neither changes anything; otherwise each counts as a change.
pub proof fn law_history_is_stepped_through(d: Doc)
    ensures
        d.past.len() == 0 ==> d.undone() == d,
        d.future.len() == 0 ==> d.redone() == d,
        d.past.len() > 0 ==> d.undone().text == d.past.last() && d.undone().future == d.future.push(d.text)
            && d.undone().past == d.past.drop_last() && d.undone().revision == d.revision + 1
            && d.undone().dirty,
        d.future.len() > 0 ==> d.redone().text == d.future.last() && d.redone().past == d.past.push(d.text)
            && d.redone().future == d.future.drop_last() && d.redone().revision == d.revision + 1
            && d.redone().dirty,
{
}

} // verus!
