//! The editor: a view of a document, its keymaps, a clipboard and a viewport.
//!
//! [`Editor::handle_key`] feeds a key to the dispatcher and runs the command that it resolves to
//! ([`Editor::execute`]), or inserts an unclaimed printable key. [`Editor::render_in`] draws the
//! visible lines and the cursor. Writing a file and highlighting in the background are the host's
//! part: it asks for them by [`Editor::take_save_request`] and [`Editor::highlight_request`] and
//! hands back the outcome.

use crate::buffer::{
    backspaced, deleted, inserted, line_killed, redone_through, selection_deleted, undone_through,
    Buffer, Caret,
};
use crate::decor::{
    count_shown, find_innermost, find_line_above, find_message, find_shown_line, glyphs_of, heads,
    hidden, innermost, is_among, is_head, is_hidden, kept, law_lines_above, line_above,
    line_message, muted, others, shown_between, shown_glyphs, shown_line, shown_text, still,
    styled, with_hints, without, Look,
};
use crate::diagnostic::Diagnostic;
use crate::dispatch::{are_hints, resolve_layers, rows_view, Dispatcher, Resolution, Resolved};
use crate::document::{Doc, Document};
use crate::fold::FoldRange;
use crate::inlay::InlayHint;
use crate::key::{KeyCode, KeyPress, Mods};
use crate::keymap::{Bindings, Keymap};
use crate::occurrence::Occurrence;
use crate::paths::{file_name, file_name_of};
use crate::popup::{clamp, most};
use crate::profiles::{
    chord_bindings, cua, cua_chords, emacs, emacs_chords, emacs_prefixed_chords, prefixed,
    vim_insert, vim_insert_chords, vim_normal, vim_normal_chords, vim_visual, vim_visual_chords,
    Profile,
};
use crate::surface::{cells_of, width_of, Canvas, Cell, Glyphs, Rect, Style, Surface, Theme};
use crate::syntax::{visible_styles, Span, SpanLayer};
use crate::text::{
    byte_len, char_bytes, chars_of, decimal, decimal_of, find_line_end, find_offset, find_row_start,
    lemma_byte_len_concat, lemma_index_bounds, lemma_line_end, lemma_line_start, lemma_offset_mono,
    lemma_offset_step, lemma_row_mono, lemma_row_start, lemma_row_start_bounds, lemma_row_step,
    line_end, line_of, line_start, newlines, offset, repeat, repeated, row_at, row_start, same_text,
    slice_of, snap, string_of,
};
use crate::typeset::{capped, cells_width};
use vstd::prelude::*;

verus! {

/// The editing mode, which decides whether printable keys insert themselves.
#[derive(Clone, Copy, Debug, PartialEq, Eq, Structural)]
pub enum EditMode {
    /// Keys insert text: always so in the profiles that are not modal.
    Insert,
    /// Vim's Normal mode.
    Normal,
    /// Vim's Visual mode.
    Visual,
}

/// The name of a mode on the status line.
pub open spec fn mode_label(mode: EditMode) -> Seq<char> {
    match mode {
        EditMode::Insert => "INSERT"@,
        EditMode::Normal => "NORMAL"@,
        EditMode::Visual => "VISUAL"@,
    }
}

impl EditMode {
    /// Whether an unclaimed printable key is inserted.
    pub fn inserts_text(self) -> (r: bool)
        ensures
            r == (self == EditMode::Insert),
    {
        matches!(self, EditMode::Insert)
    }

    /// The name of the mode on the status line.
    pub fn label(self) -> (r: &'static str)
        ensures
            r@ == mode_label(self),
    {
        match self {
            EditMode::Insert => "INSERT",
            EditMode::Normal => "NORMAL",
            EditMode::Visual => "VISUAL",
        }
    }
}

/// What a command does.
#[derive(Clone, Copy, Debug, PartialEq, Eq, Structural)]
pub enum Act {
    /// One character to the left, extending the selection or not.
    Left(bool),
    /// One character to the right.
    Right(bool),
    /// One line up.
    Up(bool),
    /// One line down.
    Down(bool),
    /// To the start of the line.
    LineStart,
    /// To the end of the line.
    LineEnd,
    /// One page up.
    PageUp,
    /// One page down.
    PageDown,
    /// Selects everything.
    SelectAll,
    /// Deletes what stands before the cursor.
    DeleteBackward,
    /// Deletes what stands behind the cursor.
    DeleteForward,
    /// Inserts a line break.
    Newline,
    /// Inserts one level of indent.
    Indent,
    /// Takes back an edit.
    Undo,
    /// Makes an edit again.
    Redo,
    /// Copies the selection.
    Copy,
    /// Cuts the selection.
    Cut,
    /// Cuts the rest of the line.
    KillLine,
    /// Inserts the clipboard.
    Paste,
    /// Enters a mode.
    Enter(EditMode),
    /// Switches to a profile.
    Switch(Profile),
    /// Saves the file.
    Save,
    /// Opens the search.
    Find,
    /// Quits.
    Quit,
    /// Folds or unfolds the region at the cursor.
    ToggleFold,
    /// No command of the editor.
    Unknown,
}

/// What a command does.
pub open spec fn act_of(command: Seq<char>) -> Act {
    if command == "move-left"@ {
        Act::Left(false)
    } else if command == "move-right"@ {
        Act::Right(false)
    } else if command == "move-up"@ {
        Act::Up(false)
    } else if command == "move-down"@ {
        Act::Down(false)
    } else if command == "move-line-start"@ {
        Act::LineStart
    } else if command == "move-line-end"@ {
        Act::LineEnd
    } else if command == "page-up"@ {
        Act::PageUp
    } else if command == "page-down"@ {
        Act::PageDown
    } else if command == "select-left"@ {
        Act::Left(true)
    } else if command == "select-right"@ {
        Act::Right(true)
    } else if command == "select-up"@ {
        Act::Up(true)
    } else if command == "select-down"@ {
        Act::Down(true)
    } else if command == "select-all"@ {
        Act::SelectAll
    } else if command == "delete-backward"@ {
        Act::DeleteBackward
    } else if command == "delete-forward"@ {
        Act::DeleteForward
    } else if command == "insert-newline"@ {
        Act::Newline
    } else if command == "indent"@ {
        Act::Indent
    } else if command == "undo"@ {
        Act::Undo
    } else if command == "redo"@ {
        Act::Redo
    } else if command == "copy"@ {
        Act::Copy
    } else if command == "cut"@ {
        Act::Cut
    } else if command == "kill-line"@ {
        Act::KillLine
    } else if command == "paste"@ {
        Act::Paste
    } else if command == "enter-insert-mode"@ {
        Act::Enter(EditMode::Insert)
    } else if command == "enter-normal-mode"@ {
        Act::Enter(EditMode::Normal)
    } else if command == "enter-visual-mode"@ {
        Act::Enter(EditMode::Visual)
    } else if command == "profile-cua"@ {
        Act::Switch(Profile::Cua)
    } else if command == "profile-emacs"@ {
        Act::Switch(Profile::Emacs)
    } else if command == "profile-vim"@ {
        Act::Switch(Profile::Vim)
    } else if command == "save"@ {
        Act::Save
    } else if command == "find"@ {
        Act::Find
    } else if command == "quit"@ || command == "close-buffer"@ {
        Act::Quit
    } else if command == "toggle-fold"@ {
        Act::ToggleFold
    } else {
        Act::Unknown
    }
}

/// What a command does.
pub fn classify(command: &str) -> (r: Act)
    ensures
        r == act_of(command@),
{
    if same_text(command, "move-left") {
        Act::Left(false)
    } else if same_text(command, "move-right") {
        Act::Right(false)
    } else if same_text(command, "move-up") {
        Act::Up(false)
    } else if same_text(command, "move-down") {
        Act::Down(false)
    } else if same_text(command, "move-line-start") {
        Act::LineStart
    } else if same_text(command, "move-line-end") {
        Act::LineEnd
    } else if same_text(command, "page-up") {
        Act::PageUp
    } else if same_text(command, "page-down") {
        Act::PageDown
    } else if same_text(command, "select-left") {
        Act::Left(true)
    } else if same_text(command, "select-right") {
        Act::Right(true)
    } else if same_text(command, "select-up") {
        Act::Up(true)
    } else if same_text(command, "select-down") {
        Act::Down(true)
    } else if same_text(command, "select-all") {
        Act::SelectAll
    } else if same_text(command, "delete-backward") {
        Act::DeleteBackward
    } else if same_text(command, "delete-forward") {
        Act::DeleteForward
    } else if same_text(command, "insert-newline") {
        Act::Newline
    } else if same_text(command, "indent") {
        Act::Indent
    } else if same_text(command, "undo") {
        Act::Undo
    } else if same_text(command, "redo") {
        Act::Redo
    } else if same_text(command, "copy") {
        Act::Copy
    } else if same_text(command, "cut") {
        Act::Cut
    } else if same_text(command, "kill-line") {
        Act::KillLine
    } else if same_text(command, "paste") {
        Act::Paste
    } else if same_text(command, "enter-insert-mode") {
        Act::Enter(EditMode::Insert)
    } else if same_text(command, "enter-normal-mode") {
        Act::Enter(EditMode::Normal)
    } else if same_text(command, "enter-visual-mode") {
        Act::Enter(EditMode::Visual)
    } else if same_text(command, "profile-cua") {
        Act::Switch(Profile::Cua)
    } else if same_text(command, "profile-emacs") {
        Act::Switch(Profile::Emacs)
    } else if same_text(command, "profile-vim") {
        Act::Switch(Profile::Vim)
    } else if same_text(command, "save") {
        Act::Save
    } else if same_text(command, "find") {
        Act::Find
    } else if same_text(command, "quit") || same_text(command, "close-buffer") {
        Act::Quit
    } else if same_text(command, "toggle-fold") {
        Act::ToggleFold
    } else {
        Act::Unknown
    }
}

/// The state of an [`Editor`].
pub struct EditState {
    /// The cursor and the selection.
    pub caret: Caret,
    /// The clipboard.
    pub clipboard: Seq<char>,
    /// The keymaps, highest priority first.
    pub layers: Seq<Bindings>,
    /// The keys typed so far towards a binding.
    pub keys: Seq<KeyPress>,
    /// The profile.
    pub profile: Profile,
    /// The mode.
    pub mode: EditMode,
    /// Whether the profile has modes.
    pub modal: bool,
    /// The first line in view.
    pub top: nat,
    /// The first column in view.
    pub left: nat,
    /// How many lines a page has.
    pub page_rows: nat,
    /// The message on the status line.
    pub status: Seq<char>,
    /// Whether to quit.
    pub quit: bool,
    /// Whether the file is to be saved.
    pub saving: bool,
    /// Whether the search is to be opened.
    pub searching: bool,
    /// The spans of the syntax.
    pub highlights: Seq<Span>,
    /// The revision that they belong to.
    pub highlighted: Option<nat>,
    /// The revision that was last sent to be highlighted.
    pub requested: Option<nat>,
    /// How many columns a level of indent has.
    pub tab_width: nat,
    /// The problems reported for the document.
    pub diagnostics: Seq<Diagnostic>,
    /// The hints shown in its text.
    pub hints: Seq<InlayHint>,
    /// Its foldable regions.
    pub folds: Seq<FoldRange>,
    /// Those that are folded.
    pub folded: Seq<FoldRange>,
    /// The uses of the symbol under the cursor.
    pub occurrences: Seq<Occurrence>,
}

/// The keymap of a mode.
pub open spec fn mode_bindings(mode: EditMode) -> Bindings {
    match mode {
        EditMode::Insert => chord_bindings(vim_insert_chords()),
        EditMode::Normal => chord_bindings(vim_normal_chords()),
        EditMode::Visual => chord_bindings(vim_visual_chords()),
    }
}

/// The bytes that a key or a command may insert at most, beside the clipboard: a level of indent.
pub const TYPED_BYTES: usize = 16;

/// The name that a path is shown by.
pub open spec fn shown_name(path: Option<Seq<char>>) -> Seq<char> {
    match path {
        Some(p) => match file_name(p) {
            Some(name) => name,
            None => "[scratch]"@,
        },
        None => "[scratch]"@,
    }
}

/// Whether a key press takes a modifier that keeps it from inserting text.
pub open spec fn modified(key: KeyPress) -> bool {
    key.mods.has(Mods::ctrl().0) || key.mods.has(Mods::alt().0) || key.mods.has(
        Mods::super_key().0,
    )
}

impl EditState {
    /// The width of indents is sane.
    pub open spec fn wf(self) -> bool {
        1 <= self.tab_width <= 16
    }

    /// Whether the document has room for what a key may insert.
    pub open spec fn has_room(self, d: Doc) -> bool {
        d.room(most(TYPED_BYTES as int, byte_len(self.clipboard) as int) as nat)
    }

    /// An editor at the start of a document.
    pub open spec fn fresh(caret: Caret) -> EditState {
        EditState {
            caret,
            clipboard: Seq::empty(),
            layers: seq![chord_bindings(cua_chords())],
            keys: Seq::empty(),
            profile: Profile::Cua,
            mode: EditMode::Insert,
            modal: false,
            top: 0,
            left: 0,
            page_rows: 1,
            status: Seq::empty(),
            quit: false,
            saving: false,
            searching: false,
            highlights: Seq::empty(),
            highlighted: None,
            requested: None,
            tab_width: 4,
            diagnostics: Seq::empty(),
            hints: Seq::empty(),
            folds: Seq::empty(),
            folded: Seq::empty(),
            occurrences: Seq::empty(),
        }
    }

    /// With another cursor.
    pub open spec fn at(self, caret: Caret) -> EditState {
        EditState { caret, ..self }
    }

    /// With a message on the status line.
    pub open spec fn saying(self, status: Seq<char>) -> EditState {
        EditState { status, ..self }
    }

    /// With a single keymap and no modes.
    pub open spec fn plain(self, bindings: Bindings) -> EditState {
        EditState {
            modal: false,
            mode: EditMode::Insert,
            layers: seq![bindings],
            keys: Seq::empty(),
            ..self
        }
    }

    /// In another mode, if the profile has modes.
    pub open spec fn in_mode(self, mode: EditMode) -> EditState {
        if self.modal {
            EditState {
                mode,
                layers: seq![mode_bindings(mode)],
                keys: Seq::empty(),
                status: "-- "@ + mode_label(mode) + " --"@,
                ..self
            }
        } else {
            self
        }
    }

    /// In another profile.
    pub open spec fn in_profile(self, profile: Profile) -> EditState {
        let s = EditState { profile, ..self };
        match profile {
            Profile::Cua => s.plain(chord_bindings(cua_chords())),
            Profile::Emacs => s.plain(
                prefixed(
                    chord_bindings(emacs_chords()),
                    KeyPress::ctrl('x'),
                    emacs_prefixed_chords(),
                ),
            ),
            Profile::Vim => EditState { modal: true, ..s }.in_mode(EditMode::Normal),
            Profile::Spacemacs => EditState { modal: true, ..s }.in_mode(EditMode::Normal),
        }
    }

    /// With the innermost foldable region at the cursor folded, or unfolded if it was folded. A
    /// cursor that would be hidden goes to the start of the header.
    pub open spec fn fold_toggled(self, t: Seq<char>) -> EditState {
        let row = self.caret.row(t);
        match innermost(self.folds, row, self.folds.len()) {
            None => self,
            Some(f) => if self.folded.contains(f) {
                EditState { folded: others(self.folded, f, self.folded.len()), ..self }
            } else {
                EditState {
                    folded: self.folded.push(f),
                    caret: if f.start < row {
                        Caret {
                            cursor: snap(t, offset(t, row_start(t, f.start as nat))),
                            anchor: None,
                            goal: None,
                            ..self.caret
                        }
                    } else {
                        self.caret
                    },
                    ..self
                }
            },
        }
    }

    /// With other foldable regions. Those that are folded stay so if they are among them.
    pub open spec fn folding(self, folds: Seq<FoldRange>) -> EditState {
        EditState { folds, folded: still(self.folded, folds, self.folded.len()), ..self }
    }

    /// What is shown beside the text.
    pub open spec fn look(self) -> Look {
        Look {
            highlights: self.highlights,
            diagnostics: self.diagnostics,
            hints: self.hints,
            occurrences: self.occurrences,
        }
    }

    /// With the selection copied.
    pub open spec fn copied(self, d: Doc) -> EditState {
        match self.caret.selection(d.text) {
            Some(range) => EditState {
                clipboard: d.text.subrange(range.0, range.1),
                status: "copied"@,
                ..self
            },
            None => self,
        }
    }

    /// With the selection cut.
    pub open spec fn cut(self, d: Doc) -> (EditState, Doc) {
        match self.caret.selection(d.text) {
            Some(range) => {
                let (caret, doc) = selection_deleted(self.caret, d);
                (
                    EditState {
                        caret,
                        clipboard: d.text.subrange(range.0, range.1),
                        status: "cut"@,
                        ..self
                    },
                    doc,
                )
            },
            None => (self, d),
        }
    }

    /// With the rest of the line cut.
    pub open spec fn killed(self, d: Doc) -> (EditState, Doc) {
        let (caret, doc) = line_killed(self.caret, d);
        let range = self.caret.rest_of_line(d.text);
        let text = d.text.subrange(range.0, range.1);
        if text.len() > 0 {
            (EditState { caret, clipboard: text, status: "killed line"@, ..self }, doc)
        } else {
            (self.at(caret), doc)
        }
    }

    /// With a text inserted.
    pub open spec fn typed(self, d: Doc, text: Seq<char>) -> (EditState, Doc) {
        let (caret, doc) = inserted(self.caret, d, text);
        (self.at(caret), doc)
    }

    /// With the cursor moved.
    pub open spec fn moved(self, d: Doc, act: Act) -> EditState {
        let t = d.text;
        let c = self.caret;
        self.at(
            match act {
                Act::Left(extend) => c.left(t, extend),
                Act::Right(extend) => c.right(t, extend),
                Act::Up(extend) => if c.row(t) > 0 {
                    c.up(t, 1, extend)
                } else {
                    c.started(t, extend)
                },
                Act::Down(extend) => if c.row(t) < newlines(t) {
                    c.down(t, 1, extend)
                } else {
                    c.started(t, extend)
                },
                Act::LineStart => c.started(t, false).put(t, line_start(t, c.at(t))),
                Act::LineEnd => c.started(t, false).put(t, line_end(t, c.at(t))),
                Act::PageUp => c.up(t, most(self.page_rows as int, 1) as nat, false),
                Act::PageDown => c.down(t, most(self.page_rows as int, 1) as nat, false),
                Act::SelectAll => Caret { cursor: byte_len(t), anchor: Some(0), goal: None, ..c },
                _ => c,
            },
        )
    }

    /// With a command carried out. An unknown one, of the name `command`, is reported.
    pub open spec fn acted(self, d: Doc, act: Act, command: Seq<char>) -> (EditState, Doc) {
        match act {
            Act::DeleteBackward => {
                let (caret, doc) = backspaced(self.caret, d);
                (self.at(caret), doc)
            },
            Act::DeleteForward => {
                let (caret, doc) = deleted(self.caret, d);
                (self.at(caret), doc)
            },
            Act::Newline => self.typed(d, "\n"@),
            Act::Indent => self.typed(d, repeat(' ', self.tab_width)),
            Act::Undo => {
                let (caret, doc) = undone_through(self.caret, d);
                (self.at(caret), doc)
            },
            Act::Redo => {
                let (caret, doc) = redone_through(self.caret, d);
                (self.at(caret), doc)
            },
            Act::Copy => (self.copied(d), d),
            Act::Cut => self.cut(d),
            Act::KillLine => self.killed(d),
            Act::Paste => self.typed(d, self.clipboard),
            Act::Enter(mode) => (self.in_mode(mode), d),
            Act::Switch(profile) => (self.in_profile(profile), d),
            Act::Save => (EditState { saving: true, ..self }, d),
            Act::Find => (
                EditState { searching: true, ..self.saying("find: not yet implemented (M1)"@) },
                d,
            ),
            Act::Quit => (EditState { quit: true, ..self }, d),
            Act::ToggleFold => (self.fold_toggled(d.text), d),
            Act::Unknown => (self.saying("unbound command: "@ + command), d),
            _ => (self.moved(d, act), d),
        }
    }

    /// With the command `command` carried out.
    pub open spec fn executed(self, d: Doc, command: Seq<char>) -> (EditState, Doc) {
        self.acted(d, act_of(command), command)
    }

    /// With a key fed: its command carried out, or the key inserted.
    pub open spec fn fed(self, d: Doc, key: KeyPress) -> (EditState, Doc) {
        let resolved = resolve_layers(self.layers, self.keys.push(key));
        let s = EditState {
            keys: match resolved {
                Resolved::Pending => self.keys.push(key),
                _ => Seq::empty(),
            },
            ..self
        };
        match resolved {
            Resolved::Command(name) => s.executed(d, name),
            Resolved::Pending => (s, d),
            Resolved::Unbound(chord) => if chord.len() == 1 && !modified(chord[0]) && s.mode
                == EditMode::Insert {
                match chord[0].code {
                    KeyCode::Char(c) => s.typed(d, seq![c]),
                    _ => (s, d),
                }
            } else {
                (s, d)
            },
        }
    }
}

/// The editing session: a view of a document, its keymaps, a clipboard and a viewport.
#[derive(Debug)]
pub struct Editor {
    buffer: Buffer,
    clipboard: String,
    dispatcher: Dispatcher,
    profile: Profile,
    mode: EditMode,
    modal: bool,
    viewport_top: usize,
    viewport_left: usize,
    page_rows: usize,
    status: String,
    quit: bool,
    saving: bool,
    searching: bool,
    highlights: SpanLayer,
    highlighted_revision: Option<u64>,
    requested_revision: Option<u64>,
    tab_width: usize,
    diagnostics: Vec<Diagnostic>,
    hints: Vec<InlayHint>,
    folds: Vec<FoldRange>,
    folded: Vec<FoldRange>,
    occurrences: Vec<Occurrence>,
}

/// A revision as a number.
pub open spec fn opt_rev(n: Option<u64>) -> Option<nat> {
    match n {
        Some(n) => Some(n as nat),
        None => None,
    }
}

/// A dispatcher over a single keymap.
fn single(keymap: Keymap) -> (r: Dispatcher)
    ensures
        r.layers() == seq![keymap@],
        r.keys() == Seq::<KeyPress>::empty(),
{
    let mut layers: Vec<Keymap> = Vec::new();
    layers.push(keymap);
    let ghost all = layers@.map_values(|k: Keymap| k@);
    assert(all =~= seq![keymap@]);
    Dispatcher::new(layers)
}

impl Editor {
    /// The state of the editor.
    pub closed spec fn state(self) -> EditState {
        EditState {
            caret: self.buffer.caret(),
            clipboard: self.clipboard@,
            layers: self.dispatcher.layers(),
            keys: self.dispatcher.keys(),
            profile: self.profile,
            mode: self.mode,
            modal: self.modal,
            top: self.viewport_top as nat,
            left: self.viewport_left as nat,
            page_rows: self.page_rows as nat,
            status: self.status@,
            quit: self.quit,
            saving: self.saving,
            searching: self.searching,
            highlights: self.highlights@,
            highlighted: opt_rev(self.highlighted_revision),
            requested: opt_rev(self.requested_revision),
            tab_width: self.tab_width as nat,
            diagnostics: self.diagnostics@,
            hints: self.hints@,
            folds: self.folds@,
            folded: self.folded@,
            occurrences: self.occurrences@,
        }
    }

    /// An editor on a new, empty document.
    pub fn new() -> (r: (Document, Self))
        ensures
            r.0@ == Doc::fresh(Seq::empty(), None),
            r.0@.wf(),
            r.1.state() == EditState::fresh(Caret::fresh(0)),
            r.1.state().wf(),
    {
        let (document, buffer) = Buffer::scratch();
        (document, Editor::with_buffer(buffer))
    }

    /// An editor on a view of a document, with the CUA keymap.
    pub fn with_buffer(buffer: Buffer) -> (r: Self)
        ensures
            r.state() == EditState::fresh(buffer.caret()),
            r.state().wf(),
    {
        let r = Editor {
            buffer,
            clipboard: String::new(),
            dispatcher: single(cua()),
            profile: Profile::Cua,
            mode: EditMode::Insert,
            modal: false,
            viewport_top: 0,
            viewport_left: 0,
            page_rows: 1,
            status: String::new(),
            quit: false,
            saving: false,
            searching: false,
            highlights: SpanLayer::new(),
            highlighted_revision: None,
            requested_revision: None,
            tab_width: 4,
            diagnostics: Vec::new(),
            hints: Vec::new(),
            folds: Vec::new(),
            folded: Vec::new(),
            occurrences: Vec::new(),
        };
        assert(r.state().clipboard =~= Seq::empty());
        assert(r.state().status =~= Seq::empty());
        assert(r.state().diagnostics =~= Seq::empty());
        assert(r.state().hints =~= Seq::empty());
        assert(r.state().folds =~= Seq::empty());
        assert(r.state().folded =~= Seq::empty());
        assert(r.state().occurrences =~= Seq::empty());
        r
    }

    /// A second view of the same document: it shares the text and the undo history, and has a
    /// cursor and a viewport of its own.
    pub fn view(&self) -> (r: Self)
        requires
            self.state().wf(),
        ensures
            r.state() == (EditState {
                tab_width: self.state().tab_width,
                ..EditState::fresh(Caret::fresh(self.state().caret.document))
            }),
            r.state().wf(),
    {
        let mut editor = Editor::with_buffer(self.buffer.view());
        editor.set_tab_width(self.tab_width);
        editor
    }

    /// Sets the width of indents, kept between 1 and 16.
    pub fn set_tab_width(&mut self, width: usize)
        ensures
            final(self).state() == (EditState {
                tab_width: clamp(width as int, 1, 16) as nat,
                ..old(self).state()
            }),
            final(self).state().wf(),
    {
        self.tab_width = if width < 1 {
            1
        } else if width > 16 {
            16
        } else {
            width
        };
    }

    /// Switches to a profile. A key is handled as a whole before the next one, so that nothing
    /// typed is lost.
    pub fn set_profile(&mut self, profile: Profile)
        requires
            old(self).state().wf(),
        ensures
            final(self).state() == old(self).state().in_profile(profile),
            final(self).state().wf(),
    {
        self.profile = profile;
        match profile {
            Profile::Cua => {
                self.set_non_modal(cua());
            },
            Profile::Emacs => {
                self.set_non_modal(emacs());
            },
            Profile::Vim | Profile::Spacemacs => {
                self.modal = true;
                self.set_mode(EditMode::Normal);
            },
        }
    }

    fn set_non_modal(&mut self, keymap: Keymap)
        ensures
            final(self).state() == old(self).state().plain(keymap@),
    {
        self.modal = false;
        self.mode = EditMode::Insert;
        self.dispatcher = single(keymap);
    }

    /// Switches to the Vim profile, in Normal mode.
    pub fn enable_vim(&mut self)
        requires
            old(self).state().wf(),
        ensures
            final(self).state() == old(self).state().in_profile(Profile::Vim),
            final(self).state().wf(),
    {
        self.set_profile(Profile::Vim);
    }

    /// The profile.
    pub fn profile(&self) -> (r: Profile)
        ensures
            r == self.state().profile,
    {
        self.profile
    }

    /// The current mode.
    pub fn mode(&self) -> (r: EditMode)
        ensures
            r == self.state().mode,
    {
        self.mode
    }

    fn set_mode(&mut self, mode: EditMode)
        ensures
            final(self).state() == old(self).state().in_mode(mode),
    {
        if !self.modal {
            return ;
        }
        let keymap = match mode {
            EditMode::Insert => vim_insert(),
            EditMode::Normal => vim_normal(),
            EditMode::Visual => vim_visual(),
        };
        self.dispatcher = single(keymap);
        self.mode = mode;
        let mut status = "-- ".to_owned();
        status.append(mode.label());
        status.append(" --");
        self.status = status;
    }

    /// The view of the document.
    pub fn buffer(&self) -> (r: &Buffer)
        ensures
            r.caret() == self.state().caret,
    {
        &self.buffer
    }

    /// The view of the document, to be changed.
    pub fn buffer_mut(&mut self) -> (r: &mut Buffer)
        ensures
            r.caret() == old(self).state().caret,
            final(self).state() == old(self).state().at(final(r).caret()),
    {
        &mut self.buffer
    }

    /// Whether a quit command was given.
    pub fn should_quit(&self) -> (r: bool)
        ensures
            r == self.state().quit,
    {
        self.quit
    }

    /// The message on the status line.
    pub fn status(&self) -> (r: &str)
        ensures
            r@ == self.state().status,
    {
        self.status.as_str()
    }

    /// Sets the message on the status line.
    pub fn set_status(&mut self, message: &str)
        ensures
            final(self).state() == old(self).state().saying(message@),
    {
        self.status = message.to_owned();
    }

    /// The clipboard.
    pub fn clipboard(&self) -> (r: &str)
        ensures
            r@ == self.state().clipboard,
    {
        self.clipboard.as_str()
    }

    /// Replaces the clipboard.
    pub fn set_clipboard(&mut self, text: &str)
        ensures
            final(self).state() == (EditState { clipboard: text@, ..old(self).state() }),
    {
        self.clipboard = text.to_owned();
    }

    /// Takes the request to save the file, if there is one.
    pub fn take_save_request(&mut self) -> (r: bool)
        ensures
            r == old(self).state().saving,
            final(self).state() == (EditState { saving: false, ..old(self).state() }),
    {
        let r = self.saving;
        self.saving = false;
        r
    }

    /// Takes the outcome of writing the file: on success the document is saved. A document without
    /// a path cannot be.
    pub fn save_finished(&mut self, doc: &mut Document, error: Option<&str>)
        ensures
            ({
                let no_path = old(doc)@.path is None;
                &&& final(self).state() == old(self).state().saying(
                    if no_path {
                        "save failed: buffer has no path"@
                    } else {
                        match error {
                            Some(message) => "save failed: "@ + message@,
                            None => "saved"@,
                        }
                    },
                )
                &&& final(doc)@ == if no_path || error is Some {
                    old(doc)@
                } else {
                    Doc {
                        journaling: true,
                        ops: Seq::empty(),
                        journal_error: None,
                        recovered: false,
                        dirty: false,
                        ..old(doc)@
                    }
                }
            }),
    {
        if doc.path().is_none() {
            self.status = "save failed: buffer has no path".to_owned();
            return ;
        }
        match error {
            Some(message) => {
                let mut status = "save failed: ".to_owned();
                status.append(message);
                self.status = status;
            },
            None => {
                doc.mark_saved();
                self.status = "saved".to_owned();
            },
        }
    }

    /// Takes the request to open the search, if there is one.
    pub fn take_search_requested(&mut self) -> (r: bool)
        ensures
            r == old(self).state().searching,
            final(self).state() == (EditState { searching: false, ..old(self).state() }),
    {
        let r = self.searching;
        self.searching = false;
        r
    }

    /// The name that the document is shown by: its file name, or `[scratch]`.
    pub fn display_name(&self, doc: &Document) -> (r: String)
        ensures
            r@ == shown_name(doc@.path),
    {
        match doc.path() {
            Some(path) => {
                let p = chars_of(path.as_str());
                match file_name_of(p.as_slice()) {
                    Some(name) => string_of(name.as_slice()),
                    None => "[scratch]".to_owned(),
                }
            },
            None => "[scratch]".to_owned(),
        }
    }

    /// Feeds a key: runs the command that it resolves to, waits for more keys, or inserts it.
    pub fn handle_key(&mut self, doc: &mut Document, key: KeyPress) -> (r: Resolution)
        requires
            old(self).state().wf(),
            old(doc)@.wf(),
            old(self).state().has_room(old(doc)@),
        ensures
            r@ == resolve_layers(old(self).state().layers, old(self).state().keys.push(key)),
            (final(self).state(), final(doc)@) == old(self).state().fed(old(doc)@, key),
            final(self).state().wf(),
            final(doc)@.wf(),
    {
        let resolution = self.dispatcher.feed(key);
        match &resolution {
            Resolution::Command(command) => {
                self.execute(doc, command.name());
            },
            Resolution::Pending => {},
            Resolution::Unbound(chord) => {
                if chord.len() == 1 {
                    let press = chord[0];
                    if let KeyCode::Char(ch) = press.code {
                        let modified = press.mods.contains(Mods::ctrl()) || press.mods.contains(
                            Mods::alt(),
                        ) || press.mods.contains(Mods::super_key());
                        if !modified && self.mode.inserts_text() {
                            self.self_insert(doc, ch);
                        }
                    }
                }
            },
        }
        resolution
    }

    /// Inserts a character at the cursor.
    pub fn self_insert(&mut self, doc: &mut Document, ch: char)
        requires
            old(self).state().wf(),
            old(doc)@.wf(),
            old(doc)@.room(TYPED_BYTES as nat),
        ensures
            (final(self).state(), final(doc)@) == old(self).state().typed(old(doc)@, seq![ch]),
            final(self).state().wf(),
            final(doc)@.wf(),
    {
        proof {
            reveal_with_fuel(byte_len, 2);
            assert(byte_len(seq![ch]) <= 4) by {
                assert(seq![ch].drop_last() =~= Seq::<char>::empty());
            }
        }
        self.buffer.insert_char(doc, ch);
    }

    /// Runs the command of the given name.
    pub fn execute(&mut self, doc: &mut Document, command: &str)
        requires
            old(self).state().wf(),
            old(doc)@.wf(),
            old(self).state().has_room(old(doc)@),
        ensures
            (final(self).state(), final(doc)@) == old(self).state().executed(
                old(doc)@,
                command@,
            ),
            final(self).state().wf(),
            final(doc)@.wf(),
    {
        match classify(command) {
            Act::DeleteBackward => {
                self.buffer.backspace(doc);
            },
            Act::DeleteForward => {
                self.buffer.delete_forward(doc);
            },
            Act::Newline => {
                self.insert_newline(doc);
            },
            Act::Indent => {
                self.insert_indent(doc);
            },
            Act::Undo => {
                self.buffer.undo(doc);
            },
            Act::Redo => {
                self.buffer.redo(doc);
            },
            Act::Copy => {
                self.copy(doc);
            },
            Act::Cut => {
                self.cut(doc);
            },
            Act::KillLine => {
                self.kill_line(doc);
            },
            Act::Paste => {
                let text = self.clipboard.clone();
                self.buffer.insert(doc, text.as_str());
            },
            Act::Enter(mode) => {
                self.set_mode(mode);
            },
            Act::Switch(profile) => {
                self.set_profile(profile);
            },
            Act::Save => {
                self.saving = true;
            },
            Act::Find => {
                self.searching = true;
                self.status = "find: not yet implemented (M1)".to_owned();
            },
            Act::Quit => {
                self.quit = true;
            },
            Act::ToggleFold => {
                self.toggle_fold(doc);
            },
            Act::Unknown => {
                let mut status = "unbound command: ".to_owned();
                status.append(command);
                self.status = status;
            },
            act => {
                self.travel(doc, act);
            },
        }
    }

    fn insert_newline(&mut self, doc: &mut Document)
        requires
            old(doc)@.wf(),
            old(doc)@.room(TYPED_BYTES as nat),
        ensures
            (final(self).state(), final(doc)@) == old(self).state().typed(old(doc)@, "\n"@),
            final(doc)@.wf(),
    {
        proof {
            reveal_strlit("\n");
            reveal_with_fuel(byte_len, 2);
            assert("\n"@.drop_last() =~= Seq::<char>::empty());
            assert(byte_len("\n"@) <= 4);
        }
        self.buffer.insert(doc, "\n");
    }

    fn insert_indent(&mut self, doc: &mut Document)
        requires
            old(self).state().wf(),
            old(doc)@.wf(),
            old(doc)@.room(TYPED_BYTES as nat),
        ensures
            (final(self).state(), final(doc)@) == old(self).state().typed(
                old(doc)@,
                repeat(' ', old(self).state().tab_width),
            ),
            final(doc)@.wf(),
    {
        let text = repeated(' ', self.tab_width);
        proof {
            lemma_blank_bytes(self.tab_width as nat);
        }
        self.buffer.insert(doc, text.as_str());
    }

    /// Moves the cursor.
    fn travel(&mut self, doc: &Document, act: Act)
        requires
            doc@.wf(),
        ensures
            final(self).state() == old(self).state().moved(doc@, act),
    {
        match act {
            Act::Left(extend) => {
                self.buffer.move_left(doc, extend);
            },
            Act::Right(extend) => {
                self.buffer.move_right(doc, extend);
            },
            Act::Up(extend) => {
                self.buffer.move_up(doc, extend);
            },
            Act::Down(extend) => {
                self.buffer.move_down(doc, extend);
            },
            Act::LineStart => {
                self.buffer.move_line_start(doc, false);
            },
            Act::LineEnd => {
                self.buffer.move_line_end(doc, false);
            },
            Act::PageUp => {
                self.buffer.move_page_up(doc, self.page_rows, false);
            },
            Act::PageDown => {
                self.buffer.move_page_down(doc, self.page_rows, false);
            },
            Act::SelectAll => {
                self.buffer.select_all(doc);
            },
            _ => {},
        }
    }

    fn copy(&mut self, doc: &Document)
        requires
            doc@.wf(),
        ensures
            final(self).state() == old(self).state().copied(doc@),
    {
        if let Some(text) = self.buffer.selected_text(doc) {
            self.clipboard = text;
            self.status = "copied".to_owned();
        }
    }

    fn cut(&mut self, doc: &mut Document)
        requires
            old(doc)@.wf(),
            old(doc)@.room(0),
        ensures
            (final(self).state(), final(doc)@) == old(self).state().cut(old(doc)@),
            final(doc)@.wf(),
    {
        if let Some(text) = self.buffer.selected_text(doc) {
            self.clipboard = text;
            self.buffer.delete_selection(doc);
            self.status = "cut".to_owned();
        }
    }

    /// Cuts from the cursor to the end of the line, or the line break there.
    fn kill_line(&mut self, doc: &mut Document)
        requires
            old(doc)@.wf(),
            old(doc)@.room(0),
        ensures
            (final(self).state(), final(doc)@) == old(self).state().killed(old(doc)@),
            final(doc)@.wf(),
    {
        let killed = self.buffer.kill_line(doc);
        let t = chars_of(killed.as_str());
        if t.len() > 0 {
            self.clipboard = killed;
            self.status = "killed line".to_owned();
        }
    }
}

proof fn lemma_blank_bytes(n: nat)
    ensures
        byte_len(repeat(' ', n)) == n,
    decreases n,
{
    if n > 0 {
        assert(repeat(' ', n).drop_last() =~= repeat(' ', (n - 1) as nat));
        lemma_blank_bytes((n - 1) as nat);
    }
}

/// The glyphs of a line from `i` on drawn into `area` at row `y`, where glyph `i` stands in the
/// display column `display`. What lies left of the column `left` only counts with its width.
pub open spec fn draw_line(
    c: Canvas,
    line: Seq<(char, Style)>,
    i: nat,
    display: nat,
    left: nat,
    area: Rect,
    y: int,
) -> Canvas
    decreases line.len() - i,
{
    if i >= line.len() || display >= left + area.width {
        c
    } else {
        let (ch, style) = line[i as int];
        draw_line(
            if display >= left {
                c.glyph(area.x + display - left, y, ch, style)
            } else {
                c
            },
            line,
            i + 1,
            capped((display + cells_of(c.glyphs, ch)) as int),
            left,
            area,
            y,
        )
    }
}

/// The marker behind the header of a folded region.
pub open spec fn fold_marker() -> Seq<char> {
    " ⋯"@
}

/// The glyphs of a row of a text: its characters with the hints, and the marker if it heads a folded
/// region.
pub open spec fn row_glyphs(t: Seq<char>, row: nat, s: EditState, theme: Theme) -> Seq<
    (char, Style),
> {
    shown_glyphs(s.look(), line_of(t, row), 0, offset(t, row_start(t, row)), theme) + styled(
        if heads(s.folded, row) {
            fold_marker()
        } else {
            Seq::empty()
        },
        muted(&theme),
    )
}

/// The rows of a text from `row` on that are not hidden drawn, from row `i` of `area` on.
pub open spec fn draw_text(
    c: Canvas,
    t: Seq<char>,
    i: nat,
    row: nat,
    s: EditState,
    area: Rect,
    theme: Theme,
) -> Canvas
    decreases newlines(t) + 1 - row,
{
    if i >= area.height || row > newlines(t) {
        c
    } else if hidden(s.folded, row) {
        draw_text(c, t, i, row + 1, s, area, theme)
    } else {
        draw_text(
            draw_line(c, row_glyphs(t, row, s, theme), 0, 0, s.left, area, area.y + i as int),
            t,
            i + 1,
            row + 1,
            s,
            area,
            theme,
        )
    }
}

/// The first column in view such that `at` is among the `extent` in view: the current one, or the
/// nearest to it.
pub open spec fn scrolled_to(first: nat, at: nat, extent: nat) -> nat {
    if extent == 0 {
        first
    } else if at < first {
        at
    } else if at >= first + extent {
        (at + 1 - extent) as nat
    } else {
        first
    }
}

/// The first row in view such that `at` is among the `extent` shown rows in view: the current one,
/// or the nearest to it.
pub open spec fn scrolled_rows(folded: Seq<FoldRange>, first: nat, at: nat, extent: nat) -> nat {
    if extent == 0 {
        first
    } else if at < first {
        at
    } else if shown_between(folded, first, at) >= extent {
        line_above(folded, at, (extent - 1) as nat)
    } else {
        first
    }
}

impl EditState {
    /// The display column of the cursor: the widths of what is shown before it on its line, the
    /// hints with it.
    pub open spec fn display_column(self, t: Seq<char>, glyphs: Glyphs) -> nat {
        let i = self.caret.at(t);
        let start = line_start(t, i);
        capped(
            width_of(
                glyphs,
                shown_text(self.hints, t.subrange(start, i), 0, offset(t, start)),
            ) as int,
        )
    }

    /// The row that the cursor is shown in: its own, or the header of the folded region that hides
    /// it.
    pub open spec fn shown_row(self, t: Seq<char>) -> nat {
        shown_line(self.folded, self.caret.row(t))
    }

    /// With the viewport moved so that the cursor is in view.
    pub open spec fn revealed(self, t: Seq<char>, area: Rect, glyphs: Glyphs) -> EditState {
        EditState {
            top: scrolled_rows(self.folded, self.top, self.shown_row(t), area.height as nat),
            left: scrolled_to(self.left, self.display_column(t, glyphs), area.width as nat),
            ..self
        }
    }

    /// After it was drawn into `area`.
    pub open spec fn after_drawing(self, t: Seq<char>, area: Rect, glyphs: Glyphs) -> EditState {
        if area.is_empty() {
            self
        } else {
            EditState { page_rows: area.height as nat, ..self.revealed(t, area, glyphs) }
        }
    }

    /// Where the cursor stands on the screen, if it is in view. In a hidden line it is not.
    pub open spec fn cursor_cell(self, t: Seq<char>, area: Rect, glyphs: Glyphs) -> Option<
        (u32, u32),
    > {
        let at = self.caret.row(t);
        let row = shown_between(self.folded, self.top, at);
        let column = self.display_column(t, glyphs) - self.left;
        if self.top <= at && !hidden(self.folded, at) && row < area.height && 0 <= column < area.width {
            Some(((area.x + column) as u32, (area.y + row) as u32))
        } else {
            None
        }
    }

    /// The document drawn into `area` over `c`, with the cursor if it is focused.
    pub open spec fn drawn(
        self,
        c: Canvas,
        t: Seq<char>,
        area: Rect,
        theme: Theme,
        focused: bool,
    ) -> Canvas {
        if area.is_empty() {
            c
        } else {
            let s = self.revealed(t, area, c.glyphs);
            let text = draw_text(
                c.blank_rows(
                    area.x as int,
                    area.right_col(),
                    area.y as int,
                    area.bottom_row(),
                    theme.base_style(),
                ),
                t,
                0,
                s.top,
                s,
                area,
                theme,
            );
            if focused {
                with_cursor(text, s.cursor_cell(t, area, c.glyphs), theme)
            } else {
                text
            }
        }
    }

    /// The text of the status line.
    pub open spec fn status_text(self, d: Doc) -> Seq<char> {
        " "@ + shown_name(d.path) + (if d.dirty {
            " *"@
        } else {
            Seq::empty()
        }) + "   Ln "@ + decimal(self.caret.row(d.text) + 1) + ", Col "@ + decimal(
            self.caret.column(d.text) + 1,
        ) + "   "@ + self.status + (match self.problem(d.text) {
            Some(message) => "   "@ + message,
            None => Seq::empty(),
        })
    }

    /// The message of the first problem on the cursor's line.
    pub open spec fn problem(self, t: Seq<char>) -> Option<Seq<char>> {
        let i = self.caret.at(t);
        line_message(self.diagnostics, offset(t, line_start(t, i)), offset(t, line_end(t, i)), 0)
    }
}

/// The cell at the cursor drawn in reverse.
pub open spec fn with_cursor(c: Canvas, at: Option<(u32, u32)>, theme: Theme) -> Canvas {
    match at {
        Some((x, y)) => {
            let cell = if x < c.width && y < c.rows.len() {
                c.rows[y as int][x as int]
            } else {
                Cell::new(' ', theme.base_style())
            };
            c.put(x as int, y as int, Cell::new(cell.symbol, cell.style.reverse()))
        },
        None => c,
    }
}

proof fn lemma_next_row(t: Seq<char>, row: nat)
    requires
        row < newlines(t),
    ensures
        0 <= row_start(t, row) <= t.len(),
        line_end(t, row_start(t, row)) < t.len(),
        row_start(t, row + 1) == line_end(t, row_start(t, row)) + 1,
{
    lemma_row_start_bounds(t, row);
    let i = row_start(t, row);
    lemma_line_end(t, i);
    let e = line_end(t, i);
    if e == t.len() {
        lemma_row_mono(t, 0, t.len() as int);
        assert(row_at(t, e) == newlines(t));
    }
    lemma_row_step(t, e);
    lemma_row_start(t, row + 1, e + 1);
}

/// Draws the glyphs of a line.
fn put_line(surface: &mut Surface, line: &[(char, Style)], left: usize, area: Rect, y: u32)
    requires
        old(surface)@.wf(),
        area.fits(),
    ensures
        final(surface)@ == draw_line(old(surface)@, line@, 0, 0, left as nat, area, y as int),
        final(surface)@.wf(),
{
    let ghost base = surface@;
    let mut i: usize = 0;
    let mut display: usize = 0;
    while i < line.len()
        invariant
            surface@.wf(),
            area.fits(),
            i <= line@.len(),
            base == old(surface)@,
            draw_line(base, line@, 0, 0, left as nat, area, y as int) == draw_line(
                surface@,
                line@,
                i as nat,
                display as nat,
                left as nat,
                area,
                y as int,
            ),
        decreases line@.len() - i,
    {
        let (ch, style) = line[i];
        if display >= left {
            let screen: usize = display - left;
            if screen >= area.width as usize {
                return ;
            }
            surface.set_char(area.x + screen as u32, y, ch, style);
        }
        let width = surface.glyphs().char_width(ch) as usize;
        display = display.saturating_add(width);
        i += 1;
    }
}

impl Editor {
    /// The display column of the cursor: the widths of what is shown before it on its line.
    fn cursor_display_column(&self, doc: &Document, glyphs: &Glyphs) -> (r: usize)
        requires
            doc@.wf(),
        ensures
            r == self.state().display_column(doc@.text, *glyphs),
    {
        let t = doc.chars();
        let column = self.buffer.cursor_column(doc);
        let ghost i = self.buffer.caret().at(doc@.text);
        let row = self.buffer.cursor_point(doc).row;
        proof {
            lemma_index_bounds(doc@.text, self.buffer.caret().cursor);
            lemma_line_start(doc@.text, i);
            lemma_row_mono(doc@.text, i, doc@.text.len() as int);
        }
        let start = find_row_start(t, row);
        let total = t.len();
        assert(start + column == i <= total);
        let before = slice_of(t, start, start + column);
        assert(before@ =~= doc@.text.subrange(line_start(doc@.text, i), i));
        proof {
            lemma_offset_mono(doc@.text, start as int, i);
            lemma_offset_mono(doc@.text, i, doc@.text.len() as int);
            lemma_byte_len_concat(doc@.text.take(start as int), before@);
            assert(doc@.text.take(start as int) + before@ =~= doc@.text.take(i));
            assert(before@.take(before@.len() as int) =~= before@);
            assert(doc@.text.take(doc@.text.len() as int) =~= doc@.text);
        }
        let start_byte = find_offset(t, start);
        let shown = with_hints(self.hints.as_slice(), before.as_slice(), start_byte);
        cells_width(glyphs, shown.as_slice())
    }

    /// Moves the viewport so that the cursor is in view.
    fn ensure_cursor_visible(&mut self, doc: &Document, area: Rect, glyphs: &Glyphs)
        requires
            doc@.wf(),
        ensures
            final(self).state() == old(self).state().revealed(doc@.text, area, *glyphs),
    {
        let rows = area.height as usize;
        let row = find_shown_line(self.folded.as_slice(), self.buffer.cursor_point(doc).row);
        let columns = area.width as usize;
        let column = self.cursor_display_column(doc, glyphs);
        if rows > 0 {
            if row < self.viewport_top {
                self.viewport_top = row;
            } else if count_shown(self.folded.as_slice(), self.viewport_top, row) >= rows {
                self.viewport_top = find_line_above(self.folded.as_slice(), row, rows - 1);
            }
        }
        if columns > 0 {
            if column < self.viewport_left {
                self.viewport_left = column;
            } else if column - self.viewport_left >= columns {
                self.viewport_left = column - (columns - 1);
            }
        }
    }

    /// Where the cursor stands on the screen when the document is drawn into `area`, if it is in
    /// view.
    pub fn cursor_screen_position(&self, doc: &Document, area: Rect, glyphs: &Glyphs) -> (r: Option<
        (u32, u32),
    >)
        requires
            doc@.wf(),
            area.fits(),
        ensures
            r == self.state().cursor_cell(doc@.text, area, *glyphs),
    {
        let row = self.buffer.cursor_point(doc).row;
        let column = self.cursor_display_column(doc, glyphs);
        if row < self.viewport_top || column < self.viewport_left || is_hidden(
            self.folded.as_slice(),
            row,
        ) {
            return None;
        }
        let y = count_shown(self.folded.as_slice(), self.viewport_top, row);
        let x: usize = column - self.viewport_left;
        if y >= area.height as usize || x >= area.width as usize {
            return None;
        }
        Some((area.x + x as u32, area.y + y as u32))
    }

    /// Draws the document over the whole surface, with the status line on the last row.
    pub fn render(&mut self, doc: &Document, surface: &mut Surface, theme: &Theme)
        requires
            doc@.wf(),
            old(surface)@.wf(),
        ensures
            ({
                let c = old(surface)@;
                let s = old(self).state();
                let area = Rect::new(0, 0, c.width as u32, c.rows.len() as u32);
                let (content, bar) = area.bottom_split(1);
                let line = s.after_drawing(doc@.text, content, c.glyphs).status_text(doc@);
                &&& final(surface)@ == if area.is_empty() {
                    c
                } else {
                    s.drawn(c, doc@.text, content, *theme, true).blank(
                        0,
                        c.width as int,
                        bar.y as int,
                        theme.inverse(),
                    ).text(0, bar.y as int, line, theme.inverse())
                }
                &&& final(self).state() == s.after_drawing(doc@.text, content, c.glyphs)
            }),
            final(surface)@.wf(),
    {
        let area = surface.area();
        let (content, bar) = area.split_bottom(1);
        if area.is_empty() {
            return ;
        }
        self.render_in(doc, surface, content, theme, true);
        let line = self.status_line(doc);
        surface.blank(0, area.width, bar.y, theme.inverse());
        surface.set_str(0, bar.y, line.as_str(), theme.inverse());
    }

    /// Draws the document into `area`, with the cursor if it is focused.
    pub fn render_in(
        &mut self,
        doc: &Document,
        surface: &mut Surface,
        area: Rect,
        theme: &Theme,
        focused: bool,
    )
        requires
            doc@.wf(),
            old(surface)@.wf(),
            area.fits(),
        ensures
            final(surface)@ == old(self).state().drawn(
                old(surface)@,
                doc@.text,
                area,
                *theme,
                focused,
            ),
            final(surface)@.wf(),
            final(self).state() == old(self).state().after_drawing(
                doc@.text,
                area,
                old(surface)@.glyphs,
            ),
    {
        if area.is_empty() {
            return ;
        }
        self.ensure_cursor_visible(doc, area, surface.glyphs());
        let at = self.cursor_screen_position(doc, area, surface.glyphs());
        surface.fill(area, theme.base_style());
        self.put_text(doc, surface, area, theme);
        self.page_rows = area.height as usize;
        if focused {
            if let Some((x, y)) = at {
                let cell = match surface.cell(x, y) {
                    Some(cell) => cell,
                    None => Cell::new(' ', theme.base_style()),
                };
                surface.set(x, y, Cell::new(cell.symbol, cell.style.reverse()));
            }
        }
    }

    /// The glyphs of a row, which starts with the character `start` at the byte `start_byte` and
    /// ends before the character `end` at the byte `end_byte`.
    fn glyphs_in(
        &self,
        doc: &Document,
        row: usize,
        start: usize,
        end: usize,
        start_byte: usize,
        end_byte: usize,
        theme: &Theme,
    ) -> (r: Vec<(char, Style)>)
        requires
            doc@.wf(),
            start == row_start(doc@.text, row as nat),
            start <= end <= doc@.text.len(),
            end == line_end(doc@.text, start as int),
            start_byte == offset(doc@.text, start as int),
            end_byte == offset(doc@.text, end as int),
        ensures
            r@ == row_glyphs(doc@.text, row as nat, self.state(), *theme),
    {
        let t = doc.chars();
        let line = slice_of(t, start, end);
        proof {
            assert(line@ =~= line_of(t@, row as nat));
            lemma_offset_mono(t@, start as int, end as int);
            lemma_offset_mono(t@, end as int, t@.len() as int);
            lemma_byte_len_concat(t@.take(start as int), line@);
            assert(t@.take(start as int) + line@ =~= t@.take(end as int));
            assert(line@.take(line@.len() as int) =~= line@);
        }
        let styles = visible_styles(
            &self.highlights,
            start_byte,
            end_byte,
            theme.base_style(),
            theme,
        );
        let mut glyphs = glyphs_of(
            line.as_slice(),
            start_byte,
            styles.as_slice(),
            self.diagnostics.as_slice(),
            self.hints.as_slice(),
            self.occurrences.as_slice(),
            theme,
            Ghost(self.state().look()),
        );
        let ghost text = glyphs@;
        if is_head(self.folded.as_slice(), row) {
            proof {
                reveal_strlit(" ⋯");
            }
            glyphs.push((' ', muted(theme)));
            glyphs.push(('⋯', muted(theme)));
            assert(glyphs@ =~= text + styled(fold_marker(), muted(theme)));
        } else {
            assert(glyphs@ =~= text + styled(Seq::empty(), muted(theme)));
        }
        glyphs
    }

    /// Draws the lines in view.
    fn put_text(&self, doc: &Document, surface: &mut Surface, area: Rect, theme: &Theme)
        requires
            doc@.wf(),
            old(surface)@.wf(),
            area.fits(),
        ensures
            final(surface)@ == draw_text(
                old(surface)@,
                doc@.text,
                0,
                self.state().top,
                self.state(),
                area,
                *theme,
            ),
            final(surface)@.wf(),
    {
        let t = doc.chars();
        let total = crate::text::count_newlines(t);
        let ghost base = surface@;
        let ghost s = self.state();
        if self.viewport_top > total {
            return ;
        }
        let mut start: usize = find_row_start(t, self.viewport_top);
        let mut start_byte: usize = find_offset(t, start);
        let mut row: usize = self.viewport_top;
        let mut i: u32 = 0;
        proof {
            lemma_row_start_bounds(t@, row as nat);
        }
        while i < area.height
            invariant_except_break
                row <= total,
                start == row_start(t@, row as nat),
                start <= t@.len(),
                start_byte == offset(t@, start as int),
                draw_text(base, t@, 0, s.top, s, area, *theme) == draw_text(
                    surface@,
                    t@,
                    i as nat,
                    row as nat,
                    s,
                    area,
                    *theme,
                ),
            invariant
                surface@.wf(),
                area.fits(),
                doc@.wf(),
                t@ == doc@.text,
                i <= area.height,
                total == newlines(t@),
                s == self.state(),
            ensures
                surface@ == draw_text(base, t@, 0, s.top, s, area, *theme),
            decreases total - row,
        {
            let end = find_line_end(t, start);
            let end_byte = find_offset(t, end);
            if !is_hidden(self.folded.as_slice(), row) {
                let line = self.glyphs_in(doc, row, start, end, start_byte, end_byte, theme);
                put_line(surface, line.as_slice(), self.viewport_left, area, area.y + i);
                i += 1;
            }
            assert(draw_text(base, t@, 0, s.top, s, area, *theme) == draw_text(
                surface@,
                t@,
                i as nat,
                (row + 1) as nat,
                s,
                area,
                *theme,
            ));
            if row == total {
                break ;
            }
            proof {
                lemma_next_row(t@, row as nat);
                lemma_offset_step(t@, end as int);
                lemma_offset_mono(t@, end + 1, t@.len() as int);
            }
            start_byte = end_byte + char_bytes(t[end]);
            start = end + 1;
            row += 1;
        }
    }

    /// The text of the status line: the file name, whether it has unsaved changes, the position of
    /// the cursor, and the message.
    pub fn status_line(&self, doc: &Document) -> (r: String)
        requires
            doc@.wf(),
        ensures
            r@ == self.state().status_text(doc@),
    {
        let row = self.buffer.cursor_point(doc).row;
        let column = self.buffer.cursor_column(doc);
        let mut r = " ".to_owned();
        r.append(self.display_name(doc).as_str());
        if doc.is_dirty() {
            r.append(" *");
        }
        r.append("   Ln ");
        r.append(decimal_of(row as u128 + 1).as_str());
        r.append(", Col ");
        r.append(decimal_of(column as u128 + 1).as_str());
        r.append("   ");
        r.append(self.status.as_str());
        let t = doc.chars();
        let ghost i = self.buffer.caret().at(doc@.text);
        proof {
            lemma_index_bounds(doc@.text, self.buffer.caret().cursor);
            lemma_line_start(doc@.text, i);
            lemma_line_end(doc@.text, i);
            lemma_row_mono(doc@.text, i, doc@.text.len() as int);
        }
        let start = find_row_start(t, row);
        let total = t.len();
        assert(start + column == i <= total);
        let end = find_line_end(t, start + column);
        proof {
            lemma_offset_mono(doc@.text, start as int, end as int);
        }
        let ghost before = r@;
        if let Some(message) = find_message(
            self.diagnostics.as_slice(),
            find_offset(t, start),
            find_offset(t, end),
        ) {
            r.append("   ");
            r.append(message);
        } else {
            assert(before + Seq::<char>::empty() =~= before);
        }
        assert(r@ =~= self.state().status_text(doc@));
        r
    }

    /// Whether the current revision is to be highlighted, if it was not asked for before: its
    /// number. The host hands the result to [`Editor::apply_highlights`].
    pub fn highlight_request(&mut self, doc: &Document) -> (r: Option<u64>)
        ensures
            r == if old(self).state().requested == Some(doc@.revision) {
                None::<u64>
            } else {
                Some(doc@.revision as u64)
            },
            final(self).state() == (EditState {
                requested: Some(doc@.revision),
                ..old(self).state()
            }),
    {
        let revision = doc.revision();
        if let Some(requested) = self.requested_revision {
            if requested == revision {
                return None;
            }
        }
        self.requested_revision = Some(revision);
        Some(revision)
    }

    /// Takes the spans of a revision of the document.
    pub fn apply_highlights(&mut self, revision: u64, layer: SpanLayer)
        ensures
            final(self).state() == (EditState {
                highlights: layer@,
                highlighted: Some(revision as nat),
                ..old(self).state()
            }),
    {
        self.highlights = layer;
        self.highlighted_revision = Some(revision);
    }

    /// The first line and the first column in view.
    pub fn viewport(&self) -> (r: (usize, usize))
        ensures
            r.0 == self.state().top,
            r.1 == self.state().left,
    {
        (self.viewport_top, self.viewport_left)
    }

    /// Puts the cursor and the viewport where a saved session had them.
    pub fn restore_position(&mut self, doc: &Document, cursor: usize, top: usize, left: usize)
        requires
            doc@.wf(),
        ensures
            final(self).state() == (EditState {
                caret: Caret {
                    cursor: snap(doc@.text, cursor as nat),
                    anchor: None,
                    goal: None,
                    ..old(self).state().caret
                },
                top: top as nat,
                left: left as nat,
                ..old(self).state()
            }),
    {
        self.buffer.set_cursor(doc, cursor);
        self.viewport_top = top;
        self.viewport_left = left;
    }

    /// Takes the problems reported for the document.
    pub fn set_diagnostics(&mut self, diagnostics: Vec<Diagnostic>)
        ensures
            final(self).state() == (EditState {
                diagnostics: diagnostics@,
                ..old(self).state()
            }),
    {
        self.diagnostics = diagnostics;
    }

    /// The problems reported for the document.
    pub fn diagnostics(&self) -> (r: &[Diagnostic])
        ensures
            r@ == self.state().diagnostics,
    {
        self.diagnostics.as_slice()
    }

    /// Takes the hints to show in the text.
    pub fn set_inlay_hints(&mut self, hints: Vec<InlayHint>)
        ensures
            final(self).state() == (EditState { hints: hints@, ..old(self).state() }),
    {
        self.hints = hints;
    }

    /// The hints to show in the text.
    pub fn inlay_hints(&self) -> (r: &[InlayHint])
        ensures
            r@ == self.state().hints,
    {
        self.hints.as_slice()
    }

    /// Takes the foldable regions of the document. Those that are folded stay so.
    pub fn set_folds(&mut self, folds: Vec<FoldRange>)
        ensures
            final(self).state() == old(self).state().folding(folds@),
    {
        self.folded = kept(self.folded.as_slice(), folds.as_slice());
        self.folds = folds;
    }

    /// Folds the innermost foldable region at the cursor, or unfolds it.
    pub fn toggle_fold(&mut self, doc: &Document)
        requires
            doc@.wf(),
        ensures
            final(self).state() == old(self).state().fold_toggled(doc@.text),
    {
        let row = self.buffer.cursor_point(doc).row;
        if let Some(f) = find_innermost(self.folds.as_slice(), row) {
            if is_among(self.folded.as_slice(), f) {
                self.folded = without(self.folded.as_slice(), f);
            } else {
                self.folded.push(f);
                if f.start < row {
                    proof {
                        let t = doc@.text;
                        lemma_index_bounds(t, self.buffer.caret().cursor);
                        lemma_row_mono(t, self.buffer.caret().at(t), t.len() as int);
                        lemma_row_start_bounds(t, f.start as nat);
                    }
                    let start = find_offset(doc.chars(), find_row_start(doc.chars(), f.start));
                    self.buffer.set_cursor(doc, start);
                }
            }
        }
    }

    /// The regions that are folded.
    pub fn folded(&self) -> (r: &[FoldRange])
        ensures
            r@ == self.state().folded,
    {
        self.folded.as_slice()
    }

    /// The foldable regions of the document.
    pub fn folds(&self) -> (r: &[FoldRange])
        ensures
            r@ == self.state().folds,
    {
        self.folds.as_slice()
    }

    /// The keys that may follow the sequence in progress, each with what it does.
    pub fn which_key(&self) -> (r: Vec<(KeyPress, String)>)
        ensures
            are_hints(self.state().layers, self.state().keys, rows_view(r@)),
    {
        self.dispatcher.hints()
    }

    /// Takes the uses of the symbol under the cursor.
    pub fn set_occurrences(&mut self, occurrences: Vec<Occurrence>)
        ensures
            final(self).state() == (EditState {
                occurrences: occurrences@,
                ..old(self).state()
            }),
    {
        self.occurrences = occurrences;
    }

    /// Whether uses of the symbol under the cursor are known.
    pub fn has_occurrences(&self) -> (r: bool)
        ensures
            r == (self.state().occurrences.len() > 0),
    {
        self.occurrences.len() > 0
    }
}

/// No command and no key moves an editor to another document.
pub proof fn law_document_stays(s: EditState, d: Doc, command: Seq<char>, key: KeyPress)
    ensures
        s.executed(d, command).0.caret.document == s.caret.document,
        s.fed(d, key).0.caret.document == s.caret.document,
{
    lemma_act_keeps_document(s, d, act_of(command), command);
    match resolve_layers(s.layers, s.keys.push(key)) {
        Resolved::Command(name) => {
            let t = EditState { keys: Seq::empty(), ..s };
            lemma_act_keeps_document(t, d, act_of(name), name);
        },
        _ => {},
    }
}

proof fn lemma_act_keeps_document(s: EditState, d: Doc, act: Act, command: Seq<char>)
    ensures
        s.acted(d, act, command).0.caret.document == s.caret.document,
{
}

/// After drawing, the cursor is in view, unless a folded region hides its line.
pub proof fn law_cursor_in_view(s: EditState, t: Seq<char>, area: Rect, glyphs: Glyphs)
    requires
        !area.is_empty(),
        !hidden(s.folded, s.caret.row(t)),
    ensures
        s.after_drawing(t, area, glyphs).cursor_cell(t, area, glyphs) is Some,
{
    law_lines_above(s.folded, s.caret.row(t), (area.height - 1) as nat);
}

/// Printable keys insert themselves only in Insert mode: elsewhere a key that is bound to nothing
/// changes neither the text nor the cursor.
pub proof fn law_unbound_keys_insert_only_in_insert_mode(s: EditState, d: Doc, key: KeyPress)
    requires
        s.mode != EditMode::Insert,
        resolve_layers(s.layers, s.keys.push(key)) is Unbound,
    ensures
        s.fed(d, key).1 == d,
        s.fed(d, key).0.caret == s.caret,
{
}

/// A switch of profile between two keys loses neither: the text, the cursor and the clipboard stay
/// as they are, and the next key is resolved from the start.
pub proof fn law_profile_switch_loses_nothing(s: EditState, d: Doc, profile: Profile)
    ensures
        s.in_profile(profile).caret == s.caret,
        s.in_profile(profile).clipboard == s.clipboard,
        s.in_profile(profile).keys == Seq::<KeyPress>::empty(),
        s.in_profile(profile).layers.len() == 1,
        s.acted(d, Act::Switch(profile), Seq::empty()).1 == d,
{
}

/// What is cut is what a paste inserts: cutting the selection and pasting at once gives the text
/// back.
pub proof fn law_cut_then_paste(s: EditState, d: Doc)
    requires
        d.wf(),
        s.caret.selection(d.text) is Some,
    ensures
        ({
            let (cut, rest) = s.cut(d);
            cut.typed(rest, cut.clipboard).1.text == d.text
        }),
{
    let range = s.caret.selection(d.text)->0;
    let t = d.text;
    match s.caret.anchor {
        Some(a) => {
            lemma_index_bounds(t, a);
            lemma_index_bounds(t, s.caret.cursor);
        },
        None => {},
    }
    let (cut, rest) = s.cut(d);
    let u = rest.text;
    let i = range.0;
    assert(u =~= t.take(i) + t.skip(range.1));
    let k = cut.caret.clamped(u);
    assert(u.take(i) =~= t.take(i));
    assert(offset(u, i) == offset(t, i));
    crate::text::lemma_index_of_offset(u, i);
    assert(byte_len(Seq::<char>::empty()) == 0);
    assert(cut.caret.cursor == offset(u, i));
    assert(k.cursor == offset(u, i));
    assert(k.at(u) == i);
    assert(u.take(i) + t.subrange(i, range.1) + u.skip(i) =~= t);
}

} // verus!
