//! What the commands of the editor do to the text, the cursor and the clipboard.

use crate::buffer::{
    has_selected, lemma_has_selected, lemma_rests_at, law_kill_takes_the_rest_of_the_line, law_one_character_goes,
    law_selection_is_what_goes, rests_at,
};
use crate::dispatch::{resolve_layers, Resolved};
use crate::document::Doc;
use crate::editor::{act_of, draw_line, modified, scrolled_to, shown_name, Act, EditMode, EditState};
use crate::key::{KeyCode, KeyPress};
use crate::profiles::Profile;
use crate::surface::{cells_of, law_glyph_fills_its_cell, shows, Canvas, Rect, Style};
use crate::text::{
    byte_len, decimal, lemma_line_end, lemma_line_start, line_end, line_start, repeat,
};
use vstd::prelude::*;

verus! {

/// Copying keeps the selected text on the clipboard and changes nothing of the text and the cursor.
pub proof fn law_copy_takes_the_selection(s: EditState, d: Doc, lo: int, hi: int, command: Seq<char>)
    requires
        has_selected(s.caret, d.text, lo, hi),
    ensures
        ({
            let x = s.acted(d, Act::Copy, command);
            &&& x.0.clipboard == d.text.subrange(lo, hi)
            &&& x.0.caret == s.caret
            &&& x.1 == d
        }),
{
    lemma_has_selected(s.caret, d.text, lo, hi);
}

/// Cutting keeps the selected text on the clipboard and takes it out of the text.
pub proof fn law_cut_takes_the_selection(s: EditState, d: Doc, lo: int, hi: int, command: Seq<char>)
    requires
        has_selected(s.caret, d.text, lo, hi),
    ensures
        ({
            let x = s.acted(d, Act::Cut, command);
            &&& x.0.clipboard == d.text.subrange(lo, hi)
            &&& x.1.text == d.text.take(lo) + d.text.skip(hi)
            &&& rests_at(x.0.caret, x.1.text, lo)
        }),
{
    lemma_has_selected(s.caret, d.text, lo, hi);
    law_selection_is_what_goes(s.caret, d, lo, hi, Seq::empty());
}

/// With nothing selected, copying and cutting do nothing, and the clipboard keeps what it has.
pub proof fn law_nothing_selected_nothing_taken(s: EditState, d: Doc, i: int, command: Seq<char>)
    requires
        rests_at(s.caret, d.text, i),
    ensures
        s.acted(d, Act::Copy, command) == (s, d),
        s.acted(d, Act::Cut, command) == (s, d),
{
    lemma_rests_at(s.caret, d.text, i);
}

/// What is typed, pasted or put in by the newline and indent commands stands at the cursor, and the
/// cursor behind it.
pub proof fn law_text_goes_in_at_the_cursor(s: EditState, d: Doc, i: int, text: Seq<char>, command: Seq<char>)
    requires
        rests_at(s.caret, d.text, i),
    ensures
        ({
            let typed = s.typed(d, text);
            let pasted = s.acted(d, Act::Paste, command);
            let line = s.acted(d, Act::Newline, command);
            let tab = s.acted(d, Act::Indent, command);
            let t = d.text;
            &&& typed.1.text == t.take(i) + text + t.skip(i)
            &&& rests_at(typed.0.caret, typed.1.text, i + text.len())
            &&& pasted.1.text == t.take(i) + s.clipboard + t.skip(i)
            &&& rests_at(pasted.0.caret, pasted.1.text, i + s.clipboard.len())
            &&& line.1.text == t.take(i) + seq!['\n'] + t.skip(i)
            &&& rests_at(line.0.caret, line.1.text, i + 1)
            &&& tab.1.text == t.take(i) + Seq::new(s.tab_width, |k: int| ' ') + t.skip(i)
            &&& rests_at(tab.0.caret, tab.1.text, i + s.tab_width)
            &&& pasted.0.clipboard == s.clipboard
        }),
{
    reveal_strlit("\n");
    assert("\n"@ =~= seq!['\n']);
    assert(repeat(' ', s.tab_width) =~= Seq::new(s.tab_width, |k: int| ' '));
    law_one_character_goes(s.caret, d, i, text);
    law_one_character_goes(s.caret, d, i, s.clipboard);
    law_one_character_goes(s.caret, d, i, seq!['\n']);
    law_one_character_goes(s.caret, d, i, Seq::new(s.tab_width, |k: int| ' '));
}

/// Text that goes in where something is selected takes its place.
pub proof fn law_text_replaces_the_selection(
    s: EditState,
    d: Doc,
    lo: int,
    hi: int,
    text: Seq<char>,
    command: Seq<char>,
)
    requires
        has_selected(s.caret, d.text, lo, hi),
    ensures
        s.typed(d, text).1.text == d.text.take(lo) + text + d.text.skip(hi),
        s.acted(d, Act::Paste, command).1.text == d.text.take(lo) + s.clipboard + d.text.skip(hi),
{
    law_selection_is_what_goes(s.caret, d, lo, hi, text);
    law_selection_is_what_goes(s.caret, d, lo, hi, s.clipboard);
}

/// The delete commands take what is selected, or the character on their side of the cursor.
pub proof fn law_deletes_take_their_side(s: EditState, d: Doc, i: int, command: Seq<char>)
    requires
        rests_at(s.caret, d.text, i),
    ensures
        ({
            let t = d.text;
            let forward = s.acted(d, Act::DeleteForward, command);
            let backward = s.acted(d, Act::DeleteBackward, command);
            &&& i < t.len() ==> forward.1.text == t.take(i) + t.skip(i + 1)
            &&& i > 0 ==> backward.1.text == t.take(i - 1) + t.skip(i)
            &&& i == t.len() ==> forward.1 == d
            &&& i == 0 ==> backward.1 == d
            &&& forward.0.clipboard == s.clipboard && backward.0.clipboard == s.clipboard
        }),
{
    law_one_character_goes(s.caret, d, i, Seq::empty());
}

/// Killing a line puts on the clipboard what it takes out of the text; where there is nothing to
/// take, the clipboard keeps what it has.
pub proof fn law_killed_text_is_on_the_clipboard(s: EditState, d: Doc, i: int, j: int, command: Seq<char>)
    requires
        rests_at(s.caret, d.text, i),
        i <= j <= d.text.len(),
        forall|k: int| i <= k < j ==> d.text[k] != '\n',
        j < d.text.len() ==> d.text[j] == '\n',
    ensures
        ({
            let x = s.acted(d, Act::KillLine, command);
            &&& i < j ==> x.0.clipboard == d.text.subrange(i, j) && x.1.text == d.text.take(i) + d.text.skip(j)
            &&& i == j && j < d.text.len() ==> x.0.clipboard == seq!['\n'] && x.1.text == d.text.take(i)
                + d.text.skip(i + 1)
            &&& i == d.text.len() ==> x.0.clipboard == s.clipboard && x.1.text == d.text
        }),
{
    let t = d.text;
    law_kill_takes_the_rest_of_the_line(s.caret, d, i, j);
    lemma_rests_at(s.caret, t, i);
    lemma_line_end(t, i);
    if i < j {
        assert(t.subrange(i, j).len() > 0);
    } else if i < t.len() {
        assert(t.subrange(i, i + 1) =~= seq!['\n']);
    } else {
        assert(t.subrange(i, i).len() == 0);
    }
}

/// The motions to the ends of a line end behind the line break before the cursor, and at the one
/// behind it, or at the ends of the text; selecting all selects the whole text.
pub proof fn law_line_motions(s: EditState, d: Doc, i: int, command: Seq<char>)
    requires
        rests_at(s.caret, d.text, i),
    ensures
        ({
            let t = d.text;
            let start = s.acted(d, Act::LineStart, command);
            let end = s.acted(d, Act::LineEnd, command);
            let all = s.acted(d, Act::SelectAll, command);
            let a = line_start(t, i);
            let b = line_end(t, i);
            &&& 0 <= a <= i <= b <= t.len()
            &&& a > 0 ==> t[a - 1] == '\n'
            &&& b < t.len() ==> t[b] == '\n'
            &&& forall|k: int| a <= k < b ==> #[trigger] t[k] != '\n'
            &&& rests_at(start.0.caret, t, a)
            &&& rests_at(end.0.caret, t, b)
            &&& t.len() > 0 ==> has_selected(all.0.caret, t, 0, t.len() as int)
            &&& start.1 == d && end.1 == d && all.1 == d
        }),
{
    let t = d.text;
    lemma_rests_at(s.caret, t, i);
    lemma_line_start(t, i);
    lemma_line_end(t, i);
    lemma_before_line(t, i);
    assert(t.take(t.len() as int) =~= t);
    assert(t.take(0) =~= Seq::<char>::empty());
    assert(byte_len(Seq::<char>::empty()) == 0);
    assert forall|k: int| line_start(t, i) <= k < line_end(t, i) implies #[trigger] t[k] != '\n' by {
        if k < i {
        } else {
        }
    }
}

proof fn lemma_before_line(t: Seq<char>, i: int)
    requires
        0 <= i <= t.len(),
    ensures
        line_start(t, i) > 0 ==> t[line_start(t, i) - 1] == '\n',
    decreases i,
{
    if i > 0 && t[i - 1] != '\n' {
        lemma_before_line(t, i - 1);
    }
}

/// A printable key that is bound to nothing types itself in Insert mode.
pub proof fn law_printable_key_types_itself(s: EditState, d: Doc, i: int, key: KeyPress, c: char)
    requires
        rests_at(s.caret, d.text, i),
        s.mode == EditMode::Insert,
        key.code == KeyCode::Char(c),
        !modified(key),
        resolve_layers(s.layers, s.keys.push(key)) == Resolved::Unbound(seq![key]),
    ensures
        s.fed(d, key).1.text == d.text.take(i) + seq![c] + d.text.skip(i),
        rests_at(s.fed(d, key).0.caret, s.fed(d, key).1.text, i + 1),
        s.fed(d, key).0.keys.len() == 0,
{
    law_one_character_goes(s.caret, d, i, seq![c]);
}

/// A key that is bound to a command runs it with no key pending, one that begins a chord is kept, and
/// one with a modifier is never typed.
pub proof fn law_keys_run_their_commands(s: EditState, d: Doc, key: KeyPress, name: Seq<char>)
    ensures
        ({
            let found = resolve_layers(s.layers, s.keys.push(key));
            let x = s.fed(d, key);
            &&& found == Resolved::Command(name) ==> x == (EditState { keys: Seq::empty(), ..s }).executed(d, name)
            &&& found is Pending ==> x.1 == d && x.0 == (EditState { keys: s.keys.push(key), ..s })
            &&& found is Unbound && modified(key) && s.keys.len() == 0 && found->Unbound_0 == seq![key] ==> x.1
                == d && x.0.caret == s.caret
        }),
{
}

/// The requests of the save, find and quit commands are noted, and change nothing else; a command that
/// is not known is named in the status line.
pub proof fn law_requests_are_noted(s: EditState, d: Doc, command: Seq<char>)
    ensures
        s.acted(d, Act::Save, command) == (EditState { saving: true, ..s }, d),
        s.acted(d, Act::Quit, command) == (EditState { quit: true, ..s }, d),
        s.acted(d, Act::Find, command).0.searching,
        s.acted(d, Act::Find, command).1 == d,
        s.acted(d, Act::Find, command).0.caret == s.caret,
        s.acted(d, Act::Unknown, command).1 == d,
        s.acted(d, Act::Unknown, command).0 == (EditState {
            status: "unbound command: "@ + command,
            ..s
        }),
{
}

/// The modes are there with the modal profiles alone: Vim and Spacemacs start in Normal mode, and with
/// the others every key types.
pub proof fn law_modes_belong_to_modal_profiles(s: EditState, d: Doc, mode: EditMode, command: Seq<char>)
    ensures
        ({
            let cua = s.acted(d, Act::Switch(Profile::Cua), command).0;
            let emacs = s.acted(d, Act::Switch(Profile::Emacs), command).0;
            let vim = s.acted(d, Act::Switch(Profile::Vim), command).0;
            let entered = s.acted(d, Act::Enter(mode), command).0;
            &&& cua.mode == EditMode::Insert && !cua.modal && cua.profile == Profile::Cua
            &&& emacs.mode == EditMode::Insert && !emacs.modal && emacs.profile == Profile::Emacs
            &&& vim.mode == EditMode::Normal && vim.modal && vim.profile == Profile::Vim
            &&& s.modal ==> entered.mode == mode && entered.keys.len() == 0 && entered.modal
            &&& !s.modal ==> entered == s
            &&& entered.caret == s.caret && entered.profile == s.profile
        }),
{
}

/// The motions of the cursor, and those that select what they go over.
pub proof fn law_motions_have_names()
    ensures
        act_of("move-left"@) == Act::Left(false),
        act_of("move-right"@) == Act::Right(false),
        act_of("move-up"@) == Act::Up(false),
        act_of("move-down"@) == Act::Down(false),
        act_of("move-line-start"@) == Act::LineStart,
        act_of("move-line-end"@) == Act::LineEnd,
        act_of("page-up"@) == Act::PageUp,
        act_of("page-down"@) == Act::PageDown,
        act_of("select-left"@) == Act::Left(true),
        act_of("select-right"@) == Act::Right(true),
        act_of("select-up"@) == Act::Up(true),
        act_of("select-down"@) == Act::Down(true),
        act_of("select-all"@) == Act::SelectAll,
{
    reveal_strlit("move-left");
    reveal_strlit("move-right");
    reveal_strlit("move-up");
    reveal_strlit("move-down");
    reveal_strlit("move-line-start");
    reveal_strlit("move-line-end");
    reveal_strlit("page-up");
    reveal_strlit("page-down");
    reveal_strlit("select-left");
    reveal_strlit("select-right");
    reveal_strlit("select-up");
    reveal_strlit("select-down");
    reveal_strlit("select-all");
    assert("move-left"@.len() == 9);
    assert("move-right"@.len() == 10);
    assert("move-up"@.len() == 7);
    assert("move-down"@.len() == 9);
    assert("move-line-start"@.len() == 15);
    assert("move-line-end"@.len() == 13);
    assert("page-up"@.len() == 7);
    assert("page-down"@.len() == 9);
    assert("select-left"@.len() == 11);
    assert("select-right"@.len() == 12);
    assert("select-up"@.len() == 9);
    assert("select-down"@.len() == 11);
    assert("select-all"@.len() == 10);
    assert("move-left"@[5] != "move-down"@[5]);
    assert("move-left"@[0] != "page-down"@[0]);
    assert("move-left"@[0] != "select-up"@[0]);
    assert("move-right"@[0] != "select-all"@[0]);
    assert("move-up"@[0] != "page-up"@[0]);
    assert("move-down"@[0] != "page-down"@[0]);
    assert("move-down"@[0] != "select-up"@[0]);
    assert("page-down"@[0] != "select-up"@[0]);
    assert("select-left"@[7] != "select-down"@[7]);
}

/// The commands that change the text.
pub proof fn law_edits_have_names()
    ensures
        act_of("delete-backward"@) == Act::DeleteBackward,
        act_of("delete-forward"@) == Act::DeleteForward,
        act_of("insert-newline"@) == Act::Newline,
        act_of("indent"@) == Act::Indent,
        act_of("undo"@) == Act::Undo,
        act_of("redo"@) == Act::Redo,
        act_of("copy"@) == Act::Copy,
        act_of("cut"@) == Act::Cut,
        act_of("kill-line"@) == Act::KillLine,
        act_of("paste"@) == Act::Paste,
{
    reveal_strlit("move-left");
    reveal_strlit("move-right");
    reveal_strlit("move-up");
    reveal_strlit("move-down");
    reveal_strlit("move-line-start");
    reveal_strlit("move-line-end");
    reveal_strlit("page-up");
    reveal_strlit("page-down");
    reveal_strlit("select-left");
    reveal_strlit("select-right");
    reveal_strlit("select-up");
    reveal_strlit("select-down");
    reveal_strlit("select-all");
    reveal_strlit("delete-backward");
    reveal_strlit("delete-forward");
    reveal_strlit("insert-newline");
    reveal_strlit("indent");
    reveal_strlit("undo");
    reveal_strlit("redo");
    reveal_strlit("copy");
    reveal_strlit("cut");
    reveal_strlit("kill-line");
    reveal_strlit("paste");
    assert("move-left"@.len() == 9);
    assert("move-right"@.len() == 10);
    assert("move-up"@.len() == 7);
    assert("move-down"@.len() == 9);
    assert("move-line-start"@.len() == 15);
    assert("move-line-end"@.len() == 13);
    assert("page-up"@.len() == 7);
    assert("page-down"@.len() == 9);
    assert("select-left"@.len() == 11);
    assert("select-right"@.len() == 12);
    assert("select-up"@.len() == 9);
    assert("select-down"@.len() == 11);
    assert("select-all"@.len() == 10);
    assert("delete-backward"@.len() == 15);
    assert("delete-forward"@.len() == 14);
    assert("insert-newline"@.len() == 14);
    assert("indent"@.len() == 6);
    assert("undo"@.len() == 4);
    assert("redo"@.len() == 4);
    assert("copy"@.len() == 4);
    assert("cut"@.len() == 3);
    assert("kill-line"@.len() == 9);
    assert("paste"@.len() == 5);
    assert("delete-backward"@[0] != "move-line-start"@[0]);
    assert("delete-forward"@[0] != "insert-newline"@[0]);
    assert("undo"@[0] != "redo"@[0]);
    assert("undo"@[0] != "copy"@[0]);
    assert("redo"@[0] != "copy"@[0]);
    assert("kill-line"@[0] != "move-left"@[0]);
    assert("kill-line"@[0] != "move-down"@[0]);
    assert("kill-line"@[0] != "page-down"@[0]);
    assert("kill-line"@[0] != "select-up"@[0]);
}

/// The commands for the modes, the profiles, and what the editor asks for.
pub proof fn law_modes_and_requests_have_names()
    ensures
        act_of("enter-insert-mode"@) == Act::Enter(EditMode::Insert),
        act_of("enter-normal-mode"@) == Act::Enter(EditMode::Normal),
        act_of("enter-visual-mode"@) == Act::Enter(EditMode::Visual),
        act_of("profile-cua"@) == Act::Switch(Profile::Cua),
        act_of("profile-emacs"@) == Act::Switch(Profile::Emacs),
        act_of("profile-vim"@) == Act::Switch(Profile::Vim),
        act_of("save"@) == Act::Save,
        act_of("find"@) == Act::Find,
        act_of("quit"@) == Act::Quit,
        act_of("toggle-fold"@) == Act::ToggleFold,
        act_of("close-buffer"@) == Act::Quit,
{
    reveal_strlit("move-left");
    reveal_strlit("move-right");
    reveal_strlit("move-up");
    reveal_strlit("move-down");
    reveal_strlit("move-line-start");
    reveal_strlit("move-line-end");
    reveal_strlit("page-up");
    reveal_strlit("page-down");
    reveal_strlit("select-left");
    reveal_strlit("select-right");
    reveal_strlit("select-up");
    reveal_strlit("select-down");
    reveal_strlit("select-all");
    reveal_strlit("delete-backward");
    reveal_strlit("delete-forward");
    reveal_strlit("insert-newline");
    reveal_strlit("indent");
    reveal_strlit("undo");
    reveal_strlit("redo");
    reveal_strlit("copy");
    reveal_strlit("cut");
    reveal_strlit("kill-line");
    reveal_strlit("paste");
    reveal_strlit("enter-insert-mode");
    reveal_strlit("enter-normal-mode");
    reveal_strlit("enter-visual-mode");
    reveal_strlit("profile-cua");
    reveal_strlit("profile-emacs");
    reveal_strlit("profile-vim");
    reveal_strlit("save");
    reveal_strlit("find");
    reveal_strlit("quit");
    reveal_strlit("toggle-fold");
    reveal_strlit("close-buffer");
    assert("move-left"@.len() == 9);
    assert("move-right"@.len() == 10);
    assert("move-up"@.len() == 7);
    assert("move-down"@.len() == 9);
    assert("move-line-start"@.len() == 15);
    assert("move-line-end"@.len() == 13);
    assert("page-up"@.len() == 7);
    assert("page-down"@.len() == 9);
    assert("select-left"@.len() == 11);
    assert("select-right"@.len() == 12);
    assert("select-up"@.len() == 9);
    assert("select-down"@.len() == 11);
    assert("select-all"@.len() == 10);
    assert("delete-backward"@.len() == 15);
    assert("delete-forward"@.len() == 14);
    assert("insert-newline"@.len() == 14);
    assert("indent"@.len() == 6);
    assert("undo"@.len() == 4);
    assert("redo"@.len() == 4);
    assert("copy"@.len() == 4);
    assert("cut"@.len() == 3);
    assert("kill-line"@.len() == 9);
    assert("paste"@.len() == 5);
    assert("enter-insert-mode"@.len() == 17);
    assert("enter-normal-mode"@.len() == 17);
    assert("enter-visual-mode"@.len() == 17);
    assert("profile-cua"@.len() == 11);
    assert("profile-emacs"@.len() == 13);
    assert("profile-vim"@.len() == 11);
    assert("save"@.len() == 4);
    assert("find"@.len() == 4);
    assert("quit"@.len() == 4);
    assert("toggle-fold"@.len() == 11);
    assert("close-buffer"@.len() == 12);
    assert("enter-insert-mode"@[6] != "enter-normal-mode"@[6]);
    assert("enter-insert-mode"@[6] != "enter-visual-mode"@[6]);
    assert("enter-normal-mode"@[6] != "enter-visual-mode"@[6]);
    assert("profile-cua"@[0] != "select-left"@[0]);
    assert("profile-cua"@[0] != "select-down"@[0]);
    assert("profile-cua"@[8] != "profile-vim"@[8]);
    assert("profile-cua"@[0] != "toggle-fold"@[0]);
    assert("profile-emacs"@[0] != "move-line-end"@[0]);
    assert("profile-vim"@[0] != "select-left"@[0]);
    assert("profile-vim"@[0] != "select-down"@[0]);
    assert("profile-vim"@[0] != "toggle-fold"@[0]);
    assert("save"@[0] != "undo"@[0]);
    assert("save"@[0] != "redo"@[0]);
    assert("save"@[0] != "copy"@[0]);
    assert("save"@[0] != "find"@[0]);
    assert("save"@[0] != "quit"@[0]);
    assert("find"@[0] != "undo"@[0]);
    assert("find"@[0] != "redo"@[0]);
    assert("find"@[0] != "copy"@[0]);
    assert("find"@[0] != "quit"@[0]);
    assert("quit"@[0] != "undo"@[0]);
    assert("quit"@[0] != "redo"@[0]);
    assert("quit"@[0] != "copy"@[0]);
    assert("toggle-fold"@[0] != "select-left"@[0]);
    assert("toggle-fold"@[0] != "select-down"@[0]);
    assert("close-buffer"@[0] != "select-right"@[0]);
}

/// Scrolling brings a place into view, and not further than it has to.
pub proof fn law_scrolling_is_no_further_than_needed(first: nat, at: nat, extent: nat)
    requires
        extent > 0,
    ensures
        ({
            let x = scrolled_to(first, at, extent);
            &&& x <= at < x + extent
            &&& first <= at < first + extent ==> x == first
            &&& at < first ==> x == at
            &&& at >= first + extent ==> x + extent == at + 1
        }),
{
}

/// The status line names the document, marks unsaved changes, counts lines and columns from one, and
/// ends with the last message.
pub proof fn law_status_line_tells_the_place(s: EditState, d: Doc, row: nat, column: nat)
    requires
        s.caret.row(d.text) == row,
        s.caret.column(d.text) == column,
        s.diagnostics.len() == 0,
    ensures
        ({
            let place = "   Ln "@ + decimal(row + 1) + ", Col "@ + decimal(column + 1) + "   "@ + s.status;
            &&& d.dirty ==> s.status_text(d) == " "@ + shown_name(d.path) + " *"@ + place
            &&& !d.dirty ==> s.status_text(d) == " "@ + shown_name(d.path) + place
        }),
{
    let place = "   Ln "@ + decimal(row + 1) + ", Col "@ + decimal(column + 1) + "   "@ + s.status;
    if d.dirty {
        assert(s.status_text(d) =~= " "@ + shown_name(d.path) + " *"@ + place);
    } else {
        assert(s.status_text(d) =~= " "@ + shown_name(d.path) + place);
    }
}

/// A line of narrow characters is drawn from its first visible one on, one cell for each in its own
/// style, as far as the area goes; no other cell of the row changes.
pub proof fn law_line_is_drawn_from_the_left_edge(
    c: Canvas,
    line: Seq<(char, Style)>,
    i: nat,
    left: nat,
    area: Rect,
    y: int,
    j: int,
)
    requires
        c.wf(),
        area.x + area.width <= c.width,
        0 <= y < c.rows.len(),
        i <= line.len() < usize::MAX,
        forall|k: int| 0 <= k < line.len() ==> cells_of(c.glyphs, (#[trigger] line[k]).0) == 1,
        0 <= j < area.width,
    ensures
        ({
            let d = draw_line(c, line, i, i, left, area, y);
            let x = area.x + j;
            &&& d.wf() && d.width == c.width && d.rows.len() == c.rows.len() && d.glyphs == c.glyphs
            &&& i <= j + left < line.len() ==> shows(d, x, y, line[j + left].0, line[j + left].1)
            &&& j + left < i || line.len() <= j + left ==> d.rows[y][x] == c.rows[y][x]
        }),
    decreases line.len() - i,
{
    if i < line.len() && i < left + area.width {
        let (ch, style) = line[i as int];
        assert(cells_of(c.glyphs, line[i as int].0) == 1);
        let at = area.x + i - left;
        let e = if i >= left {
            c.glyph(at, y, ch, style)
        } else {
            c
        };
        law_glyph_fills_its_cell(c, at, y, ch, style, area.x + j, y);
        law_line_is_drawn_from_the_left_edge(e, line, i + 1, left, area, y, j);
    }
}

} // verus!
