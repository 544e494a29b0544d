//! Buffers over a shared document, and the document's journal.

use majestic::buffer::Buffer;
use majestic::document::{replay, Document, EditOp, JournalAction, SavedJournal};

#[test]
fn insert_and_cursor_track() {
    let (mut doc, mut buffer) = Buffer::scratch();
    buffer.insert(&mut doc, "hello");
    assert_eq!(doc.text(), "hello");
    assert_eq!(buffer.cursor(&doc), 5);
    buffer.move_left(&doc, false);
    buffer.insert(&mut doc, "X");
    assert_eq!(doc.text(), "hellXo");
    assert_eq!(buffer.cursor(&doc), 5);
}

#[test]
fn backspace_and_delete_forward() {
    let (mut doc, mut buffer) = Buffer::from_text("abc");
    buffer.move_line_end(&doc, false);
    buffer.backspace(&mut doc);
    assert_eq!(doc.text(), "ab");
    buffer.move_line_start(&doc, false);
    buffer.delete_forward(&mut doc);
    assert_eq!(doc.text(), "b");
    assert_eq!(buffer.cursor(&doc), 0);
}

#[test]
fn undo_redo_round_trip() {
    let (mut doc, mut buffer) = Buffer::from_text("base");
    buffer.move_line_end(&doc, false);
    buffer.insert(&mut doc, "!");
    assert_eq!(doc.text(), "base!");
    assert!(buffer.undo(&mut doc));
    assert_eq!(doc.text(), "base");
    assert!(buffer.redo(&mut doc));
    assert_eq!(doc.text(), "base!");
}

#[test]
fn undo_and_redo_report_when_there_is_nothing_to_do() {
    let (mut doc, mut buffer) = Buffer::from_text("x");
    assert!(!buffer.undo(&mut doc));
    assert!(!buffer.redo(&mut doc));
    buffer.insert(&mut doc, "a");
    assert!(buffer.undo(&mut doc));
    buffer.insert(&mut doc, "b");
    assert!(!buffer.redo(&mut doc), "an edit drops what was undone");
    assert_eq!(doc.text(), "xb");
}

#[test]
fn selection_then_replace_and_copy() {
    let (mut doc, mut buffer) = Buffer::from_text("hello world");
    buffer.move_line_start(&doc, false);
    for _ in 0..5 {
        buffer.move_right(&doc, true);
    }
    assert_eq!(buffer.selected_text(&doc).as_deref(), Some("hello"));
    buffer.insert(&mut doc, "HI");
    assert_eq!(doc.text(), "HI world");
    assert!(buffer.selection(&doc).is_none());
}

#[test]
fn vertical_motion_keeps_goal_column() {
    let (doc, mut buffer) = Buffer::from_text("longline\nx\nlongline");
    buffer.move_line_start(&doc, false);
    for _ in 0..6 {
        buffer.move_right(&doc, false);
    }
    assert_eq!(buffer.cursor_column(&doc), 6);
    buffer.move_down(&doc, false);
    assert_eq!(buffer.cursor_column(&doc), 1);
    buffer.move_down(&doc, false);
    assert_eq!(buffer.cursor_column(&doc), 6);
}

#[test]
fn multibyte_cursor_motion_stays_on_boundaries() {
    let (mut doc, mut buffer) = Buffer::from_text("héllo");
    buffer.move_line_start(&doc, false);
    buffer.move_right(&doc, false);
    buffer.move_right(&doc, false);
    assert_eq!(buffer.cursor(&doc), 3);
    buffer.backspace(&mut doc);
    assert_eq!(doc.text(), "hllo");
}

#[test]
fn views_share_text_and_undo() {
    let (mut doc, mut a) = Buffer::from_text("hello");
    let mut b = a.view();
    b.move_line_end(&doc, false);
    b.insert(&mut doc, "!");
    assert_eq!(doc.text(), "hello!");
    assert_eq!(b.document_id(), a.document_id());
    assert!(a.undo(&mut doc));
    assert_eq!(doc.text(), "hello", "undo is shared across views");
}

#[test]
fn views_have_independent_cursors() {
    let (mut doc, a) = Buffer::from_text("hello");
    let mut b = a.view();
    b.move_line_end(&doc, false);
    assert_eq!(a.cursor(&doc), 0, "the first view's cursor is untouched");
    assert_eq!(b.cursor(&doc), 5);
    b.insert(&mut doc, "X");
    assert_eq!(doc.text(), "helloX");
    assert_eq!(a.cursor(&doc), 0);
}

#[test]
fn view_cursor_clamps_when_a_sibling_shrinks_the_document() {
    let (mut doc, mut a) = Buffer::from_text("hello");
    a.move_line_end(&doc, false);
    let mut b = a.view();
    b.select_all(&doc);
    b.backspace(&mut doc);
    assert_eq!(doc.text(), "");
    assert_eq!(
        a.cursor(&doc),
        0,
        "a's now-out-of-range cursor clamps to the new length"
    );
    a.move_left(&doc, false);
    assert_eq!(a.cursor(&doc), 0);
}

#[test]
fn sibling_cursor_tracks_an_edit_in_another_view() {
    let (mut doc, mut a) = Buffer::from_text("hello");
    a.move_line_end(&doc, false);
    let mut b = a.view();
    b.move_line_start(&doc, false);
    b.insert(&mut doc, "AB");
    let edit = b.take_last_edit().expect("b recorded its edit");
    a.shift_cursor(&edit);
    assert_eq!(doc.text(), "ABhello");
    assert_eq!(
        a.cursor(&doc),
        7,
        "a's cursor tracked the insertion before it (5 -> 7)"
    );
}

#[test]
fn kill_line_returns_what_it_cut() {
    let (mut doc, mut buffer) = Buffer::from_text("one\ntwo");
    assert_eq!(buffer.kill_line(&mut doc), "one");
    assert_eq!(doc.text(), "\ntwo");
    assert_eq!(buffer.kill_line(&mut doc), "\n");
    assert_eq!(doc.text(), "two");
}

#[test]
fn open_missing_then_save_round_trip() {
    let (mut doc, action) = Document::open("notes.txt".to_owned(), "", None);
    assert_eq!(action, JournalAction::Create { base_len: 0 });
    assert_eq!(doc.text(), "");
    let mut buffer = Buffer::over(0);
    buffer.insert(&mut doc, "saved content\n");
    assert!(doc.is_dirty());
    assert!(doc.mark_saved());
    assert!(!doc.is_dirty());

    let (reopened, _) = Document::open("notes.txt".to_owned(), &doc.text(), None);
    assert_eq!(reopened.text(), "saved content\n");
    assert!(!reopened.was_recovered());
}

#[test]
fn journal_recovers_unsaved_edits_after_crash() {
    let (mut doc, _) = Document::open("crash.txt".to_owned(), "base\n", None);
    assert!(!doc.was_recovered());
    let mut buffer = Buffer::over(0);
    buffer.move_line_end(&doc, false);
    buffer.insert(&mut doc, "EDIT");
    assert!(doc.is_dirty());
    let ops = doc.take_ops();
    assert_eq!(
        ops,
        vec![EditOp {
            start: 4,
            old_len: 0,
            text: "EDIT".to_owned()
        }]
    );

    let saved = SavedJournal { base_len: 5, ops };
    let (recovered, action) = Document::open("crash.txt".to_owned(), "base\n", Some(saved));
    assert_eq!(action, JournalAction::Append);
    assert!(recovered.was_recovered());
    assert!(recovered.is_dirty());
    assert_eq!(recovered.text(), "baseEDIT\n");
}

#[test]
fn a_journal_for_another_text_is_not_replayed() {
    let saved = SavedJournal {
        base_len: 4,
        ops: vec![EditOp {
            start: 0,
            old_len: 0,
            text: "X".to_owned(),
        }],
    };
    let (doc, action) = Document::open("a.txt".to_owned(), "base\n", Some(saved));
    assert_eq!(action, JournalAction::Create { base_len: 5 });
    assert!(!doc.was_recovered());
    assert_eq!(doc.text(), "base\n");
}

#[test]
fn a_journal_beside_its_file() {
    assert_eq!(Document::journal_path("/tmp/a.txt"), "/tmp/a.txt.mjjournal");
}

#[test]
fn replaying_refuses_a_record_that_does_not_fit() {
    let base: Vec<char> = "é".chars().collect();
    let op = |start: usize| EditOp {
        start,
        old_len: 0,
        text: "x".to_owned(),
    };
    assert_eq!(replay(&base, &[op(1)]), None, "inside a character");
    assert_eq!(replay(&base, &[op(3)]), None, "past the end");
    assert_eq!(replay(&base, &[op(2)]), Some("éx".chars().collect()));
}

#[test]
fn a_failed_journal_keeps_its_message() {
    let (mut doc, _) = Document::open("a.txt".to_owned(), "", None);
    doc.journal_failed("disk full".to_owned());
    assert_eq!(doc.journal_error().as_deref(), Some("disk full"));
    let mut buffer = Buffer::over(0);
    buffer.insert(&mut doc, "x");
    assert!(doc.take_ops().is_empty(), "journaling stopped");
    assert!(doc.mark_saved());
    assert_eq!(*doc.journal_error(), None);
}

#[test]
fn a_document_without_a_path_is_never_saved() {
    let (mut doc, mut buffer) = Buffer::scratch();
    buffer.insert(&mut doc, "x");
    let before = doc.revision();
    assert!(!doc.mark_saved());
    assert!(doc.is_dirty());
    buffer.insert(&mut doc, "y");
    assert_eq!(doc.revision(), before + 1);
}

#[test]
fn undone_and_redone_edits_are_recovered_too() {
    let base = "base\n";
    let (mut doc, _) = Document::open("crash.txt".to_owned(), base, None);
    let mut buffer = Buffer::over(0);
    buffer.insert(&mut doc, "one");
    buffer.insert(&mut doc, "two");
    let mut ops = doc.take_ops();
    let recovered = |ops: &[EditOp]| -> String {
        let saved = SavedJournal {
            base_len: 5,
            ops: ops.to_vec(),
        };
        Document::open("crash.txt".to_owned(), base, Some(saved)).0.text()
    };
    assert_eq!(recovered(&ops), doc.text());
    assert!(doc.undo());
    ops.append(&mut doc.take_ops());
    assert_eq!(recovered(&ops), doc.text());
    assert!(doc.redo());
    ops.append(&mut doc.take_ops());
    assert_eq!(recovered(&ops), doc.text());
}
