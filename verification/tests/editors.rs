//! The editor: keys, commands, modes and drawing.

use majestic::buffer::Buffer;
use majestic::diagnostic::{Diagnostic, Severity};
use majestic::document::Document;
use majestic::editor::{classify, Act, EditMode, Editor};
use majestic::fold::FoldRange;
use majestic::inlay::InlayHint;
use majestic::key::{KeyCode, KeyPress, Mods};
use majestic::occurrence::Occurrence;
use majestic::profiles::Profile;
use majestic::surface::{CharRange, Glyphs, Rgb, Surface, Theme};
use majestic::syntax::SyntaxHighlighter;

fn theme() -> Theme {
    let rgb = |n: u8| Rgb { r: n, g: n, b: n };
    Theme {
        background: rgb(0),
        foreground: rgb(200),
        accent: rgb(120),
        success: rgb(130),
        error: rgb(140),
        info: rgb(150),
    }
}

fn cjk() -> Glyphs {
    Glyphs {
        wide: vec![CharRange {
            first: '\u{4e00}',
            last: '\u{9fff}',
        }],
        zero: Vec::new(),
    }
}

fn open(text: &str) -> (Document, Editor) {
    let (doc, buffer) = Buffer::from_text(text);
    (doc, Editor::with_buffer(buffer))
}

#[test]
fn arrow_keys_move_the_cursor() {
    let (mut doc, mut editor) = open("ab\ncd");
    editor.handle_key(&mut doc, KeyPress::key(KeyCode::Down));
    editor.handle_key(&mut doc, KeyPress::key(KeyCode::Right));
    assert_eq!(editor.buffer().cursor_point(&doc).row, 1);
    assert_eq!(editor.buffer().cursor_column(&doc), 1);
}

#[test]
fn unbound_printable_key_self_inserts() {
    let (mut doc, mut editor) = Editor::new();
    editor.handle_key(&mut doc, KeyPress::char('h'));
    editor.handle_key(&mut doc, KeyPress::char('i'));
    assert_eq!(doc.text(), "hi");
}

#[test]
fn indent_uses_the_configured_tab_width() {
    let (mut doc, mut editor) = Editor::new();
    editor.set_tab_width(2);
    editor.execute(&mut doc, "indent");
    assert_eq!(doc.text(), "  ");
}

#[test]
fn ctrl_z_undoes() {
    let (mut doc, mut editor) = Editor::new();
    editor.handle_key(&mut doc, KeyPress::char('x'));
    assert_eq!(doc.text(), "x");
    editor.handle_key(&mut doc, KeyPress::ctrl('z'));
    assert_eq!(doc.text(), "");
}

#[test]
fn copy_and_paste_via_clipboard() {
    let (mut doc, mut editor) = open("word");
    editor.handle_key(&mut doc, KeyPress::key(KeyCode::Home));
    for _ in 0..4 {
        editor.handle_key(&mut doc, KeyPress::new(Mods::shift(), KeyCode::Right));
    }
    editor.handle_key(&mut doc, KeyPress::ctrl('c'));
    assert_eq!(editor.clipboard(), "word");
    editor.handle_key(&mut doc, KeyPress::key(KeyCode::End));
    editor.handle_key(&mut doc, KeyPress::ctrl('v'));
    assert_eq!(doc.text(), "wordword");
}

#[test]
fn cut_then_paste_restores_the_text() {
    let (mut doc, mut editor) = open("word");
    editor.execute(&mut doc, "select-all");
    editor.execute(&mut doc, "cut");
    assert_eq!(doc.text(), "");
    editor.execute(&mut doc, "paste");
    assert_eq!(doc.text(), "word");
}

#[test]
fn quit_command_sets_flag() {
    let (mut doc, mut editor) = Editor::new();
    assert!(!editor.should_quit());
    editor.handle_key(&mut doc, KeyPress::ctrl('q'));
    assert!(editor.should_quit());
}

#[test]
fn render_draws_lines_cursor_and_status() {
    let theme = theme();
    let (doc, mut editor) = open("hello\nworld");
    let mut surface = Surface::new(20, 3, theme.base_style());
    editor.render(&doc, &mut surface, &theme);

    assert_eq!(surface.cell(0, 0).unwrap().symbol, 'h');
    assert_eq!(surface.cell(0, 1).unwrap().symbol, 'w');
    assert!(surface.cell(0, 0).unwrap().style.attrs.reverse);
    assert_ne!(surface.cell(1, 2).unwrap().symbol, ' ');
}

#[test]
fn render_applies_syntax_highlighting() {
    let theme = theme();
    let (mut doc, _) = Document::open("main.rs".to_owned(), "fn main() {}\n", None);
    let mut editor = Editor::with_buffer(Buffer::over(0));
    let mut surface = Surface::new(20, 3, theme.base_style());
    let revision = editor.highlight_request(&doc).expect("a first request");
    assert_eq!(editor.highlight_request(&doc), None, "asked for once");
    let mut highlighter = SyntaxHighlighter::for_path("main.rs").expect("rust is supported");
    editor.apply_highlights(revision, highlighter.highlight(doc.text().as_bytes()));
    editor.render(&doc, &mut surface, &theme);

    let cell = surface.cell(1, 0).unwrap();
    assert_eq!(cell.symbol, 'n');
    assert_eq!(cell.style.fg, theme.accent);

    editor.self_insert(&mut doc, 'x');
    assert!(editor.highlight_request(&doc).is_some(), "a new revision");
}

#[test]
fn renders_wide_glyphs_across_two_columns() {
    let theme = theme();
    let (doc, mut editor) = open("a世b");
    let mut surface = Surface::with_glyphs(20, 2, theme.base_style(), cjk());
    editor.render(&doc, &mut surface, &theme);

    assert_eq!(surface.cell(0, 0).unwrap().symbol, 'a');
    assert_eq!(surface.cell(1, 0).unwrap().symbol, '世');
    assert_eq!(surface.cell(3, 0).unwrap().symbol, 'b');
}

#[test]
fn long_line_scrolls_horizontally_to_follow_the_cursor() {
    let theme = theme();
    let (mut doc, mut editor) = open("0123456789ABCDEF");
    editor.handle_key(&mut doc, KeyPress::key(KeyCode::End));
    let mut surface = Surface::new(8, 2, theme.base_style());
    editor.render(&doc, &mut surface, &theme);

    assert_eq!(surface.cell(0, 0).unwrap().symbol, '9');
    assert_eq!(surface.cell(6, 0).unwrap().symbol, 'F');
    assert!(
        surface.cell(7, 0).unwrap().style.attrs.reverse,
        "cursor at the right edge"
    );
    assert_eq!(editor.viewport(), (0, 9));
}

#[test]
fn cursor_lands_after_a_wide_glyph() {
    let theme = theme();
    let (mut doc, mut editor) = open("世x");
    editor.handle_key(&mut doc, KeyPress::key(KeyCode::Right));
    let mut surface = Surface::with_glyphs(20, 2, theme.base_style(), cjk());
    editor.render(&doc, &mut surface, &theme);

    let cell = surface.cell(2, 0).unwrap();
    assert_eq!(cell.symbol, 'x');
    assert!(
        cell.style.attrs.reverse,
        "cursor should highlight `x` at column 2"
    );
}

#[test]
fn kill_line_cuts_to_line_end_then_joins() {
    let (mut doc, mut editor) = open("hello\nworld");
    editor.execute(&mut doc, "kill-line");
    assert_eq!(doc.text(), "\nworld");
    assert_eq!(editor.clipboard(), "hello");
    editor.execute(&mut doc, "kill-line");
    assert_eq!(doc.text(), "world");
}

#[test]
fn every_known_command_is_executable() {
    for name in [
        "move-left", "move-right", "move-up", "move-down", "move-line-start", "move-line-end",
        "page-up", "page-down", "select-left", "select-right", "select-up", "select-down",
        "select-all", "delete-backward", "delete-forward", "insert-newline", "indent", "undo",
        "redo", "copy", "cut", "kill-line", "paste", "enter-insert-mode", "enter-normal-mode",
        "enter-visual-mode", "profile-cua", "profile-emacs", "profile-vim", "save", "find", "quit",
        "close-buffer", "toggle-fold",
    ] {
        assert_ne!(classify(name), Act::Unknown);
        let (mut doc, mut editor) = open("alpha\nbeta");
        editor.execute(&mut doc, name);
        assert!(
            !editor.status().starts_with("unbound command"),
            "command `{name}` is not handled"
        );
    }
    let (mut doc, mut editor) = open("alpha");
    editor.execute(&mut doc, "no-such-command");
    assert!(editor.status().starts_with("unbound command"));
}

#[test]
fn vim_normal_mode_swallows_printable_keys_until_insert() {
    let (mut doc, mut editor) = open("abc");
    editor.enable_vim();
    assert_eq!(editor.mode(), EditMode::Normal);
    editor.handle_key(&mut doc, KeyPress::char('z'));
    assert_eq!(doc.text(), "abc");
    editor.handle_key(&mut doc, KeyPress::char('i'));
    assert_eq!(editor.mode(), EditMode::Insert);
    editor.handle_key(&mut doc, KeyPress::char('Z'));
    assert_eq!(doc.text(), "Zabc");
    editor.handle_key(&mut doc, KeyPress::key(KeyCode::Escape));
    assert_eq!(editor.mode(), EditMode::Normal);
    editor.handle_key(&mut doc, KeyPress::char('q'));
    assert_eq!(doc.text(), "Zabc");
}

#[test]
fn vim_normal_motion_moves_the_cursor_without_inserting() {
    let (mut doc, mut editor) = open("abc");
    editor.enable_vim();
    editor.handle_key(&mut doc, KeyPress::char('l'));
    editor.handle_key(&mut doc, KeyPress::char('l'));
    assert_eq!(editor.buffer().cursor(&doc), 2);
    assert_eq!(doc.text(), "abc");
}

#[test]
fn vim_visual_mode_selects_then_yanks() {
    let (mut doc, mut editor) = open("abc");
    editor.enable_vim();
    editor.handle_key(&mut doc, KeyPress::char('v'));
    assert_eq!(editor.mode(), EditMode::Visual);
    editor.handle_key(&mut doc, KeyPress::char('l'));
    editor.handle_key(&mut doc, KeyPress::char('l'));
    editor.handle_key(&mut doc, KeyPress::char('y'));
    assert_eq!(editor.clipboard(), "ab");
    assert_eq!(doc.text(), "abc");
}

#[test]
fn set_profile_round_trips_modality() {
    let (mut doc, mut editor) = open("");
    editor.set_profile(Profile::Vim);
    assert_eq!(editor.mode(), EditMode::Normal);
    editor.handle_key(&mut doc, KeyPress::char('z'));
    assert_eq!(doc.text(), "");
    editor.set_profile(Profile::Cua);
    assert_eq!(editor.mode(), EditMode::Insert);
    editor.handle_key(&mut doc, KeyPress::char('z'));
    assert_eq!(doc.text(), "z");
}

#[test]
fn profile_switch_under_load_loses_no_keystrokes() {
    let (mut doc, mut editor) = open("");
    editor.handle_key(&mut doc, KeyPress::char('a'));
    editor.handle_key(&mut doc, KeyPress::char('b'));
    editor.execute(&mut doc, "profile-emacs");
    editor.handle_key(&mut doc, KeyPress::char('c'));
    editor.handle_key(&mut doc, KeyPress::char('d'));
    assert_eq!(doc.text(), "abcd");
}

#[test]
fn a_save_is_asked_for_and_reported() {
    let (mut doc, _) = Document::open("a.txt".to_owned(), "", None);
    let mut editor = Editor::with_buffer(Buffer::over(0));
    editor.self_insert(&mut doc, 'x');
    editor.execute(&mut doc, "save");
    assert!(editor.take_save_request());
    assert!(!editor.take_save_request());
    editor.save_finished(&mut doc, Some("disk full"));
    assert!(doc.is_dirty());
    assert!(editor.status().contains("disk full"));
    editor.save_finished(&mut doc, None);
    assert!(!doc.is_dirty());
}

#[test]
fn find_asks_for_the_search_once() {
    let (mut doc, mut editor) = open("alpha");
    editor.execute(&mut doc, "find");
    assert_eq!(editor.status(), "find: not yet implemented (M1)");
    assert!(editor.take_search_requested());
    assert!(!editor.take_search_requested());
}

fn row(surface: &Surface, y: u32) -> String {
    let cells = (0..surface.width()).filter_map(|x| surface.cell(x, y).map(|c| c.symbol));
    cells.collect::<String>().trim_end().to_owned()
}

#[test]
fn hints_are_drawn_before_their_byte() {
    let theme = theme();
    let (mut doc, mut editor) = open("let x = 1;");
    editor.set_inlay_hints(vec![InlayHint::new(5, ": i32")]);
    for _ in 0..6 {
        editor.handle_key(&mut doc, KeyPress::key(KeyCode::Right));
    }
    let mut surface = Surface::new(30, 3, theme.base_style());
    editor.render(&doc, &mut surface, &theme);
    assert_eq!(row(&surface, 0), "let x: i32 = 1;");
    assert_eq!(surface.cell(5, 0).unwrap().style.fg, theme.info);
    assert_eq!(surface.cell(4, 0).unwrap().style.fg, theme.foreground);
    assert!(surface.cell(11, 0).unwrap().style.attrs.reverse);
    assert_eq!(doc.text(), "let x = 1;");
}

#[test]
fn problems_are_underlined_and_told() {
    let theme = theme();
    let (doc, mut editor) = open("abcd\nefgh");
    editor.set_diagnostics(vec![Diagnostic::new(1..3, Severity::Error, "no such name")]);
    let mut surface = Surface::new(60, 4, theme.base_style());
    editor.render(&doc, &mut surface, &theme);
    let marked: Vec<bool> = (0..4u32)
        .map(|x| surface.cell(x, 0).unwrap().style.attrs.underline)
        .collect();
    assert_eq!(marked, vec![false, true, true, false]);
    assert_eq!(surface.cell(1, 0).unwrap().style.fg, theme.error);
    assert!(editor.status_line(&doc).ends_with("no such name"));
    let mut doc = doc;
    editor.execute(&mut doc, "move-down");
    assert!(!editor.status_line(&doc).contains("no such name"));
}

#[test]
fn uses_of_a_symbol_are_tinted() {
    let theme = theme();
    let (doc, mut editor) = open("abcd");
    editor.set_occurrences(vec![Occurrence::new(1..2, true), Occurrence::new(3..4, false)]);
    let mut surface = Surface::new(20, 3, theme.base_style());
    editor.render(&doc, &mut surface, &theme);
    assert_eq!(surface.cell(1, 0).unwrap().style.bg, theme.accent);
    assert_eq!(surface.cell(2, 0).unwrap().style.bg, theme.background);
    assert_eq!(surface.cell(3, 0).unwrap().style.bg, theme.info);
}

#[test]
fn a_folded_region_shows_its_header_only() {
    let theme = theme();
    let (mut doc, mut editor) = open("one\ntwo\nthree\nfour");
    editor.set_folds(vec![FoldRange::new(0, 2), FoldRange::new(1, 2)]);
    editor.execute(&mut doc, "move-down");
    editor.execute(&mut doc, "toggle-fold");
    assert_eq!(editor.folded(), &[FoldRange::new(1, 2)][..], "the innermost");
    let mut surface = Surface::new(20, 5, theme.base_style());
    editor.render(&doc, &mut surface, &theme);
    assert_eq!(row(&surface, 0), "one");
    assert_eq!(row(&surface, 1), "two ⋯");
    assert_eq!(row(&surface, 2), "four");
    editor.execute(&mut doc, "toggle-fold");
    editor.render(&doc, &mut surface, &theme);
    assert_eq!(row(&surface, 1), "two");
    assert_eq!(row(&surface, 2), "three");
    assert_eq!(doc.text(), "one\ntwo\nthree\nfour");
}
