//! The workspace: panes, tabs, splits and sessions.

use majestic::buffer::Buffer;
use majestic::diagnostic::{Diagnostic, Severity};
use majestic::document::Document;
use majestic::editor::{EditMode, Editor};
use majestic::fold::FoldRange;
use majestic::key::{KeyCode, KeyPress, Mods};
use majestic::paths::same_path;
use majestic::profiles::Profile;
use majestic::session::{LayoutNode, Session};
use majestic::surface::{Glyphs, Rect, Rgb, Surface, Theme};
use majestic::workspace::{adjust, first_size, split_area, Node, Split, Workspace};

fn theme() -> Theme {
    let rgb = |n: u8| Rgb { r: n, g: n, b: n };
    Theme {
        background: rgb(0),
        foreground: rgb(200),
        accent: rgb(120),
        success: rgb(130),
        error: rgb(140),
        info: rgb(150),
    }
}

fn alt(code: KeyCode) -> KeyPress {
    KeyPress::new(Mods::alt(), code)
}

fn doc(text: &str) -> (Document, Editor) {
    let (document, buffer) = Buffer::from_text(text);
    (document, Editor::with_buffer(buffer))
}

fn file(path: &str, text: &str) -> (Document, Editor) {
    let (document, _) = Document::open(path.to_owned(), text, None);
    (document, Editor::with_buffer(Buffer::over(0)))
}

fn text_of(workspace: &Workspace, editor: usize) -> String {
    let id = workspace.editors()[editor].buffer().document_id();
    workspace.documents()[id].text()
}

#[test]
fn starts_with_a_single_pane_and_tab() {
    let workspace = Workspace::new(doc(""));
    assert_eq!(workspace.pane_count(), 1);
    assert_eq!(workspace.active_index(), 0);
    assert!(!workspace.should_quit());
}

#[test]
fn split_opens_a_second_view_of_the_current_buffer() {
    let mut workspace = Workspace::new(doc("hi"));
    workspace.handle_key(KeyPress::ctrl('\\'));
    assert_eq!(workspace.pane_count(), 2);
    assert_eq!(workspace.editors().len(), 2);
    assert_eq!(workspace.focused(), 1);
    assert_eq!(text_of(&workspace, 0), "hi");
    assert_eq!(text_of(&workspace, 1), "hi");
    assert_eq!(workspace.documents().len(), 1);
}

#[test]
fn split_shows_the_current_buffer_not_a_background_tab() {
    let mut workspace = Workspace::from_editors(vec![doc("one"), doc("two")]);
    workspace.handle_key(KeyPress::ctrl('\\'));
    assert_eq!(workspace.pane_count(), 2);
    assert_eq!(workspace.editors().len(), 3);
    assert_eq!(workspace.active_document().text(), "one");
}

#[test]
fn split_views_share_edits() {
    let mut workspace = Workspace::new(doc("hi"));
    workspace.handle_key(KeyPress::ctrl('\\'));
    workspace.execute("move-line-end");
    workspace.handle_key(KeyPress::char('!'));
    assert_eq!(text_of(&workspace, 0), "hi!");
    assert_eq!(text_of(&workspace, 1), "hi!");
}

#[test]
fn split_views_track_each_others_cursors() {
    let mut workspace = Workspace::new(doc("hello"));
    workspace.execute("move-line-end");
    workspace.handle_key(KeyPress::ctrl('\\'));
    workspace.handle_key(KeyPress::char('X'));
    assert_eq!(text_of(&workspace, 0), "Xhello");
    assert_eq!(
        workspace.editors()[0]
            .buffer()
            .cursor(&workspace.documents()[0]),
        6,
        "pane 0's cursor tracked pane 1's insertion before it (5 -> 6)"
    );
}

#[test]
fn nested_splits_form_a_grid() {
    let mut workspace = Workspace::new(doc(""));
    workspace.handle_key(KeyPress::ctrl('\\'));
    workspace.handle_key(alt(KeyCode::Char('\\')));
    assert_eq!(workspace.pane_count(), 3);
    let Node::Split { dir, second, .. } = workspace.root() else {
        panic!("root should be a split");
    };
    assert_eq!(*dir, Split::Columns);
    assert!(matches!(
        **second,
        Node::Split {
            dir: Split::Rows,
            ..
        }
    ));
}

#[test]
fn resize_adjusts_the_enclosing_split_ratio() {
    let mut workspace = Workspace::new(doc(""));
    workspace.handle_key(KeyPress::ctrl('\\'));
    workspace.handle_key(alt(KeyCode::Up));
    let Node::Split { ratio, .. } = workspace.root() else {
        panic!("root should be a split");
    };
    assert!(
        *ratio < 50,
        "growing the second pane lowers the first's ratio: {ratio}"
    );
    workspace.handle_key(alt(KeyCode::Down));
    let Node::Split { ratio, .. } = workspace.root() else {
        unreachable!()
    };
    assert_eq!(*ratio, 50);
}

#[test]
fn close_pane_keeps_the_buffer_and_collapses_the_split() {
    let mut workspace = Workspace::new(doc(""));
    workspace.handle_key(KeyPress::ctrl('\\'));
    workspace.handle_key(KeyPress::ctrl('w'));
    assert_eq!(workspace.pane_count(), 1);
    assert_eq!(workspace.editors().len(), 2);
    assert!(matches!(workspace.root(), Node::Leaf(_)));
}

#[test]
fn alt_arrows_cycle_the_focused_pane_through_tabs() {
    let mut workspace = Workspace::from_editors(vec![doc("one"), doc("two")]);
    assert_eq!(workspace.active_document().text(), "one");
    workspace.handle_key(alt(KeyCode::Right));
    assert_eq!(workspace.active_document().text(), "two");
    workspace.handle_key(alt(KeyCode::Left));
    assert_eq!(workspace.active_document().text(), "one");
}

#[test]
fn set_tab_width_reaches_every_pane_and_new_buffers() {
    let mut workspace = Workspace::new(doc(""));
    workspace.set_tab_width(3);
    workspace.execute("indent");
    assert_eq!(workspace.active_document().text(), "   ");
    workspace.open(doc(""));
    workspace.execute("indent");
    assert_eq!(workspace.active_document().text(), "   ");
}

#[test]
fn window_keys_do_not_reach_the_buffer() {
    let mut workspace = Workspace::new(doc(""));
    workspace.handle_key(KeyPress::ctrl('\\'));
    assert_eq!(workspace.active_document().text(), "");
}

#[test]
fn set_profile_reaches_every_pane_and_new_buffers() {
    let mut workspace = Workspace::new(doc(""));
    workspace.set_profile(Profile::Vim);
    assert_eq!(workspace.profile(), Profile::Vim);
    workspace.handle_key(KeyPress::char('x'));
    assert_eq!(workspace.active_document().text(), "");
    workspace.open(doc(""));
    workspace.handle_key(KeyPress::char('x'));
    assert_eq!(workspace.active_document().text(), "");
    workspace.handle_key(KeyPress::char('i'));
    workspace.handle_key(KeyPress::char('x'));
    assert_eq!(workspace.active_document().text(), "x");
}

#[test]
fn clipboard_is_shared_across_panes() {
    let mut workspace = Workspace::from_editors(vec![doc("hello"), doc("")]);
    workspace.handle_key(KeyPress::ctrl('a'));
    workspace.handle_key(KeyPress::ctrl('c'));
    workspace.handle_key(KeyPress::ctrl('\\'));
    workspace.handle_key(alt(KeyCode::Right));
    assert_eq!(workspace.active_document().text(), "");
    workspace.handle_key(KeyPress::ctrl('v'));
    assert_eq!(workspace.active_document().text(), "hello");
}

#[test]
fn split_area_columns_reserves_a_divider() {
    let (first, divider, second) = split_area(Rect::new(0, 0, 10, 4), Split::Columns, 50);
    assert_eq!(first, Rect::new(0, 0, 4, 4));
    assert_eq!(divider, Some(Rect::new(4, 0, 1, 4)));
    assert_eq!(second, Rect::new(5, 0, 5, 4));
}

#[test]
fn first_size_clamps_so_both_children_survive() {
    assert_eq!(first_size(9, 50), 4);
    assert_eq!(first_size(9, 0), 1);
    assert_eq!(first_size(9, 100), 8);
}

#[test]
fn render_draws_tab_bar_and_a_divider() {
    let theme = theme();
    let mut workspace = Workspace::from_editors(vec![doc("aaa"), doc("bbb")]);
    workspace.handle_key(KeyPress::ctrl('\\'));

    let mut surface = Surface::new(40, 8, theme.base_style());
    let area = surface.area();
    workspace.render(&mut surface, area, &theme, true);

    let tabs: String = (0..surface.width())
        .filter_map(|x| surface.cell(x, 0).map(|c| c.symbol))
        .collect();
    assert!(
        tabs.contains("scratch"),
        "tab bar lists the buffers: {tabs:?}"
    );

    let has_divider = (0..surface.width()).any(|x| {
        (1..surface.height()).any(|y| surface.cell(x, y).is_some_and(|c| c.symbol == '│'))
    });
    assert!(
        has_divider,
        "expected a vertical divider between the two panes"
    );
}

#[test]
fn single_scratch_session_round_trips_to_one_pane() {
    let workspace = Workspace::new(doc(""));
    let session = workspace.to_session();
    assert_eq!(session.panes.len(), 1);
    assert!(session.panes[0].path.is_none());
    assert_eq!(
        Workspace::from_session(&session, vec![doc("").0]).pane_count(),
        1
    );
}

#[test]
fn session_captures_and_restores_split_layout_and_cursor() {
    let text = "hello world\nsecond line\n";
    let open = || Document::open("a.txt".to_owned(), text, None).0;
    let mut workspace = Workspace::new(file("a.txt", text));
    workspace.handle_key(KeyPress::ctrl('\\'));
    workspace.execute("move-right");
    workspace.execute("move-right");
    let cursor = workspace
        .active()
        .buffer()
        .cursor(workspace.active_document());
    assert_eq!(cursor, 2);

    let session = workspace.to_session();
    assert_eq!(session.panes.len(), 2);
    assert_eq!(session.panes[1].path.as_deref(), Some("a.txt"));

    let restored = Workspace::from_session(&session, vec![open(), open()]);
    assert_eq!(restored.pane_count(), 2);
    assert_eq!(
        restored.active().buffer().cursor(restored.active_document()),
        cursor
    );
    assert_eq!(restored.active_document().text(), text);
    assert_eq!(restored.to_session(), session, "a session round-trips");
}

#[test]
fn closing_undoes_a_split() {
    let mut workspace = Workspace::from_editors(vec![doc("one"), doc("two")]);
    let before = workspace.pane_count();
    workspace.handle_key(KeyPress::ctrl('\\'));
    workspace.handle_key(KeyPress::ctrl('w'));
    assert_eq!(workspace.pane_count(), before);
    assert_eq!(workspace.active_document().text(), "one");
}

#[test]
fn reports_reach_the_editors_of_their_file() {
    let mut workspace = Workspace::from_editors(vec![
        file("a.rs", "aaa"),
        file("b.rs", "bbb"),
    ]);
    let problem = Diagnostic::new(0..1, Severity::Error, "no");
    workspace.apply_diagnostics("b.rs", &[problem.clone()]);
    assert!(workspace.editors()[0].diagnostics().is_empty());
    assert_eq!(workspace.editors()[1].diagnostics(), &[problem][..]);
    assert!(workspace.reveal_path("b.rs"));
    assert_eq!(workspace.active_document().text(), "bbb");
    assert!(!workspace.reveal_path("c.rs"));
}

#[test]
fn replacing_in_the_active_document_is_undone_at_once() {
    let mut workspace = Workspace::new(doc("hello"));
    workspace.replace_active(1, 4, "EY");
    assert_eq!(workspace.active_document().text(), "hEYo");
    workspace.execute("undo");
    assert_eq!(workspace.active_document().text(), "hello");
    workspace.insert_text("ab");
    assert_eq!(workspace.active_document().text().len(), 7);
}

#[test]
fn save_and_search_are_asked_for_once() {
    let mut workspace = Workspace::new(doc("hello"));
    workspace.execute("find");
    assert!(workspace.take_search_request());
    assert!(!workspace.take_search_request());
    workspace.execute("save");
    assert!(workspace.take_save_request());
    assert!(!workspace.take_save_request());
}

#[test]
fn the_cursor_cell_lies_in_its_pane() {
    let mut workspace = Workspace::new(doc("hello"));
    workspace.set_active_cursor(2);
    let area = Rect::new(0, 1, 20, 4);
    assert_eq!(
        workspace.active_cursor_screen(area, &Glyphs::narrow()),
        Some((2, 1))
    );
}

#[test]
fn the_session_file_lies_below_the_state_directory() {
    assert_eq!(
        Session::default_path(Some("/state"), Some("/home/u")).as_deref(),
        Some("/state/majestic/session.json")
    );
    assert_eq!(
        Session::default_path(None, Some("/home/u")).as_deref(),
        Some("/home/u/.local/state/majestic/session.json")
    );
    assert_eq!(Session::default_path(None, None), None);
}

#[test]
fn a_session_of_a_grid_keeps_its_tree() {
    let mut workspace = Workspace::new(doc(""));
    workspace.handle_key(KeyPress::ctrl('\\'));
    let session = workspace.to_session();
    assert_eq!(
        session.layout,
        LayoutNode::Split {
            dir: Split::Columns,
            ratio: 50,
            first: Box::new(LayoutNode::Leaf(0)),
            second: Box::new(LayoutNode::Leaf(1)),
        }
    );
}

#[test]
fn which_key_shows_while_a_prefix_is_in_progress() {
    let mut workspace = Workspace::new(doc(""));
    workspace.set_profile(Profile::Emacs);
    assert!(workspace.which_key().is_none());
    workspace.handle_key(KeyPress::ctrl('x'));
    let hint = workspace.which_key();
    assert!(matches!(&hint, Some(hint) if !hint.is_empty()));
    let theme = theme();
    let mut surface = Surface::new(50, 12, theme.base_style());
    let area = surface.area();
    hint.unwrap().render(&mut surface, area, &theme);
    let mut text = String::new();
    for y in 0..surface.height() {
        for x in 0..surface.width() {
            if let Some(cell) = surface.cell(x, y) {
                text.push(cell.symbol);
            }
        }
    }
    assert!(text.contains("C-s     save"));
    assert!(text.contains("C-c     quit"));
    assert!(text.contains("close-buffer"));
    assert!(text.contains("select-all"));
    workspace.handle_key(KeyPress::char('h'));
    assert!(workspace.which_key().is_none());
}

#[test]
fn ratios_stay_within_their_bounds() {
    assert_eq!(adjust(100, false), 90);
    assert_eq!(adjust(0, true), 10);
    assert_eq!(adjust(50, true), 56);
    assert_eq!(adjust(50, false), 44);
    assert_eq!(adjust(90, true), 90);
    assert_eq!(adjust(10, false), 10);
}

#[test]
fn a_split_keeps_the_profile() {
    let mut workspace = Workspace::new(doc("abc"));
    workspace.set_profile(Profile::Vim);
    workspace.handle_key(KeyPress::ctrl('\\'));
    assert_eq!(workspace.pane_count(), 2);
    assert_eq!(workspace.active().mode(), EditMode::Normal);
    workspace.handle_key(KeyPress::char('z'));
    assert_eq!(workspace.active_document().text(), "abc");
}

#[test]
fn an_opened_editor_shares_the_clipboard() {
    let mut workspace = Workspace::new(doc("hello"));
    workspace.handle_key(KeyPress::ctrl('a'));
    workspace.handle_key(KeyPress::ctrl('c'));
    workspace.open(doc(""));
    workspace.handle_key(KeyPress::ctrl('v'));
    assert_eq!(workspace.active_document().text(), "hello");
}

#[test]
fn executed_commands_reach_the_whole_workspace() {
    let mut workspace = Workspace::from_editors(vec![doc("hello"), doc("")]);
    workspace.execute("select-all");
    workspace.execute("copy");
    assert_eq!(workspace.editors()[1].clipboard(), "hello");

    workspace.execute("profile-vim");
    assert_eq!(workspace.profile(), Profile::Vim);
    for editor in workspace.editors() {
        assert_eq!(editor.mode(), EditMode::Normal);
        assert_eq!(editor.profile(), Profile::Vim);
    }

    assert!(!workspace.should_quit());
    workspace.execute("quit");
    assert!(workspace.should_quit());
    workspace.execute("move-right");
    assert!(workspace.should_quit(), "a quit is not taken back");
}

#[test]
fn the_editors_of_a_workspace_keep_their_state() {
    let (document, mut editor) = doc("abc");
    editor.set_clipboard("kept");
    editor.restore_position(&document, 2, 0, 0);
    let workspace = Workspace::new((document, editor));
    assert_eq!(workspace.active().clipboard(), "kept");
    let cursor = workspace.active().buffer().cursor(workspace.active_document());
    assert_eq!(cursor, 2);
}

#[test]
fn files_are_told_apart_by_their_components() {
    let mut workspace = Workspace::from_editors(vec![file("/p/a.rs", "aaa"), file("/p/b.rs", "bbb")]);
    assert!(workspace.reveal_path("/p//./b.rs"));
    assert_eq!(workspace.active_document().text(), "bbb");
    assert!(!workspace.reveal_path("p/b.rs"));

    assert!(same_path("/a//b.rs", "/a/b.rs"));
    assert!(same_path("a/./b/", "a/b"));
    assert!(!same_path("/a", "a"));
    assert!(!same_path("./a", "a"));
    assert!(!same_path("a/../b", "b"));
}

#[test]
fn the_fold_under_the_cursor_is_toggled() {
    let mut workspace = Workspace::new(file("a.rs", "fn a() {\n    1\n}\nfn b() {}\n"));
    let fold = FoldRange::new(0, 2);
    workspace.apply_folds("a.rs", &[fold]);
    workspace.toggle_active_fold();
    assert_eq!(workspace.active().folded(), &[fold][..]);

    let theme = theme();
    let mut surface = Surface::new(20, 6, theme.base_style());
    let area = surface.area();
    workspace.render(&mut surface, area, &theme, true);
    let row = |y: u32| -> String {
        (0..surface.width())
            .filter_map(|x| surface.cell(x, y).map(|c| c.symbol))
            .collect()
    };
    assert!((0..6).any(|y| row(y).starts_with("fn a() { ⋯")));
    assert!((0..6).any(|y| row(y).starts_with("fn b() {}")));
    assert!((0..6).all(|y| !row(y).starts_with("    1")));

    workspace.toggle_active_fold();
    assert!(workspace.active().folded().is_empty());
}
