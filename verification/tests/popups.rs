//! Popups, pickers, prompts and search.

use majestic::code_action::{CodeAction, CodeActions, Command};
use majestic::completion::{Completion, CompletionItem};
use majestic::diagnostic::{Diagnostic, Severity};
use majestic::finder::{Action, Finder};
use majestic::fuzzy::{fuzzy_match, fuzzy_rank};
use majestic::hover::Hover;
use majestic::key::KeyPress;
use majestic::occurrence::Occurrence;
use majestic::profiles::Profile;
use majestic::prompt::Prompt;
use majestic::references::{Reference, References};
use majestic::search::Search;
use majestic::selector::ProfileSelector;
use majestic::signature::SignatureHelp;
use majestic::surface::{CharRange, Glyphs, Rgb, Surface, Theme};
use majestic::symbols::{Symbol, Symbols};
use majestic::whichkey::{key_label, WhichKey};

fn theme() -> Theme {
    let rgb = |n: u8| Rgb { r: n, g: n, b: n };
    Theme {
        background: rgb(0),
        foreground: rgb(200),
        accent: rgb(120),
        success: rgb(130),
        error: rgb(140),
        info: rgb(150),
    }
}

fn shown(surface: &Surface) -> String {
    let mut text = String::new();
    for y in 0..surface.height() {
        for x in 0..surface.width() {
            if let Some(cell) = surface.cell(x, y) {
                text.push(cell.symbol);
            }
        }
        text.push('\n');
    }
    text
}

#[test]
fn selection_navigates_and_reports_applicability() {
    let mut menu = CodeActions::new(vec![
        CodeAction::new("editless command", Vec::new()),
        CodeAction::new("a fix", Vec::new()),
    ]);
    assert!(!menu.selected().unwrap().is_applicable());
    menu.select_down();
    assert_eq!(menu.selected().unwrap().title, "a fix");
    menu.select_down();
    assert_eq!(menu.selected().unwrap().title, "a fix");
    menu.select_up();
    assert_eq!(menu.selected().unwrap().title, "editless command");
}

#[test]
fn a_command_makes_an_action_applicable() {
    let action = CodeAction::new("run", Vec::new()).with_command(Command {
        id: "x".to_owned(),
        arguments: Vec::new(),
    });
    assert!(action.is_applicable());
}

#[test]
fn empty_menu_reports_empty() {
    assert!(CodeActions::new(Vec::new()).is_empty());
}

#[test]
fn commands_filter_and_accept() {
    let mut finder = Finder::commands(&["save", "select-all", "split-right", "undo"]);
    assert_eq!(
        finder.accept(),
        Some(&Action::RunCommand("save".to_owned()))
    );

    finder.push('s');
    finder.push('a');
    assert_eq!(
        finder.accept(),
        Some(&Action::RunCommand("save".to_owned()))
    );

    finder.select_down();
    assert_eq!(
        finder.accept(),
        Some(&Action::RunCommand("select-all".to_owned()))
    );
}

#[test]
fn typing_a_miss_empties_the_results() {
    let mut finder = Finder::commands(&["save", "undo"]);
    finder.push('z');
    finder.push('z');
    assert_eq!(finder.accept(), None);
    finder.backspace();
    finder.backspace();
    assert!(finder.accept().is_some());
}

#[test]
fn files_are_labelled_from_the_root() {
    let mut finder = Finder::files("/p", &["/p/src/a.rs".to_owned(), "/q/b.rs".to_owned()]);
    finder.push('b');
    assert_eq!(
        finder.accept(),
        Some(&Action::OpenFile("/q/b.rs".to_owned()))
    );
}

#[test]
fn renders_a_centred_box_with_the_title() {
    let theme = theme();
    let finder = Finder::commands(&["save", "quit"]);
    let mut surface = Surface::new(40, 12, theme.base_style());
    let area = surface.area();
    finder.render(&mut surface, area, &theme);
    let text = shown(&surface);
    assert!(text.contains("Command Palette"), "modal shows its title");
    assert!(text.contains("save"), "modal lists the candidates");
    assert!(text.contains('┌'), "modal has a box border");
}

#[test]
fn matches_subsequences_case_insensitively() {
    assert!(fuzzy_match("fb", "foobar").is_some());
    assert!(fuzzy_match("FB", "foobar").is_some());
    assert!(fuzzy_match("fzf", "fuzzy_finder").is_some());
    assert!(fuzzy_match("xyz", "foobar").is_none());
    assert_eq!(fuzzy_match("", "anything"), Some(0));
}

#[test]
fn consecutive_and_boundary_matches_score_higher() {
    assert!(fuzzy_match("foo", "foobar") > fuzzy_match("foo", "f_o_o_x"));
    assert!(fuzzy_match("m", "src/main.rs") > fuzzy_match("m", "human"));
}

#[test]
fn rank_orders_best_first_and_drops_non_matches() {
    let candidates = ["human", "src/main.rs", "readme.md", "mod.rs"];
    let ranked = fuzzy_rank("mn", &candidates);
    assert_eq!(ranked, vec![1, 0]);
}

#[test]
fn empty_query_keeps_input_order() {
    let candidates = ["a", "b", "c"];
    assert_eq!(fuzzy_rank("", &candidates), vec![0, 1, 2]);
}

#[test]
fn trims_surrounding_blank_lines_but_keeps_interior() {
    let hover = Hover::new("\n\nfn foo()\n\nDocs here\n\n");
    assert_eq!(*hover.lines(), vec!["fn foo()", "", "Docs here"]);
    assert!(!hover.is_empty());
}

#[test]
fn blank_content_is_empty() {
    assert!(Hover::new("").is_empty());
    assert!(Hover::new("   \n\n  ").is_empty());
}

#[test]
fn scrolling_saturates_at_both_ends() {
    let mut hover = Hover::new("a\nb\nc");
    hover.scroll_up();
    assert_eq!(hover.scroll(), 0);
    hover.scroll_down();
    hover.scroll_down();
    hover.scroll_down();
    assert_eq!(hover.scroll(), 2);
    hover.scroll_up();
    assert_eq!(hover.scroll(), 1);
}

#[test]
fn covers_the_half_open_span() {
    let occ = Occurrence::new(4..7, true);
    assert!(occ.write);
    assert!(!occ.covers(3));
    assert!(occ.covers(4));
    assert!(occ.covers(6));
    assert!(!occ.covers(7));
}

#[test]
fn zero_width_span_covers_its_start() {
    let occ = Occurrence::new(5..5, false);
    assert!(occ.covers(5));
    assert!(!occ.covers(4));
    assert!(!occ.covers(6));
    assert!(Diagnostic::new(5..5, Severity::Warning, "w").covers(5));
}

#[test]
fn edits_the_input_at_the_end() {
    let mut prompt = Prompt::new("Rename", "old");
    assert_eq!(prompt.input(), "old");
    prompt.backspace();
    assert_eq!(prompt.input(), "ol");
    prompt.push('d');
    prompt.push('y');
    assert_eq!(prompt.input(), "oldy");
}

#[test]
fn backspace_on_empty_is_a_no_op() {
    let mut prompt = Prompt::new("Rename", "");
    prompt.backspace();
    assert_eq!(prompt.input(), "");
}

fn reference(name: &str, line: u32, preview: &str) -> Reference {
    Reference {
        path: format!("/src/{name}"),
        line,
        character: 0,
        preview: preview.to_owned(),
    }
}

#[test]
fn references_selection_navigates_and_saturates_at_the_ends() {
    let mut refs = References::new(vec![
        reference("a.rs", 0, "let a = 1;"),
        reference("b.rs", 4, "use a;"),
    ]);
    assert_eq!(refs.selected().unwrap().path, "/src/a.rs");
    refs.select_up();
    assert_eq!(refs.selected().unwrap().path, "/src/a.rs");
    refs.select_down();
    assert_eq!(refs.selected().unwrap().path, "/src/b.rs");
    refs.select_down();
    assert_eq!(refs.selected().unwrap().path, "/src/b.rs");
}

#[test]
fn location_is_file_name_and_one_based_line() {
    assert_eq!(reference("server.rs", 12, "x").location(), "server.rs:13");
}

#[test]
fn empty_popup_reports_empty() {
    assert!(References::new(Vec::new()).is_empty());
}

#[test]
fn popups_are_drawn_by_the_cursor() {
    let theme = theme();
    let mut surface = Surface::new(60, 12, theme.base_style());
    let area = surface.area();
    References::new(vec![reference("b.rs", 4, "use a;")]).render(&mut surface, area, (3, 2), &theme);
    assert!(shown(&surface).contains("b.rs:5"));

    let mut surface = Surface::new(60, 12, theme.base_style());
    Completion::new(vec![CompletionItem {
        label: "println".to_owned(),
        insert_text: "println!".to_owned(),
        detail: Some("macro".to_owned()),
    }])
    .render(&mut surface, area, (3, 2), &theme);
    assert!(shown(&surface).contains("println"));

    let mut surface = Surface::new(60, 12, theme.base_style());
    CodeActions::new(vec![CodeAction::new("a fix", Vec::new())]).render(
        &mut surface,
        area,
        (3, 2),
        &theme,
    );
    assert!(shown(&surface).contains("a fix"));

    let mut surface = Surface::new(60, 12, theme.base_style());
    Hover::new("docs here").render(&mut surface, area, (3, 5), &theme);
    assert!(shown(&surface).contains("docs here"));

    let mut surface = Surface::new(60, 12, theme.base_style());
    SignatureHelp::new("write(buf, n)", Some((6, 9))).render(&mut surface, area, (3, 5), &theme);
    assert!(shown(&surface).contains("write(buf, n)"));

    let mut surface = Surface::new(60, 12, theme.base_style());
    Prompt::new("Rename", "old").render(&mut surface, area, &theme);
    assert!(shown(&surface).contains("old"));
}

#[test]
fn incremental_query_finds_and_advances_matches() {
    let text = "foo bar foo baz foo";
    let mut search = Search::new(0);
    search.push('f', text, 0);
    search.push('o', text, 0);
    search.push('o', text, 0);
    assert_eq!(search.query(), "foo");
    assert_eq!(search.match_count(), 3);
    assert_eq!(search.active_match(), Some(0..3));
    assert_eq!(search.active_index(), 1);

    search.next();
    assert_eq!(search.active_match(), Some(8..11));
    search.next();
    assert_eq!(search.active_match(), Some(16..19));
    search.next();
    assert_eq!(search.active_match(), Some(0..3));
    search.prev();
    assert_eq!(search.active_match(), Some(16..19));
}

#[test]
fn search_lands_on_the_first_match_at_or_after_the_cursor() {
    let text = "foo bar foo baz foo";
    let mut search = Search::new(10);
    search.push('f', text, 10);
    search.push('o', text, 10);
    search.push('o', text, 10);
    assert_eq!(search.active_match(), Some(16..19));
}

#[test]
fn backspace_recomputes_and_empty_query_clears() {
    let text = "alpha beta alps";
    let mut search = Search::new(0);
    for c in "alp".chars() {
        search.push(c, text, 0);
    }
    assert_eq!(search.match_count(), 2);
    for c in "ha".chars() {
        search.push(c, text, 0);
    }
    assert_eq!(search.query(), "alpha");
    assert_eq!(search.match_count(), 1);
    search.backspace(text, 0);
    search.backspace(text, 0);
    assert_eq!(search.query(), "alp");
    assert_eq!(search.match_count(), 2);
    for _ in 0..3 {
        search.backspace(text, 0);
    }
    assert!(search.query().is_empty());
    assert_eq!(search.match_count(), 0);
    assert_eq!(search.active_match(), None);
}

#[test]
fn multibyte_text_does_not_panic_and_finds_matches() {
    let text = "café au café";
    let mut search = Search::new(0);
    for c in "café".chars() {
        search.push(c, text, 0);
    }
    assert_eq!(search.match_count(), 2);
    assert_eq!(search.active_index(), 1);
}

#[test]
fn choose_maps_letters_case_insensitively() {
    let selector = ProfileSelector::new();
    assert_eq!(selector.pick('c'), Some(Profile::Cua));
    assert_eq!(selector.pick('E'), Some(Profile::Emacs));
    assert_eq!(selector.pick('v'), Some(Profile::Vim));
    assert_eq!(selector.pick('S'), Some(Profile::Spacemacs));
    assert_eq!(selector.pick('z'), None);
}

#[test]
fn render_draws_the_options_into_the_surface() {
    let theme = theme();
    let mut surface = Surface::new(70, 16, theme.base_style());
    let area = surface.area();
    ProfileSelector::new().render(&mut surface, area, &theme);
    assert!(
        shown(&surface).contains("Choose your keybindings"),
        "selector heading should be rendered"
    );
}

#[test]
fn blank_label_is_empty() {
    assert!(SignatureHelp::new("", None).is_empty());
    assert!(SignatureHelp::new("   ", None).is_empty());
    assert!(!SignatureHelp::new("fn f(x: i32)", Some((5, 11))).is_empty());
}

#[test]
fn carries_label_and_active_range() {
    let help = SignatureHelp::new("write(buf, n)", Some((6, 9)));
    assert_eq!(help, SignatureHelp::new("write(buf, n)", Some((6, 9))));
    assert_ne!(help, SignatureHelp::new("write(buf, n)", None));
}

fn symbol(name: &str, kind: char, depth: u16) -> Symbol {
    Symbol {
        name: name.to_owned(),
        kind,
        line: 0,
        character: 0,
        depth,
    }
}

#[test]
fn symbols_selection_navigates_and_saturates_at_the_ends() {
    let mut symbols = Symbols::new(vec![
        symbol("LspManager", 's', 0),
        symbol("request_completion", 'f', 1),
    ]);
    assert_eq!(symbols.selected().unwrap().name, "LspManager");
    symbols.select_up();
    assert_eq!(symbols.selected().unwrap().name, "LspManager");
    symbols.select_down();
    assert_eq!(symbols.selected().unwrap().name, "request_completion");
    symbols.select_down();
    assert_eq!(symbols.selected().unwrap().name, "request_completion");
}

#[test]
fn row_text_indents_by_depth_after_the_badge() {
    assert_eq!(symbol("foo", 'f', 0).row_text(), "f foo");
    assert_eq!(symbol("bar", 'f', 1).row_text(), "  f bar");
    assert_eq!(symbol("deep", 'f', 99).row_text(), "            f deep");
}

#[test]
fn empty_picker_reports_empty() {
    assert!(Symbols::new(Vec::new()).is_empty());
}

#[test]
fn key_label_renders_space_as_spc() {
    assert_eq!(key_label(KeyPress::char(' ')), "SPC");
    assert_eq!(key_label(KeyPress::char('f')), "f");
    assert_eq!(key_label(KeyPress::ctrl('s')), "C-s");
}

#[test]
fn empty_which_key_reports_empty() {
    assert!(WhichKey::new(vec![]).is_empty());
}

#[test]
fn render_lists_the_continuation_labels() {
    let theme = theme();
    let mut surface = Surface::new(50, 12, theme.base_style());
    let area = surface.area();
    WhichKey::new(vec![
        (KeyPress::char('f'), "+prefix".to_owned()),
        (KeyPress::char(' '), "save".to_owned()),
    ])
    .render(&mut surface, area, &theme);
    let text = shown(&surface);
    assert!(text.contains("save"));
    assert!(text.contains("+prefix"));
    assert!(text.contains("SPC"));
}

#[test]
fn popups_stay_inside_a_small_area() {
    let theme = theme();
    let mut surface = Surface::new(40, 4, theme.base_style());
    let area = surface.area();
    let items = (0..9)
        .map(|i| CompletionItem {
            label: format!("item{i}"),
            insert_text: String::new(),
            detail: None,
        })
        .collect();
    Completion::new(items).render(&mut surface, area, (39, 3), &theme);
    assert!(shown(&surface).contains("item0"));

    let mut surface = Surface::new(40, 4, theme.base_style());
    SignatureHelp::new("f(a)", None).render(&mut surface, area, (39, 0), &theme);
    assert!(shown(&surface).contains("f(a)"));
}

#[test]
fn popups_make_room_for_wide_characters() {
    let theme = theme();
    let wide = Glyphs {
        wide: vec![CharRange {
            first: '\u{4e00}',
            last: '\u{9fff}',
        }],
        zero: Vec::new(),
    };
    let mut surface = Surface::with_glyphs(40, 6, theme.base_style(), wide);
    let area = surface.area();
    Completion::new(vec![CompletionItem {
        label: "世界世界世界x".to_owned(),
        insert_text: String::new(),
        detail: None,
    }])
    .render(&mut surface, area, (2, 1), &theme);
    let text = shown(&surface);
    assert_eq!(text.matches('世').count(), 3);
    assert!(text.contains('x'), "the end of the label is not cut off: {text:?}");
}

#[test]
fn what_follows_the_last_hit_does_not_matter() {
    assert_eq!(fuzzy_match("sm", "src/main"), fuzzy_match("sm", "src/main.rs"));
    assert_eq!(fuzzy_match("xz", "abc"), None);
    assert_eq!(fuzzy_match("ba", "abc"), None, "the order counts");
    let score = fuzzy_match("sm", "src/main").unwrap();
    assert!((2..=32).contains(&score));
}

#[test]
fn a_hover_is_empty_however_it_is_scrolled() {
    for text in ["", " \n\t", "a\nb", "\n\nx\n"] {
        let mut hover = Hover::new(text);
        for down in [true, true, false, true, false, false, false] {
            let before = hover.lines().clone();
            if down {
                hover.scroll_down();
            } else {
                hover.scroll_up();
            }
            assert_eq!(*hover.lines(), before);
            assert_eq!(hover.is_empty(), text.trim().is_empty());
        }
    }
}
