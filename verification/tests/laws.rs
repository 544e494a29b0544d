//! What holds of the library as a whole, on concrete values.

use majestic::buffer::Buffer;
use majestic::config::{ExtensionSpec, Extensions};
use majestic::fold::FoldRange;
use majestic::fuzzy::fuzzy_match;
use majestic::git_panel::{GitPanel, Section};
use majestic::hashline::{apply, HashlineEdit, LineRef, TagCheck};
use majestic::http::{CallFragment, StreamDelta, StreamItem, StreamReader};
use majestic::policy::{AgentAction, Policy};
use majestic::popup::scroll_start;
use majestic::search::Search;
use majestic::surface::{Glyphs, Rect, Rgb, Theme};
use majestic::syntax::{collect, Mark};
use majestic::typeset::{text_width, LineBuilder, Palette};

#[test]
fn a_fold_never_hides_its_header() {
    let fold = FoldRange::new(3, 5);
    assert!(fold.is_foldable());
    assert!(!fold.hides(3));
    assert!(fold.hides(4));
    assert!(fold.hides(5));
    assert!(!fold.hides(6));
    let flat = FoldRange::new(3, 3);
    assert!(!flat.is_foldable());
    assert!((0..10).all(|line| !flat.hides(line)));
}

#[test]
fn a_longer_query_matches_no_more() {
    for candidate in ["src/main.rs", "human", "mod.rs", ""] {
        if fuzzy_match("mn", candidate).is_some() {
            assert!(fuzzy_match("m", candidate).is_some());
        }
    }
}

#[test]
fn replacing_a_line_by_itself_changes_no_text() {
    let (mut doc, mut buffer) = Buffer::from_text("one\ntwo\n");
    let edit = HashlineEdit::Replace {
        at: LineRef::new(1, "xx"),
        text: "two".to_owned(),
    };
    let fresh = TagCheck {
        fresh: true,
        actual: "xx".to_owned(),
    };
    apply(&mut buffer, &mut doc, &[edit], &[fresh]).unwrap();
    assert_eq!(doc.text(), "one\ntwo\n");
}

#[test]
fn the_selected_entry_is_always_in_view() {
    for selected in 0..30usize {
        let first = scroll_start(selected, 7);
        assert!(first <= selected && selected < first + 7);
    }
}

#[test]
fn splitting_a_rectangle_loses_no_row() {
    let area = Rect::new(2, 3, 10, 8);
    for rows in [0, 1, 5, 8, 20] {
        let (top, rest) = area.split_top(rows);
        assert_eq!(top.height + rest.height, 8);
        assert_eq!(top.y + top.height, rest.y);
        let (above, bottom) = area.split_bottom(rows);
        assert_eq!(above.height + bottom.height, 8);
        assert_eq!(above.y + above.height, bottom.y);
    }
}

#[test]
fn down_then_up_returns_to_the_column() {
    let (doc, mut buffer) = Buffer::from_text("abcdef\nx\nabcdef");
    for _ in 0..4 {
        buffer.move_right(&doc, false);
    }
    buffer.move_down(&doc, false);
    buffer.move_up(&doc, false);
    assert_eq!(buffer.cursor(&doc), 4);
}

#[test]
fn no_occurrence_is_missed() {
    let mut search = Search::new(0);
    let text = "aXbXXc";
    search.push('X', text, 0);
    let starts: Vec<usize> = search.matches().iter().map(|m| m.start).collect();
    assert_eq!(starts, vec![1, 3, 4]);
}

#[test]
fn every_change_can_be_selected() {
    let mut panel = GitPanel::open("## main\nM  a.rs\n M b.rs\n?? c.rs\n");
    let mut seen = Vec::new();
    for _ in 0..3 {
        let (section, change) = panel.selected_change().expect("a file is selected");
        seen.push((section, change.path.clone()));
        panel.select(true);
    }
    assert_eq!(
        seen,
        vec![
            (Section::Staged, "a.rs".to_owned()),
            (Section::Unstaged, "b.rs".to_owned()),
            (Section::Untracked, "c.rs".to_owned()),
        ]
    );
}

#[test]
fn spans_come_from_reported_parts() {
    let layer = collect(&[
        Mark::Source(0, 1),
        Mark::Start(0),
        Mark::Source(1, 3),
        Mark::Source(3, 3),
        Mark::End,
        Mark::Source(3, 5),
        Mark::Failed,
        Mark::Start(0),
        Mark::Source(5, 6),
    ]);
    let ranges: Vec<(usize, usize)> = layer.spans().iter().map(|s| (s.start, s.end)).collect();
    assert_eq!(ranges, vec![(1, 3)]);
}

#[test]
fn wrapping_keeps_every_character() {
    let grey = Rgb {
        r: 100,
        g: 100,
        b: 100,
    };
    let theme = Theme {
        background: grey,
        foreground: grey,
        accent: grey,
        success: grey,
        error: grey,
        info: grey,
    };
    let palette = Palette::new(&theme);
    let narrow = Glyphs::narrow();
    let text = "alpha beta  gamma\tdelta epsilon";
    let mut builder = LineBuilder::new(11, &palette, &narrow);
    builder.push_span(text, palette.body);
    let lines = builder.finish();
    let shown: String = lines
        .iter()
        .flatten()
        .flat_map(|(run, _)| run.chars())
        .filter(|c| !c.is_whitespace())
        .collect();
    let ink: String = text.chars().filter(|c| !c.is_whitespace()).collect();
    assert_eq!(shown, ink);
    for line in &lines {
        let width: usize = line.iter().map(|(run, _)| text_width(&narrow, run)).sum();
        assert!(width <= 11);
    }
    assert!(lines.last().is_some_and(|line| !line.is_empty()));
}

#[test]
fn the_cut_of_a_stream_does_not_matter() {
    let fragment = |name: &str, arguments: &str| CallFragment {
        index: 0,
        id: None,
        name: Some(name.to_owned()),
        arguments: Some(arguments.to_owned()),
    };
    let finish = |fragments: Vec<CallFragment>| {
        let mut reader = StreamReader::new();
        for fragment in fragments {
            reader.read(&StreamItem::Delta(StreamDelta {
                content: None,
                tool_calls: vec![fragment],
            }));
        }
        reader.finish()
    };
    let cut = finish(vec![fragment("re", "{\"a\""), fragment("ad", ":1}")]);
    let whole = finish(vec![fragment("read", "{\"a\":1}")]);
    assert_eq!(cut, whole);
}

#[test]
fn no_program_runs_without_approval() {
    let open = Policy {
        shell_allowlist: vec!["git".to_owned()],
        network_allowlist: vec!["h".to_owned()],
        edits_need_approval: false,
    };
    let shell = AgentAction::Shell {
        command: "git push".to_owned(),
    };
    assert_ne!(
        open.decide(&shell),
        majestic::agent::Decision::Allow,
        "the user is asked"
    );
    assert!(Policy::default().decide(&shell).is_denied());
    assert!(Policy::default()
        .decide(&AgentAction::Network {
            host: "h".to_owned()
        })
        .is_denied());
}

#[test]
fn pinned_extensions_are_found_whatever_the_order() {
    let pin = |version: &str| ExtensionSpec {
        version: version.to_owned(),
        ..ExtensionSpec::default()
    };
    let names = ["b", "a", "c", "ab", ""];
    let mut extensions = Extensions::new();
    for name in names {
        extensions = extensions.with(name, pin(name));
    }
    for name in names {
        assert_eq!(extensions.get(name).unwrap().version, name);
    }
}
