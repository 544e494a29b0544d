//! Rendered documents: Markdown, Texinfo, Info, and the colours of syntax.

use majestic::info::{InfoDocument, InfoReader};
use majestic::markdown;
use majestic::preview::{Preview, PreviewKind};
use majestic::surface::{Glyphs, Rgb, Surface, Theme};
use majestic::syntax::{dim, HighlightKind, Span, SpanLayer, SyntaxHighlighter};
use majestic::syntect_hl::{
    join_scopes, report_lines, scope_to_kind, spans_of, stack_to_kind, Change, SyntectHighlighter,
    MAX_LINE,
};
use majestic::texinfo;
use majestic::typeset::Palette;

fn theme() -> Theme {
    let rgb = |n: u8| Rgb { r: n, g: n, b: n };
    Theme {
        background: rgb(0),
        foreground: rgb(200),
        accent: rgb(120),
        success: rgb(130),
        error: rgb(140),
        info: rgb(150),
    }
}

fn from_markdown(source: &str, width: usize) -> Vec<String> {
    markdown::layout(source, width, &Palette::new(&theme()), &Glyphs::narrow())
        .iter()
        .map(|line| line.iter().map(|(text, _)| text.as_str()).collect::<String>())
        .collect()
}

fn from_texinfo(source: &str, width: usize) -> Vec<String> {
    texinfo::layout(source, width, &Palette::new(&theme()), &Glyphs::narrow())
        .iter()
        .map(|line| line.iter().map(|(text, _)| text.as_str()).collect::<String>())
        .collect()
}

#[test]
fn a_heading_gets_a_rule_under_it() {
    let lines = from_markdown("# Title\n", 20);
    assert_eq!(lines[0], "Title");
    assert!(
        lines[1].chars().all(|c| c == '─'),
        "an H1 is underlined by a rule"
    );
}

#[test]
fn bullet_ordered_and_task_lists_render_markers() {
    assert_eq!(from_markdown("- one\n- two\n", 20), ["• one", "• two"]);
    assert_eq!(from_markdown("1. a\n2. b\n", 20), ["1. a", "2. b"]);
    assert_eq!(
        from_markdown("- [ ] todo\n- [x] done\n", 20),
        ["☐ todo", "☑ done"]
    );
}

#[test]
fn a_code_block_keeps_its_lines_verbatim_and_indented() {
    let lines = from_markdown("```\nlet x = 1;\n```\n", 40);
    assert!(
        lines.iter().any(|line| line == "  let x = 1;"),
        "code lines are inset by two spaces and not wrapped: {lines:?}"
    );
}

#[test]
fn a_long_paragraph_wraps_at_the_width() {
    let lines = from_markdown("alpha beta gamma delta epsilon", 12);
    assert!(lines.len() > 1, "the paragraph wraps: {lines:?}");
    assert!(lines.iter().all(|line| line.chars().count() <= 12));
}

#[test]
fn inline_runs_keep_exact_spacing_around_punctuation() {
    assert_eq!(from_markdown("see `code`.", 40), ["see code."]);
    assert_eq!(from_markdown("a`b`c", 40), ["abc"]);
    assert_eq!(from_markdown("**bold**, then more", 40), ["bold, then more"]);
}

#[test]
fn a_gfm_table_renders_aligned_columns() {
    let lines = from_markdown("| Name | Qty |\n|------|-----|\n| mj | 1 |\n", 40);
    assert_eq!(
        lines[0], "Name │ Qty",
        "header cells padded to the column width"
    );
    assert!(
        lines[1].starts_with('─') && lines[1].contains('┼'),
        "a rule under the header"
    );
    assert_eq!(
        lines[2], "mj   │ 1",
        "body cells padded to align under the header"
    );
}

#[test]
fn an_h1_span_is_bold_and_a_link_is_underlined() {
    let palette = Palette::new(&theme());
    let narrow = Glyphs::narrow();
    assert!(
        markdown::layout("# Hi", 20, &palette, &narrow)[0][0].1.attrs.bold,
        "heading text is bold"
    );
    let link = markdown::layout("[text](http://example.com)", 20, &palette, &narrow);
    let span = &link[0][0];
    assert_eq!(span.0, "text", "link text is rendered");
    assert!(span.1.attrs.underline, "link is underlined");
}

#[test]
fn a_section_becomes_a_heading_with_a_rule() {
    let lines = from_texinfo("@section Introduction\n", 30);
    assert_eq!(lines[0], "Introduction");
    assert!(
        lines[1].chars().all(|c| c == '─'),
        "@section is underlined by a rule"
    );
}

#[test]
fn inline_commands_and_escapes_resolve() {
    let lines = from_texinfo("Use @code{mj} and @strong{F7}; mail a@@b.\n", 60);
    let joined = lines.join(" ");
    assert!(
        joined.contains("Use mj and F7"),
        "inline commands keep their text: {joined:?}"
    );
    assert!(
        joined.contains("a@b"),
        "@@ resolves to a literal @: {joined:?}"
    );
}

#[test]
fn itemize_and_enumerate_render_markers() {
    let bullets = from_texinfo("@itemize\n@item one\n@item two\n@end itemize\n", 30);
    assert_eq!(bullets, ["• one", "• two"]);
    let numbered = from_texinfo("@enumerate\n@item a\n@item b\n@end enumerate\n", 30);
    assert_eq!(numbered, ["1. a", "2. b"]);
}

#[test]
fn a_multitable_renders_aligned_columns() {
    let texi = "@multitable @columnfractions .5 .5\n@headitem Key @tab Action\n\
                @item F7 @tab Preview\n@end multitable\n";
    let lines = from_texinfo(texi, 40);
    assert_eq!(lines[0], "Key │ Action", "@headitem is the header row");
    assert!(lines[1].contains('┼'), "a rule under the header");
    assert_eq!(
        lines[2], "F7  │ Preview",
        "@item cells align under the header"
    );
}

#[test]
fn an_inline_command_before_punctuation_has_no_spurious_space() {
    assert_eq!(from_texinfo("Press @code{F7}.", 40), ["Press F7."]);
}

#[test]
fn an_example_block_is_verbatim_and_inset() {
    let lines = from_texinfo("@example\nlet x = 1;\n@end example\n", 40);
    assert!(
        lines.iter().any(|line| line == "  let x = 1;"),
        "@example lines are inset and verbatim: {lines:?}"
    );
}

#[test]
fn comments_and_skipped_conditionals_produce_nothing() {
    let lines = from_texinfo(
        "@c a comment\n@iftex\nprinted only\n@end iftex\nVisible.\n",
        40,
    );
    let joined = lines.join("");
    assert!(!joined.contains("comment"), "@c lines are dropped");
    assert!(
        !joined.contains("printed only"),
        "@iftex content is skipped"
    );
    assert!(joined.contains("Visible."), "ordinary text renders");
}

#[test]
fn a_code_command_is_styled_in_the_code_token() {
    let lines = texinfo::layout("@code{mj}", 20, &Palette::new(&theme()), &Glyphs::narrow());
    let span = lines[0]
        .iter()
        .find(|(text, _)| text == "mj")
        .expect("the @code text");
    assert_eq!(span.1.fg, theme().accent, "@code uses the code token");
}

#[test]
fn a_letter_beyond_ascii_belongs_to_a_command_name() {
    assert_eq!(from_texinfo("a @é{x} b", 40), from_texinfo("a @zz{x} b", 40));
}

#[test]
fn a_preview_shows_its_title_and_text() {
    let theme = theme();
    let mut preview = Preview::new("# Hello\n\nworld\n", "notes.md", PreviewKind::Markdown);
    let mut surface = Surface::new(40, 8, theme.base_style());
    let area = surface.area();
    preview.render(&mut surface, area, &theme);
    let mut text = String::new();
    for y in 0..surface.height() {
        for x in 0..surface.width() {
            text.push(surface.cell(x, y).unwrap().symbol);
        }
    }
    assert!(text.contains("notes.md"));
    assert!(text.contains("Markdown"));
    assert!(text.contains("Hello"));
    assert!(text.contains("world"));
}

const SAMPLE: &str = "This is sample.info, a preamble that is not a node.\n\
\u{001f}\n\
File: sample.info,  Node: Top,  Next: First,  Prev: (dir),  Up: (dir)\n\
\n\
Welcome to the sample manual.\n\
\n\
* Menu:\n\
\n\
* First::       The first chapter.\n\
* Second::      The second chapter.\n\
\u{001f}\n\
File: sample.info,  Node: First,  Next: Second,  Prev: Top,  Up: Top\n\
\n\
This is the first chapter body.\n\
\u{001f}\n\
File: sample.info,  Node: Second,  Prev: First,  Up: Top\n\
\n\
This is the second chapter body.\n\
\u{001f}\n\
Tag Table:\n\
Node: Top\u{007f}123\n";

#[test]
fn parses_nodes_links_and_menu() {
    let doc = InfoDocument::parse(SAMPLE);
    assert_eq!(doc.len(), 3, "Top/First/Second — the tag table is skipped");

    let top = doc.node(doc.position("Top").unwrap()).unwrap();
    assert_eq!(top.name, "Top");
    assert_eq!(top.next.as_deref(), Some("First"));
    assert_eq!(
        top.prev.as_deref(),
        None,
        "(dir) is cross-file, not followed"
    );
    assert_eq!(top.refs.len(), 2);
    assert_eq!(top.refs[0].target, "First");
    assert_eq!(top.refs[1].label, "Second");
}

#[test]
fn follows_inline_cross_references() {
    let text = "\u{001f}\n\
File: x.info,  Node: Top,  Up: (dir)\n\
\n\
See *note Other:: for the details, and *note Top:: to return.\n\
\u{001f}\n\
File: x.info,  Node: Other,  Prev: Top,  Up: Top\n\
\n\
The other node.\n";
    let mut reader = InfoReader::from_text(text, "x.info");
    assert_eq!(reader.node().unwrap().name, "Top");
    assert_eq!(reader.node().unwrap().refs.len(), 2);
    assert!(reader.node().unwrap().refs.iter().all(|r| !r.menu));
    reader.enter();
    assert_eq!(reader.node().unwrap().name, "Other");
}

#[test]
fn navigates_next_prev_up_menu_and_history() {
    let mut reader = InfoReader::from_text(SAMPLE, "sample.info");
    assert_eq!(reader.node().unwrap().name, "Top");

    reader.next();
    assert_eq!(reader.node().unwrap().name, "First");
    reader.next();
    assert_eq!(reader.node().unwrap().name, "Second");
    reader.prev();
    assert_eq!(reader.node().unwrap().name, "First");
    reader.up();
    assert_eq!(reader.node().unwrap().name, "Top");

    reader.select_down();
    reader.enter();
    assert_eq!(reader.node().unwrap().name, "Second");

    reader.back();
    assert_eq!(reader.node().unwrap().name, "Top");
}

#[test]
fn empty_document_has_no_node() {
    let reader = InfoReader::from_text("not an info file at all", "x");
    assert!(reader.node().is_none());
}

#[test]
fn an_info_page_is_drawn() {
    let theme = theme();
    let mut reader = InfoReader::from_text(SAMPLE, "sample.info");
    let mut surface = Surface::new(60, 14, theme.base_style());
    let area = surface.area();
    reader.render(&mut surface, area, &theme);
    let mut text = String::new();
    for y in 0..surface.height() {
        for x in 0..surface.width() {
            text.push(surface.cell(x, y).unwrap().symbol);
        }
    }
    assert!(text.contains("Top"));
    assert!(text.contains("Welcome to the sample manual."));
}

#[test]
fn highlights_rust_keywords_and_strings() {
    let mut highlighter = SyntaxHighlighter::for_path("x.rs").unwrap();
    let source = b"fn main() {\n    let s = \"hi\";\n}\n";
    let layer = highlighter.highlight(source);

    let fn_kind = layer.spans_in(0, 2)[0].value;
    assert_eq!(fn_kind, HighlightKind::Keyword);

    let kinds: Vec<HighlightKind> = layer.spans().iter().map(|span| span.value).collect();
    assert!(
        kinds.contains(&HighlightKind::String),
        "expected a string span"
    );
    assert!(
        kinds
            .iter()
            .filter(|k| **k == HighlightKind::Keyword)
            .count()
            >= 2,
        "expected `fn` and `let` keywords",
    );
}

#[test]
fn unknown_extension_has_no_highlighter() {
    assert!(SyntaxHighlighter::for_path("notes.xyz").is_none());
    assert!(SyntaxHighlighter::for_path("noext").is_none());
}

#[test]
fn maps_textmate_scopes_to_kinds() {
    assert_eq!(
        scope_to_kind("keyword.control.rust"),
        Some(HighlightKind::Keyword)
    );
    assert_eq!(
        scope_to_kind("constant.numeric.integer"),
        Some(HighlightKind::Number)
    );
    assert_eq!(
        scope_to_kind("entity.name.function.python"),
        Some(HighlightKind::Function)
    );
    assert_eq!(
        scope_to_kind("variable.other"),
        Some(HighlightKind::Variable)
    );
    assert_eq!(scope_to_kind("source.rust"), None);
}

#[test]
fn the_innermost_known_scope_counts() {
    let stack: Vec<String> = ["source.py", "keyword.control", "comment.line", "meta.x"]
        .iter()
        .map(|s| s.to_string())
        .collect();
    assert_eq!(stack_to_kind(&stack), Some(HighlightKind::Comment));
}

#[test]
fn highlights_a_python_snippet() {
    let mut highlighter = SyntectHighlighter::for_path("x.py").expect("syntect has Python");
    let layer = highlighter.highlight("def f():\n    return 1  # done\n");
    let kinds: Vec<HighlightKind> = layer.spans().iter().map(|span| span.value).collect();
    assert!(
        kinds.contains(&HighlightKind::Keyword),
        "def/return are keywords"
    );
    assert!(kinds.contains(&HighlightKind::Comment), "trailing comment");
    assert!(!layer.is_empty());
}

#[test]
fn unknown_extension_is_unsupported() {
    assert!(!SyntectHighlighter::supports("notes.unknownext"));
}

#[test]
fn covers_languages_beyond_the_tree_sitter_core() {
    for ext in [
        "nix", "swift", "kt", "dart", "toml", "zig", "asm", "adb", "lua", "el",
    ] {
        assert!(
            SyntectHighlighter::supports(&format!("x.{ext}")),
            ".{ext} should be covered by the syntect tier"
        );
    }
}

#[test]
fn a_dimmed_colour_is_halfway() {
    let a = Rgb { r: 200, g: 100, b: 0 };
    let b = Rgb { r: 0, g: 50, b: 255 };
    assert_eq!(dim(a, b), Rgb { r: 100, g: 75, b: 127 });
}

#[test]
fn spans_in_a_range_overlap_it() {
    let span = |start, end| Span {
        start,
        end,
        value: HighlightKind::Comment,
    };
    let layer = SpanLayer::from_sorted(vec![span(0, 2), span(2, 5), span(7, 9)]);
    assert_eq!(layer.spans_in(2, 7), vec![span(2, 5)]);
}

#[test]
fn highlighting_stops_at_a_line_that_cannot_be_parsed() {
    let change = |offset: usize, scope: &str| Change {
        offset,
        scopes: vec![scope.to_owned()],
    };
    let lines = vec!["ab\n".to_owned(), "cd\n".to_owned(), "ef\n".to_owned()];
    let reports = vec![vec![change(1, "keyword.control")]];
    let layer = spans_of(&join_scopes(&lines, reports));
    assert_eq!(
        layer.spans(),
        &[Span {
            start: 1,
            end: 3,
            value: HighlightKind::Keyword
        }][..]
    );
}

#[test]
fn highlighting_ends_before_a_line_that_is_too_long() {
    let mut highlighter = SyntectHighlighter::for_path("x.py").unwrap();
    let comment = |n: usize| format!("#{}\n", "x".repeat(n - 2));
    let long = comment(MAX_LINE + 1);
    let first = highlighter.highlight("# one\n");
    assert!(!first.spans().is_empty());
    let stopped = highlighter.highlight(&format!("# one\n{long}# two\n"));
    assert_eq!(stopped.spans(), first.spans());
    let just = comment(MAX_LINE);
    let whole = highlighter.highlight(&format!("# one\n{just}# two\n"));
    assert!(whole.spans().last().unwrap().end > 6 + MAX_LINE);
}

#[test]
fn lines_are_parsed_one_after_the_other() {
    let lines = vec!["s = \"\"\"a\n".to_owned(), "b\"\"\"\n".to_owned()];
    let both = report_lines("py", &lines);
    assert_eq!(both.len(), 2);
    let alone = report_lines("py", &lines[1..]);
    assert_eq!(alone.len(), 1);
    assert_ne!(both[1], alone[0], "the string goes on in the second line");
    assert!(report_lines("no-such-extension", &lines).is_empty());
}

#[test]
fn a_scope_lasts_into_the_next_line() {
    let lines = vec!["ab\n".to_owned(), "cd".to_owned()];
    let open = Change {
        offset: 0,
        scopes: vec!["comment.block".to_owned()],
    };
    let layer = spans_of(&join_scopes(&lines, vec![vec![open], Vec::new()]));
    let ranges: Vec<(usize, usize)> = layer.spans().iter().map(|s| (s.start, s.end)).collect();
    assert_eq!(ranges, vec![(0, 3), (3, 5)]);
}

#[test]
fn going_back_undoes_every_move() {
    let mut reader = InfoReader::from_text(SAMPLE, "sample.info");
    reader.next();
    reader.next();
    reader.up();
    assert_eq!(reader.node().unwrap().name, "Top");
    reader.back();
    assert_eq!(reader.node().unwrap().name, "Second");
    reader.back();
    assert_eq!(reader.node().unwrap().name, "First");
    reader.back();
    assert_eq!(reader.node().unwrap().name, "Top");
    reader.back();
    assert_eq!(reader.node().unwrap().name, "Top");
}
