//! Tagged reads and edits, and what the agent's tools make of them.

use majestic::bench::{only_line_changed, tag_at};
use majestic::buffer::Buffer;
use majestic::document::Document;
use majestic::hashline::{
    apply, batch_fits, cited_lines, tagged_read, HashlineEdit, HashlineError, LineRef, TagCheck,
};
use majestic::policy::AgentAction;
use majestic::tools::{
    edits_of, host_gone, preview_edits, run, tool_action, EditArg, EditPreview, EditVerb,
};

/// A tag for a line: two letters out of a checksum.
fn tag(line: &str) -> String {
    let mut sum: u32 = 7;
    for byte in line.bytes() {
        sum = sum.wrapping_mul(31).wrapping_add(u32::from(byte));
    }
    let letter = |n: u32| char::from(b'a' + (n % 26) as u8);
    [letter(sum), letter(sum / 26)].iter().collect()
}

fn tags(doc: &Document) -> Vec<String> {
    doc.text().split('\n').map(tag).collect()
}

fn tag_of(doc: &Document, line: usize) -> String {
    tag_at(&tagged_read(doc, &tags(doc)), line).expect("line present")
}

fn checks(doc: &Document, edits: &[HashlineEdit]) -> Vec<TagCheck> {
    cited_lines(doc, edits)
        .iter()
        .zip(edits)
        .map(|(line, edit)| {
            let actual = line.as_deref().map(tag).unwrap_or_default();
            TagCheck {
                fresh: actual == edit.anchor().tag,
                actual,
            }
        })
        .collect()
}

fn apply_all(
    buffer: &mut Buffer,
    doc: &mut Document,
    edits: &[HashlineEdit],
) -> Result<(), HashlineError> {
    let checks = checks(doc, edits);
    if checks.iter().all(|check| check.fresh) {
        assert!(batch_fits(doc, edits));
    }
    apply(buffer, doc, edits, &checks)
}

#[test]
fn tagged_read_is_one_to_one_with_lines() {
    let (doc, _) = Buffer::from_text("alpha\nbeta\ngamma");
    let read = tagged_read(&doc, &tags(&doc));
    let lines: Vec<&str> = read.lines().collect();
    assert_eq!(lines.len(), 3);
    assert!(lines[0].starts_with("1:") && lines[0].ends_with("│alpha"));
    assert!(lines[2].starts_with("3:") && lines[2].ends_with("│gamma"));
}

#[test]
fn replace_with_a_fresh_tag_applies() {
    let (mut doc, mut buffer) = Buffer::from_text("one\ntwo\nthree");
    let edit = HashlineEdit::Replace {
        at: LineRef::new(1, &tag_of(&doc, 1)),
        text: "TWO".to_owned(),
    };
    apply_all(&mut buffer, &mut doc, &[edit]).expect("fresh tag applies");
    assert_eq!(doc.text(), "one\nTWO\nthree");
}

#[test]
fn a_stale_tag_rejects_the_batch_without_mutating() {
    let (mut doc, mut buffer) = Buffer::from_text("one\ntwo\nthree");
    let stale = tag("something else");
    let edits = vec![
        HashlineEdit::Replace {
            at: LineRef::new(0, &tag_of(&doc, 0)),
            text: "ONE".to_owned(),
        },
        HashlineEdit::Replace {
            at: LineRef::new(1, &stale),
            text: "TWO".to_owned(),
        },
    ];
    let error = apply_all(&mut buffer, &mut doc, &edits).expect_err("stale tag rejects");
    assert!(matches!(error, HashlineError::StaleTag { line: 1, .. }));
    assert_eq!(
        doc.text(),
        "one\ntwo\nthree",
        "nothing mutates on rejection"
    );
}

#[test]
fn insert_after_and_delete_resolve_correctly() {
    let (mut doc, mut buffer) = Buffer::from_text("a\nb\nc");
    let insert = HashlineEdit::InsertAfter {
        at: LineRef::new(0, &tag_of(&doc, 0)),
        text: "NEW".to_owned(),
    };
    apply_all(&mut buffer, &mut doc, &[insert]).expect("insert applies");
    assert_eq!(doc.text(), "a\nNEW\nb\nc");

    let delete = HashlineEdit::Delete {
        at: LineRef::new(3, &tag_of(&doc, 3)),
    };
    apply_all(&mut buffer, &mut doc, &[delete]).expect("delete applies");
    assert_eq!(doc.text(), "a\nNEW\nb");
}

#[test]
fn a_batch_applies_back_to_front() {
    let (mut doc, mut buffer) = Buffer::from_text("one\ntwo\nthree\nfour");
    let edits = vec![
        HashlineEdit::Replace {
            at: LineRef::new(0, &tag_of(&doc, 0)),
            text: "1".to_owned(),
        },
        HashlineEdit::Delete {
            at: LineRef::new(2, &tag_of(&doc, 2)),
        },
    ];
    apply_all(&mut buffer, &mut doc, &edits).expect("batch applies");
    assert_eq!(doc.text(), "1\ntwo\nfour");
}

#[test]
fn out_of_range_line_is_rejected() {
    let (mut doc, mut buffer) = Buffer::from_text("only");
    let edit = HashlineEdit::Delete {
        at: LineRef::new(5, "xx"),
    };
    let error = apply_all(&mut buffer, &mut doc, &[edit]).expect_err("out of range");
    assert!(matches!(
        error,
        HashlineError::OutOfRange { line: 5, lines: 1 }
    ));
    assert_eq!(
        error.message(),
        "line 6 is out of range (buffer has 1 lines)"
    );
}

#[test]
fn an_edit_lands_on_the_cited_one_of_identical_lines() {
    let groups: usize = 64;
    let mut lines = Vec::new();
    for g in 0..groups {
        lines.push(format!("uniq_{g}"));
        lines.push("    step();".to_owned());
    }
    let original = lines.join("\n");
    let mut landed: usize = 0;
    let mut baseline: usize = 0;
    for g in 0..groups {
        let index = 2 * g + 1;
        let replacement = format!("    step_{g}();");
        let (mut doc, mut buffer) = Buffer::from_text(&original);
        let edit = HashlineEdit::Replace {
            at: LineRef::new(index, &tag_of(&doc, index)),
            text: replacement.clone(),
        };
        apply_all(&mut buffer, &mut doc, &[edit]).expect("a fresh tag");
        if only_line_changed(&doc.text(), &original, index, &replacement) {
            landed += 1;
        }
        let replaced = original.replacen("    step();", &replacement, 1);
        if only_line_changed(&replaced, &original, index, &replacement) {
            baseline += 1;
        }
    }
    assert_eq!(landed, groups);
    assert_eq!(baseline, 1, "the first occurrence only");
}

#[test]
fn tags_are_read_off_a_tagged_line() {
    assert_eq!(tag_at("1:ab│x:y│z\n2:cd│\n", 0).as_deref(), Some("ab"));
    assert_eq!(tag_at("1:ab│x:y│z\n2:cd│\n", 1).as_deref(), Some("cd"));
    assert_eq!(tag_at("1:ab│x\n", 1), None);
    assert_eq!(tag_at("no colon", 0), None);
    assert_eq!(tag_at("1:no bar", 0), None);
}

fn arg(line: usize, tag: &str, op: EditVerb, text: &str) -> EditArg {
    EditArg {
        line,
        tag: tag.to_owned(),
        op,
        text: text.to_owned(),
    }
}

/// Runs a tool as the host does.
fn call(
    buffer: &mut Buffer,
    doc: &mut Document,
    name: &str,
    args: Result<Vec<EditArg>, String>,
) -> Result<String, String> {
    let edits = args.map(|args| edits_of(&args));
    let checks = match &edits {
        Ok(edits) => checks(doc, edits),
        Err(_) => Vec::new(),
    };
    let tags = tags(doc);
    run(buffer, doc, name, &edits, &tags, &checks)
}

#[test]
fn read_returns_tagged_lines() {
    let (mut doc, mut buffer) = Buffer::from_text("alpha\nbeta\ngamma");
    let read = call(&mut buffer, &mut doc, "read", Ok(Vec::new())).expect("read ok");
    assert!(read.starts_with("1:"));
    assert!(read.contains("│alpha"));
    assert!(read.contains("│gamma"));
}

#[test]
fn edit_applies_with_a_fresh_tag() {
    let (mut doc, mut buffer) = Buffer::from_text("alpha\nbeta\ngamma");
    let tag = tag_of(&doc, 1);
    let told = call(
        &mut buffer,
        &mut doc,
        "edit",
        Ok(vec![arg(2, &tag, EditVerb::Replace, "BETA")]),
    );
    assert_eq!(told.expect("edit ok"), "applied 1 edit(s)");
    assert_eq!(doc.text(), "alpha\nBETA\ngamma");
}

#[test]
fn edit_with_a_stale_tag_is_rejected() {
    let (mut doc, mut buffer) = Buffer::from_text("alpha\nbeta\ngamma");
    let error = call(
        &mut buffer,
        &mut doc,
        "edit",
        Ok(vec![arg(2, "zz", EditVerb::Replace, "BETA")]),
    )
    .expect_err("stale tag rejected");
    assert!(
        error.contains("changed") || error.contains("re-read"),
        "got: {error}"
    );
}

#[test]
fn unknown_tool_errors() {
    let (mut doc, mut buffer) = Buffer::from_text("x");
    let error =
        call(&mut buffer, &mut doc, "frobnicate", Ok(Vec::new())).expect_err("unknown");
    assert!(error.contains("unknown tool"));
    assert_eq!(error, "unknown tool `frobnicate`");
}

#[test]
fn bad_arguments_are_reported() {
    let (mut doc, mut buffer) = Buffer::from_text("x");
    let error = call(&mut buffer, &mut doc, "edit", Err("no field".to_owned()))
        .expect_err("bad arguments");
    assert_eq!(error, "bad edit arguments: no field");
    assert_eq!(host_gone(), "the editor stopped servicing the agent");
}

#[test]
fn action_classifies_edit_as_edit_and_read_as_read() {
    assert_eq!(tool_action("edit", &None), AgentAction::Edit);
    assert!(matches!(
        tool_action("read", &None),
        AgentAction::ReadPath { .. }
    ));
    assert_eq!(
        tool_action("read", &Some("a.rs".to_owned())),
        AgentAction::ReadPath {
            path: "a.rs".to_owned()
        }
    );
}

#[test]
fn preview_edits_shows_before_and_after_per_op() {
    let (doc, _) = Buffer::from_text("alpha\nbeta\ngamma");
    let args = vec![
        arg(1, "x", EditVerb::Replace, "ALPHA"),
        arg(2, "y", EditVerb::InsertAfter, "inserted"),
        arg(3, "z", EditVerb::Delete, ""),
    ];
    let preview = preview_edits(&doc, "edit", &Some(args));
    assert_eq!(
        preview,
        vec![
            EditPreview {
                line: 1,
                old: Some("alpha".to_owned()),
                new: Some("ALPHA".to_owned()),
            },
            EditPreview {
                line: 2,
                old: None,
                new: Some("inserted".to_owned()),
            },
            EditPreview {
                line: 3,
                old: Some("gamma".to_owned()),
                new: None,
            },
        ]
    );
}

#[test]
fn a_preview_past_the_end_shows_no_old_line() {
    let (doc, _) = Buffer::from_text("alpha");
    let args = vec![arg(9, "x", EditVerb::Replace, "new")];
    assert_eq!(
        preview_edits(&doc, "edit", &Some(args)),
        vec![EditPreview {
            line: 9,
            old: None,
            new: Some("new".to_owned()),
        }]
    );
}

#[test]
fn preview_edits_ignores_non_edit_and_malformed_calls() {
    let (doc, _) = Buffer::from_text("x");
    assert!(preview_edits(&doc, "read", &Some(Vec::new())).is_empty());
    assert!(preview_edits(&doc, "read", &Some(vec![arg(1, "x", EditVerb::Delete, "")])).is_empty());
    assert!(preview_edits(&doc, "edit", &None).is_empty());
}

#[test]
fn m3_exit_stale_tag_edit_is_rejected_and_leaves_the_buffer_unchanged() {
    let (mut doc, mut buffer) = Buffer::from_text("alpha\nbeta\ngamma");
    let tag = tag_of(&doc, 1);
    call(
        &mut buffer,
        &mut doc,
        "edit",
        Ok(vec![arg(2, &tag, EditVerb::Replace, "BETA")]),
    )
    .expect("the fresh-tag edit applies");
    let after_valid_edit = doc.text();
    assert_eq!(after_valid_edit, "alpha\nBETA\ngamma");

    let error = call(
        &mut buffer,
        &mut doc,
        "edit",
        Ok(vec![arg(2, &tag, EditVerb::Replace, "CLOBBER")]),
    )
    .expect_err("a stale-tag edit must be rejected");
    assert!(
        error.contains("changed") || error.contains("re-read"),
        "rejection should tell the agent to re-read: {error}"
    );
    assert_eq!(
        doc.text(),
        after_valid_edit,
        "a stale-tag edit must not modify the buffer"
    );
}

#[test]
fn the_last_of_several_edits_of_one_line_counts() {
    let batch = |verbs: &[&str]| -> String {
        let (mut doc, mut buffer) = Buffer::from_text("one\ntwo\nthree");
        let at = LineRef::new(1, &tags(&doc)[1]);
        let edits: Vec<HashlineEdit> = verbs
            .iter()
            .map(|verb| match *verb {
                "-" => HashlineEdit::Delete { at: at.clone() },
                text => HashlineEdit::Replace {
                    at: at.clone(),
                    text: text.to_owned(),
                },
            })
            .collect();
        apply_all(&mut buffer, &mut doc, &edits).unwrap();
        doc.text()
    };
    assert_eq!(batch(&["AAAA", "B"]), "one\nB\nthree");
    assert_eq!(batch(&["A", "-"]), "one\nthree");
    assert_eq!(batch(&["-", "A"]), "one\nA\nthree");
    assert_eq!(batch(&["-", "-"]), "one\nthree");
}

#[test]
fn a_batch_rewrites_each_line_whatever_its_order() {
    let insert = |at: LineRef, text: &str| HashlineEdit::InsertAfter {
        at,
        text: text.to_owned(),
    };
    let run = |text: &str, edits: &dyn Fn(&dyn Fn(usize) -> LineRef) -> Vec<HashlineEdit>| {
        let (mut doc, mut buffer) = Buffer::from_text(text);
        let all = tags(&doc);
        let at = |line: usize| LineRef::new(line, &all[line]);
        let mut edits = edits(&at);
        let mut results = Vec::new();
        for _ in 0..2 {
            let (mut doc, mut buffer) = Buffer::from_text(text);
            apply_all(&mut buffer, &mut doc, &edits).unwrap();
            results.push(doc.text());
            edits.reverse();
        }
        apply_all(&mut buffer, &mut doc, &edits).unwrap();
        assert_eq!(results[0], results[1]);
        doc.text()
    };
    let text = run("a\nb", &|at| {
        vec![insert(at(0), "X"), HashlineEdit::Delete { at: at(1) }]
    });
    assert_eq!(text, "a\nX");
    let text = run("a", &|at| {
        vec![insert(at(0), "X"), HashlineEdit::Delete { at: at(0) }]
    });
    assert_eq!(text, "X");
    let text = run("a\nb\nc", &|at| {
        vec![
            HashlineEdit::Delete { at: at(0) },
            insert(at(2), "end"),
            HashlineEdit::Replace {
                at: at(1),
                text: "B1\nB2".to_owned(),
            },
        ]
    });
    assert_eq!(text, "B1\nB2\nc\nend");
    let text = run("a\nb", &|at| {
        vec![
            HashlineEdit::Delete { at: at(0) },
            HashlineEdit::Delete { at: at(1) },
        ]
    });
    assert_eq!(text, "");
}
