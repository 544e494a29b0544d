//! The agent's tools over one buffer: reading it as tagged lines, and editing it by tag.

use crate::buffer::Buffer;
use crate::document::{opt_text, Document};
use crate::hashline::{
    all_pass, apply, back_to_front, batch_room, edited_all, is_failure, passes,
    tagged_lines, tagged_read, HashlineEdit, HashlineError, LineRef, TagCheck,
};
use crate::json::{read_value, value_or_null};
use crate::policy::AgentAction;
use crate::provider::{offers, said, CompletionRequest, Message, Offer, Prompt, Role, ToolSpec};
use crate::text::{decimal, decimal_of, line_of, newlines, same_text, string_of};
use vstd::prelude::*;

verus! {

/// How the agent wants to change a line.
#[derive(Clone, Copy, Debug, PartialEq, Eq, Structural)]
pub enum EditVerb {
    /// Replace its content.
    Replace,
    /// Insert a new line after it.
    InsertAfter,
    /// Delete it.
    Delete,
}

/// One edit as the agent writes it.
#[derive(Clone, Debug, PartialEq, Eq)]
pub struct EditArg {
    /// The 1-based line.
    pub line: usize,
    /// The tag that a read showed for it.
    pub tag: String,
    /// How the line is to change.
    pub op: EditVerb,
    /// The new content; unused by a deletion.
    pub text: String,
}

/// The 0-based line that an edit cites.
pub open spec fn cited_row(arg: EditArg) -> nat {
    if arg.line == 0 {
        0
    } else {
        (arg.line - 1) as nat
    }
}

/// Whether `edit` is what the agent wrote, by the 0-based line.
pub open spec fn means(arg: EditArg, edit: HashlineEdit) -> bool {
    &&& edit.cited().line == cited_row(arg)
    &&& edit.cited().tag@ == arg.tag@
    &&& match edit {
        HashlineEdit::Replace { text, .. } => arg.op == EditVerb::Replace && text@ == arg.text@,
        HashlineEdit::InsertAfter { text, .. } => arg.op == EditVerb::InsertAfter && text@
            == arg.text@,
        HashlineEdit::Delete { .. } => arg.op == EditVerb::Delete,
    }
}

impl EditArg {
    /// The edit that the agent means.
    pub fn into_edit(&self) -> (r: HashlineEdit)
        ensures
            means(*self, r),
    {
        let line: usize = if self.line == 0 {
            0
        } else {
            self.line - 1
        };
        let at = LineRef::new(line, self.tag.as_str());
        match self.op {
            EditVerb::Replace => HashlineEdit::Replace { at, text: self.text.clone() },
            EditVerb::InsertAfter => HashlineEdit::InsertAfter { at, text: self.text.clone() },
            EditVerb::Delete => HashlineEdit::Delete { at },
        }
    }
}

/// The edits that the agent means, in order.
pub fn edits_of(args: &[EditArg]) -> (r: Vec<HashlineEdit>)
    ensures
        r@.len() == args@.len(),
        forall|i: int| 0 <= i < args@.len() ==> means(#[trigger] args@[i], r@[i]),
{
    let mut r: Vec<HashlineEdit> = Vec::new();
    let mut i: usize = 0;
    while i < args.len()
        invariant
            i <= args@.len(),
            r@.len() == i,
            forall|k: int| 0 <= k < i ==> means(#[trigger] args@[k], r@[k]),
        decreases args@.len() - i,
    {
        r.push(args[i].into_edit());
        i += 1;
    }
    r
}

/// What a call of the tool `name` does, for the policy to rule on: an edit, or else a read.
pub fn tool_action(name: &str, path: &Option<String>) -> (r: AgentAction)
    ensures
        match r {
            AgentAction::Edit => name@ == "edit"@,
            AgentAction::ReadPath { path: p } => name@ != "edit"@ && p@ == (match opt_text(*path) {
                Some(at) => at,
                None => Seq::empty(),
            }),
            _ => false,
        },
{
    if same_text(name, "edit") {
        AgentAction::Edit
    } else {
        match path {
            Some(at) => AgentAction::ReadPath { path: at.clone() },
            None => AgentAction::ReadPath { path: String::new() },
        }
    }
}

/// What the agent is told once `count` edits are applied.
pub open spec fn applied_text(count: nat) -> Seq<char> {
    "applied "@ + decimal(count) + " edit(s)"@
}

/// What the agent is told of a tool that does not exist.
pub open spec fn unknown_text(name: Seq<char>) -> Seq<char> {
    "unknown tool `"@ + name + "`"@
}

/// Whether the agent is told `told` of a batch of edits that is turned down.
pub open spec fn turned_down(
    t: Seq<char>,
    edits: Seq<HashlineEdit>,
    checks: Seq<TagCheck>,
    told: Seq<char>,
) -> bool {
    exists|i: int, error: HashlineError|
        {
            &&& 0 <= i < edits.len()
            &&& #[trigger] is_failure(t, edits[i], checks[i], error)
            &&& told == error.text()
            &&& !passes(t, edits[i], checks[i])
            &&& forall|k: int| 0 <= k < i ==> passes(t, #[trigger] edits[k], checks[k])
        }
}

/// Runs the tool `edit`: all of the edits or none, and a word on it for the agent.
fn run_edit(
    buffer: &mut Buffer,
    doc: &mut Document,
    edits: &[HashlineEdit],
    checks: &[TagCheck],
) -> (r: Result<String, String>)
    requires
        old(doc)@.wf(),
        checks@.len() == edits@.len(),
        all_pass(old(doc)@.text, edits@, checks@) ==> batch_room(old(doc)@, edits@),
    ensures
        r is Ok == all_pass(old(doc)@.text, edits@, checks@),
        match r {
            Ok(told) => {
                &&& told@ == applied_text(edits@.len())
                &&& (final(buffer).caret(), final(doc)@) == edited_all(
                    (old(buffer).caret(), old(doc)@),
                    back_to_front(edits@),
                )
            },
            Err(told) => {
                &&& final(buffer).caret() == old(buffer).caret()
                &&& final(doc)@ == old(doc)@
                &&& turned_down(old(doc)@.text, edits@, checks@, told@)
            },
        },
        final(doc)@.wf(),
{
    match apply(buffer, doc, edits, checks) {
        Ok(_) => {
            let mut told = "applied ".to_owned();
            told.append(decimal_of(edits.len() as u128).as_str());
            told.append(" edit(s)");
            Ok(told)
        },
        Err(error) => {
            let told = error.message();
            Err(told)
        },
    }
}

/// What the agent is told when its edit arguments do not parse.
fn bad_arguments(error: &str) -> (r: String)
    ensures
        r@ == "bad edit arguments: "@ + error@,
{
    let mut r = "bad edit arguments: ".to_owned();
    r.append(error);
    r
}

/// What the agent is told of a tool that does not exist.
fn unknown_tool(name: &str) -> (r: String)
    ensures
        r@ == unknown_text(name@),
{
    let mut r = "unknown tool `".to_owned();
    r.append(name);
    r.append("`");
    r
}

/// Runs a call of the tool `name`, once it is permitted. `edits` holds what the arguments of an
/// edit mean, or why they do not parse.
pub fn run(
    buffer: &mut Buffer,
    doc: &mut Document,
    name: &str,
    edits: &Result<Vec<HashlineEdit>, String>,
    tags: &[String],
    checks: &[TagCheck],
) -> (r: Result<String, String>)
    requires
        old(doc)@.wf(),
        edits matches Ok(edits) ==> checks@.len() == edits@.len() && (all_pass(
            old(doc)@.text,
            edits@,
            checks@,
        ) ==> batch_room(old(doc)@, edits@)),
    ensures
        ({
            let t = old(doc)@.text;
            if name@ == "edit"@ {
                match *edits {
                    Ok(edits) => {
                        &&& r is Ok == all_pass(t, edits@, checks@)
                        &&& match r {
                            Ok(told) => told@ == applied_text(edits@.len()) && (
                                final(buffer).caret(),
                                final(doc)@,
                            ) == edited_all(
                                (old(buffer).caret(), old(doc)@),
                                back_to_front(edits@),
                            ),
                            Err(told) => turned_down(t, edits@, checks@, told@),
                        }
                    },
                    Err(error) => r is Err && r->Err_0@ == "bad edit arguments: "@ + error@,
                }
            } else if name@ == "read"@ {
                r is Ok && r->Ok_0@ == tagged_lines(t, tags@, newlines(t) + 1)
            } else {
                r is Err && r->Err_0@ == unknown_text(name@)
            }
        }),
        r is Err || name@ != "edit"@ ==> final(buffer).caret() == old(buffer).caret() && final(doc)@
            == old(doc)@,
        final(doc)@.wf(),
{
    if same_text(name, "edit") {
        match edits {
            Ok(edits) => run_edit(buffer, doc, edits.as_slice(), checks),
            Err(error) => Err(bad_arguments(error.as_str())),
        }
    } else if same_text(name, "read") {
        Ok(tagged_read(doc, tags))
    } else {
        Err(unknown_tool(name))
    }
}

/// What the agent is told when the editor no longer answers.
pub fn host_gone() -> (r: String)
    ensures
        r@ == "the editor stopped servicing the agent"@,
{
    "the editor stopped servicing the agent".to_owned()
}

/// One edit before and after, for the user to look at.
#[derive(Clone, Debug, PartialEq, Eq)]
pub struct EditPreview {
    /// The 1-based line that the edit cites, as the agent wrote it.
    pub line: usize,
    /// The line as it is; `None` for an insertion, or where the document has no such line.
    pub old: Option<String>,
    /// The line as it will be; `None` for a deletion.
    pub new: Option<String>,
}

/// Whether `p` shows what an edit will do to the text `t`.
pub open spec fn shows(t: Seq<char>, arg: EditArg, p: EditPreview) -> bool {
    &&& p.line == arg.line
    &&& opt_text(p.old) == (if arg.op == EditVerb::InsertAfter || cited_row(arg) > newlines(t) {
        None
    } else {
        Some(line_of(t, cited_row(arg)))
    })
    &&& opt_text(p.new) == (if arg.op == EditVerb::Delete {
        None
    } else {
        Some(arg.text@)
    })
}

/// Shows what each edit will do, by line number; tags are not looked at.
fn previews(doc: &Document, args: &[EditArg]) -> (r: Vec<EditPreview>)
    ensures
        r@.len() == args@.len(),
        forall|i: int| 0 <= i < args@.len() ==> shows(doc@.text, #[trigger] args@[i], r@[i]),
{
    let last = crate::text::count_newlines(doc.chars());
    let mut r: Vec<EditPreview> = Vec::new();
    let mut i: usize = 0;
    while i < args.len()
        invariant
            i <= args@.len(),
            r@.len() == i,
            last == newlines(doc@.text),
            forall|k: int| 0 <= k < i ==> shows(doc@.text, #[trigger] args@[k], r@[k]),
        decreases args@.len() - i,
    {
        let arg = &args[i];
        let row: usize = if arg.line == 0 {
            0
        } else {
            arg.line - 1
        };
        let old = match arg.op {
            EditVerb::InsertAfter => None,
            _ => if row <= last {
                Some(string_of(crate::hashline::line_text(doc, row).as_slice()))
            } else {
                None
            },
        };
        let new = match arg.op {
            EditVerb::Delete => None,
            _ => Some(arg.text.clone()),
        };
        r.push(EditPreview { line: arg.line, old, new });
        i += 1;
    }
    r
}

/// Shows what a call of the tool `name` will do, each edit by line number; tags are not looked at.
/// `args` holds the edits where the arguments parse. Nothing is shown for another tool, or for
/// arguments that do not parse.
pub fn preview_edits(doc: &Document, name: &str, args: &Option<Vec<EditArg>>) -> (r: Vec<
    EditPreview,
>)
    ensures
        match *args {
            Some(args) if name@ == "edit"@ => {
                &&& r@.len() == args@.len()
                &&& forall|i: int| 0 <= i < args@.len() ==> shows(doc@.text, #[trigger] args@[i], r@[i])
            },
            _ => r@.len() == 0,
        },
{
    match args {
        Some(args) => if same_text(name, "edit") {
            previews(doc, args.as_slice())
        } else {
            Vec::new()
        },
        None => Vec::new(),
    }
}

/// What the tool `read` takes: nothing.
pub open spec fn read_schema() -> Seq<char> {
    r#"{"type":"object","properties":{}}"#@
}

/// What the tool `edit` takes: a list of edits.
pub open spec fn edit_schema() -> Seq<char> {
    r#"{"type":"object","properties":{"edits":{"type":"array","items":{"type":"object","properties":{"line":{"type":"integer","description":"1-based line number"},"tag":{"type":"string","description":"the line's hashline tag from `read`"},"op":{"type":"string","enum":["replace","insert_after","delete"]},"text":{"type":"string","description":"new content (omit for delete)"}},"required":["line","tag","op"]}}},"required":["edits"]}"#@
}

/// What the tool `shell` takes: a command line.
pub open spec fn shell_schema() -> Seq<char> {
    r#"{"type":"object","properties":{"command":{"type":"string","description":"the command line, e.g. `cargo test` or `git status`"}},"required":["command"]}"#@
}

/// What the agent is told of the tool `read`.
pub open spec fn read_help() -> Seq<char> {
    "Read the current buffer as `LINE:TAG│text` lines. Cite a line's LINE and TAG when you edit it."@
}

/// What the agent is told of the tool `edit`.
pub open spec fn edit_help() -> Seq<char> {
    "Apply edits to the current buffer. Each edit cites a line by its 1-based LINE and the TAG shown by `read`; if the tag is stale the edit is rejected and you must re-read first."@
}

/// What the agent is told of the tool `shell`.
pub open spec fn shell_help() -> Seq<char> {
    "Run a single program in the project directory and return its output. There is NO shell: pipes, redirects, `;`/`&&` chaining, globs, and `$(…)` do not work — pass one program and its arguments. The program must be on the allow-list and the user approves every command."@
}

/// The tools over a buffer, as they are offered to the model: `read` and `edit`.
pub open spec fn buffer_offers() -> Seq<Offer> {
    seq![
        Offer {
            name: "read"@,
            description: read_help(),
            parameters: value_or_null(read_schema()),
        },
        Offer {
            name: "edit"@,
            description: edit_help(),
            parameters: value_or_null(edit_schema()),
        },
    ]
}

/// The tools over a buffer, as they are offered to the model.
pub fn buffer_tool_specs() -> (r: Vec<ToolSpec>)
    ensures
        offers(r@) == buffer_offers(),
{
    let mut r: Vec<ToolSpec> = Vec::new();
    r.push(
        ToolSpec {
            name: "read".to_owned(),
            description:
                "Read the current buffer as `LINE:TAG│text` lines. Cite a line's LINE and TAG when you edit it.".to_owned(),
            parameters: read_value(r#"{"type":"object","properties":{}}"#),
        },
    );
    r.push(
        ToolSpec {
            name: "edit".to_owned(),
            description:
                "Apply edits to the current buffer. Each edit cites a line by its 1-based LINE and the TAG shown by `read`; if the tag is stale the edit is rejected and you must re-read first.".to_owned(),
            parameters: read_value(
                r#"{"type":"object","properties":{"edits":{"type":"array","items":{"type":"object","properties":{"line":{"type":"integer","description":"1-based line number"},"tag":{"type":"string","description":"the line's hashline tag from `read`"},"op":{"type":"string","enum":["replace","insert_after","delete"]},"text":{"type":"string","description":"new content (omit for delete)"}},"required":["line","tag","op"]}}},"required":["edits"]}"#,
            ),
        },
    );
    assert(offers(r@) =~= buffer_offers());
    r
}

/// The tool that runs one program, as it is offered to the model.
pub fn shell_tool_spec() -> (r: ToolSpec)
    ensures
        r@ == (Offer {
            name: "shell"@,
            description: shell_help(),
            parameters: value_or_null(shell_schema()),
        }),
{
    ToolSpec {
        name: "shell".to_owned(),
        description:
            "Run a single program in the project directory and return its output. There is NO shell: pipes, redirects, `;`/`&&` chaining, globs, and `$(…)` do not work — pass one program and its arguments. The program must be on the allow-list and the user approves every command.".to_owned(),
        parameters: read_value(
            r#"{"type":"object","properties":{"command":{"type":"string","description":"the command line, e.g. `cargo test` or `git status`"}},"required":["command"]}"#,
        ),
    }
}

/// The most rounds that a turn takes unless the host says otherwise.
pub const DEFAULT_MAX_STEPS: usize = 16;

/// The request that a turn starts from: the instructions, the user's message, and the tools.
pub fn opening(system_prompt: &str, user_message: &str, tools: &[ToolSpec]) -> (r:
    CompletionRequest)
    ensures
        r@ == (Prompt {
            messages: seq![said(Role::System, system_prompt@), said(Role::User, user_message@)],
            tools: offers(tools@),
        }),
{
    let mut r = CompletionRequest::new().with_message(Message::system(system_prompt)).with_message(
        Message::user(user_message),
    );
    let ghost start = r@.messages;
    assert(start =~= seq![said(Role::System, system_prompt@), said(Role::User, user_message@)]);
    let mut i: usize = 0;
    while i < tools.len()
        invariant
            i <= tools@.len(),
            r@.messages == start,
            r@.tools == offers(tools@).take(i as int),
        decreases tools@.len() - i,
    {
        r = r.with_tool(tools[i].clone());
        assert(r@.tools =~= offers(tools@).take(i + 1));
        i += 1;
    }
    assert(offers(tools@).take(i as int) =~= offers(tools@));
    r
}

} // verus!
