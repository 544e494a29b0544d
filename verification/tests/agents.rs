//! The governed agent: providers, turns, policy, and the wire.

use jiff::Timestamp;
use majestic::agent::{Approval, Decision, Effect, HostEvent, Outcome, Turn};
use majestic::agent_session::AgentSession;
use majestic::buffer::Buffer;
use majestic::document::Document;
use majestic::governor::{run_turn, Approver, AuditLog, Governor, KillSwitch, Tools};
use majestic::hashline::{cited_lines, HashlineEdit, TagCheck};
use majestic::http::{
    authorization, default_base_url, endpoint, map_response, stream_line, CallFragment,
    StreamDelta, StreamItem, StreamLine, StreamReader, WireCall, WireMessage,
};
use majestic::json::read_value;
use majestic::policy::{AgentAction, Policy};
use majestic::provider::{
    complete_streaming, CompletionRequest, CompletionResponse, Message, MockProvider, Provider,
    ProviderError, Role, ToolCall, ToolSpec,
};
use majestic::tools::{
    buffer_tool_specs, edits_of, run, shell_tool_spec, tool_action, EditArg, EditVerb,
};
use serde_json::Value;

fn call(name: &str) -> ToolCall {
    ToolCall {
        id: format!("{name}-1"),
        name: name.to_owned(),
        arguments: read_value("{}"),
    }
}

fn request() -> CompletionRequest {
    CompletionRequest::new().with_message(Message::user("do the thing"))
}

/// Tools that classify by a function, give the same result each time, and note what ran.
struct MockTools<'a> {
    classify: &'a dyn Fn(&ToolCall) -> AgentAction,
    ran: Vec<String>,
    result: Result<String, String>,
}

impl Tools for MockTools<'_> {
    fn action(&self, call: &ToolCall) -> AgentAction {
        (self.classify)(call)
    }

    fn run(&mut self, call: &ToolCall) -> Result<String, String> {
        self.ran.push(call.name.clone());
        self.result.clone()
    }
}

/// A user who answers every question the same way.
struct MockApprover(Approval);

impl Approver for MockApprover {
    fn approve(&mut self, _call: &ToolCall) -> Approval {
        self.0.clone()
    }
}

fn now() -> Timestamp {
    "2026-06-24T10:00:00Z".parse().expect("a time")
}

/// What a turn came to: the outcome, the calls that ran, and the audit log.
struct Run {
    outcome: Outcome,
    ran: Vec<String>,
    audit: Vec<String>,
}

/// The texts of an audit log.
fn texts(audit: &AuditLog) -> Vec<String> {
    audit.entries().iter().map(|e| e.action.clone()).collect()
}

/// Runs a turn under the default policy.
fn drive(
    provider: &mut MockProvider,
    classify: &dyn Fn(&ToolCall) -> AgentAction,
    approve: Approval,
    result: Result<String, String>,
    killed: bool,
    max_steps: usize,
) -> Run {
    let kill = KillSwitch::new();
    if killed {
        kill.engage();
    }
    let mut governor = Governor::new(Policy::default(), AuditLog::new(), kill);
    let mut tools = MockTools {
        classify,
        ran: Vec::new(),
        result,
    };
    let mut approver = MockApprover(approve);
    let outcome = run_turn(
        provider,
        &mut tools,
        &mut approver,
        &mut governor,
        now,
        request(),
        max_steps,
    );
    assert!(governor.audit().entries().iter().all(|e| e.at == now()));
    assert_eq!(governor.audit().len(), texts(governor.audit()).len());
    Run {
        outcome,
        ran: tools.ran,
        audit: texts(governor.audit()),
    }
}

fn reads(_: &ToolCall) -> AgentAction {
    AgentAction::ReadPath {
        path: "foo.rs".to_owned(),
    }
}

fn edits(_: &ToolCall) -> AgentAction {
    AgentAction::Edit
}

fn shells(_: &ToolCall) -> AgentAction {
    AgentAction::Shell {
        command: "rm -rf /".to_owned(),
    }
}

fn by_name(call: &ToolCall) -> AgentAction {
    match call.name.as_str() {
        "edit" => AgentAction::Edit,
        "shell" => AgentAction::Shell {
            command: "rm -rf /".to_owned(),
        },
        _ => AgentAction::ReadPath {
            path: "f.rs".to_owned(),
        },
    }
}

fn asking(name: &str) -> CompletionResponse {
    CompletionResponse::calling("", vec![call(name)])
}

#[test]
fn an_allowed_tool_runs_then_the_model_finishes() {
    let mut provider = MockProvider::new(vec![
        asking("read"),
        CompletionResponse::text("here is the answer"),
    ]);
    let run = drive(
        &mut provider,
        &reads,
        Approval::Reject,
        Ok("file contents".to_owned()),
        false,
        8,
    );
    assert_eq!(run.outcome, Outcome::Done("here is the answer".to_owned()));
    assert_eq!(run.ran, vec!["read"], "the allowed tool ran");
    assert_eq!(run.audit.len(), 1);
    assert!(run.audit[0].contains("ran tool `read`"));
    let second = &provider.requests()[1];
    assert!(second.messages.iter().any(|m| m.content == "file contents"));
}

#[test]
fn a_denied_tool_never_runs_and_the_model_is_told() {
    let mut provider = MockProvider::new(vec![
        asking("shell"),
        CompletionResponse::text("ok, I won't"),
    ]);
    let run = drive(
        &mut provider,
        &shells,
        Approval::Run,
        Ok("should never run".to_owned()),
        false,
        8,
    );
    assert_eq!(run.outcome, Outcome::Done("ok, I won't".to_owned()));
    assert!(run.ran.is_empty(), "the denied tool must not run");
    assert!(run.audit[0].contains("denied tool `shell`"));
    let second = &provider.requests()[1];
    assert!(second
        .messages
        .iter()
        .any(|m| m.content.contains("denied by policy")));
}

#[test]
fn a_needs_approval_tool_is_rejected_when_the_user_declines() {
    let mut provider =
        MockProvider::new(vec![asking("edit"), CompletionResponse::text("understood")]);
    let run = drive(
        &mut provider,
        &edits,
        Approval::Reject,
        Ok("edited".to_owned()),
        false,
        8,
    );
    assert_eq!(run.outcome, Outcome::Done("understood".to_owned()));
    assert!(run.ran.is_empty(), "a rejected edit must not run");
    assert!(run.audit[0].contains("user rejected tool `edit`"));
}

#[test]
fn a_needs_approval_tool_runs_when_the_user_approves() {
    let mut provider = MockProvider::new(vec![asking("edit"), CompletionResponse::text("done")]);
    let run = drive(
        &mut provider,
        &edits,
        Approval::Run,
        Ok("edited".to_owned()),
        false,
        8,
    );
    assert_eq!(run.outcome, Outcome::Done("done".to_owned()));
    assert_eq!(run.ran, vec!["edit"], "an approved edit runs");
}

#[test]
fn a_needs_approval_tool_runs_the_user_modified_call() {
    let mut provider = MockProvider::new(vec![asking("edit"), CompletionResponse::text("done")]);
    let modified = ToolCall {
        id: "edit-1".to_owned(),
        name: "edit-modified".to_owned(),
        arguments: read_value("{}"),
    };
    let run = drive(
        &mut provider,
        &edits,
        Approval::RunModified(modified),
        Ok("edited".to_owned()),
        false,
        8,
    );
    assert_eq!(run.outcome, Outcome::Done("done".to_owned()));
    assert_eq!(
        run.ran,
        vec!["edit-modified"],
        "the user's modified call ran, not the original"
    );
    assert!(run.audit[0].contains("user edited tool"));
    assert_eq!(run.audit[1], "ran tool `edit-modified`");
    assert_eq!(
        provider.requests()[1].messages.last().unwrap().tool_call_id,
        Some("edit-1".to_owned())
    );
}

#[test]
fn the_kill_switch_halts_the_turn() {
    let mut provider = MockProvider::new(vec![CompletionResponse::text("never reached")]);
    let run = drive(
        &mut provider,
        &edits,
        Approval::Run,
        Ok(String::new()),
        true,
        8,
    );
    assert_eq!(run.outcome, Outcome::Stopped);
    assert!(provider.requests().is_empty(), "no model call after a stop");
}

#[test]
fn the_step_budget_bounds_a_runaway_loop() {
    let mut provider = MockProvider::new(vec![asking("read"), asking("read"), asking("read")]);
    let run = drive(
        &mut provider,
        &reads,
        Approval::Run,
        Ok("more".to_owned()),
        false,
        2,
    );
    assert_eq!(run.outcome, Outcome::BudgetExhausted);
    assert_eq!(provider.requests().len(), 2, "exactly max_steps rounds ran");
    let none = drive(&mut provider, &reads, Approval::Run, Ok(String::new()), true, 0);
    assert_eq!(none.outcome, Outcome::BudgetExhausted);
}

#[test]
fn red_team_no_guarded_action_bypasses_the_gate() {
    let mut provider = MockProvider::new(vec![
        CompletionResponse::calling("", vec![call("shell"), call("edit"), call("read")]),
        CompletionResponse::calling("", vec![call("edit"), call("shell")]),
        CompletionResponse::text("done"),
    ]);
    let run = drive(
        &mut provider,
        &by_name,
        Approval::Reject,
        Ok("ran".to_owned()),
        false,
        8,
    );
    assert_eq!(run.outcome, Outcome::Done("done".to_owned()));
    assert!(
        run.ran.iter().all(|name| name == "read"),
        "a guarded action ran: {:?}",
        run.ran
    );
    assert_eq!(run.ran.len(), 1, "exactly the one allowed read ran");
}

#[test]
fn the_audit_records_every_gated_decision_for_reconstruction() {
    let mut provider = MockProvider::new(vec![
        CompletionResponse::calling("", vec![call("shell"), call("edit"), call("read")]),
        CompletionResponse::text("done"),
    ]);
    let run = drive(
        &mut provider,
        &by_name,
        Approval::Reject,
        Ok("ran".to_owned()),
        false,
        8,
    );
    assert_eq!(run.audit.len(), 3, "one entry per tool call");
    assert!(run.audit[0].contains("denied tool `shell`"));
    assert!(run.audit[1].contains("user rejected tool `edit`"));
    assert!(run.audit[2].contains("ran tool `read`"));
}

#[test]
fn a_failing_tool_and_a_failing_provider_are_told() {
    let mut provider = MockProvider::new(vec![asking("read")]);
    let run = drive(
        &mut provider,
        &reads,
        Approval::Run,
        Err("no such file".to_owned()),
        false,
        8,
    );
    assert_eq!(run.outcome, Outcome::Failed(ProviderError::Exhausted));
    assert_eq!(run.audit, vec!["tool `read` failed: no such file"]);
    let last = provider.requests()[1].messages.last().unwrap().clone();
    assert_eq!(last.content, "tool error: no such file");
    assert_eq!(
        ProviderError::Exhausted.message(),
        "provider produced no further completions"
    );
    assert_eq!(
        ProviderError::Backend("x".to_owned()).message(),
        "provider backend error: x"
    );
}

#[test]
fn a_report_that_was_not_asked_for_changes_nothing() {
    let mut turn = Turn::new(request(), 1);
    assert_eq!(turn.take(HostEvent::Ran(Ok("x".to_owned()))), None);
    assert_eq!(turn.take(HostEvent::Ruled(Decision::Allow)), None);
    assert_eq!(turn.effect(), Effect::CheckKill);
    assert!(turn.to_run().is_none());
    assert!(turn.call().is_none());
    assert!(turn.outcome().is_none());
}

#[test]
fn map_response_extracts_content_and_tool_calls() {
    let response = map_response(vec![WireMessage {
        content: Some("let me read it".to_owned()),
        tool_calls: vec![WireCall {
            id: "call_1".to_owned(),
            name: "read".to_owned(),
            arguments: "{\"path\":\"foo.rs\"}".to_owned(),
        }],
    }])
    .expect("mapped");
    assert_eq!(response.content, "let me read it");
    assert_eq!(response.tool_calls.len(), 1);
    assert_eq!(response.tool_calls[0].name, "read");
    assert_eq!(response.tool_calls[0].arguments["path"], "foo.rs");
}

#[test]
fn map_response_handles_plain_text_and_missing_content() {
    let response = map_response(vec![WireMessage {
        content: None,
        tool_calls: Vec::new(),
    }])
    .expect("mapped");
    assert_eq!(response.content, "");
    assert!(response.tool_calls.is_empty());
}

#[test]
fn map_response_errors_without_choices() {
    let error = map_response(Vec::new()).expect_err("no choices is an error");
    assert_eq!(
        error,
        ProviderError::Backend("response had no choices".to_owned())
    );
}

#[test]
fn malformed_arguments_count_as_null() {
    assert_eq!(read_value("{oops"), Value::Null);
    assert_eq!(read_value("null"), Value::Null);
    assert_eq!(read_value("[1]"), Value::Array(vec![Value::from(1)]));
}

/// Decodes the chunk on a line of a stream.
fn item(line: &str) -> StreamItem {
    let data = match stream_line(line) {
        StreamLine::Skip => return StreamItem::Skip,
        StreamLine::End => return StreamItem::End,
        StreamLine::Chunk(data) => data,
    };
    let Ok(value) = serde_json::from_str::<Value>(&data) else {
        return StreamItem::Skip;
    };
    let Some(delta) = value["choices"].get(0).map(|choice| &choice["delta"]) else {
        return StreamItem::Skip;
    };
    let text = |value: &Value| value.as_str().map(str::to_owned);
    let mut tool_calls = Vec::new();
    if let Some(fragments) = delta["tool_calls"].as_array() {
        for fragment in fragments {
            tool_calls.push(CallFragment {
                index: fragment["index"].as_u64().unwrap_or(0) as usize,
                id: text(&fragment["id"]),
                name: text(&fragment["function"]["name"]),
                arguments: text(&fragment["function"]["arguments"]),
            });
        }
    }
    StreamItem::Delta(StreamDelta {
        content: text(&delta["content"]),
        tool_calls,
    })
}

#[test]
fn read_sse_stream_streams_content_and_reassembles_fragmented_tool_calls() {
    let chunks = [
        r#"{ "choices": [{ "delta": { "content": "Hel" } }] }"#,
        r#"{ "choices": [{ "delta": { "content": "lo" } }] }"#,
        r#"{ "choices": [{ "delta": { "tool_calls": [
            { "index": 0, "id": "call_1", "function": { "name": "re" } } ] } }] }"#,
        r#"{ "choices": [{ "delta": { "tool_calls": [
            { "index": 0, "function": { "name": "ad", "arguments": "{\"path\":" } } ] } }] }"#,
        r#"{ "choices": [{ "delta": { "tool_calls": [
            { "index": 0, "function": { "arguments": "\"foo.rs\"}" } } ] } }] }"#,
    ];
    let mut sse = String::new();
    for chunk in &chunks {
        sse.push_str("data: ");
        sse.push_str(&chunk.replace('\n', " "));
        sse.push_str("\n\n");
    }
    sse.push_str(": keep-alive\ndata:\ndata: not json\n");
    sse.push_str("data: [DONE]\n");
    sse.push_str("data: {\"choices\":[{\"delta\":{\"content\":\"late\"}}]}\n");

    let mut tokens = Vec::new();
    let mut reader = StreamReader::new();
    for line in sse.lines() {
        if let Some(token) = reader.read(&item(line)) {
            tokens.push(token);
        }
    }
    assert!(reader.ended());
    let response = reader.finish();

    assert_eq!(tokens, vec!["Hel", "lo"], "content streamed token by token");
    assert_eq!(response.content, "Hello");
    assert_eq!(response.tool_calls.len(), 1);
    assert_eq!(response.tool_calls[0].id, "call_1");
    assert_eq!(response.tool_calls[0].name, "read", "name fragments joined");
    assert_eq!(
        response.tool_calls[0].arguments["path"], "foo.rs",
        "argument fragments reassembled into valid JSON"
    );
}

#[test]
fn a_fragment_for_a_later_call_leaves_blanks_before_it() {
    let mut reader = StreamReader::new();
    reader.read(&StreamItem::Delta(StreamDelta {
        content: Some(String::new()),
        tool_calls: vec![CallFragment {
            index: 1,
            id: Some("b".to_owned()),
            name: Some("read".to_owned()),
            arguments: None,
        }],
    }));
    let response = reader.finish();
    assert_eq!(response.tool_calls.len(), 2);
    assert_eq!(response.tool_calls[0].name, "");
    assert_eq!(response.tool_calls[1].id, "b");
    assert_eq!(response.tool_calls[1].arguments, Value::Null);
}

#[test]
fn local_targets_the_default_ollama_endpoint() {
    assert!(default_base_url().starts_with("http://localhost"));
    assert_eq!(
        endpoint(default_base_url()),
        "http://localhost:11434/v1/chat/completions"
    );
    assert_eq!(endpoint("http://h/v1//"), "http://h/v1/chat/completions");
    assert_eq!(authorization("k"), "Bearer k");
}

#[test]
fn message_constructors_set_role_and_tool_id() {
    assert_eq!(Message::system("hi").role, Role::System);
    assert_eq!(Message::user("hi").tool_call_id, None);
    let result = Message::tool("call-1", "ok");
    assert_eq!(result.role, Role::Tool);
    assert_eq!(result.tool_call_id.as_deref(), Some("call-1"));
}

#[test]
fn request_builder_collects_messages_and_tools() {
    let tool = ToolSpec {
        name: "read".to_owned(),
        description: "read a file".to_owned(),
        parameters: read_value("{ \"type\": \"object\" }"),
    };
    let request = CompletionRequest::new()
        .with_message(Message::system("be helpful"))
        .with_message(Message::user("read foo.rs"))
        .with_tool(tool);
    assert_eq!(request.messages.len(), 2);
    assert_eq!(request.tools.len(), 1);
    assert_eq!(request.tools[0].name, "read");
    assert_eq!(request.clone(), request);
}

#[test]
fn response_distinguishes_text_from_tool_calls() {
    assert!(!CompletionResponse::text("done").wants_tools());
    let call = ToolCall {
        id: "c1".to_owned(),
        name: "read".to_owned(),
        arguments: read_value("{ \"path\": \"foo.rs\" }"),
    };
    let response = CompletionResponse::calling("", vec![call]);
    assert!(response.wants_tools());
    assert_eq!(response.tool_calls[0].name, "read");
}

#[test]
fn mock_returns_scripted_responses_in_order_then_exhausts() {
    let mut provider = MockProvider::new(vec![
        CompletionResponse::text("first"),
        CompletionResponse::text("second"),
    ]);
    let request = CompletionRequest::new().with_message(Message::user("go"));
    assert_eq!(provider.complete(&request).unwrap().content, "first");
    assert_eq!(provider.complete(&request).unwrap().content, "second");
    assert_eq!(provider.complete(&request), Err(ProviderError::Exhausted));
    assert_eq!(provider.requests().len(), 3);
    assert_eq!(provider.requests()[0].messages[0].content, "go");
}

#[test]
fn the_tools_describe_themselves() {
    let specs = buffer_tool_specs();
    assert_eq!(specs.len(), 2);
    assert_eq!(specs[0].name, "read");
    assert_eq!(specs[0].parameters["type"], "object");
    assert_eq!(specs[1].name, "edit");
    let op = &specs[1].parameters["properties"]["edits"]["items"]["properties"]["op"];
    assert_eq!(op["enum"][1], "insert_after");
    let shell = shell_tool_spec();
    assert_eq!(shell.name, "shell");
    assert_eq!(shell.parameters["required"][0], "command");
}

/// A tag for a line.
fn tag(line: &str) -> String {
    format!("t{}", line.len())
}

/// Runs a call against the buffer as the host does.
fn serve(buffer: &mut Buffer, doc: &mut Document, call: &ToolCall) -> Result<String, String> {
    let mut args = Vec::new();
    if let Some(edits) = call.arguments["edits"].as_array() {
        for edit in edits {
            args.push(EditArg {
                line: edit["line"].as_u64().expect("a line") as usize,
                tag: edit["tag"].as_str().expect("a tag").to_owned(),
                op: EditVerb::Replace,
                text: edit["text"].as_str().expect("a text").to_owned(),
            });
        }
    }
    let edits: Vec<HashlineEdit> = edits_of(&args);
    let checks: Vec<TagCheck> = cited_lines(doc, &edits)
        .iter()
        .zip(&edits)
        .map(|(line, edit)| {
            let actual = line.as_deref().map(tag).unwrap_or_default();
            TagCheck {
                fresh: actual == edit.anchor().tag,
                actual,
            }
        })
        .collect();
    let tags: Vec<String> = doc.text().split('\n').map(tag).collect();
    run(buffer, doc, &call.name, &Ok(edits), &tags, &checks)
}

/// The tools over a buffer.
struct BufferTools<'a> {
    buffer: &'a mut Buffer,
    doc: &'a mut Document,
}

impl Tools for BufferTools<'_> {
    fn action(&self, call: &ToolCall) -> AgentAction {
        tool_action(&call.name, self.doc.path())
    }

    fn run(&mut self, call: &ToolCall) -> Result<String, String> {
        serve(self.buffer, self.doc, call)
    }
}

/// Runs a whole turn of a session over a buffer.
fn converse(
    session: &mut AgentSession,
    provider: &mut MockProvider,
    buffer: &mut Buffer,
    doc: &mut Document,
    approve: bool,
    killed: bool,
    message: &str,
) -> Outcome {
    if killed {
        session.kill_switch().engage();
    }
    let mut tools = BufferTools { buffer, doc };
    let mut approver = MockApprover(if approve {
        Approval::Run
    } else {
        Approval::Reject
    });
    session.run(provider, &mut tools, &mut approver, message)
}

fn edit_call(tag: &str, text: &str) -> ToolCall {
    let arguments = format!(
        "{{ \"edits\": [{{ \"line\": 1, \"tag\": \"{tag}\", \"op\": \"replace\", \"text\": \"{text}\" }}] }}"
    );
    ToolCall {
        id: "edit-1".to_owned(),
        name: "edit".to_owned(),
        arguments: read_value(&arguments),
    }
}

#[test]
fn the_full_stack_edits_a_real_buffer() {
    let (mut doc, mut buffer) = Buffer::from_text("fn main() {}\n");
    let mut provider = MockProvider::new(vec![
        asking("read"),
        CompletionResponse::calling(
            "",
            vec![edit_call("t12", "fn main() { println!(\\\"hi\\\"); }")],
        ),
        CompletionResponse::text("done"),
    ]);
    let policy = Policy {
        edits_need_approval: false,
        ..Policy::default()
    };
    let mut session = AgentSession::new(policy, "You edit code.");
    let outcome = converse(
        &mut session,
        &mut provider,
        &mut buffer,
        &mut doc,
        false,
        false,
        "add a hello print",
    );
    assert_eq!(outcome, Outcome::Done("done".to_owned()));
    assert!(
        doc.text().contains("println!"),
        "the buffer was edited through the governed stack: {}",
        doc.text()
    );
    assert!(session.audit().len() >= 2);
    let first = &provider.requests()[0];
    assert_eq!(first.messages[0].content, "You edit code.");
    assert_eq!(first.messages[1].content, "add a hello print");
    assert_eq!(first.tools.len(), 2);
}

#[test]
fn a_rejected_edit_leaves_the_buffer_untouched() {
    let (mut doc, mut buffer) = Buffer::from_text("keep me\n");
    let mut provider = MockProvider::new(vec![
        CompletionResponse::calling("", vec![edit_call("t7", "CLOBBERED")]),
        CompletionResponse::text("ok, leaving it"),
    ]);
    let mut session = AgentSession::new(Policy::default(), "You edit code.");
    let outcome = converse(
        &mut session,
        &mut provider,
        &mut buffer,
        &mut doc,
        false,
        false,
        "wreck it",
    );
    assert_eq!(outcome, Outcome::Done("ok, leaving it".to_owned()));
    assert_eq!(
        doc.text(),
        "keep me\n",
        "a rejected edit must not change the buffer"
    );
}

#[test]
fn an_approved_edit_runs_and_a_rejected_one_does_not() {
    for (approve, expected) in [(true, "EDITED\n"), (false, "keep me\n")] {
        let (mut doc, mut buffer) = Buffer::from_text("keep me\n");
        let mut provider = MockProvider::new(vec![
            CompletionResponse::calling("", vec![edit_call("t7", "EDITED")]),
            CompletionResponse::text("ok"),
        ]);
        let mut session = AgentSession::new(Policy::default(), "sys");
        let outcome = converse(
            &mut session,
            &mut provider,
            &mut buffer,
            &mut doc,
            approve,
            false,
            "edit it",
        );
        assert_eq!(outcome, Outcome::Done("ok".to_owned()));
        assert_eq!(doc.text(), expected);
    }
}

#[test]
fn session_an_engaged_kill_switch_stops_the_turn() {
    let (mut doc, mut buffer) = Buffer::from_text("x\n");
    let mut provider = MockProvider::new(vec![CompletionResponse::text("unreached")]);
    let mut session = AgentSession::new(Policy::default(), "sys");
    let outcome = converse(
        &mut session,
        &mut provider,
        &mut buffer,
        &mut doc,
        true,
        true,
        "go",
    );
    assert_eq!(outcome, Outcome::Stopped);
}

#[test]
fn a_kill_switch_is_shared_by_its_copies() {
    let kill = KillSwitch::new();
    let copy = kill.clone();
    assert!(!kill.is_engaged());
    copy.engage();
    assert!(kill.is_engaged());
}

/// Tools that engage the kill switch when the first call runs.
struct StoppingTools(KillSwitch, usize);

impl Tools for StoppingTools {
    fn action(&self, call: &ToolCall) -> AgentAction {
        reads(call)
    }

    fn run(&mut self, _call: &ToolCall) -> Result<String, String> {
        self.1 += 1;
        self.0.engage();
        Ok(String::new())
    }
}

#[test]
fn a_kill_between_calls_stops_before_the_next() {
    let mut provider = MockProvider::new(vec![CompletionResponse::calling(
        "",
        vec![call("read"), call("read")],
    )]);
    let mut session = AgentSession::new(Policy::default(), "sys");
    let mut tools = StoppingTools(session.kill_switch(), 0);
    let outcome = session.run(
        &mut provider,
        &mut tools,
        &mut MockApprover(Approval::Reject),
        "go",
    );
    assert_eq!(outcome, Outcome::Stopped);
    assert_eq!(tools.1, 1);
    assert_eq!(texts(session.audit()), vec!["ran tool `read`"]);
    assert_eq!(session.policy(), &Policy::default());
}

#[test]
fn a_reply_that_does_not_stream_is_one_token() {
    let mut provider = MockProvider::new(vec![
        CompletionResponse::text("hello there"),
        CompletionResponse::text(""),
    ]);
    let request = request();
    let (reply, tokens) = complete_streaming(&mut provider, &request);
    assert_eq!(reply.unwrap().content, "hello there");
    assert_eq!(tokens, vec!["hello there"]);
    let (reply, tokens) = complete_streaming(&mut provider, &request);
    assert!(reply.is_ok());
    assert!(tokens.is_empty());
    let (reply, tokens) = complete_streaming(&mut provider, &request);
    assert!(reply.is_err());
    assert!(tokens.is_empty());
    assert_eq!(provider.requests().len(), 3);
}
