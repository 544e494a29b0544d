//! Conversations with a language model: messages, tools, and the providers that complete them.

use crate::document::{clone_opt, opt_text};
use crate::text::strings;
use serde_json::Value;
use vstd::prelude::*;

verus! {

/// Who wrote a message.
#[derive(Clone, Copy, Debug, PartialEq, Eq, Structural)]
pub enum Role {
    /// The instructions that the agent starts from.
    System,
    /// The user.
    User,
    /// The model.
    Assistant,
    /// A tool that the model called.
    Tool,
}

/// One message of a conversation.
#[derive(Debug, PartialEq, Eq)]
pub struct Message {
    /// Who wrote it.
    pub role: Role,
    /// Its text.
    pub content: String,
    /// The tool call that it answers, if it is the result of one.
    pub tool_call_id: Option<String>,
}

/// The contents of a [`Message`].
pub struct Said {
    /// Who wrote it.
    pub role: Role,
    /// Its text.
    pub content: Seq<char>,
    /// The tool call that it answers, if any.
    pub answers: Option<Seq<char>>,
}

impl View for Message {
    type V = Said;

    open spec fn view(&self) -> Said {
        Said { role: self.role, content: self.content@, answers: opt_text(self.tool_call_id) }
    }
}

/// A message without a tool call.
pub open spec fn said(role: Role, content: Seq<char>) -> Said {
    Said { role, content, answers: None }
}

/// The result of a tool call.
pub open spec fn answer(call: Seq<char>, content: Seq<char>) -> Said {
    Said { role: Role::Tool, content, answers: Some(call) }
}

/// The contents of a conversation.
pub open spec fn conversation(v: Seq<Message>) -> Seq<Said> {
    v.map_values(|m: Message| m@)
}

impl Clone for Message {
    fn clone(&self) -> (r: Self)
        ensures
            r@ == self@,
    {
        Message {
            role: self.role,
            content: self.content.clone(),
            tool_call_id: clone_opt(&self.tool_call_id),
        }
    }
}

impl Message {
    /// A message that answers no tool call.
    pub fn new(role: Role, content: &str) -> (r: Self)
        ensures
            r@ == said(role, content@),
    {
        Message { role, content: content.to_owned(), tool_call_id: None }
    }

    /// The instructions.
    pub fn system(content: &str) -> (r: Self)
        ensures
            r@ == said(Role::System, content@),
    {
        Message::new(Role::System, content)
    }

    /// A message of the user.
    pub fn user(content: &str) -> (r: Self)
        ensures
            r@ == said(Role::User, content@),
    {
        Message::new(Role::User, content)
    }

    /// A message of the model.
    pub fn assistant(content: &str) -> (r: Self)
        ensures
            r@ == said(Role::Assistant, content@),
    {
        Message::new(Role::Assistant, content)
    }

    /// The result of the tool call with the given id.
    pub fn tool(call_id: &str, content: &str) -> (r: Self)
        ensures
            r@ == answer(call_id@, content@),
    {
        Message {
            role: Role::Tool,
            content: content.to_owned(),
            tool_call_id: Some(call_id.to_owned()),
        }
    }
}

/// `serde_json::Value::clone`: an equal value.
#[verifier::external_body]
fn copy_value(value: &Value) -> (r: Value)
    ensures
        r == *value,
{
    value.clone()
}

/// A tool that the model may call.
#[derive(Debug, PartialEq)]
pub struct ToolSpec {
    /// Its name.
    pub name: String,
    /// What it does and when to use it.
    pub description: String,
    /// The JSON schema of its arguments.
    pub parameters: Value,
}

/// The contents of a [`ToolSpec`].
pub struct Offer {
    /// Its name.
    pub name: Seq<char>,
    /// What it does and when to use it.
    pub description: Seq<char>,
    /// The JSON schema of its arguments.
    pub parameters: Value,
}

impl View for ToolSpec {
    type V = Offer;

    open spec fn view(&self) -> Offer {
        Offer { name: self.name@, description: self.description@, parameters: self.parameters }
    }
}

/// The contents of a list of tools.
pub open spec fn offers(v: Seq<ToolSpec>) -> Seq<Offer> {
    v.map_values(|t: ToolSpec| t@)
}

impl Clone for ToolSpec {
    fn clone(&self) -> (r: Self)
        ensures
            r@ == self@,
    {
        ToolSpec {
            name: self.name.clone(),
            description: self.description.clone(),
            parameters: copy_value(&self.parameters),
        }
    }
}

/// A tool call that the model asks for.
#[derive(Debug, PartialEq)]
pub struct ToolCall {
    /// The id that its result refers to.
    pub id: String,
    /// The name of the tool.
    pub name: String,
    /// The arguments.
    pub arguments: Value,
}

/// The contents of a [`ToolCall`].
pub struct Call {
    /// The id that its result refers to.
    pub id: Seq<char>,
    /// The name of the tool.
    pub name: Seq<char>,
    /// The arguments.
    pub arguments: Value,
}

impl View for ToolCall {
    type V = Call;

    open spec fn view(&self) -> Call {
        Call { id: self.id@, name: self.name@, arguments: self.arguments }
    }
}

/// The contents of a list of tool calls.
pub open spec fn calls(v: Seq<ToolCall>) -> Seq<Call> {
    v.map_values(|c: ToolCall| c@)
}

impl Clone for ToolCall {
    fn clone(&self) -> (r: Self)
        ensures
            r@ == self@,
    {
        ToolCall {
            id: self.id.clone(),
            name: self.name.clone(),
            arguments: copy_value(&self.arguments),
        }
    }
}

/// What is sent to the model: the conversation so far, and the tools that it may call.
#[derive(Debug, PartialEq)]
pub struct CompletionRequest {
    /// The conversation, oldest first.
    pub messages: Vec<Message>,
    /// The tools.
    pub tools: Vec<ToolSpec>,
}

/// The contents of a [`CompletionRequest`].
#[verifier::ext_equal]
pub struct Prompt {
    /// The conversation, oldest first.
    pub messages: Seq<Said>,
    /// The tools.
    pub tools: Seq<Offer>,
}

impl View for CompletionRequest {
    type V = Prompt;

    open spec fn view(&self) -> Prompt {
        Prompt { messages: conversation(self.messages@), tools: offers(self.tools@) }
    }
}

impl Default for CompletionRequest {
    fn default() -> (r: Self)
        ensures
            r@ == (Prompt { messages: Seq::empty(), tools: Seq::empty() }),
    {
        CompletionRequest::new()
    }
}

impl Clone for CompletionRequest {
    fn clone(&self) -> (r: Self)
        ensures
            r@ == self@,
    {
        let mut messages: Vec<Message> = Vec::new();
        let mut i: usize = 0;
        while i < self.messages.len()
            invariant
                i <= self.messages@.len(),
                messages@.len() == i,
                forall|k: int| 0 <= k < i ==> (#[trigger] messages@[k])@ == self.messages@[k]@,
            decreases self.messages@.len() - i,
        {
            messages.push(self.messages[i].clone());
            i += 1;
        }
        let mut tools: Vec<ToolSpec> = Vec::new();
        let mut i: usize = 0;
        while i < self.tools.len()
            invariant
                i <= self.tools@.len(),
                tools@.len() == i,
                forall|k: int| 0 <= k < i ==> (#[trigger] tools@[k])@ == self.tools@[k]@,
            decreases self.tools@.len() - i,
        {
            tools.push(self.tools[i].clone());
            i += 1;
        }
        let r = CompletionRequest { messages, tools };
        assert(r@ =~= self@);
        r
    }
}

impl CompletionRequest {
    /// An empty request.
    pub fn new() -> (r: Self)
        ensures
            r@ == (Prompt { messages: Seq::empty(), tools: Seq::empty() }),
    {
        let r = CompletionRequest { messages: Vec::new(), tools: Vec::new() };
        assert(r@ =~= (Prompt { messages: Seq::empty(), tools: Seq::empty() }));
        r
    }

    /// The request with a message added.
    pub fn with_message(self, message: Message) -> (r: Self)
        ensures
            r@ == (Prompt { messages: self@.messages.push(message@), ..self@ }),
    {
        let mut r = self;
        r.push(message);
        r
    }

    /// Adds a message.
    pub fn push(&mut self, message: Message)
        ensures
            final(self)@ == (Prompt {
                messages: old(self)@.messages.push(message@),
                ..old(self)@
            }),
    {
        self.messages.push(message);
        assert(self@.messages =~= old(self)@.messages.push(message@));
    }

    /// The request with a tool added.
    pub fn with_tool(self, tool: ToolSpec) -> (r: Self)
        ensures
            r@ == (Prompt { tools: self@.tools.push(tool@), ..self@ }),
    {
        let mut r = self;
        r.tools.push(tool);
        assert(r@.tools =~= self@.tools.push(tool@));
        r
    }
}

/// The model's reply: its text, and the tool calls that it asks for.
#[derive(Debug, PartialEq)]
pub struct CompletionResponse {
    /// The text.
    pub content: String,
    /// The tool calls; none when the model is done.
    pub tool_calls: Vec<ToolCall>,
}

/// The contents of a [`CompletionResponse`].
#[verifier::ext_equal]
pub struct Reply {
    /// The text.
    pub content: Seq<char>,
    /// The tool calls.
    pub calls: Seq<Call>,
}

impl View for CompletionResponse {
    type V = Reply;

    open spec fn view(&self) -> Reply {
        Reply { content: self.content@, calls: calls(self.tool_calls@) }
    }
}

impl Clone for CompletionResponse {
    fn clone(&self) -> (r: Self)
        ensures
            r@ == self@,
    {
        let mut tool_calls: Vec<ToolCall> = Vec::new();
        let mut i: usize = 0;
        while i < self.tool_calls.len()
            invariant
                i <= self.tool_calls@.len(),
                tool_calls@.len() == i,
                forall|k: int| 0 <= k < i ==> (#[trigger] tool_calls@[k])@ == self.tool_calls@[k]@,
            decreases self.tool_calls@.len() - i,
        {
            tool_calls.push(self.tool_calls[i].clone());
            i += 1;
        }
        let r = CompletionResponse { content: self.content.clone(), tool_calls };
        assert(r@ =~= self@);
        r
    }
}

impl CompletionResponse {
    /// A reply of text alone.
    pub fn text(content: &str) -> (r: Self)
        ensures
            r@ == (Reply { content: content@, calls: Seq::empty() }),
    {
        CompletionResponse::calling(content, Vec::new())
    }

    /// A reply that asks for tool calls.
    pub fn calling(content: &str, tool_calls: Vec<ToolCall>) -> (r: Self)
        ensures
            r@ == (Reply { content: content@, calls: calls(tool_calls@) }),
    {
        CompletionResponse { content: content.to_owned(), tool_calls }
    }

    /// Whether the model asks for tool calls.
    pub fn wants_tools(&self) -> (r: bool)
        ensures
            r == (self@.calls.len() > 0),
    {
        self.tool_calls.len() > 0
    }
}

/// Why a completion failed.
#[derive(Clone, Debug, PartialEq, Eq)]
pub enum ProviderError {
    /// There is no further output.
    Exhausted,
    /// The backend reported an error.
    Backend(String),
}

/// The contents of a [`ProviderError`].
pub enum Failure {
    /// There is no further output.
    Exhausted,
    /// The backend reported an error.
    Backend(Seq<char>),
}

impl View for ProviderError {
    type V = Failure;

    open spec fn view(&self) -> Failure {
        match *self {
            ProviderError::Exhausted => Failure::Exhausted,
            ProviderError::Backend(message) => Failure::Backend(message@),
        }
    }
}

/// An error in words.
pub open spec fn failure_text(e: Failure) -> Seq<char> {
    match e {
        Failure::Exhausted => "provider produced no further completions"@,
        Failure::Backend(message) => "provider backend error: "@ + message,
    }
}

impl ProviderError {
    /// The error in words.
    pub fn message(&self) -> (r: String)
        ensures
            r@ == failure_text(self@),
    {
        match self {
            ProviderError::Exhausted => "provider produced no further completions".to_owned(),
            ProviderError::Backend(message) => {
                let mut r = "provider backend error: ".to_owned();
                r.append(message.as_str());
                r
            },
        }
    }
}

/// What was asked of a provider, and what it replied.
pub struct Exchange {
    /// The request.
    pub prompt: Prompt,
    /// The reply, or why there is none.
    pub reply: Result<Reply, Failure>,
}

/// The contents of a provider's reply.
pub open spec fn reply_view(r: Result<CompletionResponse, ProviderError>) -> Result<
    Reply,
    Failure,
> {
    match r {
        Ok(response) => Ok(response@),
        Err(error) => Err(error@),
    }
}

/// A source of completions. Any reply is possible; a provider has the history of what it was asked.
pub trait Provider {
    /// What was asked so far and replied to it, oldest first. An implementation that is verified says
    /// what its history is.
    closed spec fn exchanges(&self) -> Seq<Exchange> {
        Seq::empty()
    }

    /// The model's reply to a request.
    fn complete(&mut self, request: &CompletionRequest) -> (r: Result<
        CompletionResponse,
        ProviderError,
    >)
        ensures
            final(self).exchanges() == old(self).exchanges().push(
                (Exchange { prompt: request@, reply: reply_view(r) }),
            ),
    ;
}

/// The tokens that a reply that comes as a whole counts as: its text, unless that is empty.
pub open spec fn tokens_of(reply: Result<Reply, Failure>) -> Seq<Seq<char>> {
    match reply {
        Ok(reply) => if reply.content.len() == 0 {
            Seq::empty()
        } else {
            seq![reply.content]
        },
        Err(_) => Seq::empty(),
    }
}

/// Asks a provider that does not stream, and gives its reply with the tokens to hand on.
pub fn complete_streaming<P: Provider + ?Sized>(
    provider: &mut P,
    request: &CompletionRequest,
) -> (r: (Result<CompletionResponse, ProviderError>, Vec<String>))
    ensures
        final(provider).exchanges() == old(provider).exchanges().push(
            (Exchange { prompt: request@, reply: reply_view(r.0) }),
        ),
        strings(r.1@) == tokens_of(reply_view(r.0)),
{
    let reply = provider.complete(request);
    let mut tokens: Vec<String> = Vec::new();
    assert(strings(tokens@) =~= Seq::empty());
    if let Ok(response) = &reply {
        if response.content.as_str().unicode_len() > 0 {
            tokens.push(response.content.clone());
            assert(strings(tokens@) =~= seq![response.content@]);
        }
    }
    (reply, tokens)
}

/// A provider that gives prepared replies in order and records the requests.
#[derive(Debug)]
pub struct MockProvider {
    responses: Vec<CompletionResponse>,
    next: usize,
    requests: Vec<CompletionRequest>,
}

impl MockProvider {
    /// The replies that are still to be given.
    pub closed spec fn script(self) -> Seq<Reply> {
        self.responses@.map_values(|r: CompletionResponse| r@).skip(self.next as int)
    }

    /// The requests so far.
    pub closed spec fn received(self) -> Seq<Prompt> {
        self.requests@.map_values(|r: CompletionRequest| r@)
    }

    #[verifier::type_invariant]
    spec fn inv(self) -> bool {
        self.next == if self.requests@.len() < self.responses@.len() {
            self.requests@.len()
        } else {
            self.responses@.len()
        }
    }

    /// The exchanges of a provider that has these requests and replies.
    closed spec fn exchanged(
        requests: Seq<CompletionRequest>,
        responses: Seq<CompletionResponse>,
    ) -> Seq<Exchange> {
        Seq::new(
            requests.len(),
            |i: int|
                Exchange {
                    prompt: requests[i]@,
                    reply: if i < responses.len() {
                        Ok(responses[i]@)
                    } else {
                        Err(Failure::Exhausted)
                    },
                },
        )
    }

    /// A provider that gives the replies of `responses`.
    pub fn new(responses: Vec<CompletionResponse>) -> (r: Self)
        ensures
            r.script() == responses@.map_values(|r: CompletionResponse| r@),
            r.received() == Seq::<Prompt>::empty(),
    {
        let r = MockProvider { responses, next: 0, requests: Vec::new() };
        assert(r.script() =~= responses@.map_values(|r: CompletionResponse| r@));
        assert(r.received() =~= Seq::empty());
        r
    }

    /// The requests so far, oldest first.
    pub fn requests(&self) -> (r: &[CompletionRequest])
        ensures
            r@.map_values(|r: CompletionRequest| r@) == self.received(),
    {
        self.requests.as_slice()
    }
}

impl Provider for MockProvider {
    closed spec fn exchanges(&self) -> Seq<Exchange> {
        MockProvider::exchanged(self.requests@, self.responses@)
    }

    /// The next reply, if there is one.
    fn complete(&mut self, request: &CompletionRequest) -> (r: Result<
        CompletionResponse,
        ProviderError,
    >)
        ensures
            final(self).received() == old(self).received().push(request@),
            match r {
                Ok(reply) => old(self).script().len() > 0 && reply@ == old(self).script()[0]
                    && final(self).script() == old(self).script().drop_first(),
                Err(e) => old(self).script().len() == 0 && e@ == Failure::Exhausted
                    && final(self).script() == old(self).script(),
            },
    {
        proof {
            use_type_invariant(&*self);
        }
        let mut all = MockProvider { responses: Vec::new(), next: 0, requests: Vec::new() };
        std::mem::swap(&mut all, self);
        proof {
            use_type_invariant(&all);
        }
        let MockProvider { responses, next, requests } = all;
        let mut requests = requests;
        requests.push(request.clone());
        let mut at = next;
        let r = if next < responses.len() {
            assert(old(self).script()[0] == responses@[next as int]@);
            at = next + 1;
            Ok(responses[next].clone())
        } else {
            Err(ProviderError::Exhausted)
        };
        *self = MockProvider { responses, next: at, requests };
        assert(self.received() =~= old(self).received().push(request@));
        assert(r is Ok ==> self.script() =~= old(self).script().drop_first());
        assert(self.exchanges() =~= old(self).exchanges().push(
            Exchange { prompt: request@, reply: reply_view(r) },
        ));
        r
    }
}

} // verus!
