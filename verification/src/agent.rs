//! The governed agent turn.
//!
//! A [`Turn`] decides what an agent may do next; the host does it and reports back. The turn asks
//! the host to read the kill switch, to complete the conversation, to rule on a tool call, to put
//! a call to the user, or to run one, each as an [`Effect`]. Every tool call is ruled on before it
//! runs, the kill switch is read before every round and before every call, and each decision on a
//! call is handed out as one line for the audit log.

use crate::provider::{
    answer, calls, said, Call, CompletionRequest, CompletionResponse, Failure, Message, Prompt,
    ProviderError, Reply, Role, Said, ToolCall,
};
use vstd::prelude::*;

verus! {

/// The policy's ruling on an action.
#[derive(Clone, Debug, PartialEq, Eq)]
pub enum Decision {
    /// It may happen.
    Allow,
    /// The user has to approve it first.
    NeedsApproval,
    /// It must not happen.
    Deny {
        /// Why not.
        reason: String,
    },
}

/// The contents of a [`Decision`].
pub enum Ruling {
    /// It may happen.
    Allow,
    /// The user has to approve it first.
    NeedsApproval,
    /// It must not happen.
    Deny(Seq<char>),
}

impl View for Decision {
    type V = Ruling;

    open spec fn view(&self) -> Ruling {
        match *self {
            Decision::Allow => Ruling::Allow,
            Decision::NeedsApproval => Ruling::NeedsApproval,
            Decision::Deny { reason } => Ruling::Deny(reason@),
        }
    }
}

impl Decision {
    /// Whether the action must not happen.
    pub fn is_denied(&self) -> (r: bool)
        ensures
            r == (self@ is Deny),
    {
        match self {
            Decision::Deny { .. } => true,
            _ => false,
        }
    }
}

/// The user's answer to a call that needs approval.
#[derive(Clone, Debug, PartialEq)]
pub enum Approval {
    /// Run the call unchanged.
    Run,
    /// Do not run it.
    Reject,
    /// Run this call instead.
    RunModified(ToolCall),
}

/// The contents of an [`Approval`].
pub enum Verdict {
    /// Run the call unchanged.
    Run,
    /// Do not run it.
    Reject,
    /// Run this call instead.
    RunModified(Call),
}

impl View for Approval {
    type V = Verdict;

    open spec fn view(&self) -> Verdict {
        match *self {
            Approval::Run => Verdict::Run,
            Approval::Reject => Verdict::Reject,
            Approval::RunModified(call) => Verdict::RunModified(call@),
        }
    }
}

/// How a turn ended.
#[derive(Clone, Debug, PartialEq, Eq)]
pub enum Outcome {
    /// The model finished with this message.
    Done(String),
    /// The kill switch was engaged.
    Stopped,
    /// The rounds were used up before the model finished.
    BudgetExhausted,
    /// The provider failed.
    Failed(ProviderError),
}

/// The contents of an [`Outcome`].
pub enum End {
    /// The model finished with this message.
    Done(Seq<char>),
    /// The kill switch was engaged.
    Stopped,
    /// The rounds were used up before the model finished.
    BudgetExhausted,
    /// The provider failed.
    Failed(Failure),
}

impl View for Outcome {
    type V = End;

    open spec fn view(&self) -> End {
        match *self {
            Outcome::Done(text) => End::Done(text@),
            Outcome::Stopped => End::Stopped,
            Outcome::BudgetExhausted => End::BudgetExhausted,
            Outcome::Failed(error) => End::Failed(error@),
        }
    }
}

/// What the host is asked to do.
#[derive(Clone, Copy, Debug, PartialEq, Eq, Structural)]
pub enum Effect {
    /// Read the kill switch.
    CheckKill,
    /// Complete [`Turn::request`].
    Complete,
    /// Classify [`Turn::call`] and have the policy rule on it.
    Rule,
    /// Put [`Turn::call`] to the user.
    Approve,
    /// Run [`Turn::to_run`].
    Run,
    /// Nothing: the turn is over, and [`Turn::outcome`] says how.
    Nothing,
}

/// What the host reports.
#[derive(Debug, PartialEq)]
pub enum HostEvent {
    /// Whether the kill switch is engaged.
    Kill(bool),
    /// The provider's reply.
    Replied(Result<CompletionResponse, ProviderError>),
    /// The policy's ruling.
    Ruled(Decision),
    /// The user's answer.
    Answered(Approval),
    /// What the tool gave back, or the message of its error.
    Ran(Result<String, String>),
}

/// The contents of an [`HostEvent`].
pub enum Report {
    /// Whether the kill switch is engaged.
    Kill(bool),
    /// The provider's reply.
    Replied(Result<Reply, Failure>),
    /// The policy's ruling.
    Ruled(Ruling),
    /// The user's answer.
    Answered(Verdict),
    /// What the tool gave back, or the message of its error.
    Ran(Result<Seq<char>, Seq<char>>),
}

impl View for HostEvent {
    type V = Report;

    open spec fn view(&self) -> Report {
        match *self {
            HostEvent::Kill(engaged) => Report::Kill(engaged),
            HostEvent::Replied(Ok(reply)) => Report::Replied(Ok(reply@)),
            HostEvent::Replied(Err(error)) => Report::Replied(Err(error@)),
            HostEvent::Ruled(decision) => Report::Ruled(decision@),
            HostEvent::Answered(approval) => Report::Answered(approval@),
            HostEvent::Ran(Ok(output)) => Report::Ran(Ok(output@)),
            HostEvent::Ran(Err(message)) => Report::Ran(Err(message@)),
        }
    }
}

/// Where a turn stands.
pub enum Stage {
    /// Before a round: the kill switch is to be read.
    Round,
    /// The conversation is to be completed.
    Complete,
    /// Before a call: the kill switch is to be read.
    Call,
    /// The call is to be ruled on.
    Rule,
    /// The call is to be put to the user.
    Ask,
    /// This call is to be run.
    Run(Call),
    /// The turn is over.
    Over(End),
}

/// The contents of a [`Turn`].
#[verifier::ext_equal]
pub struct TurnState {
    /// The conversation and the tools.
    pub prompt: Prompt,
    /// The rounds that are left after the current one.
    pub left: nat,
    /// The calls of the current round that are not answered yet, the current one first.
    pub pending: Seq<Call>,
    /// Where the turn stands.
    pub stage: Stage,
}

/// A turn with `steps` rounds before it.
pub open spec fn begun(prompt: Prompt, steps: nat) -> TurnState {
    TurnState {
        prompt,
        left: if steps == 0 {
            0
        } else {
            (steps - 1) as nat
        },
        pending: Seq::empty(),
        stage: if steps == 0 {
            Stage::Over(End::BudgetExhausted)
        } else {
            Stage::Round
        },
    }
}

impl TurnState {
    /// Whether the stage fits the calls at hand.
    pub open spec fn wf(self) -> bool {
        self.stage is Call || self.stage is Rule || self.stage is Ask || self.stage is Run
            ==> self.pending.len() > 0
    }

    /// The turn at another stage.
    pub open spec fn at(self, stage: Stage) -> TurnState {
        TurnState { stage, ..self }
    }

    /// The turn once the model has replied.
    pub open spec fn replied(self, reply: Reply) -> TurnState {
        if reply.calls.len() == 0 {
            self.at(Stage::Over(End::Done(reply.content)))
        } else {
            TurnState {
                prompt: Prompt {
                    messages: self.prompt.messages.push(said(Role::Assistant, reply.content)),
                    ..self.prompt
                },
                pending: reply.calls,
                stage: Stage::Call,
                ..self
            }
        }
    }

    /// The turn once the current call has its answer: on to the next call, or to the next round.
    pub open spec fn answered(self, content: Seq<char>) -> TurnState {
        let rest = self.pending.drop_first();
        let prompt = Prompt {
            messages: self.prompt.messages.push(answer(self.pending[0].id, content)),
            ..self.prompt
        };
        if rest.len() > 0 {
            TurnState { prompt, pending: rest, stage: Stage::Call, ..self }
        } else {
            TurnState { pending: rest, ..begun(prompt, self.left) }
        }
    }

    /// What the host is asked to do.
    pub open spec fn effect(self) -> Effect {
        match self.stage {
            Stage::Round => Effect::CheckKill,
            Stage::Complete => Effect::Complete,
            Stage::Call => Effect::CheckKill,
            Stage::Rule => Effect::Rule,
            Stage::Ask => Effect::Approve,
            Stage::Run(_) => Effect::Run,
            Stage::Over(_) => Effect::Nothing,
        }
    }
}

/// A line of the audit log about the tool `name`.
pub open spec fn audit_line(before: Seq<char>, name: Seq<char>, after: Seq<char>) -> Seq<char> {
    before + name + after
}

/// The turn after a report, and the line for the audit log if there is one. A report that the turn
/// did not ask for changes nothing.
pub open spec fn next(s: TurnState, e: Report) -> (TurnState, Option<Seq<char>>) {
    match (s.stage, e) {
        (Stage::Round, Report::Kill(true)) => (s.at(Stage::Over(End::Stopped)), None),
        (Stage::Round, Report::Kill(false)) => (s.at(Stage::Complete), None),
        (Stage::Complete, Report::Replied(Ok(reply))) => (s.replied(reply), None),
        (Stage::Complete, Report::Replied(Err(error))) => (
            s.at(Stage::Over(End::Failed(error))),
            None,
        ),
        (Stage::Call, Report::Kill(true)) => (s.at(Stage::Over(End::Stopped)), None),
        (Stage::Call, Report::Kill(false)) => (s.at(Stage::Rule), None),
        (Stage::Rule, Report::Ruled(Ruling::Allow)) => (s.at(Stage::Run(s.pending[0])), None),
        (Stage::Rule, Report::Ruled(Ruling::NeedsApproval)) => (s.at(Stage::Ask), None),
        (Stage::Rule, Report::Ruled(Ruling::Deny(reason))) => (
            s.answered("denied by policy: "@ + reason),
            Some(audit_line("denied tool `"@, s.pending[0].name, "`: "@ + reason)),
        ),
        (Stage::Ask, Report::Answered(Verdict::Run)) => (s.at(Stage::Run(s.pending[0])), None),
        (Stage::Ask, Report::Answered(Verdict::Reject)) => (
            s.answered("rejected by the user"@),
            Some(audit_line("user rejected tool `"@, s.pending[0].name, "`"@)),
        ),
        (Stage::Ask, Report::Answered(Verdict::RunModified(call))) => (
            s.at(Stage::Run(call)),
            Some(audit_line("user edited tool `"@, s.pending[0].name, "`"@)),
        ),
        (Stage::Run(call), Report::Ran(Ok(output))) => (
            s.answered(output),
            Some(audit_line("ran tool `"@, call.name, "`"@)),
        ),
        (Stage::Run(call), Report::Ran(Err(message))) => (
            s.answered("tool error: "@ + message),
            Some(audit_line("tool `"@, call.name, "` failed: "@ + message)),
        ),
        _ => (s, None),
    }
}

/// Where a [`Turn`] stands, without what belongs to it.
#[derive(Clone, Copy, Debug, PartialEq, Eq, Structural)]
enum Step {
    Round,
    Complete,
    Call,
    Rule,
    Ask,
    Run,
    Over,
}

/// One turn of the agent: up to a number of rounds, in each of which the model replies and its
/// tool calls are gated in order.
#[derive(Debug)]
pub struct Turn {
    request: CompletionRequest,
    left: usize,
    calls: Vec<ToolCall>,
    at: usize,
    modified: Option<ToolCall>,
    step: Step,
    outcome: Outcome,
}

impl View for Turn {
    type V = TurnState;

    closed spec fn view(&self) -> TurnState {
        let pending = calls(self.calls@).skip(self.at as int);
        TurnState {
            prompt: self.request@,
            left: self.left as nat,
            pending,
            stage: match self.step {
                Step::Round => Stage::Round,
                Step::Complete => Stage::Complete,
                Step::Call => Stage::Call,
                Step::Rule => Stage::Rule,
                Step::Ask => Stage::Ask,
                Step::Run => Stage::Run(
                    match self.modified {
                        Some(call) => call@,
                        None => pending[0],
                    },
                ),
                Step::Over => Stage::Over(self.outcome@),
            },
        }
    }
}

/// A line for the audit log.
fn line(before: &str, name: &str, after: &str) -> (r: String)
    ensures
        r@ == audit_line(before@, name@, after@),
{
    let mut r = before.to_owned();
    r.append(name);
    r.append(after);
    r
}

/// Two texts, one behind the other.
fn joined(a: &str, b: &str) -> (r: String)
    ensures
        r@ == a@ + b@,
{
    let mut r = a.to_owned();
    r.append(b);
    r
}

impl Turn {
    /// Whether the current call, where there has to be one, is among the calls.
    #[verifier::type_invariant]
    spec fn inv(self) -> bool {
        &&& self.at <= self.calls@.len()
        &&& self.step == Step::Call || self.step == Step::Rule || self.step == Step::Ask
            || self.step == Step::Run ==> self.at < self.calls@.len()
    }

    /// A turn over `request` with up to `max_steps` rounds.
    pub fn new(request: CompletionRequest, max_steps: usize) -> (r: Self)
        ensures
            r@ == begun(request@, max_steps as nat),
            r@.wf(),
    {
        let r = if max_steps == 0 {
            Turn {
                request,
                left: 0,
                calls: Vec::new(),
                at: 0,
                modified: None,
                step: Step::Over,
                outcome: Outcome::BudgetExhausted,
            }
        } else {
            Turn {
                request,
                left: max_steps - 1,
                calls: Vec::new(),
                at: 0,
                modified: None,
                step: Step::Round,
                outcome: Outcome::Stopped,
            }
        };
        assert(r@.pending =~= Seq::empty());
        r
    }

    /// What the host is asked to do.
    pub fn effect(&self) -> (r: Effect)
        ensures
            r == self@.effect(),
    {
        match self.step {
            Step::Round => Effect::CheckKill,
            Step::Complete => Effect::Complete,
            Step::Call => Effect::CheckKill,
            Step::Rule => Effect::Rule,
            Step::Ask => Effect::Approve,
            Step::Run => Effect::Run,
            Step::Over => Effect::Nothing,
        }
    }

    /// The conversation so far and the tools.
    pub fn request(&self) -> (r: &CompletionRequest)
        ensures
            r@ == self@.prompt,
    {
        &self.request
    }

    /// The call that is being decided on, if there is one.
    pub fn call(&self) -> (r: Option<&ToolCall>)
        ensures
            match r {
                Some(call) => self@.pending.len() > 0 && call@ == self@.pending[0],
                None => self@.pending.len() == 0,
            },
    {
        proof {
            use_type_invariant(self);
        }
        if self.at < self.calls.len() {
            Some(&self.calls[self.at])
        } else {
            None
        }
    }

    /// The call that is to be run: the current one, or the one that the user put in its place.
    pub fn to_run(&self) -> (r: Option<&ToolCall>)
        ensures
            match r {
                Some(call) => self@.stage == Stage::Run(call@),
                None => self@.stage !is Run,
            },
    {
        proof {
            use_type_invariant(self);
        }
        match self.step {
            Step::Run => match &self.modified {
                Some(call) => Some(call),
                None => Some(&self.calls[self.at]),
            },
            _ => None,
        }
    }

    /// How the turn ended, once it is over.
    pub fn outcome(&self) -> (r: Option<&Outcome>)
        ensures
            match r {
                Some(outcome) => self@.stage == Stage::Over(outcome@),
                None => self@.stage !is Over,
            },
    {
        match self.step {
            Step::Over => Some(&self.outcome),
            _ => None,
        }
    }

    /// How the turn ended.
    pub(crate) fn finish(self) -> (r: Outcome)
        requires
            self@.stage is Over,
        ensures
            self@.stage == Stage::Over(r@),
    {
        self.outcome
    }

    /// Takes in what the host reports. The result is the line for the audit log, if there is one.
    pub fn take(&mut self, event: HostEvent) -> (r: Option<String>)
        ensures
            final(self)@ == next(old(self)@, event@).0,
            match r {
                Some(record) => next(old(self)@, event@).1 == Some(record@),
                None => next(old(self)@, event@).1 is None,
            },
            old(self)@.wf() ==> final(self)@.wf(),
    {
        proof {
            use_type_invariant(&*self);
        }
        match event {
            HostEvent::Kill(engaged) => {
                self.take_kill(engaged);
                None
            },
            HostEvent::Replied(reply) => {
                self.take_reply(reply);
                None
            },
            HostEvent::Ruled(decision) => self.take_ruling(decision),
            HostEvent::Answered(approval) => self.take_answer(approval),
            HostEvent::Ran(result) => self.take_result(result),
        }
    }

    fn take_kill(&mut self, engaged: bool)
        ensures
            final(self)@ == next(old(self)@, Report::Kill(engaged)).0,
    {
        proof {
            use_type_invariant(&*self);
        }
        match self.step {
            Step::Round | Step::Call => {
                if engaged {
                    self.outcome = Outcome::Stopped;
                    self.step = Step::Over;
                } else if let Step::Round = self.step {
                    self.step = Step::Complete;
                } else {
                    self.step = Step::Rule;
                }
            },
            _ => {},
        }
    }

    fn take_reply(&mut self, reply: Result<CompletionResponse, ProviderError>)
        ensures
            final(self)@ == next(old(self)@, HostEvent::Replied(reply)@).0,
    {
        proof {
            use_type_invariant(&*self);
        }
        match self.step {
            Step::Complete => match reply {
                Ok(response) => {
                    if response.wants_tools() {
                        self.say(Message::assistant(response.content.as_str()));
                        self.modified = None;
                        self.at = 0;
                        self.calls = response.tool_calls;
                        assert(calls(self.calls@).skip(0) =~= response@.calls);
                        self.step = Step::Call;
                    } else {
                        self.outcome = Outcome::Done(response.content);
                        self.step = Step::Over;
                    }
                },
                Err(error) => {
                    self.outcome = Outcome::Failed(error);
                    self.step = Step::Over;
                },
            },
            _ => {},
        }
    }

    /// Adds a message to the conversation.
    fn say(&mut self, message: Message)
        ensures
            final(self)@ == (TurnState {
                prompt: Prompt {
                    messages: old(self)@.prompt.messages.push(message@),
                    ..old(self)@.prompt
                },
                ..old(self)@
            }),
            *final(self) == (Turn { request: final(self).request, ..*old(self) }),
    {
        proof {
            use_type_invariant(&*self);
        }
        let mut request = CompletionRequest::new();
        std::mem::swap(&mut request, &mut self.request);
        request.push(message);
        self.request = request;
    }

    /// Answers the current call.
    fn answer(&mut self, content: &str)
        requires
            old(self)@.pending.len() > 0,
        ensures
            final(self)@ == old(self)@.answered(content@),
    {
        proof {
            use_type_invariant(&*self);
        }
        let ghost before = self@;
        assert(before.pending[0] == self.calls@[self.at as int]@);
        self.say(Message::tool(self.calls[self.at].id.as_str(), content));
        let count: usize = self.calls.len();
        let at: usize = self.at + 1;
        assert(calls(self.calls@).skip(at as int) =~= before.pending.drop_first());
        if at < count {
            self.step = Step::Call;
            self.at = at;
        } else if self.left == 0 {
            self.outcome = Outcome::BudgetExhausted;
            self.step = Step::Over;
            self.at = at;
        } else {
            self.left = self.left - 1;
            self.step = Step::Round;
            self.at = at;
        }
    }

    fn take_ruling(&mut self, decision: Decision) -> (r: Option<String>)
        ensures
            final(self)@ == next(old(self)@, Report::Ruled(decision@)).0,
            match r {
                Some(record) => next(old(self)@, Report::Ruled(decision@)).1 == Some(record@),
                None => next(old(self)@, Report::Ruled(decision@)).1 is None,
            },
    {
        proof {
            use_type_invariant(&*self);
        }
        match self.step {
            Step::Rule => match decision {
                Decision::Allow => {
                    self.modified = None;
                    self.step = Step::Run;
                    None
                },
                Decision::NeedsApproval => {
                    self.step = Step::Ask;
                    None
                },
                Decision::Deny { reason } => {
                    assert(self@.pending[0] == self.calls@[self.at as int]@);
                    let record = line(
                        "denied tool `",
                        self.calls[self.at].name.as_str(),
                        joined("`: ", reason.as_str()).as_str(),
                    );
                    self.answer(joined("denied by policy: ", reason.as_str()).as_str());
                    Some(record)
                },
            },
            _ => None,
        }
    }

    fn take_answer(&mut self, approval: Approval) -> (r: Option<String>)
        ensures
            final(self)@ == next(old(self)@, Report::Answered(approval@)).0,
            match r {
                Some(record) => next(old(self)@, Report::Answered(approval@)).1 == Some(record@),
                None => next(old(self)@, Report::Answered(approval@)).1 is None,
            },
    {
        proof {
            use_type_invariant(&*self);
        }
        match self.step {
            Step::Ask => {
                assert(self@.pending[0] == self.calls@[self.at as int]@);
                match approval {
                    Approval::Run => {
                        self.modified = None;
                        self.step = Step::Run;
                        None
                    },
                    Approval::Reject => {
                        let record = line(
                            "user rejected tool `",
                            self.calls[self.at].name.as_str(),
                            "`",
                        );
                        self.answer("rejected by the user");
                        Some(record)
                    },
                    Approval::RunModified(call) => {
                        let record = line(
                            "user edited tool `",
                            self.calls[self.at].name.as_str(),
                            "`",
                        );
                        self.modified = Some(call);
                        self.step = Step::Run;
                        Some(record)
                    },
                }
            },
            _ => None,
        }
    }

    fn take_result(&mut self, result: Result<String, String>) -> (r: Option<String>)
        ensures
            final(self)@ == next(old(self)@, HostEvent::Ran(result)@).0,
            match r {
                Some(record) => next(old(self)@, HostEvent::Ran(result)@).1 == Some(record@),
                None => next(old(self)@, HostEvent::Ran(result)@).1 is None,
            },
    {
        proof {
            use_type_invariant(&*self);
        }
        match self.step {
            Step::Run => {
                let name = match &self.modified {
                    Some(call) => call.name.as_str(),
                    None => self.calls[self.at].name.as_str(),
                };
                assert(self@.pending.len() > 0);
                match result {
                    Ok(output) => {
                        let record = line("ran tool `", name, "`");
                        self.answer(output.as_str());
                        Some(record)
                    },
                    Err(message) => {
                        let record = line(
                            "tool `",
                            name,
                            joined("` failed: ", message.as_str()).as_str(),
                        );
                        self.answer(joined("tool error: ", message.as_str()).as_str());
                        Some(record)
                    },
                }
            },
            _ => None,
        }
    }
}

/// The turn after a series of reports, and the lines for the audit log.
pub open spec fn played(s: TurnState, events: Seq<Report>) -> (TurnState, Seq<Seq<char>>)
    decreases events.len(),
{
    if events.len() == 0 {
        (s, Seq::empty())
    } else {
        let (before, log) = played(s, events.drop_last());
        let (after, record) = next(before, events.last());
        match record {
            Some(line) => (after, log.push(line)),
            None => (after, log),
        }
    }
}

/// A call is run only when the policy allowed it, or when the policy asked for approval and the
/// user gave it; and what runs then is the call that was ruled on, or the one that the user put in
/// its place.
pub proof fn law_runs_are_permitted(s: TurnState, e: Report, call: Call)
    requires
        next(s, e).0.stage == Stage::Run(call),
        s.stage !is Run,
    ensures
        ({
            ||| s.stage is Rule && e == Report::Ruled(Ruling::Allow) && call == s.pending[0]
            ||| s.stage is Ask && e == Report::Answered(Verdict::Run) && call == s.pending[0]
            ||| s.stage is Ask && e == Report::Answered(Verdict::RunModified(call))
        }),
{
}

/// The user is asked only about a call that the policy wants approved.
pub proof fn law_asks_are_called_for(s: TurnState, e: Report)
    requires
        next(s, e).0.stage is Ask,
        s.stage !is Ask,
    ensures
        s.stage is Rule,
        e == Report::Ruled(Ruling::NeedsApproval),
{
}

/// A denied call is not run: it is answered with the reason, on the record.
pub proof fn law_denied_calls_do_not_run(s: TurnState, reason: Seq<char>)
    requires
        s.wf(),
        s.stage is Rule,
    ensures
        ({
            let (after, record) = next(s, Report::Ruled(Ruling::Deny(reason)));
            &&& after.stage !is Run
            &&& after.pending == s.pending.drop_first()
            &&& after.prompt.messages.last() == answer(
                s.pending[0].id,
                "denied by policy: "@ + reason,
            )
            &&& record is Some
        }),
{
}

/// A rejected call is not run: it is answered with the rejection, on the record.
pub proof fn law_rejected_calls_do_not_run(s: TurnState)
    requires
        s.wf(),
        s.stage is Ask,
    ensures
        ({
            let (after, record) = next(s, Report::Answered(Verdict::Reject));
            &&& after.stage !is Run
            &&& after.pending == s.pending.drop_first()
            &&& after.prompt.messages.last() == answer(s.pending[0].id, "rejected by the user"@)
            &&& record is Some
        }),
{
}

/// An engaged kill switch ends the turn at once, and the switch is read before every completion
/// and before every ruling.
pub proof fn law_kill_stops(s: TurnState, e: Report)
    ensures
        s.effect() == Effect::CheckKill ==> next(s, Report::Kill(true)).0.stage == Stage::Over(
            End::Stopped,
        ),
        next(s, e).0.stage is Complete && s.stage !is Complete ==> e == Report::Kill(false),
        next(s, e).0.stage is Rule && s.stage !is Rule ==> e == Report::Kill(false),
{
}

/// A turn that is over stays over.
pub proof fn law_over_is_final(s: TurnState, e: Report)
    requires
        s.stage is Over,
    ensures
        next(s, e) == (s, None::<Seq<char>>),
{
}

/// How many replies a series of reports has the turn take in.
pub open spec fn rounds(s: TurnState, events: Seq<Report>) -> nat
    decreases events.len(),
{
    if events.len() == 0 {
        0
    } else {
        rounds(s, events.drop_last()) + if played(s, events.drop_last()).0.stage is Complete
            && events.last() is Replied {
            1nat
        } else {
            0
        }
    }
}

/// The rounds that a turn may still begin.
spec fn budget(s: TurnState) -> nat {
    s.left + if s.stage is Round || s.stage is Complete {
        1nat
    } else {
        0
    }
}

proof fn lemma_budget(s: TurnState, events: Seq<Report>)
    ensures
        rounds(s, events) + budget(played(s, events).0) <= budget(s),
    decreases events.len(),
{
    if events.len() > 0 {
        lemma_budget(s, events.drop_last());
    }
}

/// However the model behaves, a turn takes no more rounds than it was given.
pub proof fn law_rounds_are_bounded(prompt: Prompt, steps: nat, events: Seq<Report>)
    ensures
        rounds(begun(prompt, steps), events) <= steps,
{
    lemma_budget(begun(prompt, steps), events);
}

/// How many answers of tools a conversation holds.
pub open spec fn tool_answers(messages: Seq<Said>) -> nat
    decreases messages.len(),
{
    if messages.len() == 0 {
        0
    } else {
        tool_answers(messages.drop_last()) + if messages.last().role == Role::Tool {
            1nat
        } else {
            0
        }
    }
}

/// How many calls the user edits in a series of reports.
pub open spec fn edits(s: TurnState, events: Seq<Report>) -> nat
    decreases events.len(),
{
    if events.len() == 0 {
        0
    } else {
        edits(s, events.drop_last()) + match events.last() {
            Report::Answered(Verdict::RunModified(_)) => if played(
                s,
                events.drop_last(),
            ).0.stage is Ask {
                1nat
            } else {
                0
            },
            _ => 0,
        }
    }
}

/// The audit log holds one line for every answered call, and one more for every call that the
/// user edited: nothing happens off the record.
pub proof fn law_every_decision_is_recorded(s: TurnState, events: Seq<Report>)
    ensures
        played(s, events).1.len() + tool_answers(s.prompt.messages) == tool_answers(
            played(s, events).0.prompt.messages,
        ) + edits(s, events),
    decreases events.len(),
{
    if events.len() > 0 {
        law_every_decision_is_recorded(s, events.drop_last());
        let before = played(s, events.drop_last()).0;
        let after = next(before, events.last()).0;
        if after.prompt.messages.len() > 0 {
            assert(after.prompt.messages.drop_last() =~= before.prompt.messages
                || after.prompt.messages == before.prompt.messages);
        }
    }
}

/// A turn only adds to the conversation, and never touches the tools.
pub proof fn law_conversation_grows(s: TurnState, events: Seq<Report>)
    ensures
        s.prompt.messages.is_prefix_of(played(s, events).0.prompt.messages),
        played(s, events).0.prompt.tools == s.prompt.tools,
    decreases events.len(),
{
    if events.len() > 0 {
        law_conversation_grows(s, events.drop_last());
    }
}

/// A reply without calls ends the turn with its text; one with calls joins the conversation, and its
/// calls are taken up in their order; a failure of the provider ends the turn.
pub proof fn law_replies_are_taken_up(s: TurnState, reply: Reply, error: Failure)
    requires
        s.stage is Complete,
    ensures
        ({
            let x = next(s, Report::Replied(Ok(reply))).0;
            let y = next(s, Report::Replied(Err(error))).0;
            &&& reply.calls.len() == 0 ==> x.stage == Stage::Over(End::Done(reply.content))
            &&& reply.calls.len() > 0 ==> {
                &&& x.stage is Call
                &&& x.pending == reply.calls
                &&& x.prompt.messages == s.prompt.messages.push(said(Role::Assistant, reply.content))
                &&& x.left == s.left
            }
            &&& y.stage == Stage::Over(End::Failed(error))
            &&& y.prompt == s.prompt
        }),
{
}

/// A call that ran is answered under its own identifier, with its output or with its error, and both
/// are on the record. The next call comes up, and behind the last one the next round, while there are
/// rounds left.
pub proof fn law_runs_are_answered(s: TurnState, call: Call, output: Seq<char>, message: Seq<char>)
    requires
        s.wf(),
        s.stage == Stage::Run(call),
    ensures
        ({
            let (x, ran) = next(s, Report::Ran(Ok(output)));
            let (y, failed) = next(s, Report::Ran(Err(message)));
            let id = s.pending[0].id;
            &&& x.prompt.messages == s.prompt.messages.push(answer(id, output))
            &&& y.prompt.messages == s.prompt.messages.push(answer(id, "tool error: "@ + message))
            &&& ran == Some("ran tool `"@ + call.name + "`"@)
            &&& failed == Some("tool `"@ + call.name + ("` failed: "@ + message))
            &&& x.pending == s.pending.drop_first() && y.pending == s.pending.drop_first()
            &&& s.pending.len() > 1 ==> x.stage is Call && x.left == s.left
            &&& s.pending.len() == 1 && s.left > 0 ==> x.stage is Round && x.left == s.left - 1
            &&& s.pending.len() == 1 && s.left == 0 ==> x.stage == Stage::Over(End::BudgetExhausted)
            &&& y.stage == x.stage && y.left == x.left
        }),
{
}

/// A turn goes on only while the kill switch is not engaged: first it is asked for, then the provider
/// is, and before each call it is asked for again.
pub proof fn law_turn_goes_on(s: TurnState)
    ensures
        s.stage is Round ==> next(s, Report::Kill(false)).0 == (TurnState { stage: Stage::Complete, ..s }),
        s.stage is Call ==> next(s, Report::Kill(false)).0 == (TurnState { stage: Stage::Rule, ..s }),
        s.stage is Round || s.stage is Call ==> next(s, Report::Kill(true)).0.stage == Stage::Over(End::Stopped),
        s.stage is Round || s.stage is Call ==> s.effect() == Effect::CheckKill,
        s.stage is Complete ==> s.effect() == Effect::Complete,
        s.stage is Rule ==> s.effect() == Effect::Rule,
        s.stage is Ask ==> s.effect() == Effect::Approve,
        s.stage is Run ==> s.effect() == Effect::Run,
        s.stage is Over ==> s.effect() == Effect::Nothing,
{
}

/// A turn has as many rounds as it was given, and none where it was given none.
pub proof fn law_turn_begins_with_its_budget(prompt: Prompt, steps: nat)
    ensures
        steps == 0 ==> begun(prompt, steps).stage == Stage::Over(End::BudgetExhausted),
        steps > 0 ==> begun(prompt, steps).stage is Round && begun(prompt, steps).left + 1 == steps,
        begun(prompt, steps).prompt == prompt,
{
}

} // verus!
