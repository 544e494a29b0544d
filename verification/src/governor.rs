//! Running a governed turn: the provider, the tools and the user behind traits, and the policy, the
//! audit log and the kill switch that govern the agent.
//!
//! [`run_turn`] plays a [`Turn`] to its end. It rules on every tool call by the policy before
//! anything happens, and puts each decision on the record.

use crate::agent::{
    begun, next, played, Approval, Effect, End, HostEvent, Outcome, Report, Ruling, Stage, Turn,
    TurnState, Verdict,
};
use crate::keymap::share;
use crate::policy::{ruled, AgentAction, Policy};
use crate::provider::{reply_view, Call, CompletionRequest, Exchange, Provider, ToolCall};
use jiff::Timestamp;
use std::sync::atomic::AtomicBool;
use std::sync::Arc;
use vstd::prelude::*;

verus! {

/// The contents of what a tool gave back.
pub open spec fn result_view(r: Result<String, String>) -> Result<Seq<char>, Seq<char>> {
    match r {
        Ok(output) => Ok(output@),
        Err(message) => Err(message@),
    }
}

/// Classifies and runs the agent's tool calls. Any classification and any result is possible; the
/// tools have the history of what they ran.
pub trait Tools {
    /// The calls that were run so far and what came of them, oldest first. An implementation that
    /// is verified says what its history is.
    closed spec fn ran(&self) -> Seq<(Call, Result<Seq<char>, Seq<char>>)> {
        Seq::empty()
    }

    /// What a call does, for the policy to rule on.
    fn action(&self, call: &ToolCall) -> (r: AgentAction);

    /// Runs a call that may run. The result is what the model is told, or the message of an error.
    fn run(&mut self, call: &ToolCall) -> (r: Result<String, String>)
        ensures
            final(self).ran() == old(self).ran().push((call@, result_view(r))),
    ;
}

/// Answers for the user when a call needs approval. Any answer is possible; an approver has the
/// history of its answers.
pub trait Approver {
    /// The calls that the user was asked about so far and the answers, oldest first. An
    /// implementation that is verified says what its history is.
    closed spec fn answered(&self) -> Seq<(Call, Verdict)> {
        Seq::empty()
    }

    /// How the user wishes to go on with a call.
    fn approve(&mut self, call: &ToolCall) -> (r: Approval)
        ensures
            final(self).answered() == old(self).answered().push((call@, r@)),
    ;
}

/// A switch that stops the agent. Its copies are one switch, which any thread may engage at any
/// time, so that nothing is stated of what a reading gives.
#[derive(Debug)]
pub struct KillSwitch {
    flag: Arc<AtomicBool>,
}

impl KillSwitch {
    /// A switch that is not engaged.
    pub fn new() -> (r: Self) {
        KillSwitch { flag: Arc::new(AtomicBool::new(false)) }
    }

    /// Engages the switch. It stays engaged.
    pub fn engage(&self) {
        self.flag.store(true, std::sync::atomic::Ordering::SeqCst);
    }

    /// Whether the switch is engaged.
    pub fn is_engaged(&self) -> (r: bool) {
        self.flag.load(std::sync::atomic::Ordering::SeqCst)
    }
}

impl Clone for KillSwitch {
    fn clone(&self) -> (r: Self)
        ensures
            r == *self,
    {
        KillSwitch { flag: share(&self.flag) }
    }
}

/// A point in time.
#[verifier::external_type_specification]
#[verifier::external_body]
pub struct ExTimestamp(jiff::Timestamp);

/// `jiff::Timestamp::now`: the time of the system clock. Nothing is stated of it, and it takes a
/// clock that is set to a year that `jiff` can hold.
pub assume_specification[ jiff::Timestamp::now ]() -> (r: jiff::Timestamp);

/// One line of the audit log.
#[derive(Debug)]
pub struct AuditEntry {
    /// When it was written.
    pub at: Timestamp,
    /// What was decided or done.
    pub action: String,
}

/// The record of what the agent did and was kept from doing, oldest line first. Lines are only
/// ever added.
#[derive(Debug)]
pub struct AuditLog {
    entries: Vec<AuditEntry>,
}

/// The texts of the lines of an audit log.
pub open spec fn actions(entries: Seq<AuditEntry>) -> Seq<Seq<char>> {
    entries.map_values(|e: AuditEntry| e.action@)
}

impl View for AuditLog {
    type V = Seq<AuditEntry>;

    closed spec fn view(&self) -> Seq<AuditEntry> {
        self.entries@
    }
}

impl AuditLog {
    /// An empty log.
    pub fn new() -> (r: Self)
        ensures
            r@ == Seq::<AuditEntry>::empty(),
    {
        AuditLog { entries: Vec::new() }
    }

    /// Adds a line.
    pub fn append(&mut self, at: Timestamp, action: String)
        ensures
            final(self)@ == old(self)@.push(AuditEntry { at, action }),
    {
        self.entries.push(AuditEntry { at, action });
    }

    /// How many lines there are.
    pub fn len(&self) -> (r: usize)
        ensures
            r == self@.len(),
    {
        self.entries.len()
    }

    /// Whether there is no line.
    pub fn is_empty(&self) -> (r: bool)
        ensures
            r == (self@.len() == 0),
    {
        self.entries.len() == 0
    }

    /// The lines, oldest first.
    pub fn entries(&self) -> (r: &[AuditEntry])
        ensures
            r@ == self@,
    {
        self.entries.as_slice()
    }
}

/// What governs an agent: the policy to rule by, the audit log, and the kill switch.
#[derive(Debug)]
pub struct Governor {
    policy: Policy,
    audit: AuditLog,
    kill: KillSwitch,
}

impl Governor {
    /// The policy.
    pub closed spec fn rules(self) -> Policy {
        self.policy
    }

    /// The audit log.
    pub closed spec fn log(self) -> Seq<AuditEntry> {
        self.audit@
    }

    /// The kill switch.
    pub closed spec fn switch(self) -> KillSwitch {
        self.kill
    }

    /// Brings the three together.
    pub fn new(policy: Policy, audit: AuditLog, kill: KillSwitch) -> (r: Self)
        ensures
            r.rules() == policy,
            r.log() == audit@,
            r.switch() == kill,
    {
        Governor { policy, audit, kill }
    }

    /// The policy.
    pub fn policy(&self) -> (r: &Policy)
        ensures
            *r == self.rules(),
    {
        &self.policy
    }

    /// The audit log.
    pub fn audit(&self) -> (r: &AuditLog)
        ensures
            r@ == self.log(),
    {
        &self.audit
    }

    /// The kill switch.
    pub fn kill_switch(&self) -> (r: KillSwitch)
        ensures
            r == self.switch(),
    {
        self.kill.clone()
    }
}

/// Whether `action` is what the tools say that a call does.
pub open spec fn classified<T: Tools>(tools: T, call: Call, action: AgentAction) -> bool {
    exists|c: ToolCall| c@ == call && #[trigger] call_ensures(T::action, (&tools, &c), action)
}

/// Whether a report answers what a turn asked for, the tools being `before` and then `after`. What
/// is reported of the kill switch is what a reading of it gave. A ruling is the policy's on what the
/// tools say that the call does. The tools run the call that is to be run, and nothing else.
pub open spec fn answers<T: Tools>(
    p: Policy,
    kill: KillSwitch,
    s: TurnState,
    e: Report,
    before: T,
    after: T,
) -> bool {
    match (s.stage, e) {
        (Stage::Round, Report::Kill(engaged)) | (Stage::Call, Report::Kill(engaged)) => {
            &&& call_ensures(KillSwitch::is_engaged, (&kill,), engaged)
            &&& after == before
        },
        (Stage::Complete, Report::Replied(_)) => after == before,
        (Stage::Rule, Report::Ruled(ruling)) => {
            &&& exists|action: AgentAction|
                ruling == ruled(p, action) && #[trigger] classified(before, s.pending[0], action)
            &&& after == before
        },
        (Stage::Ask, Report::Answered(_)) => after == before,
        (Stage::Run(call), Report::Ran(result)) => after.ran() == before.ran().push((call, result)),
        _ => false,
    }
}

/// Whether a series of reports is one that a turn under the policy `p` can get: each answers what
/// the turn asked for. `tools` are the tools before each report and after the last one.
pub open spec fn governed<T: Tools>(
    p: Policy,
    kill: KillSwitch,
    s: TurnState,
    events: Seq<Report>,
    tools: Seq<T>,
) -> bool
    decreases events.len(),
{
    let n = events.len() as int;
    &&& tools.len() == n + 1
    &&& n > 0 ==> {
        &&& governed(p, kill, s, events.drop_last(), tools.drop_last())
        &&& answers(
            p,
            kill,
            played(s, events.drop_last()).0,
            events.last(),
            tools[n - 1],
            tools[n],
        )
    }
}

/// The calls that a turn has run in a series of reports, and what came of them.
pub open spec fn runs(s: TurnState, events: Seq<Report>) -> Seq<
    (Call, Result<Seq<char>, Seq<char>>),
>
    decreases events.len(),
{
    if events.len() == 0 {
        Seq::empty()
    } else {
        let before = runs(s, events.drop_last());
        match (played(s, events.drop_last()).0.stage, events.last()) {
            (Stage::Run(call), Report::Ran(result)) => before.push((call, result)),
            _ => before,
        }
    }
}

/// The calls that a turn has put to the user in a series of reports, and the answers.
pub open spec fn asks(s: TurnState, events: Seq<Report>) -> Seq<(Call, Verdict)>
    decreases events.len(),
{
    if events.len() == 0 {
        Seq::empty()
    } else {
        let before = asks(s, events.drop_last());
        let state = played(s, events.drop_last()).0;
        match (state.stage, events.last()) {
            (Stage::Ask, Report::Answered(verdict)) => before.push((state.pending[0], verdict)),
            _ => before,
        }
    }
}

/// What a turn has asked of the provider in a series of reports, and the replies.
pub open spec fn talks(s: TurnState, events: Seq<Report>) -> Seq<Exchange>
    decreases events.len(),
{
    if events.len() == 0 {
        Seq::empty()
    } else {
        let before = talks(s, events.drop_last());
        let state = played(s, events.drop_last()).0;
        match (state.stage, events.last()) {
            (Stage::Complete, Report::Replied(reply)) => before.push(
                Exchange { prompt: state.prompt, reply },
            ),
            _ => before,
        }
    }
}

/// A governed turn from its beginning on: the series of reports, and the tools before each of them
/// and after the last one. Each report answers what the turn asked for, and the last one ends it
/// with `end`.
pub open spec fn went<T: Tools>(
    p: Policy,
    kill: KillSwitch,
    s: TurnState,
    events: Seq<Report>,
    tools: Seq<T>,
    end: End,
) -> bool {
    &&& governed(p, kill, s, events, tools)
    &&& played(s, events).0.stage == Stage::Over(end)
}

/// What a turn by a series of reports leaves behind: the tools ran its calls and no others, the
/// user was asked what it asked, the provider got its requests, and the log has its lines, each
/// behind what was there before.
pub open spec fn left<P: Provider, T: Tools, A: Approver>(
    s: TurnState,
    events: Seq<Report>,
    provider: (P, P),
    tools: (T, T),
    approver: (A, A),
    log: (Seq<AuditEntry>, Seq<AuditEntry>),
) -> bool {
    &&& provider.1.exchanges() == provider.0.exchanges() + talks(s, events)
    &&& tools.1.ran() == tools.0.ran() + runs(s, events)
    &&& approver.1.answered() == approver.0.answered() + asks(s, events)
    &&& log.0.is_prefix_of(log.1)
    &&& actions(log.1) == actions(log.0) + played(s, events).1
}

/// Whether each line that a log has got has the time that a clock gave.
pub open spec fn stamped<N: Fn() -> Timestamp>(
    now: N,
    log: (Seq<AuditEntry>, Seq<AuditEntry>),
) -> bool {
    forall|i: int|
        log.0.len() <= i < log.1.len() ==> call_ensures(now, (), (#[trigger] log.1[i]).at)
}

/// The rounds that may still begin.
spec fn rounds_left(s: TurnState) -> nat {
    s.left + if s.stage is Round || s.stage is Complete {
        1nat
    } else {
        0
    }
}

/// How far a stage is from the end of its call or its round.
spec fn rank(s: TurnState) -> nat {
    match s.stage {
        Stage::Call => 4,
        Stage::Rule => 3,
        Stage::Ask => 2,
        Stage::Run(_) => 1,
        Stage::Round => 1,
        Stage::Complete => 0,
        Stage::Over(_) => 0,
    }
}

proof fn lemma_step_ends<T: Tools>(
    p: Policy,
    kill: KillSwitch,
    s: TurnState,
    e: Report,
    before: T,
    after: T,
)
    requires
        s.wf(),
        answers(p, kill, s, e, before, after),
    ensures
        ({
            let t = next(s, e).0;
            ||| rounds_left(t) < rounds_left(s)
            ||| rounds_left(t) == rounds_left(s) && t.pending.len() < s.pending.len()
            ||| rounds_left(t) == rounds_left(s) && t.pending.len() == s.pending.len() && rank(t)
                < rank(s)
        }),
{
}

proof fn lemma_played_on(s: TurnState, events: Seq<Report>, e: Report)
    ensures
        played(s, events.push(e)) == ({
            let (before, log) = played(s, events);
            let (after, record) = next(before, e);
            match record {
                Some(line) => (after, log.push(line)),
                None => (after, log),
            }
        }),
{
    assert(events.push(e).drop_last() =~= events);
}

/// Does what a turn asks for, and nothing where it is over.
fn perform<P: Provider, T: Tools, A: Approver>(
    provider: &mut P,
    tools: &mut T,
    approver: &mut A,
    governor: &Governor,
    turn: &Turn,
) -> (r: Option<HostEvent>)
    requires
        turn@.wf(),
    ensures
        match r {
            Some(event) => answers(
                governor.rules(),
                governor.switch(),
                turn@,
                event@,
                *old(tools),
                *final(tools),
            ),
            None => turn@.stage is Over && *final(tools) == *old(tools),
        },
        final(provider).exchanges() == match r {
            Some(HostEvent::Replied(reply)) => old(provider).exchanges().push(
                (Exchange { prompt: turn@.prompt, reply: reply_view(reply) }),
            ),
            _ => old(provider).exchanges(),
        },
        final(approver).answered() == match r {
            Some(HostEvent::Answered(answer)) => old(approver).answered().push(
                (turn@.pending[0], answer@),
            ),
            _ => old(approver).answered(),
        },
{
    match turn.effect() {
        Effect::CheckKill => Some(HostEvent::Kill(governor.kill.is_engaged())),
        Effect::Complete => Some(HostEvent::Replied(provider.complete(turn.request()))),
        Effect::Rule => match turn.call() {
            Some(call) => {
                let action = tools.action(call);
                let decision = governor.policy.decide(&action);
                assert(call_ensures(T::action, (&*tools, call), action));
                assert(classified(*tools, turn@.pending[0], action));
                Some(HostEvent::Ruled(decision))
            },
            None => None,
        },
        Effect::Approve => match turn.call() {
            Some(call) => Some(HostEvent::Answered(approver.approve(call))),
            None => None,
        },
        Effect::Run => match turn.to_run() {
            Some(call) => Some(HostEvent::Ran(tools.run(call))),
            None => None,
        },
        Effect::Nothing => None,
    }
}

/// Runs one governed turn over `request`, of up to `max_steps` rounds. In each round the provider
/// replies, and each tool call of its reply is ruled on by the policy, put to the user where the
/// policy wants that, and run only where it may. Each decision goes to the audit log with the time
/// that `now` gives.
///
/// What comes back from the kill switch, the provider, the tools and the user is theirs. By those
/// answers the turn goes exactly as [`Turn`] has it: the provider gets its requests, the policy
/// rules on what the tools say that a call does, the user is asked about the calls it asks about,
/// and the tools run its calls and no others.
pub fn run_turn<P: Provider, T: Tools, A: Approver, N: Fn() -> Timestamp>(
    provider: &mut P,
    tools: &mut T,
    approver: &mut A,
    governor: &mut Governor,
    now: N,
    request: CompletionRequest,
    max_steps: usize,
) -> (r: Outcome)
    requires
        now.requires(()),
    ensures
        final(governor).rules() == old(governor).rules(),
        final(governor).switch() == old(governor).switch(),
        max_steps == 0 ==> r is BudgetExhausted,
        stamped(now, (old(governor).log(), final(governor).log())),
        exists|events: Seq<Report>, states: Seq<T>|
            #![trigger went(
                old(governor).rules(),
                old(governor).switch(),
                begun(request@, max_steps as nat),
                events,
                states,
                r@,
            )]
            went(
                old(governor).rules(),
                old(governor).switch(),
                begun(request@, max_steps as nat),
                events,
                states,
                r@,
            ) && states[0] == *old(tools) && states.last() == *final(tools) && left(
                begun(request@, max_steps as nat),
                events,
                (*old(provider), *final(provider)),
                (*old(tools), *final(tools)),
                (*old(approver), *final(approver)),
                (old(governor).log(), final(governor).log()),
            ),
{
    let ghost start = begun(request@, max_steps as nat);
    let ghost policy = governor.rules();
    let ghost kill = governor.switch();
    let ghost mut events: Seq<Report> = Seq::empty();
    let ghost mut states: Seq<T> = seq![*tools];
    let mut turn = Turn::new(request, max_steps);
    proof {
        assert(left(
            start,
            events,
            (*provider, *provider),
            (*tools, *tools),
            (*approver, *approver),
            (governor.log(), governor.log()),
        )) by {
            assert(actions(governor.log()) + Seq::<Seq<char>>::empty() =~= actions(governor.log()));
        }
    }
    loop
        invariant
            now.requires(()),
            turn@.wf(),
            governor.rules() == policy,
            policy == old(governor).rules(),
            governor.switch() == kill,
            kill == old(governor).switch(),
            governed(policy, kill, start, events, states),
            states[0] == *old(tools),
            states.last() == *tools,
            turn@ == played(start, events).0,
            stamped(now, (old(governor).log(), governor.log())),
            left(
                start,
                events,
                (*old(provider), *provider),
                (*old(tools), *tools),
                (*old(approver), *approver),
                (old(governor).log(), governor.log()),
            ),
        ensures
            turn@.stage is Over,
        decreases rounds_left(turn@), turn@.pending.len(), rank(turn@),
    {
        let ghost before = turn@;
        let ghost kept = governor.log();
        match perform(provider, tools, approver, governor, &turn) {
            Some(event) => {
                let ghost e = event@;
                let ghost earlier = events;
                proof {
                    lemma_step_ends(policy, kill, before, e, states.last(), *tools);
                    lemma_played_on(start, events, e);
                    assert(events.push(e).drop_last() =~= events);
                    assert(states.push(*tools).drop_last() =~= states);
                    events = events.push(e);
                    states = states.push(*tools);
                }
                if let Some(line) = turn.take(event) {
                    let ghost text = line@;
                    governor.audit.append(now(), line);
                    assert(actions(governor.log()) =~= actions(kept).push(text));
                }
                proof {
                    assert(events.drop_last() =~= earlier);
                    assert(provider.exchanges() =~= old(provider).exchanges() + talks(
                        start,
                        events,
                    ));
                    assert(tools.ran() =~= old(tools).ran() + runs(start, events));
                    assert(approver.answered() =~= old(approver).answered() + asks(start, events));
                    assert(actions(governor.log()) =~= actions(old(governor).log()) + played(
                        start,
                        events,
                    ).1);
                }
            },
            None => {
                break;
            },
        }
    }
    let r = turn.finish();
    proof {
        if max_steps == 0 {
            lemma_nothing_to_do(policy, kill, start, events, states);
        }
        assert(went(policy, kill, start, events, states, r@));
    }
    r
}

/// A turn that is over gets no reports.
proof fn lemma_nothing_to_do<T: Tools>(
    p: Policy,
    kill: KillSwitch,
    s: TurnState,
    events: Seq<Report>,
    tools: Seq<T>,
)
    requires
        s.stage is Over,
        governed(p, kill, s, events, tools),
    ensures
        events.len() == 0,
    decreases events.len(),
{
    if events.len() > 0 {
        lemma_nothing_to_do(p, kill, s, events.drop_last(), tools.drop_last());
    }
}

/// The first part of a governed turn is a governed turn.
proof fn lemma_governed_part<T: Tools>(
    p: Policy,
    kill: KillSwitch,
    s: TurnState,
    events: Seq<Report>,
    tools: Seq<T>,
    n: int,
)
    requires
        governed(p, kill, s, events, tools),
        0 <= n <= events.len(),
    ensures
        governed(p, kill, s, events.take(n), tools.take(n + 1)),
    decreases events.len(),
{
    if n < events.len() {
        lemma_governed_part(p, kill, s, events.drop_last(), tools.drop_last(), n);
        assert(events.drop_last().take(n) =~= events.take(n));
        assert(tools.drop_last().take(n + 1) =~= tools.take(n + 1));
    } else {
        assert(events.take(n) =~= events);
        assert(tools.take(n + 1) =~= tools);
    }
}

/// Where in a governed turn a call may run: right behind the policy's ruling on what the tools say
/// that the call does. Either the policy allows that, and the call itself runs; or it wants approval,
/// and the user says to run the call, or another one in its place.
pub open spec fn permitted<T: Tools>(
    p: Policy,
    s: TurnState,
    events: Seq<Report>,
    tools: Seq<T>,
    i: int,
    call: Call,
) -> bool {
    let ruled_on = |at: int, ruling: Ruling|
        at >= 0 && events[at] == Report::Ruled(ruling) && exists|action: AgentAction|
            ruled(p, action) == ruling && #[trigger] classified(
                tools[at],
                played(s, events.take(at)).0.pending[0],
                action,
            );
    ||| ruled_on(i - 1, Ruling::Allow) && call == played(s, events.take(i - 1)).0.pending[0]
    ||| ruled_on(i - 2, Ruling::NeedsApproval) && events[i - 1] == Report::Answered(Verdict::Run)
        && call == played(s, events.take(i - 2)).0.pending[0]
    ||| ruled_on(i - 2, Ruling::NeedsApproval) && events[i - 1] == Report::Answered(
        Verdict::RunModified(call),
    )
}

/// Whatever the model asks for, nothing runs that is not permitted: each run comes right behind the
/// policy's ruling, and the user's answer where the policy wants one.
pub proof fn law_nothing_runs_unpermitted<T: Tools>(
    p: Policy,
    kill: KillSwitch,
    s: TurnState,
    events: Seq<Report>,
    tools: Seq<T>,
    i: int,
    call: Call,
)
    requires
        s.stage is Round || s.stage is Over,
        governed(p, kill, s, events, tools),
        0 <= i < events.len(),
        played(s, events.take(i)).0.stage == Stage::Run(call),
    ensures
        permitted(p, s, events, tools, i, call),
{
    let here = events.take(i);
    lemma_governed_part(p, kill, s, events, tools, i);
    assert(i > 0) by {
        if i == 0 {
            assert(here =~= Seq::empty());
        }
    }
    let one = here.drop_last();
    assert(one =~= events.take(i - 1));
    assert(here.last() == events[i - 1]);
    assert(tools.take(i + 1)[i - 1] == tools[i - 1]);
    if played(s, one).0.stage is Ask {
        lemma_governed_part(p, kill, s, events, tools, i - 1);
        assert(i > 1) by {
            if i == 1 {
                assert(one =~= Seq::empty());
            }
        }
        let two = one.drop_last();
        assert(two =~= events.take(i - 2));
        assert(one.last() == events[i - 2]);
        assert(tools.take(i)[i - 2] == tools[i - 2]);
    }
}

/// The kill switch is read right before every completion and every ruling, and not engaged then.
pub proof fn law_kill_switch_is_read<T: Tools>(
    p: Policy,
    kill: KillSwitch,
    s: TurnState,
    events: Seq<Report>,
    tools: Seq<T>,
    i: int,
)
    requires
        s.stage is Round || s.stage is Over,
        governed(p, kill, s, events, tools),
        0 <= i < events.len(),
        events[i] is Replied || events[i] is Ruled,
    ensures
        i > 0,
        events[i - 1] == Report::Kill(false),
        call_ensures(KillSwitch::is_engaged, (&kill,), false),
{
    lemma_governed_part(p, kill, s, events, tools, i + 1);
    lemma_governed_part(p, kill, s, events, tools, i);
    let after = events.take(i + 1);
    let here = events.take(i);
    assert(after.drop_last() =~= here);
    assert(after.last() == events[i]);
    assert(i > 0) by {
        if i == 0 {
            assert(here =~= Seq::empty());
        }
    }
    assert(here.drop_last() =~= events.take(i - 1));
    assert(here.last() == events[i - 1]);
}

} // verus!
