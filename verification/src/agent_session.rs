//! An agent as it is set up: its permissions, its instructions and tools, and its audit log.

use crate::agent::{begun, Outcome, Report};
use crate::governor::{
    left, run_turn, stamped, went, Approver, AuditEntry, AuditLog, Governor, KillSwitch, Tools,
};
use crate::policy::Policy;
use crate::provider::{offers, said, Offer, Prompt, Provider, Role, ToolSpec};
use crate::tools::{buffer_offers, buffer_tool_specs, opening, DEFAULT_MAX_STEPS};
use jiff::Timestamp;
use vstd::prelude::*;

verus! {

/// An agent that the host drives, turn by turn.
#[derive(Debug)]
pub struct AgentSession {
    governor: Governor,
    system_prompt: String,
    tools: Vec<ToolSpec>,
    max_steps: usize,
}

/// The contents of an [`AgentSession`].
#[verifier::ext_equal]
pub struct SessionState {
    /// What the agent may do.
    pub policy: Policy,
    /// The kill switch.
    pub switch: KillSwitch,
    /// Its instructions.
    pub instructions: Seq<char>,
    /// The tools that it is offered.
    pub tools: Seq<Offer>,
    /// The most rounds of a turn.
    pub steps: nat,
    /// The audit log, oldest line first.
    pub log: Seq<AuditEntry>,
}

impl View for AgentSession {
    type V = SessionState;

    closed spec fn view(&self) -> SessionState {
        SessionState {
            policy: self.governor.rules(),
            switch: self.governor.switch(),
            instructions: self.system_prompt@,
            tools: offers(self.tools@),
            steps: self.max_steps as nat,
            log: self.governor.log(),
        }
    }
}

impl AgentSession {
    /// An agent with the tools over a buffer, a fresh kill switch and an empty audit log.
    pub fn new(policy: Policy, system_prompt: &str) -> (r: Self)
        ensures
            r@ == (SessionState {
                policy,
                switch: r@.switch,
                instructions: system_prompt@,
                tools: buffer_offers(),
                steps: DEFAULT_MAX_STEPS as nat,
                log: Seq::empty(),
            }),
    {
        AgentSession {
            governor: Governor::new(policy, AuditLog::new(), KillSwitch::new()),
            system_prompt: system_prompt.to_owned(),
            tools: buffer_tool_specs(),
            max_steps: DEFAULT_MAX_STEPS,
        }
    }

    /// What the agent may do.
    pub fn policy(&self) -> (r: &Policy)
        ensures
            *r == self@.policy,
    {
        self.governor.policy()
    }

    /// The kill switch, to stop the agent with.
    pub fn kill_switch(&self) -> (r: KillSwitch)
        ensures
            r == self@.switch,
    {
        self.governor.kill_switch()
    }

    /// The audit log so far, of every turn.
    pub fn audit(&self) -> (r: &AuditLog)
        ensures
            r@ == self@.log,
    {
        self.governor.audit()
    }

    /// Runs one turn that answers a message of the user, as [`run_turn`] does.
    pub fn run<P: Provider, T: Tools, A: Approver>(
        &mut self,
        provider: &mut P,
        tools: &mut T,
        approver: &mut A,
        user_message: &str,
    ) -> (r: Outcome)
        ensures
            final(self)@ == (SessionState { log: final(self)@.log, ..old(self)@ }),
            stamped(Timestamp::now, (old(self)@.log, final(self)@.log)),
            exists|events: Seq<Report>, states: Seq<T>|
                #![trigger went(
                    old(self)@.policy,
                    old(self)@.switch,
                    begun(old(self)@.opened(user_message@), old(self)@.steps),
                    events,
                    states,
                    r@,
                )]
                went(
                    old(self)@.policy,
                    old(self)@.switch,
                    begun(old(self)@.opened(user_message@), old(self)@.steps),
                    events,
                    states,
                    r@,
                ) && states[0] == *old(tools) && states.last() == *final(tools) && left(
                    begun(old(self)@.opened(user_message@), old(self)@.steps),
                    events,
                    (*old(provider), *final(provider)),
                    (*old(tools), *final(tools)),
                    (*old(approver), *final(approver)),
                    (old(self)@.log, final(self)@.log),
                ),
    {
        let request = opening(self.system_prompt.as_str(), user_message, self.tools.as_slice());
        assert(request@ == old(self)@.opened(user_message@));
        run_turn(
            provider,
            tools,
            approver,
            &mut self.governor,
            Timestamp::now,
            request,
            self.max_steps,
        )
    }
}

impl SessionState {
    /// What the model is sent first: the instructions and the message of the user, with the tools.
    pub open spec fn opened(self, user_message: Seq<char>) -> Prompt {
        Prompt {
            messages: seq![said(Role::System, self.instructions), said(Role::User, user_message)],
            tools: self.tools,
        }
    }
}

} // verus!
