//! What the agent may do: a declarative policy that is closed unless the manifest opens it.

use crate::agent::{Decision, Ruling};
use crate::text::{chars_are, chars_of, strings, words, words_of};
use vstd::prelude::*;

verus! {

/// Something that the agent wants to do.
#[derive(Clone, Debug, PartialEq, Eq)]
pub enum AgentAction {
    /// Read a file or the buffer.
    ReadPath {
        /// The path; empty for a buffer without a file.
        path: String,
    },
    /// Change the buffer.
    Edit,
    /// Run a program.
    Shell {
        /// The command line.
        command: String,
    },
    /// Reach out to the network.
    Network {
        /// The host.
        host: String,
    },
}

/// The agent's permissions.
#[derive(Clone, Debug, PartialEq, Eq)]
pub struct Policy {
    /// The programs that the agent may run once the user approves.
    pub shell_allowlist: Vec<String>,
    /// The hosts that the agent may reach.
    pub network_allowlist: Vec<String>,
    /// Whether the user has to approve an edit.
    pub edits_need_approval: bool,
}

impl Default for Policy {
    /// No shell, no network, and every edit needs approval.
    fn default() -> (r: Self)
        ensures
            r.shell_allowlist@.len() == 0,
            r.network_allowlist@.len() == 0,
            r.edits_need_approval,
    {
        Policy {
            shell_allowlist: Vec::new(),
            network_allowlist: Vec::new(),
            edits_need_approval: true,
        }
    }
}

/// Why a program must not run.
pub open spec fn shell_refusal() -> Seq<char> {
    "the program is not on the shell allow-list"@
}

/// Why a host must not be reached.
pub open spec fn network_refusal() -> Seq<char> {
    "the host is not on the network allow-list"@
}

/// The policy's ruling on an action. A command counts by its first word, the program.
pub open spec fn ruled(p: Policy, action: AgentAction) -> Ruling {
    match action {
        AgentAction::ReadPath { .. } => Ruling::Allow,
        AgentAction::Edit => if p.edits_need_approval {
            Ruling::NeedsApproval
        } else {
            Ruling::Allow
        },
        AgentAction::Shell { command } => if words(command@).len() > 0 && strings(
            p.shell_allowlist@,
        ).contains(words(command@)[0]) {
            Ruling::NeedsApproval
        } else {
            Ruling::Deny(shell_refusal())
        },
        AgentAction::Network { host } => if strings(p.network_allowlist@).contains(host@) {
            Ruling::Allow
        } else {
            Ruling::Deny(network_refusal())
        },
    }
}

/// Whether a text is on a list.
fn listed(list: &[String], text: &[char]) -> (r: bool)
    ensures
        r == strings(list@).contains(text@),
{
    let mut i: usize = 0;
    while i < list.len()
        invariant
            i <= list@.len(),
            forall|k: int| 0 <= k < i ==> (#[trigger] list@[k])@ != text@,
        decreases list@.len() - i,
    {
        if chars_are(text, list[i].as_str()) {
            assert(strings(list@)[i as int] == text@);
            return true;
        }
        i += 1;
    }
    assert forall|k: int| 0 <= k < list@.len() implies strings(list@)[k] != text@ by {
        assert(strings(list@)[k] == list@[k]@);
    }
    false
}

impl Policy {
    /// Rules on an action.
    pub fn decide(&self, action: &AgentAction) -> (r: Decision)
        ensures
            r@ == ruled(*self, *action),
    {
        match action {
            AgentAction::ReadPath { .. } => Decision::Allow,
            AgentAction::Edit => if self.edits_need_approval {
                Decision::NeedsApproval
            } else {
                Decision::Allow
            },
            AgentAction::Shell { command } => {
                let ws = words_of(chars_of(command.as_str()).as_slice());
                if ws.len() > 0 && listed(self.shell_allowlist.as_slice(), ws[0].as_slice()) {
                    Decision::NeedsApproval
                } else {
                    Decision::Deny {
                        reason: "the program is not on the shell allow-list".to_owned(),
                    }
                }
            },
            AgentAction::Network { host } => {
                if listed(self.network_allowlist.as_slice(), chars_of(host.as_str()).as_slice()) {
                    Decision::Allow
                } else {
                    Decision::Deny {
                        reason: "the host is not on the network allow-list".to_owned(),
                    }
                }
            },
        }
    }
}

/// No program ever runs without the user's approval.
pub proof fn law_shell_is_never_allowed_outright(p: Policy, command: String)
    ensures
        ruled(p, AgentAction::Shell { command }) != Ruling::Allow,
{
}

/// The policy without any entry denies every program and every host, and has edits approved.
pub proof fn law_default_is_closed(p: Policy, command: String, host: String)
    requires
        p.shell_allowlist@.len() == 0,
        p.network_allowlist@.len() == 0,
        p.edits_need_approval,
    ensures
        ruled(p, AgentAction::Shell { command }) is Deny,
        ruled(p, AgentAction::Network { host }) is Deny,
        ruled(p, AgentAction::Edit) is NeedsApproval,
{
}

/// Dropping entries from the lists, or asking for approval of edits, never opens anything.
pub proof fn law_tightening_never_opens(loose: Policy, tight: Policy, action: AgentAction)
    requires
        forall|s: Seq<char>| #[trigger]
            strings(tight.shell_allowlist@).contains(s) ==> strings(
                loose.shell_allowlist@,
            ).contains(s),
        forall|s: Seq<char>| #[trigger]
            strings(tight.network_allowlist@).contains(s) ==> strings(
                loose.network_allowlist@,
            ).contains(s),
        loose.edits_need_approval ==> tight.edits_need_approval,
    ensures
        ruled(loose, action) is Deny ==> ruled(tight, action) is Deny,
        ruled(tight, action) is Allow ==> ruled(loose, action) is Allow,
{
}

/// Reading is allowed; an edit is allowed or needs approval as the policy says; a program needs
/// approval where its first word is on the list and is refused otherwise; a host is allowed where it
/// is on the list and refused otherwise.
pub proof fn law_rules_of_the_policy(p: Policy, path: String, command: String, host: String, i: int)
    ensures
        ruled(p, AgentAction::ReadPath { path }) == Ruling::Allow,
        p.edits_need_approval ==> ruled(p, AgentAction::Edit) == Ruling::NeedsApproval,
        !p.edits_need_approval ==> ruled(p, AgentAction::Edit) == Ruling::Allow,
        words(command@).len() > 0 && 0 <= i < p.shell_allowlist@.len() && p.shell_allowlist@[i]@ == words(
            command@,
        )[0] ==> ruled(p, AgentAction::Shell { command }) == Ruling::NeedsApproval,
        words(command@).len() == 0 ==> ruled(p, AgentAction::Shell { command }) is Deny,
        words(command@).len() > 0 && (forall|k: int|
            0 <= k < p.shell_allowlist@.len() ==> (#[trigger] p.shell_allowlist@[k])@ != words(command@)[0])
            ==> ruled(p, AgentAction::Shell { command }) is Deny,
        0 <= i < p.network_allowlist@.len() && p.network_allowlist@[i]@ == host@ ==> ruled(
            p,
            AgentAction::Network { host },
        ) == Ruling::Allow,
        (forall|k: int|
            0 <= k < p.network_allowlist@.len() ==> (#[trigger] p.network_allowlist@[k])@ != host@) ==> ruled(
            p,
            AgentAction::Network { host },
        ) is Deny,
{
    let shell = strings(p.shell_allowlist@);
    let network = strings(p.network_allowlist@);
    if 0 <= i < shell.len() {
        assert(shell[i] == p.shell_allowlist@[i]@);
    }
    if 0 <= i < network.len() {
        assert(network[i] == p.network_allowlist@[i]@);
    }
    if words(command@).len() > 0 && shell.contains(words(command@)[0]) {
        let k = choose|k: int| 0 <= k < shell.len() && shell[k] == words(command@)[0];
        assert(shell[k] == p.shell_allowlist@[k]@);
    }
    if network.contains(host@) {
        let k = choose|k: int| 0 <= k < network.len() && network[k] == host@;
        assert(network[k] == p.network_allowlist@[k]@);
    }
}

} // verus!
