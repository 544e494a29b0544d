//! The persistent prefix-tree [`Keymap`] and [`Command`] identifiers.
//!
//! A [`Keymap`] maps a sequence of [`KeyPress`]es to a [`Command`]. [`Keymap::bind`] returns a
//! new keymap that rebuilds only the nodes along the changed path and shares every untouched
//! subtree through `Arc`, so a rebind never disturbs a value that is already being walked.

use crate::key::KeyPress;
use std::sync::Arc;
use vstd::prelude::*;

verus! {

/// A named editor command that a key sequence resolves to (e.g. `"save"`, `"move-left"`).
#[derive(Debug, PartialEq, Eq)]
pub struct Command {
    name: String,
}

impl View for Command {
    type V = Seq<char>;

    closed spec fn view(&self) -> Seq<char> {
        self.name@
    }
}

impl Command {
    /// Creates a command identifier from its name.
    pub fn new(name: &str) -> (r: Self)
        ensures
            r@ == name@,
    {
        Command { name: name.to_owned() }
    }

    /// The command's name.
    pub fn name(&self) -> (r: &str)
        ensures
            r@ == self@,
    {
        self.name.as_str()
    }
}

impl Clone for Command {
    fn clone(&self) -> (r: Self)
        ensures
            r@ == self@,
    {
        Command { name: self.name.clone() }
    }
}

impl<'a> From<&'a str> for Command {
    fn from(name: &'a str) -> (r: Self)
        ensures
            r@ == name@,
    {
        Command::new(name)
    }
}

impl<'a> vstd::std_specs::convert::FromSpecImpl<&'a str> for Command {
    open spec fn obeys_from_spec() -> bool {
        false
    }

    open spec fn from_spec(name: &'a str) -> Self {
        arbitrary()
    }
}

/// The result of resolving a key sequence against a [`Keymap`].
#[derive(Clone, Debug, PartialEq, Eq)]
pub enum Lookup {
    /// The sequence is bound to this command.
    Bound(Command),
    /// The sequence is an incomplete prefix of one or more bindings; more keys are expected.
    Prefix,
    /// The sequence matches no binding.
    Unbound,
}

/// What resolving a key sequence means, with the command given by its name.
pub enum Found {
    /// The sequence is bound to the command of this name.
    Bound(Seq<char>),
    /// The sequence is a proper prefix of a binding.
    Prefix,
    /// The sequence leads nowhere.
    Unbound,
}

impl View for Lookup {
    type V = Found;

    open spec fn view(&self) -> Found {
        match *self {
            Lookup::Bound(command) => Found::Bound(command@),
            Lookup::Prefix => Found::Prefix,
            Lookup::Unbound => Found::Unbound,
        }
    }
}

/// The bindings of a keymap: command names by key sequence.
pub type Bindings = Map<Seq<KeyPress>, Seq<char>>;

/// Whether some binding strictly extends `sequence`.
pub open spec fn extended_by(bindings: Bindings, sequence: Seq<KeyPress>) -> bool {
    exists|rest: Seq<KeyPress>|
        rest.len() > 0 && #[trigger] bindings.dom().contains(sequence + rest)
}

/// What a set of bindings makes of a key sequence.
pub open spec fn resolve(bindings: Bindings, sequence: Seq<KeyPress>) -> Found {
    if bindings.dom().contains(sequence) {
        Found::Bound(bindings[sequence])
    } else if extended_by(bindings, sequence) {
        Found::Prefix
    } else {
        Found::Unbound
    }
}

#[derive(Debug)]
struct Edge {
    key: KeyPress,
    node: Arc<Node>,
}

#[derive(Debug)]
struct Node {
    command: Option<Command>,
    children: Vec<Edge>,
}

/// `Arc::clone`: a further pointer to the same value.
#[verifier::external_body]
pub(crate) fn share<T>(value: &Arc<T>) -> (r: Arc<T>)
    ensures
        r == *value,
{
    value.clone()
}

spec fn is_child(children: Seq<Edge>, key: KeyPress, i: int) -> bool {
    0 <= i < children.len() && children[i].key == key
}

spec fn has_child(children: Seq<Edge>, key: KeyPress) -> bool {
    exists|i: int| is_child(children, key, i)
}

/// The position of the child under `key`.
spec fn child(children: Seq<Edge>, key: KeyPress) -> int {
    choose|i: int| is_child(children, key, i)
}

spec fn distinct(children: Seq<Edge>) -> bool {
    forall|i: int, j: int|
        0 <= i < j < children.len() ==> (#[trigger] children[i]).key != (#[trigger] children[j]).key
}

proof fn child_unique(children: Seq<Edge>, i: int)
    requires
        distinct(children),
        0 <= i < children.len(),
    ensures
        has_child(children, children[i].key),
        child(children, children[i].key) == i,
{
    assert(is_child(children, children[i].key, i));
}

impl Node {
    /// The command name reached by walking `sequence` from this node.
    spec fn find(self, sequence: Seq<KeyPress>) -> Option<Seq<char>>
        decreases sequence.len(),
    {
        if sequence.len() == 0 {
            match self.command {
                Some(command) => Some(command@),
                None => None,
            }
        } else if has_child(self.children@, sequence[0]) {
            self.children@[child(self.children@, sequence[0])].node.find(sequence.drop_first())
        } else {
            None
        }
    }

    /// No key leads to two children, and every child leads to some command.
    spec fn wf(self) -> bool
        decreases self,
    {
        &&& distinct(self.children@)
        &&& forall|i: int|
            0 <= i < self.children@.len() ==> (#[trigger] self.children@[i]).node.wf()
                && self.children@[i].node.live()
    }

    /// Some sequence leads from this node to a command.
    spec fn live(self) -> bool {
        exists|s: Seq<KeyPress>| #[trigger] self.find(s) is Some
    }

    /// The position of `key` among the children, or their number.
    fn position(&self, key: KeyPress) -> (r: usize)
        ensures
            r <= self.children@.len(),
            r < self.children@.len() ==> self.children@[r as int].key == key,
            r == self.children@.len() ==> !has_child(self.children@, key),
    {
        let mut i: usize = 0;
        while i < self.children.len()
            invariant
                i <= self.children@.len(),
                forall|k: int| 0 <= k < i ==> (#[trigger] self.children@[k]).key != key,
            decreases self.children@.len() - i,
        {
            if self.children[i].key == key {
                return i;
            }
            i += 1;
        }
        i
    }

    /// A copy of this node whose subtrees are shared with it.
    fn copy(&self) -> (r: Self)
        ensures
            r.children@ == self.children@,
            r.find(Seq::empty()) == self.find(Seq::empty()),
    {
        let mut children: Vec<Edge> = Vec::new();
        let mut i: usize = 0;
        while i < self.children.len()
            invariant
                i <= self.children@.len(),
                children@ =~= self.children@.take(i as int),
            decreases self.children@.len() - i,
        {
            let edge = &self.children[i];
            children.push(Edge { key: edge.key, node: share(&edge.node) });
            i += 1;
        }
        let command = match &self.command {
            Some(command) => Some(command.clone()),
            None => None,
        };
        Node { command, children }
    }

    /// This node with the rest of `sequence`, from `at` on, bound to `command`.
    fn bind(&self, sequence: &[KeyPress], at: usize, command: Command) -> (r: Self)
        requires
            self.wf(),
            at <= sequence@.len(),
        ensures
            r.wf(),
            r.live(),
            forall|s: Seq<KeyPress>| #[trigger]
                r.find(s) == if s == sequence@.skip(at as int) {
                    Some(command@)
                } else {
                    self.find(s)
                },
        decreases sequence@.len() - at,
    {
        let ghost rest = sequence@.skip(at as int);
        let mut r = self.copy();
        if at == sequence.len() {
            let ghost name = command@;
            r.command = Some(command);
            proof {
                assert(rest =~= Seq::empty());
                assert forall|s: Seq<KeyPress>| #[trigger]
                    r.find(s) == if s == rest {
                        Some(name)
                    } else {
                        self.find(s)
                    } by {
                    if s.len() == 0 {
                        assert(s =~= rest);
                    }
                }
                assert(r.find(rest) is Some);
            }
            return r;
        }
        let key = sequence[at];
        let i = self.position(key);
        let ghost tail = sequence@.skip(at + 1);
        let ghost name = command@;
        assert(rest.len() > 0 && rest[0] == key && rest.drop_first() =~= tail);
        if i < self.children.len() {
            let node = self.children[i].node.bind(sequence, at + 1, command);
            assert(node.find(tail) is Some);
            r.children.set(i, Edge { key, node: Arc::new(node) });
            proof {
                child_unique(self.children@, i as int);
                assert forall|a: int, b: int| 0 <= a < b < r.children@.len() implies (
                #[trigger] r.children@[a]).key != (#[trigger] r.children@[b]).key by {
                    assert(self.children@[a].key != self.children@[b].key);
                }
                child_unique(r.children@, i as int);
                assert forall|s: Seq<KeyPress>| #[trigger]
                    r.find(s) == if s == rest {
                        Some(name)
                    } else {
                        self.find(s)
                    } by {
                    if s.len() == 0 {
                        assert(s =~= Seq::empty());
                    } else if s[0] == key {
                        if s.drop_first() == tail {
                            assert(s =~= seq![key] + tail);
                            assert(rest =~= seq![key] + tail);
                        }
                        assert(r.find(s) == node.find(s.drop_first()));
                    } else if has_child(self.children@, s[0]) {
                        let j = child(self.children@, s[0]);
                        assert(is_child(self.children@, s[0], j));
                        child_unique(self.children@, j);
                        child_unique(r.children@, j);
                    } else if has_child(r.children@, s[0]) {
                        let j = child(r.children@, s[0]);
                        assert(is_child(self.children@, s[0], j));
                    }
                }
            }
        } else {
            let fresh = Node { command: None, children: Vec::new() };
            assert(forall|s: Seq<KeyPress>| #[trigger] fresh.find(s) is None) by {
                assert forall|s: Seq<KeyPress>| #[trigger] fresh.find(s) is None by {
                    if s.len() > 0 && has_child(fresh.children@, s[0]) {
                        let j = child(fresh.children@, s[0]);
                        assert(is_child(fresh.children@, s[0], j));
                    }
                }
            }
            let node = fresh.bind(sequence, at + 1, command);
            assert(node.find(tail) is Some);
            r.children.push(Edge { key, node: Arc::new(node) });
            let ghost last = self.children@.len() as int;
            proof {
                assert forall|a: int, b: int| 0 <= a < b < r.children@.len() implies (
                #[trigger] r.children@[a]).key != (#[trigger] r.children@[b]).key by {
                    if b == last {
                        if self.children@[a].key == key {
                            assert(is_child(self.children@, key, a));
                        }
                    } else {
                        assert(self.children@[a].key != self.children@[b].key);
                    }
                }
                child_unique(r.children@, last);
                assert forall|s: Seq<KeyPress>| #[trigger]
                    r.find(s) == if s == rest {
                        Some(name)
                    } else {
                        self.find(s)
                    } by {
                    if s.len() == 0 {
                        assert(s =~= Seq::empty());
                    } else if s[0] == key {
                        if s.drop_first() == tail {
                            assert(s =~= seq![key] + tail);
                            assert(rest =~= seq![key] + tail);
                        }
                        assert(r.find(s) == node.find(s.drop_first()));
                    } else if has_child(self.children@, s[0]) {
                        let j = child(self.children@, s[0]);
                        assert(is_child(self.children@, s[0], j));
                        child_unique(self.children@, j);
                        child_unique(r.children@, j);
                    } else if has_child(r.children@, s[0]) {
                        let j = child(r.children@, s[0]);
                        assert(is_child(self.children@, s[0], j));
                    }
                }
            }
        }
        assert(r.find(rest) is Some);
        r
    }
}

/// An immutable prefix tree mapping key sequences to [`Command`]s.
#[derive(Debug)]
pub struct Keymap {
    root: Arc<Node>,
}

impl View for Keymap {
    type V = Bindings;

    closed spec fn view(&self) -> Bindings {
        Map::new(|s: Seq<KeyPress>| self.root.find(s) is Some, |s| self.root.find(s)->0)
    }
}

impl Clone for Keymap {
    fn clone(&self) -> (r: Self)
        ensures
            r@ == self@,
    {
        proof {
            use_type_invariant(self);
        }
        Keymap { root: share(&self.root) }
    }
}

impl Default for Keymap {
    fn default() -> (r: Self)
        ensures
            r@ == Bindings::empty(),
    {
        Keymap::new()
    }
}

impl Keymap {
    #[verifier::type_invariant]
    spec fn inv(self) -> bool {
        self.root.wf()
    }

    /// Creates an empty keymap.
    pub fn new() -> (r: Self)
        ensures
            r@ == Bindings::empty(),
    {
        let root = Node { command: None, children: Vec::new() };
        proof {
            assert forall|s: Seq<KeyPress>| #[trigger] root.find(s) is None by {
                if s.len() > 0 && has_child(root.children@, s[0]) {
                    let j = child(root.children@, s[0]);
                    assert(is_child(root.children@, s[0], j));
                }
            }
        }
        let r = Keymap { root: Arc::new(root) };
        assert(r@ =~= Bindings::empty());
        r
    }

    /// Returns a new keymap with `sequence` bound to `command`; `self` is left as it was.
    pub fn bind(&self, sequence: &[KeyPress], command: Command) -> (r: Self)
        ensures
            r@ == self@.insert(sequence@, command@),
    {
        proof {
            use_type_invariant(self);
        }
        let ghost name = command@;
        let root = self.root.bind(sequence, 0, command);
        let r = Keymap { root: Arc::new(root) };
        assert(sequence@.skip(0) =~= sequence@);
        assert(r@ =~= self@.insert(sequence@, name));
        r
    }

    /// The node that `sequence` leads to, or none where no binding begins with it.
    fn descend(&self, sequence: &[KeyPress]) -> (r: Option<&Arc<Node>>)
        ensures
            r is None ==> forall|rest: Seq<KeyPress>| !(#[trigger] self@.dom().contains(
                sequence@ + rest,
            )),
            r matches Some(node) ==> node.wf() && forall|s: Seq<KeyPress>| #[trigger]
                node.find(s) == self.root.find(sequence@ + s),
    {
        proof {
            use_type_invariant(self);
        }
        let mut node: &Arc<Node> = &self.root;
        let mut i: usize = 0;
        assert(forall|s: Seq<KeyPress>| sequence@.take(0) + s =~= s);
        while i < sequence.len()
            invariant
                i <= sequence@.len(),
                node.wf(),
                forall|s: Seq<KeyPress>| #[trigger]
                    node.find(s) == self.root.find(sequence@.take(i as int) + s),
            decreases sequence@.len() - i,
        {
            let key = sequence[i];
            let at = node.position(key);
            let ghost before = sequence@.take(i as int);
            if at == node.children.len() {
                proof {
                    assert forall|rest: Seq<KeyPress>| !(#[trigger] self@.dom().contains(
                        sequence@ + rest,
                    )) by {
                        let s = sequence@.skip(i as int) + rest;
                        assert(before + s =~= sequence@ + rest);
                        assert(node.find(s) is None);
                    }
                }
                return None;
            }
            proof {
                child_unique(node.children@, at as int);
                let below = node.children@[at as int].node;
                assert forall|s: Seq<KeyPress>| #[trigger]
                    below.find(s) == self.root.find(sequence@.take(i + 1) + s) by {
                    assert((seq![key] + s).drop_first() =~= s);
                    assert(node.find(seq![key] + s) == below.find(s));
                    assert(before + (seq![key] + s) =~= sequence@.take(i + 1) + s);
                }
            }
            node = &node.children[at].node;
            i += 1;
        }
        assert(sequence@.take(i as int) =~= sequence@);
        Some(node)
    }

    /// Resolves `sequence`: bound, an incomplete prefix, or unbound.
    pub fn lookup(&self, sequence: &[KeyPress]) -> (r: Lookup)
        ensures
            r@ == resolve(self@, sequence@),
    {
        assert(sequence@ + Seq::<KeyPress>::empty() =~= sequence@);
        match self.descend(sequence) {
            None => Lookup::Unbound,
            Some(node) => {
                assert(node.find(Seq::empty()) == self.root.find(sequence@));
                match &node.command {
                    Some(command) => Lookup::Bound(command.clone()),
                    None => {
                        if node.children.len() == 0 {
                            proof {
                                assert forall|rest: Seq<KeyPress>| rest.len() > 0 implies !(
                                #[trigger] self@.dom().contains(sequence@ + rest)) by {
                                    assert(node.find(rest) is None) by {
                                        if has_child(node.children@, rest[0]) {
                                            let j = child(node.children@, rest[0]);
                                            assert(is_child(node.children@, rest[0], j));
                                        }
                                    }
                                }
                            }
                            Lookup::Unbound
                        } else {
                            proof {
                                child_unique(node.children@, 0);
                                let below = node.children@[0].node;
                                let key = node.children@[0].key;
                                let s = choose|s: Seq<KeyPress>| #[trigger] below.find(s) is Some;
                                let rest = seq![key] + s;
                                assert(rest.drop_first() =~= s);
                                assert(node.find(rest) is Some);
                                assert(self@.dom().contains(sequence@ + rest));
                            }
                            Lookup::Prefix
                        }
                    },
                }
            },
        }
    }

    /// The keys that may follow `sequence`, each once: those that lead on to a binding.
    pub fn next_keys(&self, sequence: &[KeyPress]) -> (r: Vec<KeyPress>)
        ensures
            r@.no_duplicates(),
            forall|key: KeyPress| #[trigger]
                r@.contains(key) <==> !(resolve(self@, sequence@.push(key)) is Unbound),
    {
        let mut keys: Vec<KeyPress> = Vec::new();
        match self.descend(sequence) {
            None => {
                proof {
                    assert forall|key: KeyPress| resolve(
                        self@,
                        #[trigger] sequence@.push(key),
                    ) is Unbound by {
                        let s = sequence@.push(key);
                        assert(s =~= sequence@ + seq![key]);
                        assert forall|rest: Seq<KeyPress>| !(#[trigger] self@.dom().contains(
                            s + rest,
                        )) by {
                            assert(s + rest =~= sequence@ + (seq![key] + rest));
                        }
                    }
                }
            },
            Some(node) => {
                let mut i: usize = 0;
                while i < node.children.len()
                    invariant
                        i <= node.children@.len(),
                        keys@.len() == i,
                        forall|k: int| 0 <= k < i ==> #[trigger] keys@[k] == node.children@[k].key,
                    decreases node.children@.len() - i,
                {
                    keys.push(node.children[i].key);
                    i += 1;
                }
                proof {
                    let children = node.children@;
                    assert forall|a: int, b: int| 0 <= a < b < keys@.len() implies keys@[a]
                        != keys@[b] by {
                        assert(children[a].key != children[b].key);
                    }
                    assert forall|key: KeyPress| #[trigger]
                        keys@.contains(key) <==> !(resolve(
                            self@,
                            sequence@.push(key),
                        ) is Unbound) by {
                        let s = sequence@.push(key);
                        assert(s =~= sequence@ + seq![key]);
                        if keys@.contains(key) {
                            let k = choose|k: int| 0 <= k < keys@.len() && keys@[k] == key;
                            child_unique(children, k);
                            let below = children[k].node;
                            let t = choose|t: Seq<KeyPress>| #[trigger] below.find(t) is Some;
                            assert((seq![key] + t).drop_first() =~= t);
                            assert(node.find(seq![key] + t) is Some);
                            assert(sequence@ + (seq![key] + t) =~= s + t);
                            assert(self@.dom().contains(s + t));
                            if t.len() == 0 {
                                assert(s + t =~= s);
                            }
                        } else {
                            assert(!has_child(children, key)) by {
                                if has_child(children, key) {
                                    let j = child(children, key);
                                    assert(is_child(children, key, j));
                                    assert(keys@[j] == key);
                                }
                            }
                            assert forall|rest: Seq<KeyPress>| !(#[trigger] self@.dom().contains(
                                s + rest,
                            )) by {
                                assert(node.find(seq![key] + rest) is None);
                                assert(s + rest =~= sequence@ + (seq![key] + rest));
                            }
                            assert(s + Seq::<KeyPress>::empty() =~= s);
                        }
                    }
                }
            },
        }
        keys
    }
}

/// A freshly bound sequence resolves to its command.
pub proof fn law_bind_then_lookup(bindings: Bindings, sequence: Seq<KeyPress>, name: Seq<char>)
    ensures
        resolve(bindings.insert(sequence, name), sequence) == Found::Bound(name),
{
}

/// Binding one sequence leaves every other binding as it was.
pub proof fn law_bind_keeps_others(
    bindings: Bindings,
    sequence: Seq<KeyPress>,
    name: Seq<char>,
    other: Seq<KeyPress>,
)
    requires
        other != sequence,
        bindings.dom().contains(other),
    ensures
        resolve(bindings.insert(sequence, name), other) == resolve(bindings, other),
{
}

/// After a multi-key binding, each of its proper beginnings that is not itself bound is
/// reported as an incomplete prefix.
pub proof fn law_beginnings_are_prefixes(
    bindings: Bindings,
    sequence: Seq<KeyPress>,
    name: Seq<char>,
    n: int,
)
    requires
        0 <= n < sequence.len(),
        !bindings.dom().contains(sequence.take(n)),
    ensures
        resolve(bindings.insert(sequence, name), sequence.take(n)) is Prefix,
{
    let rest = sequence.skip(n);
    assert(sequence.take(n) + rest =~= sequence);
    assert(bindings.insert(sequence, name).dom().contains(sequence.take(n) + rest));
    assert(sequence.take(n).len() < sequence.len());
}

} // verus!
