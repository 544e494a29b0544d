//! Layered key [`Dispatcher`]: resolves keys against a stack of [`Keymap`] layers.
//!
//! A [`Dispatcher`] holds layers in priority order and the keys typed so far toward a multi-key
//! binding. Each fed key extends the pending sequence; the highest-priority layer that binds it
//! wins, an incomplete prefix in any layer means "wait for more", and a sequence bound nowhere
//! is reported, so that the editor can fall back to self-insertion, and dropped.

use crate::key::KeyPress;
use crate::keymap::{resolve, Bindings, Command, Found, Keymap, Lookup};
use vstd::prelude::*;

verus! {

/// What feeding a key to a [`Dispatcher`] produced.
#[derive(Clone, Debug, PartialEq, Eq)]
pub enum Resolution {
    /// The pending sequence resolved to this command.
    Command(Command),
    /// The pending sequence is an incomplete prefix; more keys are expected.
    Pending,
    /// The sequence is bound in no layer; here is the full chord that failed.
    Unbound(Vec<KeyPress>),
}

/// A [`Resolution`] with the command given by its name.
pub enum Resolved {
    /// The sequence resolved to the command of this name.
    Command(Seq<char>),
    /// More keys are expected.
    Pending,
    /// The sequence is bound nowhere.
    Unbound(Seq<KeyPress>),
}

impl View for Resolution {
    type V = Resolved;

    open spec fn view(&self) -> Resolved {
        match *self {
            Resolution::Command(command) => Resolved::Command(command@),
            Resolution::Pending => Resolved::Pending,
            Resolution::Unbound(keys) => Resolved::Unbound(keys@),
        }
    }
}

/// The command of the first layer that binds `keys`.
pub open spec fn first_bound(layers: Seq<Bindings>, keys: Seq<KeyPress>) -> Option<Seq<char>>
    decreases layers.len(),
{
    if layers.len() == 0 {
        None
    } else {
        match resolve(layers[0], keys) {
            Found::Bound(name) => Some(name),
            _ => first_bound(layers.drop_first(), keys),
        }
    }
}

/// Whether some layer is still waiting for more keys after `keys`.
pub open spec fn any_prefix(layers: Seq<Bindings>, keys: Seq<KeyPress>) -> bool {
    exists|i: int| 0 <= i < layers.len() && #[trigger] resolve(layers[i], keys) is Prefix
}

/// What a stack of layers makes of `keys`.
pub open spec fn resolve_layers(layers: Seq<Bindings>, keys: Seq<KeyPress>) -> Resolved {
    match first_bound(layers, keys) {
        Some(name) => Resolved::Command(name),
        None => if any_prefix(layers, keys) {
            Resolved::Pending
        } else {
            Resolved::Unbound(keys)
        },
    }
}

/// Rows of keys and labels, with the labels given by their text.
pub open spec fn rows_view(rows: Seq<(KeyPress, String)>) -> Seq<(KeyPress, Seq<char>)> {
    rows.map_values(|row: (KeyPress, String)| (row.0, row.1@))
}

/// Whether a row is for `key`.
pub open spec fn listed(rows: Seq<(KeyPress, Seq<char>)>, key: KeyPress) -> bool {
    exists|i: int| 0 <= i < rows.len() && (#[trigger] rows[i]).0 == key
}

/// What a hint says of a sequence.
pub open spec fn hint_of(resolved: Resolved) -> Seq<char> {
    match resolved {
        Resolved::Command(name) => name,
        _ => "+prefix"@,
    }
}

/// Each row is for a key of its own that may follow `keys`, and says what comes of it.
pub open spec fn rows_are_true(
    layers: Seq<Bindings>,
    keys: Seq<KeyPress>,
    rows: Seq<(KeyPress, Seq<char>)>,
) -> bool {
    &&& forall|i: int|
        0 <= i < rows.len() ==> {
            let resolved = resolve_layers(layers, keys.push((#[trigger] rows[i]).0));
            !(resolved is Unbound) && rows[i].1 == hint_of(resolved)
        }
    &&& forall|i: int, j: int|
        0 <= i < j < rows.len() ==> (#[trigger] rows[i]).0 != (#[trigger] rows[j]).0
}

/// `rows` are the hints for the sequence `keys` in progress: one for each key that may come next,
/// in any order, and none where nothing was typed yet.
pub open spec fn are_hints(
    layers: Seq<Bindings>,
    keys: Seq<KeyPress>,
    rows: Seq<(KeyPress, Seq<char>)>,
) -> bool {
    if keys.len() == 0 {
        rows.len() == 0
    } else {
        &&& rows_are_true(layers, keys, rows)
        &&& forall|key: KeyPress|
            !(#[trigger] resolve_layers(layers, keys.push(key)) is Unbound) ==> listed(rows, key)
    }
}

/// Resolves keys against an ordered stack of keymap layers.
#[derive(Debug)]
pub struct Dispatcher {
    layers: Vec<Keymap>,
    pending: Vec<KeyPress>,
}

proof fn lemma_first_bound_skips(layers: Seq<Bindings>, keys: Seq<KeyPress>, i: int)
    requires
        0 <= i <= layers.len(),
        forall|k: int| 0 <= k < i ==> !(#[trigger] resolve(layers[k], keys) is Bound),
    ensures
        first_bound(layers, keys) == first_bound(layers.skip(i), keys),
    decreases i,
{
    if i > 0 {
        assert(!(resolve(layers[0], keys) is Bound));
        let rest = layers.drop_first();
        assert forall|k: int| 0 <= k < i - 1 implies !(#[trigger] resolve(
            rest[k],
            keys,
        ) is Bound) by {
            assert(rest[k] == layers[k + 1]);
        }
        lemma_first_bound_skips(rest, keys, i - 1);
        assert(rest.skip(i - 1) =~= layers.skip(i));
    } else {
        assert(layers.skip(0) =~= layers);
    }
}

impl Dispatcher {
    /// The bindings of the layers, highest priority first.
    pub closed spec fn layers(self) -> Seq<Bindings> {
        self.layers@.map_values(|k: Keymap| k@)
    }

    /// The keys accumulated toward an in-progress multi-key binding.
    pub closed spec fn keys(self) -> Seq<KeyPress> {
        self.pending@
    }

    /// Creates a dispatcher over `layers`, ordered highest priority first.
    pub fn new(layers: Vec<Keymap>) -> (r: Self)
        ensures
            r.layers() == layers@.map_values(|k: Keymap| k@),
            r.keys() == Seq::<KeyPress>::empty(),
    {
        Dispatcher { layers, pending: Vec::new() }
    }

    /// The keys accumulated toward an in-progress multi-key binding.
    pub fn pending(&self) -> (r: &[KeyPress])
        ensures
            r@ == self.keys(),
    {
        self.pending.as_slice()
    }

    /// Clears any in-progress sequence.
    pub fn reset(&mut self)
        ensures
            final(self).layers() == old(self).layers(),
            final(self).keys() == Seq::<KeyPress>::empty(),
    {
        self.pending.clear();
    }

    /// What the layers make of `keys`.
    fn resolved(&self, keys: &[KeyPress]) -> (r: Lookup)
        ensures
            r@ == match resolve_layers(self.layers(), keys@) {
                Resolved::Command(name) => Found::Bound(name),
                Resolved::Pending => Found::Prefix,
                Resolved::Unbound(_) => Found::Unbound,
            },
    {
        let ghost layers = self.layers();
        let mut prefix = false;
        let mut i: usize = 0;
        while i < self.layers.len()
            invariant
                i <= self.layers@.len(),
                layers == self.layers(),
                layers.len() == self.layers@.len(),
                forall|k: int| 0 <= k < i ==> !(#[trigger] resolve(layers[k], keys@) is Bound),
                prefix == exists|k: int|
                    0 <= k < i && #[trigger] resolve(layers[k], keys@) is Prefix,
            decreases self.layers@.len() - i,
        {
            assert(layers[i as int] == self.layers@[i as int]@);
            match self.layers[i].lookup(keys) {
                Lookup::Bound(command) => {
                    proof {
                        lemma_first_bound_skips(layers, keys@, i as int);
                        assert(layers.skip(i as int)[0] == layers[i as int]);
                    }
                    return Lookup::Bound(command);
                },
                Lookup::Prefix => {
                    assert(resolve(layers[i as int], keys@) is Prefix);
                    prefix = true;
                },
                Lookup::Unbound => {},
            }
            i += 1;
        }
        proof {
            lemma_first_bound_skips(layers, keys@, layers.len() as int);
            assert(layers.skip(layers.len() as int).len() == 0);
        }
        if prefix {
            Lookup::Prefix
        } else {
            Lookup::Unbound
        }
    }

    /// Feeds one key and resolves it against the layers.
    pub fn feed(&mut self, key: KeyPress) -> (r: Resolution)
        ensures
            r@ == resolve_layers(old(self).layers(), old(self).keys().push(key)),
            final(self).layers() == old(self).layers(),
            final(self).keys() == if r is Pending {
                old(self).keys().push(key)
            } else {
                Seq::empty()
            },
    {
        self.pending.push(key);
        match self.resolved(self.pending.as_slice()) {
            Lookup::Bound(command) => {
                self.pending.clear();
                Resolution::Command(command)
            },
            Lookup::Prefix => Resolution::Pending,
            Lookup::Unbound => {
                let mut chord: Vec<KeyPress> = Vec::new();
                std::mem::swap(&mut chord, &mut self.pending);
                Resolution::Unbound(chord)
            },
        }
    }

    /// The keys that may come next after the sequence in progress, each with the command that it
    /// runs, or with `+prefix` where it leads on to further keys. There are none while no sequence
    /// is in progress.
    pub fn hints(&self) -> (r: Vec<(KeyPress, String)>)
        ensures
            are_hints(self.layers(), self.keys(), rows_view(r@)),
    {
        let mut rows: Vec<(KeyPress, String)> = Vec::new();
        let ghost layers = self.layers();
        let ghost keys = self.keys();
        if self.pending.len() == 0 {
            assert(rows_view(rows@) =~= Seq::empty());
            return rows;
        }
        let mut i: usize = 0;
        while i < self.layers.len()
            invariant
                i <= self.layers@.len(),
                layers == self.layers(),
                keys == self.keys(),
                layers.len() == self.layers@.len(),
                rows_are_true(layers, keys, rows_view(rows@)),
                forall|k: int, key: KeyPress|
                    0 <= k < i && !(#[trigger] resolve(layers[k], keys.push(key)) is Unbound)
                        ==> listed(rows_view(rows@), key),
            decreases self.layers@.len() - i,
        {
            assert(layers[i as int] == self.layers@[i as int]@);
            let next = self.layers[i].next_keys(self.pending.as_slice());
            let mut j: usize = 0;
            while j < next.len()
                invariant
                    i < self.layers@.len(),
                    j <= next@.len(),
                    layers == self.layers(),
                    keys == self.keys(),
                    layers.len() == self.layers@.len(),
                    rows_are_true(layers, keys, rows_view(rows@)),
                    forall|key: KeyPress| #[trigger]
                        next@.contains(key) <==> !(resolve(
                            layers[i as int],
                            keys.push(key),
                        ) is Unbound),
                    forall|k: int, key: KeyPress|
                        0 <= k < i && !(#[trigger] resolve(layers[k], keys.push(key)) is Unbound)
                            ==> listed(rows_view(rows@), key),
                    forall|m: int| 0 <= m < j ==> listed(rows_view(rows@), #[trigger] next@[m]),
                decreases next@.len() - j,
            {
                let key = next[j];
                let ghost before = rows_view(rows@);
                if !is_listed(&rows, key) {
                    let mut sequence = self.pending.clone();
                    sequence.push(key);
                    assert(sequence@ =~= keys.push(key));
                    assert(next@.contains(next@[j as int]));
                    proof {
                        lemma_layer_shows(layers, keys.push(key), i as int);
                    }
                    let label = match self.resolved(sequence.as_slice()) {
                        Lookup::Bound(command) => command.name().to_owned(),
                        _ => "+prefix".to_owned(),
                    };
                    let ghost shown = label@;
                    rows.push((key, label));
                    assert(rows_view(rows@) =~= before.push((key, shown)));
                    proof {
                        lemma_still_listed(before, (key, shown));
                    }
                }
                j += 1;
            }
            proof {
                let ghost seen = rows_view(rows@);
                assert forall|k: int, key: KeyPress|
                    0 <= k < i + 1 && !(#[trigger] resolve(layers[k], keys.push(key)) is Unbound)
                    implies listed(seen, key) by {
                    if k == i {
                        assert(next@.contains(key));
                        let m = choose|m: int| 0 <= m < next@.len() && next@[m] == key;
                        assert(listed(seen, next@[m]));
                    }
                }
            }
            i += 1;
        }
        proof {
            assert forall|key: KeyPress|
                !(#[trigger] resolve_layers(layers, keys.push(key)) is Unbound) implies listed(
                rows_view(rows@),
                key,
            ) by {
                let k = lemma_some_layer_shows(layers, keys.push(key));
                assert(!(resolve(layers[k], keys.push(key)) is Unbound));
            }
        }
        rows
    }
}

/// Whether a row is for `key`.
fn is_listed(rows: &Vec<(KeyPress, String)>, key: KeyPress) -> (r: bool)
    ensures
        r == listed(rows_view(rows@), key),
{
    let mut i: usize = 0;
    while i < rows.len()
        invariant
            i <= rows@.len(),
            forall|k: int| 0 <= k < i ==> (#[trigger] rows_view(rows@)[k]).0 != key,
        decreases rows@.len() - i,
    {
        assert(rows_view(rows@)[i as int].0 == rows@[i as int].0);
        if rows[i].0 == key {
            return true;
        }
        i += 1;
    }
    false
}

proof fn lemma_still_listed(rows: Seq<(KeyPress, Seq<char>)>, row: (KeyPress, Seq<char>))
    ensures
        forall|key: KeyPress| #[trigger] listed(rows, key) ==> listed(rows.push(row), key),
        listed(rows.push(row), row.0),
{
    let more = rows.push(row);
    assert forall|key: KeyPress| #[trigger] listed(rows, key) implies listed(more, key) by {
        let i = choose|i: int| 0 <= i < rows.len() && (#[trigger] rows[i]).0 == key;
        assert(more[i].0 == key);
    }
    assert(more[rows.len() as int].0 == row.0);
}

/// Where a layer knows `keys`, so do the layers together.
proof fn lemma_layer_shows(layers: Seq<Bindings>, keys: Seq<KeyPress>, i: int)
    requires
        0 <= i < layers.len(),
        !(resolve(layers[i], keys) is Unbound),
    ensures
        !(resolve_layers(layers, keys) is Unbound),
{
    if resolve_layers(layers, keys) is Unbound {
        law_unbound_is_unbound_everywhere(layers, keys, i);
    }
}

/// Where the layers together know `keys`, so does one of them.
proof fn lemma_some_layer_shows(layers: Seq<Bindings>, keys: Seq<KeyPress>) -> (i: int)
    requires
        !(resolve_layers(layers, keys) is Unbound),
    ensures
        0 <= i < layers.len(),
        !(resolve(layers[i], keys) is Unbound),
    decreases layers.len(),
{
    if any_prefix(layers, keys) {
        choose|i: int| 0 <= i < layers.len() && #[trigger] resolve(layers[i], keys) is Prefix
    } else if resolve(layers[0], keys) is Bound {
        0
    } else {
        let rest = layers.drop_first();
        assert(first_bound(rest, keys) is Some);
        let i = lemma_some_layer_shows(rest, keys);
        assert(rest[i] == layers[i + 1]);
        i + 1
    }
}

impl Clone for Dispatcher {
    fn clone(&self) -> (r: Self)
        ensures
            r.layers() == self.layers(),
            r.keys() == self.keys(),
    {
        let mut layers: Vec<Keymap> = Vec::new();
        let mut i: usize = 0;
        while i < self.layers.len()
            invariant
                i <= self.layers@.len(),
                layers@.len() == i,
                forall|k: int| 0 <= k < i ==> (#[trigger] layers@[k])@ == self.layers@[k]@,
            decreases self.layers@.len() - i,
        {
            layers.push(self.layers[i].clone());
            i += 1;
        }
        let r = Dispatcher { layers, pending: self.pending.clone() };
        assert(r.layers() =~= self.layers());
        assert(r.pending@ =~= self.pending@);
        r
    }
}

/// A binding in the first layer wins over whatever the layers below it bind.
pub proof fn law_higher_layer_wins(layers: Seq<Bindings>, keys: Seq<KeyPress>)
    requires
        layers.len() > 0,
        layers[0].dom().contains(keys),
    ensures
        resolve_layers(layers, keys) == Resolved::Command(layers[0][keys]),
{
}

/// A sequence is reported as unbound only if no layer binds it or an extension of it.
pub proof fn law_unbound_is_unbound_everywhere(layers: Seq<Bindings>, keys: Seq<KeyPress>, i: int)
    requires
        resolve_layers(layers, keys) is Unbound,
        0 <= i < layers.len(),
    ensures
        resolve(layers[i], keys) is Unbound,
    decreases layers.len(),
{
    if resolve(layers[i], keys) is Bound {
        let rest = layers.drop_first();
        assert(first_bound(layers, keys) is None);
        if i > 0 {
            assert(first_bound(rest, keys) is None);
            assert(rest[i - 1] == layers[i]);
            assert(!any_prefix(rest, keys)) by {
                if any_prefix(rest, keys) {
                    let k = choose|k: int|
                        0 <= k < rest.len() && #[trigger] resolve(rest[k], keys) is Prefix;
                    assert(resolve(layers[k + 1], keys) is Prefix);
                }
            }
            law_unbound_is_unbound_everywhere(rest, keys, i - 1);
        }
    }
}

/// While a sequence is in progress some key leads on from it, so that its hints are never empty.
pub proof fn law_pending_leads_on(
    layers: Seq<Bindings>,
    keys: Seq<KeyPress>,
    rows: Seq<(KeyPress, Seq<char>)>,
)
    requires
        keys.len() > 0,
        resolve_layers(layers, keys) is Pending,
        are_hints(layers, keys, rows),
    ensures
        rows.len() > 0,
{
    let i = choose|i: int| 0 <= i < layers.len() && #[trigger] resolve(layers[i], keys) is Prefix;
    let rest = choose|rest: Seq<KeyPress>|
        rest.len() > 0 && #[trigger] layers[i].dom().contains(keys + rest);
    let key = rest[0];
    let tail = rest.drop_first();
    assert(keys + rest =~= keys.push(key) + tail);
    assert(layers[i].dom().contains(keys.push(key) + tail));
    if tail.len() == 0 {
        assert(keys.push(key) + tail =~= keys.push(key));
    }
    lemma_layer_shows(layers, keys.push(key), i);
    assert(listed(rows, key));
}

} // verus!
