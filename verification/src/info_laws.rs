//! What is read out of an Info file, and where following its links leads.

use crate::info::{field, find, is_local, menu_ref, node_index, node_of, Node, Reader};
use crate::search::{law_first_occurrence_is_found, occurs_at};
use crate::text::{find_char, law_find_char_is_first, split, trim};
use vstd::prelude::*;

verus! {

/// A menu entry with two colons leads to the node that it names.
pub proof fn law_double_colon_names_its_node(name: Seq<char>, rest: Seq<char>, line: nat)
    requires
        forall|k: int| 0 <= k < name.len() ==> !(#[trigger] occurs_at(name + "::"@ + rest, "::"@, k)),
        is_local(trim(name)),
    ensures
        ({
            let entry = menu_ref(name + "::"@ + rest, line);
            &&& entry matches Some(r) && r.label == trim(name) && r.target == trim(name) && r.line == line && r.menu
        }),
{
    reveal_strlit("::");
    assert("::"@.len() == 2);
    let t = name + "::"@ + rest;
    let n = name.len() as int;
    assert(t.subrange(n, n + 2) =~= "::"@);
    assert(occurs_at(t, "::"@, n));
    law_first_occurrence_is_found(t, "::"@, n);
    assert(t.take(n) =~= name);
}

/// A menu entry with one colon has a label before it, and leads to the node named between the colon
/// and the full stop.
pub proof fn law_single_colon_names_label_and_node(
    label: Seq<char>,
    name: Seq<char>,
    rest: Seq<char>,
    line: nat,
)
    requires
        forall|k: int| 0 <= k ==> !(#[trigger] occurs_at(label + ": "@ + (name + seq!['.'] + rest), "::"@, k)),
        forall|k: int|
            0 <= k < label.len() ==> !(#[trigger] occurs_at(label + ": "@ + (name + seq!['.'] + rest), ": "@, k)),
        forall|k: int| 0 <= k < name.len() ==> #[trigger] name[k] != '.',
        is_local(trim(name)),
    ensures
        ({
            let entry = menu_ref(label + ": "@ + (name + seq!['.'] + rest), line);
            &&& entry matches Some(r) && r.label == trim(label) && r.target == trim(name) && r.line == line && r.menu
        }),
{
    reveal_strlit("::");
    reveal_strlit(": ");
    assert("::"@.len() == 2);
    assert(": "@.len() == 2);
    let after = name + seq!['.'] + rest;
    let t = label + ": "@ + after;
    let n = label.len() as int;
    law_first_occurrence_is_found(t, "::"@, t.len() as int);
    assert(t.subrange(n, n + 2) =~= ": "@);
    assert(occurs_at(t, ": "@, n));
    law_first_occurrence_is_found(t, ": "@, n);
    assert(t.take(n) =~= label);
    assert(t.skip(n + 2) =~= after);
    law_find_char_is_first(after, '.', 0);
    let m = name.len() as int;
    assert(after[m] == '.');
    let p = find_char(after, '.', 0);
    assert(p == m) by {
        if p < m {
            assert(after[p] == name[p]);
        }
    }
    assert(after.take(m) =~= name);
}

/// A field of a header is found by its name: what stands behind the colon, without the white space
/// around it.
pub proof fn law_field_is_found_by_name(
    fields: Seq<Seq<char>>,
    key: Seq<char>,
    value: Seq<char>,
    n: nat,
    k: int,
)
    requires
        0 <= k < n <= fields.len(),
        trim(fields[k]) == key + ": "@ + value,
        forall|j: int| 0 <= j < key.len() ==> !(#[trigger] occurs_at(key + ": "@ + value, ": "@, j)),
        forall|j: int|
            k < j < n ==> find(trim(#[trigger] fields[j]), ": "@) < 0 || trim(fields[j]).take(
                find(trim(fields[j]), ": "@),
            ) != key,
    ensures
        field(fields, key, n) == Some(trim(value)),
    decreases n,
{
    if k == n - 1 {
        reveal_strlit(": ");
        assert(": "@.len() == 2);
        let f = key + ": "@ + value;
        let p = key.len() as int;
        assert(f.subrange(p, p + 2) =~= ": "@);
        assert(occurs_at(f, ": "@, p));
        law_first_occurrence_is_found(f, ": "@, p);
        assert(f.take(p) =~= key);
        assert(f.skip(p + 2) =~= value);
    } else {
        let f = trim(fields[n - 1]);
        assert(find(f, ": "@) < 0 || f.take(find(f, ": "@)) != key);
        law_field_is_found_by_name(fields, key, value, (n - 1) as nat, k);
    }
}

/// The links of a node come from the fields of their names, and a link into another file is none.
pub proof fn law_links_come_from_their_fields(header: Seq<char>, body: Seq<char>, value: Seq<char>)
    ensures
        ({
            let fields = split(header, ',', 0);
            let n = fields.len();
            let node = node_of(header, body);
            let link = if value.len() > 0 && value[0] != '(' {
                Some(value)
            } else {
                None
            };
            &&& node.body == body
            &&& field(fields, "Node"@, n) == Some(value) ==> node.name == value
            &&& field(fields, "Next"@, n) == Some(value) ==> node.next == link
            &&& field(fields, "Prev"@, n) == Some(value) ==> node.prev == link
            &&& field(fields, "Up"@, n) == Some(value) ==> node.up == link
            &&& field(fields, "Next"@, n) is None ==> node.next is None
            &&& field(fields, "Prev"@, n) is None ==> node.prev is None
            &&& field(fields, "Up"@, n) is None ==> node.up is None
        }),
{
}

proof fn lemma_node_index(nodes: Seq<Node>, name: Seq<char>, i: int, k: int)
    requires
        0 <= i <= k < nodes.len(),
        nodes[k].name == name,
    ensures
        i <= node_index(nodes, name, i) <= k,
        nodes[node_index(nodes, name, i)].name == name,
    decreases k - i,
{
    if nodes[i].name != name {
        lemma_node_index(nodes, name, i + 1, k);
    }
}

proof fn lemma_no_node(nodes: Seq<Node>, name: Seq<char>, i: int)
    requires
        0 <= i,
        forall|k: int| i <= k < nodes.len() ==> (#[trigger] nodes[k]).name != name,
    ensures
        node_index(nodes, name, i) == -1,
    decreases nodes.len() - i,
{
    if i < nodes.len() {
        lemma_no_node(nodes, name, i + 1);
    }
}

/// Following a link leads to the node of its name, at its top, and the node that was left is the one
/// to go back to. A link to a node that is not there leads nowhere.
pub proof fn law_links_lead_to_their_node(r: Reader, name: Seq<char>, k: int)
    requires
        r.wf(),
        r.nodes.len() > 0,
    ensures
        ({
            let x = r.following(Some(name));
            &&& 0 <= k < r.nodes.len() && r.nodes[k].name == name && r.nodes[r.current as int].name != name ==> {
                &&& x.node() matches Some(node) && node.name == name
                &&& x.scroll == 0 && x.selected == 0
                &&& x.history.len() == r.history.len() + 1
                &&& x.history.last() == r.current
            }
            &&& (forall|i: int| 0 <= i < r.nodes.len() ==> (#[trigger] r.nodes[i]).name != name) ==> x == r
        }),
{
    if 0 <= k < r.nodes.len() && r.nodes[k].name == name {
        lemma_node_index(r.nodes, name, 0, k);
    }
    if forall|i: int| 0 <= i < r.nodes.len() ==> (#[trigger] r.nodes[i]).name != name {
        lemma_no_node(r.nodes, name, 0);
    }
}

/// The selected reference is brought into view, and the text scrolls no further than it has to.
pub proof fn law_selected_reference_is_in_view(r: Reader, node: Node)
    requires
        r.node() == Some(node),
        r.selected < node.refs.len(),
        r.rows > 0,
    ensures
        ({
            let line = node.refs[r.selected as int].line;
            let x = r.revealed();
            &&& x.scroll <= line < x.scroll + r.rows
            &&& r.scroll <= line < r.scroll + r.rows ==> x.scroll == r.scroll
            &&& line < r.scroll ==> x.scroll == line
            &&& line >= r.scroll + r.rows ==> x.scroll + r.rows == line + 1
            &&& x.selected == r.selected && x.current == r.current
            &&& r.selected_target() == Some(node.refs[r.selected as int].target)
        }),
{
}

} // verus!
