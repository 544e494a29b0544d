//! A reader for GNU Info documents.
//!
//! An Info file is a sequence of nodes separated by the control character `U+001F`. Each node opens
//! with a header line, such as `File: f,  Node: N,  Next: X,  Prev: Y,  Up: Z`, followed by its
//! body, which may hold a `* Menu:` of `* Item::` entries and inline `*note Target::` references.
//! [`InfoDocument`] parses that structure; [`InfoReader`] drives navigation and draws the current
//! node. References to other files are shown but not followed.

use crate::popup::{least, most};
use crate::search::{find_from, next_occurrence, occurs_at};
use crate::surface::{Canvas, Rect, Style, Surface, Theme};
use crate::text::{
    chars_are, chars_of, find_char, find_char_from, has_prefix, leading_white, lines, lines_of,
    same_text, slice_of, split, split_at_char, starts_with, string_of, texts, trim, trim_bounds,
    trim_start, trimmed,
};
use vstd::prelude::*;

verus! {

/// A navigable reference within a node: a menu entry or an inline cross-reference.
#[derive(Clone, Debug, PartialEq, Eq)]
pub struct Reference {
    /// The text shown: the label of the menu entry, or the name of the node referred to.
    pub label: String,
    /// The name of the node that this refers to.
    pub target: String,
    /// The line of the body that the reference stands on.
    pub line: usize,
    /// The column, in characters, at which it starts; 0 for a menu entry.
    pub column: usize,
    /// Its length in characters; 0 for a menu entry, which takes its whole line.
    pub length: usize,
    /// Whether it is a menu entry.
    pub menu: bool,
}

/// The contents of a [`Reference`].
pub struct Ref {
    /// The text shown.
    pub label: Seq<char>,
    /// The name of the node referred to.
    pub target: Seq<char>,
    /// Its line.
    pub line: nat,
    /// Its column.
    pub column: nat,
    /// Its length.
    pub length: nat,
    /// Whether it is a menu entry.
    pub menu: bool,
}

impl View for Reference {
    type V = Ref;

    open spec fn view(&self) -> Ref {
        Ref {
            label: self.label@,
            target: self.target@,
            line: self.line as nat,
            column: self.column as nat,
            length: self.length as nat,
            menu: self.menu,
        }
    }
}

/// The contents of a list of references.
pub open spec fn refs_view(v: Seq<Reference>) -> Seq<Ref> {
    v.map_values(|r: Reference| r@)
}

/// Whether a target lies in this file: it is named, and not in another file.
pub open spec fn is_local(target: Seq<char>) -> bool {
    target.len() > 0 && target[0] != '('
}

/// The first index at which `part` stands in `t`, or -1.
pub open spec fn find(t: Seq<char>, part: Seq<char>) -> int {
    next_occurrence(t, part, 0)
}

/// The reference that the text behind `* ` of a menu line makes: `Node::  desc`, or
/// `Label: Node.  desc`.
pub open spec fn menu_ref(rest: Seq<char>, line: nat) -> Option<Ref> {
    let double = find(rest, "::"@);
    let single = find(rest, ": "@);
    if double < 0 && single < 0 {
        None
    } else {
        let label = if double >= 0 {
            trim(rest.take(double))
        } else {
            trim(rest.take(single))
        };
        let after = rest.skip(single + 2);
        let target = if double >= 0 {
            label
        } else {
            trim(after.take(find_char(after, '.', 0)))
        };
        if is_local(target) {
            Some(Ref { label, target, line, column: 0, length: 0, menu: true })
        } else {
            None
        }
    }
}

/// Whether an inline reference starts at the index `i`.
pub open spec fn note_at(t: Seq<char>, i: int) -> bool {
    occurs_at(t, "*note"@, i) || occurs_at(t, "*Note"@, i)
}

/// The first index from `i` on at which an inline reference starts, or the length.
pub open spec fn next_note(t: Seq<char>, i: int) -> int
    decreases t.len() - i,
{
    if i >= t.len() || note_at(t, i) {
        i
    } else {
        next_note(t, i + 1)
    }
}

/// The inline references of a line, from the index `from` on.
pub open spec fn xrefs(t: Seq<char>, line: nat, from: int) -> Seq<Ref>
    decreases t.len() - from,
{
    let start = next_note(t, from);
    if start < from || start + 5 > t.len() {
        Seq::empty()
    } else {
        let after = t.skip(start + 5);
        let white = leading_white(after);
        let rest = trim_start(after);
        let end = find(rest, "::"@);
        if white > 0 && end >= 0 {
            let target = trim(rest.take(end));
            let next = start + 5 + white + end + 2;
            let here = if is_local(target) {
                seq![
                    Ref {
                        label: target,
                        target,
                        line,
                        column: start as nat,
                        length: (5 + white + end + 2) as nat,
                        menu: false,
                    },
                ]
            } else {
                Seq::empty()
            };
            if next <= t.len() {
                here + xrefs(t, line, next)
            } else {
                here
            }
        } else {
            xrefs(t, line, start + 5)
        }
    }
}

/// Whether one of the first `n` lines opens the menu.
pub open spec fn in_menu(ls: Seq<Seq<char>>, n: int) -> bool {
    exists|k: int| 0 <= k < n && trim(#[trigger] ls[k]) == "* Menu:"@
}

/// The menu entries among the first `n` lines of a body.
pub open spec fn menu_refs(ls: Seq<Seq<char>>, n: nat) -> Seq<Ref>
    decreases n,
{
    if n == 0 {
        Seq::empty()
    } else {
        let i = (n - 1) as nat;
        let line = ls[i as int];
        let before = menu_refs(ls, i);
        if trim(line) != "* Menu:"@ && in_menu(ls, i as int) && starts_with(line, "* "@) {
            match menu_ref(line.skip(2), i) {
                Some(entry) => before.push(entry),
                None => before,
            }
        } else {
            before
        }
    }
}

/// The inline references of the first `n` lines of a body.
pub open spec fn body_xrefs(ls: Seq<Seq<char>>, n: nat) -> Seq<Ref>
    decreases n,
{
    if n == 0 {
        Seq::empty()
    } else {
        body_xrefs(ls, (n - 1) as nat) + xrefs(ls[n - 1], (n - 1) as nat, 0)
    }
}

/// Whether one reference stands before another in the text.
pub open spec fn ref_before(a: Ref, b: Ref) -> bool {
    a.line < b.line || (a.line == b.line && a.column < b.column)
}

/// References in reading order with one more, behind all those that it does not stand before.
pub open spec fn place(sorted: Seq<Ref>, r: Ref) -> Seq<Ref>
    decreases sorted.len(),
{
    if sorted.len() > 0 && ref_before(r, sorted.last()) {
        place(sorted.drop_last(), r).push(sorted.last())
    } else {
        sorted.push(r)
    }
}

/// References in reading order; those at one place keep their order.
pub open spec fn in_reading_order(refs: Seq<Ref>) -> Seq<Ref>
    decreases refs.len(),
{
    if refs.len() == 0 {
        Seq::empty()
    } else {
        place(in_reading_order(refs.drop_last()), refs.last())
    }
}

/// The references of a body, in reading order.
pub open spec fn body_refs(body: Seq<char>) -> Seq<Ref> {
    let ls = lines(body);
    in_reading_order(menu_refs(ls, ls.len()) + body_xrefs(ls, ls.len()))
}

/// The value of the last of the first `n` header fields with a key.
pub open spec fn field(fields: Seq<Seq<char>>, key: Seq<char>, n: nat) -> Option<Seq<char>>
    decreases n,
{
    if n == 0 {
        None
    } else {
        let f = trim(fields[n - 1]);
        let p = find(f, ": "@);
        if p >= 0 && f.take(p) == key {
            Some(trim(f.skip(p + 2)))
        } else {
            field(fields, key, (n - 1) as nat)
        }
    }
}

/// A link, unless it leads to another file or nowhere.
pub open spec fn local_link(value: Option<Seq<char>>) -> Option<Seq<char>> {
    match value {
        Some(v) => if is_local(v) {
            Some(v)
        } else {
            None
        },
        None => None,
    }
}

/// The contents of an [`InfoNode`].
pub struct Node {
    /// The name.
    pub name: Seq<char>,
    /// The name of the next node, if there is one in this file.
    pub next: Option<Seq<char>>,
    /// The name of the previous node, if there is one in this file.
    pub prev: Option<Seq<char>>,
    /// The name of the node above, if there is one in this file.
    pub up: Option<Seq<char>>,
    /// The body.
    pub body: Seq<char>,
    /// The references in the body, in reading order.
    pub refs: Seq<Ref>,
}

/// The node that a header line and a body make.
pub open spec fn node_of(header: Seq<char>, body: Seq<char>) -> Node {
    let fields = split(header, ',', 0);
    Node {
        name: match field(fields, "Node"@, fields.len()) {
            Some(name) => name,
            None => Seq::empty(),
        },
        next: local_link(field(fields, "Next"@, fields.len())),
        prev: local_link(field(fields, "Prev"@, fields.len())),
        up: local_link(field(fields, "Up"@, fields.len())),
        body,
        refs: body_refs(body),
    }
}

/// How many line breaks `t` starts with.
pub open spec fn leading_newlines(t: Seq<char>) -> nat
    decreases t.len(),
{
    if t.len() > 0 && t[0] == '\n' {
        1 + leading_newlines(t.drop_first())
    } else {
        0
    }
}

/// The node of a chunk between separators, if the chunk is one: its first line is a header that
/// names a node.
pub open spec fn chunk_node(chunk: Seq<char>) -> Option<Node> {
    let t = chunk.skip(leading_newlines(chunk) as int);
    let end = find_char(t, '\n', 0);
    let header = t.take(end);
    let body = if end < t.len() {
        t.skip(end + 1)
    } else {
        Seq::empty()
    };
    if starts_with(header, "File:"@) && find(header, "Node:"@) >= 0 && node_of(
        header,
        body,
    ).name.len() > 0 {
        Some(node_of(header, body))
    } else {
        None
    }
}

/// The nodes of the first `n` chunks.
pub open spec fn nodes_of(chunks: Seq<Seq<char>>, n: nat) -> Seq<Node>
    decreases n,
{
    if n == 0 {
        Seq::empty()
    } else {
        match chunk_node(chunks[n - 1]) {
            Some(node) => nodes_of(chunks, (n - 1) as nat).push(node),
            None => nodes_of(chunks, (n - 1) as nat),
        }
    }
}

/// The nodes of an Info text, in file order.
pub open spec fn parsed(text: Seq<char>) -> Seq<Node> {
    let chunks = split(text, '\u{1f}', 0);
    nodes_of(chunks, chunks.len())
}

/// One Info node: its name, navigation links, body and references.
#[derive(Clone, Debug)]
pub struct InfoNode {
    /// The node's name.
    pub name: String,
    /// The name of the next node, if there is one in this file.
    pub next: Option<String>,
    /// The name of the previous node, if there is one in this file.
    pub prev: Option<String>,
    /// The name of the node above, if there is one in this file.
    pub up: Option<String>,
    /// The node's body: everything behind the header line.
    pub body: String,
    /// The references in the body, in reading order.
    pub refs: Vec<Reference>,
}

impl View for InfoNode {
    type V = Node;

    open spec fn view(&self) -> Node {
        Node {
            name: self.name@,
            next: crate::document::opt_text(self.next),
            prev: crate::document::opt_text(self.prev),
            up: crate::document::opt_text(self.up),
            body: self.body@,
            refs: refs_view(self.refs@),
        }
    }
}

/// The contents of a list of nodes.
pub open spec fn nodes_view(v: Seq<InfoNode>) -> Seq<Node> {
    v.map_values(|n: InfoNode| n@)
}

fn local(target: &[char]) -> (r: bool)
    ensures
        r == is_local(target@),
{
    target.len() > 0 && target[0] != '('
}

impl Reference {
    /// The reference that the text behind `* ` of a menu line makes, if any.
    pub fn menu(rest: &[char], line: usize) -> (r: Option<Self>)
        ensures
            match r {
                Some(reference) => menu_ref(rest@, line as nat) == Some(reference@),
                None => menu_ref(rest@, line as nat) is None,
            },
    {
        let double = chars_of("::");
        let single = chars_of(": ");
        let label: Vec<char>;
        let target: Vec<char>;
        match find_from(rest, double.as_slice(), 0) {
            Some(p) => {
                let head = slice_of(rest, 0, p);
                assert(head@ =~= rest@.take(p as int));
                label = trimmed(head.as_slice());
                target = trimmed(head.as_slice());
            },
            None => {
                match find_from(rest, single.as_slice(), 0) {
                    Some(p) => {
                        let head = slice_of(rest, 0, p);
                        assert(head@ =~= rest@.take(p as int));
                        label = trimmed(head.as_slice());
                        proof {
                            reveal_strlit(": ");
                        }
                        let n = rest.len();
                        let after = slice_of(rest, p + 2, n);
                        assert(after@ =~= rest@.skip(p + 2));
                        let end = find_char_from(after.as_slice(), '.', 0);
                        let name = slice_of(after.as_slice(), 0, end);
                        assert(name@ =~= after@.take(end as int));
                        target = trimmed(name.as_slice());
                    },
                    None => {
                        return None;
                    },
                }
            },
        }
        if !local(target.as_slice()) {
            return None;
        }
        Some(
            Reference {
                label: string_of(label.as_slice()),
                target: string_of(target.as_slice()),
                line,
                column: 0,
                length: 0,
                menu: true,
            },
        )
    }
}

/// The next index from `from` on at which an inline reference starts, if there is one.
fn find_note(t: &[char], from: usize) -> (r: Option<usize>)
    requires
        from <= t@.len(),
    ensures
        match r {
            Some(p) => p == next_note(t@, from as int) && from <= p && p + 5 <= t@.len(),
            None => next_note(t@, from as int) == t@.len(),
        },
{
    let lower = chars_of("*note");
    let upper = chars_of("*Note");
    proof {
        reveal_strlit("*note");
        reveal_strlit("*Note");
    }
    let mut i: usize = from;
    while i < t.len()
        invariant
            from <= i <= t@.len(),
            lower@ == "*note"@,
            upper@ == "*Note"@,
            "*note"@.len() == 5,
            "*Note"@.len() == 5,
            next_note(t@, from as int) == next_note(t@, i as int),
        decreases t@.len() - i,
    {
        if t.len() - i >= 5 {
            let tail = slice_of(t, i, i + 5);
            assert(tail@ =~= t@.subrange(i as int, i + 5));
            let hit = chars_are(tail.as_slice(), "*note") || chars_are(tail.as_slice(), "*Note");
            if hit {
                assert(note_at(t@, i as int));
                return Some(i);
            }
        }
        assert(!note_at(t@, i as int));
        i += 1;
    }
    None
}

/// Appends the inline references of a line.
fn parse_xrefs(t: &[char], line: usize, out: &mut Vec<Reference>)
    ensures
        refs_view(final(out)@) == refs_view(old(out)@) + xrefs(t@, line as nat, 0),
{
    let double = chars_of("::");
    proof {
        reveal_strlit("::");
    }
    let ghost before = refs_view(out@);
    let ghost all = xrefs(t@, line as nat, 0);
    let mut search: usize = 0;
    assert(refs_view(out@) + all == before + all);
    while search <= t.len()
        invariant
            search <= t@.len(),
            double@ == "::"@,
            "::"@.len() == 2,
            before == refs_view(old(out)@),
            all == xrefs(t@, line as nat, 0),
            refs_view(out@) + xrefs(t@, line as nat, search as int) == before + all,
        decreases t@.len() - search,
    {
        let start = match find_note(t, search) {
            Some(start) => start,
            None => {
                assert(xrefs(t@, line as nat, search as int) =~= Seq::empty());
                assert(refs_view(out@) + Seq::<Ref>::empty() =~= refs_view(out@));
                return ;
            },
        };
        let after = slice_of(t, start + 5, t.len());
        assert(after@ =~= t@.skip(start + 5));
        let (white, _) = trim_bounds(after.as_slice());
        let rest = slice_of(after.as_slice(), white, after.len());
        proof {
            assert(rest@ =~= after@.skip(white as int));
            crate::text::lemma_leading_bound(after@);
            assert(trim_start(after@) == rest@);
            assert(rest@.len() == after@.len() - leading_white(after@));
        }
        let ghost so_far = refs_view(out@);
        if white > 0 {
            match find_from(rest.as_slice(), double.as_slice(), 0) {
                Some(end) => {
                    let head = slice_of(rest.as_slice(), 0, end);
                    assert(head@ =~= rest@.take(end as int));
                    let target = trimmed(head.as_slice());
                    let length: usize = 5 + white + end + 2;
                    let next: usize = start + length;
                    let ghost tail = xrefs(t@, line as nat, next as int);
                    if local(target.as_slice()) {
                        let reference = Reference {
                            label: string_of(target.as_slice()),
                            target: string_of(target.as_slice()),
                            line,
                            column: start,
                            length,
                            menu: false,
                        };
                        let ghost one = reference@;
                        out.push(reference);
                        assert(refs_view(out@) =~= so_far.push(one));
                        assert(xrefs(t@, line as nat, search as int) == seq![one] + tail);
                        assert(refs_view(out@) + tail =~= so_far + (seq![one] + tail));
                    } else {
                        assert(xrefs(t@, line as nat, search as int) == Seq::<Ref>::empty() + tail);
                        assert(refs_view(out@) + tail =~= so_far + (Seq::<Ref>::empty() + tail));
                    }
                    search = next;
                },
                None => {
                    search = start + 5;
                },
            }
        } else {
            search = start + 5;
        }
    }
}

/// The menu entries of a body.
fn parse_menu(ls: &[Vec<char>]) -> (r: Vec<Reference>)
    ensures
        refs_view(r@) == menu_refs(texts(ls@), ls@.len()),
{
    let ghost all = texts(ls@);
    let mut entries: Vec<Reference> = Vec::new();
    let mut open = false;
    let mut i: usize = 0;
    assert(refs_view(entries@) =~= Seq::empty());
    proof {
        reveal_strlit("* ");
    }
    while i < ls.len()
        invariant
            i <= ls@.len(),
            all == texts(ls@),
            open == in_menu(all, i as int),
            refs_view(entries@) == menu_refs(all, i as nat),
            "* "@.len() == 2,
        decreases ls@.len() - i,
    {
        let line = &ls[i];
        assert(all[i as int] == line@);
        let opens = chars_are(trimmed(line.as_slice()).as_slice(), "* Menu:");
        if opens {
            assert(trim(all[i as int]) == "* Menu:"@);
            open = true;
        } else {
            if open && has_prefix(line.as_slice(), "* ") {
                let rest = slice_of(line.as_slice(), 2, line.len());
                assert(rest@ =~= line@.skip(2));
                if let Some(entry) = Reference::menu(rest.as_slice(), i) {
                    let ghost before = refs_view(entries@);
                    let ghost one = entry@;
                    entries.push(entry);
                    assert(refs_view(entries@) =~= before.push(one));
                }
            }
            assert(in_menu(all, i + 1) == in_menu(all, i as int)) by {
                if in_menu(all, i + 1) {
                    let k = choose|k: int|
                        0 <= k < i + 1 && trim(#[trigger] all[k]) == "* Menu:"@;
                    assert(k < i);
                }
                if in_menu(all, i as int) {
                    let k = choose|k: int| 0 <= k < i && trim(#[trigger] all[k]) == "* Menu:"@;
                    assert(trim(all[k]) == "* Menu:"@);
                }
            }
        }
        i += 1;
    }
    entries
}

fn place_ref(list: &mut Vec<Reference>, r: Reference)
    ensures
        refs_view(final(list)@) == place(refs_view(old(list)@), r@),
{
    let mut i: usize = list.len();
    let ghost all = refs_view(list@);
    let ghost one = r@;
    proof {
        assert(all.take(i as int) =~= all);
        assert(place(all, one) =~= place(all.take(i as int), one) + all.skip(i as int));
    }
    while i > 0 && (r.line < list[i - 1].line || (r.line == list[i - 1].line && r.column
        < list[i - 1].column))
        invariant
            i <= list@.len(),
            one == r@,
            all == refs_view(list@),
            place(all, one) == place(all.take(i as int), one) + all.skip(i as int),
        decreases i,
    {
        proof {
            let head = all.take(i as int);
            assert(head.last() == list@[i - 1]@);
            assert(head.drop_last() =~= all.take(i - 1));
            assert(place(head, one) + all.skip(i as int) =~= place(all.take(i - 1), one) + all.skip(
                i - 1,
            ));
        }
        i -= 1;
    }
    proof {
        let head = all.take(i as int);
        if i > 0 {
            assert(head.last() == list@[i - 1]@);
        }
        assert(place(head, one) == head.push(one));
    }
    list.insert(i, r);
    assert(refs_view(list@) =~= all.take(i as int).push(one) + all.skip(i as int));
}

/// The references of a body, in reading order.
fn parse_refs(body: &[char]) -> (r: Vec<Reference>)
    ensures
        refs_view(r@) == body_refs(body@),
{
    let ls = lines_of(body);
    let ghost all = texts(ls@);
    let mut refs = parse_menu(ls.as_slice());
    let ghost menu = refs_view(refs@);
    let mut i: usize = 0;
    assert(menu + body_xrefs(all, 0) =~= menu);
    while i < ls.len()
        invariant
            i <= ls@.len(),
            all == texts(ls@),
            refs_view(refs@) == menu + body_xrefs(all, i as nat),
        decreases ls@.len() - i,
    {
        parse_xrefs(ls[i].as_slice(), i, &mut refs);
        assert(refs_view(refs@) =~= menu + body_xrefs(all, i as nat + 1));
        i += 1;
    }
    let ghost unsorted = refs_view(refs@);
    let mut sorted: Vec<Reference> = Vec::new();
    assert(refs_view(sorted@) =~= Seq::empty());
    let ghost mut done: int = 0;
    assert(unsorted.take(0) =~= Seq::empty());
    assert(unsorted.skip(0) =~= unsorted);
    for r in it: refs
        invariant
            unsorted == refs_view(it.seq()),
            refs_view(sorted@) == in_reading_order(unsorted.take(it.index() as int)),
    {
        let ghost n = it.index() as int;
        assert(unsorted.take(n + 1).drop_last() =~= unsorted.take(n));
        assert(unsorted.take(n + 1).last() == r@);
        place_ref(&mut sorted, r);
    }
    assert(unsorted.take(unsorted.len() as int) =~= unsorted);
    sorted
}

/// The value of the last header field with a key.
fn find_field(fields: &[Vec<char>], key: &str) -> (r: Option<Vec<char>>)
    ensures
        match r {
            Some(v) => field(texts(fields@), key@, fields@.len()) == Some(v@),
            None => field(texts(fields@), key@, fields@.len()) is None,
        },
{
    let sep = chars_of(": ");
    proof {
        reveal_strlit(": ");
    }
    let ghost all = texts(fields@);
    let mut n: usize = fields.len();
    while n > 0
        invariant
            n <= fields@.len(),
            all == texts(fields@),
            sep@ == ": "@,
            ": "@.len() == 2,
            field(all, key@, fields@.len()) == field(all, key@, n as nat),
        decreases n,
    {
        let f = trimmed(fields[n - 1].as_slice());
        assert(f@ == trim(all[n - 1]));
        if let Some(p) = find_from(f.as_slice(), sep.as_slice(), 0) {
            let name = slice_of(f.as_slice(), 0, p);
            assert(name@ =~= f@.take(p as int));
            if chars_are(name.as_slice(), key) {
                let len = f.len();
                let value = slice_of(f.as_slice(), p + 2, len);
                assert(value@ =~= f@.skip(p + 2));
                return Some(trimmed(value.as_slice()));
            }
        }
        n -= 1;
    }
    None
}

/// A link of the header, unless it leads to another file or nowhere.
fn find_link(fields: &[Vec<char>], key: &str) -> (r: Option<String>)
    ensures
        crate::document::opt_text(r) == local_link(field(texts(fields@), key@, fields@.len())),
{
    match find_field(fields, key) {
        Some(v) => if local(v.as_slice()) {
            Some(string_of(v.as_slice()))
        } else {
            None
        },
        None => None,
    }
}

impl InfoNode {
    /// Parses a node from its header line and body.
    pub fn parse(header: &[char], body: &[char]) -> (r: Self)
        ensures
            r@ == node_of(header@, body@),
    {
        let fields = split_at_char(header, ',');
        assert(fields@.len() == texts(fields@).len());
        let name = match find_field(fields.as_slice(), "Node") {
            Some(name) => string_of(name.as_slice()),
            None => String::new(),
        };
        InfoNode {
            name,
            next: find_link(fields.as_slice(), "Next"),
            prev: find_link(fields.as_slice(), "Prev"),
            up: find_link(fields.as_slice(), "Up"),
            body: string_of(body),
            refs: parse_refs(body),
        }
    }
}

/// The node of a chunk between separators, if the chunk is one.
fn parse_chunk(chunk: &[char]) -> (r: Option<InfoNode>)
    ensures
        match r {
            Some(node) => chunk_node(chunk@) == Some(node@),
            None => chunk_node(chunk@) is None,
        },
{
    let mut from: usize = 0;
    assert(chunk@.skip(0) =~= chunk@);
    while from < chunk.len() && chunk[from] == '\n'
        invariant
            from <= chunk@.len(),
            leading_newlines(chunk@) == from + leading_newlines(chunk@.skip(from as int)),
        decreases chunk@.len() - from,
    {
        assert(chunk@.skip(from as int).drop_first() =~= chunk@.skip(from + 1));
        from += 1;
    }
    let t = slice_of(chunk, from, chunk.len());
    assert(t@ =~= chunk@.skip(from as int));
    let end = find_char_from(t.as_slice(), '\n', 0);
    let header = slice_of(t.as_slice(), 0, end);
    assert(header@ =~= t@.take(end as int));
    let body: Vec<char> = if end < t.len() {
        slice_of(t.as_slice(), end + 1, t.len())
    } else {
        Vec::new()
    };
    assert(body@ =~= if end < t@.len() {
        t@.skip(end + 1)
    } else {
        Seq::empty()
    });
    let marker = chars_of("Node:");
    if !has_prefix(header.as_slice(), "File:") || find_from(
        header.as_slice(),
        marker.as_slice(),
        0,
    ).is_none() {
        return None;
    }
    let node = InfoNode::parse(header.as_slice(), body.as_slice());
    if node.name.as_str().is_empty() {
        None
    } else {
        Some(node)
    }
}

/// A parsed Info document: its nodes in file order.
#[derive(Clone, Debug)]
pub struct InfoDocument {
    nodes: Vec<InfoNode>,
}

impl View for InfoDocument {
    type V = Seq<Node>;

    closed spec fn view(&self) -> Seq<Node> {
        nodes_view(self.nodes@)
    }
}

/// The index of the first node with a name, from the index `i` on, or -1.
pub open spec fn node_index(nodes: Seq<Node>, name: Seq<char>, i: int) -> int
    decreases nodes.len() - i,
{
    if i < 0 || i >= nodes.len() {
        -1
    } else if nodes[i].name == name {
        i
    } else {
        node_index(nodes, name, i + 1)
    }
}

impl InfoDocument {
    /// Parses Info `text` into its nodes. What is no node (the preamble, the tag table) is skipped.
    pub fn parse(text: &str) -> (r: Self)
        ensures
            r@ == parsed(text@),
    {
        let t = chars_of(text);
        let chunks = split_at_char(t.as_slice(), '\u{1f}');
        let ghost all = texts(chunks@);
        let mut nodes: Vec<InfoNode> = Vec::new();
        let mut i: usize = 0;
        assert(nodes_view(nodes@) =~= Seq::empty());
        while i < chunks.len()
            invariant
                i <= chunks@.len(),
                all == texts(chunks@),
                nodes_view(nodes@) == nodes_of(all, i as nat),
            decreases chunks@.len() - i,
        {
            assert(all[i as int] == chunks@[i as int]@);
            if let Some(node) = parse_chunk(chunks[i].as_slice()) {
                let ghost before = nodes_view(nodes@);
                let ghost one = node@;
                nodes.push(node);
                assert(nodes_view(nodes@) =~= before.push(one));
            }
            i += 1;
        }
        InfoDocument { nodes }
    }

    /// The number of nodes.
    pub fn len(&self) -> (r: usize)
        ensures
            r == self@.len(),
    {
        self.nodes.len()
    }

    /// Whether the document has no nodes.
    pub fn is_empty(&self) -> (r: bool)
        ensures
            r == (self@.len() == 0),
    {
        self.nodes.len() == 0
    }

    /// The node with an index, if there is one.
    pub fn node(&self, i: usize) -> (r: Option<&InfoNode>)
        ensures
            match r {
                Some(node) => i < self@.len() && node@ == self@[i as int],
                None => i >= self@.len(),
            },
    {
        if i < self.nodes.len() {
            Some(&self.nodes[i])
        } else {
            None
        }
    }

    /// The index of the first node with a name.
    pub fn position(&self, name: &str) -> (r: Option<usize>)
        ensures
            match r {
                Some(i) => i == node_index(self@, name@, 0) && i < self@.len(),
                None => node_index(self@, name@, 0) == -1,
            },
    {
        let mut i: usize = 0;
        while i < self.nodes.len()
            invariant
                i <= self.nodes@.len(),
                node_index(self@, name@, 0) == node_index(self@, name@, i as int),
            decreases self.nodes@.len() - i,
        {
            assert(self@[i as int] == self.nodes@[i as int]@);
            if same_text(self.nodes[i].name.as_str(), name) {
                return Some(i);
            }
            i += 1;
        }
        None
    }
}

/// An interactive Info reader: a document plus the current node, scroll offset, selected
/// reference and navigation history.
#[derive(Clone, Debug)]
pub struct InfoReader {
    doc: InfoDocument,
    title: String,
    current: usize,
    history: Vec<usize>,
    scroll: usize,
    ref_selected: usize,
    viewport_rows: usize,
}

/// The state of an [`InfoReader`].
pub struct Reader {
    /// The nodes of the document.
    pub nodes: Seq<Node>,
    /// The title shown.
    pub title: Seq<char>,
    /// The index of the current node.
    pub current: nat,
    /// The nodes visited before, the latest last.
    pub history: Seq<usize>,
    /// The first body line shown.
    pub scroll: nat,
    /// The index of the selected reference.
    pub selected: nat,
    /// How many body lines were shown last.
    pub rows: nat,
}

impl View for InfoReader {
    type V = Reader;

    closed spec fn view(&self) -> Reader {
        Reader {
            nodes: self.doc@,
            title: self.title@,
            current: self.current as nat,
            history: self.history@,
            scroll: self.scroll as nat,
            selected: self.ref_selected as nat,
            rows: self.viewport_rows as nat,
        }
    }
}

impl Reader {
    /// The current node and all those in the history are nodes of the document, if it has any.
    pub open spec fn wf(self) -> bool {
        &&& self.current <= usize::MAX
        &&& self.nodes.len() <= usize::MAX
        &&& self.nodes.len() > 0 ==> self.current < self.nodes.len()
        &&& forall|i: int|
            0 <= i < self.history.len() ==> (#[trigger] self.history[i]) < self.nodes.len()
    }

    /// The current node, if there is one.
    pub open spec fn node(self) -> Option<Node> {
        if self.current < self.nodes.len() {
            Some(self.nodes[self.current as int])
        } else {
            None
        }
    }

    /// At another node: its start, its first reference, and the node left behind in the history.
    pub open spec fn at(self, target: int) -> Reader {
        if 0 <= target < self.nodes.len() && target != self.current {
            Reader {
                current: target as nat,
                history: self.history.push(self.current as usize),
                scroll: 0,
                selected: 0,
                ..self
            }
        } else {
            self
        }
    }

    /// At the node with a name, if there is one.
    pub open spec fn at_name(self, name: Seq<char>) -> Reader {
        self.at(node_index(self.nodes, name, 0))
    }

    /// At the node that a link leads to, if it leads to one.
    pub open spec fn following(self, link: Option<Seq<char>>) -> Reader {
        match link {
            Some(name) => self.at_name(name),
            None => self,
        }
    }

    /// Back at the node visited before.
    pub open spec fn back(self) -> Reader {
        if self.history.len() > 0 {
            Reader {
                current: self.history.last() as nat,
                history: self.history.drop_last(),
                scroll: 0,
                selected: 0,
                ..self
            }
        } else {
            self
        }
    }

    /// Where the selected reference leads.
    pub open spec fn selected_target(self) -> Option<Seq<char>> {
        match self.node() {
            Some(node) => if self.selected < node.refs.len() {
                Some(node.refs[self.selected as int].target)
            } else {
                None
            },
            None => None,
        }
    }

    /// Scrolled so that the line of the selected reference is shown.
    pub open spec fn revealed(self) -> Reader {
        match self.node() {
            Some(node) => if self.selected < node.refs.len() {
                let line = node.refs[self.selected as int].line;
                Reader {
                    scroll: if line < self.scroll {
                        line
                    } else if self.rows > 0 && line >= self.scroll + self.rows {
                        (line + 1 - self.rows) as nat
                    } else {
                        self.scroll
                    },
                    ..self
                }
            } else {
                self
            },
            None => self,
        }
    }
}

/// The style of a body line: a menu entry is accented, and inverted when selected.
pub open spec fn line_style(refs: Seq<Ref>, line: nat, selected: nat, theme: Theme) -> Style {
    let i = menu_on_line(refs, line, 0);
    if i >= 0 && i == selected {
        theme.inverse()
    } else if i >= 0 {
        theme.accented()
    } else {
        theme.base_style()
    }
}

/// The index of the first menu entry on a line, from the index `i` on, or -1.
pub open spec fn menu_on_line(refs: Seq<Ref>, line: nat, i: int) -> int
    decreases refs.len() - i,
{
    if i < 0 || i >= refs.len() {
        -1
    } else if refs[i].menu && refs[i].line == line {
        i
    } else {
        menu_on_line(refs, line, i + 1)
    }
}

/// The first `n` characters of `t`, or all of them.
pub open spec fn clipped(t: Seq<char>, n: int) -> Seq<char> {
    t.take(least(t.len() as int, n))
}

/// The inline references of a line, from the index `i` on, drawn over it.
pub open spec fn draw_xrefs(
    c: Canvas,
    refs: Seq<Ref>,
    i: int,
    line: nat,
    text: Seq<char>,
    area: Rect,
    y: int,
    selected: nat,
    theme: Theme,
) -> Canvas
    decreases refs.len() - i,
{
    if i < 0 || i >= refs.len() {
        c
    } else {
        let r = refs[i];
        let d = if !r.menu && r.line == line && r.column < area.width {
            let from = least(r.column as int, text.len() as int);
            c.text(
                area.x + r.column as int,
                y,
                clipped(clipped(text.skip(from), r.length as int), area.width - r.column),
                if i == selected {
                    theme.inverse()
                } else {
                    theme.accented()
                },
            )
        } else {
            c
        };
        draw_xrefs(d, refs, i + 1, line, text, area, y, selected, theme)
    }
}

/// The body lines from the shown row `row` on drawn into `area`.
pub open spec fn draw_body(
    c: Canvas,
    node: Node,
    scroll: nat,
    row: nat,
    area: Rect,
    selected: nat,
    theme: Theme,
) -> Canvas
    decreases area.height - row,
{
    let ls = lines(node.body);
    let line = scroll + row;
    if row >= area.height || line >= ls.len() {
        c
    } else {
        let text = ls[line as int];
        let y = area.y + row as int;
        let d = c.text(
            area.x as int,
            y,
            clipped(text, area.width as int),
            line_style(node.refs, line, selected, theme),
        );
        draw_body(
            draw_xrefs(d, node.refs, 0, line, text, area, y, selected, theme),
            node,
            scroll,
            row + 1,
            area,
            selected,
            theme,
        )
    }
}

/// The header bar's text.
pub open spec fn header_text(r: Reader) -> Seq<char> {
    " Info: "@ + r.title + " — "@ + (match r.node() {
        Some(node) => node.name,
        None => "(no nodes)"@,
    }) + "    n/p/u nav · ↑↓ select · Enter follow · l back · q quit"@
}

/// The reader drawn over `c`: a header bar above the body of the current node.
pub open spec fn drawn(c: Canvas, r: Reader, area: Rect, theme: Theme) -> Canvas {
    if area.is_empty() {
        c
    } else {
        let (header, body) = area.top_split(1);
        let titled = c.blank(
            header.x as int,
            header.right_col(),
            header.y as int,
            theme.inverse(),
        ).text(
            header.x as int,
            header.y as int,
            clipped(header_text(r), header.width as int),
            theme.inverse(),
        );
        match r.node() {
            Some(node) => draw_body(titled, node, r.scroll, 0, body, r.selected, theme),
            None => titled,
        }
    }
}

/// The first `n` characters of `t`, or all of them.
fn clip(t: &[char], n: u32) -> (r: Vec<char>)
    ensures
        r@ == clipped(t@, n as int),
{
    let n: usize = if t.len() < n as usize {
        t.len()
    } else {
        n as usize
    };
    let r = slice_of(t, 0, n);
    assert(r@ =~= t@.take(n as int));
    r
}

impl InfoReader {
    /// Builds a reader over Info `text`, starting at its `Top` node or at the first one.
    pub fn from_text(text: &str, title: &str) -> (r: Self)
        ensures
            r@ == (Reader {
                nodes: parsed(text@),
                title: title@,
                current: most(node_index(parsed(text@), "Top"@, 0), 0) as nat,
                history: Seq::empty(),
                scroll: 0,
                selected: 0,
                rows: 0,
            }),
            r@.wf(),
    {
        let doc = InfoDocument::parse(text);
        let current: usize = match doc.position("Top") {
            Some(i) => i,
            None => 0,
        };
        assert(doc.nodes.len() <= usize::MAX);
        InfoReader {
            doc,
            title: title.to_owned(),
            current,
            history: Vec::new(),
            scroll: 0,
            ref_selected: 0,
            viewport_rows: 0,
        }
    }

    /// The current node, if the document has any.
    pub fn node(&self) -> (r: Option<&InfoNode>)
        ensures
            match r {
                Some(node) => self@.node() == Some(node@),
                None => self@.node() is None,
            },
    {
        self.doc.node(self.current)
    }

    fn go(&mut self, target: usize)
        requires
            old(self)@.wf(),
        ensures
            final(self)@ == old(self)@.at(target as int),
            final(self)@.wf(),
    {
        if target < self.doc.len() && target != self.current {
            self.history.push(self.current);
            self.current = target;
            self.scroll = 0;
            self.ref_selected = 0;
        }
        proof {
            law_navigation_stays_in_document(old(self)@, target as int);
        }
    }

    /// Goes to the node with a name; says whether there is one.
    pub fn goto(&mut self, name: &str) -> (r: bool)
        requires
            old(self)@.wf(),
        ensures
            final(self)@ == old(self)@.at_name(name@),
            r == (node_index(old(self)@.nodes, name@, 0) >= 0),
            final(self)@.wf(),
    {
        match self.doc.position(name) {
            Some(target) => {
                self.go(target);
                true
            },
            None => false,
        }
    }

    /// Follows the node's `Next` link, if it has one.
    pub fn next(&mut self)
        requires
            old(self)@.wf(),
        ensures
            final(self)@ == old(self)@.following(
                match old(self)@.node() {
                    Some(node) => node.next,
                    None => None,
                },
            ),
            final(self)@.wf(),
    {
        let link = match self.node() {
            Some(node) => crate::document::clone_opt(&node.next),
            None => None,
        };
        if let Some(name) = link {
            self.goto(name.as_str());
        }
    }

    /// Follows the node's `Prev` link, if it has one.
    pub fn prev(&mut self)
        requires
            old(self)@.wf(),
        ensures
            final(self)@ == old(self)@.following(
                match old(self)@.node() {
                    Some(node) => node.prev,
                    None => None,
                },
            ),
            final(self)@.wf(),
    {
        let link = match self.node() {
            Some(node) => crate::document::clone_opt(&node.prev),
            None => None,
        };
        if let Some(name) = link {
            self.goto(name.as_str());
        }
    }

    /// Follows the node's `Up` link, if it has one.
    pub fn up(&mut self)
        requires
            old(self)@.wf(),
        ensures
            final(self)@ == old(self)@.following(
                match old(self)@.node() {
                    Some(node) => node.up,
                    None => None,
                },
            ),
            final(self)@.wf(),
    {
        let link = match self.node() {
            Some(node) => crate::document::clone_opt(&node.up),
            None => None,
        };
        if let Some(name) = link {
            self.goto(name.as_str());
        }
    }

    /// Goes back to the node visited before.
    pub fn back(&mut self)
        requires
            old(self)@.wf(),
        ensures
            final(self)@ == old(self)@.back(),
            final(self)@.wf(),
    {
        if let Some(previous) = self.history.pop() {
            assert(old(self)@.history[old(self)@.history.len() - 1] < old(self)@.nodes.len());
            self.current = previous;
            self.scroll = 0;
            self.ref_selected = 0;
            assert forall|i: int| 0 <= i < self@.history.len() implies (
            #[trigger] self@.history[i]) < self@.nodes.len() by {
                assert(old(self)@.history[i] < old(self)@.nodes.len());
            }
        }
    }

    /// Follows the selected reference.
    pub fn enter(&mut self)
        requires
            old(self)@.wf(),
        ensures
            final(self)@ == old(self)@.following(old(self)@.selected_target()),
            final(self)@.wf(),
    {
        let target: Option<String> = match self.node() {
            Some(node) => if self.ref_selected < node.refs.len() {
                assert(node@.refs[self.ref_selected as int] == node.refs@[self.ref_selected as int]@);
                Some(node.refs[self.ref_selected].target.clone())
            } else {
                None
            },
            None => None,
        };
        if let Some(name) = target {
            self.goto(name.as_str());
        }
    }

    /// Selects the previous reference and scrolls to it.
    pub fn select_up(&mut self)
        requires
            old(self)@.wf(),
        ensures
            final(self)@ == (Reader {
                selected: most(old(self)@.selected - 1, 0) as nat,
                ..old(self)@
            }).revealed(),
            final(self)@.wf(),
    {
        if self.ref_selected > 0 {
            self.ref_selected -= 1;
        }
        self.scroll_to_selected();
    }

    /// Selects the next reference and scrolls to it.
    pub fn select_down(&mut self)
        requires
            old(self)@.wf(),
        ensures
            final(self)@ == ({
                let count = match old(self)@.node() {
                    Some(node) => node.refs.len(),
                    None => 0,
                };
                if old(self)@.selected + 1 < count {
                    (Reader { selected: old(self)@.selected + 1, ..old(self)@ }).revealed()
                } else {
                    old(self)@
                }
            }),
            final(self)@.wf(),
    {
        let count: usize = match self.node() {
            Some(node) => node.refs.len(),
            None => 0,
        };
        if count > 0 && self.ref_selected < count - 1 {
            self.ref_selected += 1;
            self.scroll_to_selected();
        }
    }

    fn scroll_to_selected(&mut self)
        requires
            old(self)@.wf(),
        ensures
            final(self)@ == old(self)@.revealed(),
            final(self)@.wf(),
    {
        let line: usize = match self.node() {
            Some(node) => if self.ref_selected < node.refs.len() {
                assert(node@.refs[self.ref_selected as int] == node.refs@[self.ref_selected as int]@);
                node.refs[self.ref_selected].line
            } else {
                return ;
            },
            None => {
                return ;
            },
        };
        if line < self.scroll {
            self.scroll = line;
        } else if self.viewport_rows > 0 && line - self.scroll >= self.viewport_rows {
            self.scroll = line - (self.viewport_rows - 1);
        }
    }

    /// Scrolls the body down by `rows`, as far as its last line.
    pub fn scroll_down(&mut self, rows: usize)
        requires
            old(self)@.wf(),
        ensures
            final(self)@ == (Reader {
                scroll: least(
                    old(self)@.scroll + rows,
                    most(
                        (match old(self)@.node() {
                            Some(node) => lines(node.body).len() as int,
                            None => 0,
                        }) - 1,
                        0,
                    ),
                ) as nat,
                ..old(self)@
            }),
            final(self)@.wf(),
    {
        let count: usize = match self.node() {
            Some(node) => {
                let body = chars_of(node.body.as_str());
                let ls = lines_of(body.as_slice());
                assert(ls@.len() == texts(ls@).len());
                ls.len()
            },
            None => 0,
        };
        let last: usize = if count > 0 {
            count - 1
        } else {
            0
        };
        let wanted = self.scroll.saturating_add(rows);
        self.scroll = if wanted < last {
            wanted
        } else {
            last
        };
    }

    /// Scrolls the body up by `rows`.
    pub fn scroll_up(&mut self, rows: usize)
        requires
            old(self)@.wf(),
        ensures
            final(self)@ == (Reader {
                scroll: most(old(self)@.scroll - rows, 0) as nat,
                ..old(self)@
            }),
            final(self)@.wf(),
    {
        self.scroll = self.scroll.saturating_sub(rows);
    }

    /// Draws the reader into `area`: a header bar above the body of the current node. Menu entries
    /// are highlighted as whole lines and inline references in place; the selected reference is
    /// inverted. Takes note of how many body lines there was room for.
    pub fn render(&mut self, surface: &mut Surface, area: Rect, theme: &Theme)
        requires
            old(surface)@.wf(),
            area.wf(),
            old(self)@.wf(),
        ensures
            final(surface)@ == drawn(old(surface)@, old(self)@, area, *theme),
            final(surface)@.wf(),
            final(self)@ == if area.is_empty() {
                old(self)@
            } else {
                Reader { rows: (area.height - 1) as nat, ..old(self)@ }
            },
            final(self)@.wf(),
    {
        if area.is_empty() {
            return ;
        }
        let (header, body) = area.split_top(1);
        self.viewport_rows = body.height as usize;
        surface.blank(header.x, header.right(), header.y, theme.inverse());
        let mut title = " Info: ".to_owned();
        title.append(self.title.as_str());
        title.append(" — ");
        match self.node() {
            Some(node) => title.append(node.name.as_str()),
            None => title.append("(no nodes)"),
        }
        title.append("    n/p/u nav · ↑↓ select · Enter follow · l back · q quit");
        let title = chars_of(title.as_str());
        assert(title@ == header_text(old(self)@));
        let shown = clip(title.as_slice(), header.width);
        surface.set_chars(header.x, header.y, shown.as_slice(), theme.inverse());
        let node = match self.node() {
            Some(node) => node,
            None => {
                return ;
            },
        };
        let text = chars_of(node.body.as_str());
        let ls = lines_of(text.as_slice());
        let ghost all = lines(node@.body);
        assert(all == texts(ls@));
        let selected = self.ref_selected;
        let scroll = self.scroll;
        let ghost base = surface@;
        let mut row: u32 = 0;
        while row < body.height && scroll < ls.len() && (row as usize) < ls.len() - scroll
            invariant
                surface@.wf(),
                all == texts(ls@),
                all == lines(node@.body),
                body.x + body.width <= u32::MAX,
                body.y + body.height <= u32::MAX,
                row <= body.height,
                draw_body(base, node@, scroll as nat, 0, body, selected as nat, *theme)
                    == draw_body(
                    surface@,
                    node@,
                    scroll as nat,
                    row as nat,
                    body,
                    selected as nat,
                    *theme,
                ),
            decreases body.height - row,
        {
            let index: usize = scroll + row as usize;
            let y: u32 = body.y + row;
            assert(all[index as int] == ls@[index as int]@);
            draw_line(
                surface,
                node,
                index,
                ls[index].as_slice(),
                body,
                y,
                selected,
                theme,
            );
            row += 1;
        }
    }
}

/// Draws one body line with its inline references.
fn draw_line(
    surface: &mut Surface,
    node: &InfoNode,
    line: usize,
    text: &[char],
    area: Rect,
    y: u32,
    selected: usize,
    theme: &Theme,
)
    requires
        old(surface)@.wf(),
        area.x + area.width <= u32::MAX,
    ensures
        final(surface)@ == draw_xrefs(
            old(surface)@.text(
                area.x as int,
                y as int,
                clipped(text@, area.width as int),
                line_style(node@.refs, line as nat, selected as nat, *theme),
            ),
            node@.refs,
            0,
            line as nat,
            text@,
            area,
            y as int,
            selected as nat,
            *theme,
        ),
        final(surface)@.wf(),
{
    let ghost refs = node@.refs;
    let mut style = theme.base_style();
    let mut i: usize = 0;
    let mut found = false;
    while i < node.refs.len() && !found
        invariant
            i <= node.refs@.len(),
            refs == refs_view(node.refs@),
            !found ==> menu_on_line(refs, line as nat, 0) == menu_on_line(
                refs,
                line as nat,
                i as int,
            ) && style == theme.base_style(),
            found ==> style == line_style(refs, line as nat, selected as nat, *theme),
        decreases node.refs@.len() - i + if found {
            0int
        } else {
            1
        },
    {
        assert(refs[i as int] == node.refs@[i as int]@);
        if node.refs[i].menu && node.refs[i].line == line {
            found = true;
            style = if i == selected {
                theme.inverse()
            } else {
                theme.accented()
            };
        } else {
            i += 1;
        }
    }
    let shown = clip(text, area.width);
    surface.set_chars(area.x, y, shown.as_slice(), style);
    let ghost base = surface@;
    let mut i: usize = 0;
    while i < node.refs.len()
        invariant
            surface@.wf(),
            i <= node.refs@.len(),
            refs == refs_view(node.refs@),
            area.x + area.width <= u32::MAX,
            draw_xrefs(
                base,
                refs,
                0,
                line as nat,
                text@,
                area,
                y as int,
                selected as nat,
                *theme,
            ) == draw_xrefs(
                surface@,
                refs,
                i as int,
                line as nat,
                text@,
                area,
                y as int,
                selected as nat,
                *theme,
            ),
        decreases node.refs@.len() - i,
    {
        let r = &node.refs[i];
        assert(refs[i as int] == r@);
        if !r.menu && r.line == line && r.column < area.width as usize {
            let column: u32 = r.column as u32;
            let from: usize = if r.column < text.len() {
                r.column
            } else {
                text.len()
            };
            let tail = slice_of(text, from, text.len());
            assert(tail@ =~= text@.skip(from as int));
            let n: usize = if tail.len() < r.length {
                tail.len()
            } else {
                r.length
            };
            let span = slice_of(tail.as_slice(), 0, n);
            assert(span@ =~= clipped(tail@, r.length as int));
            let shown = clip(span.as_slice(), area.width - column);
            let style = if i == selected {
                theme.inverse()
            } else {
                theme.accented()
            };
            surface.set_chars(area.x + column, y, shown.as_slice(), style);
        }
        i += 1;
    }
}

/// Going back undoes a jump: the reader is at the start of the node that it came from, with the same
/// history. Without a history it changes nothing.
pub proof fn law_back_undoes_jump(r: Reader, target: int)
    requires
        r.wf(),
        0 <= target < r.nodes.len(),
        target != r.current,
    ensures
        r.at(target).back() == (Reader { scroll: 0, selected: 0, ..r }),
        r.history.len() == 0 ==> r.back() == r,
{
    assert(r.history.push(r.current as usize).drop_last() =~= r.history);
}

/// The reader after a series of jumps.
pub open spec fn visited(r: Reader, targets: Seq<int>) -> Reader
    decreases targets.len(),
{
    if targets.len() == 0 {
        r
    } else {
        visited(r, targets.drop_last()).at(targets.last())
    }
}

/// Whether each jump of a series leads to another node.
pub open spec fn all_move(r: Reader, targets: Seq<int>) -> bool
    decreases targets.len(),
{
    targets.len() == 0 || {
        &&& all_move(r, targets.drop_last())
        &&& 0 <= targets.last() < r.nodes.len()
        &&& targets.last() != visited(r, targets.drop_last()).current
    }
}

/// The reader after going back `n` times.
pub open spec fn backed(r: Reader, n: nat) -> Reader
    decreases n,
{
    if n == 0 {
        r
    } else {
        backed(r.back(), (n - 1) as nat)
    }
}

proof fn lemma_visited(r: Reader, targets: Seq<int>)
    requires
        r.wf(),
    ensures
        visited(r, targets).wf(),
        visited(r, targets).nodes == r.nodes,
    decreases targets.len(),
{
    if targets.len() > 0 {
        lemma_visited(r, targets.drop_last());
        law_navigation_stays_in_document(visited(r, targets.drop_last()), targets.last());
    }
}

proof fn lemma_backed(r: Reader, n: nat)
    ensures
        backed(Reader { scroll: 0, selected: 0, ..r }, n) == (Reader {
            scroll: 0,
            selected: 0,
            ..backed(r, n)
        }),
    decreases n,
{
    let s = Reader { scroll: 0, selected: 0, ..r };
    if n > 0 {
        if r.history.len() > 0 {
            assert(s.back() == r.back());
            lemma_backed(r.back(), (n - 1) as nat);
            assert((Reader { scroll: 0, selected: 0, ..r.back() }) == r.back());
        } else {
            lemma_backed(r, (n - 1) as nat);
        }
    }
}

/// As many steps back as there were jumps to other nodes lead to where they started, with the
/// history from before them.
pub proof fn law_back_undoes_all_jumps(r: Reader, targets: Seq<int>)
    requires
        r.wf(),
        targets.len() > 0,
        all_move(r, targets),
    ensures
        backed(visited(r, targets), targets.len()) == (Reader { scroll: 0, selected: 0, ..r }),
    decreases targets.len(),
{
    let before = targets.drop_last();
    let s = visited(r, before);
    lemma_visited(r, before);
    law_back_undoes_jump(s, targets.last());
    lemma_backed(s, before.len());
    if before.len() > 0 {
        law_back_undoes_all_jumps(r, before);
    }
}

/// Whether references stand in reading order.
pub open spec fn in_order(refs: Seq<Ref>) -> bool {
    forall|i: int, j: int|
        0 <= i < j < refs.len() ==> !ref_before(#[trigger] refs[j], #[trigger] refs[i])
}

proof fn lemma_place(sorted: Seq<Ref>, r: Ref)
    requires
        in_order(sorted),
    ensures
        in_order(place(sorted, r)),
        place(sorted, r).to_multiset() == sorted.to_multiset().insert(r),
        forall|k: int|
            0 <= k < place(sorted, r).len() ==> (#[trigger] place(sorted, r)[k]) == r
                || sorted.contains(place(sorted, r)[k]),
    decreases sorted.len(),
{
    broadcast use vstd::seq_lib::group_to_multiset_ensures;

    let all = place(sorted, r);
    if sorted.len() > 0 && ref_before(r, sorted.last()) {
        let head = sorted.drop_last();
        let last = sorted.last();
        lemma_place(head, r);
        let start = place(head, r);
        assert(head.push(last) =~= sorted);
        assert(all.to_multiset() =~= sorted.to_multiset().insert(r));
        assert forall|k: int| 0 <= k < all.len() implies (#[trigger] all[k]) == r
            || sorted.contains(all[k]) by {
            if k < start.len() {
                assert(all[k] == start[k]);
                if start[k] != r {
                    let m = choose|m: int| 0 <= m < head.len() && head[m] == start[k];
                    assert(sorted[m] == start[k]);
                }
            } else {
                assert(sorted[sorted.len() - 1] == all[k]);
            }
        }
        assert forall|i: int, j: int| 0 <= i < j < all.len() implies !ref_before(
            #[trigger] all[j],
            #[trigger] all[i],
        ) by {
            if j < start.len() {
                assert(all[i] == start[i] && all[j] == start[j]);
            } else {
                assert(all[i] == start[i]);
                if start[i] != r {
                    let m = choose|m: int| 0 <= m < head.len() && head[m] == start[i];
                    assert(sorted[m] == start[i]);
                    assert(!ref_before(sorted[sorted.len() - 1], sorted[m]));
                }
            }
        }
    } else {
        assert forall|i: int, j: int| 0 <= i < j < all.len() implies !ref_before(
            #[trigger] all[j],
            #[trigger] all[i],
        ) by {
            if j == sorted.len() && i < sorted.len() - 1 {
                assert(!ref_before(sorted[sorted.len() - 1], sorted[i]));
            }
        }
        assert forall|k: int| 0 <= k < all.len() implies (#[trigger] all[k]) == r
            || sorted.contains(all[k]) by {
            if k < sorted.len() {
                assert(sorted[k] == all[k]);
            }
        }
    }
}

/// The references of a body stand in reading order, and none is lost or made up.
pub proof fn law_references_in_reading_order(refs: Seq<Ref>)
    ensures
        in_order(in_reading_order(refs)),
        in_reading_order(refs).to_multiset() == refs.to_multiset(),
    decreases refs.len(),
{
    broadcast use vstd::seq_lib::group_to_multiset_ensures;

    if refs.len() > 0 {
        law_references_in_reading_order(refs.drop_last());
        lemma_place(in_reading_order(refs.drop_last()), refs.last());
        assert(refs.drop_last().push(refs.last()) =~= refs);
    } else {
        assert(refs =~= Seq::empty());
    }
}

/// Wherever navigation leads, the current node is a node of the document, if it has any.
pub proof fn law_navigation_stays_in_document(r: Reader, target: int)
    requires
        r.wf(),
    ensures
        r.at(target).wf(),
        r.back().wf(),
{
    if r.history.len() > 0 {
        assert(r.history[r.history.len() - 1] < r.nodes.len());
        assert forall|i: int| 0 <= i < r.back().history.len() implies (
        #[trigger] r.back().history[i]) < r.back().nodes.len() by {
            assert(r.history[i] < r.nodes.len());
        }
    }
    assert forall|i: int| 0 <= i < r.at(target).history.len() implies (
    #[trigger] r.at(target).history[i]) < r.at(target).nodes.len() by {
        if i < r.history.len() {
            assert(r.history[i] < r.nodes.len());
        }
    }
}

} // verus!
