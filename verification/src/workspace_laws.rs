//! What the window commands do to the panes, the editors and the documents.

use crate::buffer::{law_one_character_goes, rests_at};
use crate::document::Doc;
use crate::editor::EditState;
use crate::paths::same_place;
use crate::workspace::{
    adjusted, law_remove_takes_one_pane, law_repoint_changes_one_pane, law_split_adds_one_pane, leaves, neighbour_index,
    position_of, propagated, resized_at, shown_elsewhere, told, Node, Space, Split, WindowAct,
};
use vstd::prelude::*;

verus! {

/// Splitting opens a pane right behind the focused one, with the focus on it: a new view of the same
/// document, from its start, with the profile and the clipboard of the workspace. Nothing else
/// changes.
pub proof fn law_split_opens_a_view(s: Space, dir: Split)
    requires
        s.wf(),
        s.editors.len() < usize::MAX,
    ensures
        ({
            let x = s.windowed(WindowAct::Split(dir));
            let new = x.editors.last();
            &&& leaves(x.root) == leaves(s.root).insert(s.focused + 1int, s.editors.len() as usize)
            &&& x.active() == s.editors.len()
            &&& x.editors.drop_last() == s.editors
            &&& x.docs == s.docs
            &&& new.caret.document == s.active_editor().caret.document
            &&& new.caret.cursor == 0 && new.caret.anchor is None
            &&& new.clipboard == s.clipboard
            &&& new.profile == s.profile
            &&& new.tab_width == s.active_editor().tab_width
        }),
{
    law_split_adds_one_pane(s.root, s.focused as int, dir, s.editors.len() as usize);
    let x = s.windowed(WindowAct::Split(dir));
    assert(x.editors.drop_last() =~= s.editors);
}

/// Closing takes the focused pane away and leaves the others; its editor and its document stay open.
/// The last pane is not closed. The focus is on the pane that takes its place, or on the last one.
pub proof fn law_close_takes_the_focused_pane(s: Space)
    requires
        s.wf(),
    ensures
        ({
            let x = s.windowed(WindowAct::Close);
            let n = leaves(s.root).len();
            &&& n == 1 ==> x == s
            &&& n > 1 ==> leaves(x.root) == leaves(s.root).remove(s.focused as int)
            &&& n > 1 && s.focused < n - 1 ==> x.focused == s.focused
            &&& n > 1 && s.focused == n - 1 ==> x.focused == n - 2
            &&& x.editors == s.editors && x.docs == s.docs
        }),
{
    if leaves(s.root).len() > 1 {
        law_remove_takes_one_pane(s.root, s.focused as int);
    }
}

/// The focus goes from pane to pane in order, and from the last to the first.
pub proof fn law_focus_goes_round(s: Space)
    requires
        s.wf(),
    ensures
        ({
            let x = s.windowed(WindowAct::FocusNext);
            let n = leaves(s.root).len();
            &&& s.focused + 1 < n ==> x.focused == s.focused + 1
            &&& s.focused + 1 == n ==> x.focused == 0
            &&& x.root == s.root && x.editors == s.editors && x.docs == s.docs
        }),
{
    let n = leaves(s.root).len();
    if s.focused + 1 < n {
        vstd::arithmetic::div_mod::lemma_small_mod(s.focused + 1, n);
    } else {
        vstd::arithmetic::div_mod::lemma_mod_self_0(n as int);
    }
}

/// A step of the divider is six parts in a hundred, held between ten and ninety; a step back undoes
/// it where there is room.
pub proof fn law_resizing_goes_by_steps(ratio: u16)
    requires
        10 <= ratio <= 90,
    ensures
        10 <= adjusted(ratio, true) <= 90,
        10 <= adjusted(ratio, false) <= 90,
        ratio <= 84 ==> adjusted(ratio, true) == ratio + 6 && adjusted(adjusted(ratio, true), false) == ratio,
        ratio >= 16 ==> adjusted(ratio, false) == ratio - 6 && adjusted(adjusted(ratio, false), true)
            == ratio,
        ratio > 84 ==> adjusted(ratio, true) == 90,
        ratio < 16 ==> adjusted(ratio, false) == 10,
{
}

/// Growing a pane gives it a larger share of its split, whichever side it is on, and shrinking it a
/// smaller one.
pub proof fn law_resizing_is_for_the_focused_pane(dir: Split, ratio: u16, a: usize, b: usize)
    requires
        16 <= ratio <= 84,
    ensures
        ({
            let node = Node::Split { dir, ratio, first: Box::new(Node::Leaf(a)), second: Box::new(Node::Leaf(b)) };
            &&& resized_at(node, 0, true)->ratio == ratio + 6
            &&& resized_at(node, 0, false)->ratio == ratio - 6
            &&& resized_at(node, 1, true)->ratio == ratio - 6
            &&& resized_at(node, 1, false)->ratio == ratio + 6
        }),
{
    assert(leaves(Node::Leaf(a)).len() == 1);
}

/// The candidates are the editors on offer, each once and in order.
proof fn lemma_candidates(s: Space, n: nat)
    requires
        n <= usize::MAX,
    ensures
        ({
            let c = s.candidates(n);
            &&& forall|i: int| 0 <= i < c.len() ==> (#[trigger] c[i]) < n && s.offered(c[i] as int)
            &&& forall|i: int, j: int| 0 <= i < j < c.len() ==> (#[trigger] c[i]) < (#[trigger] c[j])
            &&& forall|k: int| 0 <= k < n && #[trigger] s.offered(k) ==> c.contains(k as usize)
        }),
    decreases n,
{
    if n > 0 {
        lemma_candidates(s, (n - 1) as nat);
        let before = s.candidates((n - 1) as nat);
        let c = s.candidates(n);
        assert forall|k: int| 0 <= k < n && #[trigger] s.offered(k) implies c.contains(k as usize) by {
            if k < n - 1 {
                let i = choose|i: int| 0 <= i < before.len() && before[i] == k as usize;
                assert(c[i] == k as usize);
            } else {
                assert(c[c.len() - 1] == k as usize);
            }
        }
    }
}

proof fn lemma_position(all: Seq<usize>, x: usize, i: nat)
    requires
        exists|k: int| i <= k < all.len() && all[k] == x,
    ensures
        i <= position_of(all, x, i) < all.len(),
        all[position_of(all, x, i) as int] == x,
    decreases all.len() - i,
{
    if i < all.len() && all[i as int] != x {
        let k = choose|k: int| i <= k < all.len() && all[k] == x;
        assert(i + 1 <= k);
        lemma_position(all, x, i + 1);
    }
}

/// Cycling shows the next editor that no other pane shows, in order and round to the first, in the
/// focused pane; no other pane changes. Where there is no such editor nothing changes.
pub proof fn law_cycling_shows_the_next_editor(s: Space, j: int)
    requires
        s.wf(),
        s.editors.len() <= usize::MAX,
        0 <= j < s.editors.len(),
        j != s.active(),
        !shown_elsewhere(leaves(s.root), s.focused as int, j),
    ensures
        ({
            let on = s.windowed(WindowAct::Cycle(true));
            let back = s.windowed(WindowAct::Cycle(false));
            &&& leaves(on.root) == leaves(s.root).update(s.focused as int, on.active() as usize)
            &&& leaves(back.root) == leaves(s.root).update(s.focused as int, back.active() as usize)
            &&& 0 <= on.active() < s.editors.len() && on.active() != s.active()
            &&& 0 <= back.active() < s.editors.len() && back.active() != s.active()
            &&& !shown_elsewhere(leaves(s.root), s.focused as int, on.active())
            &&& !shown_elsewhere(leaves(s.root), s.focused as int, back.active())
            &&& s.active() < j ==> s.active() < on.active() <= j
            &&& j < s.active() ==> j <= back.active() < s.active()
            &&& on.editors == s.editors && on.docs == s.docs && on.focused == s.focused
        }),
{
    let n = s.editors.len();
    let c = s.candidates(n);
    lemma_candidates(s, n);
    let a = s.active();
    assert(0 <= a < n);
    assert(s.offered(a));
    assert(s.offered(j));
    let p = choose|i: int| 0 <= i < c.len() && c[i] == a as usize;
    let q = choose|i: int| 0 <= i < c.len() && c[i] == j as usize;
    assert(p != q);
    lemma_position(c, a as usize, 0);
    let at = position_of(c, a as usize, 0);
    assert(at == p) by {
        if at < p {
            assert(c[at as int] < c[p]);
        } else if p < at {
            assert(c[p] < c[at as int]);
        }
    }
    let f = neighbour_index(at, c.len(), true);
    let b = neighbour_index(at, c.len(), false);
    assert(0 <= f < c.len() && f != at);
    assert(0 <= b < c.len() && b != at);
    assert(c[f] != c[p]) by {
        if f < p {
            assert(c[f] < c[p]);
        } else {
            assert(c[p] < c[f]);
        }
    }
    assert(c[b] != c[p]) by {
        if b < p {
            assert(c[b] < c[p]);
        } else {
            assert(c[p] < c[b]);
        }
    }
    assert(s.offered(c[f] as int) && s.offered(c[b] as int));
    law_repoint_changes_one_pane(s.root, s.focused as int, c[f]);
    law_repoint_changes_one_pane(s.root, s.focused as int, c[b]);
    if a < j {
        assert(p < q) by {
            if q < p {
                assert(c[q] < c[p]);
            }
        }
        assert(f == p + 1);
        if f < q {
            assert(c[f] < c[q]);
        }
        assert(c[p] < c[f]);
    } else {
        assert(q < p) by {
            if p < q {
                assert(c[p] < c[q]);
            }
        }
        assert(b == p - 1);
        if q < b {
            assert(c[q] < c[b]);
        }
        assert(c[b] < c[p]);
    }
}

/// A document that is opened is shown in the focused pane, by an editor of its own; the others stay.
pub proof fn law_opening_shows_the_document(s: Space, editor: EditState, doc: Doc)
    requires
        s.wf(),
        s.editors.len() < usize::MAX,
    ensures
        ({
            let x = s.opened(editor, doc);
            &&& x.docs == s.docs.push(doc)
            &&& x.editors.drop_last() == s.editors
            &&& x.active() == s.editors.len()
            &&& x.active_doc() == s.docs.len()
            &&& x.docs[x.active_doc()] == doc
            &&& leaves(x.root) == leaves(s.root).update(s.focused as int, s.editors.len() as usize)
            &&& x.active_editor().caret.cursor == editor.caret.cursor
            &&& x.active_editor().profile == s.profile
            &&& x.active_editor().clipboard == s.clipboard
        }),
{
    law_repoint_changes_one_pane(s.root, s.focused as int, s.editors.len() as usize);
    assert(s.opened(editor, doc).editors.drop_last() =~= s.editors);
}

proof fn lemma_viewer(s: Space, path: Seq<char>, i: nat, k: int)
    requires
        i <= k < s.editors.len(),
        s.views(s.editors[k], path),
    ensures
        i <= s.viewer(path, i) <= k,
        s.views(s.editors[s.viewer(path, i) as int], path),
    decreases k - i,
{
    if !s.views(s.editors[i as int], path) {
        lemma_viewer(s, path, i + 1, k);
    }
}

/// A path that an editor has open is shown by that editor in the focused pane, and not opened again.
pub proof fn law_open_path_is_shown(s: Space, path: Seq<char>, k: int)
    requires
        s.wf(),
        s.editors.len() <= usize::MAX,
        0 <= k < s.editors.len(),
        s.docs[s.editors[k].caret.document as int].path matches Some(p) && same_place(p, path),
    ensures
        ({
            let x = s.revealing(path);
            &&& x.editors == s.editors && x.docs == s.docs
            &&& x.docs[x.active_doc()].path matches Some(p) && same_place(p, path)
        }),
{
    lemma_viewer(s, path, 0, k);
    let i = s.viewer(path, 0);
    law_repoint_changes_one_pane(s.root, s.focused as int, i as usize);
}

proof fn lemma_told_length(editors: Seq<EditState>, source: nat)
    ensures
        propagated(editors, source).len() == editors.len(),
    decreases editors.len() - source,
{
    if source < editors.len() {
        lemma_told_length(told(editors, source as int), source + 1);
    }
}

/// Text that is typed goes into the document of the focused pane, at the cursor of its editor, and
/// into no other document.
pub proof fn law_typing_goes_to_the_focused_pane(s: Space, i: int, text: Seq<char>, other: int)
    requires
        s.wf(),
        rests_at(s.active_editor().caret, s.docs[s.active_doc()].text, i),
        0 <= other < s.docs.len(),
        other != s.active_doc(),
    ensures
        ({
            let x = s.typed(text);
            let t = s.docs[s.active_doc()].text;
            &&& x.docs[s.active_doc()].text == t.take(i) + text + t.skip(i)
            &&& x.docs[other] == s.docs[other]
            &&& x.root == s.root && x.focused == s.focused
            &&& x.editors.len() == s.editors.len()
        }),
{
    assert(s.settled(s.active()));
    law_one_character_goes(s.active_editor().caret, s.docs[s.active_doc()], i, text);
    let (editor, doc) = s.active_editor().typed(s.docs[s.active_doc()], text);
    lemma_told_length(s.with_active(editor, doc).editors, 0);
}

/// The tab of a document with unsaved changes is marked, and the mark is all that sets it apart.
pub proof fn law_unsaved_tabs_are_marked(s: Space, i: int)
    ensures
        ({
            let d = s.docs[s.editors[i].caret.document as int];
            let name = crate::editor::shown_name(d.path);
            &&& d.dirty ==> s.tab_label(i) == seq![' '] + name + seq!['●', ' ']
            &&& !d.dirty ==> s.tab_label(i) == seq![' '] + name + seq![' ']
        }),
{
    reveal_strlit(" ");
    reveal_strlit("●");
    let d = s.docs[s.editors[i].caret.document as int];
    let name = crate::editor::shown_name(d.path);
    assert(" "@ =~= seq![' ']);
    assert("●"@ =~= seq!['●']);
    if d.dirty {
        assert(s.tab_label(i) =~= seq![' '] + name + seq!['●', ' ']);
    } else {
        assert(s.tab_label(i) =~= seq![' '] + name + seq![' ']);
    }
}

} // verus!
