//! The workspace: the open documents, the editors on them, and the window tree that shows them.
//!
//! The editor area is a binary tree of splits; every leaf is a pane that shows one editor, and one of
//! them is focused. A tab bar lists all editors. Two editors may view the same document: an edit
//! through one of them moves the cursor of the other along. One clipboard is shared by all.

use crate::buffer::{inserted, replaced, Buffer, Caret};
use crate::diagnostic::Diagnostic;
use crate::dispatch::{are_hints, resolve_layers, rows_view, Resolution, Resolved};
use crate::document::{clone_opt, Doc, Document};
use crate::editor::{
    act_of, classify, law_document_stays, shown_name, Act, EditState, Editor,
};
use crate::fold::FoldRange;
use crate::inlay::InlayHint;
use crate::key::{KeyCode, KeyPress, Mods};
use crate::occurrence::Occurrence;
use crate::paths::{same_path, same_place};
use crate::popup::{clamp, least};
use crate::profiles::Profile;
use crate::session::{saved_panes, LayoutNode, PaneState, SavedPane, Session};
use crate::surface::{Canvas, Glyphs, Rect, Style, Surface, Theme};
use crate::text::{byte_len, decimal, decimal_of, index_at, same_text, snap};
use crate::whichkey::WhichKey;
use vstd::prelude::*;

verus! {

/// The axis along which a split divides its area.
#[derive(Clone, Copy, Debug, PartialEq, Eq, Structural)]
pub enum Split {
    /// Side by side.
    Columns,
    /// Above one another.
    Rows,
}

/// A window tree.
#[derive(Debug, PartialEq, Eq)]
pub enum Node {
    /// A pane that shows the editor of the given index.
    Leaf(usize),
    /// Two trees side by side or above one another.
    Split {
        /// The axis.
        dir: Split,
        /// The share of the first tree in percent.
        ratio: u16,
        /// The left or upper tree.
        first: Box<Node>,
        /// The right or lower tree.
        second: Box<Node>,
    },
}

/// The editors that the panes of a tree show, in order.
pub open spec fn leaves(node: Node) -> Seq<usize>
    decreases node,
{
    match node {
        Node::Leaf(editor) => seq![editor],
        Node::Split { first, second, .. } => leaves(*first) + leaves(*second),
    }
}

/// A tree with the `n`th pane showing another editor.
pub open spec fn repointed(node: Node, n: int, editor: usize) -> Node
    decreases node,
{
    match node {
        Node::Leaf(shown) => if n == 0 {
            Node::Leaf(editor)
        } else {
            node
        },
        Node::Split { dir, ratio, first, second } => {
            let left = leaves(*first).len();
            if n < left {
                Node::Split { dir, ratio, first: Box::new(repointed(*first, n, editor)), second }
            } else {
                Node::Split {
                    dir,
                    ratio,
                    first,
                    second: Box::new(repointed(*second, n - left, editor)),
                }
            }
        },
    }
}

/// A tree with the `n`th pane split in two halves: itself, and a new one that shows `new`.
pub open spec fn split_at(node: Node, n: int, dir: Split, new: usize) -> Node
    decreases node,
{
    match node {
        Node::Leaf(editor) => Node::Split {
            dir,
            ratio: 50,
            first: Box::new(Node::Leaf(editor)),
            second: Box::new(Node::Leaf(new)),
        },
        Node::Split { dir: d, ratio, first, second } => {
            let left = leaves(*first).len();
            if n < left {
                Node::Split {
                    dir: d,
                    ratio,
                    first: Box::new(split_at(*first, n, dir, new)),
                    second,
                }
            } else {
                Node::Split {
                    dir: d,
                    ratio,
                    first,
                    second: Box::new(split_at(*second, n - left, dir, new)),
                }
            }
        },
    }
}

/// A tree without its `n`th pane: the other side of the split above it takes its place. A single
/// pane stays.
pub open spec fn removed_at(node: Node, n: int) -> Node
    decreases node,
{
    match node {
        Node::Leaf(_) => node,
        Node::Split { dir, ratio, first, second } => {
            let left = leaves(*first).len();
            if n < left {
                if *first is Leaf {
                    *second
                } else {
                    Node::Split { dir, ratio, first: Box::new(removed_at(*first, n)), second }
                }
            } else if *second is Leaf {
                *first
            } else {
                Node::Split { dir, ratio, first, second: Box::new(removed_at(*second, n - left)) }
            }
        },
    }
}

/// A share one step of six percent larger or smaller, kept between 10 and 90 percent.
pub open spec fn adjusted(ratio: u16, increase: bool) -> u16 {
    let stepped = if increase {
        ratio + 6
    } else {
        ratio - 6
    };
    clamp(stepped, 10, 90) as u16
}

/// A tree with the split directly above the `n`th pane adjusted so that the pane grows or shrinks.
pub open spec fn resized_at(node: Node, n: int, grow: bool) -> Node
    decreases node,
{
    match node {
        Node::Leaf(_) => node,
        Node::Split { dir, ratio, first, second } => {
            let left = leaves(*first).len();
            if n < left {
                if *first is Leaf {
                    Node::Split { dir, ratio: adjusted(ratio, grow), first, second }
                } else {
                    Node::Split {
                        dir,
                        ratio,
                        first: Box::new(resized_at(*first, n, grow)),
                        second,
                    }
                }
            } else if *second is Leaf {
                Node::Split { dir, ratio: adjusted(ratio, !grow), first, second }
            } else {
                Node::Split {
                    dir,
                    ratio,
                    first,
                    second: Box::new(resized_at(*second, n - left, grow)),
                }
            }
        },
    }
}

/// Adjusts a share by one step.
pub fn adjust(ratio: u16, increase: bool) -> (r: u16)
    ensures
        r == adjusted(ratio, increase),
{
    let low: u16 = if increase {
        4
    } else {
        16
    };
    let high: u16 = if increase {
        84
    } else {
        96
    };
    if ratio <= low {
        10
    } else if ratio >= high {
        90
    } else if increase {
        ratio + 6
    } else {
        ratio - 6
    }
}

proof fn lemma_leaves_some(node: Node)
    ensures
        leaves(node).len() > 0,
    decreases node,
{
    match node {
        Node::Leaf(_) => {},
        Node::Split { first, second, .. } => {
            lemma_leaves_some(*first);
            lemma_leaves_some(*second);
        },
    }
}

impl Node {
    /// How many panes there are.
    pub fn leaf_count(&self) -> (r: usize)
        requires
            leaves(*self).len() <= usize::MAX,
        ensures
            r == leaves(*self).len(),
            r > 0,
        decreases self,
    {
        proof {
            lemma_leaves_some(*self);
        }
        match self {
            Node::Leaf(_) => 1,
            Node::Split { first, second, .. } => first.leaf_count() + second.leaf_count(),
        }
    }

    /// The editor that the `n`th pane shows, if there is such a pane.
    pub fn nth_editor(&self, n: usize) -> (r: Option<usize>)
        requires
            leaves(*self).len() <= usize::MAX,
        ensures
            r == if n < leaves(*self).len() {
                Some(leaves(*self)[n as int])
            } else {
                None
            },
        decreases self,
    {
        match self {
            Node::Leaf(editor) => if n == 0 {
                Some(*editor)
            } else {
                None
            },
            Node::Split { first, second, .. } => {
                let left = first.leaf_count();
                if n < left {
                    first.nth_editor(n)
                } else {
                    second.nth_editor(n - left)
                }
            },
        }
    }

    /// Collects the editors that the panes show.
    pub fn collect_editors(&self, out: &mut Vec<usize>)
        ensures
            final(out)@ == old(out)@ + leaves(*self),
        decreases self,
    {
        match self {
            Node::Leaf(editor) => {
                out.push(*editor);
                assert(out@ =~= old(out)@ + leaves(*self));
            },
            Node::Split { first, second, .. } => {
                first.collect_editors(out);
                second.collect_editors(out);
                assert(out@ =~= old(out)@ + leaves(*self));
            },
        }
    }

    /// Points the `n`th pane at another editor.
    pub fn set_nth_editor(self, n: usize, editor: usize) -> (r: Node)
        requires
            leaves(self).len() <= usize::MAX,
        ensures
            r == repointed(self, n as int, editor),
        decreases self,
    {
        match self {
            Node::Leaf(shown) => if n == 0 {
                Node::Leaf(editor)
            } else {
                Node::Leaf(shown)
            },
            Node::Split { dir, ratio, first, second } => {
                let left = first.leaf_count();
                if n < left {
                    let first = Box::new((*first).set_nth_editor(n, editor));
                    Node::Split { dir, ratio, first, second }
                } else {
                    let second = Box::new((*second).set_nth_editor(n - left, editor));
                    Node::Split { dir, ratio, first, second }
                }
            },
        }
    }
}

/// Splits the `n`th pane in two halves.
pub fn split_leaf(node: Node, n: usize, dir: Split, new: usize) -> (r: Node)
    requires
        leaves(node).len() <= usize::MAX,
    ensures
        r == split_at(node, n as int, dir, new),
    decreases node,
{
    match node {
        Node::Leaf(editor) => Node::Split {
            dir,
            ratio: 50,
            first: Box::new(Node::Leaf(editor)),
            second: Box::new(Node::Leaf(new)),
        },
        Node::Split { dir: d, ratio, first, second } => {
            let left = first.leaf_count();
            if n < left {
                let first = Box::new(split_leaf(*first, n, dir, new));
                Node::Split { dir: d, ratio, first, second }
            } else {
                let second = Box::new(split_leaf(*second, n - left, dir, new));
                Node::Split { dir: d, ratio, first, second }
            }
        },
    }
}

/// Removes the `n`th pane.
pub fn remove_leaf(node: Node, n: usize) -> (r: Node)
    requires
        leaves(node).len() <= usize::MAX,
    ensures
        r == removed_at(node, n as int),
    decreases node,
{
    match node {
        Node::Leaf(editor) => Node::Leaf(editor),
        Node::Split { dir, ratio, first, second } => {
            let left = first.leaf_count();
            if n < left {
                if matches!(*first, Node::Leaf(_)) {
                    *second
                } else {
                    let first = Box::new(remove_leaf(*first, n));
                    Node::Split { dir, ratio, first, second }
                }
            } else if matches!(*second, Node::Leaf(_)) {
                *first
            } else {
                let second = Box::new(remove_leaf(*second, n - left));
                Node::Split { dir, ratio, first, second }
            }
        },
    }
}

/// Grows or shrinks the `n`th pane.
pub fn resize_leaf(node: Node, n: usize, grow: bool) -> (r: Node)
    requires
        leaves(node).len() <= usize::MAX,
    ensures
        r == resized_at(node, n as int, grow),
    decreases node,
{
    match node {
        Node::Leaf(editor) => Node::Leaf(editor),
        Node::Split { dir, ratio, first, second } => {
            let left = first.leaf_count();
            if n < left {
                if matches!(*first, Node::Leaf(_)) {
                    Node::Split { dir, ratio: adjust(ratio, grow), first, second }
                } else {
                    let first = Box::new(resize_leaf(*first, n, grow));
                    Node::Split { dir, ratio, first, second }
                }
            } else if matches!(*second, Node::Leaf(_)) {
                Node::Split { dir, ratio: adjust(ratio, !grow), first, second }
            } else {
                let second = Box::new(resize_leaf(*second, n - left, grow));
                Node::Split { dir, ratio, first, second }
            }
        },
    }
}

/// A pane can be pointed at another editor without a change to any other pane.
pub proof fn law_repoint_changes_one_pane(node: Node, n: int, editor: usize)
    requires
        0 <= n < leaves(node).len(),
    ensures
        leaves(repointed(node, n, editor)) == leaves(node).update(n, editor),
    decreases node,
{
    match node {
        Node::Leaf(_) => {
            assert(leaves(repointed(node, n, editor)) =~= leaves(node).update(n, editor));
        },
        Node::Split { first, second, .. } => {
            let left = leaves(*first).len();
            if n < left {
                law_repoint_changes_one_pane(*first, n, editor);
            } else {
                law_repoint_changes_one_pane(*second, n - left, editor);
            }
            assert(leaves(repointed(node, n, editor)) =~= leaves(node).update(n, editor));
        },
    }
}

/// Splitting a pane adds one right behind it and leaves the others as they are.
pub proof fn law_split_adds_one_pane(node: Node, n: int, dir: Split, new: usize)
    requires
        0 <= n < leaves(node).len(),
    ensures
        leaves(split_at(node, n, dir, new)) == leaves(node).insert(n + 1, new),
    decreases node,
{
    match node {
        Node::Leaf(editor) => {
            assert(leaves(Node::Leaf(editor)) =~= seq![editor]);
            assert(leaves(Node::Leaf(new)) =~= seq![new]);
            reveal_with_fuel(leaves, 2);
            assert(leaves(split_at(node, n, dir, new)) =~= leaves(node).insert(n + 1, new));
        },
        Node::Split { first, second, .. } => {
            let left = leaves(*first).len();
            if n < left {
                law_split_adds_one_pane(*first, n, dir, new);
            } else {
                law_split_adds_one_pane(*second, n - left, dir, new);
            }
            assert(leaves(split_at(node, n, dir, new)) =~= leaves(node).insert(n + 1, new));
        },
    }
}

/// Closing a pane takes it away and leaves the others as they are, in their order.
pub proof fn law_remove_takes_one_pane(node: Node, n: int)
    requires
        0 <= n < leaves(node).len(),
        leaves(node).len() > 1,
    ensures
        leaves(removed_at(node, n)) == leaves(node).remove(n),
    decreases node,
{
    match node {
        Node::Leaf(_) => {},
        Node::Split { first, second, .. } => {
            let left = leaves(*first).len();
            lemma_leaves_some(*first);
            lemma_leaves_some(*second);
            if n < left {
                if !(*first is Leaf) {
                    lemma_split_has_two(*first);
                    law_remove_takes_one_pane(*first, n);
                }
            } else if !(*second is Leaf) {
                lemma_split_has_two(*second);
                law_remove_takes_one_pane(*second, n - left);
            }
            assert(leaves(removed_at(node, n)) =~= leaves(node).remove(n));
        },
    }
}

proof fn lemma_split_has_two(node: Node)
    requires
        !(node is Leaf),
    ensures
        leaves(node).len() > 1,
{
    match node {
        Node::Leaf(_) => {},
        Node::Split { first, second, .. } => {
            lemma_leaves_some(*first);
            lemma_leaves_some(*second);
        },
    }
}

/// Resizing leaves every pane with the editor that it shows.
pub proof fn law_resize_keeps_panes(node: Node, n: int, grow: bool)
    ensures
        leaves(resized_at(node, n, grow)) == leaves(node),
    decreases node,
{
    match node {
        Node::Leaf(_) => {},
        Node::Split { first, second, .. } => {
            let left = leaves(*first).len();
            if n < left {
                law_resize_keeps_panes(*first, n, grow);
            } else {
                law_resize_keeps_panes(*second, n - left, grow);
            }
        },
    }
}

/// Closing the pane that a split has just opened restores the tree.
pub proof fn law_close_undoes_split(node: Node, n: int, dir: Split, new: usize)
    requires
        0 <= n < leaves(node).len(),
    ensures
        removed_at(split_at(node, n, dir, new), n + 1) == node,
    decreases node,
{
    match node {
        Node::Leaf(editor) => {
            reveal_with_fuel(removed_at, 2);
            assert(leaves(Node::Leaf(editor)).len() == 1);
        },
        Node::Split { dir: d, ratio, first, second } => {
            let left = leaves(*first).len();
            if n < left {
                law_close_undoes_split(*first, n, dir, new);
                law_split_adds_one_pane(*first, n, dir, new);
                assert(!(split_at(*first, n, dir, new) is Leaf));
            } else {
                law_close_undoes_split(*second, n - left, dir, new);
                assert(!(split_at(*second, n - left, dir, new) is Leaf));
            }
        },
    }
}

/// The size of the first part of a span: its share in percent, such that both parts keep at least
/// one cell.
pub open spec fn first_part(span: u32, ratio: u16) -> u32 {
    let scaled = span * ratio / 100;
    if scaled < 1 {
        1
    } else if scaled > span - 1 {
        (span - 1) as u32
    } else {
        scaled as u32
    }
}

/// The size of the first part of a span.
pub fn first_size(span: u32, ratio: u16) -> (r: u32)
    requires
        span >= 2,
    ensures
        r == first_part(span, ratio),
        1 <= r < span,
{
    assert(span as int * ratio as int <= 0xffff_ffff * 0xffff) by (nonlinear_arith)
        requires
            0 <= span <= 0xffff_ffff,
            0 <= ratio <= 0xffff,
    ;
    let scaled: u64 = span as u64 * ratio as u64 / 100;
    if scaled < 1 {
        1
    } else if scaled > (span - 1) as u64 {
        span - 1
    } else {
        scaled as u32
    }
}

/// The two parts of an area, and the rule between them if there is room for one.
pub open spec fn area_parts(area: Rect, dir: Split, ratio: u16) -> (Rect, Option<Rect>, Rect) {
    match dir {
        Split::Columns => if area.width < 2 {
            (area, None, Rect { x: (area.x + area.width) as u32, width: 0, ..area })
        } else {
            let gap = if area.width >= 3 {
                1int
            } else {
                0
            };
            let w = first_part((area.width - gap) as u32, ratio);
            (
                Rect { width: w, ..area },
                if gap == 1 {
                    Some(Rect { x: (area.x + w) as u32, width: 1, ..area })
                } else {
                    None
                },
                Rect {
                    x: (area.x + w + gap) as u32,
                    width: (area.width - w - gap) as u32,
                    ..area
                },
            )
        },
        Split::Rows => if area.height < 2 {
            (area, None, Rect { y: (area.y + area.height) as u32, height: 0, ..area })
        } else {
            let gap = if area.height >= 3 {
                1int
            } else {
                0
            };
            let h = first_part((area.height - gap) as u32, ratio);
            (
                Rect { height: h, ..area },
                if gap == 1 {
                    Some(Rect { y: (area.y + h) as u32, height: 1, ..area })
                } else {
                    None
                },
                Rect {
                    y: (area.y + h + gap) as u32,
                    height: (area.height - h - gap) as u32,
                    ..area
                },
            )
        },
    }
}

/// Splits an area in two parts, with a rule between them if there is room for one.
pub fn split_area(area: Rect, dir: Split, ratio: u16) -> (r: (Rect, Option<Rect>, Rect))
    requires
        area.x + area.width <= u32::MAX,
        area.y + area.height <= u32::MAX,
    ensures
        r == area_parts(area, dir, ratio),
{
    match dir {
        Split::Columns => {
            if area.width < 2 {
                return (area, None, Rect { x: area.x + area.width, width: 0, ..area });
            }
            let gap: u32 = if area.width >= 3 {
                1
            } else {
                0
            };
            let w = first_size(area.width - gap, ratio);
            let divider = if gap == 1 {
                Some(Rect { x: area.x + w, width: 1, ..area })
            } else {
                None
            };
            let second = Rect { x: area.x + w + gap, width: area.width - w - gap, ..area };
            (Rect { width: w, ..area }, divider, second)
        },
        Split::Rows => {
            if area.height < 2 {
                return (area, None, Rect { y: area.y + area.height, height: 0, ..area });
            }
            let gap: u32 = if area.height >= 3 {
                1
            } else {
                0
            };
            let h = first_size(area.height - gap, ratio);
            let divider = if gap == 1 {
                Some(Rect { y: area.y + h, height: 1, ..area })
            } else {
                None
            };
            let second = Rect { y: area.y + h + gap, height: area.height - h - gap, ..area };
            (Rect { height: h, ..area }, divider, second)
        },
    }
}

/// The panes of a tree with the areas they get.
pub open spec fn pane_areas(node: Node, area: Rect) -> Seq<(usize, Rect)>
    decreases node,
{
    match node {
        Node::Leaf(editor) => seq![(editor, area)],
        Node::Split { dir, ratio, first, second } => {
            let parts = area_parts(area, dir, ratio);
            pane_areas(*first, parts.0) + pane_areas(*second, parts.2)
        },
    }
}

/// The rules between the panes of a tree.
pub open spec fn divider_areas(node: Node, area: Rect) -> Seq<(Split, Rect)>
    decreases node,
{
    match node {
        Node::Leaf(_) => Seq::empty(),
        Node::Split { dir, ratio, first, second } => {
            let parts = area_parts(area, dir, ratio);
            let own = match parts.1 {
                Some(rect) => seq![(dir, rect)],
                None => Seq::empty(),
            };
            own + divider_areas(*first, parts.0) + divider_areas(*second, parts.2)
        },
    }
}

/// Whether a rectangle lies inside another.
pub open spec fn inside(a: Rect, b: Rect) -> bool {
    b.x <= a.x && a.right_col() <= b.right_col() && b.y <= a.y && a.bottom_row() <= b.bottom_row()
}

/// Whether two rectangles have no cell in common.
pub open spec fn disjoint(a: Rect, b: Rect) -> bool {
    a.right_col() <= b.x || b.right_col() <= a.x || a.bottom_row() <= b.y || b.bottom_row() <= a.y
}

impl Node {
    /// The areas of the panes and of the rules between them.
    pub fn layout(
        &self,
        area: Rect,
        panes: &mut Vec<(usize, Rect)>,
        dividers: &mut Vec<(Split, Rect)>,
    )
        requires
            area.x + area.width <= u32::MAX,
            area.y + area.height <= u32::MAX,
        ensures
            final(panes)@ == old(panes)@ + pane_areas(*self, area),
            final(dividers)@ == old(dividers)@ + divider_areas(*self, area),
        decreases self,
    {
        match self {
            Node::Leaf(editor) => {
                panes.push((*editor, area));
                assert(panes@ =~= old(panes)@ + pane_areas(*self, area));
                assert(dividers@ =~= old(dividers)@ + divider_areas(*self, area));
            },
            Node::Split { dir, ratio, first, second } => {
                let (a, divider, b) = split_area(area, *dir, *ratio);
                proof {
                    law_parts_tile(area, *dir, *ratio);
                }
                if let Some(rect) = divider {
                    dividers.push((*dir, rect));
                }
                first.layout(a, panes, dividers);
                second.layout(b, panes, dividers);
                assert(panes@ =~= old(panes)@ + pane_areas(*self, area));
                assert(dividers@ =~= old(dividers)@ + divider_areas(*self, area));
            },
        }
    }
}

/// A split covers its area without overlap: the parts and the rule lie inside it, have no cell in
/// common, and take all of its columns, or rows. Each part keeps at least one cell wherever the area
/// has two.
pub proof fn law_parts_tile(area: Rect, dir: Split, ratio: u16)
    requires
        area.x + area.width <= u32::MAX,
        area.y + area.height <= u32::MAX,
    ensures
        ({
            let (a, rule, b) = area_parts(area, dir, ratio);
            let gap = if rule is Some {
                1int
            } else {
                0
            };
            &&& inside(a, area) && inside(b, area) && disjoint(a, b)
            &&& rule is Some ==> inside(rule->0, area) && disjoint(a, rule->0) && disjoint(
                b,
                rule->0,
            )
            &&& dir == Split::Columns ==> a.width + gap + b.width == area.width && a.height
                == area.height && b.height == area.height
            &&& dir == Split::Rows ==> a.height + gap + b.height == area.height && a.width
                == area.width && b.width == area.width
            &&& dir == Split::Columns && area.width >= 2 ==> a.width >= 1 && b.width >= 1
            &&& dir == Split::Rows && area.height >= 2 ==> a.height >= 1 && b.height >= 1
        }),
{
}

proof fn lemma_panes_inside(node: Node, area: Rect, i: int)
    requires
        area.x + area.width <= u32::MAX,
        area.y + area.height <= u32::MAX,
        0 <= i < pane_areas(node, area).len(),
    ensures
        inside(pane_areas(node, area)[i].1, area),
        pane_areas(node, area).len() == leaves(node).len(),
        pane_areas(node, area)[i].0 == leaves(node)[i],
    decreases node,
{
    match node {
        Node::Leaf(_) => {},
        Node::Split { dir, ratio, first, second } => {
            let parts = area_parts(area, dir, ratio);
            law_parts_tile(area, dir, ratio);
            let left = pane_areas(*first, parts.0);
            let right = pane_areas(*second, parts.2);
            lemma_pane_count(*first, parts.0);
            lemma_pane_count(*second, parts.2);
            if i < left.len() {
                lemma_panes_inside(*first, parts.0, i);
            } else {
                lemma_panes_inside(*second, parts.2, i - left.len());
            }
        },
    }
}

proof fn lemma_pane_count(node: Node, area: Rect)
    ensures
        pane_areas(node, area).len() == leaves(node).len(),
    decreases node,
{
    match node {
        Node::Leaf(_) => {},
        Node::Split { dir, ratio, first, second } => {
            let parts = area_parts(area, dir, ratio);
            lemma_pane_count(*first, parts.0);
            lemma_pane_count(*second, parts.2);
        },
    }
}

/// The panes of a window tree lie inside its area, no two of them have a cell in common, and they
/// show the editors of the tree in order.
pub proof fn law_panes_tile(node: Node, area: Rect, i: int, j: int)
    requires
        area.x + area.width <= u32::MAX,
        area.y + area.height <= u32::MAX,
        0 <= i < j < leaves(node).len(),
    ensures
        pane_areas(node, area).len() == leaves(node).len(),
        pane_areas(node, area)[i].0 == leaves(node)[i],
        inside(pane_areas(node, area)[i].1, area),
        inside(pane_areas(node, area)[j].1, area),
        disjoint(pane_areas(node, area)[i].1, pane_areas(node, area)[j].1),
    decreases node,
{
    lemma_pane_count(node, area);
    lemma_panes_inside(node, area, i);
    lemma_panes_inside(node, area, j);
    match node {
        Node::Leaf(_) => {},
        Node::Split { dir, ratio, first, second } => {
            let parts = area_parts(area, dir, ratio);
            law_parts_tile(area, dir, ratio);
            let left = pane_areas(*first, parts.0);
            lemma_pane_count(*first, parts.0);
            lemma_pane_count(*second, parts.2);
            let n = left.len();
            if j < n {
                law_panes_tile(*first, parts.0, i, j);
            } else if i >= n {
                law_panes_tile(*second, parts.2, i - n, j - n);
            } else {
                lemma_panes_inside(*first, parts.0, i);
                lemma_panes_inside(*second, parts.2, j - n);
            }
        },
    }
}

/// The state of a [`Workspace`].
pub struct Space {
    /// The open documents.
    pub docs: Seq<Doc>,
    /// The editors on them, in the order of the tabs.
    pub editors: Seq<EditState>,
    /// The window tree.
    pub root: Node,
    /// The index of the focused pane.
    pub focused: nat,
    /// The shared clipboard.
    pub clipboard: Seq<char>,
    /// The width of indents.
    pub tab_width: usize,
    /// The profile.
    pub profile: Profile,
    /// Whether to quit.
    pub quit: bool,
}

/// What a key does to the window tree.
#[derive(Clone, Copy, Debug, PartialEq, Eq, Structural)]
pub enum WindowAct {
    /// Splits the focused pane.
    Split(Split),
    /// Focuses the next pane.
    FocusNext,
    /// Grows or shrinks the focused pane.
    Resize(bool),
    /// Shows the next or the previous editor in the focused pane.
    Cycle(bool),
    /// Closes the focused pane.
    Close,
}

/// What a key does to the window tree, if anything.
pub open spec fn window_act(key: KeyPress) -> Option<WindowAct> {
    if key == KeyPress::ctrl('\\') {
        Some(WindowAct::Split(Split::Columns))
    } else if key == KeyPress::alt('\\') {
        Some(WindowAct::Split(Split::Rows))
    } else if key == KeyPress::alt('o') {
        Some(WindowAct::FocusNext)
    } else if key == KeyPress::new(Mods::alt(), KeyCode::Up) {
        Some(WindowAct::Resize(true))
    } else if key == KeyPress::new(Mods::alt(), KeyCode::Down) {
        Some(WindowAct::Resize(false))
    } else if key == KeyPress::new(Mods::alt(), KeyCode::Right) {
        Some(WindowAct::Cycle(true))
    } else if key == KeyPress::new(Mods::alt(), KeyCode::Left) {
        Some(WindowAct::Cycle(false))
    } else if key == KeyPress::ctrl('w') {
        Some(WindowAct::Close)
    } else {
        None
    }
}

/// What a key does to the window tree, if anything.
pub fn window_key(key: KeyPress) -> (r: Option<WindowAct>)
    ensures
        r == window_act(key),
{
    if key == KeyPress::ctrl('\\') {
        Some(WindowAct::Split(Split::Columns))
    } else if key == KeyPress::alt('\\') {
        Some(WindowAct::Split(Split::Rows))
    } else if key == KeyPress::alt('o') {
        Some(WindowAct::FocusNext)
    } else if key == KeyPress::new(Mods::alt(), KeyCode::Up) {
        Some(WindowAct::Resize(true))
    } else if key == KeyPress::new(Mods::alt(), KeyCode::Down) {
        Some(WindowAct::Resize(false))
    } else if key == KeyPress::new(Mods::alt(), KeyCode::Right) {
        Some(WindowAct::Cycle(true))
    } else if key == KeyPress::new(Mods::alt(), KeyCode::Left) {
        Some(WindowAct::Cycle(false))
    } else if key == KeyPress::ctrl('w') {
        Some(WindowAct::Close)
    } else {
        None
    }
}

/// The editors with the edit of editor `source` made known to the others on its document.
pub open spec fn told(editors: Seq<EditState>, source: int) -> Seq<EditState> {
    let pending = editors[source].caret.last_edit;
    Seq::new(
        editors.len(),
        |i: int|
            {
                let e = editors[i];
                if i == source {
                    e.at(Caret { last_edit: None, ..e.caret })
                } else if pending is Some && e.caret.document == editors[source].caret.document {
                    e.at(e.caret.shifted(pending->0))
                } else {
                    e
                }
            },
    )
}

/// The editors with the edits of those from `source` on made known to the others.
pub open spec fn propagated(editors: Seq<EditState>, source: nat) -> Seq<EditState>
    decreases editors.len() - source,
{
    if source >= editors.len() {
        editors
    } else {
        propagated(told(editors, source as int), source + 1)
    }
}

/// The editors with their clipboards replaced.
pub open spec fn sharing(editors: Seq<EditState>, clipboard: Seq<char>) -> Seq<EditState> {
    editors.map_values(|e: EditState| EditState { clipboard, ..e })
}

/// Whether editor `index` is shown in a pane other than `pane`.
pub open spec fn shown_elsewhere(shown: Seq<usize>, pane: int, index: int) -> bool {
    exists|k: int| 0 <= k < shown.len() && k != pane && #[trigger] shown[k] == index
}

impl Space {
    /// Every document and every editor is well formed, every editor views a document, every pane
    /// shows an editor, and the focus is on a pane.
    pub open spec fn wf(self) -> bool {
        &&& self.editors.len() > 0
        &&& leaves(self.root).len() < usize::MAX
        &&& self.focused < leaves(self.root).len()
        &&& forall|i: int| 0 <= i < self.docs.len() ==> (#[trigger] self.docs[i]).wf()
        &&& forall|i: int| 0 <= i < self.editors.len() ==> #[trigger] self.settled(i)
        &&& forall|k: int|
            0 <= k < leaves(self.root).len() ==> (#[trigger] leaves(self.root)[k])
                < self.editors.len()
    }

    /// Whether editor `i` is well formed and views a document.
    pub open spec fn settled(self, i: int) -> bool {
        self.editors[i].wf() && self.editors[i].caret.document < self.docs.len()
    }

    /// The index of the editor in the focused pane.
    pub open spec fn active(self) -> int {
        leaves(self.root)[self.focused as int] as int
    }

    /// The editor in the focused pane.
    pub open spec fn active_editor(self) -> EditState {
        self.editors[self.active()]
    }

    /// The index of the document in the focused pane.
    pub open spec fn active_doc(self) -> int {
        self.active_editor().caret.document as int
    }

    /// With the active editor and its document replaced.
    pub open spec fn with_active(self, editor: EditState, doc: Doc) -> Space {
        Space {
            editors: self.editors.update(self.active(), editor),
            docs: self.docs.update(self.active_doc(), doc),
            ..self
        }
    }

    /// With the edits made known to the other editors on the same document.
    pub open spec fn settled_edits(self) -> Space {
        Space { editors: propagated(self.editors, 0), ..self }
    }

    /// With the clipboard of editor `i` shared, if it is a new one.
    pub open spec fn synced(self, i: int) -> Space {
        let clipboard = self.editors[i].clipboard;
        if clipboard == self.clipboard {
            self
        } else {
            Space { clipboard, editors: sharing(self.editors, clipboard), ..self }
        }
    }

    /// With a profile for all editors, if there is one.
    pub open spec fn adopting(self, profile: Option<Profile>) -> Space {
        match profile {
            Some(profile) => Space {
                profile,
                editors: self.editors.map_values(|e: EditState| e.in_profile(profile)),
                ..self
            },
            None => self,
        }
    }

    /// With what a command made of the active editor and its document: a quit is remembered, a
    /// profile and a clipboard are shared with all editors, and the edit is made known to the others
    /// on the same document.
    pub open spec fn commanded(
        self,
        editor: EditState,
        doc: Doc,
        profile: Option<Profile>,
    ) -> Space {
        let s = self.with_active(editor, doc);
        Space { quit: s.quit || editor.quit, ..s }.adopting(profile).synced(
            self.active(),
        ).settled_edits()
    }

    /// With a key handled by the active editor.
    pub open spec fn keyed(self, key: KeyPress) -> Space {
        let e = self.active_editor();
        let (editor, doc) = e.fed(self.docs[self.active_doc()], key);
        self.commanded(
            editor,
            doc,
            match resolve_layers(e.layers, e.keys.push(key)) {
                Resolved::Command(name) => switch_of(name),
                _ => None,
            },
        )
    }

    /// With the focused pane split: the new pane views the same document, and is focused.
    pub open spec fn split(self, dir: Split) -> Space {
        let e = self.active_editor();
        let view = EditState {
            clipboard: self.clipboard,
            tab_width: e.tab_width,
            ..EditState::fresh(Caret::fresh(e.caret.document))
        }.in_profile(self.profile);
        Space {
            editors: self.editors.push(view),
            root: split_at(self.root, self.focused as int, dir, self.editors.len() as usize),
            focused: self.focused + 1,
            ..self
        }
    }

    /// With the next pane focused.
    pub open spec fn next_focused(self) -> Space {
        Space { focused: (self.focused + 1) % leaves(self.root).len(), ..self }
    }

    /// Whether the focused pane may be pointed at editor `index`.
    pub open spec fn offered(self, index: int) -> bool {
        index == self.active() || !shown_elsewhere(
            leaves(self.root),
            self.focused as int,
            index,
        )
    }

    /// The first `n` editors that the focused pane may be pointed at.
    pub open spec fn candidates(self, n: nat) -> Seq<usize>
        decreases n,
    {
        if n == 0 {
            Seq::empty()
        } else {
            let before = self.candidates((n - 1) as nat);
            if self.offered(n - 1) {
                before.push((n - 1) as usize)
            } else {
                before
            }
        }
    }

    /// The editor that the focused pane shows next: the neighbour of the current one among the
    /// candidates, around the end.
    pub open spec fn neighbour(self, forward: bool) -> usize {
        let all = self.candidates(self.editors.len());
        let at = position_of(all, self.active() as usize, 0);
        all[neighbour_index(at, all.len(), forward)]
    }

    /// With the focused pane pointed at the next or the previous editor that no other pane shows.
    pub open spec fn cycled(self, forward: bool) -> Space {
        if self.candidates(self.editors.len()).len() <= 1 {
            self
        } else {
            Space {
                root: repointed(self.root, self.focused as int, self.neighbour(forward)),
                ..self
            }
        }
    }

    /// With the focused pane closed, unless it is the only one.
    pub open spec fn closed(self) -> Space {
        if leaves(self.root).len() <= 1 {
            self
        } else {
            Space {
                root: removed_at(self.root, self.focused as int),
                focused: least(self.focused as int, leaves(self.root).len() - 2) as nat,
                ..self
            }
        }
    }

    /// With a window command carried out.
    pub open spec fn windowed(self, act: WindowAct) -> Space {
        match act {
            WindowAct::Split(dir) => self.split(dir),
            WindowAct::FocusNext => self.next_focused(),
            WindowAct::Resize(grow) => Space {
                root: resized_at(self.root, self.focused as int, grow),
                ..self
            },
            WindowAct::Cycle(forward) => self.cycled(forward),
            WindowAct::Close => self.closed(),
        }
    }

    /// With a key fed: a window command carried out, or the key handled by the active editor.
    pub open spec fn fed(self, key: KeyPress) -> Space {
        match window_act(key) {
            Some(act) => self.windowed(act),
            None => self.keyed(key),
        }
    }

    /// Whether there is room for one more pane and for what a key may insert.
    pub open spec fn ready(self) -> bool {
        &&& leaves(self.root).len() + 1 < usize::MAX
        &&& self.editors.len() < usize::MAX
        &&& self.active_editor().has_room(self.docs[self.active_doc()])
    }

    /// With an editor and its document opened in the focused pane.
    pub open spec fn opened(self, editor: EditState, doc: Doc) -> Space {
        let e = EditState {
            tab_width: clamp(self.tab_width as int, 1, 16) as nat,
            clipboard: self.clipboard,
            ..on_document(editor, self.docs.len())
        }.in_profile(self.profile);
        Space {
            docs: self.docs.push(doc),
            editors: self.editors.push(e),
            root: repointed(self.root, self.focused as int, self.editors.len() as usize),
            ..self
        }
    }
}

/// An editor as a view of another document, at the same place.
pub open spec fn on_document(editor: EditState, document: nat) -> EditState {
    editor.at(Caret { document, ..editor.caret })
}

/// The profile that a command switches to, if it does.
pub open spec fn switch_of(command: Seq<char>) -> Option<Profile> {
    match act_of(command) {
        Act::Switch(profile) => Some(profile),
        _ => None,
    }
}

/// The first index from `i` on at which `x` stands, or the length.
pub open spec fn position_of(all: Seq<usize>, x: usize, i: nat) -> nat
    decreases all.len() - i,
{
    if i >= all.len() || all[i as int] == x {
        i
    } else {
        position_of(all, x, i + 1)
    }
}

/// The index behind or before `at` among `len`, around the end.
pub open spec fn neighbour_index(at: nat, len: nat, forward: bool) -> int {
    if forward {
        if at + 1 < len {
            at + 1int
        } else {
            0
        }
    } else if at == 0 {
        len - 1
    } else {
        at - 1
    }
}

/// The open documents, the editors on them, and the window tree that shows them.
#[derive(Debug)]
pub struct Workspace {
    documents: Vec<Document>,
    editors: Vec<Editor>,
    root: Node,
    focused: usize,
    clipboard: String,
    tab_width: usize,
    profile: Profile,
    quit: bool,
}

/// The contents of a list of documents.
pub open spec fn doc_views(v: Seq<Document>) -> Seq<Doc> {
    v.map_values(|d: Document| d@)
}

/// The states of a list of editors.
pub open spec fn editor_states(v: Seq<Editor>) -> Seq<EditState> {
    v.map_values(|e: Editor| e.state())
}

impl View for Workspace {
    type V = Space;

    closed spec fn view(&self) -> Space {
        Space {
            docs: doc_views(self.documents@),
            editors: editor_states(self.editors@),
            root: self.root,
            focused: self.focused as nat,
            clipboard: self.clipboard@,
            tab_width: self.tab_width,
            profile: self.profile,
            quit: self.quit,
        }
    }
}

/// A workspace on some documents: each has an editor, the first is shown, and no document gives an
/// empty one.
pub open spec fn space_on(docs: Seq<Doc>) -> Space {
    let all = if docs.len() == 0 {
        seq![Doc::fresh(Seq::empty(), None)]
    } else {
        docs
    };
    Space {
        docs: all,
        editors: Seq::new(all.len(), |i: int| EditState::fresh(Caret::fresh(i as nat))),
        root: Node::Leaf(0),
        focused: 0,
        clipboard: Seq::empty(),
        tab_width: 4,
        profile: Profile::Cua,
        quit: false,
    }
}

/// The documents of a list of editors with their documents.
pub open spec fn docs_of(v: Seq<(Document, Editor)>) -> Seq<Doc> {
    v.map_values(|p: (Document, Editor)| p.0@)
}

/// The states of the editors of such a list, each on the document of its own place.
pub open spec fn states_of(v: Seq<(Document, Editor)>) -> Seq<EditState> {
    Seq::new(v.len(), |i: int| on_document(v[i].1.state(), i as nat))
}

/// A workspace on some editors: the first is shown, and without any there is one on an empty
/// document.
pub open spec fn space_with(editors: Seq<EditState>, docs: Seq<Doc>) -> Space {
    if editors.len() == 0 {
        space_on(Seq::empty())
    } else {
        Space { docs, editors, ..space_on(Seq::empty()) }
    }
}

impl Workspace {
    /// A workspace on one editor and its document.
    pub fn new(editor: (Document, Editor)) -> (r: Self)
        requires
            editor.0@.wf(),
            editor.1.state().wf(),
        ensures
            r@ == space_with(seq![on_document(editor.1.state(), 0)], seq![editor.0@]),
            r@.wf(),
    {
        let mut editors: Vec<(Document, Editor)> = Vec::new();
        editors.push(editor);
        assert(docs_of(editors@) =~= seq![editor.0@]);
        assert(states_of(editors@) =~= seq![on_document(editor.1.state(), 0)]);
        Workspace::from_editors(editors)
    }

    /// A workspace on some editors and their documents; the first is shown, the others are
    /// background tabs. Without any there is one on an empty document.
    pub fn from_editors(editors: Vec<(Document, Editor)>) -> (r: Self)
        requires
            forall|i: int|
                0 <= i < editors@.len() ==> (#[trigger] editors@[i]).0@.wf()
                    && editors@[i].1.state().wf(),
        ensures
            r@ == space_with(states_of(editors@), docs_of(editors@)),
            r@.wf(),
    {
        let ghost given = editors@;
        let count = editors.len();
        if count == 0 {
            let r = Workspace::on_documents(Vec::new());
            assert(doc_views(Seq::<Document>::empty()) =~= Seq::empty());
            return r;
        }
        let mut left = editors;
        let mut documents: Vec<Document> = Vec::new();
        let mut all: Vec<Editor> = Vec::new();
        let mut i: usize = 0;
        while i < count
            invariant
                count == given.len(),
                i <= count,
                documents@.len() == i,
                all@.len() == i,
                left@ == given.skip(i as int),
                forall|k: int|
                    0 <= k < given.len() ==> (#[trigger] given[k]).0@.wf()
                        && given[k].1.state().wf(),
                forall|k: int| 0 <= k < i ==> (#[trigger] documents@[k])@ == given[k].0@,
                forall|k: int|
                    0 <= k < i ==> (#[trigger] all@[k]).state() == on_document(
                        given[k].1.state(),
                        k as nat,
                    ),
            decreases count - i,
        {
            assert(left@[0] == given[i as int]);
            let (document, editor) = left.remove(0);
            assert(left@ =~= given.skip(i + 1));
            let mut editor = editor;
            editor.buffer_mut().set_document_id(i);
            documents.push(document);
            all.push(editor);
            i += 1;
        }
        let r = Workspace {
            documents,
            editors: all,
            root: Node::Leaf(0),
            focused: 0,
            clipboard: String::new(),
            tab_width: 4,
            profile: Profile::Cua,
            quit: false,
        };
        proof {
            assert(r@.docs =~= docs_of(given));
            assert(r@.editors =~= states_of(given));
            assert(r@.clipboard =~= Seq::empty());
            assert(leaves(r@.root).len() == 1);
            assert forall|i: int| 0 <= i < r@.docs.len() implies (#[trigger] r@.docs[i]).wf() by {
                assert(r@.docs[i] == given[i].0@);
            }
            assert forall|i: int| 0 <= i < r@.editors.len() implies #[trigger] r@.settled(i) by {
                assert(given[i].1.state().wf());
            }
        }
        r
    }

    /// A workspace with a fresh editor on each of the documents.
    fn on_documents(documents: Vec<Document>) -> (r: Self)
        requires
            forall|i: int| 0 <= i < documents@.len() ==> (#[trigger] documents@[i])@.wf(),
        ensures
            r@ == space_on(doc_views(documents@)),
            r@.wf(),
    {
        let ghost given = doc_views(documents@);
        let mut documents = documents;
        if documents.len() == 0 {
            let (document, _) = Buffer::scratch();
            documents.push(document);
        }
        let ghost all = space_on(given).docs;
        assert(doc_views(documents@) =~= all);
        let mut editors: Vec<Editor> = Vec::new();
        let mut i: usize = 0;
        while i < documents.len()
            invariant
                i <= documents@.len(),
                i == editors@.len(),
                forall|k: int|
                    0 <= k < i ==> (#[trigger] editors@[k]).state() == EditState::fresh(
                        Caret::fresh(k as nat),
                    ),
            decreases documents@.len() - i,
        {
            editors.push(Editor::with_buffer(Buffer::over(i)));
            i += 1;
        }
        let r = Workspace {
            documents,
            editors,
            root: Node::Leaf(0),
            focused: 0,
            clipboard: String::new(),
            tab_width: 4,
            profile: Profile::Cua,
            quit: false,
        };
        proof {
            assert(r@.editors =~= space_on(given).editors);
            assert(r@.clipboard =~= Seq::empty());
            assert(leaves(r@.root).len() == 1);
            assert forall|i: int| 0 <= i < r@.docs.len() implies (#[trigger] r@.docs[i]).wf() by {
                assert(r@.docs[i] == r.documents@[i]@);
            }
        }
        r
    }

    /// The index of the editor in the focused pane.
    pub fn active_index(&self) -> (r: usize)
        requires
            self@.wf(),
        ensures
            r == self@.active(),
            r < self@.editors.len(),
    {
        match self.root.nth_editor(self.focused) {
            Some(i) => i,
            None => 0,
        }
    }

    /// The editor in the focused pane.
    pub fn active(&self) -> (r: &Editor)
        requires
            self@.wf(),
        ensures
            r.state() == self@.active_editor(),
    {
        &self.editors[self.active_index()]
    }

    /// The document in the focused pane.
    pub fn active_document(&self) -> (r: &Document)
        requires
            self@.wf(),
        ensures
            r@ == self@.docs[self@.active_doc()],
            r@.wf(),
    {
        let i = self.active_index();
        assert(self@.settled(i as int));
        let id = self.editors[i].buffer().document_id();
        assert(self@.docs[id as int] == self.documents@[id as int]@);
        &self.documents[id]
    }

    /// The editors, in the order of the tabs.
    pub fn editors(&self) -> (r: &[Editor])
        ensures
            editor_states(r@) == self@.editors,
    {
        self.editors.as_slice()
    }

    /// The open documents.
    pub fn documents(&self) -> (r: &[Document])
        ensures
            doc_views(r@) == self@.docs,
    {
        self.documents.as_slice()
    }

    /// The window tree.
    pub fn root(&self) -> (r: &Node)
        ensures
            *r == self@.root,
    {
        &self.root
    }

    /// The index of the focused pane.
    pub fn focused(&self) -> (r: usize)
        ensures
            r == self@.focused,
    {
        self.focused
    }

    /// How many panes there are.
    pub fn pane_count(&self) -> (r: usize)
        requires
            self@.wf(),
        ensures
            r == leaves(self@.root).len(),
    {
        self.root.leaf_count()
    }

    /// The profile of all panes.
    pub fn profile(&self) -> (r: Profile)
        ensures
            r == self@.profile,
    {
        self.profile
    }

    /// Whether a quit command was given.
    pub fn should_quit(&self) -> (r: bool)
        ensures
            r == self@.quit,
    {
        self.quit
    }
}

impl Workspace {
    /// Replaces the active editor's view of its document by what a key made of it.
    fn feed_active(&mut self, index: usize, key: KeyPress) -> (r: Resolution)
        requires
            old(self)@.wf(),
            old(self)@.ready(),
            index == old(self)@.active(),
        ensures
            ({
                let s = old(self)@;
                let (editor, doc) = s.active_editor().fed(s.docs[s.active_doc()], key);
                &&& final(self)@ == s.with_active(editor, doc)
                &&& r@ == resolve_layers(
                    s.active_editor().layers,
                    s.active_editor().keys.push(key),
                )
            }),
            final(self)@.wf(),
    {
        assert(self@.settled(index as int));
        let id = self.editors[index].buffer().document_id();
        assert(self@.docs[id as int] == self.documents@[id as int]@);
        assert(self@.editors[index as int] == self.editors@[index as int].state());
        let r = self.editors[index].handle_key(&mut self.documents[id], key);
        proof {
            let s = old(self)@;
            let (editor, doc) = s.active_editor().fed(s.docs[s.active_doc()], key);
            assert(self@.editors =~= s.editors.update(index as int, editor));
            assert(self@.docs =~= s.docs.update(id as int, doc));
            law_document_stays(s.active_editor(), s.docs[id as int], Seq::empty(), key);
            lemma_with_active_wf(s, editor, doc);
        }
        r
    }
}

proof fn lemma_with_active_wf(s: Space, editor: EditState, doc: Doc)
    requires
        s.wf(),
        editor.wf(),
        editor.caret.document == s.active_editor().caret.document,
        doc.wf(),
    ensures
        s.with_active(editor, doc).wf(),
{
    let i = s.active();
    assert(leaves(s.root)[s.focused as int] < s.editors.len());
    assert(s.settled(i));
    let t = s.with_active(editor, doc);
    assert forall|k: int| 0 <= k < t.editors.len() implies #[trigger] t.settled(k) by {
        assert(s.settled(k));
    }
}

/// Whether some editors are what others were, but for what does not concern the documents they view.
pub open spec fn same_places(a: Seq<EditState>, b: Seq<EditState>) -> bool {
    &&& a.len() == b.len()
    &&& forall|i: int|
        0 <= i < a.len() ==> (#[trigger] b[i]).wf() == a[i].wf() && b[i].caret.document
            == a[i].caret.document
}

proof fn lemma_places_wf(s: Space, t: Space)
    requires
        s.wf(),
        same_places(s.editors, t.editors),
        t.docs == s.docs,
        t.root == s.root,
        t.focused == s.focused,
    ensures
        t.wf(),
{
    assert forall|i: int| 0 <= i < t.editors.len() implies #[trigger] t.settled(i) by {
        assert(s.settled(i));
        assert(t.editors[i].wf() == s.editors[i].wf());
    }
}

proof fn lemma_propagated_places(editors: Seq<EditState>, source: nat)
    ensures
        same_places(editors, propagated(editors, source)),
    decreases editors.len() - source,
{
    if source < editors.len() {
        let next = told(editors, source as int);
        assert(same_places(editors, next));
        lemma_propagated_places(next, source + 1);
        let all = propagated(editors, source);
        assert forall|i: int| 0 <= i < editors.len() implies (#[trigger] all[i]).wf()
            == editors[i].wf() && all[i].caret.document == editors[i].caret.document by {
            assert(next[i].wf() == editors[i].wf());
        }
    }
}

impl Space {
    /// Whether every editor has the profile and the clipboard of the workspace.
    pub open spec fn shared(self) -> bool {
        forall|i: int|
            0 <= i < self.editors.len() ==> (#[trigger] self.editors[i]).profile == self.profile
                && self.editors[i].clipboard == self.clipboard
    }
}

proof fn lemma_propagated_shares(editors: Seq<EditState>, source: nat)
    ensures
        propagated(editors, source).len() == editors.len(),
        forall|i: int|
            0 <= i < editors.len() ==> (#[trigger] propagated(editors, source)[i]).profile
                == editors[i].profile && propagated(editors, source)[i].clipboard
                == editors[i].clipboard,
    decreases editors.len() - source,
{
    if source < editors.len() {
        let next = told(editors, source as int);
        lemma_propagated_shares(next, source + 1);
        assert forall|i: int| 0 <= i < editors.len() implies (#[trigger] propagated(
            editors,
            source,
        )[i]).profile == editors[i].profile && propagated(editors, source)[i].clipboard
            == editors[i].clipboard by {
            assert(next[i].profile == editors[i].profile);
        }
    }
}

proof fn lemma_command_shares(s: Space, editor: EditState, doc: Doc, profile: Option<Profile>)
    requires
        s.wf(),
        s.shared(),
        editor.profile == match profile {
            Some(p) => p,
            None => s.active_editor().profile,
        },
    ensures
        s.commanded(editor, doc, profile).shared(),
{
    let i = s.active();
    assert(leaves(s.root)[s.focused as int] < s.editors.len());
    let t = s.with_active(editor, doc);
    let u = Space { quit: t.quit || editor.quit, ..t }.adopting(profile);
    let v = u.synced(i);
    assert(s.editors[i].profile == s.profile);
    assert forall|k: int| 0 <= k < v.editors.len() implies (#[trigger] v.editors[k]).profile
        == v.profile && v.editors[k].clipboard == v.clipboard by {
        assert(s.editors[k].profile == s.profile);
        assert(t.editors[k].clipboard == u.editors[k].clipboard);
        assert(u.editors[k].profile == u.profile);
    }
    lemma_propagated_shares(v.editors, 0);
}

proof fn lemma_act_switches(e: EditState, d: Doc, act: Act, command: Seq<char>)
    ensures
        e.acted(d, act, command).0.profile == match act {
            Act::Switch(profile) => profile,
            _ => e.profile,
        },
{
}

proof fn lemma_windows_share(s: Space, act: WindowAct)
    requires
        s.wf(),
        s.shared(),
    ensures
        s.windowed(act).shared(),
{
    match act {
        WindowAct::Split(dir) => {
            let t = s.split(dir);
            assert forall|i: int| 0 <= i < t.editors.len() implies (#[trigger] t.editors[i]).profile
                == t.profile && t.editors[i].clipboard == t.clipboard by {
                if i < s.editors.len() {
                    assert(t.editors[i] == s.editors[i]);
                }
            }
        },
        _ => {
            assert(s.windowed(act).editors == s.editors);
        },
    }
}

proof fn lemma_opened_shares(s: Space, editor: EditState, doc: Doc)
    requires
        s.shared(),
    ensures
        s.opened(editor, doc).shared(),
{
    let t = s.opened(editor, doc);
    assert forall|i: int| 0 <= i < t.editors.len() implies (#[trigger] t.editors[i]).profile
        == t.profile && t.editors[i].clipboard == t.clipboard by {
        if i < s.editors.len() {
            assert(t.editors[i] == s.editors[i]);
        }
    }
}

proof fn lemma_keys_share(s: Space, key: KeyPress)
    requires
        s.wf(),
        s.shared(),
    ensures
        s.keyed(key).shared(),
{
    let e = s.active_editor();
    let d = s.docs[s.active_doc()];
    let (after, text) = e.fed(d, key);
    let resolved = resolve_layers(e.layers, e.keys.push(key));
    let profile = match resolved {
        Resolved::Command(name) => switch_of(name),
        _ => None,
    };
    if let Resolved::Command(name) = resolved {
        lemma_act_switches(EditState { keys: Seq::empty(), ..e }, d, act_of(name), name);
    }
    lemma_command_shares(s, after, text, profile);
}

/// The profile of the workspace is that of every editor, and so is its clipboard: no key, no command
/// and no opened editor makes them differ.
pub proof fn law_profile_and_clipboard_are_shared(
    s: Space,
    key: KeyPress,
    command: Seq<char>,
    editor: EditState,
    doc: Doc,
)
    requires
        s.wf(),
        s.shared(),
    ensures
        s.fed(key).shared(),
        s.executed(command).shared(),
        s.opened(editor, doc).shared(),
{
    match window_act(key) {
        Some(act) => {
            lemma_windows_share(s, act);
        },
        None => {
            lemma_keys_share(s, key);
        },
    }
    let e = s.active_editor();
    let d = s.docs[s.active_doc()];
    let (after, text) = e.executed(d, command);
    lemma_act_switches(e, d, act_of(command), command);
    lemma_command_shares(s, after, text, switch_of(command));
    lemma_opened_shares(s, editor, doc);
}

/// Once the edits are made known, none is pending.
pub proof fn law_no_edit_stays_pending(editors: Seq<EditState>, source: nat, i: int)
    requires
        0 <= i < editors.len(),
        i < source ==> editors[i].caret.last_edit is None,
    ensures
        propagated(editors, source).len() == editors.len(),
        propagated(editors, source)[i].caret.last_edit is None,
    decreases editors.len() - source,
{
    if source < editors.len() {
        law_no_edit_stays_pending(told(editors, source as int), source + 1, i);
    }
}

/// An edit through one editor moves the cursor of another editor on the same document along, as
/// [`crate::buffer::Caret::shifted`] says, and no cursor on another document.
pub proof fn law_siblings_track_an_edit(editors: Seq<EditState>, source: int, i: int)
    requires
        0 <= source < editors.len(),
        0 <= i < editors.len(),
        i != source,
        editors[source].caret.last_edit is Some,
        forall|k: int|
            0 <= k < editors.len() && k != source ==> (#[trigger] editors[k]).caret.last_edit
                is None,
    ensures
        propagated(editors, 0)[i].caret == if editors[i].caret.document
            == editors[source].caret.document {
            editors[i].caret.shifted(editors[source].caret.last_edit->0)
        } else {
            editors[i].caret
        },
{
    lemma_quiet(editors, 0, source as nat);
    let next = told(editors, source);
    assert(propagated(editors, source as nat) == propagated(next, (source + 1) as nat));
    lemma_quiet(next, (source + 1) as nat, next.len());
}

proof fn lemma_quiet(editors: Seq<EditState>, from: nat, to: nat)
    requires
        from <= to <= editors.len(),
        forall|k: int| from <= k < to ==> (#[trigger] editors[k]).caret.last_edit is None,
    ensures
        propagated(editors, from) == propagated(editors, to),
    decreases to - from,
{
    if from < to {
        assert(editors[from as int].caret.last_edit is None);
        assert(told(editors, from as int) =~= editors);
        lemma_quiet(editors, from + 1, to);
    }
}

impl Workspace {
    /// Makes the pending edit of an editor known to the others on its document.
    fn tell(&mut self, source: usize)
        requires
            source < old(self)@.editors.len(),
        ensures
            final(self)@ == (Space {
                editors: told(old(self)@.editors, source as int),
                ..old(self)@
            }),
    {
        let ghost before = self@.editors;
        assert(before[source as int] == self.editors@[source as int].state());
        let id = self.editors[source].buffer().document_id();
        let pending = self.editors[source].buffer_mut().take_last_edit();
        let ghost taken = before.update(
            source as int,
            before[source as int].at(
                Caret { last_edit: None, ..before[source as int].caret },
            ),
        );
        assert(self@.editors =~= taken);
        if let Some(edit) = pending {
            let mut j: usize = 0;
            while j < self.editors.len()
                invariant
                    j <= self.editors@.len(),
                    self.editors@.len() == before.len(),
                    source < before.len(),
                    before == old(self)@.editors,
                    before[source as int].caret.last_edit == Some(edit),
                    id == before[source as int].caret.document,
                    self@ == (Space { editors: self@.editors, ..old(self)@ }),
                    forall|k: int|
                        0 <= k < before.len() ==> #[trigger] self@.editors[k] == if k < j {
                            told(before, source as int)[k]
                        } else if k == source {
                            before[k].at(Caret { last_edit: None, ..before[k].caret })
                        } else {
                            before[k]
                        },
                decreases self.editors@.len() - j,
            {
                assert(self@.editors[j as int] == self.editors@[j as int].state());
                let ghost current = self@.editors;
                let other = self.editors[j].buffer().document_id();
                if j != source && other == id {
                    self.editors[j].buffer_mut().shift_cursor(&edit);
                    assert(self@.editors =~= current.update(
                        j as int,
                        current[j as int].at(current[j as int].caret.shifted(edit)),
                    ));
                }
                j += 1;
            }
        }
        assert(self@.editors =~= told(before, source as int));
    }

    /// Makes all pending edits known to the other editors on the same documents.
    fn propagate_edits(&mut self)
        requires
            old(self)@.wf(),
        ensures
            final(self)@ == old(self)@.settled_edits(),
            final(self)@.wf(),
    {
        let ghost before = self@.editors;
        let mut source: usize = 0;
        while source < self.editors.len()
            invariant
                source <= self.editors@.len(),
                self@ == (Space { editors: self@.editors, ..old(self)@ }),
                self@.editors.len() == self.editors@.len(),
                before == old(self)@.editors,
                propagated(before, 0) == propagated(self@.editors, source as nat),
            decreases self.editors@.len() - source,
        {
            self.tell(source);
            assert(self@.editors.len() == self.editors@.len());
            source += 1;
        }
        proof {
            lemma_propagated_places(before, 0);
            lemma_places_wf(old(self)@, self@);
        }
    }

    /// Shares the clipboard of an editor with all others, if it is a new one.
    fn sync_clipboard(&mut self, index: usize)
        requires
            old(self)@.wf(),
            index < old(self)@.editors.len(),
        ensures
            final(self)@ == old(self)@.synced(index as int),
            final(self)@.wf(),
    {
        let ghost before = self@.editors;
        assert(before[index as int] == self.editors@[index as int].state());
        let clipboard = self.editors[index].clipboard().to_owned();
        if same_text(clipboard.as_str(), self.clipboard.as_str()) {
            return ;
        }
        let mut i: usize = 0;
        while i < self.editors.len()
            invariant
                i <= self.editors@.len(),
                before.len() == self.editors@.len(),
                before == old(self)@.editors,
                self@ == (Space { editors: self@.editors, ..old(self)@ }),
                forall|k: int|
                    0 <= k < before.len() ==> #[trigger] self@.editors[k] == if k < i {
                        EditState { clipboard: clipboard@, ..before[k] }
                    } else {
                        before[k]
                    },
            decreases self.editors@.len() - i,
        {
            let ghost current = self@.editors;
            assert(current[i as int] == self.editors@[i as int].state());
            self.editors[i].set_clipboard(clipboard.as_str());
            assert(self@.editors =~= current.update(
                i as int,
                EditState { clipboard: clipboard@, ..current[i as int] },
            ));
            i += 1;
        }
        self.clipboard = clipboard;
        proof {
            assert(self@.editors =~= sharing(before, clipboard@));
            assert(same_places(before, self@.editors));
            lemma_places_wf(old(self)@, self@);
        }
    }

    /// Feeds a key: carries out a window command, or hands it to the active editor.
    pub fn handle_key(&mut self, key: KeyPress)
        requires
            old(self)@.wf(),
            old(self)@.ready(),
        ensures
            final(self)@ == old(self)@.fed(key),
            final(self)@.wf(),
    {
        if let Some(act) = window_key(key) {
            self.window_command(act);
            return ;
        }
        let index = self.active_index();
        let profile = match self.feed_active(index, key) {
            Resolution::Command(command) => switch_for(command.name()),
            _ => None,
        };
        self.settle(index, profile);
    }

    /// Remembers a quit of an editor, shares its profile and its clipboard, and makes its edit known.
    fn settle(&mut self, index: usize, profile: Option<Profile>)
        requires
            old(self)@.wf(),
            index < old(self)@.editors.len(),
        ensures
            ({
                let s = old(self)@;
                let quit = s.quit || s.editors[index as int].quit;
                final(self)@ == (Space { quit, ..s }).adopting(profile).synced(
                    index as int,
                ).settled_edits()
            }),
            final(self)@.wf(),
    {
        assert(self@.editors[index as int] == self.editors@[index as int].state());
        let ghost fed = self@;
        if self.editors[index].should_quit() {
            self.quit = true;
        }
        assert(self@.wf()) by {
            assert(same_places(fed.editors, self@.editors));
            lemma_places_wf(fed, self@);
        }
        if let Some(profile) = profile {
            self.set_profile(profile);
        }
        self.sync_clipboard(index);
        self.propagate_edits();
    }

    /// Carries out a window command.
    fn window_command(&mut self, act: WindowAct)
        requires
            old(self)@.wf(),
            old(self)@.ready(),
        ensures
            final(self)@ == old(self)@.windowed(act),
            final(self)@.wf(),
    {
        match act {
            WindowAct::Split(dir) => {
                self.split_focused(dir);
            },
            WindowAct::FocusNext => {
                self.focus_next();
            },
            WindowAct::Resize(grow) => {
                self.resize(grow);
            },
            WindowAct::Cycle(forward) => {
                self.cycle_buffer(forward);
            },
            WindowAct::Close => {
                self.close_pane();
            },
        }
    }

    /// Takes the window tree out, to be put back changed.
    fn take_root(&mut self) -> (r: Node)
        ensures
            r == old(self)@.root,
            final(self)@ == (Space { root: Node::Leaf(0), ..old(self)@ }),
    {
        let mut root = Node::Leaf(0);
        std::mem::swap(&mut self.root, &mut root);
        root
    }

    /// Splits the focused pane; the new one views the same document.
    fn split_focused(&mut self, dir: Split)
        requires
            old(self)@.wf(),
            old(self)@.ready(),
        ensures
            final(self)@ == old(self)@.split(dir),
            final(self)@.wf(),
    {
        let index = self.active_index();
        assert(self@.settled(index as int));
        assert(self@.editors[index as int] == self.editors@[index as int].state());
        let mut view = self.editors[index].view();
        view.set_clipboard(self.clipboard.as_str());
        view.set_profile(self.profile);
        let next = self.editors.len();
        self.editors.push(view);
        let root = self.take_root();
        self.root = split_leaf(root, self.focused, dir, next);
        self.focused = self.focused + 1;
        proof {
            let s = old(self)@;
            law_split_adds_one_pane(s.root, s.focused as int, dir, next);
            assert(self@.editors =~= s.split(dir).editors);
            assert(self@.docs =~= s.docs);
            let shown = leaves(self@.root);
            assert forall|k: int| 0 <= k < shown.len() implies (#[trigger] shown[k])
                < self@.editors.len() by {
                let n = s.focused + 1;
                if k < n {
                    assert(shown[k] == leaves(s.root)[k]);
                } else if k > n {
                    assert(shown[k] == leaves(s.root)[k - 1]);
                }
            }
            assert forall|i: int| 0 <= i < self@.editors.len() implies #[trigger] self@.settled(
                i,
            ) by {
                if i < s.editors.len() {
                    assert(s.settled(i));
                }
            }
        }
    }

    /// Focuses the next pane, the first behind the last.
    fn focus_next(&mut self)
        requires
            old(self)@.wf(),
        ensures
            final(self)@ == old(self)@.next_focused(),
            final(self)@.wf(),
    {
        let count = self.root.leaf_count();
        self.focused = (self.focused + 1) % count;
        assert(self@.wf()) by {
            lemma_root_wf(old(self)@, self@.root, self@.focused);
        }
    }

    /// Grows or shrinks the focused pane.
    fn resize(&mut self, grow: bool)
        requires
            old(self)@.wf(),
        ensures
            final(self)@ == old(self)@.windowed(WindowAct::Resize(grow)),
            final(self)@.wf(),
    {
        proof {
            law_resize_keeps_panes(self@.root, self@.focused as int, grow);
        }
        let root = self.take_root();
        self.root = resize_leaf(root, self.focused, grow);
        assert(self@.wf()) by {
            lemma_root_wf(old(self)@, self@.root, self@.focused);
        }
    }

    /// The editors that the panes show, in order.
    fn shown_editors(&self) -> (r: Vec<usize>)
        ensures
            r@ == leaves(self@.root),
    {
        let mut r: Vec<usize> = Vec::new();
        self.root.collect_editors(&mut r);
        assert(r@ =~= leaves(self@.root));
        r
    }

    /// Whether a pane other than the focused one shows an editor.
    fn shown_in_other_pane(&self, shown: &[usize], index: usize) -> (r: bool)
        ensures
            r == shown_elsewhere(shown@, self@.focused as int, index as int),
    {
        let mut k: usize = 0;
        while k < shown.len()
            invariant
                k <= shown@.len(),
                forall|j: int|
                    0 <= j < k && j != self@.focused ==> (#[trigger] shown@[j]) != index,
            decreases shown@.len() - k,
        {
            if k != self.focused && shown[k] == index {
                assert(shown@[k as int] == index);
                return true;
            }
            k += 1;
        }
        false
    }

    /// Points the focused pane at the next or the previous editor that no other pane shows.
    fn cycle_buffer(&mut self, forward: bool)
        requires
            old(self)@.wf(),
        ensures
            final(self)@ == old(self)@.cycled(forward),
            final(self)@.wf(),
    {
        let current = self.active_index();
        let shown = self.shown_editors();
        let mut all: Vec<usize> = Vec::new();
        let mut i: usize = 0;
        while i < self.editors.len()
            invariant
                i <= self.editors@.len(),
                *self == *old(self),
                self@.editors.len() == self.editors@.len(),
                shown@ == leaves(self@.root),
                current == self@.active(),
                all@.len() <= i,
                all@ == self@.candidates(i as nat),
                forall|k: int| 0 <= k < all@.len() ==> (#[trigger] all@[k]) < i,
            decreases self.editors@.len() - i,
        {
            if i == current || !self.shown_in_other_pane(shown.as_slice(), i) {
                all.push(i);
            }
            i += 1;
        }
        let len = all.len();
        if len <= 1 {
            return ;
        }
        let mut at: usize = 0;
        while at < len && all[at] != current
            invariant
                at <= len,
                len == all@.len(),
                position_of(all@, current, 0) == position_of(all@, current, at as nat),
            decreases len - at,
        {
            at += 1;
        }
        proof {
            lemma_current_offered(self@, self@.editors.len());
            lemma_position(all@, current, 0);
            assert(at < len);
        }
        let next: usize = if forward {
            if at + 1 < len {
                at + 1
            } else {
                0
            }
        } else if at == 0 {
            len - 1
        } else {
            at - 1
        };
        let editor = all[next];
        let root = self.take_root();
        self.root = root.set_nth_editor(self.focused, editor);
        proof {
            let s = old(self)@;
            law_repoint_changes_one_pane(s.root, s.focused as int, editor);
            lemma_root_wf(s, self@.root, self@.focused);
        }
    }

    /// Closes the focused pane, unless it is the only one; its editor stays open as a tab.
    fn close_pane(&mut self)
        requires
            old(self)@.wf(),
        ensures
            final(self)@ == old(self)@.closed(),
            final(self)@.wf(),
    {
        let count = self.root.leaf_count();
        if count <= 1 {
            return ;
        }
        proof {
            law_remove_takes_one_pane(self@.root, self@.focused as int);
        }
        let root = self.take_root();
        self.root = remove_leaf(root, self.focused);
        if self.focused >= count - 1 {
            self.focused = count - 2;
        }
        proof {
            let s = old(self)@;
            let shown = leaves(self@.root);
            assert forall|k: int| 0 <= k < shown.len() implies (#[trigger] shown[k])
                < s.editors.len() by {
                if k < s.focused {
                    assert(shown[k] == leaves(s.root)[k]);
                } else {
                    assert(shown[k] == leaves(s.root)[k + 1]);
                }
            }
            lemma_root_wf(s, self@.root, self@.focused);
        }
    }
}

proof fn lemma_root_wf(s: Space, root: Node, focused: nat)
    requires
        s.wf(),
        leaves(root).len() < usize::MAX,
        focused < leaves(root).len(),
        forall|k: int| 0 <= k < leaves(root).len() ==> (#[trigger] leaves(root)[k]) < s.editors.len(),
    ensures
        (Space { root, focused, ..s }).wf(),
{
    let t = Space { root, focused, ..s };
    assert forall|i: int| 0 <= i < t.editors.len() implies #[trigger] t.settled(i) by {
        assert(s.settled(i));
    }
}

proof fn lemma_current_offered(s: Space, n: nat)
    requires
        s.active() < n,
        n <= usize::MAX,
        0 <= s.active(),
    ensures
        s.candidates(n).contains(s.active() as usize),
    decreases n,
{
    if s.active() == n - 1 {
        let before = s.candidates((n - 1) as nat);
        assert(s.candidates(n) == before.push((n - 1) as usize));
        assert(s.candidates(n)[before.len() as int] == (n - 1) as usize);
    } else {
        lemma_current_offered(s, (n - 1) as nat);
        let before = s.candidates((n - 1) as nat);
        let k = choose|k: int| 0 <= k < before.len() && before[k] == s.active() as usize;
        assert(s.candidates(n)[k] == s.active() as usize);
    }
}

proof fn lemma_position(all: Seq<usize>, x: usize, i: nat)
    requires
        exists|k: int| i <= k < all.len() && all[k] == x,
    ensures
        i <= position_of(all, x, i) < all.len(),
    decreases all.len() - i,
{
    let k = choose|k: int| i <= k < all.len() && all[k] == x;
    if all[i as int] != x {
        assert(i + 1 <= k);
        lemma_position(all, x, i + 1);
    }
}

impl Space {
    /// Whether an editor views the file at a path.
    pub open spec fn views(self, editor: EditState, path: Seq<char>) -> bool {
        self.docs[editor.caret.document as int].path matches Some(p) && same_place(p, path)
    }

    /// The first editor from `i` on that views the file at a path, or the number of editors.
    pub open spec fn viewer(self, path: Seq<char>, i: nat) -> nat
        decreases self.editors.len() - i,
    {
        if i >= self.editors.len() || self.views(self.editors[i as int], path) {
            i
        } else {
            self.viewer(path, i + 1)
        }
    }

    /// The status line: that of the active editor, and the position of its tab.
    pub open spec fn status_text(self) -> Seq<char> {
        self.active_editor().status_text(self.docs[self.active_doc()]) + "   ["@ + decimal(
            (self.active() + 1) as nat,
        ) + "/"@ + decimal(self.editors.len()) + "]"@
    }
}

/// The profile that a command switches to, if it does.
fn switch_for(command: &str) -> (r: Option<Profile>)
    ensures
        r == switch_of(command@),
{
    match classify(command) {
        Act::Switch(profile) => Some(profile),
        _ => None,
    }
}

/// A copy of a list of diagnostics.
fn copy_diagnostics(v: &[Diagnostic]) -> (r: Vec<Diagnostic>)
    ensures
        r@ == v@,
{
    let mut r: Vec<Diagnostic> = Vec::new();
    let mut i: usize = 0;
    while i < v.len()
        invariant
            i <= v@.len(),
            r@ =~= v@.take(i as int),
        decreases v@.len() - i,
    {
        r.push(v[i].clone());
        i += 1;
    }
    assert(r@ =~= v@);
    r
}

/// A copy of a list of hints.
fn copy_hints(v: &[InlayHint]) -> (r: Vec<InlayHint>)
    ensures
        r@ == v@,
{
    let mut r: Vec<InlayHint> = Vec::new();
    let mut i: usize = 0;
    while i < v.len()
        invariant
            i <= v@.len(),
            r@ =~= v@.take(i as int),
        decreases v@.len() - i,
    {
        r.push(v[i].clone());
        i += 1;
    }
    assert(r@ =~= v@);
    r
}

/// A copy of a list of regions.
fn copy_folds(v: &[FoldRange]) -> (r: Vec<FoldRange>)
    ensures
        r@ == v@,
{
    let mut r: Vec<FoldRange> = Vec::new();
    let mut i: usize = 0;
    while i < v.len()
        invariant
            i <= v@.len(),
            r@ =~= v@.take(i as int),
        decreases v@.len() - i,
    {
        r.push(v[i]);
        i += 1;
    }
    assert(r@ =~= v@);
    r
}

impl Workspace {
    /// Whether an editor views the file at a path.
    fn editor_views(&self, index: usize, path: &str) -> (r: bool)
        requires
            index < self@.editors.len(),
            self@.editors[index as int].caret.document < self@.docs.len(),
        ensures
            r == self@.views(self@.editors[index as int], path@),
    {
        assert(self@.editors[index as int] == self.editors@[index as int].state());
        let id = self.editors[index].buffer().document_id();
        assert(self@.docs[id as int] == self.documents@[id as int]@);
        match self.documents[id].path() {
            Some(p) => same_path(p.as_str(), path),
            None => false,
        }
    }

    /// Sets the width of indents of all editors, and of those opened later.
    pub fn set_tab_width(&mut self, width: usize)
        requires
            old(self)@.wf(),
        ensures
            final(self)@ == (Space {
                tab_width: width,
                editors: old(self)@.editors.map_values(|e: EditState| EditState { tab_width: clamp(width as int, 1, 16) as nat, ..e }),
                ..old(self)@
            }),
            final(self)@.wf(),
    {
        let ghost before = self@.editors;
        self.tab_width = width;
        let mut i: usize = 0;
        while i < self.editors.len()
            invariant
                i <= self.editors@.len(),
                before.len() == self.editors@.len(),
                before == old(self)@.editors,
                old(self)@.wf(),
                self@ == (Space { tab_width: width, editors: self@.editors, ..old(self)@ }),
                forall|k: int|
                    0 <= k < before.len() ==> #[trigger] self@.editors[k] == if k < i {
                        EditState { tab_width: clamp(width as int, 1, 16) as nat, ..before[k] }
                    } else {
                        before[k]
                    },
            decreases self.editors@.len() - i,
        {
            let ghost current = self@.editors;
            assert(current[i as int] == self.editors@[i as int].state());
            assert(old(self)@.settled(i as int));
            self.editors[i].set_tab_width(width);
            assert(self@.editors =~= current.update(i as int, EditState { tab_width: clamp(width as int, 1, 16) as nat, ..current[i as int] }));
            i += 1;
        }
        proof {
            assert(self@.editors =~= before.map_values(|e: EditState| EditState { tab_width: clamp(width as int, 1, 16) as nat, ..e }));
            assert forall|i: int| 0 <= i < before.len() implies (#[trigger] self@.editors[i]).wf()
                == before[i].wf() && self@.editors[i].caret.document == before[i].caret.document by {
                assert(old(self)@.settled(i));
            }
            lemma_places_wf(old(self)@, self@);
        }
    }

    /// Sets the profile of all editors, and of those opened later.
    pub fn set_profile(&mut self, profile: Profile)
        requires
            old(self)@.wf(),
        ensures
            final(self)@ == (Space {
                profile,
                editors: old(self)@.editors.map_values(|e: EditState| e.in_profile(profile)),
                ..old(self)@
            }),
            final(self)@.wf(),
    {
        let ghost before = self@.editors;
        self.profile = profile;
        let mut i: usize = 0;
        while i < self.editors.len()
            invariant
                i <= self.editors@.len(),
                before.len() == self.editors@.len(),
                before == old(self)@.editors,
                old(self)@.wf(),
                self@ == (Space { profile, editors: self@.editors, ..old(self)@ }),
                forall|k: int|
                    0 <= k < before.len() ==> #[trigger] self@.editors[k] == if k < i {
                        before[k].in_profile(profile)
                    } else {
                        before[k]
                    },
            decreases self.editors@.len() - i,
        {
            let ghost current = self@.editors;
            assert(current[i as int] == self.editors@[i as int].state());
            assert(old(self)@.settled(i as int));
            self.editors[i].set_profile(profile);
            assert(self@.editors =~= current.update(i as int, current[i as int].in_profile(profile)));
            i += 1;
        }
        proof {
            assert(self@.editors =~= before.map_values(|e: EditState| e.in_profile(profile)));
            assert forall|i: int| 0 <= i < before.len() implies (#[trigger] self@.editors[i]).wf()
                == before[i].wf() && self@.editors[i].caret.document == before[i].caret.document by {
                assert(old(self)@.settled(i));
            }
            lemma_places_wf(old(self)@, self@);
        }
    }

    /// Takes the problems reported for a file: every editor on it gets them.
    pub fn apply_diagnostics(&mut self, path: &str, diagnostics: &[Diagnostic])
        requires
            old(self)@.wf(),
        ensures
            final(self)@ == (Space {
                editors: Seq::new(
                    old(self)@.editors.len(),
                    |i: int|
                        {
                            let e = old(self)@.editors[i];
                            if old(self)@.views(e, path@) {
                                EditState { diagnostics: diagnostics@, ..e }
                            } else {
                                e
                            }
                        },
                ),
                ..old(self)@
            }),
            final(self)@.wf(),
    {
        let ghost before = self@.editors;
        let mut i: usize = 0;
        while i < self.editors.len()
            invariant
                i <= self.editors@.len(),
                before.len() == self.editors@.len(),
                before == old(self)@.editors,
                old(self)@.wf(),
                self@ == (Space { editors: self@.editors, ..old(self)@ }),
                forall|k: int|
                    0 <= k < before.len() ==> #[trigger] self@.editors[k] == if k < i
                        && old(self)@.views(before[k], path@) {
                        EditState { diagnostics: diagnostics@, ..before[k] }
                    } else {
                        before[k]
                    },
            decreases self.editors@.len() - i,
        {
            let ghost current = self@.editors;
            assert(current[i as int] == self.editors@[i as int].state());
            assert(old(self)@.settled(i as int));
            if self.editor_views(i, path) {
                self.editors[i].set_diagnostics(copy_diagnostics(diagnostics));
                assert(self@.editors =~= current.update(
                    i as int,
                    EditState { diagnostics: diagnostics@, ..current[i as int] },
                ));
            }
            i += 1;
        }
        proof {
            let all = Seq::new(
                before.len(),
                |i: int|
                    {
                        let e = before[i];
                        if old(self)@.views(e, path@) {
                            EditState { diagnostics: diagnostics@, ..e }
                        } else {
                            e
                        }
                    },
            );
            assert(self@.editors =~= all);
            assert(same_places(before, self@.editors));
            lemma_places_wf(old(self)@, self@);
        }
    }

    /// Takes the hints for a file: every editor on it gets them.
    pub fn apply_inlay_hints(&mut self, path: &str, hints: &[InlayHint])
        requires
            old(self)@.wf(),
        ensures
            final(self)@ == (Space {
                editors: Seq::new(
                    old(self)@.editors.len(),
                    |i: int|
                        {
                            let e = old(self)@.editors[i];
                            if old(self)@.views(e, path@) {
                                EditState { hints: hints@, ..e }
                            } else {
                                e
                            }
                        },
                ),
                ..old(self)@
            }),
            final(self)@.wf(),
    {
        let ghost before = self@.editors;
        let mut i: usize = 0;
        while i < self.editors.len()
            invariant
                i <= self.editors@.len(),
                before.len() == self.editors@.len(),
                before == old(self)@.editors,
                old(self)@.wf(),
                self@ == (Space { editors: self@.editors, ..old(self)@ }),
                forall|k: int|
                    0 <= k < before.len() ==> #[trigger] self@.editors[k] == if k < i
                        && old(self)@.views(before[k], path@) {
                        EditState { hints: hints@, ..before[k] }
                    } else {
                        before[k]
                    },
            decreases self.editors@.len() - i,
        {
            let ghost current = self@.editors;
            assert(current[i as int] == self.editors@[i as int].state());
            assert(old(self)@.settled(i as int));
            if self.editor_views(i, path) {
                self.editors[i].set_inlay_hints(copy_hints(hints));
                assert(self@.editors =~= current.update(
                    i as int,
                    EditState { hints: hints@, ..current[i as int] },
                ));
            }
            i += 1;
        }
        proof {
            let all = Seq::new(
                before.len(),
                |i: int|
                    {
                        let e = before[i];
                        if old(self)@.views(e, path@) {
                            EditState { hints: hints@, ..e }
                        } else {
                            e
                        }
                    },
            );
            assert(self@.editors =~= all);
            assert(same_places(before, self@.editors));
            lemma_places_wf(old(self)@, self@);
        }
    }

    /// Takes the foldable regions of a file: every editor on it gets them.
    pub fn apply_folds(&mut self, path: &str, folds: &[FoldRange])
        requires
            old(self)@.wf(),
        ensures
            final(self)@ == (Space {
                editors: Seq::new(
                    old(self)@.editors.len(),
                    |i: int|
                        {
                            let e = old(self)@.editors[i];
                            if old(self)@.views(e, path@) {
                                e.folding(folds@)
                            } else {
                                e
                            }
                        },
                ),
                ..old(self)@
            }),
            final(self)@.wf(),
    {
        let ghost before = self@.editors;
        let mut i: usize = 0;
        while i < self.editors.len()
            invariant
                i <= self.editors@.len(),
                before.len() == self.editors@.len(),
                before == old(self)@.editors,
                old(self)@.wf(),
                self@ == (Space { editors: self@.editors, ..old(self)@ }),
                forall|k: int|
                    0 <= k < before.len() ==> #[trigger] self@.editors[k] == if k < i
                        && old(self)@.views(before[k], path@) {
                        before[k].folding(folds@)
                    } else {
                        before[k]
                    },
            decreases self.editors@.len() - i,
        {
            let ghost current = self@.editors;
            assert(current[i as int] == self.editors@[i as int].state());
            assert(old(self)@.settled(i as int));
            if self.editor_views(i, path) {
                self.editors[i].set_folds(copy_folds(folds));
                assert(self@.editors =~= current.update(
                    i as int,
                    current[i as int].folding(folds@),
                ));
            }
            i += 1;
        }
        proof {
            let all = Seq::new(
                before.len(),
                |i: int|
                    {
                        let e = before[i];
                        if old(self)@.views(e, path@) {
                            e.folding(folds@)
                        } else {
                            e
                        }
                    },
            );
            assert(self@.editors =~= all);
            assert(same_places(before, self@.editors));
            lemma_places_wf(old(self)@, self@);
        }
    }

    /// The editor in the focused pane, to be changed. It stays well formed and on its document.
    pub fn active_mut(&mut self) -> (r: &mut Editor)
        requires
            old(self)@.wf(),
        ensures
            r.state() == old(self)@.active_editor(),
            final(self)@ == (Space {
                editors: old(self)@.editors.update(old(self)@.active(), final(r).state()),
                ..old(self)@
            }),
    {
        let i = self.active_index();
        proof {
            let all = self.editors@;
            assert forall|e: Editor| #[trigger] editor_states(all.update(i as int, e))
                == editor_states(all).update(i as int, e.state()) by {
                assert(editor_states(all.update(i as int, e)) =~= editor_states(all).update(
                    i as int,
                    e.state(),
                ));
            }
        }
        &mut self.editors[i]
    }
}

impl Space {
    /// With a command run by the active editor.
    pub open spec fn executed(self, command: Seq<char>) -> Space {
        let (editor, doc) = self.active_editor().executed(self.docs[self.active_doc()], command);
        self.commanded(editor, doc, switch_of(command))
    }

    /// With a text inserted by the active editor.
    pub open spec fn typed(self, text: Seq<char>) -> Space {
        let (editor, doc) = self.active_editor().typed(self.docs[self.active_doc()], text);
        self.with_active(editor, doc).settled_edits()
    }

    /// With a range of the active document replaced.
    pub open spec fn replaced(self, start: nat, end: nat, text: Seq<char>) -> Space {
        let e = self.active_editor();
        let d = self.docs[self.active_doc()];
        let (caret, doc) = replaced(
            e.caret,
            d,
            (index_at(d.text, start), index_at(d.text, end)),
            text,
        );
        self.with_active(e.at(caret), doc).settled_edits()
    }

    /// With the active editor replaced, on the same document.
    pub open spec fn with_editor(self, editor: EditState) -> Space {
        Space { editors: self.editors.update(self.active(), editor), ..self }
    }

    /// The first editor on the file at a path shown in the focused pane, if there is one.
    pub open spec fn revealing(self, path: Seq<char>) -> Space {
        let i = self.viewer(path, 0);
        if i < self.editors.len() {
            Space { root: repointed(self.root, self.focused as int, i as usize), ..self }
        } else {
            self
        }
    }

    /// Where the cursor of the focused pane stands on the screen.
    pub open spec fn cursor_cell(self, area: Rect, glyphs: Glyphs) -> Option<(u32, u32)> {
        let pane = pane_areas(self.root, area)[self.focused as int];
        let e = self.editors[pane.0 as int];
        e.cursor_cell(self.docs[e.caret.document as int].text, pane.1, glyphs)
    }
}

proof fn lemma_with_editor_wf(s: Space, editor: EditState)
    requires
        s.wf(),
        editor.wf(),
        editor.caret.document == s.active_editor().caret.document,
    ensures
        s.with_editor(editor).wf(),
{
    let i = s.active();
    assert(leaves(s.root)[s.focused as int] < s.editors.len());
    assert(s.settled(i));
    assert(s.docs.update(s.active_doc(), s.docs[s.active_doc()]) =~= s.docs);
    lemma_with_active_wf(s, editor, s.docs[s.active_doc()]);
    assert(s.with_editor(editor) == s.with_active(editor, s.docs[s.active_doc()]));
}

impl Workspace {
    /// The index of the document that an editor views.
    fn document_of(&self, index: usize) -> (r: usize)
        requires
            self@.wf(),
            index < self@.editors.len(),
        ensures
            r == self@.editors[index as int].caret.document,
            r < self@.docs.len(),
            self@.docs.len() == self.documents@.len(),
            self@.editors.len() == self.editors@.len(),
            self@.docs[r as int] == self.documents@[r as int]@,
            self@.docs[r as int].wf(),
            self@.editors[index as int] == self.editors@[index as int].state(),
            self@.editors[index as int].wf(),
    {
        assert(self@.settled(index as int));
        assert(self@.editors[index as int] == self.editors@[index as int].state());
        let r = self.editors[index].buffer().document_id();
        assert(self@.docs[r as int] == self.documents@[r as int]@);
        r
    }

    /// The hint on the keys that may follow the sequence in progress in the focused pane, or none
    /// where no sequence is in progress.
    pub fn which_key(&self) -> (r: Option<WhichKey>)
        requires
            self@.wf(),
        ensures
            ({
                let s = self@.active_editor();
                match r {
                    Some(hint) => hint.entries().len() > 0 && are_hints(
                        s.layers,
                        s.keys,
                        rows_view(hint.entries()),
                    ),
                    None => are_hints(s.layers, s.keys, Seq::empty()),
                }
            }),
    {
        let rows = self.active().which_key();
        if rows.len() == 0 {
            assert(rows_view(rows@) =~= Seq::empty());
            None
        } else {
            Some(WhichKey::new(rows))
        }
    }

    /// Sets the message on the status line of the active editor.
    pub fn set_status(&mut self, message: &str)
        requires
            old(self)@.wf(),
        ensures
            final(self)@ == old(self)@.with_editor(old(self)@.active_editor().saying(message@)),
            final(self)@.wf(),
    {
        let i = self.active_index();
        self.document_of(i);
        self.editors[i].set_status(message);
        proof {
            let s = old(self)@;
            assert(self@.editors =~= s.with_editor(s.active_editor().saying(message@)).editors);
            lemma_with_editor_wf(s, s.active_editor().saying(message@));
        }
    }

    /// The status line of the active editor, with the position of its tab.
    pub fn status_line(&self) -> (r: String)
        requires
            self@.wf(),
        ensures
            r@ == self@.status_text(),
    {
        let i = self.active_index();
        let id = self.document_of(i);
        let mut r = self.editors[i].status_line(&self.documents[id]);
        r.append("   [");
        r.append(decimal_of(i as u128 + 1).as_str());
        r.append("/");
        r.append(decimal_of(self.editors.len() as u128).as_str());
        r.append("]");
        assert(r@ =~= self@.status_text());
        r
    }

    /// Inserts a text into the active document, as one edit.
    pub fn insert_text(&mut self, text: &str)
        requires
            old(self)@.wf(),
            old(self)@.docs[old(self)@.active_doc()].room(byte_len(text@)),
        ensures
            final(self)@ == old(self)@.typed(text@),
            final(self)@.wf(),
    {
        let i = self.active_index();
        let id = self.document_of(i);
        self.editors[i].buffer_mut().insert(&mut self.documents[id], text);
        proof {
            let s = old(self)@;
            let (editor, doc) = s.active_editor().typed(s.docs[s.active_doc()], text@);
            let t = s.with_active(editor, doc);
            assert(self@.editors =~= t.editors);
            assert(self@.docs =~= t.docs);
            lemma_with_active_wf(s, editor, doc);
        }
        self.propagate_edits();
    }

    /// Replaces a range of bytes of the active document.
    pub fn replace_active(&mut self, start: usize, end: usize, text: &str)
        requires
            old(self)@.wf(),
            old(self)@.docs[old(self)@.active_doc()].room(byte_len(text@)),
            start <= end,
        ensures
            final(self)@ == old(self)@.replaced(start as nat, end as nat, text@),
            final(self)@.wf(),
    {
        let i = self.active_index();
        let id = self.document_of(i);
        self.editors[i].buffer_mut().replace_range(&mut self.documents[id], start, end, text);
        proof {
            let s = old(self)@;
            let e = s.active_editor();
            let d = s.docs[s.active_doc()];
            let (caret, doc) = replaced(
                e.caret,
                d,
                (index_at(d.text, start as nat), index_at(d.text, end as nat)),
                text@,
            );
            let t = s.with_active(e.at(caret), doc);
            assert(self@.editors =~= t.editors);
            assert(self@.docs =~= t.docs);
            lemma_with_active_wf(s, e.at(caret), doc);
        }
        self.propagate_edits();
    }

    /// Where the cursor of the focused pane stands on the screen when the panes are drawn into
    /// `area`, if it is in view.
    pub fn active_cursor_screen(&self, area: Rect, glyphs: &Glyphs) -> (r: Option<(u32, u32)>)
        requires
            self@.wf(),
            area.wf(),
        ensures
            r == self@.cursor_cell(area, *glyphs),
    {
        let mut panes: Vec<(usize, Rect)> = Vec::new();
        let mut dividers: Vec<(Split, Rect)> = Vec::new();
        self.root.layout(area, &mut panes, &mut dividers);
        proof {
            assert(panes@ =~= pane_areas(self@.root, area));
            lemma_pane_count(self@.root, area);
            lemma_panes_inside(self@.root, area, self@.focused as int);
        }
        let (index, rect) = panes[self.focused];
        let id = self.document_of(index);
        self.editors[index].cursor_screen_position(&self.documents[id], rect, glyphs)
    }

    /// Runs a command on the active editor.
    pub fn execute(&mut self, command: &str)
        requires
            old(self)@.wf(),
            old(self)@.ready(),
        ensures
            final(self)@ == old(self)@.executed(command@),
            final(self)@.wf(),
    {
        let i = self.active_index();
        let id = self.document_of(i);
        self.editors[i].execute(&mut self.documents[id], command);
        proof {
            let s = old(self)@;
            let d = s.docs[s.active_doc()];
            let (editor, doc) = s.active_editor().executed(d, command@);
            let t = s.with_active(editor, doc);
            assert(self@.editors =~= t.editors);
            assert(self@.docs =~= t.docs);
            law_document_stays(s.active_editor(), d, command@, KeyPress::ctrl('a'));
            lemma_with_active_wf(s, editor, doc);
        }
        self.settle(i, switch_for(command));
    }

    /// Folds the region at the cursor of the focused pane, or unfolds it.
    pub fn toggle_active_fold(&mut self)
        requires
            old(self)@.wf(),
        ensures
            ({
                let s = old(self)@;
                final(self)@ == s.with_editor(
                    s.active_editor().fold_toggled(s.docs[s.active_doc()].text),
                )
            }),
            final(self)@.wf(),
    {
        let i = self.active_index();
        let id = self.document_of(i);
        self.editors[i].toggle_fold(&self.documents[id]);
        proof {
            let s = old(self)@;
            let e = s.active_editor().fold_toggled(s.docs[s.active_doc()].text);
            assert(self@.editors =~= s.with_editor(e).editors);
            lemma_with_editor_wf(s, e);
        }
    }

    /// Takes the active editor's request to open the search, if there is one.
    pub fn take_search_request(&mut self) -> (r: bool)
        requires
            old(self)@.wf(),
        ensures
            r == old(self)@.active_editor().searching,
            final(self)@ == old(self)@.with_editor(
                EditState { searching: false, ..old(self)@.active_editor() },
            ),
            final(self)@.wf(),
    {
        let i = self.active_index();
        self.document_of(i);
        let r = self.editors[i].take_search_requested();
        proof {
            let s = old(self)@;
            let e = EditState { searching: false, ..s.active_editor() };
            assert(self@.editors =~= s.with_editor(e).editors);
            lemma_with_editor_wf(s, e);
        }
        r
    }

    /// Takes the active editor's request to save its document, if there is one.
    pub fn take_save_request(&mut self) -> (r: bool)
        requires
            old(self)@.wf(),
        ensures
            r == old(self)@.active_editor().saving,
            final(self)@ == old(self)@.with_editor(
                EditState { saving: false, ..old(self)@.active_editor() },
            ),
            final(self)@.wf(),
    {
        let i = self.active_index();
        self.document_of(i);
        let r = self.editors[i].take_save_request();
        proof {
            let s = old(self)@;
            let e = EditState { saving: false, ..s.active_editor() };
            assert(self@.editors =~= s.with_editor(e).editors);
            lemma_with_editor_wf(s, e);
        }
        r
    }

    /// A document, to be journaled or saved by the host. It stays well formed.
    pub fn document_mut(&mut self, id: usize) -> (r: &mut Document)
        requires
            id < old(self)@.docs.len(),
        ensures
            r@ == old(self)@.docs[id as int],
            final(self)@ == (Space {
                docs: old(self)@.docs.update(id as int, final(r)@),
                ..old(self)@
            }),
    {
        proof {
            let all = self.documents@;
            assert(doc_views(all)[id as int] == all[id as int]@);
            assert forall|d: Document| #[trigger] doc_views(all.update(id as int, d)) == doc_views(
                all,
            ).update(id as int, d@) by {
                assert(doc_views(all.update(id as int, d)) =~= doc_views(all).update(
                    id as int,
                    d@,
                ));
            }
        }
        &mut self.documents[id]
    }

    /// Opens an editor and its document in the focused pane; what it showed stays open as a
    /// background tab. The editor takes over the width of indents, the profile and the clipboard.
    pub fn open(&mut self, editor: (Document, Editor))
        requires
            old(self)@.wf(),
            editor.0@.wf(),
            old(self)@.editors.len() < usize::MAX,
        ensures
            final(self)@ == old(self)@.opened(editor.1.state(), editor.0@),
            final(self)@.wf(),
    {
        let ghost given = editor;
        let (document, editor) = editor;
        let mut editor = editor;
        editor.buffer_mut().set_document_id(self.documents.len());
        editor.set_tab_width(self.tab_width);
        editor.set_clipboard(self.clipboard.as_str());
        editor.set_profile(self.profile);
        let index = self.editors.len();
        self.documents.push(document);
        self.editors.push(editor);
        let root = self.take_root();
        self.root = root.set_nth_editor(self.focused, index);
        proof {
            let s = old(self)@;
            let t = s.opened(given.1.state(), given.0@);
            assert(self@.docs =~= t.docs);
            assert(self@.editors =~= t.editors);
            law_repoint_changes_one_pane(s.root, s.focused as int, index);
            assert forall|i: int| 0 <= i < t.editors.len() implies #[trigger] t.settled(i) by {
                if i < s.editors.len() {
                    assert(s.settled(i));
                }
            }
        }
    }

    /// Shows the file at a path in the focused pane, if an editor on it is open. If not, the host
    /// reads the file and opens it.
    pub fn reveal_path(&mut self, path: &str) -> (r: bool)
        requires
            old(self)@.wf(),
        ensures
            final(self)@ == old(self)@.revealing(path@),
            r == (old(self)@.viewer(path@, 0) < old(self)@.editors.len()),
            final(self)@.wf(),
    {
        let mut i: usize = 0;
        while i < self.editors.len()
            invariant
                i <= self.editors@.len(),
                *self == *old(self),
                old(self)@.wf(),
                self@.editors.len() == self.editors@.len(),
                self@.viewer(path@, 0) == self@.viewer(path@, i as nat),
            decreases self.editors@.len() - i,
        {
            assert(self@.settled(i as int));
            if self.editor_views(i, path) {
                let root = self.take_root();
                self.root = root.set_nth_editor(self.focused, i);
                proof {
                    let s = old(self)@;
                    law_repoint_changes_one_pane(s.root, s.focused as int, i);
                    lemma_root_wf(s, self@.root, self@.focused);
                }
                return true;
            }
            i += 1;
        }
        false
    }

    /// Moves the cursor of the focused pane to a byte offset.
    pub fn set_active_cursor(&mut self, at: usize)
        requires
            old(self)@.wf(),
        ensures
            ({
                let s = old(self)@;
                let e = s.active_editor();
                final(self)@ == s.with_editor(
                    e.at(
                        Caret {
                            cursor: snap(s.docs[s.active_doc()].text, at as nat),
                            anchor: None,
                            goal: None,
                            ..e.caret
                        },
                    ),
                )
            }),
            final(self)@.wf(),
    {
        let i = self.active_index();
        let id = self.document_of(i);
        self.editors[i].buffer_mut().set_cursor(&self.documents[id], at);
        proof {
            let s = old(self)@;
            let e = s.active_editor().at(
                Caret {
                    cursor: snap(s.docs[s.active_doc()].text, at as nat),
                    anchor: None,
                    goal: None,
                    ..s.active_editor().caret
                },
            );
            assert(self@.editors =~= s.with_editor(e).editors);
            lemma_with_editor_wf(s, e);
        }
    }

    /// Takes the uses of the symbol under the cursor of the focused pane.
    pub fn set_active_occurrences(&mut self, occurrences: Vec<Occurrence>)
        requires
            old(self)@.wf(),
        ensures
            final(self)@ == old(self)@.with_editor(
                EditState { occurrences: occurrences@, ..old(self)@.active_editor() },
            ),
            final(self)@.wf(),
    {
        let i = self.active_index();
        self.document_of(i);
        self.editors[i].set_occurrences(occurrences);
        proof {
            let s = old(self)@;
            let e = EditState { occurrences: occurrences@, ..s.active_editor() };
            assert(self@.editors =~= s.with_editor(e).editors);
            lemma_with_editor_wf(s, e);
        }
    }

    /// Forgets the uses of the symbol under the cursor of the focused pane.
    pub fn clear_active_occurrences(&mut self)
        requires
            old(self)@.wf(),
        ensures
            final(self)@ == old(self)@.with_editor(
                EditState { occurrences: Seq::empty(), ..old(self)@.active_editor() },
            ),
            final(self)@.wf(),
    {
        let i = self.active_index();
        self.document_of(i);
        if self.editors[i].has_occurrences() {
            let none: Vec<Occurrence> = Vec::new();
            assert(none@ =~= Seq::empty());
            self.set_active_occurrences(none);
        } else {
            proof {
                let e = self@.active_editor();
                assert(e.occurrences =~= Seq::empty());
                assert(self@.editors.update(i as int, e) =~= self@.editors);
            }
        }
    }
}

/// The panes that a saved window tree names, in order.
pub open spec fn ordinals(layout: LayoutNode) -> Seq<usize>
    decreases layout,
{
    match layout {
        LayoutNode::Leaf(i) => seq![i],
        LayoutNode::Split { first, second, .. } => ordinals(*first) + ordinals(*second),
    }
}

/// A window tree for saving: its panes are numbered from `from` on.
pub open spec fn saved_tree(node: Node, from: nat) -> LayoutNode
    decreases node,
{
    match node {
        Node::Leaf(_) => LayoutNode::Leaf(from as usize),
        Node::Split { dir, ratio, first, second } => LayoutNode::Split {
            dir,
            ratio,
            first: Box::new(saved_tree(*first, from)),
            second: Box::new(saved_tree(*second, from + leaves(*first).len())),
        },
    }
}

/// The window tree of a saved one: pane `i` shows editor `i`.
pub open spec fn restored_tree(layout: LayoutNode) -> Node
    decreases layout,
{
    match layout {
        LayoutNode::Leaf(i) => Node::Leaf(i),
        LayoutNode::Split { dir, ratio, first, second } => Node::Split {
            dir,
            ratio,
            first: Box::new(restored_tree(*first)),
            second: Box::new(restored_tree(*second)),
        },
    }
}

/// Whether two trees have the same splits, whatever their panes show.
pub open spec fn same_shape(a: Node, b: Node) -> bool
    decreases a,
{
    match (a, b) {
        (Node::Leaf(_), Node::Leaf(_)) => true,
        (
            Node::Split { dir: d, ratio: r, first: f, second: s },
            Node::Split { dir: e, ratio: q, first: g, second: h },
        ) => d == e && r == q && same_shape(*f, *g) && same_shape(*s, *h),
        _ => false,
    }
}

impl Space {
    /// What is saved of an editor.
    pub open spec fn saved_pane(self, index: usize) -> SavedPane {
        let e = self.editors[index as int];
        let d = self.docs[e.caret.document as int];
        SavedPane { path: d.path, cursor: snap(d.text, e.caret.cursor), top: e.top, left: e.left }
    }

    /// What is saved of all panes.
    pub open spec fn saved(self) -> Seq<SavedPane> {
        leaves(self.root).map_values(|i: usize| self.saved_pane(i))
    }
}

/// The editor of a restored pane on the document `i`, with the text `text`.
pub open spec fn restored_editor(i: nat, text: Seq<char>, pane: SavedPane) -> EditState {
    EditState {
        caret: Caret { cursor: snap(text, pane.cursor), ..Caret::fresh(i) },
        top: pane.top,
        left: pane.left,
        ..EditState::fresh(Caret::fresh(i))
    }
}

/// The workspace of a saved session whose files have the texts of `docs`. If the saved tree names a
/// pane that there is not, the first pane is shown alone.
pub open spec fn restored(
    panes: Seq<SavedPane>,
    layout: LayoutNode,
    focused: nat,
    docs: Seq<Doc>,
) -> Space {
    let base = space_on(docs);
    let root = restored_tree(layout);
    let sound = forall|k: int|
        0 <= k < leaves(root).len() ==> (#[trigger] leaves(root)[k]) < base.editors.len();
    Space {
        editors: Seq::new(
            base.editors.len(),
            |i: int|
                if i < panes.len() {
                    restored_editor(i as nat, base.docs[i].text, panes[i])
                } else {
                    base.editors[i]
                },
        ),
        root: if sound {
            root
        } else {
            Node::Leaf(0)
        },
        focused: if sound {
            least(focused as int, leaves(root).len() - 1) as nat
        } else {
            0
        },
        ..base
    }
}

/// Rebuilds a window tree from a saved one.
fn layout_to_node(layout: &LayoutNode) -> (r: Node)
    ensures
        r == restored_tree(*layout),
    decreases layout,
{
    match layout {
        LayoutNode::Leaf(i) => Node::Leaf(*i),
        LayoutNode::Split { dir, ratio, first, second } => Node::Split {
            dir: *dir,
            ratio: *ratio,
            first: Box::new(layout_to_node(first)),
            second: Box::new(layout_to_node(second)),
        },
    }
}

proof fn lemma_restored_leaves(layout: LayoutNode)
    ensures
        leaves(restored_tree(layout)) == ordinals(layout),
    decreases layout,
{
    match layout {
        LayoutNode::Leaf(_) => {},
        LayoutNode::Split { first, second, .. } => {
            lemma_restored_leaves(*first);
            lemma_restored_leaves(*second);
        },
    }
}

impl Workspace {
    /// The window tree for saving, with the panes below `node` added to those saved so far.
    fn node_to_layout(&self, node: &Node, panes: &mut Vec<PaneState>) -> (r: LayoutNode)
        requires
            self@.wf(),
            forall|k: int|
                0 <= k < leaves(*node).len() ==> (#[trigger] leaves(*node)[k]) < self@.editors.len(),
            old(panes)@.len() + leaves(*node).len() <= usize::MAX,
        ensures
            r == saved_tree(*node, old(panes)@.len()),
            saved_panes(final(panes)@) == saved_panes(old(panes)@) + leaves(*node).map_values(
                |i: usize| self@.saved_pane(i),
            ),
            final(panes)@.len() == old(panes)@.len() + leaves(*node).len(),
        decreases node,
    {
        match node {
            Node::Leaf(index) => {
                assert(leaves(*node)[0] == *index);
                let id = self.document_of(*index);
                let editor = &self.editors[*index];
                let (viewport_top, viewport_left) = editor.viewport();
                let pane = PaneState {
                    path: clone_opt(self.documents[id].path()),
                    cursor: editor.buffer().cursor(&self.documents[id]),
                    viewport_top,
                    viewport_left,
                };
                let ordinal = panes.len();
                panes.push(pane);
                proof {
                    assert(pane@ == self@.saved_pane(*index));
                    assert(saved_panes(panes@) =~= saved_panes(old(panes)@).push(pane@));
                    assert(saved_panes(panes@) =~= saved_panes(old(panes)@) + leaves(
                        *node,
                    ).map_values(|i: usize| self@.saved_pane(i)));
                }
                LayoutNode::Leaf(ordinal)
            },
            Node::Split { dir, ratio, first, second } => {
                proof {
                    assert forall|k: int| 0 <= k < leaves(**first).len() implies (
                    #[trigger] leaves(**first)[k]) < self@.editors.len() by {
                        assert(leaves(*node)[k] == leaves(**first)[k]);
                    }
                    assert forall|k: int| 0 <= k < leaves(**second).len() implies (
                    #[trigger] leaves(**second)[k]) < self@.editors.len() by {
                        assert(leaves(*node)[leaves(**first).len() + k] == leaves(**second)[k]);
                    }
                }
                let a = self.node_to_layout(first, panes);
                let b = self.node_to_layout(second, panes);
                proof {
                    let f = |i: usize| self@.saved_pane(i);
                    assert(leaves(*node).map_values(f) =~= leaves(**first).map_values(f) + leaves(
                        **second,
                    ).map_values(f));
                    assert(saved_panes(panes@) =~= saved_panes(old(panes)@) + leaves(
                        *node,
                    ).map_values(f));
                }
                LayoutNode::Split { dir: *dir, ratio: *ratio, first: Box::new(a), second: Box::new(b) }
            },
        }
    }

    /// Captures the window tree, the open files, and the cursor and the viewport of every pane.
    pub fn to_session(&self) -> (r: Session)
        requires
            self@.wf(),
        ensures
            saved_panes(r.panes@) == self@.saved(),
            r.layout == saved_tree(self@.root, 0),
            r.focused == self@.focused,
    {
        let mut panes: Vec<PaneState> = Vec::new();
        let layout = self.node_to_layout(&self.root, &mut panes);
        assert(saved_panes(panes@) =~= self@.saved());
        Session { panes, layout, focused: self.focused }
    }

    /// Rebuilds a workspace from a saved session. `documents` holds what the host could read of each
    /// pane's file, in order; an empty document stands for one that could not be read.
    pub fn from_session(session: &Session, documents: Vec<Document>) -> (r: Self)
        requires
            documents@.len() == session.panes@.len(),
            forall|i: int| 0 <= i < documents@.len() ==> (#[trigger] documents@[i])@.wf(),
            ordinals(session.layout).len() < usize::MAX,
        ensures
            r@ == restored(
                saved_panes(session.panes@),
                session.layout,
                session.focused as nat,
                doc_views(documents@),
            ),
            r@.wf(),
    {
        let ghost panes = saved_panes(session.panes@);
        let ghost docs = doc_views(documents@);
        let ghost want = restored(panes, session.layout, session.focused as nat, docs);
        let mut r = Workspace::on_documents(documents);
        let ghost base = r@;
        let mut i: usize = 0;
        while i < session.panes.len()
            invariant
                i <= session.panes@.len(),
                panes == saved_panes(session.panes@),
                panes.len() <= base.editors.len(),
                base.wf(),
                base == space_on(docs),
                r@ == (Space { editors: r@.editors, ..base }),
                r@.editors.len() == base.editors.len(),
                forall|k: int|
                    0 <= k < base.editors.len() ==> #[trigger] r@.editors[k] == if k < i {
                        restored_editor(k as nat, base.docs[k].text, panes[k])
                    } else {
                        base.editors[k]
                    },
            decreases session.panes@.len() - i,
        {
            let pane = &session.panes[i];
            assert(panes[i as int] == pane@);
            let ghost current = r@.editors;
            proof {
                assert(current[i as int] == r.editors@[i as int].state());
                assert(r@.docs[i as int] == r.documents@[i as int]@);
                assert(r@.docs[i as int].wf());
            }
            r.editors[i].restore_position(
                &r.documents[i],
                pane.cursor,
                pane.viewport_top,
                pane.viewport_left,
            );
            proof {
                let e = restored_editor(i as nat, base.docs[i as int].text, panes[i as int]);
                assert(r@.editors =~= current.update(i as int, e));
            }
            i += 1;
        }
        let root = layout_to_node(&session.layout);
        let mut shown: Vec<usize> = Vec::new();
        root.collect_editors(&mut shown);
        proof {
            lemma_restored_leaves(session.layout);
            lemma_leaves_some(root);
            assert(shown@ =~= leaves(root));
            assert(same_places(base.editors, r@.editors));
            lemma_places_wf(base, r@);
        }
        let mut sound = true;
        let mut k: usize = 0;
        while k < shown.len()
            invariant
                k <= shown@.len(),
                sound == forall|j: int|
                    0 <= j < k ==> (#[trigger] shown@[j]) < r.editors@.len(),
            decreases shown@.len() - k,
        {
            if shown[k] >= r.editors.len() {
                sound = false;
            }
            k += 1;
        }
        assert(r@.editors =~= want.editors);
        if sound {
            let last: usize = shown.len() - 1;
            let focused: usize = if session.focused < last {
                session.focused
            } else {
                last
            };
            proof {
                lemma_root_wf(r@, root, focused as nat);
            }
            r.root = root;
            r.focused = focused;
        }
        r
    }
}

proof fn lemma_saved_tree(node: Node, from: nat)
    requires
        from + leaves(node).len() <= usize::MAX,
    ensures
        same_shape(restored_tree(saved_tree(node, from)), node),
        leaves(restored_tree(saved_tree(node, from))).len() == leaves(node).len(),
        forall|k: int|
            0 <= k < leaves(node).len() ==> #[trigger] leaves(
                restored_tree(saved_tree(node, from)),
            )[k] == from + k,
    decreases node,
{
    match node {
        Node::Leaf(_) => {},
        Node::Split { first, second, .. } => {
            let left = leaves(*first).len();
            lemma_saved_tree(*first, from);
            lemma_saved_tree(*second, from + left);
            let all = leaves(restored_tree(saved_tree(node, from)));
            let a = leaves(restored_tree(saved_tree(*first, from)));
            let b = leaves(restored_tree(saved_tree(*second, from + left)));
            assert(all == a + b);
            assert forall|k: int| 0 <= k < leaves(node).len() implies #[trigger] all[k] == from
                + k by {
                if k < left {
                    assert(all[k] == a[k]);
                } else {
                    assert(all[k] == b[k - left]);
                }
            }
        },
    }
}

/// A session survives being saved and restored, if the files still have the texts that they had:
/// the restored workspace has the same splits and the same focus, and pane `k` shows the document
/// that it showed, with the same cursor and viewport.
pub proof fn law_session_round_trip(s: Space, docs: Seq<Doc>, k: int)
    requires
        s.wf(),
        docs.len() == leaves(s.root).len(),
        forall|i: int|
            0 <= i < docs.len() ==> (#[trigger] docs[i]).text == s.docs[s.editors[leaves(
                s.root,
            )[i] as int].caret.document as int].text,
        0 <= k < docs.len(),
    ensures
        ({
            let r = restored(s.saved(), saved_tree(s.root, 0), s.focused, docs);
            let e = s.editors[leaves(s.root)[k] as int];
            let text = s.docs[e.caret.document as int].text;
            &&& same_shape(r.root, s.root)
            &&& r.focused == s.focused
            &&& leaves(r.root).len() == leaves(s.root).len()
            &&& leaves(r.root)[k] == k
            &&& r.docs[r.editors[k].caret.document as int].text == text
            &&& r.editors[k].caret.cursor == snap(text, e.caret.cursor)
            &&& r.editors[k].top == e.top
            &&& r.editors[k].left == e.left
        }),
{
    lemma_saved_tree(s.root, 0);
    let r = restored(s.saved(), saved_tree(s.root, 0), s.focused, docs);
    let root = restored_tree(saved_tree(s.root, 0));
    assert forall|j: int| 0 <= j < leaves(root).len() implies (#[trigger] leaves(root)[j])
        < space_on(docs).editors.len() by {
        assert(leaves(root)[j] == 0 + j);
    }
    let e = s.editors[leaves(s.root)[k] as int];
    let text = s.docs[e.caret.document as int].text;
    assert(docs[k].text == text);
    assert(s.saved()[k] == s.saved_pane(leaves(s.root)[k]));
    crate::text::lemma_index_bounds(text, e.caret.cursor);
    crate::text::lemma_index_of_offset(text, index_at(text, e.caret.cursor));
    assert(leaves(root)[k] == 0 + k);
}

/// The panes from `k` on drawn: the editors with their viewports moved, and what they show.
pub open spec fn draw_panes(
    c: Canvas,
    s: Space,
    panes: Seq<(usize, Rect)>,
    k: nat,
    theme: Theme,
    focused: bool,
) -> (Canvas, Space)
    decreases panes.len() - k,
{
    if k >= panes.len() {
        (c, s)
    } else {
        let (index, area) = panes[k as int];
        let e = s.editors[index as int];
        let text = s.docs[e.caret.document as int].text;
        draw_panes(
            e.drawn(c, text, area, theme, focused && k == s.focused),
            Space {
                editors: s.editors.update(
                    index as int,
                    e.after_drawing(text, area, c.glyphs),
                ),
                ..s
            },
            panes,
            k + 1,
            theme,
            focused,
        )
    }
}

/// A row of a rule drawn, from column `x` on.
pub open spec fn draw_rule_row(
    c: Canvas,
    area: Rect,
    x: int,
    y: int,
    glyph: char,
    style: Style,
) -> Canvas
    decreases area.right_col() - x,
{
    if x >= area.right_col() {
        c
    } else {
        draw_rule_row(c.glyph(x, y, glyph, style), area, x + 1, y, glyph, style)
    }
}

/// The rows of a rule drawn, from row `y` on.
pub open spec fn draw_rule(c: Canvas, area: Rect, y: int, glyph: char, style: Style) -> Canvas
    decreases area.bottom_row() - y,
{
    if y >= area.bottom_row() {
        c
    } else {
        draw_rule(
            draw_rule_row(c, area, area.x as int, y, glyph, style),
            area,
            y + 1,
            glyph,
            style,
        )
    }
}

/// The glyph of a rule.
pub open spec fn rule_glyph(dir: Split) -> char {
    match dir {
        Split::Columns => '│',
        Split::Rows => '─',
    }
}

/// The rules from `k` on drawn.
pub open spec fn draw_rules(c: Canvas, rules: Seq<(Split, Rect)>, k: nat, style: Style) -> Canvas
    decreases rules.len() - k,
{
    if k >= rules.len() {
        c
    } else {
        let (dir, area) = rules[k as int];
        draw_rules(
            draw_rule(c, area, area.y as int, rule_glyph(dir), style),
            rules,
            k + 1,
            style,
        )
    }
}

impl Space {
    /// The label of a tab: the name of its document, marked if it has unsaved changes.
    pub open spec fn tab_label(self, i: int) -> Seq<char> {
        let d = self.docs[self.editors[i].caret.document as int];
        " "@ + shown_name(d.path) + (if d.dirty {
            "●"@
        } else {
            Seq::empty()
        }) + " "@
    }

    /// The style of a tab: the active one, one that another pane shows, or a background one.
    pub open spec fn tab_style(self, i: int, theme: Theme, focused: bool) -> Style {
        if i == self.active() && focused {
            theme.inverse()
        } else if i == self.active() {
            Style::new(theme.background, theme.foreground)
        } else if leaves(self.root).contains(i as usize) {
            theme.accented()
        } else {
            theme.base_style()
        }
    }

    /// The tabs from `i` on drawn from column `x` on, as far as they start in the area.
    pub open spec fn draw_tabs(
        self,
        c: Canvas,
        i: nat,
        x: int,
        area: Rect,
        theme: Theme,
        focused: bool,
    ) -> Canvas
        decreases self.editors.len() - i,
    {
        if i >= self.editors.len() || x >= area.right_col() {
            c
        } else {
            let label = self.tab_label(i as int);
            self.draw_tabs(
                c.text(x, area.y as int, label, self.tab_style(i as int, theme, focused)),
                i + 1,
                c.text_end(x, label),
                area,
                theme,
                focused,
            )
        }
    }

    /// The tab bar drawn.
    pub open spec fn draw_tab_bar(
        self,
        c: Canvas,
        area: Rect,
        theme: Theme,
        focused: bool,
    ) -> Canvas {
        self.draw_tabs(
            c.blank(area.x as int, area.right_col(), area.y as int, theme.base_style()),
            0,
            area.x as int,
            area,
            theme,
            focused,
        )
    }

    /// The tab bar, the panes and the rules between them drawn into `area`.
    pub open spec fn drawn(
        self,
        c: Canvas,
        area: Rect,
        theme: Theme,
        focused: bool,
    ) -> (Canvas, Space) {
        if area.is_empty() {
            (c, self)
        } else {
            let (tabs, body) = area.top_split(1);
            let bar = self.draw_tab_bar(c, tabs, theme, focused);
            if body.is_empty() {
                (bar, self)
            } else {
                let (panes, s) = draw_panes(
                    bar,
                    self,
                    pane_areas(self.root, body),
                    0,
                    theme,
                    focused,
                );
                (draw_rules(panes, divider_areas(self.root, body), 0, theme.accented()), s)
            }
        }
    }
}

proof fn lemma_dividers_inside(node: Node, area: Rect, k: int)
    requires
        area.fits(),
        0 <= k < divider_areas(node, area).len(),
    ensures
        inside(divider_areas(node, area)[k].1, area),
    decreases node,
{
    match node {
        Node::Leaf(_) => {},
        Node::Split { dir, ratio, first, second } => {
            let parts = area_parts(area, dir, ratio);
            law_parts_tile(area, dir, ratio);
            let own: Seq<(Split, Rect)> = match parts.1 {
                Some(rect) => seq![(dir, rect)],
                None => Seq::empty(),
            };
            let a = divider_areas(*first, parts.0);
            let n = own.len();
            if k < n {
            } else if k < n + a.len() {
                lemma_dividers_inside(*first, parts.0, k - n);
            } else {
                lemma_dividers_inside(*second, parts.2, k - n - a.len());
            }
        },
    }
}

fn put_rule(surface: &mut Surface, area: Rect, glyph: char, style: Style)
    requires
        old(surface)@.wf(),
        area.fits(),
    ensures
        final(surface)@ == draw_rule(old(surface)@, area, area.y as int, glyph, style),
        final(surface)@.wf(),
{
    let ghost base = surface@;
    let mut y: u32 = area.y;
    while y < area.bottom()
        invariant
            surface@.wf(),
            area.fits(),
            area.y <= y <= area.bottom_row(),
            draw_rule(base, area, area.y as int, glyph, style) == draw_rule(
                surface@,
                area,
                y as int,
                glyph,
                style,
            ),
        decreases area.bottom_row() - y,
    {
        let ghost row = surface@;
        let mut x: u32 = area.x;
        while x < area.right()
            invariant
                surface@.wf(),
                area.fits(),
                area.x <= x <= area.right_col(),
                draw_rule_row(row, area, area.x as int, y as int, glyph, style) == draw_rule_row(
                    surface@,
                    area,
                    x as int,
                    y as int,
                    glyph,
                    style,
                ),
            decreases area.right_col() - x,
        {
            surface.set_char(x, y, glyph, style);
            x += 1;
        }
        y += 1;
    }
}

impl Workspace {
    /// Draws the tab bar and the panes into `area`. `focused` says whether the editor area has the
    /// focus of the application.
    pub fn render(&mut self, surface: &mut Surface, area: Rect, theme: &Theme, focused: bool)
        requires
            old(self)@.wf(),
            old(surface)@.wf(),
            area.wf(),
        ensures
            (final(surface)@, final(self)@) == old(self)@.drawn(
                old(surface)@,
                area,
                *theme,
                focused,
            ),
            final(surface)@.wf(),
            final(self)@.wf(),
    {
        if area.is_empty() {
            return ;
        }
        let (tabs, body) = area.split_top(1);
        self.put_tab_bar(surface, tabs, theme, focused);
        if body.is_empty() {
            return ;
        }
        let mut panes: Vec<(usize, Rect)> = Vec::new();
        let mut dividers: Vec<(Split, Rect)> = Vec::new();
        self.root.layout(body, &mut panes, &mut dividers);
        assert(panes@ =~= pane_areas(self@.root, body));
        assert(dividers@ =~= divider_areas(self@.root, body));
        let ghost root = self@.root;
        let ghost bar = surface@;
        let ghost start = self@;
        let mut k: usize = 0;
        while k < panes.len()
            invariant
                k <= panes@.len(),
                body.fits(),
                panes@ == pane_areas(root, body),
                self@.root == root,
                self@.wf(),
                surface@.wf(),
                draw_panes(bar, start, panes@, 0, *theme, focused) == draw_panes(
                    surface@,
                    self@,
                    panes@,
                    k as nat,
                    *theme,
                    focused,
                ),
            decreases panes@.len() - k,
        {
            let (index, rect) = panes[k];
            proof {
                lemma_pane_count(root, body);
                lemma_panes_inside(root, body, k as int);
            }
            let ghost s = self@;
            let id = self.document_of(index);
            let with_cursor = focused && k == self.focused;
            let ghost glyphs = surface@.glyphs;
            self.editors[index].render_in(&self.documents[id], surface, rect, theme, with_cursor);
            proof {
                let e = s.editors[index as int].after_drawing(s.docs[id as int].text, rect, glyphs);
                assert(self@.editors =~= s.editors.update(index as int, e));
                assert(same_places(s.editors, self@.editors));
                lemma_places_wf(s, self@);
            }
            k += 1;
        }
        let ghost drawn = surface@;
        let style = theme.accented();
        let mut k: usize = 0;
        while k < dividers.len()
            invariant
                k <= dividers@.len(),
                body.fits(),
                dividers@ == divider_areas(root, body),
                surface@.wf(),
                draw_rules(drawn, dividers@, 0, style) == draw_rules(
                    surface@,
                    dividers@,
                    k as nat,
                    style,
                ),
            decreases dividers@.len() - k,
        {
            let (dir, rect) = dividers[k];
            proof {
                lemma_dividers_inside(root, body, k as int);
            }
            let glyph = match dir {
                Split::Columns => '│',
                Split::Rows => '─',
            };
            put_rule(surface, rect, glyph, style);
            k += 1;
        }
    }

    fn put_tab_bar(&self, surface: &mut Surface, area: Rect, theme: &Theme, focused: bool)
        requires
            self@.wf(),
            old(surface)@.wf(),
            area.fits(),
        ensures
            final(surface)@ == self@.draw_tab_bar(old(surface)@, area, *theme, focused),
            final(surface)@.wf(),
    {
        surface.blank(area.x, area.right(), area.y, theme.base_style());
        let active = self.active_index();
        let shown = self.shown_editors();
        let ghost base = surface@;
        let mut x: u32 = area.x;
        let mut i: usize = 0;
        while i < self.editors.len() && x < area.right()
            invariant
                self@.wf(),
                surface@.wf(),
                area.fits(),
                i <= self.editors@.len(),
                self@.editors.len() == self.editors@.len(),
                shown@ == leaves(self@.root),
                active == self@.active(),
                self@.draw_tabs(base, 0, area.x as int, area, *theme, focused) == self@.draw_tabs(
                    surface@,
                    i as nat,
                    x as int,
                    area,
                    *theme,
                    focused,
                ),
            decreases self.editors@.len() - i,
        {
            let id = self.document_of(i);
            let mut label = " ".to_owned();
            label.append(self.editors[i].display_name(&self.documents[id]).as_str());
            if self.documents[id].is_dirty() {
                label.append("●");
            }
            label.append(" ");
            assert(label@ =~= self@.tab_label(i as int));
            let style = if i == active && focused {
                theme.inverse()
            } else if i == active {
                Style::new(theme.background, theme.foreground)
            } else if holds(shown.as_slice(), i) {
                theme.accented()
            } else {
                theme.base_style()
            };
            x = surface.set_str(x, area.y, label.as_str(), style);
            i += 1;
        }
    }
}

fn holds(all: &[usize], x: usize) -> (r: bool)
    ensures
        r == all@.contains(x),
{
    let mut i: usize = 0;
    while i < all.len()
        invariant
            i <= all@.len(),
            forall|k: int| 0 <= k < i ==> #[trigger] all@[k] != x,
        decreases all@.len() - i,
    {
        if all[i] == x {
            return true;
        }
        i += 1;
    }
    false
}

} // verus!
