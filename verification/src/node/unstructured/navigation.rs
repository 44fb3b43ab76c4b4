//! Cursor navigation within an unstructured node tree, and the editing operations which move the
//! cursor.

use vstd::prelude::*;

use crate::nav::{lemma_match_points, match_vertical_cursor_points, spec_match_points, MoveVerticalDirection, NavPath, NavPathNavigator};
use crate::node::function::Function;

use crate::render::{
    first_cursor, lemma_first_cursor, small, spec_to_viewport_point, spec_visibility, wadd,
    CalculatedPoint, PlacedGlyph, Renderer, RendererExt, SizeFn, Viewport, ViewportVisibility,
};
use crate::node::common::wsub;
use super::layout::{lemma_list_cursor, spec_list_layout};

use super::node::{
    empty_list, ListModel, NodeModel, Token, UnstructuredNode, UnstructuredNodeList, UnstructuredNodeRoot,
};
use super::paths::{
    lemma_enter, lemma_list_replace_target, lemma_list_replaced, lemma_outer, lemma_replace_valid,
    lemma_replace_wf, lemma_target_wf, lemma_valid_odd, lemma_with_last, lemma_valid_last,
    lemma_target_bounded, lemma_list_bounded, lemma_with_last_eq,
};

verus! {

broadcast use vstd::std_specs::vec::group_vec_axioms;

/// The value of an item passed through by a path: a node or a list of nodes.
pub enum ItemModel {
    Node(NodeModel),
    List(ListModel),
}

/// A copy of an item passed through when following a path.
pub enum TraceItem {
    Node(UnstructuredNode),
    List(UnstructuredNodeList),
}

impl View for TraceItem {
    type V = ItemModel;

    open spec fn view(&self) -> ItemModel {
        match self {
            TraceItem::Node(n) => ItemModel::Node(n@),
            TraceItem::List(l) => ItemModel::List(l@),
        }
    }
}

/// The values of a sequence of trace items.
pub open spec fn item_models(items: Seq<TraceItem>) -> Seq<ItemModel> {
    items.map_values(|i: TraceItem| i@)
}

impl NodeModel {
    /// The node list in the given slot of this node, if the node has that slot.
    pub open spec fn slot(self, k: int) -> Option<ListModel> {
        match self {
            NodeModel::Token(_) => None,
            NodeModel::Sqrt(l) | NodeModel::Parentheses(l) | NodeModel::Power(l) => if k == 0 {
                Some(l)
            } else {
                None
            },
            NodeModel::Fraction(t, b) => if k == 0 {
                Some(t)
            } else if k == 1 {
                Some(b)
            } else {
                None
            },
            NodeModel::FunctionCall(_, args) => if 0 <= k < args.len() {
                Some(args[k])
            } else {
                None
            },
        }
    }

    /// This node with the list in the given slot replaced.
    pub open spec fn with_slot(self, k: int, l: ListModel) -> NodeModel {
        match self {
            NodeModel::Token(t) => NodeModel::Token(t),
            NodeModel::Sqrt(_) => NodeModel::Sqrt(l),
            NodeModel::Parentheses(_) => NodeModel::Parentheses(l),
            NodeModel::Power(_) => NodeModel::Power(l),
            NodeModel::Fraction(t, b) => if k == 0 {
                NodeModel::Fraction(l, b)
            } else {
                NodeModel::Fraction(t, l)
            },
            NodeModel::FunctionCall(f, args) => NodeModel::FunctionCall(f, args.update(k, l)),
        }
    }

    /// A path starting at this node: a slot index followed by a path in that slot's list.
    pub open spec fn valid_path(self, p: Seq<usize>) -> bool
        decreases p.len(),
    {
        if p.len() < 2 {
            false
        } else {
            match self.slot(p[0] as int) {
                Some(l) => l.valid_path(p.skip(1)),
                None => false,
            }
        }
    }

    /// The items passed through when following a path from this node: this node, then the items
    /// that the rest of the path passes through in the slot it enters.
    pub open spec fn trace(self, p: Seq<usize>) -> Seq<ItemModel>
        decreases p.len(),
    {
        if p.len() < 2 {
            seq![ItemModel::Node(self)]
        } else {
            match self.slot(p[0] as int) {
                Some(l) => seq![ItemModel::Node(self)] + l.trace(p.skip(1)),
                None => seq![ItemModel::Node(self)],
            }
        }
    }

    /// The list which a valid path starting at this node ends in.
    pub open spec fn target(self, p: Seq<usize>) -> ListModel
        decreases p.len(),
    {
        if p.len() < 2 {
            ListModel { items: Seq::empty() }
        } else {
            match self.slot(p[0] as int) {
                Some(l) => l.target(p.skip(1)),
                None => ListModel { items: Seq::empty() },
            }
        }
    }

    /// This node with the list which a valid path ends in replaced.
    pub open spec fn replace(self, p: Seq<usize>, l: ListModel) -> NodeModel
        decreases p.len(),
    {
        if p.len() < 2 {
            self
        } else {
            match self.slot(p[0] as int) {
                Some(s) => self.with_slot(p[0] as int, s.replace(p.skip(1), l)),
                None => self,
            }
        }
    }
}

impl NodeModel {
    /// `new` is this node with the list which the path ends in replaced by `l`, stated slot by
    /// slot.
    pub open spec fn replaced(self, new: NodeModel, p: Seq<usize>, l: ListModel) -> bool
        decreases p.len(),
    {
        if p.len() < 2 {
            false
        } else {
            let k = p[0] as int;
            match (self, new) {
                (NodeModel::Sqrt(a), NodeModel::Sqrt(b)) => k == 0 && a.replaced(b, p.skip(1), l),
                (NodeModel::Parentheses(a), NodeModel::Parentheses(b)) => k == 0 && a.replaced(
                    b,
                    p.skip(1),
                    l,
                ),
                (NodeModel::Power(a), NodeModel::Power(b)) => k == 0 && a.replaced(b, p.skip(1), l),
                (NodeModel::Fraction(t1, b1), NodeModel::Fraction(t2, b2)) => if k == 0 {
                    b2 == b1 && t1.replaced(t2, p.skip(1), l)
                } else {
                    k == 1 && t2 == t1 && b1.replaced(b2, p.skip(1), l)
                },
                (NodeModel::FunctionCall(f1, a1), NodeModel::FunctionCall(f2, a2)) => {
                    &&& f1 == f2
                    &&& a1.len() == a2.len()
                    &&& 0 <= k < a1.len()
                    &&& forall|j: int| 0 <= j < a1.len() && j != k ==> a2[j] == a1[j]
                    &&& a1[k].replaced(a2[k], p.skip(1), l)
                },
                _ => false,
            }
        }
    }
}

impl ListModel {
    /// `new` is this list with the list which the path ends in replaced by `l`, stated item by
    /// item.
    pub open spec fn replaced(self, new: ListModel, p: Seq<usize>, l: ListModel) -> bool
        decreases p.len(),
    {
        if p.len() == 0 {
            false
        } else if p.len() == 1 {
            new == l
        } else {
            let k = p[0] as int;
            &&& 0 <= k < self.items.len()
            &&& new.items.len() == self.items.len()
            &&& forall|j: int| 0 <= j < self.items.len() && j != k ==> new.items[j] == self.items[j]
            &&& self.items[k].replaced(new.items[k], p.skip(1), l)
        }
    }

    /// A path of the cursor, starting at this list: indices into lists alternate with slot
    /// indices, and the final index is a position within the last list.
    pub open spec fn valid_path(self, p: Seq<usize>) -> bool
        decreases p.len(),
    {
        if p.len() == 0 {
            false
        } else if p.len() == 1 {
            p[0] <= self.items.len()
        } else {
            p[0] < self.items.len() && self.items[p[0] as int].valid_path(p.skip(1))
        }
    }

    /// The items passed through when following a path from this list: this list, then the items
    /// that the rest of the path passes through in the item it enters.
    pub open spec fn trace(self, p: Seq<usize>) -> Seq<ItemModel>
        decreases p.len(),
    {
        if p.len() <= 1 {
            seq![ItemModel::List(self)]
        } else if p[0] < self.items.len() {
            seq![ItemModel::List(self)] + self.items[p[0] as int].trace(p.skip(1))
        } else {
            seq![ItemModel::List(self)]
        }
    }

    /// The list which a valid path ends in.
    pub open spec fn target(self, p: Seq<usize>) -> ListModel
        decreases p.len(),
    {
        if p.len() <= 1 {
            self
        } else if p[0] < self.items.len() {
            self.items[p[0] as int].target(p.skip(1))
        } else {
            self
        }
    }

    /// This list with the list which a valid path ends in replaced.
    pub open spec fn replace(self, p: Seq<usize>, l: ListModel) -> ListModel
        decreases p.len(),
    {
        if p.len() <= 1 {
            l
        } else if p[0] < self.items.len() {
            ListModel {
                items: self.items.update(p[0] as int, self.items[p[0] as int].replace(p.skip(1), l)),
            }
        } else {
            self
        }
    }
}

impl NodeModel {
    /// Every function call in this node has at least one argument.
    pub open spec fn wf(self) -> bool
        decreases self,
    {
        match self {
            NodeModel::Token(_) => true,
            NodeModel::Sqrt(l) | NodeModel::Parentheses(l) | NodeModel::Power(l) => l.wf(),
            NodeModel::Fraction(t, b) => t.wf() && b.wf(),
            NodeModel::FunctionCall(_, args) => args.len() > 0 && forall|i: int|
                0 <= i < args.len() ==> (#[trigger] args[i]).wf(),
        }
    }
}

impl ListModel {
    /// Every function call in this list has at least one argument.
    pub open spec fn wf(self) -> bool
        decreases self,
    {
        forall|i: int| 0 <= i < self.items.len() ==> (#[trigger] self.items[i]).wf()
    }
}

impl NodeModel {
    /// Every list in this node is short enough to index with a machine word.
    pub open spec fn bounded(self) -> bool
        decreases self,
    {
        match self {
            NodeModel::Token(_) => true,
            NodeModel::Sqrt(l) | NodeModel::Parentheses(l) | NodeModel::Power(l) => l.bounded(),
            NodeModel::Fraction(t, b) => t.bounded() && b.bounded(),
            NodeModel::FunctionCall(_, args) => args.len() <= usize::MAX && forall|i: int|
                0 <= i < args.len() ==> (#[trigger] args[i]).bounded(),
        }
    }
}

impl ListModel {
    /// Every list in this list is short enough to index with a machine word.
    pub open spec fn bounded(self) -> bool
        decreases self,
    {
        self.items.len() <= usize::MAX && forall|i: int|
            0 <= i < self.items.len() ==> (#[trigger] self.items[i]).bounded()
    }
}

/// The list of a path which ends in the given list, extended into slot `k` of the item at its
/// final index, at position `j`.
pub open spec fn enter(p: Seq<usize>, k: usize, j: usize) -> Seq<usize> {
    p.push(k).push(j)
}

/// The path with its final index replaced.
pub open spec fn with_last(p: Seq<usize>, j: int) -> Seq<usize> {
    p.update(p.len() - 1, j as usize)
}

/// The path to the position of the node which contains the list that the path ends in.
pub open spec fn outer(p: Seq<usize>) -> Seq<usize> {
    p.take(p.len() - 2)
}

/// The node which contains the list that a path (of at least three indices) ends in.
pub open spec fn outer_node(t: ListModel, p: Seq<usize>) -> NodeModel {
    t.target(outer(p)).items[outer(p).last() as int]
}

/// The path after moving the cursor one step right.
pub open spec fn spec_move_right(t: ListModel, p: Seq<usize>) -> Seq<usize> {
    let l = t.target(p);
    let i = p.last();
    if i < l.items.len() {
        if l.items[i as int] is Token {
            with_last(p, i + 1)
        } else {
            enter(p, 0, 0)
        }
    } else if p.len() == 1 {
        p
    } else {
        let q = outer(p);
        let a = p[p.len() - 2];
        match outer_node(t, p) {
            NodeModel::FunctionCall(_, args) => if a + 1 < args.len() {
                enter(q, (a + 1) as usize, 0)
            } else {
                with_last(q, q.last() + 1)
            },
            _ => with_last(q, q.last() + 1),
        }
    }
}

/// Moving left does not enter a function call without arguments, which has no slot to move into.
pub open spec fn left_entry_ok(t: ListModel, p: Seq<usize>) -> bool {
    p.last() > 0 && t.target(p).items[p.last() - 1] is FunctionCall ==> t.target(p).items[p.last()
        - 1]->FunctionCall_1.len() > 0
}

/// Moving right hops from the end of a function call's argument into the start of the next one.
pub open spec fn hops_right(t: ListModel, p: Seq<usize>) -> bool {
    &&& !(p.last() < t.target(p).items.len())
    &&& p.len() != 1
    &&& outer_node(t, p) matches NodeModel::FunctionCall(_, args) && p[p.len() - 2] + 1 < args.len()
}

/// Moving left hops from the start of a function call's argument into the end of the previous
/// one.
pub open spec fn hops_left(t: ListModel, p: Seq<usize>) -> bool {
    &&& p.last() == 0
    &&& p.len() != 1
    &&& outer_node(t, p) matches NodeModel::FunctionCall(_, args) && p[p.len() - 2] > 0
}

/// The path after moving the cursor one step left.
pub open spec fn spec_move_left(t: ListModel, p: Seq<usize>) -> Seq<usize> {
    let l = t.target(p);
    let i = p.last();
    if i == 0 {
        if p.len() == 1 {
            p
        } else {
            let q = outer(p);
            let a = p[p.len() - 2];
            match outer_node(t, p) {
                NodeModel::FunctionCall(_, args) => if a > 0 {
                    enter(q, (a - 1) as usize, args[a - 1].items.len() as usize)
                } else {
                    q
                },
                _ => q,
            }
        }
    } else {
        let q = with_last(p, i - 1);
        match l.items[i - 1] {
            NodeModel::Token(_) => q,
            NodeModel::Sqrt(n) => enter(q, 0, n.items.len() as usize),
            NodeModel::Fraction(n, _) => enter(q, 0, n.items.len() as usize),
            NodeModel::Parentheses(n) => enter(q, 0, n.items.len() as usize),
            NodeModel::Power(n) => enter(q, 0, n.items.len() as usize),
            NodeModel::FunctionCall(_, args) => enter(
                q,
                (args.len() - 1) as usize,
                args.last().items.len() as usize,
            ),
        }
    }
}

/// The tree after inserting a node at the cursor.
pub open spec fn spec_insert_tree(t: ListModel, p: Seq<usize>, n: NodeModel) -> ListModel {
    t.replace(p, ListModel { items: t.target(p).items.insert(p.last() as int, n) })
}

/// The path after inserting a node at the cursor: past a token, or into the first slot of any
/// other node.
pub open spec fn spec_insert_path(p: Seq<usize>, n: NodeModel) -> Seq<usize> {
    if n is Token {
        with_last(p, p.last() + 1)
    } else {
        enter(p, 0, 0)
    }
}

/// The tree after deleting at the cursor: the item behind the cursor is removed; at the start
/// of a list inside a node, that node is removed; at the start of the root list, nothing is.
pub open spec fn spec_delete_tree(t: ListModel, p: Seq<usize>) -> ListModel {
    if p.last() > 0 {
        t.replace(p, ListModel { items: t.target(p).items.remove(p.last() - 1) })
    } else if p.len() == 1 {
        t
    } else {
        let q = outer(p);
        t.replace(q, ListModel { items: t.target(q).items.remove(q.last() as int) })
    }
}

/// The path after deleting at the cursor: one step back, or out to where the removed node was.
pub open spec fn spec_delete_path(t: ListModel, p: Seq<usize>) -> Seq<usize> {
    if p.last() > 0 {
        with_last(p, p.last() - 1)
    } else if p.len() == 1 {
        p
    } else {
        outer(p)
    }
}

/// The cursor glyph of the layout of a tree with the cursor at the given path.
pub open spec fn cursor_glyph(sz: SizeFn, t: ListModel, p: Seq<usize>) -> PlacedGlyph {
    let g = spec_list_layout(sz, t, Some(p), 0).glyphs;
    g[first_cursor(g).unwrap()]
}

/// The viewport arithmetic on a glyph does not wrap.
pub open spec fn view_small(pg: PlacedGlyph, v: Viewport) -> bool {
    let vp = spec_to_viewport_point(pg.1, Some(&v));
    &&& small(vp.x as int)
    &&& small(vp.y as int)
    &&& small(pg.0.area.width as int)
    &&& small(pg.0.area.height as int)
    &&& small(v.size.width as int)
    &&& small(v.size.height as int)
}

/// How much of a glyph a viewport clips.
pub open spec fn glyph_clip(pg: PlacedGlyph, v: Viewport) -> ViewportVisibility {
    let vp = spec_to_viewport_point(pg.1, Some(&v));
    spec_visibility(v.size, vp.x as int, vp.y as int, pg.0.area.width as int, pg.0.area.height as int)
}

/// The clipped item is not clipped at both ends of either axis, so it can be brought into view.
pub open spec fn clip_fits(vis: ViewportVisibility) -> bool {
    match vis {
        ViewportVisibility::Visible => true,
        ViewportVisibility::Clipped { top_clip, bottom_clip, left_clip, right_clip, .. } => !(top_clip
            > 0 && bottom_clip > 0) && !(left_clip > 0 && right_clip > 0),
    }
}

/// An offset moved by just enough to undo a clip at one end or the other.
pub open spec fn unclip(offset: u64, before: u64, after: u64) -> u64 {
    if before == 0 && after == 0 {
        offset
    } else if after == 0 {
        wsub(offset, before)
    } else if before == 0 {
        wadd(offset, after)
    } else {
        offset
    }
}

/// The viewport moved just enough to bring a clipped item into view.
pub open spec fn fitted_viewport(vis: ViewportVisibility, v: Viewport) -> Viewport {
    match vis {
        ViewportVisibility::Visible => v,
        ViewportVisibility::Clipped { top_clip, bottom_clip, left_clip, right_clip, .. } => Viewport {
            size: v.size,
            offset: CalculatedPoint {
                x: unclip(v.offset.x, left_clip, right_clip),
                y: unclip(v.offset.y, top_clip, bottom_clip),
            },
        },
    }
}

/// The cursor at the given path can be brought into view of the viewport.
pub open spec fn cursor_fits(sz: SizeFn, t: ListModel, p: Seq<usize>, v: Viewport) -> bool {
    view_small(cursor_glyph(sz, t, p), v) ==> clip_fits(glyph_clip(cursor_glyph(sz, t, p), v))
}

/// `after` is the viewport `before` moved to show the cursor at the given path.
pub open spec fn viewport_fitted(sz: SizeFn, t: ListModel, p: Seq<usize>, before: Viewport, after: Viewport) -> bool {
    &&& after.size == before.size
    &&& view_small(cursor_glyph(sz, t, p), before) ==> after == fitted_viewport(
        glyph_clip(cursor_glyph(sz, t, p), before),
        before,
    )
}

/// The prefix of a path which ends in a slot of the innermost fraction around the cursor which
/// the cursor can leave vertically from the given slot.
pub open spec fn vertical_scan(t: ListModel, q: Seq<usize>, slot: usize) -> Option<Seq<usize>>
    decreases q.len(),
{
    if q.len() < 3 {
        None
    } else if outer_node(t, q) is Fraction && q[q.len() - 2] == slot {
        Some(q)
    } else {
        vertical_scan(t, outer(q), slot)
    }
}

/// The slot which the cursor can leave in a direction, and the slot which it moves to.
pub open spec fn vertical_slots(direction: MoveVerticalDirection) -> (usize, usize) {
    match direction {
        MoveVerticalDirection::Up => (1, 0),
        MoveVerticalDirection::Down => (0, 1),
    }
}

/// The path after moving the cursor vertically: into the other slot of the innermost fraction
/// which allows it, at the position closest to where it was.
pub open spec fn spec_move_vertical(sz: SizeFn, t: ListModel, p: Seq<usize>, direction: MoveVerticalDirection) -> Seq<usize> {
    let (from, to) = vertical_slots(direction);
    match vertical_scan(t, p, from) {
        Some(q) => match outer_node(t, q) {
            NodeModel::Fraction(top, bottom) => outer(q).push(to).push(
                spec_match_points(sz, top, bottom, direction)[q.last() as int],
            ),
            _ => p,
        },
        None => p,
    }
}

/// Implemented by the parts of an unstructured node tree which a cursor path can start at.
pub trait Navigable: View {
    /// The given path can be followed from here.
    spec fn valid_nav(&self, p: Seq<usize>) -> bool;

    /// The list which the given path ends in.
    spec fn nav_target(&self, p: Seq<usize>) -> ListModel;

    /// `new` is this item with the list which the given path ends in replaced by `l`.
    spec fn nav_replaced(&self, new: Self::V, p: Seq<usize>, l: ListModel) -> bool;

    /// The items passed through when following the given path from here.
    spec fn nav_trace(&self, p: Seq<usize>) -> Seq<ItemModel>;

    /// Copies of the items passed through when following the given path from here, in order:
    /// this item first, then alternately the nodes and the lists along the path, ending with the
    /// list which the path ends in.
    fn path_trace(&self, path: &NavPathNavigator) -> (r: Vec<TraceItem>)
        requires
            path.index < path.path@.len(),
            self.valid_nav(path.rest()),
        ensures
            item_models(r@) == self.nav_trace(path.rest()),
    ;

    /// Given a navigation path, returns the list reached by following that path and the index
    /// into that list which the path ends with, as `navigate` does, together with copies of the
    /// items passed through on the way.
    fn navigate_trace<'a>(&'a mut self, path: &mut NavPathNavigator) -> (r: (
        &'a mut UnstructuredNodeList,
        usize,
        Vec<TraceItem>,
    ))
        requires
            old(path).index < old(path).path@.len(),
            old(self).valid_nav(old(path).rest()),
        ensures
            *final(path) == *old(path),
            r.1 == old(path).rest().last(),
            (*r.0)@ == old(self).nav_target(old(path).rest()),
            old(self).nav_replaced(final(self)@, old(path).rest(), (*final(r.0))@),
            item_models(r.2@) == old(self).nav_trace(old(path).rest()),
    ;

    /// Given a navigation path, returns the list reached by following that path, and the index
    /// into that list which the path ends with.
    fn navigate<'a>(&'a mut self, path: &mut NavPathNavigator) -> (r: (
        &'a mut UnstructuredNodeList,
        usize,
    ))
        requires
            old(path).index < old(path).path@.len(),
            old(self).valid_nav(old(path).rest()),
        ensures
            *final(path) == *old(path),
            old(path).rest().len() > 0,
            r.1 == old(path).rest().last(),
            (*r.0)@ == old(self).nav_target(old(path).rest()),
            old(self).nav_replaced(final(self)@, old(path).rest(), (*final(r.0))@),
    ;
}

impl Navigable for UnstructuredNodeList {
    open spec fn valid_nav(&self, p: Seq<usize>) -> bool {
        self@.valid_path(p)
    }

    open spec fn nav_trace(&self, p: Seq<usize>) -> Seq<ItemModel> {
        self@.trace(p)
    }

    fn path_trace(&self, path: &NavPathNavigator) -> (r: Vec<TraceItem>)
        decreases path.rest().len(),
    {
        let mut r: Vec<TraceItem> = Vec::new();
        r.push(TraceItem::List(self.copy()));
        if path.here() {
            assert(item_models(r@) =~= self@.trace(path.rest()));
            return r;
        }
        let next = path.next();
        let step = path.step();
        assert(step.rest() =~= path.rest().skip(1));
        let mut rest = self.items[next].path_trace(&step);
        let ghost first = r@;
        let ghost later = rest@;
        r.append(&mut rest);
        assert(item_models(r@) =~= item_models(first) + item_models(later));
        assert(item_models(first) =~= seq![ItemModel::List(self@)]);
        r
    }

    fn navigate_trace<'a>(&'a mut self, path: &mut NavPathNavigator) -> (r: (
        &'a mut UnstructuredNodeList,
        usize,
        Vec<TraceItem>,
    )) {
        let trace = self.path_trace(path);
        let (list, index) = self.navigate(path);
        (list, index, trace)
    }

    open spec fn nav_target(&self, p: Seq<usize>) -> ListModel {
        self@.target(p)
    }

    open spec fn nav_replaced(&self, new: ListModel, p: Seq<usize>, l: ListModel) -> bool {
        self@.replaced(new, p, l)
    }

    fn navigate<'a>(&'a mut self, path: &mut NavPathNavigator) -> (r: (
        &'a mut UnstructuredNodeList,
        usize,
    ))
        decreases old(path).rest().len(),
    {
        if path.here() {
            return (self, path.next());
        }
        let next = path.next();
        let mut step = path.step();
        assert(step.rest() =~= path.rest().skip(1));
        let item = &mut self.items[next];
        item.navigate(&mut step)
    }
}

impl Navigable for UnstructuredNode {
    open spec fn valid_nav(&self, p: Seq<usize>) -> bool {
        self@.valid_path(p)
    }

    open spec fn nav_trace(&self, p: Seq<usize>) -> Seq<ItemModel> {
        self@.trace(p)
    }

    fn path_trace(&self, path: &NavPathNavigator) -> (r: Vec<TraceItem>)
        decreases path.rest().len(),
    {
        let mut r: Vec<TraceItem> = Vec::new();
        r.push(TraceItem::Node(self.copy()));
        let next = path.next();
        let step = path.step();
        assert(step.rest() =~= path.rest().skip(1));
        let mut rest = match self {
            UnstructuredNode::Sqrt(inner) => inner.path_trace(&step),
            UnstructuredNode::Parentheses(inner) => inner.path_trace(&step),
            UnstructuredNode::Power(exp) => exp.path_trace(&step),
            UnstructuredNode::Fraction(top, bottom) => {
                if next == 0 {
                    top.path_trace(&step)
                } else {
                    bottom.path_trace(&step)
                }
            },
            UnstructuredNode::FunctionCall(_, args) => {
                assert(self@->FunctionCall_1[next as int] == args@[next as int]@);
                args[next].path_trace(&step)
            },
            UnstructuredNode::Token(_) => Vec::new(),
        };
        let ghost first = r@;
        let ghost later = rest@;
        r.append(&mut rest);
        assert(item_models(r@) =~= item_models(first) + item_models(later));
        assert(item_models(first) =~= seq![ItemModel::Node(self@)]);
        r
    }

    fn navigate_trace<'a>(&'a mut self, path: &mut NavPathNavigator) -> (r: (
        &'a mut UnstructuredNodeList,
        usize,
        Vec<TraceItem>,
    )) {
        let trace = self.path_trace(path);
        let (list, index) = self.navigate(path);
        (list, index, trace)
    }

    open spec fn nav_target(&self, p: Seq<usize>) -> ListModel {
        self@.target(p)
    }

    open spec fn nav_replaced(&self, new: NodeModel, p: Seq<usize>, l: ListModel) -> bool {
        self@.replaced(new, p, l)
    }

    fn navigate<'a>(&'a mut self, path: &mut NavPathNavigator) -> (r: (
        &'a mut UnstructuredNodeList,
        usize,
    ))
        decreases old(path).rest().len(),
    {
        let next = path.next();
        let mut step = path.step();
        assert(step.rest() =~= path.rest().skip(1));
        match self {
            UnstructuredNode::Sqrt(inner) => inner.navigate(&mut step),
            UnstructuredNode::Parentheses(inner) => inner.navigate(&mut step),
            UnstructuredNode::Power(exp) => exp.navigate(&mut step),
            UnstructuredNode::Fraction(top, bottom) => {
                if next == 0 {
                    top.navigate(&mut step)
                } else {
                    bottom.navigate(&mut step)
                }
            },
            UnstructuredNode::FunctionCall(_, args) => {
                let arg = &mut args[next];
                arg.navigate(&mut step)
            },
            UnstructuredNode::Token(_) => vstd::pervasive::unreached(),
        }
    }
}

/// Follows a valid path from a list without modifying anything, returning the list it ends in
/// and its final index.
fn locate_in_list<'a>(list: &'a UnstructuredNodeList, nav: &NavPathNavigator) -> (r: (
    &'a UnstructuredNodeList,
    usize,
))
    requires
        nav.index < nav.path@.len(),
        list@.valid_path(nav.rest()),
    ensures
        r.0@ == list@.target(nav.rest()),
        r.1 == nav.rest().last(),
    decreases nav.rest().len(),
{
    if nav.here() {
        return (list, nav.next());
    }
    let next = nav.next();
    let step = nav.step();
    assert(step.rest() =~= nav.rest().skip(1));
    locate_in_node(&list.items[next], &step)
}

fn locate_in_node<'a>(node: &'a UnstructuredNode, nav: &NavPathNavigator) -> (r: (
    &'a UnstructuredNodeList,
    usize,
))
    requires
        nav.index < nav.path@.len(),
        node@.valid_path(nav.rest()),
    ensures
        r.0@ == node@.target(nav.rest()),
        r.1 == nav.rest().last(),
    decreases nav.rest().len(),
{
    let next = nav.next();
    let step = nav.step();
    assert(step.rest() =~= nav.rest().skip(1));
    match node {
        UnstructuredNode::Sqrt(inner) => locate_in_list(inner, &step),
        UnstructuredNode::Parentheses(inner) => locate_in_list(inner, &step),
        UnstructuredNode::Power(exp) => locate_in_list(exp, &step),
        UnstructuredNode::Fraction(top, bottom) => {
            if next == 0 {
                locate_in_list(top, &step)
            } else {
                locate_in_list(bottom, &step)
            }
        },
        UnstructuredNode::FunctionCall(_, args) => locate_in_list(&args[next], &step),
        UnstructuredNode::Token(_) => vstd::pervasive::unreached(),
    }
}

/// Follows a valid path from the start of the root list.
fn locate<'a>(list: &'a UnstructuredNodeList, path: &NavPath) -> (r: (&'a UnstructuredNodeList, usize))
    requires
        list@.valid_path(path@),
    ensures
        r.0@ == list@.target(path@),
        r.1 == path@.last(),
{
    let nav = path.to_navigator();
    assert(nav.rest() =~= path@);
    locate_in_list(list, &nav)
}

/// The validity of the path after moving right.
proof fn lemma_move_right_valid(t: ListModel, p: Seq<usize>)
    requires
        t.valid_path(p),
        t.wf(),
        t.bounded(),
    ensures
        t.valid_path(spec_move_right(t, p)),
{
    let l = t.target(p);
    let i = p.last();
    lemma_target_wf(t, p);
    lemma_valid_last(t, p);
    if i < l.items.len() {
        if l.items[i as int] is Token {
            lemma_with_last(t, p, i + 1);
        } else {
            let n = l.items[i as int];
            assert(n.wf());
            let c = n.slot(0).unwrap();
            lemma_enter(t, p, 0, 0, c);
        }
    } else if p.len() > 1 {
        lemma_valid_odd(t, p);
        lemma_outer(t, p);
        let q = outer(p);
        let a = p[p.len() - 2];
        lemma_target_bounded(t, q);
        lemma_valid_last(t, q);
        assert(outer_node(t, p).bounded());
        match outer_node(t, p) {
            NodeModel::FunctionCall(_, args) => if a + 1 < args.len() {
                lemma_enter(t, q, (a + 1) as usize, 0, args[a + 1]);
            } else {
                lemma_with_last(t, q, q.last() + 1);
            },
            _ => lemma_with_last(t, q, q.last() + 1),
        }
    }
}

/// The validity of the path after moving left.
proof fn lemma_move_left_valid(t: ListModel, p: Seq<usize>)
    requires
        t.valid_path(p),
        left_entry_ok(t, p),
        t.bounded(),
    ensures
        t.valid_path(spec_move_left(t, p)),
{
    let l = t.target(p);
    let i = p.last();
    lemma_valid_last(t, p);
    lemma_target_bounded(t, p);
    if i == 0 {
        if p.len() > 1 {
            lemma_valid_odd(t, p);
            lemma_outer(t, p);
            let q = outer(p);
            let a = p[p.len() - 2];
            lemma_target_bounded(t, q);
            lemma_valid_last(t, q);
            assert(outer_node(t, p).bounded());
            match outer_node(t, p) {
                NodeModel::FunctionCall(_, args) => if a > 0 {
                    lemma_enter(t, q, (a - 1) as usize, args[a - 1].items.len() as usize, args[a - 1]);
                },
                _ => {},
            }
        }
    } else {
        let q = with_last(p, i - 1);
        lemma_with_last(t, p, i - 1);
        let n = l.items[i - 1];
        assert(n.bounded());
        match n {
            NodeModel::Token(_) => {},
            NodeModel::Sqrt(c) => lemma_enter(t, q, 0, c.items.len() as usize, c),
            NodeModel::Fraction(c, _) => lemma_enter(t, q, 0, c.items.len() as usize, c),
            NodeModel::Parentheses(c) => lemma_enter(t, q, 0, c.items.len() as usize, c),
            NodeModel::Power(c) => lemma_enter(t, q, 0, c.items.len() as usize, c),
            NodeModel::FunctionCall(_, args) => lemma_enter(
                t,
                q,
                (args.len() - 1) as usize,
                args.last().items.len() as usize,
                args.last(),
            ),
        }
    }
}

/// The prefix found by the vertical scan is valid and ends in a slot of a fraction.
proof fn lemma_vertical_scan(t: ListModel, q: Seq<usize>, slot: usize)
    requires
        t.valid_path(q),
    ensures
        vertical_scan(t, q, slot) matches Some(r) ==> {
            &&& t.valid_path(r)
            &&& r.len() >= 3
            &&& outer_node(t, r) is Fraction
            &&& r[r.len() - 2] == slot
        },
    decreases q.len(),
{
    if q.len() >= 3 && !(outer_node(t, q) is Fraction && q[q.len() - 2] == slot) {
        lemma_outer(t, q);
        lemma_vertical_scan(t, outer(q), slot);
    }
}

/// Moving left and then right returns the cursor to where it was, wherever there is something to
/// its left: over a token it steps back, and into a node it enters the end of the node's last
/// slot, from which moving right leaves the node again.
pub proof fn lemma_move_left_then_right(t: ListModel, p: Seq<usize>)
    requires
        t.valid_path(p),
        t.bounded(),
        left_entry_ok(t, p),
        p.last() > 0,
    ensures
        spec_move_right(t, spec_move_left(t, p)) == p,
{
    let l = t.target(p);
    let i = p.last();
    lemma_valid_last(t, p);
    lemma_target_bounded(t, p);
    let q = with_last(p, i - 1);
    lemma_with_last(t, p, i - 1);
    assert(q.last() == i - 1);
    let n = l.items[i - 1];
    assert(n.bounded());
    assert(with_last(q, i as int) =~= p);
    let (k, c): (usize, ListModel) = match n {
        NodeModel::FunctionCall(_, args) => ((args.len() - 1) as usize, args.last()),
        NodeModel::Sqrt(c) => (0, c),
        NodeModel::Fraction(c, _) => (0, c),
        NodeModel::Parentheses(c) => (0, c),
        NodeModel::Power(c) => (0, c),
        NodeModel::Token(_) => (0, l),
    };
    if !(n is Token) {
        assert(n.slot(k as int) == Some(c));
        assert(c.items.len() <= usize::MAX);
        let e = enter(q, k, c.items.len() as usize);
        assert(spec_move_left(t, p) == e);
        lemma_enter(t, q, k, c.items.len() as usize, c);
        assert(outer(e) =~= q);
        assert(e[e.len() - 2] == k);
        assert(outer_node(t, e) == n);
    }
}

/// Moving left over a node enters it: the cursor lands inside the node just to its left, at the
/// end of the slot it enters. That slot is the one that moving right into the node enters (its
/// first), except for a function call, whose last argument it enters.
pub proof fn lemma_move_left_enters(t: ListModel, p: Seq<usize>)
    requires
        t.valid_path(p),
        t.bounded(),
        left_entry_ok(t, p),
        p.last() > 0,
        !(t.target(p).items[p.last() - 1] is Token),
    ensures
        ({
            let e = spec_move_left(t, p);
            let n = t.target(p).items[p.last() - 1];
            &&& t.valid_path(e)
            &&& e.len() == p.len() + 2
            &&& e.take(p.len() as int) == with_last(p, p.last() - 1)
            &&& e.last() == t.target(e).items.len()
            &&& !(n is FunctionCall) ==> e.take(p.len() as int + 1) == spec_move_right(t, with_last(p, p.last() - 1)).take(
                p.len() as int + 1,
            )
            &&& n matches NodeModel::FunctionCall(_, args) ==> e[p.len() as int] + 1 == args.len()
        }),
{
    let l = t.target(p);
    let i = p.last();
    lemma_valid_last(t, p);
    lemma_target_bounded(t, p);
    let q = with_last(p, i - 1);
    lemma_with_last(t, p, i - 1);
    assert(q.last() == i - 1);
    let n = l.items[i - 1];
    assert(n.bounded());
    let (k, c): (usize, ListModel) = match n {
        NodeModel::FunctionCall(_, args) => ((args.len() - 1) as usize, args.last()),
        NodeModel::Sqrt(c) => (0, c),
        NodeModel::Fraction(c, _) => (0, c),
        NodeModel::Parentheses(c) => (0, c),
        NodeModel::Power(c) => (0, c),
        NodeModel::Token(_) => (0, l),
    };
    assert(n.slot(k as int) == Some(c));
    assert(c.items.len() <= usize::MAX);
    let e = enter(q, k, c.items.len() as usize);
    assert(spec_move_left(t, p) == e);
    lemma_enter(t, q, k, c.items.len() as usize, c);
    assert(e.take(p.len() as int) =~= q);
    if !(n is FunctionCall) {
        assert(spec_move_right(t, q) == enter(q, 0, 0));
        assert(e.take(p.len() as int + 1) =~= enter(q, 0, 0).take(p.len() as int + 1));
    }
}

/// Moving right and then left returns the cursor to where it was, wherever there is something to
/// its right: over a token it steps forward, and into a node it enters the start of the node's
/// first slot, from which moving left leaves the node again.
pub proof fn lemma_move_right_then_left(t: ListModel, p: Seq<usize>)
    requires
        t.valid_path(p),
        t.bounded(),
        p.last() < t.target(p).items.len(),
    ensures
        spec_move_left(t, spec_move_right(t, p)) == p,
{
    let l = t.target(p);
    let i = p.last();
    lemma_valid_last(t, p);
    lemma_target_bounded(t, p);
    if l.items[i as int] is Token {
        let q = with_last(p, i + 1);
        lemma_with_last(t, p, i + 1);
        assert(q.last() == i + 1);
        assert(with_last(q, i as int) =~= p);
    } else {
        let e = enter(p, 0, 0);
        assert(outer(e) =~= p);
        assert(e[e.len() - 2] == 0);
    }
}

impl UnstructuredNodeList {
    /// Returns true if the path can be followed from this list to a cursor position.
    pub fn accepts_path(&self, nav: &NavPathNavigator) -> (r: bool)
        requires
            nav.index <= nav.path@.len(),
        ensures
            r == self@.valid_path(nav.rest()),
        decreases nav.path@.len() - nav.index,
    {
        if nav.index >= nav.path.len() {
            assert(nav.rest().len() == 0);
            return false;
        }
        let next = nav.next();
        if nav.here() {
            return next <= self.items.len();
        }
        if next >= self.items.len() {
            return false;
        }
        let step = nav.step();
        assert(step.rest() =~= nav.rest().skip(1));
        assert(self@.items[next as int] == self.items@[next as int]@);
        self.items[next].accepts_path(&step)
    }
}

impl UnstructuredNode {
    /// Returns true if the path can be followed from this node into one of its slots and on to a
    /// cursor position.
    pub fn accepts_path(&self, nav: &NavPathNavigator) -> (r: bool)
        requires
            nav.index <= nav.path@.len(),
        ensures
            r == self@.valid_path(nav.rest()),
        decreases nav.path@.len() - nav.index,
    {
        if nav.index >= nav.path.len() || nav.here() {
            return false;
        }
        let next = nav.next();
        let step = nav.step();
        assert(step.rest() =~= nav.rest().skip(1));
        match self {
            UnstructuredNode::Token(_) => false,
            UnstructuredNode::Sqrt(l) => next == 0 && l.accepts_path(&step),
            UnstructuredNode::Parentheses(l) => next == 0 && l.accepts_path(&step),
            UnstructuredNode::Power(l) => next == 0 && l.accepts_path(&step),
            UnstructuredNode::Fraction(t, b) => {
                if next == 0 {
                    t.accepts_path(&step)
                } else if next == 1 {
                    b.accepts_path(&step)
                } else {
                    false
                }
            },
            UnstructuredNode::FunctionCall(_, args) => {
                if next < args.len() {
                    assert(self@->FunctionCall_1[next as int] == args@[next as int]@);
                    args[next].accepts_path(&step)
                } else {
                    false
                }
            },
        }
    }
}

impl UnstructuredNodeRoot {
    /// Returns true if the path leads from the root of this tree to a cursor position.
    pub fn accepts_path(&self, path: &NavPath) -> (r: bool)
        ensures
            r == self@.valid_path(path@),
    {
        let nav = path.to_navigator();
        assert(nav.rest() =~= path@);
        self.root.accepts_path(&nav)
    }

    /// Returns true if moving the cursor left from the given path would not enter a function
    /// call without arguments.
    pub fn can_move_left(&self, path: &NavPath) -> (r: bool)
        requires
            self@.valid_path(path@),
        ensures
            r == left_entry_ok(self@, path@),
    {
        proof {
            lemma_list_bounded(&self.root);
            lemma_valid_last(self@, path@);
        }
        let (current, index) = locate(&self.root, path);
        if index == 0 {
            return true;
        }
        assert(current@.items[index - 1] == current.items@[index - 1]@);
        match &current.items[index - 1] {
            UnstructuredNode::FunctionCall(_, args) => args.len() > 0,
            _ => true,
        }
    }

}

impl UnstructuredNodeRoot {
    /// Moves the path one step right.
    fn step_right(&self, path: &mut NavPath) -> (hopped: bool)
        requires
            self@.valid_path(old(path)@),
        ensures
            hopped == hops_right(self@, old(path)@),
            final(path)@ == spec_move_right(self@, old(path)@),
            self@.wf() ==> self@.valid_path(final(path)@),
    {
        let ghost t = self@;
        let ghost p = path@;
        proof {
            lemma_list_bounded(&self.root);
            lemma_valid_last(t, p);
            if t.wf() {
                lemma_move_right_valid(t, p);
            }
        }
        let (index, len, right_is_token) = {
            let (current, index) = locate(&self.root, path);
            let len = current.items.len();
            let right_is_token = index < len && matches!(current.items[index], UnstructuredNode::Token(_));
            (index, len, right_is_token)
        };
        if index == len {
            // Is there another node above this one?
            if !path.root() {
                proof {
                    lemma_valid_odd(t, p);
                    lemma_outer(t, p);
                }
                // Are we inside a function call whose next argument we can move into?
                let mut outer_path = path.copy();
                outer_path.pop(2);
                assert(outer_path@ == outer(p));
                let current_arg_index = path.get(path.len() - 2);
                let next_arg_exists = {
                    let (outer_list, outer_index) = locate(&self.root, &outer_path);
                    assert(outer_node(t, p) == outer_list.items[outer_index as int]@);
                    match &outer_list.items[outer_index] {
                        UnstructuredNode::FunctionCall(_, args) => args.len() > 0 && current_arg_index < args.len() - 1,
                        _ => false,
                    }
                };
                if next_arg_exists {
                    path.pop(2);
                    path.push(current_arg_index + 1);
                    path.push(0);
                    assert(path@ =~= spec_move_right(t, p));
                    return true;
                }
                // Move out of the list and the node above it, past the node
                path.pop(2);
                proof {
                    lemma_target_bounded(t, outer(p));
                }
                let ghost q = path@;
                path.offset(1);
                proof {
                    lemma_with_last_eq(path@, q, q.last() + 1);
                }
            }
        } else if right_is_token {
            path.offset(1);
            proof {
                lemma_with_last_eq(path@, p, index + 1);
            }
        } else {
            // Navigate into the first slot of the node, at its start
            path.push(0);
            path.push(0);
        }
        false
    }

    /// Moves the path one step left.
    fn step_left(&self, path: &mut NavPath) -> (hopped: bool)
        requires
            self@.valid_path(old(path)@),
            left_entry_ok(self@, old(path)@),
        ensures
            hopped == hops_left(self@, old(path)@),
            final(path)@ == spec_move_left(self@, old(path)@),
            self@.valid_path(final(path)@),
    {
        let ghost t = self@;
        let ghost p = path@;
        proof {
            lemma_list_bounded(&self.root);
            lemma_valid_last(t, p);
            lemma_move_left_valid(t, p);
        }
        let index = {
            let (_, index) = locate(&self.root, path);
            index
        };
        if index == 0 {
            if !path.root() {
                proof {
                    lemma_valid_odd(t, p);
                    lemma_outer(t, p);
                }
                let mut outer_path = path.copy();
                outer_path.pop(2);
                assert(outer_path@ == outer(p));
                let current_arg_index = path.get(path.len() - 2);
                // The length of the previous argument, if we are inside a function call with one
                let previous_arg_len: Option<usize> = {
                    let (outer_list, outer_index) = locate(&self.root, &outer_path);
                    let outer_item = &outer_list.items[outer_index];
                    assert(outer_node(t, p) == outer_item@);
                    match outer_item {
                        UnstructuredNode::FunctionCall(_, args) => if current_arg_index > 0 {
                            assert(outer_item@->FunctionCall_1[current_arg_index - 1] == args@[current_arg_index - 1]@);
                            Some(args[current_arg_index - 1].items.len())
                        } else {
                            None
                        },
                        _ => None,
                    }
                };
                path.pop(2);
                if let Some(previous_len) = previous_arg_len {
                    // Move into the end of the previous argument
                    path.push(current_arg_index - 1);
                    path.push(previous_len);
                }
                assert(path@ =~= spec_move_left(t, p));
                return previous_arg_len.is_some();
            }
        } else {
            // What's to our left?
            let entry: Option<(usize, usize)> = {
                let (current, _) = locate(&self.root, path);
                let left = &current.items[index - 1];
                assert(current@.items[index - 1] == left@);
                match left {
                    UnstructuredNode::Token(_) => None,
                    UnstructuredNode::Sqrt(n) => Some((0, n.items.len())),
                    UnstructuredNode::Fraction(n, _) => Some((0, n.items.len())),
                    UnstructuredNode::Parentheses(n) => Some((0, n.items.len())),
                    UnstructuredNode::Power(n) => Some((0, n.items.len())),
                    UnstructuredNode::FunctionCall(_, args) => {
                        assert(args@.len() > 0);
                        assert(left@->FunctionCall_1.last() == args@[args@.len() - 1]@);
                        Some((args.len() - 1, args[args.len() - 1].items.len()))
                    },
                }
            };
            let ghost p0 = path@;
            path.offset(-1);
            proof {
                lemma_with_last_eq(path@, p0, index - 1);
            }
            if let Some((slot, position)) = entry {
                // Move into the end of the node's last slot
                path.push(slot);
                path.push(position);
            }
            assert(path@ =~= spec_move_left(t, p));
        }
        false
    }

    /// Checks if the cursor is outside of the viewport. If so, moves the viewport to fit it inside
    /// again.
    pub fn ensure_cursor_visible<R: Renderer>(&mut self, path: &mut NavPath, renderer: &mut R, viewport: Option<&mut Viewport>)
        requires
            viewport is Some ==> old(self)@.valid_path(old(path)@),
            viewport matches Some(v) ==> cursor_fits(old(renderer).sizes(), old(self)@, old(path)@, *v),
        ensures
            final(self)@ == old(self)@,
            final(path)@ == old(path)@,
            final(renderer).sizes() == old(renderer).sizes(),
            match viewport {
                Some(v) => viewport_fitted(old(renderer).sizes(), old(self)@, old(path)@, *v, *final(v)),
                None => true,
            },
    {
        if let Some(v) = viewport {
            let ghost sz = renderer.sizes();
            let ghost t = self@;
            let ghost p = path@;
            proof {
                lemma_list_cursor(sz, t, p, 0);
                lemma_first_cursor(spec_list_layout(sz, t, Some(p), 0).glyphs);
                lemma_valid_last(t, p);
            }
            let visibility = {
                let nav = path.to_navigator();
                assert(nav.rest() =~= p);
                renderer.cursor_visibility(&*self, &nav, Some(&*v))
            };
            if let ViewportVisibility::Clipped { top_clip, bottom_clip, left_clip, right_clip, .. } = visibility {
                if top_clip == 0 && bottom_clip == 0 {
                } else if bottom_clip == 0 {
                    v.offset.y = v.offset.y.wrapping_sub(top_clip);
                } else if top_clip == 0 {
                    v.offset.y = v.offset.y.wrapping_add(bottom_clip);
                }
                if left_clip == 0 && right_clip == 0 {
                } else if right_clip == 0 {
                    v.offset.x = v.offset.x.wrapping_sub(left_clip);
                } else if left_clip == 0 {
                    v.offset.x = v.offset.x.wrapping_add(right_clip);
                }
            }
        }
    }

    /// Modifies the given navigation path to move the cursor right.
    pub fn move_right<R: Renderer>(&mut self, path: &mut NavPath, renderer: &mut R, viewport: Option<&mut Viewport>)
        requires
            old(self)@.valid_path(old(path)@),
            viewport is Some ==> old(self)@.wf(),
            !hops_right(old(self)@, old(path)@) ==> (viewport matches Some(v) ==> cursor_fits(
                old(renderer).sizes(),
                old(self)@,
                spec_move_right(old(self)@, old(path)@),
                *v,
            )),
        ensures
            final(self)@ == old(self)@,
            final(path)@ == spec_move_right(old(self)@, old(path)@),
            old(self)@.wf() ==> final(self)@.valid_path(final(path)@),
            final(renderer).sizes() == old(renderer).sizes(),
            // Hopping between the arguments of a function call leaves the viewport where it is
            match viewport {
                Some(v) => if hops_right(old(self)@, old(path)@) {
                    *final(v) == *v
                } else {
                    viewport_fitted(old(renderer).sizes(), old(self)@, final(path)@, *v, *final(v))
                },
                None => true,
            },
    {
        if !self.step_right(path) {
            self.ensure_cursor_visible(path, renderer, viewport);
        }
    }

    /// Modifies the given navigation path to move the cursor left.
    pub fn move_left<R: Renderer>(&mut self, path: &mut NavPath, renderer: &mut R, viewport: Option<&mut Viewport>)
        requires
            old(self)@.valid_path(old(path)@),
            left_entry_ok(old(self)@, old(path)@),
            !hops_left(old(self)@, old(path)@) ==> (viewport matches Some(v) ==> cursor_fits(
                old(renderer).sizes(),
                old(self)@,
                spec_move_left(old(self)@, old(path)@),
                *v,
            )),
        ensures
            final(self)@ == old(self)@,
            final(path)@ == spec_move_left(old(self)@, old(path)@),
            final(self)@.valid_path(final(path)@),
            final(renderer).sizes() == old(renderer).sizes(),
            // Hopping between the arguments of a function call leaves the viewport where it is
            match viewport {
                Some(v) => if hops_left(old(self)@, old(path)@) {
                    *final(v) == *v
                } else {
                    viewport_fitted(old(renderer).sizes(), old(self)@, final(path)@, *v, *final(v))
                },
                None => true,
            },
    {
        if !self.step_left(path) {
            self.ensure_cursor_visible(path, renderer, viewport);
        }
    }

    /// Moves the path into the other slot of the innermost fraction which allows moving in the
    /// given direction, returning whether there was one.
    #[verifier::rlimit(40)]
    fn step_vertically<R: Renderer>(&self, path: &mut NavPath, direction: MoveVerticalDirection, renderer: &mut R) -> (r: bool)
        requires
            self@.valid_path(old(path)@),
        ensures
            final(path)@ == spec_move_vertical(old(renderer).sizes(), self@, old(path)@, direction),
            r == vertical_scan(self@, old(path)@, vertical_slots(direction).0) is Some,
            self@.valid_path(final(path)@),
            final(renderer).sizes() == old(renderer).sizes(),
    {
        let ghost sz = renderer.sizes();
        let ghost t = self@;
        let ghost p = path@;
        let (from, to): (usize, usize) = match direction {
            MoveVerticalDirection::Up => (1, 0),
            MoveVerticalDirection::Down => (0, 1),
        };
        proof {
            lemma_vertical_scan(t, p, from);
        }
        // Look outwards from the cursor for a fraction which allows the movement
        let mut q = path.copy();
        while q.len() >= 3
            invariant
                t == self@,
                p == path@,
                p == old(path)@,
                sz == old(renderer).sizes(),
                t.valid_path(q@),
                (from, to) == vertical_slots(direction),
                vertical_scan(t, q@, from) == vertical_scan(t, p, from),
                renderer.sizes() == sz,
            decreases q@.len(),
        {
            proof {
                lemma_outer(t, q@);
                lemma_valid_last(t, q@);
            }
            let mut outer_path = q.copy();
            outer_path.pop(2);
            assert(outer_path@ =~= outer(q@));
            let slot = q.get(q.len() - 2);
            let position = q.get(q.len() - 1);
            let points: Option<Vec<usize>> = {
                let (outer_list, outer_index) = locate(&self.root, &outer_path);
                let outer_item = &outer_list.items[outer_index];
                assert(outer_item@ == outer_node(t, q@));
                match outer_item {
                    UnstructuredNode::Fraction(top, bottom) => if slot == from {
                        Some(match_vertical_cursor_points(renderer, top, bottom, direction))
                    } else {
                        None
                    },
                    _ => None,
                }
            };
            if let Some(points) = points {
                let ghost node = outer_node(t, q@);
                proof {
                    lemma_match_points(sz, node->Fraction_0, node->Fraction_1, direction);
                }
                let new_index = points[position];
                proof {
                    lemma_enter(
                        t,
                        outer(q@),
                        to,
                        new_index,
                        if to == 0 { node->Fraction_0 } else { node->Fraction_1 },
                    );
                }
                *path = outer_path;
                path.push(to);
                path.push(new_index);
                return true;
            }
            q = outer_path;
        }
        false
    }

    /// Moves the cursor vertically, into the other slot of the innermost fraction which allows it.
    fn move_vertically<R: Renderer>(
        &mut self,
        path: &mut NavPath,
        direction: MoveVerticalDirection,
        renderer: &mut R,
        viewport: Option<&mut Viewport>,
    ) -> (r: MoveResult)
        requires
            old(self)@.valid_path(old(path)@),
            viewport matches Some(v) ==> cursor_fits(
                old(renderer).sizes(),
                old(self)@,
                spec_move_vertical(old(renderer).sizes(), old(self)@, old(path)@, direction),
                *v,
            ),
        ensures
            final(self)@ == old(self)@,
            final(path)@ == spec_move_vertical(old(renderer).sizes(), old(self)@, old(path)@, direction),
            (r == MoveResult::MovedWithin) == (vertical_scan(old(self)@, old(path)@, vertical_slots(direction).0) is Some),
            final(self)@.valid_path(final(path)@),
            final(renderer).sizes() == old(renderer).sizes(),
            match viewport {
                Some(v) => viewport_fitted(old(renderer).sizes(), old(self)@, final(path)@, *v, *final(v)),
                None => true,
            },
    {
        let moved_within = self.step_vertically(path, direction, renderer);
        self.ensure_cursor_visible(path, renderer, viewport);
        if moved_within {
            MoveResult::MovedWithin
        } else {
            MoveResult::MovedOut
        }
    }

    /// Modifies the given navigation path to move the cursor down.
    pub fn move_down<R: Renderer>(&mut self, path: &mut NavPath, renderer: &mut R, viewport: Option<&mut Viewport>) -> (r: MoveResult)
        requires
            old(self)@.valid_path(old(path)@),
            viewport matches Some(v) ==> cursor_fits(
                old(renderer).sizes(),
                old(self)@,
                spec_move_vertical(old(renderer).sizes(), old(self)@, old(path)@, MoveVerticalDirection::Down),
                *v,
            ),
        ensures
            final(self)@ == old(self)@,
            final(path)@ == spec_move_vertical(old(renderer).sizes(), old(self)@, old(path)@, MoveVerticalDirection::Down),
            (r == MoveResult::MovedWithin) == (vertical_scan(old(self)@, old(path)@, 0) is Some),
            final(self)@.valid_path(final(path)@),
            final(renderer).sizes() == old(renderer).sizes(),
            match viewport {
                Some(v) => viewport_fitted(old(renderer).sizes(), old(self)@, final(path)@, *v, *final(v)),
                None => true,
            },
    {
        self.move_vertically(path, MoveVerticalDirection::Down, renderer, viewport)
    }

    /// Modifies the given navigation path to move the cursor up.
    pub fn move_up<R: Renderer>(&mut self, path: &mut NavPath, renderer: &mut R, viewport: Option<&mut Viewport>) -> (r: MoveResult)
        requires
            old(self)@.valid_path(old(path)@),
            viewport matches Some(v) ==> cursor_fits(
                old(renderer).sizes(),
                old(self)@,
                spec_move_vertical(old(renderer).sizes(), old(self)@, old(path)@, MoveVerticalDirection::Up),
                *v,
            ),
        ensures
            final(self)@ == old(self)@,
            final(path)@ == spec_move_vertical(old(renderer).sizes(), old(self)@, old(path)@, MoveVerticalDirection::Up),
            (r == MoveResult::MovedWithin) == (vertical_scan(old(self)@, old(path)@, 1) is Some),
            final(self)@.valid_path(final(path)@),
            final(renderer).sizes() == old(renderer).sizes(),
            match viewport {
                Some(v) => viewport_fitted(old(renderer).sizes(), old(self)@, final(path)@, *v, *final(v)),
                None => true,
            },
    {
        self.move_vertically(path, MoveVerticalDirection::Up, renderer, viewport)
    }

    /// Inserts the given node at the cursor position, and moves the cursor accordingly.
    pub fn insert<R: Renderer>(
        &mut self,
        path: &mut NavPath,
        renderer: &mut R,
        viewport: Option<&mut Viewport>,
        new_node: UnstructuredNode,
    )
        requires
            old(self)@.valid_path(old(path)@),
            viewport is Some ==> old(self)@.wf() && new_node@.wf(),
            viewport matches Some(v) ==> cursor_fits(
                old(renderer).sizes(),
                spec_insert_tree(old(self)@, old(path)@, new_node@),
                spec_insert_path(old(path)@, new_node@),
                *v,
            ),
        ensures
            final(self)@ == spec_insert_tree(old(self)@, old(path)@, new_node@),
            final(path)@ == spec_insert_path(old(path)@, new_node@),
            old(self)@.wf() && new_node@.wf() ==> final(self)@.wf() && final(self)@.valid_path(
                final(path)@,
            ),
            final(renderer).sizes() == old(renderer).sizes(),
            match viewport {
                Some(v) => viewport_fitted(old(renderer).sizes(), final(self)@, final(path)@, *v, *final(v)),
                None => true,
            },
    {
        let ghost t = self@;
        let ghost p = path@;
        let ghost n = new_node@;
        proof {
            lemma_valid_last(t, p);
        }
        let is_token = matches!(new_node, UnstructuredNode::Token(_));
        let new_len = {
            let nav_path = path.copy();
            let mut nav = nav_path.to_navigator();
            assert(nav.rest() =~= p);
            let (current, index) = self.root.navigate(&mut nav);
            let ghost before = current@;
            current.items.insert(index, new_node);
            assert(current@.items =~= before.items.insert(index as int, n));
            current.items.len()
        };
        assert(p.last() < new_len);
        proof {
            lemma_list_replaced(t, self@, p, ListModel { items: t.target(p).items.insert(p.last() as int, n) });
        }
        let ghost l = ListModel { items: t.target(p).items.insert(p.last() as int, n) };
        if is_token {
            proof {
                lemma_replace_valid(t, p, l, p.last() + 1);
            }
            path.offset(1);
            proof {
                lemma_with_last_eq(path@, p, p.last() + 1);
            }
        } else {
            // Move into the new node
            path.push(0);
            path.push(0);
        }
        proof {
            if t.wf() && n.wf() {
                lemma_target_wf(t, p);
                assert(l.wf());
                lemma_replace_wf(t, p, l);
                lemma_replace_valid(t, p, l, p.last() as int);
                let q = with_last(p, p.last() as int);
                assert(q =~= p);
                if !is_token {
                    let c = n.slot(0).unwrap();
                    lemma_enter(self@, p, 0, 0, c);
                }
            }
        }
        self.ensure_cursor_visible(path, renderer, viewport);
    }

    /// Deletes the item behind the cursor. At the start of a list other than the root, the cursor
    /// first moves right until there is an item behind it, so that the node around an empty list
    /// is deleted.
    pub fn delete<R: Renderer>(&mut self, path: &mut NavPath, renderer: &mut R, viewport: Option<&mut Viewport>)
        requires
            old(self)@.valid_path(old(path)@),
            viewport matches Some(v) ==> cursor_fits(
                old(renderer).sizes(),
                spec_delete_tree(old(self)@, old(path)@),
                spec_delete_path(old(self)@, old(path)@),
                *v,
            ),
        ensures
            final(self)@ == spec_delete_tree(old(self)@, old(path)@),
            final(path)@ == spec_delete_path(old(self)@, old(path)@),
            old(self)@.wf() ==> final(self)@.wf(),
            final(self)@.valid_path(final(path)@),
            final(renderer).sizes() == old(renderer).sizes(),
            match viewport {
                Some(v) => viewport_fitted(old(renderer).sizes(), final(self)@, final(path)@, *v, *final(v)),
                None => true,
            },
    {
        let ghost t = self@;
        let ghost p = path@;
        proof {
            lemma_list_bounded(&self.root);
            lemma_valid_last(t, p);
        }
        let index = {
            let (_, i) = locate(&self.root, path);
            i
        };
        if index > 0 {
            // Delete the item behind the cursor
            let ghost q = path@;
            {
                let nav_path = path.copy();
                let mut nav = nav_path.to_navigator();
                assert(nav.rest() =~= q);
                let (current, i) = self.root.navigate(&mut nav);
                let ghost before = current@;
                current.items.remove(i - 1);
                assert(current@.items =~= before.items.remove(i - 1));
            }
            let ghost l = ListModel { items: t.target(q).items.remove(q.last() - 1) };
            proof {
                lemma_list_replaced(t, self@, q, l);
                if t.wf() {
                    lemma_target_wf(t, q);
                    lemma_replace_wf(t, q, l);
                }
                lemma_replace_valid(t, q, l, q.last() - 1);
            }
            path.offset(-1);
            proof {
                lemma_with_last_eq(path@, q, q.last() - 1);
            }
        } else if !path.root() {
            // At the start of a list inside a node, delete that node and step out to where it was
            proof {
                lemma_valid_odd(t, p);
                lemma_outer(t, p);
            }
            path.pop(2);
            let ghost q = path@;
            assert(q == outer(p));
            {
                let nav_path = path.copy();
                let mut nav = nav_path.to_navigator();
                assert(nav.rest() =~= q);
                let (current, i) = self.root.navigate(&mut nav);
                let ghost before = current@;
                current.items.remove(i);
                assert(current@.items =~= before.items.remove(i as int));
            }
            let ghost l = ListModel { items: t.target(q).items.remove(q.last() as int) };
            proof {
                lemma_list_replaced(t, self@, q, l);
                if t.wf() {
                    lemma_target_wf(t, q);
                    lemma_replace_wf(t, q, l);
                }
                lemma_replace_valid(t, q, l, q.last() as int);
                assert(with_last(q, q.last() as int) =~= q);
            }
        }
        self.ensure_cursor_visible(path, renderer, viewport);
    }

    /// Clears the entire node structure, resetting the viewport and cursor.
    pub fn clear<R: Renderer>(&mut self, path: &mut NavPath, renderer: &mut R, viewport: Option<&mut Viewport>)
        ensures
            final(self)@ == empty_list(),
            final(path)@ == seq![0usize],
            *final(renderer) == *old(renderer),
            match viewport {
                Some(v) => final(v).offset == CalculatedPoint { x: 0, y: 0 } && final(v).size == v.size,
                None => true,
            },
    {
        self.root.items = Vec::new();
        assert(self@.items =~= empty_list().items);
        *path = NavPath::new(vec![0]);
        if let Some(v) = viewport {
            v.offset = CalculatedPoint { x: 0, y: 0 };
        }
    }
}

/// The result of a vertical cursor movement.
#[derive(PartialEq, Eq, Debug, Clone, Copy)]
pub enum MoveResult {
    /// The cursor moved between the slots of a node.
    MovedWithin,
    /// There was nowhere to move to within the tree.
    MovedOut,
}

} // verus!
