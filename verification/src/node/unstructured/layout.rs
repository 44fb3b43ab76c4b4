//! The layout of unstructured node trees, so that they can be rendered.
//!
//! Within a list, a power is raised above the item before it, the cursor is drawn as tall as its
//! taller neighbour, and an empty list without the cursor shows a placeholder.

use vstd::prelude::*;

use crate::nav::NavPathNavigator;
use crate::node::common::{
    lemma_common_shows_cursor, lemma_function_call_shows_cursor, layout_fraction, layout_function_call, layout_parentheses, layout_power, layout_sqrt,
    spec_fraction, spec_function_call, spec_parentheses, spec_power, spec_sqrt,
};
use crate::render::{
    lemma_layout_horizontal_shows_cursor, shows_cursor, cursor_rest, spec_glyph_block, spec_layout_horizontal, token_glyph, views, with_baseline,
    BlockModel, Glyph, LayoutBlock, LayoutComputationProperties, Layoutable, Renderer, SizeFn,
};

use super::node::{
    ListModel, NodeModel, UnstructuredItem, UnstructuredNode, UnstructuredNodeList,
    UnstructuredNodeRoot,
};

verus! {

broadcast use vstd::std_specs::vec::group_vec_axioms;

/// The cursor path continuing into slot `k` of a node, if the cursor is inside that slot.
pub open spec fn slot_cursor(c: Option<Seq<usize>>, k: int) -> Option<Seq<usize>> {
    match c {
        Some(s) => if s.len() > 0 && s[0] == k {
            Some(s.skip(1))
        } else {
            None
        },
        None => None,
    }
}

/// The cursor path continuing into item `i` of a list, if the cursor is inside that item.
pub open spec fn item_cursor(c: Option<Seq<usize>>, i: int) -> Option<Seq<usize>> {
    match c {
        Some(s) => if s.len() > 1 && s[0] == i {
            Some(s.skip(1))
        } else {
            None
        },
        None => None,
    }
}

/// The cursor path can be followed while laying out this node.
pub open spec fn node_layout_ok(n: NodeModel, c: Option<Seq<usize>>) -> bool
    decreases n,
{
    match c {
        None => true,
        Some(s) => s.len() > 0 && match n {
            NodeModel::Token(_) => true,
            NodeModel::Sqrt(l) | NodeModel::Parentheses(l) | NodeModel::Power(l) => s[0] == 0
                ==> list_layout_ok(l, Some(s.skip(1))),
            NodeModel::Fraction(t, b) => s[0] <= 1 && (s[0] == 0 ==> list_layout_ok(
                t,
                Some(s.skip(1)),
            )) && (s[0] == 1 ==> list_layout_ok(b, Some(s.skip(1)))),
            NodeModel::FunctionCall(_, args) => s[0] < args.len() ==> list_layout_ok(
                args[s[0] as int],
                Some(s.skip(1)),
            ),
        },
    }
}

/// The cursor path can be followed while laying out this list: it ends within the list or leads
/// into one of its items.
pub open spec fn list_layout_ok(l: ListModel, c: Option<Seq<usize>>) -> bool
    decreases l,
{
    match c {
        None => true,
        Some(s) => {
            &&& s.len() > 0
            &&& s.len() == 1 ==> s[0] <= l.items.len()
            &&& s.len() > 1 && s[0] < l.items.len() ==> node_layout_ok(
                l.items[s[0] as int],
                Some(s.skip(1)),
            )
        },
    }
}

/// The layout of a node, after the given layout of the item before it (if any).
pub open spec fn spec_node_layout(
    sz: SizeFn,
    n: NodeModel,
    base: Option<BlockModel>,
    c: Option<Seq<usize>>,
    level: u32,
) -> BlockModel
    decreases n, 0int,
{
    match n {
        NodeModel::Token(t) => spec_glyph_block(sz, token_glyph(t), level),
        NodeModel::Sqrt(l) => spec_sqrt(sz, spec_list_layout(sz, l, slot_cursor(c, 0), level), level),
        NodeModel::Fraction(t, b) => spec_fraction(
            sz,
            spec_list_layout(sz, t, slot_cursor(c, 0), level),
            spec_list_layout(sz, b, slot_cursor(c, 1), level),
            level,
        ),
        NodeModel::Parentheses(l) => spec_parentheses(
            sz,
            spec_list_layout(sz, l, slot_cursor(c, 0), level),
            level,
        ),
        NodeModel::Power(l) => spec_power(
            base,
            spec_list_layout(sz, l, slot_cursor(c, 0), vstd::wrapping::u32_specs::wrapping_add(level, 1)),
        ),
        NodeModel::FunctionCall(f, args) => spec_function_call(
            sz,
            f,
            spec_args_layouts(sz, args, c, level),
            level,
        ),
    }
}

/// The layout of item `i` of a list, each item laid out after the one before it.
pub open spec fn spec_item_layout(
    sz: SizeFn,
    items: Seq<NodeModel>,
    i: int,
    c: Option<Seq<usize>>,
    level: u32,
) -> BlockModel
    decreases items, i,
{
    if 0 <= i < items.len() {
        let base = if i == 0 {
            None
        } else {
            Some(spec_item_layout(sz, items, i - 1, c, level))
        };
        spec_node_layout(sz, items[i], base, item_cursor(c, i), level)
    } else {
        spec_glyph_block(sz, Glyph::Placeholder, level)
    }
}

/// The cursor, as tall as (and sharing the baseline of) the taller of the layouts beside the
/// position it is drawn at, or of a digit where there is none.
pub open spec fn spec_cursor_block(sz: SizeFn, items: Seq<BlockModel>, idx: int, level: u32) -> BlockModel {
    let matched = if items.len() == 0 {
        spec_glyph_block(sz, Glyph::Digit { number: 0 }, level)
    } else if idx == 0 {
        items[0]
    } else if idx == items.len() {
        items[idx - 1]
    } else if items[idx].area.height > items[idx - 1].area.height {
        items[idx]
    } else {
        items[idx - 1]
    };
    with_baseline(spec_glyph_block(sz, Glyph::Cursor { height: matched.area.height }, level), matched.baseline)
}

/// The layouts of the items of a list, with the cursor inserted where the path ends in this list.
pub open spec fn spec_list_parts(sz: SizeFn, l: ListModel, c: Option<Seq<usize>>, level: u32) -> Seq<BlockModel>
    decreases l, 1int,
{
    let items = Seq::new(
        l.items.len(),
        |i: int| spec_item_layout(sz, l.items, i, c, level),
    );
    match c {
        Some(s) => if s.len() == 1 {
            items.insert(s[0] as int, spec_cursor_block(sz, items, s[0] as int, level))
        } else {
            items
        },
        None => items,
    }
}

/// The layout of a list: its parts laid out horizontally, or a placeholder where there are none.
pub open spec fn spec_list_layout(sz: SizeFn, l: ListModel, c: Option<Seq<usize>>, level: u32) -> BlockModel
    decreases l, 2int,
{
    let parts = spec_list_parts(sz, l, c, level);
    if parts.len() == 0 {
        spec_layout_horizontal(seq![spec_glyph_block(sz, Glyph::Placeholder, level)])
    } else {
        spec_layout_horizontal(parts)
    }
}

/// Laying out a list with a valid cursor path can follow the path, and shows the cursor.
pub proof fn lemma_list_cursor(sz: SizeFn, l: ListModel, s: Seq<usize>, level: u32)
    requires
        l.valid_path(s),
    ensures
        list_layout_ok(l, Some(s)),
        shows_cursor(spec_list_layout(sz, l, Some(s), level).glyphs),
    decreases s.len(),
{
    let c = Some(s);
    let items = Seq::new(l.items.len(), |i: int| spec_item_layout(sz, l.items, i, c, level));
    let parts = spec_list_parts(sz, l, c, level);
    if s.len() == 1 {
        let cursor_block = spec_cursor_block(sz, items, s[0] as int, level);
        assert(cursor_block.glyphs[0].0.glyph is Cursor);
        assert(parts[s[0] as int] == cursor_block);
        lemma_layout_horizontal_shows_cursor(parts, s[0] as int);
    } else {
        let k = s[0] as int;
        let base = if k == 0 {
            None
        } else {
            Some(spec_item_layout(sz, l.items, k - 1, c, level))
        };
        lemma_node_cursor(sz, l.items[k], base, s.skip(1), level);
        assert(item_cursor(c, k) == Some(s.skip(1)));
        assert(parts[k] == spec_node_layout(sz, l.items[k], base, Some(s.skip(1)), level));
        lemma_layout_horizontal_shows_cursor(parts, k);
    }
}

/// Laying out a node with a valid cursor path can follow the path, and shows the cursor.
pub proof fn lemma_node_cursor(sz: SizeFn, n: NodeModel, base: Option<BlockModel>, s: Seq<usize>, level: u32)
    requires
        n.valid_path(s),
    ensures
        node_layout_ok(n, Some(s)),
        shows_cursor(spec_node_layout(sz, n, base, Some(s), level).glyphs),
    decreases s.len(),
{
    let k = s[0] as int;
    let l = n.slot(k).unwrap();
    let rest = s.skip(1);
    assert(slot_cursor(Some(s), k) == Some(rest));
    match n {
        NodeModel::Token(_) => {},
        NodeModel::Power(_) => {
            let up = vstd::wrapping::u32_specs::wrapping_add(level, 1);
            lemma_list_cursor(sz, l, rest, up);
            let inner = spec_list_layout(sz, l, Some(rest), up);
            lemma_common_shows_cursor(sz, inner, inner, level);
            if let Some(b) = base {
                assert(shows_cursor(spec_power(Some(b), inner).glyphs));
            }
        },
        NodeModel::Fraction(t, b) => {
            lemma_list_cursor(sz, l, rest, level);
            let inner = spec_list_layout(sz, l, Some(rest), level);
            if k == 0 {
                lemma_common_shows_cursor(sz, inner, spec_list_layout(sz, b, slot_cursor(Some(s), 1), level), level);
            } else {
                lemma_common_shows_cursor(sz, inner, spec_list_layout(sz, t, slot_cursor(Some(s), 0), level), level);
            }
        },
        NodeModel::FunctionCall(f, args) => {
            lemma_list_cursor(sz, l, rest, level);
            let layouts = spec_args_layouts(sz, args, Some(s), level);
            assert(layouts[k] == spec_list_layout(sz, l, Some(rest), level));
            lemma_function_call_shows_cursor(sz, f, layouts, k, level);
        },
        _ => {
            lemma_list_cursor(sz, l, rest, level);
            let inner = spec_list_layout(sz, l, Some(rest), level);
            lemma_common_shows_cursor(sz, inner, inner, level);
        },
    }
}

/// What remains of a navigator's path, if there is a navigator.
pub open spec fn nav_rest(n: Option<NavPathNavigator>) -> Option<Seq<usize>> {
    match n {
        Some(p) => Some(p.rest()),
        None => None,
    }
}

/// A navigator stepped into slot `k`, if the cursor is inside that slot.
fn slot_navigator<'a>(cursor: Option<&NavPathNavigator<'a>>, k: usize) -> (r: Option<NavPathNavigator<'a>>)
    requires
        cursor matches Some(p) ==> p.index < p.path@.len(),
    ensures
        nav_rest(r) == slot_cursor(cursor_rest(cursor), k as int),
        r matches Some(q) ==> cursor matches Some(p) && q.index == p.index + 1 && q.path == p.path,
{
    match cursor {
        Some(p) => if p.next() == k {
            let q = p.step();
            assert(q.rest() =~= p.rest().skip(1));
            Some(q)
        } else {
            None
        },
        None => None,
    }
}

/// The layout of each argument of a function call.
pub open spec fn spec_args_layouts(sz: SizeFn, args: Seq<ListModel>, c: Option<Seq<usize>>, level: u32) -> Seq<BlockModel>
    decreases args, 0int,
{
    Seq::new(
        args.len(),
        |i: int|
            if 0 <= i < args.len() {
                spec_list_layout(sz, args[i], slot_cursor(c, i), level)
            } else {
                spec_glyph_block(sz, Glyph::Placeholder, level)
            },
    )
}

/// Lays out each argument of a function call.
fn layout_args<R: Renderer>(
    args: &Vec<UnstructuredNodeList>,
    renderer: &mut R,
    cursor: Option<&NavPathNavigator>,
    properties: LayoutComputationProperties,
) -> (r: Vec<LayoutBlock>)
    requires
        cursor matches Some(p) ==> p.index < p.path@.len(),
        forall|i: int|
            0 <= i < args@.len() ==> list_layout_ok(
                #[trigger] args@[i]@,
                slot_cursor(cursor_rest(cursor), i),
            ),
    ensures
        views(r@) == spec_args_layouts(
            old(renderer).sizes(),
            args@.map_values(|a: UnstructuredNodeList| a@),
            cursor_rest(cursor),
            properties.size_reduction_level,
        ),
        final(renderer).sizes() == old(renderer).sizes(),
    decreases args, 0int,
{
    let ghost sz = renderer.sizes();
    let ghost level = properties.size_reduction_level;
    let ghost c = cursor_rest(cursor);
    let mut layouts: Vec<LayoutBlock> = Vec::new();
    let mut i: usize = 0;
    while i < args.len()
        invariant
            i <= args@.len(),
            cursor matches Some(p) ==> p.index < p.path@.len(),
            forall|j: int| 0 <= j < args@.len() ==> list_layout_ok(#[trigger] args@[j]@, slot_cursor(c, j)),
            c == cursor_rest(cursor),
            renderer.sizes() == sz,
            level == properties.size_reduction_level,
            layouts@.len() == i,
            forall|j: int|
                0 <= j < i ==> (#[trigger] layouts@[j])@ == spec_list_layout(
                    sz,
                    args@[j]@,
                    slot_cursor(c, j),
                    level,
                ),
        decreases args@.len() - i,
    {
        proof {
            assert(decreases_to!(args => args@[i as int]));
        }
        let child = slot_navigator(cursor, i);
        assert(list_layout_ok(args@[i as int]@, nav_rest(child)));
        assert(child matches Some(q) ==> q.index < q.path@.len());
        let arg_layout = layout_list(&args[i], renderer, child.as_ref(), properties);
        layouts.push(arg_layout);
        i = i + 1;
    }
    assert(views(layouts@) =~= spec_args_layouts(sz, args@.map_values(|a: UnstructuredNodeList| a@), c, level));
    layouts
}

/// Lays out a node after the given layout of the item before it (if any).
#[verifier::rlimit(50)]
#[verifier::spinoff_prover]
fn layout_node<R: Renderer>(
    n: &UnstructuredNode,
    base: Option<&LayoutBlock>,
    renderer: &mut R,
    cursor: Option<&NavPathNavigator>,
    properties: LayoutComputationProperties,
) -> (r: LayoutBlock)
    requires
        cursor matches Some(p) ==> p.index < p.path@.len(),
        node_layout_ok(n@, cursor_rest(cursor)),
    ensures
        r@ == spec_node_layout(
            old(renderer).sizes(),
            n@,
            match base {
                Some(b) => Some(b@),
                None => None,
            },
            cursor_rest(cursor),
            properties.size_reduction_level,
        ),
        final(renderer).sizes() == old(renderer).sizes(),
    decreases n, 0int,
{
    let ghost c = cursor_rest(cursor);
    match n {
        UnstructuredNode::Token(token) => {
            LayoutBlock::from_glyph(renderer, Glyph::from(*token), properties)
        },
        UnstructuredNode::Sqrt(inner) => {
            let child = slot_navigator(cursor, 0);
            let inner_layout = layout_list(inner, renderer, child.as_ref(), properties);
            layout_sqrt(inner_layout, renderer, properties)
        },
        UnstructuredNode::Fraction(top, bottom) => {
            let top_child = slot_navigator(cursor, 0);
            let bottom_child = slot_navigator(cursor, 1);
            let top_layout = layout_list(top, renderer, top_child.as_ref(), properties);
            let bottom_layout = layout_list(bottom, renderer, bottom_child.as_ref(), properties);
            layout_fraction(top_layout, bottom_layout, renderer, properties)
        },
        UnstructuredNode::Parentheses(inner) => {
            let child = slot_navigator(cursor, 0);
            let inner_layout = layout_list(inner, renderer, child.as_ref(), properties);
            layout_parentheses(inner_layout, renderer, properties)
        },
        UnstructuredNode::Power(exponent) => {
            // Exponents are drawn one level smaller
            let child = slot_navigator(cursor, 0);
            let exponent_layout = layout_list(exponent, renderer, child.as_ref(), properties.reduce_size());
            layout_power(base, exponent_layout)
        },
        UnstructuredNode::FunctionCall(function, args) => {
            proof {
                assert(decreases_to!(*n => n->FunctionCall_1));
                assert(args@.map_values(|a: UnstructuredNodeList| a@) =~= n@->FunctionCall_1);
            }
            let layouts = layout_args(args, renderer, cursor, properties);
            layout_function_call(*function, layouts, renderer, properties)
        },
    }
}

/// Lays out a list of nodes.
fn layout_list<R: Renderer>(
    l: &UnstructuredNodeList,
    renderer: &mut R,
    cursor: Option<&NavPathNavigator>,
    properties: LayoutComputationProperties,
) -> (r: LayoutBlock)
    requires
        cursor matches Some(p) ==> p.index < p.path@.len(),
        list_layout_ok(l@, cursor_rest(cursor)),
    ensures
        r@ == spec_list_layout(old(renderer).sizes(), l@, cursor_rest(cursor), properties.size_reduction_level),
        final(renderer).sizes() == old(renderer).sizes(),
    decreases l, 2int,
{
    let ghost sz = renderer.sizes();
    let ghost c = cursor_rest(cursor);
    let ghost level = properties.size_reduction_level;
    let mut layouts: Vec<LayoutBlock> = Vec::new();
    let mut i: usize = 0;
    while i < l.items.len()
        invariant
            i <= l.items@.len(),
            cursor matches Some(p) ==> p.index < p.path@.len(),
            list_layout_ok(l@, c),
            c == cursor_rest(cursor),
            renderer.sizes() == sz,
            level == properties.size_reduction_level,
            layouts@.len() == i,
            forall|j: int|
                0 <= j < i ==> (#[trigger] layouts@[j])@ == spec_item_layout(sz, l@.items, j, c, level),
        decreases l.items@.len() - i,
    {
        proof {
            assert(decreases_to!(l => l.items));
            assert(decreases_to!(l.items => l.items[i as int]));
            assert(l@.items[i as int] == l.items@[i as int]@);
        }
        // The item contains the cursor if the path continues into it
        let child = match cursor {
            Some(p) => if !p.here() && p.next() == i {
                let q = p.step();
                assert(q.rest() =~= p.rest().skip(1));
                Some(q)
            } else {
                None
            },
            None => None,
        };
        assert(nav_rest(child) == item_cursor(c, i as int));
        let item_layout = if i == 0 {
            layout_node(&l.items[i], None, renderer, child.as_ref(), properties)
        } else {
            layout_node(&l.items[i], Some(&layouts[i - 1]), renderer, child.as_ref(), properties)
        };
        layouts.push(item_layout);
        i = i + 1;
    }
    let ghost items = Seq::new(l@.items.len(), |j: int| spec_item_layout(sz, l@.items, j, c, level));
    assert(views(layouts@) =~= items);
    // If the cursor is in this list, insert it
    let cursor_index: Option<usize> = match cursor {
        Some(p) => if p.here() {
            Some(p.next())
        } else {
            None
        },
        None => None,
    };
    if let Some(idx) = cursor_index {
        // Match the size of the taller neighbour, or of a digit where there is none
        let (height, baseline) = if layouts.len() == 0 {
            let digit = LayoutBlock::from_glyph(renderer, Glyph::Digit { number: 0 }, properties);
            (digit.area.height, digit.baseline)
        } else if idx == 0 {
            (layouts[0].area.height, layouts[0].baseline)
        } else if idx == layouts.len() {
            (layouts[idx - 1].area.height, layouts[idx - 1].baseline)
        } else {
            let after = &layouts[idx];
            let before = &layouts[idx - 1];
            if after.area.height > before.area.height {
                (after.area.height, after.baseline)
            } else {
                (before.area.height, before.baseline)
            }
        };
        let mut cursor_layout = LayoutBlock::from_glyph(renderer, Glyph::Cursor { height }, properties);
        cursor_layout.baseline = baseline;
        let ghost cursor_view = cursor_layout@;
        assert(cursor_view == spec_cursor_block(sz, items, idx as int, level));
        layouts.insert(idx, cursor_layout);
        assert(views(layouts@) =~= items.insert(idx as int, cursor_view));
    }
    assert(views(layouts@) =~= spec_list_parts(sz, l@, c, level));
    // An empty list without the cursor shows a placeholder
    if layouts.len() == 0 {
        let placeholder = LayoutBlock::from_glyph(renderer, Glyph::Placeholder, properties);
        let ghost placeholder_view = placeholder@;
        layouts.push(placeholder);
        assert(views(layouts@) =~= seq![placeholder_view]);
    }
    LayoutBlock::layout_horizontal(layouts.as_slice())
}

impl Layoutable for UnstructuredNodeList {
    open spec fn layout_ok(&self, cursor: Option<Seq<usize>>) -> bool {
        list_layout_ok(self@, cursor)
    }

    open spec fn spec_layout(&self, sz: SizeFn, cursor: Option<Seq<usize>>, level: u32) -> BlockModel {
        spec_list_layout(sz, self@, cursor, level)
    }

    fn layout<R: Renderer>(
        &self,
        renderer: &mut R,
        path: Option<&NavPathNavigator>,
        properties: LayoutComputationProperties,
    ) -> (r: LayoutBlock) {
        layout_list(self, renderer, path, properties)
    }
}

impl Layoutable for UnstructuredNode {
    open spec fn layout_ok(&self, cursor: Option<Seq<usize>>) -> bool {
        node_layout_ok(self@, cursor)
    }

    open spec fn spec_layout(&self, sz: SizeFn, cursor: Option<Seq<usize>>, level: u32) -> BlockModel {
        spec_node_layout(sz, self@, None, cursor, level)
    }

    fn layout<R: Renderer>(
        &self,
        renderer: &mut R,
        path: Option<&NavPathNavigator>,
        properties: LayoutComputationProperties,
    ) -> (r: LayoutBlock) {
        layout_node(self, None, renderer, path, properties)
    }
}

impl Layoutable for UnstructuredNodeRoot {
    open spec fn layout_ok(&self, cursor: Option<Seq<usize>>) -> bool {
        list_layout_ok(self@, cursor)
    }

    open spec fn spec_layout(&self, sz: SizeFn, cursor: Option<Seq<usize>>, level: u32) -> BlockModel {
        spec_list_layout(sz, self@, cursor, level)
    }

    fn layout<R: Renderer>(
        &self,
        renderer: &mut R,
        path: Option<&NavPathNavigator>,
        properties: LayoutComputationProperties,
    ) -> (r: LayoutBlock) {
        layout_list(&self.root, renderer, path, properties)
    }
}

impl<'a> Layoutable for UnstructuredItem<'a> {
    open spec fn layout_ok(&self, cursor: Option<Seq<usize>>) -> bool {
        match self {
            UnstructuredItem::Node(n) => node_layout_ok(n@, cursor),
            UnstructuredItem::List(l) => list_layout_ok(l@, cursor),
        }
    }

    open spec fn spec_layout(&self, sz: SizeFn, cursor: Option<Seq<usize>>, level: u32) -> BlockModel {
        match self {
            UnstructuredItem::Node(n) => spec_node_layout(sz, n@, None, cursor, level),
            UnstructuredItem::List(l) => spec_list_layout(sz, l@, cursor, level),
        }
    }

    fn layout<R: Renderer>(
        &self,
        renderer: &mut R,
        path: Option<&NavPathNavigator>,
        properties: LayoutComputationProperties,
    ) -> (r: LayoutBlock) {
        match self {
            UnstructuredItem::Node(n) => layout_node(n, None, renderer, path, properties),
            UnstructuredItem::List(l) => layout_list(l, renderer, path, properties),
        }
    }
}

} // verus!
