//! Layouts shared by every kind of node tree: square roots, fractions, parentheses, powers and
//! function calls, each built around the already computed layouts of what it contains.

use vstd::prelude::*;

use crate::node::function::Function;
use crate::render::{
    lemma_layout_horizontal_shows_cursor, lemma_merge_shows_cursor, lemma_offset_shows_cursor,
    shows_cursor, PlacedGlyph, spec_glyph_block, spec_layout_horizontal, spec_merge_along_vertical_centre, spec_merge_in_place,
    spec_offset, wadd, with_baseline, BlockModel, Glyph, LayoutBlock, LayoutComputationProperties,
    MergeBaseline, Renderer, SizeFn, views,
};

verus! {

/// The difference of two dimensions, wrapping at the word size.
pub open spec fn wsub(a: u64, b: u64) -> u64 {
    vstd::wrapping::u64_specs::wrapping_sub(a, b)
}

/// A square root symbol drawn around an inner layout, which sits in its bottom right.
pub open spec fn spec_sqrt(sz: SizeFn, inner: BlockModel, level: u32) -> BlockModel {
    let symbol = spec_glyph_block(sz, Glyph::Sqrt { inner_area: inner.area }, level);
    spec_merge_in_place(
        symbol,
        spec_offset(
            inner,
            wsub(symbol.area.width, inner.area.width),
            wsub(symbol.area.height, inner.area.height),
        ),
        MergeBaseline::OtherAsBaseline,
    )
}

/// A fraction: the top, a line as wide as the wider of top and bottom, and the bottom, stacked
/// and centred. The baseline is that of the line.
pub open spec fn spec_fraction(sz: SizeFn, top: BlockModel, bottom: BlockModel, level: u32) -> BlockModel {
    let width = if top.area.width >= bottom.area.width { top.area.width } else { bottom.area.width };
    let line = spec_offset(spec_glyph_block(sz, Glyph::Fraction { inner_width: width }, level), 0, top.area.height);
    let bottom = spec_offset(bottom, 0, line.area.height);
    spec_merge_along_vertical_centre(
        spec_merge_along_vertical_centre(top, line, MergeBaseline::OtherAsBaseline),
        bottom,
        MergeBaseline::SelfAsBaseline,
    )
}

/// An inner layout between parentheses as tall as it, all aligned along its baseline.
pub open spec fn spec_parentheses(sz: SizeFn, inner: BlockModel, level: u32) -> BlockModel {
    let h = inner.area.height;
    let left = with_baseline(spec_glyph_block(sz, Glyph::LeftParenthesis { inner_height: h }, level), inner.baseline);
    let right = with_baseline(spec_glyph_block(sz, Glyph::RightParenthesis { inner_height: h }, level), inner.baseline);
    spec_layout_horizontal(seq![left, inner, right])
}

/// An exponent raised so that its bottom sits on the baseline of its base (or of nothing, where
/// there is no base).
pub open spec fn spec_power(base: Option<BlockModel>, exponent: BlockModel) -> BlockModel {
    let base_baseline = match base {
        Some(b) => b.baseline,
        None => 0,
    };
    with_baseline(exponent, wadd(exponent.area.height, base_baseline))
}

/// The arguments of a function call, separated by commas.
pub open spec fn spec_with_commas(sz: SizeFn, args: Seq<BlockModel>, level: u32) -> Seq<BlockModel>
    decreases args.len(),
{
    if args.len() == 0 {
        Seq::empty()
    } else if args.len() == 1 {
        args
    } else {
        spec_with_commas(sz, args.drop_last(), level).push(spec_glyph_block(sz, Glyph::Comma, level)).push(
            args.last(),
        )
    }
}

/// A function call: the name of the function, followed by its arguments in parentheses.
pub open spec fn spec_function_call(sz: SizeFn, function: Function, args: Seq<BlockModel>, level: u32) -> BlockModel {
    spec_layout_horizontal(
        seq![
            spec_glyph_block(sz, Glyph::FunctionName { function }, level),
            spec_parentheses(sz, spec_layout_horizontal(spec_with_commas(sz, args, level)), level),
        ],
    )
}

/// The shared layouts keep the cursor of what they contain.
pub proof fn lemma_common_shows_cursor(sz: SizeFn, inner: BlockModel, other: BlockModel, level: u32)
    requires
        shows_cursor(inner.glyphs),
    ensures
        shows_cursor(spec_sqrt(sz, inner, level).glyphs),
        shows_cursor(spec_fraction(sz, inner, other, level).glyphs),
        shows_cursor(spec_fraction(sz, other, inner, level).glyphs),
        shows_cursor(spec_parentheses(sz, inner, level).glyphs),
        shows_cursor(spec_power(None, inner).glyphs),
        forall|b: BlockModel| shows_cursor(#[trigger] spec_power(Some(b), inner).glyphs),
{
    let symbol = spec_glyph_block(sz, Glyph::Sqrt { inner_area: inner.area }, level);
    let xo = wsub(symbol.area.width, inner.area.width);
    let yo = wsub(symbol.area.height, inner.area.height);
    lemma_offset_shows_cursor(inner, xo, yo);
    lemma_merge_shows_cursor(symbol, spec_offset(inner, xo, yo), MergeBaseline::OtherAsBaseline);
    // Fractions, with the cursor at the top or at the bottom
    let w1 = if inner.area.width >= other.area.width { inner.area.width } else { other.area.width };
    let line1 = spec_offset(spec_glyph_block(sz, Glyph::Fraction { inner_width: w1 }, level), 0, inner.area.height);
    lemma_merge_shows_cursor(inner, line1, MergeBaseline::OtherAsBaseline);
    lemma_merge_shows_cursor(
        spec_merge_along_vertical_centre(inner, line1, MergeBaseline::OtherAsBaseline),
        spec_offset(other, 0, line1.area.height),
        MergeBaseline::SelfAsBaseline,
    );
    let w2 = if other.area.width >= inner.area.width { other.area.width } else { inner.area.width };
    let line2 = spec_offset(spec_glyph_block(sz, Glyph::Fraction { inner_width: w2 }, level), 0, other.area.height);
    lemma_offset_shows_cursor(inner, 0, line2.area.height);
    lemma_merge_shows_cursor(
        spec_merge_along_vertical_centre(other, line2, MergeBaseline::OtherAsBaseline),
        spec_offset(inner, 0, line2.area.height),
        MergeBaseline::SelfAsBaseline,
    );
    // Parentheses
    let h = inner.area.height;
    let left = with_baseline(spec_glyph_block(sz, Glyph::LeftParenthesis { inner_height: h }, level), inner.baseline);
    let right = with_baseline(spec_glyph_block(sz, Glyph::RightParenthesis { inner_height: h }, level), inner.baseline);
    lemma_layout_horizontal_shows_cursor(seq![left, inner, right], 1);
}

/// A function call keeps the cursor of any of its arguments.
pub proof fn lemma_function_call_shows_cursor(sz: SizeFn, function: Function, args: Seq<BlockModel>, k: int, level: u32)
    requires
        0 <= k < args.len(),
        shows_cursor(args[k].glyphs),
    ensures
        shows_cursor(spec_function_call(sz, function, args, level).glyphs),
{
    lemma_with_commas_contains(sz, args, k, level);
    let parts = spec_with_commas(sz, args, level);
    let j = choose|j: int| 0 <= j < parts.len() && parts[j] == args[k];
    lemma_layout_horizontal_shows_cursor(parts, j);
    let inner = spec_layout_horizontal(parts);
    lemma_common_shows_cursor(sz, inner, inner, level);
    lemma_layout_horizontal_shows_cursor(
        seq![spec_glyph_block(sz, Glyph::FunctionName { function }, level), spec_parentheses(sz, inner, level)],
        1,
    );
}

/// Each argument stands among the arguments separated by commas.
proof fn lemma_with_commas_contains(sz: SizeFn, args: Seq<BlockModel>, k: int, level: u32)
    requires
        0 <= k < args.len(),
    ensures
        exists|j: int| 0 <= j < spec_with_commas(sz, args, level).len() && spec_with_commas(sz, args, level)[j] == args[k],
    decreases args.len(),
{
    let parts = spec_with_commas(sz, args, level);
    if args.len() == 1 {
        assert(parts[k] == args[k]);
    } else if k == args.len() - 1 {
        assert(parts[parts.len() - 1] == args[k]);
    } else {
        lemma_with_commas_contains(sz, args.drop_last(), k, level);
        let previous = spec_with_commas(sz, args.drop_last(), level);
        let j = choose|j: int| 0 <= j < previous.len() && previous[j] == args.drop_last()[k];
        assert(parts[j] == previous[j]);
    }
}

/// Lays out a square root symbol around an already laid out inner item.
pub fn layout_sqrt<R: Renderer>(inner: LayoutBlock, renderer: &mut R, properties: LayoutComputationProperties) -> (r: LayoutBlock)
    ensures
        r@ == spec_sqrt(old(renderer).sizes(), inner@, properties.size_reduction_level),
        final(renderer).sizes() == old(renderer).sizes(),
{
    let inner_area = inner.area;
    let symbol = LayoutBlock::from_glyph(renderer, Glyph::Sqrt { inner_area }, properties);
    // The inner layout goes in the very bottom right
    let x_offset = symbol.area.width.wrapping_sub(inner_area.width);
    let y_offset = symbol.area.height.wrapping_sub(inner_area.height);
    symbol.merge_in_place(&inner.offset(x_offset, y_offset), MergeBaseline::OtherAsBaseline)
}

/// Lays out a fraction of two already laid out items.
pub fn layout_fraction<R: Renderer>(
    top: LayoutBlock,
    bottom: LayoutBlock,
    renderer: &mut R,
    properties: LayoutComputationProperties,
) -> (r: LayoutBlock)
    ensures
        r@ == spec_fraction(old(renderer).sizes(), top@, bottom@, properties.size_reduction_level),
        final(renderer).sizes() == old(renderer).sizes(),
{
    // The fraction line is as wide as the wider of the two
    let line_width = if top.area.width >= bottom.area.width { top.area.width } else { bottom.area.width };
    let line = LayoutBlock::from_glyph(renderer, Glyph::Fraction { inner_width: line_width }, properties)
        .move_below_other(&top);
    let bottom = bottom.move_below_other(&line);
    top.merge_along_vertical_centre(&line, MergeBaseline::OtherAsBaseline).merge_along_vertical_centre(
        &bottom,
        MergeBaseline::SelfAsBaseline,
    )
}

/// Lays out parentheses around an already laid out item.
pub fn layout_parentheses<R: Renderer>(inner: LayoutBlock, renderer: &mut R, properties: LayoutComputationProperties) -> (r: LayoutBlock)
    ensures
        r@ == spec_parentheses(old(renderer).sizes(), inner@, properties.size_reduction_level),
        final(renderer).sizes() == old(renderer).sizes(),
{
    let height = inner.area.height;
    let mut left = LayoutBlock::from_glyph(renderer, Glyph::LeftParenthesis { inner_height: height }, properties);
    left.baseline = inner.baseline;
    let mut right = LayoutBlock::from_glyph(renderer, Glyph::RightParenthesis { inner_height: height }, properties);
    right.baseline = inner.baseline;
    let ghost parts = seq![left@, inner@, right@];
    let blocks = vec![left, inner, right];
    proof {
        assert(views(blocks@) =~= parts);
    }
    LayoutBlock::layout_horizontal(blocks.as_slice())
}

/// Raises an already laid out exponent above the baseline of its base.
pub fn layout_power(base: Option<&LayoutBlock>, exponent: LayoutBlock) -> (r: LayoutBlock)
    ensures
        r@ == spec_power(
            match base {
                Some(b) => Some(b@),
                None => None,
            },
            exponent@,
        ),
{
    let base_baseline = match base {
        Some(b) => b.baseline,
        None => 0,
    };
    let mut r = exponent;
    r.baseline = r.area.height.wrapping_add(base_baseline);
    r
}

/// Lays out a call of a function with already laid out arguments.
pub fn layout_function_call<R: Renderer>(
    function: Function,
    args: Vec<LayoutBlock>,
    renderer: &mut R,
    properties: LayoutComputationProperties,
) -> (r: LayoutBlock)
    ensures
        r@ == spec_function_call(old(renderer).sizes(), function, views(args@), properties.size_reduction_level),
        final(renderer).sizes() == old(renderer).sizes(),
{
    let ghost sz = renderer.sizes();
    let ghost level = properties.size_reduction_level;
    let ghost arg_views = views(args@);
    let mut parts: Vec<LayoutBlock> = Vec::new();
    let mut args = args;
    let mut reversed: Vec<LayoutBlock> = Vec::new();
    // Reverse the arguments, so that popping takes them in order
    while args.len() > 0
        invariant
            views(args@) + views(reversed@).reverse() =~= arg_views,
        decreases args.len(),
    {
        let ghost before = args@;
        let ghost rev_before = reversed@;
        let last = args.pop().unwrap();
        reversed.push(last);
        proof {
            assert(views(args@) =~= views(before).drop_last());
            assert(views(reversed@).reverse() =~= seq![last@] + views(rev_before).reverse());
        }
    }
    let mut i: usize = 0;
    let n = reversed.len();
    assert(views(reversed@).reverse() =~= arg_views);
    while reversed.len() > 0
        invariant
            renderer.sizes() == sz,
            level == properties.size_reduction_level,
            i + reversed@.len() == n,
            n == arg_views.len(),
            views(reversed@).reverse() =~= arg_views.skip(i as int),
            views(parts@) =~= spec_with_commas(sz, arg_views.take(i as int), level),
        decreases reversed.len(),
    {
        let ghost rev_before = reversed@;
        let arg = reversed.pop().unwrap();
        proof {
            assert(views(rev_before).reverse()[0] == arg@);
            assert(arg_views.skip(i as int)[0] == arg_views[i as int]);
            assert(views(reversed@).reverse() =~= views(rev_before).reverse().skip(1));
        }
        let ghost parts_before = views(parts@);
        if i > 0 {
            let comma = LayoutBlock::from_glyph(renderer, Glyph::Comma, properties);
            assert(comma@ == spec_glyph_block(sz, Glyph::Comma, level));
            parts.push(comma);
            assert(views(parts@) =~= parts_before.push(spec_glyph_block(sz, Glyph::Comma, level)));
        }
        let ghost parts_mid = views(parts@);
        let ghost arg_view = arg@;
        parts.push(arg);
        assert(views(parts@) =~= parts_mid.push(arg_view));
        proof {
            assert(arg_views.take(i + 1).last() == arg_view);
            assert(arg_views.take(i + 1).drop_last() =~= arg_views.take(i as int));
            assert(arg_views.skip(i as int).skip(1) =~= arg_views.skip(i + 1));
            if i == 0 {
                assert(arg_views.take(1) =~= seq![arg_views[0]]);
            }
        }
        i = i + 1;
    }
    let inner = LayoutBlock::layout_horizontal(parts.as_slice());
    let name = LayoutBlock::from_glyph(renderer, Glyph::FunctionName { function }, properties);
    let bracketed = layout_parentheses(inner, renderer, properties);
    let ghost whole = seq![name@, bracketed@];
    let blocks = vec![name, bracketed];
    proof {
        assert(views(blocks@) =~= whole);
        assert(arg_views.take(n as int) =~= arg_views);
    }
    LayoutBlock::layout_horizontal(blocks.as_slice())
}

} // verus!
