//! Layout computation and drawing.
//!
//! Node trees are converted into [LayoutBlock]s: sequences of [SizedGlyph]s placed at points
//! relative to the top-left of the layout. A [Renderer] tells the layout how big each glyph is,
//! and draws the glyphs once their positions are known.
//!
//! Coordinates are machine words. Where a sum exceeds the word it wraps around, as conversions
//! between signed and unsigned words do; the contracts below state the exact arithmetic.

use vstd::prelude::*;

use crate::nav::NavPathNavigator;
use crate::node::function::Function;
use crate::node::unstructured::Token;

verus! {

pub type Dimension = u64;

/// The sum of two dimensions, wrapping at the word size.
pub open spec fn wadd(a: u64, b: u64) -> u64 {
    vstd::wrapping::u64_specs::wrapping_add(a, b)
}

/// A point relative to the top-left of the layout.
#[derive(PartialEq, Eq, Clone, Copy, Debug)]
pub struct CalculatedPoint {
    pub x: u64,
    pub y: u64,
}

impl CalculatedPoint {
    /// Moves the point horizontally by `delta`.
    pub fn dx(&self, delta: i64) -> (r: CalculatedPoint)
        ensures
            r.x == vstd::wrapping::u64_specs::wrapping_add_signed(self.x, delta),
            r.y == self.y,
    {
        CalculatedPoint { x: self.x.wrapping_add_signed(delta), y: self.y }
    }

    /// Moves the point vertically by `delta`.
    pub fn dy(&self, delta: i64) -> (r: CalculatedPoint)
        ensures
            r.x == self.x,
            r.y == vstd::wrapping::u64_specs::wrapping_add_signed(self.y, delta),
    {
        CalculatedPoint { x: self.x, y: self.y.wrapping_add_signed(delta) }
    }

    /// Converts this point into one relative to the top-left of the viewport, if there is one.
    pub fn to_viewport_point(&self, viewport: Option<&Viewport>) -> (r: ViewportPoint)
        ensures
            r == spec_to_viewport_point(*self, viewport),
            self.x <= i64::MAX && self.y <= i64::MAX ==> match viewport {
                Some(v) => v.offset.x <= i64::MAX && v.offset.y <= i64::MAX ==> (
                    r.x == self.x - v.offset.x && r.y == self.y - v.offset.y),
                None => r.x == self.x && r.y == self.y,
            },
    {
        let x = self.x as i64;
        let y = self.y as i64;
        match viewport {
            Some(viewport) => ViewportPoint {
                x: x.wrapping_sub(viewport.offset.x as i64),
                y: y.wrapping_sub(viewport.offset.y as i64),
            },
            None => ViewportPoint { x, y },
        }
    }
}

/// The point relative to the viewport (if any) of a point of a layout, in word arithmetic.
pub open spec fn spec_to_viewport_point(p: CalculatedPoint, viewport: Option<&Viewport>) -> ViewportPoint {
    match viewport {
        Some(v) => ViewportPoint {
            x: vstd::wrapping::i64_specs::wrapping_sub(p.x as i64, v.offset.x as i64),
            y: vstd::wrapping::i64_specs::wrapping_sub(p.y as i64, v.offset.y as i64),
        },
        None => ViewportPoint { x: p.x as i64, y: p.y as i64 },
    }
}

/// A rectangular window onto a layout, used to scroll and clip large layouts.
#[derive(PartialEq, Eq, Clone, Copy, Debug)]
pub struct Viewport {
    pub size: Area,
    pub offset: CalculatedPoint,
}

/// The clipping of an item of the given position and area within a viewport of the given size,
/// in mathematical integers.
pub open spec fn spec_visibility(size: Area, x: int, y: int, w: int, h: int) -> ViewportVisibility {
    let left_clip = if x < 0 { -x } else { 0 };
    let top_clip = if y < 0 { -y } else { 0 };
    let end_x = x + w;
    let end_y = y + h;
    let right_clip = if end_x > size.width { end_x - size.width } else { 0 };
    let bottom_clip = if end_y > size.height { end_y - size.height } else { 0 };
    if top_clip == 0 && bottom_clip == 0 && left_clip == 0 && right_clip == 0 {
        ViewportVisibility::Visible
    } else {
        ViewportVisibility::Clipped {
            invisible: end_x <= 0 || end_y <= 0 || x >= size.width || y >= size.height,
            top_clip: top_clip as u64,
            bottom_clip: bottom_clip as u64,
            left_clip: left_clip as u64,
            right_clip: right_clip as u64,
        }
    }
}

/// The bound below which the arithmetic of [Viewport::visibility] does not wrap.
pub open spec fn small(v: int) -> bool {
    -0x1000_0000_0000_0000 <= v <= 0x1000_0000_0000_0000
}

/// The clipping of an item of the given position and area within a viewport of the given size,
/// computed in wrapping word arithmetic.
pub open spec fn spec_visibility_wrapping(size: Area, x: i64, y: i64, w: u64, h: u64) -> ViewportVisibility {
    let width = w as i64;
    let height = h as i64;
    let view_width = size.width as i64;
    let view_height = size.height as i64;
    let left_clip = if x < 0 { vstd::wrapping::i64_specs::wrapping_sub(0, x) as u64 } else { 0 };
    let top_clip = if y < 0 { vstd::wrapping::i64_specs::wrapping_sub(0, y) as u64 } else { 0 };
    let end_x = vstd::wrapping::i64_specs::wrapping_add(x, width);
    let right_clip = if end_x > view_width {
        vstd::wrapping::i64_specs::wrapping_sub(end_x, view_width) as u64
    } else {
        0
    };
    let end_y = vstd::wrapping::i64_specs::wrapping_add(y, height);
    let bottom_clip = if end_y > view_height {
        vstd::wrapping::i64_specs::wrapping_sub(end_y, view_height) as u64
    } else {
        0
    };
    if top_clip == 0 && bottom_clip == 0 && left_clip == 0 && right_clip == 0 {
        ViewportVisibility::Visible
    } else {
        ViewportVisibility::Clipped {
            invisible: end_x <= 0 || end_y <= 0 || x >= view_width || y >= view_height,
            top_clip,
            bottom_clip,
            left_clip,
            right_clip,
        }
    }
}

/// The visibility of an item of the given area at a point of a viewport of the given size: in
/// mathematical integers where every coordinate is small, and in wrapping word arithmetic
/// otherwise.
pub open spec fn spec_viewport_visibility(size: Area, point: ViewportPoint, area: Area) -> ViewportVisibility {
    if small(point.x as int) && small(point.y as int) && small(area.width as int) && small(area.height as int)
        && small(size.width as int) && small(size.height as int) {
        spec_visibility(size, point.x as int, point.y as int, area.width as int, area.height as int)
    } else {
        spec_visibility_wrapping(size, point.x, point.y, area.width, area.height)
    }
}

impl Viewport {
    pub fn new(size: Area) -> (r: Self)
        ensures
            r.size == size,
            r.offset == (CalculatedPoint { x: 0, y: 0 }),
    {
        Viewport { size, offset: CalculatedPoint { x: 0, y: 0 } }
    }

    /// Returns true if the point lies inside this viewport.
    pub fn includes_point(&self, point: &ViewportPoint) -> (r: bool)
        ensures
            r == (0 <= point.x && 0 <= point.y && point.x < self.size.width as i64 && point.y
                < self.size.height as i64),
            self.size.width <= i64::MAX && self.size.height <= i64::MAX ==> r == (0 <= point.x
                < self.size.width && 0 <= point.y < self.size.height),
    {
        // The ViewportPoint is relative to the top-left anyway, so the offset doesn't matter
        point.x >= 0 && point.y >= 0 && point.x < self.size.width as i64 && point.y
            < self.size.height as i64
    }

    /// Describes how much of an item of the given area, at the given point, lies outside this
    /// viewport.
    pub fn visibility(&self, point: &ViewportPoint, area: &Area) -> (r: ViewportVisibility)
        ensures
            r == spec_viewport_visibility(self.size, *point, *area),
            small(point.x as int) && small(point.y as int) && small(area.width as int) && small(
                area.height as int,
            ) && small(self.size.width as int) && small(self.size.height as int) ==> r
                == spec_visibility(
                self.size,
                point.x as int,
                point.y as int,
                area.width as int,
                area.height as int,
            ),
    {
        let big: i64 = 0x1000_0000_0000_0000;
        if !(-big <= point.x && point.x <= big && -big <= point.y && point.y <= big && area.width
            <= big as u64 && area.height <= big as u64 && self.size.width <= big as u64
            && self.size.height <= big as u64) {
            return self.visibility_wrapping(point, area);
        }
        let width = area.width as i64;
        let height = area.height as i64;
        let view_width = self.size.width as i64;
        let view_height = self.size.height as i64;
        let left_clip: u64 = if point.x < 0 { (-point.x) as u64 } else { 0 };
        let top_clip: u64 = if point.y < 0 { (-point.y) as u64 } else { 0 };
        let end_x = point.x + width;
        let right_clip: u64 = if end_x > view_width { (end_x - view_width) as u64 } else { 0 };
        let end_y = point.y + height;
        let bottom_clip: u64 = if end_y > view_height { (end_y - view_height) as u64 } else { 0 };
        if top_clip == 0 && bottom_clip == 0 && left_clip == 0 && right_clip == 0 {
            ViewportVisibility::Visible
        } else {
            ViewportVisibility::Clipped {
                invisible: end_x <= 0 || end_y <= 0 || point.x >= view_width || point.y >= view_height,
                top_clip,
                bottom_clip,
                left_clip,
                right_clip,
            }
        }
    }

    /// The same computation as `visibility`, in wrapping word arithmetic, for huge coordinates.
    fn visibility_wrapping(&self, point: &ViewportPoint, area: &Area) -> (r: ViewportVisibility)
        ensures
            r == spec_visibility_wrapping(self.size, point.x, point.y, area.width, area.height),
    {
        let width = area.width as i64;
        let height = area.height as i64;
        let view_width = self.size.width as i64;
        let view_height = self.size.height as i64;
        let left_clip: u64 = if point.x < 0 { 0i64.wrapping_sub(point.x) as u64 } else { 0 };
        let top_clip: u64 = if point.y < 0 { 0i64.wrapping_sub(point.y) as u64 } else { 0 };
        let end_x = point.x.wrapping_add(width);
        let right_clip: u64 = if end_x > view_width { end_x.wrapping_sub(view_width) as u64 } else { 0 };
        let end_y = point.y.wrapping_add(height);
        let bottom_clip: u64 = if end_y > view_height { end_y.wrapping_sub(view_height) as u64 } else { 0 };
        if top_clip == 0 && bottom_clip == 0 && left_clip == 0 && right_clip == 0 {
            ViewportVisibility::Visible
        } else {
            ViewportVisibility::Clipped {
                invisible: end_x <= 0 || end_y <= 0 || point.x >= view_width || point.y >= view_height,
                top_clip,
                bottom_clip,
                left_clip,
                right_clip,
            }
        }
    }
}

/// A point relative to the top-left of the viewport.
#[derive(PartialEq, Eq, Clone, Copy, Debug)]
pub struct ViewportPoint {
    pub x: i64,
    pub y: i64,
}

impl ViewportPoint {
    pub fn dx(&self, delta: i64) -> (r: ViewportPoint)
        ensures
            r.x == vstd::wrapping::i64_specs::wrapping_add(self.x, delta),
            r.y == self.y,
    {
        ViewportPoint { x: self.x.wrapping_add(delta), y: self.y }
    }

    pub fn dy(&self, delta: i64) -> (r: ViewportPoint)
        ensures
            r.x == self.x,
            r.y == vstd::wrapping::i64_specs::wrapping_add(self.y, delta),
    {
        ViewportPoint { x: self.x, y: self.y.wrapping_add(delta) }
    }
}

/// Describes the visibility of an item within a viewport.
#[derive(PartialEq, Eq, Clone, Copy, Debug)]
pub enum ViewportVisibility {
    /// The entire item is visible.
    Visible,
    /// Some or all of the item is outside of the viewport.
    Clipped {
        /// True if the item is entirely invisible and does not need to be drawn at all.
        invisible: bool,
        /// The height from the top of the item which is clipped out of the viewport.
        top_clip: Dimension,
        /// The height from the bottom of the item which is clipped out of the viewport.
        bottom_clip: Dimension,
        /// The width from the left of the item which is clipped out of the viewport.
        left_clip: Dimension,
        /// The width from the right of the item which is clipped out of the viewport.
        right_clip: Dimension,
    },
}

/// A glyph in a viewport.
#[derive(PartialEq, Eq, Clone, Copy, Debug)]
pub struct ViewportGlyph {
    pub glyph: SizedGlyph,
    pub point: ViewportPoint,
    pub visibility: ViewportVisibility,
}

#[derive(PartialEq, Eq, Clone, Copy, Debug)]
pub struct Area {
    pub width: Dimension,
    pub height: Dimension,
}

impl Area {
    pub fn new(width: Dimension, height: Dimension) -> (r: Area)
        ensures
            r.width == width,
            r.height == height,
    {
        Area { width, height }
    }

    pub fn square(size: Dimension) -> (r: Area)
        ensures
            r.width == size,
            r.height == size,
    {
        Area { width: size, height: size }
    }
}

/// Something which a renderer can draw.
#[derive(PartialEq, Eq, Clone, Copy, Debug)]
pub enum Glyph {
    Digit { number: u8 },
    Point,
    Variable { name: char },
    Add,
    Subtract,
    Multiply,
    Divide,
    Fraction { inner_width: Dimension },
    LeftParenthesis { inner_height: Dimension },
    RightParenthesis { inner_height: Dimension },
    Sqrt { inner_area: Area },
    Cursor { height: Dimension },
    Placeholder,
    FunctionName { function: Function },
    Comma,
}

/// The glyph which draws a token.
pub open spec fn token_glyph(token: Token) -> Glyph {
    match token {
        Token::Add => Glyph::Add,
        Token::Subtract => Glyph::Subtract,
        Token::Multiply => Glyph::Multiply,
        Token::Divide => Glyph::Divide,
        Token::Digit(d) => Glyph::Digit { number: d },
        Token::Point => Glyph::Point,
        Token::Variable(c) => Glyph::Variable { name: c },
    }
}

impl From<Token> for Glyph {
    fn from(token: Token) -> (r: Self)
        ensures
            r == token_glyph(token),
    {
        match token {
            Token::Add => Glyph::Add,
            Token::Subtract => Glyph::Subtract,
            Token::Multiply => Glyph::Multiply,
            Token::Divide => Glyph::Divide,
            Token::Digit(d) => Glyph::Digit { number: d },
            Token::Point => Glyph::Point,
            Token::Variable(c) => Glyph::Variable { name: c },
        }
    }
}

impl vstd::std_specs::convert::FromSpecImpl<Token> for Glyph {
    open spec fn obeys_from_spec() -> bool {
        true
    }

    open spec fn from_spec(v: Token) -> Glyph {
        token_glyph(v)
    }
}

/// Properties which are passed down the node tree while a layout is computed.
#[derive(PartialEq, Eq, Clone, Copy, Debug)]
pub struct LayoutComputationProperties {
    /// How many levels smaller than normal the glyphs should be drawn. Exponents are drawn one
    /// level smaller than their base.
    pub size_reduction_level: u32,
}

impl Default for LayoutComputationProperties {
    fn default() -> (r: Self)
        ensures
            r.size_reduction_level == 0,
    {
        LayoutComputationProperties { size_reduction_level: 0 }
    }
}

impl LayoutComputationProperties {
    /// The properties for an exponent of something laid out with these properties.
    pub fn reduce_size(&self) -> (r: Self)
        ensures
            r.size_reduction_level == vstd::wrapping::u32_specs::wrapping_add(
                self.size_reduction_level,
                1,
            ),
    {
        LayoutComputationProperties {
            size_reduction_level: self.size_reduction_level.wrapping_add(1),
        }
    }
}

impl Glyph {
    /// Sizes this glyph with the given renderer.
    pub fn to_sized<R: Renderer>(self, renderer: &mut R, properties: LayoutComputationProperties) -> (r: SizedGlyph)
        ensures
            r == (SizedGlyph {
                glyph: self,
                area: (old(renderer).sizes())(self, properties.size_reduction_level),
                size_reduction_level: properties.size_reduction_level,
            }),
            final(renderer).sizes() == old(renderer).sizes(),
    {
        SizedGlyph::from_glyph(self, renderer, properties)
    }
}

/// A glyph, together with the size at which it will be drawn.
#[derive(PartialEq, Eq, Clone, Copy, Debug)]
pub struct SizedGlyph {
    pub glyph: Glyph,
    pub area: Area,
    pub size_reduction_level: u32,
}

impl SizedGlyph {
    pub fn from_glyph<R: Renderer>(glyph: Glyph, renderer: &mut R, properties: LayoutComputationProperties) -> (r: Self)
        ensures
            r == (SizedGlyph {
                glyph,
                area: (old(renderer).sizes())(glyph, properties.size_reduction_level),
                size_reduction_level: properties.size_reduction_level,
            }),
            final(renderer).sizes() == old(renderer).sizes(),
    {
        SizedGlyph {
            glyph,
            area: renderer.size(glyph, properties.size_reduction_level),
            size_reduction_level: properties.size_reduction_level,
        }
    }
}

/// A glyph together with its position in a layout.
pub type PlacedGlyph = (SizedGlyph, CalculatedPoint);

/// The contents of a [LayoutBlock].
pub struct BlockModel {
    pub glyphs: Seq<PlacedGlyph>,
    pub baseline: Dimension,
    pub area: Area,
}

/// The smallest area, anchored at the origin, which covers all of the glyphs (each end point
/// computed in word arithmetic).
pub open spec fn glyphs_area(g: Seq<PlacedGlyph>) -> Area
    decreases g.len(),
{
    if g.len() == 0 {
        Area { width: 0, height: 0 }
    } else {
        let a = glyphs_area(g.drop_last());
        let ex = wadd(g.last().1.x, g.last().0.area.width);
        let ey = wadd(g.last().1.y, g.last().0.area.height);
        Area {
            width: if ex > a.width { ex } else { a.width },
            height: if ey > a.height { ey } else { a.height },
        }
    }
}

/// The glyphs moved right by `dx` and down by `dy`.
pub open spec fn shift_glyphs(g: Seq<PlacedGlyph>, dx: u64, dy: u64) -> Seq<PlacedGlyph> {
    Seq::new(
        g.len(),
        |i: int| (g[i].0, CalculatedPoint { x: wadd(g[i].1.x, dx), y: wadd(g[i].1.y, dy) }),
    )
}

/// A block of the given glyphs and baseline, with the area that covers the glyphs.
pub open spec fn spec_block(glyphs: Seq<PlacedGlyph>, baseline: Dimension) -> BlockModel {
    BlockModel { glyphs, baseline, area: glyphs_area(glyphs) }
}

pub open spec fn spec_offset(b: BlockModel, dx: u64, dy: u64) -> BlockModel {
    spec_block(shift_glyphs(b.glyphs, dx, dy), wadd(b.baseline, dy))
}

/// Two blocks merged so that their baselines line up.
pub open spec fn spec_merge_along_baseline(a: BlockModel, b: BlockModel) -> BlockModel {
    if a.baseline < b.baseline {
        spec_block(shift_glyphs(a.glyphs, 0, (b.baseline - a.baseline) as u64) + b.glyphs, b.baseline)
    } else {
        spec_block(shift_glyphs(b.glyphs, 0, (a.baseline - b.baseline) as u64) + a.glyphs, a.baseline)
    }
}

/// The smallest area covering two areas, both anchored at the origin.
pub open spec fn area_join(a: Area, b: Area) -> Area {
    Area {
        width: if a.width >= b.width { a.width } else { b.width },
        height: if a.height >= b.height { a.height } else { b.height },
    }
}

/// The area covering two runs of glyphs is the join of the areas covering each.
proof fn lemma_glyphs_area_concat(a: Seq<PlacedGlyph>, b: Seq<PlacedGlyph>)
    ensures
        glyphs_area(a + b) == area_join(glyphs_area(a), glyphs_area(b)),
    decreases b.len(),
{
    if b.len() == 0 {
        assert(a + b =~= a);
    } else {
        assert((a + b).drop_last() =~= a + b.drop_last());
        lemma_glyphs_area_concat(a, b.drop_last());
    }
}

/// Moving glyphs by nothing leaves them where they are.
proof fn lemma_shift_nothing(g: Seq<PlacedGlyph>)
    ensures
        shift_glyphs(g, 0, 0) == g,
{
    assert(shift_glyphs(g, 0, 0) =~= g);
}

/// Merging two blocks along their baselines gives the same block whichever is merged into the
/// other, up to the order of the glyphs: the greater baseline, the same area, and the same glyphs.
pub proof fn lemma_merge_along_baseline_symmetric(a: BlockModel, b: BlockModel)
    ensures
        spec_merge_along_baseline(a, b).baseline == spec_merge_along_baseline(b, a).baseline,
        spec_merge_along_baseline(a, b).baseline == (if a.baseline >= b.baseline { a.baseline } else { b.baseline }),
        spec_merge_along_baseline(a, b).area == spec_merge_along_baseline(b, a).area,
        spec_merge_along_baseline(a, b).glyphs.to_multiset() == spec_merge_along_baseline(b, a).glyphs.to_multiset(),
{
    if a.baseline == b.baseline {
        lemma_shift_nothing(a.glyphs);
        lemma_shift_nothing(b.glyphs);
        lemma_glyphs_area_concat(a.glyphs, b.glyphs);
        lemma_glyphs_area_concat(b.glyphs, a.glyphs);
        vstd::seq_lib::lemma_multiset_commutative(a.glyphs, b.glyphs);
        vstd::seq_lib::lemma_multiset_commutative(b.glyphs, a.glyphs);
        assert(a.glyphs.to_multiset().add(b.glyphs.to_multiset()) =~= b.glyphs.to_multiset().add(a.glyphs.to_multiset()));
    }
}

/// Two blocks merged so that their vertical centres line up.
pub open spec fn spec_merge_along_vertical_centre(a: BlockModel, b: BlockModel, baseline: MergeBaseline) -> BlockModel {
    let ac = a.area.width / 2;
    let bc = b.area.width / 2;
    let glyphs = if ac < bc {
        shift_glyphs(a.glyphs, (bc - ac) as u64, 0) + b.glyphs
    } else {
        shift_glyphs(b.glyphs, (ac - bc) as u64, 0) + a.glyphs
    };
    spec_block(glyphs, match baseline {
        MergeBaseline::SelfAsBaseline => a.baseline,
        MergeBaseline::OtherAsBaseline => b.baseline,
    })
}

/// Two blocks merged without moving either.
pub open spec fn spec_merge_in_place(a: BlockModel, b: BlockModel, baseline: MergeBaseline) -> BlockModel {
    spec_block(a.glyphs + b.glyphs, match baseline {
        MergeBaseline::SelfAsBaseline => a.baseline,
        MergeBaseline::OtherAsBaseline => b.baseline,
    })
}

pub open spec fn spec_empty_block() -> BlockModel {
    spec_block(Seq::empty(), 0)
}

/// Blocks laid out one after the other, left to right, along a common baseline.
pub open spec fn spec_layout_horizontal(blocks: Seq<BlockModel>) -> BlockModel
    decreases blocks.len(),
{
    if blocks.len() == 0 {
        spec_empty_block()
    } else {
        let prefix = spec_layout_horizontal(blocks.drop_last());
        spec_merge_along_baseline(prefix, spec_offset(blocks.last(), prefix.area.width, 0))
    }
}

/// The views of a sequence of blocks.
pub open spec fn views(s: Seq<LayoutBlock>) -> Seq<BlockModel> {
    s.map_values(|b: LayoutBlock| b@)
}

/// A set of glyphs at particular locations, with a baseline along which it is aligned with other
/// blocks.
#[derive(Debug)]
pub struct LayoutBlock {
    pub glyphs: Vec<PlacedGlyph>,
    pub baseline: Dimension,
    pub area: Area,
}

impl View for LayoutBlock {
    type V = BlockModel;

    open spec fn view(&self) -> BlockModel {
        BlockModel { glyphs: self.glyphs@, baseline: self.baseline, area: self.area }
    }
}

/// Which of two merged blocks gives the baseline of the result.
#[derive(PartialEq, Eq, Clone, Copy, Debug)]
pub enum MergeBaseline {
    SelfAsBaseline,
    OtherAsBaseline,
}

impl LayoutBlock {
    pub open spec fn wf(&self) -> bool {
        self.area == glyphs_area(self.glyphs@)
    }

    pub fn empty() -> (r: LayoutBlock)
        ensures
            r@ == spec_empty_block(),
    {
        LayoutBlock { glyphs: Vec::new(), baseline: 0, area: Area::new(0, 0) }
    }

    pub fn new(glyphs: Vec<PlacedGlyph>, baseline: Dimension) -> (r: Self)
        ensures
            r@ == spec_block(glyphs@, baseline),
    {
        let area = Self::area(&glyphs);
        LayoutBlock { glyphs, baseline, area }
    }

    /// Creates a new layout block with one glyph at the origin. The baseline is the centre of this
    /// glyph.
    pub fn from_glyph<R: Renderer>(renderer: &mut R, glyph: Glyph, properties: LayoutComputationProperties) -> (r: LayoutBlock)
        ensures
            r.wf(),
            r@ == spec_glyph_block(old(renderer).sizes(), glyph, properties.size_reduction_level),
            final(renderer).sizes() == old(renderer).sizes(),
    {
        let sized = glyph.to_sized(renderer, properties);
        let mut glyphs = Vec::new();
        glyphs.push((sized, CalculatedPoint { x: 0, y: 0 }));
        let r = LayoutBlock { glyphs, baseline: sized.area.height / 2, area: sized.area };
        proof {
            assert(r.glyphs@.drop_last() =~= Seq::<PlacedGlyph>::empty());
            assert(glyphs_area(r.glyphs@.drop_last()) == Area { width: 0, height: 0 });
            assert(wadd(0, sized.area.width) == sized.area.width);
            assert(wadd(0, sized.area.height) == sized.area.height);
            assert(r.glyphs@ =~= spec_glyph_block(old(renderer).sizes(), glyph, properties.size_reduction_level).glyphs);
        }
        r
    }

    /// The area covered by the given glyphs.
    pub fn area(glyphs: &Vec<PlacedGlyph>) -> (r: Area)
        ensures
            r == glyphs_area(glyphs@),
    {
        let mut width: u64 = 0;
        let mut height: u64 = 0;
        let mut i: usize = 0;
        while i < glyphs.len()
            invariant
                i <= glyphs.len(),
                (Area { width, height }) == glyphs_area(glyphs@.take(i as int)),
            decreases glyphs.len() - i,
        {
            let (glyph, point) = glyphs[i];
            let ex = point.x.wrapping_add(glyph.area.width);
            let ey = point.y.wrapping_add(glyph.area.height);
            if ex > width {
                width = ex;
            }
            if ey > height {
                height = ey;
            }
            proof {
                assert(glyphs@.take(i + 1).drop_last() =~= glyphs@.take(i as int));
            }
            i = i + 1;
        }
        proof {
            assert(glyphs@.take(i as int) =~= glyphs@);
        }
        Area { width, height }
    }

    /// The glyphs of the given vector, moved right by `dx` and down by `dy`.
    fn shifted(glyphs: &Vec<PlacedGlyph>, dx: u64, dy: u64) -> (r: Vec<PlacedGlyph>)
        ensures
            r@ == shift_glyphs(glyphs@, dx, dy),
    {
        let mut r: Vec<PlacedGlyph> = Vec::new();
        let mut i: usize = 0;
        while i < glyphs.len()
            invariant
                i <= glyphs.len(),
                r@ =~= shift_glyphs(glyphs@, dx, dy).take(i as int),
            decreases glyphs.len() - i,
        {
            let (g, p) = glyphs[i];
            r.push((g, CalculatedPoint { x: p.x.wrapping_add(dx), y: p.y.wrapping_add(dy) }));
            i = i + 1;
        }
        r
    }

    /// The glyphs of `a` followed by those of `b`.
    fn concat(a: Vec<PlacedGlyph>, b: &Vec<PlacedGlyph>) -> (r: Vec<PlacedGlyph>)
        ensures
            r@ == a@ + b@,
    {
        let mut r = a;
        let mut i: usize = 0;
        while i < b.len()
            invariant
                i <= b.len(),
                r@ =~= a@ + b@.take(i as int),
            decreases b.len() - i,
        {
            r.push(b[i]);
            i = i + 1;
        }
        proof {
            assert(b@.take(i as int) =~= b@);
        }
        r
    }

    /// A copy of this block moved right by `dx` and down by `dy`.
    pub fn offset(&self, dx: Dimension, dy: Dimension) -> (r: LayoutBlock)
        ensures
            r@ == spec_offset(self@, dx, dy),
    {
        LayoutBlock::new(Self::shifted(&self.glyphs, dx, dy), self.baseline.wrapping_add(dy))
    }

    /// Merges the glyphs of two layout blocks so that their baselines line up.
    pub fn merge_along_baseline(&self, other: &LayoutBlock) -> (r: LayoutBlock)
        ensures
            r@ == spec_merge_along_baseline(self@, other@),
    {
        // The points can't go negative, so the glyphs of the lesser-baselined block move down
        let (lesser_baselined, greater_baselined) = if self.baseline < other.baseline {
            (self, other)
        } else {
            (other, self)
        };
        let baseline_difference = greater_baselined.baseline - lesser_baselined.baseline;
        let glyphs = Self::concat(
            Self::shifted(&lesser_baselined.glyphs, 0, baseline_difference),
            &greater_baselined.glyphs,
        );
        LayoutBlock::new(glyphs, greater_baselined.baseline)
    }

    /// Merges the glyphs of two layout blocks along their vertical centre.
    pub fn merge_along_vertical_centre(&self, other: &LayoutBlock, baseline: MergeBaseline) -> (r: LayoutBlock)
        ensures
            r@ == spec_merge_along_vertical_centre(self@, other@, baseline),
    {
        // The glyphs of the thinner block move right
        let self_centre = self.area.width / 2;
        let other_centre = other.area.width / 2;
        let glyphs = if self_centre < other_centre {
            Self::concat(Self::shifted(&self.glyphs, other_centre - self_centre, 0), &other.glyphs)
        } else {
            Self::concat(Self::shifted(&other.glyphs, self_centre - other_centre, 0), &self.glyphs)
        };
        LayoutBlock::new(
            glyphs,
            match baseline {
                MergeBaseline::SelfAsBaseline => self.baseline,
                MergeBaseline::OtherAsBaseline => other.baseline,
            },
        )
    }

    /// Merges the glyphs of two layout blocks exactly, without moving them.
    pub fn merge_in_place(&self, other: &LayoutBlock, baseline: MergeBaseline) -> (r: LayoutBlock)
        ensures
            r@ == spec_merge_in_place(self@, other@, baseline),
    {
        let glyphs = Self::concat(Self::shifted(&self.glyphs, 0, 0), &other.glyphs);
        proof {
            assert(shift_glyphs(self@.glyphs, 0, 0) =~= self@.glyphs);
        }
        LayoutBlock::new(
            glyphs,
            match baseline {
                MergeBaseline::SelfAsBaseline => self.baseline,
                MergeBaseline::OtherAsBaseline => other.baseline,
            },
        )
    }

    /// Assuming that two layout blocks start at the same point, returns a copy of this block
    /// moved directly to the right of another layout block.
    pub fn move_right_of_other(&self, other: &LayoutBlock) -> (r: LayoutBlock)
        ensures
            r@ == spec_offset(self@, other@.area.width, 0),
    {
        self.offset(other.area.width, 0)
    }

    /// Assuming that two layout blocks start at the same point, returns a copy of this block
    /// moved directly below another layout block.
    pub fn move_below_other(&self, other: &LayoutBlock) -> (r: LayoutBlock)
        ensures
            r@ == spec_offset(self@, 0, other@.area.height),
    {
        self.offset(0, other.area.height)
    }

    /// Calculates layout for a sequence of other layouts, one after the other horizontally.
    pub fn layout_horizontal(layouts: &[LayoutBlock]) -> (r: LayoutBlock)
        ensures
            r@ == spec_layout_horizontal(views(layouts@)),
    {
        let ghost blocks = views(layouts@);
        let mut block = LayoutBlock::empty();
        let mut i: usize = 0;
        while i < layouts.len()
            invariant
                i <= layouts.len(),
                blocks == views(layouts@),
                block@ == spec_layout_horizontal(blocks.take(i as int)),
            decreases layouts.len() - i,
        {
            block = block.merge_along_baseline(&layouts[i].move_right_of_other(&block));
            proof {
                assert(blocks.take(i + 1).drop_last() =~= blocks.take(i as int));
            }
            i = i + 1;
        }
        proof {
            assert(blocks.take(i as int) =~= blocks);
        }
        block
    }

    /// The glyphs of this block, positioned relative to a viewport and with their visibility
    /// within it.
    pub fn for_viewport(&self, viewport: Option<&Viewport>) -> (r: Vec<ViewportGlyph>)
        ensures
            r@ == spec_viewport_glyphs(self.glyphs@, viewport),
            r@.len() == self.glyphs@.len(),
            forall|i: int|
                0 <= i < r@.len() ==> {
                    &&& r@[i].glyph == (#[trigger] self.glyphs@[i]).0
                    &&& r@[i].point == spec_to_viewport_point(self.glyphs@[i].1, viewport)
                    &&& viewport_glyph_visibility(self.glyphs@[i], viewport, r@[i].visibility)
                },
    {
        let mut r: Vec<ViewportGlyph> = Vec::new();
        let mut i: usize = 0;
        while i < self.glyphs.len()
            invariant
                i <= self.glyphs.len(),
                r@.len() == i,
                forall|j: int|
                    0 <= j < i ==> {
                        &&& r@[j].glyph == (#[trigger] self.glyphs@[j]).0
                        &&& r@[j].point == spec_to_viewport_point(self.glyphs@[j].1, viewport)
                        &&& viewport_glyph_visibility(self.glyphs@[j], viewport, r@[j].visibility)
                    },
            decreases self.glyphs.len() - i,
        {
            let (g, p) = self.glyphs[i];
            let viewport_point = p.to_viewport_point(viewport);
            let visibility = match viewport {
                Some(v) => v.visibility(&viewport_point, &g.area),
                None => ViewportVisibility::Visible,
            };
            r.push(ViewportGlyph { glyph: g, point: viewport_point, visibility });
            i = i + 1;
        }
        assert(r@ =~= spec_viewport_glyphs(self.glyphs@, viewport));
        r
    }
}

/// Glyph sizes as a renderer reports them: by glyph and size reduction level.
pub type SizeFn = spec_fn(Glyph, u32) -> Area;

/// The block of a single glyph at the origin, whose baseline is the centre of the glyph.
pub open spec fn spec_glyph_block(sz: SizeFn, glyph: Glyph, level: u32) -> BlockModel {
    let area = sz(glyph, level);
    BlockModel {
        glyphs: seq![(SizedGlyph { glyph, area, size_reduction_level: level }, CalculatedPoint { x: 0, y: 0 })],
        baseline: area.height / 2,
        area,
    }
}

/// A block with its baseline replaced.
pub open spec fn with_baseline(b: BlockModel, baseline: Dimension) -> BlockModel {
    BlockModel { baseline, ..b }
}

/// What remains of a navigator's path, if there is a navigator.
pub open spec fn cursor_rest(path: Option<&NavPathNavigator>) -> Option<Seq<usize>> {
    match path {
        Some(p) => Some(p.rest()),
        None => None,
    }
}

/// Implemented by node trees which can be laid out into glyphs.
pub trait Layoutable {
    /// The given cursor path (what remains of it) can be followed while laying this out.
    spec fn layout_ok(&self, cursor: Option<Seq<usize>>) -> bool;

    /// The layout of this tree, with glyphs of the given sizes, showing the cursor where the given
    /// path leads, at the given size reduction level.
    spec fn spec_layout(&self, sz: SizeFn, cursor: Option<Seq<usize>>, level: u32) -> BlockModel;

    /// Computes the layout for a node tree, converting it into a set of glyphs at particular
    /// locations.
    fn layout<R: Renderer>(
        &self,
        renderer: &mut R,
        path: Option<&NavPathNavigator>,
        properties: LayoutComputationProperties,
    ) -> (r: LayoutBlock)
        requires
            path matches Some(p) ==> p.index < p.path@.len(),
            self.layout_ok(cursor_rest(path)),
        ensures
            r@ == self.spec_layout(old(renderer).sizes(), cursor_rest(path), properties.size_reduction_level),
            final(renderer).sizes() == old(renderer).sizes(),
    ;
}

/// The index of the first cursor glyph of a block, if there is one.
pub open spec fn first_cursor(g: Seq<PlacedGlyph>) -> Option<int>
    decreases g.len(),
{
    if g.len() == 0 {
        None
    } else if g[0].0.glyph is Cursor {
        Some(0)
    } else {
        match first_cursor(g.skip(1)) {
            Some(i) => Some(i + 1),
            None => None,
        }
    }
}

/// Some glyph of the sequence is a cursor.
pub open spec fn shows_cursor(g: Seq<PlacedGlyph>) -> bool {
    exists|i: int| 0 <= i < g.len() && (#[trigger] g[i]).0.glyph is Cursor
}

/// Where some glyph is a cursor, there is a first one.
pub proof fn lemma_first_cursor(g: Seq<PlacedGlyph>)
    requires
        shows_cursor(g),
    ensures
        first_cursor(g) is Some,
        0 <= first_cursor(g).unwrap() < g.len(),
        g[first_cursor(g).unwrap()].0.glyph is Cursor,
    decreases g.len(),
{
    if !(g[0].0.glyph is Cursor) {
        let i = choose|i: int| 0 <= i < g.len() && (#[trigger] g[i]).0.glyph is Cursor;
        assert(g.skip(1)[i - 1] == g[i]);
        lemma_first_cursor(g.skip(1));
        assert(g.skip(1)[first_cursor(g.skip(1)).unwrap()] == g[first_cursor(g.skip(1)).unwrap() + 1]);
    }
}

/// Moving glyphs keeps a cursor among them, and so does putting other glyphs beside them.
pub proof fn lemma_shows_cursor_shift_concat(a: Seq<PlacedGlyph>, b: Seq<PlacedGlyph>, dx: u64, dy: u64)
    ensures
        shows_cursor(a) ==> shows_cursor(shift_glyphs(a, dx, dy)),
        shows_cursor(a) ==> shows_cursor(a + b),
        shows_cursor(b) ==> shows_cursor(a + b),
{
    if shows_cursor(a) {
        let i = choose|i: int| 0 <= i < a.len() && (#[trigger] a[i]).0.glyph is Cursor;
        assert(shift_glyphs(a, dx, dy)[i].0 == a[i].0);
        assert((a + b)[i] == a[i]);
    }
    if shows_cursor(b) {
        let i = choose|i: int| 0 <= i < b.len() && (#[trigger] b[i]).0.glyph is Cursor;
        assert((a + b)[a.len() + i] == b[i]);
    }
}

/// Merging two blocks in any way keeps the cursors of each.
pub proof fn lemma_merge_shows_cursor(a: BlockModel, b: BlockModel, baseline: MergeBaseline)
    ensures
        shows_cursor(a.glyphs) || shows_cursor(b.glyphs) ==> {
            &&& shows_cursor(spec_merge_along_baseline(a, b).glyphs)
            &&& shows_cursor(spec_merge_along_vertical_centre(a, b, baseline).glyphs)
            &&& shows_cursor(spec_merge_in_place(a, b, baseline).glyphs)
        },
{
    let ac = a.area.width / 2;
    let bc = b.area.width / 2;
    if a.baseline < b.baseline {
        lemma_shows_cursor_shift_concat(a.glyphs, b.glyphs, 0, (b.baseline - a.baseline) as u64);
        lemma_shows_cursor_shift_concat(shift_glyphs(a.glyphs, 0, (b.baseline - a.baseline) as u64), b.glyphs, 0, 0);
    } else {
        lemma_shows_cursor_shift_concat(b.glyphs, a.glyphs, 0, (a.baseline - b.baseline) as u64);
        lemma_shows_cursor_shift_concat(shift_glyphs(b.glyphs, 0, (a.baseline - b.baseline) as u64), a.glyphs, 0, 0);
    }
    if ac < bc {
        lemma_shows_cursor_shift_concat(a.glyphs, b.glyphs, (bc - ac) as u64, 0);
        lemma_shows_cursor_shift_concat(shift_glyphs(a.glyphs, (bc - ac) as u64, 0), b.glyphs, 0, 0);
    } else {
        lemma_shows_cursor_shift_concat(b.glyphs, a.glyphs, (ac - bc) as u64, 0);
        lemma_shows_cursor_shift_concat(shift_glyphs(b.glyphs, (ac - bc) as u64, 0), a.glyphs, 0, 0);
    }
    lemma_shows_cursor_shift_concat(a.glyphs, b.glyphs, 0, 0);
}

/// Offsetting a block keeps its cursors.
pub proof fn lemma_offset_shows_cursor(b: BlockModel, dx: u64, dy: u64)
    ensures
        shows_cursor(b.glyphs) ==> shows_cursor(spec_offset(b, dx, dy).glyphs),
{
    lemma_shows_cursor_shift_concat(b.glyphs, Seq::empty(), dx, dy);
}

/// Laying blocks out horizontally keeps the cursors of each.
pub proof fn lemma_layout_horizontal_shows_cursor(blocks: Seq<BlockModel>, k: int)
    requires
        0 <= k < blocks.len(),
        shows_cursor(blocks[k].glyphs),
    ensures
        shows_cursor(spec_layout_horizontal(blocks).glyphs),
    decreases blocks.len(),
{
    let prefix = spec_layout_horizontal(blocks.drop_last());
    let last = spec_offset(blocks.last(), prefix.area.width, 0);
    if k == blocks.len() - 1 {
        lemma_offset_shows_cursor(blocks.last(), prefix.area.width, 0);
    } else {
        assert(blocks.drop_last()[k] == blocks[k]);
        lemma_layout_horizontal_shows_cursor(blocks.drop_last(), k);
    }
    lemma_merge_shows_cursor(prefix, last, MergeBaseline::SelfAsBaseline);
}

/// Implemented by the users of the library to draw glyphs onto a surface.
pub trait Renderer: Sized {
    /// The size at which this renderer draws each glyph, at each size reduction level.
    spec fn sizes(&self) -> SizeFn;

    /// Given a glyph, returns the size that it will be drawn at. This is used to calculate the
    /// layout of the nodes before they are drawn.
    fn size(&mut self, glyph: Glyph, size_reduction_level: u32) -> (r: Area)
        ensures
            r == (old(self).sizes())(glyph, size_reduction_level),
            final(self).sizes() == old(self).sizes(),
    ;

    /// What a drawing surface holds, in the renderer's own terms.
    type Surface;

    /// What this renderer's drawing surface holds.
    spec fn surface(&self) -> Self::Surface;

    /// A freshly prepared surface of the given size.
    spec fn blank_surface(size: Area) -> Self::Surface;

    /// A surface with a glyph drawn onto it.
    spec fn drawn_on(surface: Self::Surface, glyph: ViewportGlyph) -> Self::Surface;

    /// Prepare a draw surface of the given size.
    fn init(&mut self, size: Area)
        ensures
            final(self).sizes() == old(self).sizes(),
            final(self).surface() == Self::blank_surface(size),
    ;

    /// Draw a glyph at a specific point.
    fn draw(&mut self, glyph: ViewportGlyph)
        ensures
            final(self).sizes() == old(self).sizes(),
            final(self).surface() == Self::drawn_on(old(self).surface(), glyph),
    ;
}

/// A surface with glyphs drawn onto it one after the other.
pub open spec fn drawn_all<R: Renderer>(surface: R::Surface, glyphs: Seq<ViewportGlyph>) -> R::Surface
    decreases glyphs.len(),
{
    if glyphs.len() == 0 {
        surface
    } else {
        R::drawn_on(drawn_all::<R>(surface, glyphs.drop_last()), glyphs.last())
    }
}

/// The visibility of a placed glyph in a viewport, if any.
pub open spec fn spec_glyph_visibility(pg: PlacedGlyph, viewport: Option<&Viewport>) -> ViewportVisibility {
    match viewport {
        Some(v) => spec_viewport_visibility(v.size, spec_to_viewport_point(pg.1, viewport), pg.0.area),
        None => ViewportVisibility::Visible,
    }
}

/// Placed glyphs positioned relative to a viewport, if any, each with its visibility there.
pub open spec fn spec_viewport_glyphs(glyphs: Seq<PlacedGlyph>, viewport: Option<&Viewport>) -> Seq<ViewportGlyph> {
    Seq::new(
        glyphs.len(),
        |i: int|
            ViewportGlyph {
                glyph: glyphs[i].0,
                point: spec_to_viewport_point(glyphs[i].1, viewport),
                visibility: spec_glyph_visibility(glyphs[i], viewport),
            },
    )
}

/// The surface size that drawing a layout prepares: the viewport's, or else the layout's.
pub open spec fn drawing_area(layout: BlockModel, viewport: Option<&Viewport>) -> Area {
    match viewport {
        Some(v) => v.size,
        None => layout.area,
    }
}

/// The drawing of whole node trees, which every [Renderer] has.
pub trait RendererExt: Renderer {

    /// Computes the layout for a node tree, converting it into a set of glyphs at particular
    /// locations.
    fn layout<L: Layoutable>(&mut self, root: &L, path: Option<&NavPathNavigator>) -> (r: LayoutBlock)
        requires
            path matches Some(p) ==> p.index < p.path@.len(),
            root.layout_ok(cursor_rest(path)),
        ensures
            r@ == root.spec_layout(old(self).sizes(), cursor_rest(path), 0),
            final(self).sizes() == old(self).sizes(),
    {
        root.layout(self, path, LayoutComputationProperties::default())
    }

    /// Initialises the graphics surface and draws a node tree onto it.
    fn draw_all<L: Layoutable>(&mut self, root: &L, path: Option<&NavPathNavigator>, viewport: Option<&Viewport>) -> (r: LayoutBlock)
        requires
            path matches Some(p) ==> p.index < p.path@.len(),
            root.layout_ok(cursor_rest(path)),
        ensures
            r@ == root.spec_layout(old(self).sizes(), cursor_rest(path), 0),
            final(self).sizes() == old(self).sizes(),
            final(self).surface() == drawn_all::<Self>(
                Self::blank_surface(drawing_area(r@, viewport)),
                spec_viewport_glyphs(r@.glyphs, viewport),
            ),
    {
        let layout = self.layout(root, path);
        self.draw_all_by_layout(&layout, viewport);
        layout
    }

    /// Initialises the graphics surface and draws a node tree onto it, assuming that a layout has
    /// already been calculated.
    fn draw_all_by_layout(&mut self, layout: &LayoutBlock, viewport: Option<&Viewport>)
        ensures
            final(self).sizes() == old(self).sizes(),
            final(self).surface() == drawn_all::<Self>(
                Self::blank_surface(drawing_area(layout@, viewport)),
                spec_viewport_glyphs(layout@.glyphs, viewport),
            ),
    {
        let area = match viewport {
            Some(v) => v.size,
            None => layout.area,
        };
        let viewport_glyphs = layout.for_viewport(viewport);
        self.init(area);
        let ghost blank = Self::blank_surface(area);
        let mut i: usize = 0;
        assert(viewport_glyphs@.take(0) =~= Seq::<ViewportGlyph>::empty());
        while i < viewport_glyphs.len()
            invariant
                i <= viewport_glyphs.len(),
                self.sizes() == old(self).sizes(),
                self.surface() == drawn_all::<Self>(blank, viewport_glyphs@.take(i as int)),
            decreases viewport_glyphs.len() - i,
        {
            self.draw(viewport_glyphs[i]);
            assert(viewport_glyphs@.take(i + 1).drop_last() =~= viewport_glyphs@.take(i as int));
            i = i + 1;
        }
        assert(viewport_glyphs@.take(i as int) =~= viewport_glyphs@);
    }

    /// Returns the visibility of the cursor when rendering a set of nodes in a viewport.
    #[verifier::loop_isolation(false)]
    fn cursor_visibility<L: Layoutable>(&mut self, root: &L, path: &NavPathNavigator, viewport: Option<&Viewport>) -> (r: ViewportVisibility)
        requires
            path.index < path.path@.len(),
            root.layout_ok(Some(path.rest())),
            first_cursor(root.spec_layout(old(self).sizes(), Some(path.rest()), 0).glyphs) is Some,
        ensures
            final(self).sizes() == old(self).sizes(),
            ({
                let g = root.spec_layout(old(self).sizes(), Some(path.rest()), 0).glyphs;
                let i = first_cursor(g).unwrap();
                viewport_glyph_visibility(g[i], viewport, r)
            }),
    {
        let layout = self.layout(root, Some(path));
        let viewport_glyphs = layout.for_viewport(viewport);
        let ghost g = layout@.glyphs;
        assert(g.skip(0) =~= g);
        let mut i: usize = 0;
        while i < viewport_glyphs.len()
            invariant
                i <= viewport_glyphs.len(),
                viewport_glyphs@.len() == g.len(),
                first_cursor(g) is Some,
                first_cursor(g.skip(i as int)) is Some,
                first_cursor(g.skip(i as int)).unwrap() + i == first_cursor(g).unwrap(),
            decreases viewport_glyphs.len() - i,
        {
            if let Glyph::Cursor { .. } = viewport_glyphs[i].glyph.glyph {
                proof {
                    assert(g.skip(i as int)[0] == g[i as int]);
                }
                return viewport_glyphs[i].visibility;
            }
            proof {
                assert(g.skip(i as int)[0] == g[i as int]);
                assert(g.skip(i as int).skip(1) =~= g.skip(i + 1));
            }
            i = i + 1;
        }
        proof {
            assert(g.skip(i as int).len() == 0);
        }
        vstd::pervasive::unreached()
    }
}

impl<R: Renderer> RendererExt for R {}

/// `r` is the visibility in the viewport (if any) of a glyph placed at a point.
pub open spec fn viewport_glyph_visibility(pg: PlacedGlyph, viewport: Option<&Viewport>, r: ViewportVisibility) -> bool {
    let (g, p) = pg;
    let vp = spec_to_viewport_point(p, viewport);
    &&& viewport is None ==> r == ViewportVisibility::Visible
    &&& viewport matches Some(v) ==> r == spec_viewport_visibility(v.size, vp, g.area)
}

} // verus!
