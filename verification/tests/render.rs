use rbop::nav::NavPathNavigator;
use rbop::render::{Area, CalculatedPoint, Glyph, LayoutBlock, LayoutComputationProperties, Layoutable, RendererExt, Viewport, ViewportPoint, ViewportVisibility};
use rbop::renderers::AsciiRenderer;
use rbop::{Token, UnstructuredNode, UnstructuredNodeList, UnstructuredNodeRoot};

fn tok(t: Token) -> UnstructuredNode {
    UnstructuredNode::Token(t)
}

fn digit(d: u8) -> UnstructuredNode {
    UnstructuredNode::Token(Token::Digit(d))
}

fn list(items: Vec<UnstructuredNode>) -> UnstructuredNodeList {
    UnstructuredNodeList { items }
}

fn digits(ds: &[u8]) -> UnstructuredNodeList {
    list(ds.iter().map(|d| digit(*d)).collect())
}

fn frac(top: UnstructuredNodeList, bottom: UnstructuredNodeList) -> UnstructuredNode {
    UnstructuredNode::Fraction(top, bottom)
}

/// ```text
///       56
///    34+--
///       78
/// 12+-----+12
///     90
/// ```
fn complex_unstructured_expression() -> UnstructuredNodeRoot {
    UnstructuredNodeRoot {
        root: list(vec![
            digit(1),
            digit(2),
            tok(Token::Add),
            frac(
                list(vec![digit(3), digit(4), tok(Token::Add), frac(digits(&[5, 6]), digits(&[7, 8]))]),
                digits(&[9, 0]),
            ),
            tok(Token::Add),
            digit(1),
            digit(2),
        ]),
    }
}

fn render<L: Layoutable>(n: &L, p: Option<&NavPathNavigator>, v: Option<&Viewport>) -> Vec<String> {
    let mut renderer = AsciiRenderer::default();
    renderer.draw_all(n, p, v);
    renderer.lines
}

fn viewport_body() {
    // No viewport should show everything
    assert_eq!(render(&digits(&[1, 2, 3, 4, 5]), None, None), vec!["12345"]);

    // Very large viewport should show everything
    assert_eq!(
        render(&digits(&[1, 2, 3, 4, 5]), None, Some(&Viewport::new(Area::new(10, 3)))),
        vec!["12345     ", "          ", "          "],
    );

    // Perfectly sized viewport should show everything
    assert_eq!(
        render(&digits(&[1, 2, 3, 4, 5]), None, Some(&Viewport::new(Area::new(5, 1)))),
        vec!["12345"],
    );

    // Viewport at origin should prune what's to the right
    assert_eq!(
        render(&digits(&[1, 2, 3, 4, 5]), None, Some(&Viewport::new(Area::new(2, 1)))),
        vec!["12"],
    );

    // Viewport in middle should prune what's to the left and right
    assert_eq!(
        render(
            &digits(&[1, 2, 3, 4, 5]),
            None,
            Some(&Viewport { size: Area::new(2, 1), offset: CalculatedPoint { x: 1, y: 0 } }),
        ),
        vec!["23"],
    );

    // Viewport should clip glyphs which don't completely fit
    let add = || tok(Token::Add);
    assert_eq!(
        render(
            &list(vec![frac(
                list(vec![digit(1), add(), digit(2), add(), digit(3), add(), digit(4)]),
                list(vec![digit(5), add(), digit(6), add(), digit(7), add(), digit(8)]),
            )]),
            None,
            Some(&Viewport { size: Area::new(3, 3), offset: CalculatedPoint { x: 2, y: 0 } }),
        ),
        vec!["2+3", "---", "6+7"],
    );
}

fn parentheses_body() {
    let nodes = list(vec![
        digit(1),
        tok(Token::Add),
        UnstructuredNode::Parentheses(list(vec![frac(
            list(vec![frac(list(vec![digit(2)]), list(vec![digit(3)]))]),
            list(vec![UnstructuredNode::Parentheses(list(vec![digit(4)]))]),
        )])),
    ]);

    assert_eq!(
        render(&nodes, None, None),
        vec!["  / 2 \\", "  | - |", "  | 3 |", "1+|---|", "  \\(4)/"]
    )
}

#[test]
fn test_test_viewport() {
    viewport_body();
}

#[test]
fn tests_test_viewport() {
    viewport_body();
}

#[test]
fn render_test_viewport() {
    viewport_body();
}

#[test]
fn tests_test_parentheses() {
    parentheses_body();
}

#[test]
fn render_test_parentheses() {
    parentheses_body();
}

#[test]
fn test_power_with_no_base() {
    // Laying out a power with nothing before it must not fail
    let block = UnstructuredNodeRoot { root: list(vec![UnstructuredNode::Power(list(vec![]))]) };
    block.layout(&mut AsciiRenderer::default(), None, LayoutComputationProperties::default());
}

#[test]
fn test_visibility_of_huge_coordinates() {
    let viewport = Viewport::new(Area::new(10, 10));
    // The right edge wraps round to a negative coordinate, so nothing is clipped.
    assert_eq!(
        viewport.visibility(&ViewportPoint { x: i64::MAX - 1, y: 0 }, &Area::new(5, 1)),
        ViewportVisibility::Visible
    );
    let far_left: i64 = -(1i64 << 62);
    assert_eq!(
        viewport.visibility(&ViewportPoint { x: far_left, y: 0 }, &Area::new(1, 1)),
        ViewportVisibility::Clipped { invisible: true, top_clip: 0, bottom_clip: 0, left_clip: 1u64 << 62, right_clip: 0 }
    );
    // Small coordinates are clipped by the plain arithmetic.
    assert_eq!(
        viewport.visibility(&ViewportPoint { x: 8, y: -1 }, &Area::new(4, 2)),
        ViewportVisibility::Clipped { invisible: false, top_clip: 1, bottom_clip: 0, left_clip: 0, right_clip: 2 }
    );
}

#[test]
fn test_draw_all_by_layout_draws_onto_blank_surface() {
    let root = UnstructuredNodeRoot { root: list(vec![digit(1), tok(Token::Add), digit(2)]) };
    let mut renderer = AsciiRenderer::new();
    let layout = renderer.layout(&root, None);
    // Something drawn before is cleared by preparing the surface again.
    renderer.draw_all_by_layout(&layout, Some(&Viewport::new(Area::new(4, 2))));
    renderer.draw_all_by_layout(&layout, None);
    assert_eq!(renderer.lines, vec!["1+2".to_string()]);
    renderer.draw_all_by_layout(&layout, Some(&Viewport::new(Area::new(5, 2))));
    assert_eq!(renderer.lines, vec!["1+2  ".to_string(), "     ".to_string()]);
}

#[test]
fn test_merge_along_baseline_either_way_round() {
    let mut r = AsciiRenderer::new();
    let props = LayoutComputationProperties::default();
    let one = LayoutBlock::from_glyph(&mut r, Glyph::Digit { number: 1 }, props);
    let two = LayoutBlock::from_glyph(&mut r, Glyph::Digit { number: 2 }, props).offset(1, 0);
    let low = LayoutBlock::from_glyph(&mut r, Glyph::Fraction { inner_width: 3 }, props).offset(0, 2);
    for (a, b) in [(&one, &two), (&one, &low), (&two, &low)] {
        let x = a.merge_along_baseline(b);
        let y = b.merge_along_baseline(a);
        assert_eq!(x.baseline, y.baseline);
        assert_eq!(x.baseline, a.baseline.max(b.baseline));
        assert_eq!(x.area, y.area);
        assert_eq!(x.glyphs.len(), y.glyphs.len());
        for g in &x.glyphs {
            assert_eq!(x.glyphs.iter().filter(|h| *h == g).count(), y.glyphs.iter().filter(|h| *h == g).count());
        }
    }
}

#[test]
fn test_glyph_wholly_outside_is_invisible() {
    let v = Viewport { size: Area::new(2, 1), offset: CalculatedPoint { x: 1, y: 0 } };
    assert_eq!(
        v.visibility(&ViewportPoint { x: -1, y: 0 }, &Area::new(1, 1)),
        ViewportVisibility::Clipped { invisible: true, top_clip: 0, bottom_clip: 0, left_clip: 1, right_clip: 0 }
    );
    assert_eq!(
        v.visibility(&ViewportPoint { x: 2, y: 0 }, &Area::new(1, 1)),
        ViewportVisibility::Clipped { invisible: true, top_clip: 0, bottom_clip: 0, left_clip: 0, right_clip: 1 }
    );
    assert_eq!(
        v.visibility(&ViewportPoint { x: -1, y: 0 }, &Area::new(2, 1)),
        ViewportVisibility::Clipped { invisible: false, top_clip: 0, bottom_clip: 0, left_clip: 1, right_clip: 0 }
    );
    assert!(v.includes_point(&ViewportPoint { x: 1, y: 0 }));
    assert!(!v.includes_point(&ViewportPoint { x: 2, y: 0 }));
}
