use rbop::nav::{NavPath, NavPathNavigator};
use rbop::node::unstructured::Navigable;
use rbop::node::function::Function;
use rbop::render::{Area, CalculatedPoint, Layoutable, RendererExt, Viewport};
use rbop::renderers::AsciiRenderer;
use rbop::serialize::Serializable;
use rbop::node::unstructured::TraceItem;
use rbop::{Token, UnstructuredNode, UnstructuredNodeList, UnstructuredNodeRoot};

fn tok(t: Token) -> UnstructuredNode {
    UnstructuredNode::Token(t)
}

fn digit(d: u8) -> UnstructuredNode {
    UnstructuredNode::Token(Token::Digit(d))
}

fn list(items: Vec<UnstructuredNode>) -> UnstructuredNodeList {
    UnstructuredNodeList { items }
}

fn digits(ds: &[u8]) -> UnstructuredNodeList {
    list(ds.iter().map(|d| digit(*d)).collect())
}

fn frac(top: UnstructuredNodeList, bottom: UnstructuredNodeList) -> UnstructuredNode {
    UnstructuredNode::Fraction(top, bottom)
}

/// ```text
///       56
///    34+--
///       78
/// 12+-----+12
///     90
/// ```
fn complex_unstructured_expression() -> UnstructuredNodeRoot {
    UnstructuredNodeRoot {
        root: list(vec![
            digit(1),
            digit(2),
            tok(Token::Add),
            frac(
                list(vec![digit(3), digit(4), tok(Token::Add), frac(digits(&[5, 6]), digits(&[7, 8]))]),
                digits(&[9, 0]),
            ),
            tok(Token::Add),
            digit(1),
            digit(2),
        ]),
    }
}

fn render<L: Layoutable>(n: &L, p: Option<&NavPathNavigator>, v: Option<&Viewport>) -> Vec<String> {
    let mut renderer = AsciiRenderer::default();
    renderer.draw_all(n, p, v);
    renderer.lines
}

fn navigation_body() {
    let mut unstructured = list(vec![
        digit(1),
        digit(2),
        tok(Token::Multiply),
        digit(3),
        digit(4),
        tok(Token::Add),
        frac(digits(&[5, 6]), digits(&[7, 8])),
    ]);
    let copy = unstructured.clone();

    // Path 1: beginning
    let path = NavPath::new(vec![0]);
    let result = {
        let (node, i) = unstructured.navigate(&mut path.to_navigator());
        (node.clone(), i)
    };
    assert_eq!(result, (copy.clone(), 0));

    // Path 2: middle
    let path = NavPath::new(vec![3]);
    let result = {
        let (node, i) = unstructured.navigate(&mut path.to_navigator());
        (node.clone(), i)
    };
    assert_eq!(result, (copy.clone(), 3));

    // Path 3: nested
    let path = NavPath::new(vec![6, 1, 1]);
    let result = {
        let (node, i) = unstructured.navigate(&mut path.to_navigator());
        (node.clone(), i)
    };
    assert_eq!(result, (digits(&[7, 8]), 1));
}

fn movement_body() {
    let mut node = complex_unstructured_expression();
    let mut nav_path = NavPath::new(vec![0]);
    let mut renderer = AsciiRenderer::default();

    // Go all the way to the right
    node.move_right(&mut nav_path, &mut renderer, None);
    assert_eq!(nav_path, NavPath::new(vec![1]));

    node.move_right(&mut nav_path, &mut renderer, None);
    node.move_right(&mut nav_path, &mut renderer, None);
    assert_eq!(nav_path, NavPath::new(vec![3]));

    node.move_right(&mut nav_path, &mut renderer, None);
    assert_eq!(nav_path, NavPath::new(vec![3, 0, 0]));

    node.move_right(&mut nav_path, &mut renderer, None);
    node.move_right(&mut nav_path, &mut renderer, None);
    node.move_right(&mut nav_path, &mut renderer, None);
    assert_eq!(nav_path, NavPath::new(vec![3, 0, 3]));

    node.move_right(&mut nav_path, &mut renderer, None);
    assert_eq!(nav_path, NavPath::new(vec![3, 0, 3, 0, 0]));

    node.move_right(&mut nav_path, &mut renderer, None);
    node.move_right(&mut nav_path, &mut renderer, None);
    assert_eq!(nav_path, NavPath::new(vec![3, 0, 3, 0, 2]));

    node.move_right(&mut nav_path, &mut renderer, None);
    assert_eq!(nav_path, NavPath::new(vec![3, 0, 4]));

    node.move_right(&mut nav_path, &mut renderer, None);
    assert_eq!(nav_path, NavPath::new(vec![4]));

    node.move_right(&mut nav_path, &mut renderer, None);
    assert_eq!(nav_path, NavPath::new(vec![5]));

    node.move_right(&mut nav_path, &mut renderer, None);
    node.move_right(&mut nav_path, &mut renderer, None);
    assert_eq!(nav_path, NavPath::new(vec![7]));

    node.move_right(&mut nav_path, &mut renderer, None);
    assert_eq!(nav_path, NavPath::new(vec![7]));

    // Now go back to the left
    node.move_left(&mut nav_path, &mut renderer, None);
    assert_eq!(nav_path, NavPath::new(vec![6]));

    node.move_left(&mut nav_path, &mut renderer, None);
    node.move_left(&mut nav_path, &mut renderer, None);
    assert_eq!(nav_path, NavPath::new(vec![4]));

    node.move_left(&mut nav_path, &mut renderer, None);
    assert_eq!(nav_path, NavPath::new(vec![3, 0, 4]));

    node.move_left(&mut nav_path, &mut renderer, None);
    assert_eq!(nav_path, NavPath::new(vec![3, 0, 3, 0, 2]));

    node.move_left(&mut nav_path, &mut renderer, None);
    node.move_left(&mut nav_path, &mut renderer, None);
    assert_eq!(nav_path, NavPath::new(vec![3, 0, 3, 0, 0]));

    node.move_left(&mut nav_path, &mut renderer, None);
    assert_eq!(nav_path, NavPath::new(vec![3, 0, 3]));

    node.move_left(&mut nav_path, &mut renderer, None);
    node.move_left(&mut nav_path, &mut renderer, None);
    node.move_left(&mut nav_path, &mut renderer, None);
    assert_eq!(nav_path, NavPath::new(vec![3, 0, 0]));

    node.move_left(&mut nav_path, &mut renderer, None);
    assert_eq!(nav_path, NavPath::new(vec![3]));

    node.move_left(&mut nav_path, &mut renderer, None);
    node.move_left(&mut nav_path, &mut renderer, None);
    node.move_left(&mut nav_path, &mut renderer, None);
    assert_eq!(nav_path, NavPath::new(vec![0]));

    // Move into a fraction to test vertical movement
    node.move_right(&mut nav_path, &mut renderer, None);
    node.move_right(&mut nav_path, &mut renderer, None);
    node.move_right(&mut nav_path, &mut renderer, None);
    node.move_right(&mut nav_path, &mut renderer, None);
    assert_eq!(nav_path, NavPath::new(vec![3, 0, 0]));

    node.move_right(&mut nav_path, &mut renderer, None);
    node.move_right(&mut nav_path, &mut renderer, None);
    node.move_right(&mut nav_path, &mut renderer, None);
    node.move_right(&mut nav_path, &mut renderer, None);
    assert_eq!(nav_path, NavPath::new(vec![3, 0, 3, 0, 0]));

    // Now in a fraction, test vertical movement
    node.move_up(&mut nav_path, &mut renderer, None);
    assert_eq!(nav_path, NavPath::new(vec![3, 0, 3, 0, 0]));

    node.move_down(&mut nav_path, &mut renderer, None);
    assert_eq!(nav_path, NavPath::new(vec![3, 0, 3, 1, 0]));

    node.move_up(&mut nav_path, &mut renderer, None);
    assert_eq!(nav_path, NavPath::new(vec![3, 0, 3, 0, 0]));

    node.move_down(&mut nav_path, &mut renderer, None);
    node.move_down(&mut nav_path, &mut renderer, None);
    assert_eq!(nav_path, NavPath::new(vec![3, 1, 2]));

    node.move_up(&mut nav_path, &mut renderer, None);
    assert_eq!(nav_path, NavPath::new(vec![3, 0, 3]));
}

fn modification_body() {
    let mut node = complex_unstructured_expression();
    let mut nav_path = NavPath::new(vec![0]);
    let mut renderer = AsciiRenderer::default();

    node.insert(&mut nav_path, &mut renderer, None, UnstructuredNode::Token(Token::Digit(1)));
    assert_eq!(nav_path, NavPath::new(vec![1]));

    node.move_right(&mut nav_path, &mut renderer, None);
    node.move_right(&mut nav_path, &mut renderer, None);
    node.move_right(&mut nav_path, &mut renderer, None);
    node.move_right(&mut nav_path, &mut renderer, None);
    assert_eq!(nav_path, NavPath::new(vec![4, 0, 0]));

    node.move_right(&mut nav_path, &mut renderer, None);
    node.move_right(&mut nav_path, &mut renderer, None);
    assert_eq!(nav_path, NavPath::new(vec![4, 0, 2]));

    node.insert(&mut nav_path, &mut renderer, None, UnstructuredNode::Token(Token::Add));
    node.insert(
        &mut nav_path,
        &mut renderer,
        None,
        UnstructuredNode::Fraction(UnstructuredNodeList::new(), UnstructuredNodeList::new()),
    );
    node.insert(&mut nav_path, &mut renderer, None, UnstructuredNode::Token(Token::Digit(9)));
    assert_eq!(nav_path, NavPath::new(vec![4, 0, 3, 0, 1]));

    assert_eq!(
        render(&node, Some(&nav_path.to_navigator()), None),
        vec![
            "       9| 56   ",
            "    34+--+--   ",
            "        X 78   ",
            "112+--------+12",
            "       90      "
        ],
    );

    // Now try deleting some bits
    node.delete(&mut nav_path, &mut renderer, None);
    node.delete(&mut nav_path, &mut renderer, None);
    node.delete(&mut nav_path, &mut renderer, None);

    assert_eq!(
        render(&node, Some(&nav_path.to_navigator()), None),
        vec![
            "        56   ",
            "    34|+--   ",
            "        78   ",
            "112+------+12",
            "      90     "
        ],
    );
}

#[test]
fn test_test_navigation() {
    navigation_body();
}

#[test]
fn tests_test_navigation() {
    navigation_body();
}

#[test]
fn navigation_test_navigation() {
    navigation_body();
}

#[test]
fn test_test_movement() {
    movement_body();
}

#[test]
fn tests_test_movement() {
    movement_body();
}

#[test]
fn navigation_test_movement() {
    movement_body();
}

#[test]
fn tests_test_modification() {
    modification_body();
}

#[test]
fn navigation_test_modification() {
    modification_body();
}

fn reserialize(e: &UnstructuredNodeRoot) -> UnstructuredNodeRoot {
    let bytes = e.serialize();
    let mut pos = 0;
    UnstructuredNodeRoot::deserialize(&bytes, &mut pos).unwrap()
}

fn serialize_body() {
    // Core stuff
    assert_eq!(reserialize(&complex_unstructured_expression()), complex_unstructured_expression());

    // Variables
    let e = UnstructuredNodeRoot {
        root: list(vec![
            tok(Token::Variable('x')),
            tok(Token::Add),
            digit(2),
            tok(Token::Add),
            tok(Token::Variable('y')),
        ]),
    };
    assert_eq!(reserialize(&e), e);
}

#[test]
fn tests_test_serialize() {
    serialize_body();
}

#[test]
fn manipulation_test_serialize() {
    serialize_body();
}

#[test]
fn test_navigate_trace() {
    let mut tree = list(vec![digit(1), frac(digits(&[2, 3]), digits(&[4]))]);
    let original = list(vec![digit(1), frac(digits(&[2, 3]), digits(&[4]))]);
    let path = NavPath::new(vec![1, 1, 0]);
    let (reached, index, trace) = tree.navigate_trace(&mut path.to_navigator());
    assert_eq!(*reached, digits(&[4]));
    assert_eq!(index, 0);
    assert_eq!(trace.len(), 3);
    assert!(matches!(&trace[0], TraceItem::List(l) if *l == original));
    assert!(matches!(&trace[1], TraceItem::Node(n) if *n == frac(digits(&[2, 3]), digits(&[4]))));
    assert!(matches!(&trace[2], TraceItem::List(l) if *l == digits(&[4])));

    // The reached list can be changed through the returned reference
    let path = NavPath::new(vec![1, 0, 2]);
    let (reached, index, trace) = tree.navigate_trace(&mut path.to_navigator());
    assert_eq!(index, 2);
    assert_eq!(trace.len(), 3);
    reached.items.push(digit(5));
    assert_eq!(tree, list(vec![digit(1), frac(digits(&[2, 3, 5]), digits(&[4]))]));

    // A path which ends in the outermost list passes through that list alone
    let path = NavPath::new(vec![2]);
    let (_, index, trace) = tree.navigate_trace(&mut path.to_navigator());
    assert_eq!(index, 2);
    assert_eq!(trace.len(), 1);
}

#[test]
fn test_hopping_between_arguments_leaves_viewport() {
    let mut root = UnstructuredNodeRoot {
        root: list(vec![UnstructuredNode::FunctionCall(Function::GreatestCommonDenominator, vec![digits(&[1]), digits(&[2])])]),
    };
    let mut renderer = AsciiRenderer::new();
    let mut viewport = Viewport::new(Area::new(2, 1));
    viewport.offset = CalculatedPoint { x: 7, y: 3 };

    // From the end of the first argument into the start of the second
    let mut path = NavPath::new(vec![0, 0, 1]);
    root.move_right(&mut path, &mut renderer, Some(&mut viewport));
    assert_eq!(path, NavPath::new(vec![0, 1, 0]));
    assert_eq!(viewport.offset, CalculatedPoint { x: 7, y: 3 });

    // And back again
    root.move_left(&mut path, &mut renderer, Some(&mut viewport));
    assert_eq!(path, NavPath::new(vec![0, 0, 1]));
    assert_eq!(viewport.offset, CalculatedPoint { x: 7, y: 3 });
}

#[test]
fn test_offset_wraps() {
    let mut path = NavPath::new(vec![3, 0]);
    path.offset(-1);
    assert_eq!(path, NavPath::new(vec![3, usize::MAX]));
    path.offset(2);
    assert_eq!(path, NavPath::new(vec![3, 1]));
}

#[test]
fn test_clear_resets_cursor_and_viewport() {
    let mut root = complex_unstructured_expression();
    let mut renderer = AsciiRenderer::new();
    let mut path = NavPath::new(vec![4, 0, 1]);
    let mut viewport = Viewport::new(Area::new(4, 2));
    viewport.offset = CalculatedPoint { x: 2, y: 1 };
    root.clear(&mut path, &mut renderer, Some(&mut viewport));
    assert!(root.root.items.is_empty());
    assert_eq!(path, NavPath::new(vec![0]));
    assert_eq!(viewport.offset, CalculatedPoint { x: 0, y: 0 });
    assert_eq!(viewport.size, Area::new(4, 2));
    assert!(renderer.lines.is_empty());
}

#[test]
fn test_delete_at_start_of_slot_removes_node() {
    let mut renderer = AsciiRenderer::new();

    // At the start of a non-empty slot, the node around it goes and the cursor steps out
    let mut root = UnstructuredNodeRoot { root: list(vec![digit(1), frac(digits(&[2, 3]), digits(&[4]))]) };
    let mut path = NavPath::new(vec![1, 0, 0]);
    root.delete(&mut path, &mut renderer, None);
    assert_eq!(root.root, digits(&[1]));
    assert_eq!(path, NavPath::new(vec![1]));

    // Behind the cursor, the item behind it goes
    let mut root = UnstructuredNodeRoot { root: list(vec![digit(1), frac(digits(&[2, 3]), digits(&[4]))]) };
    let mut path = NavPath::new(vec![1, 0, 1]);
    root.delete(&mut path, &mut renderer, None);
    assert_eq!(root.root, list(vec![digit(1), frac(digits(&[3]), digits(&[4]))]));
    assert_eq!(path, NavPath::new(vec![1, 0, 0]));

    // At the start of the root list, nothing goes
    let mut path = NavPath::new(vec![0]);
    root.delete(&mut path, &mut renderer, None);
    assert_eq!(root.root, list(vec![digit(1), frac(digits(&[3]), digits(&[4]))]));
    assert_eq!(path, NavPath::new(vec![0]));
}

#[test]
fn test_can_move_left() {
    let root = UnstructuredNodeRoot {
        root: list(vec![digit(1), UnstructuredNode::FunctionCall(Function::Sine, vec![]), digit(2)]),
    };
    assert!(root.can_move_left(&NavPath::new(vec![0])));
    assert!(root.can_move_left(&NavPath::new(vec![1])));
    assert!(!root.can_move_left(&NavPath::new(vec![2])));
    assert!(root.can_move_left(&NavPath::new(vec![3])));

    // A call without arguments elsewhere does not stop moving left over a token
    let mut root = root;
    let mut renderer = AsciiRenderer::new();
    let mut path = NavPath::new(vec![3]);
    root.move_left(&mut path, &mut renderer, None);
    assert_eq!(path, NavPath::new(vec![2]));
}
