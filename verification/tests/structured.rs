use std::str::FromStr;

use rust_decimal::Decimal;

use rbop::error::NodeError;
use rbop::nav::{NavPath, NavPathNavigator};
use rbop::node::function::Function;
use rbop::node::structured::{AngleUnit, EvaluationSettings, StructuredNode};
use rbop::node::unstructured::Upgradable;
use rbop::number::{Dec, DecimalAccuracy, Number};
use rbop::render::{Glyph, LayoutComputationProperties, Layoutable, RendererExt, Viewport};
use rbop::renderers::AsciiRenderer;
use rbop::{Token, UnstructuredNode, UnstructuredNodeList, UnstructuredNodeRoot};

fn rat(n: i64) -> Number {
    Number::Rational(n, 1)
}

fn ratio(n: i64, d: i64) -> Number {
    Number::Rational(n, d)
}

fn decimal(s: &str) -> Dec {
    let d = Decimal::from_str(s).unwrap();
    Dec { mantissa: d.mantissa(), scale: d.scale() }
}

fn dec(s: &str) -> Number {
    Number::Decimal(decimal(s), DecimalAccuracy::Exact)
}

fn dec_approx(s: &str) -> Number {
    Number::Decimal(decimal(s), DecimalAccuracy::Approximation)
}

fn from_decimal(d: Decimal, accuracy: DecimalAccuracy) -> Number {
    Number::Decimal(Dec { mantissa: d.mantissa(), scale: d.scale() }, accuracy)
}

fn num(n: Number) -> StructuredNode {
    StructuredNode::Number(n)
}

fn whole(n: i64) -> StructuredNode {
    StructuredNode::Number(n.into())
}

fn bx(n: StructuredNode) -> Box<StructuredNode> {
    Box::new(n)
}

fn tok(t: Token) -> UnstructuredNode {
    UnstructuredNode::Token(t)
}

fn list(items: Vec<UnstructuredNode>) -> UnstructuredNodeList {
    UnstructuredNodeList { items }
}

/// A list of tokens, one for each character other than a space: digits, operators, decimal
/// points, and letters as variables.
fn tokens(s: &str) -> UnstructuredNodeList {
    list(
        s.chars()
            .filter(|c| *c != ' ')
            .map(|c| match c {
                '+' => tok(Token::Add),
                '-' => tok(Token::Subtract),
                '*' => tok(Token::Multiply),
                '/' => tok(Token::Divide),
                '.' => tok(Token::Point),
                '0'..='9' => tok(Token::Digit(c as u8 - b'0')),
                _ => tok(Token::Variable(c)),
            })
            .collect(),
    )
}

fn root(items: Vec<UnstructuredNode>) -> UnstructuredNodeRoot {
    UnstructuredNodeRoot { root: list(items) }
}

/// ```text
///       56
///    34+--
///       78
/// 12+-----+12
///     90
/// ```
fn complex_unstructured_expression() -> UnstructuredNodeRoot {
    root(vec![
        tok(Token::Digit(1)),
        tok(Token::Digit(2)),
        tok(Token::Add),
        UnstructuredNode::Fraction(
            list(vec![
                tok(Token::Digit(3)),
                tok(Token::Digit(4)),
                tok(Token::Add),
                UnstructuredNode::Fraction(tokens("56"), tokens("78")),
            ]),
            tokens("90"),
        ),
        tok(Token::Add),
        tok(Token::Digit(1)),
        tok(Token::Digit(2)),
    ])
}

fn render<L: Layoutable>(n: &L, p: Option<&NavPathNavigator>, v: Option<&Viewport>) -> Vec<String> {
    let mut renderer = AsciiRenderer::default();
    renderer.draw_all(n, p, v);
    renderer.lines
}

fn settings() -> EvaluationSettings {
    EvaluationSettings::default()
}

fn upgrade_body() {
    let unstructured = tokens("12*34+56*78");
    assert_eq!(
        unstructured.upgrade().unwrap(),
        StructuredNode::Add(
            bx(StructuredNode::Multiply(bx(whole(12)), bx(whole(34)))),
            bx(StructuredNode::Multiply(bx(whole(56)), bx(whole(78)))),
        )
    );
}

#[test]
fn test_test_upgrade() {
    upgrade_body();
}

#[test]
fn tests_test_upgrade() {
    upgrade_body();
}

#[test]
fn upgrade_test_upgrade() {
    upgrade_body();
}

fn upgrade_negative_numbers_body() {
    // Simple case
    assert_eq!(tokens("-12").upgrade().unwrap(), StructuredNode::Number((-12).into()));

    // Multiple unary minuses
    assert_eq!(tokens("----12").upgrade().unwrap(), StructuredNode::Number((12).into()));

    // Rendering
    let mut renderer = AsciiRenderer::default();
    renderer.draw_all(&tokens("-12").upgrade().unwrap(), None, None);
    assert_eq!(renderer.lines, ["-12"]);

    // No ambiguity between minus and subtract
    assert_eq!(tokens("1--2").upgrade().unwrap().evaluate(&settings()).unwrap(), rat(3));
}

#[test]
fn tests_test_upgrade_negative_numbers() {
    upgrade_negative_numbers_body();
}

#[test]
fn upgrade_test_upgrade_negative_numbers() {
    upgrade_negative_numbers_body();
}

fn implicit_multiply_body() {
    // 2x = 2 * x
    assert_eq!(
        tokens("2x").upgrade().unwrap(),
        StructuredNode::Multiply(bx(num(rat(2))), bx(StructuredNode::Variable('x')))
    );

    // 0.5x = 0.5 * x
    assert_eq!(
        tokens("0.5x").upgrade().unwrap(),
        StructuredNode::Multiply(bx(num(dec("0.5"))), bx(StructuredNode::Variable('x')))
    );

    // 2(1+x) = 2 * (1 + x)
    assert_eq!(
        list(vec![tok(Token::Digit(2)), UnstructuredNode::Parentheses(tokens("1+x"))]).upgrade().unwrap(),
        StructuredNode::Multiply(
            bx(num(rat(2))),
            bx(StructuredNode::Parentheses(bx(StructuredNode::Add(
                bx(num(rat(1))),
                bx(StructuredNode::Variable('x')),
            )))),
        )
    );

    // xyz + 2 = ((x * y) * z) + 2
    assert_eq!(
        tokens("xyz+2").upgrade().unwrap(),
        StructuredNode::Add(
            bx(StructuredNode::Multiply(
                bx(StructuredNode::Variable('x')),
                bx(StructuredNode::Multiply(bx(StructuredNode::Variable('y')), bx(StructuredNode::Variable('z')))),
            )),
            bx(num(rat(2))),
        )
    );
}

#[test]
fn tests_test_implicit_multiply() {
    implicit_multiply_body();
}

#[test]
fn upgrade_test_implicit_multiply() {
    implicit_multiply_body();
}

fn decimals_body(full: bool) {
    // Upgrading
    assert_eq!(tokens("1.2").upgrade().unwrap(), num(dec("1.2")));
    assert_eq!(tokens("123.45").upgrade().unwrap(), num(dec("123.45")));
    if full {
        assert_eq!(tokens("12.000013").upgrade().unwrap(), num(dec("12.000013")));
    }

    // Rendering as unstructured
    assert_eq!(render(&tokens("1.2"), None, None), vec!["1.2"]);

    // Rendering as structured
    assert_eq!(render(&tokens("1.2").upgrade().unwrap(), None, None), vec!["1.2"]);

    // Evaluation
    assert_eq!(tokens("0.3-0.1").upgrade().unwrap().evaluate(&settings()).unwrap(), dec("0.2"));

    if full {
        // Very large shouldn't panic
        assert!(matches!(
            tokens("1234512345123451234512345123451234512345").upgrade(),
            Err(NodeError::Overflow),
        ));
    }

    // Check we accept the "3." form, and that it becomes a decimal rather than a rational
    assert_eq!(tokens("3.+2.").upgrade().unwrap().evaluate(&settings()).unwrap(), dec("5"));

    // Check we error on multiple decimal points
    assert!(matches!(tokens("12.34.56").upgrade(), Err(_)))
}

#[test]
fn test_test_decimals() {
    decimals_body(false);
}

#[test]
fn tests_test_decimals() {
    decimals_body(true);
}

#[test]
fn number_test_decimals() {
    decimals_body(true);
}

fn disambiguate_body() {
    let tree = StructuredNode::Multiply(bx(whole(1)), bx(StructuredNode::Multiply(bx(whole(2)), bx(whole(3)))));
    assert_eq!(
        tree.disambiguate().unwrap(),
        StructuredNode::Multiply(
            bx(whole(1)),
            bx(StructuredNode::Parentheses(bx(StructuredNode::Multiply(bx(whole(2)), bx(whole(3)))))),
        )
    );

    let tree = StructuredNode::Multiply(
        bx(StructuredNode::Add(bx(whole(1)), bx(whole(2)))),
        bx(StructuredNode::Add(bx(whole(3)), bx(whole(4)))),
    );
    assert_eq!(
        tree.disambiguate().unwrap(),
        StructuredNode::Multiply(
            bx(StructuredNode::Parentheses(bx(StructuredNode::Add(bx(whole(1)), bx(whole(2)))))),
            bx(StructuredNode::Parentheses(bx(StructuredNode::Add(bx(whole(3)), bx(whole(4)))))),
        )
    );
}

#[test]
fn test_test_disambiguate() {
    disambiguate_body();
}

#[test]
fn tests_test_disambiguate() {
    disambiguate_body();
}

#[test]
fn manipulation_test_disambiguate() {
    disambiguate_body();
}

fn ascii_render_body(with_rational: bool) {
    let tree = StructuredNode::Add(
        bx(StructuredNode::Multiply(bx(whole(12)), bx(whole(34)))),
        bx(StructuredNode::Multiply(bx(whole(56)), bx(whole(78)))),
    )
    .disambiguate()
    .unwrap();
    assert_eq!(render(&tree, None, None), vec!["12*34+56*78"]);

    let tree = StructuredNode::Add(
        bx(StructuredNode::Add(
            bx(whole(12)),
            bx(StructuredNode::Divide(
                bx(StructuredNode::Add(bx(whole(34)), bx(StructuredNode::Divide(bx(whole(56)), bx(whole(78)))))),
                bx(whole(90)),
            )),
        )),
        bx(whole(12)),
    )
    .disambiguate()
    .unwrap();
    assert_eq!(
        render(&tree, None, None),
        vec!["      56   ", "   34+--   ", "      78   ", "12+-----+12", "    90     "],
    );

    let tree = complex_unstructured_expression();
    assert_eq!(
        render(&tree, None, None),
        vec!["      56   ", "   34+--   ", "      78   ", "12+-----+12", "    90     "],
    );

    // Basic cursor
    let tree = complex_unstructured_expression();
    assert_eq!(
        render(&tree, Some(&NavPath::new(vec![3, 0, 3, 1, 1]).to_navigator()), None),
        vec!["      56    ", "   34+---   ", "      7|8   ", "12+------+12", "     90     "],
    );

    // Cursor matches adjacent size
    let tree = complex_unstructured_expression();
    assert_eq!(
        render(&tree, Some(&NavPath::new(vec![3, 0, 3]).to_navigator()), None),
        vec!["      |56   ", "   34+|--   ", "      |78   ", "12+------+12", "     90     "],
    );

    if with_rational {
        // Rationals which aren't whole should be rendered as fractions
        let tree = StructuredNode::Add(bx(num(ratio(2, 3))), bx(num(rat(1))));
        assert_eq!(render(&tree, None, None), vec!["2  ", "-+1", "3  "]);
    }
}

#[test]
fn test_test_ascii_render() {
    ascii_render_body(false);
}

#[test]
fn tests_test_ascii_render() {
    ascii_render_body(true);
}

#[test]
fn render_test_ascii_render() {
    ascii_render_body(true);
}

fn variables_body() {
    let nodes = list(vec![
        tok(Token::Variable('x')),
        tok(Token::Add),
        UnstructuredNode::Fraction(tokens("1+x"), tokens("y")),
    ]);

    assert_eq!(
        nodes
            .upgrade()
            .unwrap()
            .substitute_variable('x', &num(dec("9")))
            .substitute_variable('y', &num(dec("2")))
            .evaluate(&settings())
            .unwrap(),
        dec("14")
    )
}

#[test]
fn tests_test_variables() {
    variables_body();
}

#[test]
fn manipulation_test_variables() {
    variables_body();
}

fn power_body() {
    let tree = StructuredNode::Power(bx(num(dec("12"))), bx(num(dec("3")))).disambiguate().unwrap();
    assert_eq!(render(&tree, None, None), vec!["  3", "12 "]);

    let tree = StructuredNode::Add(
        bx(StructuredNode::Add(
            bx(StructuredNode::Add(
                bx(StructuredNode::Power(bx(num(dec("12"))), bx(num(dec("3"))))),
                bx(StructuredNode::Power(
                    bx(num(dec("45"))),
                    bx(StructuredNode::Divide(bx(num(dec("67"))), bx(num(dec("8"))))),
                )),
            )),
            bx(num(dec("9"))),
        )),
        bx(whole(1)),
    )
    .disambiguate()
    .unwrap();
    assert_eq!(
        render(&tree, None, None),
        vec!["      67    ", "      --    ", "  3    8    ", "12 +45  +9+1"],
    );

    assert_eq!(
        list(vec![tok(Token::Digit(2)), UnstructuredNode::Power(tokens("3"))])
            .upgrade()
            .unwrap()
            .evaluate(&settings())
            .unwrap(),
        rat(8),
    );

    let tree = root(vec![tok(Token::Digit(1)), tok(Token::Digit(2)), UnstructuredNode::Power(tokens("34"))]);
    assert_eq!(render(&tree, None, None), vec!["  34", "12  "]);

    let tree = root(vec![
        UnstructuredNode::Fraction(tokens("12"), tokens("34")),
        tok(Token::Add),
        tok(Token::Digit(5)),
        UnstructuredNode::Power(tokens("67")),
    ]);
    assert_eq!(render(&tree, None, None), vec!["12  67", "--+5  ", "34    "]);

    let tree = root(vec![
        UnstructuredNode::Parentheses(list(vec![
            UnstructuredNode::Fraction(tokens("12"), tokens("34")),
            tok(Token::Add),
            tok(Token::Digit(5)),
        ])),
        UnstructuredNode::Power(tokens("67")),
    ]);
    assert_eq!(render(&tree, None, None), vec!["      67", "/12  \\  ", "|--+5|  ", "\\34  /  "]);

    let tree = root(vec![
        tok(Token::Digit(1)),
        tok(Token::Add),
        tok(Token::Digit(2)),
        UnstructuredNode::Power(tokens("2")),
        UnstructuredNode::Power(tokens("3")),
        UnstructuredNode::Power(tokens("4")),
        tok(Token::Add),
        tok(Token::Digit(1)),
    ]);
    assert_eq!(render(&tree, None, None), vec!["     4  ", "    3   ", "   2    ", "1+2   +1"]);
    assert_eq!(tree.upgrade().unwrap().evaluate(&settings()).unwrap(), rat(16777218));

    let tree = root(vec![
        tok(Token::Digit(4)),
        UnstructuredNode::Power(list(vec![UnstructuredNode::Fraction(tokens("1"), tokens("2"))])),
    ]);
    assert_eq!(render(&tree, None, None), vec![" 1", " -", " 2", "4 "]);
    assert_eq!(tree.upgrade().unwrap().evaluate(&settings()).unwrap(), rat(2));

    let tree = root(vec![
        tok(Token::Digit(8)),
        UnstructuredNode::Power(list(vec![tok(Token::Subtract), UnstructuredNode::Fraction(tokens("2"), tokens("3"))])),
    ]);
    assert_eq!(render(&tree, None, None), vec!["  2", " --", "  3", "8  "]);
    assert_eq!(tree.upgrade().unwrap().evaluate(&settings()).unwrap(), ratio(1, 4));

    let tree = root(vec![
        tok(Token::Digit(7)),
        UnstructuredNode::Power(list(vec![UnstructuredNode::Fraction(tokens("1"), tokens("2"))])),
    ]);
    assert_eq!(render(&tree, None, None), vec![" 1", " -", " 2", "7 "]);
    assert!(matches!(tree.upgrade().unwrap().evaluate(&settings()).unwrap(), Number::Decimal(_, _),));
}

#[test]
fn tests_test_power() {
    power_body();
}

#[test]
fn render_test_power() {
    power_body();
}

fn size_reduction_level_body() {
    let block = root(vec![
        tok(Token::Digit(1)),
        tok(Token::Add),
        tok(Token::Digit(2)),
        UnstructuredNode::Power(tokens("3")),
    ])
    .upgrade()
    .unwrap()
    .layout(&mut AsciiRenderer::default(), None, LayoutComputationProperties::default());

    // The "3" token should have a size reduction level of 1, all others should have 0
    for (glyph, _) in block.glyphs {
        if let Glyph::Digit { number: 3 } = glyph.glyph {
            assert_eq!(glyph.size_reduction_level, 1);
        } else {
            assert_eq!(glyph.size_reduction_level, 0);
        }
    }
}

#[test]
fn tests_test_size_reduction_level() {
    size_reduction_level_body();
}

#[test]
fn render_test_size_reduction_level() {
    size_reduction_level_body();
}

fn divide_by_zero_body() {
    // Rational
    let result = StructuredNode::Divide(bx(num(rat(12))), bx(num(rat(0))))
        .disambiguate()
        .unwrap()
        .evaluate(&settings());
    assert!(matches!(result, Err(_)));

    // Decimal
    let result = StructuredNode::Add(
        bx(StructuredNode::Divide(bx(num(dec("12"))), bx(num(dec("0"))))),
        bx(num(dec("0.1"))),
    )
    .disambiguate()
    .unwrap()
    .evaluate(&settings());
    assert!(matches!(result, Err(_)));
}

#[test]
fn tests_test_divide_by_zero() {
    divide_by_zero_body();
}

#[test]
fn evaluation_test_divide_by_zero() {
    divide_by_zero_body();
}

fn function_evaluation_body() {
    let degrees = EvaluationSettings { angle_unit: AngleUnit::Degree, use_floats: false };
    let radians = EvaluationSettings { angle_unit: AngleUnit::Radian, use_floats: false };
    assert_eq!(Function::Sine.evaluate(&[dec("90")], &degrees), Ok(dec_approx("1")));
    assert_eq!(
        Function::Sine.evaluate(&[from_decimal(Decimal::PI / Decimal::TWO, DecimalAccuracy::Exact)], &radians),
        Ok(dec_approx("1")),
    );

    assert_eq!(Function::Cosine.evaluate(&[dec("180")], &degrees), Ok(dec_approx("-1")));
    assert_eq!(
        Function::Cosine.evaluate(&[from_decimal(Decimal::PI, DecimalAccuracy::Exact)], &radians),
        Ok(dec_approx("-1")),
    );
}

#[test]
fn tests_test_function_evaluation() {
    function_evaluation_body();
}

#[test]
fn evaluation_test_function_evaluation() {
    function_evaluation_body();
}

fn correct_float_body() {
    // Down
    assert_eq!(dec_approx("2.0000000000000000").correct_inaccuracy(), dec_approx("2"));
    assert_eq!(dec_approx("2.0000000000000001").correct_inaccuracy(), dec_approx("2"));
    assert_eq!(dec_approx("5.1402000000000000").correct_inaccuracy(), dec_approx("5.1402"));
    assert_eq!(dec_approx("5.1402000000000001").correct_inaccuracy(), dec_approx("5.1402"));

    // Up
    assert_eq!(dec_approx("1.9999999999999999").correct_inaccuracy(), dec_approx("2"));
    assert_eq!(dec_approx("1.9999999999999997").correct_inaccuracy(), dec_approx("2"));
    assert_eq!(dec_approx("5.1401999999999999").correct_inaccuracy(), dec_approx("5.1402"));
    assert_eq!(dec_approx("5.1401999999999997").correct_inaccuracy(), dec_approx("5.1402"));

    // Zero and negatives
    assert_eq!(dec_approx("0.0000000000000001").correct_inaccuracy(), dec_approx("0"));
    assert_eq!(dec_approx("-4.999999999999997").correct_inaccuracy(), dec_approx("-5"));
    assert_eq!(dec_approx("-5.000000000000001").correct_inaccuracy(), dec_approx("-5"));
    assert_eq!(dec_approx("-4.130000000000001").correct_inaccuracy(), dec_approx("-4.13"));
    assert_eq!(dec_approx("-4.129999999999999").correct_inaccuracy(), dec_approx("-4.13"));

    // Classic real-world case
    let es = settings();
    let sine = Function::Sine.evaluate(&[dec("1")], &es).unwrap().powi(2);
    let cosine = Function::Cosine.evaluate(&[dec("1")], &es).unwrap().powi(2);
    assert_eq!(sine.checked_add(cosine).unwrap().correct_inaccuracy(), dec_approx("1"));
}

#[test]
fn tests_test_correct_float() {
    correct_float_body();
}

#[test]
fn number_test_correct_float() {
    correct_float_body();
}
