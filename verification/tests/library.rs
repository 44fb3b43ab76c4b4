use std::str::FromStr;

use rust_decimal::Decimal;

use rbop::error::{MathsError, NodeError};
use rbop::evaluate::Evaluable;
use rbop::node::compiled::CompiledNode;
use rbop::node::function::Function;
use rbop::node::parser::Parser;
use rbop::node::structured::{EvaluationSettings, StructuredNode};
use rbop::node::unstructured::Upgradable;
use rbop::number::{find_repeat, fractional_digits, Dec, DecimalAccuracy, Number};
use rbop::serialize::Serializable;
use rbop::{Token, UnstructuredNode, UnstructuredNodeList, UnstructuredNodeRoot};

fn rat(n: i64) -> Number {
    Number::Rational(n, 1)
}

fn decimal(s: &str) -> Dec {
    let d = Decimal::from_str(s).unwrap();
    Dec { mantissa: d.mantissa(), scale: d.scale() }
}

fn dec(s: &str) -> Number {
    Number::Decimal(decimal(s), DecimalAccuracy::Exact)
}

fn tok(t: Token) -> UnstructuredNode {
    UnstructuredNode::Token(t)
}

fn list(items: Vec<UnstructuredNode>) -> UnstructuredNodeList {
    UnstructuredNodeList { items }
}

/// A list of tokens, one for each character other than a space.
fn tokens(s: &str) -> UnstructuredNodeList {
    list(
        s.chars()
            .filter(|c| *c != ' ')
            .map(|c| match c {
                '+' => tok(Token::Add),
                '-' => tok(Token::Subtract),
                '*' => tok(Token::Multiply),
                '/' => tok(Token::Divide),
                '.' => tok(Token::Point),
                '0'..='9' => tok(Token::Digit(c as u8 - b'0')),
                _ => tok(Token::Variable(c)),
            })
            .collect(),
    )
}

fn bx(n: StructuredNode) -> Box<StructuredNode> {
    Box::new(n)
}

#[test]
fn test_parse_errors() {
    assert_eq!(tokens("3+").upgrade(), Err(NodeError::ExpectedUnit));
    assert_eq!(tokens("").upgrade(), Err(NodeError::ExpectedUnit));
    assert_eq!(tokens("2/").upgrade(), Err(NodeError::ExpectedUnit));
    assert_eq!(tokens("1.2.").upgrade(), Err(NodeError::UnexpectedTokensAtEnd));
    assert_eq!(list(vec![UnstructuredNode::Power(tokens("2"))]).upgrade(), Err(NodeError::PowerMissingBase));
    assert_eq!(tok(Token::Add).upgrade(), Err(NodeError::CannotUpgradeToken));
    assert_eq!(UnstructuredNode::Power(tokens("2")).upgrade(), Err(NodeError::PowerMissingBase));
    // A whole part which does not fit in a word is kept as a decimal
    assert_eq!(
        tokens("99999999999999999999").upgrade(),
        Ok(StructuredNode::Number(Number::Decimal(decimal("99999999999999999999"), DecimalAccuracy::Exact)))
    );
}

#[test]
fn test_parser_from_position() {
    let nodes = tokens("1+2*3").items;
    let mut parser = Parser { nodes: &nodes, index: 2 };
    assert_eq!(
        parser.parse(),
        Ok(StructuredNode::Multiply(bx(StructuredNode::Number(rat(2))), bx(StructuredNode::Number(rat(3)))))
    );
    assert_eq!(parser.index, 5);
}

#[test]
fn test_precedence_and_negation() {
    // Products bind tighter than sums, and both associate to the left
    assert_eq!(tokens("2+3*4").upgrade().unwrap().evaluate(&EvaluationSettings::default()), Ok(rat(14)));
    assert_eq!(tokens("8-3-2").upgrade().unwrap().evaluate(&EvaluationSettings::default()), Ok(rat(3)));
    assert_eq!(
        tokens("8/4/2").upgrade().unwrap().evaluate(&EvaluationSettings::default()),
        Ok(Number::Rational(1, 1))
    );
    // A minus before something other than a number multiplies it by minus one
    assert_eq!(
        tokens("-x").upgrade().unwrap(),
        StructuredNode::Multiply(bx(StructuredNode::Number(rat(-1))), bx(StructuredNode::Variable('x')))
    );
    // A variable has no value
    assert_eq!(
        tokens("x+1").upgrade().unwrap().evaluate(&EvaluationSettings::default()),
        Err(MathsError::MissingVariable)
    );
}

#[test]
fn test_function_call_upgrade_and_evaluate() {
    let call = UnstructuredNode::FunctionCall(Function::GreatestCommonDenominator, vec![tokens("12"), tokens("18")]);
    let tree = list(vec![call]).upgrade().unwrap();
    assert_eq!(
        tree,
        StructuredNode::FunctionCall(
            Function::GreatestCommonDenominator,
            vec![StructuredNode::Number(rat(12)), StructuredNode::Number(rat(18))]
        )
    );
    assert_eq!(tree.evaluate(&EvaluationSettings::default()), Ok(rat(6)));
    // Arguments which are not whole give one
    assert_eq!(
        Function::GreatestCommonDenominator.evaluate(&[dec("1.5"), rat(3)], &EvaluationSettings::default()),
        Ok(Number::Decimal(decimal("1"), DecimalAccuracy::Exact))
    );
    // A rational over zero cannot be divided out
    assert_eq!(
        Function::GreatestCommonDenominator.evaluate(&[Number::Rational(1, 0), rat(3)], &EvaluationSettings::default()),
        Err(MathsError::Overflow)
    );
}

#[test]
fn test_compiled_node() {
    // x * 2 + 1, compiled for x
    let tree = StructuredNode::Add(
        bx(StructuredNode::Multiply(bx(StructuredNode::Variable('x')), bx(StructuredNode::Number(rat(2))))),
        bx(StructuredNode::Parentheses(bx(StructuredNode::Number(rat(1))))),
    );
    let settings = EvaluationSettings::default();
    let compiled = CompiledNode::from_structured(tree.clone(), Some('x'), &settings);
    assert_eq!(compiled.evaluate_raw(rat(5)), Ok(rat(11)));
    assert_eq!(compiled.evaluate_raw(rat(-1)), Ok(rat(-1)));
    // The same as substituting into the structured tree
    assert_eq!(
        tree.substitute_variable('x', &StructuredNode::Number(rat(5))).evaluate(&settings),
        compiled.evaluate_raw(rat(5))
    );
    // Without a value for its parameter, it cannot be evaluated
    let compiled = CompiledNode::from_structured(tree.clone(), Some('x'), &settings);
    assert_eq!(Evaluable::evaluate(compiled, &()), Err(MathsError::MissingVariable));
    // With one substituted, it can
    let compiled = CompiledNode::from_structured(tree.clone(), Some('x'), &settings);
    assert_eq!(Evaluable::evaluate(compiled.substitute('x', rat(3)), &()), Ok(rat(7)));
    // Compiled for another variable, x is missing
    let compiled = CompiledNode::from_structured(tree, Some('y'), &settings);
    assert_eq!(compiled.evaluate_raw(rat(5)), Err(MathsError::MissingVariable));
}

#[test]
fn test_structured_evaluable() {
    let tree = StructuredNode::Add(bx(StructuredNode::Variable('x')), bx(StructuredNode::Number(rat(1))));
    let substituted = Evaluable::substitute(tree, 'x', rat(41));
    assert_eq!(Evaluable::evaluate(substituted, &EvaluationSettings::default()), Ok(rat(42)));
}

#[test]
fn test_from_number() {
    assert_eq!(UnstructuredNodeRoot::from_number(rat(-120)).root, tokens("-120"));
    assert_eq!(UnstructuredNodeRoot::from_number(rat(0)).root, tokens("0"));
    assert_eq!(UnstructuredNodeRoot::from_number(dec("12.05")).root, tokens("12.05"));
    assert_eq!(UnstructuredNodeRoot::from_number(dec("-0.5")).root, tokens("-0.5"));
    assert_eq!(
        UnstructuredNodeRoot::from_number(Number::Rational(3, 4)).root,
        list(vec![UnstructuredNode::Fraction(tokens("3"), tokens("4"))])
    );
    assert_eq!(
        UnstructuredNodeRoot::from_number(Number::Rational(i64::MIN, 7)).root,
        list(vec![UnstructuredNode::Fraction(tokens("-9223372036854775808"), tokens("7"))])
    );
}

#[test]
fn test_number_serialize() {
    for n in [rat(12), Number::Rational(-3, 7), Number::Rational(i64::MIN, i64::MAX), dec("-123.456"), Number::Decimal(decimal("0.1"), DecimalAccuracy::Approximation)] {
        let bytes = n.serialize();
        let mut pos = 0;
        let back = Number::deserialize(&bytes, &mut pos).unwrap();
        assert_eq!(back, n);
        assert_eq!(pos, bytes.len());
    }
    // The layout of the bytes
    assert_eq!(rat(1).serialize(), vec![2, 1, 0, 0, 0, 0, 0, 0, 0, 1, 0, 0, 0, 0, 0, 0, 0]);
    assert_eq!(
        dec("-1.5").serialize(),
        vec![1, 0, 0, 1, 0x80, 15, 0, 0, 0, 0, 0, 0, 0, 0, 0, 0, 0, 1]
    );
    // An unknown tag, or too few bytes, is refused
    assert_eq!(Number::deserialize(&[3], &mut 0), None);
    assert_eq!(Number::deserialize(&[2, 1, 2], &mut 0), None);
}

#[test]
fn test_decimal_extensions() {
    assert_eq!(decimal("2").pows(3).map(|d| Decimal::from_i128_with_scale(d.mantissa, d.scale)), Some(Decimal::from(8)));
    assert_eq!(
        decimal("2").pows(-2).map(|d| Decimal::from_i128_with_scale(d.mantissa, d.scale)),
        Some(Decimal::from_str("0.25").unwrap())
    );
    assert!(decimal("0").pows(-1).is_none());
    assert!(decimal("3.000").is_whole());
    assert!(!decimal("3.5").is_whole());
    assert_eq!(decimal("-1.5").to_parts(), (0x8001_0000, 15, 0, 0));
}

#[test]
fn test_error_messages() {
    assert_eq!(NodeError::PowerMissingBase.message(), "no base given for power");
    assert_eq!(MathsError::DivisionByZero.message(), "division by zero");
}

#[test]
fn test_square_root() {
    let settings = EvaluationSettings::default();
    assert_eq!(StructuredNode::Sqrt(bx(StructuredNode::Number(rat(16)))).evaluate(&settings), Ok(dec("4")));
    assert_eq!(
        StructuredNode::Sqrt(bx(StructuredNode::Number(rat(-4)))).evaluate(&settings),
        Err(MathsError::InvalidSqrt)
    );
}

#[test]
fn test_disambiguate_keeps_value() {
    let settings = EvaluationSettings::default();
    // 10 - (4 - 1), written without its parentheses
    let tree = StructuredNode::Subtract(
        bx(StructuredNode::Number(rat(10))),
        bx(StructuredNode::Subtract(bx(StructuredNode::Number(rat(4))), bx(StructuredNode::Number(rat(1))))),
    );
    let disambiguated = tree.disambiguate().unwrap();
    assert_eq!(
        disambiguated,
        StructuredNode::Subtract(
            bx(StructuredNode::Number(rat(10))),
            bx(StructuredNode::Parentheses(bx(StructuredNode::Subtract(
                bx(StructuredNode::Number(rat(4))),
                bx(StructuredNode::Number(rat(1)))
            )))),
        )
    );
    assert_eq!(StructuredNode::evaluate(&disambiguated, &settings), StructuredNode::evaluate(&tree, &settings));
    assert_eq!(StructuredNode::evaluate(&tree, &settings), Ok(rat(7)));
}

#[test]
fn test_integer_powers() {
    assert_eq!(Number::Rational(5, 1).powi(0), Number::Rational(1, 1));
    assert_eq!(Number::Rational(2, 1).powi(3), Number::Rational(8, 1));
    assert_eq!(Number::Rational(2, 1).powi(-2), Number::Rational(1, 4));
    assert_eq!(Number::Rational(7, 3).powi(1), Number::Rational(7, 3));
}

#[test]
fn test_rational_powers_of_extreme_integers() {
    assert_eq!(Number::Rational(i64::MIN, 1).checked_pow(Number::Rational(2, 1)), Err(MathsError::Overflow));
    assert_eq!(Number::Rational(i64::MIN, 1).checked_pow(Number::Rational(1, 1)), Ok(Number::Rational(i64::MIN, 1)));
    assert_eq!(Number::Rational(-8, 1).checked_pow(Number::Rational(1, 3)), Ok(Number::Rational(-2, 1)));
}

#[test]
fn test_fractional_digits_and_repeats() {
    assert_eq!(fractional_digits(&"1.140000000000000003".to_string()), Some(vec![1, 4, 0, 0, 0, 0, 0, 0, 0, 0, 0, 0, 0, 0, 0, 0, 0, 3]));
    assert_eq!(fractional_digits(&"-12".to_string()), Some(vec![]));
    assert_eq!(fractional_digits(&"1.2e5".to_string()), None);

    // The first run of ten zeros, starting after "14"
    assert_eq!(find_repeat(&vec![1, 4, 0, 0, 0, 0, 0, 0, 0, 0, 0, 0, 0, 0, 0, 0, 0, 3]), Some((2, 0, 10)));
    // A run of nines at the very start
    assert_eq!(find_repeat(&vec![9, 9, 9, 9, 9, 9, 9, 9, 9, 9, 7]), Some((0, 9, 10)));
    // A short run at the end is still reported, and other digits start no run
    assert_eq!(find_repeat(&vec![1, 2, 9, 9]), Some((2, 9, 2)));
    assert_eq!(find_repeat(&vec![1, 2, 3]), None);
}

#[test]
fn test_integer_serialization() {
    assert_eq!(2u8.serialize(), vec![0x02]);
    assert_eq!(254u32.serialize(), vec![0xFE]);
    assert_eq!(255u64.serialize(), vec![0xFF, 0x00]);
    assert_eq!(257i32.serialize(), vec![0xFF, 0x02]);
    assert_eq!(512i64.serialize(), vec![0xFF, 0xFF, 0x02]);

    let mut pos = 0;
    assert_eq!(u16::deserialize(&[0xFF, 0xFF, 0x02], &mut pos), Some(512u16));
    assert_eq!(pos, 3);
    // 0xFF 0x01 is 256, which does not fit a byte
    let mut pos = 0;
    assert_eq!(u8::deserialize(&[0xFF, 0x01], &mut pos), None);
    let mut pos = 0;
    assert_eq!(u8::deserialize(&[0xFF, 0x00], &mut pos), Some(255u8));
    let mut pos = 0;
    assert_eq!(i8::deserialize(&[0x7F], &mut pos), Some(127i8));
    let mut pos = 0;
    assert_eq!(i8::deserialize(&[0x80], &mut pos), None);
}
