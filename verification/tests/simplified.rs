use std::cmp::Ordering;

use rbop::node::simplified::{ReductionError, ReductionStatus, Simplifiable, SimplifiedNode};
use rbop::node::unstructured::Upgradable;
use rbop::number::Number;
use rbop::{Token, UnstructuredNode, UnstructuredNodeList};

fn rat(n: i64) -> Number {
    Number::Rational(n, 1)
}

fn tok(t: Token) -> UnstructuredNode {
    UnstructuredNode::Token(t)
}

fn list(items: Vec<UnstructuredNode>) -> UnstructuredNodeList {
    UnstructuredNodeList { items }
}

/// A list of tokens, one for each character other than a space.
fn tokens(s: &str) -> UnstructuredNodeList {
    list(
        s.chars()
            .filter(|c| *c != ' ')
            .map(|c| match c {
                '+' => tok(Token::Add),
                '-' => tok(Token::Subtract),
                '*' => tok(Token::Multiply),
                '/' => tok(Token::Divide),
                '.' => tok(Token::Point),
                '0'..='9' => tok(Token::Digit(c as u8 - b'0')),
                _ => tok(Token::Variable(c)),
            })
            .collect(),
    )
}

fn simplify(t: &UnstructuredNodeList) -> SimplifiedNode {
    let mut n = t.upgrade().unwrap().simplify().flatten();
    n.sort();
    n
}

fn number(n: Number) -> SimplifiedNode {
    SimplifiedNode::Number(n)
}

fn simplify_structured_body() {
    assert_eq!(
        simplify(&tokens("12+56+34")),
        SimplifiedNode::Add(vec![number(rat(12)), number(rat(34)), number(rat(56))])
    );

    assert_eq!(
        simplify(&tokens("12+56*2+34")),
        SimplifiedNode::Add(vec![
            number(rat(12)),
            number(rat(34)),
            SimplifiedNode::Multiply(vec![number(rat(2)), number(rat(56))]),
        ])
    );

    // 1 + ( 2 + ( 3 * ( 4 * 5 ) * 6 ) + ( 7 + 8 ) ) * 9
    // simplifies, flattens and sorts to 1 + (2 + 7 + 8 + (3 * 4 * 5 * 6)) * 9
    assert_eq!(
        simplify(&list(vec![
            tok(Token::Digit(1)),
            tok(Token::Add),
            UnstructuredNode::Parentheses(list(vec![
                tok(Token::Digit(2)),
                tok(Token::Add),
                UnstructuredNode::Parentheses(list(vec![
                    tok(Token::Digit(3)),
                    tok(Token::Multiply),
                    UnstructuredNode::Parentheses(tokens("4*5")),
                    tok(Token::Multiply),
                    tok(Token::Digit(6)),
                ])),
                tok(Token::Add),
                UnstructuredNode::Parentheses(tokens("7+8")),
            ])),
            tok(Token::Multiply),
            tok(Token::Digit(9)),
        ])),
        SimplifiedNode::Add(vec![
            number(rat(1)),
            SimplifiedNode::Multiply(vec![
                number(rat(9)),
                SimplifiedNode::Add(vec![
                    number(rat(2)),
                    number(rat(7)),
                    number(rat(8)),
                    SimplifiedNode::Multiply(vec![number(rat(3)), number(rat(4)), number(rat(5)), number(rat(6))]),
                ]),
            ]),
        ])
    );

    assert_eq!(
        simplify(&tokens("1-5")),
        SimplifiedNode::Add(vec![number(rat(1)), SimplifiedNode::Multiply(vec![number(rat(-1)), number(rat(5))])])
    );
}

#[test]
fn tests_test_simplify_structured() {
    simplify_structured_body();
}

#[test]
fn simplified_test_simplify_structured() {
    simplify_structured_body();
}

fn reduce(mut n: SimplifiedNode) -> SimplifiedNode {
    assert!(matches!(n.reduce(), Ok(_)));
    n
}

#[test]
fn test_reduce_numbers() {
    assert_eq!(reduce(simplify(&tokens("12+56+34"))), number(rat(102)));
    assert_eq!(reduce(simplify(&tokens("12+56*2+34"))), number(rat(158)));
    assert_eq!(reduce(simplify(&tokens("8/2"))), number(rat(4)));
    assert_eq!(reduce(simplify(&tokens("3/5+2/3+7/4"))), number(Number::Rational(181, 60)));
    assert_eq!(
        reduce(simplify(&list(vec![UnstructuredNode::Fraction(tokens("2"), tokens("3"))]))),
        number(Number::Rational(2, 3))
    );
}

#[test]
fn test_reduce_keeps_variables() {
    // The number at the start of a product is kept beside what is not a number
    let mut n = simplify(&tokens("3*x"));
    assert_eq!(n.reduce(), Ok(ReductionStatus::PerformedReduction));
    assert_eq!(n, SimplifiedNode::Multiply(vec![number(rat(3)), SimplifiedNode::Variable('x')]));

    // A zero makes the whole product zero
    let mut n = simplify(&tokens("0*x*2"));
    assert_eq!(n.reduce(), Ok(ReductionStatus::PerformedReduction));
    assert_eq!(n, number(rat(0)));

    // A lone variable is not reduced
    let mut n = SimplifiedNode::Variable('x');
    assert_eq!(n.reduce(), Ok(ReductionStatus::NoReduction));
    assert_eq!(n, SimplifiedNode::Variable('x'));
}

#[test]
fn test_reduce_powers() {
    // A number raised to a whole number is computed
    let n = SimplifiedNode::Power(Box::new(number(rat(2))), Box::new(number(rat(10))));
    assert_eq!(reduce(n), number(rat(1024)));

    // A power which is not whole cannot be reduced yet
    let mut n = SimplifiedNode::Power(Box::new(number(rat(5))), Box::new(number(Number::Rational(2, 3))));
    assert_eq!(n.reduce(), Err(ReductionError::Unsupported));

    // Nor can a power of a sum
    let mut n = SimplifiedNode::Power(
        Box::new(SimplifiedNode::Add(vec![number(rat(1)), SimplifiedNode::Variable('x')])),
        Box::new(number(rat(2))),
    );
    assert_eq!(n.reduce(), Err(ReductionError::Unsupported));

    // A variable raised to a number stays as it is
    let n = SimplifiedNode::Power(Box::new(SimplifiedNode::Variable('x')), Box::new(number(rat(2))));
    assert_eq!(
        reduce(n),
        SimplifiedNode::Power(Box::new(SimplifiedNode::Variable('x')), Box::new(number(rat(2))))
    );
}

#[test]
fn test_negate_and_reciprocal() {
    assert_eq!(
        SimplifiedNode::Variable('x').negate(),
        SimplifiedNode::Multiply(vec![number(rat(-1)), SimplifiedNode::Variable('x')])
    );
    assert_eq!(
        SimplifiedNode::Variable('x').reciprocal(),
        SimplifiedNode::Power(Box::new(SimplifiedNode::Variable('x')), Box::new(number(rat(-1))))
    );
}

#[test]
fn test_flatten_and_order() {
    let nested = SimplifiedNode::Add(vec![
        number(rat(1)),
        SimplifiedNode::Add(vec![number(rat(2)), SimplifiedNode::Add(vec![number(rat(3)), number(rat(4))])]),
        number(rat(5)),
    ]);
    assert_eq!(
        nested.flatten(),
        SimplifiedNode::Add(vec![number(rat(1)), number(rat(2)), number(rat(3)), number(rat(4)), number(rat(5))])
    );

    // A product inside a sum stays where it is
    let mixed = SimplifiedNode::Add(vec![SimplifiedNode::Multiply(vec![number(rat(2)), number(rat(3))]), number(rat(4))]);
    assert_eq!(
        mixed.flatten(),
        SimplifiedNode::Add(vec![SimplifiedNode::Multiply(vec![number(rat(2)), number(rat(3))]), number(rat(4))])
    );

    // Numbers come before variables, and variables in order of their names
    assert_eq!(number(rat(100)).compare(&SimplifiedNode::Variable('a')), Ordering::Less);
    assert_eq!(SimplifiedNode::Variable('b').compare(&SimplifiedNode::Variable('a')), Ordering::Greater);
    assert_eq!(number(Number::Rational(1, 2)).compare(&number(Number::Rational(2, 4))), Ordering::Equal);

    // Sorting only one level leaves the items unsorted inside
    let mut n = SimplifiedNode::Add(vec![
        SimplifiedNode::Multiply(vec![number(rat(3)), number(rat(2))]),
        number(rat(1)),
    ]);
    n.sort_one_level();
    assert_eq!(
        n,
        SimplifiedNode::Add(vec![number(rat(1)), SimplifiedNode::Multiply(vec![number(rat(3)), number(rat(2))])])
    );
}

#[test]
fn test_number_order() {
    assert_eq!(Number::Rational(1, 3).compare(&Number::Rational(1, 2)), Ordering::Less);
    assert_eq!(Number::Rational(3, 6).compare(&Number::Rational(1, 2)), Ordering::Equal);
    assert_eq!(Number::Rational(-1, 2).compare(&Number::Rational(-2, 3)), Ordering::Greater);
}

#[test]
fn test_sort_puts_items_in_order() {
    let mut n = SimplifiedNode::Multiply(vec![
        SimplifiedNode::Variable('z'),
        number(rat(7)),
        SimplifiedNode::Add(vec![number(rat(1)), SimplifiedNode::Variable('a')]),
        SimplifiedNode::Variable('b'),
        number(Number::Rational(-3, 2)),
        number(Number::Rational(14, 2)),
    ]);
    n.sort_one_level();
    let items = match &n {
        SimplifiedNode::Multiply(items) => items,
        _ => panic!("sorting changed the variant"),
    };
    assert_eq!(items.len(), 6);
    for k in 0..items.len() - 1 {
        assert_ne!(items[k].compare(&items[k + 1]), Ordering::Greater);
        // Comparing the other way round gives the reverse ordering
        assert_eq!(items[k + 1].compare(&items[k]), items[k].compare(&items[k + 1]).reverse());
    }
    // Equal items keep their order: 7 came before 14/2
    assert_eq!(items[1], number(rat(7)));
    assert_eq!(items[2], number(Number::Rational(14, 2)));
    assert_eq!(items[0], number(Number::Rational(-3, 2)));
    assert_eq!(items[3], SimplifiedNode::Variable('b'));
    assert_eq!(items[4], SimplifiedNode::Variable('z'));
}
