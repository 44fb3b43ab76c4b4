//! The parser which upgrades a list of unstructured nodes into a single structured node.
//!
//! The grammar, from loosest to tightest binding:
//! - a sum: products separated by `+` or `-`, associating to the left;
//! - a product: units separated by `*` or `/`, associating to the left;
//! - a unit: any number of `-` signs, then a number, variable, fraction, square root,
//!   parentheses or function call, with any powers after it, then any further units which it
//!   multiplies implicitly (such as `2x`).

use vstd::prelude::*;

use crate::error::NodeError;
use crate::node::structured::{tree_numbers_wf, StructuredNode, Tree};
use crate::node::unstructured::{ListModel, NodeModel, Token, UnstructuredNode, UnstructuredNodeList};
use crate::number::{
    dec_checked_add, dec_checked_mul, dec_checked_powi, dec_eq, dec_of, dec_to_i64, dec_to_string,
    decimal_checked_add, decimal_checked_mul, decimal_checked_powi, decimal_to_i64, decimal_to_string,
    lemma_pow10_28, number_wf, pow10, spec_checked_mul, Dec, DecimalAccuracy, Number, MAX_SCALE,
};

verus! {

/// The result of parsing from some position: a tree and the position just after it.
pub type Parsed = Result<(Tree, int), NodeError>;

/// The models of a sequence of nodes.
pub open spec fn node_models(nodes: Seq<UnstructuredNode>) -> Seq<NodeModel> {
    Seq::new(nodes.len(), |i: int| nodes[i]@)
}

/// The token at a position, if there is a token there.
pub open spec fn token_at(nodes: Seq<NodeModel>, i: int) -> Option<Token> {
    if 0 <= i < nodes.len() {
        match nodes[i] {
            NodeModel::Token(t) => Some(t),
            _ => None,
        }
    } else {
        None
    }
}

/// The digit at a position, if there is a digit there.
pub open spec fn digit_at(nodes: Seq<NodeModel>, i: int) -> Option<u8> {
    match token_at(nodes, i) {
        Some(Token::Digit(d)) => Some(d),
        _ => None,
    }
}

/// Every position from `a` up to `b` holds a digit.
pub open spec fn digits_run(nodes: Seq<NodeModel>, a: int, b: int) -> bool {
    forall|t: int| a <= t < b ==> (#[trigger] digit_at(nodes, t)) is Some
}

/// The whole number written by the digits from position `a` up to `b`.
pub open spec fn digits_value(nodes: Seq<NodeModel>, a: int, b: int) -> int
    decreases b - a,
{
    if b <= a {
        0
    } else {
        digits_value(nodes, a, b - 1) * 10 + digit_at(nodes, b - 1).unwrap() as int
    }
}

/// Every position from `a` up to `b` holds a decimal digit, below ten.
pub open spec fn decimal_digits(nodes: Seq<NodeModel>, a: int, b: int) -> bool {
    forall|t: int| a <= t < b ==> ((#[trigger] digit_at(nodes, t)) matches Some(d) && d < 10)
}

/// The decimal `x` has the value of the number written with the digits from `a` up to the point
/// at `p`, and the digits after it up to `e`: `x` is (whole * 10^n + fraction) / 10^n, where `n`
/// is the number of digits after the point.
pub open spec fn written_decimal(nodes: Seq<NodeModel>, a: int, p: int, e: int, x: Dec) -> bool {
    let n = (e - p - 1) as nat;
    x.mantissa * pow10(n) == (digits_value(nodes, a, p) * pow10(n) + digits_value(nodes, p + 1, e)) * pow10(
        x.scale as nat,
    )
}

/// The position after a run of minus signs, and whether there is an odd number of them.
pub open spec fn minus_run(nodes: Seq<NodeModel>, i: int) -> (int, bool)
    decreases nodes.len() - i,
{
    if 0 <= i < nodes.len() && token_at(nodes, i) == Some(Token::Subtract) {
        let (j, negative) = minus_run(nodes, i + 1);
        (j, !negative)
    } else {
        (i, false)
    }
}

/// The whole part of a number: each further digit multiplies what was read by ten and adds
/// itself, with decimal arithmetic. Gives the value and the position after the digits.
pub open spec fn spec_whole_digits(nodes: Seq<NodeModel>, i: int, acc: Dec) -> Result<(Dec, int), NodeError>
    decreases nodes.len() - i,
{
    match digit_at(nodes, i) {
        Some(d) => match dec_of(decimal_checked_mul(acc.parts(), (10, 0))) {
            Some(m) => match dec_of(decimal_checked_add(m.parts(), (d as i128, 0))) {
                Some(a) => spec_whole_digits(nodes, i + 1, a),
                None => Err(NodeError::Overflow),
            },
            None => Err(NodeError::Overflow),
        },
        None => Ok((acc, i)),
    }
}

/// The digits after a decimal point: leading zeros are counted, and the other digits are read
/// as a whole number. Gives that number, the count of leading zeros, and the position after the
/// digits.
pub open spec fn spec_fraction_digits(nodes: Seq<NodeModel>, i: int, acc: Dec, leading: bool, zeros: nat) -> Result<
    (Dec, nat, int),
    NodeError,
>
    decreases nodes.len() - i,
{
    match digit_at(nodes, i) {
        Some(d) => if leading && d == 0 {
            spec_fraction_digits(nodes, i + 1, acc, true, zeros + 1)
        } else {
            match dec_of(decimal_checked_mul(acc.parts(), (10, 0))) {
                Some(m) => match dec_of(decimal_checked_add(m.parts(), (d as i128, 0))) {
                    Some(a) => spec_fraction_digits(nodes, i + 1, a, false, zeros),
                    None => Err(NodeError::Overflow),
                },
                None => Err(NodeError::Overflow),
            }
        },
        None => Ok((acc, zeros, i)),
    }
}

/// A whole part and the digits after its point joined into one decimal: the whole part is
/// shifted left by as many places as there are digits after the point (the digits of the number
/// they make, and the leading zeros), the number they make is added, and the point is moved
/// back left by as many places.
pub open spec fn spec_join_fraction(whole: Dec, fraction: Dec, zeros: nat) -> Result<Dec, NodeError> {
    if fraction.mantissa == 0 {
        Ok(whole)
    } else {
        let places = decimal_to_string(fraction.parts()).len() + zeros;
        if places > i64::MAX {
            Err(NodeError::Overflow)
        } else {
            match dec_of(decimal_checked_powi((10, 0), places as i64)) {
                Some(p) => match dec_of(decimal_checked_mul(whole.parts(), p.parts())) {
                    Some(m) => match dec_of(decimal_checked_add(m.parts(), fraction.parts())) {
                        Some(a) => if a.scale + places > MAX_SCALE {
                            Err(NodeError::Overflow)
                        } else {
                            Ok(Dec { mantissa: a.mantissa, scale: (a.scale + places) as u32 })
                        },
                        None => Err(NodeError::Overflow),
                    },
                    None => Err(NodeError::Overflow),
                },
                None => Err(NodeError::Overflow),
            }
        }
    }
}

/// The number whose first digit is at the given position, and the position after it. A number
/// with a decimal point (even with no digits after it) is an exact decimal; one without is a
/// rational where it fits in a word, and an exact decimal otherwise.
pub open spec fn spec_parse_number(nodes: Seq<NodeModel>, i: int) -> Result<(Number, int), NodeError> {
    match digit_at(nodes, i) {
        Some(d) => match spec_whole_digits(nodes, i + 1, Dec { mantissa: d as i128, scale: 0 }) {
            Ok((whole, j)) => if token_at(nodes, j) == Some(Token::Point) {
                match spec_fraction_digits(nodes, j + 1, Dec { mantissa: 0, scale: 0 }, true, 0) {
                    Ok((fraction, zeros, k)) => match spec_join_fraction(whole, fraction, zeros) {
                        Ok(x) => Ok((Number::Decimal(x, DecimalAccuracy::Exact), k)),
                        Err(e) => Err(e),
                    },
                    Err(e) => Err(e),
                }
            } else {
                Ok(
                    (
                        match decimal_to_i64(whole.parts()) {
                            Some(n) => Number::Rational(n, 1),
                            None => Number::Decimal(whole, DecimalAccuracy::Exact),
                        },
                        j,
                    ),
                )
            },
            Err(e) => Err(e),
        },
        None => Err(NodeError::ExpectedUnit),
    }
}

/// The node at a position can be multiplied implicitly by what comes before it.
pub open spec fn implicit_operand(nodes: Seq<NodeModel>, i: int) -> bool {
    0 <= i < nodes.len() && match nodes[i] {
        NodeModel::Fraction(_, _) | NodeModel::Sqrt(_) | NodeModel::Parentheses(_) => true,
        NodeModel::Token(Token::Variable(_)) | NodeModel::Token(Token::Digit(_)) => true,
        _ => false,
    }
}

/// A unit negated where asked: a number is multiplied by minus one, and anything else becomes a
/// product with minus one.
pub open spec fn spec_negate(t: Tree, negative: bool) -> Result<Tree, NodeError> {
    if !negative {
        Ok(t)
    } else {
        match t {
            Tree::Number(n) => match spec_checked_mul(n, Number::Rational(-1i64, 1i64)) {
                Ok(m) => Ok(Tree::Number(m)),
                Err(_) => Err(NodeError::Overflow),
            },
            _ => Ok(Tree::Multiply(Box::new(Tree::Number(Number::Rational(-1i64, 1i64))), Box::new(t))),
        }
    }
}

/// The sum starting at a position.
pub open spec fn spec_level1(nodes: Seq<NodeModel>, i: int) -> Parsed
    decreases nodes, nodes.len() - i, 6int,
{
    if i < 0 || i > nodes.len() {
        Err(NodeError::ExpectedUnit)
    } else {
        match spec_level2(nodes, i) {
            Ok((t, j)) => if j < i || j > nodes.len() {
                Err(NodeError::ExpectedUnit)
            } else {
                spec_sum_loop(nodes, j, t)
            },
            Err(e) => Err(e),
        }
    }
}

/// The rest of a sum, after what has been read of it.
pub open spec fn spec_sum_loop(nodes: Seq<NodeModel>, i: int, out: Tree) -> Parsed
    decreases nodes, nodes.len() - i, 5int,
{
    if 0 <= i < nodes.len() && (token_at(nodes, i) == Some(Token::Add) || token_at(nodes, i) == Some(
        Token::Subtract,
    )) {
        match spec_level2(nodes, i + 1) {
            Ok((t, j)) => if j <= i || j > nodes.len() {
                Err(NodeError::ExpectedUnit)
            } else if token_at(nodes, i) == Some(Token::Add) {
                spec_sum_loop(nodes, j, Tree::Add(Box::new(out), Box::new(t)))
            } else {
                spec_sum_loop(nodes, j, Tree::Subtract(Box::new(out), Box::new(t)))
            },
            Err(e) => Err(e),
        }
    } else {
        Ok((out, i))
    }
}

/// The product starting at a position.
pub open spec fn spec_level2(nodes: Seq<NodeModel>, i: int) -> Parsed
    decreases nodes, nodes.len() - i, 4int,
{
    if i < 0 || i > nodes.len() {
        Err(NodeError::ExpectedUnit)
    } else {
        match spec_level3(nodes, i) {
            Ok((t, j)) => if j < i || j > nodes.len() {
                Err(NodeError::ExpectedUnit)
            } else {
                spec_product_loop(nodes, j, t)
            },
            Err(e) => Err(e),
        }
    }
}

/// The rest of a product, after what has been read of it.
pub open spec fn spec_product_loop(nodes: Seq<NodeModel>, i: int, out: Tree) -> Parsed
    decreases nodes, nodes.len() - i, 3int,
{
    if 0 <= i < nodes.len() && (token_at(nodes, i) == Some(Token::Multiply) || token_at(nodes, i) == Some(
        Token::Divide,
    )) {
        match spec_level3(nodes, i + 1) {
            Ok((t, j)) => if j <= i || j > nodes.len() {
                Err(NodeError::ExpectedUnit)
            } else if token_at(nodes, i) == Some(Token::Multiply) {
                spec_product_loop(nodes, j, Tree::Multiply(Box::new(out), Box::new(t)))
            } else {
                spec_product_loop(nodes, j, Tree::Divide(Box::new(out), Box::new(t)))
            },
            Err(e) => Err(e),
        }
    } else {
        Ok((out, i))
    }
}

/// The further units which a unit multiplies implicitly.
pub open spec fn spec_implicit_loop(nodes: Seq<NodeModel>, i: int, out: Tree) -> Parsed
    decreases nodes, nodes.len() - i, 2int,
{
    if implicit_operand(nodes, i) {
        match spec_level3(nodes, i) {
            Ok((t, j)) => if j <= i || j > nodes.len() {
                Err(NodeError::ExpectedUnit)
            } else {
                spec_implicit_loop(nodes, j, Tree::Multiply(Box::new(out), Box::new(t)))
            },
            Err(e) => Err(e),
        }
    } else {
        Ok((out, i))
    }
}

/// A unit starting at a position, with its minus signs, powers and implicit multiplications.
pub open spec fn spec_level3(nodes: Seq<NodeModel>, i: int) -> Parsed
    decreases nodes, nodes.len() - i, 1int,
{
    let (k, negative) = minus_run(nodes, i);
    if i < 0 || k < i || k > nodes.len() {
        Err(NodeError::ExpectedUnit)
    } else {
        match spec_unit(nodes, k) {
            Ok((t, j)) => if j <= k || j > nodes.len() {
                Err(NodeError::ExpectedUnit)
            } else {
                match spec_negate(t, negative) {
                    Ok(n) => spec_implicit_loop(nodes, j, n),
                    Err(e) => Err(e),
                }
            },
            Err(e) => Err(e),
        }
    }
}

/// A single unit at a position, with any powers after it.
pub open spec fn spec_unit(nodes: Seq<NodeModel>, i: int) -> Parsed
    decreases nodes, nodes.len() - i, 0int,
{
    if i < 0 || i >= nodes.len() {
        Err(NodeError::ExpectedUnit)
    } else {
        match nodes[i] {
            NodeModel::Token(Token::Digit(_)) => match spec_parse_number(nodes, i) {
                Ok((n, j)) => if j <= i || j > nodes.len() {
                    Err(NodeError::ExpectedUnit)
                } else {
                    spec_accepts_power(nodes, j, Tree::Number(n))
                },
                Err(e) => Err(e),
            },
            NodeModel::Fraction(a, b) => {
                proof {
                    assert(decreases_to!(nodes => nodes[i]));
                }
                match spec_upgrade_list(a) {
                    Ok(ta) => match spec_upgrade_list(b) {
                        Ok(tb) => spec_accepts_power(nodes, i + 1, Tree::Divide(Box::new(ta), Box::new(tb))),
                        Err(e) => Err(e),
                    },
                    Err(e) => Err(e),
                }
            },
            NodeModel::Sqrt(l) => {
                proof {
                    assert(decreases_to!(nodes => nodes[i]));
                }
                match spec_upgrade_list(l) {
                    Ok(t) => spec_accepts_power(nodes, i + 1, Tree::Sqrt(Box::new(t))),
                    Err(e) => Err(e),
                }
            },
            NodeModel::Parentheses(l) => {
                proof {
                    assert(decreases_to!(nodes => nodes[i]));
                }
                match spec_upgrade_list(l) {
                    Ok(t) => spec_accepts_power(nodes, i + 1, Tree::Parentheses(Box::new(t))),
                    Err(e) => Err(e),
                }
            },
            NodeModel::Power(_) => Err(NodeError::PowerMissingBase),
            NodeModel::Token(Token::Variable(v)) => spec_accepts_power(nodes, i + 1, Tree::Variable(v)),
            NodeModel::FunctionCall(f, args) => {
                proof {
                    assert(decreases_to!(nodes => nodes[i]));
                }
                match spec_upgrade_args(args, args.len() as int) {
                    Ok(ts) => spec_accepts_power(nodes, i + 1, Tree::FunctionCall(f, ts)),
                    Err(e) => Err(e),
                }
            },
            _ => Err(NodeError::ExpectedUnit),
        }
    }
}

/// A unit followed by any powers, each applied to what comes before it.
pub open spec fn spec_accepts_power(nodes: Seq<NodeModel>, i: int, node: Tree) -> Parsed
    decreases nodes, nodes.len() - i, 0int,
{
    if 0 <= i < nodes.len() && nodes[i] is Power {
        proof {
            assert(decreases_to!(nodes => nodes[i]));
        }
        match spec_upgrade_list(nodes[i]->Power_0) {
            Ok(e) => spec_accepts_power(nodes, i + 1, Tree::Power(Box::new(node), Box::new(e))),
            Err(err) => Err(err),
        }
    } else {
        Ok((node, i))
    }
}

/// The upgrade of a list: the sum which makes up the whole of it.
pub open spec fn spec_upgrade_list(l: ListModel) -> Result<Tree, NodeError>
    decreases l.items, l.items.len() + 1, 0int,
{
    match spec_level1(l.items, 0) {
        Ok((t, j)) => if j < l.items.len() {
            Err(NodeError::UnexpectedTokensAtEnd)
        } else {
            Ok(t)
        },
        Err(e) => Err(e),
    }
}

/// The upgrades of the first `k` lists, or the first error met.
pub open spec fn spec_upgrade_args(args: Seq<ListModel>, k: int) -> Result<Seq<Tree>, NodeError>
    decreases args, k, 0int,
{
    if k <= 0 || k > args.len() {
        Ok(Seq::empty())
    } else {
        match spec_upgrade_args(args, k - 1) {
            Ok(ts) => match spec_upgrade_list(args[k - 1]) {
                Ok(t) => Ok(ts.push(t)),
                Err(e) => Err(e),
            },
            Err(e) => Err(e),
        }
    }
}

/// The upgrade of a single node: its lists are upgraded in place; a token cannot be upgraded
/// alone, and a power has no base.
pub open spec fn spec_upgrade_node(n: NodeModel) -> Result<Tree, NodeError> {
    match n {
        NodeModel::Sqrt(l) => match spec_upgrade_list(l) {
            Ok(t) => Ok(Tree::Sqrt(Box::new(t))),
            Err(e) => Err(e),
        },
        NodeModel::Parentheses(l) => match spec_upgrade_list(l) {
            Ok(t) => Ok(Tree::Parentheses(Box::new(t))),
            Err(e) => Err(e),
        },
        NodeModel::Fraction(a, b) => match spec_upgrade_list(a) {
            Ok(ta) => match spec_upgrade_list(b) {
                Ok(tb) => Ok(Tree::Divide(Box::new(ta), Box::new(tb))),
                Err(e) => Err(e),
            },
            Err(e) => Err(e),
        },
        NodeModel::Power(_) => Err(NodeError::PowerMissingBase),
        NodeModel::FunctionCall(f, args) => match spec_upgrade_args(args, args.len() as int) {
            Ok(ts) => Ok(Tree::FunctionCall(f, ts)),
            Err(e) => Err(e),
        },
        NodeModel::Token(_) => Err(NodeError::CannotUpgradeToken),
    }
}

/// The parse of the nodes from a position: a sum which must reach the end.
pub open spec fn spec_parse(nodes: Seq<NodeModel>, i: int) -> Result<Tree, NodeError> {
    match spec_level1(nodes, i) {
        Ok((t, j)) => if j < nodes.len() {
            Err(NodeError::UnexpectedTokensAtEnd)
        } else {
            Ok(t)
        },
        Err(e) => Err(e),
    }
}

/// An exec result agrees with the parse: the same tree and end position, or the same error.
pub open spec fn parsed(r: Result<(StructuredNode, usize), NodeError>, s: Parsed) -> bool {
    match s {
        Ok((t, j)) => r matches Ok((n, k)) && n@ == t && k == j,
        Err(e) => r == Err::<(StructuredNode, usize), NodeError>(e),
    }
}

/// An exec upgrade agrees with the upgrade of the model: the same tree, or the same error.
pub open spec fn upgraded(r: Result<StructuredNode, NodeError>, s: Result<Tree, NodeError>) -> bool {
    match s {
        Ok(t) => r matches Ok(n) && n@ == t,
        Err(e) => r == Err::<StructuredNode, NodeError>(e),
    }
}

/// The upgrades of the first lists fail as soon as one of them does.
proof fn lemma_upgrade_args_err(args: Seq<ListModel>, k: int, m: int)
    requires
        0 < k <= m <= args.len(),
        spec_upgrade_args(args, k) is Err,
    ensures
        spec_upgrade_args(args, m) == spec_upgrade_args(args, k),
    decreases m - k,
{
    if m > k {
        lemma_upgrade_args_err(args, k, m - 1);
    }
}

/// The token at a position, if there is a token there.
fn token_here(nodes: &[UnstructuredNode], i: usize) -> (r: Option<Token>)
    ensures
        r == token_at(node_models(nodes@), i as int),
{
    if i < nodes.len() {
        match &nodes[i] {
            UnstructuredNode::Token(t) => Some(*t),
            _ => None,
        }
    } else {
        None
    }
}

/// The digit at a position, if there is a digit there.
fn digit_here(nodes: &[UnstructuredNode], i: usize) -> (r: Option<u8>)
    ensures
        r == digit_at(node_models(nodes@), i as int),
{
    match token_here(nodes, i) {
        Some(Token::Digit(d)) => Some(d),
        _ => None,
    }
}

/// Reads the number whose first digit is at the given position. A number written with a
/// decimal point is read as the decimal it writes: its digits before the point make the whole
/// part, and those after it the fraction, each place worth a tenth of the one before.
pub fn parse_number(nodes: &[UnstructuredNode], i: usize) -> (r: Result<(Number, usize), NodeError>)
    requires
        digit_at(node_models(nodes@), i as int) is Some,
    ensures
        match spec_parse_number(node_models(nodes@), i as int) {
            Ok((n, j)) => r == Ok::<(Number, usize), NodeError>((n, j as usize)) && i < j <= nodes@.len(),
            Err(e) => r == Err::<(Number, usize), NodeError>(e),
        },
        r matches Ok((n, _)) ==> number_wf(n),
        r matches Ok((Number::Decimal(x, _), e)) ==> forall|p: int|
            i < p < e && #[trigger] token_at(node_models(nodes@), p) == Some(Token::Point) && decimal_digits(
                node_models(nodes@),
                i as int,
                p,
            ) && decimal_digits(node_models(nodes@), p + 1, e as int) ==> written_decimal(
                node_models(nodes@),
                i as int,
                p,
                e as int,
                x,
            ),
        r matches Ok((Number::Rational(a, b), e)) ==> b == 1 && a == digits_value(node_models(nodes@), i as int, e as int),
        r matches Ok((Number::Decimal(x, _), e)) ==> (digits_run(node_models(nodes@), i as int, e as int) ==> x.scale
            == 0 && x.mantissa == digits_value(node_models(nodes@), i as int, e as int)),
{
    let ghost m = node_models(nodes@);
    let _len = nodes.len();
    let d = match digit_here(nodes, i) {
        Some(d) => d,
        None => vstd::pervasive::unreached(),
    };
    // The whole part
    let ghost start = Dec { mantissa: d as i128, scale: 0 };
    let mut whole = Dec::from_i64(d as i64);
    let mut j: usize = i + 1;
    assert(i < nodes@.len());
    assert(digits_value(m, i as int, i + 1) == d as int) by {
        assert(digits_value(m, i as int, i as int) == 0);
    }
    while digit_here(nodes, j).is_some()
        invariant
            i < j <= nodes@.len(),
            _len == nodes@.len(),
            m == node_models(nodes@),
            digit_at(m, i as int) == Some(d),
            start == (Dec { mantissa: d as i128, scale: 0 }),
            whole.wf(),
            spec_whole_digits(m, i + 1, start) == spec_whole_digits(m, j as int, whole),
            whole.scale == 0,
            whole.mantissa == digits_value(m, i as int, j as int),
            digits_run(m, i as int, j as int),
        decreases nodes@.len() - j,
    {
        let x = match digit_here(nodes, j) {
            Some(x) => x,
            None => vstd::pervasive::unreached(),
        };
        assert(j < nodes@.len());
        let shifted = match dec_checked_mul(whole, Dec::from_i64(10)) {
            Some(a) => a,
            None => return Err(NodeError::Overflow),
        };
        whole = match dec_checked_add(shifted, Dec::from_i64(x as i64)) {
            Some(a) => a,
            None => return Err(NodeError::Overflow),
        };
        proof {
            assert(digits_value(m, i as int, j + 1) == digits_value(m, i as int, j as int) * 10 + x as int);
            assert forall|t: int| i <= t < j + 1 implies (#[trigger] digit_at(m, t)) is Some by {
                if t < j {
                    assert(digit_at(m, t) is Some);
                }
            }
        }
        j = j + 1;
    }
    proof {
        // Past the whole part, no point is followed by digits back to the start
        assert forall|p: int| i < p < j && #[trigger] token_at(m, p) == Some(Token::Point) implies !decimal_digits(
            m,
            i as int,
            p,
        ) by {
            assert(digit_at(m, p) is Some);
        }
    }
    if !matches!(token_here(nodes, j), Some(Token::Point)) {
        // No decimal point: a rational where it fits in a word
        let n = match dec_to_i64(whole) {
            Some(n) => Number::Rational(n, 1),
            None => Number::Decimal(whole, DecimalAccuracy::Exact),
        };
        return Ok((n, j));
    }
    assert(j < nodes@.len());
    // Even with no digits after the point, this is a decimal
    let ghost zero = Dec { mantissa: 0, scale: 0 };
    let mut fraction = Dec::zero();
    let mut leading = true;
    let mut zeros: usize = 0;
    let mut k: usize = j + 1;
    while digit_here(nodes, k).is_some()
        invariant
            i < j < k <= nodes@.len(),
            _len == nodes@.len(),
            zeros <= k - j,
            m == node_models(nodes@),
            digit_at(m, i as int) == Some(d),
            start == (Dec { mantissa: d as i128, scale: 0 }),
            spec_whole_digits(m, i + 1, start) == Ok::<(Dec, int), NodeError>((whole, j as int)),
            token_at(m, j as int) == Some(Token::Point),
            zero == (Dec { mantissa: 0, scale: 0 }),
            whole.wf(),
            fraction.wf(),
            spec_fraction_digits(m, j + 1, zero, true, 0) == spec_fraction_digits(
                m,
                k as int,
                fraction,
                leading,
                zeros as nat,
            ),
            whole.scale == 0,
            whole.mantissa == digits_value(m, i as int, j as int),
            digits_run(m, i as int, j as int),
            digit_at(m, j as int) is None,
            fraction.scale == 0,
            fraction.mantissa == digits_value(m, j + 1, k as int),
            digits_run(m, j + 1, k as int),
            leading ==> fraction.mantissa == 0 && zeros == k - j - 1,
            !leading ==> k - j - 1 - zeros >= 1,
            !leading && decimal_digits(m, j + 1, k as int) ==> pow10((k - j - 2 - zeros) as nat)
                <= fraction.mantissa < pow10((k - j - 1 - zeros) as nat),
        decreases nodes@.len() - k,
    {
        let x = match digit_here(nodes, k) {
            Some(x) => x,
            None => vstd::pervasive::unreached(),
        };
        assert(k < nodes@.len());
        let ghost before = fraction.mantissa as int;
        let ghost was_leading = leading;
        let ghost count = k - j - 1 - zeros;
        if leading && x == 0 {
            // Leading zeros leave the number unchanged, so they are counted apart
            zeros = zeros + 1;
        } else {
            leading = false;
            let shifted = match dec_checked_mul(fraction, Dec::from_i64(10)) {
                Some(a) => a,
                None => return Err(NodeError::Overflow),
            };
            fraction = match dec_checked_add(shifted, Dec::from_i64(x as i64)) {
                Some(a) => a,
                None => return Err(NodeError::Overflow),
            };
            proof {
                if decimal_digits(m, j + 1, k + 1) {
                    assert(decimal_digits(m, j + 1, k as int));
                    assert(digit_at(m, k as int) == Some(x));
                    assert(x < 10);
                    if was_leading {
                        assert(pow10(0) == 1);
                        assert(pow10(1) == 10);
                    } else {
                        assert(pow10((count + 1) as nat) == 10 * pow10(count as nat));
                        assert(pow10(count as nat) == 10 * pow10((count - 1) as nat));
                    }
                }
            }
        }
        proof {
            assert(digits_value(m, j + 1, k + 1) == digits_value(m, j + 1, k as int) * 10 + x as int);
            assert forall|t: int| j + 1 <= t < k + 1 implies (#[trigger] digit_at(m, t)) is Some by {
                if t < k {
                    assert(digit_at(m, t) is Some);
                }
            }
        }
        k = k + 1;
    }
    let ghost n = (k - j - 1) as nat;
    let ghost w = digits_value(m, i as int, j as int);
    let ghost f = digits_value(m, j + 1, k as int);
    let ghost written = decimal_digits(m, j + 1, k as int);
    proof {
        lemma_pow10_positive(0);
        if !leading && written {
            lemma_pow10_positive((k - j - 2 - zeros) as nat);
        }
    }
    let joined = if dec_eq(fraction, Dec::zero()) {
        proof {
            assert(pow10(0) == 1);
            assert(f == 0);
            assert(whole.mantissa * pow10(n) == (w * pow10(n) + f) * pow10(whole.scale as nat));
        }
        whole
    } else {
        // Shift the whole part left by the number of digits after the point, add the fraction
        // digits, and move the point back
        let text = dec_to_string(fraction);
        let length = text.as_str().unicode_len();
        proof {
            // The fraction's digits are exactly those after the leading zeros
            if written {
                assert(!leading);
                lemma_digit_count(fraction.mantissa as int, text@.len() as nat, (k - j - 1 - zeros) as nat);
            }
        }
        let places: u128 = length as u128 + zeros as u128;
        if places > i64::MAX as u128 {
            return Err(NodeError::Overflow);
        }
        let power = match dec_checked_powi(Dec::from_i64(10), places as i64) {
            Some(p) => p,
            None => return Err(NodeError::Overflow),
        };
        let shifted = match dec_checked_mul(whole, power) {
            Some(a) => a,
            None => return Err(NodeError::Overflow),
        };
        let sum = match dec_checked_add(shifted, fraction) {
            Some(a) => a,
            None => return Err(NodeError::Overflow),
        };
        if sum.scale as u128 + places > MAX_SCALE as u128 {
            return Err(NodeError::Overflow);
        }
        let result = Dec { mantissa: sum.mantissa, scale: (sum.scale as u128 + places) as u32 };
        proof {
            if written {
                assert(places == n);
                assert(places <= 28);
                lemma_pow10_monotone(n, 28);
                lemma_pow10_28();
                lemma_pow10_positive(n);
                assert(power.mantissa == pow10(n) && power.scale == 0);
                assert(result.mantissa * pow10(n) == (w * pow10(n) + f) * pow10(result.scale as nat));
            }
        }
        result
    };
    proof {
        assert forall|p: int|
            i < p < k && #[trigger] token_at(m, p) == Some(Token::Point) && decimal_digits(m, i as int, p)
                && decimal_digits(m, p + 1, k as int) implies written_decimal(m, i as int, p, k as int, joined) by {
            if p < j {
                assert(digit_at(m, p) is Some);
            } else if p > j {
                assert(digit_at(m, j as int) is Some);
            }
        }
    }
    Ok((Number::Decimal(joined, DecimalAccuracy::Exact), k))
}

/// Every power of ten is positive.
proof fn lemma_pow10_positive(n: nat)
    ensures
        pow10(n) >= 1,
    decreases n,
{
    if n > 0 {
        lemma_pow10_positive((n - 1) as nat);
    }
}

/// A larger power of ten is no smaller.
proof fn lemma_pow10_monotone(a: nat, b: nat)
    requires
        a <= b,
    ensures
        pow10(a) <= pow10(b),
    decreases b,
{
    if a < b {
        lemma_pow10_monotone(a, (b - 1) as nat);
        lemma_pow10_positive((b - 1) as nat);
    }
}

/// A number has only one count of digits: if it lies between ten to `a - 1` and ten to `a`, and
/// between ten to `b - 1` and ten to `b`, then `a` and `b` are equal.
proof fn lemma_digit_count(x: int, a: nat, b: nat)
    requires
        a >= 1,
        b >= 1,
        pow10((a - 1) as nat) <= x < pow10(a),
        pow10((b - 1) as nat) <= x < pow10(b),
    ensures
        a == b,
{
    if a < b {
        lemma_pow10_monotone(a, (b - 1) as nat);
    } else if b < a {
        lemma_pow10_monotone(b, (a - 1) as nat);
    }
}

/// Negates a unit.
fn negate(t: StructuredNode) -> (r: Result<StructuredNode, NodeError>)
    requires
        tree_numbers_wf(t@),
    ensures
        upgraded(r, spec_negate(t@, true)),
        r matches Ok(n) ==> tree_numbers_wf(n@),
{
    match t {
        StructuredNode::Number(n) => {
            match n.checked_mul(Number::Rational(-1, 1)) {
                Ok(m) => {
                    Ok(StructuredNode::Number(m))
                },
                Err(_) => Err(NodeError::Overflow),
            }
        },
        other => {
            let minus_one = StructuredNode::Number(Number::Rational(-1, 1));
            assert(minus_one@ == Tree::Number(Number::Rational(-1i64, 1i64)));
            assert(tree_numbers_wf(minus_one@));
            let ghost other_tree = other@;
            let res = StructuredNode::Multiply(Box::new(minus_one), Box::new(other));
            assert(res@ == Tree::Multiply(Box::new(minus_one@), Box::new(other_tree)));
            Ok(res)
        },
    }
}

/// Parses a sum.
fn level1(nodes: &[UnstructuredNode], i: usize) -> (r: Result<(StructuredNode, usize), NodeError>)
    requires
        i <= nodes@.len(),
    ensures
        parsed(r, spec_level1(node_models(nodes@), i as int)),
        r matches Ok((n, j)) ==> i <= j <= nodes@.len() && tree_numbers_wf(n@),
    decreases node_models(nodes@), nodes@.len() - i, 6int,
{
    let (t, j) = level2(nodes, i)?;
    sum_loop(nodes, j, t)
}

/// Parses the rest of a sum.
fn sum_loop(nodes: &[UnstructuredNode], i: usize, out: StructuredNode) -> (r: Result<(StructuredNode, usize), NodeError>)
    requires
        i <= nodes@.len(),
        tree_numbers_wf(out@),
    ensures
        parsed(r, spec_sum_loop(node_models(nodes@), i as int, out@)),
        r matches Ok((n, j)) ==> i <= j <= nodes@.len() && tree_numbers_wf(n@),
    decreases node_models(nodes@), nodes@.len() - i, 5int,
{
    let t = token_here(nodes, i);
    if matches!(t, Some(Token::Add)) || matches!(t, Some(Token::Subtract)) {
        let _len = nodes.len();
        assert(i < nodes@.len());
        let (right, j) = level2(nodes, i + 1)?;
        if matches!(t, Some(Token::Add)) {
            sum_loop(nodes, j, StructuredNode::Add(Box::new(out), Box::new(right)))
        } else {
            sum_loop(nodes, j, StructuredNode::Subtract(Box::new(out), Box::new(right)))
        }
    } else {
        Ok((out, i))
    }
}

/// Parses a product.
fn level2(nodes: &[UnstructuredNode], i: usize) -> (r: Result<(StructuredNode, usize), NodeError>)
    requires
        i <= nodes@.len(),
    ensures
        parsed(r, spec_level2(node_models(nodes@), i as int)),
        r matches Ok((n, j)) ==> i <= j <= nodes@.len() && tree_numbers_wf(n@),
    decreases node_models(nodes@), nodes@.len() - i, 4int,
{
    let (t, j) = level3(nodes, i)?;
    product_loop(nodes, j, t)
}

/// Parses the rest of a product.
fn product_loop(nodes: &[UnstructuredNode], i: usize, out: StructuredNode) -> (r: Result<(StructuredNode, usize), NodeError>)
    requires
        i <= nodes@.len(),
        tree_numbers_wf(out@),
    ensures
        parsed(r, spec_product_loop(node_models(nodes@), i as int, out@)),
        r matches Ok((n, j)) ==> i <= j <= nodes@.len() && tree_numbers_wf(n@),
    decreases node_models(nodes@), nodes@.len() - i, 3int,
{
    let t = token_here(nodes, i);
    if matches!(t, Some(Token::Multiply)) || matches!(t, Some(Token::Divide)) {
        let _len = nodes.len();
        assert(i < nodes@.len());
        let (right, j) = level3(nodes, i + 1)?;
        if matches!(t, Some(Token::Multiply)) {
            product_loop(nodes, j, StructuredNode::Multiply(Box::new(out), Box::new(right)))
        } else {
            product_loop(nodes, j, StructuredNode::Divide(Box::new(out), Box::new(right)))
        }
    } else {
        Ok((out, i))
    }
}

/// The node at a position can be multiplied implicitly by what comes before it.
fn implicit_operand_here(nodes: &[UnstructuredNode], i: usize) -> (r: bool)
    ensures
        r == implicit_operand(node_models(nodes@), i as int),
{
    i < nodes.len() && match &nodes[i] {
        UnstructuredNode::Fraction(_, _) | UnstructuredNode::Sqrt(_) | UnstructuredNode::Parentheses(_) => true,
        UnstructuredNode::Token(Token::Variable(_)) | UnstructuredNode::Token(Token::Digit(_)) => true,
        _ => false,
    }
}

/// Parses the units which a unit multiplies implicitly.
fn implicit_loop(nodes: &[UnstructuredNode], i: usize, out: StructuredNode) -> (r: Result<(StructuredNode, usize), NodeError>)
    requires
        i <= nodes@.len(),
        tree_numbers_wf(out@),
    ensures
        parsed(r, spec_implicit_loop(node_models(nodes@), i as int, out@)),
        r matches Ok((n, j)) ==> i <= j <= nodes@.len() && tree_numbers_wf(n@),
    decreases node_models(nodes@), nodes@.len() - i, 2int,
{
    if implicit_operand_here(nodes, i) {
        let (right, j) = level3(nodes, i)?;
        implicit_loop(nodes, j, StructuredNode::Multiply(Box::new(out), Box::new(right)))
    } else {
        Ok((out, i))
    }
}

/// Parses a unit with its minus signs, powers and implicit multiplications.
fn level3(nodes: &[UnstructuredNode], i: usize) -> (r: Result<(StructuredNode, usize), NodeError>)
    requires
        i <= nodes@.len(),
    ensures
        parsed(r, spec_level3(node_models(nodes@), i as int)),
        r matches Ok((n, j)) ==> i < j <= nodes@.len() && tree_numbers_wf(n@),
    decreases node_models(nodes@), nodes@.len() - i, 1int,
{
    let ghost m = node_models(nodes@);
    let _len = nodes.len();
    // Any number of minus signs, each flipping the sign
    let mut k: usize = i;
    let mut negative = false;
    while matches!(token_here(nodes, k), Some(Token::Subtract))
        invariant
            i <= k <= nodes@.len(),
            _len == nodes@.len(),
            m == node_models(nodes@),
            minus_run(m, i as int) == (minus_run(m, k as int).0, minus_run(m, k as int).1 != negative),
        decreases nodes@.len() - k,
    {
        k = k + 1;
        negative = !negative;
    }
    let (unit, j) = unit(nodes, k)?;
    let unit = if negative { negate(unit)? } else { unit };
    implicit_loop(nodes, j, unit)
}

/// Parses a single unit with any powers after it.
#[verifier::rlimit(50)]
fn unit(nodes: &[UnstructuredNode], i: usize) -> (r: Result<(StructuredNode, usize), NodeError>)
    requires
        i <= nodes@.len(),
    ensures
        parsed(r, spec_unit(node_models(nodes@), i as int)),
        r matches Ok((n, j)) ==> i < j <= nodes@.len() && tree_numbers_wf(n@),
    decreases node_models(nodes@), nodes@.len() - i, 0int,
{
    let ghost m = node_models(nodes@);
    if i >= nodes.len() {
        return Err(NodeError::ExpectedUnit);
    }
    assert(m[i as int] == nodes@[i as int]@);
    proof {
        assert(decreases_to!(m => m[i as int]));
    }
    match &nodes[i] {
        UnstructuredNode::Token(Token::Digit(_)) => {
            let (n, j) = parse_number(nodes, i)?;
            accepts_power(nodes, j, StructuredNode::Number(n))
        },
        UnstructuredNode::Fraction(a, b) => {
            let ta = upgrade_list(a)?;
            let tb = upgrade_list(b)?;
            accepts_power(nodes, i + 1, StructuredNode::Divide(Box::new(ta), Box::new(tb)))
        },
        UnstructuredNode::Sqrt(l) => {
            let t = upgrade_list(l)?;
            accepts_power(nodes, i + 1, StructuredNode::Sqrt(Box::new(t)))
        },
        UnstructuredNode::Parentheses(l) => {
            let t = upgrade_list(l)?;
            accepts_power(nodes, i + 1, StructuredNode::Parentheses(Box::new(t)))
        },
        UnstructuredNode::Power(_) => Err(NodeError::PowerMissingBase),
        UnstructuredNode::Token(Token::Variable(v)) => accepts_power(nodes, i + 1, StructuredNode::Variable(*v)),
        UnstructuredNode::FunctionCall(f, args) => {
            let ghost targs = m[i as int]->FunctionCall_1;
            proof {
                assert(targs =~= list_models(args@));
                assert(decreases_to!(m[i as int] => targs));
            }
            let upgraded_args = upgrade_args(args)?;
            let call = StructuredNode::FunctionCall(*f, upgraded_args);
            proof {
                let ts = spec_upgrade_args(targs, targs.len() as int)->Ok_0;
                assert(call@->FunctionCall_1 =~= ts);
            }
            accepts_power(nodes, i + 1, call)
        },
        _ => Err(NodeError::ExpectedUnit),
    }
}

/// The models of a sequence of lists.
pub open spec fn list_models(lists: Seq<UnstructuredNodeList>) -> Seq<ListModel> {
    Seq::new(lists.len(), |i: int| lists[i]@)
}

/// Upgrades the arguments of a function call, in order, stopping at the first error.
pub(crate) fn upgrade_args(args: &Vec<UnstructuredNodeList>) -> (r: Result<Vec<StructuredNode>, NodeError>)
    ensures
        match spec_upgrade_args(list_models(args@), args@.len() as int) {
            Ok(ts) => r matches Ok(v) && v@.len() == ts.len() && forall|x: int| 0 <= x < ts.len() ==> (#[trigger] v@[x])@ == ts[x],
            Err(e) => r == Err::<Vec<StructuredNode>, NodeError>(e),
        },
        r matches Ok(v) ==> forall|x: int| 0 <= x < v@.len() ==> tree_numbers_wf(#[trigger] v@[x]@),
    decreases list_models(args@), args@.len() + 1, 0int,
{
    let ghost targs = list_models(args@);
    let _len = args.len();
    let mut upgraded_args: Vec<StructuredNode> = Vec::new();
    let mut k: usize = 0;
    while k < args.len()
        invariant
            k <= args@.len(),
            _len == args@.len(),
            targs == list_models(args@),
            upgraded_args@.len() == k,
            spec_upgrade_args(targs, k as int) matches Ok(ts) && ts.len() == k && forall|x: int|
                0 <= x < k ==> (#[trigger] upgraded_args@[x])@ == ts[x],
            forall|x: int| 0 <= x < k ==> tree_numbers_wf(#[trigger] upgraded_args@[x]@),
        decreases args@.len() - k,
    {
        proof {
            assert(targs[k as int] == args@[k as int]@);
            assert(decreases_to!(targs => targs[k as int]));
            assert(decreases_to!(targs[k as int] => targs[k as int].items));
        }
        match upgrade_list(&args[k]) {
            Ok(t) => upgraded_args.push(t),
            Err(e) => {
                proof {
                    lemma_upgrade_args_err(targs, k + 1, targs.len() as int);
                }
                return Err(e);
            },
        }
        k = k + 1;
    }
    Ok(upgraded_args)
}

/// Applies any powers after a unit to it.
fn accepts_power(nodes: &[UnstructuredNode], i: usize, node: StructuredNode) -> (r: Result<(StructuredNode, usize), NodeError>)
    requires
        i <= nodes@.len(),
        tree_numbers_wf(node@),
    ensures
        parsed(r, spec_accepts_power(node_models(nodes@), i as int, node@)),
        r matches Ok((n, j)) ==> i <= j <= nodes@.len() && tree_numbers_wf(n@),
    decreases node_models(nodes@), nodes@.len() - i, 0int,
{
    let ghost m = node_models(nodes@);
    if i < nodes.len() {
        assert(m[i as int] == nodes@[i as int]@);
        if let UnstructuredNode::Power(exponent) = &nodes[i] {
            proof {
                assert(decreases_to!(m => m[i as int]));
            }
            let e = upgrade_list(exponent)?;
            return accepts_power(nodes, i + 1, StructuredNode::Power(Box::new(node), Box::new(e)));
        }
    }
    Ok((node, i))
}

/// Upgrades a list: parses the whole of it as a sum.
pub(crate) fn upgrade_list(l: &UnstructuredNodeList) -> (r: Result<StructuredNode, NodeError>)
    ensures
        upgraded(r, spec_upgrade_list(l@)),
        r matches Ok(n) ==> tree_numbers_wf(n@),
    decreases l@.items, l@.items.len() + 1, 0int,
{
    let nodes = l.items.as_slice();
    proof {
        assert(node_models(nodes@) =~= l@.items);
    }
    let (t, j) = level1(nodes, 0)?;
    if j < nodes.len() {
        Err(NodeError::UnexpectedTokensAtEnd)
    } else {
        Ok(t)
    }
}

/// Converts a list of unstructured nodes into a single structured node.
pub struct Parser<'a> {
    pub nodes: &'a [UnstructuredNode],
    pub index: usize,
}

impl<'a> Parser<'a> {
    /// Parses the nodes from the current index as a sum, which must use all of them.
    pub fn parse(&mut self) -> (r: Result<StructuredNode, NodeError>)
        requires
            old(self).index <= old(self).nodes@.len(),
        ensures
            upgraded(r, spec_parse(node_models(old(self).nodes@), old(self).index as int)),
            r matches Ok(n) ==> tree_numbers_wf(n@),
            final(self).nodes == old(self).nodes,
    {
        let (result, end) = level1(self.nodes, self.index)?;
        self.index = end;
        // Leftover tokens are an error
        if self.index < self.nodes.len() {
            Err(NodeError::UnexpectedTokensAtEnd)
        } else {
            Ok(result)
        }
    }
}

} // verus!
