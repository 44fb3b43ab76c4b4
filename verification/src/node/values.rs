//! The exact rational values of expression trees, and the law that simplifying a structured tree
//! keeps its value.
//!
//! A value is a fraction of two integers, compared by cross-multiplying. Trees whose value is not
//! a rational (a variable, a function call, an irrational root) have none.

use vstd::prelude::*;

use crate::node::simplified::{spec_simplify_tree, SimpTree};
use crate::node::structured::Tree;
use crate::number::{iabs, pow10, Number};

verus! {

/// A fraction of two integers: a numerator and a denominator.
pub type Fraction = (int, int);

/// Two fractions with nonzero denominators have the same value.
pub open spec fn same_value(a: Fraction, b: Fraction) -> bool {
    a.1 != 0 && b.1 != 0 && a.0 * b.1 == b.0 * a.1
}

pub open spec fn frac_add(a: Fraction, b: Fraction) -> Fraction {
    (a.0 * b.1 + b.0 * a.1, a.1 * b.1)
}

pub open spec fn frac_sub(a: Fraction, b: Fraction) -> Fraction {
    (a.0 * b.1 - b.0 * a.1, a.1 * b.1)
}

pub open spec fn frac_mul(a: Fraction, b: Fraction) -> Fraction {
    (a.0 * b.0, a.1 * b.1)
}

pub open spec fn frac_div(a: Fraction, b: Fraction) -> Fraction {
    (a.0 * b.1, a.1 * b.0)
}

/// The value of a number: a rational's parts, or a decimal's mantissa over ten to its scale.
pub open spec fn number_value(n: Number) -> Fraction {
    match n {
        Number::Rational(p, q) => (p as int, q as int),
        Number::Decimal(d, _) => (d.mantissa as int, pow10(d.scale as nat)),
    }
}

/// `v` is the principal value of `u` raised to the power `p`: for `p = n/d` with `d > 0`, `v` to
/// the `d` is `u` to the `n` (the reciprocal of `u` to the `-n` for a negative `n`), and an even
/// root is not negative.
pub open spec fn power_value(u: Fraction, p: Fraction, v: Fraction) -> bool {
    let pn = if p.1 < 0 { -p.0 } else { p.0 };
    let pd = if p.1 < 0 { -p.1 } else { p.1 };
    let k = iabs(pn) as nat;
    let q = pd as nat;
    &&& u.1 != 0
    &&& v.1 != 0
    &&& pd > 0
    &&& q % 2 == 0 ==> v.0 * v.1 >= 0
    &&& if pn >= 0 {
        vstd::arithmetic::power::pow(v.0, q) * vstd::arithmetic::power::pow(u.1, k) == vstd::arithmetic::power::pow(
            u.0,
            k,
        ) * vstd::arithmetic::power::pow(v.1, q)
    } else {
        u.0 != 0 && vstd::arithmetic::power::pow(v.0, q) * vstd::arithmetic::power::pow(u.0, k)
            == vstd::arithmetic::power::pow(u.1, k) * vstd::arithmetic::power::pow(v.1, q)
    }
}

/// `v` is the nonnegative square root of `u`.
pub open spec fn square_root_value(u: Fraction, v: Fraction) -> bool {
    u.1 != 0 && v.1 != 0 && v.0 * v.1 >= 0 && v.0 * v.0 * u.1 == u.0 * v.1 * v.1
}

/// A value for every node of a tree: the node's own, and those of its children in order.
pub struct Valuation {
    pub value: Fraction,
    pub children: Seq<Valuation>,
}

/// The values of the children from position `k` on, added up (zero for none).
pub open spec fn children_sum(c: Seq<Valuation>, k: int) -> Fraction
    decreases c.len() - k,
{
    if k < 0 || k >= c.len() {
        (0, 1)
    } else {
        frac_add(c[k].value, children_sum(c, k + 1))
    }
}

/// The values of the children from position `k` on, multiplied together (one for none).
pub open spec fn children_product(c: Seq<Valuation>, k: int) -> Fraction
    decreases c.len() - k,
{
    if k < 0 || k >= c.len() {
        (1, 1)
    } else {
        frac_mul(c[k].value, children_product(c, k + 1))
    }
}

/// The valuation gives each node of the structured tree its exact value: a number its own, a
/// sum the sum of its operands, a square root the nonnegative root, and so on. Variables and
/// function calls have none.
pub open spec fn tree_fits(t: Tree, a: Valuation) -> bool
    decreases t,
{
    let c = a.children;
    match t {
        Tree::Number(n) => same_value(number_value(n), a.value),
        Tree::Variable(_) => false,
        Tree::FunctionCall(_, _) => false,
        Tree::Parentheses(x) => c.len() == 1 && tree_fits(*x, c[0]) && a.value == c[0].value,
        Tree::Sqrt(x) => c.len() == 1 && tree_fits(*x, c[0]) && square_root_value(c[0].value, a.value),
        Tree::Power(x, y) => c.len() == 2 && tree_fits(*x, c[0]) && tree_fits(*y, c[1]) && power_value(
            c[0].value,
            c[1].value,
            a.value,
        ),
        Tree::Add(x, y) => c.len() == 2 && tree_fits(*x, c[0]) && tree_fits(*y, c[1]) && same_value(
            a.value,
            frac_add(c[0].value, c[1].value),
        ),
        Tree::Subtract(x, y) => c.len() == 2 && tree_fits(*x, c[0]) && tree_fits(*y, c[1]) && same_value(
            a.value,
            frac_sub(c[0].value, c[1].value),
        ),
        Tree::Multiply(x, y) => c.len() == 2 && tree_fits(*x, c[0]) && tree_fits(*y, c[1]) && same_value(
            a.value,
            frac_mul(c[0].value, c[1].value),
        ),
        Tree::Divide(x, y) => c.len() == 2 && tree_fits(*x, c[0]) && tree_fits(*y, c[1]) && c[1].value.0 != 0
            && same_value(a.value, frac_div(c[0].value, c[1].value)),
    }
}

/// The valuation gives each node of the simplified tree its exact value: a sum adds its items,
/// a product multiplies them, and a power raises its base to its exponent.
pub open spec fn simp_fits(s: SimpTree, a: Valuation) -> bool
    decreases s,
{
    let c = a.children;
    match s {
        SimpTree::Number(n) => same_value(number_value(n), a.value),
        SimpTree::Variable(_) => false,
        SimpTree::FunctionCall(_, _) => false,
        SimpTree::Add(items) => c.len() == items.len() && (forall|i: int|
            0 <= i < items.len() ==> simp_fits(#[trigger] items[i], c[i])) && same_value(a.value, children_sum(c, 0)),
        SimpTree::Multiply(items) => c.len() == items.len() && (forall|i: int|
            0 <= i < items.len() ==> simp_fits(#[trigger] items[i], c[i])) && same_value(
            a.value,
            children_product(c, 0),
        ),
        SimpTree::Power(x, y) => c.len() == 2 && simp_fits(*x, c[0]) && simp_fits(*y, c[1]) && power_value(
            c[0].value,
            c[1].value,
            a.value,
        ),
    }
}

/// The structured tree has the exact rational value `v`.
pub open spec fn tree_value(t: Tree, v: Fraction) -> bool {
    exists|a: Valuation| #[trigger] tree_fits(t, a) && same_value(a.value, v)
}

/// The simplified tree has the exact rational value `v`.
pub open spec fn simp_value(s: SimpTree, v: Fraction) -> bool {
    exists|a: Valuation| #[trigger] simp_fits(s, a) && same_value(a.value, v)
}

/// Adding zero leaves a fraction as it is.
proof fn lemma_add_zero(w: Fraction)
    ensures
        frac_add(w, (0, 1)) == w,
{
    assert(w.0 * 1 + 0 * w.1 == w.0 && w.1 * 1 == w.1) by (nonlinear_arith);
}

/// Multiplying by one leaves a fraction as it is.
proof fn lemma_mul_one(w: Fraction)
    ensures
        frac_mul(w, (1, 1)) == w,
{
    assert(w.0 * 1 == w.0 && w.1 * 1 == w.1) by (nonlinear_arith);
}

/// A valuation of the simplified tree with the same value as a valuation of the structured one.
proof fn lemma_simplified_valuation(t: Tree, a: Valuation) -> (b: Valuation)
    requires
        tree_fits(t, a),
    ensures
        simp_fits(spec_simplify_tree(t), b),
        b.value == a.value,
    decreases t,
{
    let c = a.children;
    let v = a.value;
    let leaf = |f: Fraction| Valuation { value: f, children: Seq::empty() };
    match t {
        Tree::Number(_) => a,
        Tree::Variable(_) => a,
        Tree::FunctionCall(_, _) => a,
        Tree::Parentheses(x) => lemma_simplified_valuation(*x, c[0]),
        Tree::Power(x, y) => {
            let bx = lemma_simplified_valuation(*x, c[0]);
            let by = lemma_simplified_valuation(*y, c[1]);
            Valuation { value: v, children: seq![bx, by] }
        },
        Tree::Sqrt(x) => {
            let bx = lemma_simplified_valuation(*x, c[0]);
            let u = c[0].value;
            let half: Fraction = (1, 2);
            vstd::arithmetic::power::lemma_pow1(u.0);
            vstd::arithmetic::power::lemma_pow1(u.1);
            assert(vstd::arithmetic::power::pow(v.0, 2) == v.0 * v.0) by {
                reveal_with_fuel(vstd::arithmetic::power::pow, 3);
            }
            assert(vstd::arithmetic::power::pow(v.1, 2) == v.1 * v.1) by {
                reveal_with_fuel(vstd::arithmetic::power::pow, 3);
            }
            assert(v.0 * v.0 * u.1 == u.0 * (v.1 * v.1)) by (nonlinear_arith)
                requires
                    v.0 * v.0 * u.1 == u.0 * v.1 * v.1,
            ;
            assert(power_value(u, half, v));
            let b = Valuation { value: v, children: seq![bx, leaf(half)] };
            assert(simp_fits(SimpTree::Number(Number::Rational(1i64, 2i64)), leaf(half)));
            b
        },
        Tree::Add(x, y) => {
            let bx = lemma_simplified_valuation(*x, c[0]);
            let by = lemma_simplified_valuation(*y, c[1]);
            let cs = seq![bx, by];
            assert(children_sum(cs, 2) == (0int, 1int));
            assert(children_sum(cs, 1) == frac_add(by.value, (0, 1)));
            lemma_add_zero(by.value);
            assert(children_sum(cs, 0) == frac_add(c[0].value, c[1].value));
            let items = seq![spec_simplify_tree(*x), spec_simplify_tree(*y)];
            assert(forall|i: int| 0 <= i < items.len() ==> simp_fits(#[trigger] items[i], cs[i]));
            Valuation { value: v, children: cs }
        },
        Tree::Multiply(x, y) => {
            let bx = lemma_simplified_valuation(*x, c[0]);
            let by = lemma_simplified_valuation(*y, c[1]);
            let cs = seq![bx, by];
            assert(children_product(cs, 2) == (1int, 1int));
            assert(children_product(cs, 1) == frac_mul(by.value, (1, 1)));
            lemma_mul_one(by.value);
            assert(children_product(cs, 0) == frac_mul(c[0].value, c[1].value));
            let items = seq![spec_simplify_tree(*x), spec_simplify_tree(*y)];
            assert(forall|i: int| 0 <= i < items.len() ==> simp_fits(#[trigger] items[i], cs[i]));
            Valuation { value: v, children: cs }
        },
        Tree::Subtract(x, y) => {
            let bx = lemma_simplified_valuation(*x, c[0]);
            let by = lemma_simplified_valuation(*y, c[1]);
            let w = c[1].value;
            let u = c[0].value;
            let m = SimpTree::Number(Number::Rational(-1i64, 1i64));
            let negated: Fraction = (-w.0, w.1);
            let ns = seq![leaf((-1, 1)), by];
            assert(children_product(ns, 2) == (1int, 1int));
            assert(children_product(ns, 1) == frac_mul(w, (1, 1)));
            lemma_mul_one(w);
            assert(frac_mul((-1, 1), w) == negated) by (nonlinear_arith)
                requires
                    negated == (-w.0, w.1),
            ;
            assert(children_product(ns, 0) == negated);
            let nitems = seq![m, spec_simplify_tree(*y)];
            assert(simp_fits(m, leaf((-1, 1))));
            assert(forall|i: int| 0 <= i < nitems.len() ==> simp_fits(#[trigger] nitems[i], ns[i]));
            let nb = Valuation { value: negated, children: ns };
            assert(simp_fits(SimpTree::Multiply(nitems), nb));
            let cs = seq![bx, nb];
            assert(children_sum(cs, 2) == (0int, 1int));
            assert(children_sum(cs, 1) == frac_add(negated, (0, 1)));
            assert(children_sum(cs, 0) == frac_sub(u, w)) by (nonlinear_arith)
                requires
                    children_sum(cs, 0) == frac_add(u, frac_add(negated, (0, 1))),
                    negated == (-w.0, w.1),
            ;
            let items = seq![spec_simplify_tree(*x), SimpTree::Multiply(nitems)];
            assert(forall|i: int| 0 <= i < items.len() ==> simp_fits(#[trigger] items[i], cs[i]));
            Valuation { value: v, children: cs }
        },
        Tree::Divide(x, y) => {
            let bx = lemma_simplified_valuation(*x, c[0]);
            let by = lemma_simplified_valuation(*y, c[1]);
            let w = c[1].value;
            let u = c[0].value;
            let minus: Fraction = (-1, 1);
            let inverse: Fraction = (w.1, w.0);
            let m = SimpTree::Number(Number::Rational(-1i64, 1i64));
            vstd::arithmetic::power::lemma_pow1(w.0);
            vstd::arithmetic::power::lemma_pow1(w.1);
            assert(w.1 != 0) by {
                assert(same_value(v, frac_div(u, w)));
            }
            assert(power_value(w, minus, inverse));
            assert(simp_fits(m, leaf(minus)));
            let rb = Valuation { value: inverse, children: seq![by, leaf(minus)] };
            let r = SimpTree::Power(Box::new(spec_simplify_tree(*y)), Box::new(m));
            assert(simp_fits(r, rb));
            let cs = seq![bx, rb];
            assert(children_product(cs, 2) == (1int, 1int));
            assert(children_product(cs, 1) == frac_mul(inverse, (1, 1)));
            lemma_mul_one(inverse);
            assert(children_product(cs, 0) == frac_div(u, w));
            let items = seq![spec_simplify_tree(*x), r];
            assert(forall|i: int| 0 <= i < items.len() ==> simp_fits(#[trigger] items[i], cs[i]));
            Valuation { value: v, children: cs }
        },
    }
}

/// Simplifying a structured tree keeps its value: where the structured tree has an exact
/// rational value, the simplified tree has the same one. A subtraction becomes the sum with the
/// negation, a division the product with the reciprocal, and a square root the power one half.
pub proof fn lemma_simplify_keeps_value(t: Tree, v: Fraction)
    requires
        tree_value(t, v),
    ensures
        simp_value(spec_simplify_tree(t), v),
{
    let a = choose|a: Valuation| #[trigger] tree_fits(t, a) && same_value(a.value, v);
    let b = lemma_simplified_valuation(t, a);
    assert(simp_fits(spec_simplify_tree(t), b) && same_value(b.value, v));
}

} // verus!
