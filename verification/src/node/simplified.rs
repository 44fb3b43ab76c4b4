//! A simplified node tree, with fewer variants than a structured one. For example, `1 - 2` is just
//! `1 + (-1 * 2)`, so there is no subtraction node. This makes it easier to perform simplification
//! passes on the tree.

use vstd::prelude::*;

use core::cmp::Ordering;

use crate::error::MathsError;
use crate::node::function::Function;
use crate::node::structured::{StructuredNode, Tree};
use crate::number::{
    dec_eq, dec_lt, number_wf, spec_checked_add, spec_checked_mul, spec_powi, spec_to_decimal, spec_to_whole,
    Number,
};

verus! {

/// A simplified variant of a structured node: fewer variants which have the same meaning, which
/// makes an easier platform for mathematical reduction.
#[derive(PartialEq, Debug)]
pub enum SimplifiedNode {
    Number(Number),
    Variable(char),
    Multiply(Vec<SimplifiedNode>),
    Power(Box<SimplifiedNode>, Box<SimplifiedNode>),
    Add(Vec<SimplifiedNode>),
    /// A function call, with a sequence of arguments. Reductions treat it as an opaque value.
    FunctionCall(Function, Vec<SimplifiedNode>),
}

/// The mathematical value of a [SimplifiedNode].
pub enum SimpTree {
    Number(Number),
    Variable(char),
    Multiply(Seq<SimpTree>),
    Power(Box<SimpTree>, Box<SimpTree>),
    Add(Seq<SimpTree>),
    FunctionCall(Function, Seq<SimpTree>),
}

/// The models of a sequence of simplified nodes.
pub open spec fn simp_models(v: Seq<SimplifiedNode>) -> Seq<SimpTree>
    decreases v,
{
    Seq::new(v.len(), |i: int| if 0 <= i < v.len() { v[i].model() } else { SimpTree::Variable('x') })
}

impl SimplifiedNode {
    pub open spec fn model(&self) -> SimpTree
        decreases self,
    {
        match self {
            SimplifiedNode::Number(n) => SimpTree::Number(*n),
            SimplifiedNode::Variable(v) => SimpTree::Variable(*v),
            SimplifiedNode::Multiply(items) => SimpTree::Multiply(
                Seq::new(
                    items@.len(),
                    |i: int|
                        if 0 <= i < items@.len() {
                            items@[i].model()
                        } else {
                            SimpTree::Variable('x')
                        },
                ),
            ),
            SimplifiedNode::Power(b, e) => SimpTree::Power(Box::new(b.model()), Box::new(e.model())),
            SimplifiedNode::Add(items) => SimpTree::Add(
                Seq::new(
                    items@.len(),
                    |i: int|
                        if 0 <= i < items@.len() {
                            items@[i].model()
                        } else {
                            SimpTree::Variable('x')
                        },
                ),
            ),
            SimplifiedNode::FunctionCall(f, args) => SimpTree::FunctionCall(
                *f,
                Seq::new(
                    args@.len(),
                    |i: int|
                        if 0 <= i < args@.len() {
                            args@[i].model()
                        } else {
                            SimpTree::Variable('x')
                        },
                ),
            ),
        }
    }
}

impl View for SimplifiedNode {
    type V = SimpTree;

    open spec fn view(&self) -> SimpTree {
        self.model()
    }
}

/// Minus one.
pub open spec fn minus_one() -> Number {
    Number::Rational(-1i64, 1i64)
}

/// A node multiplied by minus one.
pub open spec fn spec_negate(t: SimpTree) -> SimpTree {
    SimpTree::Multiply(seq![SimpTree::Number(minus_one()), t])
}

/// A node raised to the power of minus one.
pub open spec fn spec_reciprocal(t: SimpTree) -> SimpTree {
    SimpTree::Power(Box::new(t), Box::new(SimpTree::Number(minus_one())))
}

/// The simplified tree of a structured tree: a subtraction adds the negation, a division
/// multiplies by the reciprocal, a square root is a power of one half, and parentheses vanish.
pub open spec fn spec_simplify_tree(t: Tree) -> SimpTree
    decreases t,
{
    match t {
        Tree::Number(n) => SimpTree::Number(n),
        Tree::Variable(v) => SimpTree::Variable(v),
        Tree::Add(l, r) => SimpTree::Add(seq![spec_simplify_tree(*l), spec_simplify_tree(*r)]),
        Tree::Subtract(l, r) => SimpTree::Add(seq![spec_simplify_tree(*l), spec_negate(spec_simplify_tree(*r))]),
        Tree::Multiply(l, r) => SimpTree::Multiply(seq![spec_simplify_tree(*l), spec_simplify_tree(*r)]),
        Tree::Divide(l, r) => SimpTree::Multiply(seq![spec_simplify_tree(*l), spec_reciprocal(spec_simplify_tree(*r))]),
        Tree::Sqrt(n) => SimpTree::Power(Box::new(spec_simplify_tree(*n)), Box::new(SimpTree::Number(Number::Rational(1i64, 2i64)))),
        Tree::Power(b, e) => SimpTree::Power(Box::new(spec_simplify_tree(*b)), Box::new(spec_simplify_tree(*e))),
        Tree::FunctionCall(f, args) => SimpTree::FunctionCall(
            f,
            Seq::new(
                args.len(),
                |i: int|
                    if 0 <= i < args.len() {
                        spec_simplify_tree(args[i])
                    } else {
                        SimpTree::Variable('x')
                    },
            ),
        ),
        Tree::Parentheses(n) => spec_simplify_tree(*n),
    }
}

impl SimplifiedNode {
    /// A copy of this node tree.
    pub fn copy(&self) -> (r: Self)
        ensures
            r@ == self@,
        decreases self,
    {
        match self {
            SimplifiedNode::Number(n) => SimplifiedNode::Number(*n),
            SimplifiedNode::Variable(v) => SimplifiedNode::Variable(*v),
            SimplifiedNode::Power(b, e) => SimplifiedNode::Power(Box::new(b.copy()), Box::new(e.copy())),
            SimplifiedNode::Multiply(items) => {
                let c = copy_items(items);
                let r = SimplifiedNode::Multiply(c);
                proof {
                    assert(r@->Multiply_0 =~= self@->Multiply_0);
                }
                r
            },
            SimplifiedNode::Add(items) => {
                let c = copy_items(items);
                let r = SimplifiedNode::Add(c);
                proof {
                    assert(r@->Add_0 =~= self@->Add_0);
                }
                r
            },
            SimplifiedNode::FunctionCall(f, args) => {
                let c = copy_items(args);
                let r = SimplifiedNode::FunctionCall(*f, c);
                proof {
                    assert(r@->FunctionCall_1 =~= self@->FunctionCall_1);
                }
                r
            },
        }
    }

    /// Returns a new node: a multiplication of this node by -1.
    pub fn negate(self) -> (r: SimplifiedNode)
        ensures
            r@ == spec_negate(self@),
    {
        let ghost t = self@;
        let m = number_node(Number::Rational(-1, 1));
        let r = SimplifiedNode::Multiply(vec![m, self]);
        proof {
            assert(r@->Multiply_0 =~= spec_negate(t)->Multiply_0);
        }
        r
    }

    /// Returns a new node: this node raised to the power -1.
    pub fn reciprocal(self) -> (r: SimplifiedNode)
        ensures
            r@ == spec_reciprocal(self@),
    {
        SimplifiedNode::Power(Box::new(self), Box::new(number_node(Number::Rational(-1, 1))))
    }
}

/// A number node.
fn number_node(n: Number) -> (r: SimplifiedNode)
    ensures
        r@ == SimpTree::Number(n),
{
    SimplifiedNode::Number(n)
}

/// Copies a sequence of nodes.
fn copy_items(items: &Vec<SimplifiedNode>) -> (r: Vec<SimplifiedNode>)
    ensures
        r@.len() == items@.len(),
        forall|i: int| 0 <= i < items@.len() ==> (#[trigger] r@[i])@ == items@[i]@,
    decreases items,
{
    let mut r: Vec<SimplifiedNode> = Vec::new();
    let mut i: usize = 0;
    while i < items.len()
        invariant
            i <= items@.len(),
            r@.len() == i,
            forall|j: int| 0 <= j < i ==> (#[trigger] r@[j])@ == items@[j]@,
        decreases items@.len() - i,
    {
        proof {
            assert(decreases_to!(items => items@[i as int]));
        }
        r.push(items[i].copy());
        i = i + 1;
    }
    r
}

impl Clone for SimplifiedNode {
    fn clone(&self) -> (r: Self)
        ensures
            r@ == self@,
    {
        self.copy()
    }
}

/// Implemented by node trees which can be converted into a simplified node tree.
pub trait Simplifiable {
    /// The simplified tree which this converts into.
    spec fn spec_simplified(&self) -> SimpTree;

    /// Converts this node into a [SimplifiedNode] tree. This does no simplification beyond the
    /// conversion; the methods of [SimplifiedNode] can do that.
    fn simplify(&self) -> (r: SimplifiedNode)
        ensures
            r@ == self.spec_simplified(),
    ;
}

/// Converts a structured tree into a simplified one.
fn simplify_structured(n: &StructuredNode) -> (r: SimplifiedNode)
    ensures
        r@ == spec_simplify_tree(n@),
    decreases n,
{
    match n {
        StructuredNode::Number(x) => SimplifiedNode::Number(*x),
        StructuredNode::Variable(v) => SimplifiedNode::Variable(*v),
        StructuredNode::Add(l, r) => {
            let (a, b) = (simplify_structured(l), simplify_structured(r));
            let ghost parts = seq![a@, b@];
            let res = SimplifiedNode::Add(vec![a, b]);
            assert(res@->Add_0 =~= parts);
            res
        },
        StructuredNode::Subtract(l, r) => {
            let (a, b) = (simplify_structured(l), simplify_structured(r).negate());
            let ghost parts = seq![a@, b@];
            let res = SimplifiedNode::Add(vec![a, b]);
            assert(res@->Add_0 =~= parts);
            res
        },
        StructuredNode::Multiply(l, r) => {
            let (a, b) = (simplify_structured(l), simplify_structured(r));
            let ghost parts = seq![a@, b@];
            let res = SimplifiedNode::Multiply(vec![a, b]);
            assert(res@->Multiply_0 =~= parts);
            res
        },
        StructuredNode::Divide(l, r) => {
            let (a, b) = (simplify_structured(l), simplify_structured(r).reciprocal());
            let ghost parts = seq![a@, b@];
            let res = SimplifiedNode::Multiply(vec![a, b]);
            assert(res@->Multiply_0 =~= parts);
            res
        },
        StructuredNode::Sqrt(x) => SimplifiedNode::Power(
            Box::new(simplify_structured(x)),
            Box::new(number_node(Number::Rational(1, 2))),
        ),
        StructuredNode::Power(b, e) => SimplifiedNode::Power(Box::new(simplify_structured(b)), Box::new(simplify_structured(e))),
        StructuredNode::FunctionCall(f, args) => {
            let mut items: Vec<SimplifiedNode> = Vec::new();
            let mut i: usize = 0;
            while i < args.len()
                invariant
                    i <= args@.len(),
                    *n == StructuredNode::FunctionCall(*f, *args),
                    items@.len() == i,
                    forall|j: int| 0 <= j < i ==> (#[trigger] items@[j])@ == spec_simplify_tree(args@[j]@),
                decreases args@.len() - i,
            {
                proof {
                    assert(decreases_to!(*n => n->FunctionCall_1));
                    assert(decreases_to!(n->FunctionCall_1 => args[i as int]));
                }
                items.push(simplify_structured(&args[i]));
                i = i + 1;
            }
            let res = SimplifiedNode::FunctionCall(*f, items);
            proof {
                assert(res@->FunctionCall_1 =~= spec_simplify_tree(n@)->FunctionCall_1);
            }
            res
        },
        StructuredNode::Parentheses(x) => simplify_structured(x),
    }
}

impl Simplifiable for StructuredNode {
    open spec fn spec_simplified(&self) -> SimpTree {
        spec_simplify_tree(self@)
    }

    fn simplify(&self) -> (r: SimplifiedNode) {
        simplify_structured(self)
    }
}

/// A position as an integer.
pub open spec fn index(i: usize) -> int {
    i as int
}

/// A number which can be ordered: within its limits, and not a rational over zero.
pub open spec fn simp_number_ok(n: Number) -> bool {
    number_wf(n) && (n matches Number::Rational(_, d) ==> d != 0)
}

/// Every number in the tree can be ordered.
pub open spec fn simp_wf(t: SimpTree) -> bool
    decreases t,
{
    match t {
        SimpTree::Number(n) => simp_number_ok(n),
        SimpTree::Variable(_) => true,
        SimpTree::Multiply(s) => forall|i: int| 0 <= i < s.len() ==> simp_wf(#[trigger] s[i]),
        SimpTree::Add(s) => forall|i: int| 0 <= i < s.len() ==> simp_wf(#[trigger] s[i]),
        SimpTree::FunctionCall(_, s) => forall|i: int| 0 <= i < s.len() ==> simp_wf(#[trigger] s[i]),
        SimpTree::Power(b, e) => simp_wf(*b) && simp_wf(*e),
    }
}

/// The order of two numbers, by the values of their decimals.
pub open spec fn number_order(a: Number, b: Number) -> Ordering {
    let x = spec_to_decimal(a).unwrap();
    let y = spec_to_decimal(b).unwrap();
    if x.less_than(y) {
        Ordering::Less
    } else if x.same_value(y) {
        Ordering::Equal
    } else {
        Ordering::Greater
    }
}

/// The position of a variant in the order of the variants.
pub open spec fn variant_rank(t: SimpTree) -> int {
    match t {
        SimpTree::Number(_) => 0,
        SimpTree::Variable(_) => 1,
        SimpTree::Multiply(_) => 2,
        SimpTree::Power(_, _) => 3,
        SimpTree::Add(_) => 4,
        SimpTree::FunctionCall(_, _) => 5,
    }
}

/// The order of two nodes: numbers by value, variables by name, sums and products by their
/// items in turn, powers by base and then exponent, and otherwise by variant.
pub open spec fn node_order(a: SimpTree, b: SimpTree) -> Ordering
    decreases a, 0int,
{
    match (a, b) {
        (SimpTree::Number(l), SimpTree::Number(r)) => number_order(l, r),
        (SimpTree::Variable(l), SimpTree::Variable(r)) => if l < r {
            Ordering::Less
        } else if l == r {
            Ordering::Equal
        } else {
            Ordering::Greater
        },
        (SimpTree::Add(l), SimpTree::Add(r)) => items_order(l, r, 0),
        (SimpTree::Multiply(l), SimpTree::Multiply(r)) => items_order(l, r, 0),
        (SimpTree::Power(lb, le), SimpTree::Power(rb, re)) => match node_order(*lb, *rb) {
            Ordering::Equal => node_order(*le, *re),
            o => o,
        },
        _ => if variant_rank(a) < variant_rank(b) {
            Ordering::Less
        } else if variant_rank(a) == variant_rank(b) {
            Ordering::Equal
        } else {
            Ordering::Greater
        },
    }
}

/// The order of two sequences of nodes from position `i`: by their items in turn, and a
/// sequence which runs out first comes first.
pub open spec fn items_order(a: Seq<SimpTree>, b: Seq<SimpTree>, i: int) -> Ordering
    decreases a, a.len() - i,
{
    if i < 0 || (i >= a.len() && i >= b.len()) {
        Ordering::Equal
    } else if i >= a.len() {
        Ordering::Less
    } else if i >= b.len() {
        Ordering::Greater
    } else {
        match node_order(a[i], b[i]) {
            Ordering::Equal => items_order(a, b, i + 1),
            o => o,
        }
    }
}

/// The first node comes strictly after the second.
pub open spec fn comes_after(a: SimpTree, b: SimpTree) -> bool {
    node_order(a, b) == Ordering::Greater
}

impl Number {
    /// Orders two numbers by the values of their decimals.
    pub fn compare(&self, other: &Number) -> (r: Ordering)
        requires
            simp_number_ok(*self),
            simp_number_ok(*other),
        ensures
            r == number_order(*self, *other),
    {
        compare_numbers(*self, *other)
    }
}

/// Compares two numbers by value.
fn compare_numbers(a: Number, b: Number) -> (r: Ordering)
    requires
        simp_number_ok(a),
        simp_number_ok(b),
    ensures
        r == number_order(a, b),
{
    let x = match a.try_to_decimal() {
        Some(x) => x,
        None => vstd::pervasive::unreached(),
    };
    let y = match b.try_to_decimal() {
        Some(y) => y,
        None => vstd::pervasive::unreached(),
    };
    if dec_lt(x, y) {
        Ordering::Less
    } else if dec_eq(x, y) {
        Ordering::Equal
    } else {
        Ordering::Greater
    }
}

impl SimplifiedNode {
    /// The position of this node's variant in the order of the variants.
    fn rank(&self) -> (r: u8)
        ensures
            r == variant_rank(self@),
    {
        match self {
            SimplifiedNode::Number(_) => 0,
            SimplifiedNode::Variable(_) => 1,
            SimplifiedNode::Multiply(_) => 2,
            SimplifiedNode::Power(_, _) => 3,
            SimplifiedNode::Add(_) => 4,
            SimplifiedNode::FunctionCall(_, _) => 5,
        }
    }

    /// Orders nodes based on their type and, if they have one, their value.
    pub fn compare(&self, other: &Self) -> (r: Ordering)
        requires
            simp_wf(self@),
            simp_wf(other@),
        ensures
            r == node_order(self@, other@),
        decreases self,
    {
        match (self, other) {
            (SimplifiedNode::Number(l), SimplifiedNode::Number(r)) => compare_numbers(*l, *r),
            (SimplifiedNode::Variable(l), SimplifiedNode::Variable(r)) => if *l < *r {
                Ordering::Less
            } else if *l == *r {
                Ordering::Equal
            } else {
                Ordering::Greater
            },
            (SimplifiedNode::Add(l), SimplifiedNode::Add(r)) => {
                proof {
                    assert(self@->Add_0 =~= simp_models(l@));
                    assert(other@->Add_0 =~= simp_models(r@));
                    assert forall|i: int| 0 <= i < l@.len() implies simp_wf(#[trigger] simp_models(l@)[i]) by {
                        assert(simp_wf(self@));
                        assert(simp_models(l@)[i] == self@->Add_0[i]);
                    }
                }
                compare_items(l, r)
            },
            (SimplifiedNode::Multiply(l), SimplifiedNode::Multiply(r)) => {
                proof {
                    assert(self@->Multiply_0 =~= simp_models(l@));
                    assert(other@->Multiply_0 =~= simp_models(r@));
                    assert forall|i: int| 0 <= i < l@.len() implies simp_wf(#[trigger] simp_models(l@)[i]) by {
                        assert(simp_wf(self@));
                        assert(simp_models(l@)[i] == self@->Multiply_0[i]);
                    }
                }
                compare_items(l, r)
            },
            (SimplifiedNode::Power(lb, le), SimplifiedNode::Power(rb, re)) => match lb.compare(rb) {
                Ordering::Equal => le.compare(re),
                o => o,
            },
            _ => {
                let (a, b) = (self.rank(), other.rank());
                if a < b {
                    Ordering::Less
                } else if a == b {
                    Ordering::Equal
                } else {
                    Ordering::Greater
                }
            },
        }
    }
}

/// Compares two sequences of nodes by their items in turn.
fn compare_items(a: &Vec<SimplifiedNode>, b: &Vec<SimplifiedNode>) -> (r: Ordering)
    requires
        forall|i: int| 0 <= i < a@.len() ==> simp_wf(#[trigger] simp_models(a@)[i]),
        forall|i: int| 0 <= i < b@.len() ==> simp_wf(#[trigger] simp_models(b@)[i]),
    ensures
        r == items_order(simp_models(a@), simp_models(b@), 0),
    decreases a,
{
    let ghost ma = simp_models(a@);
    let ghost mb = simp_models(b@);
    let mut i: usize = 0;
    while i < a.len() && i < b.len()
        invariant
            i <= a@.len(),
            i <= b@.len(),
            ma == simp_models(a@),
            mb == simp_models(b@),
            forall|k: int| 0 <= k < a@.len() ==> simp_wf(#[trigger] ma[k]),
            forall|k: int| 0 <= k < b@.len() ==> simp_wf(#[trigger] mb[k]),
            items_order(ma, mb, 0) == items_order(ma, mb, index(i)),
        decreases a@.len() - i,
    {
        proof {
            assert(decreases_to!(a => a@[index(i)]));
            assert(ma[index(i)] == a@[index(i)]@);
            assert(mb[index(i)] == b@[index(i)]@);
        }
        match a[i].compare(&b[i]) {
            Ordering::Equal => {},
            o => {
                return o;
            },
        }
        i = i + 1;
    }
    if i < a.len() {
        Ordering::Greater
    } else if i < b.len() {
        Ordering::Less
    } else {
        Ordering::Equal
    }
}

/// Returns true if the first node comes strictly after the second.
fn node_comes_after(a: &SimplifiedNode, b: &SimplifiedNode) -> (r: bool)
    requires
        simp_wf(a@),
        simp_wf(b@),
    ensures
        r == comes_after(a@, b@),
{
    matches!(a.compare(b), Ordering::Greater)
}

/// The positions of a sorted sequence with the item at position `x` inserted: after every
/// position whose item does not come after it, scanning from the end.
pub open spec fn insert_index(items: Seq<SimpTree>, s: Seq<int>, x: int) -> Seq<int>
    decreases s.len(),
{
    if s.len() == 0 {
        seq![x]
    } else if comes_after(items[s.last()], items[x]) {
        insert_index(items, s.drop_last(), x).push(s.last())
    } else {
        s.push(x)
    }
}

/// The positions of the first `n` items in sorted order: each is inserted in turn, so that items
/// which compare equal keep their order.
pub open spec fn sort_indices(items: Seq<SimpTree>, n: int) -> Seq<int>
    decreases n,
{
    if n <= 0 {
        Seq::empty()
    } else {
        insert_index(items, sort_indices(items, n - 1), n - 1)
    }
}

/// The items in sorted order.
pub open spec fn level_sorted(items: Seq<SimpTree>) -> Seq<SimpTree> {
    let p = sort_indices(items, items.len() as int);
    Seq::new(p.len(), |k: int| if 0 <= p[k] < items.len() { items[p[k]] } else { SimpTree::Variable('x') })
}

/// The items in sorted order, each sorted in turn.
pub open spec fn sorted_items(items: Seq<SimpTree>) -> Seq<SimpTree>
    decreases items, 0int,
{
    let p = sort_indices(items, items.len() as int);
    Seq::new(
        p.len(),
        |k: int|
            if 0 <= p[k] < items.len() {
                spec_sorted_tree(items[p[k]])
            } else {
                SimpTree::Variable('x')
            },
    )
}

/// The whole tree sorted: the items of each sum and product are put in order (compared as they
/// were before sorting), and then each is sorted.
pub open spec fn spec_sorted_tree(t: SimpTree) -> SimpTree
    decreases t, 1int,
{
    match t {
        SimpTree::Add(items) => SimpTree::Add(sorted_items(items)),
        SimpTree::Multiply(items) => SimpTree::Multiply(sorted_items(items)),
        SimpTree::Power(b, e) => SimpTree::Power(Box::new(spec_sorted_tree(*b)), Box::new(spec_sorted_tree(*e))),
        _ => t,
    }
}

/// Just the top level of the tree sorted.
pub open spec fn spec_sort_one_level(t: SimpTree) -> SimpTree {
    match t {
        SimpTree::Add(items) => SimpTree::Add(level_sorted(items)),
        SimpTree::Multiply(items) => SimpTree::Multiply(level_sorted(items)),
        _ => t,
    }
}

/// Inserting keeps every position within bounds, and adds one position.
proof fn lemma_insert_index(items: Seq<SimpTree>, s: Seq<int>, x: int, bound: int)
    requires
        0 <= x < bound,
        forall|k: int| 0 <= k < s.len() ==> 0 <= #[trigger] s[k] < bound,
    ensures
        insert_index(items, s, x).len() == s.len() + 1,
        forall|k: int| 0 <= k < s.len() + 1 ==> 0 <= #[trigger] insert_index(items, s, x)[k] < bound,
    decreases s.len(),
{
    if s.len() > 0 && comes_after(items[s.last()], items[x]) {
        lemma_insert_index(items, s.drop_last(), x, bound);
    }
}

/// The sorted positions of the first `n` items are `n` positions below `n`.
proof fn lemma_sort_indices(items: Seq<SimpTree>, n: int)
    requires
        n >= 0,
    ensures
        sort_indices(items, n).len() == n,
        forall|k: int| 0 <= k < n ==> 0 <= #[trigger] sort_indices(items, n)[k] < n,
    decreases n,
{
    if n > 0 {
        lemma_sort_indices(items, n - 1);
        lemma_insert_index(items, sort_indices(items, n - 1), n - 1, n);
    }
}

/// Positions as integers.
pub open spec fn ints(p: Seq<usize>) -> Seq<int> {
    Seq::new(p.len(), |k: int| p[k] as int)
}

/// The order in which to put a sequence of nodes: the positions of its items, sorted.
fn sort_order(items: &Vec<SimplifiedNode>) -> (p: Vec<usize>)
    requires
        forall|i: int| 0 <= i < items@.len() ==> simp_wf(#[trigger] simp_models(items@)[i]),
    ensures
        ints(p@) == sort_indices(simp_models(items@), items@.len() as int),
        p@.len() == items@.len(),
        forall|k: int| 0 <= k < p@.len() ==> #[trigger] p@[k] < items@.len(),
{
    let ghost m = simp_models(items@);
    let mut p: Vec<usize> = Vec::new();
    let mut i: usize = 0;
    while i < items.len()
        invariant
            i <= items@.len(),
            m == simp_models(items@),
            forall|k: int| 0 <= k < items@.len() ==> simp_wf(#[trigger] m[k]),
            ints(p@) == sort_indices(m, i as int),
            p@.len() == i,
            forall|k: int| 0 <= k < p@.len() ==> #[trigger] p@[k] < i,
        decreases items@.len() - i,
    {
        let ghost s = ints(p@);
        let mut j: usize = p.len();
        proof {
            assert(s.take(j as int) =~= s);
            assert(insert_index(m, s, i as int) + s.skip(j as int) =~= insert_index(m, s, i as int));
        }
        while j > 0 && node_comes_after(&items[p[j - 1]], &items[i])
            invariant
                j <= p@.len(),
                i < items@.len(),
                p@.len() == i,
                s == ints(p@),
                m == simp_models(items@),
                forall|k: int| 0 <= k < items@.len() ==> simp_wf(#[trigger] m[k]),
                forall|k: int| 0 <= k < p@.len() ==> #[trigger] p@[k] < i,
                insert_index(m, s, i as int) == insert_index(m, s.take(j as int), i as int) + s.skip(j as int),
            decreases j,
        {
            proof {
                assert(m[p@[j - 1] as int] == items@[p@[j - 1] as int]@);
                assert(m[i as int] == items@[i as int]@);
                assert(s.take(j as int).drop_last() =~= s.take(j - 1));
                assert(s.take(j as int).last() == s[j - 1]);
                assert(insert_index(m, s.take(j - 1), i as int) + s.skip(j - 1) =~= insert_index(
                    m,
                    s.take(j - 1),
                    i as int,
                ).push(s[j - 1]) + s.skip(j as int));
            }
            j = j - 1;
        }
        proof {
            if j > 0 {
                assert(m[p@[j - 1] as int] == items@[p@[j - 1] as int]@);
                assert(s.take(j as int).last() == s[j - 1]);
            }
            assert(s.take(j as int).push(i as int) + s.skip(j as int) =~= s.insert(j as int, i as int));
        }
        p.insert(j, i);
        proof {
            assert(ints(p@) =~= s.insert(j as int, i as int));
        }
        i = i + 1;
    }
    p
}

/// Copies the items of a sequence in sorted order.
fn level_sorted_items(items: &Vec<SimplifiedNode>) -> (r: Vec<SimplifiedNode>)
    requires
        forall|i: int| 0 <= i < items@.len() ==> simp_wf(#[trigger] simp_models(items@)[i]),
    ensures
        simp_models(r@) == level_sorted(simp_models(items@)),
{
    let ghost m = simp_models(items@);
    let p = sort_order(items);
    let mut r: Vec<SimplifiedNode> = Vec::new();
    let mut k: usize = 0;
    while k < p.len()
        invariant
            k <= p@.len(),
            p@.len() == items@.len(),
            m == simp_models(items@),
            ints(p@) == sort_indices(m, items@.len() as int),
            forall|t: int| 0 <= t < p@.len() ==> #[trigger] p@[t] < items@.len(),
            r@.len() == k,
            forall|t: int| 0 <= t < k ==> (#[trigger] r@[t])@ == m[p@[t] as int],
        decreases p@.len() - k,
    {
        r.push(items[p[k]].copy());
        k = k + 1;
    }
    proof {
        assert(simp_models(r@) =~= level_sorted(m));
    }
    r
}

/// Sorts the items of a sequence, and then each item.
fn sorted_children(items: &Vec<SimplifiedNode>) -> (r: Vec<SimplifiedNode>)
    requires
        forall|i: int| 0 <= i < items@.len() ==> simp_wf(#[trigger] simp_models(items@)[i]),
    ensures
        simp_models(r@) == sorted_items(simp_models(items@)),
    decreases simp_models(items@), 0int,
{
    let ghost m = simp_models(items@);
    let p = sort_order(items);
    let mut r: Vec<SimplifiedNode> = Vec::new();
    let mut k: usize = 0;
    while k < p.len()
        invariant
            k <= p@.len(),
            p@.len() == items@.len(),
            m == simp_models(items@),
            forall|i: int| 0 <= i < items@.len() ==> simp_wf(#[trigger] m[i]),
            ints(p@) == sort_indices(m, items@.len() as int),
            forall|t: int| 0 <= t < p@.len() ==> #[trigger] p@[t] < items@.len(),
            r@.len() == k,
            forall|t: int| 0 <= t < k ==> (#[trigger] r@[t])@ == spec_sorted_tree(m[p@[t] as int]),
        decreases p@.len() - k,
    {
        let idx = p[k];
        proof {
            assert(m[idx as int] == items@[idx as int]@);
            assert(decreases_to!(m => m[idx as int]));
        }
        r.push(items[idx].sorted());
        k = k + 1;
    }
    proof {
        assert(simp_models(r@) =~= sorted_items(m));
    }
    r
}

impl SimplifiedNode {
    /// A copy of this tree, sorted: see [sort](SimplifiedNode::sort).
    pub fn sorted(&self) -> (r: SimplifiedNode)
        requires
            simp_wf(self@),
        ensures
            r@ == spec_sorted_tree(self@),
        decreases self@, 1int,
    {
        match self {
            SimplifiedNode::Add(items) => {
                proof {
                    assert(self@->Add_0 =~= simp_models(items@));
                }
                let c = sorted_children(items);
                let r = SimplifiedNode::Add(c);
                proof {
                    assert(r@->Add_0 =~= simp_models(c@));
                }
                r
            },
            SimplifiedNode::Multiply(items) => {
                proof {
                    assert(self@->Multiply_0 =~= simp_models(items@));
                }
                let c = sorted_children(items);
                let r = SimplifiedNode::Multiply(c);
                proof {
                    assert(r@->Multiply_0 =~= simp_models(c@));
                }
                r
            },
            SimplifiedNode::Power(b, e) => SimplifiedNode::Power(Box::new(b.sorted()), Box::new(e.sorted())),
            _ => self.copy(),
        }
    }

    /// Sorts the entire node tree: the items of each sum and product are put in order, and then
    /// each item is sorted.
    pub fn sort(&mut self)
        requires
            simp_wf(old(self)@),
        ensures
            final(self)@ == spec_sorted_tree(old(self)@),
    {
        let s = self.sorted();
        *self = s;
    }

    /// Sorts just this level of the node tree. Child items are not recursed into.
    pub fn sort_one_level(&mut self)
        requires
            simp_wf(old(self)@),
        ensures
            final(self)@ == spec_sort_one_level(old(self)@),
    {
        let s = match &*self {
            SimplifiedNode::Add(items) => {
                proof {
                    assert(self@->Add_0 =~= simp_models(items@));
                }
                let v = level_sorted_items(items);
                let r = SimplifiedNode::Add(v);
                proof {
                    assert(r@->Add_0 =~= simp_models(v@));
                }
                r
            },
            SimplifiedNode::Multiply(items) => {
                proof {
                    assert(self@->Multiply_0 =~= simp_models(items@));
                }
                let v = level_sorted_items(items);
                let r = SimplifiedNode::Multiply(v);
                proof {
                    assert(r@->Multiply_0 =~= simp_models(v@));
                }
                r
            },
            _ => self.copy(),
        };
        *self = s;
    }
}

/// The items which a flattened item gives a sum (`add`) or a product: its own items where it is
/// of the same kind, and otherwise itself.
pub open spec fn flattened_piece(f: SimpTree, add: bool) -> Seq<SimpTree> {
    match f {
        SimpTree::Add(c) => if add {
            c
        } else {
            seq![f]
        },
        SimpTree::Multiply(c) => if !add {
            c
        } else {
            seq![f]
        },
        _ => seq![f],
    }
}

/// The first `k` items of a sum (`add`) or a product, flattened.
pub open spec fn flatten_items(items: Seq<SimpTree>, add: bool, k: int) -> Seq<SimpTree>
    decreases items, k,
{
    if k <= 0 || k > items.len() {
        Seq::empty()
    } else {
        flatten_items(items, add, k - 1) + flattened_piece(spec_flatten(items[k - 1]), add)
    }
}

/// The tree with nested sums and products merged into their parents: `1 + (2 + (3 + 4)) + 5`
/// becomes `1 + 2 + 3 + 4 + 5`.
pub open spec fn spec_flatten(t: SimpTree) -> SimpTree
    decreases t, 1int,
{
    match t {
        SimpTree::Add(items) => SimpTree::Add(flatten_items(items, true, items.len() as int)),
        SimpTree::Multiply(items) => SimpTree::Multiply(flatten_items(items, false, items.len() as int)),
        SimpTree::Power(b, e) => SimpTree::Power(Box::new(spec_flatten(*b)), Box::new(spec_flatten(*e))),
        _ => t,
    }
}

/// Appends copies of nodes.
fn push_copies(r: &mut Vec<SimplifiedNode>, c: &Vec<SimplifiedNode>)
    ensures
        simp_models(final(r)@) == simp_models(old(r)@) + simp_models(c@),
{
    let ghost start = simp_models(r@);
    let mut i: usize = 0;
    while i < c.len()
        invariant
            i <= c@.len(),
            simp_models(r@) == start + simp_models(c@).take(i as int),
        decreases c@.len() - i,
    {
        let ghost before = simp_models(r@);
        let x = c[i].copy();
        r.push(x);
        proof {
            assert(simp_models(r@) =~= before.push(c@[i as int]@));
            assert(simp_models(c@).take(i + 1) =~= simp_models(c@).take(i as int).push(c@[i as int]@));
        }
        i = i + 1;
    }
    proof {
        assert(simp_models(c@).take(i as int) =~= simp_models(c@));
    }
}

/// Flattens the items of a sum (`add`) or a product.
fn flatten_children(items: &Vec<SimplifiedNode>, add: bool) -> (r: Vec<SimplifiedNode>)
    ensures
        simp_models(r@) == flatten_items(simp_models(items@), add, items@.len() as int),
    decreases simp_models(items@), 0int,
{
    let ghost m = simp_models(items@);
    let mut r: Vec<SimplifiedNode> = Vec::new();
    let mut i: usize = 0;
    while i < items.len()
        invariant
            i <= items@.len(),
            m == simp_models(items@),
            simp_models(r@) == flatten_items(m, add, i as int),
        decreases items@.len() - i,
    {
        proof {
            assert(m[i as int] == items@[i as int]@);
            assert(decreases_to!(m => m[i as int]));
        }
        let f = items[i].flattened();
        let ghost before = simp_models(r@);
        match &f {
            SimplifiedNode::Add(c) if add => {
                proof {
                    assert(f@->Add_0 =~= simp_models(c@));
                }
                push_copies(&mut r, c);
            },
            SimplifiedNode::Multiply(c) if !add => {
                proof {
                    assert(f@->Multiply_0 =~= simp_models(c@));
                }
                push_copies(&mut r, c);
            },
            _ => {
                r.push(f.copy());
                proof {
                    assert(simp_models(r@) =~= before + seq![f@]);
                }
            },
        }
        i = i + 1;
    }
    r
}

impl SimplifiedNode {
    /// A copy of this tree, flattened: see [flatten](SimplifiedNode::flatten).
    fn flattened(&self) -> (r: SimplifiedNode)
        ensures
            r@ == spec_flatten(self@),
        decreases self@, 1int,
    {
        match self {
            SimplifiedNode::Add(items) => {
                proof {
                    assert(self@->Add_0 =~= simp_models(items@));
                }
                let c = flatten_children(items, true);
                let r = SimplifiedNode::Add(c);
                proof {
                    assert(r@->Add_0 =~= simp_models(c@));
                }
                r
            },
            SimplifiedNode::Multiply(items) => {
                proof {
                    assert(self@->Multiply_0 =~= simp_models(items@));
                }
                let c = flatten_children(items, false);
                let r = SimplifiedNode::Multiply(c);
                proof {
                    assert(r@->Multiply_0 =~= simp_models(c@));
                }
                r
            },
            SimplifiedNode::Power(b, e) => SimplifiedNode::Power(Box::new(b.flattened()), Box::new(e.flattened())),
            _ => self.copy(),
        }
    }

    /// Converts nested `Add` and `Multiply` nodes into a single node, recursively through the whole
    /// node tree. For example, `1 + (2 + (3 + 4)) + 5` becomes `1 + 2 + 3 + 4 + 5`.
    pub fn flatten(self) -> (r: SimplifiedNode)
        ensures
            r@ == spec_flatten(self@),
    {
        self.flattened()
    }
}

/// Whether a reduction changed anything.
#[derive(PartialEq, Eq, Debug, Copy, Clone)]
pub enum ReductionStatus {
    PerformedReduction,
    NoReduction,
}

/// Why a reduction could not be completed.
#[derive(PartialEq, Eq, Debug, Copy, Clone)]
pub enum ReductionError {
    /// An arithmetic operation failed.
    Maths(MathsError),
    /// The reduction needed is not supported: raising a number to a power which is not whole,
    /// or raising a sum, product or power to a power.
    Unsupported,
}

/// The result of a reduction: the reduced tree and whether anything changed, or an error.
pub type Reduced = Result<(SimpTree, ReductionStatus), ReductionError>;

/// Every number in the tree is within its limits.
pub open spec fn simp_numbers_wf(t: SimpTree) -> bool
    decreases t,
{
    match t {
        SimpTree::Number(n) => number_wf(n),
        SimpTree::Variable(_) => true,
        SimpTree::Multiply(s) => forall|i: int| 0 <= i < s.len() ==> simp_numbers_wf(#[trigger] s[i]),
        SimpTree::Add(s) => forall|i: int| 0 <= i < s.len() ==> simp_numbers_wf(#[trigger] s[i]),
        SimpTree::FunctionCall(_, s) => forall|i: int| 0 <= i < s.len() ==> simp_numbers_wf(#[trigger] s[i]),
        SimpTree::Power(b, e) => simp_numbers_wf(*b) && simp_numbers_wf(*e),
    }
}

/// A number raised to the power of a number which must be whole.
pub open spec fn number_power(base: Number, exp: Number) -> Result<SimpTree, ReductionError> {
    if exp matches Number::Rational(p, q) && (q == 0 || (p == i64::MIN && q == -1)) {
        Err(ReductionError::Maths(MathsError::Overflow))
    } else {
        match spec_to_whole(exp) {
            Some(w) => match spec_powi(base, w) {
                Ok(n) => Ok(SimpTree::Number(n)),
                Err(e) => Err(ReductionError::Maths(e)),
            },
            None => Err(ReductionError::Unsupported),
        }
    }
}

/// The reduction of a power whose base and exponent are reduced: a number raised to a number is
/// computed, and a variable or function call raised to anything is kept.
pub open spec fn reduce_power(b: SimpTree, e: SimpTree) -> Reduced {
    match b {
        SimpTree::Number(base) => match e {
            SimpTree::Number(exp) => match number_power(base, exp) {
                Ok(t) => Ok((t, ReductionStatus::NoReduction)),
                Err(x) => Err(x),
            },
            _ => Ok((SimpTree::Power(Box::new(b), Box::new(e)), ReductionStatus::NoReduction)),
        },
        SimpTree::Variable(_) | SimpTree::FunctionCall(_, _) => Ok(
            (SimpTree::Power(Box::new(b), Box::new(e)), ReductionStatus::NoReduction),
        ),
        _ => Err(ReductionError::Unsupported),
    }
}

/// The position of the first item from `i` on which is not a number.
pub open spec fn leading_numbers(v: Seq<SimpTree>, i: int) -> int
    decreases v.len() - i,
{
    if 0 <= i < v.len() && v[i] is Number {
        leading_numbers(v, i + 1)
    } else {
        i
    }
}

/// The product of the first `k` items, which are numbers, starting from one.
pub open spec fn spec_product(v: Seq<SimpTree>, k: int) -> Result<Number, MathsError>
    decreases k,
{
    if k <= 0 {
        Ok(Number::Rational(1, 1))
    } else {
        match spec_product(v, k - 1) {
            Ok(a) => spec_checked_mul(a, v[k - 1]->Number_0),
            Err(e) => Err(e),
        }
    }
}

/// The sum of the first `k` items, which are numbers, starting from zero.
pub open spec fn spec_sum(v: Seq<SimpTree>, k: int) -> Result<Number, MathsError>
    decreases k,
{
    if k <= 0 {
        Ok(Number::Rational(0, 1))
    } else {
        match spec_sum(v, k - 1) {
            Ok(a) => spec_checked_add(a, v[k - 1]->Number_0),
            Err(e) => Err(e),
        }
    }
}

/// A number is zero.
pub open spec fn number_is_zero(n: Number) -> bool {
    match n {
        Number::Decimal(d, _) => d.mantissa == 0,
        Number::Rational(p, _) => p == 0,
    }
}

/// A sum (`add`) or product of the given items, or the one item where there is only one.
pub open spec fn collapse(items: Seq<SimpTree>, add: bool, status: ReductionStatus) -> Reduced {
    if items.len() == 1 {
        Ok((items[0], status))
    } else if add {
        Ok((SimpTree::Add(items), status))
    } else {
        Ok((SimpTree::Multiply(items), status))
    }
}

/// The reduction of a product whose items are reduced and sorted: the numbers at its start are
/// multiplied into one (the whole product is zero if one of them is).
pub open spec fn reduce_product(v: Seq<SimpTree>) -> Reduced {
    let n = leading_numbers(v, 0);
    if n == 0 {
        collapse(v, false, ReductionStatus::NoReduction)
    } else if exists|i: int| 0 <= i < n && number_is_zero(#[trigger] v[i]->Number_0) {
        Ok((SimpTree::Number(Number::Rational(0, 1)), ReductionStatus::PerformedReduction))
    } else {
        match spec_product(v, n) {
            Ok(p) => collapse(seq![SimpTree::Number(p)] + v.skip(n), false, ReductionStatus::PerformedReduction),
            Err(e) => Err(ReductionError::Maths(e)),
        }
    }
}

/// The reduction of a sum whose items are reduced and sorted: the numbers at its start are added
/// into one.
pub open spec fn reduce_sum(v: Seq<SimpTree>) -> Reduced {
    let n = leading_numbers(v, 0);
    if n == 0 {
        collapse(v, true, ReductionStatus::NoReduction)
    } else {
        match spec_sum(v, n) {
            Ok(p) => collapse(seq![SimpTree::Number(p)] + v.skip(n), true, ReductionStatus::PerformedReduction),
            Err(e) => Err(ReductionError::Maths(e)),
        }
    }
}

/// Reduced items, sorted again where any of them changed. Items which cannot be ordered (a
/// rational over zero) make a division by zero.
pub open spec fn resorted(c: Seq<SimpTree>, changed: bool) -> Result<Seq<SimpTree>, ReductionError> {
    if !changed {
        Ok(c)
    } else if forall|i: int| 0 <= i < c.len() ==> simp_wf(#[trigger] c[i]) {
        Ok(level_sorted(c))
    } else {
        Err(ReductionError::Maths(MathsError::DivisionByZero))
    }
}

/// The reductions of the first `k` items, and whether any of them changed, or the first error.
pub open spec fn spec_reduce_items(v: Seq<SimpTree>, k: int) -> Result<(Seq<SimpTree>, bool), ReductionError>
    decreases v, k,
{
    if k <= 0 || k > v.len() {
        Ok((Seq::empty(), false))
    } else {
        match spec_reduce_items(v, k - 1) {
            Ok((c, changed)) => match spec_reduce(v[k - 1]) {
                Ok((x, st)) => Ok((c.push(x), changed || st == ReductionStatus::PerformedReduction)),
                Err(e) => Err(e),
            },
            Err(e) => Err(e),
        }
    }
}

/// The mathematical reduction of a sorted tree, which keeps its meaning: numbers are combined
/// where they can be, and a sum or product of one item becomes that item.
pub open spec fn spec_reduce(t: SimpTree) -> Reduced
    decreases t, 1int,
{
    match t {
        SimpTree::Power(b, e) => match spec_reduce(*b) {
            Ok((b2, _)) => match spec_reduce(*e) {
                Ok((e2, _)) => reduce_power(b2, e2),
                Err(x) => Err(x),
            },
            Err(x) => Err(x),
        },
        SimpTree::Multiply(v) => match spec_reduce_items(v, v.len() as int) {
            Ok((c, changed)) => match resorted(c, changed) {
                Ok(c2) => reduce_product(c2),
                Err(x) => Err(x),
            },
            Err(x) => Err(x),
        },
        SimpTree::Add(v) => match spec_reduce_items(v, v.len() as int) {
            Ok((c, changed)) => match resorted(c, changed) {
                Ok(c2) => reduce_sum(c2),
                Err(x) => Err(x),
            },
            Err(x) => Err(x),
        },
        _ => Ok((t, ReductionStatus::NoReduction)),
    }
}

/// An exec reduction agrees with the reduction of the model.
pub open spec fn reduced_as(r: Result<(SimplifiedNode, ReductionStatus), ReductionError>, s: Reduced) -> bool {
    match s {
        Ok((t, st)) => r matches Ok((n, st2)) && n@ == t && st2 == st,
        Err(e) => r == Err::<(SimplifiedNode, ReductionStatus), ReductionError>(e),
    }
}

/// Once the first items fail to reduce, so do all that include them.
proof fn lemma_reduce_items_err(v: Seq<SimpTree>, k: int, m: int)
    requires
        0 < k <= m <= v.len(),
        spec_reduce_items(v, k) is Err,
    ensures
        spec_reduce_items(v, m) == spec_reduce_items(v, k),
    decreases m - k,
{
    if m > k {
        lemma_reduce_items_err(v, k, m - 1);
    }
}

/// Whether a tree can be ordered.
fn orderable(n: &SimplifiedNode) -> (r: bool)
    ensures
        r == simp_wf(n@),
    decreases n,
{
    match n {
        SimplifiedNode::Number(x) => match x {
            Number::Decimal(d, _) => d.within_limits(),
            Number::Rational(_, q) => *q != 0,
        },
        SimplifiedNode::Variable(_) => true,
        SimplifiedNode::Power(b, e) => orderable(b) && orderable(e),
        SimplifiedNode::Multiply(items) => {
            proof {
                assert(n@->Multiply_0 =~= simp_models(items@));
            }
            all_orderable(items)
        },
        SimplifiedNode::Add(items) => {
            proof {
                assert(n@->Add_0 =~= simp_models(items@));
            }
            all_orderable(items)
        },
        SimplifiedNode::FunctionCall(_, items) => {
            proof {
                assert(n@->FunctionCall_1 =~= simp_models(items@));
            }
            all_orderable(items)
        },
    }
}

/// Whether every tree of a sequence can be ordered.
fn all_orderable(items: &Vec<SimplifiedNode>) -> (r: bool)
    ensures
        r == forall|i: int| 0 <= i < items@.len() ==> simp_wf(#[trigger] simp_models(items@)[i]),
    decreases items,
{
    let ghost m = simp_models(items@);
    let mut i: usize = 0;
    while i < items.len()
        invariant
            i <= items@.len(),
            m == simp_models(items@),
            forall|k: int| 0 <= k < i ==> simp_wf(#[trigger] m[k]),
        decreases items@.len() - i,
    {
        proof {
            assert(decreases_to!(items => items@[i as int]));
            assert(m[i as int] == items@[i as int]@);
        }
        if !orderable(&items[i]) {
            return false;
        }
        i = i + 1;
    }
    true
}

/// Reduces each item in turn.
fn reduce_items(v: &Vec<SimplifiedNode>) -> (r: Result<(Vec<SimplifiedNode>, bool), ReductionError>)
    requires
        forall|i: int| 0 <= i < v@.len() ==> simp_numbers_wf(#[trigger] simp_models(v@)[i]),
    ensures
        match spec_reduce_items(simp_models(v@), v@.len() as int) {
            Ok((c, changed)) => r matches Ok((w, ch)) && simp_models(w@) == c && ch == changed,
            Err(e) => r == Err::<(Vec<SimplifiedNode>, bool), ReductionError>(e),
        },
        r matches Ok((w, _)) ==> forall|i: int| 0 <= i < w@.len() ==> simp_numbers_wf(#[trigger] simp_models(w@)[i]),
    decreases simp_models(v@), 0int,
{
    let ghost m = simp_models(v@);
    let mut w: Vec<SimplifiedNode> = Vec::new();
    let mut changed = false;
    let mut i: usize = 0;
    assert(simp_models(w@) =~= Seq::<SimpTree>::empty());
    while i < v.len()
        invariant
            i <= v@.len(),
            w@.len() == i,
            m == simp_models(v@),
            forall|k: int| 0 <= k < v@.len() ==> simp_numbers_wf(#[trigger] m[k]),
            spec_reduce_items(m, i as int) == Ok::<(Seq<SimpTree>, bool), ReductionError>((simp_models(w@), changed)),
            forall|k: int| 0 <= k < w@.len() ==> simp_numbers_wf(#[trigger] simp_models(w@)[k]),
        decreases v@.len() - i,
    {
        proof {
            assert(m[i as int] == v@[i as int]@);
            assert(decreases_to!(m => m[i as int]));
        }
        let ghost before = simp_models(w@);
        match v[i].reduced() {
            Ok((x, st)) => {
                w.push(x);
                proof {
                    assert(simp_models(w@) =~= before.push(x@));
                }
                if matches!(st, ReductionStatus::PerformedReduction) {
                    changed = true;
                }
            },
            Err(e) => {
                proof {
                    lemma_reduce_items_err(m, i + 1, m.len() as int);
                }
                return Err(e);
            },
        }
        i = i + 1;
    }
    Ok((w, changed))
}

/// The number of numbers at the start of a sequence.
fn count_leading_numbers(v: &Vec<SimplifiedNode>) -> (n: usize)
    ensures
        n == leading_numbers(simp_models(v@), 0),
        n <= v@.len(),
{
    let ghost m = simp_models(v@);
    let mut i: usize = 0;
    while i < v.len() && matches!(v[i], SimplifiedNode::Number(_))
        invariant
            i <= v@.len(),
            m == simp_models(v@),
            leading_numbers(m, 0) == leading_numbers(m, i as int),
        decreases v@.len() - i,
    {
        i = i + 1;
    }
    i
}

/// A sum or product of the given items, or the one item where there is only one.
fn collapse_items(items: Vec<SimplifiedNode>, add: bool, status: ReductionStatus) -> (r: Result<(SimplifiedNode, ReductionStatus), ReductionError>)
    requires
        forall|i: int| 0 <= i < items@.len() ==> simp_numbers_wf(#[trigger] simp_models(items@)[i]),
    ensures
        reduced_as(r, collapse(simp_models(items@), add, status)),
        r matches Ok((t, _)) ==> simp_numbers_wf(t@),
{
    assert(items@.len() == 1 ==> simp_models(items@)[0] == items@[0]@);
    if items.len() == 1 {
        let only = items[0].copy();
        Ok((only, status))
    } else if add {
        let r = SimplifiedNode::Add(items);
        proof {
            assert(r@->Add_0 =~= simp_models(items@));
        }
        Ok((r, status))
    } else {
        let r = SimplifiedNode::Multiply(items);
        proof {
            assert(r@->Multiply_0 =~= simp_models(items@));
        }
        Ok((r, status))
    }
}

/// The numbers at the start of a sequence combined into one, followed by the rest.
fn combine_leading(v: &Vec<SimplifiedNode>, n: usize, combined: Number) -> (r: Vec<SimplifiedNode>)
    requires
        n <= v@.len(),
    ensures
        simp_models(r@) == seq![SimpTree::Number(combined)] + simp_models(v@).skip(n as int),
{
    let ghost m = simp_models(v@);
    let mut r: Vec<SimplifiedNode> = Vec::new();
    r.push(number_node(combined));
    let mut i: usize = n;
    while i < v.len()
        invariant
            n <= i <= v@.len(),
            m == simp_models(v@),
            simp_models(r@) == seq![SimpTree::Number(combined)] + m.subrange(n as int, i as int),
        decreases v@.len() - i,
    {
        let ghost before = simp_models(r@);
        r.push(v[i].copy());
        proof {
            assert(simp_models(r@) =~= before.push(m[i as int]));
            assert(m.subrange(n as int, i + 1) =~= m.subrange(n as int, i as int).push(m[i as int]));
        }
        i = i + 1;
    }
    proof {
        assert(m.subrange(n as int, i as int) =~= m.skip(n as int));
    }
    r
}

/// Reduces a product whose items are reduced and sorted.
fn reduce_product_items(v: &Vec<SimplifiedNode>) -> (r: Result<(SimplifiedNode, ReductionStatus), ReductionError>)
    requires
        forall|i: int| 0 <= i < v@.len() ==> simp_numbers_wf(#[trigger] simp_models(v@)[i]),
    ensures
        reduced_as(r, reduce_product(simp_models(v@))),
        r matches Ok((t, _)) ==> simp_numbers_wf(t@),
{
    let ghost m = simp_models(v@);
    let n = count_leading_numbers(v);
    proof {
        lemma_leading_numbers(m, 0);
    }
    if n == 0 {
        let c = copy_items(v);
        assert(simp_models(c@) =~= m);
        return collapse_items(c, false, ReductionStatus::NoReduction);
    }
    // If any of the numbers is zero, so is the whole product
    let mut i: usize = 0;
    while i < n
        invariant
            i <= n <= v@.len(),
            m == simp_models(v@),
            n == leading_numbers(m, 0),
            forall|k: int| 0 <= k < n ==> (#[trigger] m[k]) is Number,
            forall|k: int| 0 <= k < i ==> !number_is_zero(#[trigger] m[k]->Number_0),
        decreases n - i,
    {
        assert(m[i as int] == v@[i as int]@);
        let x = match &v[i] {
            SimplifiedNode::Number(x) => *x,
            _ => vstd::pervasive::unreached(),
        };
        if x.is_zero() {
            assert(number_is_zero(m[i as int]->Number_0));
            return Ok((number_node(Number::zero()), ReductionStatus::PerformedReduction));
        }
        i = i + 1;
    }
    // Multiply all of them together
    let mut product = Number::one();
    let mut k: usize = 0;
    while k < n
        invariant
            k <= n <= v@.len(),
            m == simp_models(v@),
            forall|j: int| 0 <= j < v@.len() ==> simp_numbers_wf(#[trigger] m[j]),
            forall|j: int| 0 <= j < n ==> (#[trigger] m[j]) is Number,
            forall|j: int| 0 <= j < n ==> !number_is_zero(#[trigger] m[j]->Number_0),
            n == leading_numbers(m, 0),
            spec_product(m, k as int) == Ok::<Number, MathsError>(product),
            number_wf(product),
        decreases n - k,
    {
        assert(m[k as int] == v@[k as int]@);
        assert(simp_numbers_wf(m[k as int]));
        let x = match &v[k] {
            SimplifiedNode::Number(x) => *x,
            _ => vstd::pervasive::unreached(),
        };
        product = match product.checked_mul(x) {
            Ok(p) => p,
            Err(e) => {
                proof {
                    lemma_product_err(m, k + 1, n as int);
                }
                return Err(ReductionError::Maths(e));
            },
        };
        k = k + 1;
    }
    let c = combine_leading(v, n, product);
    proof {
        lemma_combined_wf(m, n as int, product);
    }
    collapse_items(c, false, ReductionStatus::PerformedReduction)
}

/// Reduces a sum whose items are reduced and sorted.
fn reduce_sum_items(v: &Vec<SimplifiedNode>) -> (r: Result<(SimplifiedNode, ReductionStatus), ReductionError>)
    requires
        forall|i: int| 0 <= i < v@.len() ==> simp_numbers_wf(#[trigger] simp_models(v@)[i]),
    ensures
        reduced_as(r, reduce_sum(simp_models(v@))),
        r matches Ok((t, _)) ==> simp_numbers_wf(t@),
{
    let ghost m = simp_models(v@);
    let n = count_leading_numbers(v);
    proof {
        lemma_leading_numbers(m, 0);
    }
    if n == 0 {
        let c = copy_items(v);
        assert(simp_models(c@) =~= m);
        return collapse_items(c, true, ReductionStatus::NoReduction);
    }
    // Add all of them together
    let mut sum = Number::zero();
    let mut k: usize = 0;
    while k < n
        invariant
            k <= n <= v@.len(),
            m == simp_models(v@),
            forall|j: int| 0 <= j < v@.len() ==> simp_numbers_wf(#[trigger] m[j]),
            forall|j: int| 0 <= j < n ==> (#[trigger] m[j]) is Number,
            n == leading_numbers(m, 0),
            spec_sum(m, k as int) == Ok::<Number, MathsError>(sum),
            number_wf(sum),
        decreases n - k,
    {
        assert(m[k as int] == v@[k as int]@);
        assert(simp_numbers_wf(m[k as int]));
        let x = match &v[k] {
            SimplifiedNode::Number(x) => *x,
            _ => vstd::pervasive::unreached(),
        };
        sum = match sum.checked_add(x) {
            Ok(p) => p,
            Err(e) => {
                proof {
                    lemma_sum_err(m, k + 1, n as int);
                }
                return Err(ReductionError::Maths(e));
            },
        };
        k = k + 1;
    }
    let c = combine_leading(v, n, sum);
    proof {
        lemma_combined_wf(m, n as int, sum);
    }
    collapse_items(c, true, ReductionStatus::PerformedReduction)
}

impl SimplifiedNode {
    /// The reduction of this tree: see [reduce](SimplifiedNode::reduce).
    fn reduced(&self) -> (r: Result<(SimplifiedNode, ReductionStatus), ReductionError>)
        requires
            simp_numbers_wf(self@),
        ensures
            reduced_as(r, spec_reduce(self@)),
            r matches Ok((t, _)) ==> simp_numbers_wf(t@),
        decreases self@, 1int,
    {
        match self {
            SimplifiedNode::Power(b, e) => {
                let (b2, _) = b.reduced()?;
                let (e2, _) = e.reduced()?;
                match (&b2, &e2) {
                    (SimplifiedNode::Number(base), SimplifiedNode::Number(exp)) => {
                        if let Number::Rational(p, q) = exp {
                            if *q == 0 || (*p == i64::MIN && *q == -1) {
                                return Err(ReductionError::Maths(MathsError::Overflow));
                            }
                        }
                        match exp.to_whole() {
                            Some(w) => match base.checked_powi(w) {
                                Ok(n) => Ok((number_node(n), ReductionStatus::NoReduction)),
                                Err(x) => Err(ReductionError::Maths(x)),
                            },
                            None => Err(ReductionError::Unsupported),
                        }
                    },
                    (SimplifiedNode::Number(_), _) | (SimplifiedNode::Variable(_), _) | (SimplifiedNode::FunctionCall(_, _), _) => {
                        let ghost (bt, et) = (b2@, e2@);
                        let r = SimplifiedNode::Power(Box::new(b2), Box::new(e2));
                        assert(r@ == SimpTree::Power(Box::new(bt), Box::new(et)));
                        Ok((r, ReductionStatus::NoReduction))
                    },
                    _ => Err(ReductionError::Unsupported),
                }
            },
            SimplifiedNode::Multiply(v) => {
                proof {
                    assert(self@->Multiply_0 =~= simp_models(v@));
                }
                let (c, changed) = reduce_items(v)?;
                let c2 = if changed {
                    if !all_orderable(&c) {
                        return Err(ReductionError::Maths(MathsError::DivisionByZero));
                    }
                    level_sorted_items(&c)
                } else {
                    c
                };
                proof {
                    assert forall|i: int| 0 <= i < c2@.len() implies simp_numbers_wf(#[trigger] simp_models(c2@)[i]) by {
                        lemma_level_sorted_wf(simp_models(c@), changed);
                    }
                }
                reduce_product_items(&c2)
            },
            SimplifiedNode::Add(v) => {
                proof {
                    assert(self@->Add_0 =~= simp_models(v@));
                }
                let (c, changed) = reduce_items(v)?;
                let c2 = if changed {
                    if !all_orderable(&c) {
                        return Err(ReductionError::Maths(MathsError::DivisionByZero));
                    }
                    level_sorted_items(&c)
                } else {
                    c
                };
                proof {
                    assert forall|i: int| 0 <= i < c2@.len() implies simp_numbers_wf(#[trigger] simp_models(c2@)[i]) by {
                        lemma_level_sorted_wf(simp_models(c@), changed);
                    }
                }
                reduce_sum_items(&c2)
            },
            _ => Ok((self.copy(), ReductionStatus::NoReduction)),
        }
    }

    /// Performs a mathematical reduction on this node tree, which must be sorted first. The
    /// resulting tree has the same meaning as the tree before: the numbers at the start of each sum
    /// or product are combined, a number raised to a whole number is computed, and a sum or
    /// product of one item becomes that item.
    ///
    /// Returns whether any reduction took place, or the error met.
    pub fn reduce(&mut self) -> (r: Result<ReductionStatus, ReductionError>)
        requires
            simp_numbers_wf(old(self)@),
        ensures
            match spec_reduce(old(self)@) {
                Ok((t, st)) => r == Ok::<ReductionStatus, ReductionError>(st) && final(self)@ == t,
                Err(e) => r == Err::<ReductionStatus, ReductionError>(e),
            },
    {
        match self.reduced() {
            Ok((t, st)) => {
                *self = t;
                Ok(st)
            },
            Err(e) => Err(e),
        }
    }
}

/// Sorting keeps every number within its limits.
proof fn lemma_level_sorted_wf(c: Seq<SimpTree>, changed: bool)
    requires
        forall|i: int| 0 <= i < c.len() ==> simp_numbers_wf(#[trigger] c[i]),
    ensures
        forall|i: int| 0 <= i < level_sorted(c).len() ==> simp_numbers_wf(#[trigger] level_sorted(c)[i]),
{
    lemma_sort_indices(c, c.len() as int);
}

/// The items from `i` up to the first item which is not a number are all numbers.
proof fn lemma_leading_numbers(m: Seq<SimpTree>, i: int)
    requires
        0 <= i <= m.len(),
    ensures
        i <= leading_numbers(m, i) <= m.len(),
        forall|k: int| i <= k < leading_numbers(m, i) ==> (#[trigger] m[k]) is Number,
    decreases m.len() - i,
{
    if i < m.len() && m[i] is Number {
        lemma_leading_numbers(m, i + 1);
    }
}

/// A number within its limits followed by the rest of a sequence whose numbers are all within
/// their limits.
proof fn lemma_combined_wf(m: Seq<SimpTree>, n: int, x: Number)
    requires
        0 <= n <= m.len(),
        number_wf(x),
        forall|i: int| 0 <= i < m.len() ==> simp_numbers_wf(#[trigger] m[i]),
    ensures
        forall|i: int|
            0 <= i < (seq![SimpTree::Number(x)] + m.skip(n)).len() ==> simp_numbers_wf(
                #[trigger] (seq![SimpTree::Number(x)] + m.skip(n))[i],
            ),
{
    assert forall|i: int| 0 <= i < (seq![SimpTree::Number(x)] + m.skip(n)).len() implies simp_numbers_wf(
        #[trigger] (seq![SimpTree::Number(x)] + m.skip(n))[i],
    ) by {
        if i > 0 {
            assert((seq![SimpTree::Number(x)] + m.skip(n))[i] == m[n + i - 1]);
        }
    }
}

/// Once a product of the first numbers fails, so do all longer ones.
proof fn lemma_product_err(m: Seq<SimpTree>, k: int, j: int)
    requires
        0 < k <= j,
        spec_product(m, k) is Err,
    ensures
        spec_product(m, j) == spec_product(m, k),
    decreases j - k,
{
    if j > k {
        lemma_product_err(m, k, j - 1);
    }
}

/// Once a sum of the first numbers fails, so do all longer ones.
proof fn lemma_sum_err(m: Seq<SimpTree>, k: int, j: int)
    requires
        0 < k <= j,
        spec_sum(m, k) is Err,
    ensures
        spec_sum(m, j) == spec_sum(m, k),
    decreases j - k,
{
    if j > k {
        lemma_sum_err(m, k, j - 1);
    }
}

/// The items at the positions of a sequence of positions.
pub open spec fn items_at(items: Seq<SimpTree>, p: Seq<int>) -> Seq<SimpTree> {
    p.map_values(|k: int| items[k])
}

/// Inserting a position adds its item to the items at the positions.
proof fn lemma_insert_index_items(items: Seq<SimpTree>, s: Seq<int>, x: int)
    ensures
        items_at(items, insert_index(items, s, x)).to_multiset() == items_at(items, s).to_multiset().insert(items[x]),
    decreases s.len(),
{
    broadcast use vstd::seq_lib::group_to_multiset_ensures;

    if s.len() == 0 {
        assert(items_at(items, seq![x]) =~= Seq::<SimpTree>::empty().push(items[x]));
        assert(items_at(items, s) =~= Seq::<SimpTree>::empty());
    } else if comes_after(items[s.last()], items[x]) {
        lemma_insert_index_items(items, s.drop_last(), x);
        let inner = insert_index(items, s.drop_last(), x);
        assert(items_at(items, inner.push(s.last())) =~= items_at(items, inner).push(items[s.last()]));
        assert(items_at(items, s) =~= items_at(items, s.drop_last()).push(items[s.last()]));
        assert(items_at(items, s.drop_last()).to_multiset().insert(items[x]).insert(items[s.last()])
            =~= items_at(items, s.drop_last()).to_multiset().insert(items[s.last()]).insert(items[x]));
    } else {
        assert(items_at(items, s.push(x)) =~= items_at(items, s).push(items[x]));
    }
}

/// The items at the sorted positions of the first `n` items are those items.
proof fn lemma_sort_indices_items(items: Seq<SimpTree>, n: int)
    requires
        0 <= n <= items.len(),
    ensures
        items_at(items, sort_indices(items, n)).to_multiset() == items.take(n).to_multiset(),
    decreases n,
{
    broadcast use vstd::seq_lib::group_to_multiset_ensures;

    if n == 0 {
        assert(items_at(items, sort_indices(items, 0)) =~= Seq::<SimpTree>::empty());
        assert(items.take(0) =~= Seq::<SimpTree>::empty());
    } else {
        lemma_sort_indices_items(items, n - 1);
        lemma_insert_index_items(items, sort_indices(items, n - 1), n - 1);
        assert(items.take(n) =~= items.take(n - 1).push(items[n - 1]));
    }
}

/// Sorting the items of a sum or product only reorders them: the sorted items are the same items,
/// each as many times.
pub proof fn lemma_level_sorted_permutes(items: Seq<SimpTree>)
    ensures
        level_sorted(items).len() == items.len(),
        level_sorted(items).to_multiset() == items.to_multiset(),
{
    let n = items.len() as int;
    lemma_sort_indices(items, n);
    lemma_sort_indices_items(items, n);
    assert(level_sorted(items) =~= items_at(items, sort_indices(items, n)));
    assert(items.take(n) =~= items);
}

/// The reverse of an ordering.
pub open spec fn flipped(o: Ordering) -> Ordering {
    match o {
        Ordering::Less => Ordering::Greater,
        Ordering::Equal => Ordering::Equal,
        Ordering::Greater => Ordering::Less,
    }
}

/// Comparing two nodes the other way round gives the reverse ordering.
pub proof fn lemma_node_order_reverses(a: SimpTree, b: SimpTree)
    ensures
        node_order(b, a) == flipped(node_order(a, b)),
    decreases a, 0int,
{
    match (a, b) {
        (SimpTree::Add(l), SimpTree::Add(r)) => lemma_items_order_reverses(l, r, 0),
        (SimpTree::Multiply(l), SimpTree::Multiply(r)) => lemma_items_order_reverses(l, r, 0),
        (SimpTree::Power(lb, le), SimpTree::Power(rb, re)) => {
            lemma_node_order_reverses(*lb, *rb);
            lemma_node_order_reverses(*le, *re);
        },
        _ => {},
    }
}

/// Comparing two sequences of nodes the other way round gives the reverse ordering.
pub proof fn lemma_items_order_reverses(a: Seq<SimpTree>, b: Seq<SimpTree>, i: int)
    ensures
        items_order(b, a, i) == flipped(items_order(a, b, i)),
    decreases a, a.len() - i,
{
    if 0 <= i < a.len() && i < b.len() {
        lemma_node_order_reverses(a[i], b[i]);
        lemma_items_order_reverses(a, b, i + 1);
    }
}

/// No item at the given positions comes after the item at the next position.
pub open spec fn in_order(items: Seq<SimpTree>, s: Seq<int>) -> bool {
    forall|k: int| 0 <= k < s.len() - 1 ==> !comes_after(#[trigger] items[s[k]], items[s[k + 1]])
}

/// Inserting a position into positions in order leaves them in order, and the last position
/// afterwards is either the inserted one or the last one before.
proof fn lemma_insert_index_in_order(items: Seq<SimpTree>, s: Seq<int>, x: int)
    requires
        in_order(items, s),
    ensures
        in_order(items, insert_index(items, s, x)),
        insert_index(items, s, x).len() == s.len() + 1,
        insert_index(items, s, x).last() == x || (s.len() > 0 && insert_index(items, s, x).last() == s.last()),
    decreases s.len(),
{
    if s.len() > 0 && comes_after(items[s.last()], items[x]) {
        let t = s.drop_last();
        assert(in_order(items, t)) by {
            assert forall|k: int| 0 <= k < t.len() - 1 implies !comes_after(#[trigger] items[t[k]], items[t[k + 1]]) by {
                assert(t[k] == s[k] && t[k + 1] == s[k + 1]);
            }
        }
        lemma_insert_index_in_order(items, t, x);
        let inner = insert_index(items, t, x);
        let r = inner.push(s.last());
        lemma_node_order_reverses(items[s.last()], items[x]);
        assert(!comes_after(items[inner.last()], items[s.last()])) by {
            if inner.last() != x {
                assert(t.len() > 0 && inner.last() == t.last());
                assert(s[s.len() - 2] == t.last());
            }
        }
        assert forall|k: int| 0 <= k < r.len() - 1 implies !comes_after(#[trigger] items[r[k]], items[r[k + 1]]) by {
            if k < r.len() - 2 {
                assert(r[k] == inner[k] && r[k + 1] == inner[k + 1]);
            } else {
                assert(r[k] == inner.last() && r[k + 1] == s.last());
            }
        }
    } else if s.len() > 0 {
        let r = s.push(x);
        assert forall|k: int| 0 <= k < r.len() - 1 implies !comes_after(#[trigger] items[r[k]], items[r[k + 1]]) by {
            if k < r.len() - 2 {
                assert(r[k] == s[k] && r[k + 1] == s[k + 1]);
            } else {
                assert(r[k] == s.last() && r[k + 1] == x);
            }
        }
    }
}

/// The sorted positions of the first `n` items are in order.
proof fn lemma_sort_indices_in_order(items: Seq<SimpTree>, n: int)
    ensures
        in_order(items, sort_indices(items, n)),
    decreases n,
{
    if n > 0 {
        lemma_sort_indices_in_order(items, n - 1);
        lemma_insert_index_in_order(items, sort_indices(items, n - 1), n - 1);
    }
}

/// Sorting the items of a sum or product puts them in order: no item comes strictly after the
/// one that follows it.
pub proof fn lemma_level_sorted_in_order(items: Seq<SimpTree>)
    ensures
        forall|k: int|
            0 <= k < items.len() - 1 ==> !comes_after(#[trigger] level_sorted(items)[k], level_sorted(items)[k + 1]),
{
    let n = items.len() as int;
    let p = sort_indices(items, n);
    lemma_sort_indices(items, n);
    lemma_sort_indices_in_order(items, n);
    assert forall|k: int| 0 <= k < items.len() - 1 implies !comes_after(
        #[trigger] level_sorted(items)[k],
        level_sorted(items)[k + 1],
    ) by {
        assert(level_sorted(items)[k] == items[p[k]]);
        assert(level_sorted(items)[k + 1] == items[p[k + 1]]);
    }
}

/// No sum holds a sum directly, and no product a product, anywhere in the tree outside function
/// calls.
pub open spec fn flat(t: SimpTree) -> bool
    decreases t, 0int,
{
    match t {
        SimpTree::Add(items) => forall|i: int| 0 <= i < items.len() ==> flat_in(#[trigger] items[i], true),
        SimpTree::Multiply(items) => forall|i: int| 0 <= i < items.len() ==> flat_in(#[trigger] items[i], false),
        SimpTree::Power(b, e) => flat(*b) && flat(*e),
        _ => true,
    }
}

/// An item of a sum (`add`) or a product is flat, and not itself a sum (or a product).
pub open spec fn flat_in(x: SimpTree, add: bool) -> bool
    decreases x, 1int,
{
    flat(x) && if add {
        !(x is Add)
    } else {
        !(x is Multiply)
    }
}

/// The items of a flattened sum or product are flat, and none is a sum (for a sum) or a product
/// (for a product).
proof fn lemma_flatten_items_flat(items: Seq<SimpTree>, add: bool, k: int)
    requires
        0 <= k <= items.len(),
    ensures
        forall|i: int| 0 <= i < flatten_items(items, add, k).len() ==> flat_in(#[trigger] flatten_items(items, add, k)[i], add),
    decreases items, k,
{
    if k > 0 {
        lemma_flatten_items_flat(items, add, k - 1);
        lemma_flatten_flat(items[k - 1]);
        let before = flatten_items(items, add, k - 1);
        let f = spec_flatten(items[k - 1]);
        let piece = flattened_piece(f, add);
        assert(flatten_items(items, add, k) == before + piece);
        assert forall|i: int| 0 <= i < piece.len() implies flat_in(#[trigger] piece[i], add) by {
            match f {
                SimpTree::Add(c) => {
                    if add {
                        assert(piece[i] == c[i]);
                    } else {
                        assert(piece[i] == f);
                    }
                },
                SimpTree::Multiply(c) => {
                    if !add {
                        assert(piece[i] == c[i]);
                    } else {
                        assert(piece[i] == f);
                    }
                },
                _ => {
                    assert(piece[i] == f);
                },
            }
        }
        assert forall|i: int| 0 <= i < (before + piece).len() implies flat_in(#[trigger] (before + piece)[i], add) by {
            if i >= before.len() {
                assert((before + piece)[i] == piece[i - before.len()]);
            } else {
                assert((before + piece)[i] == before[i]);
            }
        }
    }
}

/// Flattening leaves no sum directly inside a sum, and no product directly inside a product.
pub proof fn lemma_flatten_flat(t: SimpTree)
    ensures
        flat(spec_flatten(t)),
    decreases t, 1int,
{
    match t {
        SimpTree::Add(items) => {
            let s = flatten_items(items, true, items.len() as int);
            lemma_flatten_items_flat(items, true, items.len() as int);
            assert(spec_flatten(t) == SimpTree::Add(s));
            assert forall|i: int| 0 <= i < s.len() implies flat_in(#[trigger] s[i], true) by {}
        },
        SimpTree::Multiply(items) => {
            let s = flatten_items(items, false, items.len() as int);
            lemma_flatten_items_flat(items, false, items.len() as int);
            assert(spec_flatten(t) == SimpTree::Multiply(s));
            assert forall|i: int| 0 <= i < s.len() implies flat_in(#[trigger] s[i], false) by {}
        },
        SimpTree::Power(b, e) => {
            lemma_flatten_flat(*b);
            lemma_flatten_flat(*e);
        },
        _ => {},
    }
}

} // verus!
