//! The structured node tree, suited to evaluation.
//!
//! An unstructured node tree is usually constructed first and then upgraded to a structured one;
//! structured trees can also be constructed directly.

use vstd::prelude::*;

use crate::error::MathsError;
use crate::evaluate::Evaluable;
use crate::number::{
    number_wf, spec_checked_add, spec_checked_div, spec_checked_mul, spec_checked_pow, spec_neg, Number,
};
use crate::nav::NavPathNavigator;
use crate::node::common::{
    layout_fraction, layout_function_call, layout_parentheses, layout_power, layout_sqrt, spec_fraction,
    spec_function_call, spec_parentheses, spec_power, spec_sqrt,
};
use crate::node::function::{spec_function_evaluate, Function};
use crate::number::{char_digit, dec_to_string, decimal_to_string, spec_sqrt_number, Dec};
use crate::render::{
    spec_glyph_block, spec_layout_horizontal, spec_merge_along_baseline, spec_offset, views, BlockModel, Glyph,
    LayoutBlock, LayoutComputationProperties, Layoutable, Renderer, SizeFn,
};

verus! {

/// A structured node. Operations are two-operand only; `3+2+4` may be encoded as
/// `Add(Add(3, 2), 4)`.
#[derive(PartialEq, Debug)]
pub enum StructuredNode {
    /// A constant number.
    Number(Number),
    /// A variable, identified by a character.
    Variable(char),
    /// A square root of another node.
    Sqrt(Box<StructuredNode>),
    /// A power, with both a base and exponent.
    Power(Box<StructuredNode>, Box<StructuredNode>),
    /// A two-operand addition.
    Add(Box<StructuredNode>, Box<StructuredNode>),
    /// A two-operand subtraction.
    Subtract(Box<StructuredNode>, Box<StructuredNode>),
    /// A two-operand multiplication.
    Multiply(Box<StructuredNode>, Box<StructuredNode>),
    /// A two-operand division.
    Divide(Box<StructuredNode>, Box<StructuredNode>),
    /// A node enclosed in parentheses. This does not affect evaluation, but may be desirable for
    /// rendering.
    Parentheses(Box<StructuredNode>),
    /// A function call, with a sequence of arguments.
    FunctionCall(Function, Vec<StructuredNode>),
}

/// The mathematical value of a [StructuredNode].
pub enum Tree {
    Number(Number),
    Variable(char),
    Sqrt(Box<Tree>),
    Power(Box<Tree>, Box<Tree>),
    Add(Box<Tree>, Box<Tree>),
    Subtract(Box<Tree>, Box<Tree>),
    Multiply(Box<Tree>, Box<Tree>),
    Divide(Box<Tree>, Box<Tree>),
    Parentheses(Box<Tree>),
    FunctionCall(Function, Seq<Tree>),
}

impl StructuredNode {
    pub open spec fn model(&self) -> Tree
        decreases self,
    {
        match self {
            StructuredNode::Number(n) => Tree::Number(*n),
            StructuredNode::Variable(v) => Tree::Variable(*v),
            StructuredNode::Sqrt(a) => Tree::Sqrt(Box::new(a.model())),
            StructuredNode::Power(a, b) => Tree::Power(Box::new(a.model()), Box::new(b.model())),
            StructuredNode::Add(a, b) => Tree::Add(Box::new(a.model()), Box::new(b.model())),
            StructuredNode::Subtract(a, b) => Tree::Subtract(Box::new(a.model()), Box::new(b.model())),
            StructuredNode::Multiply(a, b) => Tree::Multiply(Box::new(a.model()), Box::new(b.model())),
            StructuredNode::Divide(a, b) => Tree::Divide(Box::new(a.model()), Box::new(b.model())),
            StructuredNode::Parentheses(a) => Tree::Parentheses(Box::new(a.model())),
            StructuredNode::FunctionCall(f, args) => Tree::FunctionCall(
                *f,
                Seq::new(
                    args@.len(),
                    |i: int|
                        if 0 <= i < args@.len() {
                            args@[i].model()
                        } else {
                            Tree::Variable('x')
                        },
                ),
            ),
        }
    }
}

impl View for StructuredNode {
    type V = Tree;

    open spec fn view(&self) -> Tree {
        self.model()
    }
}

/// A unit in which angles are measured.
#[derive(PartialEq, Eq, Structural, Debug, Copy, Clone)]
pub enum AngleUnit {
    Degree,
    Radian,
}

impl Default for AngleUnit {
    fn default() -> (r: Self)
        ensures
            r == AngleUnit::Degree,
    {
        AngleUnit::Degree
    }
}

impl AngleUnit {
    /// The name of this unit.
    pub fn name(&self) -> (r: &'static str)
        ensures
            r@ == match self {
                AngleUnit::Degree => "Degree"@,
                AngleUnit::Radian => "Radian"@,
            },
    {
        match self {
            AngleUnit::Degree => "Degree",
            AngleUnit::Radian => "Radian",
        }
    }
}

/// Settings for how structured nodes are evaluated into a number.
#[derive(PartialEq, Eq, Structural, Debug, Clone, Copy)]
pub struct EvaluationSettings {
    /// The angle unit to use for trigonometric functions.
    pub angle_unit: AngleUnit,
    /// Requests that expensive operations such as trigonometric functions are evaluated quickly
    /// with floating-point operations. This library evaluates everything with decimals, so it
    /// only carries this setting.
    pub use_floats: bool,
}

impl Default for EvaluationSettings {
    fn default() -> (r: Self)
        ensures
            r.angle_unit == AngleUnit::Degree,
            !r.use_floats,
    {
        EvaluationSettings { angle_unit: AngleUnit::Degree, use_floats: false }
    }
}

/// Every number in the tree is within its limits.
pub open spec fn tree_wf(t: Tree) -> bool
    decreases t,
{
    match t {
        Tree::Number(n) => number_wf(n),
        Tree::Variable(_) => true,
        Tree::Sqrt(a) | Tree::Parentheses(a) => tree_wf(*a),
        Tree::Power(a, b) | Tree::Add(a, b) | Tree::Subtract(a, b) | Tree::Multiply(a, b) | Tree::Divide(
            a,
            b,
        ) => tree_wf(*a) && tree_wf(*b),
        Tree::FunctionCall(f, args) => args.len() == f.spec_argument_count() && forall|i: int|
            0 <= i < args.len() ==> tree_wf(#[trigger] args[i]),
    }
}

/// The value of a tree, or the error met while evaluating it.
pub open spec fn spec_evaluate(t: Tree, settings: EvaluationSettings) -> Result<Number, MathsError>
    decreases t, 0int,
{
    match t {
        Tree::Number(n) => Ok(n),
        Tree::Variable(_) => Err(MathsError::MissingVariable),
        Tree::Sqrt(a) => match spec_evaluate(*a, settings) {
            Ok(n) => spec_sqrt_number(n),
            Err(e) => Err(e),
        },
        Tree::Power(a, b) => match (spec_evaluate(*a, settings), spec_evaluate(*b, settings)) {
            (Ok(x), Ok(y)) => spec_checked_pow(x, y),
            (Err(e), _) => Err(e),
            (_, Err(e)) => Err(e),
        },
        Tree::Add(a, b) => match (spec_evaluate(*a, settings), spec_evaluate(*b, settings)) {
            (Ok(x), Ok(y)) => spec_checked_add(x, y),
            (Err(e), _) => Err(e),
            (_, Err(e)) => Err(e),
        },
        Tree::Subtract(a, b) => match (spec_evaluate(*a, settings), spec_evaluate(*b, settings)) {
            (Ok(x), Ok(y)) => match spec_neg(y) {
                Some(z) => spec_checked_add(x, z),
                None => Err(MathsError::Overflow),
            },
            (Err(e), _) => Err(e),
            (_, Err(e)) => Err(e),
        },
        Tree::Multiply(a, b) => match (spec_evaluate(*a, settings), spec_evaluate(*b, settings)) {
            (Ok(x), Ok(y)) => spec_checked_mul(x, y),
            (Err(e), _) => Err(e),
            (_, Err(e)) => Err(e),
        },
        Tree::Divide(a, b) => match (spec_evaluate(*a, settings), spec_evaluate(*b, settings)) {
            (Ok(x), Ok(y)) => spec_checked_div(x, y),
            (Err(e), _) => Err(e),
            (_, Err(e)) => Err(e),
        },
        Tree::Parentheses(a) => spec_evaluate(*a, settings),
        Tree::FunctionCall(f, args) => match spec_evaluate_args(args, settings, args.len() as int) {
            Ok(values) => spec_function_evaluate(f, values, settings),
            Err(e) => Err(e),
        },
    }
}

/// The values of the first `k` arguments, or the first error met while evaluating them.
pub open spec fn spec_evaluate_args(args: Seq<Tree>, settings: EvaluationSettings, k: int) -> Result<
    Seq<Number>,
    MathsError,
>
    decreases args, k,
{
    if k <= 0 || k > args.len() {
        Ok(Seq::empty())
    } else {
        match spec_evaluate_args(args, settings, k - 1) {
            Ok(values) => match spec_evaluate(args[k - 1], settings) {
                Ok(v) => Ok(values.push(v)),
                Err(e) => Err(e),
            },
            Err(e) => Err(e),
        }
    }
}


/// Once the first arguments fail to evaluate, so do all that include them.
proof fn lemma_args_err(args: Seq<Tree>, settings: EvaluationSettings, k: int, m: int)
    requires
        0 < k <= m <= args.len(),
        spec_evaluate_args(args, settings, k) is Err,
    ensures
        spec_evaluate_args(args, settings, m) == spec_evaluate_args(args, settings, k),
    decreases m - k,
{
    if m > k {
        lemma_args_err(args, settings, k, m - 1);
    }
}

/// The tree is an addition or a subtraction.
pub open spec fn tree_add_or_sub(t: Tree) -> bool {
    t is Add || t is Subtract
}

/// The tree is a multiplication or a division.
pub open spec fn tree_mul_or_div(t: Tree) -> bool {
    t is Multiply || t is Divide
}

/// The tree, wrapped in parentheses where asked.
pub open spec fn parenthesized(t: Tree, parens: bool) -> Tree {
    if parens {
        Tree::Parentheses(Box::new(t))
    } else {
        t
    }
}

/// The tree with parentheses added around its operands where the order of operations would
/// otherwise be lost when rendered: around a sum or difference operand of a product or quotient,
/// and around a right operand which would otherwise associate the other way.
pub open spec fn spec_disambiguate(t: Tree) -> Tree {
    match t {
        Tree::Multiply(l, r) => Tree::Multiply(
            Box::new(parenthesized(*l, tree_add_or_sub(*l))),
            Box::new(parenthesized(*r, tree_add_or_sub(*r) || tree_mul_or_div(*r))),
        ),
        Tree::Divide(l, r) => Tree::Divide(
            Box::new(parenthesized(*l, tree_add_or_sub(*l))),
            Box::new(parenthesized(*r, tree_add_or_sub(*r) || tree_mul_or_div(*r))),
        ),
        Tree::Add(l, r) => Tree::Add(l, Box::new(parenthesized(*r, tree_add_or_sub(*r)))),
        Tree::Subtract(l, r) => Tree::Subtract(l, Box::new(parenthesized(*r, tree_add_or_sub(*r)))),
        _ => t,
    }
}

/// The tree uses the named variable somewhere.
pub open spec fn tree_has_variable(t: Tree, var: char) -> bool
    decreases t,
{
    match t {
        Tree::Number(_) => false,
        Tree::Variable(v) => v == var,
        Tree::Sqrt(a) | Tree::Parentheses(a) => tree_has_variable(*a, var),
        Tree::Power(a, b) | Tree::Add(a, b) | Tree::Subtract(a, b) | Tree::Multiply(a, b) | Tree::Divide(
            a,
            b,
        ) => tree_has_variable(*a, var) || tree_has_variable(*b, var),
        Tree::FunctionCall(_, args) => exists|i: int|
            0 <= i < args.len() && tree_has_variable(#[trigger] args[i], var),
    }
}

/// The tree with every use of the named variable replaced by another tree.
pub open spec fn spec_substitute(t: Tree, var: char, subst: Tree) -> Tree
    decreases t,
{
    match t {
        Tree::Number(n) => Tree::Number(n),
        Tree::Variable(v) => if v == var {
            subst
        } else {
            Tree::Variable(v)
        },
        Tree::Sqrt(a) => Tree::Sqrt(Box::new(spec_substitute(*a, var, subst))),
        Tree::Parentheses(a) => Tree::Parentheses(Box::new(spec_substitute(*a, var, subst))),
        Tree::Power(a, b) => Tree::Power(
            Box::new(spec_substitute(*a, var, subst)),
            Box::new(spec_substitute(*b, var, subst)),
        ),
        Tree::Add(a, b) => Tree::Add(
            Box::new(spec_substitute(*a, var, subst)),
            Box::new(spec_substitute(*b, var, subst)),
        ),
        Tree::Subtract(a, b) => Tree::Subtract(
            Box::new(spec_substitute(*a, var, subst)),
            Box::new(spec_substitute(*b, var, subst)),
        ),
        Tree::Multiply(a, b) => Tree::Multiply(
            Box::new(spec_substitute(*a, var, subst)),
            Box::new(spec_substitute(*b, var, subst)),
        ),
        Tree::Divide(a, b) => Tree::Divide(
            Box::new(spec_substitute(*a, var, subst)),
            Box::new(spec_substitute(*b, var, subst)),
        ),
        Tree::FunctionCall(f, args) => Tree::FunctionCall(
            f,
            Seq::new(
                args.len(),
                |i: int|
                    if 0 <= i < args.len() {
                        spec_substitute(args[i], var, subst)
                    } else {
                        Tree::Variable(var)
                    },
            ),
        ),
    }
}

impl StructuredNode {
    /// A copy of this node tree.
    pub fn copy(&self) -> (r: Self)
        ensures
            r@ == self@,
        decreases self,
    {
        match self {
            StructuredNode::Number(n) => StructuredNode::Number(*n),
            StructuredNode::Variable(v) => StructuredNode::Variable(*v),
            StructuredNode::Sqrt(a) => StructuredNode::Sqrt(Box::new(a.copy())),
            StructuredNode::Power(a, b) => StructuredNode::Power(Box::new(a.copy()), Box::new(b.copy())),
            StructuredNode::Add(a, b) => StructuredNode::Add(Box::new(a.copy()), Box::new(b.copy())),
            StructuredNode::Subtract(a, b) => StructuredNode::Subtract(Box::new(a.copy()), Box::new(b.copy())),
            StructuredNode::Multiply(a, b) => StructuredNode::Multiply(Box::new(a.copy()), Box::new(b.copy())),
            StructuredNode::Divide(a, b) => StructuredNode::Divide(Box::new(a.copy()), Box::new(b.copy())),
            StructuredNode::Parentheses(a) => StructuredNode::Parentheses(Box::new(a.copy())),
            StructuredNode::FunctionCall(f, args) => {
                let mut new_args: Vec<StructuredNode> = Vec::new();
                let mut i: usize = 0;
                while i < args.len()
                    invariant
                        i <= args@.len(),
                        *self == StructuredNode::FunctionCall(*f, *args),
                        new_args@.len() == i,
                        forall|j: int| 0 <= j < i ==> (#[trigger] new_args@[j])@ == args@[j]@,
                    decreases args@.len() - i,
                {
                    proof {
                        assert(decreases_to!(*self => self->FunctionCall_1));
                        assert(decreases_to!(self->FunctionCall_1 => args[i as int]));
                    }
                    new_args.push(args[i].copy());
                    i = i + 1;
                }
                let r = StructuredNode::FunctionCall(*f, new_args);
                proof {
                    assert(r@->FunctionCall_1 =~= self@->FunctionCall_1);
                }
                r
            },
        }
    }

    /// Returns true if this node can be evaluated: every decimal is within its limits, and every
    /// function call has as many arguments as its function takes.
    pub fn is_evaluable(&self) -> (r: bool)
        ensures
            r == tree_wf(self@),
        decreases self,
    {
        match self {
            StructuredNode::Number(n) => match n {
                Number::Decimal(d, _) => d.within_limits(),
                Number::Rational(_, _) => true,
            },
            StructuredNode::Variable(_) => true,
            StructuredNode::Sqrt(a) => a.is_evaluable(),
            StructuredNode::Parentheses(a) => a.is_evaluable(),
            StructuredNode::Power(a, b) => a.is_evaluable() && b.is_evaluable(),
            StructuredNode::Add(a, b) => a.is_evaluable() && b.is_evaluable(),
            StructuredNode::Subtract(a, b) => a.is_evaluable() && b.is_evaluable(),
            StructuredNode::Multiply(a, b) => a.is_evaluable() && b.is_evaluable(),
            StructuredNode::Divide(a, b) => a.is_evaluable() && b.is_evaluable(),
            StructuredNode::FunctionCall(f, args) => {
                if args.len() != f.argument_count() {
                    return false;
                }
                let mut i: usize = 0;
                while i < args.len()
                    invariant
                        i <= args@.len(),
                        *self == StructuredNode::FunctionCall(*f, *args),
                        forall|j: int| 0 <= j < i ==> tree_wf(#[trigger] self@->FunctionCall_1[j]),
                    decreases args@.len() - i,
                {
                    proof {
                        assert(decreases_to!(*self => self->FunctionCall_1));
                        assert(decreases_to!(self->FunctionCall_1 => args[i as int]));
                    }
                    if !args[i].is_evaluable() {
                        assert(self@->FunctionCall_1[i as int] == args@[i as int]@);
                        return false;
                    }
                    assert(self@->FunctionCall_1[i as int] == args@[i as int]@);
                    i = i + 1;
                }
                true
            },
        }
    }

    /// Returns true if this node is `Add` or `Subtract`.
    pub fn add_or_sub(&self) -> (r: bool)
        ensures
            r == tree_add_or_sub(self@),
    {
        matches!(self, StructuredNode::Add(_, _) | StructuredNode::Subtract(_, _))
    }

    /// Returns true if this node is `Multiply` or `Divide`.
    pub fn mul_or_div(&self) -> (r: bool)
        ensures
            r == tree_mul_or_div(self@),
    {
        matches!(self, StructuredNode::Multiply(_, _) | StructuredNode::Divide(_, _))
    }

    /// Returns a copy of this node wrapped in `Parentheses`.
    pub fn in_parentheses(&self) -> (r: StructuredNode)
        ensures
            r@ == Tree::Parentheses(Box::new(self@)),
    {
        StructuredNode::Parentheses(Box::new(self.copy()))
    }

    /// If `parens` is true, returns a copy of this node wrapped in `Parentheses`, otherwise just
    /// returns a plain copy of this node.
    pub fn in_parentheses_or_clone(&self, parens: bool) -> (r: StructuredNode)
        ensures
            r@ == parenthesized(self@, parens),
    {
        if parens {
            self.in_parentheses()
        } else {
            self.copy()
        }
    }

    /// Returns a copy of this node tree with added parentheses to show the order of operations
    /// when the tree is rendered. The tree should be upgraded before doing this.
    pub fn disambiguate(&self) -> (r: Result<StructuredNode, MathsError>)
        ensures
            r matches Ok(n) && n@ == spec_disambiguate(self@),
    {
        // Parentheses are needed around operations which mix precedence, such as (3+2)*4, and
        // around those which go against the associativity of - and /, such as 3-(3-2)
        Ok(
            match self {
                StructuredNode::Multiply(l, r) => {
                    let l = l.in_parentheses_or_clone(l.add_or_sub());
                    let r = r.in_parentheses_or_clone(r.add_or_sub() || r.mul_or_div());
                    StructuredNode::Multiply(Box::new(l), Box::new(r))
                },
                StructuredNode::Divide(l, r) => {
                    let l = l.in_parentheses_or_clone(l.add_or_sub());
                    let r = r.in_parentheses_or_clone(r.add_or_sub() || r.mul_or_div());
                    StructuredNode::Divide(Box::new(l), Box::new(r))
                },
                StructuredNode::Add(l, r) => {
                    let r = r.in_parentheses_or_clone(r.add_or_sub());
                    StructuredNode::Add(Box::new(l.copy()), Box::new(r))
                },
                StructuredNode::Subtract(l, r) => {
                    let r = r.in_parentheses_or_clone(r.add_or_sub());
                    StructuredNode::Subtract(Box::new(l.copy()), Box::new(r))
                },
                _ => self.copy(),
            },
        )
    }

    /// Evaluates this node into a single number.
    pub fn evaluate(&self, settings: &EvaluationSettings) -> (r: Result<Number, MathsError>)
        requires
            tree_wf(self@),
        ensures
            r == spec_evaluate(self@, *settings),
            r matches Ok(n) ==> number_wf(n),
        decreases self,
    {
        match self {
            StructuredNode::Number(n) => Ok(*n),
            StructuredNode::Variable(_) => Err(MathsError::MissingVariable),
            StructuredNode::Sqrt(inner) => {
                let x = StructuredNode::evaluate(inner, settings)?;
                x.checked_sqrt()
            },
            StructuredNode::Power(b, e) => {
                let x = StructuredNode::evaluate(b, settings)?;
                let y = StructuredNode::evaluate(e, settings)?;
                x.checked_pow(y)
            },
            StructuredNode::Add(a, b) => {
                let x = StructuredNode::evaluate(a, settings)?;
                let y = StructuredNode::evaluate(b, settings)?;
                x.checked_add(y)
            },
            StructuredNode::Subtract(a, b) => {
                let x = StructuredNode::evaluate(a, settings)?;
                let y = StructuredNode::evaluate(b, settings)?;
                x.checked_sub(y)
            },
            StructuredNode::Multiply(a, b) => {
                let x = StructuredNode::evaluate(a, settings)?;
                let y = StructuredNode::evaluate(b, settings)?;
                x.checked_mul(y)
            },
            StructuredNode::Divide(a, b) => {
                let x = StructuredNode::evaluate(a, settings)?;
                let y = StructuredNode::evaluate(b, settings)?;
                x.checked_div(y)
            },
            StructuredNode::Parentheses(inner) => StructuredNode::evaluate(inner, settings),
            StructuredNode::FunctionCall(func, args) => {
                let ghost targs = self@->FunctionCall_1;
                let mut values: Vec<Number> = Vec::new();
                let mut i: usize = 0;
                while i < args.len()
                    invariant
                        i <= args@.len(),
                        *self == StructuredNode::FunctionCall(*func, *args),
                        targs == self@->FunctionCall_1,
                        tree_wf(self@),
                        targs.len() == args@.len(),
                        forall|j: int| 0 <= j < args@.len() ==> targs[j] == (#[trigger] args@[j])@,
                        spec_evaluate_args(targs, *settings, i as int) == Ok::<Seq<Number>, MathsError>(values@),
                        values@.len() == i,
                        forall|j: int| 0 <= j < i ==> number_wf(#[trigger] values@[j]),
                    decreases args@.len() - i,
                {
                    proof {
                        assert(decreases_to!(*self => self->FunctionCall_1));
                        assert(decreases_to!(self->FunctionCall_1 => args[i as int]));
                        assert(tree_wf(targs[i as int]));
                    }
                    match StructuredNode::evaluate(&args[i], settings) {
                        Ok(v) => values.push(v),
                        Err(e) => {
                            proof {
                                lemma_args_err(targs, *settings, i + 1, targs.len() as int);
                            }
                            return Err(e);
                        },
                    }
                    i = i + 1;
                }
                func.evaluate(values.as_slice(), settings)
            },
        }
    }

    /// Returns a copy of this node tree where all uses of a variable are replaced with another
    /// node tree.
    pub fn substitute_variable(&self, var_name: char, subst: &StructuredNode) -> (r: StructuredNode)
        requires
            !tree_has_variable(subst@, var_name),
        ensures
            r@ == spec_substitute(self@, var_name, subst@),
        decreases self,
    {
        match self {
            StructuredNode::Number(n) => StructuredNode::Number(*n),
            StructuredNode::Variable(v) => if *v == var_name {
                subst.copy()
            } else {
                StructuredNode::Variable(*v)
            },
            StructuredNode::Sqrt(a) => StructuredNode::Sqrt(Box::new(a.substitute_variable(var_name, subst))),
            StructuredNode::Parentheses(a) => StructuredNode::Parentheses(
                Box::new(a.substitute_variable(var_name, subst)),
            ),
            StructuredNode::Power(a, b) => StructuredNode::Power(
                Box::new(a.substitute_variable(var_name, subst)),
                Box::new(b.substitute_variable(var_name, subst)),
            ),
            StructuredNode::Add(a, b) => StructuredNode::Add(
                Box::new(a.substitute_variable(var_name, subst)),
                Box::new(b.substitute_variable(var_name, subst)),
            ),
            StructuredNode::Subtract(a, b) => StructuredNode::Subtract(
                Box::new(a.substitute_variable(var_name, subst)),
                Box::new(b.substitute_variable(var_name, subst)),
            ),
            StructuredNode::Multiply(a, b) => StructuredNode::Multiply(
                Box::new(a.substitute_variable(var_name, subst)),
                Box::new(b.substitute_variable(var_name, subst)),
            ),
            StructuredNode::Divide(a, b) => StructuredNode::Divide(
                Box::new(a.substitute_variable(var_name, subst)),
                Box::new(b.substitute_variable(var_name, subst)),
            ),
            StructuredNode::FunctionCall(f, args) => {
                let mut new_args: Vec<StructuredNode> = Vec::new();
                let mut i: usize = 0;
                while i < args.len()
                    invariant
                        i <= args@.len(),
                        *self == StructuredNode::FunctionCall(*f, *args),
                        !tree_has_variable(subst@, var_name),
                        new_args@.len() == i,
                        forall|j: int|
                            0 <= j < i ==> (#[trigger] new_args@[j])@ == spec_substitute(args@[j]@, var_name, subst@),
                    decreases args@.len() - i,
                {
                    proof {
                        assert(decreases_to!(*self => self->FunctionCall_1));
                        assert(decreases_to!(self->FunctionCall_1 => args[i as int]));
                    }
                    new_args.push(args[i].substitute_variable(var_name, subst));
                    i = i + 1;
                }
                let r = StructuredNode::FunctionCall(*f, new_args);
                proof {
                    assert(r@->FunctionCall_1 =~= spec_substitute(self@, var_name, subst@)->FunctionCall_1);
                }
                r
            },
        }
    }

    /// Walks over all nodes in this tree, parents before their children, calling the function on
    /// each.
    pub fn walk<F: Fn(&StructuredNode)>(&self, func: &F)
        requires
            forall|n: &StructuredNode| #[trigger] func.requires((n,)),
        decreases self,
    {
        func(self);
        match self {
            StructuredNode::Add(l, r) | StructuredNode::Subtract(l, r) | StructuredNode::Multiply(l, r)
            | StructuredNode::Divide(l, r) | StructuredNode::Power(l, r) => {
                l.walk(func);
                r.walk(func);
            },
            StructuredNode::Sqrt(inner) | StructuredNode::Parentheses(inner) => {
                inner.walk(func);
            },
            StructuredNode::FunctionCall(_, args) => {
                let mut i: usize = 0;
                while i < args.len()
                    invariant
                        i <= args@.len(),
                        *self == StructuredNode::FunctionCall(self->FunctionCall_0, *args),
                        forall|n: &StructuredNode| #[trigger] func.requires((n,)),
                    decreases args@.len() - i,
                {
                    proof {
                        assert(decreases_to!(*self => self->FunctionCall_1));
                        assert(decreases_to!(self->FunctionCall_1 => args[i as int]));
                    }
                    args[i].walk(func);
                    i = i + 1;
                }
            },
            StructuredNode::Number(_) | StructuredNode::Variable(_) => {},
        }
    }
}

impl Clone for StructuredNode {
    fn clone(&self) -> (r: Self)
        ensures
            r@ == self@,
    {
        self.copy()
    }
}


/// The glyph which draws a character of a decimal's digits: a decimal point, or a digit.
pub open spec fn number_char_glyph(c: char) -> Glyph {
    if c == '.' {
        Glyph::Point
    } else {
        Glyph::Digit { number: char_digit(c).unwrap() as u8 }
    }
}

/// The glyphs which draw a decimal: a minus sign where it is negative, then the digits of its
/// magnitude.
pub open spec fn decimal_glyphs(d: Dec) -> Seq<Glyph> {
    let negative = d.mantissa < 0;
    let magnitude = if negative { Dec { mantissa: (-d.mantissa) as i128, scale: d.scale } } else { d };
    let digits = decimal_to_string(magnitude.parts()).map_values(|c: char| number_char_glyph(c));
    if negative {
        seq![Glyph::Subtract] + digits
    } else {
        digits
    }
}

/// Glyphs laid out one after the other.
pub open spec fn glyph_row(sz: SizeFn, glyphs: Seq<Glyph>, level: u32) -> BlockModel {
    spec_layout_horizontal(glyphs.map_values(|g: Glyph| spec_glyph_block(sz, g, level)))
}

/// The layout of a decimal.
pub open spec fn decimal_layout(sz: SizeFn, d: Dec, level: u32) -> BlockModel {
    glyph_row(sz, decimal_glyphs(d), level)
}

/// The layout of a number: a rational with a denominator of one is its numerator, and any other
/// rational is a fraction.
pub open spec fn number_layout(sz: SizeFn, n: Number, level: u32) -> BlockModel {
    match n {
        Number::Decimal(d, _) => decimal_layout(sz, d, level),
        Number::Rational(p, q) => if q == 1 {
            decimal_layout(sz, Dec { mantissa: p as i128, scale: 0 }, level)
        } else {
            spec_fraction(
                sz,
                decimal_layout(sz, Dec { mantissa: p as i128, scale: 0 }, level),
                decimal_layout(sz, Dec { mantissa: q as i128, scale: 0 }, level),
                level,
            )
        },
    }
}

/// Two operands with an operator glyph between them, along a common baseline.
pub open spec fn spec_binop(sz: SizeFn, glyph: Glyph, left: BlockModel, right: BlockModel, level: u32) -> BlockModel {
    let op = spec_offset(spec_glyph_block(sz, glyph, level), left.area.width, 0);
    let right = spec_offset(right, op.area.width, 0);
    spec_merge_along_baseline(spec_merge_along_baseline(left, op), right)
}

/// Every decimal in the tree is within its limits.
pub open spec fn tree_numbers_wf(t: Tree) -> bool
    decreases t,
{
    match t {
        Tree::Number(n) => number_wf(n),
        Tree::Variable(_) => true,
        Tree::Sqrt(a) | Tree::Parentheses(a) => tree_numbers_wf(*a),
        Tree::Power(a, b) | Tree::Add(a, b) | Tree::Subtract(a, b) | Tree::Multiply(a, b) | Tree::Divide(
            a,
            b,
        ) => tree_numbers_wf(*a) && tree_numbers_wf(*b),
        Tree::FunctionCall(_, args) => forall|i: int| 0 <= i < args.len() ==> tree_numbers_wf(#[trigger] args[i]),
    }
}

/// The layout of a structured tree. A power's exponent is drawn one level smaller, raised from
/// the baseline of its base.
pub open spec fn spec_tree_layout(sz: SizeFn, t: Tree, level: u32) -> BlockModel
    decreases t, 0int,
{
    match t {
        Tree::Number(n) => number_layout(sz, n, level),
        Tree::Variable(v) => spec_glyph_block(sz, Glyph::Variable { name: v }, level),
        Tree::Add(l, r) => spec_binop(sz, Glyph::Add, spec_tree_layout(sz, *l, level), spec_tree_layout(sz, *r, level), level),
        Tree::Subtract(l, r) => spec_binop(
            sz,
            Glyph::Subtract,
            spec_tree_layout(sz, *l, level),
            spec_tree_layout(sz, *r, level),
            level,
        ),
        Tree::Multiply(l, r) => spec_binop(
            sz,
            Glyph::Multiply,
            spec_tree_layout(sz, *l, level),
            spec_tree_layout(sz, *r, level),
            level,
        ),
        Tree::Divide(t, b) => spec_fraction(sz, spec_tree_layout(sz, *t, level), spec_tree_layout(sz, *b, level), level),
        Tree::Sqrt(a) => spec_sqrt(sz, spec_tree_layout(sz, *a, level), level),
        Tree::Parentheses(a) => spec_parentheses(sz, spec_tree_layout(sz, *a, level), level),
        Tree::Power(b, e) => {
            let base = spec_tree_layout(sz, *b, level);
            let exponent = spec_tree_layout(sz, *e, vstd::wrapping::u32_specs::wrapping_add(level, 1));
            spec_layout_horizontal(seq![base, spec_power(Some(base), exponent)])
        },
        Tree::FunctionCall(f, args) => spec_function_call(sz, f, spec_tree_layouts(sz, args, level, args.len() as int), level),
    }
}

/// The layouts of the first `k` trees.
pub open spec fn spec_tree_layouts(sz: SizeFn, args: Seq<Tree>, level: u32, k: int) -> Seq<BlockModel>
    decreases args, k,
{
    if k <= 0 || k > args.len() {
        Seq::empty()
    } else {
        spec_tree_layouts(sz, args, level, k - 1).push(spec_tree_layout(sz, args[k - 1], level))
    }
}

/// Lays out a decimal glyph by glyph.
fn layout_decimal<R: Renderer>(d: Dec, renderer: &mut R, properties: LayoutComputationProperties) -> (r: LayoutBlock)
    requires
        d.wf(),
    ensures
        r@ == decimal_layout(old(renderer).sizes(), d, properties.size_reduction_level),
        final(renderer).sizes() == old(renderer).sizes(),
{
    let ghost sz = renderer.sizes();
    let ghost level = properties.size_reduction_level;
    let ghost glyphs = decimal_glyphs(d);
    let negative = d.is_negative();
    let magnitude = if negative { d.neg() } else { d };
    let text = dec_to_string(magnitude);
    let st = text.as_str();
    let n = st.unicode_len();
    let ghost chars = text@;
    let ghost lead: int = if negative { 1 } else { 0 };
    let mut layouts: Vec<LayoutBlock> = Vec::new();
    if negative {
        layouts.push(LayoutBlock::from_glyph(renderer, Glyph::Subtract, properties));
    }
    let mut i: usize = 0;
    while i < n
        invariant
            i <= n,
            n == chars.len(),
            st@ == chars,
            chars == decimal_to_string(magnitude.parts()),
            magnitude.mantissa >= 0,
            forall|j: int| 0 <= j < chars.len() ==> (#[trigger] chars[j] == '.' || char_digit(chars[j]) is Some),
            renderer.sizes() == sz,
            level == properties.size_reduction_level,
            glyphs == decimal_glyphs(d),
            lead == (if d.mantissa < 0 { 1int } else { 0int }),
            magnitude == (if d.mantissa < 0 { Dec { mantissa: (-d.mantissa) as i128, scale: d.scale } } else { d }),
            views(layouts@) =~= glyphs.take(lead + i).map_values(|g: Glyph| spec_glyph_block(sz, g, level)),
        decreases n - i,
    {
        let c = st.get_char(i);
        assert(c == chars[i as int]);
        let glyph = if c == '.' {
            Glyph::Point
        } else {
            Glyph::Digit { number: (c as u32 - '0' as u32) as u8 }
        };
        assert(glyph == number_char_glyph(chars[i as int]));
        assert(glyphs[lead + i] == glyph);
        let ghost before = views(layouts@);
        layouts.push(LayoutBlock::from_glyph(renderer, glyph, properties));
        proof {
            assert(views(layouts@) =~= before.push(spec_glyph_block(sz, glyph, level)));
            assert(glyphs.take(lead + i + 1) =~= glyphs.take(lead + i).push(glyph));
        }
        i = i + 1;
    }
    proof {
        assert(glyphs.len() == lead + n);
        assert(glyphs.take(lead + n) =~= glyphs);
    }
    LayoutBlock::layout_horizontal(layouts.as_slice())
}

/// Lays out a number.
fn layout_number<R: Renderer>(n: Number, renderer: &mut R, properties: LayoutComputationProperties) -> (r: LayoutBlock)
    requires
        number_wf(n),
    ensures
        r@ == number_layout(old(renderer).sizes(), n, properties.size_reduction_level),
        final(renderer).sizes() == old(renderer).sizes(),
{
    match n {
        Number::Decimal(d, _) => layout_decimal(d, renderer, properties),
        Number::Rational(p, q) => {
            if q == 1 {
                layout_decimal(Dec::from_i64(p), renderer, properties)
            } else {
                let top = layout_decimal(Dec::from_i64(p), renderer, properties);
                let bottom = layout_decimal(Dec::from_i64(q), renderer, properties);
                layout_fraction(top, bottom, renderer, properties)
            }
        },
    }
}

/// Places an operator glyph between two laid out operands.
fn layout_binop<R: Renderer>(
    renderer: &mut R,
    glyph: Glyph,
    properties: LayoutComputationProperties,
    left_layout: LayoutBlock,
    right_layout: LayoutBlock,
) -> (r: LayoutBlock)
    ensures
        r@ == spec_binop(old(renderer).sizes(), glyph, left_layout@, right_layout@, properties.size_reduction_level),
        final(renderer).sizes() == old(renderer).sizes(),
{
    let binop_layout = LayoutBlock::from_glyph(renderer, glyph, properties).move_right_of_other(&left_layout);
    let right_layout = right_layout.move_right_of_other(&binop_layout);
    left_layout.merge_along_baseline(&binop_layout).merge_along_baseline(&right_layout)
}

/// Lays out a structured tree.
fn layout_tree<R: Renderer>(n: &StructuredNode, renderer: &mut R, properties: LayoutComputationProperties) -> (r: LayoutBlock)
    requires
        tree_numbers_wf(n@),
    ensures
        r@ == spec_tree_layout(old(renderer).sizes(), n@, properties.size_reduction_level),
        final(renderer).sizes() == old(renderer).sizes(),
    decreases n,
{
    match n {
        StructuredNode::Number(x) => layout_number(*x, renderer, properties),
        StructuredNode::Variable(v) => LayoutBlock::from_glyph(renderer, Glyph::Variable { name: *v }, properties),
        StructuredNode::Add(l, r) => {
            let left = layout_tree(l, renderer, properties);
            let right = layout_tree(r, renderer, properties);
            layout_binop(renderer, Glyph::Add, properties, left, right)
        },
        StructuredNode::Subtract(l, r) => {
            let left = layout_tree(l, renderer, properties);
            let right = layout_tree(r, renderer, properties);
            layout_binop(renderer, Glyph::Subtract, properties, left, right)
        },
        StructuredNode::Multiply(l, r) => {
            let left = layout_tree(l, renderer, properties);
            let right = layout_tree(r, renderer, properties);
            layout_binop(renderer, Glyph::Multiply, properties, left, right)
        },
        StructuredNode::Divide(t, b) => {
            let top = layout_tree(t, renderer, properties);
            let bottom = layout_tree(b, renderer, properties);
            layout_fraction(top, bottom, renderer, properties)
        },
        StructuredNode::Sqrt(a) => {
            let inner = layout_tree(a, renderer, properties);
            layout_sqrt(inner, renderer, properties)
        },
        StructuredNode::Parentheses(a) => {
            let inner = layout_tree(a, renderer, properties);
            layout_parentheses(inner, renderer, properties)
        },
        StructuredNode::Power(b, e) => {
            // Exponents are drawn one level smaller
            let base = layout_tree(b, renderer, properties);
            let exponent = layout_tree(e, renderer, properties.reduce_size());
            let raised = layout_power(Some(&base), exponent);
            let ghost parts = seq![base@, raised@];
            let blocks = vec![base, raised];
            proof {
                assert(views(blocks@) =~= parts);
            }
            LayoutBlock::layout_horizontal(blocks.as_slice())
        },
        StructuredNode::FunctionCall(f, args) => {
            let ghost sz = renderer.sizes();
            let ghost level = properties.size_reduction_level;
            let ghost targs = n@->FunctionCall_1;
            let mut layouts: Vec<LayoutBlock> = Vec::new();
            let mut i: usize = 0;
            while i < args.len()
                invariant
                    i <= args@.len(),
                    *n == StructuredNode::FunctionCall(*f, *args),
                    targs == n@->FunctionCall_1,
                    tree_numbers_wf(n@),
                    targs.len() == args@.len(),
                    forall|j: int| 0 <= j < args@.len() ==> targs[j] == (#[trigger] args@[j])@,
                    renderer.sizes() == sz,
                    level == properties.size_reduction_level,
                    views(layouts@) =~= spec_tree_layouts(sz, targs, level, i as int),
                decreases args@.len() - i,
            {
                proof {
                    assert(decreases_to!(*n => n->FunctionCall_1));
                    assert(decreases_to!(n->FunctionCall_1 => args[i as int]));
                    assert(tree_numbers_wf(targs[i as int]));
                }
                let ghost before = views(layouts@);
                let block = layout_tree(&args[i], renderer, properties);
                layouts.push(block);
                proof {
                    assert(views(layouts@) =~= before.push(block@));
                }
                i = i + 1;
            }
            layout_function_call(*f, layouts, renderer, properties)
        },
    }
}

impl Layoutable for StructuredNode {
    /// Structured trees never show a cursor, so any path can be given.
    open spec fn layout_ok(&self, cursor: Option<Seq<usize>>) -> bool {
        tree_numbers_wf(self@)
    }

    open spec fn spec_layout(&self, sz: SizeFn, cursor: Option<Seq<usize>>, level: u32) -> BlockModel {
        spec_tree_layout(sz, self@, level)
    }

    fn layout<R: Renderer>(
        &self,
        renderer: &mut R,
        path: Option<&NavPathNavigator>,
        properties: LayoutComputationProperties,
    ) -> (r: LayoutBlock) {
        layout_tree(self, renderer, properties)
    }
}

impl Evaluable for StructuredNode {
    type Substituted = StructuredNode;

    type Settings = EvaluationSettings;

    open spec fn evaluable(&self) -> bool {
        tree_wf(self@)
    }

    open spec fn spec_value(&self, settings: EvaluationSettings) -> Result<Number, MathsError> {
        spec_evaluate(self@, settings)
    }

    open spec fn can_substitute(&self, variable: char) -> bool {
        true
    }

    open spec fn substituted(&self, variable: char, value: Number, r: StructuredNode) -> bool {
        r@ == spec_substitute(self@, variable, Tree::Number(value))
    }

    fn evaluate(self, settings: &EvaluationSettings) -> (r: Result<Number, MathsError>) {
        StructuredNode::evaluate(&self, settings)
    }

    fn substitute(self, variable: char, value: Number) -> (r: StructuredNode) {
        self.substitute_variable(variable, &StructuredNode::Number(value))
    }
}

/// Parentheses do not change the value of what they hold.
pub proof fn lemma_parenthesized_value(t: Tree, parens: bool, settings: EvaluationSettings)
    ensures
        spec_evaluate(parenthesized(t, parens), settings) == spec_evaluate(t, settings),
{
    if parens {
        assert(spec_evaluate(Tree::Parentheses(Box::new(t)), settings) == spec_evaluate(t, settings));
    }
}

/// Disambiguating a tree, which adds parentheses to show the order of operations, does not
/// change its value.
pub proof fn lemma_disambiguate_keeps_value(t: Tree, settings: EvaluationSettings)
    ensures
        spec_evaluate(spec_disambiguate(t), settings) == spec_evaluate(t, settings),
{
    match t {
        Tree::Multiply(l, r) | Tree::Divide(l, r) => {
            lemma_parenthesized_value(*l, tree_add_or_sub(*l), settings);
            lemma_parenthesized_value(*r, tree_add_or_sub(*r) || tree_mul_or_div(*r), settings);
        },
        Tree::Add(l, r) | Tree::Subtract(l, r) => {
            lemma_parenthesized_value(*r, tree_add_or_sub(*r), settings);
        },
        _ => {},
    }
}

/// Substituting for a variable a tree which does not use it leaves no use of it.
pub proof fn lemma_substitute_removes_variable(t: Tree, var: char, subst: Tree)
    requires
        !tree_has_variable(subst, var),
    ensures
        !tree_has_variable(spec_substitute(t, var, subst), var),
    decreases t,
{
    match t {
        Tree::Number(_) | Tree::Variable(_) => {},
        Tree::Sqrt(a) | Tree::Parentheses(a) => {
            lemma_substitute_removes_variable(*a, var, subst);
        },
        Tree::Power(a, b) | Tree::Add(a, b) | Tree::Subtract(a, b) | Tree::Multiply(a, b) | Tree::Divide(a, b) => {
            lemma_substitute_removes_variable(*a, var, subst);
            lemma_substitute_removes_variable(*b, var, subst);
        },
        Tree::FunctionCall(f, args) => {
            let r = spec_substitute(t, var, subst)->FunctionCall_1;
            assert forall|i: int| 0 <= i < r.len() implies !tree_has_variable(#[trigger] r[i], var) by {
                lemma_substitute_removes_variable(args[i], var, subst);
            }
        },
    }
}

} // verus!
