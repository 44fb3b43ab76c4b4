//! The compiled node tree, which is immutable and opaque but evaluates quickly.
//!
//! Compiled nodes are created by transforming structured nodes. Everything about the structure of
//! the tree which evaluation does not need is discarded: parentheses disappear, and each variable
//! becomes either the parameter or a missing value, decided once at compile time.
//!
//! Compiled nodes are parameterised on at most one variable, the name of which is given during
//! compilation. The variable's value is given when the node is evaluated. If parameterisation is
//! not needed, pass a dummy value when evaluating the expression.

use vstd::prelude::*;

use crate::error::MathsError;
use crate::evaluate::Evaluable;
use crate::node::function::{spec_function_evaluate, Function};
use crate::node::structured::{
    spec_evaluate, spec_evaluate_args, spec_substitute, tree_wf, EvaluationSettings, StructuredNode, Tree,
};
use crate::number::{
    number_wf, spec_checked_add, spec_checked_div, spec_checked_mul, spec_checked_pow, spec_neg, spec_sqrt_number,
    Number,
};

verus! {

/// One operation of a compiled expression.
pub enum CompiledExpr {
    /// A constant number.
    Constant(Number),
    /// The value of the parameter.
    Parameter,
    /// A variable which is not the parameter, and so has no value.
    Missing,
    Sqrt(Box<CompiledExpr>),
    Power(Box<CompiledExpr>, Box<CompiledExpr>),
    Add(Box<CompiledExpr>, Box<CompiledExpr>),
    Subtract(Box<CompiledExpr>, Box<CompiledExpr>),
    Multiply(Box<CompiledExpr>, Box<CompiledExpr>),
    Divide(Box<CompiledExpr>, Box<CompiledExpr>),
    Call(Function, Vec<CompiledExpr>),
}

/// The mathematical value of a [CompiledExpr].
pub enum CompiledModel {
    Constant(Number),
    Parameter,
    Missing,
    Sqrt(Box<CompiledModel>),
    Power(Box<CompiledModel>, Box<CompiledModel>),
    Add(Box<CompiledModel>, Box<CompiledModel>),
    Subtract(Box<CompiledModel>, Box<CompiledModel>),
    Multiply(Box<CompiledModel>, Box<CompiledModel>),
    Divide(Box<CompiledModel>, Box<CompiledModel>),
    Call(Function, Seq<CompiledModel>),
}

impl CompiledExpr {
    pub open spec fn model(&self) -> CompiledModel
        decreases self,
    {
        match self {
            CompiledExpr::Constant(n) => CompiledModel::Constant(*n),
            CompiledExpr::Parameter => CompiledModel::Parameter,
            CompiledExpr::Missing => CompiledModel::Missing,
            CompiledExpr::Sqrt(a) => CompiledModel::Sqrt(Box::new(a.model())),
            CompiledExpr::Power(a, b) => CompiledModel::Power(Box::new(a.model()), Box::new(b.model())),
            CompiledExpr::Add(a, b) => CompiledModel::Add(Box::new(a.model()), Box::new(b.model())),
            CompiledExpr::Subtract(a, b) => CompiledModel::Subtract(Box::new(a.model()), Box::new(b.model())),
            CompiledExpr::Multiply(a, b) => CompiledModel::Multiply(Box::new(a.model()), Box::new(b.model())),
            CompiledExpr::Divide(a, b) => CompiledModel::Divide(Box::new(a.model()), Box::new(b.model())),
            CompiledExpr::Call(f, args) => CompiledModel::Call(
                *f,
                Seq::new(
                    args@.len(),
                    |i: int|
                        if 0 <= i < args@.len() {
                            args@[i].model()
                        } else {
                            CompiledModel::Missing
                        },
                ),
            ),
        }
    }
}

impl View for CompiledExpr {
    type V = CompiledModel;

    open spec fn view(&self) -> CompiledModel {
        self.model()
    }
}

/// A structured tree compiled for the given parameter variable.
pub open spec fn spec_compile(t: Tree, param_var: Option<char>) -> CompiledModel
    decreases t,
{
    match t {
        Tree::Number(n) => CompiledModel::Constant(n),
        Tree::Variable(v) => if param_var == Some(v) {
            CompiledModel::Parameter
        } else {
            CompiledModel::Missing
        },
        Tree::Sqrt(a) => CompiledModel::Sqrt(Box::new(spec_compile(*a, param_var))),
        Tree::Power(a, b) => CompiledModel::Power(Box::new(spec_compile(*a, param_var)), Box::new(spec_compile(*b, param_var))),
        Tree::Add(a, b) => CompiledModel::Add(Box::new(spec_compile(*a, param_var)), Box::new(spec_compile(*b, param_var))),
        Tree::Subtract(a, b) => CompiledModel::Subtract(
            Box::new(spec_compile(*a, param_var)),
            Box::new(spec_compile(*b, param_var)),
        ),
        Tree::Multiply(a, b) => CompiledModel::Multiply(
            Box::new(spec_compile(*a, param_var)),
            Box::new(spec_compile(*b, param_var)),
        ),
        Tree::Divide(a, b) => CompiledModel::Divide(Box::new(spec_compile(*a, param_var)), Box::new(spec_compile(*b, param_var))),
        Tree::Parentheses(a) => spec_compile(*a, param_var),
        Tree::FunctionCall(f, args) => CompiledModel::Call(
            f,
            Seq::new(
                args.len(),
                |i: int|
                    if 0 <= i < args.len() {
                        spec_compile(args[i], param_var)
                    } else {
                        CompiledModel::Missing
                    },
            ),
        ),
    }
}

/// Every constant is within its limits, and every function is given as many arguments as it
/// takes.
pub open spec fn compiled_wf(c: CompiledModel) -> bool
    decreases c,
{
    match c {
        CompiledModel::Constant(n) => number_wf(n),
        CompiledModel::Parameter | CompiledModel::Missing => true,
        CompiledModel::Sqrt(a) => compiled_wf(*a),
        CompiledModel::Power(a, b) | CompiledModel::Add(a, b) | CompiledModel::Subtract(a, b)
        | CompiledModel::Multiply(a, b) | CompiledModel::Divide(a, b) => compiled_wf(*a) && compiled_wf(*b),
        CompiledModel::Call(f, args) => args.len() == f.spec_argument_count() && forall|i: int|
            0 <= i < args.len() ==> compiled_wf(#[trigger] args[i]),
    }
}

/// The value of a compiled expression for a value of the parameter.
pub open spec fn spec_run(c: CompiledModel, param: Number, settings: EvaluationSettings) -> Result<Number, MathsError>
    decreases c, 0int,
{
    match c {
        CompiledModel::Constant(n) => Ok(n),
        CompiledModel::Parameter => Ok(param),
        CompiledModel::Missing => Err(MathsError::MissingVariable),
        CompiledModel::Sqrt(a) => match spec_run(*a, param, settings) {
            Ok(n) => spec_sqrt_number(n),
            Err(e) => Err(e),
        },
        CompiledModel::Power(a, b) => match (spec_run(*a, param, settings), spec_run(*b, param, settings)) {
            (Ok(x), Ok(y)) => spec_checked_pow(x, y),
            (Err(e), _) => Err(e),
            (_, Err(e)) => Err(e),
        },
        CompiledModel::Add(a, b) => match (spec_run(*a, param, settings), spec_run(*b, param, settings)) {
            (Ok(x), Ok(y)) => spec_checked_add(x, y),
            (Err(e), _) => Err(e),
            (_, Err(e)) => Err(e),
        },
        CompiledModel::Subtract(a, b) => match (spec_run(*a, param, settings), spec_run(*b, param, settings)) {
            (Ok(x), Ok(y)) => match spec_neg(y) {
                Some(z) => spec_checked_add(x, z),
                None => Err(MathsError::Overflow),
            },
            (Err(e), _) => Err(e),
            (_, Err(e)) => Err(e),
        },
        CompiledModel::Multiply(a, b) => match (spec_run(*a, param, settings), spec_run(*b, param, settings)) {
            (Ok(x), Ok(y)) => spec_checked_mul(x, y),
            (Err(e), _) => Err(e),
            (_, Err(e)) => Err(e),
        },
        CompiledModel::Divide(a, b) => match (spec_run(*a, param, settings), spec_run(*b, param, settings)) {
            (Ok(x), Ok(y)) => spec_checked_div(x, y),
            (Err(e), _) => Err(e),
            (_, Err(e)) => Err(e),
        },
        CompiledModel::Call(f, args) => match spec_run_args(args, param, settings, args.len() as int) {
            Ok(values) => spec_function_evaluate(f, values, settings),
            Err(e) => Err(e),
        },
    }
}

/// The values of the first `k` arguments, or the first error met while running them.
pub open spec fn spec_run_args(args: Seq<CompiledModel>, param: Number, settings: EvaluationSettings, k: int) -> Result<
    Seq<Number>,
    MathsError,
>
    decreases args, k,
{
    if k <= 0 || k > args.len() {
        Ok(Seq::empty())
    } else {
        match spec_run_args(args, param, settings, k - 1) {
            Ok(values) => match spec_run(args[k - 1], param, settings) {
                Ok(v) => Ok(values.push(v)),
                Err(e) => Err(e),
            },
            Err(e) => Err(e),
        }
    }
}

/// Once the first arguments fail to run, so do all that include them.
proof fn lemma_run_args_err(args: Seq<CompiledModel>, param: Number, settings: EvaluationSettings, k: int, m: int)
    requires
        0 < k <= m <= args.len(),
        spec_run_args(args, param, settings, k) is Err,
    ensures
        spec_run_args(args, param, settings, m) == spec_run_args(args, param, settings, k),
    decreases m - k,
{
    if m > k {
        lemma_run_args_err(args, param, settings, k, m - 1);
    }
}

/// A compiled node: an expression, the parameter variable it was compiled for, and the settings
/// with which its function calls are evaluated.
pub struct CompiledNode {
    /// The compiled expression.
    pub expr: CompiledExpr,
    /// The name of the parameter variable (if any) which this was compiled with.
    pub param_var: Option<char>,
    /// The settings given at compile time.
    pub settings: EvaluationSettings,
}

/// Compiles a structured tree.
fn compile(node: &StructuredNode, param_var: Option<char>) -> (r: CompiledExpr)
    ensures
        r@ == spec_compile(node@, param_var),
        tree_wf(node@) ==> compiled_wf(r@),
    decreases node,
{
    match node {
        StructuredNode::Number(n) => CompiledExpr::Constant(*n),
        StructuredNode::Variable(name) => match param_var {
            Some(p) => if p == *name {
                CompiledExpr::Parameter
            } else {
                CompiledExpr::Missing
            },
            None => CompiledExpr::Missing,
        },
        StructuredNode::Sqrt(inner) => CompiledExpr::Sqrt(Box::new(compile(inner, param_var))),
        StructuredNode::Power(b, e) => CompiledExpr::Power(Box::new(compile(b, param_var)), Box::new(compile(e, param_var))),
        StructuredNode::Add(l, r) => CompiledExpr::Add(Box::new(compile(l, param_var)), Box::new(compile(r, param_var))),
        StructuredNode::Subtract(l, r) => CompiledExpr::Subtract(Box::new(compile(l, param_var)), Box::new(compile(r, param_var))),
        StructuredNode::Multiply(l, r) => CompiledExpr::Multiply(Box::new(compile(l, param_var)), Box::new(compile(r, param_var))),
        StructuredNode::Divide(l, r) => CompiledExpr::Divide(Box::new(compile(l, param_var)), Box::new(compile(r, param_var))),
        StructuredNode::Parentheses(inner) => compile(inner, param_var),
        StructuredNode::FunctionCall(f, args) => {
            let mut compiled: Vec<CompiledExpr> = Vec::new();
            let mut i: usize = 0;
            while i < args.len()
                invariant
                    i <= args@.len(),
                    *node == StructuredNode::FunctionCall(*f, *args),
                    compiled@.len() == i,
                    forall|j: int| 0 <= j < i ==> (#[trigger] compiled@[j])@ == spec_compile(args@[j]@, param_var),
                    tree_wf(node@) ==> forall|j: int| 0 <= j < i ==> compiled_wf(#[trigger] compiled@[j]@),
                decreases args@.len() - i,
            {
                proof {
                    assert(decreases_to!(*node => node->FunctionCall_1));
                    assert(decreases_to!(node->FunctionCall_1 => args[i as int]));
                    if tree_wf(node@) {
                        assert(tree_wf(node@->FunctionCall_1[i as int]));
                    }
                }
                compiled.push(compile(&args[i], param_var));
                i = i + 1;
            }
            let r = CompiledExpr::Call(*f, compiled);
            proof {
                assert(r@->Call_1 =~= spec_compile(node@, param_var)->Call_1);
            }
            r
        },
    }
}

/// Runs a compiled expression with a value for the parameter.
fn run(c: &CompiledExpr, param: Number, settings: &EvaluationSettings) -> (r: Result<Number, MathsError>)
    requires
        compiled_wf(c@),
        number_wf(param),
    ensures
        r == spec_run(c@, param, *settings),
        r matches Ok(n) ==> number_wf(n),
    decreases c,
{
    match c {
        CompiledExpr::Constant(n) => Ok(*n),
        CompiledExpr::Parameter => Ok(param),
        CompiledExpr::Missing => Err(MathsError::MissingVariable),
        CompiledExpr::Sqrt(a) => {
            let x = run(a, param, settings)?;
            x.checked_sqrt()
        },
        CompiledExpr::Power(a, b) => {
            let x = run(a, param, settings)?;
            let y = run(b, param, settings)?;
            x.checked_pow(y)
        },
        CompiledExpr::Add(a, b) => {
            let x = run(a, param, settings)?;
            let y = run(b, param, settings)?;
            x.checked_add(y)
        },
        CompiledExpr::Subtract(a, b) => {
            let x = run(a, param, settings)?;
            let y = run(b, param, settings)?;
            x.checked_sub(y)
        },
        CompiledExpr::Multiply(a, b) => {
            let x = run(a, param, settings)?;
            let y = run(b, param, settings)?;
            x.checked_mul(y)
        },
        CompiledExpr::Divide(a, b) => {
            let x = run(a, param, settings)?;
            let y = run(b, param, settings)?;
            x.checked_div(y)
        },
        CompiledExpr::Call(func, args) => {
            let ghost cargs = c@->Call_1;
            let mut values: Vec<Number> = Vec::new();
            let mut i: usize = 0;
            while i < args.len()
                invariant
                    i <= args@.len(),
                    *c == CompiledExpr::Call(*func, *args),
                    cargs == c@->Call_1,
                    compiled_wf(c@),
                    number_wf(param),
                    cargs.len() == args@.len(),
                    forall|j: int| 0 <= j < args@.len() ==> cargs[j] == (#[trigger] args@[j])@,
                    spec_run_args(cargs, param, *settings, i as int) == Ok::<Seq<Number>, MathsError>(values@),
                    values@.len() == i,
                    forall|j: int| 0 <= j < i ==> number_wf(#[trigger] values@[j]),
                decreases args@.len() - i,
            {
                proof {
                    assert(decreases_to!(*c => c->Call_1));
                    assert(decreases_to!(c->Call_1 => args[i as int]));
                    assert(compiled_wf(cargs[i as int]));
                }
                match run(&args[i], param, settings) {
                    Ok(v) => values.push(v),
                    Err(e) => {
                        proof {
                            lemma_run_args_err(cargs, param, *settings, i + 1, cargs.len() as int);
                        }
                        return Err(e);
                    },
                }
                i = i + 1;
            }
            func.evaluate(values.as_slice(), settings)
        },
    }
}

impl CompiledNode {
    /// Compiles a [StructuredNode] tree, optionally parameterised on the given `param_var`.
    pub fn from_structured(node: StructuredNode, param_var: Option<char>, evaluation_settings: &EvaluationSettings) -> (r: Self)
        ensures
            r.expr@ == spec_compile(node@, param_var),
            r.param_var == param_var,
            r.settings == *evaluation_settings,
            tree_wf(node@) ==> compiled_wf(r.expr@),
    {
        CompiledNode { expr: compile(&node, param_var), param_var, settings: *evaluation_settings }
    }

    /// Evaluates a compiled node with the given parameter.
    ///
    /// If this was compiled with a parameter variable, the given parameter substitutes
    /// occurrences of that variable. Otherwise, you can just pass a dummy value.
    pub fn evaluate_raw(&self, param: Number) -> (r: Result<Number, MathsError>)
        requires
            compiled_wf(self.expr@),
            number_wf(param),
        ensures
            r == spec_run(self.expr@, param, self.settings),
            r matches Ok(n) ==> number_wf(n),
    {
        run(&self.expr, param, &self.settings)
    }
}

/// A compiled node with a value for its parameter, which [CompiledNode] gives when substituted.
/// It can be evaluated, but substituting into it a second time is not allowed.
pub struct CompiledNodeEvaluableSubstituted {
    pub node: CompiledNode,
    pub value: Number,
}

impl Evaluable for CompiledNode {
    type Substituted = CompiledNodeEvaluableSubstituted;

    type Settings = ();

    open spec fn evaluable(&self) -> bool {
        compiled_wf(self.expr@)
    }

    /// A compiled node with a parameter variable cannot be evaluated without a value for it.
    open spec fn spec_value(&self, settings: ()) -> Result<Number, MathsError> {
        if self.param_var is Some {
            Err(MathsError::MissingVariable)
        } else {
            spec_run(self.expr@, Number::Rational(0, 1), self.settings)
        }
    }

    /// Only the parameter variable can be substituted.
    open spec fn can_substitute(&self, variable: char) -> bool {
        self.param_var == Some(variable)
    }

    open spec fn substituted(&self, variable: char, value: Number, r: CompiledNodeEvaluableSubstituted) -> bool {
        r.node == *self && r.value == value
    }

    fn evaluate(self, settings: &()) -> (r: Result<Number, MathsError>) {
        if self.param_var.is_some() {
            return Err(MathsError::MissingVariable);
        }
        run(&self.expr, Number::zero(), &self.settings)
    }

    fn substitute(self, variable: char, value: Number) -> (r: CompiledNodeEvaluableSubstituted) {
        CompiledNodeEvaluableSubstituted { node: self, value }
    }
}

impl Evaluable for CompiledNodeEvaluableSubstituted {
    type Substituted = CompiledNodeEvaluableSubstituted;

    type Settings = ();

    open spec fn evaluable(&self) -> bool {
        compiled_wf(self.node.expr@) && number_wf(self.value)
    }

    open spec fn spec_value(&self, settings: ()) -> Result<Number, MathsError> {
        spec_run(self.node.expr@, self.value, self.node.settings)
    }

    /// A value has already been substituted, so nothing more can be.
    open spec fn can_substitute(&self, variable: char) -> bool {
        false
    }

    open spec fn substituted(&self, variable: char, value: Number, r: CompiledNodeEvaluableSubstituted) -> bool {
        false
    }

    fn evaluate(self, settings: &()) -> (r: Result<Number, MathsError>) {
        run(&self.node.expr, self.value, &self.node.settings)
    }

    fn substitute(self, variable: char, value: Number) -> (r: CompiledNodeEvaluableSubstituted) {
        vstd::pervasive::unreached()
    }
}

/// Compiling for no parameter and running with any value gives what evaluating the structured
/// tree gives.
pub proof fn lemma_compiled_evaluates_as_structured(t: Tree, param: Number, settings: EvaluationSettings)
    ensures
        spec_run(spec_compile(t, None), param, settings) == spec_evaluate(t, settings),
    decreases t,
{
    lemma_compiled_substitutes(t, None, 'x', param, settings);
}

/// Compiling for a parameter variable and running with a value gives what evaluating the
/// structured tree gives once that value is substituted for the variable. Without a parameter
/// variable, nothing is substituted.
pub proof fn lemma_compiled_substitutes(t: Tree, param_var: Option<char>, var: char, param: Number, settings: EvaluationSettings)
    requires
        param_var is Some ==> param_var == Some(var),
    ensures
        spec_run(spec_compile(t, param_var), param, settings) == spec_evaluate(
            if param_var is Some {
                spec_substitute(t, var, Tree::Number(param))
            } else {
                t
            },
            settings,
        ),
    decreases t, 1int,
{
    match t {
        Tree::Number(_) | Tree::Variable(_) => {},
        Tree::Sqrt(a) | Tree::Parentheses(a) => {
            lemma_compiled_substitutes(*a, param_var, var, param, settings);
        },
        Tree::Power(a, b) | Tree::Add(a, b) | Tree::Subtract(a, b) | Tree::Multiply(a, b) | Tree::Divide(a, b) => {
            lemma_compiled_substitutes(*a, param_var, var, param, settings);
            lemma_compiled_substitutes(*b, param_var, var, param, settings);
        },
        Tree::FunctionCall(f, args) => {
            let compiled = spec_compile(t, param_var)->Call_1;
            let target = if param_var is Some {
                spec_substitute(t, var, Tree::Number(param))
            } else {
                t
            };
            let targs = target->FunctionCall_1;
            lemma_compiled_args(args, compiled, targs, param_var, var, param, settings, args.len() as int);
        },
    }
}

/// The arguments of a compiled call run to the values of the arguments of the call.
proof fn lemma_compiled_args(
    args: Seq<Tree>,
    compiled: Seq<CompiledModel>,
    targs: Seq<Tree>,
    param_var: Option<char>,
    var: char,
    param: Number,
    settings: EvaluationSettings,
    k: int,
)
    requires
        param_var is Some ==> param_var == Some(var),
        0 <= k <= args.len(),
        compiled.len() == args.len(),
        targs.len() == args.len(),
        forall|i: int| 0 <= i < args.len() ==> #[trigger] compiled[i] == spec_compile(args[i], param_var),
        forall|i: int|
            0 <= i < args.len() ==> #[trigger] targs[i] == if param_var is Some {
                spec_substitute(args[i], var, Tree::Number(param))
            } else {
                args[i]
            },
    ensures
        spec_run_args(compiled, param, settings, k) == spec_evaluate_args(targs, settings, k),
    decreases args, k,
{
    if k > 0 {
        lemma_compiled_args(args, compiled, targs, param_var, var, param, settings, k - 1);
        lemma_compiled_substitutes(args[k - 1], param_var, var, param, settings);
    }
}

} // verus!
