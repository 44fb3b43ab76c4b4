//! An abstraction for something which can be evaluated into a number.
//!
//! This is implemented for structured nodes, and for compiled nodes, which are not editable but
//! are quicker to evaluate repeatedly.

use vstd::prelude::*;

use crate::error::MathsError;
use crate::number::{number_wf, Number};

verus! {

/// Something which can be evaluated into a number, optionally with a variable substituted into
/// it.
pub trait Evaluable: Sized {
    /// The type returned by [substitute](Evaluable::substitute), which can itself be evaluated.
    type Substituted;

    /// A type containing settings needed for evaluation.
    type Settings;

    /// This can be evaluated: every number in it is within its limits, and every function is
    /// given as many arguments as it takes.
    spec fn evaluable(&self) -> bool;

    /// The value of this expression with the given settings, or the error met while evaluating it.
    spec fn spec_value(&self, settings: Self::Settings) -> Result<Number, MathsError>;

    /// The named variable can be substituted in this expression.
    spec fn can_substitute(&self, variable: char) -> bool;

    /// `r` is this expression with the named variable replaced by the value.
    spec fn substituted(&self, variable: char, value: Number, r: Self::Substituted) -> bool;

    /// Evaluates this expression and returns either a [Number] with the result, or a [MathsError]
    /// if evaluation was not successful.
    fn evaluate(self, settings: &Self::Settings) -> (r: Result<Number, MathsError>)
        requires
            self.evaluable(),
        ensures
            r == self.spec_value(*settings),
            r matches Ok(n) ==> number_wf(n),
    ;

    /// Substitutes the named variable with a given value, and returns a new evaluable expression.
    fn substitute(self, variable: char, value: Number) -> (r: Self::Substituted)
        requires
            self.can_substitute(variable),
        ensures
            self.substituted(variable, value, r),
    ;
}

} // verus!
