//! Mathematical functions which can be called from node trees.

use vstd::prelude::*;

use crate::error::MathsError;
use crate::node::structured::{AngleUnit, EvaluationSettings};
use crate::number::{
    dec_checked_cos, dec_checked_div, dec_checked_mul, dec_checked_sin, dec_of, decimal_checked_cos,
    decimal_checked_div, decimal_checked_mul, decimal_checked_sin, integer_gcd, integer_gcd_of,
    number_wf, spec_to_decimal, spec_to_whole, Dec, DecimalAccuracy, Number,
};
use crate::serialize::{prefix_at, Serializable};

verus! {

/// A mathematical function, for which an invocation may appear in an unstructured or structured
/// node tree.
#[derive(PartialEq, Eq, Debug, Copy, Clone)]
pub enum Function {
    Sine,
    Cosine,
    GreatestCommonDenominator,
}

impl Function {
    /// The number of arguments of this function.
    pub open spec fn spec_argument_count(self) -> nat {
        match self {
            Function::Sine | Function::Cosine => 1,
            Function::GreatestCommonDenominator => 2,
        }
    }

    /// The suggested text displayed when this function is rendered.
    pub fn render_name(&self) -> (r: &'static str)
        ensures
            r@ == match self {
                Function::Sine => "sin"@,
                Function::Cosine => "cos"@,
                Function::GreatestCommonDenominator => "gcd"@,
            },
    {
        match self {
            Function::Sine => "sin",
            Function::Cosine => "cos",
            Function::GreatestCommonDenominator => "gcd",
        }
    }

    /// The number of arguments for this function.
    pub fn argument_count(&self) -> (r: usize)
        ensures
            r == self.spec_argument_count(),
    {
        match self {
            Function::Sine | Function::Cosine => 1,
            Function::GreatestCommonDenominator => 2,
        }
    }
}

/// The byte of a function.
pub open spec fn ser_function(f: Function) -> Seq<u8> {
    match f {
        Function::Sine => seq![1u8],
        Function::Cosine => seq![2u8],
        Function::GreatestCommonDenominator => seq![3u8],
    }
}

impl Serializable for Function {
    open spec fn serializable(&self) -> bool {
        true
    }

    open spec fn spec_serialize(&self) -> Seq<u8> {
        ser_function(*self)
    }

    fn serialize(&self) -> (r: Vec<u8>) {
        let mut r: Vec<u8> = Vec::new();
        r.push(
            match self {
                Function::Sine => 1,
                Function::Cosine => 2,
                Function::GreatestCommonDenominator => 3,
            },
        );
        assert(r@ =~= ser_function(*self));
        r
    }

    fn deserialize(bytes: &[u8], pos: &mut usize) -> (r: Option<Self>)
        ensures
            forall|f: Function|
                prefix_at(bytes@, *old(pos) as int, ser_function(f)) ==> r == Some(f) && *final(pos)
                    == *old(pos) + 1,
    {
        if *pos >= bytes.len() {
            return None;
        }
        let byte = bytes[*pos];
        *pos = *pos + 1;
        let r = match byte {
            1 => Some(Function::Sine),
            2 => Some(Function::Cosine),
            3 => Some(Function::GreatestCommonDenominator),
            _ => None,
        };
        proof {
            if let Some(f) = r {
                assert(bytes@.subrange(*old(pos) as int, *pos as int) =~= ser_function(f));
            }
            assert forall|f: Function| prefix_at(bytes@, *old(pos) as int, ser_function(f)) implies r == Some(f) by {
                assert(bytes@.subrange(*old(pos) as int, *old(pos) + 1)[0] == bytes@[*old(pos) as int]);
            }
        }
        r
    }
}


/// Pi divided by 180: the size of a degree in radians, as decimals compute it.
pub open spec fn degree() -> Option<Dec> {
    dec_of(decimal_checked_div((31415926535897932384626433833i128, 28), (180, 0)))
}

/// The angle in radians which a sine or cosine of the number is taken of: the number's decimal,
/// converted from degrees where the settings measure angles in degrees; none where the decimal
/// or the conversion overflows.
pub open spec fn spec_trig_target(x: Number, settings: EvaluationSettings) -> Option<Dec> {
    match spec_to_decimal(x) {
        Some(d) => if settings.angle_unit == AngleUnit::Degree {
            match degree() {
                Some(k) => dec_of(decimal_checked_mul(d.parts(), k.parts())),
                None => None,
            }
        } else {
            Some(d)
        },
        None => None,
    }
}

/// The value of a function of the given arguments.
///
/// A trigonometric function converts its argument to a decimal (and from degrees to radians
/// where the settings ask), and gives an approximate decimal. The greatest common divisor of two
/// whole numbers is rational, and is one where either argument is not whole; a rational argument
/// which cannot be divided out (a zero denominator, or the smallest word over minus one) is an
/// overflow.
pub open spec fn spec_function_evaluate(f: Function, args: Seq<Number>, settings: EvaluationSettings) -> Result<
    Number,
    MathsError,
> {
    match f {
        Function::Sine | Function::Cosine => match spec_trig_target(args[0], settings) {
            Some(t) => {
                let result = if f == Function::Sine {
                    decimal_checked_sin(t.parts())
                } else {
                    decimal_checked_cos(t.parts())
                };
                match dec_of(result) {
                    Some(r) => Ok(Number::Decimal(r, DecimalAccuracy::Approximation)),
                    None => Err(MathsError::Overflow),
                }
            },
            None => Err(MathsError::Overflow),
        },
        Function::GreatestCommonDenominator => if !whole_args_ok(args) {
            Err(MathsError::Overflow)
        } else {
            match (spec_to_whole(args[0]), spec_to_whole(args[1])) {
            (Some(a), Some(b)) => if (a == i64::MIN || b == i64::MIN) && (a == 0 || a == i64::MIN) && (b == 0
                || b == i64::MIN) {
                Err(MathsError::Overflow)
            } else {
                Ok(Number::Rational(integer_gcd(a, b), 1))
            },
            _ => Ok(Number::Decimal(Dec { mantissa: 1, scale: 0 }, DecimalAccuracy::Exact)),
        }},
    }
}

/// The arguments can be turned into whole numbers without failing: no rational has a zero
/// denominator, or is the smallest word over minus one.
pub open spec fn whole_args_ok(args: Seq<Number>) -> bool {
    forall|i: int|
        0 <= i < args.len() ==> (#[trigger] args[i] matches Number::Rational(p, q) ==> q != 0 && !(p
            == i64::MIN && q == -1))
}

impl Function {
    /// The angle in radians which a sine or cosine of the number is taken of, or none where
    /// that overflows.
    pub fn trig_target(x: &Number, settings: &EvaluationSettings) -> (r: Option<Dec>)
        requires
            number_wf(*x),
        ensures
            r == spec_trig_target(*x, *settings),
            r matches Some(d) ==> d.wf(),
    {
        let d = match x.try_to_decimal() {
            Some(d) => d,
            None => return None,
        };
        // Decimals compute sines and cosines of radians, so convert degrees first
        if settings.angle_unit == AngleUnit::Degree {
            match dec_checked_div(Dec::pi(), Dec::from_i64(180)) {
                Some(k) => dec_checked_mul(d, k),
                None => None,
            }
        } else {
            Some(d)
        }
    }

    /// Evaluates this function, given values for its arguments. Sines and cosines are computed
    /// with decimals whatever `use_floats` asks: the floating-point path belongs to the program
    /// around the library, which can put the result of [Function::trig_target] through it.
    pub fn evaluate(&self, arguments: &[Number], settings: &EvaluationSettings) -> (r: Result<Number, MathsError>)
        requires
            arguments@.len() == self.spec_argument_count(),
            forall|i: int| 0 <= i < arguments@.len() ==> number_wf(#[trigger] arguments@[i]),
        ensures
            r == spec_function_evaluate(*self, arguments@, *settings),
            r matches Ok(n) ==> number_wf(n),
    {
        match self {
            Function::Sine | Function::Cosine => {
                let t = match Function::trig_target(&arguments[0], settings) {
                    Some(t) => t,
                    None => return Err(MathsError::Overflow),
                };
                let result = match self {
                    Function::Sine => dec_checked_sin(t),
                    _ => dec_checked_cos(t),
                };
                match result {
                    Some(r) => Ok(Number::Decimal(r, DecimalAccuracy::Approximation)),
                    None => Err(MathsError::Overflow),
                }
            },
            Function::GreatestCommonDenominator => {
                // A rational whose division cannot be carried out has no whole value to test
                let mut k: usize = 0;
                while k < 2
                    invariant
                        k <= 2,
                        *self == Function::GreatestCommonDenominator,
                        arguments@.len() == 2,
                        forall|i: int| 0 <= i < k ==> (#[trigger] arguments@[i] matches Number::Rational(p, q) ==> q != 0 && !(p
                            == i64::MIN && q == -1)),
                    decreases 2 - k,
                {
                    if let Number::Rational(p, q) = arguments[k] {
                        if q == 0 || (p == i64::MIN && q == -1) {
                            assert(!whole_args_ok(arguments@)) by {
                                assert(arguments@[k as int] == Number::Rational(p, q));
                            }
                            return Err(MathsError::Overflow);
                        }
                    }
                    k = k + 1;
                }
                // This is an integer operation, so both numbers must be whole; if not, the result
                // is one
                let a = match arguments[0].to_whole() {
                    Some(a) => a,
                    None => return Ok(Number::Decimal(Dec::one(), DecimalAccuracy::Exact)),
                };
                let b = match arguments[1].to_whole() {
                    Some(b) => b,
                    None => return Ok(Number::Decimal(Dec::one(), DecimalAccuracy::Exact)),
                };
                if (a == i64::MIN || b == i64::MIN) && (a == 0 || a == i64::MIN) && (b == 0 || b == i64::MIN) {
                    return Err(MathsError::Overflow);
                }
                Ok(Number::Rational(integer_gcd_of(a, b), 1))
            },
        }
    }
}

} // verus!
