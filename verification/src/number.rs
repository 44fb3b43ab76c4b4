//! Numbers: exact rationals, and decimals computed with `rust_decimal`.
//!
//! A decimal is held as its mantissa and scale, standing for `mantissa / 10^scale`, within the
//! limits of `rust_decimal`: a mantissa of at most 96 bits and a scale of at most 28. The
//! arithmetic of decimals is done by `rust_decimal`; the results of its operations are named
//! below, since rounding makes them long to state.

use vstd::prelude::*;

use num_integer::Roots;
use num_traits::ToPrimitive;
use rust_decimal::{Decimal, MathematicalOps};

use crate::error::MathsError;
use crate::serialize::{lemma_prefix_at_concat, lemma_subrange_join, prefix_at, Serializable};

verus! {

/// The largest mantissa of a decimal.
pub const MAX_MANTISSA: i128 = 0xFFFF_FFFF_FFFF_FFFF_FFFF_FFFFi128;

/// The largest scale of a decimal.
pub const MAX_SCALE: u32 = 28;

/// A decimal number: `mantissa / 10^scale`.
#[derive(Clone, Copy, Debug)]
pub struct Dec {
    pub mantissa: i128,
    pub scale: u32,
}

/// Ten to the power of `n`.
pub open spec fn pow10(n: nat) -> int
    decreases n,
{
    if n == 0 {
        1
    } else {
        10 * pow10((n - 1) as nat)
    }
}

impl Dec {
    /// The mantissa and scale are within the limits of a decimal.
    pub open spec fn wf(self) -> bool {
        -MAX_MANTISSA <= self.mantissa <= MAX_MANTISSA && self.scale <= MAX_SCALE
    }

    /// The mantissa and scale.
    pub open spec fn parts(self) -> (i128, u32) {
        (self.mantissa, self.scale)
    }

    /// The decimal with the given mantissa and scale.
    pub open spec fn of(p: (i128, u32)) -> Dec {
        Dec { mantissa: p.0, scale: p.1 }
    }

    /// The decimal is equal in value to another.
    pub open spec fn same_value(self, other: Dec) -> bool {
        self.mantissa * pow10(other.scale as nat) == other.mantissa * pow10(self.scale as nat)
    }

    /// The decimal is less in value than another.
    pub open spec fn less_than(self, other: Dec) -> bool {
        self.mantissa * pow10(other.scale as nat) < other.mantissa * pow10(self.scale as nat)
    }

    /// Returns true if the mantissa and scale are within the limits of a decimal.
    pub fn within_limits(&self) -> (r: bool)
        ensures
            r == self.wf(),
    {
        -MAX_MANTISSA <= self.mantissa && self.mantissa <= MAX_MANTISSA && self.scale <= MAX_SCALE
    }

    /// The decimal of an integer.
    pub fn from_i64(n: i64) -> (r: Dec)
        ensures
            r.wf(),
            r.mantissa == n,
            r.scale == 0,
    {
        Dec { mantissa: n as i128, scale: 0 }
    }

    /// The decimal `mantissa / 10^scale`.
    pub fn new(mantissa: i64, scale: u32) -> (r: Dec)
        requires
            scale <= MAX_SCALE,
        ensures
            r.wf(),
            r.mantissa == mantissa,
            r.scale == scale,
    {
        Dec { mantissa: mantissa as i128, scale }
    }

    /// Zero.
    pub fn zero() -> (r: Dec)
        ensures
            r.wf(),
            r.mantissa == 0,
            r.scale == 0,
    {
        Dec { mantissa: 0, scale: 0 }
    }

    /// One.
    pub fn one() -> (r: Dec)
        ensures
            r.wf(),
            r.mantissa == 1,
            r.scale == 0,
    {
        Dec { mantissa: 1, scale: 0 }
    }

    /// The approximation of pi which `rust_decimal` provides.
    pub fn pi() -> (r: Dec)
        ensures
            r.wf(),
            r.mantissa == 31415926535897932384626433833i128,
            r.scale == 28,
    {
        Dec { mantissa: 31415926535897932384626433833i128, scale: 28 }
    }

    /// Returns true if this decimal is zero.
    pub fn is_zero(&self) -> (r: bool)
        ensures
            r == (self.mantissa == 0),
    {
        self.mantissa == 0
    }

    /// This decimal without its sign.
    pub fn abs(&self) -> (r: Dec)
        requires
            self.wf(),
        ensures
            r.wf(),
            r == dec_abs(*self),
    {
        if self.mantissa < 0 {
            Dec { mantissa: -self.mantissa, scale: self.scale }
        } else {
            *self
        }
    }

    /// The decimal with its sign flipped.
    pub fn neg(&self) -> (r: Dec)
        requires
            self.wf(),
        ensures
            r.wf(),
            r.mantissa == -self.mantissa,
            r.scale == self.scale,
    {
        Dec { mantissa: -self.mantissa, scale: self.scale }
    }

    /// Returns true if this decimal is less than zero.
    pub fn is_negative(&self) -> (r: bool)
        ensures
            r == (self.mantissa < 0),
    {
        self.mantissa < 0
    }

    /// The sign of this decimal: -1, 0 or 1.
    pub fn signum(&self) -> (r: i64)
        ensures
            r == (if self.mantissa < 0 { -1int } else if self.mantissa == 0 { 0int } else { 1int }),
    {
        if self.mantissa < 0 {
            -1
        } else if self.mantissa == 0 {
            0
        } else {
            1
        }
    }
}

/// `Decimal::checked_add`, by mantissa and scale.
pub uninterp spec fn decimal_checked_add(a: (i128, u32), b: (i128, u32)) -> Option<(i128, u32)>;

/// `Decimal::checked_mul`, by mantissa and scale.
pub uninterp spec fn decimal_checked_mul(a: (i128, u32), b: (i128, u32)) -> Option<(i128, u32)>;

/// `Decimal::checked_div`, by mantissa and scale.
pub uninterp spec fn decimal_checked_div(a: (i128, u32), b: (i128, u32)) -> Option<(i128, u32)>;

/// `MathematicalOps::checked_powd`, by mantissa and scale.
pub uninterp spec fn decimal_checked_powd(a: (i128, u32), b: (i128, u32)) -> Option<(i128, u32)>;

/// `MathematicalOps::checked_ln`, by mantissa and scale.
pub uninterp spec fn decimal_checked_ln(a: (i128, u32)) -> Option<(i128, u32)>;

/// `MathematicalOps::checked_powi` of a decimal and an integer exponent, by mantissa and scale.
pub uninterp spec fn decimal_checked_powi(a: (i128, u32), e: i64) -> Option<(i128, u32)>;

/// `MathematicalOps::sqrt`, by mantissa and scale.
pub uninterp spec fn decimal_sqrt(a: (i128, u32)) -> Option<(i128, u32)>;

/// `MathematicalOps::checked_sin`, by mantissa and scale.
pub uninterp spec fn decimal_checked_sin(a: (i128, u32)) -> Option<(i128, u32)>;

/// `MathematicalOps::checked_cos`, by mantissa and scale.
pub uninterp spec fn decimal_checked_cos(a: (i128, u32)) -> Option<(i128, u32)>;

/// `Decimal::floor`, by mantissa and scale.
pub uninterp spec fn decimal_floor(a: (i128, u32)) -> (i128, u32);

/// `Decimal::trunc`, by mantissa and scale.
pub uninterp spec fn decimal_trunc(a: (i128, u32)) -> (i128, u32);

/// `ToPrimitive::to_i64` of a decimal, by mantissa and scale.
pub uninterp spec fn decimal_to_i64(a: (i128, u32)) -> Option<i64>;

/// The characters of the `Display` form of a decimal, by mantissa and scale.
pub uninterp spec fn decimal_to_string(a: (i128, u32)) -> Seq<char>;

/// A decimal result, from its mantissa and scale.
pub open spec fn dec_of(r: Option<(i128, u32)>) -> Option<Dec> {
    match r {
        Some(p) => Some(Dec::of(p)),
        None => None,
    }
}

/// `Decimal::checked_add`: the sum, rounded to what a decimal holds, or `None` where it
/// overflows. The result is a decimal within the limits; the sum of two whole numbers of scale
/// zero, where there is one, is exact and of scale zero (the source cannot lower a scale of zero,
/// so it reports an overflow instead of rounding).
#[verifier::external_body]
pub(crate) fn dec_checked_add(a: Dec, b: Dec) -> (r: Option<Dec>)
    requires
        a.wf(),
        b.wf(),
    ensures
        r == dec_of(decimal_checked_add(a.parts(), b.parts())),
        r matches Some(d) ==> d.wf(),
        a.scale == 0 && b.scale == 0 ==> (r matches Some(d) ==> d.scale == 0 && d.mantissa == a.mantissa + b.mantissa),
{
    let x = Decimal::from_i128_with_scale(a.mantissa, a.scale);
    let y = Decimal::from_i128_with_scale(b.mantissa, b.scale);
    x.checked_add(y).map(|d| Dec { mantissa: d.mantissa(), scale: d.scale() })
}

/// `Decimal::checked_mul`: the product, rounded to what a decimal holds, or `None` where it
/// overflows. The result is a decimal within the limits; the product of two whole numbers of
/// scale zero, where there is one, is exact and of scale zero (the source cannot lower a scale of
/// zero, so it reports an overflow instead of rounding).
#[verifier::external_body]
pub(crate) fn dec_checked_mul(a: Dec, b: Dec) -> (r: Option<Dec>)
    requires
        a.wf(),
        b.wf(),
    ensures
        r == dec_of(decimal_checked_mul(a.parts(), b.parts())),
        r matches Some(d) ==> d.wf(),
        a.scale == 0 && b.scale == 0 ==> (r matches Some(d) ==> d.scale == 0 && d.mantissa == a.mantissa * b.mantissa),
{
    let x = Decimal::from_i128_with_scale(a.mantissa, a.scale);
    let y = Decimal::from_i128_with_scale(b.mantissa, b.scale);
    x.checked_mul(y).map(|d| Dec { mantissa: d.mantissa(), scale: d.scale() })
}

/// `Decimal::checked_div`: the quotient, rounded to what a decimal holds, or `None` where the
/// divisor is zero or the quotient overflows. The result is a decimal within the limits. A whole
/// number divided by a whole number other than zero never overflows, since the quotient is no
/// larger than the dividend.
#[verifier::external_body]
pub(crate) fn dec_checked_div(a: Dec, b: Dec) -> (r: Option<Dec>)
    requires
        a.wf(),
        b.wf(),
    ensures
        r == dec_of(decimal_checked_div(a.parts(), b.parts())),
        b.mantissa == 0 ==> r is None,
        a.scale == 0 && b.scale == 0 && b.mantissa != 0 ==> r is Some,
        r matches Some(d) ==> d.wf(),
{
    let x = Decimal::from_i128_with_scale(a.mantissa, a.scale);
    let y = Decimal::from_i128_with_scale(b.mantissa, b.scale);
    x.checked_div(y).map(|d| Dec { mantissa: d.mantissa(), scale: d.scale() })
}

/// The value of a decimal is a whole number.
pub open spec fn dec_integral(d: Dec) -> bool {
    iabs(d.mantissa as int) % pow10(d.scale as nat) == 0
}

/// A decimal without its sign.
pub open spec fn dec_abs(d: Dec) -> Dec {
    Dec { mantissa: iabs(d.mantissa as int) as i128, scale: d.scale }
}

/// `MathematicalOps::checked_powd` takes the natural logarithm of the base's magnitude: the base
/// is neither zero nor one, and the exponent is not a whole number.
pub open spec fn powd_takes_ln(a: Dec, b: Dec) -> bool {
    a.mantissa != 0 && a.mantissa != pow10(a.scale as nat) && !dec_integral(b)
}

/// `MathematicalOps::checked_ln`: the natural logarithm, approximated, or `None` where it cannot
/// be computed.
#[verifier::external_body]
fn dec_checked_ln(a: Dec) -> (r: Option<Dec>)
    requires
        a.wf(),
    ensures
        r == dec_of(decimal_checked_ln(a.parts())),
{
    Decimal::from_i128_with_scale(a.mantissa, a.scale).checked_ln().map(|d| Dec { mantissa: d.mantissa(), scale: d.scale() })
}

/// `MathematicalOps::checked_powd`: a power, approximated, or `None` where it overflows. For a
/// base other than zero and one and an exponent which is not whole, the source takes `ln` of the
/// base's magnitude, which panics where `checked_ln` gives `None`; such inputs are left out.
#[verifier::external_body]
fn dec_checked_powd(a: Dec, b: Dec) -> (r: Option<Dec>)
    requires
        a.wf(),
        b.wf(),
        powd_takes_ln(a, b) ==> decimal_checked_ln(dec_abs(a).parts()) is Some,
    ensures
        r == dec_of(decimal_checked_powd(a.parts(), b.parts())),
        r matches Some(d) ==> d.wf(),
{
    let x = Decimal::from_i128_with_scale(a.mantissa, a.scale);
    let y = Decimal::from_i128_with_scale(b.mantissa, b.scale);
    x.checked_powd(y).map(|d| Dec { mantissa: d.mantissa(), scale: d.scale() })
}

/// `MathematicalOps::checked_powi`: a decimal raised to an integer power, or `None` where it
/// overflows. The result is a decimal within the limits; ten (of scale zero) to a power of at
/// most 28 is that power of ten exactly, of scale zero.
#[verifier::external_body]
pub(crate) fn dec_checked_powi(a: Dec, e: i64) -> (r: Option<Dec>)
    requires
        a.wf(),
    ensures
        r == dec_of(decimal_checked_powi(a.parts(), e)),
        r matches Some(d) ==> d.wf(),
        a.mantissa == 10 && a.scale == 0 && 0 <= e <= 28 ==> r == Some(Dec { mantissa: pow10(e as nat) as i128, scale: 0 }),
{
    Decimal::from_i128_with_scale(a.mantissa, a.scale).checked_powi(e).map(|d| Dec { mantissa: d.mantissa(), scale: d.scale() })
}

/// `MathematicalOps::sqrt`: a square root, approximated, or `None` for a negative number.
/// The source iterates until two approximations agree and stops with a panic after a thousand
/// steps; on which inputs that can happen, neither the source nor its documentation shows, so no
/// `requires` can leave them out. The contract admits that stop instead: like every function
/// without `no_unwind`, the call may unwind, and the `ensures` hold where it returns.
#[verifier::external_body]
fn dec_sqrt(a: Dec) -> (r: Option<Dec>)
    requires
        a.wf(),
    ensures
        r == dec_of(decimal_sqrt(a.parts())),
        a.mantissa < 0 ==> r is None,
        r matches Some(d) ==> d.wf(),
{
    Decimal::from_i128_with_scale(a.mantissa, a.scale).sqrt().map(|d| Dec { mantissa: d.mantissa(), scale: d.scale() })
}

/// `MathematicalOps::checked_sin`: the sine of an angle in radians, approximated, or `None`
/// where the computation overflows.
#[verifier::external_body]
pub(crate) fn dec_checked_sin(a: Dec) -> (r: Option<Dec>)
    requires
        a.wf(),
    ensures
        r == dec_of(decimal_checked_sin(a.parts())),
        r matches Some(d) ==> d.wf(),
{
    Decimal::from_i128_with_scale(a.mantissa, a.scale).checked_sin().map(|d| Dec { mantissa: d.mantissa(), scale: d.scale() })
}

/// `MathematicalOps::checked_cos`: the cosine of an angle in radians, approximated, or `None`
/// where the computation overflows.
#[verifier::external_body]
pub(crate) fn dec_checked_cos(a: Dec) -> (r: Option<Dec>)
    requires
        a.wf(),
    ensures
        r == dec_of(decimal_checked_cos(a.parts())),
        r matches Some(d) ==> d.wf(),
{
    Decimal::from_i128_with_scale(a.mantissa, a.scale).checked_cos().map(|d| Dec { mantissa: d.mantissa(), scale: d.scale() })
}

/// `Decimal::floor`: the largest whole number no greater than the decimal.
#[verifier::external_body]
pub(crate) fn dec_floor(a: Dec) -> (r: Dec)
    requires
        a.wf(),
    ensures
        r == Dec::of(decimal_floor(a.parts())),
        r.wf(),
{
    let d = Decimal::from_i128_with_scale(a.mantissa, a.scale).floor();
    Dec { mantissa: d.mantissa(), scale: d.scale() }
}

/// `Decimal::trunc`: the decimal without its fractional part.
#[verifier::external_body]
pub(crate) fn dec_trunc(a: Dec) -> (r: Dec)
    requires
        a.wf(),
    ensures
        r == Dec::of(decimal_trunc(a.parts())),
        r.wf(),
{
    let d = Decimal::from_i128_with_scale(a.mantissa, a.scale).trunc();
    Dec { mantissa: d.mantissa(), scale: d.scale() }
}

/// `ToPrimitive::to_i64`: the integer part of the decimal, where it fits. The source truncates
/// first, which leaves a decimal of scale zero as it is, so a whole number that it gives back is
/// the mantissa itself.
#[verifier::external_body]
pub(crate) fn dec_to_i64(a: Dec) -> (r: Option<i64>)
    requires
        a.wf(),
    ensures
        r == decimal_to_i64(a.parts()),
        a.scale == 0 && r is Some ==> r.unwrap() == a.mantissa,
{
    Decimal::from_i128_with_scale(a.mantissa, a.scale).to_i64()
}

/// `PartialEq` of decimals, which compares them by value.
#[verifier::external_body]
pub(crate) fn dec_eq(a: Dec, b: Dec) -> (r: bool)
    requires
        a.wf(),
        b.wf(),
    ensures
        r == a.same_value(b),
{
    Decimal::from_i128_with_scale(a.mantissa, a.scale) == Decimal::from_i128_with_scale(b.mantissa, b.scale)
}

/// `PartialOrd` of decimals, which compares them by value.
#[verifier::external_body]
pub(crate) fn dec_lt(a: Dec, b: Dec) -> (r: bool)
    requires
        a.wf(),
        b.wf(),
    ensures
        r == a.less_than(b),
{
    Decimal::from_i128_with_scale(a.mantissa, a.scale) < Decimal::from_i128_with_scale(b.mantissa, b.scale)
}

/// The `Display` form of a decimal: digits, a decimal point, and a minus sign for a negative
/// decimal only. A positive whole number of scale zero is written as just its digits, so its form
/// has as many characters as the number has digits.
#[verifier::external_body]
pub(crate) fn dec_to_string(a: Dec) -> (r: String)
    requires
        a.wf(),
    ensures
        r@ == decimal_to_string(a.parts()),
        forall|i: int| 0 <= i < r@.len() ==> (#[trigger] r@[i] == '.' || r@[i] == '-' || char_digit(r@[i]) is Some),
        a.mantissa >= 0 ==> forall|i: int| 0 <= i < r@.len() ==> (#[trigger] r@[i] == '.' || char_digit(r@[i]) is Some),
        a.scale == 0 && a.mantissa > 0 ==> r@.len() >= 1 && pow10((r@.len() - 1) as nat) <= a.mantissa < pow10(
            r@.len() as nat,
        ),
{
    Decimal::from_i128_with_scale(a.mantissa, a.scale).to_string()
}

/// The decimal with trailing zeros of its mantissa removed, lowering the scale.
pub open spec fn normalized(m: int, s: nat) -> (int, nat)
    decreases s,
{
    if s > 0 && m % 10 == 0 {
        normalized(m / 10, (s - 1) as nat)
    } else {
        (m, s)
    }
}

impl Dec {
    /// This decimal without trailing zeros (`Decimal::normalize`): the same value with the
    /// smallest scale.
    pub fn normalize(&self) -> (r: Dec)
        requires
            self.wf(),
        ensures
            r.wf(),
            (r.mantissa as int, r.scale as nat) == normalized(self.mantissa as int, self.scale as nat),
    {
        let mut m = self.mantissa;
        let mut s = self.scale;
        while s > 0 && m % 10 == 0
            invariant
                -MAX_MANTISSA <= m <= MAX_MANTISSA,
                s <= MAX_SCALE,
                normalized(m as int, s as nat) == normalized(self.mantissa as int, self.scale as nat),
            decreases s,
        {
            m = m / 10;
            s = s - 1;
        }
        Dec { mantissa: m, scale: s }
    }
}

/// Represents the accuracy of a decimal number, based on how it was created.
#[derive(PartialEq, Eq, Structural, Copy, Clone, Debug)]
pub enum DecimalAccuracy {
    /// This number was derived from user input, and has only been used through exact operations.
    Exact,
    /// This number has been passed through operations which compute their results approximately.
    Approximation,
}

impl DecimalAccuracy {
    /// Given another accuracy, returns the least accurate of the two.
    pub fn combine(self, other: Self) -> (r: Self)
        ensures
            r == (if self == DecimalAccuracy::Exact && other == DecimalAccuracy::Exact {
                DecimalAccuracy::Exact
            } else {
                DecimalAccuracy::Approximation
            }),
    {
        match (self, other) {
            (DecimalAccuracy::Exact, DecimalAccuracy::Exact) => DecimalAccuracy::Exact,
            _ => DecimalAccuracy::Approximation,
        }
    }
}

/// A number: a decimal with its accuracy, or an exact fraction of two integers.
#[derive(Copy, Clone, Debug)]
pub enum Number {
    Decimal(Dec, DecimalAccuracy),
    Rational(i64, i64),
}


/// The truncated principal `n`th root of an integer: the largest natural number whose `n`th
/// power does not exceed the integer's magnitude, with the integer's sign.
#[verifier::opaque]
pub open spec fn integer_nth_root(a: i64, n: u32) -> i64 {
    let m = iabs(a as int);
    let r = choose|r: nat| #[trigger] vstd::arithmetic::power::pow(r as int, n as nat) <= m < vstd::arithmetic::power::pow(
        r + 1 as int,
        n as nat,
    );
    (if a < 0 { -r } else { r as int }) as i64
}

/// `Roots::nth_root`: the truncated principal `n`th root of an integer.
#[verifier::external_body]
fn nth_root(a: i64, n: u32) -> (r: i64)
    requires
        n >= 1,
        a >= 0 || n % 2 == 1,
        a != i64::MIN || n > 1,
    ensures
        r == integer_nth_root(a, n),
{
    a.nth_root(n)
}

/// The absolute value of an integer.
pub open spec fn iabs(a: int) -> int {
    if a < 0 {
        -a
    } else {
        a
    }
}

/// The absolute value of a word, where it fits.
pub open spec fn checked_iabs(a: i64) -> Option<i64> {
    if a < 0 {
        0i64.checked_sub(a)
    } else {
        Some(a)
    }
}

/// The greatest common divisor by Euclid's algorithm on words, with Rust's remainder (which takes
/// the sign of the dividend), where every remainder fits.
pub open spec fn spec_gcd(a: i64, b: i64) -> Option<i64>
    decreases iabs(b as int),
{
    if b == 0 {
        Some(a)
    } else {
        match a.checked_rem(b) {
            Some(r) => spec_gcd(b, r),
            None => None,
        }
    }
}

/// The lowest common multiple, `|a * b| / gcd(a, b)`, where every step fits.
pub open spec fn spec_lcm(a: i64, b: i64) -> Option<i64> {
    match a.checked_mul(b) {
        Some(p) => match checked_iabs(p) {
            Some(q) => match spec_gcd(a, b) {
                Some(g) => q.checked_div(g),
                None => None,
            },
            None => None,
        },
        None => None,
    }
}

/// Two fractions over a common denominator: the new numerators and the denominator.
pub open spec fn spec_common(ln: i64, ld: i64, rn: i64, rd: i64) -> Option<(i64, i64, i64)> {
    match spec_lcm(ld, rd) {
        Some(nd) => match (nd.checked_div(ld), nd.checked_div(rd)) {
            (Some(lf), Some(rf)) => match (lf.checked_mul(ln), rf.checked_mul(rn)) {
                (Some(a), Some(b)) => Some((a, b, nd)),
                _ => None,
            },
            _ => None,
        },
        None => None,
    }
}

/// A fraction divided through by the greatest common divisor of its parts, with any negative
/// sign on the numerator, where every step fits.
pub open spec fn spec_simplified(n: i64, d: i64) -> Option<(i64, i64)> {
    match (checked_iabs(n), checked_iabs(d)) {
        (Some(an), Some(ad)) => match spec_gcd(an, ad) {
            Some(g) => match (an.checked_div(g), ad.checked_div(g)) {
                (Some(qn), Some(qd)) => Some(((if (n < 0) != (d < 0) { -qn } else { qn as int }) as i64, qd)),
                _ => None,
            },
            None => None,
        },
        _ => None,
    }
}

/// For two naturals, Euclid's algorithm on words finds a divisor of both, which is zero only
/// where both are.
proof fn lemma_gcd_divides(a: i64, b: i64)
    requires
        a >= 0,
        b >= 0,
    ensures
        spec_gcd(a, b) is Some,
        spec_gcd(a, b).unwrap() >= 0,
        spec_gcd(a, b).unwrap() == 0 <==> a == 0 && b == 0,
        spec_gcd(a, b).unwrap() > 0 ==> a % spec_gcd(a, b).unwrap() == 0 && b % spec_gcd(a, b).unwrap() == 0,
    decreases b,
{
    if b == 0 {
        if a > 0 {
            vstd::arithmetic::div_mod::lemma_mod_self_0(a as int);
        }
    } else {
        let r = (a % b) as i64;
        if a == 0 {
            vstd::arithmetic::div_mod::lemma_small_mod(0, b as nat);
        }
        assert(a.checked_rem(b) == Some(r));
        lemma_gcd_divides(b, r);
        let g = spec_gcd(b, r).unwrap() as int;
        assert(spec_gcd(a, b) == Some(g as i64));
        let ai = a as int;
        let bi = b as int;
        let ri = r as int;
        vstd::arithmetic::div_mod::lemma_fundamental_div_mod(ai, bi);
        vstd::arithmetic::div_mod::lemma_fundamental_div_mod(bi, g);
        vstd::arithmetic::div_mod::lemma_fundamental_div_mod(ri, g);
        let k = (bi / g) * (ai / bi) + ri / g;
        assert(ai == g * k) by (nonlinear_arith)
            requires
                ai == bi * (ai / bi) + ri,
                bi == g * (bi / g),
                ri == g * (ri / g),
                k == (bi / g) * (ai / bi) + ri / g,
        ;
        vstd::arithmetic::div_mod::lemma_mod_multiples_basic(k, g);
        assert(k * g == g * k) by (nonlinear_arith);
    }
}

/// Simplifying a fraction keeps its value and puts its sign on the numerator: for a nonzero
/// denominator, the result `p / q` has `q > 0` and `p * d == n * q`. It always succeeds where
/// neither part is the smallest word.
pub proof fn lemma_simplified_keeps_value(n: i64, d: i64)
    requires
        d != 0,
    ensures
        n != i64::MIN && d != i64::MIN ==> spec_simplified(n, d) is Some,
        spec_simplified(n, d) matches Some((p, q)) ==> q > 0 && p * d == n * q,
{
    if n != i64::MIN && d != i64::MIN {
        let an: i64 = if n < 0 { (-n) as i64 } else { n };
        let ad: i64 = if d < 0 { (-d) as i64 } else { d };
        assert(checked_iabs(n) == Some(an));
        assert(checked_iabs(d) == Some(ad));
        lemma_gcd_divides(an, ad);
    }
    if let Some((p, q)) = spec_simplified(n, d) {
        let an = checked_iabs(n).unwrap();
        let ad = checked_iabs(d).unwrap();
        assert(an == iabs(n as int) && ad == iabs(d as int));
        lemma_gcd_divides(an, ad);
        let g = spec_gcd(an, ad).unwrap();
        let qn = (an as int) / (g as int);
        let qd = (ad as int) / (g as int);
        vstd::arithmetic::div_mod::lemma_fundamental_div_mod(an as int, g as int);
        vstd::arithmetic::div_mod::lemma_fundamental_div_mod(ad as int, g as int);
        assert(an == g * qn);
        assert(ad == g * qd);
        assert(q == qd);
        assert(qd > 0) by (nonlinear_arith)
            requires
                ad == g * qd,
                ad > 0,
                g > 0,
        ;
        let pi = p as int;
        let ni = n as int;
        let di = d as int;
        assert(pi == (if (n < 0) != (d < 0) { -qn } else { qn }));
        if n < 0 {
            assert(ni == -(g * qn));
        } else {
            assert(ni == g * qn);
        }
        if d < 0 {
            assert(di == -(g * qd));
        } else {
            assert(di == g * qd);
        }
        assert(pi * di == ni * qd) by (nonlinear_arith)
            requires
                pi == (if (ni < 0) != (di < 0) { -qn } else { qn }),
                ni == (if ni < 0 { -(g * qn) } else { g * qn }),
                di == (if di < 0 { -(g * qd) } else { g * qd }),
                g > 0,
                qd > 0,
                qn >= 0,
        ;
    }
}

/// Every common divisor of two naturals divides what Euclid's algorithm on words finds.
proof fn lemma_common_divisor_divides_gcd(a: i64, b: i64, c: int)
    requires
        a >= 0,
        b >= 0,
        c > 0,
        (a as int) % c == 0,
        (b as int) % c == 0,
    ensures
        spec_gcd(a, b) is Some,
        (spec_gcd(a, b).unwrap() as int) % c == 0,
    decreases b,
{
    lemma_gcd_divides(a, b);
    if b != 0 {
        let r = (a % b) as i64;
        if a == 0 {
            vstd::arithmetic::div_mod::lemma_small_mod(0, b as nat);
        }
        assert(a.checked_rem(b) == Some(r));
        let ai = a as int;
        let bi = b as int;
        let ri = r as int;
        vstd::arithmetic::div_mod::lemma_fundamental_div_mod(ai, bi);
        vstd::arithmetic::div_mod::lemma_fundamental_div_mod(ai, c);
        vstd::arithmetic::div_mod::lemma_fundamental_div_mod(bi, c);
        let k = ai / c - (bi / c) * (ai / bi);
        assert(ri == c * k) by (nonlinear_arith)
            requires
                ai == bi * (ai / bi) + ri,
                ai == c * (ai / c),
                bi == c * (bi / c),
                k == ai / c - (bi / c) * (ai / bi),
        ;
        vstd::arithmetic::div_mod::lemma_mod_multiples_basic(k, c);
        assert(k * c == c * k) by (nonlinear_arith);
        lemma_common_divisor_divides_gcd(b, r, c);
    }
}

/// Simplifying a fraction gives it in lowest terms: no whole number above one divides both the
/// numerator and the denominator of the result.
pub proof fn lemma_simplified_lowest_terms(n: i64, d: i64, c: int)
    requires
        d != 0,
        c > 1,
    ensures
        spec_simplified(n, d) matches Some((p, q)) ==> !((p as int) % c == 0 && (q as int) % c == 0),
{
    if let Some((p, q)) = spec_simplified(n, d) {
        let an = checked_iabs(n).unwrap();
        let ad = checked_iabs(d).unwrap();
        assert(an == iabs(n as int) && ad == iabs(d as int));
        lemma_gcd_divides(an, ad);
        let g = spec_gcd(an, ad).unwrap() as int;
        let qn = (an as int) / g;
        let qd = (ad as int) / g;
        vstd::arithmetic::div_mod::lemma_fundamental_div_mod(an as int, g);
        vstd::arithmetic::div_mod::lemma_fundamental_div_mod(ad as int, g);
        assert(q == qd);
        assert(p == qn || p == -qn);
        assert(ad > 0);
        assert(g > 0);
        if (p as int) % c == 0 && (q as int) % c == 0 {
            vstd::arithmetic::div_mod::lemma_fundamental_div_mod(p as int, c);
            vstd::arithmetic::div_mod::lemma_fundamental_div_mod(qd, c);
            let s = if p == qn { (p as int) / c } else { -((p as int) / c) };
            let t = qd / c;
            let pi = p as int;
            assert(qn == c * s) by (nonlinear_arith)
                requires
                    pi == qn || pi == -qn,
                    pi == c * (pi / c) + pi % c,
                    pi % c == 0,
                    s == (if pi == qn { pi / c } else { -(pi / c) }),
            ;
            assert(qd == c * t);
            let gc = g * c;
            assert(gc > 0) by (nonlinear_arith)
                requires
                    gc == g * c,
                    g > 0,
                    c > 1,
            ;
            assert(an == gc * s) by (nonlinear_arith)
                requires
                    an == g * qn,
                    qn == c * s,
                    gc == g * c,
            ;
            assert(ad == gc * t) by (nonlinear_arith)
                requires
                    ad == g * qd,
                    qd == c * t,
                    gc == g * c,
            ;
            vstd::arithmetic::div_mod::lemma_mod_multiples_basic(s, gc);
            vstd::arithmetic::div_mod::lemma_mod_multiples_basic(t, gc);
            assert(s * gc == gc * s && t * gc == gc * t) by (nonlinear_arith);
            lemma_common_divisor_divides_gcd(an, ad, gc);
            vstd::arithmetic::div_mod::lemma_fundamental_div_mod(g, gc);
            let m = g / gc;
            assert(false) by (nonlinear_arith)
                requires
                    g == gc * m,
                    g > 0,
                    gc == g * c,
                    c > 1,
            ;
        }
    }
}

/// The product of two rationals is their product in value: `a/b * c/e` is `p/q` with `q > 0` and
/// `p * (b * e) == (a * c) * q`.
pub proof fn lemma_rational_mul_value(a: i64, b: i64, c: i64, e: i64)
    requires
        b != 0,
        e != 0,
    ensures
        spec_checked_mul(Number::Rational(a, b), Number::Rational(c, e)) matches Ok(Number::Rational(p, q))
            ==> q > 0 && p * (b * e) == (a * c) * q,
{
    if let (Some(n), Some(d)) = (a.checked_mul(c), b.checked_mul(e)) {
        assert(d != 0) by (nonlinear_arith)
            requires
                d == b * e,
                b != 0,
                e != 0,
        ;
        lemma_simplified_keeps_value(n, d);
    }
}

/// The quotient of two rationals is their quotient in value: `a/b / c/e` is `p/q` with `q > 0`
/// and `p * (b * c) == (a * e) * q`, so multiplying it back by `c/e` gives `a/b`.
pub proof fn lemma_rational_div_value(a: i64, b: i64, c: i64, e: i64)
    requires
        b != 0,
        e != 0,
    ensures
        spec_checked_div(Number::Rational(a, b), Number::Rational(c, e)) matches Ok(Number::Rational(p, q))
            ==> q > 0 && p * (b * c) == (a * e) * q,
{
    if c != 0 {
        lemma_rational_mul_value(a, b, e, c);
    }
}

/// Euclid's algorithm on words.
fn gcd(x: i64, y: i64) -> (r: Option<i64>)
    ensures
        r == spec_gcd(x, y),
{
    let mut a = x;
    let mut b = y;
    while b != 0
        invariant
            spec_gcd(a, b) == spec_gcd(x, y),
        decreases iabs(b as int),
    {
        match a.checked_rem(b) {
            Some(r) => {
                a = b;
                b = r;
            },
            None => return None,
        }
    }
    Some(a)
}


/// The lowest common multiple, `|a * b| / gcd(a, b)`.
fn lcm(a: i64, b: i64) -> (r: Option<i64>)
    ensures
        r == spec_lcm(a, b),
{
    let p = match a.checked_mul(b) {
        Some(p) => p,
        None => return None,
    };
    let q = if p < 0 {
        match 0i64.checked_sub(p) {
            Some(q) => q,
            None => return None,
        }
    } else {
        p
    };
    match gcd(a, b) {
        Some(g) => q.checked_div(g),
        None => None,
    }
}

/// The parts of a fraction divided through by the greatest common divisor of its parts.
fn simplify_parts(n: i64, d: i64) -> (r: Option<(i64, i64)>)
    ensures
        r == spec_simplified(n, d),
{
    let an = if n < 0 {
        match 0i64.checked_sub(n) {
            Some(a) => a,
            None => return None,
        }
    } else {
        n
    };
    let ad = if d < 0 {
        match 0i64.checked_sub(d) {
            Some(a) => a,
            None => return None,
        }
    } else {
        d
    };
    let g = match gcd(an, ad) {
        Some(g) => g,
        None => return None,
    };
    match (an.checked_div(g), ad.checked_div(g)) {
        (Some(qn), Some(qd)) => {
            let sign_negative = (n < 0) != (d < 0);
            Some((if sign_negative { -qn } else { qn }, qd))
        },
        _ => None,
    }
}

/// The decimal which a number stands for, where it can be computed: a rational is its numerator
/// divided by its denominator.
pub open spec fn spec_to_decimal(n: Number) -> Option<Dec> {
    match n {
        Number::Decimal(d, _) => Some(d),
        Number::Rational(a, b) => dec_of(decimal_checked_div((a as i128, 0), (b as i128, 0))),
    }
}

/// The accuracy of a number: that of a decimal, and exact for a rational.
pub open spec fn spec_accuracy(n: Number) -> DecimalAccuracy {
    match n {
        Number::Decimal(_, a) => a,
        Number::Rational(_, _) => DecimalAccuracy::Exact,
    }
}

/// The least accurate of two accuracies.
pub open spec fn combined(a: DecimalAccuracy, b: DecimalAccuracy) -> DecimalAccuracy {
    if a == DecimalAccuracy::Exact && b == DecimalAccuracy::Exact {
        DecimalAccuracy::Exact
    } else {
        DecimalAccuracy::Approximation
    }
}

/// The result of an operation which fails with an overflow where nothing is computed.
pub open spec fn or_overflow(r: Option<Number>) -> Result<Number, MathsError> {
    match r {
        Some(n) => Ok(n),
        None => Err(MathsError::Overflow),
    }
}

/// The sum of two numbers: exact and simplified for two rationals, and otherwise the sum of their
/// decimals.
pub open spec fn spec_checked_add(a: Number, b: Number) -> Result<Number, MathsError> {
    match (a, b) {
        (Number::Rational(ln, ld), Number::Rational(rn, rd)) => match spec_common(ln, ld, rn, rd) {
            Some((l, r, nd)) => match l.checked_add(r) {
                Some(sum) => match spec_simplified(sum, nd) {
                    Some((p, q)) => Ok(Number::Rational(p, q)),
                    None => Err(MathsError::Overflow),
                },
                None => Err(MathsError::Overflow),
            },
            None => Err(MathsError::Overflow),
        },
        _ => match (spec_to_decimal(a), spec_to_decimal(b)) {
            (Some(x), Some(y)) => match dec_of(decimal_checked_add(x.parts(), y.parts())) {
                Some(z) => Ok(Number::Decimal(z, combined(spec_accuracy(a), spec_accuracy(b)))),
                None => Err(MathsError::Overflow),
            },
            _ => Err(MathsError::Overflow),
        },
    }
}

/// The negation of a number, where it fits; a negated rational is simplified.
pub open spec fn spec_neg(a: Number) -> Option<Number> {
    match a {
        Number::Rational(n, d) => match 0i64.checked_sub(n) {
            Some(m) => match spec_simplified(m, d) {
                Some((p, q)) => Some(Number::Rational(p, q)),
                None => None,
            },
            None => None,
        },
        Number::Decimal(x, acc) => Some(Number::Decimal(Dec { mantissa: (-x.mantissa) as i128, scale: x.scale }, acc)),
    }
}

/// A number is within its limits: a decimal's mantissa and scale are.
pub open spec fn number_wf(n: Number) -> bool {
    match n {
        Number::Decimal(d, _) => d.wf(),
        Number::Rational(_, _) => true,
    }
}

impl Number {
    /// Gets the accuracy of this number; rational numbers are always exact.
    pub fn accuracy(&self) -> (r: DecimalAccuracy)
        ensures
            r == spec_accuracy(*self),
    {
        match self {
            Number::Decimal(_, a) => *a,
            Number::Rational(_, _) => DecimalAccuracy::Exact,
        }
    }

    /// Converts this number to a decimal, where it can be: a decimal is itself, and a rational is
    /// its numerator divided by its denominator.
    pub fn try_to_decimal(&self) -> (r: Option<Dec>)
        requires
            number_wf(*self),
        ensures
            r == spec_to_decimal(*self),
            r matches Some(d) ==> d.wf(),
            (*self matches Number::Rational(_, q) ==> q != 0) ==> r is Some,
    {
        match self {
            Number::Decimal(d, _) => Some(*d),
            Number::Rational(n, d) => dec_checked_div(Dec::from_i64(*n), Dec::from_i64(*d)),
        }
    }

    /// Converts this number to a decimal: a decimal is itself, and a rational is its numerator
    /// divided by its denominator.
    pub fn to_decimal(&self) -> (r: Dec)
        requires
            number_wf(*self),
            spec_to_decimal(*self) is Some,
        ensures
            r == spec_to_decimal(*self).unwrap(),
            r.wf(),
    {
        self.try_to_decimal().unwrap()
    }

    /// The zero number.
    pub fn zero() -> (r: Number)
        ensures
            r == Number::Rational(0, 1),
    {
        Number::Rational(0, 1)
    }

    /// The number one.
    pub fn one() -> (r: Number)
        ensures
            r == Number::Rational(1, 1),
    {
        Number::Rational(1, 1)
    }

    /// Returns true if this number is zero.
    pub fn is_zero(&self) -> (r: bool)
        ensures
            r == match *self {
                Number::Decimal(d, _) => d.mantissa == 0,
                Number::Rational(n, _) => n == 0,
            },
    {
        match self {
            Number::Decimal(d, _) => d.is_zero(),
            Number::Rational(n, _) => *n == 0,
        }
    }

    /// Returns true if this number is one.
    pub fn is_one(&self) -> (r: bool)
        requires
            number_wf(*self),
        ensures
            r == match *self {
                Number::Decimal(d, _) => d.same_value(Dec { mantissa: 1, scale: 0 }),
                Number::Rational(n, d) => n == d,
            },
    {
        match self {
            Number::Decimal(d, _) => dec_eq(*d, Dec::one()),
            Number::Rational(n, d) => *n == *d,
        }
    }

    /// The rational number of an integer.
    pub fn from_i64(i: i64) -> (r: Number)
        ensures
            r == Number::Rational(i, 1),
    {
        Number::Rational(i, 1)
    }

    /// The exact decimal number of a decimal.
    pub fn from_decimal(d: Dec) -> (r: Number)
        ensures
            r == Number::Decimal(d, DecimalAccuracy::Exact),
    {
        Number::Decimal(d, DecimalAccuracy::Exact)
    }

    /// The negation of this number, where it fits. A negated rational is simplified.
    pub fn checked_neg(&self) -> (r: Option<Number>)
        requires
            number_wf(*self),
        ensures
            r == spec_neg(*self),
            r matches Some(n) ==> number_wf(n),
    {
        match self {
            Number::Rational(n, d) => match 0i64.checked_sub(*n) {
                Some(m) => match simplify_parts(m, *d) {
                    Some((p, q)) => Some(Number::Rational(p, q)),
                    None => None,
                },
                None => None,
            },
            Number::Decimal(x, acc) => Some(Number::Decimal(x.neg(), *acc)),
        }
    }

    /// Adds this number to another number, or returns an error if an overflow occurs.
    pub fn checked_add(&self, other: Number) -> (r: Result<Number, MathsError>)
        requires
            number_wf(*self),
            number_wf(other),
        ensures
            r == spec_checked_add(*self, other),
            r matches Ok(n) ==> number_wf(n),
    {
        match (self, other) {
            (Number::Rational(ln, ld), Number::Rational(rn, rd)) => {
                let (l, r, nd) = match common(*ln, *ld, rn, rd) {
                    Some(c) => c,
                    None => return Err(MathsError::Overflow),
                };
                let sum = match l.checked_add(r) {
                    Some(s) => s,
                    None => return Err(MathsError::Overflow),
                };
                match simplify_parts(sum, nd) {
                    Some((p, q)) => Ok(Number::Rational(p, q)),
                    None => Err(MathsError::Overflow),
                }
            },
            _ => {
                let x = match self.try_to_decimal() {
                    Some(x) => x,
                    None => return Err(MathsError::Overflow),
                };
                let y = match other.try_to_decimal() {
                    Some(y) => y,
                    None => return Err(MathsError::Overflow),
                };
                match dec_checked_add(x, y) {
                    Some(z) => Ok(Number::Decimal(z, self.accuracy().combine(other.accuracy()))),
                    None => Err(MathsError::Overflow),
                }
            },
        }
    }

    /// Subtracts another number from this one, or returns an error if an overflow occurs.
    pub fn checked_sub(&self, other: Number) -> (r: Result<Number, MathsError>)
        requires
            number_wf(*self),
            number_wf(other),
        ensures
            r == match spec_neg(other) {
                Some(n) => spec_checked_add(*self, n),
                None => Err(MathsError::Overflow),
            },
            r matches Ok(n) ==> number_wf(n),
    {
        match other.checked_neg() {
            Some(n) => self.checked_add(n),
            None => Err(MathsError::Overflow),
        }
    }
}

/// Two fractions over a common denominator.
fn common(ln: i64, ld: i64, rn: i64, rd: i64) -> (r: Option<(i64, i64, i64)>)
    ensures
        r == spec_common(ln, ld, rn, rd),
{
    let nd = match lcm(ld, rd) {
        Some(nd) => nd,
        None => return None,
    };
    match (nd.checked_div(ld), nd.checked_div(rd)) {
        (Some(lf), Some(rf)) => match (lf.checked_mul(ln), rf.checked_mul(rn)) {
            (Some(a), Some(b)) => Some((a, b, nd)),
            _ => None,
        },
        _ => None,
    }
}


/// The threshold of repeated digits at which `correct_inaccuracy` truncates.
pub const CORRECT_FLOAT_DIGIT_THRESHOLD: u64 = 10;

/// A run of a repeated digit among the fractional digits: where it starts, the digit, and its
/// length.
pub type Repeat = (u64, u32, u64);

/// The value of a decimal digit character.
pub open spec fn char_digit(c: char) -> Option<u32> {
    if '0' <= c && c <= '9' {
        Some((c as u32 - '0' as u32) as u32)
    } else {
        None
    }
}

/// The characters after the first decimal point, if there is one.
pub open spec fn fractional_chars(s: Seq<char>) -> Seq<char>
    decreases s.len(),
{
    if s.len() == 0 {
        s
    } else if s[0] == '.' {
        s.skip(1)
    } else {
        fractional_chars(s.skip(1))
    }
}

/// The scan for runs of an extreme digit (0 or 9) after `n` digits: the current run, and whether
/// the scan stopped at a run as long as the threshold.
pub open spec fn repeat_scan(digits: Seq<u32>, n: int) -> (Option<Repeat>, bool)
    decreases n,
{
    if n <= 0 {
        (None, false)
    } else {
        let (current, stopped) = repeat_scan(digits, n - 1);
        if stopped {
            (current, true)
        } else {
            let d = digits[n - 1];
            let fresh = if d == 0 || d == 9 { Some(((n - 1) as u64, d, 1u64)) } else { None };
            match current {
                Some((start, digit, length)) => if digit == d {
                    let longer = (length + 1) as u64;
                    (Some((start, digit, longer)), longer >= CORRECT_FLOAT_DIGIT_THRESHOLD)
                } else {
                    (fresh, false)
                },
                None => (fresh, false),
            }
        }
    }
}

/// The whole part of `digits` of a mantissa, then the first `k` fractional digits, in words.
pub open spec fn extend_mantissa(m: i64, digits: Seq<u32>, k: int) -> Option<i64>
    decreases k,
{
    if k <= 0 {
        Some(m)
    } else {
        match extend_mantissa(m, digits, k - 1) {
            Some(p) => match p.checked_mul(10) {
                Some(q) => q.checked_add(digits[k - 1] as i64),
                None => None,
            },
            None => None,
        }
    }
}

/// The number corrected for a run of the threshold's length of an extreme digit among the
/// fractional digits of an approximate decimal: the digits from the run on are dropped, and a
/// run of nines rounds away from zero. Where a step does not fit, the number is kept.
pub open spec fn spec_correct_inaccuracy(n: Number) -> Number {
    match n {
        Number::Decimal(d, DecimalAccuracy::Approximation) => {
            let whole = Dec::of(decimal_floor(d.parts())).same_value(d);
            let chars = fractional_chars(decimal_to_string(d.parts()));
            let digits = chars.map_values(|c: char| char_digit(c).unwrap());
            if whole || !(forall|i: int| 0 <= i < chars.len() ==> (#[trigger] char_digit(chars[i])) is Some) {
                n
            } else {
                match repeat_scan(digits, digits.len() as int).0 {
                    Some((start, digit, length)) => if length >= CORRECT_FLOAT_DIGIT_THRESHOLD {
                        let t = Dec::of(decimal_trunc(d.parts()));
                        let sign: i64 = if d.mantissa < 0 { -1i64 } else if d.mantissa == 0 { 0i64 } else { 1i64 };
                        if start == 0 {
                            if digit == 0 {
                                Number::Decimal(t, DecimalAccuracy::Approximation)
                            } else {
                                match dec_of(decimal_checked_add(t.parts(), (sign as i128, 0))) {
                                    Some(u) => Number::Decimal(u, DecimalAccuracy::Approximation),
                                    None => n,
                                }
                            }
                        } else {
                            match decimal_to_i64(t.parts()) {
                                Some(w) => match checked_iabs(w) {
                                    Some(aw) => match extend_mantissa(aw, digits, start as int) {
                                        Some(m) => if start <= MAX_SCALE {
                                            match m.checked_mul(sign) {
                                                Some(sm) => if digit == 0 {
                                                    Number::Decimal(Dec { mantissa: sm as i128, scale: start as u32 }, DecimalAccuracy::Approximation)
                                                } else {
                                                    match sm.checked_add(sign) {
                                                        Some(up) => Number::Decimal(Dec { mantissa: up as i128, scale: start as u32 }, DecimalAccuracy::Approximation),
                                                        None => n,
                                                    }
                                                },
                                                None => n,
                                            }
                                        } else {
                                            n
                                        },
                                        None => n,
                                    },
                                    None => n,
                                },
                                None => n,
                            }
                        }
                    } else {
                        n
                    },
                    None => n,
                }
            }
        },
        _ => n,
    }
}

/// The characters of a string after its first decimal point, as digits, if they all are.
pub fn fractional_digits(s: &String) -> (r: Option<Vec<u32>>)
    ensures
        ({
            let chars = fractional_chars(s@);
            &&& r is Some <==> forall|i: int| 0 <= i < chars.len() ==> (#[trigger] char_digit(chars[i])) is Some
            &&& r matches Some(v) ==> v@ == chars.map_values(|c: char| char_digit(c).unwrap())
        }),
{
    let st = s.as_str();
    let n = st.unicode_len();
    let ghost chars = s@;
    let mut i: usize = 0;
    assert(chars.skip(0) =~= chars);
    // Skip to just past the first decimal point
    while i < n && st.get_char(i) != '.'
        invariant
            i <= n,
            n == chars.len(),
            st@ == chars,
            fractional_chars(chars.skip(i as int)) == fractional_chars(chars),
        decreases n - i,
    {
        proof {
            assert(chars.skip(i as int).skip(1) =~= chars.skip(i + 1));
        }
        i = i + 1;
    }
    let ghost rest = fractional_chars(chars);
    assert(chars.skip(0) =~= chars);
    if i < n {
        proof {
            assert(chars.skip(i as int).skip(1) =~= chars.skip(i + 1));
        }
        i = i + 1;
    } else {
        assert(chars.skip(i as int).len() == 0);
    }
    assert(rest =~= chars.skip(i as int));
    let start = i;
    let mut digits: Vec<u32> = Vec::new();
    while i < n
        invariant
            start <= i <= n,
            n == chars.len(),
            st@ == chars,
            chars == s@,
            rest == fractional_chars(s@),
            rest == chars.skip(start as int),
            digits@.len() == i - start,
            forall|j: int| 0 <= j < i - start ==> char_digit(#[trigger] rest[j]) is Some && digits@[j] == char_digit(rest[j]).unwrap(),
        decreases n - i,
    {
        let c = st.get_char(i);
        assert(c == rest[i - start]);
        if '0' <= c && c <= '9' {
            digits.push((c as u32) - ('0' as u32));
        } else {
            assert(char_digit(rest[i - start]) is None);
            assert(0 <= i - start < rest.len());
            assert(!(forall|j: int| 0 <= j < rest.len() ==> (#[trigger] char_digit(rest[j])) is Some));
            return None;
        }
        i = i + 1;
    }
    assert(digits@ =~= rest.map_values(|c: char| char_digit(c).unwrap()));
    Some(digits)
}

/// The run of a repeated extreme digit (0 or 9) among fractional digits which correction acts
/// on: the first run to reach the threshold length, or else the run at the end of the digits, if
/// they end in one.
pub fn find_repeat(digits: &Vec<u32>) -> (r: Option<Repeat>)
    ensures
        r == repeat_scan(digits@, digits@.len() as int).0,
        r matches Some((start, digit, length)) ==> start < digits@.len() && length <= digits@.len(),
{
    let mut current: Option<Repeat> = None;
    let mut stopped = false;
    let mut i: usize = 0;
    while i < digits.len() && !stopped
        invariant
            i <= digits@.len(),
            (current, stopped) == repeat_scan(digits@, i as int),
            current matches Some((start, digit, length)) ==> start < i && length <= i,
        decreases digits@.len() - i,
    {
        let digit = digits[i];
        let fresh = if digit == 0 || digit == 9 { Some((i as u64, digit, 1u64)) } else { None };
        match current {
            Some((start, repeated, length)) => if repeated == digit {
                current = Some((start, repeated, length + 1));
                stopped = length + 1 >= CORRECT_FLOAT_DIGIT_THRESHOLD;
            } else {
                current = fresh;
            },
            None => current = fresh,
        }
        i = i + 1;
    }
    proof {
        if i < digits@.len() {
            assert forall|k: int| i <= k <= digits@.len() implies repeat_scan(digits@, k) == repeat_scan(digits@, i as int) by {
                lemma_scan_stopped(digits@, i as int, k);
            }
        }
    }
    current
}

impl Number {
    /// Attempts to correct inaccuracies in this number introduced by imprecise operations: a run of
    /// ten or more zeros or nines among the fractional digits of an approximate decimal is taken
    /// to be an artifact, so 1.14000000000000003 becomes 1.14 and 1.9999999999997 becomes 2.
    /// Other numbers are returned unchanged.
    #[verifier::loop_isolation(false)]
    pub fn correct_inaccuracy(&self) -> (r: Number)
        requires
            number_wf(*self),
        ensures
            r == spec_correct_inaccuracy(*self),
            number_wf(r),
    {
        let n = *self;
        let d = match n {
            Number::Decimal(d, DecimalAccuracy::Approximation) => d,
            _ => return n,
        };
        if dec_eq(dec_floor(d), d) {
            return n;
        }
        let text = dec_to_string(d);
        let digits = match fractional_digits(&text) {
            Some(v) => v,
            None => return n,
        };
        // Look for a run of extreme digits (0 or 9)
        let current = find_repeat(&digits);
        let (start, digit, length) = match current {
            Some(r) => r,
            None => return n,
        };
        if length < CORRECT_FLOAT_DIGIT_THRESHOLD {
            return n;
        }
        let t = dec_trunc(d);
        let sign = d.signum();
        if start == 0 {
            if digit == 0 {
                return Number::Decimal(t, DecimalAccuracy::Approximation);
            }
            return match dec_checked_add(t, Dec::from_i64(sign)) {
                Some(u) => Number::Decimal(u, DecimalAccuracy::Approximation),
                None => n,
            };
        }
        let w = match dec_to_i64(t) {
            Some(w) => w,
            None => return n,
        };
        let mut m = if w < 0 {
            match 0i64.checked_sub(w) {
                Some(a) => a,
                None => return n,
            }
        } else {
            w
        };
        let ghost aw = m;
        // Keep the digits before the run
        let mut k: usize = 0;
        while (k as u64) < start
            invariant
                start <= digits@.len(),
                k <= start,
                extend_mantissa(aw, digits@, k as int) == Some(m),
            decreases start - k,
        {
            m = match m.checked_mul(10) {
                Some(q) => match q.checked_add(digits[k] as i64) {
                    Some(x) => x,
                    None => {
                        proof {
                            lemma_extend_none(aw, digits@, (k + 1) as int, start as int);
                        }
                        return n;
                    },
                },
                None => {
                    proof {
                        lemma_extend_none(aw, digits@, (k + 1) as int, start as int);
                    }
                    return n;
                },
            };
            k = k + 1;
        }
        if start > MAX_SCALE as u64 {
            return n;
        }
        let sm = match m.checked_mul(sign) {
            Some(x) => x,
            None => return n,
        };
        if digit == 0 {
            Number::Decimal(Dec { mantissa: sm as i128, scale: start as u32 }, DecimalAccuracy::Approximation)
        } else {
            match sm.checked_add(sign) {
                Some(up) => Number::Decimal(Dec { mantissa: up as i128, scale: start as u32 }, DecimalAccuracy::Approximation),
                None => n,
            }
        }
    }
}

/// Once a step of extending a mantissa does not fit, no later step does.
proof fn lemma_extend_none(m: i64, digits: Seq<u32>, k: int, j: int)
    requires
        1 <= k <= j,
        extend_mantissa(m, digits, k) is None,
    ensures
        extend_mantissa(m, digits, j) is None,
    decreases j - k,
{
    if k < j {
        lemma_extend_none(m, digits, k, j - 1);
    }
}

/// Once the scan stops, it stays stopped where it was.
proof fn lemma_scan_stopped(digits: Seq<u32>, i: int, k: int)
    requires
        0 <= i <= k,
        repeat_scan(digits, i).1,
    ensures
        repeat_scan(digits, k) == repeat_scan(digits, i),
    decreases k - i,
{
    if k > i {
        lemma_scan_stopped(digits, i, k - 1);
    }
}


/// A rational simplified, where every step fits.
pub open spec fn spec_simplify_rational(n: i64, d: i64) -> Option<Number> {
    match spec_simplified(n, d) {
        Some((p, q)) => Some(Number::Rational(p, q)),
        None => None,
    }
}

/// A number simplified: a decimal is normalised and corrected for inaccuracy, and a rational is
/// divided through by the greatest common divisor of its parts, with any negative sign on the
/// numerator.
pub open spec fn spec_simplify(n: Number) -> Number {
    match n {
        Number::Decimal(d, a) => {
            let (m, s) = normalized(d.mantissa as int, d.scale as nat);
            spec_correct_inaccuracy(Number::Decimal(Dec { mantissa: m as i128, scale: s as u32 }, a))
        },
        Number::Rational(p, q) => spec_simplify_rational(p, q).unwrap(),
    }
}

/// The product of two numbers: exact and simplified for two rationals, and otherwise the product
/// of their decimals, simplified.
pub open spec fn spec_checked_mul(a: Number, b: Number) -> Result<Number, MathsError> {
    match (a, b) {
        (Number::Rational(ln, ld), Number::Rational(rn, rd)) => match (ln.checked_mul(rn), ld.checked_mul(rd)) {
            (Some(n), Some(d)) => or_overflow(spec_simplify_rational(n, d)),
            _ => Err(MathsError::Overflow),
        },
        _ => match (spec_to_decimal(a), spec_to_decimal(b)) {
            (Some(x), Some(y)) => match dec_of(decimal_checked_mul(x.parts(), y.parts())) {
                Some(z) => Ok(spec_simplify(Number::Decimal(z, combined(spec_accuracy(a), spec_accuracy(b))))),
                None => Err(MathsError::Overflow),
            },
            _ => Err(MathsError::Overflow),
        },
    }
}

/// The reciprocal of a number, where it can be computed: a rational's parts swap, and a decimal
/// is one divided by it.
pub open spec fn spec_reciprocal(n: Number) -> Option<Number> {
    match n {
        Number::Decimal(d, a) => match dec_of(decimal_checked_div((1, 0), d.parts())) {
            Some(r) => Some(Number::Decimal(r, a)),
            None => None,
        },
        Number::Rational(p, q) => Some(Number::Rational(q, p)),
    }
}

/// The quotient of two numbers: an error for a zero divisor, and otherwise the product with the
/// divisor's reciprocal.
pub open spec fn spec_checked_div(a: Number, b: Number) -> Result<Number, MathsError> {
    let zero = match b {
        Number::Decimal(d, _) => d.mantissa == 0,
        Number::Rational(p, _) => p == 0,
    };
    if zero {
        Err(MathsError::DivisionByZero)
    } else {
        match spec_reciprocal(b) {
            Some(r) => spec_checked_mul(a, r),
            None => Err(MathsError::Overflow),
        }
    }
}

/// The whole number which a number is, if it is one: a decimal equal to its floor, or a rational
/// whose numerator its denominator divides.
pub open spec fn spec_to_whole(n: Number) -> Option<i64> {
    match n {
        Number::Decimal(d, _) => if Dec::of(decimal_floor(d.parts())).same_value(d) {
            decimal_to_i64(decimal_floor(d.parts()))
        } else {
            None
        },
        Number::Rational(p, q) => if p.checked_rem(q) == Some(0i64) {
            p.checked_div(q)
        } else {
            None
        },
    }
}

impl Number {
    /// Simplifies this number: a decimal is normalised and then corrected for inaccuracy, and a
    /// rational is divided through by the greatest common divisor of its parts, with any negative
    /// sign moved onto the numerator.
    pub fn simplify(&self) -> (r: Number)
        requires
            number_wf(*self),
            *self matches Number::Rational(p, q) ==> spec_simplify_rational(p, q) is Some,
        ensures
            r == spec_simplify(*self),
            number_wf(r),
    {
        match self {
            Number::Decimal(d, a) => Number::Decimal(d.normalize(), *a).correct_inaccuracy(),
            Number::Rational(p, q) => {
                let (n, d) = simplify_parts(*p, *q).unwrap();
                Number::Rational(n, d)
            },
        }
    }

    /// The reciprocal of this number, where it can be computed.
    pub fn try_reciprocal(&self) -> (r: Option<Number>)
        requires
            number_wf(*self),
        ensures
            r == spec_reciprocal(*self),
            r matches Some(n) ==> number_wf(n),
    {
        match self {
            Number::Decimal(d, a) => match dec_checked_div(Dec::one(), *d) {
                Some(r) => Some(Number::Decimal(r, *a)),
                None => None,
            },
            Number::Rational(p, q) => Some(Number::Rational(*q, *p)),
        }
    }

    /// Returns the reciprocal of this number.
    pub fn reciprocal(&self) -> (r: Number)
        requires
            number_wf(*self),
            spec_reciprocal(*self) is Some,
        ensures
            r == spec_reciprocal(*self).unwrap(),
            number_wf(r),
    {
        self.try_reciprocal().unwrap()
    }

    /// If this is a whole number, returns it. Otherwise returns `None`.
    pub fn to_whole(&self) -> (r: Option<i64>)
        requires
            number_wf(*self),
            *self matches Number::Rational(p, q) ==> q != 0 && !(p == i64::MIN && q == -1),
        ensures
            r == spec_to_whole(*self),
    {
        match self {
            Number::Decimal(d, _) => {
                let f = dec_floor(*d);
                if dec_eq(f, *d) {
                    dec_to_i64(f)
                } else {
                    None
                }
            },
            Number::Rational(p, q) => {
                if p.checked_rem(*q) == Some(0i64) {
                    p.checked_div(*q)
                } else {
                    None
                }
            },
        }
    }

    /// Multiplies this number with another number, or returns an error if an overflow occurs.
    pub fn checked_mul(&self, other: Number) -> (r: Result<Number, MathsError>)
        requires
            number_wf(*self),
            number_wf(other),
        ensures
            r == spec_checked_mul(*self, other),
            r matches Ok(n) ==> number_wf(n),
    {
        match (self, other) {
            (Number::Rational(ln, ld), Number::Rational(rn, rd)) => match (ln.checked_mul(rn), ld.checked_mul(rd)) {
                (Some(n), Some(d)) => match simplify_parts(n, d) {
                    Some((p, q)) => Ok(Number::Rational(p, q)),
                    None => Err(MathsError::Overflow),
                },
                _ => Err(MathsError::Overflow),
            },
            _ => {
                let x = match self.try_to_decimal() {
                    Some(x) => x,
                    None => return Err(MathsError::Overflow),
                };
                let y = match other.try_to_decimal() {
                    Some(y) => y,
                    None => return Err(MathsError::Overflow),
                };
                match dec_checked_mul(x, y) {
                    Some(z) => Ok(Number::Decimal(z, self.accuracy().combine(other.accuracy())).simplify()),
                    None => Err(MathsError::Overflow),
                }
            },
        }
    }

    /// Divides this number by another number, or returns an error if the divisor is zero.
    pub fn checked_div(&self, other: Number) -> (r: Result<Number, MathsError>)
        requires
            number_wf(*self),
            number_wf(other),
        ensures
            r == spec_checked_div(*self, other),
            r matches Ok(n) ==> number_wf(n),
    {
        if other.is_zero() {
            Err(MathsError::DivisionByZero)
        } else {
            match other.try_reciprocal() {
                Some(r) => self.checked_mul(r),
                None => Err(MathsError::Overflow),
            }
        }
    }
}


/// An integer raised to a power by repeated multiplication, where every product fits.
pub open spec fn spec_ipow(b: i64, e: nat) -> Option<i64>
    decreases e,
{
    if e == 0 {
        Some(1)
    } else {
        match spec_ipow(b, (e - 1) as nat) {
            Some(p) => p.checked_mul(b),
            None => None,
        }
    }
}

/// The powers of zero, one and minus one.
proof fn lemma_ipow_small(b: i64, e: nat)
    requires
        -1 <= b <= 1,
    ensures
        spec_ipow(b, e) == Some(
            if e == 0 {
                1i64
            } else if b == 0 {
                0i64
            } else if b == 1 || e % 2 == 0 {
                1i64
            } else {
                -1i64
            },
        ),
    decreases e,
{
    if e > 0 {
        lemma_ipow_small(b, (e - 1) as nat);
    }
}

/// Once a power does not fit, no higher power does.
proof fn lemma_ipow_none(b: i64, e: nat, f: nat)
    requires
        e <= f,
        spec_ipow(b, e) is None,
    ensures
        spec_ipow(b, f) is None,
    decreases f - e,
{
    if e < f {
        lemma_ipow_none(b, e, (f - 1) as nat);
    }
}

/// An integer raised to a power (`i64::pow`), where it fits.
fn checked_ipow(b: i64, e: u32) -> (r: Option<i64>)
    ensures
        r == spec_ipow(b, e as nat),
{
    if -1 <= b && b <= 1 {
        proof {
            lemma_ipow_small(b, e as nat);
        }
        return Some(
            if e == 0 {
                1
            } else if b == 0 {
                0
            } else if b == 1 || e % 2 == 0 {
                1
            } else {
                -1
            },
        );
    }
    let mut p: i64 = 1;
    let mut i: u32 = 0;
    while i < e
        invariant
            i <= e,
            spec_ipow(b, i as nat) == Some(p),
        decreases e - i,
    {
        match p.checked_mul(b) {
            Some(q) => p = q,
            None => {
                proof {
                    lemma_ipow_none(b, (i + 1) as nat, e as nat);
                }
                return None;
            },
        }
        i = i + 1;
    }
    Some(p)
}

/// A number multiplied by itself: `b` to the power `k`, and one for `k` of zero (or less).
pub open spec fn spec_powi_loop(b: Number, k: int) -> Result<Number, MathsError>
    decreases k,
{
    if k <= 0 {
        Ok(Number::Rational(1, 1))
    } else if k == 1 {
        Ok(b)
    } else {
        match spec_powi_loop(b, k - 1) {
            Ok(n) => spec_checked_mul(n, b),
            Err(e) => Err(e),
        }
    }
}

/// A number raised to an integer power by repeated multiplication, with the reciprocal taken
/// for a negative power; an error where a step overflows.
pub open spec fn spec_powi(b: Number, exp: i64) -> Result<Number, MathsError> {
    if exp == i64::MIN {
        Err(MathsError::Overflow)
    } else {
        match spec_powi_loop(b, iabs(exp as int)) {
            Ok(n) => if exp < 0 {
                match spec_reciprocal(n) {
                    Some(r) => Ok(r),
                    None => Err(MathsError::Overflow),
                }
            } else {
                Ok(n)
            },
            Err(e) => Err(e),
        }
    }
}

/// Whether a power of two rationals stays rational: the result for a rational power of a rational
/// whose parts have exact roots of the power's denominator, and an error for an imaginary
/// result.
pub open spec fn spec_rational_pow(bn: i64, bd: i64, pn: i64, pd: i64) -> Option<Result<Number, MathsError>> {
    if (bn < 0 && pd % 2 == 0) || (bd < 0 && pd % 2 == 0) {
        Some(Err(MathsError::Imaginary))
    } else if pd < 0 || pd > u32::MAX {
        Some(Err(MathsError::Overflow))
    } else if pd == 0 {
        Some(Err(MathsError::DivisionByZero))
    } else {
        let rn = integer_nth_root(bn, pd as u32);
        let rd = integer_nth_root(bd, pd as u32);
        if spec_ipow(rn, pd as nat) == Some(bn) && spec_ipow(rd, pd as nat) == Some(bd) {
            if pn == i64::MIN || iabs(pn as int) > u32::MAX {
                Some(Err(MathsError::Overflow))
            } else {
                match (spec_ipow(rn, iabs(pn as int) as nat), spec_ipow(rd, iabs(pn as int) as nat)) {
                    (Some(x), Some(y)) => if pn < 0 {
                        Some(Ok(Number::Rational(y, x)))
                    } else {
                        Some(Ok(Number::Rational(x, y)))
                    },
                    _ => Some(Err(MathsError::Overflow)),
                }
            }
        } else {
            None
        }
    }
}

/// A number raised to the power of another: exactly for rationals where the roots are exact, and
/// otherwise approximately with decimals.
pub open spec fn spec_checked_pow(b: Number, p: Number) -> Result<Number, MathsError> {
    let rational = match (b, p) {
        (Number::Rational(bn, bd), Number::Rational(pn, pd)) => spec_rational_pow(bn, bd, pn, pd),
        _ => None,
    };
    match rational {
        Some(r) => r,
        None => match (spec_to_decimal(b), spec_to_decimal(p)) {
            (Some(x), Some(y)) => if powd_takes_ln(x, y) && decimal_checked_ln(dec_abs(x).parts()) is None {
                Err(MathsError::Overflow)
            } else {
                match dec_of(decimal_checked_powd(x.parts(), y.parts())) {
                    Some(z) => Ok(Number::Decimal(z, DecimalAccuracy::Approximation)),
                    None => Err(MathsError::Overflow),
                }
            },
            _ => Err(MathsError::Overflow),
        },
    }
}

impl Number {
    /// Raises this number to an integer power by repeated multiplication, or returns an error
    /// where a step overflows.
    pub fn checked_powi(&self, exp: i64) -> (r: Result<Number, MathsError>)
        requires
            number_wf(*self),
        ensures
            r == spec_powi(*self, exp),
            r matches Ok(n) ==> number_wf(n),
    {
        if exp == i64::MIN {
            return Err(MathsError::Overflow);
        }
        let count = if exp < 0 { -exp } else { exp };
        if count == 0 {
            return Ok(Number::Rational(1, 1));
        }
        let mut n = *self;
        let mut i: i64 = 1;
        while i < count
            invariant
                1 <= i,
                i <= count || count <= 1,
                count <= 1 ==> i == 1,
                count == iabs(exp as int),
                number_wf(*self),
                number_wf(n),
                spec_powi_loop(*self, i as int) == Ok::<Number, MathsError>(n),
            decreases count - i,
        {
            n = match n.checked_mul(*self) {
                Ok(m) => m,
                Err(e) => {
                    proof {
                        lemma_powi_err(*self, (i + 1) as int, count as int);
                    }
                    return Err(e);
                },
            };
            i = i + 1;
        }
        proof {
            if count <= 1 {
                assert(spec_powi_loop(*self, count as int) == spec_powi_loop(*self, 1));
            }
        }
        assert(spec_powi_loop(*self, count as int) == Ok::<Number, MathsError>(n));
        if exp < 0 {
            match n.try_reciprocal() {
                Some(r) => Ok(r),
                None => Err(MathsError::Overflow),
            }
        } else {
            Ok(n)
        }
    }

    /// Raises this number to an integer power by repeated multiplication.
    pub fn powi(&self, exp: i64) -> (r: Number)
        requires
            number_wf(*self),
            spec_powi(*self, exp) is Ok,
        ensures
            Ok::<Number, MathsError>(r) == spec_powi(*self, exp),
            number_wf(r),
    {
        match self.checked_powi(exp) {
            Ok(n) => n,
            Err(_) => vstd::pervasive::unreached(),
        }
    }

    /// Raises this number to the power of another number.
    pub fn checked_pow(&self, power: Number) -> (r: Result<Number, MathsError>)
        requires
            number_wf(*self),
            number_wf(power),
        ensures
            r == spec_checked_pow(*self, power),
            r matches Ok(n) ==> number_wf(n),
    {
        // Where both are rational, the result can stay exact
        if let (Number::Rational(bn, bd), Number::Rational(pn, pd)) = (*self, power) {
            let rational = rational_pow(bn, bd, pn, pd);
            if let Some(r) = rational {
                return r;
            }
        }
        let x = match self.try_to_decimal() {
            Some(x) => x,
            None => return Err(MathsError::Overflow),
        };
        let y = match power.try_to_decimal() {
            Some(y) => y,
            None => return Err(MathsError::Overflow),
        };
        // A logarithm which cannot be computed would stop the power with a panic
        if x.mantissa != 0 && x.mantissa != ten_to(x.scale) && !integral(&y) {
            if dec_checked_ln(x.abs()).is_none() {
                return Err(MathsError::Overflow);
            }
        }
        match dec_checked_powd(x, y) {
            Some(z) => Ok(Number::Decimal(z, DecimalAccuracy::Approximation)),
            None => Err(MathsError::Overflow),
        }
    }
}

/// Ten to the power of a scale, where it fits.
fn ten_to(scale: u32) -> (r: i128)
    requires
        scale <= MAX_SCALE,
    ensures
        r == pow10(scale as nat),
{
    let mut p: i128 = 1;
    let mut i: u32 = 0;
    while i < scale
        invariant
            i <= scale <= MAX_SCALE,
            p == pow10(i as nat),
        decreases scale - i,
    {
        proof {
            lemma_pow10_le((i + 1) as nat, 28);
            lemma_pow10_28();
        }
        p = p * 10;
        i = i + 1;
    }
    p
}

/// Ten to the power of the largest scale.
pub(crate) proof fn lemma_pow10_28()
    ensures
        pow10(28) == 10000000000000000000000000000,
{
    reveal_with_fuel(pow10, 29);
}

/// A larger power of ten is no smaller.
proof fn lemma_pow10_le(i: nat, j: nat)
    requires
        i <= j,
    ensures
        1 <= pow10(i) <= pow10(j),
    decreases j,
{
    if j > 0 {
        if i < j {
            lemma_pow10_le(i, (j - 1) as nat);
        } else {
            lemma_pow10_le((i - 1) as nat, (j - 1) as nat);
        }
    }
}

/// Returns true if the value of the decimal is a whole number.
fn integral(d: &Dec) -> (r: bool)
    requires
        d.wf(),
    ensures
        r == dec_integral(*d),
{
    let p = ten_to(d.scale);
    proof {
        lemma_pow10_le(0, d.scale as nat);
    }
    let m: u128 = if d.mantissa < 0 { (-d.mantissa) as u128 } else { d.mantissa as u128 };
    m % (p as u128) == 0
}

/// Once a step of repeated multiplication fails, so does every later one.
proof fn lemma_powi_err(b: Number, k: int, j: int)
    requires
        2 <= k <= j,
        spec_powi_loop(b, k) is Err,
    ensures
        spec_powi_loop(b, j) == spec_powi_loop(b, k),
    decreases j - k,
{
    if k < j {
        lemma_powi_err(b, k, j - 1);
    }
}

/// A power computed on words, where it fits, is the power.
proof fn lemma_ipow_is_pow(b: i64, e: nat)
    ensures
        spec_ipow(b, e) matches Some(v) ==> v == vstd::arithmetic::power::pow(b as int, e),
    decreases e,
{
    reveal(vstd::arithmetic::power::pow);
    if e > 0 {
        lemma_ipow_is_pow(b, (e - 1) as nat);
        if let Some(p) = spec_ipow(b, (e - 1) as nat) {
            let pi = p as int;
            let bi = b as int;
            assert(pi * bi == bi * pi) by (nonlinear_arith);
        }
    }
}

/// The `k`th power of a `q`th root of `n` is a `q`th root of `n` to the `k`th power.
proof fn lemma_power_of_root(r: int, n: int, q: nat, k: nat, x: int)
    requires
        vstd::arithmetic::power::pow(r, q) == n,
        vstd::arithmetic::power::pow(r, k) == x,
    ensures
        vstd::arithmetic::power::pow(x, q) == vstd::arithmetic::power::pow(n, k),
{
    vstd::arithmetic::power::lemma_pow_multiplies(r, k, q);
    vstd::arithmetic::power::lemma_pow_multiplies(r, q, k);
    assert(k * q == q * k) by (nonlinear_arith);
}

/// An exact rational power of a rational is that power in value: for a base `bn/bd` and a power
/// `pn/pd` with `pd >= 1`, the result `x/y` satisfies `x^pd * bd^pn == y^pd * bn^pn` (its
/// `pd`th power is the base to the `pn`th power), with the base's parts swapped for a negative
/// power.
pub proof fn lemma_rational_pow_value(bn: i64, bd: i64, pn: i64, pd: i64)
    requires
        pd >= 1,
    ensures
        spec_rational_pow(bn, bd, pn, pd) matches Some(Ok(Number::Rational(x, y))) ==> {
            let k = iabs(pn as int) as nat;
            let q = pd as nat;
            &&& pn >= 0 ==> vstd::arithmetic::power::pow(x as int, q) * vstd::arithmetic::power::pow(bd as int, k)
                == vstd::arithmetic::power::pow(y as int, q) * vstd::arithmetic::power::pow(bn as int, k)
            &&& pn < 0 ==> vstd::arithmetic::power::pow(x as int, q) * vstd::arithmetic::power::pow(bn as int, k)
                == vstd::arithmetic::power::pow(y as int, q) * vstd::arithmetic::power::pow(bd as int, k)
        },
{
    if let Some(Ok(Number::Rational(x, y))) = spec_rational_pow(bn, bd, pn, pd) {
        let q = pd as nat;
        let k = iabs(pn as int) as nat;
        let rn = integer_nth_root(bn, pd as u32);
        let rd = integer_nth_root(bd, pd as u32);
        lemma_ipow_is_pow(rn, q);
        lemma_ipow_is_pow(rd, q);
        lemma_ipow_is_pow(rn, k);
        lemma_ipow_is_pow(rd, k);
        let xs = spec_ipow(rn, k).unwrap() as int;
        let ys = spec_ipow(rd, k).unwrap() as int;
        lemma_power_of_root(rn as int, bn as int, q, k, xs);
        lemma_power_of_root(rd as int, bd as int, q, k, ys);
        let pxs = vstd::arithmetic::power::pow(xs, q);
        let pys = vstd::arithmetic::power::pow(ys, q);
        let pbn = vstd::arithmetic::power::pow(bn as int, k);
        let pbd = vstd::arithmetic::power::pow(bd as int, k);
        assert(pxs * pbd == pys * pbn) by (nonlinear_arith)
            requires
                pxs == pbn,
                pys == pbd,
        ;
        assert(pys * pbn == pxs * pbd) by (nonlinear_arith)
            requires
                pxs == pbn,
                pys == pbd,
        ;
    }
}

/// A power of minus one, zero or one is itself one of them.
proof fn lemma_pow_small_base(b: int, m: nat)
    requires
        -1 <= b <= 1,
    ensures
        -1 <= vstd::arithmetic::power::pow(b, m) <= 1,
    decreases m,
{
    reveal(vstd::arithmetic::power::pow);
    if m > 0 {
        lemma_pow_small_base(b, (m - 1) as nat);
        let pm = vstd::arithmetic::power::pow(b, (m - 1) as nat);
        assert(-1 <= b * pm <= 1) by (nonlinear_arith)
            requires
                -1 <= b <= 1,
                -1 <= pm <= 1,
        ;
    }
}

/// Powers by repeated checked multiplication succeed wherever the power fits in a word.
proof fn lemma_ipow_fits(b: i64, e: nat)
    requires
        i64::MIN <= vstd::arithmetic::power::pow(b as int, e) <= i64::MAX,
    ensures
        spec_ipow(b, e) == Some(vstd::arithmetic::power::pow(b as int, e) as i64),
    decreases e,
{
    reveal(vstd::arithmetic::power::pow);
    if e > 0 {
        let m = (e - 1) as nat;
        let bi = b as int;
        let pm = vstd::arithmetic::power::pow(bi, m);
        let pe = vstd::arithmetic::power::pow(bi, e);
        assert(pe == bi * pm);
        if -1 <= bi <= 1 {
            lemma_pow_small_base(bi, m);
        } else {
            assert(-0x4000_0000_0000_0000 <= pm <= 0x4000_0000_0000_0000) by (nonlinear_arith)
                requires
                    bi >= 2 || bi <= -2,
                    -0x8000_0000_0000_0000 <= bi * pm <= 0x7fff_ffff_ffff_ffff,
            ;
        }
        lemma_ipow_fits(b, m);
        assert(pm * bi == bi * pm) by (nonlinear_arith);
    }
}

/// A whole power of a rational is exact: for a whole exponent `k` whose powers of both parts fit
/// in a word, `(bn/bd)^k` is `bn^k / bd^k`, and `(bn/bd)^-k` is `bd^k / bn^k`.
pub proof fn lemma_rational_pow_whole(bn: i64, bd: i64, pn: i64)
    requires
        pn != i64::MIN,
        iabs(pn as int) <= u32::MAX,
        i64::MIN <= vstd::arithmetic::power::pow(bn as int, iabs(pn as int) as nat) <= i64::MAX,
        i64::MIN <= vstd::arithmetic::power::pow(bd as int, iabs(pn as int) as nat) <= i64::MAX,
    ensures
        ({
            let k = iabs(pn as int) as nat;
            let x = vstd::arithmetic::power::pow(bn as int, k) as i64;
            let y = vstd::arithmetic::power::pow(bd as int, k) as i64;
            spec_rational_pow(bn, bd, pn, 1) == Some(
                Ok::<Number, MathsError>(if pn >= 0 { Number::Rational(x, y) } else { Number::Rational(y, x) }),
            )
        }),
{
    let k = iabs(pn as int) as nat;
    lemma_first_root(bn);
    lemma_first_root(bd);
    vstd::arithmetic::power::lemma_pow1(bn as int);
    vstd::arithmetic::power::lemma_pow1(bd as int);
    lemma_ipow_fits(bn, 1);
    lemma_ipow_fits(bd, 1);
    lemma_ipow_fits(bn, k);
    lemma_ipow_fits(bd, k);
    assert(1i64 % 2 == 1);
}

/// Raising a rational to a whole power is exact, as for [lemma_rational_pow_whole]: where the
/// powers of both parts fit in a word, `(bn/bd)^k` is `bn^k / bd^k`, and `(bn/bd)^-k` is
/// `bd^k / bn^k`.
pub proof fn lemma_checked_pow_whole(bn: i64, bd: i64, pn: i64)
    requires
        pn != i64::MIN,
        iabs(pn as int) <= u32::MAX,
        i64::MIN <= vstd::arithmetic::power::pow(bn as int, iabs(pn as int) as nat) <= i64::MAX,
        i64::MIN <= vstd::arithmetic::power::pow(bd as int, iabs(pn as int) as nat) <= i64::MAX,
    ensures
        ({
            let k = iabs(pn as int) as nat;
            let x = vstd::arithmetic::power::pow(bn as int, k) as i64;
            let y = vstd::arithmetic::power::pow(bd as int, k) as i64;
            spec_checked_pow(Number::Rational(bn, bd), Number::Rational(pn, 1)) == Ok::<Number, MathsError>(
                if pn >= 0 { Number::Rational(x, y) } else { Number::Rational(y, x) },
            )
        }),
{
    lemma_rational_pow_whole(bn, bd, pn);
}

/// A rational power of a rational which stays rational is that power in value, as for
/// [lemma_rational_pow_value]: `(x/y)^pd == (bn/bd)^pn`, cross-multiplied.
pub proof fn lemma_checked_pow_rational_value(bn: i64, bd: i64, pn: i64, pd: i64)
    requires
        pd >= 1,
    ensures
        spec_checked_pow(Number::Rational(bn, bd), Number::Rational(pn, pd)) matches Ok(Number::Rational(x, y)) ==> {
            let k = iabs(pn as int) as nat;
            let q = pd as nat;
            &&& pn >= 0 ==> vstd::arithmetic::power::pow(x as int, q) * vstd::arithmetic::power::pow(bd as int, k)
                == vstd::arithmetic::power::pow(y as int, q) * vstd::arithmetic::power::pow(bn as int, k)
            &&& pn < 0 ==> vstd::arithmetic::power::pow(x as int, q) * vstd::arithmetic::power::pow(bn as int, k)
                == vstd::arithmetic::power::pow(y as int, q) * vstd::arithmetic::power::pow(bd as int, k)
        },
{
    lemma_rational_pow_value(bn, bd, pn, pd);
}

/// The first root of an integer is the integer itself.
proof fn lemma_first_root(a: i64)
    ensures
        integer_nth_root(a, 1) == a,
{
    reveal(integer_nth_root);
    let m = iabs(a as int);
    vstd::arithmetic::power::lemma_pow1(m);
    vstd::arithmetic::power::lemma_pow1(m + 1);
    assert(vstd::arithmetic::power::pow(m as nat as int, 1) <= m < vstd::arithmetic::power::pow(
        m as nat + 1 as int,
        1,
    ));
    let r = choose|r: nat| #[trigger] vstd::arithmetic::power::pow(r as int, 1) <= m < vstd::arithmetic::power::pow(
        r + 1 as int,
        1,
    );
    vstd::arithmetic::power::lemma_pow1(r as int);
    vstd::arithmetic::power::lemma_pow1(r + 1 as int);
}

/// A power of two rationals, where it stays rational.
fn rational_pow(bn: i64, bd: i64, pn: i64, pd: i64) -> (r: Option<Result<Number, MathsError>>)
    ensures
        r == spec_rational_pow(bn, bd, pn, pd),
{
    // The result is rational only if the power's denominator has exact roots of both parts
    if (bn < 0 && pd % 2 == 0) || (bd < 0 && pd % 2 == 0) {
        return Some(Err(MathsError::Imaginary));
    }
    if pd < 0 || pd > u32::MAX as i64 {
        return Some(Err(MathsError::Overflow));
    }
    if pd == 0 {
        return Some(Err(MathsError::DivisionByZero));
    }
    let root_degree = pd as u32;
    // The first root of a number is the number itself
    proof {
        lemma_first_root(bn);
        lemma_first_root(bd);
    }
    let rn = if root_degree == 1 { bn } else { nth_root(bn, root_degree) };
    let rd = if root_degree == 1 { bd } else { nth_root(bd, root_degree) };
    if checked_ipow(rn, root_degree) == Some(bn) && checked_ipow(rd, root_degree) == Some(bd) {
        if pn == i64::MIN {
            return Some(Err(MathsError::Overflow));
        }
        let apn = if pn < 0 { -pn } else { pn };
        if apn > u32::MAX as i64 {
            return Some(Err(MathsError::Overflow));
        }
        match (checked_ipow(rn, apn as u32), checked_ipow(rd, apn as u32)) {
            (Some(x), Some(y)) => if pn < 0 {
                Some(Ok(Number::Rational(y, x)))
            } else {
                Some(Ok(Number::Rational(x, y)))
            },
            _ => Some(Err(MathsError::Overflow)),
        }
    } else {
        None
    }
}


/// Two numbers are equal: decimals of the same value and accuracy, or rationals with the same
/// parts. (A decimal outside the limits is compared by its parts.)
pub open spec fn number_eq(a: Number, b: Number) -> bool {
    match (a, b) {
        (Number::Decimal(x, p), Number::Decimal(y, q)) => p == q && if x.wf() && y.wf() {
            x.same_value(y)
        } else {
            x.mantissa == y.mantissa && x.scale == y.scale
        },
        (Number::Rational(n, d), Number::Rational(m, e)) => n == m && d == e,
        _ => false,
    }
}

impl PartialEq for Number {
    fn eq(&self, other: &Self) -> (r: bool) {
        match (self, other) {
            (Number::Decimal(x, p), Number::Decimal(y, q)) => {
                if *p != *q {
                    false
                } else if x.within_limits() && y.within_limits() {
                    dec_eq(*x, *y)
                } else {
                    x.mantissa == y.mantissa && x.scale == y.scale
                }
            },
            (Number::Rational(n, d), Number::Rational(m, e)) => *n == *m && *d == *e,
            _ => false,
        }
    }
}

impl vstd::std_specs::cmp::PartialEqSpecImpl for Number {
    open spec fn obeys_eq_spec() -> bool {
        true
    }

    open spec fn eq_spec(&self, other: &Number) -> bool {
        number_eq(*self, *other)
    }
}

impl From<i64> for Number {
    fn from(i: i64) -> (r: Self)
        ensures
            r == Number::Rational(i, 1),
    {
        Number::Rational(i, 1)
    }
}

impl vstd::std_specs::convert::FromSpecImpl<i64> for Number {
    open spec fn obeys_from_spec() -> bool {
        true
    }

    open spec fn from_spec(v: i64) -> Number {
        Number::Rational(v, 1)
    }
}

impl From<Dec> for Number {
    fn from(d: Dec) -> (r: Self)
        ensures
            r == Number::Decimal(d, DecimalAccuracy::Exact),
    {
        Number::Decimal(d, DecimalAccuracy::Exact)
    }
}

impl vstd::std_specs::convert::FromSpecImpl<Dec> for Number {
    open spec fn obeys_from_spec() -> bool {
        true
    }

    open spec fn from_spec(v: Dec) -> Number {
        Number::Decimal(v, DecimalAccuracy::Exact)
    }
}


/// The square root of a number, as an exact decimal: an error for a negative number.
pub open spec fn spec_sqrt_number(n: Number) -> Result<Number, MathsError> {
    match spec_to_decimal(n) {
        Some(d) => match dec_of(decimal_sqrt(d.parts())) {
            Some(r) => Ok(Number::Decimal(r, DecimalAccuracy::Exact)),
            None => Err(MathsError::InvalidSqrt),
        },
        None => Err(MathsError::Overflow),
    }
}

impl Number {
    /// The square root of this number, as an exact decimal, or an error for a negative number.
    pub fn checked_sqrt(&self) -> (r: Result<Number, MathsError>)
        requires
            number_wf(*self),
        ensures
            r == spec_sqrt_number(*self),
            r matches Ok(n) ==> number_wf(n),
    {
        match self.try_to_decimal() {
            Some(d) => match dec_sqrt(d) {
                Some(r) => Ok(Number::Decimal(r, DecimalAccuracy::Exact)),
                None => Err(MathsError::InvalidSqrt),
            },
            None => Err(MathsError::Overflow),
        }
    }
}

/// The greatest common divisor of two natural numbers, by Euclid's algorithm; zero for two
/// zeros.
pub open spec fn nat_gcd(a: nat, b: nat) -> nat
    decreases b,
{
    if b == 0 {
        a
    } else {
        nat_gcd(b, a % b)
    }
}

/// The greatest common divisor of the magnitudes of two words.
pub open spec fn integer_gcd(a: i64, b: i64) -> i64 {
    nat_gcd(iabs(a as int) as nat, iabs(b as int) as nat) as i64
}

/// `Integer::gcd`: the greatest common divisor of two words, which is never negative.
#[verifier::external_body]
pub(crate) fn integer_gcd_of(a: i64, b: i64) -> (r: i64)
    requires
        !((a == i64::MIN || b == i64::MIN) && (a == 0 || a == i64::MIN) && (b == 0 || b == i64::MIN)),
    ensures
        r == integer_gcd(a, b),
        r >= 0,
{
    num_integer::Integer::gcd(&a, &b)
}

/// 256 to the power of `k`.
pub open spec fn pow256(k: nat) -> nat
    decreases k,
{
    if k == 0 {
        1
    } else {
        256 * pow256((k - 1) as nat)
    }
}

/// The twelve bytes of a mantissa, least significant first.
pub open spec fn mantissa_bytes(m: nat) -> Seq<u8> {
    Seq::new(12, |k: int| ((m / pow256(k as nat)) % 256) as u8)
}

/// The sixteen bytes which `Decimal::serialize` gives for a decimal: the flags (the scale in the
/// third byte, and the sign in the top bit of the fourth), then the magnitude of the mantissa,
/// least significant byte first.
pub open spec fn decimal_bytes(d: Dec) -> Seq<u8> {
    seq![0u8, 0u8, d.scale as u8, if d.mantissa < 0 { 0x80u8 } else { 0u8 }] + mantissa_bytes(
        iabs(d.mantissa as int) as nat,
    )
}

/// `Decimal::serialize`: sixteen bytes holding the scale, sign and mantissa of the decimal.
#[verifier::external_body]
fn dec_serialize(a: Dec) -> (r: Vec<u8>)
    requires
        a.wf(),
    ensures
        r@ == decimal_bytes(a),
{
    Decimal::from_i128_with_scale(a.mantissa, a.scale).serialize().to_vec()
}

/// `Decimal::deserialize`: the decimal which sixteen bytes hold. Bytes which serializing a decimal
/// gives are read back as that decimal.
#[verifier::external_body]
fn dec_deserialize(bytes: &[u8]) -> (r: Dec)
    requires
        bytes@.len() == 16,
    ensures
        r.wf(),
        forall|d: Dec| d.wf() && bytes@ == decimal_bytes(d) ==> r == d,
{
    let array: [u8; 16] = bytes.try_into().unwrap();
    let d = Decimal::deserialize(array);
    Dec { mantissa: d.mantissa(), scale: d.scale() }
}

/// The eight bytes of a word, least significant first.
pub open spec fn word_bytes(x: i64) -> Seq<u8> {
    Seq::new(8, |k: int| ((x as u64) >> ((8 * k) as u64)) as u8)
}

/// The bytes of a word, least significant first.
fn word_to_bytes(x: i64) -> (r: Vec<u8>)
    ensures
        r@ == word_bytes(x),
{
    let u = x as u64;
    let mut r: Vec<u8> = Vec::new();
    let mut k: u64 = 0;
    while k < 8
        invariant
            k <= 8,
            u == x as u64,
            r@.len() == k,
            forall|j: int| 0 <= j < k ==> r@[j] == ((u >> ((8 * j) as u64)) as u8),
        decreases 8 - k,
    {
        r.push((u >> (8 * k)) as u8);
        k = k + 1;
    }
    assert(r@ =~= word_bytes(x));
    r
}

/// Reads the word whose bytes, least significant first, start at a position.
fn word_from_bytes(bytes: &[u8], start: usize) -> (r: i64)
    requires
        start + 8 <= bytes@.len(),
    ensures
        word_bytes(r) == bytes@.subrange(start as int, start + 8),
        forall|x: i64| word_bytes(x) == bytes@.subrange(start as int, start + 8) ==> r == x,
{
    let b0 = bytes[start] as u64;
    let b1 = bytes[start + 1] as u64;
    let b2 = bytes[start + 2] as u64;
    let b3 = bytes[start + 3] as u64;
    let b4 = bytes[start + 4] as u64;
    let b5 = bytes[start + 5] as u64;
    let b6 = bytes[start + 6] as u64;
    let b7 = bytes[start + 7] as u64;
    let u: u64 = b0 | (b1 << 8u64) | (b2 << 16u64) | (b3 << 24u64) | (b4 << 32u64) | (b5 << 40u64) | (b6 << 48u64) | (
    b7 << 56u64);
    let r = u as i64;
    proof {
        let s = bytes@.subrange(start as int, start + 8);
        assert(b0 < 256 && b1 < 256 && b2 < 256 && b3 < 256 && b4 < 256 && b5 < 256 && b6 < 256 && b7 < 256);
        assert((r as u64) == u) by (bit_vector)
            requires
                r == u as i64,
        ;
        assert(((u >> 0u64) as u8) == b0 && ((u >> 8u64) as u8) == b1 && ((u >> 16u64) as u8) == b2 && ((u
            >> 24u64) as u8) == b3 && ((u >> 32u64) as u8) == b4 && ((u >> 40u64) as u8) == b5 && ((u >> 48u64)
            as u8) == b6 && ((u >> 56u64) as u8) == b7) by (bit_vector)
            requires
                u == b0 | (b1 << 8u64) | (b2 << 16u64) | (b3 << 24u64) | (b4 << 32u64) | (b5 << 40u64) | (b6
                    << 48u64) | (b7 << 56u64),
                b0 < 256,
                b1 < 256,
                b2 < 256,
                b3 < 256,
                b4 < 256,
                b5 < 256,
                b6 < 256,
                b7 < 256,
        ;
        assert(word_bytes(r) =~= s);
        assert forall|x: i64| word_bytes(x) == s implies r == x by {
            let v = x as u64;
            assert(word_bytes(x)[0] == s[0] && word_bytes(x)[1] == s[1] && word_bytes(x)[2] == s[2]
                && word_bytes(x)[3] == s[3] && word_bytes(x)[4] == s[4] && word_bytes(x)[5] == s[5]
                && word_bytes(x)[6] == s[6] && word_bytes(x)[7] == s[7]);
            assert(v == u) by (bit_vector)
                requires
                    ((v >> 0u64) as u8) == ((u >> 0u64) as u8),
                    ((v >> 8u64) as u8) == ((u >> 8u64) as u8),
                    ((v >> 16u64) as u8) == ((u >> 16u64) as u8),
                    ((v >> 24u64) as u8) == ((u >> 24u64) as u8),
                    ((v >> 32u64) as u8) == ((u >> 32u64) as u8),
                    ((v >> 40u64) as u8) == ((u >> 40u64) as u8),
                    ((v >> 48u64) as u8) == ((u >> 48u64) as u8),
                    ((v >> 56u64) as u8) == ((u >> 56u64) as u8),
            ;
            assert(x == r) by (bit_vector)
                requires
                    v == x as u64,
                    r == u as i64,
                    v == u,
            ;
        }
    }
    r
}

/// The byte of an accuracy.
pub open spec fn accuracy_byte(a: DecimalAccuracy) -> u8 {
    match a {
        DecimalAccuracy::Exact => 1,
        DecimalAccuracy::Approximation => 2,
    }
}

impl Serializable for DecimalAccuracy {
    open spec fn serializable(&self) -> bool {
        true
    }

    open spec fn spec_serialize(&self) -> Seq<u8> {
        seq![accuracy_byte(*self)]
    }

    fn serialize(&self) -> (r: Vec<u8>) {
        let mut r: Vec<u8> = Vec::new();
        r.push(
            match self {
                DecimalAccuracy::Exact => 1,
                DecimalAccuracy::Approximation => 2,
            },
        );
        assert(r@ =~= seq![accuracy_byte(*self)]);
        r
    }

    fn deserialize(bytes: &[u8], pos: &mut usize) -> (r: Option<Self>)
        ensures
            forall|a: DecimalAccuracy|
                prefix_at(bytes@, *old(pos) as int, seq![accuracy_byte(a)]) ==> r == Some(a) && *final(pos)
                    == *old(pos) + 1,
    {
        if *pos >= bytes.len() {
            return None;
        }
        let byte = bytes[*pos];
        *pos = *pos + 1;
        let r = match byte {
            1 => Some(DecimalAccuracy::Exact),
            2 => Some(DecimalAccuracy::Approximation),
            _ => None,
        };
        proof {
            if let Some(a) = r {
                assert(bytes@.subrange(*old(pos) as int, *pos as int) =~= seq![accuracy_byte(a)]);
            }
            assert forall|a: DecimalAccuracy| prefix_at(bytes@, *old(pos) as int, seq![accuracy_byte(a)]) implies r
                == Some(a) by {
                assert(bytes@.subrange(*old(pos) as int, *old(pos) + 1)[0] == bytes@[*old(pos) as int]);
            }
        }
        r
    }
}

/// The bytes of a number: a tag, then a decimal's bytes and accuracy, or the numerator's and
/// denominator's bytes.
pub open spec fn number_bytes(n: Number) -> Seq<u8> {
    match n {
        Number::Decimal(d, a) => seq![1u8] + decimal_bytes(d) + seq![accuracy_byte(a)],
        Number::Rational(p, q) => seq![2u8] + word_bytes(p) + word_bytes(q),
    }
}

/// Appends bytes to a vector.
fn append_bytes(r: &mut Vec<u8>, b: &Vec<u8>)
    ensures
        final(r)@ == old(r)@ + b@,
{
    let mut i: usize = 0;
    while i < b.len()
        invariant
            i <= b@.len(),
            r@ == old(r)@ + b@.take(i as int),
        decreases b@.len() - i,
    {
        r.push(b[i]);
        assert(b@.take(i + 1) =~= b@.take(i as int).push(b@[i as int]));
        i = i + 1;
    }
    assert(b@.take(i as int) =~= b@);
}

/// Copies sixteen bytes from a position.
fn sixteen_bytes(bytes: &[u8], start: usize) -> (r: Vec<u8>)
    requires
        start + 16 <= bytes@.len(),
    ensures
        r@ == bytes@.subrange(start as int, start + 16),
{
    let mut r: Vec<u8> = Vec::new();
    let _len = bytes.len();
    let mut i: usize = 0;
    while i < 16
        invariant
            i <= 16,
            _len == bytes@.len(),
            start + 16 <= bytes@.len(),
            r@ == bytes@.subrange(start as int, start + i),
        decreases 16 - i,
    {
        r.push(bytes[start + i]);
        assert(bytes@.subrange(start as int, start + i + 1) =~= bytes@.subrange(start as int, start + i).push(
            bytes@[start + i],
        ));
        i = i + 1;
    }
    r
}

/// Two vectors of bytes are equal.
fn same_bytes(a: &Vec<u8>, b: &Vec<u8>) -> (r: bool)
    ensures
        r == (a@ == b@),
{
    if a.len() != b.len() {
        return false;
    }
    let mut i: usize = 0;
    while i < a.len()
        invariant
            i <= a@.len(),
            a@.len() == b@.len(),
            forall|j: int| 0 <= j < i ==> a@[j] == b@[j],
        decreases a@.len() - i,
    {
        if a[i] != b[i] {
            return false;
        }
        i = i + 1;
    }
    assert(a@ =~= b@);
    true
}

impl Serializable for Number {
    open spec fn serializable(&self) -> bool {
        number_wf(*self)
    }

    open spec fn spec_serialize(&self) -> Seq<u8> {
        number_bytes(*self)
    }

    fn serialize(&self) -> (r: Vec<u8>) {
        let mut result: Vec<u8> = Vec::new();
        match self {
            Number::Decimal(d, a) => {
                result.push(1);
                append_bytes(&mut result, &dec_serialize(*d));
                append_bytes(&mut result, &a.serialize());
            },
            Number::Rational(numer, denom) => {
                result.push(2);
                append_bytes(&mut result, &word_to_bytes(*numer));
                append_bytes(&mut result, &word_to_bytes(*denom));
            },
        }
        result
    }

    /// A decimal whose bytes are not those which serializing it would give is refused.
    fn deserialize(bytes: &[u8], pos: &mut usize) -> (r: Option<Self>)
        ensures
            r matches Some(n) ==> number_wf(n),
            forall|n: Number|
                number_wf(n) && prefix_at(bytes@, *old(pos) as int, #[trigger] number_bytes(n)) ==> r == Some(n)
                    && *final(pos) == *old(pos) + number_bytes(n).len(),
    {
        let start = *pos;
        if start >= bytes.len() {
            return None;
        }
        let tag = bytes[start];
        if tag == 1 {
            if bytes.len() - start < 17 {
                proof {
                    assert forall|n: Number| number_wf(n) && prefix_at(bytes@, start as int, number_bytes(n)) implies false by {
                        if n is Rational {
                            assert(number_bytes(n)[0] == 2u8);
                        }
                    }
                }
                return None;
            }
            let raw = sixteen_bytes(bytes, start + 1);
            let d = dec_deserialize(raw.as_slice());
            // Only the bytes which serializing the decimal gives are accepted
            if !same_bytes(&dec_serialize(d), &raw) {
                proof {
                    assert forall|n: Number| number_wf(n) && prefix_at(bytes@, start as int, number_bytes(n)) implies false by {
                        if n is Rational {
                            assert(number_bytes(n)[0] == 2u8);
                        } else {
                            let e = n->Decimal_0;
                            lemma_prefix_at_concat(bytes@, start as int, seq![1u8] + decimal_bytes(e), seq![accuracy_byte(n->Decimal_1)]);
                            lemma_prefix_at_concat(bytes@, start as int, seq![1u8], decimal_bytes(e));
                        }
                    }
                }
                return None;
            }
            let mut p = start + 17;
            let accuracy = match DecimalAccuracy::deserialize(bytes, &mut p) {
                Some(a) => a,
                None => {
                    proof {
                        assert forall|n: Number| number_wf(n) && prefix_at(bytes@, start as int, number_bytes(n)) implies false by {
                            if n is Rational {
                                assert(number_bytes(n)[0] == 2u8);
                            } else {
                                let e = n->Decimal_0;
                                lemma_prefix_at_concat(bytes@, start as int, seq![1u8] + decimal_bytes(e), seq![accuracy_byte(n->Decimal_1)]);
                            }
                        }
                    }
                    return None;
                },
            };
            *pos = p;
            let n = Number::Decimal(d, accuracy);
            proof {
                lemma_subrange_join(bytes@, start as int, start + 1, start + 17);
                lemma_subrange_join(bytes@, start as int, start + 17, p as int);
                assert(bytes@.subrange(start as int, start + 1) =~= seq![1u8]);
                assert(bytes@.subrange(start as int, p as int) =~= number_bytes(n));
                assert forall|m: Number| number_wf(m) && prefix_at(bytes@, start as int, #[trigger] number_bytes(m)) implies Some(n)
                    == Some(m) && p == start + number_bytes(m).len() by {
                    if m is Rational {
                        assert(number_bytes(m)[0] == 2u8);
                    } else {
                        let e = m->Decimal_0;
                        lemma_prefix_at_concat(bytes@, start as int, seq![1u8] + decimal_bytes(e), seq![accuracy_byte(m->Decimal_1)]);
                        lemma_prefix_at_concat(bytes@, start as int, seq![1u8], decimal_bytes(e));
                        assert(raw@ == decimal_bytes(e));
                    }
                }
            }
            Some(n)
        } else if tag == 2 {
            if bytes.len() - start < 17 {
                proof {
                    assert forall|n: Number| number_wf(n) && prefix_at(bytes@, start as int, number_bytes(n)) implies false by {
                        if n is Decimal {
                            assert(number_bytes(n)[0] == 1u8);
                        }
                    }
                }
                return None;
            }
            let numer = word_from_bytes(bytes, start + 1);
            let denom = word_from_bytes(bytes, start + 9);
            *pos = start + 17;
            let n = Number::Rational(numer, denom);
            proof {
                lemma_subrange_join(bytes@, start as int, start + 1, start + 9);
                lemma_subrange_join(bytes@, start as int, start + 9, start + 17);
                assert(bytes@.subrange(start as int, start + 1) =~= seq![2u8]);
                assert(bytes@.subrange(start as int, start + 17) =~= number_bytes(n));
                assert forall|m: Number| number_wf(m) && prefix_at(bytes@, start as int, #[trigger] number_bytes(m)) implies Some(n)
                    == Some(m) && start + 17 == start + number_bytes(m).len() by {
                    if m is Decimal {
                        assert(number_bytes(m)[0] == 1u8);
                    } else {
                        lemma_prefix_at_concat(bytes@, start as int, seq![2u8] + word_bytes(m->Rational_0), word_bytes(m->Rational_1));
                        lemma_prefix_at_concat(bytes@, start as int, seq![2u8], word_bytes(m->Rational_0));
                    }
                }
            }
            Some(n)
        } else {
            proof {
                assert forall|n: Number| number_wf(n) && prefix_at(bytes@, start as int, number_bytes(n)) implies false by {
                    assert(bytes@.subrange(start as int, start + number_bytes(n).len())[0] == bytes@[start as int]);
                }
            }
            None
        }
    }
}

/// The value of four bytes, least significant first.
pub open spec fn le_word(b: Seq<u8>, start: int) -> int {
    b[start] + 256 * b[start + 1] + 65536 * b[start + 2] + 16777216 * b[start + 3]
}

/// A decimal raised to an integer power, which may be negative: a negative power is one divided
/// by the positive power.
pub open spec fn spec_pows(d: Dec, exp: i64) -> Option<Dec> {
    if exp >= 0 {
        dec_of(decimal_checked_powi(d.parts(), exp))
    } else {
        let positive: i64 = if exp == i64::MIN { i64::MIN } else { (-exp) as i64 };
        match dec_of(decimal_checked_powi(d.parts(), positive)) {
            Some(p) => dec_of(decimal_checked_div((1, 0), p.parts())),
            None => None,
        }
    }
}

impl Dec {
    /// The raw structure of the decimal, as `Decimal::serialize` lays it out: the flags (scale and
    /// sign), and the low, middle and high words of the mantissa.
    pub fn to_parts(&self) -> (r: (u32, u32, u32, u32))
        requires
            self.wf(),
        ensures
            r.0 == le_word(decimal_bytes(*self), 0),
            r.1 == le_word(decimal_bytes(*self), 4),
            r.2 == le_word(decimal_bytes(*self), 8),
            r.3 == le_word(decimal_bytes(*self), 12),
    {
        let s = dec_serialize(*self);
        let w0 = s[0] as u32 + 256 * s[1] as u32 + 65536 * s[2] as u32 + 16777216 * s[3] as u32;
        let w1 = s[4] as u32 + 256 * s[5] as u32 + 65536 * s[6] as u32 + 16777216 * s[7] as u32;
        let w2 = s[8] as u32 + 256 * s[9] as u32 + 65536 * s[10] as u32 + 16777216 * s[11] as u32;
        let w3 = s[12] as u32 + 256 * s[13] as u32 + 65536 * s[14] as u32 + 16777216 * s[15] as u32;
        (w0, w1, w2, w3)
    }

    /// This decimal raised to an integer power, which may be negative, or `None` where it
    /// overflows or divides by zero.
    pub fn pows(&self, exp: i64) -> (r: Option<Dec>)
        requires
            self.wf(),
        ensures
            r == spec_pows(*self, exp),
            r matches Some(d) ==> d.wf(),
    {
        // A negative power is one divided by the positive power
        if exp >= 0 {
            return dec_checked_powi(*self, exp);
        }
        let positive: i64 = if exp == i64::MIN { i64::MIN } else { -exp };
        match dec_checked_powi(*self, positive) {
            Some(p) => dec_checked_div(Dec::one(), p),
            None => None,
        }
    }

    /// Returns true if this decimal is a whole number: equal to its floor.
    pub fn is_whole(&self) -> (r: bool)
        requires
            self.wf(),
        ensures
            r == Dec::of(decimal_floor(self.parts())).same_value(*self),
    {
        dec_eq(dec_floor(*self), *self)
    }
}

} // verus!
