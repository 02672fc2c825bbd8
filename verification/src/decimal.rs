//! Fixed-point decimal amounts.
//!
//! `Dec` holds what a `rust_decimal::Decimal` holds: a signed mantissa below
//! 2^96 in magnitude and a scale of at most 28, its value being
//! `mantissa / 10^scale`. Every arithmetic step is carried out by
//! `rust_decimal` itself, through the trusted items at the end of this file.
use rust_decimal::Decimal;
use vstd::arithmetic::power::pow;
use vstd::prelude::*;

verus! {

/// The largest scale a decimal can carry.
pub const MAX_SCALE: u32 = 28;

/// 2^96: every mantissa lies strictly between its negation and itself.
pub open spec fn mantissa_limit() -> int {
    0x1_0000_0000_0000_0000_0000_0000
}

pub open spec fn pow10(n: nat) -> int {
    pow(10, n)
}

/// A decimal number `mantissa / 10^scale`.
#[derive(Clone, Copy, Debug)]
pub struct Dec {
    mantissa: i128,
    scale: u32,
}

impl Dec {
    #[verifier::type_invariant]
    spec fn well_formed(self) -> bool {
        &&& -mantissa_limit() < self.mantissa < mantissa_limit()
        &&& self.scale <= MAX_SCALE
    }

    /// The mantissa, as a mathematical integer.
    pub closed spec fn mant(self) -> int {
        self.mantissa as int
    }

    /// The number of decimal digits after the point.
    pub closed spec fn sc(self) -> nat {
        self.scale as nat
    }

    /// `num / 10^scale`.
    pub fn new(num: i64, scale: u32) -> (r: Dec)
        requires
            scale <= MAX_SCALE,
        ensures
            r.mant() == num,
            r.sc() == scale,
            r == dec_of(num as int, scale as nat),
    {
        Dec { mantissa: num as i128, scale }
    }

    /// `num / 10^scale`, for any mantissa a decimal can carry.
    pub fn from_i128_with_scale(num: i128, scale: u32) -> (r: Dec)
        requires
            -mantissa_limit() < num < mantissa_limit(),
            scale <= MAX_SCALE,
        ensures
            r.mant() == num,
            r.sc() == scale,
            r == dec_of(num as int, scale as nat),
    {
        Dec { mantissa: num, scale }
    }

    /// The integer `n`, at scale 0 (what `Decimal::from(usize)` gives).
    pub fn from_usize(n: usize) -> (r: Dec)
        ensures
            r.mant() == n,
            r.sc() == 0,
            r == dec_of(n as int, 0),
    {
        assert(n < mantissa_limit());
        Dec { mantissa: n as i128, scale: 0 }
    }

    /// Zero at scale 0 (`Decimal::ZERO`).
    pub fn zero() -> (r: Dec)
        ensures
            r.mant() == 0,
            r.sc() == 0,
            r == dec_of(0, 0),
    {
        Dec { mantissa: 0, scale: 0 }
    }

    pub fn mantissa(&self) -> (r: i128)
        ensures
            r == self.mant(),
            -mantissa_limit() < r < mantissa_limit(),
    {
        proof {
            use_type_invariant(self);
        }
        self.mantissa
    }

    pub fn scale(&self) -> (r: u32)
        ensures
            r == self.sc(),
            r <= MAX_SCALE,
    {
        proof {
            use_type_invariant(self);
        }
        self.scale
    }

    /// Whether `self < other` as numbers.
    pub fn is_lt(&self, other: &Dec) -> (r: bool)
        ensures
            r == value_lt(*self, *other),
    {
        compare(*self, *other) < 0
    }

    /// Whether `self <= other` as numbers.
    pub fn is_le(&self, other: &Dec) -> (r: bool)
        ensures
            r == value_le(*self, *other),
    {
        compare(*self, *other) <= 0
    }

    /// Whether `self > other` as numbers.
    pub fn is_gt(&self, other: &Dec) -> (r: bool)
        ensures
            r == value_lt(*other, *self),
    {
        compare(*self, *other) > 0
    }

    /// Whether `self == other` as numbers (`1.0` equals `1`).
    pub fn eq_value(&self, other: &Dec) -> (r: bool)
        ensures
            r == value_eq(*self, *other),
    {
        compare(*self, *other) == 0
    }

    /// `self + other`; `None` where `rust_decimal` reports an overflow.
    pub fn checked_add(&self, other: &Dec) -> (r: Option<Dec>)
        ensures
            r == dec_add(*self, *other),
    {
        decimal_add(*self, *other)
    }

    /// `self - other`; `None` where `rust_decimal` reports an overflow.
    pub fn checked_sub(&self, other: &Dec) -> (r: Option<Dec>)
        ensures
            r == dec_sub(*self, *other),
    {
        decimal_sub(*self, *other)
    }

    /// `self * other`; `None` where `rust_decimal` reports an overflow.
    pub fn checked_mul(&self, other: &Dec) -> (r: Option<Dec>)
        ensures
            r == dec_mul(*self, *other),
    {
        decimal_mul(*self, *other)
    }

    /// `self / other`; `None` on a zero divisor or an overflow.
    pub fn checked_div(&self, other: &Dec) -> (r: Option<Dec>)
        ensures
            r == dec_div(*self, *other),
    {
        decimal_div(*self, *other)
    }

    /// The decimal that `rust_decimal` reads from the text, if it reads one.
    pub fn parse(text: &str) -> (r: Option<Dec>)
        ensures
            r == decimal_from_text(text@),
    {
        decimal_from_str(text)
    }

    /// The decimal as `rust_decimal` prints it.
    pub fn to_text(&self) -> (r: String)
        ensures
            r@ == decimal_text(*self),
    {
        decimal_to_string(*self)
    }
}

/// Whether the mantissa and scale are ones a decimal can carry (every `Dec`
/// value of executable code satisfies this).
pub open spec fn in_range(a: Dec) -> bool {
    &&& -mantissa_limit() < a.mant() < mantissa_limit()
    &&& a.sc() <= MAX_SCALE
}

/// The decimal with mantissa `m` and scale `s`.
pub closed spec fn dec_of(m: int, s: nat) -> Dec {
    Dec { mantissa: m as i128, scale: s as u32 }
}

pub broadcast proof fn lemma_dec_of(m: int, s: nat)
    requires
        -mantissa_limit() < m < mantissa_limit(),
        s <= MAX_SCALE,
    ensures
        #[trigger] dec_of(m, s).mant() == m,
        dec_of(m, s).sc() == s,
{
}

/// Two decimals with the same mantissa and scale are the same decimal.
pub proof fn lemma_dec_ext(a: Dec, b: Dec)
    requires
        a.mant() == b.mant(),
        a.sc() == b.sc(),
    ensures
        a == b,
{
}

/// `a < b` as rational numbers.
pub open spec fn value_lt(a: Dec, b: Dec) -> bool {
    a.mant() * pow10(b.sc()) < b.mant() * pow10(a.sc())
}

/// `a == b` as rational numbers.
pub open spec fn value_eq(a: Dec, b: Dec) -> bool {
    a.mant() * pow10(b.sc()) == b.mant() * pow10(a.sc())
}

/// `a <= b` as rational numbers.
pub open spec fn value_le(a: Dec, b: Dec) -> bool {
    a.mant() * pow10(b.sc()) <= b.mant() * pow10(a.sc())
}

pub open spec fn max_scale_of(a: Dec, b: Dec) -> nat {
    if a.sc() >= b.sc() {
        a.sc()
    } else {
        b.sc()
    }
}

/// Mantissa of `a`, written at scale `s >= a.sc()`.
pub open spec fn rescaled(a: Dec, s: nat) -> int {
    a.mant() * pow10((s - a.sc()) as nat)
}

/// Whether both operands, written at the larger of their scales, and the
/// result mantissa `m` at that scale all lie below 2^96 in magnitude: there
/// `rust_decimal` adds and subtracts exactly.
pub open spec fn aligned_in_range(a: Dec, b: Dec, m: int) -> bool {
    let s = max_scale_of(a, b);
    &&& -mantissa_limit() < rescaled(a, s) < mantissa_limit()
    &&& -mantissa_limit() < rescaled(b, s) < mantissa_limit()
    &&& -mantissa_limit() < m < mantissa_limit()
}

/// `checked_add` as the source of `rust_decimal` shows it: a zero operand
/// gives the other one back, and where both operands and their sum, aligned
/// to the larger scale, lie below 2^96, the sum comes back exactly at that
/// scale; elsewhere (where it rounds or overflows) the result is
/// `otherwise`.
pub open spec fn add_result(a: Dec, b: Dec, otherwise: Option<Dec>) -> Option<Dec> {
    let s = max_scale_of(a, b);
    let m = rescaled(a, s) + rescaled(b, s);
    if a.mant() == 0 {
        Some(b)
    } else if b.mant() == 0 {
        Some(a)
    } else if aligned_in_range(a, b, m) {
        Some(dec_of(m, s))
    } else {
        otherwise
    }
}

/// `checked_sub` as the source of `rust_decimal` shows it, as for
/// `add_result`; `0 - b` is `b` negated.
pub open spec fn sub_result(a: Dec, b: Dec, otherwise: Option<Dec>) -> Option<Dec> {
    let s = max_scale_of(a, b);
    let m = rescaled(a, s) - rescaled(b, s);
    if a.mant() == 0 {
        Some(dec_of(-b.mant(), b.sc()))
    } else if b.mant() == 0 {
        Some(a)
    } else if aligned_in_range(a, b, m) {
        Some(dec_of(m, s))
    } else {
        otherwise
    }
}

/// `checked_mul` as the source of `rust_decimal` shows it: a zero operand
/// gives zero at scale 0; a product below 2^96 whose scale stays within 28
/// comes back exactly; elsewhere the result is `otherwise`.
pub open spec fn mul_result(a: Dec, b: Dec, otherwise: Option<Dec>) -> Option<Dec> {
    if a.mant() == 0 || b.mant() == 0 {
        Some(dec_of(0, 0))
    } else if a.sc() + b.sc() <= MAX_SCALE && -mantissa_limit() < a.mant() * b.mant()
        < mantissa_limit() {
        Some(dec_of(a.mant() * b.mant(), a.sc() + b.sc()))
    } else {
        otherwise
    }
}

/// 2^32.
pub open spec fn half_word_limit() -> int {
    0x1_0000_0000
}

/// `checked_div` as the source of `rust_decimal` shows it: a zero divisor
/// gives `None`, a zero dividend zero at scale 0; a divisor below 2^32 in
/// magnitude that divides the dividend's mantissa, at a scale no larger than
/// the dividend's, gives the exact quotient at the difference of the scales;
/// elsewhere the result is `otherwise`.
pub open spec fn div_result(a: Dec, b: Dec, otherwise: Option<Dec>) -> Option<Dec> {
    if b.mant() == 0 {
        None
    } else if a.mant() == 0 {
        Some(dec_of(0, 0))
    } else if -half_word_limit() < b.mant() < half_word_limit() && b.sc() <= a.sc() && a.mant()
        % b.mant() == 0 {
        Some(dec_of(a.mant() / b.mant(), (a.sc() - b.sc()) as nat))
    } else {
        otherwise
    }
}

/// The sum of two decimals as `Decimal::checked_add` computes it.
pub open spec fn dec_add(a: Dec, b: Dec) -> Option<Dec> {
    add_result(a, b, decimal_checked_add(a, b))
}

/// The difference of two decimals as `Decimal::checked_sub` computes it.
pub open spec fn dec_sub(a: Dec, b: Dec) -> Option<Dec> {
    sub_result(a, b, decimal_checked_sub(a, b))
}

/// The product of two decimals as `Decimal::checked_mul` computes it.
pub open spec fn dec_mul(a: Dec, b: Dec) -> Option<Dec> {
    mul_result(a, b, decimal_checked_mul(a, b))
}

/// The quotient of two decimals as `Decimal::checked_div` computes it.
pub open spec fn dec_div(a: Dec, b: Dec) -> Option<Dec> {
    div_result(a, b, decimal_checked_div(a, b))
}

/// What `Decimal::checked_add` returns for the two decimals, where
/// `add_result` does not state it.
pub uninterp spec fn decimal_checked_add(a: Dec, b: Dec) -> Option<Dec>;

/// What `Decimal::checked_sub` returns for the two decimals, where
/// `sub_result` does not state it.
pub uninterp spec fn decimal_checked_sub(a: Dec, b: Dec) -> Option<Dec>;

/// What `Decimal::checked_mul` returns for the two decimals, where
/// `mul_result` does not state it.
pub uninterp spec fn decimal_checked_mul(a: Dec, b: Dec) -> Option<Dec>;

/// What `Decimal::checked_div` returns for the two decimals, where
/// `div_result` does not state it.
pub uninterp spec fn decimal_checked_div(a: Dec, b: Dec) -> Option<Dec>;

/// The character of the decimal digit `d`.
pub open spec fn digit_char(d: int) -> char {
    ('0' as int + d) as char
}

/// The decimal digits of `n`, most significant first; none for zero.
pub open spec fn decimal_digits(n: nat) -> Seq<char>
    decreases n,
{
    if n == 0 {
        seq![]
    } else {
        decimal_digits(n / 10).push(digit_char((n % 10) as int))
    }
}

/// The text that `Decimal`'s `Display` writes for the decimal: a minus sign
/// for a negative value, then the digits of the mantissa, padded with
/// leading zeros to at least `scale` digits, with a point before the last
/// `scale` of them and a `0` before the point where no digit is left in
/// front of it; `0` for zero at scale 0.
pub open spec fn decimal_text(a: Dec) -> Seq<char> {
    let magnitude = (if a.mant() < 0 {
        -a.mant()
    } else {
        a.mant()
    }) as nat;
    let ds = decimal_digits(magnitude);
    let padded = if ds.len() < a.sc() {
        Seq::new((a.sc() - ds.len()) as nat, |i: int| '0') + ds
    } else {
        ds
    };
    let whole = padded.len() - a.sc();
    let body = if a.sc() == 0 {
        if padded.len() == 0 {
            seq!['0']
        } else {
            padded
        }
    } else {
        (if whole == 0 {
            seq!['0']
        } else {
            padded.take(whole)
        }) + seq!['.'] + padded.skip(whole)
    };
    if a.mant() < 0 {
        seq!['-'] + body
    } else {
        body
    }
}

/// Calls `Decimal::cmp`, which orders decimals by their numeric value; the
/// result is -1, 0 or 1 for less, equal, greater.
#[verifier::external_body]
pub(crate) fn compare(a: Dec, b: Dec) -> (r: i8)
    ensures
        -1 <= r <= 1,
        (r < 0) == value_lt(a, b),
        (r == 0) == value_eq(a, b),
{
    let x = Decimal::from_i128_with_scale(a.mantissa, a.scale);
    let y = Decimal::from_i128_with_scale(b.mantissa, b.scale);
    match x.cmp(&y) {
        core::cmp::Ordering::Less => -1,
        core::cmp::Ordering::Equal => 0,
        core::cmp::Ordering::Greater => 1,
    }
}

/// Calls `Decimal::checked_add`: its result is `add_result`, with the name
/// `decimal_checked_add` standing for the cases that spec does not state.
#[verifier::external_body]
fn decimal_add(a: Dec, b: Dec) -> (r: Option<Dec>)
    ensures
        r == add_result(a, b, decimal_checked_add(a, b)),
{
    let x = Decimal::from_i128_with_scale(a.mantissa, a.scale);
    let y = Decimal::from_i128_with_scale(b.mantissa, b.scale);
    x.checked_add(y).map(|d| Dec { mantissa: d.mantissa(), scale: d.scale() })
}

/// Calls `Decimal::checked_sub`: its result is `sub_result`, with the name
/// `decimal_checked_sub` standing for the cases that spec does not state.
#[verifier::external_body]
fn decimal_sub(a: Dec, b: Dec) -> (r: Option<Dec>)
    ensures
        r == sub_result(a, b, decimal_checked_sub(a, b)),
{
    let x = Decimal::from_i128_with_scale(a.mantissa, a.scale);
    let y = Decimal::from_i128_with_scale(b.mantissa, b.scale);
    x.checked_sub(y).map(|d| Dec { mantissa: d.mantissa(), scale: d.scale() })
}

/// Calls `Decimal::checked_mul`: its result is `mul_result`, with the name
/// `decimal_checked_mul` standing for the cases that spec does not state.
#[verifier::external_body]
fn decimal_mul(a: Dec, b: Dec) -> (r: Option<Dec>)
    ensures
        r == mul_result(a, b, decimal_checked_mul(a, b)),
{
    let x = Decimal::from_i128_with_scale(a.mantissa, a.scale);
    let y = Decimal::from_i128_with_scale(b.mantissa, b.scale);
    x.checked_mul(y).map(|d| Dec { mantissa: d.mantissa(), scale: d.scale() })
}

/// Calls `Decimal::checked_div`: its result is `div_result`, with the name
/// `decimal_checked_div` standing for the cases that spec does not state.
#[verifier::external_body]
fn decimal_div(a: Dec, b: Dec) -> (r: Option<Dec>)
    ensures
        r == div_result(a, b, decimal_checked_div(a, b)),
{
    let x = Decimal::from_i128_with_scale(a.mantissa, a.scale);
    let y = Decimal::from_i128_with_scale(b.mantissa, b.scale);
    x.checked_div(y).map(|d| Dec { mantissa: d.mantissa(), scale: d.scale() })
}

/// What `Decimal::from_str` reads from the text: `None` where it reports an
/// error.
pub uninterp spec fn decimal_from_text(text: Seq<char>) -> Option<Dec>;

/// Calls `Decimal::from_str`; the result is named `decimal_from_text`.
#[verifier::external_body]
fn decimal_from_str(text: &str) -> (r: Option<Dec>)
    ensures
        r == decimal_from_text(text@),
{
    text.parse::<Decimal>().ok().map(|d| Dec { mantissa: d.mantissa(), scale: d.scale() })
}

/// Calls `Decimal`'s `to_string` (its `Display`); the text is
/// `decimal_text`.
#[verifier::external_body]
fn decimal_to_string(a: Dec) -> (r: String)
    ensures
        r@ == decimal_text(a),
{
    Decimal::from_i128_with_scale(a.mantissa, a.scale).to_string()
}

} // verus!
