//! Exact decimal quantities and prices.
//!
//! An [`Amount`] holds a decimal number as an integer mantissa and a scale, the
//! number of digits behind the decimal point. Its arithmetic is done by the
//! `rust_decimal` crate; the functions that call it are the only ones in this
//! module whose contracts are taken on trust.

use rust_decimal::Decimal;
use vstd::prelude::*;

verus! {

/// Largest scale of an amount.
pub const MAX_SCALE: u32 = 28;

/// Largest magnitude of a mantissa: 96 bits, all set.
pub const MAX_MANTISSA: i128 = 0xFFFF_FFFF_FFFF_FFFF_FFFF_FFFF;

/// Ten to the power `n`.
pub open spec fn pow10(n: nat) -> int
    decreases n,
{
    if n == 0 {
        1
    } else {
        10 * pow10((n - 1) as nat)
    }
}

/// What `Decimal::checked_sub` returns for two decimals given by mantissa and
/// scale: the mantissa and scale of the difference, or `None` on overflow.
pub uninterp spec fn decimal_difference(am: i128, asc: u32, bm: i128, bsc: u32) -> Option<(i128, u32)>;

/// What `Decimal::checked_add` returns for two decimals given by mantissa and
/// scale: the mantissa and scale of the sum, or `None` on overflow.
pub uninterp spec fn decimal_total(am: i128, asc: u32, bm: i128, bsc: u32) -> Option<(i128, u32)>;

/// A decimal number `mantissa / 10^scale`, with a mantissa of at most 96
/// bits and a scale of at most 28.
///
/// `==` tells representations apart: `1.0` and `1` differ. To compare
/// values use [`Amount::same_value`], [`Amount::lt`] and [`Amount::le`].
#[derive(Clone, Copy, Debug, PartialEq, Eq, Structural)]
pub struct Amount {
    mantissa: i128,
    scale: u32,
}

impl Amount {
    #[verifier::type_invariant]
    pub closed spec fn inv(self) -> bool {
        -MAX_MANTISSA <= self.mantissa <= MAX_MANTISSA && self.scale <= MAX_SCALE
    }

    /// The mantissa, as a mathematical integer.
    pub closed spec fn spec_mantissa(self) -> int {
        self.mantissa as int
    }

    /// The scale.
    pub closed spec fn spec_scale(self) -> nat {
        self.scale as nat
    }

    /// The value in units of `10^-28`: an integer that orders amounts as
    /// their values do, whatever their scales.
    pub open spec fn units(self) -> int {
        self.spec_mantissa() * pow10((MAX_SCALE - self.spec_scale()) as nat)
    }

    /// The amount has the scale `s`, or is zero at whatever scale: adding or
    /// subtracting such amounts needs no rescaling.
    pub open spec fn fits(self, s: nat) -> bool {
        self.spec_scale() == s || self.units() == 0
    }

    /// The amount that `Decimal::checked_sub` gives for `self - other`.
    pub closed spec fn minus(self, other: Amount) -> Option<Amount> {
        match decimal_difference(self.mantissa, self.scale, other.mantissa, other.scale) {
            Some((m, s)) => Some(Amount { mantissa: m, scale: s }),
            None => None,
        }
    }

    /// The amount that `Decimal::checked_add` gives for `self + other`.
    pub closed spec fn plus(self, other: Amount) -> Option<Amount> {
        match decimal_total(self.mantissa, self.scale, other.mantissa, other.scale) {
            Some((m, s)) => Some(Amount { mantissa: m, scale: s }),
            None => None,
        }
    }

    /// The amount `mantissa / 10^scale`, where the crate can hold it.
    pub fn new(mantissa: i128, scale: u32) -> (r: Option<Amount>)
        ensures
            r is Some <==> (-MAX_MANTISSA <= mantissa <= MAX_MANTISSA && scale <= MAX_SCALE),
            r is Some ==> r.unwrap().spec_mantissa() == mantissa && r.unwrap().spec_scale() == scale,
            r is Some ==> (r.unwrap().units() >= 0) == (mantissa >= 0),
    {
        if -MAX_MANTISSA <= mantissa && mantissa <= MAX_MANTISSA && scale <= MAX_SCALE {
            let r = Amount { mantissa, scale };
            proof {
                lemma_units_sign(r);
            }
            Some(r)
        } else {
            None
        }
    }

    /// The whole number `n`.
    pub fn from_int(n: i64) -> (r: Amount)
        ensures
            r.spec_mantissa() == n,
            r.spec_scale() == 0,
            (r.units() >= 0) == (n >= 0),
    {
        let r = Amount { mantissa: n as i128, scale: 0 };
        proof {
            lemma_units_sign(r);
        }
        r
    }

    /// Zero, with scale 0.
    pub fn zero() -> (r: Amount)
        ensures
            r == Amount::spec_zero(),
            r.units() == 0,
    {
        let r = Amount { mantissa: 0, scale: 0 };
        proof {
            lemma_units_sign(r);
        }
        r
    }

    /// Zero, with scale 0.
    pub closed spec fn spec_zero() -> Amount {
        Amount { mantissa: 0, scale: 0 }
    }

    /// The mantissa.
    pub fn mantissa(&self) -> (r: i128)
        ensures
            r == self.spec_mantissa(),
            -MAX_MANTISSA <= r <= MAX_MANTISSA,
    {
        proof {
            use_type_invariant(self);
        }
        self.mantissa
    }

    /// The scale: the number of digits behind the decimal point.
    pub fn scale(&self) -> (r: u32)
        ensures
            r == self.spec_scale(),
            r <= MAX_SCALE,
    {
        proof {
            use_type_invariant(self);
        }
        self.scale
    }

    /// Whether the value is zero.
    pub fn is_zero(&self) -> (r: bool)
        ensures
            r == (self.units() == 0),
    {
        proof {
            lemma_pow10_positive((MAX_SCALE - self.spec_scale()) as nat);
            lemma_units_sign(*self);
        }
        self.mantissa == 0
    }

    /// Whether `self` is less than `other` in value.
    pub fn lt(&self, other: &Amount) -> (r: bool)
        ensures
            r == (self.units() < other.units()),
    {
        proof {
            use_type_invariant(self);
            use_type_invariant(other);
        }
        decimal_less(*self, *other)
    }

    /// Whether `self` is at most `other` in value.
    pub fn le(&self, other: &Amount) -> (r: bool)
        ensures
            r == (self.units() <= other.units()),
    {
        !other.lt(self)
    }

    /// Whether the two have the same value, whatever their scales.
    pub fn same_value(&self, other: &Amount) -> (r: bool)
        ensures
            r == (self.units() == other.units()),
    {
        !self.lt(other) && !other.lt(self)
    }

    /// `self - other` as `Decimal::checked_sub` computes it. A smaller
    /// amount taken from a larger, neither negative, leaves no negative
    /// amount; and where the two have one scale, or `other` is zero, the
    /// difference is exact and keeps the scale of `self`.
    pub fn checked_sub(&self, other: &Amount) -> (r: Option<Amount>)
        ensures
            r == self.minus(*other),
            0 <= other.units() <= self.units() ==> r is Some && 0 <= r.unwrap().units(),
            0 <= other.units() <= self.units() && 0 < self.units() && (self.spec_scale()
                == other.spec_scale() || other.units() == 0) ==> {
                &&& r.unwrap().units() == self.units() - other.units()
                &&& r.unwrap().spec_scale() == self.spec_scale()
            },
    {
        proof {
            use_type_invariant(self);
            use_type_invariant(other);
            lemma_units_sign(*self);
            lemma_units_sign(*other);
            if self.scale == other.scale {
                lemma_same_scale(*self, *other);
                lemma_same_scale(*other, *self);
            }
        }
        decimal_sub(*self, *other)
    }

    /// `self + other` as `Decimal::checked_add` computes it. Where neither is
    /// negative, and the two have one scale and their exact sum is within
    /// the limit of that scale, or one of them is zero, the sum is exact; it
    /// has the scale of `self`, or that of `other` where `self` is zero.
    pub fn checked_add(&self, other: &Amount) -> (r: Option<Amount>)
        ensures
            r == self.plus(*other),
            0 <= self.units() && 0 <= other.units() && (self.units() == 0 || other.units() == 0 || (
            self.spec_scale() == other.spec_scale() && self.units() + other.units() <= max_units(
                self.spec_scale(),
            ))) ==> {
                &&& r is Some
                &&& r.unwrap().units() == self.units() + other.units()
                &&& r.unwrap().spec_scale() == if self.units() == 0 {
                    other.spec_scale()
                } else {
                    self.spec_scale()
                }
            },
    {
        proof {
            use_type_invariant(self);
            use_type_invariant(other);
            lemma_units_sign(*self);
            lemma_units_sign(*other);
            if self.scale == other.scale {
                lemma_same_scale(*self, *other);
            }
        }
        decimal_add(*self, *other)
    }
}

/// The largest value, in units of `10^-28`, of an amount of scale `s`.
pub open spec fn max_units(s: nat) -> int {
    MAX_MANTISSA * pow10((MAX_SCALE - s) as nat)
}

/// Amounts of one scale add, subtract and compare as their mantissas do.
proof fn lemma_same_scale(a: Amount, b: Amount)
    requires
        a.scale == b.scale,
    ensures
        (a.units() <= b.units()) == (a.mantissa <= b.mantissa),
        (a.units() + b.units() <= max_units(a.spec_scale())) == (a.mantissa + b.mantissa
            <= MAX_MANTISSA),
        a.units() + b.units() == (a.mantissa + b.mantissa) * pow10(
            (MAX_SCALE - a.spec_scale()) as nat,
        ),
        a.units() - b.units() == (a.mantissa - b.mantissa) * pow10(
            (MAX_SCALE - a.spec_scale()) as nat,
        ),
{
    let p = pow10((MAX_SCALE - a.spec_scale()) as nat);
    let x = a.mantissa as int;
    let y = b.mantissa as int;
    let m = MAX_MANTISSA as int;
    lemma_pow10_positive((MAX_SCALE - a.spec_scale()) as nat);
    assert((x * p <= y * p) == (x <= y)) by (nonlinear_arith)
        requires
            p > 0,
    ;
    assert(x * p + y * p == (x + y) * p) by (nonlinear_arith);
    assert(x * p - y * p == (x - y) * p) by (nonlinear_arith);
    assert(((x + y) * p <= m * p) == (x + y <= m)) by (nonlinear_arith)
        requires
            p > 0,
    ;
}

/// Zero has the value zero.
pub proof fn lemma_zero_units()
    ensures
        Amount::spec_zero().units() == 0,
        Amount::spec_zero().spec_mantissa() == 0,
        Amount::spec_zero().spec_scale() == 0,
{
    lemma_units_sign(Amount::spec_zero());
}

/// Every power of ten is positive.
pub proof fn lemma_pow10_positive(n: nat)
    ensures
        pow10(n) > 0,
    decreases n,
{
    if n > 0 {
        lemma_pow10_positive((n - 1) as nat);
    }
}

/// The value of an amount has the sign of its mantissa.
pub proof fn lemma_units_sign(a: Amount)
    ensures
        (a.units() == 0) == (a.spec_mantissa() == 0),
        (a.units() > 0) == (a.spec_mantissa() > 0),
{
    let p = pow10((MAX_SCALE - a.spec_scale()) as nat);
    let m = a.spec_mantissa();
    lemma_pow10_positive((MAX_SCALE - a.spec_scale()) as nat);
    assert((m * p == 0) == (m == 0) && (m * p > 0) == (m > 0)) by (nonlinear_arith)
        requires
            p > 0,
    ;
}

/// Calls `Decimal`'s `<` on the two decimals. `Decimal` orders by value: it
/// brings both operands to one scale before it compares the mantissas.
#[verifier::external_body]
fn decimal_less(a: Amount, b: Amount) -> (r: bool)
    requires
        a.inv(),
        b.inv(),
    ensures
        r == (a.units() < b.units()),
{
    Decimal::from_i128_with_scale(a.mantissa, a.scale) < Decimal::from_i128_with_scale(
        b.mantissa,
        b.scale,
    )
}

/// Calls `Decimal::checked_sub`. The result is named by
/// [`decimal_difference`]. A mantissa and scale read from a `Decimal` are
/// within its limits; and the difference of two non-negative decimals, the
/// smaller taken from the larger, does not overflow and is not negative.
/// Two such decimals of one scale are subtracted mantissa from mantissa,
/// with no rescaling, and the scale is kept; and taking zero from a decimal
/// that is not zero returns that decimal as it is.
#[verifier::external_body]
fn decimal_sub(a: Amount, b: Amount) -> (r: Option<Amount>)
    requires
        a.inv(),
        b.inv(),
    ensures
        decimal_difference(a.mantissa, a.scale, b.mantissa, b.scale) == match r {
            Some(v) => Some((v.mantissa, v.scale)),
            None => None,
        },
        r is Some ==> r.unwrap().inv(),
        0 <= b.units() <= a.units() ==> r is Some && 0 <= r.unwrap().units(),
        a.scale == b.scale && 0 <= b.mantissa <= a.mantissa ==> r == Some(
            Amount { mantissa: (a.mantissa - b.mantissa) as i128, scale: a.scale },
        ),
        a.mantissa != 0 && b.mantissa == 0 ==> r == Some(a),
{
    let x = Decimal::from_i128_with_scale(a.mantissa, a.scale);
    let y = Decimal::from_i128_with_scale(b.mantissa, b.scale);
    match x.checked_sub(y) {
        Some(d) => Some(Amount { mantissa: d.mantissa(), scale: d.scale() }),
        None => None,
    }
}

/// Calls `Decimal::checked_add`. The result is named by [`decimal_total`]. A
/// mantissa and scale read from a `Decimal` are within its limits. Two
/// non-negative decimals of one scale whose mantissas add up within 96 bits
/// are added mantissa to mantissa, with no rescaling, and the scale is kept;
/// zero plus a decimal returns that decimal as it is, and so does a decimal
/// that is not zero plus zero.
#[verifier::external_body]
fn decimal_add(a: Amount, b: Amount) -> (r: Option<Amount>)
    requires
        a.inv(),
        b.inv(),
    ensures
        decimal_total(a.mantissa, a.scale, b.mantissa, b.scale) == match r {
            Some(v) => Some((v.mantissa, v.scale)),
            None => None,
        },
        r is Some ==> r.unwrap().inv(),
        a.scale == b.scale && 0 <= a.mantissa && 0 <= b.mantissa && a.mantissa + b.mantissa
            <= MAX_MANTISSA ==> r == Some(
            Amount { mantissa: (a.mantissa + b.mantissa) as i128, scale: a.scale },
        ),
        a.mantissa == 0 ==> r == Some(b),
        a.mantissa != 0 && b.mantissa == 0 ==> r == Some(a),
{
    let x = Decimal::from_i128_with_scale(a.mantissa, a.scale);
    let y = Decimal::from_i128_with_scale(b.mantissa, b.scale);
    match x.checked_add(y) {
        Some(d) => Some(Amount { mantissa: d.mantissa(), scale: d.scale() }),
        None => None,
    }
}

} // verus!
