//! Decimal numbers, kept as the `rust_decimal` crate reads them.

use vstd::prelude::*;

verus! {

/// The greatest mantissa that a decimal can have: 96 bits, all set.
pub const MAX_MANTISSA: i128 = 0xFFFF_FFFF_FFFF_FFFF_FFFF_FFFF;

/// The greatest scale that a decimal can have.
pub const MAX_SCALE: u32 = 28;

/// Ten to the power of `n`.
pub open spec fn pow10(n: nat) -> int
    decreases n,
{
    if n == 0 {
        1
    } else {
        10 * pow10((n - 1) as nat)
    }
}

/// `mantissa` divided by ten to the power of `scale`, the fraction dropped.
pub open spec fn truncated(mantissa: int, scale: nat) -> int {
    if mantissa >= 0 {
        mantissa / pow10(scale)
    } else {
        -((-mantissa) / pow10(scale))
    }
}

/// The integral part of a decimal, where it fits into an `i64`.
pub open spec fn narrowed_i64(mantissa: int, scale: nat) -> Option<i64> {
    let t = truncated(mantissa, scale);
    if i64::MIN <= t <= i64::MAX {
        Some(t as i64)
    } else {
        None
    }
}

/// The integral part of a decimal, where the decimal is not negative and
/// the part fits into a `u64`.
pub open spec fn narrowed_u64(mantissa: int, scale: nat) -> Option<u64> {
    let t = truncated(mantissa, scale);
    if mantissa >= 0 && t <= u64::MAX {
        Some(t as u64)
    } else {
        None
    }
}

/// What `rust_decimal::Decimal::from_str_radix` makes of `text` in base ten:
/// the mantissa and the scale of the decimal, or `None` where it refuses the text.
pub uninterp spec fn decimal_of(text: Seq<char>) -> Option<(i128, u32)>;

/// A decimal number: `mantissa` divided by ten to the power of `scale`.
#[derive(Debug, Clone, Copy, PartialEq, Eq, Structural)]
pub struct ConfigNumberValue {
    mantissa: i128,
    scale: u32,
}

/// `rust_decimal::Decimal::from_str_radix` with radix ten, followed by
/// `mantissa` and `scale`: reads a decimal from `text`. The result depends
/// on the text alone; a decimal has a mantissa of at most 96 bits and a
/// scale of at most 28.
#[verifier::external_body]
fn parse_decimal(text: &str) -> (r: Option<(i128, u32)>)
    ensures
        r == decimal_of(text@),
        r matches Some((mantissa, scale)) ==> -MAX_MANTISSA <= mantissa <= MAX_MANTISSA && scale
            <= MAX_SCALE,
{
    match rust_decimal::Decimal::from_str_radix(text, 10) {
        Ok(d) => Some((d.mantissa(), d.scale())),
        Err(_) => None,
    }
}

/// `rust_decimal::Decimal::from_i128_with_scale` followed by `to_i64` of
/// `num_traits::ToPrimitive`: the integral part of the decimal, where it
/// fits into an `i64`.
#[verifier::external_body]
fn decimal_to_i64(mantissa: i128, scale: u32) -> (r: Option<i64>)
    requires
        -MAX_MANTISSA <= mantissa <= MAX_MANTISSA,
        scale <= MAX_SCALE,
    ensures
        r == narrowed_i64(mantissa as int, scale as nat),
{
    rust_decimal::prelude::ToPrimitive::to_i64(
        &rust_decimal::Decimal::from_i128_with_scale(mantissa, scale),
    )
}

/// `rust_decimal::Decimal::from_i128_with_scale` followed by `to_u64` of
/// `num_traits::ToPrimitive`: the integral part of the decimal, where the
/// decimal is not negative and the part fits into a `u64`.
#[verifier::external_body]
fn decimal_to_u64(mantissa: i128, scale: u32) -> (r: Option<u64>)
    requires
        -MAX_MANTISSA <= mantissa <= MAX_MANTISSA,
        scale <= MAX_SCALE,
    ensures
        r == narrowed_u64(mantissa as int, scale as nat),
{
    rust_decimal::prelude::ToPrimitive::to_u64(
        &rust_decimal::Decimal::from_i128_with_scale(mantissa, scale),
    )
}

impl ConfigNumberValue {
    /// The mantissa and the scale are those of a decimal.
    #[verifier::type_invariant]
    spec fn fits(self) -> bool {
        -MAX_MANTISSA <= self.mantissa <= MAX_MANTISSA && self.scale <= MAX_SCALE
    }

    /// The digits of the number, taken as an integer, with its sign.
    pub closed spec fn mantissa(self) -> int {
        self.mantissa as int
    }

    /// The number of digits behind the decimal point.
    pub closed spec fn scale(self) -> nat {
        self.scale as nat
    }

    /// Reads a number from `text`, or gives `None` where the text is no decimal.
    pub fn try_new(text: &str) -> (r: Option<Self>)
        ensures
            match r {
                Some(n) => decimal_of(text@) matches Some((mantissa, scale)) && n.mantissa()
                    == mantissa && n.scale() == scale,
                None => decimal_of(text@) is None,
            },
    {
        match parse_decimal(text) {
            Some(_) => Some(Self::new(text)),
            None => None,
        }
    }

    /// Reads a number from `text`, which holds a decimal.
    pub fn new(text: &str) -> (r: Self)
        requires
            decimal_of(text@) is Some,
        ensures
            decimal_of(text@) matches Some((mantissa, scale)) && r.mantissa() == mantissa
                && r.scale() == scale,
    {
        match parse_decimal(text) {
            Some((mantissa, scale)) => ConfigNumberValue { mantissa, scale },
            None => ConfigNumberValue { mantissa: 0, scale: 0 },
        }
    }

    /// The mantissa and the scale, as plain values.
    pub fn parts(self) -> (r: (i128, u32))
        ensures
            r.0 == self.mantissa(),
            r.1 == self.scale(),
            -MAX_MANTISSA <= r.0 <= MAX_MANTISSA,
            r.1 <= MAX_SCALE,
    {
        proof {
            use_type_invariant(&self);
        }
        (self.mantissa, self.scale)
    }

    /// The integral part of the number, where it fits into an `i64`.
    pub fn to_i64(self) -> (r: Option<i64>)
        ensures
            r == narrowed_i64(self.mantissa(), self.scale()),
    {
        proof {
            use_type_invariant(&self);
        }
        decimal_to_i64(self.mantissa, self.scale)
    }

    /// The integral part of the number, where the number is not negative
    /// and the part fits into a `u64`.
    pub fn to_u64(self) -> (r: Option<u64>)
        ensures
            r == narrowed_u64(self.mantissa(), self.scale()),
    {
        proof {
            use_type_invariant(&self);
        }
        decimal_to_u64(self.mantissa, self.scale)
    }
}

} // verus!
