//! Exact decimal amounts.
//!
//! An [`Amount`] is an integer and a scale, `unscaled * 10^(-scale)`, held as
//! plain bytes so that the engine can state what each operation yields. The
//! arithmetic itself is done by the `bigdecimal` crate. The private functions
//! `big_*` of this file call it, and what they promise is believed, not
//! proved: each builds the crate's numbers from the bytes and the scale with
//! `BigInt::from_signed_bytes_be` and `BigDecimal::new`, makes the one call
//! that its comment names, and takes a resulting number apart again with
//! `BigDecimal::into_bigint_and_exponent` and `BigInt::to_signed_bytes_be`.
//! Everything else is proved from those promises.

use bigdecimal::num_bigint::BigInt;
use bigdecimal::BigDecimal;
use crate::decimal::{
    lemma_quanta_one_to_one, lemma_rescaled_value, lemma_shifted_value, pow10, quanta, rescaled,
    truncated, whole, MAX_SCALE, MIN_SCALE,
};
use vstd::arithmetic::power::*;
use vstd::prelude::*;

verus! {

/// The number that big-endian base-256 digits stand for.
pub open spec fn be_nat(bytes: Seq<u8>) -> nat
    decreases bytes.len(),
{
    if bytes.len() == 0 {
        0
    } else {
        be_nat(bytes.drop_last()) * 256 + bytes.last() as nat
    }
}

/// The integer that big-endian two's-complement bytes stand for. No bytes
/// stand for zero.
pub open spec fn signed_be(bytes: Seq<u8>) -> int {
    if bytes.len() > 0 && bytes[0] >= 128 {
        be_nat(bytes) - pow(256, bytes.len())
    } else {
        be_nat(bytes) as int
    }
}

/// Why a text or a pair of parts is not an amount.
#[derive(Clone, Copy, Debug, PartialEq, Eq, Structural)]
pub enum AmountError {
    /// The text is not a decimal number.
    Malformed,
    /// The scale lies outside `MIN_SCALE ..= MAX_SCALE`.
    OutOfRange,
}

/// An exact decimal number.
///
/// Its view is its value in quanta (see [`quanta`]); two amounts with the
/// same view are the same number, whatever their digits and scale.
#[derive(Debug)]
pub struct Amount {
    digits: Vec<u8>,
    scale: i64,
}

impl View for Amount {
    type V = int;

    open spec fn view(&self) -> int {
        quanta(self.unscaled(), self.spec_scale())
    }
}

/// What `BigDecimal::from_str` makes of a text: the unscaled integer and the
/// scale of the number it reads, or `None` where it reports an error.
/// Nothing more is said of it here.
pub uninterp spec fn parsed_decimal(text: Seq<char>) -> Option<(int, int)>;

#[verifier::external_type_specification]
#[verifier::external_body]
pub struct ExParseBigDecimalError(bigdecimal::ParseBigDecimalError);

/// Calls `BigDecimal::from_str` and hands out the parts of the number read:
/// the two's-complement big-endian bytes of its integer, and its scale.
///
/// Believed: what is read depends on the text alone, which gives it the
/// name `parsed_decimal`; an error comes back exactly where that is `None`.
#[verifier::external_body]
fn big_parse(text: &str) -> (r: Result<(Vec<u8>, i64), bigdecimal::ParseBigDecimalError>)
    ensures
        match r {
            Ok((digits, scale)) => parsed_decimal(text@) == Some(
                (signed_be(digits@), scale as int),
            ),
            Err(_) => parsed_decimal(text@) is None,
        },
{
    match <BigDecimal as core::str::FromStr>::from_str(text) {
        Ok(d) => {
            let (n, scale) = d.into_bigint_and_exponent();
            Ok((n.to_signed_bytes_be(), scale))
        },
        Err(e) => Err(e),
    }
}

/// Calls `BigDecimal + BigDecimal`.
///
/// Believed: the sum is exact, and its scale, the larger of the two scales,
/// is in range.
#[verifier::external_body]
fn big_add(a: &Amount, b: &Amount) -> (r: Amount)
    requires
        a.wf(),
        b.wf(),
    ensures
        r.wf(),
        r@ == a@ + b@,
{
    let x = BigDecimal::new(BigInt::from_signed_bytes_be(&a.digits), a.scale);
    let y = BigDecimal::new(BigInt::from_signed_bytes_be(&b.digits), b.scale);
    let (n, scale) = (x + y).into_bigint_and_exponent();
    Amount { digits: n.to_signed_bytes_be(), scale }
}

/// Calls `BigDecimal - BigDecimal`.
///
/// Believed: the difference is exact, and its scale, which is neither
/// smaller nor larger than both scales, is in range.
#[verifier::external_body]
fn big_sub(a: &Amount, b: &Amount) -> (r: Amount)
    requires
        a.wf(),
        b.wf(),
    ensures
        r.wf(),
        r@ == a@ - b@,
{
    let x = BigDecimal::new(BigInt::from_signed_bytes_be(&a.digits), a.scale);
    let y = BigDecimal::new(BigInt::from_signed_bytes_be(&b.digits), b.scale);
    let (n, scale) = (x - y).into_bigint_and_exponent();
    Amount { digits: n.to_signed_bytes_be(), scale }
}

/// Calls `BigDecimal >= BigDecimal`.
///
/// Believed: the two numbers are compared by value, whatever their scales.
#[verifier::external_body]
fn big_ge(a: &Amount, b: &Amount) -> (r: bool)
    requires
        a.wf(),
        b.wf(),
    ensures
        r == (a@ >= b@),
{
    let x = BigDecimal::new(BigInt::from_signed_bytes_be(&a.digits), a.scale);
    let y = BigDecimal::new(BigInt::from_signed_bytes_be(&b.digits), b.scale);
    x >= y
}

/// Calls `BigDecimal < BigDecimal`.
///
/// Believed: the two numbers are compared by value, whatever their scales.
#[verifier::external_body]
fn big_lt(a: &Amount, b: &Amount) -> (r: bool)
    requires
        a.wf(),
        b.wf(),
    ensures
        r == (a@ < b@),
{
    let x = BigDecimal::new(BigInt::from_signed_bytes_be(&a.digits), a.scale);
    let y = BigDecimal::new(BigInt::from_signed_bytes_be(&b.digits), b.scale);
    x < y
}

/// Calls `BigDecimal == BigDecimal` on two numbers of one scale.
///
/// Believed: with equal scales the answer is yes exactly where the two
/// integers are equal. Nothing is claimed of numbers of different scales,
/// and the call is not made on them.
#[verifier::external_body]
fn big_eq(a: &Amount, b: &Amount) -> (r: bool)
    requires
        a.wf(),
        b.wf(),
        a.spec_scale() == b.spec_scale(),
    ensures
        r == (a.unscaled() == b.unscaled()),
{
    let x = BigDecimal::new(BigInt::from_signed_bytes_be(&a.digits), a.scale);
    let y = BigDecimal::new(BigInt::from_signed_bytes_be(&b.digits), b.scale);
    x == y
}

/// Calls `BigDecimal::with_scale`.
///
/// Believed: the result has the scale asked for; a larger scale multiplies
/// the integer by the power of ten that makes up for it, and a smaller one
/// divides it by that power, rounding toward zero.
#[verifier::external_body]
fn big_with_scale(a: &Amount, new_scale: i64) -> (r: Amount)
    requires
        a.wf(),
        MIN_SCALE <= new_scale <= MAX_SCALE,
    ensures
        r.spec_scale() == new_scale,
        r.unscaled() == rescaled(a.unscaled(), a.spec_scale(), new_scale as int),
{
    let x = BigDecimal::new(BigInt::from_signed_bytes_be(&a.digits), a.scale);
    let (n, scale) = x.with_scale(new_scale).into_bigint_and_exponent();
    Amount { digits: n.to_signed_bytes_be(), scale }
}

impl Amount {
    /// The integer whose last `scale` digits are the fraction.
    pub closed spec fn unscaled(&self) -> int {
        signed_be(self.digits@)
    }

    /// The number of fractional digits.
    pub closed spec fn spec_scale(&self) -> int {
        self.scale as int
    }

    /// Every amount keeps its scale within the supported range.
    #[verifier::type_invariant]
    pub open spec fn wf(&self) -> bool {
        MIN_SCALE <= self.spec_scale() <= MAX_SCALE
    }

    /// Builds an amount from the two's-complement big-endian bytes of its
    /// integer and from its scale.
    pub fn from_parts(digits: Vec<u8>, scale: i64) -> (r: Result<Amount, AmountError>)
        ensures
            match r {
                Ok(a) => a.wf() && a.unscaled() == signed_be(digits@) && a.spec_scale() == scale,
                Err(e) => e == AmountError::OutOfRange && !(MIN_SCALE <= scale <= MAX_SCALE),
            },
    {
        if scale < MIN_SCALE || scale > MAX_SCALE {
            Err(AmountError::OutOfRange)
        } else {
            Ok(Amount { digits, scale })
        }
    }

    /// The two's-complement big-endian bytes of the unscaled integer.
    pub fn digits(&self) -> (r: &Vec<u8>)
        ensures
            signed_be(r@) == self.unscaled(),
    {
        &self.digits
    }

    /// The number of fractional digits.
    pub fn scale(&self) -> (r: i64)
        ensures
            r == self.spec_scale(),
            MIN_SCALE <= r <= MAX_SCALE,
    {
        proof {
            use_type_invariant(self);
        }
        self.scale
    }

    /// What reading `text` comes to: the unscaled integer and the scale of
    /// the number read, or the reason why there is no such amount.
    pub open spec fn read(text: Seq<char>) -> Result<(int, int), AmountError> {
        match parsed_decimal(text) {
            None => Err(AmountError::Malformed),
            Some((unscaled, scale)) => if MIN_SCALE <= scale <= MAX_SCALE {
                Ok((unscaled, scale))
            } else {
                Err(AmountError::OutOfRange)
            },
        }
    }

    /// Reads a decimal number from its text.
    ///
    /// The text is read by `bigdecimal`; the number read is an amount if its
    /// scale is in range.
    pub fn parse(text: &str) -> (r: Result<Amount, AmountError>)
        ensures
            match r {
                Ok(a) => Amount::read(text@) == Ok::<(int, int), AmountError>(
                    (a.unscaled(), a.spec_scale()),
                ),
                Err(e) => Amount::read(text@) == Err::<(int, int), AmountError>(e),
            },
    {
        match big_parse(text) {
            Ok((digits, scale)) => Amount::from_parts(digits, scale),
            Err(_) => Err(AmountError::Malformed),
        }
    }

    /// The whole number `n`.
    pub fn whole(n: u8) -> (r: Amount)
        ensures
            r@ == whole(n as int),
    {
        let mut digits: Vec<u8> = Vec::new();
        digits.push(0);
        digits.push(n);
        proof {
            reveal_with_fuel(be_nat, 3);
            assert(digits@.drop_last() =~= seq![0u8]);
            assert(digits@.drop_last().drop_last() =~= Seq::<u8>::empty());
            assert(signed_be(digits@) == n);
        }
        Amount { digits, scale: 0 }
    }

    /// A copy of this amount.
    pub fn clone(&self) -> (r: Amount)
        ensures
            r@ == self@,
            r.unscaled() == self.unscaled(),
            r.spec_scale() == self.spec_scale(),
    {
        proof {
            use_type_invariant(self);
        }
        let digits = self.digits.clone();
        assert(digits@ =~= self.digits@);
        Amount { digits, scale: self.scale }
    }

    /// The exact sum of two amounts.
    pub fn plus(&self, other: &Amount) -> (r: Amount)
        ensures
            r@ == self@ + other@,
    {
        proof {
            use_type_invariant(self);
            use_type_invariant(other);
        }
        big_add(self, other)
    }

    /// The exact difference of two amounts.
    pub fn minus(&self, other: &Amount) -> (r: Amount)
        ensures
            r@ == self@ - other@,
    {
        proof {
            use_type_invariant(self);
            use_type_invariant(other);
        }
        big_sub(self, other)
    }

    /// Whether this amount is at least `other`.
    pub fn at_least(&self, other: &Amount) -> (r: bool)
        ensures
            r == (self@ >= other@),
    {
        proof {
            use_type_invariant(self);
            use_type_invariant(other);
        }
        big_ge(self, other)
    }

    /// Whether this amount is strictly less than `other`.
    pub fn less_than(&self, other: &Amount) -> (r: bool)
        ensures
            r == (self@ < other@),
    {
        proof {
            use_type_invariant(self);
            use_type_invariant(other);
        }
        big_lt(self, other)
    }

    /// Whether the two amounts are the same number.
    ///
    /// Both are first brought to the larger of their scales, which changes
    /// neither; two numbers of one scale are the same where their integers
    /// are.
    pub fn same_value(&self, other: &Amount) -> (r: bool)
        ensures
            r == (self@ == other@),
    {
        proof {
            use_type_invariant(self);
            use_type_invariant(other);
        }
        let scale = if self.scale >= other.scale {
            self.scale
        } else {
            other.scale
        };
        let a = big_with_scale(self, scale);
        let b = big_with_scale(other, scale);
        proof {
            lemma_rescaled_value(self.unscaled(), self.spec_scale(), scale as int);
            lemma_rescaled_value(other.unscaled(), other.spec_scale(), scale as int);
            lemma_quanta_one_to_one(a.unscaled(), b.unscaled(), scale as int);
        }
        big_eq(&a, &b)
    }

    /// This amount cut off after `places` fractional digits, toward zero.
    pub fn truncated_to(&self, places: u8) -> (r: Amount)
        ensures
            r@ == truncated(self@, places as int),
            r.spec_scale() == places,
    {
        proof {
            use_type_invariant(self);
            lemma_rescaled_value(self.unscaled(), self.spec_scale(), places as int);
        }
        big_with_scale(self, places as i64)
    }

    /// This amount divided by `10^decimals`, exactly: the decimal point moves
    /// `decimals` places to the left. `None` where that leaves more
    /// fractional digits than an amount can carry.
    pub fn shifted_down(&self, decimals: u32) -> (r: Option<Amount>)
        ensures
            match r {
                Some(a) => {
                    &&& self.spec_scale() + decimals <= MAX_SCALE
                    &&& a.unscaled() == self.unscaled()
                    &&& a.spec_scale() == self.spec_scale() + decimals
                    &&& a@ * pow10(decimals as int) == self@
                },
                None => self.spec_scale() + decimals > MAX_SCALE,
            },
    {
        proof {
            use_type_invariant(self);
        }
        if decimals as i64 > MAX_SCALE - self.scale {
            None
        } else {
            proof {
                lemma_shifted_value(self.unscaled(), self.spec_scale(), decimals as int);
            }
            let digits = self.digits.clone();
            assert(digits@ =~= self.digits@);
            Some(Amount { digits, scale: self.scale + decimals as i64 })
        }
    }
}

} // verus!
