//! Exact rational numbers of arbitrary size.
//!
//! A [`Rational`] stores its numerator and denominator as two's-complement
//! little-endian byte strings. All arithmetic is delegated to `num`'s
//! `BigRational`; each such call is a small trusted function whose contract is
//! stated over the mathematical value of the fraction.

use num::FromPrimitive;
use num::One;
use num::ToPrimitive;
use num::Zero;
use num::bigint::BigInt;
use num::rational::BigRational;
use num::rational::ParseRatioError;
use std::str::FromStr;
use vstd::prelude::*;

verus! {

/// The integer that a little-endian two's-complement byte string denotes.
/// The empty string denotes zero; the top bit of the last byte is the sign.
pub open spec fn signed_le(bytes: Seq<u8>) -> int
    decreases bytes.len(),
{
    if bytes.len() == 0 {
        0
    } else if bytes.len() == 1 {
        if bytes[0] >= 128 {
            bytes[0] as int - 256
        } else {
            bytes[0] as int
        }
    } else {
        bytes[0] as int + 256 * signed_le(bytes.drop_first())
    }
}

/// No integer greater than one divides both `a` and `b`.
pub open spec fn coprime(a: int, b: int) -> bool {
    forall|k: int| k >= 2 ==> !(#[trigger] (a % k) == 0 && b % k == 0)
}

/// `x` is a whole number.
pub open spec fn is_whole(x: real) -> bool {
    x == x.floor() as real
}

/// `x` with its fractional part cut off (rounding toward zero).
pub open spec fn trunc(x: real) -> int {
    if x >= 0real {
        x.floor()
    } else {
        -((-x).floor())
    }
}

/// The nearest whole number to `x`; a value halfway between two whole numbers
/// goes to the one farther from zero.
pub open spec fn round_half_away(x: real) -> int {
    if x >= 0real {
        (x + 1real / 2real).floor()
    } else {
        -((-x + 1real / 2real).floor())
    }
}

/// `x` raised to the power `e`; a negative exponent gives the reciprocal of
/// the positive power.
pub open spec fn real_pow(x: real, e: int) -> real
    decreases
            (if e >= 0 {
                e
            } else {
                1 - e
            }),
{
    if e == 0 {
        1real
    } else if e > 0 {
        x * real_pow(x, e - 1)
    } else {
        1real / real_pow(x, -e)
    }
}

/// The character for a single decimal digit.
pub open spec fn digit_char(d: int) -> char {
    if d == 0 {
        '0'
    } else if d == 1 {
        '1'
    } else if d == 2 {
        '2'
    } else if d == 3 {
        '3'
    } else if d == 4 {
        '4'
    } else if d == 5 {
        '5'
    } else if d == 6 {
        '6'
    } else if d == 7 {
        '7'
    } else if d == 8 {
        '8'
    } else {
        '9'
    }
}

/// The decimal digits of a natural number, most significant first, without
/// leading zeros.
pub open spec fn nat_decimal(n: nat) -> Seq<char>
    decreases n,
{
    if n < 10 {
        seq![digit_char(n as int)]
    } else {
        nat_decimal(n / 10).push(digit_char((n % 10) as int))
    }
}

/// The decimal text of an integer: a minus sign for a negative one, then the
/// digits of its magnitude.
pub open spec fn int_decimal(n: int) -> Seq<char> {
    if n < 0 {
        seq!['-'] + nat_decimal((-n) as nat)
    } else {
        nat_decimal(n as nat)
    }
}

/// The text of the fraction `n`/`d`: the numerator alone when `d` is one,
/// else numerator, slash, denominator.
pub open spec fn fraction_text(n: int, d: int) -> Seq<char> {
    if d == 1 {
        int_decimal(n)
    } else {
        int_decimal(n) + seq!['/'] + int_decimal(d)
    }
}

/// The reduced numerator and denominator that `BigRational`'s parser reads
/// from a text, or `None` where it rejects the text.
pub uninterp spec fn parsed_fraction(text: Seq<char>) -> Option<(int, int)>;

#[verifier::external_type_specification]
#[verifier::external_body]
pub struct ExParseRatioError(ParseRatioError);

/// An arbitrary-precision integer, as two's-complement little-endian bytes.
pub struct Integer {
    bytes: Vec<u8>,
}

impl Integer {
    /// The integer denoted.
    pub closed spec fn value(&self) -> int {
        signed_le(self.bytes@)
    }
}

impl View for Integer {
    type V = int;

    open spec fn view(&self) -> int {
        self.value()
    }
}

/// An exact fraction in lowest terms with a positive denominator.
pub struct Rational {
    numer: Vec<u8>,
    denom: Vec<u8>,
}

impl Rational {
    /// The numerator; it carries the sign.
    pub closed spec fn numer(&self) -> int {
        signed_le(self.numer@)
    }

    /// The denominator.
    pub closed spec fn denom(&self) -> int {
        signed_le(self.denom@)
    }

    /// The fraction is in canonical form: positive denominator, lowest terms.
    pub open spec fn wf(&self) -> bool {
        &&& self.denom() > 0
        &&& coprime(self.numer(), self.denom())
    }

    /// The number denoted.
    pub open spec fn value(&self) -> real {
        self.numer() as real / self.denom() as real
    }
}

impl View for Rational {
    type V = real;

    open spec fn view(&self) -> real {
        self.value()
    }
}

impl Rational {
    /// `BigRational`'s `Zero::zero`: the fraction 0/1.
    #[verifier::external_body]
    pub(crate) fn zero() -> (r: Rational)
        ensures
            r.wf(),
            r@ == 0real,
    {
        let z = BigRational::zero();
        Rational { numer: z.numer().to_signed_bytes_le(), denom: z.denom().to_signed_bytes_le() }
    }

    /// `BigRational`'s `One::one`: the fraction 1/1.
    #[verifier::external_body]
    pub(crate) fn one() -> (r: Rational)
        ensures
            r.wf(),
            r@ == 1real,
    {
        let z = BigRational::one();
        Rational { numer: z.numer().to_signed_bytes_le(), denom: z.denom().to_signed_bytes_le() }
    }

    /// `BigRational`'s `FromPrimitive::from_u64`, which always succeeds and
    /// gives the fraction `n`/1.
    #[verifier::external_body]
    pub(crate) fn from_u64(n: u64) -> (r: Option<Rational>)
        ensures
            r.is_some(),
            r.unwrap().wf(),
            r.unwrap()@ == n as real,
    {
        let z = BigRational::from_u64(n)?;
        Some(Rational { numer: z.numer().to_signed_bytes_le(), denom: z.denom().to_signed_bytes_le() })
    }

    /// `BigRational`'s `FromPrimitive::from_i32`, which always succeeds and
    /// gives the fraction `n`/1.
    #[verifier::external_body]
    pub(crate) fn from_i32(n: i32) -> (r: Option<Rational>)
        ensures
            r.is_some(),
            r.unwrap().wf(),
            r.unwrap()@ == n as real,
    {
        let z = BigRational::from_i32(n)?;
        Some(Rational { numer: z.numer().to_signed_bytes_le(), denom: z.denom().to_signed_bytes_le() })
    }

    /// `&BigRational + &BigRational`: the sum, reduced to lowest terms.
    #[verifier::external_body]
    pub(crate) fn add(&self, rhs: &Rational) -> (r: Rational)
        requires
            self.wf(),
            rhs.wf(),
        ensures
            r.wf(),
            r@ == self@ + rhs@,
    {
        let x = BigRational::new_raw(
            BigInt::from_signed_bytes_le(&self.numer),
            BigInt::from_signed_bytes_le(&self.denom),
        );
        let y = BigRational::new_raw(
            BigInt::from_signed_bytes_le(&rhs.numer),
            BigInt::from_signed_bytes_le(&rhs.denom),
        );
        let z = x + y;
        Rational { numer: z.numer().to_signed_bytes_le(), denom: z.denom().to_signed_bytes_le() }
    }

    /// `&BigRational - &BigRational`: the difference, reduced to lowest terms.
    #[verifier::external_body]
    pub(crate) fn sub(&self, rhs: &Rational) -> (r: Rational)
        requires
            self.wf(),
            rhs.wf(),
        ensures
            r.wf(),
            r@ == self@ - rhs@,
    {
        let x = BigRational::new_raw(
            BigInt::from_signed_bytes_le(&self.numer),
            BigInt::from_signed_bytes_le(&self.denom),
        );
        let y = BigRational::new_raw(
            BigInt::from_signed_bytes_le(&rhs.numer),
            BigInt::from_signed_bytes_le(&rhs.denom),
        );
        let z = x - y;
        Rational { numer: z.numer().to_signed_bytes_le(), denom: z.denom().to_signed_bytes_le() }
    }

    /// `&BigRational * &BigRational`: the product, reduced to lowest terms.
    #[verifier::external_body]
    pub(crate) fn mul(&self, rhs: &Rational) -> (r: Rational)
        requires
            self.wf(),
            rhs.wf(),
        ensures
            r.wf(),
            r@ == self@ * rhs@,
    {
        let x = BigRational::new_raw(
            BigInt::from_signed_bytes_le(&self.numer),
            BigInt::from_signed_bytes_le(&self.denom),
        );
        let y = BigRational::new_raw(
            BigInt::from_signed_bytes_le(&rhs.numer),
            BigInt::from_signed_bytes_le(&rhs.denom),
        );
        let z = x * y;
        Rational { numer: z.numer().to_signed_bytes_le(), denom: z.denom().to_signed_bytes_le() }
    }

    /// `&BigRational / &BigRational`: the quotient, reduced to lowest terms.
    /// The outside operator panics on a zero divisor, which the precondition
    /// excludes.
    #[verifier::external_body]
    pub(crate) fn div(&self, rhs: &Rational) -> (r: Rational)
        requires
            self.wf(),
            rhs.wf(),
            rhs@ != 0real,
        ensures
            r.wf(),
            r@ == self@ / rhs@,
    {
        let x = BigRational::new_raw(
            BigInt::from_signed_bytes_le(&self.numer),
            BigInt::from_signed_bytes_le(&self.denom),
        );
        let y = BigRational::new_raw(
            BigInt::from_signed_bytes_le(&rhs.numer),
            BigInt::from_signed_bytes_le(&rhs.denom),
        );
        let z = x / y;
        Rational { numer: z.numer().to_signed_bytes_le(), denom: z.denom().to_signed_bytes_le() }
    }

    /// `-&BigRational`: the numerator changes sign.
    #[verifier::external_body]
    pub(crate) fn neg(&self) -> (r: Rational)
        requires
            self.wf(),
        ensures
            r.wf(),
            r@ == -self@,
    {
        let x = BigRational::new_raw(
            BigInt::from_signed_bytes_le(&self.numer),
            BigInt::from_signed_bytes_le(&self.denom),
        );
        let z = -x;
        Rational { numer: z.numer().to_signed_bytes_le(), denom: z.denom().to_signed_bytes_le() }
    }

    /// `BigRational::recip`: numerator and denominator change places, the sign
    /// staying with the numerator. It panics on zero, which the precondition
    /// excludes.
    #[verifier::external_body]
    pub(crate) fn recip(&self) -> (r: Rational)
        requires
            self.wf(),
            self@ != 0real,
        ensures
            r.wf(),
            r@ == 1real / self@,
    {
        let x = BigRational::new_raw(
            BigInt::from_signed_bytes_le(&self.numer),
            BigInt::from_signed_bytes_le(&self.denom),
        );
        let z = x.recip();
        Rational { numer: z.numer().to_signed_bytes_le(), denom: z.denom().to_signed_bytes_le() }
    }

    /// `BigRational::round`: the nearest whole number, halfway cases going away
    /// from zero.
    #[verifier::external_body]
    pub(crate) fn round(&self) -> (r: Rational)
        requires
            self.wf(),
        ensures
            r.wf(),
            r@ == round_half_away(self@) as real,
    {
        let x = BigRational::new_raw(
            BigInt::from_signed_bytes_le(&self.numer),
            BigInt::from_signed_bytes_le(&self.denom),
        );
        let z = x.round();
        Rational { numer: z.numer().to_signed_bytes_le(), denom: z.denom().to_signed_bytes_le() }
    }

    /// `BigRational::fract`: what is left of the fraction when its whole part,
    /// rounded toward zero, is taken away.
    #[verifier::external_body]
    pub(crate) fn fract(&self) -> (r: Rational)
        requires
            self.wf(),
        ensures
            r.wf(),
            r@ == self@ - trunc(self@) as real,
    {
        let x = BigRational::new_raw(
            BigInt::from_signed_bytes_le(&self.numer),
            BigInt::from_signed_bytes_le(&self.denom),
        );
        let z = x.fract();
        Rational { numer: z.numer().to_signed_bytes_le(), denom: z.denom().to_signed_bytes_le() }
    }

    /// `BigRational`'s `Zero::is_zero`: whether the numerator is zero.
    #[verifier::external_body]
    pub(crate) fn is_zero(&self) -> (r: bool)
        requires
            self.wf(),
        ensures
            r == (self@ == 0real),
    {
        let x = BigRational::new_raw(
            BigInt::from_signed_bytes_le(&self.numer),
            BigInt::from_signed_bytes_le(&self.denom),
        );
        x.is_zero()
    }

    /// `BigRational::is_integer`: whether the denominator of the reduced
    /// fraction is one.
    #[verifier::external_body]
    pub(crate) fn is_integer(&self) -> (r: bool)
        requires
            self.wf(),
        ensures
            r == (is_whole(self@)),
    {
        let x = BigRational::new_raw(
            BigInt::from_signed_bytes_le(&self.numer),
            BigInt::from_signed_bytes_le(&self.denom),
        );
        x.is_integer()
    }

    /// `BigRational`'s `==`: whether the two fractions denote the same number.
    #[verifier::external_body]
    pub(crate) fn equals(&self, rhs: &Rational) -> (r: bool)
        requires
            self.wf(),
            rhs.wf(),
        ensures
            r == (self@ == rhs@),
    {
        let x = BigRational::new_raw(
            BigInt::from_signed_bytes_le(&self.numer),
            BigInt::from_signed_bytes_le(&self.denom),
        );
        let y = BigRational::new_raw(
            BigInt::from_signed_bytes_le(&rhs.numer),
            BigInt::from_signed_bytes_le(&rhs.denom),
        );
        x == y
    }

    /// `BigRational`'s `<`: whether `self` denotes the smaller number.
    #[verifier::external_body]
    pub(crate) fn less_than(&self, rhs: &Rational) -> (r: bool)
        requires
            self.wf(),
            rhs.wf(),
        ensures
            r == (self@ < rhs@),
    {
        let x = BigRational::new_raw(
            BigInt::from_signed_bytes_le(&self.numer),
            BigInt::from_signed_bytes_le(&self.denom),
        );
        let y = BigRational::new_raw(
            BigInt::from_signed_bytes_le(&rhs.numer),
            BigInt::from_signed_bytes_le(&rhs.denom),
        );
        x < y
    }

    /// `BigRational`'s `Pow<i32>`: the power by repeated multiplication; for a
    /// negative exponent, the reciprocal of the positive power, which panics
    /// when the base is zero.
    #[verifier::external_body]
    pub(crate) fn pow(&self, expon: i32) -> (r: Rational)
        requires
            self.wf(),
            self@ != 0real || expon >= 0,
        ensures
            r.wf(),
            r@ == real_pow(self@, expon as int),
    {
        let x = BigRational::new_raw(
            BigInt::from_signed_bytes_le(&self.numer),
            BigInt::from_signed_bytes_le(&self.denom),
        );
        let z = x.pow(expon);
        Rational { numer: z.numer().to_signed_bytes_le(), denom: z.denom().to_signed_bytes_le() }
    }

    /// `BigRational`'s `ToPrimitive::to_u8`: the fraction rounded toward zero,
    /// if that fits in a byte.
    #[verifier::external_body]
    pub(crate) fn to_u8(&self) -> (r: Option<u8>)
        requires
            self.wf(),
        ensures
            0 <= trunc(self@) <= 255 ==> r == Some(trunc(self@) as u8),
            !(0 <= trunc(self@) <= 255) ==> r.is_none(),
    {
        let x = BigRational::new_raw(
            BigInt::from_signed_bytes_le(&self.numer),
            BigInt::from_signed_bytes_le(&self.denom),
        );
        x.to_u8()
    }

    /// `BigRational::to_integer`: the fraction rounded toward zero.
    #[verifier::external_body]
    pub(crate) fn to_integer(&self) -> (r: Integer)
        requires
            self.wf(),
        ensures
            r@ == trunc(self@),
    {
        let x = BigRational::new_raw(
            BigInt::from_signed_bytes_le(&self.numer),
            BigInt::from_signed_bytes_le(&self.denom),
        );
        Integer { bytes: x.to_integer().to_signed_bytes_le() }
    }

    /// `BigRational`'s `Display` through `to_string`: the numerator in decimal;
    /// unless the denominator is one, a slash and the denominator follow.
    #[verifier::external_body]
    pub(crate) fn fraction_string(&self) -> (r: String)
        requires
            self.wf(),
        ensures
            r@ == fraction_text(self.numer(), self.denom()),
    {
        let x = BigRational::new_raw(
            BigInt::from_signed_bytes_le(&self.numer),
            BigInt::from_signed_bytes_le(&self.denom),
        );
        x.to_string()
    }

    /// `BigRational`'s `FromStr::from_str`, which reads `numer/denom` or just
    /// `numer` and reduces the fraction; it fails on a malformed number and on
    /// a zero denominator.
    #[verifier::external_body]
    pub(crate) fn from_text(s: &str) -> (r: Result<Rational, ParseRatioError>)
        ensures
            match r {
                Ok(x) => x.wf() && parsed_fraction(s@) == Some((x.numer(), x.denom())),
                Err(_) => parsed_fraction(s@).is_none(),
            },
    {
        let z = BigRational::from_str(s)?;
        Ok(Rational { numer: z.numer().to_signed_bytes_le(), denom: z.denom().to_signed_bytes_le() })
    }
}

impl Integer {
    /// `BigInt`'s `Display` through `to_string`: the decimal digits, after a
    /// minus sign if the integer is negative.
    #[verifier::external_body]
    pub(crate) fn decimal_string(&self) -> (r: String)
        ensures
            r@ == int_decimal(self@),
    {
        BigInt::from_signed_bytes_le(&self.bytes).to_string()
    }
}

impl Clone for Rational {
    /// A copy that denotes the same fraction.
    fn clone(&self) -> (r: Self)
        ensures
            r.numer() == self.numer(),
            r.denom() == self.denom(),
    {
        let numer = self.numer.clone();
        let denom = self.denom.clone();
        assert(numer@ =~= self.numer@);
        assert(denom@ =~= self.denom@);
        Rational { numer, denom }
    }
}

/// The number that `BigRational`'s parser reads from a text, or `None` where
/// it rejects the text.
pub open spec fn parsed_value(text: Seq<char>) -> Option<real> {
    match parsed_fraction(text) {
        Some(p) => Some(p.0 as real / p.1 as real),
        None => None,
    }
}

impl Rational {
    /// Reads a number written as `numer/denom` or as `numer` alone.
    pub fn parse(s: &str) -> (r: Option<Rational>)
        ensures
            r.is_some() <==> parsed_value(s@).is_some(),
            r.is_some() ==> r.unwrap().wf() && Some(r.unwrap()@) == parsed_value(s@),
    {
        match Rational::from_text(s) {
            Ok(x) => Some(x),
            Err(_) => None,
        }
    }
}

} // verus!
