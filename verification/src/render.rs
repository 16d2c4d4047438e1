//! Rendering matrices as text: as reduced fractions, as fractions over one
//! common denominator, or as decimals cut off after a number of places.

use crate::fraction::fraction_of;
use crate::fraction::lemma_stored_fraction;
use crate::matrix::Matrix;
use crate::matrix::row_wf;
use crate::rational::Rational;
use crate::rational::digit_char;
use crate::rational::fraction_text;
use crate::rational::nat_decimal;
use crate::rational::real_pow;
use crate::rational::trunc;
use vstd::prelude::*;
use vstd::string::StringExecFns;

verus! {

/// How a single entry is turned into text.
#[derive(Clone, Copy, Debug, PartialEq, Eq, Structural)]
pub enum EntryStyle {
    /// The entry's own fraction in lowest terms: `n/d`, or `n` alone for a
    /// whole number.
    Fraction,
    /// The entry times the given denominator, a slash, and the denominator.
    OverDenominator(u64),
    /// The entry as a decimal with the given number of places, cut off, not
    /// rounded.
    Decimal(i32),
}

/// The text of the fraction in lowest terms of the rational number `v`.
pub open spec fn canonical_text(v: real) -> Seq<char> {
    fraction_text(fraction_of(v).0, fraction_of(v).1)
}

/// `v` written over the denominator `d`: the text of `v`·`d`, a slash, and
/// the text of `d`.
pub open spec fn over_denominator_text(v: real, d: int) -> Seq<char> {
    canonical_text(v * (d as real)) + "/"@ + canonical_text(d as real)
}

/// The distance of `v` from zero.
pub open spec fn magnitude(v: real) -> real {
    if v < 0real {
        -v
    } else {
        v
    }
}

/// The `k`-th digit after the decimal point of `v`.
pub open spec fn decimal_digit(v: real, k: int) -> int {
    (magnitude(v) * real_pow(10real, k)).floor() % 10
}

/// The first `dp` digits after the decimal point of `v`.
pub open spec fn decimal_digits(v: real, dp: nat) -> Seq<char> {
    Seq::new(dp, |k: int| digit_char(decimal_digit(v, k + 1)))
}

/// `v` as a decimal with `dp` places, cut off toward zero: a minus sign if
/// `v` is negative, the whole part of its magnitude and, for a positive
/// `dp`, a point and `dp` digits.
pub open spec fn decimal_text(v: real, dp: int) -> Seq<char> {
    (if v < 0real {
        "-"@
    } else {
        Seq::<char>::empty()
    }) + nat_decimal(magnitude(v).floor() as nat) + (if dp > 0 {
        "."@ + decimal_digits(v, dp as nat)
    } else {
        Seq::<char>::empty()
    })
}

/// The text of one entry in the given style.
pub open spec fn entry_text(v: real, style: EntryStyle) -> Seq<char> {
    match style {
        EntryStyle::Fraction => canonical_text(v),
        EntryStyle::OverDenominator(d) => over_denominator_text(v, d as int),
        EntryStyle::Decimal(dp) => decimal_text(v, dp as int),
    }
}

/// The texts of the first `n` entries of a row, separated by a comma and a
/// space.
pub open spec fn row_body(row: Seq<real>, style: EntryStyle, n: nat) -> Seq<char>
    decreases n,
{
    if n == 0 {
        Seq::<char>::empty()
    } else if n == 1 {
        entry_text(row[0], style)
    } else {
        row_body(row, style, (n - 1) as nat) + ", "@ + entry_text(row[n - 1], style)
    }
}

/// The text of a row: its entries in square brackets.
pub open spec fn row_text(row: Seq<real>, style: EntryStyle) -> Seq<char> {
    "["@ + row_body(row, style, row.len()) + "]"@
}

/// The texts of the first `n` rows of a matrix, separated by a comma and a
/// space.
pub open spec fn matrix_body(m: Seq<Seq<real>>, style: EntryStyle, n: nat) -> Seq<char>
    decreases n,
{
    if n == 0 {
        Seq::<char>::empty()
    } else if n == 1 {
        row_text(m[0], style)
    } else {
        matrix_body(m, style, (n - 1) as nat) + ", "@ + row_text(m[n - 1], style)
    }
}

/// The text of a matrix: its rows in square brackets.
pub open spec fn matrix_text(m: Seq<Seq<real>>, style: EntryStyle) -> Seq<char> {
    "["@ + matrix_body(m, style, m.len()) + "]"@
}

/// `String::push`: the character is added at the end.
#[verifier::external_body]
pub(crate) fn push_char(s: &mut String, c: char)
    ensures
        final(s)@ == old(s)@.push(c),
{
    s.push(c);
}

/// The character of a decimal digit.
pub fn digit_to_char(d: u8) -> (c: char)
    requires
        d < 10,
    ensures
        c == digit_char(d as int),
{
    if d == 0 {
        '0'
    } else if d == 1 {
        '1'
    } else if d == 2 {
        '2'
    } else if d == 3 {
        '3'
    } else if d == 4 {
        '4'
    } else if d == 5 {
        '5'
    } else if d == 6 {
        '6'
    } else if d == 7 {
        '7'
    } else if d == 8 {
        '8'
    } else {
        '9'
    }
}

/// Multiplying by one changes nothing.
#[verifier::spinoff_prover]
pub proof fn lemma_mul_one(a: real)
    ensures
        a * 1real == a,
{
    assert(a * 1real == a) by (nonlinear_arith);
}

/// Moving the decimal point one place further is multiplying by ten.
#[verifier::spinoff_prover]
pub proof fn lemma_shift_point(a: real, p: real)
    ensures
        a * (10real * p) == 10real * (a * p),
{
    assert(a * (10real * p) == 10real * (a * p)) by (nonlinear_arith);
}

/// One round of digit extraction: if `t` has the same fractional part as
/// `a`·10^`k`, then ten times that fractional part has digit `k`+1 of `a` as
/// its whole part and the fractional part of `a`·10^(`k`+1).
#[verifier::spinoff_prover]
pub proof fn lemma_next_digit(a: real, k: int, t: real, t2: real)
    requires
        a >= 0real,
        k >= 0,
        t >= 0real,
        t - t.floor() as real == a * real_pow(10real, k) - (a * real_pow(10real, k)).floor() as real,
        t2 == (t - trunc(t) as real) * 10real,
    ensures
        t2 >= 0real,
        0 <= trunc(t2) <= 9,
        trunc(t2) == (a * real_pow(10real, k + 1)).floor() % 10,
        t2 - t2.floor() as real == a * real_pow(10real, k + 1) - (a * real_pow(
            10real,
            k + 1,
        )).floor() as real,
{
    let p = real_pow(10real, k);
    let q = real_pow(10real, k + 1);
    assert(q == 10real * p);
    lemma_shift_point(a, p);
    let y = a * p;
    assert(a * q == 10real * y);
    let f = y.floor();
    let u = t - t.floor() as real;
    assert(u == y - f as real);
    assert(0real <= u < 1real);
    assert(t2 == 10real * y - (10 * f) as real);
    assert(t2.floor() == (10real * y).floor() - 10 * f);
}

/// The text of `x` as a decimal with `dp` places, cut off toward zero.
#[verifier::spinoff_prover]
pub fn decimal_entry(x: &Rational, dp: i32) -> (s: String)
    requires
        x.wf(),
    ensures
        s@ == decimal_text(x@, dp as int),
{
    let zero = Rational::zero();
    let ten = Rational::from_i32(10).unwrap();
    let negative = x.less_than(&zero);
    let mut t = if negative {
        x.neg()
    } else {
        x.clone()
    };
    assert(t@ == magnitude(x@));
    let whole = t.to_integer();
    let mut s = String::new();
    if negative {
        s.append("-");
    }
    let digits = whole.decimal_string();
    s.append(digits.as_str());
    if dp > 0 {
        s.append(".");
    }
    let ghost head = s@;
    proof {
        let sign = if x@ < 0real {
            "-"@
        } else {
            Seq::<char>::empty()
        };
        let point = if dp > 0 {
            "."@
        } else {
            Seq::<char>::empty()
        };
        assert(whole@ == magnitude(x@).floor());
        assert(digits@ == nat_decimal(magnitude(x@).floor() as nat));
        assert(head =~= sign + digits@ + point);
        lemma_mul_one(magnitude(x@));
        assert(real_pow(10real, 0) == 1real);
    }
    let mut k: i32 = 0;
    while k < dp
        invariant
            0 <= k,
            dp > 0 ==> k <= dp,
            dp <= 0 ==> k == 0,
            head =~= (if x@ < 0real {
                "-"@
            } else {
                Seq::<char>::empty()
            }) + nat_decimal(magnitude(x@).floor() as nat) + (if dp > 0 {
                "."@
            } else {
                Seq::<char>::empty()
            }),
            x.wf(),
            t.wf(),
            ten.wf(),
            ten@ == 10real,
            t@ >= 0real,
            t@ - t@.floor() as real == magnitude(x@) * real_pow(10real, k as int) - (magnitude(x@)
                * real_pow(10real, k as int)).floor() as real,
            s@ == head + decimal_digits(x@, k as nat),
        decreases dp - k,
    {
        let ghost before = t@;
        t = t.fract().mul(&ten);
        proof {
            lemma_next_digit(magnitude(x@), k as int, before, t@);
        }
        let d = t.to_u8().unwrap();
        let c = digit_to_char(d);
        push_char(&mut s, c);
        proof {
            assert(c == digit_char(decimal_digit(x@, k + 1)));
            assert(decimal_digits(x@, (k + 1) as nat) =~= decimal_digits(x@, k as nat).push(c));
            assert(s@ =~= head + decimal_digits(x@, (k + 1) as nat));
        }
        k += 1;
    }
    proof {
        let sign = if x@ < 0real {
            "-"@
        } else {
            Seq::<char>::empty()
        };
        let whole_text = nat_decimal(magnitude(x@).floor() as nat);
        if dp > 0 {
            assert(k == dp);
            assert(s@ =~= sign + whole_text + ("."@ + decimal_digits(x@, dp as nat)));
        } else {
            assert(k == 0);
            assert(decimal_digits(x@, 0) =~= Seq::<char>::empty());
            assert(s@ =~= sign + whole_text + Seq::<char>::empty());
        }
        assert(s@ =~= decimal_text(x@, dp as int));
    }
    s
}

/// The text of `x` in the given style.
#[verifier::spinoff_prover]
pub fn render_entry(x: &Rational, style: EntryStyle) -> (s: String)
    requires
        x.wf(),
    ensures
        s@ == entry_text(x@, style),
{
    match style {
        EntryStyle::Fraction => {
            proof {
                lemma_stored_fraction(x);
            }
            x.fraction_string()
        },
        EntryStyle::OverDenominator(d) => {
            let den = Rational::from_u64(d).unwrap();
            let scaled = x.mul(&den);
            proof {
                lemma_stored_fraction(&scaled);
                lemma_stored_fraction(&den);
            }
            let mut s = scaled.fraction_string();
            s.append("/");
            let tail = den.fraction_string();
            s.append(tail.as_str());
            s
        },
        EntryStyle::Decimal(dp) => decimal_entry(x, dp),
    }
}

/// The text of a row of rationals in the given style.
#[verifier::spinoff_prover]
pub fn render_row(row: &Vec<Rational>, style: EntryStyle) -> (s: String)
    requires
        row_wf(row@),
    ensures
        s@ == row_text(crate::matrix::row_values(row@), style),
{
    let ghost values = crate::matrix::row_values(row@);
    let mut s = String::new();
    s.append("[");
    let mut j: usize = 0;
    while j < row.len()
        invariant
            j <= row@.len(),
            row_wf(row@),
            values == crate::matrix::row_values(row@),
            s@ == "["@ + row_body(values, style, j as nat),
        decreases row@.len() - j,
    {
        if j > 0 {
            s.append(", ");
        }
        let cell = render_entry(&row[j], style);
        s.append(cell.as_str());
        proof {
            assert(values[j as int] == row@[j as int]@);
            assert(s@ =~= "["@ + row_body(values, style, (j + 1) as nat));
        }
        j += 1;
    }
    s.append("]");
    s
}

/// The text of a matrix: each entry rendered in the given style, the
/// entries of a row separated by a comma and a space and enclosed in square
/// brackets, and the rows likewise.
#[verifier::spinoff_prover]
pub fn to_string_f(a: &Matrix, style: EntryStyle) -> (s: String)
    requires
        a.wf(),
    ensures
        s@ == matrix_text(a@, style),
{
    let mut s = String::new();
    s.append("[");
    let mut i: usize = 0;
    while i < a.rows.len()
        invariant
            i <= a.nrows(),
            a.wf(),
            s@ == "["@ + matrix_body(a@, style, i as nat),
        decreases a.nrows() - i,
    {
        if i > 0 {
            s.append(", ");
        }
        assert(row_wf(a.entries()[i as int]));
        let line = render_row(&a.rows[i], style);
        s.append(line.as_str());
        proof {
            assert(s@ =~= "["@ + matrix_body(a@, style, (i + 1) as nat));
        }
        i += 1;
    }
    s.append("]");
    s
}

/// The matrix as text, each entry as its own fraction in lowest terms.
pub fn to_string(a: &Matrix) -> (s: String)
    requires
        a.wf(),
    ensures
        s@ == matrix_text(a@, EntryStyle::Fraction),
{
    to_string_f(a, EntryStyle::Fraction)
}

/// The matrix as text, each entry as a fraction over the denominator
/// `denom`.
pub fn to_string_denom(a: &Matrix, denom: u64) -> (s: String)
    requires
        a.wf(),
    ensures
        s@ == matrix_text(a@, EntryStyle::OverDenominator(denom)),
{
    to_string_f(a, EntryStyle::OverDenominator(denom))
}

/// The matrix as text, each entry as a decimal with `dp` places, cut off
/// toward zero.
pub fn to_decimal_string(a: &Matrix, dp: i32) -> (s: String)
    requires
        a.wf(),
    ensures
        s@ == matrix_text(a@, EntryStyle::Decimal(dp)),
{
    to_string_f(a, EntryStyle::Decimal(dp))
}

impl Rational {
    /// The number as text: its fraction in lowest terms, `n/d`, or `n` alone
    /// for a whole number.
    pub fn to_string(&self) -> (s: String)
        requires
            self.wf(),
        ensures
            s@ == canonical_text(self@),
    {
        render_entry(self, EntryStyle::Fraction)
    }
}

} // verus!
