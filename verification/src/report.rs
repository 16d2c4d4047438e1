//! The lines of the report on a matrix: a heading, then the matrix as
//! fractions and as decimals.

use crate::matrix::Matrix;
use crate::matrix::is_exact;
use crate::matrix::mat_is_exact;
use crate::rational::int_decimal;
use crate::render::EntryStyle;
use crate::render::matrix_text;
use crate::render::to_decimal_string;
use crate::render::to_string;
use crate::render::to_string_denom;
use vstd::prelude::*;
use vstd::string::StrSliceExecFns;
use vstd::string::StringExecFns;

verus! {

/// The number of decimal places shown where none is asked for.
pub const DEFAULT_PLACES: i32 = 20;

/// The column up to which the second description of a heading is indented.
pub const HEADING_WIDTH: usize = 56;

/// The style of the fractions: over `denom` if one is given, else each in
/// lowest terms.
pub open spec fn fraction_style(denom: Option<u64>) -> EntryStyle {
    match denom {
        Some(d) => EntryStyle::OverDenominator(d),
        None => EntryStyle::Fraction,
    }
}

/// The number of decimal places: `dp` if given, else twenty.
pub open spec fn places(dp: Option<i32>) -> i32 {
    match dp {
        Some(n) => n,
        None => DEFAULT_PLACES,
    }
}

/// The sign before the decimals: `=` where they show the matrix exactly,
/// `≈` where they are cut off.
pub open spec fn exactness_sign(m: Seq<Seq<real>>, dp: int) -> Seq<char> {
    if mat_is_exact(m, dp) {
        "="@
    } else {
        "\u{2248}"@
    }
}

/// The two lines on the values of a matrix, and what is to follow them:
/// two spaces and the fractions; the sign of exactness, a space and the
/// decimals; then `extra`.
pub open spec fn values_text(
    m: Seq<Seq<real>>,
    denom: Option<u64>,
    dp: Option<i32>,
    extra: Seq<char>,
) -> Seq<char> {
    "  "@ + matrix_text(m, fraction_style(denom)) + "\n"@ + exactness_sign(m, places(dp) as int)
        + " "@ + matrix_text(m, EntryStyle::Decimal(places(dp))) + "\n"@ + extra
}

/// The two lines on the values of `a`: the fractions, over `denom` if one
/// is given, and the decimals with `dp` places, twenty if none is given,
/// marked as exact or as cut off; then `extra`.
#[verifier::spinoff_prover]
pub fn format_values(a: &Matrix, denom: Option<u64>, dp: Option<i32>, extra: &str) -> (s: String)
    requires
        a.wf(),
    ensures
        s@ == values_text(a@, denom, dp, extra@),
{
    let fractions = match denom {
        Some(d) => to_string_denom(a, d),
        None => to_string(a),
    };
    let shown = match dp {
        Some(n) => n,
        None => DEFAULT_PLACES,
    };
    let sign = if is_exact(a, shown) {
        "="
    } else {
        "\u{2248}"
    };
    let decimals = to_decimal_string(a, shown);
    let mut s = String::new();
    s.append("  ");
    s.append(fractions.as_str());
    s.append("\n");
    s.append(sign);
    s.append(" ");
    s.append(decimals.as_str());
    s.append("\n");
    s.append(extra);
    assert(s@ =~= values_text(a@, denom, dp, extra@));
    s
}

/// `i32`'s `to_string`: the decimal digits, after a minus sign if the number
/// is negative.
#[verifier::external_body]
pub(crate) fn number_string(n: i32) -> (s: String)
    ensures
        s@ == int_decimal(n as int),
{
    n.to_string()
}

/// A run of `n` spaces.
pub open spec fn spaces(n: nat) -> Seq<char> {
    Seq::new(n, |i: int| ' ')
}

/// The number of spaces between the first part of a numbered heading and
/// its second description, which starts in column 56 where the first part
/// is shorter than that.
pub open spec fn heading_padding(no: int, name: Seq<char>, desc: Seq<char>, def: Seq<char>) -> nat {
    let taken = int_decimal(no).len() + name.len() + desc.len() + def.len() + (if def.len()
        == 0 {
        14int
    } else {
        17int
    });
    if taken < HEADING_WIDTH {
        (HEADING_WIDTH - taken) as nat
    } else {
        0
    }
}

/// The definition of a matrix in a heading: an equals sign and the
/// definition in yellow, or nothing where there is no definition.
pub open spec fn definition_text(def: Seq<char>) -> Seq<char> {
    if def.len() == 0 {
        Seq::<char>::empty()
    } else {
        " = \x1b[93m"@ + def + "\x1b[0m"@
    }
}

/// The heading of a numbered matrix: the number in parentheses, the name in
/// green in square brackets, the description in cyan, the definition if
/// there is one, and the second description, indented and in parentheses,
/// if there is one.
pub open spec fn result_heading_text(
    no: int,
    name: Seq<char>,
    desc: Seq<char>,
    def: Seq<char>,
    desc2: Seq<char>,
) -> Seq<char> {
    "("@ + int_decimal(no) + ") \x1b[1;92m["@ + name + "]\x1b[0m: \x1b[1;96m"@ + desc
        + "\x1b[0m matrix"@ + definition_text(def) + (if desc2.len() == 0 {
        Seq::<char>::empty()
    } else {
        spaces(heading_padding(no, name, desc, def)) + " ( "@ + desc2 + " )"@
    }) + "\n"@
}

/// The heading of a vector that has a symbol in place of a number: the
/// symbol, the name in cyan, the description in parentheses and the
/// definition if there is one.
pub open spec fn value_heading_text(
    sym: Seq<char>,
    name: Seq<char>,
    desc: Seq<char>,
    def: Seq<char>,
) -> Seq<char> {
    sym + " \x1b[1;96m"@ + name + "\x1b[0m ("@ + desc + ")"@ + definition_text(def) + "\n"@
}

/// The number of spaces before the second description of a heading whose
/// first part has texts of the given lengths.
pub fn padding_width(no_len: usize, name_len: usize, desc_len: usize, def_len: usize) -> (w: usize)
    ensures
        w == (if no_len + name_len + desc_len + def_len + (if def_len == 0 {
            14int
        } else {
            17int
        }) < HEADING_WIDTH {
            HEADING_WIDTH - (no_len + name_len + desc_len + def_len + (if def_len == 0 {
                14int
            } else {
                17int
            }))
        } else {
            0
        }),
{
    if no_len >= HEADING_WIDTH || name_len >= HEADING_WIDTH || desc_len >= HEADING_WIDTH || def_len
        >= HEADING_WIDTH {
        return 0;
    }
    let fixed: usize = if def_len == 0 {
        14
    } else {
        17
    };
    let taken = no_len + name_len + desc_len + def_len + fixed;
    if taken < HEADING_WIDTH {
        HEADING_WIDTH - taken
    } else {
        0
    }
}

/// Appends the definition of a matrix to a heading.
pub fn append_definition(s: &mut String, def: &str)
    ensures
        final(s)@ == old(s)@ + definition_text(def@),
{
    if def.unicode_len() != 0 {
        s.append(" = \x1b[93m");
        s.append(def);
        s.append("\x1b[0m");
        assert(s@ =~= old(s)@ + definition_text(def@));
    } else {
        assert(s@ =~= old(s)@ + definition_text(def@));
    }
}

/// The heading of a numbered matrix.
#[verifier::spinoff_prover]
pub fn result_heading(no: i32, name: &str, desc: &str, def: &str, desc2: &str) -> (s: String)
    ensures
        s@ == result_heading_text(no as int, name@, desc@, def@, desc2@),
{
    let number = number_string(no);
    let mut s = String::new();
    s.append("(");
    s.append(number.as_str());
    s.append(") \x1b[1;92m[");
    s.append(name);
    s.append("]\x1b[0m: \x1b[1;96m");
    s.append(desc);
    s.append("\x1b[0m matrix");
    append_definition(&mut s, def);
    let ghost first = s@;
    if desc2.unicode_len() != 0 {
        let width = padding_width(
            number.as_str().unicode_len(),
            name.unicode_len(),
            desc.unicode_len(),
            def.unicode_len(),
        );
        let mut k: usize = 0;
        while k < width
            invariant
                k <= width,
                s@ == first + spaces(k as nat),
            decreases width - k,
        {
            s.append(" ");
            proof {
                reveal_strlit(" ");
                assert(s@ =~= first + spaces((k + 1) as nat));
            }
            k += 1;
        }
        s.append(" ( ");
        s.append(desc2);
        s.append(" )");
    }
    s.append("\n");
    assert(s@ =~= result_heading_text(no as int, name@, desc@, def@, desc2@));
    s
}

/// The heading of a vector that has a symbol in place of a number.
#[verifier::spinoff_prover]
pub fn value_heading(sym: &str, name: &str, desc: &str, def: &str) -> (s: String)
    ensures
        s@ == value_heading_text(sym@, name@, desc@, def@),
{
    let mut s = String::new();
    s.append(sym);
    s.append(" \x1b[1;96m");
    s.append(name);
    s.append("\x1b[0m (");
    s.append(desc);
    s.append(")");
    append_definition(&mut s, def);
    s.append("\n");
    assert(s@ =~= value_heading_text(sym@, name@, desc@, def@));
    s
}

/// The report on a numbered matrix: its heading and the lines on its
/// values.
#[verifier::spinoff_prover]
pub fn format_result1(
    no: i32,
    name: &str,
    desc: &str,
    def: &str,
    desc2: &str,
    a: &Matrix,
    denom: Option<u64>,
    dp: Option<i32>,
    extra: &str,
) -> (s: String)
    requires
        a.wf(),
    ensures
        s@ == result_heading_text(no as int, name@, desc@, def@, desc2@) + values_text(
            a@,
            denom,
            dp,
            extra@,
        ),
{
    let mut s = result_heading(no, name, desc, def, desc2);
    let values = format_values(a, denom, dp, extra);
    s.append(values.as_str());
    s
}

/// The report on a vector that has a symbol in place of a number: its
/// heading and the lines on its values.
#[verifier::spinoff_prover]
pub fn format_result2(
    sym: &str,
    name: &str,
    desc: &str,
    def: &str,
    a: &Matrix,
    denom: Option<u64>,
    dp: Option<i32>,
    extra: &str,
) -> (s: String)
    requires
        a.wf(),
    ensures
        s@ == value_heading_text(sym@, name@, desc@, def@) + values_text(a@, denom, dp, extra@),
{
    let mut s = value_heading(sym, name, desc, def);
    let values = format_values(a, denom, dp, extra);
    s.append(values.as_str());
    s
}

} // verus!
