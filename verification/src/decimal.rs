//! Decimal numbers as a keyword line writes them.
//!
//! A finite [`Decimal`] stands for `mantissa * 10^exponent`, negated when
//! `negative` is set. It is written in positional notation: never with an
//! exponent, never with a zero that carries no information. The two
//! infinities and the value that is no number have fixed names.

use vstd::prelude::*;
use vstd::string::StringExecFns;
use crate::text::{is_digit, nat_string, nat_text, nat_text_is_digits, push_nat};

pub mod reading;

verus! {

/// A number with a finite decimal expansion, or one of the three values that
/// have none.
#[derive(Clone, Copy, Debug, PartialEq, Eq)]
pub enum Decimal {
    Finite { negative: bool, mantissa: u64, exponent: i16 },
    Infinite { negative: bool },
    NotANumber,
}

/// `count` zeros.
pub open spec fn zeros(count: nat) -> Seq<char> {
    Seq::new(count, |i: int| '0')
}

/// Ten to the power of `exponent`.
pub open spec fn pow10(exponent: nat) -> nat
    decreases exponent,
{
    if exponent == 0 {
        1
    } else {
        10 * pow10((exponent - 1) as nat)
    }
}

/// `-` for a negative value, nothing otherwise.
pub open spec fn sign_text(negative: bool) -> Seq<char> {
    if negative {
        seq!['-']
    } else {
        Seq::empty()
    }
}

/// The digits of a mantissa with the decimal point set `places` digits from
/// the right. Where the digits do not reach the point, zeros fill the gap
/// behind a single `0` in front of it.
pub open spec fn point_text(digits: Seq<char>, places: nat) -> Seq<char> {
    if digits.len() > places {
        digits.take(digits.len() - places) + seq!['.'] + digits.skip(digits.len() - places)
    } else {
        seq!['0', '.'] + zeros((places - digits.len()) as nat) + digits
    }
}

/// `mantissa * 10^exponent` in positional notation. Zeros at the end of the
/// mantissa move into the exponent first, so that equal values are written
/// alike and no fraction ends in a zero.
pub open spec fn magnitude_text(mantissa: nat, exponent: int) -> Seq<char>
    decreases mantissa,
{
    if mantissa == 0 {
        seq!['0']
    } else if mantissa % 10 == 0 {
        magnitude_text(mantissa / 10, exponent + 1)
    } else if exponent >= 0 {
        nat_text(mantissa) + zeros(exponent as nat)
    } else {
        point_text(nat_text(mantissa), (-exponent) as nat)
    }
}

impl Decimal {
    /// The number as a keyword line holds it.
    pub open spec fn text(self) -> Seq<char> {
        match self {
            Decimal::Finite { negative, mantissa, exponent } => sign_text(negative)
                + magnitude_text(mantissa as nat, exponent as int),
            Decimal::Infinite { negative } => sign_text(negative) + "inf"@,
            Decimal::NotANumber => "NaN"@,
        }
    }

    /// Whether this is the one way to hold its value: the mantissa of a
    /// finite number does not end in a zero, and zero has exponent zero.
    pub open spec fn is_canonical(self) -> bool {
        match self {
            Decimal::Finite { negative, mantissa, exponent } => if mantissa == 0 {
                exponent == 0
            } else {
                mantissa % 10 != 0
            },
            _ => true,
        }
    }

    /// The whole number `value`.
    pub open spec fn whole(value: u64) -> Decimal {
        Decimal::Finite { negative: false, mantissa: value, exponent: 0 }
    }

    /// Writes the number out.
    pub fn to_string(&self) -> (out: String)
        ensures
            out@ == self.text(),
    {
        let mut out = String::new();
        match self {
            Decimal::Finite { negative, mantissa, exponent } => {
                push_sign(&mut out, *negative);
                push_magnitude(&mut out, *mantissa, *exponent);
            },
            Decimal::Infinite { negative } => {
                push_sign(&mut out, *negative);
                out.append("inf");
            },
            Decimal::NotANumber => {
                out.append("NaN");
            },
        }
        assert(out@ =~= self.text());
        out
    }
}

/// Equal values are written alike: zeros at the end of the mantissa and the
/// same number taken off the exponent change nothing.
pub proof fn scaled_is_written_alike(mantissa: nat, exponent: int, shift: nat)
    ensures
        magnitude_text(mantissa * pow10(shift), exponent - shift) == magnitude_text(
            mantissa,
            exponent,
        ),
    decreases shift,
{
    if shift == 0 {
        assert(mantissa * pow10(0) == mantissa) by {
            assert(pow10(0) == 1);
        }
    } else if mantissa == 0 {
        assert(mantissa * pow10(shift) == 0) by (nonlinear_arith)
            requires
                mantissa == 0,
        ;
    } else {
        let less = mantissa * pow10((shift - 1) as nat);
        assert(mantissa * pow10(shift) == less * 10) by {
            assert(pow10(shift) == 10 * pow10((shift - 1) as nat));
            assert(mantissa * (10 * pow10((shift - 1) as nat)) == (mantissa * pow10(
                (shift - 1) as nat,
            )) * 10) by (nonlinear_arith);
        }
        pow10_is_positive((shift - 1) as nat);
        assert(less > 0) by (nonlinear_arith)
            requires
                less == mantissa * pow10((shift - 1) as nat),
                mantissa > 0,
                pow10((shift - 1) as nat) > 0,
        ;
        scaled_is_written_alike(mantissa, exponent, (shift - 1) as nat);
    }
}

/// A power of ten is not zero.
proof fn pow10_is_positive(exponent: nat)
    ensures
        pow10(exponent) > 0,
    decreases exponent,
{
    if exponent > 0 {
        pow10_is_positive((exponent - 1) as nat);
    }
}

/// A magnitude is never empty and begins with a digit.
pub proof fn magnitude_text_begins_with_digit(mantissa: nat, exponent: int)
    ensures
        magnitude_text(mantissa, exponent).len() >= 1,
        is_digit(magnitude_text(mantissa, exponent)[0]),
    decreases mantissa,
{
    if mantissa == 0 {
    } else if mantissa % 10 == 0 {
        magnitude_text_begins_with_digit(mantissa / 10, exponent + 1);
    } else {
        nat_text_is_digits(mantissa);
        assert(is_digit(nat_text(mantissa)[0]));
    }
}

/// A number is never written as nothing, and begins with a sign, a digit or
/// the first letter of `inf` or `NaN`.
pub proof fn text_begins(number: Decimal)
    ensures
        number.text().len() >= 1,
        number.text()[0] == '-' || is_digit(number.text()[0]) || number.text()[0] == 'i'
            || number.text()[0] == 'N',
{
    reveal_strlit("inf");
    reveal_strlit("NaN");
    match number {
        Decimal::Finite { negative, mantissa, exponent } => {
            magnitude_text_begins_with_digit(mantissa as nat, exponent as int);
        },
        _ => {},
    }
}

/// Moving a zero from the end of the mantissa into the exponent keeps the
/// product.
proof fn shift_keeps_product(mantissa: nat, shift: nat)
    requires
        mantissa % 10 == 0,
    ensures
        (mantissa / 10) * pow10(shift + 1) == mantissa * pow10(shift),
{
    assert(pow10(shift + 1) == 10 * pow10(shift));
    assert((mantissa / 10) * (10 * pow10(shift)) == mantissa * pow10(shift)) by (nonlinear_arith)
        requires
            mantissa % 10 == 0,
    ;
}

/// A power of ten with twenty or more zeros is beyond `u64`.
proof fn pow10_outgrows_u64(exponent: nat)
    requires
        exponent >= 20,
    ensures
        pow10(exponent) > u64::MAX,
    decreases exponent,
{
    if exponent == 20 {
        reveal_with_fuel(pow10, 21);
        assert(pow10(20) == 100_000_000_000_000_000_000nat);
    } else {
        pow10_outgrows_u64((exponent - 1) as nat);
    }
}

fn push_sign(buf: &mut String, negative: bool)
    ensures
        final(buf)@ == old(buf)@ + sign_text(negative),
{
    if negative {
        proof {
            reveal_strlit("-");
        }
        buf.append("-");
    }
    assert(buf@ =~= old(buf)@ + sign_text(negative));
}

fn push_zeros(buf: &mut String, count: usize)
    ensures
        final(buf)@ == old(buf)@ + zeros(count as nat),
{
    let mut done: usize = 0;
    while done < count
        invariant
            done <= count,
            buf@ == old(buf)@ + zeros(done as nat),
        decreases count - done,
    {
        proof {
            reveal_strlit("0");
        }
        buf.append("0");
        done = done + 1;
        assert(buf@ =~= old(buf)@ + zeros(done as nat));
    }
}

fn push_magnitude(buf: &mut String, mantissa: u64, exponent: i16)
    ensures
        final(buf)@ == old(buf)@ + magnitude_text(mantissa as nat, exponent as int),
{
    if mantissa == 0 {
        proof {
            reveal_strlit("0");
        }
        buf.append("0");
        assert(buf@ =~= old(buf)@ + magnitude_text(mantissa as nat, exponent as int));
        return ;
    }
    let mut m: u64 = mantissa;
    let mut e: i32 = exponent as i32;
    assert(m * pow10(0) == mantissa) by {
        assert(pow10(0) == 1);
    }
    while m % 10 == 0
        invariant
            m > 0,
            exponent <= e,
            m * pow10((e - exponent) as nat) == mantissa,
            magnitude_text(m as nat, e as int) == magnitude_text(mantissa as nat, exponent as int),
        decreases m,
    {
        proof {
            shift_keeps_product(m as nat, (e - exponent) as nat);
            if e - exponent >= 19 {
                pow10_outgrows_u64((e - exponent + 1) as nat);
                assert((m / 10) * pow10((e - exponent + 1) as nat) >= pow10(
                    (e - exponent + 1) as nat,
                )) by (nonlinear_arith)
                    requires
                        m / 10 >= 1,
                ;
            }
        }
        m = m / 10;
        e = e + 1;
    }
    if e >= 0 {
        push_nat(buf, m);
        push_zeros(buf, e as usize);
        assert(buf@ =~= old(buf)@ + magnitude_text(mantissa as nat, exponent as int));
    } else {
        let digits = nat_string(m);
        let places: usize = (-e) as usize;
        let len: usize = digits.as_str().unicode_len();
        if len > places {
            buf.append(digits.as_str().substring_char(0, len - places));
            proof {
                reveal_strlit(".");
            }
            buf.append(".");
            buf.append(digits.as_str().substring_char(len - places, len));
            assert(digits@.subrange(0, len - places) =~= digits@.take(len - places));
            assert(digits@.subrange(len - places, len as int) =~= digits@.skip(len - places));
        } else {
            proof {
                reveal_strlit("0.");
            }
            buf.append("0.");
            push_zeros(buf, places - len);
            buf.append(digits.as_str());
        }
        assert(buf@ =~= old(buf)@ + magnitude_text(mantissa as nat, exponent as int));
    }
}

} // verus!
