//! Reading a number back from its text.
//!
//! [`Decimal::text`] writes every canonical number in its own way, so a text
//! stands for at most one of them. [`Decimal::parse`] finds it.

use vstd::prelude::*;
use vstd::slice::slice_subrange;
use vstd::string::is_ascii_spec_bytes;
use crate::decimal::{
    magnitude_text, magnitude_text_begins_with_digit, point_text, sign_text, zeros, Decimal,
};
use crate::text::{digit_char, digit_value, is_digit, nat_text, nat_text_is_digits};

verus! {

/// Whether `digits` holds nothing but digits.
pub open spec fn all_digits(digits: Seq<char>) -> bool {
    forall|i: int| 0 <= i < digits.len() ==> is_digit(#[trigger] digits[i])
}

/// The number that `digits` writes, leading zeros allowed; zero for no
/// digits at all.
pub open spec fn digits_value(digits: Seq<char>) -> nat
    decreases digits.len(),
{
    if digits.len() == 0 {
        0
    } else {
        digits_value(digits.drop_last()) * 10 + digit_value(digits.last())
    }
}

/// Where the run of digits that begins at `from` ends: the place of the
/// first character behind it, or the length of `text`.
pub open spec fn digits_end(text: Seq<char>, from: int) -> int
    decreases text.len() - from,
{
    if 0 <= from < text.len() && is_digit(text[from]) {
        digits_end(text, from + 1)
    } else {
        from
    }
}

/// How many zeros `digits` ends with.
pub open spec fn zeros_at_end(digits: Seq<char>) -> nat
    decreases digits.len(),
{
    if digits.len() > 0 && digits.last() == '0' {
        1 + zeros_at_end(digits.drop_last())
    } else {
        0
    }
}

/// The mantissa and the exponent that `body` writes, if it is written as
/// [`magnitude_text`] writes: a whole number without a leading zero, or a
/// whole part, a point and a fraction that does not end in a zero.
pub open spec fn read_magnitude(body: Seq<char>) -> Option<(nat, int)> {
    let point = digits_end(body, 0);
    if point == 0 {
        None
    } else if body[0] == '0' && point > 1 {
        None
    } else if point == body.len() {
        if body[0] == '0' {
            Some((0nat, 0int))
        } else {
            let shift = zeros_at_end(body);
            Some((digits_value(body.take(body.len() - shift)), shift as int))
        }
    } else if body[point] != '.' {
        None
    } else {
        let fraction = body.skip(point + 1);
        if fraction.len() == 0 || !all_digits(fraction) || fraction.last() == '0' {
            None
        } else {
            Some((digits_value(body.take(point) + fraction), -(fraction.len() as int)))
        }
    }
}

/// The canonical number that `text` writes, if there is one that fits.
pub open spec fn read(text: Seq<char>) -> Option<Decimal> {
    if text == "NaN"@ {
        Some(Decimal::NotANumber)
    } else if text == "inf"@ {
        Some(Decimal::Infinite { negative: false })
    } else if text == "-inf"@ {
        Some(Decimal::Infinite { negative: true })
    } else {
        let negative = text.len() > 0 && text[0] == '-';
        let body = if negative {
            text.skip(1)
        } else {
            text
        };
        match read_magnitude(body) {
            Some((mantissa, exponent)) => if mantissa <= u64::MAX && i16::MIN <= exponent
                <= i16::MAX {
                Some(
                    Decimal::Finite {
                        negative,
                        mantissa: mantissa as u64,
                        exponent: exponent as i16,
                    },
                )
            } else {
                None
            },
            None => None,
        }
    }
}

/// A run of digits ends where the first character that is no digit stands.
proof fn digits_end_found(text: Seq<char>, from: int, end: int)
    requires
        0 <= from <= end <= text.len(),
        forall|i: int| from <= i < end ==> is_digit(#[trigger] text[i]),
        end < text.len() ==> !is_digit(text[end]),
    ensures
        digits_end(text, from) == end,
    decreases end - from,
{
    if from < end {
        assert(is_digit(text[from]));
        digits_end_found(text, from + 1, end);
    }
}

/// Reading what was written gives the number back.
pub proof fn value_of_nat_text(n: nat)
    ensures
        digits_value(nat_text(n)) == n,
    decreases n,
{
    let digits = nat_text(n);
    if n < 10 {
        assert(digits.drop_last() =~= Seq::<char>::empty());
        assert(digits_value(digits.drop_last()) == 0);
        assert(digits.last() == digit_char(n));
    } else {
        value_of_nat_text(n / 10);
        assert(digits.drop_last() =~= nat_text(n / 10));
        assert(digits.last() == digit_char(n % 10));
    }
}

/// Digits that begin with a digit other than zero write a number other than
/// zero.
proof fn value_is_positive(digits: Seq<char>)
    requires
        all_digits(digits),
        digits.len() > 0,
        digits[0] != '0',
    ensures
        digits_value(digits) > 0,
    decreases digits.len(),
{
    if digits.len() > 1 {
        assert(all_digits(digits.drop_last())) by {
            assert forall|i: int| 0 <= i < digits.drop_last().len() implies is_digit(
                #[trigger] digits.drop_last()[i],
            ) by {
                assert(is_digit(digits[i]));
            }
        }
        value_is_positive(digits.drop_last());
    } else {
        assert(is_digit(digits[0]));
        assert(digits.last() == digits[0]);
    }
}

/// Writing what was read gives the digits back, if they had no leading
/// zero.
pub proof fn nat_text_of_value(digits: Seq<char>)
    requires
        all_digits(digits),
        digits.len() > 0,
        digits[0] != '0' || digits.len() == 1,
    ensures
        nat_text(digits_value(digits)) == digits,
    decreases digits.len(),
{
    let last = digits.last();
    assert(is_digit(last));
    assert(digit_char(digit_value(last)) == last);
    if digits.len() == 1 {
        assert(digits.drop_last() =~= Seq::<char>::empty());
        assert(digits_value(digits.drop_last()) == 0);
        assert(nat_text(digits_value(digits)) =~= digits);
    } else {
        let front = digits.drop_last();
        assert(all_digits(front)) by {
            assert forall|i: int| 0 <= i < front.len() implies is_digit(#[trigger] front[i]) by {
                assert(is_digit(digits[i]));
            }
        }
        assert(front[0] == digits[0]);
        value_is_positive(front);
        nat_text_of_value(front);
        let value = digits_value(digits);
        assert(value == digits_value(front) * 10 + digit_value(last));
        assert(value / 10 == digits_value(front));
        assert(value % 10 == digit_value(last));
        assert(nat_text(value) =~= digits);
    }
}

/// Zeros in front do not change what digits write.
proof fn value_skips_leading_zeros(count: nat, digits: Seq<char>)
    ensures
        digits_value(zeros(count) + digits) == digits_value(digits),
    decreases digits.len(), count,
{
    if digits.len() > 0 {
        assert((zeros(count) + digits).drop_last() =~= zeros(count) + digits.drop_last());
        value_skips_leading_zeros(count, digits.drop_last());
    } else if count > 0 {
        assert(zeros(count) + digits =~= zeros(count));
        assert(zeros(count).drop_last() =~= zeros((count - 1) as nat));
        assert(zeros((count - 1) as nat) + digits =~= zeros((count - 1) as nat));
        value_skips_leading_zeros((count - 1) as nat, digits);
    } else {
        assert(zeros(count) + digits =~= digits);
    }
}

/// The first digits of a number write no more than all of them.
proof fn value_grows_with_digits(digits: Seq<char>, count: int)
    requires
        0 <= count <= digits.len(),
    ensures
        digits_value(digits.take(count)) <= digits_value(digits),
    decreases digits.len() - count,
{
    if count < digits.len() {
        value_grows_with_digits(digits, count + 1);
        assert(digits.take(count + 1).drop_last() =~= digits.take(count));
    } else {
        assert(digits.take(count) =~= digits);
    }
}

/// What the zeros at the end are: the last characters are zeros, as many as
/// counted, and the character in front of them is none.
proof fn zeros_at_end_split(digits: Seq<char>)
    ensures
        zeros_at_end(digits) <= digits.len(),
        digits.skip(digits.len() - zeros_at_end(digits)) == zeros(zeros_at_end(digits)),
        zeros_at_end(digits) < digits.len() ==> digits[digits.len() - zeros_at_end(digits) - 1]
            != '0',
    decreases digits.len(),
{
    if digits.len() > 0 && digits.last() == '0' {
        let front = digits.drop_last();
        zeros_at_end_split(front);
        let count = zeros_at_end(front);
        let tail = digits.skip(digits.len() - (count + 1));
        assert(tail =~= zeros(count + 1)) by {
            assert forall|i: int| 0 <= i < count + 1 implies #[trigger] tail[i] == '0' by {
                if i < count {
                    assert(front.skip(front.len() - count)[i] == '0');
                }
            }
        }
    } else {
        assert(digits.skip(digits.len() as int) =~= zeros(0));
    }
}

/// Digits that do not end in a zero, with zeros behind them, end with
/// exactly those zeros.
proof fn zeros_at_end_counted(digits: Seq<char>, count: nat)
    requires
        digits.len() > 0,
        digits.last() != '0',
    ensures
        zeros_at_end(digits + zeros(count)) == count,
    decreases count,
{
    let whole = digits + zeros(count);
    if count > 0 {
        assert(whole.last() == '0');
        assert(whole.drop_last() =~= digits + zeros((count - 1) as nat));
        zeros_at_end_counted(digits, (count - 1) as nat);
    } else {
        assert(whole =~= digits);
    }
}

/// How many zeros `digits` begins with.
pub open spec fn zeros_in_front(digits: Seq<char>) -> nat
    decreases digits.len(),
{
    if digits.len() > 0 && digits[0] == '0' {
        1 + zeros_in_front(digits.skip(1))
    } else {
        0
    }
}

/// What the zeros in front are: the first characters are zeros, as many as
/// counted, and the character behind them is none.
proof fn zeros_in_front_split(digits: Seq<char>)
    ensures
        zeros_in_front(digits) <= digits.len(),
        digits.take(zeros_in_front(digits) as int) == zeros(zeros_in_front(digits)),
        zeros_in_front(digits) < digits.len() ==> digits[zeros_in_front(digits) as int] != '0',
    decreases digits.len(),
{
    if digits.len() > 0 && digits[0] == '0' {
        let rest = digits.skip(1);
        zeros_in_front_split(rest);
        let count = zeros_in_front(rest);
        let head = digits.take(count + 1 as int);
        assert(head =~= zeros(count + 1)) by {
            assert forall|i: int| 0 <= i < count + 1 implies #[trigger] head[i] == '0' by {
                if i > 0 {
                    assert(rest.take(count as int)[i - 1] == '0');
                }
            }
        }
    } else {
        assert(digits.take(0) =~= zeros(0));
    }
}

/// The run of digits from `from` on holds digits only and ends in front of
/// a character that is none, or at the end of the text.
proof fn digits_end_bounds(text: Seq<char>, from: int)
    requires
        0 <= from <= text.len(),
    ensures
        from <= digits_end(text, from) <= text.len(),
        forall|i: int| from <= i < digits_end(text, from) ==> is_digit(#[trigger] text[i]),
        digits_end(text, from) < text.len() ==> !is_digit(text[digits_end(text, from)]),
    decreases text.len() - from,
{
    if from < text.len() && is_digit(text[from]) {
        digits_end_bounds(text, from + 1);
    }
}

/// What [`read_magnitude`] reads is canonical, and written out it is the
/// text that was read.
pub proof fn read_magnitude_sound(body: Seq<char>)
    ensures
        read_magnitude(body) matches Some((mantissa, exponent)) ==> {
            &&& mantissa == 0 ==> exponent == 0
            &&& mantissa != 0 ==> mantissa % 10 != 0
            &&& magnitude_text(mantissa, exponent) == body
        },
{
    if read_magnitude(body) is Some {
        read_magnitude_holds(body);
    }
}

proof fn read_magnitude_holds(body: Seq<char>)
    requires
        read_magnitude(body) is Some,
    ensures
        read_magnitude(body) matches Some((mantissa, exponent)) ==> {
            &&& mantissa == 0 ==> exponent == 0
            &&& mantissa != 0 ==> mantissa % 10 != 0
            &&& magnitude_text(mantissa, exponent) == body
        },
{
    let point = digits_end(body, 0);
    digits_end_bounds(body, 0);
    let found = read_magnitude(body)->0;
    let mantissa = found.0;
    let exponent = found.1;
    if point == body.len() {
        if body[0] == '0' {
            assert(body =~= seq!['0']);
        } else {
            let shift = zeros_at_end(body);
            zeros_at_end_split(body);
            if shift == body.len() {
                assert(body.skip(0)[0] == '0');
            }
            let front = body.take(body.len() - shift);
            assert(all_digits(front)) by {
                assert forall|i: int| 0 <= i < front.len() implies is_digit(#[trigger] front[i]) by {
                    assert(is_digit(body[i]));
                }
            }
            assert(front[0] == body[0]);
            assert(front.last() == body[body.len() - shift - 1]);
            assert(is_digit(front.last()));
            nat_text_of_value(front);
            value_is_positive(front);
            assert(mantissa % 10 == digit_value(front.last()));
            assert(magnitude_text(mantissa, exponent) == nat_text(mantissa) + zeros(shift));
            assert(front + body.skip(body.len() - shift) =~= body);
        }
    } else {
        let whole = body.take(point);
        let fraction = body.skip(point + 1);
        let digits = whole + fraction;
        let places = fraction.len();
        assert(digits.last() == fraction.last());
        assert(is_digit(fraction.last()));
        assert(mantissa % 10 == digit_value(digits.last()));
        assert(is_digit(body[0]));
        if body[0] != '0' {
            assert(all_digits(digits)) by {
                assert forall|i: int| 0 <= i < digits.len() implies is_digit(
                    #[trigger] digits[i],
                ) by {
                    if i < point {
                        assert(is_digit(body[i]));
                    } else {
                        assert(is_digit(fraction[i - point]));
                    }
                }
            }
            assert(digits[0] == body[0]);
            nat_text_of_value(digits);
            assert(digits.take(digits.len() - places) =~= whole);
            assert(digits.skip(digits.len() - places) =~= fraction);
            assert(whole + seq!['.'] + fraction =~= body);
            assert(magnitude_text(mantissa, exponent) == point_text(digits, places));
        } else {
            assert(point == 1);
            let gap = zeros_in_front(fraction);
            zeros_in_front_split(fraction);
            if gap == fraction.len() {
                assert(fraction.take(gap as int)[gap - 1] == '0');
            }
            let rest = fraction.skip(gap as int);
            assert(all_digits(rest)) by {
                assert forall|i: int| 0 <= i < rest.len() implies is_digit(#[trigger] rest[i]) by {
                    assert(is_digit(fraction[i + gap]));
                }
            }
            assert(rest[0] == fraction[gap as int]);
            assert(digits =~= zeros(gap + 1) + rest) by {
                assert forall|i: int| 0 <= i < digits.len() implies #[trigger] digits[i] == (zeros(
                    gap + 1,
                ) + rest)[i] by {
                    if 1 <= i <= gap {
                        assert(fraction.take(gap as int)[i - 1] == '0');
                    }
                }
            }
            value_skips_leading_zeros(gap + 1, rest);
            nat_text_of_value(rest);
            assert(magnitude_text(mantissa, exponent) == point_text(rest, places));
            assert(seq!['0', '.'] + zeros((places - rest.len()) as nat) + rest =~= body) by {
                assert forall|i: int| 0 <= i < body.len() implies (seq!['0', '.'] + zeros(
                    (places - rest.len()) as nat,
                ) + rest)[i] == #[trigger] body[i] by {
                    if 2 <= i < 2 + gap {
                        assert(fraction.take(gap as int)[i - 2] == '0');
                        assert(fraction[i - 2] == body[i]);
                    } else if i >= 2 + gap {
                        assert(rest[i - 2 - gap] == fraction[i - 2]);
                        assert(fraction[i - 2] == body[i]);
                    }
                }
            }
        }
    }
}

/// What [`magnitude_text`] writes of a canonical number, [`read_magnitude`]
/// reads back.
pub proof fn read_magnitude_complete(mantissa: nat, exponent: int)
    requires
        mantissa == 0 ==> exponent == 0,
        mantissa != 0 ==> mantissa % 10 != 0,
    ensures
        read_magnitude(magnitude_text(mantissa, exponent)) == Some((mantissa, exponent)),
{
    let body = magnitude_text(mantissa, exponent);
    if mantissa == 0 {
        digits_end_found(body, 0, 1);
    } else {
        let digits = nat_text(mantissa);
        nat_text_is_digits(mantissa);
        value_of_nat_text(mantissa);
        assert(digit_char(mantissa % 10) != '0');
        if exponent >= 0 {
            let shift = exponent as nat;
            assert(body == digits + zeros(shift));
            assert forall|i: int| 0 <= i < body.len() implies is_digit(#[trigger] body[i]) by {
                if i < digits.len() {
                    assert(is_digit(digits[i]));
                }
            }
            digits_end_found(body, 0, body.len() as int);
            assert(body[0] == digits[0]);
            zeros_at_end_counted(digits, shift);
            assert(body.take(body.len() - shift) =~= digits);
        } else {
            let places = (-exponent) as nat;
            assert(body == point_text(digits, places));
            if digits.len() > places {
                let point = digits.len() - places;
                assert forall|i: int| 0 <= i < point implies is_digit(#[trigger] body[i]) by {
                    assert(is_digit(digits[i]));
                }
                assert(body[point] == '.');
                digits_end_found(body, 0, point);
                assert(body[0] == digits[0]);
                let fraction = body.skip(point + 1);
                assert(fraction =~= digits.skip(point));
                assert(all_digits(fraction)) by {
                    assert forall|i: int| 0 <= i < fraction.len() implies is_digit(
                        #[trigger] fraction[i],
                    ) by {
                        assert(is_digit(digits[i + point]));
                    }
                }
                assert(fraction.last() == digits.last());
                assert(body.take(point) + fraction =~= digits);
            } else {
                let gap = (places - digits.len()) as nat;
                assert(body[0] == '0');
                assert(body[1] == '.');
                digits_end_found(body, 0, 1);
                let fraction = body.skip(2);
                assert(fraction =~= zeros(gap) + digits);
                assert(all_digits(fraction)) by {
                    assert forall|i: int| 0 <= i < fraction.len() implies is_digit(
                        #[trigger] fraction[i],
                    ) by {
                        if i >= gap {
                            assert(is_digit(digits[i - gap]));
                        }
                    }
                }
                assert(fraction.last() == digits.last());
                assert(body.take(1) + fraction =~= zeros(gap + 1) + digits);
                value_skips_leading_zeros(gap + 1, digits);
            }
        }
    }
}

/// What [`read`] reads is canonical, and written out it is the text that
/// was read.
pub proof fn read_sound(text: Seq<char>)
    ensures
        read(text) matches Some(number) ==> number.is_canonical() && number.text() == text,
{
    reveal_strlit("inf");
    reveal_strlit("-inf");
    if text == "NaN"@ {
    } else if text == "inf"@ {
        assert(sign_text(false) + "inf"@ =~= "inf"@);
    } else if text == "-inf"@ {
        assert(sign_text(true) + "inf"@ =~= "-inf"@);
    } else if read(text) is Some {
        let negative = text.len() > 0 && text[0] == '-';
        let body = if negative {
            text.skip(1)
        } else {
            text
        };
        read_magnitude_sound(body);
        assert(sign_text(negative) + body =~= text);
    }
}

/// What [`Decimal::text`] writes of a canonical number, [`read`] reads
/// back.
pub proof fn read_complete(number: Decimal)
    requires
        number.is_canonical(),
    ensures
        read(number.text()) == Some(number),
{
    reveal_strlit("NaN");
    reveal_strlit("inf");
    reveal_strlit("-inf");
    let text = number.text();
    match number {
        Decimal::NotANumber => {},
        Decimal::Infinite { negative } => {
            if negative {
                assert(text =~= "-inf"@);
                assert(text.len() != "NaN"@.len());
            } else {
                assert(text =~= "inf"@);
                assert(text[0] != "NaN"@[0]);
            }
        },
        Decimal::Finite { negative, mantissa, exponent } => {
            let body = magnitude_text(mantissa as nat, exponent as int);
            magnitude_text_begins_with_digit(mantissa as nat, exponent as int);
            read_magnitude_complete(mantissa as nat, exponent as int);
            if negative {
                assert(text[0] == '-');
                assert(text[1] == body[0]);
                assert(text[0] != "NaN"@[0]);
                assert(text[0] != "inf"@[0]);
                assert(text[1] != "-inf"@[1]);
                assert(text.skip(1) =~= body);
            } else {
                assert(text =~= body);
                assert(text[0] != "NaN"@[0]);
                assert(text[0] != "inf"@[0]);
                assert(text[0] != "-inf"@[0]);
            }
        },
    }
}

/// No two canonical numbers are written alike.
pub proof fn text_is_injective(one: Decimal, other: Decimal)
    requires
        one.is_canonical(),
        other.is_canonical(),
        one.text() == other.text(),
    ensures
        one == other,
{
    read_complete(one);
    read_complete(other);
}

/// The characters that bytes stand for, each byte a character of its own.
pub open spec fn chars_of(bytes: Seq<u8>) -> Seq<char> {
    Seq::new(bytes.len(), |i: int| bytes[i] as char)
}

/// The byte of the digit `0`.
const ZERO: u8 = 48;

/// The byte of the digit `9`.
const NINE: u8 = 57;

/// The byte of the decimal point.
const POINT: u8 = 46;

/// The byte of the sign `-`.
const MINUS: u8 = 45;

/// The byte of the letter `N`.
const UPPER_N: u8 = 78;

/// The byte of the letter `a`.
const LOWER_A: u8 = 97;

/// The byte of the letter `i`.
const LOWER_I: u8 = 105;

/// The byte of the letter `n`.
const LOWER_N: u8 = 110;

/// The byte of the letter `f`.
const LOWER_F: u8 = 102;

fn is_digit_byte(byte: u8) -> (digit: bool)
    ensures
        digit == is_digit(byte as char),
{
    ZERO <= byte && byte <= NINE
}

/// Finds the end of the run of digits that begins at `from`.
fn digit_run_end(bytes: &[u8], from: usize) -> (end: usize)
    requires
        from <= bytes@.len(),
    ensures
        end == digits_end(chars_of(bytes@), from as int),
        from <= end <= bytes@.len(),
{
    let mut end: usize = from;
    while end < bytes.len() && is_digit_byte(bytes[end])
        invariant
            from <= end <= bytes@.len(),
            forall|i: int| from <= i < end ==> is_digit(#[trigger] chars_of(bytes@)[i]),
        decreases bytes@.len() - end,
    {
        end = end + 1;
    }
    proof {
        digits_end_found(chars_of(bytes@), from as int, end as int);
    }
    end
}

/// Counts the zeros that `bytes` ends with.
fn count_zeros_at_end(bytes: &[u8]) -> (count: usize)
    ensures
        count == zeros_at_end(chars_of(bytes@)),
{
    let ghost chars = chars_of(bytes@);
    let mut rest: usize = bytes.len();
    assert(chars.take(rest as int) =~= chars);
    while rest > 0 && bytes[rest - 1] == ZERO
        invariant
            rest <= bytes@.len(),
            chars == chars_of(bytes@),
            zeros_at_end(chars) == zeros_at_end(chars.take(rest as int)) + (bytes@.len() - rest),
        decreases rest,
    {
        proof {
            assert(chars.take(rest as int).last() == '0');
            assert(chars.take(rest as int).drop_last() =~= chars.take(rest - 1));
        }
        rest = rest - 1;
    }
    proof {
        assert(chars.take(bytes@.len() as int) =~= chars);
        if rest > 0 {
            assert(chars.take(rest as int).last() == chars[rest - 1]);
        }
    }
    bytes.len() - rest
}

/// Reads the digits from `from` up to `to` on top of the number read so
/// far. Gives up when the number no longer fits.
fn read_digits(bytes: &[u8], from: usize, to: usize, so_far: u64, Ghost(front): Ghost<
    Seq<char>,
>) -> (value: Option<u64>)
    requires
        from <= to <= bytes@.len(),
        forall|i: int| from <= i < to ==> is_digit(#[trigger] chars_of(bytes@)[i]),
        so_far == digits_value(front),
    ensures
        match value {
            Some(value) => value == digits_value(
                front + chars_of(bytes@).subrange(from as int, to as int),
            ),
            None => digits_value(front + chars_of(bytes@).subrange(from as int, to as int))
                > u64::MAX,
        },
{
    let ghost chars = chars_of(bytes@);
    let ghost all = front + chars.subrange(from as int, to as int);
    let mut value: u64 = so_far;
    let mut at: usize = from;
    proof {
        assert(front + chars.subrange(from as int, from as int) =~= front);
    }
    while at < to
        invariant
            from <= at <= to <= bytes@.len(),
            chars == chars_of(bytes@),
            all == front + chars.subrange(from as int, to as int),
            forall|i: int| from <= i < to ==> is_digit(#[trigger] chars[i]),
            value == digits_value(front + chars.subrange(from as int, at as int)),
        decreases to - at,
    {
        let ghost read = front + chars.subrange(from as int, at as int);
        let ghost next = front + chars.subrange(from as int, at + 1);
        proof {
            assert(next.drop_last() =~= read);
            assert(next.last() == chars[at as int]);
            assert(is_digit(chars[at as int]));
            assert(all.take(front.len() + at + 1 - from) =~= next);
            value_grows_with_digits(all, front.len() + at + 1 - from);
        }
        let digit: u64 = (bytes[at] - ZERO) as u64;
        assert(digit == digit_value(chars[at as int]));
        match value.checked_mul(10) {
            Some(tens) => match tens.checked_add(digit) {
                Some(sum) => {
                    value = sum;
                },
                None => {
                    return None;
                },
            },
            None => {
                return None;
            },
        }
        at = at + 1;
    }
    Some(value)
}

/// Reads a magnitude. `None` where the text is none, or where the mantissa
/// or the exponent does not fit.
fn parse_magnitude(body: &[u8]) -> (found: Option<(u64, i16)>)
    ensures
        match read_magnitude(chars_of(body@)) {
            Some((mantissa, exponent)) => if mantissa <= u64::MAX && i16::MIN <= exponent
                <= i16::MAX {
                found == Some((mantissa as u64, exponent as i16))
            } else {
                found is None
            },
            None => found is None,
        },
{
    let ghost chars = chars_of(body@);
    let len = body.len();
    let point = digit_run_end(body, 0);
    proof {
        digits_end_bounds(chars, 0);
    }
    if point == 0 {
        return None;
    }
    if body[0] == ZERO && point > 1 {
        return None;
    }
    if point == len {
        if body[0] == ZERO {
            return Some((0, 0));
        }
        let shift = count_zeros_at_end(body);
        proof {
            zeros_at_end_split(chars);
            if shift == len {
                assert(chars.skip(0)[0] == '0');
            }
            assert(chars.subrange(0, len - shift) =~= chars.take(len - shift));
            assert(Seq::<char>::empty() + chars.subrange(0, len - shift) =~= chars.take(
                len - shift,
            ));
            assert(digits_value(Seq::<char>::empty()) == 0);
        }
        let mantissa = read_digits(body, 0, len - shift, 0, Ghost(Seq::empty()));
        match mantissa {
            Some(mantissa) => {
                if shift > 32767 {
                    None
                } else {
                    Some((mantissa, shift as i16))
                }
            },
            None => None,
        }
    } else {
        if body[point] != POINT {
            return None;
        }
        let end = digit_run_end(body, point + 1);
        let ghost fraction = chars.skip(point + 1);
        proof {
            digits_end_bounds(chars, point + 1);
            if end == len {
                assert forall|i: int| 0 <= i < fraction.len() implies is_digit(
                    #[trigger] fraction[i],
                ) by {
                    assert(is_digit(chars[i + point + 1]));
                }
            } else {
                assert(!is_digit(fraction[end - point - 1]));
            }
            if fraction.len() > 0 {
                assert(fraction.last() == chars[len - 1]);
            }
        }
        if end != len || point + 1 == len || body[len - 1] == ZERO {
            return None;
        }
        let ghost whole = chars.take(point as int);
        proof {
            assert(Seq::<char>::empty() + chars.subrange(0, point as int) =~= whole);
            assert(digits_value(Seq::<char>::empty()) == 0);
            assert(chars.subrange(point + 1, len as int) =~= fraction);
            assert((whole + fraction).take(point as int) =~= whole);
            value_grows_with_digits(whole + fraction, point as int);
        }
        let whole_value = read_digits(body, 0, point, 0, Ghost(Seq::empty()));
        match whole_value {
            Some(whole_value) => {
                let mantissa = read_digits(body, point + 1, len, whole_value, Ghost(whole));
                let places = len - point - 1;
                match mantissa {
                    Some(mantissa) => {
                        if places > 32768 {
                            None
                        } else {
                            Some((mantissa, (-(places as i32)) as i16))
                        }
                    },
                    None => None,
                }
            },
            None => None,
        }
    }
}

impl Decimal {
    /// Reads a number from `text`.
    ///
    /// The result is the canonical number that [`Decimal::text`] writes as
    /// `text`. There is at most one; where there is none, the result is
    /// `None`.
    pub fn parse(text: &str) -> (number: Option<Decimal>)
        ensures
            number == read(text@),
            number matches Some(number) ==> number.is_canonical() && number.text() == text@,
            number is None ==> forall|other: Decimal|
                other.is_canonical() ==> #[trigger] other.text() != text@,
    {
        proof {
            read_sound(text@);
            assert forall|other: Decimal|
                other.is_canonical() && #[trigger] other.text() == text@ implies read(text@)
                is Some by {
                read_complete(other);
            }
        }
        if !text.is_ascii() {
            proof {
                if let Some(number) = read(text@) {
                    text_is_ascii(number);
                }
            }
            return None;
        }
        let bytes = text.as_bytes();
        let len = bytes.len();
        proof {
            is_ascii_spec_bytes(text);
            assert(chars_of(bytes@) =~= text@);
            reveal_strlit("NaN");
            reveal_strlit("inf");
            reveal_strlit("-inf");
        }
        if len == 3 && bytes[0] == UPPER_N && bytes[1] == LOWER_A && bytes[2] == UPPER_N {
            assert(text@ =~= "NaN"@);
            return Some(Decimal::NotANumber);
        }
        if len == 3 && bytes[0] == LOWER_I && bytes[1] == LOWER_N && bytes[2] == LOWER_F {
            assert(text@ =~= "inf"@);
            return Some(Decimal::Infinite { negative: false });
        }
        if len == 4 && bytes[0] == MINUS && bytes[1] == LOWER_I && bytes[2] == LOWER_N
            && bytes[3] == LOWER_F {
            assert(text@ =~= "-inf"@);
            return Some(Decimal::Infinite { negative: true });
        }
        let negative = len > 0 && bytes[0] == MINUS;
        let start: usize = if negative {
            1
        } else {
            0
        };
        let body = slice_subrange(bytes, start, len);
        proof {
            assert(chars_of(body@) =~= text@.skip(start as int));
            assert(text@.skip(0) =~= text@);
        }
        match parse_magnitude(body) {
            Some((mantissa, exponent)) => Some(Decimal::Finite { negative, mantissa, exponent }),
            None => None,
        }
    }
}

/// A number is written in ASCII.
pub proof fn text_is_ascii(number: Decimal)
    ensures
        vstd::utf8::is_ascii_chars(number.text()),
{
    reveal_strlit("NaN");
    reveal_strlit("inf");
    match number {
        Decimal::Finite { negative, mantissa, exponent } => {
            magnitude_text_is_plain(mantissa as nat, exponent as int);
        },
        _ => {},
    }
}

/// A magnitude holds digits and at most one point, nothing else.
proof fn magnitude_text_is_plain(mantissa: nat, exponent: int)
    ensures
        forall|i: int|
            0 <= i < magnitude_text(mantissa, exponent).len() ==> is_digit(
                #[trigger] magnitude_text(mantissa, exponent)[i],
            ) || magnitude_text(mantissa, exponent)[i] == '.',
    decreases mantissa,
{
    if mantissa == 0 {
        assert(is_digit('0'));
    } else if mantissa % 10 == 0 {
        magnitude_text_is_plain(mantissa / 10, exponent + 1);
        assert(magnitude_text(mantissa, exponent) == magnitude_text(mantissa / 10, exponent + 1));
    } else {
        nat_text_is_digits(mantissa);
        let digits = nat_text(mantissa);
        let text = magnitude_text(mantissa, exponent);
        assert forall|i: int| 0 <= i < text.len() implies is_digit(#[trigger] text[i]) || text[i]
            == '.' by {
            if exponent >= 0 {
                if i < digits.len() {
                    assert(is_digit(digits[i]));
                }
            } else {
                let places = (-exponent) as nat;
                if digits.len() > places {
                    let point = digits.len() - places;
                    if i < point {
                        assert(is_digit(digits[i]));
                    } else if i > point {
                        assert(is_digit(digits[i - 1]));
                    }
                } else {
                    let gap = places - digits.len();
                    if i >= 2 + gap {
                        assert(is_digit(digits[i - 2 - gap]));
                    }
                }
            }
        }
    }
}

} // verus!
