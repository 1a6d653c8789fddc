use hlwsp::decimal::Decimal;

fn finite(negative: bool, mantissa: u64, exponent: i16) -> Decimal {
    Decimal::Finite { negative, mantissa, exponent }
}

fn is_canonical(number: &Decimal) -> bool {
    match number {
        Decimal::Finite { mantissa: 0, exponent, .. } => *exponent == 0,
        Decimal::Finite { mantissa, .. } => mantissa % 10 != 0,
        _ => true,
    }
}

fn assert_round_trip(value: f32) {
    let text = value.to_string();
    let number = Decimal::parse(&text);
    let number = match number {
        Some(number) => number,
        None => panic!("{} was not read", text),
    };
    assert!(is_canonical(&number), "{:?} read from {}", number, text);
    assert_eq!(number.to_string(), text);
}

#[test]
fn parse_whole_numbers() {
    assert_eq!(Decimal::parse("0"), Some(finite(false, 0, 0)));
    assert_eq!(Decimal::parse("1"), Some(finite(false, 1, 0)));
    assert_eq!(Decimal::parse("60"), Some(finite(false, 6, 1)));
    assert_eq!(Decimal::parse("144"), Some(finite(false, 144, 0)));
    assert_eq!(Decimal::parse("1200"), Some(finite(false, 12, 2)));
    assert_eq!(Decimal::parse("1002"), Some(finite(false, 1002, 0)));
    assert_eq!(
        Decimal::parse("340282350000000000000000000000000000000"),
        Some(finite(false, 34028235, 31))
    );
}

#[test]
fn parse_fractions() {
    assert_eq!(Decimal::parse("1.5"), Some(finite(false, 15, -1)));
    assert_eq!(Decimal::parse("172.8"), Some(finite(false, 1728, -1)));
    assert_eq!(Decimal::parse("59.94"), Some(finite(false, 5994, -2)));
    assert_eq!(Decimal::parse("0.5"), Some(finite(false, 5, -1)));
    assert_eq!(Decimal::parse("0.05"), Some(finite(false, 5, -2)));
    assert_eq!(Decimal::parse("0.00123"), Some(finite(false, 123, -5)));
    assert_eq!(Decimal::parse("10.01"), Some(finite(false, 1001, -2)));
    assert_eq!(Decimal::parse("100.001"), Some(finite(false, 100001, -3)));
}

#[test]
fn parse_signs() {
    assert_eq!(Decimal::parse("-1.5"), Some(finite(true, 15, -1)));
    assert_eq!(Decimal::parse("-0"), Some(finite(true, 0, 0)));
    assert_eq!(Decimal::parse("-2500"), Some(finite(true, 25, 2)));
    assert_eq!(Decimal::parse("-0.25"), Some(finite(true, 25, -2)));
}

#[test]
fn parse_names() {
    assert_eq!(Decimal::parse("NaN"), Some(Decimal::NotANumber));
    assert_eq!(Decimal::parse("inf"), Some(Decimal::Infinite { negative: false }));
    assert_eq!(Decimal::parse("-inf"), Some(Decimal::Infinite { negative: true }));
}

#[test]
fn parse_refuses_what_is_never_written() {
    let refused = [
        "", "-", ".", "-.", "1.", ".5", "-.5", "01", "00", "007", "0.0", "1.0", "1.50", "-1.0",
        "+1", "1e5", "1E5", " 1", "1 ", "1 2", "--1", "-+1", "1-", "1..2", "1.2.3", "1,5",
        "NaNx", "nan", "NAN", "-NaN", "Inf", "INF", "infinity", "+inf", "-Inf", "in", "-in",
        "0x10", "١", "1\u{0661}", "½", "1.5\u{00a0}", "é",
    ];
    for text in refused {
        assert_eq!(Decimal::parse(text), None, "{:?}", text);
    }
}

#[test]
fn parse_mantissa_limit() {
    assert_eq!(Decimal::parse("18446744073709551615"), Some(finite(false, u64::MAX, 0)));
    assert_eq!(Decimal::parse("18446744073709551616"), None);
    assert_eq!(Decimal::parse("18446744073709551617"), None);
    assert_eq!(Decimal::parse("99999999999999999999"), None);
    assert_eq!(Decimal::parse("184467440737095516150"), Some(finite(false, u64::MAX, 1)));
    assert_eq!(Decimal::parse("1844674407370955161.5"), Some(finite(false, u64::MAX, -1)));
    assert_eq!(Decimal::parse("1844674407370955161.6"), None);
    assert_eq!(Decimal::parse("0.18446744073709551615"), Some(finite(false, u64::MAX, -20)));
    assert_eq!(Decimal::parse("0.018446744073709551615"), Some(finite(false, u64::MAX, -21)));
    assert_eq!(Decimal::parse("0.18446744073709551617"), None);
    assert_eq!(
        Decimal::parse("100000000000000000000000000000001"),
        None
    );
    assert_eq!(
        Decimal::parse("100000000000000000000000000000000"),
        Some(finite(false, 1, 32))
    );
}

#[test]
fn parse_exponent_limits() {
    let most_zeros = format!("7{}", "0".repeat(32767));
    assert_eq!(Decimal::parse(&most_zeros), Some(finite(false, 7, i16::MAX)));
    let too_many_zeros = format!("7{}", "0".repeat(32768));
    assert_eq!(Decimal::parse(&too_many_zeros), None);
    let most_places = format!("0.{}7", "0".repeat(32767));
    assert_eq!(Decimal::parse(&most_places), Some(finite(false, 7, i16::MIN)));
    let too_many_places = format!("0.{}7", "0".repeat(32768));
    assert_eq!(Decimal::parse(&too_many_places), None);
}

#[test]
fn parse_inverts_to_string() {
    let numbers = [
        finite(false, 0, 0),
        finite(true, 0, 0),
        finite(false, 1, 0),
        finite(false, 1, 5),
        finite(false, 1, -5),
        finite(true, 123456789, -4),
        finite(true, 123456789, -9),
        finite(true, 123456789, -12),
        finite(false, u64::MAX, 0),
        finite(false, u64::MAX, i16::MAX),
        finite(false, u64::MAX, i16::MIN),
        finite(false, 3, i16::MAX),
        finite(false, 3, i16::MIN),
        Decimal::NotANumber,
        Decimal::Infinite { negative: false },
        Decimal::Infinite { negative: true },
    ];
    for number in numbers {
        assert_eq!(Decimal::parse(&number.to_string()), Some(number));
    }
}

#[test]
fn parse_gives_the_canonical_form() {
    assert_eq!(Decimal::parse(&finite(false, 10, -1).to_string()), Some(finite(false, 1, 0)));
    assert_eq!(Decimal::parse(&finite(false, 17280, -2).to_string()), Some(finite(false, 1728, -1)));
    assert_eq!(Decimal::parse(&finite(false, 0, 9).to_string()), Some(finite(false, 0, 0)));
    assert_eq!(Decimal::parse(&finite(true, 500, 0).to_string()), Some(finite(true, 5, 2)));
}

#[test]
fn distinct_canonical_numbers_are_written_apart() {
    let numbers = [
        finite(false, 1, 0),
        finite(false, 1, 1),
        finite(false, 1, -1),
        finite(false, 11, -1),
        finite(false, 11, 0),
        finite(false, 101, -2),
        finite(true, 1, 0),
        finite(false, 0, 0),
        finite(true, 0, 0),
        Decimal::NotANumber,
        Decimal::Infinite { negative: false },
        Decimal::Infinite { negative: true },
    ];
    for (i, one) in numbers.iter().enumerate() {
        for (j, other) in numbers.iter().enumerate() {
            assert_eq!(one.to_string() == other.to_string(), i == j);
        }
    }
}

#[test]
fn floats_as_the_platform_prints_them() {
    let values = [
        0.0f32,
        -0.0,
        1.0,
        1.5,
        1.25,
        1.666667,
        2.0,
        59.94,
        60.0,
        119.88,
        143.999,
        172.80,
        0.1,
        0.3,
        1e-7,
        1e7,
        1e10,
        16777216.0,
        16777217.0,
        f32::MAX,
        f32::MIN,
        f32::MIN_POSITIVE,
        f32::EPSILON,
        f32::from_bits(1),
        f32::from_bits(0x007f_ffff),
        f32::NAN,
        f32::INFINITY,
        f32::NEG_INFINITY,
    ];
    for value in values {
        assert_round_trip(value);
    }
    assert_eq!(Decimal::parse(&1.0f32.to_string()), Some(finite(false, 1, 0)));
    assert_eq!(Decimal::parse(&172.80f32.to_string()), Some(finite(false, 1728, -1)));
    assert_eq!(Decimal::parse(&f32::MAX.to_string()), Some(finite(false, 34028235, 31)));
    assert_eq!(Decimal::parse(&f32::from_bits(1).to_string()), Some(finite(false, 1, -45)));
    assert_eq!(Decimal::parse(&(-0.0f32).to_string()), Some(finite(true, 0, 0)));
}

#[test]
fn a_sweep_of_floats_as_the_platform_prints_them() {
    let mut bits: u32 = 0;
    loop {
        assert_round_trip(f32::from_bits(bits));
        assert_round_trip(f32::from_bits(bits | 0x8000_0000));
        match bits.checked_add(0x0001_2f37) {
            Some(next) if next < 0x8000_0000 => bits = next,
            _ => break,
        }
    }
}

#[test]
fn a_sweep_of_doubles_as_the_platform_prints_them() {
    let mut bits: u64 = 0;
    loop {
        let value = f64::from_bits(bits);
        let text = value.to_string();
        let number = Decimal::parse(&text);
        match number {
            Some(number) => assert_eq!(number.to_string(), text),
            None => panic!("{} was not read", text),
        }
        match bits.checked_add(0x0000_7f3b_9d2f_1c35) {
            Some(next) if next < 0x8000_0000_0000_0000 => bits = next,
            _ => break,
        }
    }
}
