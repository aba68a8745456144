use boom_catalogs::number::{decimal_chars, decimal_string, is_float_text, parse_i32, parse_i64, IntErrorKind};

fn chars(s: &str) -> Vec<char> {
    s.chars().collect()
}

const INT_SAMPLES: &[&str] = &[
    "", "+", "-", "0", "-0", "+0", "7", "+7", "-7", "42", "007", "12a", "a12", " 12", "12 ", "1_000",
    "+-5", "-+5", "--5", "9223372036854775807", "9223372036854775808", "-9223372036854775808",
    "-9223372036854775809", "99999999999999999999", "99999999999999999999x", "-99999999999999999999x",
    "2147483647", "2147483648", "-2147483648", "-2147483649", "12345678x9", "١٢", "1.5", "1e3",
];

fn kind_of(e: &std::num::ParseIntError) -> IntErrorKind {
    match e.kind() {
        std::num::IntErrorKind::Empty => IntErrorKind::Empty,
        std::num::IntErrorKind::InvalidDigit => IntErrorKind::InvalidDigit,
        std::num::IntErrorKind::PosOverflow => IntErrorKind::PosOverflow,
        std::num::IntErrorKind::NegOverflow => IntErrorKind::NegOverflow,
        _ => panic!("unexpected error kind"),
    }
}

#[test]
fn parse_i64_agrees_with_std() {
    for s in INT_SAMPLES {
        let ours = parse_i64(&chars(s));
        match s.parse::<i64>() {
            Ok(v) => assert_eq!(ours, Ok(v), "input {:?}", s),
            Err(e) => {
                assert_eq!(ours, Err(kind_of(&e)), "input {:?}", s);
                assert_eq!(ours.unwrap_err().text(), e.to_string(), "input {:?}", s);
            }
        }
    }
}

#[test]
fn parse_i32_agrees_with_std() {
    for s in INT_SAMPLES {
        let ours = parse_i32(&chars(s));
        match s.parse::<i32>() {
            Ok(v) => assert_eq!(ours, Ok(v), "input {:?}", s),
            Err(e) => assert_eq!(ours, Err(kind_of(&e)), "input {:?}", s),
        }
    }
}

#[test]
fn int_error_messages() {
    assert_eq!(parse_i64(&chars("")).unwrap_err().text(), "cannot parse integer from empty string");
    assert_eq!(parse_i64(&chars("x")).unwrap_err().text(), "invalid digit found in string");
    assert_eq!(parse_i32(&chars("3000000000")).unwrap_err().text(), "number too large to fit in target type");
    assert_eq!(parse_i32(&chars("-3000000000")).unwrap_err().text(), "number too small to fit in target type");
}

const FLOAT_SAMPLES: &[&str] = &[
    "", "1", "1.", ".5", ".", "1.5", "-1.5", "+1.5", "1e5", "1E5", "1e+5", "1e-5", "1e", "e5", "1.5e",
    "inf", "-inf", "+inf", "INF", "Infinity", "-infinity", "infinit", "nan", "NaN", "-nan", "+NAN",
    " 1", "1 ", "1_0", "0x10", "1.2.3", "--1", "+-1", "12.34E-5", "00012", "1e999", "-0", ".e5",
    "1.e5", "1..5", "in", "nana", "١", "9999999999999999999999999999.5",
];

#[test]
fn float_literals_agree_with_std() {
    for s in FLOAT_SAMPLES {
        assert_eq!(is_float_text(&chars(s)), s.parse::<f64>().is_ok(), "input {:?}", s);
        assert_eq!(is_float_text(&chars(s)), s.parse::<f32>().is_ok(), "input {:?}", s);
    }
}

#[test]
fn decimal_numerals() {
    assert_eq!(decimal_string(0), "0");
    assert_eq!(decimal_string(7), "7");
    assert_eq!(decimal_string(1234567890), "1234567890");
    assert_eq!(decimal_string(u64::MAX), u64::MAX.to_string());
    let c: String = decimal_chars(405).into_iter().collect();
    assert_eq!(c, "405");
}

#[test]
fn decimal_reads_back() {
    for n in [0u64, 1, 9, 10, 99, 100, 65535, 2147483647, 9223372036854775807] {
        let d = decimal_chars(n);
        assert_eq!(parse_i64(&d), Ok(n as i64));
        if n <= i32::MAX as u64 {
            assert_eq!(parse_i32(&d), Ok(n as i32));
        }
    }
}
