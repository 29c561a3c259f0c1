use mp4muxer::framerate::{parse_framerate, Framerate, FramerateError, FramerateValueParser};

#[test]
fn fraction_is_kept_exactly() {
    assert_eq!(parse_framerate("24000/1001"), Ok((24000, 1001)));
    assert_eq!(parse_framerate("30000/1001"), Ok((30000, 1001)));
    assert_eq!(parse_framerate("25/1"), Ok((25, 1)));
    assert_eq!(parse_framerate("4294967295/4294967295"), Ok((u32::MAX, u32::MAX)));
}

#[test]
fn zero_denominator_is_accepted_here() {
    assert_eq!(parse_framerate("24/0"), Ok((24, 0)));
}

#[test]
fn decimal_is_kept_in_thousandths() {
    assert_eq!(parse_framerate("23.97"), Ok((23970, 1000)));
    assert_eq!(parse_framerate("24"), Ok((24000, 1000)));
    assert_eq!(parse_framerate("29.97"), Ok((29970, 1000)));
    assert_eq!(parse_framerate("59.94"), Ok((59940, 1000)));
}

#[test]
fn decimal_is_truncated_not_rounded() {
    assert_eq!(parse_framerate("23.9799"), Ok((23979, 1000)));
    assert_eq!(parse_framerate("0.0009"), Ok((0, 1000)));
}

#[test]
fn decimal_forms_without_some_digits() {
    assert_eq!(parse_framerate(".5"), Ok((500, 1000)));
    assert_eq!(parse_framerate("5."), Ok((5000, 1000)));
    assert_eq!(parse_framerate("+2.5"), Ok((2500, 1000)));
}

#[test]
fn decimal_out_of_range_is_clamped() {
    assert_eq!(parse_framerate("-1.5"), Ok((0, 1000)));
    assert_eq!(parse_framerate("99999999"), Ok((u32::MAX, 1000)));
    assert_eq!(parse_framerate("4294967.295"), Ok((u32::MAX, 1000)));
    assert_eq!(parse_framerate("4294967.294"), Ok((u32::MAX - 1, 1000)));
}

#[test]
fn malformed_literals_are_refused() {
    assert_eq!(parse_framerate("1/"), Err(FramerateError::InvalidDenominator));
    assert_eq!(parse_framerate("abc"), Err(FramerateError::InvalidValue));
    assert_eq!(parse_framerate(""), Err(FramerateError::InvalidValue));
    assert_eq!(parse_framerate("."), Err(FramerateError::InvalidValue));
    assert_eq!(parse_framerate(" 24"), Err(FramerateError::InvalidValue));
}

#[test]
fn bad_halves_of_a_fraction_are_named() {
    assert_eq!(parse_framerate("/1001"), Err(FramerateError::InvalidNumerator));
    assert_eq!(parse_framerate("x/1001"), Err(FramerateError::InvalidNumerator));
    assert_eq!(parse_framerate("4294967296/1"), Err(FramerateError::InvalidNumerator));
    assert_eq!(parse_framerate("24000/x"), Err(FramerateError::InvalidDenominator));
    assert_eq!(parse_framerate("1/2/3"), Err(FramerateError::InvalidDenominator));
    assert_eq!(parse_framerate("-1/2"), Err(FramerateError::InvalidNumerator));
}

#[test]
fn value_parser_builds_a_framerate() {
    let p = FramerateValueParser::new();
    assert_eq!(p.parse_ref("25"), Ok(Framerate { nome: 25000, deno: 1000 }));
    assert_eq!(p.parse_ref("24000/1001"), Ok(Framerate { nome: 24000, deno: 1001 }));
    assert_eq!(p.parse_ref("x"), Err(FramerateError::InvalidValue));
}

#[test]
fn framerate_error_messages() {
    assert_eq!(FramerateError::InvalidNumerator.message(), "invalid nome of framerate value");
    assert_eq!(FramerateError::InvalidDenominator.message(), "invalid deno of framerate value");
    assert_eq!(FramerateError::InvalidValue.message(), "invalid framerate value");
}

#[test]
fn exponent_notation_is_read_exactly() {
    assert_eq!(parse_framerate("1e3"), Ok((1_000_000, 1000)));
    assert_eq!(parse_framerate("2.4e1"), Ok((24000, 1000)));
    assert_eq!(parse_framerate("1E-3"), Ok((1, 1000)));
    assert_eq!(parse_framerate("12345e-5"), Ok((123, 1000)));
    assert_eq!(parse_framerate("1.e2"), Ok((100000, 1000)));
    assert_eq!(parse_framerate(".5e1"), Ok((5000, 1000)));
    assert_eq!(parse_framerate("23.97e0"), Ok((23970, 1000)));
    assert_eq!(parse_framerate("4.294967295e6"), Ok((u32::MAX, 1000)));
    assert_eq!(parse_framerate("-1e3"), Ok((0, 1000)));
}

#[test]
fn extreme_exponents_saturate() {
    assert_eq!(parse_framerate("1e400"), Ok((u32::MAX, 1000)));
    assert_eq!(parse_framerate("0e400"), Ok((0, 1000)));
    assert_eq!(parse_framerate("1e-400"), Ok((0, 1000)));
    assert_eq!(parse_framerate("1e99999999999999999999999999"), Ok((u32::MAX, 1000)));
    assert_eq!(parse_framerate("1e-99999999999999999999999999"), Ok((0, 1000)));
    assert_eq!(parse_framerate("0.000e99999999999999999999999999"), Ok((0, 1000)));
}

#[test]
fn infinity_and_nan_words() {
    assert_eq!(parse_framerate("inf"), Ok((u32::MAX, 1000)));
    assert_eq!(parse_framerate("INF"), Ok((u32::MAX, 1000)));
    assert_eq!(parse_framerate("+Infinity"), Ok((u32::MAX, 1000)));
    assert_eq!(parse_framerate("-inf"), Ok((0, 1000)));
    assert_eq!(parse_framerate("NaN"), Ok((0, 1000)));
    assert_eq!(parse_framerate("-nan"), Ok((0, 1000)));
}

#[test]
fn broken_float_forms_are_refused() {
    for t in ["1e", "e5", "1e+", "1e-", "infinit", "in", "na", "1e2.5", "1.2.3", "+-1", "1 e3", "0x10"] {
        assert_eq!(parse_framerate(t), Err(FramerateError::InvalidValue), "{}", t);
    }
}

#[test]
fn decimal_form_agrees_with_float_parse() {
    for t in [
        "24", "23.97", "1e3", "2.5", "inf", "-inf", "nan", "-3", "1e400", "1e-400", "0.5", "1E2",
        "+7.25", "infinity", "abc", "", "1e", ".", "-.5e1", "5.", "60000",
    ] {
        let expected = t.parse::<f64>().ok().map(|f| ((f * 1000.0) as u32, 1000u32));
        assert_eq!(parse_framerate(t).ok(), expected, "{}", t);
    }
}
