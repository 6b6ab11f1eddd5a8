use decbits::text::{
    DecimalParser, FiniteParser, InfinityParser, NanParser, ParsedDecimal, ParsedDecimalPoint,
    ParsedExponent, ParsedFinite, ParsedInfinity, ParsedNan, ParsedNanHeader, ParsedSignificand,
    TextBuf, TextRange,
};

fn buf_at_end(s: &str) -> TextBuf {
    TextBuf { ascii: s.as_bytes().to_vec(), capacity: None }
}

fn range(start: usize, end: usize) -> TextRange {
    TextRange { start, end }
}

#[test]
fn parse_decimal_propagates_input_to_sub_parsers() {
    let cases: Vec<(&str, ParsedDecimal)> = vec![
        (
            "inf",
            ParsedDecimal::Infinity(ParsedInfinity { is_infinity_negative: false }),
        ),
        (
            "-inf",
            ParsedDecimal::Infinity(ParsedInfinity { is_infinity_negative: true }),
        ),
        (
            "NaN",
            ParsedDecimal::Nan(ParsedNan {
                nan_buf: buf_at_end("NaN"),
                nan_header: ParsedNanHeader { is_nan_signaling: false, is_nan_negative: false },
                nan_payload: None,
            }),
        ),
        (
            "-NaN",
            ParsedDecimal::Nan(ParsedNan {
                nan_buf: buf_at_end("-NaN"),
                nan_header: ParsedNanHeader { is_nan_signaling: false, is_nan_negative: true },
                nan_payload: None,
            }),
        ),
        (
            "+NaN",
            ParsedDecimal::Nan(ParsedNan {
                nan_buf: buf_at_end("+NaN"),
                nan_header: ParsedNanHeader { is_nan_signaling: false, is_nan_negative: false },
                nan_payload: None,
            }),
        ),
        (
            "sNaN",
            ParsedDecimal::Nan(ParsedNan {
                nan_buf: buf_at_end("sNaN"),
                nan_header: ParsedNanHeader { is_nan_signaling: true, is_nan_negative: false },
                nan_payload: None,
            }),
        ),
        (
            "-sNaN",
            ParsedDecimal::Nan(ParsedNan {
                nan_buf: buf_at_end("-sNaN"),
                nan_header: ParsedNanHeader { is_nan_signaling: true, is_nan_negative: true },
                nan_payload: None,
            }),
        ),
        (
            "+sNaN",
            ParsedDecimal::Nan(ParsedNan {
                nan_buf: buf_at_end("+sNaN"),
                nan_header: ParsedNanHeader { is_nan_signaling: true, is_nan_negative: false },
                nan_payload: None,
            }),
        ),
        (
            "1.23456e7",
            ParsedDecimal::Finite(ParsedFinite {
                finite_buf: buf_at_end("1.23456e7"),
                finite_significand: ParsedSignificand {
                    significand_is_negative: false,
                    significand_range: range(0, 7),
                    decimal_point: Some(ParsedDecimalPoint { decimal_point_range: range(1, 2) }),
                },
                finite_exponent: Some(ParsedExponent {
                    exponent_is_negative: false,
                    exponent_range: range(8, 9),
                }),
            }),
        ),
        (
            "-1.23456e7",
            ParsedDecimal::Finite(ParsedFinite {
                finite_buf: buf_at_end("-1.23456e7"),
                finite_significand: ParsedSignificand {
                    significand_is_negative: true,
                    significand_range: range(1, 8),
                    decimal_point: Some(ParsedDecimalPoint { decimal_point_range: range(2, 3) }),
                },
                finite_exponent: Some(ParsedExponent {
                    exponent_is_negative: false,
                    exponent_range: range(9, 10),
                }),
            }),
        ),
    ];

    for (input, expected) in &cases {
        let parsed = DecimalParser::parse_str(input).expect("failed to parse");

        assert_eq!(expected, &parsed, "{}", input);
    }
}

#[test]
fn parse_finite_valid() {
    let cases: Vec<(&str, ParsedFinite)> = vec![
        (
            "0",
            ParsedFinite {
                finite_buf: buf_at_end("0"),
                finite_significand: ParsedSignificand {
                    significand_is_negative: false,
                    significand_range: range(0, 1),
                    decimal_point: None,
                },
                finite_exponent: None,
            },
        ),
        (
            "-0",
            ParsedFinite {
                finite_buf: buf_at_end("-0"),
                finite_significand: ParsedSignificand {
                    significand_is_negative: true,
                    significand_range: range(1, 2),
                    decimal_point: None,
                },
                finite_exponent: None,
            },
        ),
        (
            "+0",
            ParsedFinite {
                finite_buf: buf_at_end("+0"),
                finite_significand: ParsedSignificand {
                    significand_is_negative: false,
                    significand_range: range(1, 2),
                    decimal_point: None,
                },
                finite_exponent: None,
            },
        ),
        (
            "00",
            ParsedFinite {
                finite_buf: buf_at_end("00"),
                finite_significand: ParsedSignificand {
                    significand_is_negative: false,
                    significand_range: range(0, 2),
                    decimal_point: None,
                },
                finite_exponent: None,
            },
        ),
        (
            "0.0",
            ParsedFinite {
                finite_buf: buf_at_end("0.0"),
                finite_significand: ParsedSignificand {
                    significand_is_negative: false,
                    significand_range: range(0, 3),
                    decimal_point: Some(ParsedDecimalPoint { decimal_point_range: range(1, 2) }),
                },
                finite_exponent: None,
            },
        ),
        (
            "0.00",
            ParsedFinite {
                finite_buf: buf_at_end("0.00"),
                finite_significand: ParsedSignificand {
                    significand_is_negative: false,
                    significand_range: range(0, 4),
                    decimal_point: Some(ParsedDecimalPoint { decimal_point_range: range(1, 2) }),
                },
                finite_exponent: None,
            },
        ),
        (
            "123",
            ParsedFinite {
                finite_buf: buf_at_end("123"),
                finite_significand: ParsedSignificand {
                    significand_is_negative: false,
                    significand_range: range(0, 3),
                    decimal_point: None,
                },
                finite_exponent: None,
            },
        ),
        (
            "123.456",
            ParsedFinite {
                finite_buf: buf_at_end("123.456"),
                finite_significand: ParsedSignificand {
                    significand_is_negative: false,
                    significand_range: range(0, 7),
                    decimal_point: Some(ParsedDecimalPoint { decimal_point_range: range(3, 4) }),
                },
                finite_exponent: None,
            },
        ),
        (
            "123e456",
            ParsedFinite {
                finite_buf: buf_at_end("123e456"),
                finite_significand: ParsedSignificand {
                    significand_is_negative: false,
                    significand_range: range(0, 3),
                    decimal_point: None,
                },
                finite_exponent: Some(ParsedExponent {
                    exponent_is_negative: false,
                    exponent_range: range(4, 7),
                }),
            },
        ),
        (
            "123.456e789",
            ParsedFinite {
                finite_buf: buf_at_end("123.456e789"),
                finite_significand: ParsedSignificand {
                    significand_is_negative: false,
                    significand_range: range(0, 7),
                    decimal_point: Some(ParsedDecimalPoint { decimal_point_range: range(3, 4) }),
                },
                finite_exponent: Some(ParsedExponent {
                    exponent_is_negative: false,
                    exponent_range: range(8, 11),
                }),
            },
        ),
        (
            "123e-456",
            ParsedFinite {
                finite_buf: buf_at_end("123e-456"),
                finite_significand: ParsedSignificand {
                    significand_is_negative: false,
                    significand_range: range(0, 3),
                    decimal_point: None,
                },
                finite_exponent: Some(ParsedExponent {
                    exponent_is_negative: true,
                    exponent_range: range(5, 8),
                }),
            },
        ),
        (
            "123.456e-789",
            ParsedFinite {
                finite_buf: buf_at_end("123.456e-789"),
                finite_significand: ParsedSignificand {
                    significand_is_negative: false,
                    significand_range: range(0, 7),
                    decimal_point: Some(ParsedDecimalPoint { decimal_point_range: range(3, 4) }),
                },
                finite_exponent: Some(ParsedExponent {
                    exponent_is_negative: true,
                    exponent_range: range(9, 12),
                }),
            },
        ),
    ];

    for (input, expected) in &cases {
        let parsed = FiniteParser::parse_str(input).expect("failed to parse");

        assert_eq!(expected, &parsed, "{}", input);
    }
}

#[test]
fn parse_inf_valid() {
    let cases: Vec<(&str, ParsedInfinity)> = vec![
        ("inf", ParsedInfinity { is_infinity_negative: false }),
        ("-inf", ParsedInfinity { is_infinity_negative: true }),
        ("+inf", ParsedInfinity { is_infinity_negative: false }),
        ("infinity", ParsedInfinity { is_infinity_negative: false }),
        ("-infinity", ParsedInfinity { is_infinity_negative: true }),
        ("+infinity", ParsedInfinity { is_infinity_negative: false }),
        ("INF", ParsedInfinity { is_infinity_negative: false }),
        ("-INf", ParsedInfinity { is_infinity_negative: true }),
        ("+INf", ParsedInfinity { is_infinity_negative: false }),
        ("InFinITY", ParsedInfinity { is_infinity_negative: false }),
    ];

    for (input, expected) in &cases {
        let mut parser = InfinityParser::begin(TextBuf::new());
        parser.parse_ascii(input.as_bytes()).expect("failed to parse");
        let parsed = parser.end().expect("failed to parse");

        assert_eq!(expected, &parsed, "{}", input);
    }
}

#[test]
fn parse_nan_valid() {
    let cases: Vec<(&str, ParsedNan)> = vec![
        (
            "nan",
            ParsedNan {
                nan_buf: buf_at_end("nan"),
                nan_header: ParsedNanHeader { is_nan_signaling: false, is_nan_negative: false },
                nan_payload: None,
            },
        ),
        (
            "-nan",
            ParsedNan {
                nan_buf: buf_at_end("-nan"),
                nan_header: ParsedNanHeader { is_nan_signaling: false, is_nan_negative: true },
                nan_payload: None,
            },
        ),
        (
            "+nan",
            ParsedNan {
                nan_buf: buf_at_end("+nan"),
                nan_header: ParsedNanHeader { is_nan_signaling: false, is_nan_negative: false },
                nan_payload: None,
            },
        ),
        (
            "snan",
            ParsedNan {
                nan_buf: buf_at_end("snan"),
                nan_header: ParsedNanHeader { is_nan_signaling: true, is_nan_negative: false },
                nan_payload: None,
            },
        ),
        (
            "-snan",
            ParsedNan {
                nan_buf: buf_at_end("-snan"),
                nan_header: ParsedNanHeader { is_nan_signaling: true, is_nan_negative: true },
                nan_payload: None,
            },
        ),
        (
            "+snan",
            ParsedNan {
                nan_buf: buf_at_end("+snan"),
                nan_header: ParsedNanHeader { is_nan_signaling: true, is_nan_negative: false },
                nan_payload: None,
            },
        ),
        (
            "NaN",
            ParsedNan {
                nan_buf: buf_at_end("NaN"),
                nan_header: ParsedNanHeader { is_nan_signaling: false, is_nan_negative: false },
                nan_payload: None,
            },
        ),
        (
            "SNAN",
            ParsedNan {
                nan_buf: buf_at_end("SNAN"),
                nan_header: ParsedNanHeader { is_nan_signaling: true, is_nan_negative: false },
                nan_payload: None,
            },
        ),
        (
            "nan(1234)",
            ParsedNan {
                nan_buf: buf_at_end("nan(1234)"),
                nan_header: ParsedNanHeader { is_nan_signaling: false, is_nan_negative: false },
                nan_payload: Some(ParsedSignificand {
                    significand_is_negative: false,
                    significand_range: range(4, 8),
                    decimal_point: None,
                }),
            },
        ),
        (
            "nan()",
            ParsedNan {
                nan_buf: buf_at_end("nan()"),
                nan_header: ParsedNanHeader { is_nan_signaling: false, is_nan_negative: false },
                nan_payload: Some(ParsedSignificand {
                    significand_is_negative: false,
                    significand_range: range(4, 4),
                    decimal_point: None,
                }),
            },
        ),
    ];

    for (input, expected) in &cases {
        let mut parser = NanParser::begin(TextBuf::new());
        let _ = parser.parse_ascii(input.as_bytes());

        let nan = parser.end().expect("failed to parse");

        assert_eq!(expected, &nan, "{}", input);
    }
}

#[test]
fn parse_fails_on_buffer_too_small() {
    let expected_err = "the buffer is too small";

    let mut buf = DecimalParser::begin(TextBuf::with_capacity(1));
    let err = buf.parse_ascii(b"123").unwrap_err();
    assert_eq!(expected_err, &err.message());

    let mut buf = FiniteParser::begin(TextBuf::with_capacity(1));
    let err = buf.parse_ascii(b"123").unwrap_err();
    assert_eq!(expected_err, &err.message());

    let mut buf = InfinityParser::begin(TextBuf::with_capacity(1));
    let err = buf.parse_ascii(b"inf").unwrap_err();
    assert_eq!(expected_err, &err.message());

    let mut buf = NanParser::begin(TextBuf::with_capacity(1));
    let err = buf.parse_ascii(b"nan").unwrap_err();
    assert_eq!(expected_err, &err.message());
}

#[test]
fn parse_finite_invalid() {
    let cases: Vec<(&str, &str)> =
        vec![("", "unexpected end of input, expected a sign or digit")];
    for (input, expected_err) in &cases {
        let actual_err = FiniteParser::parse_str(input).unwrap_err();

        assert_eq!(expected_err, &actual_err.message(), "{}", input);
    }
}

#[test]
fn parse_invalid() {
    let cases: Vec<(&str, &str)> = vec![
        (
            "",
            "unexpected end of input, expected a finite number, infinity, or NaN",
        ),
        (
            "-",
            "unexpected end of input, expected a finite number, infinity, or NaN",
        ),
        (
            "+",
            "unexpected end of input, expected a finite number, infinity, or NaN",
        ),
        ("1e", "unexpected end of input, expected a sign or digit"),
        ("1e-", "unexpected end of input, expected any digit"),
        ("1e+", "unexpected end of input, expected any digit"),
        ("in", "unexpected end of input, expected `f`"),
        ("n", "unexpected end of input, expected `a`"),
        ("s", "unexpected end of input, expected `n`"),
        ("nan(", "unexpected end of input, expected `)`"),
        ("nan(123", "unexpected end of input, expected `)`"),
        ("snan(", "unexpected end of input, expected `)`"),
        ("snan(123", "unexpected end of input, expected `)`"),
        (
            "x",
            "unexpected character `x`, expected a finite number, infinity, or NaN",
        ),
        (
            "-x",
            "unexpected character `x`, expected a finite number, infinity, or NaN",
        ),
        (
            "+x",
            "unexpected character `x`, expected a finite number, infinity, or NaN",
        ),
        ("1x", "unexpected character `x`, expected any digit"),
        ("1ex", "unexpected character `x`, expected any digit"),
        ("1e-x", "unexpected character `x`, expected any digit"),
        ("1e+x", "unexpected character `x`, expected any digit"),
        ("1.", "unexpected end of input, expected a sign or digit"),
        ("inx", "unexpected character `x`, expected `f`"),
        ("infinityx", "unexpected character `x`"),
        ("nx", "unexpected character `x`"),
        ("snx", "unexpected character `x`"),
        ("nan()x", "unexpected character `x`"),
        ("snan()x", "unexpected character `x`"),
        (
            "--",
            "unexpected character `-`, expected a finite number, infinity, or NaN",
        ),
        (
            "++",
            "unexpected character `+`, expected a finite number, infinity, or NaN",
        ),
        (
            "-+",
            "unexpected character `+`, expected a finite number, infinity, or NaN",
        ),
        (
            "+-",
            "unexpected character `-`, expected a finite number, infinity, or NaN",
        ),
        (
            ".",
            "unexpected character `.`, expected a finite number, infinity, or NaN",
        ),
        (
            "..",
            "unexpected character `.`, expected a finite number, infinity, or NaN",
        ),
        ("1.3.2", "unexpected character `.`, expected any digit"),
        ("1e1.1", "unexpected character `.`, expected any digit"),
        ("1-", "unexpected character `-`, expected any digit"),
        ("1+", "unexpected character `+`, expected any digit"),
        ("1e1-", "unexpected character `-`, expected any digit"),
        ("1e1+", "unexpected character `+`, expected any digit"),
        ("n(", "unexpected character `(`"),
        ("sn(", "unexpected character `(`"),
        ("nan(1.2)", "unexpected character `.`"),
        ("snan(1.2)", "unexpected character `.`"),
        ("nan(-1)", "unexpected character `-`"),
        ("snan(-1)", "unexpected character `-`"),
        ("nan(1e2", "unexpected character `e`"),
        ("snan(1e2)", "unexpected character `e`"),
    ];

    for (input, expected_err) in &cases {
        let actual_err = DecimalParser::parse_str(input).unwrap_err();

        assert_eq!(expected_err, &actual_err.message(), "{}", input);
    }
}

#[test]
fn parse_in_chunks() {
    // Any split of a valid text across chunks parses, byte by byte included.
    let cases = [
        "-123.456e7",
        "1.5",
        "+0.00e-0",
        "infinity",
        "-inf",
        "nan(123)",
        "-snan",
        "+NaN(007)",
        "InFiNiTy",
    ];
    for input in &cases {
        for split in 0..=input.len() {
            let (a, b) = input.as_bytes().split_at(split);
            let mut parser = DecimalParser::begin(TextBuf::new());
            parser.parse_ascii(a).expect("first chunk refused");
            parser.parse_ascii(b).expect("second chunk refused");
            let chunked = parser.end().expect("chunked parse failed");
            let whole = DecimalParser::parse_str(input).expect("whole parse failed");
            assert_eq!(whole, chunked, "{} split at {}", input, split);
        }
        let mut parser = DecimalParser::begin(TextBuf::new());
        for byte in input.as_bytes() {
            parser.parse_ascii(&[*byte]).expect("single byte refused");
        }
        let bytewise = parser.end().expect("byte-wise parse failed");
        let whole = DecimalParser::parse_str(input).expect("whole parse failed");
        assert_eq!(whole, bytewise, "{} byte-wise", input);
    }
}

#[test]
fn parse_end_reports_truncation() {
    // A viable but incomplete text is accepted chunk by chunk and only
    // `end` refuses it.
    for input in ["", "-", "12e", "12e+", "in", "infinit", "s", "nan(12"] {
        let mut parser = DecimalParser::begin(TextBuf::new());
        parser.parse_ascii(input.as_bytes()).expect("viable prefix refused");
        assert!(parser.end().is_err(), "{:?} should not end", input);
    }
}
