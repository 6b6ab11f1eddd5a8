use decbits::Bitstring;

fn bitstr(b: &[u8]) -> String {
    let mut s = String::new();

    for b in b {
        if !s.is_empty() {
            s.push('_');
        }

        s.push_str(&format!("{:>08b}", b));
    }

    s
}

#[test]
fn is_sign_negative() {
    for (f, is_negative) in [
        ("0", false),
        ("-0", true),
        ("123", false),
        ("-123", true),
        ("inf", false),
        ("-inf", true),
        ("nan", false),
        ("-nan", true),
        ("snan", false),
        ("-snan", true),
    ] {
        let d = Bitstring::try_parse_str(f).expect("failed to parse decimal");

        assert_eq!(is_negative, d.is_sign_negative(), "{}", f);
    }
}

#[test]
fn is_finite() {
    for (f, is_finite) in [
        ("0", true),
        ("-0", true),
        ("123", true),
        ("-123", true),
        ("inf", false),
        ("-inf", false),
        ("nan", false),
        ("-nan", false),
        ("snan", false),
        ("-snan", false),
    ] {
        let d = Bitstring::try_parse_str(f).expect("failed to parse decimal");

        assert_eq!(is_finite, d.is_finite(), "{}", f);
    }
}

#[test]
fn is_infinite() {
    for (f, is_infinite) in [
        ("123", false),
        ("-123", false),
        ("inf", true),
        ("-inf", true),
        ("nan", false),
        ("snan", false),
    ] {
        let d = Bitstring::try_parse_str(f).expect("failed to parse decimal");

        assert_eq!(is_infinite, d.is_infinite(), "{}", f);
    }
}

#[test]
fn is_nan() {
    for (f, is_nan) in [
        ("123", false),
        ("-123", false),
        ("inf", false),
        ("-inf", false),
        ("nan", true),
        ("-nan", true),
        ("snan", true),
        ("-snan", true),
    ] {
        let d = Bitstring::try_parse_str(f).expect("failed to parse decimal");

        assert_eq!(is_nan, d.is_nan(), "{}", f);
    }
}

#[test]
fn is_quiet_nan() {
    for (f, is_nan) in [
        ("123", false),
        ("-123", false),
        ("inf", false),
        ("-inf", false),
        ("nan", true),
        ("-nan", true),
        ("snan", false),
        ("-snan", false),
    ] {
        let d = Bitstring::try_parse_str(f).expect("failed to parse decimal");

        assert_eq!(is_nan, d.is_quiet_nan(), "{}", f);
    }
}

#[test]
fn is_signaling_nan() {
    for (f, is_nan) in [
        ("123", false),
        ("-123", false),
        ("inf", false),
        ("-inf", false),
        ("nan", false),
        ("-nan", false),
        ("snan", true),
        ("-snan", true),
    ] {
        let d = Bitstring::try_parse_str(f).expect("failed to parse decimal");

        assert_eq!(is_nan, d.is_signaling_nan(), "{}", f);
    }
}

#[test]
fn decimal_roundtrip_i128() {
    for i in [0i128, 42i128, i128::MIN, i128::MAX] {
        let d = Bitstring::from_i128(i);
        let di = d.to_i128().unwrap();

        assert_eq!(i, di);
    }
}

#[test]
fn decimal_roundtrip_u128() {
    for i in [0u128, 42u128, u128::MAX] {
        let d = Bitstring::from_u128(i);
        let di = d.to_u128().unwrap();

        assert_eq!(i, di);
    }
}

#[test]
fn decimal_to_int_with_exponent() {
    for (f, i) in [("17e1", 170i32), ("4e7", 40000000i32), ("170e-1", 17i32)] {
        let d = Bitstring::try_parse_str(f).unwrap();

        assert_eq!(i, d.to_i32().unwrap(), "{}", f);
    }
}

#[test]
fn err_decimal_to_int_exponent_overflow() {
    for f in ["4e618", "17e-1", "1e-1"] {
        let d = Bitstring::try_parse_str(f).unwrap();

        assert!(d.to_i32().is_none(), "{}", f);
    }
}

#[test]
fn decimal_roundtrip_str() {
    for f in [
        "0",
        "-0",
        "0.0",
        "-0.0",
        "435",
        "-435",
        "547473436755",
        "-547473436755",
        "354.55",
        "-354.55",
        "3546.8764256732",
        "-3546.8764256732",
        "0.00012532",
        "-0.00012532",
        "0e1",
        "120e2",
        "-120e2",
        "123e456",
        "-123e456",
        "123e-3",
        "-123e-3",
        "1.2354e-7",
        "-1.2354e-7",
        "1e96",
        "1e-95",
        "1e384",
        "1e-383",
        "1e6144",
        "1e-1643",
        "nan",
        "nan(123)",
        "inf",
        "-inf",
        "snan",
        "snan(123)",
    ] {
        let d = Bitstring::try_parse_str(f).expect("failed to parse decimal");

        // Ensure bitstrings roundtrip through from_le_bytes and to_le_bytes
        assert_eq!(
            bitstr(d.as_le_bytes()),
            bitstr(
                Bitstring::try_from_le_bytes(d.as_le_bytes())
                    .expect("failed to convert bytes to decimal")
                    .as_le_bytes()
            ),
            "{}",
            f
        );

        let s = d.to_string();

        // Ensure bitstrings roundtrip through to_string and try_parse_str
        assert_eq!(
            bitstr(d.as_le_bytes()),
            bitstr(
                Bitstring::try_parse_str(&s)
                    .expect("failed to parse decimal")
                    .as_le_bytes()
            ),
            "{} -> {}",
            f,
            s
        );
    }
}

#[test]
fn decimal_zero() {
    let zero_from_str = Bitstring::try_parse_str("0").expect("failed to parse");
    let zero_from_const = Bitstring::zero();
    let zero_from_int = Bitstring::from_i32(0);

    assert_eq!("0", zero_from_str.to_string());
    assert_eq!("0", zero_from_const.to_string());
    assert_eq!("0", zero_from_int.to_string());

    assert_eq!(zero_from_str.as_le_bytes(), zero_from_const.as_le_bytes());
    assert_eq!(zero_from_str.as_le_bytes(), zero_from_int.as_le_bytes());
}

#[test]
fn decimal_size_small_significand_large_exponent() {
    for i in ["1e6100", "1e-6100"] {
        // We only have a single digit, but the exponent is too large for anything smaller than 128bit
        let d = Bitstring::try_parse_str(i).expect("failed to parse decimal");

        assert!(d.as_le_bytes().len() * 8 >= 128, "{}", i);
    }
}

#[test]
fn decimal_size_small_significand() {
    let d = Bitstring::try_parse_str("1").expect("failed to parse decimal");

    assert_eq!(32, d.as_le_bytes().len() * 8);
}

#[test]
fn err_decimal_overflow_exponent() {
    for i in ["1e2147483648", "1e1073741823"] {
        assert!(Bitstring::try_parse_str(i).is_err());
    }
}

#[test]
fn err_decimal_overflow_digits() {
    for i in [
        "123456789012345678901234567890123456789012345678901234567890",
        "1234567890123456789.1234567890123456789012345678901234567890",
    ] {
        assert!(Bitstring::try_parse_str(i).is_err());
    }
}

#[test]
fn err_decimal_from_invalid_byte_count() {
    let err = Bitstring::try_from_le_bytes(&[]).unwrap_err();
    assert_eq!("the value cannot fit into a decimal of `0` bytes; the width needed is `4` bytes; decimals must be a multiple of 32 bits (4 bytes)", &err.message());

    let err = Bitstring::try_from_le_bytes(&[0; 3]).unwrap_err();
    assert_eq!("the value cannot fit into a decimal of `3` bytes; the width needed is `4` bytes; decimals must be a multiple of 32 bits (4 bytes)", &err.message());

    let err = Bitstring::try_from_le_bytes(&[0; 32]).unwrap_err();
    assert_eq!(
        "the value cannot fit into a decimal of `20` bytes; the width needed is `32` bytes",
        &err.message()
    );
}
