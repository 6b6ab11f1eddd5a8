use decbits::convert::{decimal_to_int_signed, decimal_to_int_unsigned};
use decbits::Bitstring;

#[test]
fn encode_small_integer() {
    let d = Bitstring::try_parse_str("123").expect("failed to parse decimal");

    assert_eq!(&[0xA3, 0x00, 0x50, 0x22], d.as_le_bytes());
    assert_eq!("123", d.to_string());
}

#[test]
fn encode_negative_fraction_with_exponent() {
    let d = Bitstring::try_parse_str("-123.456e7").expect("failed to parse decimal");

    // The fraction lowers the exponent by three digits
    assert_eq!(32, d.as_le_bytes().len() * 8);
    assert!(d.is_sign_negative());
    assert_eq!("-1.23456e9", d.to_string());
}

#[test]
fn encode_positive_fraction_with_exponent() {
    let d = Bitstring::try_parse_str("1.23456e7").expect("failed to parse decimal");

    let bytes = d.as_le_bytes();
    assert_eq!(0, bytes[bytes.len() - 1] & 0x80);
    // A positive exponent prints in scientific form
    assert_eq!("1.23456e7", d.to_string());
}

#[test]
fn encode_nan_with_payload() {
    let d = Bitstring::try_parse_str("nan(123)").expect("failed to parse decimal");

    let bytes = d.as_le_bytes();
    assert_eq!(0x7C, bytes[bytes.len() - 1]);
    assert_eq!("nan(123)", d.to_string());

    let d = Bitstring::try_parse_str("snan").expect("failed to parse decimal");

    let bytes = d.as_le_bytes();
    assert_eq!(0x7E, bytes[bytes.len() - 1]);
    assert_eq!("snan", d.to_string());
}

#[test]
fn encode_infinities() {
    let d = Bitstring::try_parse_str("inf").expect("failed to parse decimal");
    assert_eq!(&[0x00, 0x00, 0x00, 0x78], d.as_le_bytes());

    let d = Bitstring::try_parse_str("-inf").expect("failed to parse decimal");
    assert_eq!(&[0x00, 0x00, 0x00, 0xF8], d.as_le_bytes());
}

#[test]
fn exponent_overflow_message() {
    let err = Bitstring::try_parse_str("1e2147483648").unwrap_err();

    assert_eq!(
        "the value cannot fit into a decimal of `4` bytes; the exponent would overflow a 32-bit integer",
        &err.message()
    );
}

#[test]
fn conversion_errors() {
    let d = Bitstring::try_parse_str("17e-1").unwrap();
    let err = decimal_to_int_signed(&d.buf).unwrap_err();
    assert_eq!(
        "conversion to `i128` would require rounding to an integer",
        &err.message()
    );

    let d = Bitstring::try_parse_str("-1").unwrap();
    let err = decimal_to_int_unsigned(&d.buf).unwrap_err();
    assert_eq!("conversion to `u128` would overflow", &err.message());

    // Overflow takes precedence over the non-integer check
    let d = Bitstring::try_parse_str("123456789012345678901234567890123456789012e-1").unwrap();
    let err = decimal_to_int_unsigned(&d.buf).unwrap_err();
    assert_eq!("conversion to `u128` would overflow", &err.message());

    // NaN and infinity are not convertible
    for s in ["nan", "snan", "inf", "-inf", "nan(123)"] {
        let d = Bitstring::try_parse_str(s).unwrap();
        assert_eq!(None, d.to_i32(), "{}", s);
        assert_eq!(None, d.to_u64(), "{}", s);
    }
}

#[test]
fn fixed_widths_round_trip() {
    let d = decbits::Bitstring32::try_parse_str("123").expect("failed to parse decimal");
    assert_eq!([0xA3, 0x00, 0x50, 0x22], d.as_le_bytes());
    assert_eq!("123", d.to_string());
    assert_eq!(
        d.as_le_bytes(),
        decbits::Bitstring32::from_le_bytes(d.as_le_bytes()).as_le_bytes()
    );
    let be = d.to_be_bytes();
    assert_eq!(
        d.as_le_bytes(),
        decbits::Bitstring32::from_be_bytes(be).as_le_bytes()
    );

    let d = decbits::Bitstring64::try_parse_str("-42.5").expect("failed to parse decimal");
    assert_eq!(8, d.as_le_bytes().len());
    assert_eq!("-42.5", d.to_string());

    let d = decbits::Bitstring128::try_parse_str("1e6100").expect("failed to parse decimal");
    assert_eq!(16, d.as_le_bytes().len());
    assert_eq!("1e6100", d.to_string());
}

#[test]
fn fixed_width_int_conversions() {
    let d = decbits::Bitstring32::from_i16(-1234);
    assert_eq!(Some(-1234), d.to_i16());
    assert_eq!(None, d.to_u16());

    assert!(decbits::Bitstring32::from_i32(i32::MAX).is_none());
    assert!(decbits::Bitstring64::from_i64(i64::MAX).is_none());
    assert!(decbits::Bitstring128::from_i128(i128::MAX).is_none());

    let d = decbits::Bitstring128::from_i64(i64::MIN);
    assert_eq!(Some(i64::MIN), d.to_i64());
}
