use decbits::buf::{
    calculate_minimum_storage_width_bits_for_integer_exponent,
    calculate_minimum_storage_width_bits_for_precision_digits,
    minimum_storage_width_bits_for_integer_exponent,
    minimum_storage_width_bits_for_precision_digits, precision_digits,
};
use decbits::exponent::{bias, emax};

fn minimum_storage_case(
    target_width: usize,
    precision_digits_lower: Option<usize>,
    emin_lower: Option<i64>,
    emax_lower: Option<i64>,
    precision_digits_upper: usize,
    emin_upper: i64,
    emax_upper: i64,
) {
    if let Some(emin_lower) = emin_lower {
        assert_eq!(
            target_width,
            minimum_storage_width_bits_for_integer_exponent(emin_lower)
        );
    }

    if let Some(emax_lower) = emax_lower {
        assert_eq!(
            target_width,
            minimum_storage_width_bits_for_integer_exponent(emax_lower)
        );
    }

    if let Some(precision_digits_lower) = precision_digits_lower {
        assert_eq!(
            target_width,
            minimum_storage_width_bits_for_precision_digits(precision_digits_lower)
        );
    }

    assert_eq!(
        target_width,
        minimum_storage_width_bits_for_integer_exponent(emin_upper)
    );
    assert_eq!(
        target_width,
        minimum_storage_width_bits_for_integer_exponent(emax_upper)
    );
    assert_eq!(
        target_width,
        minimum_storage_width_bits_for_precision_digits(precision_digits_upper)
    );
}

#[test]
fn minimum_storage_32() {
    minimum_storage_case(32, None, None, None, 7, -101, 90);
}

#[test]
fn minimum_storage_64() {
    minimum_storage_case(64, Some(8), Some(-102), Some(91), 16, -398, 369);
}

#[test]
fn minimum_storage_96() {
    minimum_storage_case(96, Some(17), Some(-399), Some(370), 25, -1559, 1512);
}

#[test]
fn minimum_storage_128() {
    minimum_storage_case(128, Some(26), Some(-1560), Some(1513), 34, -6176, 6111);
}

#[test]
fn minimum_storage_160() {
    minimum_storage_case(160, Some(35), Some(-6177), Some(6112), 43, -24617, 24534);
}

#[test]
fn minimum_calculated_storage_from_exponent() {
    assert!(calculate_minimum_storage_width_bits_for_integer_exponent(90) >= 32);
    assert!(calculate_minimum_storage_width_bits_for_integer_exponent(-101) >= 32);

    assert!(calculate_minimum_storage_width_bits_for_integer_exponent(369) >= 64);
    assert!(calculate_minimum_storage_width_bits_for_integer_exponent(-398) >= 64);

    assert!(calculate_minimum_storage_width_bits_for_integer_exponent(1512) >= 96);
    assert!(calculate_minimum_storage_width_bits_for_integer_exponent(-1559) >= 96);

    assert!(calculate_minimum_storage_width_bits_for_integer_exponent(6111) >= 128);
    assert!(calculate_minimum_storage_width_bits_for_integer_exponent(-6176) >= 128);

    assert!(calculate_minimum_storage_width_bits_for_integer_exponent(24534) >= 160);
    assert!(calculate_minimum_storage_width_bits_for_integer_exponent(-24617) >= 160);

    assert!(calculate_minimum_storage_width_bits_for_integer_exponent(1572795) >= 256);
    assert!(calculate_minimum_storage_width_bits_for_integer_exponent(-1572932) >= 256);
}

#[test]
fn minimum_calculated_storage_from_precision() {
    assert!(calculate_minimum_storage_width_bits_for_precision_digits(7) >= 32);
    assert!(calculate_minimum_storage_width_bits_for_precision_digits(16) >= 64);
    assert!(calculate_minimum_storage_width_bits_for_precision_digits(25) >= 96);
    assert!(calculate_minimum_storage_width_bits_for_precision_digits(34) >= 128);
    assert!(calculate_minimum_storage_width_bits_for_precision_digits(43) >= 160);
    assert!(calculate_minimum_storage_width_bits_for_precision_digits(70) >= 256);
}

#[test]
fn precision_32() {
    assert_eq!(7, precision_digits(32));
}

#[test]
fn precision_64() {
    assert_eq!(16, precision_digits(64));
}

#[test]
fn precision_96() {
    assert_eq!(25, precision_digits(96));
}

#[test]
fn precision_128() {
    assert_eq!(34, precision_digits(128));
}

#[test]
fn precision_160() {
    assert_eq!(43, precision_digits(160));
}

#[test]
fn precision_256() {
    assert_eq!(70, precision_digits(256));
}

#[test]
fn bias_32() {
    assert_eq!(101, bias(32));
}

#[test]
fn bias_64() {
    assert_eq!(398, bias(64));
}

#[test]
fn bias_96() {
    assert_eq!(1559, bias(96));
}

#[test]
fn bias_128() {
    assert_eq!(6176, bias(128));
}

#[test]
fn bias_160() {
    assert_eq!(24617, bias(160));
}

#[test]
fn bias_256() {
    assert_eq!(1572932, bias(256));
}

#[test]
fn emax_32() {
    assert_eq!(96, emax(32));
}

#[test]
fn emax_64() {
    assert_eq!(384, emax(64));
}

#[test]
fn emax_96() {
    assert_eq!(1536, emax(96));
}

#[test]
fn emax_128() {
    assert_eq!(6144, emax(128));
}

#[test]
fn emax_160() {
    assert_eq!(24576, emax(160));
}

#[test]
fn emax_256() {
    assert_eq!(1572864, emax(256));
}
