use core::f64::consts as f64const;

use decbits::{Bitstring128, Bitstring32, Bitstring64};

// Decimal expansions of the mathematical constants, to more digits than
// any width here keeps.
const PI: &str = "3.14159265358979323846264338327950288";
const TAU: &str = "6.28318530717958647692528676655900577";
const FRAC_PI_2: &str = "1.57079632679489661923132169163975144";
const FRAC_PI_3: &str = "1.04719755119659774615421446109316763";
const FRAC_PI_4: &str = "0.785398163397448309615660845819875721";
const FRAC_PI_6: &str = "0.52359877559829887307710723054658381";
const FRAC_PI_8: &str = "0.39269908169872415480783042290993786";
const FRAC_1_PI: &str = "0.318309886183790671537767526745028724";
const FRAC_2_PI: &str = "0.636619772367581343075535053490057448";
const FRAC_2_SQRT_PI: &str = "1.12837916709551257389615890312154517";
const SQRT_2: &str = "1.41421356237309504880168872420969808";
const FRAC_1_SQRT_2: &str = "0.707106781186547524400844362104849039";
const E: &str = "2.71828182845904523536028747135266250";
const LOG2_10: &str = "3.32192809488736234787031942948939018";
const LOG2_E: &str = "1.44269504088896340735992468100189214";
const LOG10_2: &str = "0.301029995663981195213738894724493027";
const LOG10_E: &str = "0.434294481903251827651128918916605082";
const LN_2: &str = "0.693147180559945309417232121458176568";
const LN_10: &str = "2.30258509299404568401799145468436421";


fn is_eq_32(a: Bitstring32, b: Bitstring32) {
    assert_eq!(a.as_le_bytes(), b.as_le_bytes());
}

fn is_eq_f_32(a: Bitstring32, b: f64) {
    assert_eq!(
        a.to_string(),
        b.to_string()
            .chars()
            .take((Bitstring32::digits() + 1) as usize)
            .collect::<String>()
    );
}

fn is_eq_64(a: Bitstring64, b: Bitstring64) {
    assert_eq!(a.as_le_bytes(), b.as_le_bytes());
}

fn is_eq_f_64(a: Bitstring64, s: &str) {
    assert_eq!(
        a.to_string(),
        s.chars()
            .take((Bitstring64::digits() + 1) as usize)
            .collect::<String>()
    );
}

fn is_eq_128(a: Bitstring128, b: Bitstring128) {
    assert_eq!(a.as_le_bytes(), b.as_le_bytes());
}

fn is_eq_f_128(a: Bitstring128, s: &str) {
    assert_eq!(
        a.to_string(),
        s.chars()
            .take((Bitstring128::digits() + 1) as usize)
            .collect::<String>()
    );
}

fn parse_32(s: &str) -> Bitstring32 {
    Bitstring32::try_parse_str(s).unwrap()
}

fn parse_64(s: &str) -> Bitstring64 {
    Bitstring64::try_parse_str(s).unwrap()
}

fn parse_128(s: &str) -> Bitstring128 {
    Bitstring128::try_parse_str(s).unwrap()
}

#[test]
fn consts_32() {
    is_eq_32(Bitstring32::zero(), parse_32("0"));
    is_eq_32(Bitstring32::one(), parse_32("1"));
    is_eq_32(Bitstring32::neg_one(), parse_32("-1"));

    is_eq_f_32(Bitstring32::pi(), f64const::PI);
    is_eq_f_32(Bitstring32::frac_pi_2(), f64const::FRAC_PI_2);
    is_eq_f_32(Bitstring32::frac_pi_3(), f64const::FRAC_PI_3);
    is_eq_f_32(Bitstring32::frac_pi_6(), f64const::FRAC_PI_6);
    is_eq_f_32(Bitstring32::frac_pi_8(), f64const::FRAC_PI_8);
    is_eq_f_32(Bitstring32::frac_1_pi(), f64const::FRAC_1_PI);
    is_eq_f_32(Bitstring32::frac_2_pi(), f64const::FRAC_2_PI);
    is_eq_f_32(Bitstring32::frac_2_sqrt_pi(), f64const::FRAC_2_SQRT_PI);
    is_eq_f_32(Bitstring32::sqrt_2(), f64const::SQRT_2);
    is_eq_f_32(Bitstring32::frac_1_sqrt_2(), f64const::FRAC_1_SQRT_2);
    is_eq_f_32(Bitstring32::e(), f64const::E);
    is_eq_f_32(Bitstring32::log2_10(), f64const::LOG2_10);
    is_eq_f_32(Bitstring32::log2_e(), f64const::LOG2_E);
    is_eq_f_32(Bitstring32::log10_2(), f64const::LOG10_2);
    is_eq_f_32(Bitstring32::log10_e(), f64const::LOG10_E);
    is_eq_f_32(Bitstring32::ln_2(), f64const::LN_2);
    is_eq_f_32(Bitstring32::ln_10(), f64const::LN_10);

    is_eq_32(Bitstring32::epsilon(), parse_32("0.00001"));
    is_eq_32(Bitstring32::from_le_bytes([255, 252, 227, 247]), Bitstring32::min());
    is_eq_32(
        Bitstring32::from_le_bytes([1, 0, 0, 0]),
        Bitstring32::min_positive(),
    );
    is_eq_32(Bitstring32::from_le_bytes([255, 252, 227, 119]), Bitstring32::max());
    is_eq_32(Bitstring32::nan(), parse_32("nan"));
    is_eq_32(Bitstring32::infinity(), parse_32("inf"));
    is_eq_32(Bitstring32::neg_infinity(), parse_32("-inf"));
}

#[test]
fn consts_64() {
    is_eq_64(Bitstring64::zero(), parse_64("0"));
    is_eq_64(Bitstring64::one(), parse_64("1"));
    is_eq_64(Bitstring64::neg_one(), parse_64("-1"));

    is_eq_f_64(Bitstring64::pi(), PI);
    is_eq_f_64(Bitstring64::tau(), TAU);
    is_eq_f_64(Bitstring64::frac_pi_2(), FRAC_PI_2);
    is_eq_f_64(Bitstring64::frac_pi_3(), FRAC_PI_3);
    is_eq_f_64(Bitstring64::frac_pi_4(), FRAC_PI_4);
    is_eq_f_64(Bitstring64::frac_pi_6(), FRAC_PI_6);
    is_eq_f_64(Bitstring64::frac_pi_8(), FRAC_PI_8);
    is_eq_f_64(Bitstring64::frac_1_pi(), FRAC_1_PI);
    is_eq_f_64(Bitstring64::frac_2_pi(), FRAC_2_PI);
    is_eq_f_64(Bitstring64::frac_2_sqrt_pi(), FRAC_2_SQRT_PI);
    is_eq_f_64(Bitstring64::sqrt_2(), SQRT_2);
    is_eq_f_64(Bitstring64::frac_1_sqrt_2(), FRAC_1_SQRT_2);
    is_eq_f_64(Bitstring64::e(), E);
    is_eq_f_64(Bitstring64::log2_10(), LOG2_10);
    is_eq_f_64(Bitstring64::log2_e(), LOG2_E);
    is_eq_f_64(Bitstring64::log10_2(), LOG10_2);
    is_eq_f_64(Bitstring64::log10_e(), LOG10_E);
    is_eq_f_64(Bitstring64::ln_2(), LN_2);
    is_eq_f_64(Bitstring64::ln_10(), LN_10);

    is_eq_64(Bitstring64::epsilon(), parse_64("0.00000000000001"));
    is_eq_64(
        Bitstring64::from_le_bytes([255, 252, 243, 207, 63, 255, 248, 247]),
        Bitstring64::min(),
    );
    is_eq_64(
        Bitstring64::from_le_bytes([1, 0, 0, 0, 0, 0, 0, 0]),
        Bitstring64::min_positive(),
    );
    is_eq_64(
        Bitstring64::from_le_bytes([255, 252, 243, 207, 63, 255, 248, 119]),
        Bitstring64::max(),
    );
    is_eq_64(Bitstring64::nan(), parse_64("nan"));
    is_eq_64(Bitstring64::infinity(), parse_64("inf"));
    is_eq_64(Bitstring64::neg_infinity(), parse_64("-inf"));
}

#[test]
fn consts_128() {
    is_eq_128(Bitstring128::zero(), parse_128("0"));
    is_eq_128(Bitstring128::one(), parse_128("1"));
    is_eq_128(Bitstring128::neg_one(), parse_128("-1"));

    is_eq_f_128(Bitstring128::pi(), PI);
    is_eq_f_128(Bitstring128::tau(), TAU);
    is_eq_f_128(Bitstring128::frac_pi_2(), FRAC_PI_2);
    is_eq_f_128(Bitstring128::frac_pi_3(), FRAC_PI_3);
    is_eq_f_128(Bitstring128::frac_pi_4(), FRAC_PI_4);
    is_eq_f_128(Bitstring128::frac_pi_6(), FRAC_PI_6);
    is_eq_f_128(Bitstring128::frac_pi_8(), FRAC_PI_8);
    is_eq_f_128(Bitstring128::frac_1_pi(), FRAC_1_PI);
    is_eq_f_128(Bitstring128::frac_2_pi(), FRAC_2_PI);
    is_eq_f_128(Bitstring128::frac_2_sqrt_pi(), FRAC_2_SQRT_PI);
    is_eq_f_128(Bitstring128::sqrt_2(), SQRT_2);
    is_eq_f_128(Bitstring128::frac_1_sqrt_2(), FRAC_1_SQRT_2);
    is_eq_f_128(Bitstring128::e(), E);
    is_eq_f_128(Bitstring128::log2_10(), LOG2_10);
    is_eq_f_128(Bitstring128::log2_e(), LOG2_E);
    is_eq_f_128(Bitstring128::log10_2(), LOG10_2);
    is_eq_f_128(Bitstring128::log10_e(), LOG10_E);
    is_eq_f_128(Bitstring128::ln_2(), LN_2);
    is_eq_f_128(Bitstring128::ln_10(), LN_10);

    is_eq_128(
        Bitstring128::epsilon(),
        parse_128("0.00000000000000000000000000000001"),
    );
    is_eq_128(
        Bitstring128::from_le_bytes([
            255, 252, 243, 207, 63, 255, 252, 243, 207, 63, 255, 252, 243, 143, 255, 247,
        ]),
        Bitstring128::min(),
    );
    is_eq_128(
        Bitstring128::from_le_bytes([1, 0, 0, 0, 0, 0, 0, 0, 0, 0, 0, 0, 0, 0, 0, 0]),
        Bitstring128::min_positive(),
    );
    is_eq_128(
        Bitstring128::from_le_bytes([
            255, 252, 243, 207, 63, 255, 252, 243, 207, 63, 255, 252, 243, 143, 255, 119,
        ]),
        Bitstring128::max(),
    );
    is_eq_128(Bitstring128::nan(), parse_128("nan"));
    is_eq_128(Bitstring128::infinity(), parse_128("inf"));
    is_eq_128(Bitstring128::neg_infinity(), parse_128("-inf"));
}
