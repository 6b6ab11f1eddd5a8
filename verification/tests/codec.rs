use decbits::bits::{read_bits, write_bits};
use decbits::buf::{precision_digits, BinaryBuf};
use decbits::combination::{decode_combination_finite, encode_combination_finite};
use decbits::exponent::emax;
use decbits::significand::{
    decode_bcd_declet_to_ascii, decode_dpd_declet_to_bcd, decode_significand_trailing_declets,
    encode_ascii_declet_to_bcd, encode_bcd_declet_to_dpd, encode_significand_trailing_digits,
    encode_significand_trailing_digits_repeat, MostSignificantDigit,
};

fn encode_decode_case(len_bytes: usize) {
    let p = precision_digits(len_bytes * 8);

    let emin = 1i64 - emax(p) - (p as i64 - 1);
    let emax_l = emax(p) - (p as i64);

    // Check all possible exponent values for all possible digits
    for exp in emin..=emax_l {
        for msd in b'0'..=b'9' {
            let mut decimal = BinaryBuf::zeroed(len_bytes);

            encode_combination_finite(
                &mut decimal,
                false,
                exp,
                MostSignificantDigit::from_ascii(msd),
            );

            let (decoded_exponent, decoded_msd) = decode_combination_finite(&decimal);

            assert_eq!(
                msd as char,
                decoded_msd.get_ascii() as char,
                "most significant digit"
            );

            assert_eq!(exp, decoded_exponent, "exponent");
        }
    }
}

#[test]
fn encode_decode_combination_decimal32_all() {
    encode_decode_case(4);
}

#[test]
fn encode_decode_combination_decimal64_all() {
    encode_decode_case(8);
}

#[test]
fn encode_decode_combination_decimal96_all() {
    encode_decode_case(12);
}

#[test]
fn encode_decode_combination_decimal128_all() {
    encode_decode_case(16);
}

#[test]
fn encode_decode_combination_decimal160_all() {
    encode_decode_case(20);
}

#[test]
fn encode_decode_dpd_declet_all() {
    for b0 in b'0'..=b'9' {
        for b1 in b'0'..=b'9' {
            for b2 in b'0'..=b'9' {
                let digits = [b0, b1, b2];
                let digits = std::str::from_utf8(&digits).expect("digit is valid UTF8");

                let dpd = encode_bcd_declet_to_dpd(encode_ascii_declet_to_bcd(b2, b1, b0));

                let decoded = decode_bcd_declet_to_ascii(decode_dpd_declet_to_bcd(dpd));

                assert_eq!([b0, b1, b2], [decoded[2], decoded[1], decoded[0]], "{}", digits);
            }
        }
    }
}

#[test]
fn encode_decode_dpd_declets_across_bytes() {
    let digits = "277386910789029981476348954311894750984836542397645";

    let mut dpd = vec![0u8; 64];
    let mut i = 0usize;

    // Declets are encoded in reverse
    let digits_rev = {
        let mut digits = Vec::from(digits);
        digits.reverse();
        digits
    };
    for ascii in digits_rev.chunks(3) {
        let bcd = encode_ascii_declet_to_bcd(ascii[0], ascii[1], ascii[2]);
        let group = encode_bcd_declet_to_dpd(bcd);
        write_bits(&mut dpd, i, 10, group as u64);
        i += 10;
    }

    let mut decoded_digits = Vec::new();
    while i > 0 {
        i -= 10;
        let group = read_bits(&dpd, i, 10) as u16;
        let ascii = decode_bcd_declet_to_ascii(decode_dpd_declet_to_bcd(group));

        decoded_digits.extend([ascii[2], ascii[1], ascii[0]]);
    }

    assert_eq!(
        digits,
        std::str::from_utf8(&decoded_digits).expect("digits are valid UTF8")
    );
}

#[test]
fn encode_decode_significand_trailing_digits() {
    // NOTE: This is exactly the number of digits that fills a 64bit decimal's trailing significand
    let digits = "129054729387659";

    let mut decimal = BinaryBuf::zeroed(8);

    encode_significand_trailing_digits(&mut decimal, digits.as_bytes());

    let decoded = decode_significand_trailing_declets(&decimal);

    assert_eq!(digits, std::str::from_utf8(&decoded).expect("digits are valid UTF8"));
}

#[test]
fn encode_decode_significand_trailing_digits_repeat() {
    for digit in b'0'..=b'9' {
        let mut decimal = BinaryBuf::zeroed(8);

        encode_significand_trailing_digits_repeat(&mut decimal, digit);

        assert!(decode_significand_trailing_declets(&decimal)
            .iter()
            .all(|b| *b == digit));
    }
}
