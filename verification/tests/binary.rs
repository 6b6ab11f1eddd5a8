use decbits::buf::BinaryBuf;
use decbits::combination::{decode_combination_finite, encode_combination_finite};
use decbits::convert::{encode_max, encode_min};
use decbits::significand::{decode_significand_trailing_declets, encode_significand_trailing_digits};

#[test]
fn encode_byte_order() {
    let mut buf = BinaryBuf::zeroed(16);

    let is_negative = true;
    let exp: i64 = 2;

    let msd = encode_significand_trailing_digits(&mut buf, b"123456789");

    encode_combination_finite(&mut buf, is_negative, exp, msd);

    // Bytes are ordered least to most significant regardless of the platform's endianness
    assert_eq!(
        buf.bytes.as_slice(),
        &[207, 91, 57, 10, 0, 0, 0, 0, 0, 0, 0, 0, 0, 128, 8, 162]
    );
}

#[test]
fn encode_min_max_32() {
    let mut a = BinaryBuf::zeroed(4);
    encode_max(&mut a, false);
    let mut b = BinaryBuf::zeroed(4);
    encode_max(&mut b, true);

    let mut c = BinaryBuf::zeroed(4);
    encode_min(&mut c, false);
    let mut d = BinaryBuf::zeroed(4);
    encode_min(&mut d, true);
}

#[test]
fn encode_min_max_64() {
    let mut a = BinaryBuf::zeroed(8);
    encode_max(&mut a, false);
    let mut b = BinaryBuf::zeroed(8);
    encode_max(&mut b, true);

    let mut c = BinaryBuf::zeroed(8);
    encode_min(&mut c, false);
    let mut d = BinaryBuf::zeroed(8);
    encode_min(&mut d, true);
}

#[test]
fn encode_min_max_128() {
    let mut a = BinaryBuf::zeroed(16);
    encode_max(&mut a, false);
    let mut b = BinaryBuf::zeroed(16);
    encode_max(&mut b, true);

    let mut c = BinaryBuf::zeroed(16);
    encode_min(&mut c, false);
    let mut d = BinaryBuf::zeroed(16);
    encode_min(&mut d, true);
}

#[test]
fn encode_min_max_dynamic() {
    let mut a = BinaryBuf::zeroed(20);
    encode_max(&mut a, false);
    let mut b = BinaryBuf::zeroed(20);
    encode_max(&mut b, true);

    let mut c = BinaryBuf::zeroed(20);
    encode_min(&mut c, false);
    let mut d = BinaryBuf::zeroed(20);
    encode_min(&mut d, true);
}

#[test]
fn decode() {
    // Ensure we don't panic reading potentially nonsense encodings
    for b in 0..255u8 {
        let buf = BinaryBuf { bytes: vec![b; 16] };

        let _ = decode_combination_finite(&buf);
        let _ = decode_significand_trailing_declets(&buf).len();
    }
}
