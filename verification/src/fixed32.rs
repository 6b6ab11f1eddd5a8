//! A 32-bit decimal number in the IEEE 754-2019 interchange format.

use vstd::prelude::*;
use crate::buf::{spec_precision_digits, BinaryBuf};
use crate::combination::{spec_is_finite, spec_is_infinite, spec_is_nan, spec_is_quiet_nan,
    spec_is_sign_negative, spec_is_signaling_nan};
use crate::convert::{decimal_from_int_i128, decimal_from_int_u128, decimal_from_parsed,
    decimal_to_ascii, decimal_to_int_signed, decimal_to_int_unsigned, encode_max, encode_min,
    spec_to_text};
use crate::error::Error;
use crate::bitstring::{ascii_to_string, spec_encodes_int, spec_int_magnitude, spec_is_integral};
use crate::text::{DecimalParser, ParsedDecimal, spec_parsed_decimal_wf};
use vstd::string::StringSliceAdditionalSpecFns;

verus! {

/// A 32-bit decimal number, stored as 4 little-endian bytes.
#[derive(Debug, Clone, Copy)]
pub struct Bitstring32(pub [u8; 4]);

impl Bitstring32 {
    /// The count of significand digits this width carries.
    pub fn digits() -> (r: u32)
        ensures
            r == 7,
    {
        7
    }

    /// The value `1`.
    pub fn one() -> (r: Bitstring32)
        ensures
            r.0@ == seq![1u8, 0u8, 80u8, 34u8],
    {
        let r = Bitstring32::from_le_bytes([1, 0, 80, 34]);
        proof {
            assert(r.0@ =~= seq![1u8, 0u8, 80u8, 34u8]);
        }
        r
    }

    /// The value `-1`.
    pub fn neg_one() -> (r: Bitstring32)
        ensures
            r.0@ == seq![1u8, 0u8, 80u8, 162u8],
    {
        let r = Bitstring32::from_le_bytes([1, 0, 80, 162]);
        proof {
            assert(r.0@ =~= seq![1u8, 0u8, 80u8, 162u8]);
        }
        r
    }

    /// Archimedes' constant, to this width's precision.
    pub fn pi() -> (r: Bitstring32)
        ensures
            r.0@ == seq![186u8, 6u8, 243u8, 45u8],
    {
        let r = Bitstring32::from_le_bytes([186, 6, 243, 45]);
        proof {
            assert(r.0@ =~= seq![186u8, 6u8, 243u8, 45u8]);
        }
        r
    }

    /// The full circle constant, two times pi.
    pub fn tau() -> (r: Bitstring32)
        ensures
            r.0@ == seq![203u8, 172u8, 244u8, 57u8],
    {
        let r = Bitstring32::from_le_bytes([203, 172, 244, 57]);
        proof {
            assert(r.0@ =~= seq![203u8, 172u8, 244u8, 57u8]);
        }
        r
    }

    /// Half of pi.
    pub fn frac_pi_2() -> (r: Bitstring32)
        ensures
            r.0@ == seq![250u8, 195u8, 251u8, 37u8],
    {
        let r = Bitstring32::from_le_bytes([250, 195, 251, 37]);
        proof {
            assert(r.0@ =~= seq![250u8, 195u8, 251u8, 37u8]);
        }
        r
    }

    /// A third of pi.
    pub fn frac_pi_3() -> (r: Bitstring32)
        ensures
            r.0@ == seq![251u8, 28u8, 241u8, 37u8],
    {
        let r = Bitstring32::from_le_bytes([251, 28, 241, 37]);
        proof {
            assert(r.0@ =~= seq![251u8, 28u8, 241u8, 37u8]);
        }
        r
    }

    /// A quarter of pi.
    pub fn frac_pi_4() -> (r: Bitstring32)
        ensures
            r.0@ == seq![222u8, 45u8, 255u8, 33u8],
    {
        let r = Bitstring32::from_le_bytes([222, 45, 255, 33]);
        proof {
            assert(r.0@ =~= seq![222u8, 45u8, 255u8, 33u8]);
        }
        r
    }

    /// A sixth of pi.
    pub fn frac_pi_6() -> (r: Bitstring32)
        ensures
            r.0@ == seq![222u8, 142u8, 250u8, 33u8],
    {
        let r = Bitstring32::from_le_bytes([222, 142, 250, 33]);
        proof {
            assert(r.0@ =~= seq![222u8, 142u8, 250u8, 33u8]);
        }
        r
    }

    /// An eighth of pi.
    pub fn frac_pi_8() -> (r: Bitstring32)
        ensures
            r.0@ == seq![95u8, 235u8, 246u8, 33u8],
    {
        let r = Bitstring32::from_le_bytes([95, 235, 246, 33]);
        proof {
            assert(r.0@ =~= seq![95u8, 235u8, 246u8, 33u8]);
        }
        r
    }

    /// The reciprocal of pi.
    pub fn frac_1_pi() -> (r: Bitstring32)
        ensures
            r.0@ == seq![137u8, 97u8, 246u8, 33u8],
    {
        let r = Bitstring32::from_le_bytes([137, 97, 246, 33]);
        proof {
            assert(r.0@ =~= seq![137u8, 97u8, 246u8, 33u8]);
        }
        r
    }

    /// Two over pi.
    pub fn frac_2_pi() -> (r: Bitstring32)
        ensures
            r.0@ == seq![25u8, 219u8, 252u8, 33u8],
    {
        let r = Bitstring32::from_le_bytes([25, 219, 252, 33]);
        proof {
            assert(r.0@ =~= seq![25u8, 219u8, 252u8, 33u8]);
        }
        r
    }

    /// Two over the square root of pi.
    pub fn frac_2_sqrt_pi() -> (r: Bitstring32)
        ensures
            r.0@ == seq![249u8, 161u8, 242u8, 37u8],
    {
        let r = Bitstring32::from_le_bytes([249, 161, 242, 37]);
        proof {
            assert(r.0@ =~= seq![249u8, 161u8, 242u8, 37u8]);
        }
        r
    }

    /// The square root of two.
    pub fn sqrt_2() -> (r: Bitstring32)
        ensures
            r.0@ == seq![19u8, 81u8, 248u8, 37u8],
    {
        let r = Bitstring32::from_le_bytes([19, 81, 248, 37]);
        proof {
            assert(r.0@ =~= seq![19u8, 81u8, 248u8, 37u8]);
        }
        r
    }

    /// The reciprocal of the square root of two.
    pub fn frac_1_sqrt_2() -> (r: Bitstring32)
        ensures
            r.0@ == seq![134u8, 28u8, 254u8, 33u8],
    {
        let r = Bitstring32::from_le_bytes([134, 28, 254, 33]);
        proof {
            assert(r.0@ =~= seq![134u8, 28u8, 254u8, 33u8]);
        }
        r
    }

    /// Euler's number.
    pub fn e() -> (r: Bitstring32)
        ensures
            r.0@ == seq![11u8, 97u8, 254u8, 41u8],
    {
        let r = Bitstring32::from_le_bytes([11, 97, 254, 41]);
        proof {
            assert(r.0@ =~= seq![11u8, 97u8, 254u8, 41u8]);
        }
        r
    }

    /// The base-2 logarithm of ten.
    pub fn log2_10() -> (r: Bitstring32)
        ensures
            r.0@ == seq![174u8, 133u8, 246u8, 45u8],
    {
        let r = Bitstring32::from_le_bytes([174, 133, 246, 45]);
        proof {
            assert(r.0@ =~= seq![174u8, 133u8, 246u8, 45u8]);
        }
        r
    }

    /// The base-2 logarithm of Euler's number.
    pub fn log2_e() -> (r: Bitstring32)
        ensures
            r.0@ == seq![91u8, 11u8, 249u8, 37u8],
    {
        let r = Bitstring32::from_le_bytes([91, 11, 249, 37]);
        proof {
            assert(r.0@ =~= seq![91u8, 11u8, 249u8, 37u8]);
        }
        r
    }

    /// The base-10 logarithm of two.
    pub fn log10_2() -> (r: Bitstring32)
        ensures
            r.0@ == seq![41u8, 4u8, 246u8, 33u8],
    {
        let r = Bitstring32::from_le_bytes([41, 4, 246, 33]);
        proof {
            assert(r.0@ =~= seq![41u8, 4u8, 246u8, 33u8]);
        }
        r
    }

    /// The base-10 logarithm of Euler's number.
    pub fn log10_e() -> (r: Bitstring32)
        ensures
            r.0@ == seq![90u8, 209u8, 248u8, 33u8],
    {
        let r = Bitstring32::from_le_bytes([90, 209, 248, 33]);
        proof {
            assert(r.0@ =~= seq![90u8, 209u8, 248u8, 33u8]);
        }
        r
    }

    /// The natural logarithm of two.
    pub fn ln_2() -> (r: Bitstring32)
        ensures
            r.0@ == seq![199u8, 236u8, 252u8, 33u8],
    {
        let r = Bitstring32::from_le_bytes([199, 236, 252, 33]);
        proof {
            assert(r.0@ =~= seq![199u8, 236u8, 252u8, 33u8]);
        }
        r
    }

    /// The natural logarithm of ten.
    pub fn ln_10() -> (r: Bitstring32)
        ensures
            r.0@ == seq![203u8, 10u8, 246u8, 41u8],
    {
        let r = Bitstring32::from_le_bytes([203, 10, 246, 41]);
        proof {
            assert(r.0@ =~= seq![203u8, 10u8, 246u8, 41u8]);
        }
        r
    }

    /// Machine epsilon: the difference between one and the next larger representable value.
    pub fn epsilon() -> (r: Bitstring32)
        ensures
            r.0@ == seq![1u8, 0u8, 0u8, 34u8],
    {
        let r = Bitstring32::from_le_bytes([1, 0, 0, 34]);
        proof {
            assert(r.0@ =~= seq![1u8, 0u8, 0u8, 34u8]);
        }
        r
    }

    /// A quiet NaN with a zero payload.
    pub fn nan() -> (r: Bitstring32)
        ensures
            r.0@ == seq![0u8, 0u8, 0u8, 124u8],
    {
        let r = Bitstring32::from_le_bytes([0, 0, 0, 124]);
        proof {
            assert(r.0@ =~= seq![0u8, 0u8, 0u8, 124u8]);
        }
        r
    }

    /// Positive infinity.
    pub fn infinity() -> (r: Bitstring32)
        ensures
            r.0@ == seq![0u8, 0u8, 0u8, 120u8],
    {
        let r = Bitstring32::from_le_bytes([0, 0, 0, 120]);
        proof {
            assert(r.0@ =~= seq![0u8, 0u8, 0u8, 120u8]);
        }
        r
    }

    /// Negative infinity.
    pub fn neg_infinity() -> (r: Bitstring32)
        ensures
            r.0@ == seq![0u8, 0u8, 0u8, 248u8],
    {
        let r = Bitstring32::from_le_bytes([0, 0, 0, 248]);
        proof {
            assert(r.0@ =~= seq![0u8, 0u8, 0u8, 248u8]);
        }
        r
    }

    /// Create a decimal from its little-endian byte representation.
    pub fn from_le_bytes(bytes: [u8; 4]) -> (r: Bitstring32)
        ensures
            r.0@ == bytes@,
    {
        Bitstring32(bytes)
    }

    /// Create a decimal from its big-endian byte representation.
    pub fn from_be_bytes(bytes: [u8; 4]) -> (r: Bitstring32)
        ensures
            r.0@ == bytes@.reverse(),
    {
        let r = Bitstring32([bytes[3], bytes[2], bytes[1], bytes[0]]);
        proof {
            assert(r.0@ =~= bytes@.reverse());
        }
        r
    }

    /// The little-endian bytes of the decimal.
    pub fn as_le_bytes(&self) -> (r: [u8; 4])
        ensures
            r@ == self.0@,
    {
        self.0
    }

    /// The big-endian bytes of the decimal.
    pub fn to_be_bytes(&self) -> (r: [u8; 4])
        ensures
            r@ == self.0@.reverse(),
    {
        let b = self.0;
        let r = [b[3], b[2], b[1], b[0]];
        proof {
            assert(r@ =~= self.0@.reverse());
        }
        r
    }

    /// The decimal's bytes as an encoding buffer.
    fn to_buf(&self) -> (r: BinaryBuf)
        ensures
            r.bytes@ == self.0@,
            r.wf(),
    {
        let mut bytes: Vec<u8> = Vec::new();
        let mut i: usize = 0;
        while i < 4
            invariant
                i <= 4,
                bytes@ =~= self.0@.take(i as int),
            decreases 4 - i,
        {
            bytes.push(self.0[i]);
            proof {
                assert(bytes@ =~= self.0@.take(i + 1));
            }
            i = i + 1;
        }
        proof {
            assert(bytes@ =~= self.0@);
        }
        BinaryBuf { bytes }
    }

    /// Take ownership of an encoding buffer of exactly 4 bytes.
    fn from_buf(buf: &BinaryBuf) -> (r: Bitstring32)
        requires
            buf.bytes@.len() == 4,
        ensures
            r.0@ == buf.bytes@,
    {
        let r = Bitstring32([buf.bytes[0], buf.bytes[1], buf.bytes[2], buf.bytes[3]]);
        proof {
            assert(r.0@ =~= buf.bytes@);
        }
        r
    }

    /// Try to parse a decimal from a string, at exactly this width.
    pub fn try_parse_str(s: &str) -> (r: Result<Bitstring32, Error>)
        ensures
            r is Ok ==> exists|p: ParsedDecimal|
                #[trigger] spec_parsed_decimal_wf(p, s.spec_bytes())
                    && crate::convert::spec_encoding_of(p, (r->Ok_0).0@),
            r is Err ==> !crate::text::spec_valid_decimal(s.spec_bytes()) || (exists|
                p: ParsedDecimal,
            |
                #[trigger] spec_parsed_decimal_wf(p, s.spec_bytes())
                    && !crate::convert::spec_encodable(p, 4)),
            r is Err ==> (r->Err_0.kind matches crate::error::ErrorKind::Parse(e)
                && !crate::text::spec_valid_decimal(s.spec_bytes())) || (r->Err_0.kind matches
            crate::error::ErrorKind::Overflow(e) && (e.max_width == 4 || (e.max_width == 4
                && e.required_width is None))),
    {
        let parsed = match DecimalParser::parse_str(s) {
            Ok(p) => p,
            Err(e) => {
                return Err(Error::from_parse(e));
            },
        };
        match decimal_from_parsed(&parsed, 4, true) {
            Ok(buf) => {
                proof {
                    assert(spec_parsed_decimal_wf(parsed, s.spec_bytes())
                        && crate::convert::spec_encoding_of(parsed, buf.bytes@));
                }
                Ok(Bitstring32::from_buf(&buf))
            },
            Err(e) => Err(Error::from_overflow(e)),
        }
    }

    /// Render the decimal as text.
    pub fn to_string(&self) -> (r: String)
        ensures
            r@ == spec_to_text(self.0@).map_values(|b: u8| b as char),
    {
        let buf = self.to_buf();
        let ascii = decimal_to_ascii(&buf);
        ascii_to_string(&ascii)
    }

    /// The finite value zero.
    pub fn zero() -> (r: Bitstring32)
        ensures
            spec_encodes_int(r.0@, 0),
    {
        Bitstring32::from_u8(0)
    }

    /// The largest finite value of this width.
    pub fn max() -> (r: Bitstring32)
        ensures
            spec_is_finite(r.0@),
            !spec_is_sign_negative(r.0@),
            crate::combination::spec_msd_bcd(r.0@) == 9,
            forall|i: int|
                0 <= i < spec_precision_digits(8 * r.0@.len()) - 1
                    ==> #[trigger] crate::significand::spec_trailing_digit(r.0@, i) == 57,
            crate::combination::spec_biased_exponent(r.0@) - crate::exponent::spec_bias(32)
                == crate::exponent::spec_emax(32) - spec_precision_digits(32),
    {
        let mut buf = BinaryBuf::zeroed(4);
        encode_max(&mut buf, false);
        Bitstring32::from_buf(&buf)
    }

    /// The smallest finite value of this width.
    pub fn min() -> (r: Bitstring32)
        ensures
            spec_is_finite(r.0@),
            spec_is_sign_negative(r.0@),
            crate::combination::spec_msd_bcd(r.0@) == 9,
            forall|i: int|
                0 <= i < spec_precision_digits(8 * r.0@.len()) - 1
                    ==> #[trigger] crate::significand::spec_trailing_digit(r.0@, i) == 57,
            crate::combination::spec_biased_exponent(r.0@) - crate::exponent::spec_bias(32)
                == crate::exponent::spec_emax(32) - spec_precision_digits(32),
    {
        let mut buf = BinaryBuf::zeroed(4);
        encode_max(&mut buf, true);
        Bitstring32::from_buf(&buf)
    }

    /// The smallest positive non-zero value of this width.
    pub fn min_positive() -> (r: Bitstring32)
        ensures
            spec_is_finite(r.0@),
            !spec_is_sign_negative(r.0@),
            crate::combination::spec_biased_exponent(r.0@) == 0,
            crate::significand::spec_trailing_digit(r.0@, 0) == 49,
    {
        let mut buf = BinaryBuf::zeroed(4);
        encode_min(&mut buf, false);
        Bitstring32::from_buf(&buf)
    }

    /// Whether or not the sign bit is set.
    pub fn is_sign_negative(&self) -> (r: bool)
        ensures
            r == spec_is_sign_negative(self.0@),
    {
        let buf = self.to_buf();
        crate::combination::is_sign_negative(&buf)
    }

    /// Whether or not the decimal is a finite number.
    pub fn is_finite(&self) -> (r: bool)
        ensures
            r == spec_is_finite(self.0@),
    {
        let buf = self.to_buf();
        crate::combination::is_finite(&buf)
    }

    /// Whether or not the decimal is an infinity.
    pub fn is_infinite(&self) -> (r: bool)
        ensures
            r == spec_is_infinite(self.0@),
    {
        let buf = self.to_buf();
        crate::combination::is_infinite(&buf)
    }

    /// Whether the decimal is a NaN.
    pub fn is_nan(&self) -> (r: bool)
        ensures
            r == spec_is_nan(self.0@),
    {
        let buf = self.to_buf();
        crate::combination::is_nan(&buf)
    }

    /// Whether the decimal is a quiet NaN.
    pub fn is_quiet_nan(&self) -> (r: bool)
        ensures
            r == spec_is_quiet_nan(self.0@),
    {
        let buf = self.to_buf();
        crate::combination::is_quiet_nan(&buf)
    }

    /// Whether the decimal is a signaling NaN.
    pub fn is_signaling_nan(&self) -> (r: bool)
        ensures
            r == spec_is_signaling_nan(self.0@),
    {
        let buf = self.to_buf();
        crate::combination::is_signaling_nan(&buf)
    }

    /// Convert an integer into a decimal; every `i8` fits this width.
    pub fn from_i8(v: i8) -> (r: Bitstring32)
        ensures
            spec_encodes_int(r.0@, v as int),
    {
        proof {
            assert(crate::convert::spec_pow10(1) == 10 * crate::convert::spec_pow10(0));
            assert(crate::convert::spec_pow10(2) == 10 * crate::convert::spec_pow10(1));
            assert(crate::convert::spec_pow10(3) == 10 * crate::convert::spec_pow10(2));
            assert(crate::convert::spec_pow10(4) == 10 * crate::convert::spec_pow10(3));
            assert(crate::convert::spec_pow10(5) == 10 * crate::convert::spec_pow10(4));
            assert(crate::convert::spec_pow10(6) == 10 * crate::convert::spec_pow10(5));
            assert(crate::convert::spec_pow10(7) == 10 * crate::convert::spec_pow10(6));
            crate::convert::lemma_nat_ascii_len((if v < 0 { -(v as int) } else { v as int }) as nat, 7);
        }
        match decimal_from_int_i128(v as i128, 4, true) {
            Ok(buf) => Bitstring32::from_buf(&buf),
            Err(_) => {
                proof {
                    assert(false);
                }
                Bitstring32([0; 4])
            },
        }
    }

    /// Convert an integer into a decimal; every `i16` fits this width.
    pub fn from_i16(v: i16) -> (r: Bitstring32)
        ensures
            spec_encodes_int(r.0@, v as int),
    {
        proof {
            assert(crate::convert::spec_pow10(1) == 10 * crate::convert::spec_pow10(0));
            assert(crate::convert::spec_pow10(2) == 10 * crate::convert::spec_pow10(1));
            assert(crate::convert::spec_pow10(3) == 10 * crate::convert::spec_pow10(2));
            assert(crate::convert::spec_pow10(4) == 10 * crate::convert::spec_pow10(3));
            assert(crate::convert::spec_pow10(5) == 10 * crate::convert::spec_pow10(4));
            assert(crate::convert::spec_pow10(6) == 10 * crate::convert::spec_pow10(5));
            assert(crate::convert::spec_pow10(7) == 10 * crate::convert::spec_pow10(6));
            crate::convert::lemma_nat_ascii_len((if v < 0 { -(v as int) } else { v as int }) as nat, 7);
        }
        match decimal_from_int_i128(v as i128, 4, true) {
            Ok(buf) => Bitstring32::from_buf(&buf),
            Err(_) => {
                proof {
                    assert(false);
                }
                Bitstring32([0; 4])
            },
        }
    }

    /// Convert an integer into a decimal; every `u8` fits this width.
    pub fn from_u8(v: u8) -> (r: Bitstring32)
        ensures
            spec_encodes_int(r.0@, v as int),
    {
        proof {
            assert(crate::convert::spec_pow10(1) == 10 * crate::convert::spec_pow10(0));
            assert(crate::convert::spec_pow10(2) == 10 * crate::convert::spec_pow10(1));
            assert(crate::convert::spec_pow10(3) == 10 * crate::convert::spec_pow10(2));
            assert(crate::convert::spec_pow10(4) == 10 * crate::convert::spec_pow10(3));
            assert(crate::convert::spec_pow10(5) == 10 * crate::convert::spec_pow10(4));
            assert(crate::convert::spec_pow10(6) == 10 * crate::convert::spec_pow10(5));
            assert(crate::convert::spec_pow10(7) == 10 * crate::convert::spec_pow10(6));
            crate::convert::lemma_nat_ascii_len((v as int) as nat, 7);
        }
        match decimal_from_int_u128(v as u128, 4, true) {
            Ok(buf) => Bitstring32::from_buf(&buf),
            Err(_) => {
                proof {
                    assert(false);
                }
                Bitstring32([0; 4])
            },
        }
    }

    /// Convert an integer into a decimal; every `u16` fits this width.
    pub fn from_u16(v: u16) -> (r: Bitstring32)
        ensures
            spec_encodes_int(r.0@, v as int),
    {
        proof {
            assert(crate::convert::spec_pow10(1) == 10 * crate::convert::spec_pow10(0));
            assert(crate::convert::spec_pow10(2) == 10 * crate::convert::spec_pow10(1));
            assert(crate::convert::spec_pow10(3) == 10 * crate::convert::spec_pow10(2));
            assert(crate::convert::spec_pow10(4) == 10 * crate::convert::spec_pow10(3));
            assert(crate::convert::spec_pow10(5) == 10 * crate::convert::spec_pow10(4));
            assert(crate::convert::spec_pow10(6) == 10 * crate::convert::spec_pow10(5));
            assert(crate::convert::spec_pow10(7) == 10 * crate::convert::spec_pow10(6));
            crate::convert::lemma_nat_ascii_len((v as int) as nat, 7);
        }
        match decimal_from_int_u128(v as u128, 4, true) {
            Ok(buf) => Bitstring32::from_buf(&buf),
            Err(_) => {
                proof {
                    assert(false);
                }
                Bitstring32([0; 4])
            },
        }
    }

    /// Try to convert an integer into a decimal of this width.
    pub fn from_i32(v: i32) -> (r: Option<Bitstring32>)
        ensures
            r is Some <==> crate::num::spec_nat_ascii((if v < 0 { -(v as int) } else { v as int }) as nat).len()
                <= spec_precision_digits(32),
            r is Some ==> spec_encodes_int((r->0).0@, v as int),
    {
        match decimal_from_int_i128(v as i128, 4, true) {
            Ok(buf) => Some(Bitstring32::from_buf(&buf)),
            Err(_) => None,
        }
    }

    /// Try to convert an integer into a decimal of this width.
    pub fn from_i64(v: i64) -> (r: Option<Bitstring32>)
        ensures
            r is Some <==> crate::num::spec_nat_ascii((if v < 0 { -(v as int) } else { v as int }) as nat).len()
                <= spec_precision_digits(32),
            r is Some ==> spec_encodes_int((r->0).0@, v as int),
    {
        match decimal_from_int_i128(v as i128, 4, true) {
            Ok(buf) => Some(Bitstring32::from_buf(&buf)),
            Err(_) => None,
        }
    }

    /// Try to convert an integer into a decimal of this width.
    pub fn from_i128(v: i128) -> (r: Option<Bitstring32>)
        ensures
            r is Some <==> crate::num::spec_nat_ascii((if v < 0 { -(v as int) } else { v as int }) as nat).len()
                <= spec_precision_digits(32),
            r is Some ==> spec_encodes_int((r->0).0@, v as int),
    {
        match decimal_from_int_i128(v as i128, 4, true) {
            Ok(buf) => Some(Bitstring32::from_buf(&buf)),
            Err(_) => None,
        }
    }

    /// Try to convert an integer into a decimal of this width.
    pub fn from_u32(v: u32) -> (r: Option<Bitstring32>)
        ensures
            r is Some <==> crate::num::spec_nat_ascii((v as int) as nat).len()
                <= spec_precision_digits(32),
            r is Some ==> spec_encodes_int((r->0).0@, v as int),
    {
        match decimal_from_int_u128(v as u128, 4, true) {
            Ok(buf) => Some(Bitstring32::from_buf(&buf)),
            Err(_) => None,
        }
    }

    /// Try to convert an integer into a decimal of this width.
    pub fn from_u64(v: u64) -> (r: Option<Bitstring32>)
        ensures
            r is Some <==> crate::num::spec_nat_ascii((v as int) as nat).len()
                <= spec_precision_digits(32),
            r is Some ==> spec_encodes_int((r->0).0@, v as int),
    {
        match decimal_from_int_u128(v as u128, 4, true) {
            Ok(buf) => Some(Bitstring32::from_buf(&buf)),
            Err(_) => None,
        }
    }

    /// Try to convert an integer into a decimal of this width.
    pub fn from_u128(v: u128) -> (r: Option<Bitstring32>)
        ensures
            r is Some <==> crate::num::spec_nat_ascii((v as int) as nat).len()
                <= spec_precision_digits(32),
            r is Some ==> spec_encodes_int((r->0).0@, v as int),
    {
        match decimal_from_int_u128(v as u128, 4, true) {
            Ok(buf) => Some(Bitstring32::from_buf(&buf)),
            Err(_) => None,
        }
    }

    /// Try to convert the decimal into an integer, failing on a fraction
    /// or a value out of range.
    pub fn to_i8(&self) -> (r: Option<i8>)
        ensures
            ({
                let neg = spec_is_sign_negative(self.0@);
                let mag = spec_int_magnitude(self.0@);
                &&& (r is Some <==> spec_is_finite(self.0@) && spec_is_integral(self.0@) && (
                if neg {
                    mag <= 0x80
                } else {
                    mag <= 0x7F
                }))
                &&& (r is Some ==> r->0 == if neg {
                    -mag
                } else {
                    mag
                })
            }),
    {
        let buf = self.to_buf();
        proof {
            crate::convert::lemma_int_magnitude_nonneg(self.0@);
        }
        match decimal_to_int_signed(&buf) {
            Ok(v) => if -0x80 <= v && v <= 0x7F { Some(v as i8) } else { None },
            Err(_) => None,
        }
    }

    /// Try to convert the decimal into an integer, failing on a fraction
    /// or a value out of range.
    pub fn to_i16(&self) -> (r: Option<i16>)
        ensures
            ({
                let neg = spec_is_sign_negative(self.0@);
                let mag = spec_int_magnitude(self.0@);
                &&& (r is Some <==> spec_is_finite(self.0@) && spec_is_integral(self.0@) && (
                if neg {
                    mag <= 0x8000
                } else {
                    mag <= 0x7FFF
                }))
                &&& (r is Some ==> r->0 == if neg {
                    -mag
                } else {
                    mag
                })
            }),
    {
        let buf = self.to_buf();
        proof {
            crate::convert::lemma_int_magnitude_nonneg(self.0@);
        }
        match decimal_to_int_signed(&buf) {
            Ok(v) => if -0x8000 <= v && v <= 0x7FFF { Some(v as i16) } else { None },
            Err(_) => None,
        }
    }

    /// Try to convert the decimal into an integer, failing on a fraction
    /// or a value out of range.
    pub fn to_i32(&self) -> (r: Option<i32>)
        ensures
            ({
                let neg = spec_is_sign_negative(self.0@);
                let mag = spec_int_magnitude(self.0@);
                &&& (r is Some <==> spec_is_finite(self.0@) && spec_is_integral(self.0@) && (
                if neg {
                    mag <= 0x80000000
                } else {
                    mag <= 0x7FFFFFFF
                }))
                &&& (r is Some ==> r->0 == if neg {
                    -mag
                } else {
                    mag
                })
            }),
    {
        let buf = self.to_buf();
        proof {
            crate::convert::lemma_int_magnitude_nonneg(self.0@);
        }
        match decimal_to_int_signed(&buf) {
            Ok(v) => if -0x80000000 <= v && v <= 0x7FFFFFFF { Some(v as i32) } else { None },
            Err(_) => None,
        }
    }

    /// Try to convert the decimal into an integer, failing on a fraction
    /// or a value out of range.
    pub fn to_i64(&self) -> (r: Option<i64>)
        ensures
            ({
                let neg = spec_is_sign_negative(self.0@);
                let mag = spec_int_magnitude(self.0@);
                &&& (r is Some <==> spec_is_finite(self.0@) && spec_is_integral(self.0@) && (
                if neg {
                    mag <= 0x8000000000000000
                } else {
                    mag <= 0x7FFFFFFFFFFFFFFF
                }))
                &&& (r is Some ==> r->0 == if neg {
                    -mag
                } else {
                    mag
                })
            }),
    {
        let buf = self.to_buf();
        proof {
            crate::convert::lemma_int_magnitude_nonneg(self.0@);
        }
        match decimal_to_int_signed(&buf) {
            Ok(v) => if -0x8000000000000000 <= v && v <= 0x7FFFFFFFFFFFFFFF { Some(v as i64) } else { None },
            Err(_) => None,
        }
    }

    /// Try to convert the decimal into an integer, failing on a fraction
    /// or a value out of range.
    pub fn to_i128(&self) -> (r: Option<i128>)
        ensures
            ({
                let neg = spec_is_sign_negative(self.0@);
                let mag = spec_int_magnitude(self.0@);
                &&& (r is Some <==> spec_is_finite(self.0@) && spec_is_integral(self.0@) && (
                if neg {
                    mag <= 0x80000000000000000000000000000000
                } else {
                    mag <= 0x7FFFFFFFFFFFFFFFFFFFFFFFFFFFFFFF
                }))
                &&& (r is Some ==> r->0 == if neg {
                    -mag
                } else {
                    mag
                })
            }),
    {
        let buf = self.to_buf();
        proof {
            crate::convert::lemma_int_magnitude_nonneg(self.0@);
        }
        match decimal_to_int_signed(&buf) {
            Ok(v) => Some(v),
            Err(_) => None,
        }
    }

    /// Try to convert the decimal into an unsigned integer, failing on a
    /// fraction, a negative sign or a value out of range.
    pub fn to_u8(&self) -> (r: Option<u8>)
        ensures
            ({
                let mag = spec_int_magnitude(self.0@);
                &&& (r is Some <==> spec_is_finite(self.0@) && spec_is_integral(self.0@)
                    && !spec_is_sign_negative(self.0@) && mag <= 0xFF)
                &&& (r is Some ==> r->0 == mag)
            }),
    {
        let buf = self.to_buf();
        proof {
            crate::convert::lemma_int_magnitude_nonneg(self.0@);
        }
        match decimal_to_int_unsigned(&buf) {
            Ok(v) => if v <= 0xFF { Some(v as u8) } else { None },
            Err(_) => None,
        }
    }

    /// Try to convert the decimal into an unsigned integer, failing on a
    /// fraction, a negative sign or a value out of range.
    pub fn to_u16(&self) -> (r: Option<u16>)
        ensures
            ({
                let mag = spec_int_magnitude(self.0@);
                &&& (r is Some <==> spec_is_finite(self.0@) && spec_is_integral(self.0@)
                    && !spec_is_sign_negative(self.0@) && mag <= 0xFFFF)
                &&& (r is Some ==> r->0 == mag)
            }),
    {
        let buf = self.to_buf();
        proof {
            crate::convert::lemma_int_magnitude_nonneg(self.0@);
        }
        match decimal_to_int_unsigned(&buf) {
            Ok(v) => if v <= 0xFFFF { Some(v as u16) } else { None },
            Err(_) => None,
        }
    }

    /// Try to convert the decimal into an unsigned integer, failing on a
    /// fraction, a negative sign or a value out of range.
    pub fn to_u32(&self) -> (r: Option<u32>)
        ensures
            ({
                let mag = spec_int_magnitude(self.0@);
                &&& (r is Some <==> spec_is_finite(self.0@) && spec_is_integral(self.0@)
                    && !spec_is_sign_negative(self.0@) && mag <= 0xFFFFFFFF)
                &&& (r is Some ==> r->0 == mag)
            }),
    {
        let buf = self.to_buf();
        proof {
            crate::convert::lemma_int_magnitude_nonneg(self.0@);
        }
        match decimal_to_int_unsigned(&buf) {
            Ok(v) => if v <= 0xFFFFFFFF { Some(v as u32) } else { None },
            Err(_) => None,
        }
    }

    /// Try to convert the decimal into an unsigned integer, failing on a
    /// fraction, a negative sign or a value out of range.
    pub fn to_u64(&self) -> (r: Option<u64>)
        ensures
            ({
                let mag = spec_int_magnitude(self.0@);
                &&& (r is Some <==> spec_is_finite(self.0@) && spec_is_integral(self.0@)
                    && !spec_is_sign_negative(self.0@) && mag <= 0xFFFFFFFFFFFFFFFF)
                &&& (r is Some ==> r->0 == mag)
            }),
    {
        let buf = self.to_buf();
        proof {
            crate::convert::lemma_int_magnitude_nonneg(self.0@);
        }
        match decimal_to_int_unsigned(&buf) {
            Ok(v) => if v <= 0xFFFFFFFFFFFFFFFF { Some(v as u64) } else { None },
            Err(_) => None,
        }
    }

    /// Try to convert the decimal into an unsigned integer, failing on a
    /// fraction, a negative sign or a value out of range.
    pub fn to_u128(&self) -> (r: Option<u128>)
        ensures
            ({
                let mag = spec_int_magnitude(self.0@);
                &&& (r is Some <==> spec_is_finite(self.0@) && spec_is_integral(self.0@)
                    && !spec_is_sign_negative(self.0@) && mag <= 0xFFFFFFFFFFFFFFFFFFFFFFFFFFFFFFFF)
                &&& (r is Some ==> r->0 == mag)
            }),
    {
        let buf = self.to_buf();
        proof {
            crate::convert::lemma_int_magnitude_nonneg(self.0@);
        }
        match decimal_to_int_unsigned(&buf) {
            Ok(v) => Some(v),
            Err(_) => None,
        }
    }
}

} // verus!
