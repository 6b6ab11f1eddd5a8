//! A 128-bit decimal number in the IEEE 754-2019 interchange format.

use vstd::prelude::*;
use crate::buf::{spec_precision_digits, BinaryBuf};
use crate::combination::{spec_is_finite, spec_is_infinite, spec_is_nan, spec_is_quiet_nan,
    spec_is_sign_negative, spec_is_signaling_nan};
use crate::convert::{decimal_from_int_i128, decimal_from_int_u128, decimal_from_parsed,
    decimal_to_ascii, decimal_to_int_signed, decimal_to_int_unsigned, encode_max, encode_min,
    spec_to_text};
use crate::error::Error;
use crate::bitstring::{ascii_to_string, spec_encodes_int, spec_int_magnitude, spec_is_integral};
use crate::text::{DecimalParser, ParsedDecimal, spec_parsed_decimal_wf};
use vstd::string::StringSliceAdditionalSpecFns;

verus! {

/// A 128-bit decimal number, stored as 16 little-endian bytes.
#[derive(Debug, Clone, Copy)]
pub struct Bitstring128(pub [u8; 16]);

impl Bitstring128 {
    /// The count of significand digits this width carries.
    pub fn digits() -> (r: u32)
        ensures
            r == 34,
    {
        34
    }

    /// The value `1`.
    pub fn one() -> (r: Bitstring128)
        ensures
            r.0@ == seq![1u8, 0u8, 0u8, 0u8, 0u8, 0u8, 0u8, 0u8, 0u8, 0u8, 0u8, 0u8, 0u8, 0u8, 8u8, 34u8],
    {
        let r = Bitstring128::from_le_bytes([1, 0, 0, 0, 0, 0, 0, 0, 0, 0, 0, 0, 0, 0, 8, 34]);
        proof {
            assert(r.0@ =~= seq![1u8, 0u8, 0u8, 0u8, 0u8, 0u8, 0u8, 0u8, 0u8, 0u8, 0u8, 0u8, 0u8, 0u8, 8u8, 34u8]);
        }
        r
    }

    /// The value `-1`.
    pub fn neg_one() -> (r: Bitstring128)
        ensures
            r.0@ == seq![1u8, 0u8, 0u8, 0u8, 0u8, 0u8, 0u8, 0u8, 0u8, 0u8, 0u8, 0u8, 0u8, 0u8, 8u8, 162u8],
    {
        let r = Bitstring128::from_le_bytes([1, 0, 0, 0, 0, 0, 0, 0, 0, 0, 0, 0, 0, 0, 8, 162]);
        proof {
            assert(r.0@ =~= seq![1u8, 0u8, 0u8, 0u8, 0u8, 0u8, 0u8, 0u8, 0u8, 0u8, 0u8, 0u8, 0u8, 0u8, 8u8, 162u8]);
        }
        r
    }

    /// Archimedes' constant, to this width's precision.
    pub fn pi() -> (r: Bitstring128)
        ensures
            r.0@ == seq![130u8, 230u8, 181u8, 218u8, 208u8, 98u8, 226u8, 180u8, 251u8, 179u8, 83u8, 235u8, 26u8, 204u8, 255u8, 45u8],
    {
        let r = Bitstring128::from_le_bytes([130, 230, 181, 218, 208, 98, 226, 180, 251, 179, 83, 235, 26, 204, 255, 45]);
        proof {
            assert(r.0@ =~= seq![130u8, 230u8, 181u8, 218u8, 208u8, 98u8, 226u8, 180u8, 251u8, 179u8, 83u8, 235u8, 26u8, 204u8, 255u8, 45u8]);
        }
        r
    }

    /// The full circle constant, two times pi.
    pub fn tau() -> (r: Bitstring128)
        ensures
            r.0@ == seq![5u8, 100u8, 107u8, 190u8, 90u8, 173u8, 218u8, 169u8, 110u8, 62u8, 135u8, 45u8, 179u8, 210u8, 255u8, 57u8],
    {
        let r = Bitstring128::from_le_bytes([5, 100, 107, 190, 90, 173, 218, 169, 110, 62, 135, 45, 179, 210, 255, 57]);
        proof {
            assert(r.0@ =~= seq![5u8, 100u8, 107u8, 190u8, 90u8, 173u8, 218u8, 169u8, 110u8, 62u8, 135u8, 45u8, 179u8, 210u8, 255u8, 57u8]);
        }
        r
    }

    /// Half of pi.
    pub fn frac_pi_2() -> (r: Bitstring128)
        ensures
            r.0@ == seq![209u8, 231u8, 188u8, 113u8, 104u8, 49u8, 101u8, 236u8, 177u8, 246u8, 166u8, 233u8, 15u8, 239u8, 255u8, 37u8],
    {
        let r = Bitstring128::from_le_bytes([209, 231, 188, 113, 104, 49, 101, 236, 177, 246, 166, 233, 15, 239, 255, 37]);
        proof {
            assert(r.0@ =~= seq![209u8, 231u8, 188u8, 113u8, 104u8, 49u8, 101u8, 236u8, 177u8, 246u8, 166u8, 233u8, 15u8, 239u8, 255u8, 37u8]);
        }
        r
    }

    /// A third of pi.
    pub fn frac_pi_3() -> (r: Bitstring128)
        ensures
            r.0@ == seq![231u8, 236u8, 16u8, 38u8, 69u8, 212u8, 24u8, 191u8, 175u8, 62u8, 209u8, 238u8, 115u8, 196u8, 255u8, 37u8],
    {
        let r = Bitstring128::from_le_bytes([231, 236, 16, 38, 69, 212, 24, 191, 175, 62, 209, 238, 115, 196, 255, 37]);
        proof {
            assert(r.0@ =~= seq![231u8, 236u8, 16u8, 38u8, 69u8, 212u8, 24u8, 191u8, 175u8, 62u8, 209u8, 238u8, 115u8, 196u8, 255u8, 37u8]);
        }
        r
    }

    /// A quarter of pi.
    pub fn frac_pi_4() -> (r: Bitstring128)
        ensures
            r.0@ == seq![125u8, 254u8, 208u8, 36u8, 216u8, 21u8, 39u8, 134u8, 228u8, 126u8, 227u8, 120u8, 183u8, 252u8, 255u8, 33u8],
    {
        let r = Bitstring128::from_le_bytes([125, 254, 208, 36, 216, 21, 39, 134, 228, 126, 227, 120, 183, 252, 255, 33]);
        proof {
            assert(r.0@ =~= seq![125u8, 254u8, 208u8, 36u8, 216u8, 21u8, 39u8, 134u8, 228u8, 126u8, 227u8, 120u8, 183u8, 252u8, 255u8, 33u8]);
        }
        r
    }

    /// A sixth of pi.
    pub fn frac_pi_6() -> (r: Bitstring128)
        ensures
            r.0@ == seq![171u8, 26u8, 11u8, 211u8, 33u8, 119u8, 244u8, 229u8, 149u8, 183u8, 245u8, 123u8, 59u8, 234u8, 255u8, 33u8],
    {
        let r = Bitstring128::from_le_bytes([171, 26, 11, 211, 33, 119, 244, 229, 149, 183, 245, 123, 59, 234, 255, 33]);
        proof {
            assert(r.0@ =~= seq![171u8, 26u8, 11u8, 211u8, 33u8, 119u8, 244u8, 229u8, 149u8, 183u8, 245u8, 123u8, 59u8, 234u8, 255u8, 33u8]);
        }
        r
    }

    /// An eighth of pi.
    pub fn frac_pi_8() -> (r: Bitstring128)
        ensures
            r.0@ == seq![189u8, 191u8, 34u8, 34u8, 15u8, 13u8, 83u8, 67u8, 186u8, 215u8, 11u8, 124u8, 173u8, 219u8, 255u8, 33u8],
    {
        let r = Bitstring128::from_le_bytes([189, 191, 34, 34, 15, 13, 83, 67, 186, 215, 11, 124, 173, 219, 255, 33]);
        proof {
            assert(r.0@ =~= seq![189u8, 191u8, 34u8, 34u8, 15u8, 13u8, 83u8, 67u8, 186u8, 215u8, 11u8, 124u8, 173u8, 219u8, 255u8, 33u8]);
        }
        r
    }

    /// The reciprocal of pi.
    pub fn frac_1_pi() -> (r: Bitstring128)
        ensures
            r.0@ == seq![40u8, 20u8, 111u8, 234u8, 249u8, 183u8, 198u8, 173u8, 249u8, 42u8, 14u8, 39u8, 134u8, 217u8, 255u8, 33u8],
    {
        let r = Bitstring128::from_le_bytes([40, 20, 111, 234, 249, 183, 198, 173, 249, 42, 14, 39, 134, 217, 255, 33]);
        proof {
            assert(r.0@ =~= seq![40u8, 20u8, 111u8, 234u8, 249u8, 183u8, 198u8, 173u8, 249u8, 42u8, 14u8, 39u8, 134u8, 217u8, 255u8, 33u8]);
        }
        r
    }

    /// Two over pi.
    pub fn frac_2_pi() -> (r: Bitstring128)
        ensures
            r.0@ == seq![87u8, 104u8, 56u8, 69u8, 173u8, 117u8, 12u8, 183u8, 232u8, 121u8, 242u8, 103u8, 108u8, 243u8, 255u8, 33u8],
    {
        let r = Bitstring128::from_le_bytes([87, 104, 56, 69, 173, 117, 12, 183, 232, 121, 242, 103, 108, 243, 255, 33]);
        proof {
            assert(r.0@ =~= seq![87u8, 104u8, 56u8, 69u8, 173u8, 117u8, 12u8, 183u8, 232u8, 121u8, 242u8, 103u8, 108u8, 243u8, 255u8, 33u8]);
        }
        r
    }

    /// Two over the square root of pi.
    pub fn frac_2_sqrt_pi() -> (r: Bitstring128)
        ensures
            r.0@ == seq![197u8, 134u8, 210u8, 24u8, 54u8, 30u8, 207u8, 43u8, 233u8, 22u8, 231u8, 228u8, 135u8, 202u8, 255u8, 37u8],
    {
        let r = Bitstring128::from_le_bytes([197, 134, 210, 24, 54, 30, 207, 43, 233, 22, 231, 228, 135, 202, 255, 37]);
        proof {
            assert(r.0@ =~= seq![197u8, 134u8, 210u8, 24u8, 54u8, 30u8, 207u8, 43u8, 233u8, 22u8, 231u8, 228u8, 135u8, 202u8, 255u8, 37u8]);
        }
        r
    }

    /// The square root of two.
    pub fn sqrt_2() -> (r: Bitstring128)
        ensures
            r.0@ == seq![94u8, 39u8, 68u8, 186u8, 211u8, 13u8, 32u8, 177u8, 197u8, 124u8, 226u8, 78u8, 68u8, 225u8, 255u8, 37u8],
    {
        let r = Bitstring128::from_le_bytes([94, 39, 68, 186, 211, 13, 32, 177, 197, 124, 226, 78, 68, 225, 255, 37]);
        proof {
            assert(r.0@ =~= seq![94u8, 39u8, 68u8, 186u8, 211u8, 13u8, 32u8, 177u8, 197u8, 124u8, 226u8, 78u8, 68u8, 225u8, 255u8, 37u8]);
        }
        r
    }

    /// The reciprocal of the square root of two.
    pub fn frac_1_sqrt_2() -> (r: Bitstring128)
        ensures
            r.0@ == seq![47u8, 18u8, 34u8, 30u8, 147u8, 0u8, 146u8, 122u8, 172u8, 58u8, 139u8, 27u8, 114u8, 248u8, 255u8, 33u8],
    {
        let r = Bitstring128::from_le_bytes([47, 18, 34, 30, 147, 0, 146, 122, 172, 58, 139, 27, 114, 248, 255, 33]);
        proof {
            assert(r.0@ =~= seq![47u8, 18u8, 34u8, 30u8, 147u8, 0u8, 146u8, 122u8, 172u8, 58u8, 139u8, 27u8, 114u8, 248u8, 255u8, 33u8]);
        }
        r
    }

    /// Euler's number.
    pub fn e() -> (r: Bitstring128)
        ensures
            r.0@ == seq![98u8, 75u8, 23u8, 231u8, 90u8, 224u8, 213u8, 84u8, 68u8, 150u8, 46u8, 45u8, 132u8, 249u8, 255u8, 41u8],
    {
        let r = Bitstring128::from_le_bytes([98, 75, 23, 231, 90, 224, 213, 84, 68, 150, 46, 45, 132, 249, 255, 41]);
        proof {
            assert(r.0@ =~= seq![98u8, 75u8, 23u8, 231u8, 90u8, 224u8, 213u8, 84u8, 68u8, 150u8, 46u8, 45u8, 132u8, 249u8, 255u8, 41u8]);
        }
        r
    }

    /// The base-2 logarithm of ten.
    pub fn log2_10() -> (r: Bitstring128)
        ensures
            r.0@ == seq![154u8, 61u8, 153u8, 98u8, 102u8, 124u8, 28u8, 39u8, 222u8, 195u8, 90u8, 184u8, 22u8, 218u8, 255u8, 45u8],
    {
        let r = Bitstring128::from_le_bytes([154, 61, 153, 98, 102, 124, 28, 39, 222, 195, 90, 184, 22, 218, 255, 45]);
        proof {
            assert(r.0@ =~= seq![154u8, 61u8, 153u8, 98u8, 102u8, 124u8, 28u8, 39u8, 222u8, 195u8, 90u8, 184u8, 22u8, 218u8, 255u8, 45u8]);
        }
        r
    }

    /// The base-2 logarithm of Euler's number.
    pub fn log2_e() -> (r: Bitstring128)
        ensures
            r.0@ == seq![30u8, 5u8, 176u8, 48u8, 171u8, 217u8, 29u8, 216u8, 158u8, 27u8, 64u8, 108u8, 45u8, 228u8, 255u8, 37u8],
    {
        let r = Bitstring128::from_le_bytes([30, 5, 176, 48, 171, 217, 29, 216, 158, 27, 64, 108, 45, 228, 255, 37]);
        proof {
            assert(r.0@ =~= seq![30u8, 5u8, 176u8, 48u8, 171u8, 217u8, 29u8, 216u8, 158u8, 27u8, 64u8, 108u8, 45u8, 228u8, 255u8, 37u8]);
        }
        r
    }

    /// The base-10 logarithm of two.
    pub fn log10_2() -> (r: Bitstring128)
        ensures
            r.0@ == seq![59u8, 146u8, 238u8, 33u8, 238u8, 19u8, 109u8, 243u8, 200u8, 216u8, 159u8, 166u8, 16u8, 216u8, 255u8, 33u8],
    {
        let r = Bitstring128::from_le_bytes([59, 146, 238, 33, 238, 19, 109, 243, 200, 216, 159, 166, 16, 216, 255, 33]);
        proof {
            assert(r.0@ =~= seq![59u8, 146u8, 238u8, 33u8, 238u8, 19u8, 109u8, 243u8, 200u8, 216u8, 159u8, 166u8, 16u8, 216u8, 255u8, 33u8]);
        }
        r
    }

    /// The base-10 logarithm of Euler's number.
    pub fn log10_e() -> (r: Bitstring128)
        ensures
            r.0@ == seq![5u8, 115u8, 238u8, 11u8, 42u8, 81u8, 183u8, 28u8, 85u8, 99u8, 11u8, 106u8, 69u8, 227u8, 255u8, 33u8],
    {
        let r = Bitstring128::from_le_bytes([5, 115, 238, 11, 42, 81, 183, 28, 85, 99, 11, 106, 69, 227, 255, 33]);
        proof {
            assert(r.0@ =~= seq![5u8, 115u8, 238u8, 11u8, 42u8, 81u8, 183u8, 28u8, 85u8, 99u8, 11u8, 106u8, 69u8, 227u8, 255u8, 33u8]);
        }
        r
    }

    /// The natural logarithm of two.
    pub fn ln_2() -> (r: Bitstring128)
        ensures
            r.0@ == seq![246u8, 96u8, 25u8, 138u8, 76u8, 23u8, 38u8, 214u8, 108u8, 182u8, 138u8, 28u8, 179u8, 243u8, 255u8, 33u8],
    {
        let r = Bitstring128::from_le_bytes([246, 96, 25, 138, 76, 23, 38, 214, 108, 182, 138, 28, 179, 243, 255, 33]);
        proof {
            assert(r.0@ =~= seq![246u8, 96u8, 25u8, 138u8, 76u8, 23u8, 38u8, 214u8, 108u8, 182u8, 138u8, 28u8, 179u8, 243u8, 255u8, 33u8]);
        }
        r
    }

    /// The natural logarithm of ten.
    pub fn ln_10() -> (r: Bitstring128)
        ensures
            r.0@ == seq![228u8, 41u8, 77u8, 229u8, 39u8, 23u8, 40u8, 93u8, 132u8, 167u8, 58u8, 44u8, 43u8, 216u8, 255u8, 41u8],
    {
        let r = Bitstring128::from_le_bytes([228, 41, 77, 229, 39, 23, 40, 93, 132, 167, 58, 44, 43, 216, 255, 41]);
        proof {
            assert(r.0@ =~= seq![228u8, 41u8, 77u8, 229u8, 39u8, 23u8, 40u8, 93u8, 132u8, 167u8, 58u8, 44u8, 43u8, 216u8, 255u8, 41u8]);
        }
        r
    }

    /// Machine epsilon: the difference between one and the next larger representable value.
    pub fn epsilon() -> (r: Bitstring128)
        ensures
            r.0@ == seq![1u8, 0u8, 0u8, 0u8, 0u8, 0u8, 0u8, 0u8, 0u8, 0u8, 0u8, 0u8, 0u8, 0u8, 0u8, 34u8],
    {
        let r = Bitstring128::from_le_bytes([1, 0, 0, 0, 0, 0, 0, 0, 0, 0, 0, 0, 0, 0, 0, 34]);
        proof {
            assert(r.0@ =~= seq![1u8, 0u8, 0u8, 0u8, 0u8, 0u8, 0u8, 0u8, 0u8, 0u8, 0u8, 0u8, 0u8, 0u8, 0u8, 34u8]);
        }
        r
    }

    /// A quiet NaN with a zero payload.
    pub fn nan() -> (r: Bitstring128)
        ensures
            r.0@ == seq![0u8, 0u8, 0u8, 0u8, 0u8, 0u8, 0u8, 0u8, 0u8, 0u8, 0u8, 0u8, 0u8, 0u8, 0u8, 124u8],
    {
        let r = Bitstring128::from_le_bytes([0, 0, 0, 0, 0, 0, 0, 0, 0, 0, 0, 0, 0, 0, 0, 124]);
        proof {
            assert(r.0@ =~= seq![0u8, 0u8, 0u8, 0u8, 0u8, 0u8, 0u8, 0u8, 0u8, 0u8, 0u8, 0u8, 0u8, 0u8, 0u8, 124u8]);
        }
        r
    }

    /// Positive infinity.
    pub fn infinity() -> (r: Bitstring128)
        ensures
            r.0@ == seq![0u8, 0u8, 0u8, 0u8, 0u8, 0u8, 0u8, 0u8, 0u8, 0u8, 0u8, 0u8, 0u8, 0u8, 0u8, 120u8],
    {
        let r = Bitstring128::from_le_bytes([0, 0, 0, 0, 0, 0, 0, 0, 0, 0, 0, 0, 0, 0, 0, 120]);
        proof {
            assert(r.0@ =~= seq![0u8, 0u8, 0u8, 0u8, 0u8, 0u8, 0u8, 0u8, 0u8, 0u8, 0u8, 0u8, 0u8, 0u8, 0u8, 120u8]);
        }
        r
    }

    /// Negative infinity.
    pub fn neg_infinity() -> (r: Bitstring128)
        ensures
            r.0@ == seq![0u8, 0u8, 0u8, 0u8, 0u8, 0u8, 0u8, 0u8, 0u8, 0u8, 0u8, 0u8, 0u8, 0u8, 0u8, 248u8],
    {
        let r = Bitstring128::from_le_bytes([0, 0, 0, 0, 0, 0, 0, 0, 0, 0, 0, 0, 0, 0, 0, 248]);
        proof {
            assert(r.0@ =~= seq![0u8, 0u8, 0u8, 0u8, 0u8, 0u8, 0u8, 0u8, 0u8, 0u8, 0u8, 0u8, 0u8, 0u8, 0u8, 248u8]);
        }
        r
    }

    /// Create a decimal from its little-endian byte representation.
    pub fn from_le_bytes(bytes: [u8; 16]) -> (r: Bitstring128)
        ensures
            r.0@ == bytes@,
    {
        Bitstring128(bytes)
    }

    /// Create a decimal from its big-endian byte representation.
    pub fn from_be_bytes(bytes: [u8; 16]) -> (r: Bitstring128)
        ensures
            r.0@ == bytes@.reverse(),
    {
        let r = Bitstring128([bytes[15], bytes[14], bytes[13], bytes[12], bytes[11], bytes[10], bytes[9], bytes[8], bytes[7], bytes[6], bytes[5], bytes[4], bytes[3], bytes[2], bytes[1], bytes[0]]);
        proof {
            assert(r.0@ =~= bytes@.reverse());
        }
        r
    }

    /// The little-endian bytes of the decimal.
    pub fn as_le_bytes(&self) -> (r: [u8; 16])
        ensures
            r@ == self.0@,
    {
        self.0
    }

    /// The big-endian bytes of the decimal.
    pub fn to_be_bytes(&self) -> (r: [u8; 16])
        ensures
            r@ == self.0@.reverse(),
    {
        let b = self.0;
        let r = [b[15], b[14], b[13], b[12], b[11], b[10], b[9], b[8], b[7], b[6], b[5], b[4], b[3], b[2], b[1], b[0]];
        proof {
            assert(r@ =~= self.0@.reverse());
        }
        r
    }

    /// The decimal's bytes as an encoding buffer.
    fn to_buf(&self) -> (r: BinaryBuf)
        ensures
            r.bytes@ == self.0@,
            r.wf(),
    {
        let mut bytes: Vec<u8> = Vec::new();
        let mut i: usize = 0;
        while i < 16
            invariant
                i <= 16,
                bytes@ =~= self.0@.take(i as int),
            decreases 16 - i,
        {
            bytes.push(self.0[i]);
            proof {
                assert(bytes@ =~= self.0@.take(i + 1));
            }
            i = i + 1;
        }
        proof {
            assert(bytes@ =~= self.0@);
        }
        BinaryBuf { bytes }
    }

    /// Take ownership of an encoding buffer of exactly 16 bytes.
    fn from_buf(buf: &BinaryBuf) -> (r: Bitstring128)
        requires
            buf.bytes@.len() == 16,
        ensures
            r.0@ == buf.bytes@,
    {
        let r = Bitstring128([buf.bytes[0], buf.bytes[1], buf.bytes[2], buf.bytes[3], buf.bytes[4], buf.bytes[5], buf.bytes[6], buf.bytes[7], buf.bytes[8], buf.bytes[9], buf.bytes[10], buf.bytes[11], buf.bytes[12], buf.bytes[13], buf.bytes[14], buf.bytes[15]]);
        proof {
            assert(r.0@ =~= buf.bytes@);
        }
        r
    }

    /// Try to parse a decimal from a string, at exactly this width.
    pub fn try_parse_str(s: &str) -> (r: Result<Bitstring128, Error>)
        ensures
            r is Ok ==> exists|p: ParsedDecimal|
                #[trigger] spec_parsed_decimal_wf(p, s.spec_bytes())
                    && crate::convert::spec_encoding_of(p, (r->Ok_0).0@),
            r is Err ==> !crate::text::spec_valid_decimal(s.spec_bytes()) || (exists|
                p: ParsedDecimal,
            |
                #[trigger] spec_parsed_decimal_wf(p, s.spec_bytes())
                    && !crate::convert::spec_encodable(p, 16)),
            r is Err ==> (r->Err_0.kind matches crate::error::ErrorKind::Parse(e)
                && !crate::text::spec_valid_decimal(s.spec_bytes())) || (r->Err_0.kind matches
            crate::error::ErrorKind::Overflow(e) && (e.max_width == 16 || (e.max_width == 4
                && e.required_width is None))),
    {
        let parsed = match DecimalParser::parse_str(s) {
            Ok(p) => p,
            Err(e) => {
                return Err(Error::from_parse(e));
            },
        };
        match decimal_from_parsed(&parsed, 16, true) {
            Ok(buf) => {
                proof {
                    assert(spec_parsed_decimal_wf(parsed, s.spec_bytes())
                        && crate::convert::spec_encoding_of(parsed, buf.bytes@));
                }
                Ok(Bitstring128::from_buf(&buf))
            },
            Err(e) => Err(Error::from_overflow(e)),
        }
    }

    /// Render the decimal as text.
    pub fn to_string(&self) -> (r: String)
        ensures
            r@ == spec_to_text(self.0@).map_values(|b: u8| b as char),
    {
        let buf = self.to_buf();
        let ascii = decimal_to_ascii(&buf);
        ascii_to_string(&ascii)
    }

    /// The finite value zero.
    pub fn zero() -> (r: Bitstring128)
        ensures
            spec_encodes_int(r.0@, 0),
    {
        Bitstring128::from_u8(0)
    }

    /// The largest finite value of this width.
    pub fn max() -> (r: Bitstring128)
        ensures
            spec_is_finite(r.0@),
            !spec_is_sign_negative(r.0@),
            crate::combination::spec_msd_bcd(r.0@) == 9,
            forall|i: int|
                0 <= i < spec_precision_digits(8 * r.0@.len()) - 1
                    ==> #[trigger] crate::significand::spec_trailing_digit(r.0@, i) == 57,
            crate::combination::spec_biased_exponent(r.0@) - crate::exponent::spec_bias(128)
                == crate::exponent::spec_emax(128) - spec_precision_digits(128),
    {
        let mut buf = BinaryBuf::zeroed(16);
        encode_max(&mut buf, false);
        Bitstring128::from_buf(&buf)
    }

    /// The smallest finite value of this width.
    pub fn min() -> (r: Bitstring128)
        ensures
            spec_is_finite(r.0@),
            spec_is_sign_negative(r.0@),
            crate::combination::spec_msd_bcd(r.0@) == 9,
            forall|i: int|
                0 <= i < spec_precision_digits(8 * r.0@.len()) - 1
                    ==> #[trigger] crate::significand::spec_trailing_digit(r.0@, i) == 57,
            crate::combination::spec_biased_exponent(r.0@) - crate::exponent::spec_bias(128)
                == crate::exponent::spec_emax(128) - spec_precision_digits(128),
    {
        let mut buf = BinaryBuf::zeroed(16);
        encode_max(&mut buf, true);
        Bitstring128::from_buf(&buf)
    }

    /// The smallest positive non-zero value of this width.
    pub fn min_positive() -> (r: Bitstring128)
        ensures
            spec_is_finite(r.0@),
            !spec_is_sign_negative(r.0@),
            crate::combination::spec_biased_exponent(r.0@) == 0,
            crate::significand::spec_trailing_digit(r.0@, 0) == 49,
    {
        let mut buf = BinaryBuf::zeroed(16);
        encode_min(&mut buf, false);
        Bitstring128::from_buf(&buf)
    }

    /// Whether or not the sign bit is set.
    pub fn is_sign_negative(&self) -> (r: bool)
        ensures
            r == spec_is_sign_negative(self.0@),
    {
        let buf = self.to_buf();
        crate::combination::is_sign_negative(&buf)
    }

    /// Whether or not the decimal is a finite number.
    pub fn is_finite(&self) -> (r: bool)
        ensures
            r == spec_is_finite(self.0@),
    {
        let buf = self.to_buf();
        crate::combination::is_finite(&buf)
    }

    /// Whether or not the decimal is an infinity.
    pub fn is_infinite(&self) -> (r: bool)
        ensures
            r == spec_is_infinite(self.0@),
    {
        let buf = self.to_buf();
        crate::combination::is_infinite(&buf)
    }

    /// Whether the decimal is a NaN.
    pub fn is_nan(&self) -> (r: bool)
        ensures
            r == spec_is_nan(self.0@),
    {
        let buf = self.to_buf();
        crate::combination::is_nan(&buf)
    }

    /// Whether the decimal is a quiet NaN.
    pub fn is_quiet_nan(&self) -> (r: bool)
        ensures
            r == spec_is_quiet_nan(self.0@),
    {
        let buf = self.to_buf();
        crate::combination::is_quiet_nan(&buf)
    }

    /// Whether the decimal is a signaling NaN.
    pub fn is_signaling_nan(&self) -> (r: bool)
        ensures
            r == spec_is_signaling_nan(self.0@),
    {
        let buf = self.to_buf();
        crate::combination::is_signaling_nan(&buf)
    }

    /// Convert an integer into a decimal; every `i8` fits this width.
    pub fn from_i8(v: i8) -> (r: Bitstring128)
        ensures
            spec_encodes_int(r.0@, v as int),
    {
        proof {
            assert(crate::convert::spec_pow10(1) == 10 * crate::convert::spec_pow10(0));
            assert(crate::convert::spec_pow10(2) == 10 * crate::convert::spec_pow10(1));
            assert(crate::convert::spec_pow10(3) == 10 * crate::convert::spec_pow10(2));
            assert(crate::convert::spec_pow10(4) == 10 * crate::convert::spec_pow10(3));
            assert(crate::convert::spec_pow10(5) == 10 * crate::convert::spec_pow10(4));
            assert(crate::convert::spec_pow10(6) == 10 * crate::convert::spec_pow10(5));
            assert(crate::convert::spec_pow10(7) == 10 * crate::convert::spec_pow10(6));
            assert(crate::convert::spec_pow10(8) == 10 * crate::convert::spec_pow10(7));
            assert(crate::convert::spec_pow10(9) == 10 * crate::convert::spec_pow10(8));
            assert(crate::convert::spec_pow10(10) == 10 * crate::convert::spec_pow10(9));
            assert(crate::convert::spec_pow10(11) == 10 * crate::convert::spec_pow10(10));
            assert(crate::convert::spec_pow10(12) == 10 * crate::convert::spec_pow10(11));
            assert(crate::convert::spec_pow10(13) == 10 * crate::convert::spec_pow10(12));
            assert(crate::convert::spec_pow10(14) == 10 * crate::convert::spec_pow10(13));
            assert(crate::convert::spec_pow10(15) == 10 * crate::convert::spec_pow10(14));
            assert(crate::convert::spec_pow10(16) == 10 * crate::convert::spec_pow10(15));
            assert(crate::convert::spec_pow10(17) == 10 * crate::convert::spec_pow10(16));
            assert(crate::convert::spec_pow10(18) == 10 * crate::convert::spec_pow10(17));
            assert(crate::convert::spec_pow10(19) == 10 * crate::convert::spec_pow10(18));
            assert(crate::convert::spec_pow10(20) == 10 * crate::convert::spec_pow10(19));
            assert(crate::convert::spec_pow10(21) == 10 * crate::convert::spec_pow10(20));
            assert(crate::convert::spec_pow10(22) == 10 * crate::convert::spec_pow10(21));
            assert(crate::convert::spec_pow10(23) == 10 * crate::convert::spec_pow10(22));
            assert(crate::convert::spec_pow10(24) == 10 * crate::convert::spec_pow10(23));
            assert(crate::convert::spec_pow10(25) == 10 * crate::convert::spec_pow10(24));
            assert(crate::convert::spec_pow10(26) == 10 * crate::convert::spec_pow10(25));
            assert(crate::convert::spec_pow10(27) == 10 * crate::convert::spec_pow10(26));
            assert(crate::convert::spec_pow10(28) == 10 * crate::convert::spec_pow10(27));
            assert(crate::convert::spec_pow10(29) == 10 * crate::convert::spec_pow10(28));
            assert(crate::convert::spec_pow10(30) == 10 * crate::convert::spec_pow10(29));
            assert(crate::convert::spec_pow10(31) == 10 * crate::convert::spec_pow10(30));
            assert(crate::convert::spec_pow10(32) == 10 * crate::convert::spec_pow10(31));
            assert(crate::convert::spec_pow10(33) == 10 * crate::convert::spec_pow10(32));
            assert(crate::convert::spec_pow10(34) == 10 * crate::convert::spec_pow10(33));
            crate::convert::lemma_nat_ascii_len((if v < 0 { -(v as int) } else { v as int }) as nat, 34);
        }
        match decimal_from_int_i128(v as i128, 16, true) {
            Ok(buf) => Bitstring128::from_buf(&buf),
            Err(_) => {
                proof {
                    assert(false);
                }
                Bitstring128([0; 16])
            },
        }
    }

    /// Convert an integer into a decimal; every `i16` fits this width.
    pub fn from_i16(v: i16) -> (r: Bitstring128)
        ensures
            spec_encodes_int(r.0@, v as int),
    {
        proof {
            assert(crate::convert::spec_pow10(1) == 10 * crate::convert::spec_pow10(0));
            assert(crate::convert::spec_pow10(2) == 10 * crate::convert::spec_pow10(1));
            assert(crate::convert::spec_pow10(3) == 10 * crate::convert::spec_pow10(2));
            assert(crate::convert::spec_pow10(4) == 10 * crate::convert::spec_pow10(3));
            assert(crate::convert::spec_pow10(5) == 10 * crate::convert::spec_pow10(4));
            assert(crate::convert::spec_pow10(6) == 10 * crate::convert::spec_pow10(5));
            assert(crate::convert::spec_pow10(7) == 10 * crate::convert::spec_pow10(6));
            assert(crate::convert::spec_pow10(8) == 10 * crate::convert::spec_pow10(7));
            assert(crate::convert::spec_pow10(9) == 10 * crate::convert::spec_pow10(8));
            assert(crate::convert::spec_pow10(10) == 10 * crate::convert::spec_pow10(9));
            assert(crate::convert::spec_pow10(11) == 10 * crate::convert::spec_pow10(10));
            assert(crate::convert::spec_pow10(12) == 10 * crate::convert::spec_pow10(11));
            assert(crate::convert::spec_pow10(13) == 10 * crate::convert::spec_pow10(12));
            assert(crate::convert::spec_pow10(14) == 10 * crate::convert::spec_pow10(13));
            assert(crate::convert::spec_pow10(15) == 10 * crate::convert::spec_pow10(14));
            assert(crate::convert::spec_pow10(16) == 10 * crate::convert::spec_pow10(15));
            assert(crate::convert::spec_pow10(17) == 10 * crate::convert::spec_pow10(16));
            assert(crate::convert::spec_pow10(18) == 10 * crate::convert::spec_pow10(17));
            assert(crate::convert::spec_pow10(19) == 10 * crate::convert::spec_pow10(18));
            assert(crate::convert::spec_pow10(20) == 10 * crate::convert::spec_pow10(19));
            assert(crate::convert::spec_pow10(21) == 10 * crate::convert::spec_pow10(20));
            assert(crate::convert::spec_pow10(22) == 10 * crate::convert::spec_pow10(21));
            assert(crate::convert::spec_pow10(23) == 10 * crate::convert::spec_pow10(22));
            assert(crate::convert::spec_pow10(24) == 10 * crate::convert::spec_pow10(23));
            assert(crate::convert::spec_pow10(25) == 10 * crate::convert::spec_pow10(24));
            assert(crate::convert::spec_pow10(26) == 10 * crate::convert::spec_pow10(25));
            assert(crate::convert::spec_pow10(27) == 10 * crate::convert::spec_pow10(26));
            assert(crate::convert::spec_pow10(28) == 10 * crate::convert::spec_pow10(27));
            assert(crate::convert::spec_pow10(29) == 10 * crate::convert::spec_pow10(28));
            assert(crate::convert::spec_pow10(30) == 10 * crate::convert::spec_pow10(29));
            assert(crate::convert::spec_pow10(31) == 10 * crate::convert::spec_pow10(30));
            assert(crate::convert::spec_pow10(32) == 10 * crate::convert::spec_pow10(31));
            assert(crate::convert::spec_pow10(33) == 10 * crate::convert::spec_pow10(32));
            assert(crate::convert::spec_pow10(34) == 10 * crate::convert::spec_pow10(33));
            crate::convert::lemma_nat_ascii_len((if v < 0 { -(v as int) } else { v as int }) as nat, 34);
        }
        match decimal_from_int_i128(v as i128, 16, true) {
            Ok(buf) => Bitstring128::from_buf(&buf),
            Err(_) => {
                proof {
                    assert(false);
                }
                Bitstring128([0; 16])
            },
        }
    }

    /// Convert an integer into a decimal; every `i32` fits this width.
    pub fn from_i32(v: i32) -> (r: Bitstring128)
        ensures
            spec_encodes_int(r.0@, v as int),
    {
        proof {
            assert(crate::convert::spec_pow10(1) == 10 * crate::convert::spec_pow10(0));
            assert(crate::convert::spec_pow10(2) == 10 * crate::convert::spec_pow10(1));
            assert(crate::convert::spec_pow10(3) == 10 * crate::convert::spec_pow10(2));
            assert(crate::convert::spec_pow10(4) == 10 * crate::convert::spec_pow10(3));
            assert(crate::convert::spec_pow10(5) == 10 * crate::convert::spec_pow10(4));
            assert(crate::convert::spec_pow10(6) == 10 * crate::convert::spec_pow10(5));
            assert(crate::convert::spec_pow10(7) == 10 * crate::convert::spec_pow10(6));
            assert(crate::convert::spec_pow10(8) == 10 * crate::convert::spec_pow10(7));
            assert(crate::convert::spec_pow10(9) == 10 * crate::convert::spec_pow10(8));
            assert(crate::convert::spec_pow10(10) == 10 * crate::convert::spec_pow10(9));
            assert(crate::convert::spec_pow10(11) == 10 * crate::convert::spec_pow10(10));
            assert(crate::convert::spec_pow10(12) == 10 * crate::convert::spec_pow10(11));
            assert(crate::convert::spec_pow10(13) == 10 * crate::convert::spec_pow10(12));
            assert(crate::convert::spec_pow10(14) == 10 * crate::convert::spec_pow10(13));
            assert(crate::convert::spec_pow10(15) == 10 * crate::convert::spec_pow10(14));
            assert(crate::convert::spec_pow10(16) == 10 * crate::convert::spec_pow10(15));
            assert(crate::convert::spec_pow10(17) == 10 * crate::convert::spec_pow10(16));
            assert(crate::convert::spec_pow10(18) == 10 * crate::convert::spec_pow10(17));
            assert(crate::convert::spec_pow10(19) == 10 * crate::convert::spec_pow10(18));
            assert(crate::convert::spec_pow10(20) == 10 * crate::convert::spec_pow10(19));
            assert(crate::convert::spec_pow10(21) == 10 * crate::convert::spec_pow10(20));
            assert(crate::convert::spec_pow10(22) == 10 * crate::convert::spec_pow10(21));
            assert(crate::convert::spec_pow10(23) == 10 * crate::convert::spec_pow10(22));
            assert(crate::convert::spec_pow10(24) == 10 * crate::convert::spec_pow10(23));
            assert(crate::convert::spec_pow10(25) == 10 * crate::convert::spec_pow10(24));
            assert(crate::convert::spec_pow10(26) == 10 * crate::convert::spec_pow10(25));
            assert(crate::convert::spec_pow10(27) == 10 * crate::convert::spec_pow10(26));
            assert(crate::convert::spec_pow10(28) == 10 * crate::convert::spec_pow10(27));
            assert(crate::convert::spec_pow10(29) == 10 * crate::convert::spec_pow10(28));
            assert(crate::convert::spec_pow10(30) == 10 * crate::convert::spec_pow10(29));
            assert(crate::convert::spec_pow10(31) == 10 * crate::convert::spec_pow10(30));
            assert(crate::convert::spec_pow10(32) == 10 * crate::convert::spec_pow10(31));
            assert(crate::convert::spec_pow10(33) == 10 * crate::convert::spec_pow10(32));
            assert(crate::convert::spec_pow10(34) == 10 * crate::convert::spec_pow10(33));
            crate::convert::lemma_nat_ascii_len((if v < 0 { -(v as int) } else { v as int }) as nat, 34);
        }
        match decimal_from_int_i128(v as i128, 16, true) {
            Ok(buf) => Bitstring128::from_buf(&buf),
            Err(_) => {
                proof {
                    assert(false);
                }
                Bitstring128([0; 16])
            },
        }
    }

    /// Convert an integer into a decimal; every `i64` fits this width.
    pub fn from_i64(v: i64) -> (r: Bitstring128)
        ensures
            spec_encodes_int(r.0@, v as int),
    {
        proof {
            assert(crate::convert::spec_pow10(1) == 10 * crate::convert::spec_pow10(0));
            assert(crate::convert::spec_pow10(2) == 10 * crate::convert::spec_pow10(1));
            assert(crate::convert::spec_pow10(3) == 10 * crate::convert::spec_pow10(2));
            assert(crate::convert::spec_pow10(4) == 10 * crate::convert::spec_pow10(3));
            assert(crate::convert::spec_pow10(5) == 10 * crate::convert::spec_pow10(4));
            assert(crate::convert::spec_pow10(6) == 10 * crate::convert::spec_pow10(5));
            assert(crate::convert::spec_pow10(7) == 10 * crate::convert::spec_pow10(6));
            assert(crate::convert::spec_pow10(8) == 10 * crate::convert::spec_pow10(7));
            assert(crate::convert::spec_pow10(9) == 10 * crate::convert::spec_pow10(8));
            assert(crate::convert::spec_pow10(10) == 10 * crate::convert::spec_pow10(9));
            assert(crate::convert::spec_pow10(11) == 10 * crate::convert::spec_pow10(10));
            assert(crate::convert::spec_pow10(12) == 10 * crate::convert::spec_pow10(11));
            assert(crate::convert::spec_pow10(13) == 10 * crate::convert::spec_pow10(12));
            assert(crate::convert::spec_pow10(14) == 10 * crate::convert::spec_pow10(13));
            assert(crate::convert::spec_pow10(15) == 10 * crate::convert::spec_pow10(14));
            assert(crate::convert::spec_pow10(16) == 10 * crate::convert::spec_pow10(15));
            assert(crate::convert::spec_pow10(17) == 10 * crate::convert::spec_pow10(16));
            assert(crate::convert::spec_pow10(18) == 10 * crate::convert::spec_pow10(17));
            assert(crate::convert::spec_pow10(19) == 10 * crate::convert::spec_pow10(18));
            assert(crate::convert::spec_pow10(20) == 10 * crate::convert::spec_pow10(19));
            assert(crate::convert::spec_pow10(21) == 10 * crate::convert::spec_pow10(20));
            assert(crate::convert::spec_pow10(22) == 10 * crate::convert::spec_pow10(21));
            assert(crate::convert::spec_pow10(23) == 10 * crate::convert::spec_pow10(22));
            assert(crate::convert::spec_pow10(24) == 10 * crate::convert::spec_pow10(23));
            assert(crate::convert::spec_pow10(25) == 10 * crate::convert::spec_pow10(24));
            assert(crate::convert::spec_pow10(26) == 10 * crate::convert::spec_pow10(25));
            assert(crate::convert::spec_pow10(27) == 10 * crate::convert::spec_pow10(26));
            assert(crate::convert::spec_pow10(28) == 10 * crate::convert::spec_pow10(27));
            assert(crate::convert::spec_pow10(29) == 10 * crate::convert::spec_pow10(28));
            assert(crate::convert::spec_pow10(30) == 10 * crate::convert::spec_pow10(29));
            assert(crate::convert::spec_pow10(31) == 10 * crate::convert::spec_pow10(30));
            assert(crate::convert::spec_pow10(32) == 10 * crate::convert::spec_pow10(31));
            assert(crate::convert::spec_pow10(33) == 10 * crate::convert::spec_pow10(32));
            assert(crate::convert::spec_pow10(34) == 10 * crate::convert::spec_pow10(33));
            crate::convert::lemma_nat_ascii_len((if v < 0 { -(v as int) } else { v as int }) as nat, 34);
        }
        match decimal_from_int_i128(v as i128, 16, true) {
            Ok(buf) => Bitstring128::from_buf(&buf),
            Err(_) => {
                proof {
                    assert(false);
                }
                Bitstring128([0; 16])
            },
        }
    }

    /// Convert an integer into a decimal; every `u8` fits this width.
    pub fn from_u8(v: u8) -> (r: Bitstring128)
        ensures
            spec_encodes_int(r.0@, v as int),
    {
        proof {
            assert(crate::convert::spec_pow10(1) == 10 * crate::convert::spec_pow10(0));
            assert(crate::convert::spec_pow10(2) == 10 * crate::convert::spec_pow10(1));
            assert(crate::convert::spec_pow10(3) == 10 * crate::convert::spec_pow10(2));
            assert(crate::convert::spec_pow10(4) == 10 * crate::convert::spec_pow10(3));
            assert(crate::convert::spec_pow10(5) == 10 * crate::convert::spec_pow10(4));
            assert(crate::convert::spec_pow10(6) == 10 * crate::convert::spec_pow10(5));
            assert(crate::convert::spec_pow10(7) == 10 * crate::convert::spec_pow10(6));
            assert(crate::convert::spec_pow10(8) == 10 * crate::convert::spec_pow10(7));
            assert(crate::convert::spec_pow10(9) == 10 * crate::convert::spec_pow10(8));
            assert(crate::convert::spec_pow10(10) == 10 * crate::convert::spec_pow10(9));
            assert(crate::convert::spec_pow10(11) == 10 * crate::convert::spec_pow10(10));
            assert(crate::convert::spec_pow10(12) == 10 * crate::convert::spec_pow10(11));
            assert(crate::convert::spec_pow10(13) == 10 * crate::convert::spec_pow10(12));
            assert(crate::convert::spec_pow10(14) == 10 * crate::convert::spec_pow10(13));
            assert(crate::convert::spec_pow10(15) == 10 * crate::convert::spec_pow10(14));
            assert(crate::convert::spec_pow10(16) == 10 * crate::convert::spec_pow10(15));
            assert(crate::convert::spec_pow10(17) == 10 * crate::convert::spec_pow10(16));
            assert(crate::convert::spec_pow10(18) == 10 * crate::convert::spec_pow10(17));
            assert(crate::convert::spec_pow10(19) == 10 * crate::convert::spec_pow10(18));
            assert(crate::convert::spec_pow10(20) == 10 * crate::convert::spec_pow10(19));
            assert(crate::convert::spec_pow10(21) == 10 * crate::convert::spec_pow10(20));
            assert(crate::convert::spec_pow10(22) == 10 * crate::convert::spec_pow10(21));
            assert(crate::convert::spec_pow10(23) == 10 * crate::convert::spec_pow10(22));
            assert(crate::convert::spec_pow10(24) == 10 * crate::convert::spec_pow10(23));
            assert(crate::convert::spec_pow10(25) == 10 * crate::convert::spec_pow10(24));
            assert(crate::convert::spec_pow10(26) == 10 * crate::convert::spec_pow10(25));
            assert(crate::convert::spec_pow10(27) == 10 * crate::convert::spec_pow10(26));
            assert(crate::convert::spec_pow10(28) == 10 * crate::convert::spec_pow10(27));
            assert(crate::convert::spec_pow10(29) == 10 * crate::convert::spec_pow10(28));
            assert(crate::convert::spec_pow10(30) == 10 * crate::convert::spec_pow10(29));
            assert(crate::convert::spec_pow10(31) == 10 * crate::convert::spec_pow10(30));
            assert(crate::convert::spec_pow10(32) == 10 * crate::convert::spec_pow10(31));
            assert(crate::convert::spec_pow10(33) == 10 * crate::convert::spec_pow10(32));
            assert(crate::convert::spec_pow10(34) == 10 * crate::convert::spec_pow10(33));
            crate::convert::lemma_nat_ascii_len((v as int) as nat, 34);
        }
        match decimal_from_int_u128(v as u128, 16, true) {
            Ok(buf) => Bitstring128::from_buf(&buf),
            Err(_) => {
                proof {
                    assert(false);
                }
                Bitstring128([0; 16])
            },
        }
    }

    /// Convert an integer into a decimal; every `u16` fits this width.
    pub fn from_u16(v: u16) -> (r: Bitstring128)
        ensures
            spec_encodes_int(r.0@, v as int),
    {
        proof {
            assert(crate::convert::spec_pow10(1) == 10 * crate::convert::spec_pow10(0));
            assert(crate::convert::spec_pow10(2) == 10 * crate::convert::spec_pow10(1));
            assert(crate::convert::spec_pow10(3) == 10 * crate::convert::spec_pow10(2));
            assert(crate::convert::spec_pow10(4) == 10 * crate::convert::spec_pow10(3));
            assert(crate::convert::spec_pow10(5) == 10 * crate::convert::spec_pow10(4));
            assert(crate::convert::spec_pow10(6) == 10 * crate::convert::spec_pow10(5));
            assert(crate::convert::spec_pow10(7) == 10 * crate::convert::spec_pow10(6));
            assert(crate::convert::spec_pow10(8) == 10 * crate::convert::spec_pow10(7));
            assert(crate::convert::spec_pow10(9) == 10 * crate::convert::spec_pow10(8));
            assert(crate::convert::spec_pow10(10) == 10 * crate::convert::spec_pow10(9));
            assert(crate::convert::spec_pow10(11) == 10 * crate::convert::spec_pow10(10));
            assert(crate::convert::spec_pow10(12) == 10 * crate::convert::spec_pow10(11));
            assert(crate::convert::spec_pow10(13) == 10 * crate::convert::spec_pow10(12));
            assert(crate::convert::spec_pow10(14) == 10 * crate::convert::spec_pow10(13));
            assert(crate::convert::spec_pow10(15) == 10 * crate::convert::spec_pow10(14));
            assert(crate::convert::spec_pow10(16) == 10 * crate::convert::spec_pow10(15));
            assert(crate::convert::spec_pow10(17) == 10 * crate::convert::spec_pow10(16));
            assert(crate::convert::spec_pow10(18) == 10 * crate::convert::spec_pow10(17));
            assert(crate::convert::spec_pow10(19) == 10 * crate::convert::spec_pow10(18));
            assert(crate::convert::spec_pow10(20) == 10 * crate::convert::spec_pow10(19));
            assert(crate::convert::spec_pow10(21) == 10 * crate::convert::spec_pow10(20));
            assert(crate::convert::spec_pow10(22) == 10 * crate::convert::spec_pow10(21));
            assert(crate::convert::spec_pow10(23) == 10 * crate::convert::spec_pow10(22));
            assert(crate::convert::spec_pow10(24) == 10 * crate::convert::spec_pow10(23));
            assert(crate::convert::spec_pow10(25) == 10 * crate::convert::spec_pow10(24));
            assert(crate::convert::spec_pow10(26) == 10 * crate::convert::spec_pow10(25));
            assert(crate::convert::spec_pow10(27) == 10 * crate::convert::spec_pow10(26));
            assert(crate::convert::spec_pow10(28) == 10 * crate::convert::spec_pow10(27));
            assert(crate::convert::spec_pow10(29) == 10 * crate::convert::spec_pow10(28));
            assert(crate::convert::spec_pow10(30) == 10 * crate::convert::spec_pow10(29));
            assert(crate::convert::spec_pow10(31) == 10 * crate::convert::spec_pow10(30));
            assert(crate::convert::spec_pow10(32) == 10 * crate::convert::spec_pow10(31));
            assert(crate::convert::spec_pow10(33) == 10 * crate::convert::spec_pow10(32));
            assert(crate::convert::spec_pow10(34) == 10 * crate::convert::spec_pow10(33));
            crate::convert::lemma_nat_ascii_len((v as int) as nat, 34);
        }
        match decimal_from_int_u128(v as u128, 16, true) {
            Ok(buf) => Bitstring128::from_buf(&buf),
            Err(_) => {
                proof {
                    assert(false);
                }
                Bitstring128([0; 16])
            },
        }
    }

    /// Convert an integer into a decimal; every `u32` fits this width.
    pub fn from_u32(v: u32) -> (r: Bitstring128)
        ensures
            spec_encodes_int(r.0@, v as int),
    {
        proof {
            assert(crate::convert::spec_pow10(1) == 10 * crate::convert::spec_pow10(0));
            assert(crate::convert::spec_pow10(2) == 10 * crate::convert::spec_pow10(1));
            assert(crate::convert::spec_pow10(3) == 10 * crate::convert::spec_pow10(2));
            assert(crate::convert::spec_pow10(4) == 10 * crate::convert::spec_pow10(3));
            assert(crate::convert::spec_pow10(5) == 10 * crate::convert::spec_pow10(4));
            assert(crate::convert::spec_pow10(6) == 10 * crate::convert::spec_pow10(5));
            assert(crate::convert::spec_pow10(7) == 10 * crate::convert::spec_pow10(6));
            assert(crate::convert::spec_pow10(8) == 10 * crate::convert::spec_pow10(7));
            assert(crate::convert::spec_pow10(9) == 10 * crate::convert::spec_pow10(8));
            assert(crate::convert::spec_pow10(10) == 10 * crate::convert::spec_pow10(9));
            assert(crate::convert::spec_pow10(11) == 10 * crate::convert::spec_pow10(10));
            assert(crate::convert::spec_pow10(12) == 10 * crate::convert::spec_pow10(11));
            assert(crate::convert::spec_pow10(13) == 10 * crate::convert::spec_pow10(12));
            assert(crate::convert::spec_pow10(14) == 10 * crate::convert::spec_pow10(13));
            assert(crate::convert::spec_pow10(15) == 10 * crate::convert::spec_pow10(14));
            assert(crate::convert::spec_pow10(16) == 10 * crate::convert::spec_pow10(15));
            assert(crate::convert::spec_pow10(17) == 10 * crate::convert::spec_pow10(16));
            assert(crate::convert::spec_pow10(18) == 10 * crate::convert::spec_pow10(17));
            assert(crate::convert::spec_pow10(19) == 10 * crate::convert::spec_pow10(18));
            assert(crate::convert::spec_pow10(20) == 10 * crate::convert::spec_pow10(19));
            assert(crate::convert::spec_pow10(21) == 10 * crate::convert::spec_pow10(20));
            assert(crate::convert::spec_pow10(22) == 10 * crate::convert::spec_pow10(21));
            assert(crate::convert::spec_pow10(23) == 10 * crate::convert::spec_pow10(22));
            assert(crate::convert::spec_pow10(24) == 10 * crate::convert::spec_pow10(23));
            assert(crate::convert::spec_pow10(25) == 10 * crate::convert::spec_pow10(24));
            assert(crate::convert::spec_pow10(26) == 10 * crate::convert::spec_pow10(25));
            assert(crate::convert::spec_pow10(27) == 10 * crate::convert::spec_pow10(26));
            assert(crate::convert::spec_pow10(28) == 10 * crate::convert::spec_pow10(27));
            assert(crate::convert::spec_pow10(29) == 10 * crate::convert::spec_pow10(28));
            assert(crate::convert::spec_pow10(30) == 10 * crate::convert::spec_pow10(29));
            assert(crate::convert::spec_pow10(31) == 10 * crate::convert::spec_pow10(30));
            assert(crate::convert::spec_pow10(32) == 10 * crate::convert::spec_pow10(31));
            assert(crate::convert::spec_pow10(33) == 10 * crate::convert::spec_pow10(32));
            assert(crate::convert::spec_pow10(34) == 10 * crate::convert::spec_pow10(33));
            crate::convert::lemma_nat_ascii_len((v as int) as nat, 34);
        }
        match decimal_from_int_u128(v as u128, 16, true) {
            Ok(buf) => Bitstring128::from_buf(&buf),
            Err(_) => {
                proof {
                    assert(false);
                }
                Bitstring128([0; 16])
            },
        }
    }

    /// Convert an integer into a decimal; every `u64` fits this width.
    pub fn from_u64(v: u64) -> (r: Bitstring128)
        ensures
            spec_encodes_int(r.0@, v as int),
    {
        proof {
            assert(crate::convert::spec_pow10(1) == 10 * crate::convert::spec_pow10(0));
            assert(crate::convert::spec_pow10(2) == 10 * crate::convert::spec_pow10(1));
            assert(crate::convert::spec_pow10(3) == 10 * crate::convert::spec_pow10(2));
            assert(crate::convert::spec_pow10(4) == 10 * crate::convert::spec_pow10(3));
            assert(crate::convert::spec_pow10(5) == 10 * crate::convert::spec_pow10(4));
            assert(crate::convert::spec_pow10(6) == 10 * crate::convert::spec_pow10(5));
            assert(crate::convert::spec_pow10(7) == 10 * crate::convert::spec_pow10(6));
            assert(crate::convert::spec_pow10(8) == 10 * crate::convert::spec_pow10(7));
            assert(crate::convert::spec_pow10(9) == 10 * crate::convert::spec_pow10(8));
            assert(crate::convert::spec_pow10(10) == 10 * crate::convert::spec_pow10(9));
            assert(crate::convert::spec_pow10(11) == 10 * crate::convert::spec_pow10(10));
            assert(crate::convert::spec_pow10(12) == 10 * crate::convert::spec_pow10(11));
            assert(crate::convert::spec_pow10(13) == 10 * crate::convert::spec_pow10(12));
            assert(crate::convert::spec_pow10(14) == 10 * crate::convert::spec_pow10(13));
            assert(crate::convert::spec_pow10(15) == 10 * crate::convert::spec_pow10(14));
            assert(crate::convert::spec_pow10(16) == 10 * crate::convert::spec_pow10(15));
            assert(crate::convert::spec_pow10(17) == 10 * crate::convert::spec_pow10(16));
            assert(crate::convert::spec_pow10(18) == 10 * crate::convert::spec_pow10(17));
            assert(crate::convert::spec_pow10(19) == 10 * crate::convert::spec_pow10(18));
            assert(crate::convert::spec_pow10(20) == 10 * crate::convert::spec_pow10(19));
            assert(crate::convert::spec_pow10(21) == 10 * crate::convert::spec_pow10(20));
            assert(crate::convert::spec_pow10(22) == 10 * crate::convert::spec_pow10(21));
            assert(crate::convert::spec_pow10(23) == 10 * crate::convert::spec_pow10(22));
            assert(crate::convert::spec_pow10(24) == 10 * crate::convert::spec_pow10(23));
            assert(crate::convert::spec_pow10(25) == 10 * crate::convert::spec_pow10(24));
            assert(crate::convert::spec_pow10(26) == 10 * crate::convert::spec_pow10(25));
            assert(crate::convert::spec_pow10(27) == 10 * crate::convert::spec_pow10(26));
            assert(crate::convert::spec_pow10(28) == 10 * crate::convert::spec_pow10(27));
            assert(crate::convert::spec_pow10(29) == 10 * crate::convert::spec_pow10(28));
            assert(crate::convert::spec_pow10(30) == 10 * crate::convert::spec_pow10(29));
            assert(crate::convert::spec_pow10(31) == 10 * crate::convert::spec_pow10(30));
            assert(crate::convert::spec_pow10(32) == 10 * crate::convert::spec_pow10(31));
            assert(crate::convert::spec_pow10(33) == 10 * crate::convert::spec_pow10(32));
            assert(crate::convert::spec_pow10(34) == 10 * crate::convert::spec_pow10(33));
            crate::convert::lemma_nat_ascii_len((v as int) as nat, 34);
        }
        match decimal_from_int_u128(v as u128, 16, true) {
            Ok(buf) => Bitstring128::from_buf(&buf),
            Err(_) => {
                proof {
                    assert(false);
                }
                Bitstring128([0; 16])
            },
        }
    }

    /// Try to convert an integer into a decimal of this width.
    pub fn from_i128(v: i128) -> (r: Option<Bitstring128>)
        ensures
            r is Some <==> crate::num::spec_nat_ascii((if v < 0 { -(v as int) } else { v as int }) as nat).len()
                <= spec_precision_digits(128),
            r is Some ==> spec_encodes_int((r->0).0@, v as int),
    {
        match decimal_from_int_i128(v as i128, 16, true) {
            Ok(buf) => Some(Bitstring128::from_buf(&buf)),
            Err(_) => None,
        }
    }

    /// Try to convert an integer into a decimal of this width.
    pub fn from_u128(v: u128) -> (r: Option<Bitstring128>)
        ensures
            r is Some <==> crate::num::spec_nat_ascii((v as int) as nat).len()
                <= spec_precision_digits(128),
            r is Some ==> spec_encodes_int((r->0).0@, v as int),
    {
        match decimal_from_int_u128(v as u128, 16, true) {
            Ok(buf) => Some(Bitstring128::from_buf(&buf)),
            Err(_) => None,
        }
    }

    /// Try to convert the decimal into an integer, failing on a fraction
    /// or a value out of range.
    pub fn to_i8(&self) -> (r: Option<i8>)
        ensures
            ({
                let neg = spec_is_sign_negative(self.0@);
                let mag = spec_int_magnitude(self.0@);
                &&& (r is Some <==> spec_is_finite(self.0@) && spec_is_integral(self.0@) && (
                if neg {
                    mag <= 0x80
                } else {
                    mag <= 0x7F
                }))
                &&& (r is Some ==> r->0 == if neg {
                    -mag
                } else {
                    mag
                })
            }),
    {
        let buf = self.to_buf();
        proof {
            crate::convert::lemma_int_magnitude_nonneg(self.0@);
        }
        match decimal_to_int_signed(&buf) {
            Ok(v) => if -0x80 <= v && v <= 0x7F { Some(v as i8) } else { None },
            Err(_) => None,
        }
    }

    /// Try to convert the decimal into an integer, failing on a fraction
    /// or a value out of range.
    pub fn to_i16(&self) -> (r: Option<i16>)
        ensures
            ({
                let neg = spec_is_sign_negative(self.0@);
                let mag = spec_int_magnitude(self.0@);
                &&& (r is Some <==> spec_is_finite(self.0@) && spec_is_integral(self.0@) && (
                if neg {
                    mag <= 0x8000
                } else {
                    mag <= 0x7FFF
                }))
                &&& (r is Some ==> r->0 == if neg {
                    -mag
                } else {
                    mag
                })
            }),
    {
        let buf = self.to_buf();
        proof {
            crate::convert::lemma_int_magnitude_nonneg(self.0@);
        }
        match decimal_to_int_signed(&buf) {
            Ok(v) => if -0x8000 <= v && v <= 0x7FFF { Some(v as i16) } else { None },
            Err(_) => None,
        }
    }

    /// Try to convert the decimal into an integer, failing on a fraction
    /// or a value out of range.
    pub fn to_i32(&self) -> (r: Option<i32>)
        ensures
            ({
                let neg = spec_is_sign_negative(self.0@);
                let mag = spec_int_magnitude(self.0@);
                &&& (r is Some <==> spec_is_finite(self.0@) && spec_is_integral(self.0@) && (
                if neg {
                    mag <= 0x80000000
                } else {
                    mag <= 0x7FFFFFFF
                }))
                &&& (r is Some ==> r->0 == if neg {
                    -mag
                } else {
                    mag
                })
            }),
    {
        let buf = self.to_buf();
        proof {
            crate::convert::lemma_int_magnitude_nonneg(self.0@);
        }
        match decimal_to_int_signed(&buf) {
            Ok(v) => if -0x80000000 <= v && v <= 0x7FFFFFFF { Some(v as i32) } else { None },
            Err(_) => None,
        }
    }

    /// Try to convert the decimal into an integer, failing on a fraction
    /// or a value out of range.
    pub fn to_i64(&self) -> (r: Option<i64>)
        ensures
            ({
                let neg = spec_is_sign_negative(self.0@);
                let mag = spec_int_magnitude(self.0@);
                &&& (r is Some <==> spec_is_finite(self.0@) && spec_is_integral(self.0@) && (
                if neg {
                    mag <= 0x8000000000000000
                } else {
                    mag <= 0x7FFFFFFFFFFFFFFF
                }))
                &&& (r is Some ==> r->0 == if neg {
                    -mag
                } else {
                    mag
                })
            }),
    {
        let buf = self.to_buf();
        proof {
            crate::convert::lemma_int_magnitude_nonneg(self.0@);
        }
        match decimal_to_int_signed(&buf) {
            Ok(v) => if -0x8000000000000000 <= v && v <= 0x7FFFFFFFFFFFFFFF { Some(v as i64) } else { None },
            Err(_) => None,
        }
    }

    /// Try to convert the decimal into an integer, failing on a fraction
    /// or a value out of range.
    pub fn to_i128(&self) -> (r: Option<i128>)
        ensures
            ({
                let neg = spec_is_sign_negative(self.0@);
                let mag = spec_int_magnitude(self.0@);
                &&& (r is Some <==> spec_is_finite(self.0@) && spec_is_integral(self.0@) && (
                if neg {
                    mag <= 0x80000000000000000000000000000000
                } else {
                    mag <= 0x7FFFFFFFFFFFFFFFFFFFFFFFFFFFFFFF
                }))
                &&& (r is Some ==> r->0 == if neg {
                    -mag
                } else {
                    mag
                })
            }),
    {
        let buf = self.to_buf();
        proof {
            crate::convert::lemma_int_magnitude_nonneg(self.0@);
        }
        match decimal_to_int_signed(&buf) {
            Ok(v) => Some(v),
            Err(_) => None,
        }
    }

    /// Try to convert the decimal into an unsigned integer, failing on a
    /// fraction, a negative sign or a value out of range.
    pub fn to_u8(&self) -> (r: Option<u8>)
        ensures
            ({
                let mag = spec_int_magnitude(self.0@);
                &&& (r is Some <==> spec_is_finite(self.0@) && spec_is_integral(self.0@)
                    && !spec_is_sign_negative(self.0@) && mag <= 0xFF)
                &&& (r is Some ==> r->0 == mag)
            }),
    {
        let buf = self.to_buf();
        proof {
            crate::convert::lemma_int_magnitude_nonneg(self.0@);
        }
        match decimal_to_int_unsigned(&buf) {
            Ok(v) => if v <= 0xFF { Some(v as u8) } else { None },
            Err(_) => None,
        }
    }

    /// Try to convert the decimal into an unsigned integer, failing on a
    /// fraction, a negative sign or a value out of range.
    pub fn to_u16(&self) -> (r: Option<u16>)
        ensures
            ({
                let mag = spec_int_magnitude(self.0@);
                &&& (r is Some <==> spec_is_finite(self.0@) && spec_is_integral(self.0@)
                    && !spec_is_sign_negative(self.0@) && mag <= 0xFFFF)
                &&& (r is Some ==> r->0 == mag)
            }),
    {
        let buf = self.to_buf();
        proof {
            crate::convert::lemma_int_magnitude_nonneg(self.0@);
        }
        match decimal_to_int_unsigned(&buf) {
            Ok(v) => if v <= 0xFFFF { Some(v as u16) } else { None },
            Err(_) => None,
        }
    }

    /// Try to convert the decimal into an unsigned integer, failing on a
    /// fraction, a negative sign or a value out of range.
    pub fn to_u32(&self) -> (r: Option<u32>)
        ensures
            ({
                let mag = spec_int_magnitude(self.0@);
                &&& (r is Some <==> spec_is_finite(self.0@) && spec_is_integral(self.0@)
                    && !spec_is_sign_negative(self.0@) && mag <= 0xFFFFFFFF)
                &&& (r is Some ==> r->0 == mag)
            }),
    {
        let buf = self.to_buf();
        proof {
            crate::convert::lemma_int_magnitude_nonneg(self.0@);
        }
        match decimal_to_int_unsigned(&buf) {
            Ok(v) => if v <= 0xFFFFFFFF { Some(v as u32) } else { None },
            Err(_) => None,
        }
    }

    /// Try to convert the decimal into an unsigned integer, failing on a
    /// fraction, a negative sign or a value out of range.
    pub fn to_u64(&self) -> (r: Option<u64>)
        ensures
            ({
                let mag = spec_int_magnitude(self.0@);
                &&& (r is Some <==> spec_is_finite(self.0@) && spec_is_integral(self.0@)
                    && !spec_is_sign_negative(self.0@) && mag <= 0xFFFFFFFFFFFFFFFF)
                &&& (r is Some ==> r->0 == mag)
            }),
    {
        let buf = self.to_buf();
        proof {
            crate::convert::lemma_int_magnitude_nonneg(self.0@);
        }
        match decimal_to_int_unsigned(&buf) {
            Ok(v) => if v <= 0xFFFFFFFFFFFFFFFF { Some(v as u64) } else { None },
            Err(_) => None,
        }
    }

    /// Try to convert the decimal into an unsigned integer, failing on a
    /// fraction, a negative sign or a value out of range.
    pub fn to_u128(&self) -> (r: Option<u128>)
        ensures
            ({
                let mag = spec_int_magnitude(self.0@);
                &&& (r is Some <==> spec_is_finite(self.0@) && spec_is_integral(self.0@)
                    && !spec_is_sign_negative(self.0@) && mag <= 0xFFFFFFFFFFFFFFFFFFFFFFFFFFFFFFFF)
                &&& (r is Some ==> r->0 == mag)
            }),
    {
        let buf = self.to_buf();
        proof {
            crate::convert::lemma_int_magnitude_nonneg(self.0@);
        }
        match decimal_to_int_unsigned(&buf) {
            Ok(v) => Some(v),
            Err(_) => None,
        }
    }
}

} // verus!
