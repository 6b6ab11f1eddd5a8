//! User-facing decimal types: a dynamically sized bitstring and the three
//! fixed interchange widths.
//!
//! Every type wraps the same little-endian byte encoding; the fixed widths
//! always encode at exactly their width, while [`Bitstring`] picks the
//! smallest width that fits, up to 160 bits.

use vstd::prelude::*;
use crate::buf::{len_wf, spec_precision_digits, BinaryBuf, MAX_WIDTH_BYTES};
use crate::combination::{spec_biased_exponent, spec_is_finite, spec_is_infinite, spec_is_nan,
    spec_is_quiet_nan, spec_is_sign_negative, spec_is_signaling_nan, spec_msd_bcd};
use crate::convert::{decimal_from_int_i128, decimal_from_int_u128, decimal_from_parsed,
    decimal_to_ascii, decimal_to_int_signed, decimal_to_int_unsigned, encode_max, encode_min,
    spec_all_digits, spec_int_digits, spec_to_text, spec_zeros};
use crate::error::{Error, OverflowError};
use crate::exponent::{spec_bias, spec_digits_val};
use crate::num::spec_nat_ascii;
use crate::significand::spec_padded_digit;
use crate::text::{DecimalParser, ParsedDecimal, spec_parsed_decimal_wf};
use vstd::string::StringSliceAdditionalSpecFns;

verus! {

/// Relies on `String::from_iter` over characters: collecting the bytes of
/// ASCII text as characters yields the string spelling that text.
#[verifier::external_body]
pub(crate) fn ascii_to_string(bytes: &Vec<u8>) -> (s: String)
    ensures
        s@ == bytes@.map_values(|b: u8| b as char),
{
    bytes.iter().map(|b| *b as char).collect()
}

/// The buffer encodes the integer `v` exactly: finite, `v`'s sign, exponent
/// zero, and `v`'s decimal digits right-aligned in the significand.
pub open spec fn spec_encodes_int(bytes: Seq<u8>, v: int) -> bool {
    let digits = spec_nat_ascii((if v < 0 {
        -v
    } else {
        v
    }) as nat);
    &&& spec_is_finite(bytes)
    &&& spec_is_sign_negative(bytes) == (v < 0)
    &&& spec_biased_exponent(bytes) == spec_bias(8 * bytes.len())
    &&& digits.len() <= spec_precision_digits(8 * bytes.len())
    &&& (forall|i: int|
        0 <= i < spec_precision_digits(8 * bytes.len()) - 1 ==> #[trigger] crate::significand::spec_trailing_digit(
            bytes,
            i,
        ) == spec_padded_digit(digits, i))
    &&& spec_msd_bcd(bytes) == (if digits.len() == spec_precision_digits(8 * bytes.len()) {
        (digits[0] - 48) as u8
    } else {
        0u8
    })
}

/// The decimal holds an integer: its exponent does not push any non-zero
/// digit below the ones place.
pub open spec fn spec_is_integral(bytes: Seq<u8>) -> bool {
    let e = spec_biased_exponent(bytes) - spec_bias(8 * bytes.len());
    let p = spec_precision_digits(8 * bytes.len()) as int;
    -p < e && (e >= 0 || spec_all_digits(bytes).subrange(p + e, p) =~= spec_zeros(-e))
}

/// The magnitude of the integer a decimal holds.
pub open spec fn spec_int_magnitude(bytes: Seq<u8>) -> int {
    let e = spec_biased_exponent(bytes) - spec_bias(8 * bytes.len());
    spec_digits_val(spec_int_digits(bytes, e))
}

/// The decimal digits of `n` spell `n`.
proof fn lemma_digits_val_of_nat_ascii(n: nat)
    ensures
        spec_digits_val(spec_nat_ascii(n)) == n,
    decreases n,
{
    if n < 10 {
        assert(spec_nat_ascii(n) =~= seq![(48 + n) as u8]);
        assert(spec_nat_ascii(n).drop_last() =~= Seq::<u8>::empty());
        assert(spec_digits_val(Seq::<u8>::empty()) == 0);
    } else {
        lemma_digits_val_of_nat_ascii(n / 10);
        assert(spec_nat_ascii(n).drop_last() =~= spec_nat_ascii(n / 10));
    }
}

/// A run of zeros spells zero.
proof fn lemma_digits_val_zeros(k: int)
    requires
        k >= 0,
    ensures
        spec_digits_val(spec_zeros(k)) == 0,
    decreases k,
{
    if k == 0 {
        assert(spec_zeros(0) =~= Seq::<u8>::empty());
    } else {
        lemma_digits_val_zeros(k - 1);
        assert(spec_zeros(k).drop_last() =~= spec_zeros(k - 1));
        assert(spec_zeros(k).last() == 48);
    }
}

/// Leading zeros do not change the value a digit string spells.
proof fn lemma_digits_val_zeros_prefix(k: int, s: Seq<u8>)
    requires
        k >= 0,
    ensures
        spec_digits_val(spec_zeros(k) + s) == spec_digits_val(s),
    decreases s.len(),
{
    if s.len() == 0 {
        assert(spec_zeros(k) + s =~= spec_zeros(k));
        lemma_digits_val_zeros(k);
    } else {
        lemma_digits_val_zeros_prefix(k, s.drop_last());
        assert((spec_zeros(k) + s).drop_last() =~= spec_zeros(k) + s.drop_last());
        assert((spec_zeros(k) + s).last() == s.last());
    }
}

/// A decimal that encodes the integer `v` reads back as exactly `v`:
/// it is integral, its magnitude is `|v|` and its sign bit matches.
///
/// Together with the integer encoders' and decoders' own contracts, this
/// makes the round trip from any primitive integer through a decimal and
/// back the identity.
pub proof fn lemma_int_roundtrip(bytes: Seq<u8>, v: int)
    requires
        len_wf(bytes.len()),
        spec_encodes_int(bytes, v),
    ensures
        spec_is_integral(bytes),
        spec_int_magnitude(bytes) == (if v < 0 {
            -v
        } else {
            v
        }),
        spec_is_sign_negative(bytes) == (v < 0),
{
    let mag: nat = (if v < 0 {
        -v
    } else {
        v
    }) as nat;
    let digits = spec_nat_ascii(mag);
    let p = spec_precision_digits(8 * bytes.len()) as int;
    let all = spec_all_digits(bytes);
    crate::buf::lemma_widths_fit(bytes.len() as nat);
    let l = digits.len() as int;
    assert(all =~= spec_zeros(p - l) + digits) by {
        assert forall|i: int| 0 <= i < p implies all[i] == (spec_zeros(p - l) + digits)[i] by {
            if i == 0 {
                crate::convert::lemma_nat_ascii_digits(mag);
                if l == p {
                    assert(crate::significand::is_ascii_digit(digits[0]));
                    assert(spec_msd_bcd(bytes) == (digits[0] - 48) as u8);
                    assert(all[0] == digits[0]);
                    assert((spec_zeros(p - l) + digits)[0] == digits[0]);
                } else {
                    assert(spec_msd_bcd(bytes) == 0);
                    assert(all[0] == 48);
                    assert((spec_zeros(p - l) + digits)[0] == 48);
                }
            } else {
                let j = p - 1 - i;
                assert(crate::significand::spec_trailing_digit(bytes, j) == spec_padded_digit(
                    digits,
                    j,
                ));
                if j < l {
                    assert(spec_padded_digit(digits, j) == digits[l - 1 - j]);
                    assert((spec_zeros(p - l) + digits)[i] == digits[i - (p - l)]);
                } else {
                    assert(spec_padded_digit(digits, j) == 48);
                    assert((spec_zeros(p - l) + digits)[i] == 48);
                }
            }
        }
    }
    assert(spec_int_digits(bytes, 0) =~= all + spec_zeros(0));
    assert(all + spec_zeros(0) =~= all);
    lemma_digits_val_zeros_prefix(p - l, digits);
    lemma_digits_val_of_nat_ascii(mag);
    assert(spec_int_magnitude(bytes) == spec_digits_val(all));
}

/// A dynamically sized decimal number with enough precision to fit any
/// primitive integer, up to 160 bits wide.
#[derive(Debug, Clone)]
pub struct Bitstring {
    pub buf: BinaryBuf,
}

impl Bitstring {
    /// The wrapped buffer has a legal width.
    pub open spec fn wf(&self) -> bool {
        self.buf.wf()
    }

    /// Try to parse a decimal from a string, choosing the smallest width
    /// that fits it.
    pub fn try_parse_str(s: &str) -> (r: Result<Bitstring, Error>)
        ensures
            r is Ok ==> r->Ok_0.wf() && exists|p: ParsedDecimal|
                #[trigger] spec_parsed_decimal_wf(p, s.spec_bytes())
                    && crate::convert::spec_encoding_of(p, r->Ok_0.buf.bytes@)
                    && crate::convert::spec_minimal_width(p, r->Ok_0.buf.bytes@),
            r is Err ==> !crate::text::spec_valid_decimal(s.spec_bytes()) || (exists|
                p: ParsedDecimal,
            |
                #[trigger] spec_parsed_decimal_wf(p, s.spec_bytes())
                    && !crate::convert::spec_encodable(p, MAX_WIDTH_BYTES as int)),
            r is Err ==> (r->Err_0.kind matches crate::error::ErrorKind::Parse(e)
                && !crate::text::spec_valid_decimal(s.spec_bytes())) || (r->Err_0.kind matches
            crate::error::ErrorKind::Overflow(e) && (e.max_width == MAX_WIDTH_BYTES || (
            e.max_width == 4 && e.required_width is None))),
    {
        let parsed = match DecimalParser::parse_str(s) {
            Ok(p) => p,
            Err(e) => {
                return Err(Error::from_parse(e));
            },
        };
        match decimal_from_parsed(&parsed, MAX_WIDTH_BYTES, false) {
            Ok(buf) => {
                proof {
                    assert(spec_parsed_decimal_wf(parsed, s.spec_bytes())
                        && crate::convert::spec_encoding_of(parsed, buf.bytes@)
                        && crate::convert::spec_minimal_width(parsed, buf.bytes@));
                }
                Ok(Bitstring { buf })
            },
            Err(e) => Err(Error::from_overflow(e)),
        }
    }

    /// Try to create a decimal from little-endian bytes. The byte count
    /// must be a positive multiple of 4, at most 20.
    pub fn try_from_le_bytes(bytes: &[u8]) -> (r: Result<Bitstring, Error>)
        ensures
            r is Ok <==> 4 <= bytes@.len() <= MAX_WIDTH_BYTES && bytes@.len() % 4 == 0,
            r is Ok ==> r->Ok_0.wf() && r->Ok_0.buf.bytes@ == bytes@,
            r is Err ==> (r->Err_0.kind matches crate::error::ErrorKind::Overflow(e) && (
            if bytes@.len() == 0 || bytes@.len() % 4 != 0 {
                e.max_width == bytes@.len() && (bytes@.len() <= 0x1000_0000 ==> e.required_width
                    == Some((bytes@.len() + 4 - bytes@.len() % 4) as usize))
            } else {
                e.max_width == MAX_WIDTH_BYTES && e.required_width == Some(bytes@.len() as usize)
            })),
    {
        let n = bytes.len();
        if n == 0 || n % 4 != 0 {
            let required: usize = if n <= 0x1000_0000 {
                n + 4 - (n % 4)
            } else {
                n
            };
            return Err(
                Error::from_overflow(
                    OverflowError::exact_size_mismatch(
                        n,
                        required,
                        "decimals must be a multiple of 32 bits (4 bytes)",
                    ),
                ),
            );
        }
        match BinaryBuf::try_with_exactly_storage_width_bytes(n, MAX_WIDTH_BYTES) {
            Ok(_) => {
                let buf = BinaryBuf { bytes: vstd::slice::slice_to_vec(bytes) };
                Ok(Bitstring { buf })
            },
            Err(e) => Err(Error::from_overflow(e)),
        }
    }

    /// The little-endian bytes of the decimal.
    pub fn as_le_bytes(&self) -> (r: &[u8])
        ensures
            r@ == self.buf.bytes@,
    {
        self.buf.bytes.as_slice()
    }

    /// Render the decimal as text. A buffer whose length is not a legal
    /// interchange width renders as the empty string; no constructor of
    /// this type produces one.
    pub fn to_string(&self) -> (r: String)
        ensures
            self.wf() ==> r@ == spec_to_text(self.buf.bytes@).map_values(|b: u8| b as char),
    {
        let len = self.buf.bytes.len();
        if len < 4 || len > MAX_WIDTH_BYTES || len % 4 != 0 {
            return String::new();
        }
        let ascii = decimal_to_ascii(&self.buf);
        ascii_to_string(&ascii)
    }

    /// The finite value zero, 32 bits wide.
    pub fn zero() -> (r: Bitstring)
        ensures
            r.wf(),
            spec_encodes_int(r.buf.bytes@, 0),
    {
        Bitstring::from_u128(0)
    }

    /// The largest finite value of the widest dynamic width.
    pub fn max() -> (r: Bitstring)
        ensures
            r.wf(),
            spec_is_finite(r.buf.bytes@),
            !spec_is_sign_negative(r.buf.bytes@),
            crate::combination::spec_msd_bcd(r.buf.bytes@) == 9,
            forall|i: int|
                0 <= i < spec_precision_digits(8 * r.buf.bytes@.len()) - 1
                    ==> #[trigger] crate::significand::spec_trailing_digit(r.buf.bytes@, i) == 57,
            crate::combination::spec_biased_exponent(r.buf.bytes@) - spec_bias(
                8 * r.buf.bytes@.len(),
            ) == crate::exponent::spec_emax(8 * r.buf.bytes@.len()) - spec_precision_digits(
                8 * r.buf.bytes@.len(),
            ),
    {
        let mut buf = BinaryBuf::zeroed(MAX_WIDTH_BYTES);
        encode_max(&mut buf, false);
        Bitstring { buf }
    }

    /// The smallest finite value of the widest dynamic width.
    pub fn min() -> (r: Bitstring)
        ensures
            r.wf(),
            spec_is_finite(r.buf.bytes@),
            spec_is_sign_negative(r.buf.bytes@),
            crate::combination::spec_msd_bcd(r.buf.bytes@) == 9,
            forall|i: int|
                0 <= i < spec_precision_digits(8 * r.buf.bytes@.len()) - 1
                    ==> #[trigger] crate::significand::spec_trailing_digit(r.buf.bytes@, i) == 57,
            crate::combination::spec_biased_exponent(r.buf.bytes@) - spec_bias(
                8 * r.buf.bytes@.len(),
            ) == crate::exponent::spec_emax(8 * r.buf.bytes@.len()) - spec_precision_digits(
                8 * r.buf.bytes@.len(),
            ),
    {
        let mut buf = BinaryBuf::zeroed(MAX_WIDTH_BYTES);
        encode_max(&mut buf, true);
        Bitstring { buf }
    }

    /// The smallest positive non-zero value of the widest dynamic width.
    pub fn min_positive() -> (r: Bitstring)
        ensures
            r.wf(),
            spec_is_finite(r.buf.bytes@),
            !spec_is_sign_negative(r.buf.bytes@),
            crate::combination::spec_biased_exponent(r.buf.bytes@) == 0,
            crate::significand::spec_trailing_digit(r.buf.bytes@, 0) == 49,
    {
        let mut buf = BinaryBuf::zeroed(MAX_WIDTH_BYTES);
        encode_min(&mut buf, false);
        Bitstring { buf }
    }

    /// Whether or not the sign bit is set.
    pub fn is_sign_negative(&self) -> (r: bool)
        requires
            self.wf(),
        ensures
            r == spec_is_sign_negative(self.buf.bytes@),
    {
        crate::combination::is_sign_negative(&self.buf)
    }

    /// Whether or not the decimal is a finite number.
    pub fn is_finite(&self) -> (r: bool)
        requires
            self.wf(),
        ensures
            r == spec_is_finite(self.buf.bytes@),
    {
        crate::combination::is_finite(&self.buf)
    }

    /// Whether or not the decimal is an infinity.
    pub fn is_infinite(&self) -> (r: bool)
        requires
            self.wf(),
        ensures
            r == spec_is_infinite(self.buf.bytes@),
    {
        crate::combination::is_infinite(&self.buf)
    }

    /// Whether the decimal is a NaN.
    pub fn is_nan(&self) -> (r: bool)
        requires
            self.wf(),
        ensures
            r == spec_is_nan(self.buf.bytes@),
    {
        crate::combination::is_nan(&self.buf)
    }

    /// Whether the decimal is a quiet NaN.
    pub fn is_quiet_nan(&self) -> (r: bool)
        requires
            self.wf(),
        ensures
            r == spec_is_quiet_nan(self.buf.bytes@),
    {
        crate::combination::is_quiet_nan(&self.buf)
    }

    /// Whether the decimal is a signaling NaN.
    pub fn is_signaling_nan(&self) -> (r: bool)
        requires
            self.wf(),
        ensures
            r == spec_is_signaling_nan(self.buf.bytes@),
    {
        crate::combination::is_signaling_nan(&self.buf)
    }

    /// Convert a signed integer into a decimal.
    pub fn from_i128(v: i128) -> (r: Bitstring)
        ensures
            r.wf(),
            spec_encodes_int(r.buf.bytes@, v as int),
    {
        proof {
            crate::convert::lemma_nat_ascii_len_u128((if v < 0 {
                -v
            } else {
                v as int
            }) as nat);
        }
        match decimal_from_int_i128(v, MAX_WIDTH_BYTES, false) {
            Ok(buf) => Bitstring { buf },
            Err(_) => {
                proof {
                    assert(false);
                }
                Bitstring { buf: BinaryBuf::zeroed(4) }
            },
        }
    }

    /// Convert an unsigned integer into a decimal.
    pub fn from_u128(v: u128) -> (r: Bitstring)
        ensures
            r.wf(),
            spec_encodes_int(r.buf.bytes@, v as int),
    {
        proof {
            crate::convert::lemma_nat_ascii_len_u128(v as nat);
        }
        match decimal_from_int_u128(v, MAX_WIDTH_BYTES, false) {
            Ok(buf) => Bitstring { buf },
            Err(_) => {
                proof {
                    assert(false);
                }
                Bitstring { buf: BinaryBuf::zeroed(4) }
            },
        }
    }

    /// Try to convert the decimal into a signed integer.
    pub fn to_i128(&self) -> (r: Option<i128>)
        requires
            self.wf(),
        ensures
            ({
                let bytes = self.buf.bytes@;
                let neg = spec_is_sign_negative(bytes);
                let mag = spec_int_magnitude(bytes);
                &&& (r is Some <==> spec_is_finite(bytes) && spec_is_integral(bytes) && (if neg {
                    mag <= 0x8000_0000_0000_0000_0000_0000_0000_0000
                } else {
                    mag <= i128::MAX
                }))
                &&& (r is Some ==> r->0 == if neg {
                    -mag
                } else {
                    mag
                })
            }),
    {
        match decimal_to_int_signed(&self.buf) {
            Ok(v) => Some(v),
            Err(_) => None,
        }
    }

    /// Try to convert the decimal into an unsigned integer.
    pub fn to_u128(&self) -> (r: Option<u128>)
        requires
            self.wf(),
        ensures
            ({
                let bytes = self.buf.bytes@;
                let mag = spec_int_magnitude(bytes);
                &&& (r is Some <==> spec_is_finite(bytes) && spec_is_integral(bytes)
                    && !spec_is_sign_negative(bytes) && mag <= u128::MAX)
                &&& (r is Some ==> r->0 == mag)
            }),
    {
        match decimal_to_int_unsigned(&self.buf) {
            Ok(v) => Some(v),
            Err(_) => None,
        }
    }

    /// Convert an integer into a decimal; every `i8` fits.
    pub fn from_i8(v: i8) -> (r: Bitstring)
        ensures
            r.wf(),
            spec_encodes_int(r.buf.bytes@, v as int),
    {
        Bitstring::from_i128(v as i128)
    }

    /// Convert an integer into a decimal; every `i16` fits.
    pub fn from_i16(v: i16) -> (r: Bitstring)
        ensures
            r.wf(),
            spec_encodes_int(r.buf.bytes@, v as int),
    {
        Bitstring::from_i128(v as i128)
    }

    /// Convert an integer into a decimal; every `i32` fits.
    pub fn from_i32(v: i32) -> (r: Bitstring)
        ensures
            r.wf(),
            spec_encodes_int(r.buf.bytes@, v as int),
    {
        Bitstring::from_i128(v as i128)
    }

    /// Convert an integer into a decimal; every `i64` fits.
    pub fn from_i64(v: i64) -> (r: Bitstring)
        ensures
            r.wf(),
            spec_encodes_int(r.buf.bytes@, v as int),
    {
        Bitstring::from_i128(v as i128)
    }

    /// Convert an unsigned integer into a decimal; every `u8` fits.
    pub fn from_u8(v: u8) -> (r: Bitstring)
        ensures
            r.wf(),
            spec_encodes_int(r.buf.bytes@, v as int),
    {
        Bitstring::from_u128(v as u128)
    }

    /// Convert an unsigned integer into a decimal; every `u16` fits.
    pub fn from_u16(v: u16) -> (r: Bitstring)
        ensures
            r.wf(),
            spec_encodes_int(r.buf.bytes@, v as int),
    {
        Bitstring::from_u128(v as u128)
    }

    /// Convert an unsigned integer into a decimal; every `u32` fits.
    pub fn from_u32(v: u32) -> (r: Bitstring)
        ensures
            r.wf(),
            spec_encodes_int(r.buf.bytes@, v as int),
    {
        Bitstring::from_u128(v as u128)
    }

    /// Convert an unsigned integer into a decimal; every `u64` fits.
    pub fn from_u64(v: u64) -> (r: Bitstring)
        ensures
            r.wf(),
            spec_encodes_int(r.buf.bytes@, v as int),
    {
        Bitstring::from_u128(v as u128)
    }

    /// Try to convert the decimal into an integer, failing on a fraction
    /// or a value out of range.
    pub fn to_i8(&self) -> (r: Option<i8>)
        requires
            self.wf(),
        ensures
            ({
                let bytes = self.buf.bytes@;
                let neg = spec_is_sign_negative(bytes);
                let mag = spec_int_magnitude(bytes);
                &&& (r is Some <==> spec_is_finite(bytes) && spec_is_integral(bytes) && (if neg {
                    mag <= 0x80
                } else {
                    mag <= 0x7F
                }))
                &&& (r is Some ==> r->0 == if neg {
                    -mag
                } else {
                    mag
                })
            }),
    {
        proof {
            crate::convert::lemma_int_magnitude_nonneg(self.buf.bytes@);
        }
        match crate::convert::decimal_to_int_signed(&self.buf) {
            Ok(v) => if -0x80 <= v && v <= 0x7F {
                Some(v as i8)
            } else {
                None
            },
            Err(_) => None,
        }
    }

    /// Try to convert the decimal into an integer, failing on a fraction
    /// or a value out of range.
    pub fn to_i16(&self) -> (r: Option<i16>)
        requires
            self.wf(),
        ensures
            ({
                let bytes = self.buf.bytes@;
                let neg = spec_is_sign_negative(bytes);
                let mag = spec_int_magnitude(bytes);
                &&& (r is Some <==> spec_is_finite(bytes) && spec_is_integral(bytes) && (if neg {
                    mag <= 0x8000
                } else {
                    mag <= 0x7FFF
                }))
                &&& (r is Some ==> r->0 == if neg {
                    -mag
                } else {
                    mag
                })
            }),
    {
        proof {
            crate::convert::lemma_int_magnitude_nonneg(self.buf.bytes@);
        }
        match crate::convert::decimal_to_int_signed(&self.buf) {
            Ok(v) => if -0x8000 <= v && v <= 0x7FFF {
                Some(v as i16)
            } else {
                None
            },
            Err(_) => None,
        }
    }

    /// Try to convert the decimal into an integer, failing on a fraction
    /// or a value out of range.
    pub fn to_i32(&self) -> (r: Option<i32>)
        requires
            self.wf(),
        ensures
            ({
                let bytes = self.buf.bytes@;
                let neg = spec_is_sign_negative(bytes);
                let mag = spec_int_magnitude(bytes);
                &&& (r is Some <==> spec_is_finite(bytes) && spec_is_integral(bytes) && (if neg {
                    mag <= 0x80000000
                } else {
                    mag <= 0x7FFFFFFF
                }))
                &&& (r is Some ==> r->0 == if neg {
                    -mag
                } else {
                    mag
                })
            }),
    {
        proof {
            crate::convert::lemma_int_magnitude_nonneg(self.buf.bytes@);
        }
        match crate::convert::decimal_to_int_signed(&self.buf) {
            Ok(v) => if -0x80000000 <= v && v <= 0x7FFFFFFF {
                Some(v as i32)
            } else {
                None
            },
            Err(_) => None,
        }
    }

    /// Try to convert the decimal into an integer, failing on a fraction
    /// or a value out of range.
    pub fn to_i64(&self) -> (r: Option<i64>)
        requires
            self.wf(),
        ensures
            ({
                let bytes = self.buf.bytes@;
                let neg = spec_is_sign_negative(bytes);
                let mag = spec_int_magnitude(bytes);
                &&& (r is Some <==> spec_is_finite(bytes) && spec_is_integral(bytes) && (if neg {
                    mag <= 0x8000000000000000
                } else {
                    mag <= 0x7FFFFFFFFFFFFFFF
                }))
                &&& (r is Some ==> r->0 == if neg {
                    -mag
                } else {
                    mag
                })
            }),
    {
        proof {
            crate::convert::lemma_int_magnitude_nonneg(self.buf.bytes@);
        }
        match crate::convert::decimal_to_int_signed(&self.buf) {
            Ok(v) => if -0x8000000000000000 <= v && v <= 0x7FFFFFFFFFFFFFFF {
                Some(v as i64)
            } else {
                None
            },
            Err(_) => None,
        }
    }

    /// Try to convert the decimal into an unsigned integer, failing on a
    /// fraction, a negative sign or a value out of range.
    pub fn to_u8(&self) -> (r: Option<u8>)
        requires
            self.wf(),
        ensures
            ({
                let bytes = self.buf.bytes@;
                let mag = spec_int_magnitude(bytes);
                &&& (r is Some <==> spec_is_finite(bytes) && spec_is_integral(bytes)
                    && !spec_is_sign_negative(bytes) && mag <= 0xFF)
                &&& (r is Some ==> r->0 == mag)
            }),
    {
        proof {
            crate::convert::lemma_int_magnitude_nonneg(self.buf.bytes@);
        }
        match crate::convert::decimal_to_int_unsigned(&self.buf) {
            Ok(v) => if v <= 0xFF {
                Some(v as u8)
            } else {
                None
            },
            Err(_) => None,
        }
    }

    /// Try to convert the decimal into an unsigned integer, failing on a
    /// fraction, a negative sign or a value out of range.
    pub fn to_u16(&self) -> (r: Option<u16>)
        requires
            self.wf(),
        ensures
            ({
                let bytes = self.buf.bytes@;
                let mag = spec_int_magnitude(bytes);
                &&& (r is Some <==> spec_is_finite(bytes) && spec_is_integral(bytes)
                    && !spec_is_sign_negative(bytes) && mag <= 0xFFFF)
                &&& (r is Some ==> r->0 == mag)
            }),
    {
        proof {
            crate::convert::lemma_int_magnitude_nonneg(self.buf.bytes@);
        }
        match crate::convert::decimal_to_int_unsigned(&self.buf) {
            Ok(v) => if v <= 0xFFFF {
                Some(v as u16)
            } else {
                None
            },
            Err(_) => None,
        }
    }

    /// Try to convert the decimal into an unsigned integer, failing on a
    /// fraction, a negative sign or a value out of range.
    pub fn to_u32(&self) -> (r: Option<u32>)
        requires
            self.wf(),
        ensures
            ({
                let bytes = self.buf.bytes@;
                let mag = spec_int_magnitude(bytes);
                &&& (r is Some <==> spec_is_finite(bytes) && spec_is_integral(bytes)
                    && !spec_is_sign_negative(bytes) && mag <= 0xFFFFFFFF)
                &&& (r is Some ==> r->0 == mag)
            }),
    {
        proof {
            crate::convert::lemma_int_magnitude_nonneg(self.buf.bytes@);
        }
        match crate::convert::decimal_to_int_unsigned(&self.buf) {
            Ok(v) => if v <= 0xFFFFFFFF {
                Some(v as u32)
            } else {
                None
            },
            Err(_) => None,
        }
    }

    /// Try to convert the decimal into an unsigned integer, failing on a
    /// fraction, a negative sign or a value out of range.
    pub fn to_u64(&self) -> (r: Option<u64>)
        requires
            self.wf(),
        ensures
            ({
                let bytes = self.buf.bytes@;
                let mag = spec_int_magnitude(bytes);
                &&& (r is Some <==> spec_is_finite(bytes) && spec_is_integral(bytes)
                    && !spec_is_sign_negative(bytes) && mag <= 0xFFFFFFFFFFFFFFFF)
                &&& (r is Some ==> r->0 == mag)
            }),
    {
        proof {
            crate::convert::lemma_int_magnitude_nonneg(self.buf.bytes@);
        }
        match crate::convert::decimal_to_int_unsigned(&self.buf) {
            Ok(v) => if v <= 0xFFFFFFFFFFFFFFFF {
                Some(v as u64)
            } else {
                None
            },
            Err(_) => None,
        }
    }
}

} // verus!
