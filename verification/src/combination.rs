//! The combination field: sign, classification, most significant digit and
//! exponent.
//!
//! The last (most significant) byte of a decimal carries the sign at bit 7
//! and the 5-bit combination field at bits 6..2. For finite numbers the
//! combination field packs the top two bits of the biased exponent together
//! with the most significant digit; the remaining exponent bits run from the
//! end of the trailing significand up to bit 1 of the last byte.
//!
//! Classification needs only the last byte:
//! `byte & 0x78 != 0x78` means finite, `byte & 0x7E == 0x78` infinity, and
//! `byte & 0x7C == 0x7C` NaN, with bit 1 separating quiet from signaling.

use vstd::prelude::*;
use vstd::arithmetic::power2::pow2;
use crate::bits::{bit_at, bits_clear, byte_bit, field, lemma_field_congruence, read_bits, set_bit,
    write_bits};
use crate::buf::{lemma_widths_fit, spec_trailing_exp_bits, spec_trailing_sig_bits, BinaryBuf};
use crate::exponent::{bias, spec_bias, spec_biased_range};
use crate::significand::MostSignificantDigit;

verus! {

/// The last (most significant) byte of the buffer.
pub open spec fn spec_msb(bytes: Seq<u8>) -> u8 {
    bytes[bytes.len() - 1]
}

/// The decimal encodes a finite number.
pub open spec fn spec_is_finite(bytes: Seq<u8>) -> bool {
    spec_msb(bytes) & 0x78 != 0x78
}

/// The decimal encodes an infinity.
pub open spec fn spec_is_infinite(bytes: Seq<u8>) -> bool {
    spec_msb(bytes) & 0x7E == 0x78
}

/// The decimal encodes a NaN, quiet or signaling.
pub open spec fn spec_is_nan(bytes: Seq<u8>) -> bool {
    spec_msb(bytes) & 0x7C == 0x7C
}

/// The decimal encodes a quiet NaN.
pub open spec fn spec_is_quiet_nan(bytes: Seq<u8>) -> bool {
    spec_msb(bytes) & 0x7E == 0x7C
}

/// The decimal encodes a signaling NaN.
pub open spec fn spec_is_signaling_nan(bytes: Seq<u8>) -> bool {
    spec_msb(bytes) & 0x7E == 0x7E
}

/// The sign bit is set.
pub open spec fn spec_is_sign_negative(bytes: Seq<u8>) -> bool {
    spec_msb(bytes) & 0x80 == 0x80
}

/// The 5-bit combination field, bits 6..2 of the last byte.
pub open spec fn spec_comb5(bytes: Seq<u8>) -> u8 {
    field(bytes, 8 * bytes.len() - 6, 5) as u8
}

/// The most significant digit a finite decimal encodes: three plain bits
/// when it is small, or `8 | lowest bit` under the `11` marker when it is 8
/// or 9.
pub open spec fn spec_msd_bcd(bytes: Seq<u8>) -> u8 {
    let c = spec_comb5(bytes);
    if c >> 3 == 3 {
        (8 + (c & 1)) as u8
    } else {
        c & 7
    }
}

/// The top two bits of the biased exponent, recovered from the combination
/// field.
pub open spec fn spec_exp_top2(bytes: Seq<u8>) -> u8 {
    let c = spec_comb5(bytes);
    if c >> 3 == 3 {
        (c >> 1) & 3
    } else {
        c >> 3
    }
}

/// The biased exponent a finite decimal stores: the trailing exponent bits
/// with the combination field's two bits on top.
pub open spec fn spec_biased_exponent(bytes: Seq<u8>) -> int {
    let k = (8 * bytes.len()) as nat;
    field(bytes, spec_trailing_sig_bits(k) as int, spec_trailing_exp_bits(k)) + pow2(
        spec_trailing_exp_bits(k),
    ) * spec_exp_top2(bytes)
}

/// Exactly one of finite, infinite and NaN holds of a bitstring, and the
/// NaN case splits exactly into quiet and signaling.
///
/// The one family of last bytes left out is `byte & 0x7E == 0x7A`: a
/// non-canonical pattern whose combination field marks an infinity but
/// whose bit 1 is set. No encoder of this library produces it, and the
/// classifiers call it neither finite, infinite nor NaN.
pub proof fn lemma_classification(bytes: Seq<u8>)
    requires
        bytes.len() > 0,
        spec_msb(bytes) & 0x7E != 0x7A,
    ensures
        spec_is_finite(bytes) <==> !(spec_is_infinite(bytes) || spec_is_nan(bytes)),
        !(spec_is_infinite(bytes) && spec_is_nan(bytes)),
        spec_is_nan(bytes) <==> (spec_is_quiet_nan(bytes) || spec_is_signaling_nan(bytes)),
        !(spec_is_quiet_nan(bytes) && spec_is_signaling_nan(bytes)),
{
    let b = spec_msb(bytes);
    assert(((b & 0x78 != 0x78) == !((b & 0x7E == 0x78) || (b & 0x7C == 0x7C))) && !((b & 0x7E
        == 0x78) && (b & 0x7C == 0x7C)) && ((b & 0x7C == 0x7C) == ((b & 0x7E == 0x7C) || (b & 0x7E
        == 0x7E))) && !((b & 0x7E == 0x7C) && (b & 0x7E == 0x7E))) by (bit_vector)
        requires
            b & 0x7E != 0x7A,
    ;
}

/// The combination field is the last byte shifted and masked.
proof fn lemma_comb5_byte(bytes: Seq<u8>)
    requires
        bytes.len() >= 1,
    ensures
        spec_comb5(bytes) == (spec_msb(bytes) >> 2) & 0x1F,
{
    let bi = bytes.len() - 1;
    let lo = 8 * bytes.len() - 6;
    let x = bytes[bi];
    assert(field(bytes, lo, 0) == 0);
    crate::bits::lemma_field_snoc(bytes, lo, 0);
    crate::bits::lemma_field_snoc(bytes, lo, 1);
    crate::bits::lemma_field_snoc(bytes, lo, 2);
    crate::bits::lemma_field_snoc(bytes, lo, 3);
    crate::bits::lemma_field_snoc(bytes, lo, 4);
    vstd::arithmetic::power2::lemma2_to64();
    assert((lo + 0) / 8 == bi && (lo + 0) % 8 == 2);
    assert((lo + 1) / 8 == bi && (lo + 1) % 8 == 3);
    assert((lo + 2) / 8 == bi && (lo + 2) % 8 == 4);
    assert((lo + 3) / 8 == bi && (lo + 3) % 8 == 5);
    assert((lo + 4) / 8 == bi && (lo + 4) % 8 == 6);
    assert(((x >> 2) & 0x1F) == (if byte_bit(x, 2) {
        1u8
    } else {
        0u8
    }) + 2 * (if byte_bit(x, 3) {
        1u8
    } else {
        0u8
    }) + 4 * (if byte_bit(x, 4) {
        1u8
    } else {
        0u8
    }) + 8 * (if byte_bit(x, 5) {
        1u8
    } else {
        0u8
    }) + 16 * (if byte_bit(x, 6) {
        1u8
    } else {
        0u8
    })) by (bit_vector);
}

/// The sign bit of the buffer is bit 7 of the last byte.
proof fn lemma_sign_bit(bytes: Seq<u8>)
    requires
        bytes.len() >= 1,
    ensures
        bit_at(bytes, 8 * bytes.len() - 1) == spec_is_sign_negative(bytes),
{
    let bi = bytes.len() - 1;
    let x = bytes[bi];
    assert((8 * bytes.len() - 1) / 8 == bi && (8 * bytes.len() - 1) % 8 == 7);
    assert(byte_bit(x, 7) == (x & 0x80 == 0x80)) by (bit_vector);
}

/// Whether or not the decimal is finite.
pub fn is_finite(decimal: &BinaryBuf) -> (r: bool)
    requires
        decimal.wf(),
    ensures
        r == spec_is_finite(decimal.bytes@),
{
    let b = decimal.bytes[decimal.bytes.len() - 1];
    b & 0x78 != 0x78
}

/// Whether or not the decimal is an infinity.
pub fn is_infinite(decimal: &BinaryBuf) -> (r: bool)
    requires
        decimal.wf(),
    ensures
        r == spec_is_infinite(decimal.bytes@),
{
    let b = decimal.bytes[decimal.bytes.len() - 1];
    b & 0x7E == 0x78
}

/// Whether or not the decimal is a NaN.
pub fn is_nan(decimal: &BinaryBuf) -> (r: bool)
    requires
        decimal.wf(),
    ensures
        r == spec_is_nan(decimal.bytes@),
{
    let b = decimal.bytes[decimal.bytes.len() - 1];
    b & 0x7C == 0x7C
}

/// Whether or not the decimal is a quiet NaN.
pub fn is_quiet_nan(decimal: &BinaryBuf) -> (r: bool)
    requires
        decimal.wf(),
    ensures
        r == spec_is_quiet_nan(decimal.bytes@),
{
    let b = decimal.bytes[decimal.bytes.len() - 1];
    b & 0x7E == 0x7C
}

/// Whether or not the decimal is a signaling NaN.
pub fn is_signaling_nan(decimal: &BinaryBuf) -> (r: bool)
    requires
        decimal.wf(),
    ensures
        r == spec_is_signaling_nan(decimal.bytes@),
{
    let b = decimal.bytes[decimal.bytes.len() - 1];
    b & 0x7E == 0x7E
}

/// Whether or not the sign bit is set.
pub fn is_sign_negative(decimal: &BinaryBuf) -> (r: bool)
    requires
        decimal.wf(),
    ensures
        r == spec_is_sign_negative(decimal.bytes@),
{
    let b = decimal.bytes[decimal.bytes.len() - 1];
    b & 0x80 == 0x80
}

/// Encode an infinity: the last byte becomes the sign plus the `11110`
/// marker; every other byte is left as it was (all zero for a fresh
/// buffer).
pub fn encode_combination_infinity(decimal: &mut BinaryBuf, is_infinity_negative: bool)
    requires
        old(decimal).wf(),
    ensures
        final(decimal).wf(),
        final(decimal).bytes@ == old(decimal).bytes@.update(
            old(decimal).bytes@.len() - 1,
            if is_infinity_negative {
                0xF8u8
            } else {
                0x78u8
            },
        ),
        spec_is_infinite(final(decimal).bytes@),
        !spec_is_finite(final(decimal).bytes@),
        !spec_is_nan(final(decimal).bytes@),
        spec_is_sign_negative(final(decimal).bytes@) == is_infinity_negative,
{
    let idx = decimal.bytes.len() - 1;
    let b: u8 = if is_infinity_negative {
        0xF8
    } else {
        0x78
    };
    decimal.bytes.set(idx, b);
    proof {
        assert((0xF8u8 & 0x7E == 0x78) && (0x78u8 & 0x7E == 0x78) && (0xF8u8 & 0x78 == 0x78) && (
        0x78u8 & 0x78 == 0x78) && (0xF8u8 & 0x7C != 0x7C) && (0x78u8 & 0x7C != 0x7C) && (0xF8u8
            & 0x80 == 0x80) && (0x78u8 & 0x80 == 0)) by (bit_vector);
    }
}

/// Encode a NaN header: the last byte becomes the sign, the `11111` marker
/// and the signaling flag; every other byte is left as it was, so a payload
/// already written to the trailing significand survives.
pub fn encode_combination_nan(
    decimal: &mut BinaryBuf,
    is_nan_negative: bool,
    is_nan_signaling: bool,
)
    requires
        old(decimal).wf(),
    ensures
        final(decimal).wf(),
        final(decimal).bytes@ == old(decimal).bytes@.update(
            old(decimal).bytes@.len() - 1,
            ((if is_nan_negative {
                0x80u8
            } else {
                0u8
            }) | 0x7C | (if is_nan_signaling {
                0x02u8
            } else {
                0u8
            })),
        ),
        spec_is_nan(final(decimal).bytes@),
        !spec_is_finite(final(decimal).bytes@),
        !spec_is_infinite(final(decimal).bytes@),
        spec_is_quiet_nan(final(decimal).bytes@) == !is_nan_signaling,
        spec_is_signaling_nan(final(decimal).bytes@) == is_nan_signaling,
        spec_is_sign_negative(final(decimal).bytes@) == is_nan_negative,
{
    let idx = decimal.bytes.len() - 1;
    let sign_bit: u8 = if is_nan_negative {
        0x80
    } else {
        0
    };
    let signaling_bit: u8 = if is_nan_signaling {
        0x02
    } else {
        0
    };
    let b: u8 = sign_bit | 0x7C | signaling_bit;
    decimal.bytes.set(idx, b);
    proof {
        assert(forall|s: u8, g: u8|
            (s == 0 || s == 0x80) && (g == 0 || g == 2) ==> (((s | 0x7C | g) & 0x7C == 0x7C) && ((s
                | 0x7C | g) & 0x78 == 0x78) && ((s | 0x7C | g) & 0x7E != 0x78) && (((s | 0x7C | g)
                & 0x7E == 0x7C) == (g == 0)) && (((s | 0x7C | g) & 0x7E == 0x7E) == (g == 2)) && ((
            (s | 0x7C | g) & 0x80 == 0x80) == (s == 0x80)))) by (bit_vector);
    }
}

/// Encode the finite combination: the biased exponent's trailing bits from
/// the end of the significand, then the 5-bit combination field and the
/// sign into the last byte.
///
/// The unbiased exponent must sit in the range the width admits once
/// biased; the encoded decimal then reads back as finite, with exactly this
/// biased exponent, most significant digit and sign.
pub fn encode_combination_finite(
    decimal: &mut BinaryBuf,
    significand_is_negative: bool,
    unbiased_exponent: i64,
    most_significant_digit: MostSignificantDigit,
)
    requires
        old(decimal).wf(),
        most_significant_digit.bcd <= 9,
        bits_clear(
            old(decimal).bytes@,
            spec_trailing_sig_bits(8 * old(decimal).bytes@.len()) as int,
            (8 * old(decimal).bytes@.len() - spec_trailing_sig_bits(8 * old(decimal).bytes@.len()))
                as nat,
        ),
        0 <= unbiased_exponent + spec_bias(8 * old(decimal).bytes@.len()) < spec_biased_range(
            8 * old(decimal).bytes@.len(),
        ),
    ensures
        final(decimal).wf(),
        final(decimal).bytes@.len() == old(decimal).bytes@.len(),
        forall|b: int|
            0 <= b < spec_trailing_sig_bits(8 * old(decimal).bytes@.len()) ==> #[trigger] bit_at(
                final(decimal).bytes@,
                b,
            ) == bit_at(old(decimal).bytes@, b),
        spec_biased_exponent(final(decimal).bytes@) == unbiased_exponent + spec_bias(
            8 * old(decimal).bytes@.len(),
        ),
        spec_msd_bcd(final(decimal).bytes@) == most_significant_digit.bcd,
        spec_is_sign_negative(final(decimal).bytes@) == significand_is_negative,
        spec_is_finite(final(decimal).bytes@),
{
    let ghost orig = decimal.bytes@;
    let ghost k = (8 * orig.len()) as nat;
    let len = decimal.bytes.len();
    let t = decimal.trailing_significand_width_bits();
    let wm5 = decimal.trailing_exponent_width_bits();
    proof {
        lemma_widths_fit(orig.len() as nat);
        vstd::arithmetic::power2::lemma2_to64();
        vstd::bits::lemma_u64_pow2_no_overflow(wm5 as nat);
        vstd::bits::lemma_u64_shl_is_mul(1u64, wm5 as u64);
        assert(pow2(wm5 as nat) <= pow2(14)) by {
            if (wm5 as nat) < 14 {
                vstd::arithmetic::power2::lemma_pow2_strictly_increases(wm5 as nat, 14);
            }
        }
        assert(pow2(14) == 0x4000) by {
            vstd::arithmetic::power2::lemma2_to64();
        }
        assert(spec_biased_range(k) == 3 * pow2(wm5 as nat));
    }
    let biased: i64 = unbiased_exponent + bias(len * 8);
    let biased_u: u64 = biased as u64;
    let mask: u64 = (1u64 << (wm5 as u64)) - 1;
    let low: u64 = biased_u & mask;
    let top2: u8 = (biased_u >> (wm5 as u64)) as u8;
    proof {
        vstd::bits::lemma_u64_low_bits_mask_is_mod(biased_u, wm5 as nat);
        vstd::bits::lemma_u64_shr_is_div(biased_u, wm5 as u64);
        let p = pow2(wm5 as nat) as int;
        vstd::arithmetic::div_mod::lemma_fundamental_div_mod(biased_u as int, p);
        vstd::arithmetic::div_mod::lemma_mod_bound(biased_u as int, p);
        let q = biased_u as int / p;
        let m = biased_u as int % p;
        vstd::arithmetic::div_mod::lemma_div_pos_is_pos(biased_u as int, p);
        assert(biased_u < 3 * pow2(wm5 as nat));
        assert(q <= 2) by (nonlinear_arith)
            requires
                biased_u as int == p * q + m,
                0 <= m < p,
                biased_u < 3 * p,
                p > 0,
                q >= 0,
        ;
    }
    // The trailing exponent bits run from the end of the significand up to
    // the combination field.
    write_bits(&mut decimal.bytes, t, wm5, low);
    let ghost after_exp = decimal.bytes@;
    // The 5-bit combination field packs the exponent's top two bits with
    // the most significant digit.
    let msd = most_significant_digit.get_bcd();
    let comb5: u8 = if msd >= 8 {
        0x18 | (top2 << 1) | (msd & 1)
    } else {
        (top2 << 3) | msd
    };
    proof {
        assert(comb5 < 30 && (if comb5 >> 3 == 3 {
            (8 + (comb5 & 1)) as u8
        } else {
            comb5 & 7
        }) == msd && (if comb5 >> 3 == 3 {
            (comb5 >> 1) & 3
        } else {
            comb5 >> 3
        }) == top2) by (bit_vector)
            requires
                top2 <= 2,
                msd <= 9,
                comb5 == (if msd >= 8 {
                    0x18 | (top2 << 1) | (msd & 1)
                } else {
                    (top2 << 3) | msd
                }),
        ;
        assert(pow2(5) == 32) by {
            vstd::arithmetic::power2::lemma2_to64();
        }
    }
    write_bits(&mut decimal.bytes, 8 * len - 6, 5, comb5 as u64);
    let ghost after_comb = decimal.bytes@;
    set_bit(&mut decimal.bytes, 8 * len - 1, significand_is_negative);
    proof {
        let bytes = decimal.bytes@;
        // The three writes touched pairwise disjoint bit ranges, so each
        // field still reads what was written into it.
        lemma_field_congruence(bytes, after_comb, t as int, wm5 as nat);
        lemma_field_congruence(after_comb, after_exp, t as int, wm5 as nat);
        assert(field(bytes, t as int, wm5 as nat) == low);
        lemma_field_congruence(bytes, after_comb, 8 * len - 6, 5);
        assert(field(bytes, 8 * len - 6, 5) == comb5);
        assert(spec_comb5(bytes) == comb5);
        lemma_sign_bit(bytes);
        lemma_comb5_byte(bytes);
        let m = spec_msb(bytes);
        assert(m & 0x78 != 0x78) by (bit_vector)
            requires
                (m >> 2) & 0x1F < 30,
        ;
        assert(spec_biased_exponent(bytes) == low + pow2(wm5 as nat) * top2);
        assert(biased == pow2(wm5 as nat) * top2 + low);
        assert forall|b: int| 0 <= b < t implies #[trigger] bit_at(bytes, b) == bit_at(orig, b) by {
        }
    }
}

/// Decode the finite combination of a buffer: the unbiased exponent and the
/// most significant digit.
///
/// Any well-formed buffer can be decoded, whatever bit pattern it holds;
/// the result is only meaningful for a finite decimal.
pub fn decode_combination_finite(decimal: &BinaryBuf) -> (r: (i64, MostSignificantDigit))
    requires
        decimal.wf(),
    ensures
        r.0 == spec_biased_exponent(decimal.bytes@) - spec_bias(8 * decimal.bytes@.len()),
        -0x20000 <= r.0 <= 0x20000,
        r.1.bcd == spec_msd_bcd(decimal.bytes@),
        r.1.bcd <= 9,
{
    let len = decimal.bytes.len();
    let t = decimal.trailing_significand_width_bits();
    let wm5 = decimal.trailing_exponent_width_bits();
    proof {
        lemma_widths_fit(len as nat);
        vstd::arithmetic::power2::lemma2_to64();
        assert(pow2(wm5 as nat) <= pow2(14)) by {
            if (wm5 as nat) < 14 {
                vstd::arithmetic::power2::lemma_pow2_strictly_increases(wm5 as nat, 14);
            }
        }
    }
    let te = read_bits(&decimal.bytes, t, wm5);
    let comb5 = read_bits(&decimal.bytes, 8 * len - 6, 5) as u8;
    proof {
        assert(((comb5 >> 1) & 3) <= 3 && (comb5 & 1) <= 1 && (comb5 & 7) <= 7 && (comb5 >> 3)
            <= 31) by (bit_vector);
        vstd::arithmetic::power2::lemma2_to64();
        assert(spec_comb5(decimal.bytes@) == comb5);
    }
    let (top2, msd): (u8, u8) = if comb5 >> 3 == 3 {
        ((comb5 >> 1) & 3, 8 + (comb5 & 1))
    } else {
        (comb5 >> 3, comb5 & 7)
    };
    proof {
        assert(comb5 >> 3 != 3 ==> comb5 >> 3 <= 2 && comb5 < 32) by (bit_vector)
            requires
                comb5 < 32,
        ;
        assert(top2 == spec_exp_top2(decimal.bytes@));
        assert(msd == spec_msd_bcd(decimal.bytes@));
        assert(msd <= 9);
    }
    let scale: i64 = crate::exponent::pow2_i64(wm5);
    proof {
        assert(0 <= (top2 as int) * (scale as int) <= 3 * 0x4000) by (nonlinear_arith)
            requires
                0 <= top2 <= 3,
                0 <= scale <= 0x4000,
        ;
    }
    let biased: i64 = (te as i64) + (top2 as i64) * scale;
    proof {
        assert((top2 as int) * (scale as int) == (scale as int) * (top2 as int)) by (
        nonlinear_arith);
        assert(biased == spec_biased_exponent(decimal.bytes@));
    }
    let b = bias(8 * len);
    proof {
        assert(pow2((8 * len / 16 + 3) as nat) <= pow2(13)) by {
            if ((8 * len / 16 + 3) as nat) < 13 {
                vstd::arithmetic::power2::lemma_pow2_strictly_increases(
                    (8 * len / 16 + 3) as nat,
                    13,
                );
            }
        }
        assert(pow2(13) == 8192) by {
            vstd::arithmetic::power2::lemma2_to64();
        }
    }
    let exp: i64 = biased - b;
    (exp, MostSignificantDigit::from_bcd(msd))
}

} // verus!
