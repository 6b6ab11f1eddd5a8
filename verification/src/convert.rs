//! Conversions between text-parsed and binary-encoded decimal numbers.

use vstd::prelude::*;
use crate::bits::bit_at;
use crate::buf::{all_zero, len_wf, spec_trailing_sig_bits, lemma_all_zero_bits, lemma_exponent_fits_mono,
    lemma_precision_mono, lemma_widths_fit, spec_exponent_fits, spec_precision_digits, BinaryBuf};
use crate::combination::{encode_combination_finite, encode_combination_infinity,
    encode_combination_nan, spec_biased_exponent, spec_is_finite, spec_is_infinite, spec_is_nan,
    spec_is_quiet_nan, spec_is_sign_negative, spec_is_signaling_nan, spec_msd_bcd};
use crate::error::OverflowError;
use crate::exponent::{spec_bias, spec_digits_val, try_exponent_from_ascii};
use crate::significand::{encode_significand_trailing_digits,
    encode_significand_trailing_digits_repeat, is_ascii_digit, spec_padded_digit,
    spec_trailing_digit};
use crate::text::{ParsedDecimal, ParsedFinite, ParsedNan, spec_parsed_finite_wf,
    spec_parsed_nan_wf};

verus! {

/// The significand digits of a parsed finite number, most significant
/// first, with the decimal point cut out.
pub open spec fn spec_sig_digits(f: ParsedFinite) -> Seq<u8> {
    let b = f.finite_buf.ascii@;
    let sr = f.finite_significand.significand_range;
    match f.finite_significand.decimal_point {
        Some(p) => b.subrange(sr.start as int, p.decimal_point_range.start as int) + b.subrange(
            p.decimal_point_range.end as int,
            sr.end as int,
        ),
        None => b.subrange(sr.start as int, sr.end as int),
    }
}

/// How many significand digits stand after the decimal point.
pub open spec fn spec_frac_len(f: ParsedFinite) -> int {
    match f.finite_significand.decimal_point {
        Some(p) => f.finite_significand.significand_range.end - p.decimal_point_range.end,
        None => 0,
    }
}

/// The value of a parsed finite number's explicit exponent, or zero.
pub open spec fn spec_exp_val(f: ParsedFinite) -> int {
    match f.finite_exponent {
        Some(e) => {
            let d = spec_digits_val(
                f.finite_buf.ascii@.subrange(
                    e.exponent_range.start as int,
                    e.exponent_range.end as int,
                ),
            );
            if e.exponent_is_negative {
                -d
            } else {
                d
            }
        },
        None => 0,
    }
}

/// The exponent actually encoded: the explicit exponent lowered by the
/// number of fractional digits.
pub open spec fn spec_lowered_exp(f: ParsedFinite) -> int {
    spec_exp_val(f) - spec_frac_len(f)
}

/// The payload digits of a parsed NaN, most significant first.
pub open spec fn spec_payload_digits(n: ParsedNan) -> Seq<u8> {
    match n.nan_payload {
        Some(p) => n.nan_buf.ascii@.subrange(
            p.significand_range.start as int,
            p.significand_range.end as int,
        ),
        None => Seq::empty(),
    }
}

/// A parsed decimal whose ranges are trustworthy.
pub open spec fn spec_parsed_wf(parsed: ParsedDecimal) -> bool {
    match parsed {
        ParsedDecimal::Finite(f) => spec_parsed_finite_wf(f),
        ParsedDecimal::Infinity(_) => true,
        ParsedDecimal::Nan(n) => spec_parsed_nan_wf(n),
    }
}

/// Whether a parsed decimal fits a buffer of at most `max_bytes` bytes: a
/// finite number needs a 32-bit exponent and room for its digits and
/// lowered exponent, a NaN needs room for its payload, and an infinity
/// always fits.
pub open spec fn spec_encodable(parsed: ParsedDecimal, max_bytes: int) -> bool {
    match parsed {
        ParsedDecimal::Finite(f) => -0x8000_0000 <= spec_exp_val(f) <= 0x7FFF_FFFF
            && spec_sig_digits(f).len() <= spec_precision_digits((8 * max_bytes) as nat)
            && spec_exponent_fits(spec_lowered_exp(f), (8 * max_bytes) as nat),
        ParsedDecimal::Infinity(_) => true,
        ParsedDecimal::Nan(n) => spec_payload_digits(n).len() + 1 <= spec_precision_digits(
            (8 * max_bytes) as nat,
        ),
    }
}

/// What a successful encoding of a parsed decimal guarantees of the
/// resulting bytes: classification, sign, exponent and every significand
/// digit.
pub open spec fn spec_encoding_of(parsed: ParsedDecimal, bytes: Seq<u8>) -> bool {
    match parsed {
        ParsedDecimal::Finite(f) => {
            let digits = spec_sig_digits(f);
            &&& spec_is_finite(bytes)
            &&& spec_is_sign_negative(bytes) == f.finite_significand.significand_is_negative
            &&& spec_biased_exponent(bytes) == spec_lowered_exp(f) + spec_bias(8 * bytes.len())
            &&& digits.len() <= spec_precision_digits(8 * bytes.len())
            &&& (forall|i: int|
                0 <= i < spec_precision_digits(8 * bytes.len()) - 1
                    ==> #[trigger] spec_trailing_digit(bytes, i) == spec_padded_digit(digits, i))
            &&& (forall|j: int|
                0 <= j < (spec_precision_digits(8 * bytes.len()) - 1) / 3
                    ==> #[trigger] crate::significand::spec_declet(bytes, j)
                    == crate::significand::spec_declet_of(digits, j))
            &&& spec_msd_bcd(bytes) == (if digits.len() == spec_precision_digits(8 * bytes.len()) {
                (digits[0] - 48) as u8
            } else {
                0u8
            })
        },
        ParsedDecimal::Infinity(inf) => {
            &&& bytes.len() >= 4
            &&& bytes[bytes.len() - 1] == (if inf.is_infinity_negative {
                0xF8u8
            } else {
                0x78u8
            })
            &&& spec_is_infinite(bytes)
            &&& spec_is_sign_negative(bytes) == inf.is_infinity_negative
            &&& (forall|i: int| 0 <= i < bytes.len() - 1 ==> #[trigger] bytes[i] == 0)
        },
        ParsedDecimal::Nan(n) => {
            let digits = spec_payload_digits(n);
            &&& digits.len() + 1 <= spec_precision_digits(8 * bytes.len())
            &&& bytes.len() >= 4
            &&& bytes[bytes.len() - 1] == ((if n.nan_header.is_nan_negative {
                0x80u8
            } else {
                0u8
            }) | 0x7C | (if n.nan_header.is_nan_signaling {
                0x02u8
            } else {
                0u8
            }))
            &&& spec_is_nan(bytes)
            &&& spec_is_signaling_nan(bytes) == n.nan_header.is_nan_signaling
            &&& spec_is_quiet_nan(bytes) == !n.nan_header.is_nan_signaling
            &&& spec_is_sign_negative(bytes) == n.nan_header.is_nan_negative
            &&& (forall|i: int|
                0 <= i < spec_precision_digits(8 * bytes.len()) - 1
                    ==> #[trigger] spec_trailing_digit(bytes, i) == spec_padded_digit(digits, i))
            &&& (forall|j: int|
                0 <= j < (spec_precision_digits(8 * bytes.len()) - 1) / 3
                    ==> #[trigger] crate::significand::spec_declet(bytes, j)
                    == crate::significand::spec_declet_of(digits, j))
            &&& crate::bits::bits_clear(
                bytes,
                spec_trailing_sig_bits(8 * bytes.len()) as int,
                (8 * (bytes.len() - 1) - spec_trailing_sig_bits(8 * bytes.len())) as nat,
            )
        },
    }
}

/// The width the encoder chose is the smallest that fits: one width down
/// could not hold the digits or the exponent. An infinity always takes the
/// smallest width outright.
pub open spec fn spec_minimal_width(parsed: ParsedDecimal, bytes: Seq<u8>) -> bool {
    bytes.len() == 4 || match parsed {
        ParsedDecimal::Finite(f) => spec_sig_digits(f).len() > spec_precision_digits(
            (8 * (bytes.len() - 4)) as nat,
        ) || !spec_exponent_fits(spec_lowered_exp(f), (8 * (bytes.len() - 4)) as nat),
        ParsedDecimal::Infinity(_) => false,
        ParsedDecimal::Nan(n) => spec_payload_digits(n).len() + 1 > spec_precision_digits(
            (8 * (bytes.len() - 4)) as nat,
        ),
    }
}

/// Convert a decimal parsed from text into its binary form, in a buffer of
/// at most `max_bytes` bytes.
///
/// A finite number encodes when its exponent fits a 32-bit integer and the
/// width `max_bytes` offers room for its digits and its lowered exponent; a
/// NaN encodes when the width holds its payload; an infinity always
/// encodes. A fixed-width target sets `fill_to_max` and always gets a
/// buffer of exactly `max_bytes`; a dynamic target gets the smallest width
/// that fits.
#[verifier::rlimit(100)]
pub fn decimal_from_parsed(parsed: &ParsedDecimal, max_bytes: usize, fill_to_max: bool) -> (r:
    Result<BinaryBuf, OverflowError>)
    requires
        len_wf(max_bytes as nat),
        spec_parsed_wf(*parsed),
    ensures
        r is Ok <==> spec_encodable(*parsed, max_bytes as int),
        parsed matches ParsedDecimal::Infinity(_) ==> r is Ok && r->Ok_0.bytes@.len() == (
        if fill_to_max {
            max_bytes as int
        } else {
            4int
        }),
        r is Ok ==> r->Ok_0.wf() && r->Ok_0.bytes@.len() <= max_bytes && (fill_to_max
            ==> r->Ok_0.bytes@.len() == max_bytes),
        r is Ok ==> spec_encoding_of(*parsed, r->Ok_0.bytes@),
        r is Ok && !fill_to_max ==> spec_minimal_width(*parsed, r->Ok_0.bytes@),
        r is Err && (*parsed matches ParsedDecimal::Finite(f) && !(-0x8000_0000 <= spec_exp_val(
            f,
        ) <= 0x7FFF_FFFF)) ==> r->Err_0.max_width == 4 && r->Err_0.required_width is None,
        r is Err && !(*parsed matches ParsedDecimal::Finite(f) && !(-0x8000_0000 <= spec_exp_val(
            f,
        ) <= 0x7FFF_FFFF)) ==> r->Err_0.max_width == max_bytes,
{
    match parsed {
        ParsedDecimal::Finite(f) => {
            let ascii = f.finite_buf.get_ascii();
            let sr = f.finite_significand.significand_range;
            // The explicit exponent, if any, parsed as a 32-bit-ranged value.
            let unbiased: i64 = match &f.finite_exponent {
                Some(e) => {
                    let digits = vstd::slice::slice_subrange(
                        ascii,
                        e.exponent_range.start,
                        e.exponent_range.end,
                    );
                    match try_exponent_from_ascii(e.exponent_is_negative, digits) {
                        Ok(v) => v,
                        Err(err) => {
                            return Err(err);
                        },
                    }
                },
                None => 0,
            };
            // The digits on both sides of the decimal point, joined.
            let mut digits: Vec<u8> = Vec::new();
            let frac_len: usize = match &f.finite_significand.decimal_point {
                Some(p) => {
                    let int_part = vstd::slice::slice_subrange(
                        ascii,
                        sr.start,
                        p.decimal_point_range.start,
                    );
                    let frac_part = vstd::slice::slice_subrange(
                        ascii,
                        p.decimal_point_range.end,
                        sr.end,
                    );
                    digits.extend_from_slice(int_part);
                    digits.extend_from_slice(frac_part);
                    frac_part.len()
                },
                None => {
                    let int_part = vstd::slice::slice_subrange(ascii, sr.start, sr.end);
                    digits.extend_from_slice(int_part);
                    0
                },
            };
            proof {
                assert(digits@ =~= spec_sig_digits(*f));
                assert(frac_len <= 0x1000_0000);
                assert(-0x8000_0000 <= unbiased <= 0x7FFF_FFFF);
            }
            let lowered: i64 = unbiased - (frac_len as i64);
            if digits.len() > 0x100_0000 {
                proof {
                    lemma_widths_fit(max_bytes as nat);
                }
                return Err(
                    OverflowError {
                        max_width: max_bytes,
                        required_width: None,
                        note: "the digit count exceeds any supported width",
                    },
                );
            }
            let mut buf = match BinaryBuf::try_with_at_least_precision(
                digits.len(),
                Some(lowered),
                max_bytes,
                fill_to_max,
            ) {
                Ok(b) => b,
                Err(err) => {
                    proof {
                        lemma_widths_fit(max_bytes as nat);
                    }
                    return Err(err);
                },
            };
            proof {
                lemma_all_zero_bits(buf.bytes@);
                lemma_widths_fit(buf.bytes@.len() as nat);
            }
            let msd = encode_significand_trailing_digits(&mut buf, digits.as_slice());
            let ghost mid = buf.bytes@;
            encode_combination_finite(
                &mut buf,
                f.finite_significand.significand_is_negative,
                lowered,
                msd,
            );
            proof {
                let bytes = buf.bytes@;
                let k = 8 * bytes.len() as nat;
                lemma_precision_mono(k, 8 * max_bytes as nat);
                lemma_exponent_fits_mono(lowered as int, k, 8 * max_bytes as nat);
                // The combination write leaves the declets alone.
                assert forall|i: int|
                    0 <= i < spec_precision_digits(k) - 1 implies #[trigger] spec_trailing_digit(
                    bytes,
                    i,
                ) == spec_padded_digit(digits@, i) by {
                    crate::bits::lemma_field_congruence(bytes, mid, 10 * (i / 3), 10);
                    assert(spec_trailing_digit(mid, i) == spec_padded_digit(digits@, i));
                }
                assert forall|j: int|
                    0 <= j < (spec_precision_digits(k) - 1) / 3
                        implies #[trigger] crate::significand::spec_declet(bytes, j)
                    == crate::significand::spec_declet_of(digits@, j) by {
                    crate::bits::lemma_field_congruence(bytes, mid, 10 * j, 10);
                    assert(crate::significand::spec_declet(mid, j)
                        == crate::significand::spec_declet_of(digits@, j));
                }
            }
            Ok(buf)
        },
        ParsedDecimal::Infinity(inf) => {
            let mut buf = match BinaryBuf::try_with_at_least_storage_width_bytes(
                4,
                max_bytes,
                fill_to_max,
            ) {
                Ok(b) => b,
                Err(err) => {
                    return Err(err);
                },
            };
            encode_combination_infinity(&mut buf, inf.is_infinity_negative);
            Ok(buf)
        },
        ParsedDecimal::Nan(n) => {
            let ascii = n.nan_buf.get_ascii();
            let (payload, payload_len): (&[u8], usize) = match &n.nan_payload {
                Some(p) => {
                    let digits = vstd::slice::slice_subrange(
                        ascii,
                        p.significand_range.start,
                        p.significand_range.end,
                    );
                    (digits, digits.len())
                },
                None => {
                    let digits = vstd::slice::slice_subrange(ascii, 0, 0);
                    (digits, 0)
                },
            };
            proof {
                assert(payload@ =~= spec_payload_digits(*n));
            }
            if payload_len > 0x100_0000 - 1 {
                proof {
                    lemma_widths_fit(max_bytes as nat);
                }
                return Err(
                    OverflowError {
                        max_width: max_bytes,
                        required_width: None,
                        note: "the payload digit count exceeds any supported width",
                    },
                );
            }
            let mut buf = match BinaryBuf::try_with_at_least_precision(
                payload_len + 1,
                None,
                max_bytes,
                fill_to_max,
            ) {
                Ok(b) => b,
                Err(err) => {
                    proof {
                        lemma_widths_fit(max_bytes as nat);
                    }
                    return Err(err);
                },
            };
            proof {
                lemma_all_zero_bits(buf.bytes@);
                lemma_widths_fit(buf.bytes@.len() as nat);
            }
            let _ = encode_significand_trailing_digits(&mut buf, payload);
            let ghost mid = buf.bytes@;
            encode_combination_nan(
                &mut buf,
                n.nan_header.is_nan_negative,
                n.nan_header.is_nan_signaling,
            );
            proof {
                let bytes = buf.bytes@;
                let k = 8 * bytes.len() as nat;
                let t = spec_trailing_sig_bits(k) as int;
                lemma_precision_mono(k, 8 * max_bytes as nat);
                // The NaN header replaces the last byte only; the payload
                // declets and the cleared trailing-exponent region sit
                // strictly below it.
                assert forall|b: int| 0 <= b < 8 * (bytes.len() - 1) implies #[trigger] bit_at(
                    bytes,
                    b,
                ) == bit_at(mid, b) by {
                    assert(bytes[b / 8] == mid[b / 8]);
                }
                assert forall|i: int|
                    0 <= i < spec_precision_digits(k) - 1 implies #[trigger] spec_trailing_digit(
                    bytes,
                    i,
                ) == spec_padded_digit(spec_payload_digits(*n), i) by {
                    crate::bits::lemma_field_congruence(bytes, mid, 10 * (i / 3), 10);
                    assert(spec_trailing_digit(mid, i) == spec_padded_digit(
                        spec_payload_digits(*n),
                        i,
                    ));
                }
                assert forall|j: int|
                    0 <= j < (spec_precision_digits(k) - 1) / 3
                        implies #[trigger] crate::significand::spec_declet(bytes, j)
                    == crate::significand::spec_declet_of(spec_payload_digits(*n), j) by {
                    crate::bits::lemma_field_congruence(bytes, mid, 10 * j, 10);
                    assert(crate::significand::spec_declet(mid, j)
                        == crate::significand::spec_declet_of(spec_payload_digits(*n), j));
                }
                assert forall|b: int| t <= b < 8 * (bytes.len() - 1) implies !bit_at(bytes, b) by {
                    assert(bit_at(bytes, b) == bit_at(mid, b));
                }
            }
            Ok(buf)
        },
    }
}

/// All significant digits of a finite decimal as ASCII, most significant
/// first: the combination-field digit, then the trailing significand.
pub open spec fn spec_all_digits(bytes: Seq<u8>) -> Seq<u8> {
    let p = spec_precision_digits(8 * bytes.len());
    Seq::new(
        p,
        |i: int|
            if i == 0 {
                (spec_msd_bcd(bytes) + 48) as u8
            } else {
                spec_trailing_digit(bytes, p - 1 - i)
            },
    )
}

/// The payload digits of a NaN as ASCII, most significant first.
pub open spec fn spec_payload_text_digits(bytes: Seq<u8>) -> Seq<u8> {
    let t = spec_precision_digits(8 * bytes.len()) - 1;
    Seq::new(t as nat, |i: int| spec_trailing_digit(bytes, t - 1 - i))
}

/// How many leading ASCII zeros open the digit string.
pub open spec fn spec_skip_zeros(s: Seq<u8>) -> int
    decreases s.len(),
{
    if s.len() == 0 {
        0
    } else if s[0] != 48 {
        0
    } else {
        1 + spec_skip_zeros(s.subrange(1, s.len() as int))
    }
}

/// The prefix of zeros is exactly as long as the run of `0` bytes.
proof fn lemma_skip_zeros(s: Seq<u8>, i: int)
    requires
        0 <= i <= s.len(),
        forall|j: int| 0 <= j < i ==> s[j] == 48,
        i < s.len() ==> s[i] != 48,
    ensures
        spec_skip_zeros(s) == i,
    decreases s.len(),
{
    if s.len() > 0 && i > 0 {
        let tail = s.subrange(1, s.len() as int);
        lemma_skip_zeros(tail, i - 1);
    }
}

/// A run of ASCII zeros.
pub open spec fn spec_zeros(c: int) -> Seq<u8> {
    Seq::new(c as nat, |i: int| 48u8)
}

/// The scientific rendering `d.ddde±E'` of the significant digits `sig`
/// with unbiased exponent `e`, where `E'` is raised by one for each digit
/// printed after the first.
pub open spec fn spec_scientific(sig: Seq<u8>, e: int) -> Seq<u8> {
    if sig.len() == 0 {
        seq![48u8, 101u8] + crate::num::spec_int_ascii(e)
    } else if sig.len() == 1 {
        sig + seq![101u8] + crate::num::spec_int_ascii(e)
    } else {
        seq![sig[0], 46u8] + sig.subrange(1, sig.len() as int) + seq![101u8]
            + crate::num::spec_int_ascii(e + sig.len() - 1)
    }
}

/// The text of a finite decimal, sign excluded: plain digits for exponent
/// zero, a decimal point or up to five leading fractional zeros for a
/// small negative exponent, and scientific notation otherwise.
pub open spec fn spec_finite_text(bytes: Seq<u8>) -> Seq<u8> {
    let digits = spec_all_digits(bytes);
    let skip = spec_skip_zeros(digits);
    let sig = digits.subrange(skip, digits.len() as int);
    let e = spec_biased_exponent(bytes) - spec_bias(8 * bytes.len());
    let n = sig.len() as int;
    if e == 0 {
        if n == 0 {
            seq![48u8]
        } else {
            sig
        }
    } else if e < 0 {
        if n + e > 0 {
            sig.subrange(0, n + e) + seq![46u8] + sig.subrange(n + e, n)
        } else if -(n + e) <= 5 {
            seq![48u8, 46u8] + spec_zeros(-(n + e)) + sig
        } else {
            spec_scientific(sig, e)
        }
    } else {
        spec_scientific(sig, e)
    }
}

/// The text of a NaN, sign excluded: `nan` or `snan`, and the payload in
/// parentheses when any payload digit is non-zero.
pub open spec fn spec_nan_text(bytes: Seq<u8>) -> Seq<u8> {
    let word: Seq<u8> = if spec_is_quiet_nan(bytes) {
        seq![110u8, 97u8, 110u8]
    } else {
        seq![115u8, 110u8, 97u8, 110u8]
    };
    let payload = spec_payload_text_digits(bytes);
    let skip = spec_skip_zeros(payload);
    let sig = payload.subrange(skip, payload.len() as int);
    if sig.len() == 0 {
        word
    } else {
        word + seq![40u8] + sig + seq![41u8]
    }
}

/// The complete text of a decimal: a minus sign when the sign bit is set,
/// then the finite, `inf` or NaN body.
pub open spec fn spec_to_text(bytes: Seq<u8>) -> Seq<u8> {
    let sign: Seq<u8> = if spec_is_sign_negative(bytes) {
        seq![45u8]
    } else {
        Seq::empty()
    };
    if spec_is_finite(bytes) {
        sign + spec_finite_text(bytes)
    } else if spec_is_infinite(bytes) {
        sign + seq![105u8, 110u8, 102u8]
    } else {
        sign + spec_nan_text(bytes)
    }
}

/// The index of the first non-zero digit.
fn skip_leading_zeros(digits: &Vec<u8>) -> (r: usize)
    ensures
        r == spec_skip_zeros(digits@),
        r <= digits@.len(),
{
    let mut i: usize = 0;
    let n = digits.len();
    while i < n
        invariant
            i <= n,
            n == digits@.len(),
            forall|j: int| 0 <= j < i ==> digits@[j] == 48,
        decreases n - i,
    {
        if digits[i] != 48 {
            proof {
                lemma_skip_zeros(digits@, i as int);
            }
            return i;
        }
        i = i + 1;
    }
    proof {
        lemma_skip_zeros(digits@, n as int);
    }
    n
}

/// Append a subrange of `digits` to `out`.
fn push_digit_range(out: &mut Vec<u8>, digits: &Vec<u8>, from: usize, to: usize)
    requires
        from <= to <= digits@.len(),
    ensures
        final(out)@ == old(out)@ + digits@.subrange(from as int, to as int),
{
    let s = vstd::slice::slice_subrange(digits.as_slice(), from, to);
    out.extend_from_slice(s);
}

/// Append the scientific rendering of `digits[skip..]` with exponent `e`.
fn push_scientific(out: &mut Vec<u8>, digits: &Vec<u8>, skip: usize, e: i64)
    requires
        skip <= digits@.len(),
        digits@.len() <= 64,
        -0x20000 <= e <= 0x20000,
    ensures
        final(out)@ == old(out)@ + spec_scientific(
            digits@.subrange(skip as int, digits@.len() as int),
            e as int,
        ),
{
    let ghost sig = digits@.subrange(skip as int, digits@.len() as int);
    let n = digits.len() - skip;
    if n == 0 {
        out.push(48);
        out.push(101);
        let mut tail = crate::num::int_to_ascii(e);
        out.append(&mut tail);
        proof {
            assert(final(out)@ =~= old(out)@ + spec_scientific(sig, e as int));
        }
    } else if n == 1 {
        out.push(digits[skip]);
        out.push(101);
        let mut tail = crate::num::int_to_ascii(e);
        out.append(&mut tail);
        proof {
            assert(final(out)@ =~= old(out)@ + spec_scientific(sig, e as int));
        }
    } else {
        out.push(digits[skip]);
        out.push(46);
        push_digit_range(out, digits, skip + 1, digits.len());
        out.push(101);
        let mut tail = crate::num::int_to_ascii(e + (n as i64) - 1);
        out.append(&mut tail);
        proof {
            assert(final(out)@ =~= old(out)@ + spec_scientific(sig, e as int));
        }
    }
}

/// Render a decimal as ASCII text.
///
/// The output re-parses to the same bitstring: the digits and the exponent
/// survive exactly, in plain form when the exponent allows it and in
/// scientific form otherwise.
#[verifier::rlimit(100)]
pub fn decimal_to_ascii(decimal: &BinaryBuf) -> (r: Vec<u8>)
    requires
        decimal.wf(),
    ensures
        r@ == spec_to_text(decimal.bytes@),
{
    let ghost bytes = decimal.bytes@;
    let mut out: Vec<u8> = Vec::new();
    if crate::combination::is_sign_negative(decimal) {
        out.push(45);
    }
    let ghost sign_part = out@;
    proof {
        assert(sign_part =~= (if spec_is_sign_negative(bytes) {
            seq![45u8]
        } else {
            Seq::<u8>::empty()
        }));
        lemma_widths_fit(bytes.len() as nat);
    }
    if crate::combination::is_finite(decimal) {
        let (e, msd) = crate::combination::decode_combination_finite(decimal);
        let mut digits: Vec<u8> = Vec::new();
        digits.push(msd.get_ascii());
        let mut trailing = crate::significand::decode_significand_trailing_declets(decimal);
        digits.append(&mut trailing);
        proof {
            assert(digits@ =~= spec_all_digits(bytes));
        }
        let skip = skip_leading_zeros(&digits);
        let n = digits.len() - skip;
        let ghost sig = digits@.subrange(skip as int, digits@.len() as int);
        if e == 0 {
            if n == 0 {
                out.push(48);
            } else {
                push_digit_range(&mut out, &digits, skip, digits.len());
            }
            proof {
                assert(out@ =~= sign_part + spec_finite_text(bytes));
            }
        } else if e < 0 {
            let shift: i64 = (n as i64) + e;
            if shift > 0 {
                push_digit_range(&mut out, &digits, skip, skip + (shift as usize));
                out.push(46);
                push_digit_range(&mut out, &digits, skip + (shift as usize), digits.len());
                proof {
                    assert(sig.subrange(0, shift as int) =~= digits@.subrange(
                        skip as int,
                        skip + shift,
                    ));
                    assert(sig.subrange(shift as int, sig.len() as int) =~= digits@.subrange(
                        skip + shift,
                        digits@.len() as int,
                    ));
                    assert(out@ =~= sign_part + spec_finite_text(bytes));
                }
            } else if -shift <= 5 {
                out.push(48);
                out.push(46);
                let zeros = (-shift) as usize;
                let mut z: usize = 0;
                let ghost before = out@;
                while z < zeros
                    invariant
                        z <= zeros,
                        out@ == before + spec_zeros(z as int),
                    decreases zeros - z,
                {
                    out.push(48);
                    proof {
                        assert(before + spec_zeros(z + 1) =~= (before + spec_zeros(z as int)).push(
                            48u8,
                        ));
                    }
                    z = z + 1;
                }
                push_digit_range(&mut out, &digits, skip, digits.len());
                proof {
                    assert(out@ =~= sign_part + spec_finite_text(bytes));
                }
            } else {
                push_scientific(&mut out, &digits, skip, e);
                proof {
                    assert(out@ =~= sign_part + spec_finite_text(bytes));
                }
            }
        } else {
            push_scientific(&mut out, &digits, skip, e);
            proof {
                assert(out@ =~= sign_part + spec_finite_text(bytes));
            }
        }
    } else if crate::combination::is_infinite(decimal) {
        out.push(105);
        out.push(110);
        out.push(102);
        proof {
            assert(out@ =~= sign_part + seq![105u8, 110u8, 102u8]);
        }
    } else {
        if crate::combination::is_quiet_nan(decimal) {
            out.push(110);
            out.push(97);
            out.push(110);
        } else {
            out.push(115);
            out.push(110);
            out.push(97);
            out.push(110);
        }
        let ghost word_part = out@;
        let payload = crate::significand::decode_significand_trailing_declets(decimal);
        proof {
            assert(payload@ =~= spec_payload_text_digits(bytes));
        }
        let skip = skip_leading_zeros(&payload);
        if skip < payload.len() {
            out.push(40);
            push_digit_range(&mut out, &payload, skip, payload.len());
            out.push(41);
        }
        proof {
            assert(out@ =~= sign_part + spec_nan_text(bytes));
        }
    }
    out
}

/// Encode the largest finite value of the buffer's width: every digit 9 at
/// the maximum exponent.
pub fn encode_max(buf: &mut BinaryBuf, is_negative: bool)
    requires
        old(buf).wf(),
        all_zero(old(buf).bytes@),
    ensures
        final(buf).wf(),
        final(buf).bytes@.len() == old(buf).bytes@.len(),
        spec_is_finite(final(buf).bytes@),
        spec_is_sign_negative(final(buf).bytes@) == is_negative,
        spec_msd_bcd(final(buf).bytes@) == 9,
        forall|i: int|
            0 <= i < spec_precision_digits(8 * old(buf).bytes@.len()) - 1
                ==> #[trigger] spec_trailing_digit(final(buf).bytes@, i) == 57,
        spec_biased_exponent(final(buf).bytes@) - spec_bias(8 * old(buf).bytes@.len())
            == crate::exponent::spec_emax(8 * old(buf).bytes@.len()) - spec_precision_digits(
            8 * old(buf).bytes@.len(),
        ),
{
    proof {
        lemma_all_zero_bits(buf.bytes@);
        lemma_widths_fit(buf.bytes@.len() as nat);
        vstd::arithmetic::power2::lemma2_to64();
    }
    let bit_width = buf.storage_width_bits();
    let max_digits = buf.precision_digits();
    let exp: i64 = crate::exponent::emax(bit_width) - (max_digits as i64);
    let msd = encode_significand_trailing_digits_repeat(buf, 57);
    let ghost mid = buf.bytes@;
    encode_combination_finite(buf, is_negative, exp, msd);
    proof {
        assert forall|i: int|
            0 <= i < spec_precision_digits(8 * old(buf).bytes@.len()) - 1
                implies #[trigger] spec_trailing_digit(final(buf).bytes@, i) == 57 by {
            crate::bits::lemma_field_congruence(final(buf).bytes@, mid, 10 * (i / 3), 10);
            assert(spec_trailing_digit(mid, i) == 57);
        }
    }
}

/// Encode the smallest positive value of the buffer's width: a single 1 at
/// the minimum exponent.
pub fn encode_min(buf: &mut BinaryBuf, is_negative: bool)
    requires
        old(buf).wf(),
        all_zero(old(buf).bytes@),
    ensures
        final(buf).wf(),
        final(buf).bytes@.len() == old(buf).bytes@.len(),
        spec_is_finite(final(buf).bytes@),
        spec_is_sign_negative(final(buf).bytes@) == is_negative,
        spec_msd_bcd(final(buf).bytes@) == 0,
        spec_trailing_digit(final(buf).bytes@, 0) == 49,
        forall|i: int|
            1 <= i < spec_precision_digits(8 * old(buf).bytes@.len()) - 1
                ==> #[trigger] spec_trailing_digit(final(buf).bytes@, i) == 48,
        spec_biased_exponent(final(buf).bytes@) == 0,
{
    proof {
        lemma_all_zero_bits(buf.bytes@);
        lemma_widths_fit(buf.bytes@.len() as nat);
        vstd::arithmetic::power2::lemma2_to64();
    }
    let bit_width = buf.storage_width_bits();
    let max_digits = buf.precision_digits();
    let exp: i64 = crate::exponent::emin(bit_width) + 1 - (max_digits as i64);
    let one: [u8; 1] = [49];
    let msd = encode_significand_trailing_digits(buf, one.as_slice());
    let ghost mid = buf.bytes@;
    encode_combination_finite(buf, is_negative, exp, msd);
    proof {
        assert forall|i: int|
            0 <= i < spec_precision_digits(8 * old(buf).bytes@.len()) - 1
                implies #[trigger] spec_trailing_digit(final(buf).bytes@, i) == (if i == 0 {
            49u8
        } else {
            48u8
        }) by {
            crate::bits::lemma_field_congruence(final(buf).bytes@, mid, 10 * (i / 3), 10);
            assert(spec_trailing_digit(mid, i) == spec_padded_digit(one@, i));
            if i > 0 {
                assert(spec_padded_digit(one@, i) == 48);
            } else {
                assert(spec_padded_digit(one@, 0) == one@[0]);
            }
        }
    }
}

/// `10^d`.
pub open spec fn spec_pow10(d: nat) -> nat
    decreases d,
{
    if d == 0 {
        1
    } else {
        10 * spec_pow10((d - 1) as nat)
    }
}

/// The digits of `spec_nat_ascii` are ASCII digits.
pub proof fn lemma_nat_ascii_digits(n: nat)
    ensures
        forall|j: int|
            0 <= j < crate::num::spec_nat_ascii(n).len() ==> is_ascii_digit(
                #[trigger] crate::num::spec_nat_ascii(n)[j],
            ),
    decreases n,
{
    if n < 10 {
        assert(crate::num::spec_nat_ascii(n) =~= seq![(48 + n) as u8]);
    } else {
        lemma_nat_ascii_digits(n / 10);
        let tail = crate::num::spec_nat_ascii(n / 10);
        assert(crate::num::spec_nat_ascii(n) =~= tail.push((48 + n % 10) as u8));
        assert forall|j: int|
            0 <= j < crate::num::spec_nat_ascii(n).len() implies is_ascii_digit(
            #[trigger] crate::num::spec_nat_ascii(n)[j],
        ) by {
            if j < tail.len() {
                assert(crate::num::spec_nat_ascii(n)[j] == tail[j]);
            }
        }
    }
}

/// `spec_nat_ascii` spells at most `d` digits for a value below `10^d`.
pub proof fn lemma_nat_ascii_len(n: nat, d: nat)
    requires
        d >= 1,
        n < spec_pow10(d),
    ensures
        crate::num::spec_nat_ascii(n).len() <= d,
    decreases d,
{
    if n >= 10 {
        assert(spec_pow10(d) == 10 * spec_pow10((d - 1) as nat));
        assert(n / 10 < spec_pow10((d - 1) as nat)) by (nonlinear_arith)
            requires
                n < 10 * spec_pow10((d - 1) as nat),
        ;
        lemma_nat_ascii_len(n / 10, (d - 1) as nat);
    }
}

/// Any 128-bit magnitude spells at most 39 digits.
pub proof fn lemma_nat_ascii_len_u128(n: nat)
    requires
        n <= u128::MAX,
    ensures
        crate::num::spec_nat_ascii(n).len() <= 39,
{
    assert(spec_pow10(1) == 10 * spec_pow10(0));
    assert(spec_pow10(2) == 10 * spec_pow10(1));
    assert(spec_pow10(3) == 10 * spec_pow10(2));
    assert(spec_pow10(4) == 10 * spec_pow10(3));
    assert(spec_pow10(5) == 10 * spec_pow10(4));
    assert(spec_pow10(6) == 10 * spec_pow10(5));
    assert(spec_pow10(7) == 10 * spec_pow10(6));
    assert(spec_pow10(8) == 10 * spec_pow10(7));
    assert(spec_pow10(9) == 10 * spec_pow10(8));
    assert(spec_pow10(10) == 10 * spec_pow10(9));
    assert(spec_pow10(11) == 10 * spec_pow10(10));
    assert(spec_pow10(12) == 10 * spec_pow10(11));
    assert(spec_pow10(13) == 10 * spec_pow10(12));
    assert(spec_pow10(14) == 10 * spec_pow10(13));
    assert(spec_pow10(15) == 10 * spec_pow10(14));
    assert(spec_pow10(16) == 10 * spec_pow10(15));
    assert(spec_pow10(17) == 10 * spec_pow10(16));
    assert(spec_pow10(18) == 10 * spec_pow10(17));
    assert(spec_pow10(19) == 10 * spec_pow10(18));
    assert(spec_pow10(20) == 10 * spec_pow10(19));
    assert(spec_pow10(21) == 10 * spec_pow10(20));
    assert(spec_pow10(22) == 10 * spec_pow10(21));
    assert(spec_pow10(23) == 10 * spec_pow10(22));
    assert(spec_pow10(24) == 10 * spec_pow10(23));
    assert(spec_pow10(25) == 10 * spec_pow10(24));
    assert(spec_pow10(26) == 10 * spec_pow10(25));
    assert(spec_pow10(27) == 10 * spec_pow10(26));
    assert(spec_pow10(28) == 10 * spec_pow10(27));
    assert(spec_pow10(29) == 10 * spec_pow10(28));
    assert(spec_pow10(30) == 10 * spec_pow10(29));
    assert(spec_pow10(31) == 10 * spec_pow10(30));
    assert(spec_pow10(32) == 10 * spec_pow10(31));
    assert(spec_pow10(33) == 10 * spec_pow10(32));
    assert(spec_pow10(34) == 10 * spec_pow10(33));
    assert(spec_pow10(35) == 10 * spec_pow10(34));
    assert(spec_pow10(36) == 10 * spec_pow10(35));
    assert(spec_pow10(37) == 10 * spec_pow10(36));
    assert(spec_pow10(38) == 10 * spec_pow10(37));
    assert(spec_pow10(39) == 10 * spec_pow10(38));
    lemma_nat_ascii_len(n, 39);
}

/// An exponent of zero fits every width this library holds.
pub proof fn lemma_zero_exp_fits(k: nat)
    requires
        k == 32 || k == 64 || k == 96 || k == 128 || k == 160,
    ensures
        spec_exponent_fits(0, k),
{
    vstd::arithmetic::power2::lemma2_to64();
}

/// Relies on `itoa::Buffer::format` for `i128`: the shortest decimal
/// rendering of the integer, a minus sign first for negative values.
#[verifier::external_body]
fn itoa_format_i128(v: i128) -> (r: Vec<u8>)
    ensures
        r@ == crate::num::spec_int_ascii(v as int),
{
    let mut buf = itoa::Buffer::new();
    buf.format(v).as_bytes().to_vec()
}

/// Relies on `itoa::Buffer::format` for `u128`: the shortest decimal
/// rendering of the integer.
#[verifier::external_body]
fn itoa_format_u128(v: u128) -> (r: Vec<u8>)
    ensures
        r@ == crate::num::spec_nat_ascii(v as nat),
{
    let mut buf = itoa::Buffer::new();
    buf.format(v).as_bytes().to_vec()
}

/// Encode a signed integer as a decimal: its digits verbatim with exponent
/// zero. Every value whose digits fit the width encodes; every 128-bit
/// value fits a width of 20 bytes.
pub fn decimal_from_int_i128(v: i128, max_bytes: usize, fill_to_max: bool) -> (r: Result<
    BinaryBuf,
    OverflowError,
>)
    requires
        len_wf(max_bytes as nat),
    ensures
        r is Ok <==> crate::num::spec_nat_ascii((if v < 0 {
            -v
        } else {
            v as int
        }) as nat).len() <= spec_precision_digits(8 * max_bytes as nat),
        r is Ok ==> {
            let bytes = r->Ok_0.bytes@;
            let digits = crate::num::spec_nat_ascii((if v < 0 {
                -v
            } else {
                v as int
            }) as nat);
            &&& r->Ok_0.wf()
            &&& bytes.len() <= max_bytes
            &&& (fill_to_max ==> bytes.len() == max_bytes)
            &&& spec_is_finite(bytes)
            &&& spec_is_sign_negative(bytes) == (v < 0)
            &&& spec_biased_exponent(bytes) == spec_bias(8 * bytes.len())
            &&& (forall|i: int|
                0 <= i < spec_precision_digits(8 * bytes.len()) - 1
                    ==> #[trigger] spec_trailing_digit(bytes, i) == spec_padded_digit(digits, i))
            &&& digits.len() <= spec_precision_digits(8 * bytes.len())
            &&& spec_msd_bcd(bytes) == (if digits.len() == spec_precision_digits(8 * bytes.len()) {
                (digits[0] - 48) as u8
            } else {
                0u8
            })
        },
        r is Ok && !fill_to_max ==> r->Ok_0.bytes@.len() == 4 || crate::num::spec_nat_ascii((if v < 0 {
            -v
        } else {
            v as int
        }) as nat).len()
            > spec_precision_digits((8 * (r->Ok_0.bytes@.len() - 4)) as nat),
{
    let ascii = itoa_format_i128(v);
    let negative = v < 0;
    let start: usize = if negative {
        1
    } else {
        0
    };
    let parsed = crate::text::ParsedFinite {
        finite_significand: crate::text::ParsedSignificand {
            significand_is_negative: negative,
            significand_range: crate::text::TextRange { start, end: ascii.len() },
            decimal_point: None,
        },
        finite_exponent: None,
        finite_buf: crate::text::TextBuf { ascii, capacity: None },
    };
    proof {
        let mag: nat = (if v < 0 {
            -v
        } else {
            v as int
        }) as nat;
        lemma_nat_ascii_digits(mag);
        lemma_nat_ascii_len_u128(mag);
        assert(spec_parsed_finite_wf(parsed));
        assert(spec_sig_digits(parsed) =~= crate::num::spec_nat_ascii(mag));
        lemma_zero_exp_fits(8 * max_bytes as nat);
        lemma_widths_fit(max_bytes as nat);
    }
    let r = decimal_from_parsed(&ParsedDecimal::Finite(parsed), max_bytes, fill_to_max);
    proof {
        if r is Ok && !fill_to_max && r->Ok_0.bytes@.len() > 4 {
            // An exponent of zero fits one width down, so only the digits
            // can be what stops the smaller width.
            lemma_zero_exp_fits((8 * (r->Ok_0.bytes@.len() - 4)) as nat);
        }
    }
    r
}

/// Encode an unsigned integer as a decimal: its digits verbatim with
/// exponent zero.
pub fn decimal_from_int_u128(v: u128, max_bytes: usize, fill_to_max: bool) -> (r: Result<
    BinaryBuf,
    OverflowError,
>)
    requires
        len_wf(max_bytes as nat),
    ensures
        r is Ok <==> crate::num::spec_nat_ascii(v as nat).len() <= spec_precision_digits(
            8 * max_bytes as nat,
        ),
        r is Ok ==> {
            let bytes = r->Ok_0.bytes@;
            let digits = crate::num::spec_nat_ascii(v as nat);
            &&& r->Ok_0.wf()
            &&& bytes.len() <= max_bytes
            &&& (fill_to_max ==> bytes.len() == max_bytes)
            &&& spec_is_finite(bytes)
            &&& !spec_is_sign_negative(bytes)
            &&& spec_biased_exponent(bytes) == spec_bias(8 * bytes.len())
            &&& (forall|i: int|
                0 <= i < spec_precision_digits(8 * bytes.len()) - 1
                    ==> #[trigger] spec_trailing_digit(bytes, i) == spec_padded_digit(digits, i))
            &&& digits.len() <= spec_precision_digits(8 * bytes.len())
            &&& spec_msd_bcd(bytes) == (if digits.len() == spec_precision_digits(8 * bytes.len()) {
                (digits[0] - 48) as u8
            } else {
                0u8
            })
        },
        r is Ok && !fill_to_max ==> r->Ok_0.bytes@.len() == 4 || crate::num::spec_nat_ascii(v as nat).len()
            > spec_precision_digits((8 * (r->Ok_0.bytes@.len() - 4)) as nat),
{
    let ascii = itoa_format_u128(v);
    let parsed = crate::text::ParsedFinite {
        finite_significand: crate::text::ParsedSignificand {
            significand_is_negative: false,
            significand_range: crate::text::TextRange { start: 0, end: ascii.len() },
            decimal_point: None,
        },
        finite_exponent: None,
        finite_buf: crate::text::TextBuf { ascii, capacity: None },
    };
    proof {
        lemma_nat_ascii_digits(v as nat);
        lemma_nat_ascii_len_u128(v as nat);
        assert(spec_parsed_finite_wf(parsed));
        assert(spec_sig_digits(parsed) =~= crate::num::spec_nat_ascii(v as nat));
        lemma_zero_exp_fits(8 * max_bytes as nat);
        lemma_widths_fit(max_bytes as nat);
    }
    let r = decimal_from_parsed(&ParsedDecimal::Finite(parsed), max_bytes, fill_to_max);
    proof {
        if r is Ok && !fill_to_max && r->Ok_0.bytes@.len() > 4 {
            // An exponent of zero fits one width down, so only the digits
            // can be what stops the smaller width.
            lemma_zero_exp_fits((8 * (r->Ok_0.bytes@.len() - 4)) as nat);
        }
    }
    r
}

/// The digit string a finite decimal yields for integer conversion with
/// unbiased exponent `e`: all significant digits, `e` zeros appended when
/// `e` is positive.
pub open spec fn spec_int_digits(bytes: Seq<u8>, e: int) -> Seq<u8> {
    if e >= 0 {
        spec_all_digits(bytes) + spec_zeros(e)
    } else {
        spec_all_digits(bytes).subrange(0, spec_all_digits(bytes).len() + e)
    }
}


/// The two conversion-failure reasons are distinct texts.
proof fn lemma_convert_reasons_differ()
    ensures
        "would overflow"@ != "would require rounding to an integer"@,
{
    reveal_strlit("would overflow");
    reveal_strlit("would require rounding to an integer");
    assert(("would overflow"@).len() == 14);
    assert(("would require rounding to an integer"@).len() == 36);
}

/// Convert a finite decimal to an unsigned 128-bit integer.
///
/// The conversion succeeds exactly when the sign bit is clear, the
/// exponent keeps the value an integer (any digits below the decimal point
/// are zero), and the digits fit the target range.
pub fn decimal_to_int_unsigned(decimal: &BinaryBuf) -> (r: Result<u128, crate::error::ConvertError>)
    requires
        decimal.wf(),
    ensures
        ({
            let bytes = decimal.bytes@;
            let e = spec_biased_exponent(bytes) - spec_bias(8 * bytes.len());
            let p = spec_precision_digits(8 * bytes.len()) as int;
            &&& (r is Ok <==> spec_is_finite(bytes) && !spec_is_sign_negative(bytes) && -p < e
                && spec_digits_val(spec_int_digits(bytes, e)) <= u128::MAX && (e >= 0
                || spec_all_digits(bytes).subrange(p + e, p) =~= spec_zeros(-e)))
            &&& (r is Ok ==> r->Ok_0 == spec_digits_val(spec_int_digits(bytes, e)))
            &&& (r is Err ==> r->Err_0.target@ == "u128"@)
            &&& (r is Err ==> (r->Err_0.reason@ == "would require rounding to an integer"@
                <==> spec_is_finite(bytes) && !spec_is_sign_negative(bytes) && -p < e < 0
                && spec_digits_val(spec_int_digits(bytes, e)) <= u128::MAX && !(spec_all_digits(
                bytes,
            ).subrange(p + e, p) =~= spec_zeros(-e))))
            &&& (r is Err && r->Err_0.reason@ != "would require rounding to an integer"@
                ==> r->Err_0.reason@ == "would overflow"@)
        }),
{
    let ghost bytes = decimal.bytes@;
    proof {
        lemma_widths_fit(bytes.len() as nat);
    }
    // Only finite decimals convert; a NaN or infinity is never an integer.
    if !crate::combination::is_finite(decimal) {
        proof {
            lemma_convert_reasons_differ();
        }
        return Err(crate::error::ConvertError::would_overflow("u128"));
    }
    let (e, msd) = crate::combination::decode_combination_finite(decimal);
    let mut digits: Vec<u8> = Vec::new();
    digits.push(msd.get_ascii());
    let mut trailing = crate::significand::decode_significand_trailing_declets(decimal);
    digits.append(&mut trailing);
    proof {
        assert(digits@ =~= spec_all_digits(bytes));
    }
    let p = digits.len();
    if crate::combination::is_sign_negative(decimal) {
        proof {
            lemma_convert_reasons_differ();
        }
        return Err(crate::error::ConvertError::would_overflow("u128"));
    }
    if e >= 0 {
        let mut z: i64 = 0;
        let ghost before = digits@;
        while z < e
            invariant
                0 <= z <= e,
                e <= 0x20000,
                digits@ == before + spec_zeros(z as int),
            decreases e - z,
        {
            digits.push(48);
            proof {
                assert(before + spec_zeros(z + 1) =~= (before + spec_zeros(z as int)).push(48u8));
            }
            z = z + 1;
        }
        proof {
            assert(digits@ =~= spec_int_digits(bytes, e as int));
        }
        match crate::num::u128_from_ascii(digits.as_slice()) {
            Some(v) => Ok(v),
            None => {
                proof {
                    lemma_convert_reasons_differ();
                }
                Err(crate::error::ConvertError::would_overflow("u128"))
            },
        }
    } else if ((-e) as usize) < p {
        let keep = p - ((-e) as usize);
        let head = vstd::slice::slice_subrange(digits.as_slice(), 0, keep);
        proof {
            assert(head@ =~= spec_int_digits(bytes, e as int));
        }
        let parsed = match crate::num::u128_from_ascii(head) {
            Some(v) => v,
            None => {
                proof {
            lemma_convert_reasons_differ();
        }
        return Err(crate::error::ConvertError::would_overflow("u128"));
            },
        };
        // The cut digits must all be zero for the value to be an integer.
        let mut i = keep;
        while i < p
            invariant
                1 <= keep <= i <= p,
                p == digits@.len(),
                bytes == decimal.bytes@,
                decimal.wf(),
                spec_is_finite(bytes),
                digits@ == spec_all_digits(bytes),
                p == spec_precision_digits(8 * bytes.len()),
                e == spec_biased_exponent(bytes) - spec_bias(8 * bytes.len()),
                -0x20000 <= e < 0,
                keep == p + e,
                !spec_is_sign_negative(bytes),
                spec_digits_val(spec_int_digits(bytes, e as int)) <= u128::MAX,
                forall|j: int| keep <= j < i ==> digits@[j] == 48,
            decreases p - i,
        {
            if digits[i] != 48 {
                proof {
                    assert(digits@ == spec_all_digits(bytes));
                    let sub = spec_all_digits(bytes).subrange(keep as int, p as int);
                    assert(0 <= i - keep < sub.len());
                    assert(sub[i - keep] == spec_all_digits(bytes)[i as int]);
                    assert(0 <= i - keep < -(e as int));
                    assert(spec_zeros(-(e as int))[i - keep] == 48);
                    assert(!(sub =~= spec_zeros(-(e as int))));
                }
                proof {
                    lemma_convert_reasons_differ();
                }
                return Err(crate::error::ConvertError::non_integer("u128"));
            }
            i = i + 1;
        }
        proof {
            assert(spec_all_digits(bytes).subrange(keep as int, p as int) =~= spec_zeros(
                -(e as int),
            ));
        }
        Ok(parsed)
    } else {
        proof {
            if !spec_is_sign_negative(bytes) && -(spec_precision_digits(8 * bytes.len()) as int)
                < e {
                assert(false);
            }
        }
        proof {
            lemma_convert_reasons_differ();
        }
        Err(crate::error::ConvertError::would_overflow("u128"))
    }
}

/// Convert a finite decimal to a signed 128-bit integer.
///
/// The conversion succeeds exactly when the exponent keeps the value an
/// integer and the signed value fits the target range.
pub fn decimal_to_int_signed(decimal: &BinaryBuf) -> (r: Result<i128, crate::error::ConvertError>)
    requires
        decimal.wf(),
    ensures
        ({
            let bytes = decimal.bytes@;
            let e = spec_biased_exponent(bytes) - spec_bias(8 * bytes.len());
            let p = spec_precision_digits(8 * bytes.len()) as int;
            let neg = spec_is_sign_negative(bytes);
            let mag = spec_digits_val(spec_int_digits(bytes, e));
            &&& (r is Ok <==> spec_is_finite(bytes) && -p < e && (if neg {
                mag <= 0x8000_0000_0000_0000_0000_0000_0000_0000
            } else {
                mag <= i128::MAX
            }) && (e >= 0 || spec_all_digits(bytes).subrange(p + e, p) =~= spec_zeros(-e)))
            &&& (r is Ok ==> r->Ok_0 == (if neg {
                -mag
            } else {
                mag
            }))
            &&& (r is Err ==> r->Err_0.target@ == "i128"@)
            &&& (r is Err ==> (r->Err_0.reason@ == "would require rounding to an integer"@
                <==> spec_is_finite(bytes) && -p < e < 0 && (if neg {
                mag <= 0x8000_0000_0000_0000_0000_0000_0000_0000
            } else {
                mag <= i128::MAX
            }) && !(spec_all_digits(bytes).subrange(p + e, p) =~= spec_zeros(-e))))
            &&& (r is Err && r->Err_0.reason@ != "would require rounding to an integer"@
                ==> r->Err_0.reason@ == "would overflow"@)
        }),
{
    let ghost bytes = decimal.bytes@;
    proof {
        lemma_widths_fit(bytes.len() as nat);
    }
    // Only finite decimals convert; a NaN or infinity is never an integer.
    if !crate::combination::is_finite(decimal) {
        proof {
            lemma_convert_reasons_differ();
        }
        return Err(crate::error::ConvertError::would_overflow("i128"));
    }
    let (e, msd) = crate::combination::decode_combination_finite(decimal);
    let negative = crate::combination::is_sign_negative(decimal);
    let mut digits: Vec<u8> = Vec::new();
    digits.push(msd.get_ascii());
    let mut trailing = crate::significand::decode_significand_trailing_declets(decimal);
    digits.append(&mut trailing);
    proof {
        assert(digits@ =~= spec_all_digits(bytes));
    }
    let p = digits.len();
    if e >= 0 {
        let mut z: i64 = 0;
        let ghost before = digits@;
        while z < e
            invariant
                0 <= z <= e,
                e <= 0x20000,
                digits@ == before + spec_zeros(z as int),
            decreases e - z,
        {
            digits.push(48);
            proof {
                assert(before + spec_zeros(z + 1) =~= (before + spec_zeros(z as int)).push(48u8));
            }
            z = z + 1;
        }
        proof {
            assert(digits@ =~= spec_int_digits(bytes, e as int));
        }
        match crate::num::i128_from_ascii(negative, digits.as_slice()) {
            Some(v) => Ok(v),
            None => {
                proof {
                    lemma_convert_reasons_differ();
                }
                Err(crate::error::ConvertError::would_overflow("i128"))
            },
        }
    } else if ((-e) as usize) < p {
        let keep = p - ((-e) as usize);
        let head = vstd::slice::slice_subrange(digits.as_slice(), 0, keep);
        proof {
            assert(head@ =~= spec_int_digits(bytes, e as int));
        }
        let parsed = match crate::num::i128_from_ascii(negative, head) {
            Some(v) => v,
            None => {
                proof {
                    lemma_convert_reasons_differ();
                }
                return Err(crate::error::ConvertError::would_overflow("i128"));
            },
        };
        let mut i = keep;
        while i < p
            invariant
                1 <= keep <= i <= p,
                p == digits@.len(),
                bytes == decimal.bytes@,
                decimal.wf(),
                spec_is_finite(bytes),
                digits@ == spec_all_digits(bytes),
                p == spec_precision_digits(8 * bytes.len()),
                e == spec_biased_exponent(bytes) - spec_bias(8 * bytes.len()),
                -0x20000 <= e < 0,
                keep == p + e,
                negative == spec_is_sign_negative(bytes),
                (if negative {
                    spec_digits_val(spec_int_digits(bytes, e as int))
                        <= 0x8000_0000_0000_0000_0000_0000_0000_0000
                } else {
                    spec_digits_val(spec_int_digits(bytes, e as int)) <= i128::MAX
                }),
                forall|j: int| keep <= j < i ==> digits@[j] == 48,
            decreases p - i,
        {
            if digits[i] != 48 {
                proof {
                    assert(digits@ == spec_all_digits(bytes));
                    let sub = spec_all_digits(bytes).subrange(keep as int, p as int);
                    assert(0 <= i - keep < sub.len());
                    assert(sub[i - keep] == spec_all_digits(bytes)[i as int]);
                    assert(0 <= i - keep < -(e as int));
                    assert(spec_zeros(-(e as int))[i - keep] == 48);
                    assert(!(sub =~= spec_zeros(-(e as int))));
                }
                proof {
                    lemma_convert_reasons_differ();
                }
                return Err(crate::error::ConvertError::non_integer("i128"));
            }
            i = i + 1;
        }
        proof {
            assert(spec_all_digits(bytes).subrange(keep as int, p as int) =~= spec_zeros(
                -(e as int),
            ));
        }
        Ok(parsed)
    } else {
        proof {
            lemma_convert_reasons_differ();
        }
        Err(crate::error::ConvertError::would_overflow("i128"))
    }
}


/// Every significant digit a buffer yields is an ASCII digit, whatever bit
/// pattern the buffer holds.
pub proof fn lemma_all_digits_ascii(bytes: Seq<u8>)
    requires
        len_wf(bytes.len()),
    ensures
        forall|i: int|
            0 <= i < spec_all_digits(bytes).len() ==> is_ascii_digit(
                #[trigger] spec_all_digits(bytes)[i],
            ),
{
    let digits = spec_all_digits(bytes);
    let p = spec_precision_digits(8 * bytes.len()) as int;
    lemma_widths_fit(bytes.len() as nat);
    assert forall|i: int| 0 <= i < digits.len() implies is_ascii_digit(#[trigger] digits[i]) by {
        if i == 0 {
            let c = crate::combination::spec_comb5(bytes);
            assert((c & 1) <= 1 && (c & 7) <= 7) by (bit_vector);
        } else {
            lemma_trailing_digit_ascii(bytes, p - 1 - i);
        }
    }
}

/// Every trailing-significand slot reads back as an ASCII digit.
pub proof fn lemma_trailing_digit_ascii(bytes: Seq<u8>, i: int)
    ensures
        is_ascii_digit(spec_trailing_digit(bytes, i)),
{
    crate::bits::lemma_field_bound(bytes, 10 * (i / 3), 10);
    vstd::arithmetic::power2::lemma2_to64();
    let d = crate::significand::spec_declet(bytes, i / 3);
    crate::significand::lemma_dpd_digits_valid(d);
    let x = crate::significand::spec_dpd_to_bcd(d);
    assert(((x & 0x0F0) >> 4) <= 9 && ((x & 0xF00) >> 8) <= 9 && (x & 0x00F) <= 9) by (bit_vector)
        requires
            (x & 0x00F) <= 0x009 && (x & 0x0F0) <= 0x090 && (x & 0xF00) <= 0x900,
    ;
}

/// The integer magnitude a buffer yields is non-negative.
pub proof fn lemma_int_magnitude_nonneg(bytes: Seq<u8>)
    requires
        len_wf(bytes.len()),
    ensures
        forall|e: int|
            -(spec_precision_digits(8 * bytes.len()) as int) < e ==> spec_digits_val(
                #[trigger] spec_int_digits(bytes, e),
            ) >= 0,
{
    lemma_all_digits_ascii(bytes);
    assert forall|e: int|
        -(spec_precision_digits(8 * bytes.len()) as int) < e implies spec_digits_val(
        #[trigger] spec_int_digits(bytes, e),
    ) >= 0 by {
        let s = spec_int_digits(bytes, e);
        let digits = spec_all_digits(bytes);
        assert forall|j: int| 0 <= j < s.len() implies is_ascii_digit(#[trigger] s[j]) by {
            if e >= 0 {
                if j < digits.len() {
                    assert(s[j] == digits[j]);
                } else {
                    assert(s[j] == 48);
                }
            } else {
                assert(s[j] == digits[j]);
            }
        }
        crate::exponent::lemma_digits_val_nonneg(s);
    }
}

} // verus!
