//! Encoding decimal significands and NaN payloads.
//!
//! Digits move between three encodings:
//!
//! - **ASCII digits**, `48u8..=57u8`, as produced by the text parser;
//! - **binary-coded decimal (BCD)**, the low 4 bits of each ASCII digit,
//!   three digits to a `u16` with the least significant digit in the low
//!   nibble;
//! - **densely-packed decimal (DPD)**, the 10-bit compression of three BCD
//!   digits defined by IEEE 754-2008.
//!
//! The trailing significand of a decimal is a run of DPD declets starting at
//! bit 0 of the buffer, least significant declet first.

use vstd::prelude::*;
use crate::bits::{bit_at, bits_clear, field, lemma_field_congruence, read_bits, write_bits};
use crate::buf::{spec_precision_digits, spec_trailing_sig_bits, BinaryBuf, lemma_widths_fit};

verus! {

/// An ASCII decimal digit.
pub open spec fn is_ascii_digit(b: u8) -> bool {
    48u8 <= b <= 57u8
}

/// Three BCD digits packed in the low 12 bits, each digit at most 9.
pub open spec fn bcd_valid(x: u16) -> bool {
    x < 0x1000 && (x & 0x00F) <= 0x009 && (x & 0x0F0) <= 0x090 && (x & 0xF00) <= 0x900
}

/// The IEEE 754-2008 densely-packed-decimal compression of three BCD digits.
///
/// Writing the digits as `abc` (most significant), `def`, `ghi` in binary
/// with a leading "large" bit each, the eight cases keyed on the large bits
/// produce the 10-bit patterns `(abc)(def)0(ghi)`, `(abc)(def)100i`,
/// `(abc)(ghf)101i`, `(ghc)(def)110i`, `(ghc)(00f)111i`, `(abc)(10f)111i`,
/// `(dec)(01f)111i` and `(00c)(11f)111i`.
pub open spec fn spec_bcd_to_dpd(x: u16) -> u16 {
    let hi = x & 0x800 != 0;
    let mid = x & 0x080 != 0;
    let lo = x & 0x008 != 0;
    if !hi && !mid && !lo {
        ((x & 0x700) >> 1) | (x & 0x070) | (x & 0x007)
    } else if !hi && !mid && lo {
        ((x & 0x700) >> 1) | (x & 0x070) | 0x008 | (x & 0x001)
    } else if !hi && mid && !lo {
        ((x & 0x700) >> 1) | ((x & 0x006) << 4) | (x & 0x010) | 0x00A | (x & 0x001)
    } else if hi && !mid && !lo {
        ((x & 0x006) << 7) | ((x & 0x100) >> 1) | (x & 0x070) | 0x00C | (x & 0x001)
    } else if hi && mid && !lo {
        ((x & 0x006) << 7) | ((x & 0x100) >> 1) | (x & 0x010) | 0x00E | (x & 0x001)
    } else if !hi && mid && lo {
        ((x & 0x700) >> 1) | 0x040 | (x & 0x010) | 0x00E | (x & 0x001)
    } else if hi && !mid && lo {
        ((x & 0x060) << 3) | ((x & 0x100) >> 1) | 0x020 | (x & 0x010) | 0x00E | (x & 0x001)
    } else {
        ((x & 0x100) >> 1) | 0x060 | (x & 0x010) | 0x00E | (x & 0x001)
    }
}

/// The inverse reading of a 10-bit DPD group back to three BCD digits.
pub open spec fn spec_dpd_to_bcd(d: u16) -> u16 {
    if d & 0x008 == 0 {
        ((d & 0x380) << 1) | (d & 0x070) | (d & 0x007)
    } else if d & 0x00E == 0x008 {
        ((d & 0x380) << 1) | (d & 0x070) | 0x008 | (d & 0x001)
    } else if d & 0x00E == 0x00A {
        ((d & 0x380) << 1) | 0x080 | (d & 0x010) | ((d & 0x060) >> 4) | (d & 0x001)
    } else if d & 0x00E == 0x00C {
        0x800 | ((d & 0x080) << 1) | (d & 0x070) | ((d & 0x300) >> 7) | (d & 0x001)
    } else if d & 0x060 == 0x000 {
        0x800 | ((d & 0x080) << 1) | 0x080 | (d & 0x010) | ((d & 0x300) >> 7) | (d & 0x001)
    } else if d & 0x060 == 0x040 {
        ((d & 0x380) << 1) | 0x080 | (d & 0x010) | 0x008 | (d & 0x001)
    } else if d & 0x060 == 0x020 {
        0x800 | ((d & 0x080) << 1) | ((d & 0x300) >> 3) | (d & 0x010) | 0x008 | (d & 0x001)
    } else {
        0x800 | ((d & 0x080) << 1) | 0x080 | (d & 0x010) | 0x008 | (d & 0x001)
    }
}

/// Compressing three valid BCD digits and reading them back is the identity,
/// and the compressed group fits in 10 bits.
pub proof fn lemma_dpd_of_bcd_roundtrip(x: u16)
    requires
        bcd_valid(x),
    ensures
        spec_bcd_to_dpd(x) < 0x400,
        spec_dpd_to_bcd(spec_bcd_to_dpd(x)) == x,
{
    assert(spec_bcd_to_dpd(x) < 0x400 && spec_dpd_to_bcd(spec_bcd_to_dpd(x)) == x) by (bit_vector)
        requires
            x < 0x1000 && (x & 0x00F) <= 0x009 && (x & 0x0F0) <= 0x090 && (x & 0xF00) <= 0x900,
    ;
}

/// Every 10-bit group reads back as three digits that are each at most 9.
pub proof fn lemma_dpd_digits_valid(d: u16)
    requires
        d < 0x400,
    ensures
        bcd_valid(spec_dpd_to_bcd(d)),
{
    assert(spec_dpd_to_bcd(d) < 0x1000 && (spec_dpd_to_bcd(d) & 0x00F) <= 0x009 && (spec_dpd_to_bcd(
        d,
    ) & 0x0F0) <= 0x090 && (spec_dpd_to_bcd(d) & 0xF00) <= 0x900) by (bit_vector)
        requires
            d < 0x400,
    ;
}

/// A 10-bit group that stands for a digit triple — one in the image of the
/// compression — reads back and re-compresses to itself.
pub proof fn lemma_bcd_of_dpd_roundtrip(d: u16)
    requires
        exists|x: u16| bcd_valid(x) && d == spec_bcd_to_dpd(x),
    ensures
        spec_bcd_to_dpd(spec_dpd_to_bcd(d)) == d,
{
    let x = choose|x: u16| bcd_valid(x) && d == spec_bcd_to_dpd(x);
    lemma_dpd_of_bcd_roundtrip(x);
}

/// Round trip of three ASCII digits through the declet codec.
///
/// For any digits `a`, `b`, `c`, compressing them to a 10-bit group and
/// reading the group back yields `a`, `b`, `c` again.
pub proof fn lemma_ascii_declet_roundtrip(a: u8, b: u8, c: u8)
    requires
        is_ascii_digit(a),
        is_ascii_digit(b),
        is_ascii_digit(c),
    ensures
        ({
            let bcd = spec_dpd_to_bcd(spec_bcd_to_dpd(spec_ascii_declet_to_bcd(a, b, c)));
            &&& spec_bcd_digit_ascii(bcd, 0) == a
            &&& spec_bcd_digit_ascii(bcd, 1) == b
            &&& spec_bcd_digit_ascii(bcd, 2) == c
        }),
{
    lemma_bcd_digits(a, b, c);
    lemma_dpd_of_bcd_roundtrip(spec_ascii_declet_to_bcd(a, b, c));
}

/// Compress binary coded decimal (BCD) into densely packed decimal (DPD).
pub fn encode_bcd_declet_to_dpd(x: u16) -> (r: u16)
    ensures
        r == spec_bcd_to_dpd(x),
{
    let hi = x & 0x800 != 0;
    let mid = x & 0x080 != 0;
    let lo = x & 0x008 != 0;
    if !hi && !mid && !lo {
        ((x & 0x700) >> 1) | (x & 0x070) | (x & 0x007)
    } else if !hi && !mid && lo {
        ((x & 0x700) >> 1) | (x & 0x070) | 0x008 | (x & 0x001)
    } else if !hi && mid && !lo {
        ((x & 0x700) >> 1) | ((x & 0x006) << 4) | (x & 0x010) | 0x00A | (x & 0x001)
    } else if hi && !mid && !lo {
        ((x & 0x006) << 7) | ((x & 0x100) >> 1) | (x & 0x070) | 0x00C | (x & 0x001)
    } else if hi && mid && !lo {
        ((x & 0x006) << 7) | ((x & 0x100) >> 1) | (x & 0x010) | 0x00E | (x & 0x001)
    } else if !hi && mid && lo {
        ((x & 0x700) >> 1) | 0x040 | (x & 0x010) | 0x00E | (x & 0x001)
    } else if hi && !mid && lo {
        ((x & 0x060) << 3) | ((x & 0x100) >> 1) | 0x020 | (x & 0x010) | 0x00E | (x & 0x001)
    } else {
        ((x & 0x100) >> 1) | 0x060 | (x & 0x010) | 0x00E | (x & 0x001)
    }
}

/// Decompress densely packed decimal (DPD) into binary coded decimal (BCD).
pub fn decode_dpd_declet_to_bcd(d: u16) -> (r: u16)
    ensures
        r == spec_dpd_to_bcd(d),
{
    if d & 0x008 == 0 {
        ((d & 0x380) << 1) | (d & 0x070) | (d & 0x007)
    } else if d & 0x00E == 0x008 {
        ((d & 0x380) << 1) | (d & 0x070) | 0x008 | (d & 0x001)
    } else if d & 0x00E == 0x00A {
        ((d & 0x380) << 1) | 0x080 | (d & 0x010) | ((d & 0x060) >> 4) | (d & 0x001)
    } else if d & 0x00E == 0x00C {
        0x800 | ((d & 0x080) << 1) | (d & 0x070) | ((d & 0x300) >> 7) | (d & 0x001)
    } else if d & 0x060 == 0x000 {
        0x800 | ((d & 0x080) << 1) | 0x080 | (d & 0x010) | ((d & 0x300) >> 7) | (d & 0x001)
    } else if d & 0x060 == 0x040 {
        ((d & 0x380) << 1) | 0x080 | (d & 0x010) | 0x008 | (d & 0x001)
    } else if d & 0x060 == 0x020 {
        0x800 | ((d & 0x080) << 1) | ((d & 0x300) >> 3) | (d & 0x010) | 0x008 | (d & 0x001)
    } else {
        0x800 | ((d & 0x080) << 1) | 0x080 | (d & 0x010) | 0x008 | (d & 0x001)
    }
}

/// Pack three ASCII digits, least significant first, into BCD.
pub fn encode_ascii_declet_to_bcd(lo: u8, mid: u8, hi: u8) -> (r: u16)
    requires
        is_ascii_digit(lo),
        is_ascii_digit(mid),
        is_ascii_digit(hi),
    ensures
        r == spec_ascii_declet_to_bcd(lo, mid, hi),
        bcd_valid(r),
{
    let d0 = (lo - 48u8) as u16;
    let d1 = ((mid - 48u8) as u16) << 4;
    let d2 = ((hi - 48u8) as u16) << 8;
    let r = d2 | d1 | d0;
    proof {
        let a0 = (lo - 48u8) as u16;
        let a1 = ((mid - 48u8)) as u16;
        let a2 = ((hi - 48u8)) as u16;
        assert((a2 << 8) | (a1 << 4) | a0 == a2 * 256 + a1 * 16 + a0 && ((a2 << 8) | (a1 << 4)
            | a0) < 0x1000 && (((a2 << 8) | (a1 << 4) | a0) & 0x00F) == a0 && (((a2 << 8) | (a1
            << 4) | a0) & 0x0F0) == (a1 << 4) && (a1 << 4) == a1 * 16 && (((a2 << 8) | (a1 << 4)
            | a0) & 0xF00) == (a2 << 8) && (a2 << 8) == a2 * 256) by (bit_vector)
            requires
                a0 <= 9 && a1 <= 9 && a2 <= 9,
        ;
    }
    r
}

/// The BCD value of three digits given as ASCII, least significant first.
pub open spec fn spec_ascii_declet_to_bcd(a0: u8, a1: u8, a2: u8) -> u16 {
    (((a2 - 48u8) * 256) + ((a1 - 48u8) * 16) + (a0 - 48u8)) as u16
}

/// The `pos`-th digit (0 = least significant) of a BCD triple, as ASCII.
pub open spec fn spec_bcd_digit_ascii(x: u16, pos: int) -> u8 {
    if pos == 0 {
        (48u8 + (x & 0x00F)) as u8
    } else if pos == 1 {
        (48u8 + ((x & 0x0F0) >> 4)) as u8
    } else {
        (48u8 + ((x & 0xF00) >> 8)) as u8
    }
}

/// Unpack BCD into three ASCII digits, least significant first.
pub fn decode_bcd_declet_to_ascii(x: u16) -> (r: [u8; 3])
    requires
        bcd_valid(x),
    ensures
        r[0] == spec_bcd_digit_ascii(x, 0),
        r[1] == spec_bcd_digit_ascii(x, 1),
        r[2] == spec_bcd_digit_ascii(x, 2),
        is_ascii_digit(r[0]),
        is_ascii_digit(r[1]),
        is_ascii_digit(r[2]),
{
    proof {
        assert((x & 0x0F0) >> 4 <= 9 && (x & 0xF00) >> 8 <= 9 && (x & 0x00F) <= 9) by (bit_vector)
            requires
                x < 0x1000 && (x & 0x00F) <= 0x009 && (x & 0x0F0) <= 0x090 && (x & 0xF00) <= 0x900,
        ;
    }
    let d0 = 48u8 + ((x & 0x00F) as u8);
    let d1 = 48u8 + (((x & 0x0F0) >> 4) as u8);
    let d2 = 48u8 + (((x & 0xF00) >> 8) as u8);
    [d0, d1, d2]
}

/// Each digit of a packed BCD triple reads back as itself.
proof fn lemma_bcd_digits(a0: u8, a1: u8, a2: u8)
    requires
        is_ascii_digit(a0),
        is_ascii_digit(a1),
        is_ascii_digit(a2),
    ensures
        bcd_valid(spec_ascii_declet_to_bcd(a0, a1, a2)),
        spec_bcd_digit_ascii(spec_ascii_declet_to_bcd(a0, a1, a2), 0) == a0,
        spec_bcd_digit_ascii(spec_ascii_declet_to_bcd(a0, a1, a2), 1) == a1,
        spec_bcd_digit_ascii(spec_ascii_declet_to_bcd(a0, a1, a2), 2) == a2,
{
    let x = spec_ascii_declet_to_bcd(a0, a1, a2);
    assert(x < 0x1000 && (x & 0x00F) <= 0x009 && (x & 0x0F0) <= 0x090 && (x & 0xF00) <= 0x900 && (x
        & 0x00F) == a0 - 48 && ((x & 0x0F0) >> 4) == a1 - 48 && ((x & 0xF00) >> 8) == a2
        - 48) by (bit_vector)
        requires
            x == (((a2 - 48) * 256) + ((a1 - 48) * 16) + (a0 - 48)) as u16,
            48 <= a0 <= 57,
            48 <= a1 <= 57,
            48 <= a2 <= 57,
    ;
}

/// The value of the 10-bit declet `j` of the trailing significand.
pub open spec fn spec_declet(bytes: Seq<u8>, j: int) -> u16 {
    field(bytes, 10 * j, 10) as u16
}

/// The `i`-th trailing significand digit as ASCII, counting from the least
/// significant digit.
pub open spec fn spec_trailing_digit(bytes: Seq<u8>, i: int) -> u8 {
    spec_bcd_digit_ascii(spec_dpd_to_bcd(spec_declet(bytes, i / 3)), i % 3)
}

/// The digit that lands in trailing slot `i` when the digit string `digits`
/// is encoded right-aligned: its `i`-th digit from the right, or an implicit
/// leading zero once the string is exhausted.
pub open spec fn spec_padded_digit(digits: Seq<u8>, i: int) -> u8 {
    if i < digits.len() {
        digits[digits.len() - 1 - i]
    } else {
        48u8
    }
}


/// The canonical 10-bit group that encodes trailing slots `3j..3j+3` of a
/// digit string: the DPD compression of the three padded digits.
pub open spec fn spec_declet_of(digits: Seq<u8>, j: int) -> u16 {
    spec_bcd_to_dpd(
        spec_ascii_declet_to_bcd(
            spec_padded_digit(digits, 3 * j),
            spec_padded_digit(digits, 3 * j + 1),
            spec_padded_digit(digits, 3 * j + 2),
        ),
    )
}

/// The most significant digit to encode into the combination field, kept as
/// a plain binary value 0..=9 rather than an ASCII digit.
#[derive(Clone, Copy)]
pub struct MostSignificantDigit {
    pub bcd: u8,
}

impl MostSignificantDigit {
    /// The most significant digit is zero.
    pub fn zero() -> (r: Self)
        ensures
            r.bcd == 0,
    {
        MostSignificantDigit { bcd: 0 }
    }

    /// The most significant digit, from its ASCII form.
    pub fn from_ascii(digit: u8) -> (r: Self)
        requires
            is_ascii_digit(digit),
        ensures
            r.bcd == digit - 48,
            r.bcd <= 9,
    {
        MostSignificantDigit { bcd: digit - 48 }
    }

    /// The most significant digit, from its binary form.
    pub fn from_bcd(digit: u8) -> (r: Self)
        requires
            digit <= 9,
        ensures
            r.bcd == digit,
    {
        MostSignificantDigit { bcd: digit }
    }

    /// Get the most significant digit as a binary value.
    pub fn get_bcd(self) -> (r: u8)
        ensures
            r == self.bcd,
    {
        self.bcd
    }

    /// Get the most significant digit as ASCII.
    pub fn get_ascii(self) -> (r: u8)
        requires
            self.bcd <= 9,
        ensures
            r == self.bcd + 48,
            is_ascii_digit(r),
    {
        self.bcd + 48
    }
}

/// The digit for trailing slot `i`: the `i`-th digit of `digits` from the
/// right, or a leading zero.
fn pick_digit(digits: &[u8], i: usize) -> (r: u8)
    requires
        forall|j: int| 0 <= j < digits@.len() ==> is_ascii_digit(#[trigger] digits@[j]),
    ensures
        r == spec_padded_digit(digits@, i as int),
        is_ascii_digit(r),
{
    if i < digits.len() {
        digits[digits.len() - 1 - i]
    } else {
        48u8
    }
}

/// Encode the trailing digits of the significand into the buffer.
///
/// The digits arrive most significant first. They fill the trailing
/// significand right-aligned, three digits per declet, the remaining high
/// slots staying zero. When the digit string holds one digit more than the
/// trailing slots, that extra digit is returned as the most significant
/// digit for the combination field; otherwise the returned digit is zero.
pub fn encode_significand_trailing_digits(buf: &mut BinaryBuf, digits: &[u8]) -> (msd:
    MostSignificantDigit)
    requires
        old(buf).wf(),
        forall|j: int| 0 <= j < digits@.len() ==> is_ascii_digit(#[trigger] digits@[j]),
        digits@.len() <= spec_precision_digits(8 * old(buf).bytes@.len()),
        bits_clear(old(buf).bytes@, 0, spec_trailing_sig_bits(8 * old(buf).bytes@.len())),
    ensures
        final(buf).wf(),
        final(buf).bytes@.len() == old(buf).bytes@.len(),
        forall|i: int|
            0 <= i < spec_precision_digits(8 * old(buf).bytes@.len()) - 1
                ==> #[trigger] spec_trailing_digit(final(buf).bytes@, i) == spec_padded_digit(
                digits@,
                i,
            ),
        forall|j: int|
            0 <= j < (spec_precision_digits(8 * old(buf).bytes@.len()) - 1) / 3
                ==> #[trigger] spec_declet(final(buf).bytes@, j) == spec_declet_of(digits@, j),
        forall|b: int|
            spec_trailing_sig_bits(8 * old(buf).bytes@.len()) <= b < 8 * old(buf).bytes@.len()
                ==> #[trigger] bit_at(final(buf).bytes@, b) == bit_at(old(buf).bytes@, b),
        msd.bcd == (if digits@.len() == spec_precision_digits(8 * old(buf).bytes@.len()) {
            (digits@[0] - 48) as u8
        } else {
            0u8
        }),
        msd.bcd <= 9,
{
    let ghost orig = buf.bytes@;
    let ghost len = buf.bytes@.len() as int;
    let t_bits = buf.trailing_significand_width_bits();
    let num_declets = t_bits / 10;
    proof {
        lemma_widths_fit(buf.bytes@.len() as nat);
        vstd::arithmetic::power2::lemma2_to64();
    }
    let mut j: usize = 0;
    while j < num_declets
        invariant
            j <= num_declets,
            buf.wf(),
            buf.bytes@.len() == orig.len(),
            num_declets == spec_trailing_sig_bits(8 * orig.len()) / 10,
            10 * num_declets == spec_trailing_sig_bits(8 * orig.len()),
            t_bits == spec_trailing_sig_bits(8 * orig.len()),
            forall|j2: int| 0 <= j2 < digits@.len() ==> is_ascii_digit(#[trigger] digits@[j2]),
            forall|i: int|
                0 <= i < 3 * j ==> #[trigger] spec_trailing_digit(buf.bytes@, i)
                    == spec_padded_digit(digits@, i),
            forall|j2: int|
                0 <= j2 < j ==> #[trigger] spec_declet(buf.bytes@, j2) == spec_declet_of(
                    digits@,
                    j2,
                ),
            forall|b: int|
                10 * j <= b < 8 * orig.len() ==> #[trigger] bit_at(buf.bytes@, b) == bit_at(
                    orig,
                    b,
                ),
        decreases num_declets - j,
    {
        let a0 = pick_digit(digits, 3 * j);
        let a1 = pick_digit(digits, 3 * j + 1);
        let a2 = pick_digit(digits, 3 * j + 2);
        let bcd = encode_ascii_declet_to_bcd(a0, a1, a2);
        let dpd = encode_bcd_declet_to_dpd(bcd);
        proof {
            lemma_dpd_of_bcd_roundtrip(bcd);
            lemma_bcd_digits(a0, a1, a2);
            vstd::arithmetic::power2::lemma2_to64();
        }
        let ghost prev = buf.bytes@;
        write_bits(&mut buf.bytes, 10 * j, 10, dpd as u64);
        proof {
            assert forall|j2: int|
                0 <= j2 < j + 1 implies #[trigger] spec_declet(buf.bytes@, j2) == spec_declet_of(
                digits@,
                j2,
            ) by {
                if j2 < j {
                    lemma_field_congruence(buf.bytes@, prev, 10 * j2, 10);
                    assert(spec_declet(prev, j2) == spec_declet_of(digits@, j2));
                } else {
                    assert(field(buf.bytes@, 10 * (j as int), 10) == dpd as u64);
                    assert(spec_declet(buf.bytes@, j as int) == dpd);
                }
            }
            assert forall|i: int|
                0 <= i < 3 * (j + 1) implies #[trigger] spec_trailing_digit(buf.bytes@, i)
                == spec_padded_digit(digits@, i) by {
                if i < 3 * j {
                    lemma_field_congruence(buf.bytes@, prev, 10 * (i / 3), 10);
                    assert(spec_declet(buf.bytes@, i / 3) == spec_declet(prev, i / 3));
                    assert(spec_trailing_digit(prev, i) == spec_padded_digit(digits@, i));
                } else {
                    let pos = i - 3 * (j as int);
                    assert(i / 3 == j as int);
                    assert(i % 3 == pos);
                    assert(field(buf.bytes@, 10 * (j as int), 10) == dpd as u64);
                    assert(spec_declet(buf.bytes@, j as int) == dpd);
                    assert(spec_dpd_to_bcd(dpd) == bcd);
                    assert(spec_trailing_digit(buf.bytes@, i) == spec_bcd_digit_ascii(bcd, pos));
                    if pos == 0 {
                        assert(spec_bcd_digit_ascii(bcd, 0) == a0);
                        assert(spec_padded_digit(digits@, i) == a0);
                    } else if pos == 1 {
                        assert(spec_bcd_digit_ascii(bcd, 1) == a1);
                        assert(spec_padded_digit(digits@, i) == a1);
                    } else {
                        assert(spec_bcd_digit_ascii(bcd, 2) == a2);
                        assert(spec_padded_digit(digits@, i) == a2);
                    }
                }
            }
        }
        j = j + 1;
    }
    proof {
        assert(3 * num_declets == spec_precision_digits(8 * orig.len()) - 1);
    }
    if digits.len() == num_declets * 3 + 1 {
        MostSignificantDigit::from_ascii(digits[0])
    } else {
        MostSignificantDigit::zero()
    }
}

/// Encode the same digit into every trailing significand slot.
pub fn encode_significand_trailing_digits_repeat(buf: &mut BinaryBuf, digit: u8) -> (msd:
    MostSignificantDigit)
    requires
        old(buf).wf(),
        is_ascii_digit(digit),
        bits_clear(old(buf).bytes@, 0, spec_trailing_sig_bits(8 * old(buf).bytes@.len())),
    ensures
        final(buf).wf(),
        final(buf).bytes@.len() == old(buf).bytes@.len(),
        forall|i: int|
            0 <= i < spec_precision_digits(8 * old(buf).bytes@.len()) - 1
                ==> #[trigger] spec_trailing_digit(final(buf).bytes@, i) == digit,
        forall|b: int|
            spec_trailing_sig_bits(8 * old(buf).bytes@.len()) <= b < 8 * old(buf).bytes@.len()
                ==> #[trigger] bit_at(final(buf).bytes@, b) == bit_at(old(buf).bytes@, b),
        msd.bcd == digit - 48,
        msd.bcd <= 9,
{
    let ghost orig = buf.bytes@;
    let t_bits = buf.trailing_significand_width_bits();
    let num_declets = t_bits / 10;
    proof {
        lemma_widths_fit(buf.bytes@.len() as nat);
        vstd::arithmetic::power2::lemma2_to64();
    }
    let mut j: usize = 0;
    while j < num_declets
        invariant
            j <= num_declets,
            buf.wf(),
            is_ascii_digit(digit),
            buf.bytes@.len() == orig.len(),
            num_declets == spec_trailing_sig_bits(8 * orig.len()) / 10,
            10 * num_declets == spec_trailing_sig_bits(8 * orig.len()),
            forall|i: int|
                0 <= i < 3 * j ==> #[trigger] spec_trailing_digit(buf.bytes@, i) == digit,
            forall|b: int|
                10 * j <= b < 8 * orig.len() ==> #[trigger] bit_at(buf.bytes@, b) == bit_at(
                    orig,
                    b,
                ),
        decreases num_declets - j,
    {
        let bcd = encode_ascii_declet_to_bcd(digit, digit, digit);
        let dpd = encode_bcd_declet_to_dpd(bcd);
        proof {
            lemma_dpd_of_bcd_roundtrip(bcd);
            lemma_bcd_digits(digit, digit, digit);
            vstd::arithmetic::power2::lemma2_to64();
        }
        let ghost prev = buf.bytes@;
        write_bits(&mut buf.bytes, 10 * j, 10, dpd as u64);
        proof {
            assert forall|i: int|
                0 <= i < 3 * (j + 1) implies #[trigger] spec_trailing_digit(buf.bytes@, i)
                == digit by {
                if i < 3 * j {
                    lemma_field_congruence(buf.bytes@, prev, 10 * (i / 3), 10);
                    assert(spec_declet(buf.bytes@, i / 3) == spec_declet(prev, i / 3));
                    assert(spec_trailing_digit(prev, i) == digit);
                } else {
                    assert(i / 3 == j as int && i % 3 == i - 3 * j);
                    assert(field(buf.bytes@, 10 * (j as int), 10) == dpd as u64);
                    assert(spec_declet(buf.bytes@, j as int) == dpd);
                    assert(spec_dpd_to_bcd(dpd) == bcd);
                }
            }
        }
        j = j + 1;
    }
    MostSignificantDigit::from_ascii(digit)
}

/// Decode the trailing significand digits of the buffer into ASCII, most
/// significant digit first.
pub fn decode_significand_trailing_declets(buf: &BinaryBuf) -> (r: Vec<u8>)
    requires
        buf.wf(),
    ensures
        r@.len() == spec_precision_digits(8 * buf.bytes@.len()) - 1,
        forall|idx: int|
            0 <= idx < r@.len() ==> #[trigger] r@[idx] == spec_trailing_digit(
                buf.bytes@,
                r@.len() - 1 - idx,
            ),
        forall|idx: int| 0 <= idx < r@.len() ==> is_ascii_digit(#[trigger] r@[idx]),
{
    let t_bits = buf.trailing_significand_width_bits();
    let num_declets = t_bits / 10;
    proof {
        lemma_widths_fit(buf.bytes@.len() as nat);
        vstd::arithmetic::power2::lemma2_to64();
    }
    let ghost t_digits = 3 * num_declets as int;
    let mut r: Vec<u8> = Vec::new();
    let mut jj: usize = 0;
    while jj < num_declets
        invariant
            jj <= num_declets,
            buf.wf(),
            num_declets == spec_trailing_sig_bits(8 * buf.bytes@.len()) / 10,
            10 * num_declets == spec_trailing_sig_bits(8 * buf.bytes@.len()),
            t_digits == 3 * num_declets as int,
            r@.len() == 3 * jj,
            forall|idx: int|
                0 <= idx < 3 * jj ==> #[trigger] r@[idx] == spec_trailing_digit(
                    buf.bytes@,
                    t_digits - 1 - idx,
                ),
            forall|idx: int| 0 <= idx < 3 * jj ==> is_ascii_digit(#[trigger] r@[idx]),
        decreases num_declets - jj,
    {
        let j = num_declets - 1 - jj;
        let dpd64 = read_bits(&buf.bytes, 10 * j, 10);
        proof {
            vstd::arithmetic::power2::lemma2_to64();
        }
        let dpd = dpd64 as u16;
        proof {
            lemma_dpd_digits_valid(dpd);
        }
        let bcd = decode_dpd_declet_to_bcd(dpd);
        let ascii = decode_bcd_declet_to_ascii(bcd);
        r.push(ascii[2]);
        r.push(ascii[1]);
        r.push(ascii[0]);
        proof {
            let jt = j as int;
            assert(spec_declet(buf.bytes@, jt) == dpd);
            assert((3 * jt + 2) / 3 == jt && (3 * jt + 2) % 3 == 2);
            assert((3 * jt + 1) / 3 == jt && (3 * jt + 1) % 3 == 1);
            assert((3 * jt) / 3 == jt && (3 * jt) % 3 == 0);
        }
        jj = jj + 1;
    }
    r
}

} // verus!
