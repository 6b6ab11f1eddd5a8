//! The byte buffer a decimal is encoded into, and the width arithmetic that
//! sizes it.
//!
//! A buffer always holds `k/8` bytes for a storage width of `k` bits, `k` a
//! multiple of 32 and at least 32. The derived field widths follow the
//! IEEE 754-2019 formulas:
//!
//! - precision in digits `p = 9k/32 - 2`;
//! - trailing significand `t = 15k/16 - 10` bits;
//! - combination field `w = k/16 + 9` bits, of which 5 sit in the last byte
//!   and `w - 5` are the trailing exponent;
//! - exponent width `w - 3` bits.

use vstd::prelude::*;
use vstd::arithmetic::power2::pow2;
use crate::bits::{bit_at, byte_bit, lemma_zero_byte_bits};
use crate::error::OverflowError;

verus! {

/// An unbiased exponent `e` fits a `k`-bit decimal: once biased it lands in
/// the stored range `[0, 3 * 2^(k/16 + 4))`.
///
/// This range is wider than `[emin, emax]` by the precision-dependent part
/// of the bias: an encoder lowers the written exponent by up to `p` digits,
/// so the widths are chosen against the stored range, exactly as the exact
/// per-width tables below do.
pub open spec fn spec_exponent_fits(e: int, k: nat) -> bool {
    0 <= e + crate::exponent::spec_bias(k) < crate::exponent::spec_biased_range(k)
}

/// The widest buffer this library works with, in bytes (a 160-bit decimal).
pub const MAX_WIDTH_BYTES: usize = 20;

/// A well-formed buffer length: 4 to 20 bytes, a multiple of 4.
pub open spec fn len_wf(len: nat) -> bool {
    4 <= len <= MAX_WIDTH_BYTES && len % 4 == 0
}

/// Precision in digits of a `k`-bit decimal: `p = 9k/32 - 2`.
pub open spec fn spec_precision_digits(k: nat) -> nat {
    (9 * k / 32 - 2) as nat
}

/// Width in bits of the trailing significand of a `k`-bit decimal:
/// `t = 15k/16 - 10`.
pub open spec fn spec_trailing_sig_bits(k: nat) -> nat {
    (15 * k / 16 - 10) as nat
}

/// Width in bits of the combination field of a `k`-bit decimal:
/// `w = k/16 + 9`.
pub open spec fn spec_combination_bits(k: nat) -> nat {
    k / 16 + 9
}

/// Width in bits of the exponent of a `k`-bit decimal: `w - 3`.
pub open spec fn spec_exponent_bits(k: nat) -> nat {
    (spec_combination_bits(k) - 3) as nat
}

/// Bits of the exponent written outside the combination field: `w - 5`.
pub open spec fn spec_trailing_exp_bits(k: nat) -> nat {
    (spec_combination_bits(k) - 5) as nat
}

/// Every bit of the buffer is clear.
pub open spec fn all_zero(bytes: Seq<u8>) -> bool {
    forall|i: int| 0 <= i < bytes.len() ==> bytes[i] == 0
}

/// A zero byte has no set bit, so a zero buffer has no set bit.
pub proof fn lemma_all_zero_bits(bytes: Seq<u8>)
    requires
        all_zero(bytes),
    ensures
        forall|i: int| 0 <= i < 8 * bytes.len() ==> !bit_at(bytes, i),
{
    lemma_zero_byte_bits();
    assert forall|i: int| 0 <= i < 8 * bytes.len() implies !bit_at(bytes, i) by {
        assert(bytes[i / 8] == 0);
    }
}

/// A buffer for an IEEE 754-2019 decimal-interchange-formatted number.
///
/// The bytes are little-endian: byte 0 is least significant. The buffer's
/// length decides every derived field width.
#[derive(Debug, Clone)]
pub struct BinaryBuf {
    pub bytes: Vec<u8>,
}

impl BinaryBuf {
    /// The buffer has a legal interchange width.
    pub open spec fn wf(&self) -> bool {
        len_wf(self.bytes@.len())
    }

    /// A zeroed buffer of `len` bytes.
    pub fn zeroed(len: usize) -> (r: BinaryBuf)
        requires
            len_wf(len as nat),
        ensures
            r.wf(),
            r.bytes@.len() == len,
            all_zero(r.bytes@),
    {
        let mut bytes: Vec<u8> = Vec::new();
        let mut i: usize = 0;
        while i < len
            invariant
                i <= len,
                bytes@.len() == i,
                forall|j: int| 0 <= j < i ==> bytes@[j] == 0,
            decreases len - i,
        {
            bytes.push(0u8);
            i = i + 1;
        }
        BinaryBuf { bytes }
    }

    /// The bit-width of this buffer.
    pub fn storage_width_bits(&self) -> (r: usize)
        requires
            self.wf(),
        ensures
            r == 8 * self.bytes@.len(),
    {
        self.bytes.len() * 8
    }

    /// The number of significant digits this buffer can fit.
    pub fn precision_digits(&self) -> (r: usize)
        requires
            self.wf(),
        ensures
            r == spec_precision_digits(8 * self.bytes@.len()),
    {
        9 * self.storage_width_bits() / 32 - 2
    }

    /// The number of trailing significant digits this buffer can fit; the
    /// most significant digit lives in the combination field instead.
    pub fn trailing_significand_digits(&self) -> (r: usize)
        requires
            self.wf(),
        ensures
            r == spec_precision_digits(8 * self.bytes@.len()) - 1,
            r % 3 == 0,
    {
        proof {
            lemma_widths_fit(self.bytes@.len() as nat);
        }
        self.precision_digits() - 1
    }

    /// The number of bits dedicated to the trailing significand digits.
    pub fn trailing_significand_width_bits(&self) -> (r: usize)
        requires
            self.wf(),
        ensures
            r == spec_trailing_sig_bits(8 * self.bytes@.len()),
    {
        15 * self.storage_width_bits() / 16 - 10
    }

    /// The number of bits of the combination field.
    pub fn combination_width_bits(&self) -> (r: usize)
        requires
            self.wf(),
        ensures
            r == spec_combination_bits(8 * self.bytes@.len()),
    {
        self.storage_width_bits() / 16 + 9
    }

    /// The bit-width of an exponent encoded by this buffer.
    pub fn exponent_width_bits(&self) -> (r: usize)
        requires
            self.wf(),
        ensures
            r == spec_exponent_bits(8 * self.bytes@.len()),
    {
        self.combination_width_bits() - 3
    }

    /// The number of exponent bits written outside the combination field.
    pub fn trailing_exponent_width_bits(&self) -> (r: usize)
        requires
            self.wf(),
        ensures
            r == spec_trailing_exp_bits(8 * self.bytes@.len()),
    {
        self.combination_width_bits() - 5
    }

    /// Try to get a zeroed buffer of at least `bytes` bytes within a target
    /// that holds at most `max_bytes`.
    ///
    /// A fixed-width target fills its whole width; a dynamically sized one
    /// takes exactly the width asked for. Asking for more than the target
    /// holds is an overflow that reports both widths.
    pub fn try_with_at_least_storage_width_bytes(
        bytes: usize,
        max_bytes: usize,
        fill_to_max: bool,
    ) -> (r: Result<BinaryBuf, OverflowError>)
        requires
            len_wf(max_bytes as nat),
            bytes % 4 == 0,
            4 <= bytes,
        ensures
            r is Ok <==> bytes <= max_bytes,
            r is Ok ==> r->Ok_0.wf() && all_zero(r->Ok_0.bytes@) && r->Ok_0.bytes@.len() == (
            if fill_to_max {
                max_bytes as int
            } else {
                bytes as int
            }),
            r is Err ==> r->Err_0.max_width == max_bytes && r->Err_0.required_width == Some(bytes),
    {
        if bytes > max_bytes {
            Err(OverflowError::would_overflow(max_bytes, bytes))
        } else if fill_to_max {
            Ok(BinaryBuf::zeroed(max_bytes))
        } else {
            Ok(BinaryBuf::zeroed(bytes))
        }
    }

    /// Try to get a zeroed buffer of exactly `bytes` bytes within a target
    /// that holds at most `max_bytes`.
    pub fn try_with_exactly_storage_width_bytes(bytes: usize, max_bytes: usize) -> (r: Result<
        BinaryBuf,
        OverflowError,
    >)
        requires
            len_wf(max_bytes as nat),
            bytes % 4 == 0,
            4 <= bytes,
        ensures
            r is Ok <==> bytes <= max_bytes,
            r is Ok ==> r->Ok_0.wf() && all_zero(r->Ok_0.bytes@) && r->Ok_0.bytes@.len() == bytes,
            r is Err ==> r->Err_0.max_width == max_bytes && r->Err_0.required_width == Some(bytes),
    {
        BinaryBuf::try_with_at_least_storage_width_bytes(bytes, max_bytes, false)
    }

    /// The smallest byte width whose precision holds the digits and whose
    /// exponent range holds the exponent, as computed from the minimum
    /// width tables.
    #[verifier::rlimit(100)]
    #[verifier::spinoff_prover]
    fn minimum_width_bytes(integer_digits: usize, integer_exponent: Option<i64>) -> (r: usize)
        requires
            1 <= integer_digits <= 0x100_0000,
            integer_exponent is Some ==> -0x100_0000_0000 <= integer_exponent->0
                <= 0x100_0000_0000,
        ensures
            r % 4 == 0,
            4 <= r <= 0x800_0000,
            spec_precision_digits(8 * r as nat) >= integer_digits,
            integer_exponent is Some && r <= MAX_WIDTH_BYTES ==> spec_exponent_fits(
                integer_exponent->0 as int,
                8 * r as nat,
            ),
            forall|m: nat|
                #[trigger] len_wf(m) && integer_digits <= spec_precision_digits(8 * m) && (
                integer_exponent is Some ==> spec_exponent_fits(integer_exponent->0 as int, 8 * m))
                    ==> r <= m,
    {
        let wd = minimum_storage_width_bits_for_precision_digits(integer_digits) / 8;
        let we: usize = match integer_exponent {
            Some(e) => minimum_storage_width_bits_for_integer_exponent(e) / 8,
            None => 4,
        };
        let needed: usize = if wd > we {
            wd
        } else {
            we
        };
        proof {
            let d = integer_digits as int;
            let wd_bits = 8 * wd as nat;
            if integer_exponent is Some && needed <= MAX_WIDTH_BYTES {
                lemma_exponent_fits_mono(
                    integer_exponent->0 as int,
                    (8 * we) as nat,
                    (8 * needed) as nat,
                );
            }
            assert forall|m: nat|
                #[trigger] len_wf(m) && integer_digits <= spec_precision_digits(8 * m) && (
                integer_exponent is Some ==> spec_exponent_fits(integer_exponent->0 as int, 8 * m))
                    implies needed <= m by {
                if wd > m {
                    lemma_precision_mono(8 * m, (wd_bits - 32) as nat);
                }
            }
        }
        needed
    }

    /// Whether a width holds both the digits and the exponent.
    fn precision_and_exponent_fit(
        integer_digits: usize,
        integer_exponent: Option<i64>,
        width_bytes: usize,
    ) -> (r: bool)
        requires
            4 <= width_bytes <= MAX_WIDTH_BYTES,
            width_bytes % 4 == 0,
            integer_digits <= 0x100_0000,
        ensures
            r == (integer_digits <= spec_precision_digits(8 * width_bytes as nat)
                && (integer_exponent is Some ==> spec_exponent_fits(
                integer_exponent->0 as int,
                8 * width_bytes as nat,
            ))),
    {
        integer_digits <= precision_digits(8 * width_bytes) && (match integer_exponent {
            Some(e) => exponent_fits(e, 8 * width_bytes),
            None => true,
        })
    }

    /// Try to get a zeroed buffer with enough precision to fit a number of
    /// digits and, when one is given, an exponent.
    ///
    /// On success the buffer holds at least `integer_digits` digits of
    /// precision and the exponent lands in its biased range; a dynamically
    /// sized target additionally gets the smallest such width. The call is
    /// owed to succeed whenever the target's own width suffices for both.
    pub fn try_with_at_least_precision(
        integer_digits: usize,
        integer_exponent: Option<i64>,
        max_bytes: usize,
        fill_to_max: bool,
    ) -> (r: Result<BinaryBuf, OverflowError>)
        requires
            len_wf(max_bytes as nat),
            1 <= integer_digits <= 0x100_0000,
            integer_exponent is Some ==> -0x100_0000_0000 <= integer_exponent->0
                <= 0x100_0000_0000,
        ensures
            r is Ok ==> r->Ok_0.wf() && all_zero(r->Ok_0.bytes@) && r->Ok_0.bytes@.len()
                <= max_bytes,
            r is Ok ==> spec_precision_digits(8 * r->Ok_0.bytes@.len()) >= integer_digits,
            r is Ok && integer_exponent is Some ==> spec_exponent_fits(
                integer_exponent->0 as int,
                8 * r->Ok_0.bytes@.len(),
            ),
            r is Ok && fill_to_max ==> r->Ok_0.bytes@.len() == max_bytes,
            r is Err ==> r->Err_0.max_width == max_bytes,
            (integer_digits <= spec_precision_digits(8 * max_bytes as nat) && (integer_exponent
                is Some ==> spec_exponent_fits(
                integer_exponent->0 as int,
                8 * max_bytes as nat,
            ))) ==> r is Ok,
            r is Ok && !fill_to_max ==> r->Ok_0.bytes@.len() == 4 || integer_digits
                > spec_precision_digits((8 * (r->Ok_0.bytes@.len() - 4)) as nat) || (
            integer_exponent is Some && !spec_exponent_fits(
                integer_exponent->0 as int,
                (8 * (r->Ok_0.bytes@.len() - 4)) as nat,
            )),
    {
        let needed = BinaryBuf::minimum_width_bytes(integer_digits, integer_exponent);
        proof {
            if needed <= max_bytes {
                lemma_precision_mono(8 * needed as nat, (8 * (if fill_to_max {
                    max_bytes as int
                } else {
                    needed as int
                })) as nat);
                if integer_exponent is Some {
                    lemma_exponent_fits_mono(
                        integer_exponent->0 as int,
                        (8 * needed) as nat,
                        (8 * (if fill_to_max {
                            max_bytes as int
                        } else {
                            needed as int
                        })) as nat,
                    );
                }
            }
        }
        let mut chosen = needed;
        if !fill_to_max && needed <= max_bytes {
            // Walk down to the smallest width that still fits; in practice
            // the minimum tables already land there and the loop does not
            // move.
            while chosen > 4 && BinaryBuf::precision_and_exponent_fit(
                integer_digits,
                integer_exponent,
                chosen - 4,
            )
                invariant
                    4 <= chosen <= needed,
                    chosen % 4 == 0,
                    needed % 4 == 0,
                    needed <= max_bytes <= MAX_WIDTH_BYTES,
                    1 <= integer_digits <= 0x100_0000,
                    integer_digits <= spec_precision_digits(8 * chosen as nat),
                    integer_exponent is Some ==> spec_exponent_fits(
                        integer_exponent->0 as int,
                        8 * chosen as nat,
                    ),
                decreases chosen,
            {
                chosen = chosen - 4;
            }
        }
        BinaryBuf::try_with_at_least_storage_width_bytes(chosen, max_bytes, fill_to_max)
    }
}

/// Precision never shrinks as the width grows.
pub proof fn lemma_precision_mono(k1: nat, k2: nat)
    requires
        32 <= k1 <= k2,
    ensures
        spec_precision_digits(k1) <= spec_precision_digits(k2),
{
    vstd::arithmetic::div_mod::lemma_div_is_ordered(288int, 9 * k1 as int, 32);
    vstd::arithmetic::div_mod::lemma_div_is_ordered(9 * k1 as int, 9 * k2 as int, 32);
}

/// An exponent that fits a narrow width fits every wider width this
/// library holds.
pub proof fn lemma_exponent_fits_mono(e: int, k1: nat, k2: nat)
    requires
        k1 == 32 || k1 == 64 || k1 == 96 || k1 == 128 || k1 == 160,
        k2 == 32 || k2 == 64 || k2 == 96 || k2 == 128 || k2 == 160,
        k1 <= k2,
        spec_exponent_fits(e, k1),
    ensures
        spec_exponent_fits(e, k2),
{
    vstd::arithmetic::power2::lemma2_to64();
}

/// Calculate the number of digits a decimal with a given bit-width can hold.
pub fn precision_digits(storage_width_bits: usize) -> (r: usize)
    requires
        storage_width_bits >= 32,
        storage_width_bits <= 0x1000_0000,
    ensures
        r == spec_precision_digits(storage_width_bits as nat),
{
    9 * storage_width_bits / 32 - 2
}

/// The base-2 logarithm of `x`, rounded down; 0 when `x` is 0.
fn ilog2(x: u64) -> (r: u64)
    ensures
        r <= 63,
        x >= 1 ==> pow2(r as nat) <= x < pow2((r + 1) as nat),
{
    let mut v = x;
    let mut l: u64 = 0;
    proof {
        vstd::arithmetic::power2::lemma2_to64();
        vstd::arithmetic::power2::lemma2_to64_rest();
    }
    while v >= 2
        invariant
            l <= 63,
            v == x as nat / pow2(l as nat),
            x >= 1 ==> v >= 1,
            x >= 1 ==> pow2(l as nat) <= x,
        decreases v,
    {
        proof {
            let p = pow2(l as nat) as int;
            vstd::arithmetic::power2::lemma_pow2_unfold((l + 1) as nat);
            vstd::arithmetic::power2::lemma_pow2_pos(l as nat);
            vstd::arithmetic::div_mod::lemma_div_denominator(x as int, p, 2);
            assert(pow2((l + 1) as nat) == p * 2) by (nonlinear_arith)
                requires
                    pow2((l + 1) as nat) == 2 * p,
            ;
            vstd::arithmetic::div_mod::lemma_fundamental_div_mod(x as int, p);
            vstd::arithmetic::div_mod::lemma_mod_bound(x as int, p);
            assert(p * v >= p * 2) by (nonlinear_arith)
                requires
                    v >= 2,
                    p >= 1,
            ;
            assert(pow2((l + 1) as nat) <= x);
            assert(pow2(64) == 0x1_0000_0000_0000_0000) by {
                vstd::arithmetic::power2::lemma2_to64_rest();
            }
            if l + 1 >= 64 {
                assert(l + 1 == 64);
                assert(false);
            }
            assert(x as nat / pow2((l + 1) as nat) >= 1) by {
                vstd::arithmetic::power2::lemma_pow2_pos((l + 1) as nat);
                vstd::arithmetic::div_mod::lemma_div_is_ordered(
                    pow2((l + 1) as nat) as int,
                    x as int,
                    pow2((l + 1) as nat) as int,
                );
                vstd::arithmetic::div_mod::lemma_div_by_self(pow2((l + 1) as nat) as int);
            }
        }
        v = v / 2;
        l = l + 1;
    }
    proof {
        if x >= 1 {
            let p = pow2(l as nat) as int;
            vstd::arithmetic::power2::lemma_pow2_pos(l as nat);
            vstd::arithmetic::div_mod::lemma_fundamental_div_mod(x as int, p);
            vstd::arithmetic::div_mod::lemma_mod_bound(x as int, p);
            assert(v == 1);
            vstd::arithmetic::power2::lemma_pow2_unfold((l + 1) as nat);
        }
    }
    l
}

/// Whether an exponent fits a given byte width, checked in 128-bit
/// arithmetic so that very wide candidates can be probed safely.
fn exponent_fits(e: i64, width_bits: usize) -> (r: bool)
    requires
        32 <= width_bits <= 960,
        width_bits % 32 == 0,
    ensures
        r == spec_exponent_fits(e as int, width_bits as nat),
{
    let sh = width_bits / 16 + 3;
    proof {
        vstd::bits::lemma_u64_pow2_no_overflow(sh as nat);
        vstd::bits::lemma_u64_shl_is_mul(1u64, sh as u64);
        assert(pow2(sh as nat) <= pow2(63)) by {
            if (sh as nat) < 63 {
                vstd::arithmetic::power2::lemma_pow2_strictly_increases(sh as nat, 63);
            }
        }
        vstd::arithmetic::power2::lemma2_to64_rest();
        vstd::arithmetic::power2::lemma_pow2_unfold((sh + 1) as nat);
    }
    let emax_val: i128 = 3 * ((1u64 << (sh as u64)) as i128);
    let p = 9 * width_bits / 32 - 2;
    let bias_val: i128 = emax_val + (p as i128) - 2;
    let biased: i128 = (e as i128) + bias_val;
    0 <= biased && biased < 2 * emax_val
}

/// Calculate the minimum bit-width for a decimal that can encode a given
/// exponent, from the IEEE 754-2019 formula `emax = 3 * 2^(k/16 + 3)`.
///
/// The width is rounded up to a multiple of 32 bits with padding to spare,
/// so it may over-provision, but it never under-provisions.
pub fn calculate_minimum_storage_width_bits_for_integer_exponent(e: i64) -> (r: usize)
    requires
        -0x100_0000_0000 <= e <= 0x100_0000_0000,
    ensures
        r % 32 == 0,
        32 <= r <= 960,
        spec_exponent_fits(e as int, r as nat),
{
    let mag: u64 = if e < 0 {
        (-(e as i128)) as u64
    } else {
        e as u64
    };
    let l = ilog2(mag / 3);
    let base: usize = if l >= 3 {
        16 * ((l - 3) as usize)
    } else {
        0
    };
    let rem = base % 32;
    let mut w: usize = if rem == 0 {
        base + 32
    } else {
        base + 64 - rem
    };
    if w > 960 {
        w = 960;
    }
    // The formula always lands inside the representable range already; the
    // check makes that a theorem rather than a calculation.
    while !exponent_fits(e, w) && w < 960
        invariant
            32 <= w <= 960,
            w % 32 == 0,
        decreases 960 - w,
    {
        w = w + 32;
    }
    proof {
        if !spec_exponent_fits(e as int, w as nat) {
            lemma_huge_width_fits(e as int);
        }
    }
    w
}

/// A 960-bit decimal can carry any exponent this library meets.
proof fn lemma_huge_width_fits(e: int)
    requires
        -0x100_0000_0000 <= e <= 0x100_0000_0000,
    ensures
        spec_exponent_fits(e, 960),
{
    vstd::arithmetic::power2::lemma2_to64_rest();
    assert(pow2(64) == 2 * pow2(63)) by {
        vstd::arithmetic::power2::lemma_pow2_unfold(64);
    }
}

/// Calculate the minimum bit-width for a decimal that can encode an
/// exponent.
///
/// The widths 32 to 160 use exact bounds; larger exponents fall back to the
/// formula, which may over-provision. Fitting means landing in the stored
/// biased range, which reaches below `emin` by up to `p - 2`; see
/// [`spec_exponent_fits`].
pub fn minimum_storage_width_bits_for_integer_exponent(e: i64) -> (r: usize)
    requires
        -0x100_0000_0000 <= e <= 0x100_0000_0000,
    ensures
        r % 32 == 0,
        32 <= r <= 960,
        spec_exponent_fits(e as int, r as nat),
        spec_exponent_fits(e as int, 32) ==> r == 32,
        spec_exponent_fits(e as int, 64) ==> r <= 64,
        spec_exponent_fits(e as int, 96) ==> r <= 96,
        spec_exponent_fits(e as int, 128) ==> r <= 128,
        spec_exponent_fits(e as int, 160) ==> r <= 160,
{
    proof {
        vstd::arithmetic::power2::lemma2_to64();
    }
    if -101 <= e && e <= 90 {
        32
    } else if -398 <= e && e <= 369 {
        64
    } else if -1559 <= e && e <= 1512 {
        96
    } else if -6176 <= e && e <= 6111 {
        128
    } else if -24617 <= e && e <= 24534 {
        160
    } else {
        calculate_minimum_storage_width_bits_for_integer_exponent(e)
    }
}

/// Calculate the minimum bit-width for a decimal that can encode a number
/// of digits, from the IEEE 754-2019 formula `p = 9k/32 - 2`.
///
/// The formula path may over-provision by one step: 52 digits yield 224
/// bits although 192 already hold them. Oversizing is allowed; only the
/// exact table below is minimal.
pub fn calculate_minimum_storage_width_bits_for_precision_digits(precision_digits: usize) -> (r:
    usize)
    requires
        precision_digits <= 0x100_0000,
    ensures
        r % 32 == 0,
        32 <= r <= 0x4000_0000,
        spec_precision_digits(r as nat) >= precision_digits,
{
    let base = (precision_digits + 2) * 32 / 9 + 1;
    let rem = base % 32;
    let r: usize = if rem == 0 {
        base
    } else {
        base + 32 - rem
    };
    proof {
        let d = precision_digits as int;
        let q = (d + 2) * 32 / 9;
        vstd::arithmetic::div_mod::lemma_fundamental_div_mod((d + 2) * 32, 9);
        vstd::arithmetic::div_mod::lemma_mod_bound((d + 2) * 32, 9);
        assert(9 * q <= (d + 2) * 32);
        assert((d + 2) * 32 <= 9 * q + 8);
        assert(r >= q + 1);
        assert(9 * r >= 32 * (d + 2) + 1);
        let m = r as int / 32;
        vstd::arithmetic::div_mod::lemma_fundamental_div_mod(r as int, 32);
        assert(r == 32 * m);
        assert(9 * (32 * m) >= 32 * (d + 2) + 1);
        assert(9 * m >= d + 2 + 1) by (nonlinear_arith)
            requires
                288 * m >= 32 * (d + 2) + 1,
        ;
        assert(spec_precision_digits(r as nat) == 9 * m - 2) by {
            assert(9 * r as int == 32 * (9 * m));
            vstd::arithmetic::div_mod::lemma_div_by_multiple(9 * m, 32);
        }
    }
    r
}

/// Calculate the minimum bit-width for a decimal that can encode a number
/// of digits.
///
/// For up to 43 digits the result is the exact minimum; beyond that the
/// formula may over-provision.
pub fn minimum_storage_width_bits_for_precision_digits(precision_digits: usize) -> (r: usize)
    requires
        precision_digits <= 0x100_0000,
    ensures
        r % 32 == 0,
        32 <= r <= 0x4000_0000,
        spec_precision_digits(r as nat) >= precision_digits,
        r >= 32 * ((precision_digits + 10) / 9),
        precision_digits <= 43 ==> (r == 32 || spec_precision_digits((r - 32) as nat)
            < precision_digits),
{
    let r: usize = if precision_digits <= 7 {
        32
    } else if precision_digits <= 16 {
        64
    } else if precision_digits <= 25 {
        96
    } else if precision_digits <= 34 {
        128
    } else if precision_digits <= 43 {
        160
    } else {
        calculate_minimum_storage_width_bits_for_precision_digits(precision_digits)
    };
    proof {
        if precision_digits > 43 {
            let d = precision_digits as int;
            let m = r as int / 32;
            vstd::arithmetic::div_mod::lemma_fundamental_div_mod(r as int, 32);
            assert(r == 32 * m);
            assert(spec_precision_digits(r as nat) == 9 * m - 2) by {
                assert(9 * r as int == 32 * (9 * m));
                vstd::arithmetic::div_mod::lemma_div_by_multiple(9 * m, 32);
            }
            assert(9 * m - 2 >= d);
            assert(m >= (d + 10) / 9) by {
                vstd::arithmetic::div_mod::lemma_fundamental_div_mod(d + 10, 9);
                vstd::arithmetic::div_mod::lemma_mod_bound(d + 10, 9);
            }
            assert(32 * m >= 32 * ((d + 10) / 9)) by (nonlinear_arith)
                requires
                    m >= (d + 10) / 9,
            ;
        }
    }
    r
}

/// How the field widths of a well-formed buffer relate: the trailing
/// significand holds exactly the trailing digits as declets, and together
/// with the trailing exponent, the five combination bits and the sign it
/// fills the buffer.
pub proof fn lemma_widths_fit(len: nat)
    requires
        len_wf(len),
    ensures
        spec_precision_digits(8 * len) >= 7,
        (spec_precision_digits(8 * len) - 1) % 3 == 0,
        spec_trailing_sig_bits(8 * len) == 10 * ((spec_precision_digits(8 * len) - 1) / 3),
        spec_trailing_sig_bits(8 * len) + spec_trailing_exp_bits(8 * len) + 6 == 8 * len,
        spec_trailing_exp_bits(8 * len) <= 14,
{
    assert(len == 4 || len == 8 || len == 12 || len == 16 || len == 20);
}

} // verus!
