//! Exponent arithmetic for the interchange format.
//!
//! A decimal of width `k` bits can carry a biased exponent of `k/16 + 6`
//! bits. IEEE 754-2019 fixes `emax = 3 * 2^(k/16 + 3)`, `emin = 1 - emax`,
//! and the bias `emax + p - 2`, so that every representable exponent is
//! stored as a non-negative integer below `3 * 2^(k/16 + 4)`.

use vstd::prelude::*;
use vstd::arithmetic::power2::pow2;
use crate::buf::spec_precision_digits;
use crate::error::OverflowError;
use crate::significand::is_ascii_digit;

verus! {

/// The largest exponent a `k`-bit decimal can encode: `3 * 2^(k/16 + 3)`.
pub open spec fn spec_emax(k: nat) -> int {
    3 * pow2(k / 16 + 3) as int
}

/// The smallest exponent a `k`-bit decimal can encode: `1 - emax`.
pub open spec fn spec_emin(k: nat) -> int {
    1 - spec_emax(k)
}

/// The bias added to an exponent before it is stored: `emax + p - 2`.
pub open spec fn spec_bias(k: nat) -> int {
    spec_emax(k) + spec_precision_digits(k) - 2
}

/// The half-open range of biased exponents a `k`-bit decimal stores:
/// `[0, 3 * 2^(k/16 + 4))`, which keeps the top two stored bits below `0b11`.
pub open spec fn spec_biased_range(k: nat) -> int {
    3 * pow2(k / 16 + 4) as int
}

/// `2^sh` as an `i64`, for shifts the exponent arithmetic uses.
pub(crate) fn pow2_i64(sh: usize) -> (r: i64)
    requires
        sh <= 40,
    ensures
        r == pow2(sh as nat),
        r >= 1,
{
    proof {
        vstd::bits::lemma_u64_pow2_no_overflow(sh as nat);
        vstd::bits::lemma_u64_shl_is_mul(1u64, sh as u64);
        vstd::arithmetic::power2::lemma2_to64_rest();
        vstd::arithmetic::power2::lemma_pow2_pos(sh as nat);
        assert(pow2(40) == 0x10000000000) by {
            vstd::arithmetic::power2::lemma2_to64_rest();
        }
        assert(pow2(sh as nat) <= pow2(40)) by {
            if (sh as nat) < 40 {
                vstd::arithmetic::power2::lemma_pow2_strictly_increases(sh as nat, 40);
            }
        }
    }
    (1u64 << (sh as u64)) as i64
}

/// Calculate the maximum exponent a decimal with the given bit-width can
/// encode.
pub fn emax(storage_width_bits: usize) -> (r: i64)
    requires
        32 <= storage_width_bits <= 512,
    ensures
        r == spec_emax(storage_width_bits as nat),
        96 <= r <= 0x18_0000_0000,
{
    let sh = storage_width_bits / 16 + 3;
    let p = pow2_i64(sh);
    proof {
        assert(pow2(5) == 32) by {
            vstd::arithmetic::power2::lemma2_to64();
        }
        assert(pow2(sh as nat) >= pow2(5)) by {
            if 5 < sh as nat {
                vstd::arithmetic::power2::lemma_pow2_strictly_increases(5, sh as nat);
            }
        }
        assert(pow2(sh as nat) <= pow2(35)) by {
            if (sh as nat) < 35 {
                vstd::arithmetic::power2::lemma_pow2_strictly_increases(sh as nat, 35);
            }
        }
        assert(pow2(35) == 0x800000000) by {
            vstd::arithmetic::power2::lemma2_to64_rest();
        }
    }
    3 * p
}

/// Calculate the minimum exponent a decimal with the given bit-width can
/// encode.
pub fn emin(storage_width_bits: usize) -> (r: i64)
    requires
        32 <= storage_width_bits <= 512,
    ensures
        r == spec_emin(storage_width_bits as nat),
{
    1 - emax(storage_width_bits)
}

/// Calculate the bias for a decimal with the given bit-width.
pub fn bias(storage_width_bits: usize) -> (r: i64)
    requires
        32 <= storage_width_bits <= 512,
        storage_width_bits % 32 == 0,
    ensures
        r == spec_bias(storage_width_bits as nat),
{
    let p = 9 * storage_width_bits / 32 - 2;
    emax(storage_width_bits) + (p as i64) - 2
}

/// The integer spelled by a run of ASCII digits, most significant first.
pub open spec fn spec_digits_val(s: Seq<u8>) -> int
    decreases s.len(),
{
    if s.len() == 0 {
        0
    } else {
        spec_digits_val(s.drop_last()) * 10 + (s.last() - 48)
    }
}

/// A digit string spells a non-negative integer.
pub proof fn lemma_digits_val_nonneg(s: Seq<u8>)
    requires
        forall|j: int| 0 <= j < s.len() ==> is_ascii_digit(#[trigger] s[j]),
    ensures
        spec_digits_val(s) >= 0,
    decreases s.len(),
{
    if s.len() > 0 {
        lemma_digits_val_nonneg(s.drop_last());
    }
}

/// Extending a digit string to the right cannot shrink its value.
pub proof fn lemma_digits_val_prefix_le(s: Seq<u8>, i: int)
    requires
        0 <= i <= s.len(),
        forall|j: int| 0 <= j < s.len() ==> is_ascii_digit(#[trigger] s[j]),
    ensures
        spec_digits_val(s.take(i)) <= spec_digits_val(s),
    decreases s.len() - i,
{
    if i < s.len() {
        lemma_digits_val_prefix_le(s, i + 1);
        lemma_digits_val_nonneg(s.take(i));
        assert(s.take(i + 1).drop_last() =~= s.take(i));
        assert(spec_digits_val(s.take(i + 1)) == spec_digits_val(s.take(i)) * 10 + (s[i] - 48));
        assert(spec_digits_val(s.take(i)) * 10 >= spec_digits_val(s.take(i))) by (nonlinear_arith)
            requires
                spec_digits_val(s.take(i)) >= 0,
        ;
    } else {
        assert(s.take(i) =~= s);
    }
}

/// Convert a pre-validated run of ASCII exponent digits into a binary
/// exponent.
///
/// The returned exponent is `-v` for a negative sign and `+v` otherwise,
/// where `v` is the integer the digits spell. Values outside the 32-bit
/// signed range are reported as an overflow, whatever the width of the
/// decimal later chosen.
pub fn try_exponent_from_ascii(is_negative: bool, ascii: &[u8]) -> (r: Result<i64, OverflowError>)
    requires
        forall|j: int| 0 <= j < ascii@.len() ==> is_ascii_digit(#[trigger] ascii@[j]),
    ensures
        r is Ok <==> (if is_negative {
            spec_digits_val(ascii@) <= 0x8000_0000
        } else {
            spec_digits_val(ascii@) <= 0x7FFF_FFFF
        }),
        r is Ok ==> r->Ok_0 == (if is_negative {
            -spec_digits_val(ascii@)
        } else {
            spec_digits_val(ascii@)
        }),
        r is Ok ==> -0x8000_0000 <= r->Ok_0 <= 0x7FFF_FFFF,
        r is Err ==> r->Err_0.max_width == 4 && r->Err_0.required_width is None,
{
    let mut acc: i64 = 0;
    let mut i: usize = 0;
    let n = ascii.len();
    while i < n
        invariant
            i <= n,
            n == ascii@.len(),
            forall|j: int| 0 <= j < ascii@.len() ==> is_ascii_digit(#[trigger] ascii@[j]),
            acc == spec_digits_val(ascii@.take(i as int)),
            0 <= acc <= 0x8000_0000,
        decreases n - i,
    {
        let d = ascii[i];
        acc = acc * 10 + ((d - 48) as i64);
        proof {
            assert(ascii@.take(i + 1).drop_last() =~= ascii@.take(i as int));
        }
        i = i + 1;
        if acc > 0x8000_0000 {
            proof {
                lemma_digits_val_prefix_le(ascii@, i as int);
            }
            return Err(
                OverflowError::exponent_out_of_range(
                    4,
                    "the exponent would overflow a 32-bit integer",
                ),
            );
        }
    }
    proof {
        assert(ascii@.take(n as int) =~= ascii@);
    }
    if is_negative {
        Ok(-acc)
    } else if acc > 0x7FFF_FFFF {
        Err(OverflowError::exponent_out_of_range(4, "the exponent would overflow a 32-bit integer"))
    } else {
        Ok(acc)
    }
}

} // verus!
