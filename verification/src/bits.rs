//! Bit-level access to a little-endian byte buffer.
//!
//! Every field of the interchange format (declets, trailing exponent,
//! combination field, sign) is some run of bits `[lo, lo + n)` where bit `i`
//! is bit `i % 8` of byte `i / 8`. This module gives the byte buffer a
//! mathematical reading, [`field`], and the verified primitives that read and
//! write such runs.

use vstd::prelude::*;
use vstd::arithmetic::power2::{pow2, lemma_pow2_unfold, lemma_pow2_pos};
use vstd::bits::lemma_u64_shr_is_div;
use vstd::pervasive::VecAdditionalExecFns;

verus! {

/// Bit `k` of the byte `b`, with bit 0 the least significant.
pub open spec fn byte_bit(b: u8, k: u8) -> bool {
    b >> k & 1 == 1
}

/// Bit `i` of a little-endian byte buffer: bit `i % 8` of byte `i / 8`.
pub open spec fn bit_at(bytes: Seq<u8>, i: int) -> bool {
    byte_bit(bytes[i / 8], (i % 8) as u8)
}

/// Bit `k` of a 64-bit value.
pub open spec fn u64_bit(v: u64, k: u64) -> bool {
    v >> k & 1 == 1
}

/// The value of the `n` bits starting at bit `lo`, read least-significant
/// first.
pub open spec fn field(bytes: Seq<u8>, lo: int, n: nat) -> nat
    decreases n,
{
    if n == 0 {
        0
    } else {
        (if bit_at(bytes, lo) {
            1nat
        } else {
            0nat
        }) + 2 * field(bytes, lo + 1, (n - 1) as nat)
    }
}

/// All bits in `[lo, lo + n)` are clear.
pub open spec fn bits_clear(bytes: Seq<u8>, lo: int, n: nat) -> bool {
    forall|i: int| lo <= i < lo + n ==> !bit_at(bytes, i)
}

/// A field reads the same out of two buffers whose bits agree on its range.
pub proof fn lemma_field_congruence(b1: Seq<u8>, b2: Seq<u8>, lo: int, n: nat)
    requires
        forall|i: int| lo <= i < lo + n ==> bit_at(b1, i) == bit_at(b2, i),
    ensures
        field(b1, lo, n) == field(b2, lo, n),
    decreases n,
{
    if n > 0 {
        lemma_field_congruence(b1, b2, lo + 1, (n - 1) as nat);
    }
}

/// A field of `n` bits is below `2^n`.
pub proof fn lemma_field_bound(bytes: Seq<u8>, lo: int, n: nat)
    ensures
        field(bytes, lo, n) < pow2(n),
    decreases n,
{
    if n == 0 {
        assert(pow2(0) == 1) by {
            vstd::arithmetic::power2::lemma2_to64();
        }
    } else {
        lemma_field_bound(bytes, lo + 1, (n - 1) as nat);
        lemma_pow2_unfold(n);
    }
}

/// Extending a field by one bit adds that bit at weight `2^n`.
pub proof fn lemma_field_snoc(bytes: Seq<u8>, lo: int, n: nat)
    ensures
        field(bytes, lo, n + 1) == field(bytes, lo, n) + pow2(n) * (if bit_at(bytes, lo + n) {
            1nat
        } else {
            0nat
        }),
    decreases n,
{
    if n == 0 {
        assert(pow2(0) == 1) by {
            vstd::arithmetic::power2::lemma2_to64();
        }
        assert(field(bytes, lo + 1, 0) == 0);
        assert(field(bytes, lo, 1) == (if bit_at(bytes, lo) {
            1nat
        } else {
            0nat
        }));
    } else {
        lemma_field_snoc(bytes, lo + 1, (n - 1) as nat);
        lemma_pow2_unfold(n);
        let tail = field(bytes, lo + 1, (n - 1) as nat);
        let b: nat = if bit_at(bytes, lo + n) {
            1nat
        } else {
            0nat
        };
        let h: nat = if bit_at(bytes, lo) {
            1nat
        } else {
            0nat
        };
        assert(field(bytes, lo + 1, ((n + 1) - 1) as nat) == tail + pow2((n - 1) as nat) * b);
        assert(field(bytes, lo, n + 1) == h + 2 * (tail + pow2((n - 1) as nat) * b));
        assert(field(bytes, lo, n) == h + 2 * tail);
        assert(2 * (tail + pow2((n - 1) as nat) * b) == 2 * tail + pow2(n) * b) by (nonlinear_arith)
            requires
                pow2(n) == 2 * pow2((n - 1) as nat),
        ;
    }
}

/// The bits of a field spell out its value.
pub proof fn lemma_field_from_bits(bytes: Seq<u8>, lo: int, n: nat, v: u64)
    requires
        n <= 63,
        v < pow2(n),
        forall|i: int| lo <= i < lo + n ==> #[trigger] bit_at(bytes, i) == u64_bit(v, (i - lo) as u64),
    ensures
        field(bytes, lo, n) == v,
    decreases n,
{
    if n == 0 {
        // pow2(0) == 1, so v == 0
        assert(pow2(0) == 1) by {
            vstd::arithmetic::power2::lemma2_to64();
        }
    } else {
        let w = v >> 1u64;
        lemma_u64_shr_is_div(v, 1u64);
        assert(pow2(1) == 2) by {
            vstd::arithmetic::power2::lemma2_to64();
        }
        lemma_pow2_unfold(n);
        assert(w < pow2((n - 1) as nat));
        assert(forall|j: u64| j < 63 ==> (v >> 1u64) >> j == v >> (j + 1) as u64) by (bit_vector);
        assert(forall|i: int|
            lo + 1 <= i < lo + 1 + (n - 1) ==> #[trigger] bit_at(bytes, i) == u64_bit(
                w,
                (i - (lo + 1)) as u64,
            ));
        lemma_field_from_bits(bytes, lo + 1, (n - 1) as nat, w);
        assert(v == (v & 1) + 2 * (v >> 1u64)) by (bit_vector);
        assert(bit_at(bytes, lo) == u64_bit(v, 0));
        assert((v >> 0u64) == v) by (bit_vector);
    }
}

/// Every bit of a zero byte is clear.
pub proof fn lemma_zero_byte_bits()
    ensures
        forall|k: u8| k < 8 ==> !byte_bit(0u8, k),
{
    assert(forall|k: u8| k < 8 ==> !(0u8 >> k & 1 == 1)) by (bit_vector);
}

/// Read one bit of the buffer.
pub fn get_bit(buf: &Vec<u8>, i: usize) -> (r: bool)
    requires
        i < 8 * buf@.len(),
    ensures
        r == bit_at(buf@, i as int),
{
    let bi = i / 8;
    let sh = (i % 8) as u8;
    (buf[bi] >> sh) & 1 == 1
}

/// Set or clear one bit of the buffer, leaving every other bit as it was.
pub fn set_bit(buf: &mut Vec<u8>, i: usize, v: bool)
    requires
        i < 8 * old(buf)@.len(),
    ensures
        final(buf)@.len() == old(buf)@.len(),
        bit_at(final(buf)@, i as int) == v,
        forall|j: int|
            0 <= j < 8 * old(buf)@.len() && j != i ==> bit_at(final(buf)@, j) == bit_at(
                old(buf)@,
                j,
            ),
{
    let bi = i / 8;
    let sh = (i % 8) as u8;
    let b = buf[bi];
    let nb: u8 = if v {
        b | (1u8 << sh)
    } else {
        b & !(1u8 << sh)
    };
    buf.set(bi, nb);
    proof {
        assert(byte_bit(nb, sh) == v) by (bit_vector)
            requires
                nb == if v {
                    b | (1u8 << sh)
                } else {
                    b & !(1u8 << sh)
                },
                sh < 8,
        ;
        assert forall|j: int| 0 <= j < 8 * old(buf)@.len() && j != i implies bit_at(
            final(buf)@,
            j,
        ) == bit_at(old(buf)@, j) by {
            if j / 8 == bi {
                let k = (j % 8) as u8;
                assert(k != sh && k < 8);
                assert(byte_bit(nb, k) == byte_bit(b, k)) by (bit_vector)
                    requires
                        nb == if v {
                            b | (1u8 << sh)
                        } else {
                            b & !(1u8 << sh)
                        },
                        sh < 8,
                        k < 8,
                        k != sh,
                ;
            }
        }
    }
}

/// Write the low `n` bits of `v` into the buffer at bit offset `lo`,
/// leaving every bit outside `[lo, lo + n)` as it was.
pub fn write_bits(buf: &mut Vec<u8>, lo: usize, n: usize, v: u64)
    requires
        old(buf)@.len() <= 0x1000_0000,
        lo + n <= 8 * old(buf)@.len(),
        n <= 63,
        v < pow2(n as nat),
    ensures
        final(buf)@.len() == old(buf)@.len(),
        field(final(buf)@, lo as int, n as nat) == v,
        forall|j: int|
            0 <= j < 8 * old(buf)@.len() && !(lo <= j < lo + n) ==> bit_at(final(buf)@, j)
                == bit_at(old(buf)@, j),
{
    let ghost orig = buf@;
    let mut k: usize = 0;
    while k < n
        invariant
            k <= n,
            orig.len() <= 0x1000_0000,
            lo + n <= 8 * orig.len(),
            n <= 63,
            v < pow2(n as nat),
            buf@.len() == orig.len(),
            forall|i: int|
                lo <= i < lo + k ==> #[trigger] bit_at(buf@, i) == u64_bit(v, (i - lo) as u64),
            forall|j: int|
                0 <= j < 8 * orig.len() && !(lo <= j < lo + k) ==> bit_at(buf@, j) == bit_at(
                    orig,
                    j,
                ),
        decreases n - k,
    {
        set_bit(buf, lo + k, (v >> (k as u64)) & 1 == 1);
        k = k + 1;
    }
    proof {
        lemma_field_from_bits(buf@, lo as int, n as nat, v);
    }
}

/// Read the `n` bits at bit offset `lo` as a value.
pub fn read_bits(buf: &Vec<u8>, lo: usize, n: usize) -> (r: u64)
    requires
        buf@.len() <= 0x1000_0000,
        lo + n <= 8 * buf@.len(),
        n <= 63,
    ensures
        r == field(buf@, lo as int, n as nat),
        r < pow2(n as nat),
{
    let mut r: u64 = 0;
    let mut k: usize = 0;
    proof {
        lemma_pow2_pos(0);
    }
    while k < n
        invariant
            k <= n,
            n <= 63,
            buf@.len() <= 0x1000_0000,
            lo + n <= 8 * buf@.len(),
            r == field(buf@, lo as int, k as nat),
            r < pow2(k as nat),
        decreases n - k,
    {
        proof {
            lemma_field_snoc(buf@, lo as int, k as nat);
            vstd::bits::lemma_u64_pow2_no_overflow(k as nat);
            vstd::bits::lemma_u64_shl_is_mul(1u64, k as u64);
            lemma_pow2_unfold((k + 1) as nat);
        }
        if get_bit(buf, lo + k) {
            let kk = k as u64;
            let m: u64 = 1u64 << kk;
            assert(r | m == r + m) by (bit_vector)
                requires
                    kk < 63,
                    m == 1u64 << kk,
                    r < m,
            ;
            r = r | m;
        }
        k = k + 1;
    }
    proof {
        lemma_field_bound(buf@, lo as int, n as nat);
    }
    r
}

} // verus!
