//! Plain binary integers: parsing from ASCII digits and rendering back.
//!
//! The decimal formats move digits around as ASCII; the integer
//! conversions at the crate surface turn those digit runs into native
//! integers and back.

use vstd::prelude::*;
use crate::exponent::{lemma_digits_val_nonneg, lemma_digits_val_prefix_le, spec_digits_val};
use crate::significand::is_ascii_digit;

verus! {

/// The ASCII decimal rendering of a non-negative integer, with no leading
/// zeros.
pub open spec fn spec_nat_ascii(n: nat) -> Seq<u8>
    decreases n,
{
    if n < 10 {
        seq![(48 + n) as u8]
    } else {
        spec_nat_ascii(n / 10).push((48 + n % 10) as u8)
    }
}

/// The ASCII decimal rendering of an integer: a minus sign for negative
/// values, then the digits of its magnitude.
pub open spec fn spec_int_ascii(v: int) -> Seq<u8> {
    if v < 0 {
        seq![45u8] + spec_nat_ascii((-v) as nat)
    } else {
        spec_nat_ascii(v as nat)
    }
}

/// Render a non-negative 64-bit integer as ASCII digits.
pub fn nat_to_ascii(n: u64) -> (r: Vec<u8>)
    ensures
        r@ == spec_nat_ascii(n as nat),
        r@.len() >= 1,
    decreases n,
{
    if n < 10 {
        let mut r: Vec<u8> = Vec::new();
        r.push(48 + (n as u8));
        proof {
            assert(r@ =~= spec_nat_ascii(n as nat));
        }
        r
    } else {
        let mut r = nat_to_ascii(n / 10);
        r.push(48 + ((n % 10) as u8));
        r
    }
}

/// Render a signed 64-bit integer as ASCII, minus sign first.
pub fn int_to_ascii(v: i64) -> (r: Vec<u8>)
    requires
        -0x4000_0000_0000_0000 <= v <= 0x4000_0000_0000_0000,
    ensures
        r@ == spec_int_ascii(v as int),
        r@.len() >= 1,
    decreases 1int,
{
    if v < 0 {
        let mut r: Vec<u8> = Vec::new();
        r.push(45u8);
        let mut digits = nat_to_ascii((-v) as u64);
        r.append(&mut digits);
        proof {
            assert(r@ =~= spec_int_ascii(v as int));
        }
        r
    } else {
        nat_to_ascii(v as u64)
    }
}

/// Parse a run of ASCII digits into an unsigned 128-bit integer, failing
/// exactly when the spelled value overflows.
pub fn u128_from_ascii(ascii: &[u8]) -> (r: Option<u128>)
    requires
        forall|j: int| 0 <= j < ascii@.len() ==> is_ascii_digit(#[trigger] ascii@[j]),
    ensures
        r is Some <==> spec_digits_val(ascii@) <= u128::MAX,
        r is Some ==> r->0 == spec_digits_val(ascii@),
{
    let mut acc: u128 = 0;
    let mut i: usize = 0;
    let n = ascii.len();
    while i < n
        invariant
            i <= n,
            n == ascii@.len(),
            forall|j: int| 0 <= j < ascii@.len() ==> is_ascii_digit(#[trigger] ascii@[j]),
            acc == spec_digits_val(ascii@.take(i as int)),
        decreases n - i,
    {
        let d = ascii[i];
        if acc > u128::MAX / 10 {
            // Even a trailing zero overflows.
            proof {
                lemma_digits_val_prefix_le(ascii@, i + 1);
                assert(ascii@.take(i + 1).drop_last() =~= ascii@.take(i as int));
                assert(spec_digits_val(ascii@.take(i + 1)) == acc * 10 + (ascii@[i as int] - 48));
                assert(acc * 10 > u128::MAX) by (nonlinear_arith)
                    requires
                        acc > u128::MAX / 10,
                ;
            }
            return None;
        }
        proof {
            assert(acc * 10 <= u128::MAX) by (nonlinear_arith)
                requires
                    acc <= u128::MAX / 10,
            ;
        }
        acc = acc * 10;
        if ((d - 48) as u128) > u128::MAX - acc {
            proof {
                lemma_digits_val_prefix_le(ascii@, i + 1);
                assert(ascii@.take(i + 1).drop_last() =~= ascii@.take(i as int));
            }
            return None;
        }
        acc = acc + ((d - 48) as u128);
        proof {
            assert(ascii@.take(i + 1).drop_last() =~= ascii@.take(i as int));
        }
        i = i + 1;
    }
    proof {
        assert(ascii@.take(n as int) =~= ascii@);
    }
    Some(acc)
}

/// Parse a run of ASCII digits with a sign into a signed 128-bit integer,
/// failing exactly when the signed value overflows.
pub fn i128_from_ascii(is_negative: bool, ascii: &[u8]) -> (r: Option<i128>)
    requires
        forall|j: int| 0 <= j < ascii@.len() ==> is_ascii_digit(#[trigger] ascii@[j]),
    ensures
        r is Some <==> (if is_negative {
            spec_digits_val(ascii@) <= 0x8000_0000_0000_0000_0000_0000_0000_0000
        } else {
            spec_digits_val(ascii@) <= i128::MAX
        }),
        r is Some ==> r->0 == (if is_negative {
            -spec_digits_val(ascii@)
        } else {
            spec_digits_val(ascii@)
        }),
{
    proof {
        lemma_digits_val_nonneg(ascii@);
    }
    match u128_from_ascii(ascii) {
        Some(mag) => {
            if is_negative {
                if mag <= 0x7FFF_FFFF_FFFF_FFFF_FFFF_FFFF_FFFF_FFFFu128 {
                    Some(-(mag as i128))
                } else if mag == 0x8000_0000_0000_0000_0000_0000_0000_0000u128 {
                    Some(i128::MIN)
                } else {
                    None
                }
            } else {
                if mag <= 0x7FFF_FFFF_FFFF_FFFF_FFFF_FFFF_FFFF_FFFFu128 {
                    Some(mag as i128)
                } else {
                    None
                }
            }
        },
        None => None,
    }
}

} // verus!
