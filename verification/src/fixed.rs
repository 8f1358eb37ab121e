use vstd::prelude::*;
use vstd::arithmetic::power2::{pow2, lemma_pow2_adds, lemma2_to64, lemma2_to64_rest};

use crate::errors::CustomError;

verus! {

/// One, in Q64.64 fixed point: `2^64`.  Square-root prices and fee-growth
/// accumulators carry 64 fractional bits.
pub const Q64: u128 = 0x1_0000_0000_0000_0000;

/// `2^127`, the largest power of two a `u128` can hold.
proof fn lemma_pow2_127_fits()
    ensures
        pow2(127) == 0x8000_0000_0000_0000_0000_0000_0000_0000,
{
    lemma2_to64();
    lemma2_to64_rest();
    lemma_pow2_adds(63, 64);
}

/// `2^n` as a `u128`, for `n < 128`.
pub fn pow2_u128(n: u32) -> (r: u128)
    requires
        n < 128,
    ensures
        r == pow2(n as nat),
{
    let mut i: u32 = 0;
    let mut r: u128 = 1;
    proof {
        lemma2_to64();
    }
    while i < n
        invariant
            i <= n < 128,
            r == pow2(i as nat),
        decreases n - i,
    {
        proof {
            lemma_pow2_adds(i as nat, 1);
            lemma2_to64();
            if i + 1 < 127 {
                vstd::arithmetic::power2::lemma_pow2_strictly_increases(i as nat + 1, 127);
            }
            lemma_pow2_127_fits();
        }
        r = r * 2;
        i = i + 1;
    }
    r
}

/// `a * b / denom`, the product taken at full precision.  Reports `Overflow`
/// when the product does not fit the accumulator width, or when `denom` is
/// zero.
pub fn mul_div(a: u128, b: u128, denom: u128) -> (r: Result<u128, CustomError>)
    ensures
        r is Ok <==> a * b <= u128::MAX && denom != 0,
        r is Ok ==> r->Ok_0 == a * b / denom as int,
        r is Err ==> r->Err_0 == CustomError::Overflow,
{
    match a.checked_mul(b) {
        Some(p) => match p.checked_div(denom) {
            Some(q) => Ok(q),
            None => Err(CustomError::Overflow),
        },
        None => Err(CustomError::Overflow),
    }
}

/// `(value << shift_bits) / denom`, in exactly that grouping: the shift is
/// applied first, at full precision, and the division follows.  Reports
/// `Overflow` when the shifted value does not fit the accumulator width,
/// when `shift_bits` is out of range, or when `denom` is zero.
pub fn shift_div(value: u128, shift_bits: u32, denom: u128) -> (r: Result<u128, CustomError>)
    ensures
        r is Ok <==> shift_bits < 128 && value * pow2(shift_bits as nat) <= u128::MAX && denom
            != 0,
        r is Ok ==> r->Ok_0 == value * pow2(shift_bits as nat) as int / denom as int,
        r is Err ==> r->Err_0 == CustomError::Overflow,
{
    if shift_bits >= 128 {
        return Err(CustomError::Overflow);
    }
    let p = pow2_u128(shift_bits);
    mul_div(value, p, denom)
}

} // verus!

