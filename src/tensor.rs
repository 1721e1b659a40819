//! Reading precision-packed little-endian tensor elements as fixed-point
//! numbers (see `FIX_ONE`).
use vstd::prelude::*;
use vstd::arithmetic::power2::{pow2, lemma_pow2_adds, lemma_pow2_strictly_increases, lemma2_to64, lemma_pow2_pos};
use crate::config::InferencePrecision;
use crate::fp16::{h_sign, h_exp, h_frac, f_sign, f_exp, f_mant};

verus! {

/// Magnitude at which decoded values saturate (2^40); infinities decode to it.
pub const VALUE_LIMIT: i64 = 1099511627776;

pub open spec fn signed(neg: bool, mag: int) -> int {
    if neg { -mag } else { mag }
}

pub open spec fn spec_min(a: int, b: int) -> int {
    if a <= b { a } else { b }
}

/// Fixed-point value of half-precision `h`. Every finite half-precision
/// number is a multiple of 2^-24, so this is exact; infinities saturate
/// and NaN reads as zero.
pub open spec fn spec_f16_fixed(h: u16) -> int {
    let neg = h_sign(h) == 1;
    let e = h_exp(h);
    let m = h_frac(h);
    if e == 0 {
        signed(neg, m as int)
    } else if e == 31 {
        if m == 0 { signed(neg, VALUE_LIMIT as int) } else { 0 }
    } else {
        signed(neg, (0x400 + m) * pow2((e - 1) as nat))
    }
}

/// Fixed-point value of single-precision `b`, truncated toward zero and
/// saturated at `VALUE_LIMIT`; NaN reads as zero.
pub open spec fn spec_f32_fixed(b: u32) -> int {
    let neg = f_sign(b) == 1;
    let e = f_exp(b);
    let m = f_mant(b);
    if e == 255 {
        if m == 0 { signed(neg, VALUE_LIMIT as int) } else { 0 }
    } else {
        let sig: int = if e == 0 { m as int } else { 0x80_0000 + m };
        let ee: int = if e == 0 { 1 } else { e as int };
        let mag: int = if ee >= 126 {
            spec_min(sig * pow2((ee - 126) as nat), VALUE_LIMIT as int)
        } else {
            sig / (pow2((126 - ee) as nat) as int)
        };
        signed(neg, mag)
    }
}

pub open spec fn le_u16(bytes: Seq<u8>, k: int) -> u16 {
    (bytes[2 * k] + 256 * bytes[2 * k + 1]) as u16
}

pub open spec fn le_u32(bytes: Seq<u8>, k: int) -> u32 {
    (bytes[4 * k] + 256 * bytes[4 * k + 1] + 65536 * bytes[4 * k + 2] + 16777216 * bytes[4 * k + 3]) as u32
}

/// Fixed-point value of element `k` of a packed tensor.
pub open spec fn spec_element(bytes: Seq<u8>, precision: InferencePrecision, k: int) -> int {
    match precision {
        InferencePrecision::FP16 => spec_f16_fixed(le_u16(bytes, k)),
        InferencePrecision::FP32 => spec_f32_fixed(le_u32(bytes, k)),
    }
}

/// Number of elements a packed tensor of `len` bytes holds.
pub open spec fn element_count(len: nat, precision: InferencePrecision) -> nat {
    len / precision.spec_bytes()
}

/// `2^n` for small `n`.
fn pow2_u64(n: u32) -> (r: u64)
    requires
        n <= 63,
    ensures
        r == pow2(n as nat),
{
    let mut r: u64 = 1;
    let mut i: u32 = 0;
    proof {
        lemma2_to64();
    }
    while i < n
        invariant
            i <= n <= 63,
            r == pow2(i as nat),
        decreases n - i,
    {
        proof {
            lemma_pow2_adds(i as nat, 1);
            lemma2_to64();
            lemma_pow2_strictly_increases(i as nat + 1, 64);
        }
        r = r * 2;
        i = i + 1;
    }
    r
}

/// Half-precision value of `h` in fixed point.
pub fn f16_fixed(h: u16) -> (r: i64)
    ensures
        r == spec_f16_fixed(h),
        -VALUE_LIMIT <= r <= VALUE_LIMIT,
{
    let hv = h as u32;
    let neg = (hv >> 15u32) & 1 == 1;
    let e: u32 = (hv >> 10u32) & 0x1f;
    let m: u32 = hv & 0x3ff;
    assert(m == hv & 0x3ff ==> m < 0x400) by (bit_vector);
    assert(e == (hv >> 10u32) & 0x1f ==> e <= 31) by (bit_vector);
    let mag: i64 = if e == 0 {
        m as i64
    } else if e == 31 {
        if m == 0 { VALUE_LIMIT } else { 0 }
    } else {
        let p = pow2_u64(e - 1);
        proof {
            lemma2_to64();
            if e - 1 < 29 {
                lemma_pow2_strictly_increases((e - 1) as nat, 29);
            }
            assert(p <= 0x2000_0000);
            assert((0x400 + m) * p <= 0x7ff * 0x2000_0000) by (nonlinear_arith)
                requires m < 0x400, p <= 0x2000_0000;
        }
        ((0x400 + m) as i64) * (p as i64)
    };
    if e == 31 && m != 0 {
        0
    } else if neg {
        -mag
    } else {
        mag
    }
}

/// Single-precision value of `b` in fixed point.
pub fn f32_fixed(b: u32) -> (r: i64)
    ensures
        r == spec_f32_fixed(b),
        -VALUE_LIMIT <= r <= VALUE_LIMIT,
{
    let neg = (b >> 31u32) & 1 == 1;
    let e: u32 = (b >> 23u32) & 0xff;
    let m: u32 = b & 0x7f_ffff;
    assert(m == b & 0x7f_ffff ==> m < 0x80_0000) by (bit_vector);
    assert(e == (b >> 23u32) & 0xff ==> e <= 255) by (bit_vector);
    if e == 255 {
        if m != 0 {
            return 0;
        }
        return if neg { -VALUE_LIMIT } else { VALUE_LIMIT };
    }
    let sig: u64 = if e == 0 { m as u64 } else { 0x80_0000 + m as u64 };
    let ee: u32 = if e == 0 { 1 } else { e };
    let mag: i64 = if ee >= 126 {
        let sh = ee - 126;
        if sh >= 17 {
            proof {
                lemma2_to64();
                if sh > 17 {
                    lemma_pow2_strictly_increases(17, sh as nat);
                }
                assert(sig * pow2(sh as nat) >= 0x80_0000 * pow2(17)) by (nonlinear_arith)
                    requires sig >= 0x80_0000, pow2(sh as nat) >= pow2(17);
            }
            VALUE_LIMIT
        } else {
            let p = pow2_u64(sh);
            proof {
                lemma2_to64();
                if sh < 16 {
                    lemma_pow2_strictly_increases(sh as nat, 16);
                }
                assert(sig * p <= 0x100_0000 * 0x1_0000) by (nonlinear_arith)
                    requires sig < 0x100_0000, p <= 0x1_0000;
            }
            let v = sig * p;
            if v > VALUE_LIMIT as u64 { VALUE_LIMIT } else { v as i64 }
        }
    } else {
        let sh = 126 - ee;
        if sh >= 24 {
            proof {
                lemma2_to64();
                if sh > 24 {
                    lemma_pow2_strictly_increases(24, sh as nat);
                }
                assert(sig < pow2(24));
                assert(sig as int / (pow2(sh as nat) as int) == 0) by (nonlinear_arith)
                    requires 0 <= sig < pow2(sh as nat);
            }
            0
        } else {
            let p = pow2_u64(sh);
            proof {
                lemma_pow2_pos(sh as nat);
            }
            (sig / p) as i64
        }
    };
    if neg { -mag } else { mag }
}

/// Reads element `k` of a packed little-endian tensor as a fixed-point number.
pub fn read_element(bytes: &Vec<u8>, precision: InferencePrecision, k: usize) -> (r: i64)
    requires
        k < element_count(bytes@.len(), precision),
    ensures
        r == spec_element(bytes@, precision, k as int),
        -VALUE_LIMIT <= r <= VALUE_LIMIT,
{
    let n = bytes.len();
    match precision {
        InferencePrecision::FP16 => {
            assert(2 * k + 1 < bytes@.len()) by (nonlinear_arith)
                requires k < bytes@.len() / 2;
            let b0 = bytes[2 * k];
            let b1 = bytes[2 * k + 1];
            let h: u16 = (b0 as u16) | ((b1 as u16) << 8u16);
            assert(h == (b0 as u16) | ((b1 as u16) << 8u16) ==> h == b0 + 256 * b1) by (bit_vector);
            f16_fixed(h)
        },
        InferencePrecision::FP32 => {
            assert(4 * k + 3 < bytes@.len()) by (nonlinear_arith)
                requires k < bytes@.len() / 4;
            let b0 = bytes[4 * k] as u32;
            let b1 = bytes[4 * k + 1] as u32;
            let b2 = bytes[4 * k + 2] as u32;
            let b3 = bytes[4 * k + 3] as u32;
            let w: u32 = b0 | (b1 << 8u32) | (b2 << 16u32) | (b3 << 24u32);
            assert(b0 < 256 && b1 < 256 && b2 < 256 && b3 < 256
                && w == b0 | (b1 << 8u32) | (b2 << 16u32) | (b3 << 24u32)
                ==> w == b0 + 256 * b1 + 65536 * b2 + 16777216 * b3) by (bit_vector);
            f32_fixed(w)
        },
    }
}

} // verus!
