//! IEEE-754 binary16 <-> binary32 conversion on bit patterns.
//!
//! Half-precision values travel as their `u16` bit pattern, single-precision
//! values as their `u32` bit pattern (`f32::to_bits`).
use vstd::prelude::*;
use vstd::arithmetic::power2::{pow2, lemma_pow2_adds, lemma2_to64};

verus! {

/// Bit pattern of a single-precision quiet NaN.
pub const F32_NAN_BITS: u32 = 0x7fc0_0000;
/// Bit pattern of single-precision +infinity.
pub const F32_INF_BITS: u32 = 0x7f80_0000;

pub open spec fn h_sign(h: u16) -> u32 {
    ((h as u32) >> 15u32) & 1
}

pub open spec fn h_exp(h: u16) -> u32 {
    ((h as u32) >> 10u32) & 0x1f
}

pub open spec fn h_frac(h: u16) -> u32 {
    (h as u32) & 0x3ff
}

pub open spec fn f_sign(b: u32) -> u32 {
    (b >> 31u32) & 1
}

pub open spec fn f_exp(b: u32) -> u32 {
    (b >> 23u32) & 0xff
}

pub open spec fn f_mant(b: u32) -> u32 {
    b & 0x7f_ffff
}

/// The single-precision pattern with the given fields.
pub open spec fn f_bits(sign: u32, exp: u32, mant: u32) -> u32 {
    (sign << 31u32) | (exp << 23u32) | mant
}

/// What the single-precision decoding of half-precision `h` is:
/// zeros keep their sign; a subnormal `frac * 2^-24` becomes the normal
/// number of the same value; infinities keep their sign; NaN becomes the
/// quiet NaN; a normal number has its exponent re-biased (+112) and its
/// fraction widened by 13 zero bits.
pub open spec fn spec_f16_decoded(h: u16, r: u32) -> bool {
    let s = h_sign(h);
    let e = h_exp(h);
    let m = h_frac(h);
    if e == 0 && m == 0 {
        r == s << 31u32
    } else if e == 0 {
        &&& f_sign(r) == s
        &&& 103 <= f_exp(r) <= 112
        &&& 0x80_0000 + f_mant(r) == m * pow2((126 - f_exp(r)) as nat)
    } else if e == 31 && m == 0 {
        r == (s << 31u32) | F32_INF_BITS
    } else if e == 31 {
        r == F32_NAN_BITS
    } else {
        r == f_bits(s, (e + 112) as u32, m << 13u32)
    }
}

/// Decodes one half-precision value to single precision, exactly.
pub fn f16_to_f32_bits(h: u16) -> (r: u32)
    ensures
        spec_f16_decoded(h, r),
{
    let hv = h as u32;
    let sign: u32 = (hv >> 15u32) & 1;
    let exp: u32 = (hv >> 10u32) & 0x1f;
    let frac: u32 = hv & 0x3ff;
    assert(frac == hv & 0x3ff ==> frac < 0x400) by (bit_vector);
    assert(exp == (hv >> 10u32) & 0x1f ==> exp <= 31) by (bit_vector);
    if exp == 0 {
        if frac == 0 {
            sign << 31u32
        } else {
            let mut m: u32 = frac;
            let mut e: u32 = 113;
            let ghost mut s: nat = 0;
            proof {
                lemma2_to64();
            }
            while m & 0x400 == 0
                invariant
                    1 <= frac < 0x400,
                    0 < m < 0x800,
                    m == frac * pow2(s),
                    e + s == 113,
                    s <= 10,
                decreases 0x800 - m,
            {
                assert(m & 0x400 == 0 && 0 < m < 0x800 ==> m < 0x400) by (bit_vector);
                proof {
                    lemma_pow2_adds(s, 1);
                    lemma2_to64();
                    if s == 10 {
                                                assert(frac * pow2(10) >= 1024) by (nonlinear_arith)
                            requires frac >= 1, pow2(10) == 1024;
                    }
                }
                assert(m * 2 == frac * pow2(s + 1)) by (nonlinear_arith)
                    requires m == frac * pow2(s), pow2(s + 1) == pow2(s) * pow2(1), pow2(1) == 2;
                m = m * 2;
                e = e - 1;
                proof { s = s + 1; }
            }
            let mant: u32 = (m & 0x3ff) << 13u32;
            let r = (sign << 31u32) | (e << 23u32) | mant;
            proof {
                assert(0 < m < 0x800 && m & 0x400 != 0 ==> 0x400 <= m) by (bit_vector);
                assert(sign <= 1 && 103 <= e <= 113 && m < 0x800 && m >= 0x400 && r == (sign << 31u32) | (e << 23u32) | ((m & 0x3ff) << 13u32)
                    ==> f_sign(r) == sign && f_exp(r) == e && 0x80_0000 + f_mant(r) == m * 8192) by (bit_vector);
                assert(hv < 0x10000 ==> ((hv >> 15u32) & 1) <= 1) by (bit_vector);
                lemma_pow2_adds(s, 13);
                lemma2_to64();
                assert(126 - e == s + 13);
                assert(m * 8192 == frac * pow2(s + 13)) by (nonlinear_arith)
                    requires m == frac * pow2(s), pow2(s + 13) == pow2(s) * pow2(13), pow2(13) == 8192;
                if e == 113 {
                    assert(s == 0);
                    lemma2_to64();
                    assert(m == frac);
                    assert(false);
                }
            }
            r
        }
    } else if exp == 31 {
        if frac == 0 {
            (sign << 31u32) | F32_INF_BITS
        } else {
            F32_NAN_BITS
        }
    } else {
        (sign << 31u32) | ((exp + 112) << 23u32) | (frac << 13u32)
    }
}

/// Single-precision to half-precision by truncation: the exponent is
/// re-biased (-112) and the low 13 fraction bits are dropped; magnitudes
/// too large for half precision become infinity, magnitudes too small
/// (and single-precision subnormals) become a zero of the same sign.
pub open spec fn spec_f32_to_f16(b: u32) -> u16 {
    let s = (b >> 16u32) & 0x8000;
    let e = f_exp(b);
    if e == 0 {
        s as u16
    } else if e >= 143 {
        (s | 0x7c00) as u16
    } else if e <= 112 {
        s as u16
    } else {
        (s | (((e - 112) as u32) << 10u32) | (f_mant(b) >> 13u32)) as u16
    }
}

/// Encodes one single-precision value to half precision by truncation.
pub fn f32_to_f16_bits(b: u32) -> (r: u16)
    ensures
        r == spec_f32_to_f16(b),
{
    let sign: u32 = (b >> 16u32) & 0x8000;
    let exp: u32 = (b >> 23u32) & 0xff;
    let mant: u32 = b & 0x7f_ffff;
    if exp == 0 {
        sign as u16
    } else if exp >= 143 {
        (sign | 0x7c00) as u16
    } else if exp <= 112 {
        sign as u16
    } else {
        (sign | ((exp - 112) << 10u32) | (mant >> 13u32)) as u16
    }
}

/// Encoding a single-precision number of the half-precision normal range
/// (magnitudes in `[2^-14, 2^16)`, which covers every value of `[-4, 4]`
/// outside `(-2^-14, 2^-14)`) and decoding the result gives the number
/// back with its 10 leading fraction bits kept and the rest cleared.
pub proof fn lemma_f16_round_trip(b: u32)
    requires
        113 <= f_exp(b) <= 142,
    ensures
        spec_f16_decoded(spec_f32_to_f16(b), b & 0xffff_e000),
{
    let s: u32 = (b >> 16u32) & 0x8000;
    let e: u32 = f_exp(b);
    let eh: u32 = (e - 112) as u32;
    let v: u32 = s | (eh << 10u32) | (f_mant(b) >> 13u32);
    assert(v < 0x10000) by (bit_vector)
        requires
            s == (b >> 16u32) & 0x8000,
            eh <= 30,
            v == s | (eh << 10u32) | ((b & 0x7f_ffff) >> 13u32);
    let hh: u32 = v;
    assert(spec_f32_to_f16(b) as u32 == hh);
    let ef: u32 = (eh + 112) as u32;
    assert(((hh >> 15u32) & 1) == ((b >> 31u32) & 1)
        && ((hh >> 10u32) & 0x1f) == eh
        && (hh & 0x3ff) == ((b & 0x7f_ffff) >> 13u32)
        && ((((b >> 31u32) & 1) << 31u32) | (ef << 23u32) | (((b & 0x7f_ffff) >> 13u32) << 13u32))
            == b & 0xffff_e000) by (bit_vector)
        requires
            s == (b >> 16u32) & 0x8000,
            e == (b >> 23u32) & 0xff,
            113 <= e <= 142,
            eh == e - 112,
            ef == eh + 112,
            hh == s | (eh << 10u32) | ((b & 0x7f_ffff) >> 13u32);
}

/// Number of entries of the encoding table over `[-4, 4)`.
pub const F16_TABLE_LEN: usize = 32768;

/// `b` is the single-precision pattern of `k / 4096`, for `|k| <= 16384`:
/// zero for `k == 0`, else sign of `k`, and significand times `2^(e - 150)`
/// equal to `|k| / 4096`.
pub open spec fn is_f32_of_q12(k: int, b: u32) -> bool {
    if k == 0 {
        b == 0
    } else {
        let mag = if k < 0 { -k } else { k };
        &&& f_sign(b) == (if k < 0 { 1u32 } else { 0u32 })
        &&& 115 <= f_exp(b) <= 138
        &&& 0x80_0000 + f_mant(b) == mag * pow2((138 - f_exp(b)) as nat)
    }
}

/// Single-precision pattern of `k / 4096` (exact: `|k| <= 16384` needs at
/// most 15 significant bits).
pub fn q12_to_f32_bits(k: i32) -> (r: u32)
    requires
        -16384 <= k <= 16384,
    ensures
        is_f32_of_q12(k as int, r),
{
    if k == 0 {
        return 0;
    }
    let sign: u32 = if k < 0 { 1 } else { 0 };
    let mag: u32 = if k < 0 { (-k) as u32 } else { k as u32 };
    let mut v: u32 = mag;
    let mut e: u32 = 138;
    let ghost mut s: nat = 0;
    proof {
        lemma2_to64();
    }
    while v < 0x80_0000
        invariant
            1 <= mag <= 16384,
            1 <= v < 0x100_0000,
            v == mag * pow2(s),
            e + s == 138,
            s <= 23,
        decreases 0x100_0000 - v,
    {
        proof {
            lemma_pow2_adds(s, 1);
            lemma2_to64();
            assert(v * 2 == mag * pow2(s + 1)) by (nonlinear_arith)
                requires v == mag * pow2(s), pow2(s + 1) == pow2(s) * pow2(1), pow2(1) == 2;
            if s == 23 {
                assert(mag * pow2(23) >= 0x80_0000) by (nonlinear_arith)
                    requires mag >= 1, pow2(23) == 0x80_0000;
            }
        }
        v = v * 2;
        e = e - 1;
        proof { s = s + 1; }
    }
    let frac: u32 = v - 0x80_0000;
    let r = (sign << 31u32) | (e << 23u32) | frac;
    proof {
        assert(sign <= 1 && 115 <= e <= 138 && frac < 0x80_0000
            && r == (sign << 31u32) | (e << 23u32) | frac
            ==> f_sign(r) == sign && f_exp(r) == e && f_mant(r) == frac) by (bit_vector);
        if e < 115 {
            assert(s > 23);
            assert(false);
        }
    }
    r
}

/// `h` is the half-precision truncation of `k / 4096`.
pub open spec fn is_f16_of_q12(k: int, h: u16) -> bool {
    exists|b: u32| is_f32_of_q12(k, b) && h == spec_f32_to_f16(b)
}

/// Encoding table over `[-4, 4)`: entry `i` is the half-precision
/// truncation of `-4 + i / 4096`.
pub fn create_f32_to_f16_lut() -> (lut: Vec<u16>)
    ensures
        lut@.len() == F16_TABLE_LEN,
        forall|i: int| 0 <= i < F16_TABLE_LEN ==> is_f16_of_q12(i - 16384, #[trigger] lut@[i]),
{
    let mut lut: Vec<u16> = Vec::with_capacity(F16_TABLE_LEN);
    let mut i: usize = 0;
    while i < F16_TABLE_LEN
        invariant
            i <= F16_TABLE_LEN,
            lut@.len() == i,
            forall|j: int| 0 <= j < i ==> is_f16_of_q12(j - 16384, #[trigger] lut@[j]),
        decreases F16_TABLE_LEN - i,
    {
        let b = q12_to_f32_bits((i as i32) - 16384);
        lut.push(f32_to_f16_bits(b));
        proof {
            assert(is_f32_of_q12(i - 16384, b) && lut@[i as int] == spec_f32_to_f16(b));
            assert(is_f16_of_q12(i - 16384, lut@[i as int]));
        }
        i = i + 1;
    }
    lut
}

/// Index into the encoding table of the fixed-point value `v` (24
/// fractional bits): `v` clamped to `[-4, 4]`, then
/// `floor((v + 4) / 8 * 32767)`.
pub open spec fn spec_f16_table_index(v: i64) -> int {
    let lo: int = -4 * 16777216;
    let hi: int = 4 * 16777216int;
    let c: int = if v < lo { lo } else if v > hi { hi } else { v as int };
    ((c - lo) * 32767) / (8 * 16777216int)
}

/// Half-precision encoding of the fixed-point value `v` (24 fractional
/// bits) through the encoding table; values outside `[-4, 4]` clamp.
pub fn f16_table_lookup(lut: &Vec<u16>, v: i64) -> (r: u16)
    requires
        lut@.len() == F16_TABLE_LEN,
    ensures
        0 <= spec_f16_table_index(v) < F16_TABLE_LEN,
        r == lut@[spec_f16_table_index(v)],
{
    let lo: i64 = -4 * 16777216;
    let hi: i64 = 4 * 16777216;
    let c: i64 = if v < lo { lo } else if v > hi { hi } else { v };
    let shifted = (c - lo) as u64;
    proof {
        assert(shifted * 32767 <= 8 * 16777216 * 32767) by (nonlinear_arith)
            requires shifted <= 8 * 16777216;
        assert((shifted * 32767) / (8 * 16777216int) <= 32767) by (nonlinear_arith)
            requires shifted <= 8 * 16777216;
    }
    let idx = (shifted * 32767 / (8 * 16777216)) as usize;
    lut[idx]
}

/// Decoding table of every half-precision pattern, indexed by the pattern.
pub fn create_f16_to_f32_lut() -> (lut: Vec<u32>)
    ensures
        lut@.len() == 65536,
        forall|i: int| 0 <= i < 65536 ==> spec_f16_decoded(i as u16, #[trigger] lut@[i]),
{
    let mut lut: Vec<u32> = Vec::with_capacity(65536);
    let mut i: u32 = 0;
    while i < 65536
        invariant
            i <= 65536,
            lut@.len() == i,
            forall|j: int| 0 <= j < i ==> spec_f16_decoded(j as u16, #[trigger] lut@[j]),
        decreases 65536 - i,
    {
        lut.push(f16_to_f32_bits(i as u16));
        i = i + 1;
    }
    lut
}

} // verus!
