//! Letterbox geometry: an aspect-preserving resize of a `height x width`
//! image into a `target x target` square, centred, with padding on the
//! shorter axis; and the exact inverse used to map detections back.
//!
//! Scale factors are kept as the exact ratio `target / max_dim`.
use vstd::prelude::*;
use crate::config::FIX_ONE;

verus! {

/// Reasons a codec step rejects its input.
#[derive(Clone, Copy, Debug, PartialEq, Eq, Structural)]
pub enum CodecError {
    /// Input or output byte length, or an image dimension, does not match
    /// what the operation needs.
    InvalidShape,
}

#[derive(Clone, Copy, Debug, PartialEq, Eq, Structural)]
pub struct LetterboxParams {
    pub pad_x: u32,
    pub pad_y: u32,
    pub new_width: u32,
    pub new_height: u32,
    /// Source dimensions and the larger of the two.
    pub height: u32,
    pub width: u32,
    pub max_dim: u32,
    pub target: u32,
}

pub open spec fn spec_max(a: int, b: int) -> int {
    if a >= b { a } else { b }
}

pub open spec fn spec_min(a: int, b: int) -> int {
    if a <= b { a } else { b }
}

pub open spec fn spec_clamp(v: int, lo: int, hi: int) -> int {
    if v < lo { lo } else if v > hi { hi } else { v }
}

/// `floor(dim * target / max_dim)`: a side length after scaling.
pub open spec fn spec_scaled(dim: int, target: int, max_dim: int) -> int {
    (dim * target) / max_dim
}

/// The letterbox of a `height x width` image in a `target` square.
pub open spec fn spec_letterbox(height: u32, width: u32, target: u32) -> LetterboxParams {
    let m = spec_max(height as int, width as int);
    let nw = spec_scaled(width as int, target as int, m);
    let nh = spec_scaled(height as int, target as int, m);
    LetterboxParams {
        pad_x: ((target - nw) / 2) as u32,
        pad_y: ((target - nh) / 2) as u32,
        new_width: nw as u32,
        new_height: nh as u32,
        height,
        width,
        max_dim: m as u32,
        target,
    }
}

impl LetterboxParams {
    pub open spec fn wf(self) -> bool {
        &&& self.height >= 1
        &&& self.width >= 1
        &&& self.target >= 1
        &&& self == spec_letterbox(self.height, self.width, self.target)
        &&& 1 <= self.max_dim
        &&& self.pad_x + self.new_width <= self.target
        &&& self.pad_y + self.new_height <= self.target
    }

    /// Letterbox coordinate (fixed point) of source coordinate `v` on an
    /// axis padded by `pad`.
    pub open spec fn spec_forward(self, v: int, pad: u32) -> int {
        (v * self.target) / (self.max_dim as int) + pad * FIX_ONE
    }

    /// Source coordinate of letterbox coordinate `u`, before clamping.
    pub open spec fn spec_inverse(self, u: int, pad: u32) -> int {
        ((u - pad * FIX_ONE) * self.max_dim) / (self.target as int)
    }

    /// Source x of letterbox x `u`, clamped into `[0, width]`.
    pub open spec fn spec_to_original_x(self, u: int) -> int {
        spec_clamp(self.spec_inverse(u, self.pad_x), 0, self.width * FIX_ONE)
    }

    /// Source y of letterbox y `u`, clamped into `[0, height]`.
    pub open spec fn spec_to_original_y(self, u: int) -> int {
        spec_clamp(self.spec_inverse(u, self.pad_y), 0, self.height * FIX_ONE)
    }

    /// Source column sampled for letterbox-region column `x`
    /// (nearest neighbour, clamped to the image).
    pub open spec fn spec_source_col(self, x: int) -> int {
        spec_min((x * self.max_dim) / (self.target as int), self.width - 1)
    }

    pub open spec fn spec_source_row(self, y: int) -> int {
        spec_min((y * self.max_dim) / (self.target as int), self.height - 1)
    }
}

proof fn lemma_scaled_bounds(dim: int, target: int, m: int)
    requires
        1 <= dim <= m,
        target >= 1,
    ensures
        0 <= spec_scaled(dim, target, m) <= target,
{
    assert(dim * target <= m * target) by (nonlinear_arith)
        requires dim <= m, target >= 1;
    assert((dim * target) / m <= (m * target) / m) by (nonlinear_arith)
        requires dim * target <= m * target, m >= 1, dim >= 1, target >= 1;
    assert((m * target) / m == target) by (nonlinear_arith)
        requires m >= 1;
    assert(0 <= (dim * target) / m) by (nonlinear_arith)
        requires m >= 1, dim >= 1, target >= 1;
}

/// Letterbox parameters of a `height x width` image in a `target` square:
/// `new = floor(dim * target / max(height, width))`, `pad = (target - new) / 2`.
/// An empty image or target is rejected.
pub fn calculate_letterbox(height: u32, width: u32, target_size: u32) -> (r: Result<LetterboxParams, CodecError>)
    ensures
        height == 0 || width == 0 || target_size == 0 <==> r is Err,
        r matches Ok(p) ==> p.wf() && p == spec_letterbox(height, width, target_size),
{
    if height == 0 || width == 0 || target_size == 0 {
        return Err(CodecError::InvalidShape);
    }
    let max_dim: u32 = if height >= width { height } else { width };
    proof {
        lemma_scaled_bounds(width as int, target_size as int, max_dim as int);
        lemma_scaled_bounds(height as int, target_size as int, max_dim as int);
        assert((width as u64) * (target_size as u64) <= u64::MAX) by (nonlinear_arith)
            requires width <= u32::MAX, target_size <= u32::MAX;
        assert((height as u64) * (target_size as u64) <= u64::MAX) by (nonlinear_arith)
            requires height <= u32::MAX, target_size <= u32::MAX;
    }
    let new_width = ((width as u64) * (target_size as u64) / (max_dim as u64)) as u32;
    let new_height = ((height as u64) * (target_size as u64) / (max_dim as u64)) as u32;
    let pad_x = (target_size - new_width) / 2;
    let pad_y = (target_size - new_height) / 2;
    Ok(LetterboxParams {
        pad_x,
        pad_y,
        new_width,
        new_height,
        height,
        width,
        max_dim,
        target: target_size,
    })
}

/// Largest magnitude of a fixed-point letterbox coordinate accepted by the
/// inverse mapping (2^41, above any value a half-precision output holds).
pub const COORD_LIMIT: i64 = 2199023255552;

impl LetterboxParams {
    /// Exact inverse letterbox on one axis, clamped into `[0, limit]`.
    fn inverse_clamped(&self, u: i64, pad: u32, limit: u32) -> (r: i64)
        requires
            self.wf(),
            -COORD_LIMIT <= u <= COORD_LIMIT,
        ensures
            r == spec_clamp(self.spec_inverse(u as int, pad), 0, limit * FIX_ONE),
    {
        let shifted: i128 = (u as i128) - (pad as i128) * (FIX_ONE as i128);
        if shifted <= 0 {
            proof {
                assert(self.spec_inverse(u as int, pad) <= 0) by (nonlinear_arith)
                    requires
                        shifted <= 0,
                        shifted == u - pad * FIX_ONE,
                        self.spec_inverse(u as int, pad) == (shifted * self.max_dim) / (self.target as int),
                        self.target >= 1;
            }
            return 0;
        }
        proof {
            assert(0 < shifted * (self.max_dim as i128) <= 0x10_0000_0000_0000_0000_0000_0000i128)
                by (nonlinear_arith)
                requires
                    0 < shifted <= COORD_LIMIT,
                    1 <= self.max_dim <= 4294967295;
        }
        let scaled: i128 = shifted * (self.max_dim as i128);
        let q: i128 = scaled / (self.target as i128);
        let hi: i128 = (limit as i128) * (FIX_ONE as i128);
        if q > hi {
            hi as i64
        } else {
            q as i64
        }
    }

    /// Source-image x (fixed point) of letterbox x `u`, clamped to the image.
    pub fn to_original_x(&self, u: i64) -> (r: i64)
        requires
            self.wf(),
            -COORD_LIMIT <= u <= COORD_LIMIT,
        ensures
            r == self.spec_to_original_x(u as int),
            0 <= r <= self.width * FIX_ONE,
    {
        self.inverse_clamped(u, self.pad_x, self.width)
    }

    /// Source-image y (fixed point) of letterbox y `u`, clamped to the image.
    pub fn to_original_y(&self, u: i64) -> (r: i64)
        requires
            self.wf(),
            -COORD_LIMIT <= u <= COORD_LIMIT,
        ensures
            r == self.spec_to_original_y(u as int),
            0 <= r <= self.height * FIX_ONE,
    {
        self.inverse_clamped(u, self.pad_y, self.height)
    }
}

/// Forward then inverse letterbox on a coordinate inside the image gives the
/// coordinate back to within one pixel, on either axis.
pub proof fn lemma_letterbox_round_trip(p: LetterboxParams, vx: int, vy: int)
    requires
        p.wf(),
        0 <= vx <= p.width * FIX_ONE,
        0 <= vy <= p.height * FIX_ONE,
        p.max_dim <= p.target * (FIX_ONE - 1),
    ensures
        v_close(p.spec_to_original_x(p.spec_forward(vx, p.pad_x)), vx),
        v_close(p.spec_to_original_y(p.spec_forward(vy, p.pad_y)), vy),
{
    lemma_axis_round_trip(p, vx, p.pad_x, p.width as int);
    lemma_axis_round_trip(p, vy, p.pad_y, p.height as int);
}

/// Two fixed-point coordinates at most one pixel apart.
pub open spec fn v_close(a: int, b: int) -> bool {
    b - FIX_ONE <= a <= b + FIX_ONE
}

proof fn lemma_axis_round_trip(p: LetterboxParams, v: int, pad: u32, dim: int)
    requires
        p.wf(),
        0 <= v <= dim * FIX_ONE,
        p.max_dim <= p.target * (FIX_ONE - 1),
    ensures
        v_close(spec_clamp(p.spec_inverse(p.spec_forward(v, pad), pad), 0, dim * FIX_ONE), v),
{
    let m = p.max_dim as int;
    let t = p.target as int;
    let f = (v * t) / m;
    assert(p.spec_forward(v, pad) - pad * FIX_ONE == f);
    let g = (f * m) / t;
    assert(p.spec_inverse(p.spec_forward(v, pad), pad) == g);
    assert(m >= 1);
    assert(v * t - m < f * m <= v * t) by (nonlinear_arith)
        requires f == (v * t) / m, m >= 1, t >= 1;
    assert(v - FIX_ONE <= g <= v) by (nonlinear_arith)
        requires
            v * t - m < f * m <= v * t,
            g == (f * m) / t,
            t >= 1,
            m <= t * (FIX_ONE - 1);
}

} // verus!
