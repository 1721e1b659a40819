//! Fused nearest-neighbour letterbox resize, per-channel normalisation and
//! planar packing of an interleaved RGB8 frame.
//!
//! Normalisation goes through per-channel tables of 256 element codes: the
//! code of each possible byte value in the output precision (an `f32` bit
//! pattern, or an `f16` bit pattern in the low 16 bits).
use vstd::prelude::*;
use crate::config::InferencePrecision;
use crate::fp16::{f32_to_f16_bits, spec_f32_to_f16};
use crate::letterbox::{CodecError, LetterboxParams, calculate_letterbox, spec_letterbox};
use crate::source::RawFrame;
use crate::yolo::YOLO_TARGET_SIZE;

verus! {

/// Output codes of each channel for every byte value, and of the padding.
#[derive(Clone, Debug)]
pub struct ChannelTables {
    pub r: Vec<u32>,
    pub g: Vec<u32>,
    pub b: Vec<u32>,
    pub pad_r: u32,
    pub pad_g: u32,
    pub pad_b: u32,
}

impl ChannelTables {
    pub open spec fn wf(&self) -> bool {
        self.r@.len() == 256 && self.g@.len() == 256 && self.b@.len() == 256
    }

    pub open spec fn spec_code(&self, c: int, v: int) -> u32 {
        if c == 0 { self.r@[v] } else if c == 1 { self.g@[v] } else { self.b@[v] }
    }

    pub open spec fn spec_pad(&self, c: int) -> u32 {
        if c == 0 { self.pad_r } else if c == 1 { self.pad_g } else { self.pad_b }
    }
}

pub open spec fn spec_encode_code(bits: u32, precision: InferencePrecision) -> u32 {
    match precision {
        InferencePrecision::FP32 => bits,
        InferencePrecision::FP16 => spec_f32_to_f16(bits) as u32,
    }
}

fn encode_code(bits: u32, precision: InferencePrecision) -> (r: u32)
    ensures
        r == spec_encode_code(bits, precision),
{
    match precision {
        InferencePrecision::FP32 => bits,
        InferencePrecision::FP16 => f32_to_f16_bits(bits) as u32,
    }
}

fn encode_table(values: &Vec<u32>, precision: InferencePrecision) -> (r: Vec<u32>)
    ensures
        r@.len() == values@.len(),
        forall|i: int| 0 <= i < values@.len() ==> #[trigger] r@[i] == spec_encode_code(values@[i], precision),
{
    let mut r: Vec<u32> = Vec::with_capacity(values.len());
    let mut i: usize = 0;
    while i < values.len()
        invariant
            i <= values@.len(),
            r@.len() == i,
            forall|j: int| 0 <= j < i ==> #[trigger] r@[j] == spec_encode_code(values@[j], precision),
        decreases values@.len() - i,
    {
        r.push(encode_code(values[i], precision));
        i = i + 1;
    }
    r
}

impl ChannelTables {
    /// Tables in `precision` from single-precision values (as `f32` bit
    /// patterns): kept as they are for FP32, truncated to half precision
    /// for FP16.
    pub fn from_f32_bits(r: &Vec<u32>, g: &Vec<u32>, b: &Vec<u32>, pad_r: u32, pad_g: u32, pad_b: u32, precision: InferencePrecision) -> (t: ChannelTables)
        requires
            r@.len() == 256,
            g@.len() == 256,
            b@.len() == 256,
        ensures
            t.wf(),
            forall|v: int| 0 <= v < 256 ==> #[trigger] t.r@[v] == spec_encode_code(r@[v], precision),
            forall|v: int| 0 <= v < 256 ==> #[trigger] t.g@[v] == spec_encode_code(g@[v], precision),
            forall|v: int| 0 <= v < 256 ==> #[trigger] t.b@[v] == spec_encode_code(b@[v], precision),
            t.pad_r == spec_encode_code(pad_r, precision),
            t.pad_g == spec_encode_code(pad_g, precision),
            t.pad_b == spec_encode_code(pad_b, precision),
    {
        ChannelTables {
            r: encode_table(r, precision),
            g: encode_table(g, precision),
            b: encode_table(b, precision),
            pad_r: encode_code(pad_r, precision),
            pad_g: encode_code(pad_g, precision),
            pad_b: encode_code(pad_b, precision),
        }
    }
}

/// Code of output element `e` of the planar `[3][target][target]` tensor:
/// inside the letterbox's active region, the table code of the nearest
/// source pixel's channel byte; elsewhere the channel's padding code.
pub open spec fn spec_letterbox_code(input: Seq<u8>, lb: LetterboxParams, t: ChannelTables, e: int) -> u32 {
    let tt = lb.target as int;
    let c = e / (tt * tt);
    let dy = (e / tt) % tt;
    let dx = e % tt;
    if lb.pad_y <= dy < lb.pad_y + lb.new_height && lb.pad_x <= dx < lb.pad_x + lb.new_width {
        let sy = lb.spec_source_row(dy - lb.pad_y);
        let sx = lb.spec_source_col(dx - lb.pad_x);
        t.spec_code(c, input[(sy * lb.width + sx) * 3 + c] as int)
    } else {
        t.spec_pad(c)
    }
}

/// Byte `k` (little-endian) of element code `code`.
pub open spec fn spec_code_byte(code: u32, k: int) -> u8 {
    ((code as int / pow256(k)) % 256) as u8
}

pub open spec fn pow256(k: int) -> int {
    if k <= 0 { 1 } else if k == 1 { 256 } else if k == 2 { 65536 } else { 16777216 }
}

/// Packs element codes little-endian at the precision's width.
pub fn pack_elements(codes: &Vec<u32>, precision: InferencePrecision) -> (out: Vec<u8>)
    requires
        codes@.len() * 4 <= usize::MAX,
    ensures
        out@.len() == codes@.len() * precision.spec_bytes(),
        forall|e: int, k: int| 0 <= e < codes@.len() && 0 <= k < precision.spec_bytes()
            ==> out@[e * precision.spec_bytes() + k] == #[trigger] spec_code_byte(codes@[e], k),
{
    let w = precision.element_bytes();
    let mut out: Vec<u8> = Vec::with_capacity(codes.len() * w);
    let mut e: usize = 0;
    while e < codes.len()
        invariant
            e <= codes@.len(),
            codes@.len() * 4 <= usize::MAX,
            w == precision.spec_bytes(),
            out@.len() == e * w,
            forall|i: int, k: int| 0 <= i < e && 0 <= k < w
                ==> out@[i * w + k] == #[trigger] spec_code_byte(codes@[i], k),
        decreases codes@.len() - e,
    {
        let code = codes[e];
        let mut k: usize = 0;
        while k < w
            invariant
                k <= w,
                w == precision.spec_bytes(),
                e < codes@.len(),
                code == codes@[e as int],
                out@.len() == e * w + k,
                forall|i: int, kk: int| 0 <= i < e && 0 <= kk < w
                    ==> out@[i * w + kk] == #[trigger] spec_code_byte(codes@[i], kk),
                forall|kk: int| 0 <= kk < k ==> out@[e * w + kk] == #[trigger] spec_code_byte(code, kk),
            decreases w - k,
        {
            let byte: u8 = if k == 0 {
                (code % 256) as u8
            } else if k == 1 {
                ((code / 256) % 256) as u8
            } else if k == 2 {
                ((code / 65536) % 256) as u8
            } else {
                ((code / 16777216) % 256) as u8
            };
            proof {
                assert(byte == spec_code_byte(code, k as int));
            }
            let ghost before = out@;
            out.push(byte);
            proof {
                assert forall|i: int, kk: int| 0 <= i < e && 0 <= kk < w
                    implies out@[i * w + kk] == #[trigger] spec_code_byte(codes@[i], kk) by {
                    assert(i * w + kk < e * w) by (nonlinear_arith)
                        requires i < e, kk < w, 0 <= i, 0 <= kk;
                    assert(out@[i * w + kk] == before[i * w + kk]);
                }
            }
            k = k + 1;
        }
        proof {
            assert((e + 1) * w == e * w + w) by (nonlinear_arith);
            assert forall|i: int, kk: int| 0 <= i < e + 1 && 0 <= kk < w
                implies out@[i * w + kk] == #[trigger] spec_code_byte(codes@[i], kk) by {
                if i == e {
                }
            }
        }
        e = e + 1;
    }
    out
}

/// Builds the planar element codes of the letterboxed frame.
fn letterbox_codes(input: &Vec<u8>, lb: &LetterboxParams, tables: &ChannelTables) -> (codes: Vec<u32>)
    requires
        lb.wf(),
        tables.wf(),
        input@.len() == lb.height * lb.width * 3,
        3 * lb.target * lb.target * 4 <= usize::MAX,
    ensures
        codes@.len() == 3 * lb.target * lb.target,
        forall|e: int| 0 <= e < codes@.len() ==> #[trigger] codes@[e] == spec_letterbox_code(input@, *lb, *tables, e),
{
    let t = lb.target as usize;
    proof {
        assert(t * t <= 3 * t * t * 4) by (nonlinear_arith);
        assert(t * t >= 1) by (nonlinear_arith) requires t >= 1;
    }
    let plane = t * t;
    proof {
        assert(3 * plane * 4 == 3 * t * t * 4) by (nonlinear_arith) requires plane == t * t;
    }
    let total = 3 * plane;
    let n = input.len();
    let mut codes: Vec<u32> = Vec::with_capacity(total);
    let mut e: usize = 0;
    while e < total
        invariant
            lb.wf(),
            tables.wf(),
            input@.len() == lb.height * lb.width * 3,
            t == lb.target,
            t >= 1,
            plane == t * t,
            total == 3 * plane,
            total * 4 <= usize::MAX,
            n == input@.len(),
            e <= total,
            codes@.len() == e,
            forall|i: int| 0 <= i < e ==> #[trigger] codes@[i] == spec_letterbox_code(input@, *lb, *tables, i),
        decreases total - e,
    {
        let c = e / plane;
        let dy = (e / t) % t;
        let dx = e % t;
        proof {
            assert(c < 3) by (nonlinear_arith)
                requires e < 3 * plane, c == e / plane, plane >= 1;
        }
        let py = lb.pad_y as usize;
        let px = lb.pad_x as usize;
        let nh = lb.new_height as usize;
        let nw = lb.new_width as usize;
        let code = if py <= dy && dy < py + nh && px <= dx && dx < px + nw {
            let y = (dy - py) as u64;
            let x = (dx - px) as u64;
            proof {
                assert(y * lb.max_dim <= 0xffff_ffff * 0xffff_ffff) by (nonlinear_arith)
                    requires y <= 0xffff_ffff, lb.max_dim <= 0xffff_ffff;
                assert(x * lb.max_dim <= 0xffff_ffff * 0xffff_ffff) by (nonlinear_arith)
                    requires x <= 0xffff_ffff, lb.max_dim <= 0xffff_ffff;
            }
            let sy0 = y * (lb.max_dim as u64) / (lb.target as u64);
            let sx0 = x * (lb.max_dim as u64) / (lb.target as u64);
            let sy: u64 = if sy0 < (lb.height - 1) as u64 { sy0 } else { (lb.height - 1) as u64 };
            let sx: u64 = if sx0 < (lb.width - 1) as u64 { sx0 } else { (lb.width - 1) as u64 };
            proof {
                assert((sy * lb.width + sx) * 3 + c < lb.height * lb.width * 3) by (nonlinear_arith)
                    requires sy < lb.height, sx < lb.width, c < 3, lb.width >= 1;
                assert(sy * lb.width + sx < lb.height * lb.width) by (nonlinear_arith)
                    requires sy < lb.height, sx < lb.width, lb.width >= 1;
                assert(sy * lb.width <= sy * lb.width + sx);
            }
            let idx = ((sy as usize) * (lb.width as usize) + (sx as usize)) * 3 + c;
            let v = input[idx] as usize;
            if c == 0 { tables.r[v] } else if c == 1 { tables.g[v] } else { tables.b[v] }
        } else {
            if c == 0 { tables.pad_r } else if c == 1 { tables.pad_g } else { tables.pad_b }
        };
        codes.push(code);
        e = e + 1;
    }
    codes
}

/// Letterboxes an interleaved RGB8 image of `in_h x in_w` into a planar
/// `[3][target][target]` tensor of `precision` elements (little-endian):
/// the active region is resampled nearest-neighbour and normalised through
/// `tables`, the rest holds the channels' padding codes. An empty image,
/// an empty target or an input whose length is not `in_h * in_w * 3` is
/// rejected with `InvalidShape`.
pub fn resize_letterbox_and_normalize(
    input: &Vec<u8>,
    in_h: u32,
    in_w: u32,
    target: u32,
    precision: InferencePrecision,
    tables: &ChannelTables,
) -> (r: Result<Vec<u8>, CodecError>)
    requires
        tables.wf(),
        3 * target * target * 4 <= usize::MAX,
    ensures
        r is Ok <==> in_h >= 1 && in_w >= 1 && target >= 1 && input@.len() == in_h * in_w * 3,
        r matches Ok(out) ==> out@.len() == 3 * target * target * precision.spec_bytes(),
        r matches Ok(out) ==> forall|e: int, k: int| 0 <= e < 3 * target * target && 0 <= k < precision.spec_bytes()
            ==> out@[e * precision.spec_bytes() + k] == #[trigger] spec_code_byte(
                spec_letterbox_code(input@, spec_letterbox(in_h, in_w, target), *tables, e), k),
{
    let lb = match calculate_letterbox(in_h, in_w, target) {
        Ok(p) => p,
        Err(e) => { return Err(e); },
    };
    proof {
        assert(in_h * in_w * 3 <= 0xffff_ffff * 0xffff_ffff * 3) by (nonlinear_arith)
            requires in_h <= 0xffff_ffff, in_w <= 0xffff_ffff;
    }
    if (input.len() as u128) != (in_h as u128) * (in_w as u128) * 3 {
        return Err(CodecError::InvalidShape);
    }
    let codes = letterbox_codes(input, &lb, tables);
    let out = pack_elements(&codes, precision);
    proof {
        assert forall|e: int, k: int| 0 <= e < 3 * target * target && 0 <= k < precision.spec_bytes()
            implies out@[e * precision.spec_bytes() + k] == #[trigger] spec_code_byte(
                spec_letterbox_code(input@, spec_letterbox(in_h, in_w, target), *tables, e), k) by {
            assert(codes@[e] == spec_letterbox_code(input@, lb, *tables, e));
            assert(out@[e * precision.spec_bytes() + k] == spec_code_byte(codes@[e], k));
        }
    }
    Ok(out)
}

/// Pre-processing for the detection model: letterbox to 640 x 640 with
/// `tables` (pixel / 255 and the gray padding value 114 / 255).
pub fn preprocess(frame: &RawFrame, precision: InferencePrecision, tables: &ChannelTables) -> (r: Result<Vec<u8>, CodecError>)
    requires
        tables.wf(),
    ensures
        r is Ok <==> frame.height >= 1 && frame.width >= 1 && frame.data@.len() == frame.height * frame.width * 3,
        r matches Ok(out) ==> out@.len() == 3 * YOLO_TARGET_SIZE * YOLO_TARGET_SIZE * precision.spec_bytes(),
        r matches Ok(out) ==> forall|e: int, k: int| 0 <= e < 3 * YOLO_TARGET_SIZE * YOLO_TARGET_SIZE && 0 <= k < precision.spec_bytes()
            ==> out@[e * precision.spec_bytes() + k] == #[trigger] spec_code_byte(
                spec_letterbox_code(frame.data@, spec_letterbox(frame.height, frame.width, YOLO_TARGET_SIZE), *tables, e), k),
{
    resize_letterbox_and_normalize(&frame.data, frame.height, frame.width, YOLO_TARGET_SIZE, precision, tables)
}

} // verus!
