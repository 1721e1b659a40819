//! Pre-processing for the embedding model: shortest-edge resize with a
//! centre crop, and cropping of detection boxes out of a frame.
use vstd::prelude::*;
use crate::config::{FIX_ONE, InferencePrecision};
use crate::letterbox::{CodecError, spec_letterbox};
use crate::nms::{ResultBBOX, BOX_COORD_LIMIT};
use crate::resize::{ChannelTables, pack_elements, resize_letterbox_and_normalize, spec_code_byte, spec_letterbox_code};
use crate::results::spec_pixel;
use crate::source::RawFrame;

verus! {

/// Shortest edge after resizing, and side of the centre crop.
pub const SHORTEST_EDGE: u32 = 256;
pub const CROP_SIZE: u32 = 224;

/// `round(a / b)` for non-negative `a` and positive `b` (halves up).
pub open spec fn spec_round_div(a: int, b: int) -> int {
    (2 * a + b) / (2 * b)
}

/// Geometry of a shortest-edge resize followed by a centre crop.
#[derive(Clone, Copy, Debug, PartialEq, Eq, Structural)]
pub struct CropParams {
    pub height: u32,
    pub width: u32,
    pub new_width: u64,
    pub new_height: u64,
    pub crop_x: u64,
    pub crop_y: u64,
    pub crop_width: u32,
    pub crop_height: u32,
    pub crop: u32,
}

pub open spec fn spec_crop_params(height: u32, width: u32, shortest: u32, crop: u32) -> CropParams {
    let m: int = if height <= width { height as int } else { width as int };
    let nw = spec_round_div(width * shortest, m);
    let nh = spec_round_div(height * shortest, m);
    CropParams {
        height,
        width,
        new_width: nw as u64,
        new_height: nh as u64,
        crop_x: (if nw > crop { (nw - crop) / 2 } else { 0 }) as u64,
        crop_y: (if nh > crop { (nh - crop) / 2 } else { 0 }) as u64,
        crop_width: (if nw < crop { nw } else { crop as int }) as u32,
        crop_height: (if nh < crop { nh } else { crop as int }) as u32,
        crop,
    }
}

impl CropParams {
    pub open spec fn wf(self) -> bool {
        &&& 1 <= self.height
        &&& 1 <= self.width
        &&& 1 <= self.new_width
        &&& 1 <= self.new_height
        &&& self.crop_width <= self.crop
        &&& self.crop_height <= self.crop
    }

    /// Source column of crop column `x`: the nearest source pixel of resized
    /// column `x + crop_x`, clamped to the image.
    pub open spec fn spec_source_col(self, x: int) -> int {
        let v = spec_round_div((x + self.crop_x) * self.width, self.new_width as int);
        if v < self.width - 1 { v } else { self.width - 1 }
    }

    pub open spec fn spec_source_row(self, y: int) -> int {
        let v = spec_round_div((y + self.crop_y) * self.height, self.new_height as int);
        if v < self.height - 1 { v } else { self.height - 1 }
    }
}

/// Shortest-edge resize to `shortest` and centre crop of `crop`:
/// `new = round(dim * shortest / min(height, width))`,
/// `crop_offset = max(new - crop, 0) / 2`, `crop_extent = min(crop, new)`.
pub fn calculate_resize_shortest_edge(height: u32, width: u32, shortest: u32, crop: u32) -> (r: CropParams)
    requires
        1 <= height,
        1 <= width,
        1 <= shortest,
    ensures
        r == spec_crop_params(height, width, shortest, crop),
        r.wf(),
{
    let m: u128 = if height <= width { height as u128 } else { width as u128 };
    proof {
        assert((width as u128) * (shortest as u128) <= 0xffff_ffff * 0xffff_ffff) by (nonlinear_arith)
            requires width <= 0xffff_ffff, shortest <= 0xffff_ffff;
        assert((height as u128) * (shortest as u128) <= 0xffff_ffff * 0xffff_ffff) by (nonlinear_arith)
            requires height <= 0xffff_ffff, shortest <= 0xffff_ffff;
    }
    let ws: u128 = (width as u128) * (shortest as u128);
    let hs: u128 = (height as u128) * (shortest as u128);
    proof {
        assert(ws <= 0xffff_ffff * 0xffff_ffff) by (nonlinear_arith)
            requires ws == width * shortest, width <= 0xffff_ffff, shortest <= 0xffff_ffff;
        assert(hs <= 0xffff_ffff * 0xffff_ffff) by (nonlinear_arith)
            requires hs == height * shortest, height <= 0xffff_ffff, shortest <= 0xffff_ffff;
        assert(spec_round_div(width * shortest, m as int) >= 1) by (nonlinear_arith)
            requires width >= m, m >= 1, shortest >= 1;
        assert(spec_round_div(height * shortest, m as int) >= 1) by (nonlinear_arith)
            requires height >= m, m >= 1, shortest >= 1;
        assert(spec_round_div(width * shortest, m as int) <= width * shortest + 1) by (nonlinear_arith)
            requires width * shortest >= 0, m >= 1;
        assert(spec_round_div(height * shortest, m as int) <= height * shortest + 1) by (nonlinear_arith)
            requires height * shortest >= 0, m >= 1;
    }
    let nw = ((2 * ws + m) / (2 * m)) as u64;
    let nh = ((2 * hs + m) / (2 * m)) as u64;
    let c = crop as u64;
    CropParams {
        height,
        width,
        new_width: nw,
        new_height: nh,
        crop_x: if nw > c { (nw - c) / 2 } else { 0 },
        crop_y: if nh > c { (nh - c) / 2 } else { 0 },
        crop_width: if nw < c { nw as u32 } else { crop },
        crop_height: if nh < c { nh as u32 } else { crop },
        crop,
    }
}

/// Code of output element `e` of the planar `[3][crop][crop]` tensor: inside
/// the covered region, the table code of the nearest source pixel; elsewhere
/// the channel's fill code.
pub open spec fn spec_crop_code(input: Seq<u8>, p: CropParams, t: ChannelTables, e: int) -> u32 {
    let cc = p.crop as int;
    let c = e / (cc * cc);
    let y = (e / cc) % cc;
    let x = e % cc;
    if y < p.crop_height && x < p.crop_width {
        let sy = p.spec_source_row(y);
        let sx = p.spec_source_col(x);
        t.spec_code(c, input[(sy * p.width + sx) * 3 + c] as int)
    } else {
        t.spec_pad(c)
    }
}

fn crop_codes(input: &Vec<u8>, p: &CropParams, tables: &ChannelTables) -> (codes: Vec<u32>)
    requires
        p.wf(),
        tables.wf(),
        input@.len() == p.height * p.width * 3,
        1 <= p.crop <= 65535,
        3 * p.crop * p.crop * 4 <= usize::MAX,
    ensures
        codes@.len() == 3 * p.crop * p.crop,
        forall|e: int| 0 <= e < codes@.len() ==> #[trigger] codes@[e] == spec_crop_code(input@, *p, *tables, e),
{
    let cs = p.crop as usize;
    proof {
        assert(cs * cs <= 65535 * 65535) by (nonlinear_arith) requires cs <= 65535;
        assert(cs * cs >= 1) by (nonlinear_arith) requires cs >= 1;
    }
    let plane = cs * cs;
    proof {
        assert(3 * plane * 4 == 3 * cs * cs * 4) by (nonlinear_arith) requires plane == cs * cs;
    }
    let total = 3 * plane;
    let n = input.len();
    let mut codes: Vec<u32> = Vec::with_capacity(total);
    let mut e: usize = 0;
    while e < total
        invariant
            p.wf(),
            tables.wf(),
            input@.len() == p.height * p.width * 3,
            n == input@.len(),
            cs == p.crop,
            1 <= cs <= 65535,
            plane == cs * cs,
            plane >= 1,
            total == 3 * plane,
            e <= total,
            codes@.len() == e,
            forall|i: int| 0 <= i < e ==> #[trigger] codes@[i] == spec_crop_code(input@, *p, *tables, i),
        decreases total - e,
    {
        let c = e / plane;
        let y = (e / cs) % cs;
        let x = e % cs;
        proof {
            assert(c < 3) by (nonlinear_arith)
                requires e < 3 * plane, c == e / plane, plane >= 1;
        }
        let code = if y < p.crop_height as usize && x < p.crop_width as usize {
            let xx = (x as u128) + (p.crop_x as u128);
            let yy = (y as u128) + (p.crop_y as u128);
            proof {
                assert(xx * p.width <= 0x2_0000_0000_0000_0000 * 0xffff_ffff) by (nonlinear_arith)
                    requires xx <= 0x2_0000_0000_0000_0000, p.width <= 0xffff_ffff;
                assert(yy * p.height <= 0x2_0000_0000_0000_0000 * 0xffff_ffff) by (nonlinear_arith)
                    requires yy <= 0x2_0000_0000_0000_0000, p.height <= 0xffff_ffff;
            }
            let xw: u128 = xx * (p.width as u128);
            let yh: u128 = yy * (p.height as u128);
            let sx0 = (2 * xw + (p.new_width as u128)) / (2 * (p.new_width as u128));
            let sy0 = (2 * yh + (p.new_height as u128)) / (2 * (p.new_height as u128));
            let sx: u128 = if sx0 < (p.width - 1) as u128 { sx0 } else { (p.width - 1) as u128 };
            let sy: u128 = if sy0 < (p.height - 1) as u128 { sy0 } else { (p.height - 1) as u128 };
            proof {
                assert((sy * p.width + sx) * 3 + c < p.height * p.width * 3) by (nonlinear_arith)
                    requires sy < p.height, sx < p.width, c < 3, p.width >= 1;
                assert(sy * p.width + sx < p.height * p.width) by (nonlinear_arith)
                    requires sy < p.height, sx < p.width, p.width >= 1;
                assert(sy * p.width <= sy * p.width + sx);
            }
            let idx = ((sy as usize) * (p.width as usize) + (sx as usize)) * 3 + c;
            let v = input[idx] as usize;
            if c == 0 { tables.r[v] } else if c == 1 { tables.g[v] } else { tables.b[v] }
        } else {
            if c == 0 { tables.pad_r } else if c == 1 { tables.pad_g } else { tables.pad_b }
        };
        codes.push(code);
        e = e + 1;
    }
    codes
}

/// Shortest-edge resize to 256, centre crop to 224 x 224, normalisation
/// through `tables` and planar packing in `precision`. Pixels the resized
/// image does not cover hold the channels' fill codes. A frame with an empty
/// side, or data whose length is not `height * width * 3`, is rejected with
/// `InvalidShape`.
pub fn resize_center_crop_and_normalize(frame: &RawFrame, precision: InferencePrecision, tables: &ChannelTables) -> (r: Result<Vec<u8>, CodecError>)
    requires
        tables.wf(),
    ensures
        r is Ok <==> 1 <= frame.height && 1 <= frame.width
            && frame.data@.len() == frame.height * frame.width * 3,
        r matches Ok(out) ==> out@.len() == 3 * CROP_SIZE * CROP_SIZE * precision.spec_bytes(),
        r matches Ok(out) ==> forall|e: int, k: int| 0 <= e < 3 * CROP_SIZE * CROP_SIZE && 0 <= k < precision.spec_bytes()
            ==> out@[e * precision.spec_bytes() + k] == #[trigger] spec_code_byte(
                spec_crop_code(frame.data@, spec_crop_params(frame.height, frame.width, SHORTEST_EDGE, CROP_SIZE), *tables, e), k),
{
    let h = frame.height;
    let w = frame.width;
    if h == 0 || w == 0 {
        return Err(CodecError::InvalidShape);
    }
    proof {
        assert(h * w * 3 <= 0xffff_ffff * 0xffff_ffff * 3) by (nonlinear_arith)
            requires h <= 0xffff_ffff, w <= 0xffff_ffff;
    }
    if (frame.data.len() as u128) != (h as u128) * (w as u128) * 3 {
        return Err(CodecError::InvalidShape);
    }
    let p = calculate_resize_shortest_edge(h, w, SHORTEST_EDGE, CROP_SIZE);
    let codes = crop_codes(&frame.data, &p, tables);
    let out = pack_elements(&codes, precision);
    proof {
        assert forall|e: int, k: int| 0 <= e < 3 * CROP_SIZE * CROP_SIZE && 0 <= k < precision.spec_bytes()
            implies out@[e * precision.spec_bytes() + k] == #[trigger] spec_code_byte(
                spec_crop_code(frame.data@, spec_crop_params(h, w, SHORTEST_EDGE, CROP_SIZE), *tables, e), k) by {
            assert(codes@[e] == spec_crop_code(frame.data@, p, *tables, e));
        }
    }
    Ok(out)
}

/// Whole-frame pre-processing for the embedding model: letterbox to
/// 224 x 224 through `tables` (ImageNet normalisation).
pub fn preprocess(frame: &RawFrame, precision: InferencePrecision, tables: &ChannelTables) -> (r: Result<Vec<u8>, CodecError>)
    requires
        tables.wf(),
    ensures
        r is Ok <==> frame.height >= 1 && frame.width >= 1 && frame.data@.len() == frame.height * frame.width * 3,
        r matches Ok(out) ==> out@.len() == 3 * CROP_SIZE * CROP_SIZE * precision.spec_bytes(),
        r matches Ok(out) ==> forall|e: int, k: int| 0 <= e < 3 * CROP_SIZE * CROP_SIZE && 0 <= k < precision.spec_bytes()
            ==> out@[e * precision.spec_bytes() + k] == #[trigger] spec_code_byte(
                spec_letterbox_code(frame.data@, spec_letterbox(frame.height, frame.width, CROP_SIZE), *tables, e), k),
{
    resize_letterbox_and_normalize(&frame.data, frame.height, frame.width, CROP_SIZE, precision, tables)
}

/// Pixel rectangle `[x1, x2) x [y1, y2)` of a box, clamped to the frame.
pub open spec fn spec_box_rect(b: ResultBBOX, height: u32, width: u32) -> (int, int, int, int) {
    let x1 = spec_pixel(b.x1);
    let y1 = spec_pixel(b.y1);
    let x2 = if spec_pixel(b.x2) < width { spec_pixel(b.x2) } else { width as int };
    let y2 = if spec_pixel(b.y2) < height { spec_pixel(b.y2) } else { height as int };
    (x1, y1, x2, y2)
}

/// Byte `e` of the crop of rows `[y1, y1 + h)` and columns `[x1, x1 + w)`
/// of an interleaved RGB8 image of width `width`.
pub open spec fn spec_crop_byte(data: Seq<u8>, width: int, x1: int, y1: int, w: int, e: int) -> u8 {
    data[(y1 + e / (w * 3)) * width * 3 + x1 * 3 + e % (w * 3)]
}

/// The interleaved RGB8 crop of box `b`'s clamped rectangle.
pub open spec fn spec_box_crop(data: Seq<u8>, height: u32, width: u32, b: ResultBBOX) -> Seq<u8> {
    let (x1, y1, x2, y2) = spec_box_rect(b, height, width);
    Seq::new(((x2 - x1) * (y2 - y1) * 3) as nat, |e: int| spec_crop_byte(data, width as int, x1, y1, x2 - x1, e))
}

/// `t` is the 224 x 224 letterbox, through `tables`, of box `b`'s crop.
pub open spec fn spec_box_tensor(t: Seq<u8>, data: Seq<u8>, height: u32, width: u32, b: ResultBBOX, tables: ChannelTables, precision: InferencePrecision) -> bool {
    let (x1, y1, x2, y2) = spec_box_rect(b, height, width);
    let lb = spec_letterbox((y2 - y1) as u32, (x2 - x1) as u32, CROP_SIZE);
    &&& t.len() == 3 * CROP_SIZE * CROP_SIZE * precision.spec_bytes()
    &&& forall|e: int, k: int| 0 <= e < 3 * CROP_SIZE * CROP_SIZE && 0 <= k < precision.spec_bytes()
        ==> t[e * precision.spec_bytes() + k] == #[trigger] spec_code_byte(
            spec_letterbox_code(spec_box_crop(data, height, width, b), lb, tables, e), k)
}

/// Copies the rectangle `[x1, x1 + w) x [y1, y1 + h)` out of an image.
fn crop_region(data: &Vec<u8>, height: u32, width: u32, x1: usize, y1: usize, w: usize, h: usize) -> (r: Vec<u8>)
    requires
        data@.len() == height * width * 3,
        1 <= w,
        1 <= h,
        x1 + w <= width,
        y1 + h <= height,
    ensures
        r@.len() == w * h * 3,
        forall|e: int| 0 <= e < r@.len() ==> #[trigger] r@[e] == spec_crop_byte(data@, width as int, x1 as int, y1 as int, w as int, e),
{
    let n = data.len();
    proof {
        assert(w * h * 3 <= width * height * 3) by (nonlinear_arith)
            requires w <= width, h <= height;
        assert(w * 3 <= w * h * 3) by (nonlinear_arith)
            requires h >= 1;
        assert(w * 3 * h == w * h * 3) by (nonlinear_arith);
    }
    let row = w * 3;
    let total = row * h;
    let mut r: Vec<u8> = Vec::with_capacity(total);
    let mut e: usize = 0;
    while e < total
        invariant
            data@.len() == height * width * 3,
            n == data@.len(),
            1 <= w,
            1 <= h,
            x1 + w <= width,
            y1 + h <= height,
            row == w * 3,
            total == row * h,
            total == w * h * 3,
            e <= total,
            r@.len() == e,
            forall|i: int| 0 <= i < e ==> #[trigger] r@[i] == spec_crop_byte(data@, width as int, x1 as int, y1 as int, w as int, i),
        decreases total - e,
    {
        let y = e / row;
        let rem = e % row;
        proof {
            assert(y < h) by (nonlinear_arith)
                requires e < row * h, y == e / row, row >= 1;
            assert((y1 + y) * width * 3 + x1 * 3 + rem < height * width * 3) by (nonlinear_arith)
                requires y1 + y < height, rem < w * 3, x1 + w <= width;
            assert((y1 + y) * width * 3 <= (y1 + y) * width * 3 + x1 * 3 + rem);
            assert((y1 + y) * width <= (y1 + y) * width * 3) by (nonlinear_arith);
        }
        let idx = (y1 + y) * (width as usize) * 3 + x1 * 3 + rem;
        r.push(data[idx]);
        e = e + 1;
    }
    r
}

/// Crops each detection box out of the frame (clamped to it) and
/// letterboxes the crop to 224 x 224 through `tables`. A box whose clamped
/// rectangle is empty, or a frame whose data does not match its size, fails
/// the whole call with `InvalidShape`.
pub fn preprocess_bboxes(frame: &RawFrame, bboxes: &Vec<ResultBBOX>, precision: InferencePrecision, tables: &ChannelTables) -> (r: Result<Vec<Vec<u8>>, CodecError>)
    requires
        tables.wf(),
        forall|i: int| 0 <= i < bboxes@.len() ==> (#[trigger] bboxes@[i]).in_range(),
    ensures
        r is Ok ==> frame.data@.len() == frame.height * frame.width * 3,
        r is Ok ==> forall|i: int| 0 <= i < bboxes@.len() ==> {
            let (x1, y1, x2, y2) = spec_box_rect(#[trigger] bboxes@[i], frame.height, frame.width);
            x1 < x2 && y1 < y2
        },
        frame.data@.len() == frame.height * frame.width * 3
            && (forall|i: int| 0 <= i < bboxes@.len() ==> {
                let (x1, y1, x2, y2) = spec_box_rect(#[trigger] bboxes@[i], frame.height, frame.width);
                x1 < x2 && y1 < y2
            }) ==> r is Ok,
        r matches Ok(v) ==> v@.len() == bboxes@.len(),
        r matches Ok(v) ==> forall|i: int| 0 <= i < v@.len() ==>
            spec_box_tensor((#[trigger] v@[i])@, frame.data@, frame.height, frame.width, bboxes@[i], *tables, precision),
{
    let h = frame.height;
    let w = frame.width;
    proof {
        assert(h * w * 3 <= 0xffff_ffff * 0xffff_ffff * 3) by (nonlinear_arith)
            requires h <= 0xffff_ffff, w <= 0xffff_ffff;
    }
    if (frame.data.len() as u128) != (h as u128) * (w as u128) * 3 {
        return Err(CodecError::InvalidShape);
    }
    let mut out: Vec<Vec<u8>> = Vec::with_capacity(bboxes.len());
    let mut i: usize = 0;
    while i < bboxes.len()
        invariant
            i <= bboxes@.len(),
            tables.wf(),
            frame.data@.len() == h * w * 3,
            h == frame.height,
            w == frame.width,
            forall|j: int| 0 <= j < bboxes@.len() ==> (#[trigger] bboxes@[j]).in_range(),
            out@.len() == i,
            forall|j: int| 0 <= j < i ==> {
                let (x1, y1, x2, y2) = spec_box_rect(#[trigger] bboxes@[j], h, w);
                x1 < x2 && y1 < y2
            },
            forall|j: int| 0 <= j < i ==>
                spec_box_tensor((#[trigger] out@[j])@, frame.data@, h, w, bboxes@[j], *tables, precision),
        decreases bboxes@.len() - i,
    {
        let b = bboxes[i];
        proof { assert(bboxes@[i as int].in_range()); }
        let x1 = pixel_of(b.x1);
        let y1 = pixel_of(b.y1);
        let x2p = pixel_of(b.x2);
        let y2p = pixel_of(b.y2);
        let x2 = if x2p < w as u64 { x2p } else { w as u64 };
        let y2 = if y2p < h as u64 { y2p } else { h as u64 };
        if x2 <= x1 || y2 <= y1 {
            return Err(CodecError::InvalidShape);
        }
        let bw = (x2 - x1) as usize;
        let bh = (y2 - y1) as usize;
        let crop = crop_region(&frame.data, h, w, x1 as usize, y1 as usize, bw, bh);
        proof {
            assert(3 * 224 * 224 * 4 <= usize::MAX);
            assert(bw * bh * 3 == (bh as u32) * (bw as u32) * 3) by (nonlinear_arith)
                requires bw <= 0xffff_ffff, bh <= 0xffff_ffff;
        }
        let tensor = match resize_letterbox_and_normalize(&crop, bh as u32, bw as u32, CROP_SIZE, precision, tables) {
            Ok(t) => t,
            Err(e) => { return Err(e); },
        };
        proof {
            let sc = spec_box_crop(frame.data@, h, w, b);
            assert(crop@ =~= sc);
            assert(spec_box_tensor(tensor@, frame.data@, h, w, b, *tables, precision));
        }
        out.push(tensor);
        i = i + 1;
    }
    Ok(out)
}

fn pixel_of(v: i64) -> (r: u64)
    requires
        -BOX_COORD_LIMIT <= v <= BOX_COORD_LIMIT,
    ensures
        r == spec_pixel(v),
{
    if v <= 0 { 0 } else { (v / FIX_ONE) as u64 }
}

} // verus!
