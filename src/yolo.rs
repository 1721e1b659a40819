//! Decoding of detection-model output: per-anchor boxes, best class,
//! confidence filter, inverse letterbox and class-aware suppression.
use vstd::prelude::*;
use crate::config::{FIX_ONE, InferencePrecision};
use crate::letterbox::{CodecError, LetterboxParams, calculate_letterbox, spec_letterbox};
use crate::nms::{ResultBBOX, spec_nms, spec_sort_desc, all_in_range, bbox_nms, BOX_COORD_LIMIT};
use crate::source::RawFrame;
use crate::tensor::{spec_element, element_count, read_element, VALUE_LIMIT};

verus! {

/// Side of the square detection-model input.
pub const YOLO_TARGET_SIZE: u32 = 640;

/// Half of `w`, rounded toward zero.
pub open spec fn spec_half(w: int) -> int {
    if w >= 0 { w / 2 } else { -((-w) / 2) }
}

/// Whether an output of `len` bytes matches the declared `[features, anchors]`
/// shape, with at least the four box rows.
pub open spec fn spec_shape_ok(len: nat, shape: Seq<i64>, precision: InferencePrecision) -> bool {
    &&& shape.len() == 2
    &&& shape[0] >= 4
    &&& shape[1] >= 0
    &&& shape[0] - 4 <= u32::MAX
    &&& shape[0] * shape[1] * precision.spec_bytes() == len
}

pub open spec fn frame_dims_ok(height: u32, width: u32) -> bool {
    1 <= height && 1 <= width
}

/// Best class among the first `n` class rows of anchor `a`: the first
/// class with the largest score above zero, `(0, 0)` when none is.
pub open spec fn spec_best(bytes: Seq<u8>, p: InferencePrecision, anchors: int, a: int, n: int) -> (u32, int)
    decreases n,
{
    if n <= 0 {
        (0u32, 0int)
    } else {
        let prev = spec_best(bytes, p, anchors, a, n - 1);
        let v = spec_element(bytes, p, (4 + n - 1) * anchors + a);
        if v > prev.1 { ((n - 1) as u32, v) } else { prev }
    }
}

/// The box of anchor `a`: centre and size read from the four box rows,
/// converted to corners and mapped back through the letterbox; its score is
/// the best class score, capped at 1.
pub open spec fn spec_anchor_box(bytes: Seq<u8>, p: InferencePrecision, anchors: int, classes: int, a: int, lb: LetterboxParams) -> ResultBBOX {
    let x = spec_element(bytes, p, a);
    let y = spec_element(bytes, p, anchors + a);
    let w = spec_element(bytes, p, 2 * anchors + a);
    let h = spec_element(bytes, p, 3 * anchors + a);
    let best = spec_best(bytes, p, anchors, a, classes);
    ResultBBOX {
        x1: lb.spec_to_original_x(x - spec_half(w)) as i64,
        y1: lb.spec_to_original_y(y - spec_half(h)) as i64,
        x2: lb.spec_to_original_x(x + spec_half(w)) as i64,
        y2: lb.spec_to_original_y(y + spec_half(h)) as i64,
        class: best.0,
        score: (if best.1 > FIX_ONE { FIX_ONE as int } else { best.1 }) as i64,
    }
}

/// Whether an anchor's box is emitted: its score reaches `conf` and it
/// keeps a positive width and height inside the frame.
pub open spec fn spec_keep(b: ResultBBOX, conf: i64) -> bool {
    b.score >= conf && b.x1 < b.x2 && b.y1 < b.y2
}

/// Emitted boxes of the first `n` anchors, in anchor order.
pub open spec fn spec_candidates(bytes: Seq<u8>, p: InferencePrecision, anchors: int, classes: int, lb: LetterboxParams, conf: i64, n: int) -> Seq<ResultBBOX>
    decreases n,
{
    if n <= 0 {
        Seq::empty()
    } else {
        let prev = spec_candidates(bytes, p, anchors, classes, lb, conf, n - 1);
        let b = spec_anchor_box(bytes, p, anchors, classes, n - 1, lb);
        if spec_keep(b, conf) { prev.push(b) } else { prev }
    }
}

/// The decoded detections of a valid output.
pub open spec fn spec_postprocess(bytes: Seq<u8>, height: u32, width: u32, shape: Seq<i64>, p: InferencePrecision, conf: i64, iou: i64) -> Seq<ResultBBOX> {
    let anchors = shape[1] as int;
    let classes = shape[0] - 4;
    let lb = spec_letterbox(height, width, YOLO_TARGET_SIZE);
    spec_nms(spec_sort_desc(spec_candidates(bytes, p, anchors, classes, lb, conf, anchors)), iou)
}

/// Corners of `b` within a `height x width` frame and score in `[0, 1]`.
pub open spec fn box_bounds(b: ResultBBOX, height: u32, width: u32) -> bool {
    &&& 0 <= b.x1 <= width * FIX_ONE
    &&& 0 <= b.x2 <= width * FIX_ONE
    &&& 0 <= b.y1 <= height * FIX_ONE
    &&& 0 <= b.y2 <= height * FIX_ONE
    &&& 0 <= b.score <= FIX_ONE
}

/// A non-empty box inside a `height x width` frame, with a score in
/// `[conf, 1]`.
pub open spec fn box_in_frame(b: ResultBBOX, height: u32, width: u32, conf: i64) -> bool {
    &&& box_bounds(b, height, width)
    &&& b.x1 < b.x2
    &&& b.y1 < b.y2
    &&& b.score >= conf
}

pub open spec fn all_in_frame(s: Seq<ResultBBOX>, height: u32, width: u32, conf: i64) -> bool {
    forall|i: int| 0 <= i < s.len() ==> box_in_frame(#[trigger] s[i], height, width, conf)
}

/// Checks the output shape against the byte length.
fn check_shape(len: usize, shape: &Vec<i64>, precision: InferencePrecision) -> (r: bool)
    ensures
        r <==> spec_shape_ok(len as nat, shape@, precision),
{
    if shape.len() != 2 {
        return false;
    }
    let f = shape[0];
    let a = shape[1];
    if f < 4 || a < 0 || f - 4 > u32::MAX as i64 {
        return false;
    }
    proof {
        assert((f as u128) * (a as u128) <= 0x4000_0000_0000_0000_0000_0000_0000_0000u128) by (nonlinear_arith)
            requires 0 <= f <= i64::MAX, 0 <= a <= i64::MAX;
    }
    let fa: u128 = (f as u128) * (a as u128);
    if fa > len as u128 {
        proof {
            assert(f * a * precision.spec_bytes() != len) by (nonlinear_arith)
                requires f * a > len, precision.spec_bytes() >= 2, len >= 0;
        }
        return false;
    }
    fa * (precision.element_bytes() as u128) == len as u128
}

/// Best class of anchor `a` over the `classes` class rows.
fn best_class(bytes: &Vec<u8>, precision: InferencePrecision, anchors: usize, classes: usize, a: usize) -> (r: (u32, i64))
    requires
        a < anchors,
        (4 + classes) * anchors <= element_count(bytes@.len(), precision),
        classes <= u32::MAX,
    ensures
        r.0 == spec_best(bytes@, precision, anchors as int, a as int, classes as int).0,
        r.1 == spec_best(bytes@, precision, anchors as int, a as int, classes as int).1,
        0 <= r.1 <= VALUE_LIMIT,
{
    let n = bytes.len();
    let mut max_score: i64 = 0;
    let mut max_class: u32 = 0;
    let mut c: usize = 0;
    while c < classes
        invariant
            c <= classes <= u32::MAX,
            a < anchors,
            (4 + classes) * anchors <= element_count(bytes@.len(), precision),
            element_count(bytes@.len(), precision) <= usize::MAX,
            max_class == spec_best(bytes@, precision, anchors as int, a as int, c as int).0,
            max_score == spec_best(bytes@, precision, anchors as int, a as int, c as int).1,
            0 <= max_score <= VALUE_LIMIT,
        decreases classes - c,
    {
        proof {
            assert((4 + c) * anchors + a < (4 + classes) * anchors) by (nonlinear_arith)
                requires c < classes, a < anchors;
            assert(4 + c <= (4 + c) * anchors) by (nonlinear_arith)
                requires a < anchors, c >= 0;
        }
        let v = read_element(bytes, precision, (4 + c) * anchors + a);
        if v > max_score {
            max_score = v;
            max_class = c as u32;
        }
        c = c + 1;
    }
    (max_class, max_score)
}

/// Box of anchor `a` (see `spec_anchor_box`).
fn anchor_box(bytes: &Vec<u8>, precision: InferencePrecision, anchors: usize, classes: usize, a: usize, lb: &LetterboxParams) -> (r: ResultBBOX)
    requires
        a < anchors,
        (4 + classes) * anchors <= element_count(bytes@.len(), precision),
        classes <= u32::MAX,
        lb.wf(),
        frame_dims_ok(lb.height, lb.width),
    ensures
        r == spec_anchor_box(bytes@, precision, anchors as int, classes as int, a as int, *lb),
        r.in_range(),
        box_bounds(r, lb.height, lb.width),
{
    let n = bytes.len();
    proof {
        assert(3 * anchors + a < (4 + classes) * anchors) by (nonlinear_arith)
            requires a < anchors;
    }
    let x = read_element(bytes, precision, a);
    let y = read_element(bytes, precision, anchors + a);
    let w = read_element(bytes, precision, 2 * anchors + a);
    let h = read_element(bytes, precision, 3 * anchors + a);
    let hw = if w >= 0 { w / 2 } else { -((-w) / 2) };
    let hh = if h >= 0 { h / 2 } else { -((-h) / 2) };
    let (class, score) = best_class(bytes, precision, anchors, classes, a);
    let x1 = lb.to_original_x(x - hw);
    let y1 = lb.to_original_y(y - hh);
    let x2 = lb.to_original_x(x + hw);
    let y2 = lb.to_original_y(y + hh);
    proof {
        assert(lb.width * FIX_ONE <= BOX_COORD_LIMIT) by (nonlinear_arith)
            requires lb.width <= u32::MAX;
        assert(lb.height * FIX_ONE <= BOX_COORD_LIMIT) by (nonlinear_arith)
            requires lb.height <= u32::MAX;
    }
    let score = if score > FIX_ONE { FIX_ONE } else { score };
    ResultBBOX { x1, y1, x2, y2, class, score }
}

/// Decodes a detection model's raw output for one frame.
///
/// The output is a `[features][anchors]` tensor (`features = 4 + classes`);
/// rows 0..3 hold each anchor's centre and size in letterbox pixels, the
/// remaining rows its class scores. Each anchor's box is mapped back to
/// frame pixels (clamped to the frame) and its best score capped at 1; it
/// is emitted when that score reaches `conf_threshold` and the box keeps a
/// positive width and height. Emitted boxes are ordered by descending score
/// and suppressed per class above `nms_iou_threshold`.
///
/// A shape that is not two-dimensional with at least four rows, a byte
/// length that does not match it, or a frame side of zero is rejected with
/// `InvalidShape`.
pub fn postprocess(
    results: &Vec<u8>,
    original_frame: &RawFrame,
    output_shape: &Vec<i64>,
    precision: InferencePrecision,
    conf_threshold: i64,
    nms_iou_threshold: i64,
) -> (r: Result<Vec<ResultBBOX>, CodecError>)
    requires
        0 <= nms_iou_threshold <= FIX_ONE,
    ensures
        r is Ok <==> spec_shape_ok(results@.len(), output_shape@, precision)
            && frame_dims_ok(original_frame.height, original_frame.width),
        r matches Ok(v) ==> v@ == spec_postprocess(results@, original_frame.height, original_frame.width,
            output_shape@, precision, conf_threshold, nms_iou_threshold),
        r matches Ok(v) ==> all_in_frame(v@, original_frame.height, original_frame.width, conf_threshold),
{
    if !check_shape(results.len(), output_shape, precision) {
        return Err(CodecError::InvalidShape);
    }
    let height = original_frame.height;
    let width = original_frame.width;
    let lb = match calculate_letterbox(height, width, YOLO_TARGET_SIZE) {
        Ok(p) => p,
        Err(e) => { return Err(e); },
    };
    if output_shape[1] == 0 {
        let empty: Vec<ResultBBOX> = Vec::new();
        proof {
            assert(spec_sort_desc(Seq::<ResultBBOX>::empty()) == Seq::<ResultBBOX>::empty());
            assert(spec_nms(Seq::<ResultBBOX>::empty(), nms_iou_threshold) == Seq::<ResultBBOX>::empty());
        }
        return Ok(empty);
    }
    proof {
        let f = output_shape@[0] as int;
        let a = output_shape@[1] as int;
        assert(f * a * precision.spec_bytes() == results@.len());
        assert(f <= results@.len()) by (nonlinear_arith)
            requires f * a * precision.spec_bytes() == results@.len(), a >= 1, f >= 4, precision.spec_bytes() >= 2;
        assert(a <= results@.len()) by (nonlinear_arith)
            requires f * a * precision.spec_bytes() == results@.len(), a >= 1, f >= 4, precision.spec_bytes() >= 2;
    }
    let features = output_shape[0] as usize;
    let anchors = output_shape[1] as usize;
    let classes = features - 4;
    proof {
        assert(features * anchors <= element_count(results@.len(), precision)) by (nonlinear_arith)
            requires
                features * anchors * precision.spec_bytes() == results@.len(),
                precision.spec_bytes() >= 2,
                element_count(results@.len(), precision) == results@.len() / precision.spec_bytes();
    }
    let mut detections: Vec<ResultBBOX> = Vec::new();
    let mut a: usize = 0;
    while a < anchors
        invariant
            a <= anchors,
            (4 + classes) * anchors <= element_count(results@.len(), precision),
            classes <= u32::MAX,
            lb.wf(),
            lb == spec_letterbox(height, width, YOLO_TARGET_SIZE),
            frame_dims_ok(height, width),
            lb.height == height && lb.width == width,
            detections@ == spec_candidates(results@, precision, anchors as int, classes as int, lb, conf_threshold, a as int),
            all_in_range(detections@),
            all_in_frame(detections@, height, width, conf_threshold),
        decreases anchors - a,
    {
        let b = anchor_box(results, precision, anchors, classes, a, &lb);
        if b.score >= conf_threshold && b.x1 < b.x2 && b.y1 < b.y2 {
            detections.push(b);
        }
        a = a + 1;
    }
    let kept = bbox_nms(&detections, nms_iou_threshold);
    proof {
        crate::nms::lemma_bbox_nms_members(detections@, nms_iou_threshold);
        assert forall|i: int| 0 <= i < kept@.len() implies box_in_frame(#[trigger] kept@[i], height, width, conf_threshold) by {
            let k = choose|k: int| 0 <= k < detections@.len() && detections@[k] == kept@[i];
            assert(box_in_frame(detections@[k], height, width, conf_threshold));
        }
    }
    Ok(kept)
}

} // verus!
